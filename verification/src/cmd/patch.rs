//! The patch tool's decision core: validates the command-line options and
//! applies a patch to bytes the caller has already read.

use crate::bspatch::Bspatch;
use crate::bspatch::header_ok;
use crate::bspatch::patch_ctrl_sec;
use crate::bspatch::patch_delta_sec;
use crate::bspatch::patch_extra_sec;
use crate::bspatch::replay_raw;
use crate::bspatch::res_view;
use crate::bz::bz_of;
use crate::bz::unbz_of;
use crate::error::Error;
use vstd::prelude::*;

verus! {

/// Runs the patcher: rejects a source and patch that would both come from
/// standard input, parses the patch, and reconstructs the target.
pub fn execute(
    source: &[u8],
    patch: &[u8],
    source_stdin: bool,
    patch_stdin: bool,
    buffer_size: Option<usize>,
) -> (r: Result<Vec<u8>, Error>)
    ensures
        source_stdin && patch_stdin ==> r == Err::<Vec<u8>, Error>(Error::InvalidArgument),
        !(source_stdin && patch_stdin) && !header_ok(patch@) ==> r == Err::<Vec<u8>, Error>(
            Error::InvalidData,
        ),
        !(source_stdin && patch_stdin) && header_ok(patch@) ==> ({
            let c = unbz_of(patch_ctrl_sec(patch@));
            let d = unbz_of(patch_delta_sec(patch@));
            let e = unbz_of(patch_extra_sec(patch@));
            if c is Some && d is Some && e is Some {
                res_view(r) == replay_raw(source@, c->0, d->0, e->0, 0, 0, 0, Seq::<u8>::empty())
            } else {
                r == Err::<Vec<u8>, Error>(Error::InvalidData)
            }
        }),
        !(source_stdin && patch_stdin) && header_ok(patch@) ==> forall|
            cb: Seq<u8>,
            db: Seq<u8>,
            eb: Seq<u8>,
            lc: u32,
            ld: u32,
            le: u32,
        |
            #![trigger bz_of(cb, lc), bz_of(db, ld), bz_of(eb, le)]
            (patch_ctrl_sec(patch@) == bz_of(cb, lc) && patch_delta_sec(patch@) == bz_of(db, ld)
                && patch_extra_sec(patch@) == bz_of(eb, le)) ==> res_view(r) == replay_raw(
                source@,
                cb,
                db,
                eb,
                0,
                0,
                0,
                Seq::<u8>::empty(),
            ),
{
    // Set up input/output.
    if source_stdin && patch_stdin {
        return Err(Error::InvalidArgument);
    }

    // Set up the delta patcher.
    let mut bspatch = match Bspatch::new(patch) {
        Ok(b) => b,
        Err(e) => {
            return Err(e);
        },
    };
    if let Some(bs) = buffer_size {
        bspatch = bspatch.buffer_size(bs);
        bspatch = bspatch.delta_min(bs / 4);
    }
    proof {
        bspatch.lemma_sections();
    }

    // Run the delta patcher.
    bspatch.apply(source)
}

} // verus!
