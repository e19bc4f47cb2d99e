//! The diff tool's decision core: validates the command-line options and
//! runs the delta compressor over bytes the caller has already read.

use crate::bsdiff::Bsdiff;
use crate::bsdiff::MIN_CHUNK;
use crate::bsdiff::ParallelScheme;
use crate::bsdiff::emitted_stream_ok;
use crate::bz::compress_bound;
use crate::control::Control;
use crate::error::Error;
use crate::pack::patch_wire;
use crate::pack::sections_fit;
use crate::suffix::MAX_LENGTH;
use vstd::prelude::*;

verus! {

/// The compression level the tool runs with: the requested one clamped to
/// what the compressor accepts, or the default.
pub open spec fn effective_level(compress_level: Option<u32>) -> u32 {
    match compress_level {
        Some(l) => if l < 1 {
            1u32
        } else {
            l
        },
        None => crate::bsdiff::COMPRESSION_LEVEL,
    }
}

/// The parallel scheme the tool runs with: automatic when parallelism is
/// on, a floored chunk size when one is named, and otherwise none.
pub open spec fn effective_scheme(parallel: bool, chunk_size: Option<usize>) -> ParallelScheme {
    if parallel {
        ParallelScheme::Auto
    } else {
        match chunk_size {
            Some(c) => ParallelScheme::ChunkSize(
                if c < MIN_CHUNK {
                    MIN_CHUNK
                } else {
                    c
                },
            ),
            None => ParallelScheme::Never,
        }
    }
}

/// Runs the delta compressor: rejects an out-of-range compression level
/// and a source and target that would both come from standard input, then
/// compares and returns the patch bytes.
pub fn execute(
    source: &[u8],
    target: &[u8],
    source_stdin: bool,
    target_stdin: bool,
    parallel: bool,
    chunk_size: Option<usize>,
    buffer_size: Option<usize>,
    compress_level: Option<u32>,
    small_match: Option<usize>,
) -> (r: Result<Vec<u8>, Error>)
    requires
        source@.len() <= MAX_LENGTH,
        target@.len() <= i64::MAX,
    ensures
        (compress_level matches Some(l) && l > 9) ==> r == Err::<Vec<u8>, Error>(
            Error::InvalidArgument,
        ),
        !(compress_level matches Some(l) && l > 9) && source_stdin && target_stdin ==> r
            == Err::<Vec<u8>, Error>(Error::InvalidArgument),
        !(compress_level matches Some(l) && l > 9) && !(source_stdin && target_stdin)
            && compress_bound(72 * target@.len() as int) <= i64::MAX ==> r is Ok,
        !(compress_level matches Some(l) && l > 9) && !(source_stdin && target_stdin) ==> match r {
            Ok(p) => exists|cs: Seq<Control>|
                emitted_stream_ok(source@, target@, effective_scheme(parallel, chunk_size), cs)
                    && sections_fit(source@, target@, cs, effective_level(compress_level)) && p@
                    == patch_wire(source@, target@, cs, effective_level(compress_level)),
            Err(e) => e == Error::TooLarge && exists|cs: Seq<Control>|
                emitted_stream_ok(source@, target@, effective_scheme(parallel, chunk_size), cs)
                    && !sections_fit(source@, target@, cs, effective_level(compress_level)),
        },
{
    // Validate command line arguments.
    if let Some(level) = compress_level {
        if level > 9 {
            return Err(Error::InvalidArgument);
        }
    }
    if source_stdin && target_stdin {
        return Err(Error::InvalidArgument);
    }

    // Set up the delta compressor.
    let mut bsdiff = Bsdiff::new(source, target);
    if parallel {
        bsdiff = bsdiff.parallel_scheme(ParallelScheme::Auto);
    } else if let Some(chunk) = chunk_size {
        let floored: usize = if chunk < MIN_CHUNK {
            MIN_CHUNK
        } else {
            chunk
        };
        bsdiff = bsdiff.parallel_scheme(ParallelScheme::ChunkSize(floored));
    } else {
        bsdiff = bsdiff.parallel_scheme(ParallelScheme::Never);
    }
    if let Some(level) = compress_level {
        bsdiff = bsdiff.compression_level(level);
    }
    if let Some(bs) = buffer_size {
        bsdiff = bsdiff.buffer_size(bs);
    }
    if let Some(small) = small_match {
        bsdiff = bsdiff.small_match(small);
    }

    // Run the delta compressor.
    proof {
        assert(bsdiff.src() == source@);
        assert(bsdiff.tgt() == target@);
        assert(bsdiff.scheme_spec() == effective_scheme(parallel, chunk_size));
        assert(bsdiff.level_spec() == effective_level(compress_level));
    }
    bsdiff.compare()
}

} // verus!
