//! The patcher: parses a bsdiff 4.x patch and applies it to a source.
//!
//! [`replay_raw`] pins down, byte for byte, what applying decompressed
//! control, delta and extra sections to a source produces — including
//! which malformed streams fail, and how.  The executable applier is
//! proved equal to it.

use crate::bz::bz_decompress;
use crate::bz::bz_of;
use crate::bz::unbz_of;
use crate::codec::dec_int;
use crate::codec::decode_int;
use crate::error::Error;
use crate::pack::magic;
use vstd::prelude::*;

verus! {

/// Default buffer size.
pub const BUFFER_SIZE: usize = 131072;

/// Default initial size of the delta cache.
pub const DELTA_MIN: usize = 32768;

/// Byte-wise sum modulo 256.
pub open spec fn add_byte(x: u8, d: u8) -> u8 {
    if x + d > 255 {
        (x + d - 256) as u8
    } else {
        (x + d) as u8
    }
}

/// A result of patching, seen at the spec level.
pub open spec fn res_view(r: Result<Vec<u8>, Error>) -> Result<Seq<u8>, Error> {
    match r {
        Ok(v) => Ok(v@),
        Err(e) => Err(e),
    }
}

/// What applying raw (decompressed) control bytes, delta bytes and extra
/// bytes to a source yields, walked from the given cursors with `out`
/// already emitted.
///
/// Controls are read 24 bytes at a time; a trailing fragment fails.  An
/// add region must fit both the source at the its cursor and the remaining
/// delta stream; a copy region must fit the remaining extra stream; a seek
/// must keep the source cursor inside its 64-bit unsigned range.
pub open spec fn replay_raw(
    s: Seq<u8>,
    cb: Seq<u8>,
    db: Seq<u8>,
    eb: Seq<u8>,
    spos: int,
    dpos: int,
    epos: int,
    out: Seq<u8>,
) -> Result<Seq<u8>, Error>
    decreases cb.len(),
{
    if cb.len() == 0 {
        Ok(out)
    } else if cb.len() < 24 {
        Err(Error::UnexpectedEof)
    } else {
        let add = dec_int(cb.subrange(0, 8)) as u64;
        let copy = dec_int(cb.subrange(8, 16)) as u64;
        let seek = dec_int(cb.subrange(16, 24));
        if add > 0 && (spos + add > s.len() || dpos + add > db.len()) {
            Err(Error::UnexpectedEof)
        } else if copy > 0 && epos + copy > eb.len() {
            Err(Error::UnexpectedEof)
        } else {
            let emitted = Seq::new(add as nat, |i: int| add_byte(s[spos + i], db[dpos + i]))
                + eb.subrange(epos, epos + copy);
            let snext = spos + add + seek;
            if snext < 0 || snext > u64::MAX {
                Err(Error::SourceIo)
            } else {
                replay_raw(s, cb.skip(24), db, eb, snext, dpos + add, epos + copy, out + emitted)
            }
        }
    }
}

/// How many of the `count` asked-for bytes can be read at `pos`: all of
/// them, none at a clean end of data, or an error on a trailing fragment.
pub fn read_exact_or_eof(data: &[u8], pos: usize, count: usize) -> (r: Result<usize, Error>)
    requires
        pos <= data@.len(),
    ensures
        match r {
            Ok(k) => (k == count && pos + count <= data@.len()) || (k == 0 && pos == data@.len()
                && count > 0),
            Err(e) => e == Error::UnexpectedEof && pos < data@.len() && pos + count
                > data@.len(),
        },
{
    let avail: usize = data.len() - pos;
    if avail >= count {
        Ok(count)
    } else if avail == 0 {
        Ok(0)
    } else {
        Err(Error::UnexpectedEof)
    }
}

/// Applies raw (decompressed) sections to the source: the executable twin
/// of [`replay_raw`].
pub(crate) fn replay(s: &[u8], cb: &[u8], db: &[u8], eb: &[u8]) -> (r: Result<Vec<u8>, Error>)
    ensures
        res_view(r) == replay_raw(s@, cb@, db@, eb@, 0, 0, 0, Seq::<u8>::empty()),
{
    let slen: usize = s.len();
    let dlen: usize = db.len();
    let elen: usize = eb.len();
    let clen: usize = cb.len();
    let mut out: Vec<u8> = Vec::new();
    let mut cpos: usize = 0;
    let mut spos: u64 = 0;
    let mut dpos: usize = 0;
    let mut epos: usize = 0;
    proof {
        assert(cb@.skip(0) =~= cb@);
    }
    loop
        invariant
            cpos <= clen,
            dpos <= dlen,
            epos <= elen,
            slen == s@.len(),
            dlen == db@.len(),
            elen == eb@.len(),
            clen == cb@.len(),
            replay_raw(s@, cb@, db@, eb@, 0, 0, 0, Seq::<u8>::empty()) == replay_raw(
                s@,
                cb@.skip(cpos as int),
                db@,
                eb@,
                spos as int,
                dpos as int,
                epos as int,
                out@,
            ),
        ensures
            replay_raw(s@, cb@, db@, eb@, 0, 0, 0, Seq::<u8>::empty()) == Ok::<Seq<u8>, Error>(
                out@,
            ),
        decreases clen - cpos,
    {
        let ghost rest = cb@.skip(cpos as int);
        match read_exact_or_eof(cb, cpos, 24) {
            Err(e) => {
                proof {
                    assert(rest.len() > 0 && rest.len() < 24);
                }
                return Err(e);
            },
            Ok(0) => {
                proof {
                    assert(rest.len() == 0);
                }
                break ;
            },
            Ok(_) => {},
        }
        proof {
            assert(cpos + 24 <= clen);
            assert(rest.len() >= 24);
            assert(rest.subrange(0, 8) =~= cb@.subrange(cpos as int, cpos + 8));
            assert(rest.subrange(8, 16) =~= cb@.subrange(cpos + 8, cpos + 16));
            assert(rest.subrange(16, 24) =~= cb@.subrange(cpos + 16, cpos + 24));
        }
        let w0 = vstd::slice::slice_subrange(cb, cpos, cpos + 8);
        let w1 = vstd::slice::slice_subrange(cb, cpos + 8, cpos + 16);
        let w2 = vstd::slice::slice_subrange(cb, cpos + 16, cpos + 24);
        let add_i: i64 = decode_int(w0);
        let copy_i: i64 = decode_int(w1);
        let seek: i64 = decode_int(w2);
        #[verifier::truncate]
        let add: u64 = add_i as u64;
        #[verifier::truncate]
        let copy: u64 = copy_i as u64;

        // The add region: source plus delta, byte for byte.
        if add > 0 && (spos > slen as u64 || add > slen as u64 - spos || add > (dlen - dpos)
            as u64) {
            return Err(Error::UnexpectedEof);
        }
        // The copy region: the extra stream, verbatim.
        if copy > 0 && copy > (elen - epos) as u64 {
            return Err(Error::UnexpectedEof);
        }
        let ghost out_before = out@;
        if add > 0 {
            let sp: usize = spos as usize;
            let an: usize = add as usize;
            let mut q: usize = 0;
            while q < an
                invariant
                    0 <= q <= an,
                    sp + an <= slen,
                    dpos + an <= dlen,
                    slen == s@.len(),
                    dlen == db@.len(),
                    out@ == out_before + Seq::new(
                        q as nat,
                        |i: int| add_byte(s@[sp + i], db@[dpos + i]),
                    ),
                decreases an - q,
            {
                let v: u8 = s[sp + q].wrapping_add(db[dpos + q]);
                out.push(v);
                proof {
                    assert(out@ =~= out_before + Seq::new(
                        (q + 1) as nat,
                        |i: int| add_byte(s@[sp + i], db@[dpos + i]),
                    ));
                }
                q = q + 1;
            }
            dpos = dpos + an;
        }
        let ghost out_mid = out@;
        if copy > 0 {
            let cn: usize = copy as usize;
            let mut q: usize = 0;
            while q < cn
                invariant
                    0 <= q <= cn,
                    epos + cn <= elen,
                    elen == eb@.len(),
                    out@ == out_mid + eb@.subrange(epos as int, epos + q),
                decreases cn - q,
            {
                let v: u8 = eb[epos + q];
                out.push(v);
                proof {
                    assert(out@ =~= out_mid + eb@.subrange(epos as int, epos + q + 1));
                }
                q = q + 1;
            }
            epos = epos + cn;
        }
        proof {
            assert(out@ =~= out_before + (Seq::new(
                add as nat,
                |i: int| add_byte(s@[spos + i], db@[dpos - add + i]),
            ) + eb@.subrange(epos - copy, epos as int)));
        }

        // Move the source cursor.
        let base: u64 = spos + add;
        if seek >= 0 {
            let fwd: u64 = seek as u64;
            if fwd > u64::MAX - base {
                return Err(Error::SourceIo);
            }
            spos = base + fwd;
        } else {
            let back: u64 = ((-1i64 - seek) as u64) + 1;
            if back > base {
                return Err(Error::SourceIo);
            }
            spos = base - back;
        }
        cpos = cpos + 24;
        proof {
            assert(cb@.skip(cpos as int) =~= rest.skip(24));
        }
    }
    Ok(out)
}

/// Checks the eight magic bytes.
fn check_magic(patch: &[u8]) -> (r: bool)
    requires
        patch@.len() >= 8,
    ensures
        r <==> patch@.subrange(0, 8) == magic(),
{
    let r = patch[0] == 0x42u8 && patch[1] == 0x53u8 && patch[2] == 0x44u8 && patch[3] == 0x49u8
        && patch[4] == 0x46u8 && patch[5] == 0x46u8 && patch[6] == 0x34u8 && patch[7] == 0x30u8;
    proof {
        if r {
            assert(patch@.subrange(0, 8) =~= magic());
        } else {
            assert(patch@.subrange(0, 8) == magic() ==> patch@.subrange(0, 8)[0] == 0x42u8
                && patch@.subrange(0, 8)[1] == 0x53u8 && patch@.subrange(0, 8)[2] == 0x44u8
                && patch@.subrange(0, 8)[3] == 0x49u8 && patch@.subrange(0, 8)[4] == 0x46u8
                && patch@.subrange(0, 8)[5] == 0x46u8 && patch@.subrange(0, 8)[6] == 0x34u8
                && patch@.subrange(0, 8)[7] == 0x30u8);
        }
    }
    r
}

/// A parsed patch header is sound: the magic is present and the two
/// compressed section sizes fit inside the patch.
pub open spec fn header_ok(patch: Seq<u8>) -> bool {
    &&& patch.len() >= 32
    &&& patch.subrange(0, 8) == magic()
    &&& 32 + (dec_int(patch.subrange(8, 16)) as u64) + (dec_int(patch.subrange(16, 24)) as u64)
        <= patch.len()
}

/// The compressed control section of a patch, per its header.
pub open spec fn patch_ctrl_sec(p: Seq<u8>) -> Seq<u8> {
    p.subrange(32, 32 + (dec_int(p.subrange(8, 16)) as u64))
}

/// The compressed delta section of a patch, per its header.
pub open spec fn patch_delta_sec(p: Seq<u8>) -> Seq<u8> {
    let cs = dec_int(p.subrange(8, 16)) as u64;
    let ds = dec_int(p.subrange(16, 24)) as u64;
    p.subrange(32 + cs, 32 + cs + ds)
}

/// The compressed extra section of a patch: the rest of its bytes.
pub open spec fn patch_extra_sec(p: Seq<u8>) -> Seq<u8> {
    let cs = dec_int(p.subrange(8, 16)) as u64;
    let ds = dec_int(p.subrange(16, 24)) as u64;
    p.subrange(32 + cs + ds, p.len() as int)
}

/// Fast and memory saving patcher compatible with bspatch.
///
/// Parse a patch with [`Bspatch::new`], then reconstruct the target from a
/// source with [`Bspatch::apply`].
pub struct Bspatch<'p> {
    patch: &'p [u8],
    csize: u64,
    dsize: u64,
    tsize: u64,
    buffer_size: usize,
    delta_min: usize,
}

impl<'p> Bspatch<'p> {
    /// The whole patch.
    pub closed spec fn patch_view(&self) -> Seq<u8> {
        self.patch@
    }

    /// The target length the header declares.
    pub closed spec fn tsize_spec(&self) -> u64 {
        self.tsize
    }

    /// The parsed fields agree with the header and the sections fit.
    pub closed spec fn wf(&self) -> bool {
        &&& header_ok(self.patch@)
        &&& self.csize == dec_int(self.patch@.subrange(8, 16)) as u64
        &&& self.dsize == dec_int(self.patch@.subrange(16, 24)) as u64
        &&& self.tsize == dec_int(self.patch@.subrange(24, 32)) as u64
    }

    /// The compressed control section.
    pub closed spec fn ctrl_sec(&self) -> Seq<u8> {
        self.patch@.subrange(32, 32 + self.csize)
    }

    /// The compressed delta section.
    pub closed spec fn delta_sec(&self) -> Seq<u8> {
        self.patch@.subrange(32 + self.csize, 32 + self.csize + self.dsize)
    }

    /// The compressed extra section: all bytes after the first two.
    pub closed spec fn extra_sec(&self) -> Seq<u8> {
        self.patch@.subrange(32 + self.csize + self.dsize, self.patch@.len() as int)
    }

    /// A well-formed patcher's sections are the patch's own.
    pub proof fn lemma_sections(&self)
        requires
            self.wf(),
        ensures
            self.ctrl_sec() == patch_ctrl_sec(self.patch_view()),
            self.delta_sec() == patch_delta_sec(self.patch_view()),
            self.extra_sec() == patch_extra_sec(self.patch_view()),
    {
        assert(self.ctrl_sec() =~= patch_ctrl_sec(self.patch_view()));
        assert(self.delta_sec() =~= patch_delta_sec(self.patch_view()));
        assert(self.extra_sec() =~= patch_extra_sec(self.patch_view()));
    }

    /// Parses the patch header and creates a new patcher configuration.
    ///
    /// Fails exactly when the patch is shorter than its header, the magic
    /// is wrong, or the declared section sizes overflow the patch length.
    pub fn new(patch: &'p [u8]) -> (r: Result<Self, Error>)
        ensures
            r is Ok <==> header_ok(patch@),
            match r {
                Ok(b) => b.wf() && b.patch_view() == patch@ && b.buffer_size_spec() == BUFFER_SIZE
                    && b.delta_min_spec() == DELTA_MIN && b.tsize_spec() == dec_int(
                    patch@.subrange(24, 32),
                ) as u64 && b.ctrl_sec() == patch_ctrl_sec(patch@) && b.delta_sec()
                    == patch_delta_sec(patch@) && b.extra_sec() == patch_extra_sec(patch@),
                Err(e) => e == Error::InvalidData,
            },
    {
        let plen: usize = patch.len();
        if plen < 32 {
            return Err(Error::InvalidData);
        }
        if !check_magic(patch) {
            return Err(Error::InvalidData);
        }
        let w = vstd::slice::slice_subrange(patch, 8, 16);
        #[verifier::truncate]
        let csize: u64 = decode_int(w) as u64;
        let w = vstd::slice::slice_subrange(patch, 16, 24);
        #[verifier::truncate]
        let dsize: u64 = decode_int(w) as u64;
        let w = vstd::slice::slice_subrange(patch, 24, 32);
        #[verifier::truncate]
        let tsize: u64 = decode_int(w) as u64;
        proof {
            assert(patch@.subrange(8, 16).subrange(0, 8) =~= patch@.subrange(8, 16));
            assert(patch@.subrange(16, 24).subrange(0, 8) =~= patch@.subrange(16, 24));
            assert(patch@.subrange(24, 32).subrange(0, 8) =~= patch@.subrange(24, 32));
        }
        let plen64: u64 = plen as u64;
        if csize > plen64 - 32 || dsize > (plen64 - 32) - csize {
            return Err(Error::InvalidData);
        }
        Ok(Bspatch { patch, csize, dsize, tsize, buffer_size: BUFFER_SIZE, delta_min: DELTA_MIN })
    }

    /// The configured copy buffer size.
    pub closed spec fn buffer_size_spec(&self) -> usize {
        self.buffer_size
    }

    /// The configured initial delta cache size.
    pub closed spec fn delta_min_spec(&self) -> usize {
        self.delta_min
    }

    /// Sets the main copy buffer size, floored at 128 bytes.
    pub fn buffer_size(self, bs: usize) -> (r: Self)
        ensures
            r.buffer_size_spec() == if bs < 128 {
                128int
            } else {
                bs as int
            },
            r.wf() == self.wf(),
            r.patch_view() == self.patch_view(),
            r.tsize_spec() == self.tsize_spec(),
            r.delta_min_spec() == self.delta_min_spec(),
            r.ctrl_sec() == self.ctrl_sec(),
            r.delta_sec() == self.delta_sec(),
            r.extra_sec() == self.extra_sec(),
    {
        let clamped: usize = if bs < 128 {
            128
        } else {
            bs
        };
        Bspatch { buffer_size: clamped, ..self }
    }

    /// Sets the initial delta cache size, floored at 128 bytes.
    pub fn delta_min(self, dm: usize) -> (r: Self)
        ensures
            r.delta_min_spec() == if dm < 128 {
                128int
            } else {
                dm as int
            },
            r.wf() == self.wf(),
            r.patch_view() == self.patch_view(),
            r.tsize_spec() == self.tsize_spec(),
            r.buffer_size_spec() == self.buffer_size_spec(),
            r.ctrl_sec() == self.ctrl_sec(),
            r.delta_sec() == self.delta_sec(),
            r.extra_sec() == self.extra_sec(),
    {
        let clamped: usize = if dm < 128 {
            128
        } else {
            dm
        };
        Bspatch { delta_min: clamped, ..self }
    }

    /// Hints the final target size, as declared by the patch header.
    pub fn hint_target_size(&self) -> (r: u64)
        ensures
            r == self.tsize_spec(),
    {
        self.tsize
    }

    /// Applies the patch to the source data and returns the target bytes.
    ///
    /// Whatever produced the patch: when all three sections decompress,
    /// the result — the target bytes, or the precise failure — equals the
    /// replay of the decompressed sections; when one does not, the patch
    /// is reported invalid.
    pub fn apply(self, source: &[u8]) -> (r: Result<Vec<u8>, Error>)
        requires
            self.wf(),
        ensures
            ({
                let c = unbz_of(self.ctrl_sec());
                let d = unbz_of(self.delta_sec());
                let e = unbz_of(self.extra_sec());
                if c is Some && d is Some && e is Some {
                    res_view(r) == replay_raw(source@, c->0, d->0, e->0, 0, 0, 0, Seq::<u8>::empty())
                } else {
                    r == Err::<Vec<u8>, Error>(Error::InvalidData)
                }
            }),
            forall|cb: Seq<u8>, db: Seq<u8>, eb: Seq<u8>, lc: u32, ld: u32, le: u32|
                #![trigger bz_of(cb, lc), bz_of(db, ld), bz_of(eb, le)]
                (self.ctrl_sec() == bz_of(cb, lc) && self.delta_sec() == bz_of(db, ld)
                    && self.extra_sec() == bz_of(eb, le)) ==> res_view(r) == replay_raw(
                    source@,
                    cb,
                    db,
                    eb,
                    0,
                    0,
                    0,
                    Seq::<u8>::empty(),
                ),
    {
        let plen: usize = self.patch.len();
        let cs: usize = self.csize as usize;
        let ds: usize = self.dsize as usize;
        let zc = vstd::slice::slice_subrange(self.patch, 32, 32 + cs);
        let zd = vstd::slice::slice_subrange(self.patch, 32 + cs, 32 + cs + ds);
        let ze = vstd::slice::slice_subrange(self.patch, 32 + cs + ds, plen);
        let rc = bz_decompress(zc);
        let cbv: Vec<u8> = match rc {
            Ok(v) => v,
            Err(e) => {
                proof {
                    assert forall|cb: Seq<u8>, db: Seq<u8>, eb: Seq<u8>, lc: u32, ld: u32, le: u32|
                        #![trigger bz_of(cb, lc), bz_of(db, ld), bz_of(eb, le)]
                        !(self.ctrl_sec() == bz_of(cb, lc) && self.delta_sec() == bz_of(db, ld)
                            && self.extra_sec() == bz_of(eb, le)) by {
                        if self.ctrl_sec() == bz_of(cb, lc) {
                            assert(rc is Ok);
                        }
                    }
                }
                return Err(e);
            },
        };
        let rd = bz_decompress(zd);
        let dbv: Vec<u8> = match rd {
            Ok(v) => v,
            Err(e) => {
                proof {
                    assert forall|cb: Seq<u8>, db: Seq<u8>, eb: Seq<u8>, lc: u32, ld: u32, le: u32|
                        #![trigger bz_of(cb, lc), bz_of(db, ld), bz_of(eb, le)]
                        !(self.ctrl_sec() == bz_of(cb, lc) && self.delta_sec() == bz_of(db, ld)
                            && self.extra_sec() == bz_of(eb, le)) by {
                        if self.delta_sec() == bz_of(db, ld) {
                            assert(rd is Ok);
                        }
                    }
                }
                return Err(e);
            },
        };
        let re = bz_decompress(ze);
        let ebv: Vec<u8> = match re {
            Ok(v) => v,
            Err(e) => {
                proof {
                    assert forall|cb: Seq<u8>, db: Seq<u8>, eb: Seq<u8>, lc: u32, ld: u32, le: u32|
                        #![trigger bz_of(cb, lc), bz_of(db, ld), bz_of(eb, le)]
                        !(self.ctrl_sec() == bz_of(cb, lc) && self.delta_sec() == bz_of(db, ld)
                            && self.extra_sec() == bz_of(eb, le)) by {
                        if self.extra_sec() == bz_of(eb, le) {
                            assert(re is Ok);
                        }
                    }
                }
                return Err(e);
            },
        };
        replay(source, cbv.as_slice(), dbv.as_slice(), ebv.as_slice())
    }
}

} // verus!
