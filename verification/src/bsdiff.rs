//! The delta compressor: configuration, the parallel scheduler, and the
//! compare entry point.
//!
//! `compare` walks the target against a suffix index over the source —
//! in one piece, or chunk by chunk in parallel — and packs the resulting
//! control stream into a patch.  Chunk streams are stitched with one
//! synthetic control each that rewinds the source cursor, so the
//! concatenation covers the whole target.

use crate::control::Control;
use crate::control::covers;
use crate::control::lemma_spos_after_push;
use crate::control::lemma_steps_ok_concat;
use crate::control::lemma_steps_ok_embed;
use crate::control::lemma_steps_ok_push;
use crate::control::lemma_tpos_after_push;
use crate::control::spos_after;
use crate::control::steps_ok;
use crate::control::tpos_after;
use crate::bz::compress_bound;
use crate::control::lemma_control_sum;
use crate::error::Error;
use crate::pack::ctrl_bytes;
use crate::pack::delta_bytes;
use crate::pack::extra_bytes;
use crate::pack::lemma_ctrl_bytes_len;
use crate::pack::lemma_delta_bytes_len;
use crate::pack::lemma_extra_bytes_len;
use crate::pack::pack;
use crate::pack::patch_wire;
use crate::pack::sections_fit;
use crate::suffix::SuffixIndex;
use crate::walk::diff_controls;
pub use crate::suffix::MAX_LENGTH;
use rayon::iter::IntoParallelIterator;
use rayon::iter::ParallelIterator;
use vstd::prelude::*;

verus! {

/// Default threshold to determine small exact match.
pub const SMALL_MATCH: usize = 12;

/// Default threshold to determine mismatch.
pub const MISMATCH_COUNT: usize = 8;

/// Default threshold to enable binary search on suffixing similar bytes.
pub const LONG_SUFFIX: usize = 256;

/// Default buffer size for delta calculation.
pub const BUFFER_SIZE: usize = 4096;

/// Default bzip2 compression level.
pub const COMPRESSION_LEVEL: u32 = 6;

/// Min chunk size of each parallel job.
pub const MIN_CHUNK: usize = 262144;

/// Default chunk size of each parallel job, used by `ParallelScheme::Auto`.
pub const DEFAULT_CHUNK: usize = 524288;

/// Parallel searching scheme of bsdiff.
#[derive(Copy, Clone, Debug, Eq, PartialEq, Structural)]
pub enum ParallelScheme {
    /// Never search in parallel.
    Never,
    /// Automatically determine parallel scheme.
    Auto,
    /// Each parallel job works on a chunk no larger than the given size.
    ///
    /// Chunks are floored at 256 KiB to avoid a bad-quality patch.
    ChunkSize(usize),
    /// Run no more than the given number of parallel jobs.
    NumJobs(usize),
}

/// How many chunks of size `chunk` the first `len` positions fall into.
pub open spec fn n_chunks(len: int, chunk: int) -> int
    recommends
        chunk >= 1,
{
    if len % chunk == 0 {
        len / chunk
    } else {
        len / chunk + 1
    }
}

/// The bytes of the `k`-th chunk.
pub open spec fn chunk_view(t: Seq<u8>, chunk: int, k: int) -> Seq<u8> {
    t.subrange(k * chunk, vstd::math::min((k + 1) * chunk, t.len() as int))
}

/// Every chunk index points below the end of the data.
proof fn lemma_chunk_in_range(len: int, chunk: int, k: int)
    requires
        chunk >= 1,
        len >= 0,
        0 <= k < n_chunks(len, chunk),
    ensures
        k * chunk < len,
{
    vstd::arithmetic::div_mod::lemma_fundamental_div_mod(len, chunk);
    let q = len / chunk;
    let r = len % chunk;
    if r == 0 {
        assert(k <= q - 1);
        assert(k * chunk <= (q - 1) * chunk) by (nonlinear_arith)
            requires
                k <= q - 1,
                chunk >= 1,
        ;
        assert((q - 1) * chunk == q * chunk - chunk) by (nonlinear_arith);
        assert(len == chunk * q);
    } else {
        assert(k <= q);
        assert(k * chunk <= q * chunk) by (nonlinear_arith)
            requires
                k <= q,
                chunk >= 1,
        ;
        assert(q * chunk == chunk * q) by (nonlinear_arith);
        assert(len == chunk * q + r);
    }
}

/// The chunks together reach the end of the data.
proof fn lemma_chunks_cover(len: int, chunk: int)
    requires
        chunk >= 1,
        len >= 0,
    ensures
        n_chunks(len, chunk) * chunk >= len,
{
    vstd::arithmetic::div_mod::lemma_fundamental_div_mod(len, chunk);
    let q = len / chunk;
    let r = len % chunk;
    if r == 0 {
        assert(q * chunk == chunk * q) by (nonlinear_arith);
    } else {
        assert((q + 1) * chunk == chunk * q + chunk) by (nonlinear_arith);
    }
}

/// There are never more chunks than positions.
proof fn lemma_n_chunks_le(len: int, chunk: int)
    requires
        chunk >= 1,
        len >= 0,
    ensures
        n_chunks(len, chunk) <= len,
{
    vstd::arithmetic::div_mod::lemma_fundamental_div_mod(len, chunk);
    vstd::arithmetic::div_mod::lemma_div_nonincreasing(len, chunk);
    let q = len / chunk;
    let r = len % chunk;
    if r != 0 {
        assert(q <= chunk * q) by (nonlinear_arith)
            requires
                chunk >= 1,
                q >= 0,
        ;
    }
}

/// The effective chunk size of a scheme over a target: the scheme's own
/// size, floored at the minimum chunk.
pub open spec fn effective_chunk(scheme: ParallelScheme, tlen: int) -> int {
    let base = match scheme {
        ParallelScheme::Never => tlen,
        ParallelScheme::ChunkSize(c) => c as int,
        ParallelScheme::NumJobs(j) => n_chunks(tlen, j as int),
        ParallelScheme::Auto => DEFAULT_CHUNK as int,
    };
    if base < MIN_CHUNK {
        MIN_CHUNK as int
    } else {
        base
    }
}

/// The synthetic control that rewinds the source cursor a chunk's stream
/// leaves behind.
pub open spec fn reset_of(cs: Seq<Control>) -> Control {
    Control { add: 0, copy: 0, seek: (0 - spos_after(cs, 0)) as i64 }
}

/// The stitched stream of a sequence of per-chunk streams: each chunk's
/// controls, then its rewind, in chunk order.
pub open spec fn stitched(parts: Seq<Seq<Control>>) -> Seq<Control>
    decreases parts.len(),
{
    if parts.len() == 0 {
        Seq::empty()
    } else {
        (parts[0] + seq![reset_of(parts[0])]) + stitched(parts.skip(1))
    }
}

/// Stitching one more chunk appends its controls and its rewind.
proof fn lemma_stitched_push(parts: Seq<Seq<Control>>, q: Seq<Control>)
    ensures
        stitched(parts.push(q)) == stitched(parts) + (q + seq![reset_of(q)]),
    decreases parts.len(),
{
    reveal_with_fuel(stitched, 3);
    if parts.len() == 0 {
        assert(parts.push(q).skip(1) =~= Seq::<Seq<Control>>::empty());
        assert(parts.push(q)[0] == q);
        assert(stitched(parts.push(q)) =~= stitched(parts) + (q + seq![reset_of(q)]));
    } else {
        assert(parts.push(q).skip(1) =~= parts.skip(1).push(q));
        assert(parts.push(q)[0] == parts[0]);
        lemma_stitched_push(parts.skip(1), q);
        assert(stitched(parts.push(q)) =~= stitched(parts) + (q + seq![reset_of(q)]));
    }
}

/// Calculate `ceil(x/y)`.
fn div_ceil(x: usize, y: usize) -> (r: usize)
    requires
        y >= 1,
    ensures
        r == n_chunks(x as int, y as int),
{
    if x % y == 0 {
        x / y
    } else {
        proof {
            vstd::arithmetic::div_mod::lemma_fundamental_div_mod(x as int, y as int);
            vstd::arithmetic::div_mod::lemma_div_pos_is_pos(x as int, y as int);
            let qi = (x as int) / (y as int);
            assert(qi <= (y as int) * qi) by (nonlinear_arith)
                requires
                    y >= 1,
                    qi >= 0,
            ;
        }
        x / y + 1
    }
}

/// One chunk's walk: the controls that cover the `k`-th chunk of `t`.
fn diff_chunk(
    s: &[u8],
    t: &[u8],
    sa: &SuffixIndex,
    chunk: usize,
    k: usize,
    small_match: usize,
    mismatch_count: usize,
    long_suffix: usize,
) -> (r: Vec<Control>)
    requires
        sa.src() == s@,
        s@.len() <= MAX_LENGTH,
        t@.len() <= i64::MAX,
        chunk >= 1,
        (k as int) * (chunk as int) < t@.len(),
    ensures
        covers(s@, chunk_view(t@, chunk as int, k as int), r@),
        0 <= spos_after(r@, 0) <= s@.len(),
        r@.len() <= 2 * chunk_view(t@, chunk as int, k as int).len(),
{
    let tl: usize = t.len();
    proof {
        assert((k as int) * (chunk as int) >= 0) by (nonlinear_arith)
            requires
                k >= 0,
                chunk >= 0,
        ;
        assert((k as int) * (chunk as int) < tl);
    }
    let lo: usize = k * chunk;
    let hi: usize = if t.len() - lo > chunk {
        lo + chunk
    } else {
        t.len()
    };
    proof {
        assert((k as int + 1) * (chunk as int) == (k as int) * (chunk as int) + chunk)
            by (nonlinear_arith);
    }
    let tc = vstd::slice::slice_subrange(t, lo, hi);
    proof {
        assert(tc@ =~= chunk_view(t@, chunk as int, k as int));
    }
    diff_controls(s, tc, sa, small_match, mismatch_count, long_suffix)
}

/// Relies on rayon's indexed parallel iterators: collecting a map over the
/// range `0..n` returns the closure's results in index order.  The closure
/// is one call of the verified per-chunk walk, so each element satisfies
/// that walk's contract for its own chunk.
#[verifier::external_body]
fn par_diff_chunks(
    s: &[u8],
    t: &[u8],
    sa: &SuffixIndex,
    n: usize,
    chunk: usize,
    small_match: usize,
    mismatch_count: usize,
    long_suffix: usize,
) -> (r: Vec<Vec<Control>>)
    requires
        sa.src() == s@,
        s@.len() <= MAX_LENGTH,
        t@.len() <= i64::MAX,
        chunk >= 1,
        n == n_chunks(t@.len() as int, chunk as int),
    ensures
        r@.len() == n,
        forall|k: int|
            0 <= k < n ==> covers(s@, chunk_view(t@, chunk as int, k), #[trigger] r@[k]@) && 0
                <= spos_after(r@[k]@, 0) <= s@.len() && r@[k]@.len() <= 2 * chunk_view(
                t@,
                chunk as int,
                k,
            ).len(),
{
    (0..n).into_par_iter().map(
        |k| diff_chunk(s, t, sa, chunk, k, small_match, mismatch_count, long_suffix),
    ).collect()
}

/// Paralleled searching by dividing chunks of target.
pub(crate) struct ParSaDiff<'s, 't> {
    s: &'s [u8],
    t: &'t [u8],
    sa: &'s SuffixIndex<'s>,
    chunk: usize,
    small_match: usize,
    mismatch_count: usize,
    long_suffix: usize,
}

impl<'s, 't> ParSaDiff<'s, 't> {
    /// Creates a new paralleled search context.
    pub(crate) fn new(
        s: &'s [u8],
        t: &'t [u8],
        sa: &'s SuffixIndex<'s>,
        chunk: usize,
        small_match: usize,
        mismatch_count: usize,
        long_suffix: usize,
    ) -> (r: Self)
        requires
            sa.src() == s@,
            s@.len() <= MAX_LENGTH,
            t@.len() <= i64::MAX,
            chunk >= 1,
        ensures
            r.src_view() == s@,
            r.tgt_view() == t@,
            r.chunk_spec() == chunk,
            r.wf(),
    {
        ParSaDiff { s, t, sa, chunk, small_match, mismatch_count, long_suffix }
    }

    /// The source bytes.
    pub(crate) closed spec fn src_view(&self) -> Seq<u8> {
        self.s@
    }

    /// The target bytes.
    pub(crate) closed spec fn tgt_view(&self) -> Seq<u8> {
        self.t@
    }

    /// The chunk size the target is carved into.
    pub(crate) closed spec fn chunk_spec(&self) -> usize {
        self.chunk
    }

    /// The context's inputs are consistent.
    pub(crate) closed spec fn wf(&self) -> bool {
        &&& self.sa.src() == self.s@
        &&& self.s@.len() <= MAX_LENGTH
        &&& self.t@.len() <= i64::MAX
        &&& self.chunk >= 1
    }

    /// Computes all the controls, chunk by chunk in parallel, stitched in
    /// chunk order with one source-rewind control after each chunk.
    pub(crate) fn compute(self) -> (r: Vec<Control>)
        requires
            self.wf(),
        ensures
            covers(self.src_view(), self.tgt_view(), r@),
            spos_after(r@, 0) == 0,
            r@.len() <= 2 * self.tgt_view().len() + n_chunks(
                self.tgt_view().len() as int,
                self.chunk_spec() as int,
            ),
            exists|ps: Seq<Seq<Control>>|
                {
                    &&& ps.len() == n_chunks(
                        self.tgt_view().len() as int,
                        self.chunk_spec() as int,
                    )
                    &&& (forall|q: int|
                        0 <= q < ps.len() ==> covers(
                            self.src_view(),
                            chunk_view(self.tgt_view(), self.chunk_spec() as int, q),
                            #[trigger] ps[q],
                        ))
                    &&& r@ == stitched(ps)
                },
    {
        let sv = self.s;
        let tv = self.t;
        let chunk = self.chunk;
        let tlen: usize = tv.len();
        let slen: usize = sv.len();
        let n: usize = div_ceil(tlen, chunk);
        let parts = par_diff_chunks(
            sv,
            tv,
            self.sa,
            n,
            chunk,
            self.small_match,
            self.mismatch_count,
            self.long_suffix,
        );
        let mut out: Vec<Control> = Vec::new();
        let mut k: usize = 0;
        let ghost pviews = parts@.map_values(|v: Vec<Control>| v@);
        proof {
            assert(out@ =~= Seq::<Control>::empty());
            assert(pviews.take(0) =~= Seq::<Seq<Control>>::empty());
        }
        while k < n
            invariant
                parts@.len() == n,
                n == n_chunks(tv@.len() as int, chunk as int),
                chunk >= 1,
                slen == sv@.len(),
                tlen == tv@.len(),
                sv@.len() <= MAX_LENGTH,
                tv@.len() <= i64::MAX,
                pviews == parts@.map_values(|v: Vec<Control>| v@),
                forall|q: int|
                    0 <= q < n ==> covers(sv@, chunk_view(tv@, chunk as int, q), #[trigger] parts@[q]@)
                        && 0 <= spos_after(parts@[q]@, 0) <= sv@.len() && parts@[q]@.len() <= 2
                        * chunk_view(tv@, chunk as int, q).len(),
                0 <= k <= n,
                steps_ok(sv@, tv@, out@, 0, 0),
                spos_after(out@, 0) == 0,
                tpos_after(out@, 0) == vstd::math::min((k as int) * (chunk as int), tlen as int),
                out@ == stitched(pviews.take(k as int)),
                out@.len() <= 2 * vstd::math::min((k as int) * (chunk as int), tlen as int) + k,
            decreases n - k,
        {
            proof {
                lemma_chunk_in_range(tlen as int, chunk as int, k as int);
                assert((k as int) * (chunk as int) >= 0) by (nonlinear_arith)
                    requires
                        k >= 0,
                        chunk >= 0,
                ;
                assert((k as int + 1) * (chunk as int) == (k as int) * (chunk as int) + chunk)
                    by (nonlinear_arith);
            }
            let part = &parts[k];
            let ghost pv = part@;
            let ghost shift = vstd::math::min((k as int) * (chunk as int), tlen as int);
            let ghost cv = chunk_view(tv@, chunk as int, k as int);

            // Search the current chunk: append its controls and track the
            // source displacement they accumulate.
            let mut pos: u64 = 0;
            let mut i: usize = 0;
            proof {
                assert(pv.take(0) =~= Seq::<Control>::empty());
                assert(pv.skip(0) =~= pv);
            }
            while i < part.len()
                invariant
                    pv == part@,
                    0 <= i <= pv.len(),
                    sv@.len() <= MAX_LENGTH,
                    steps_ok(sv@, cv, pv.skip(i as int), pos as int, tpos_after(pv.take(i as int), 0)),
                    covers(sv@, cv, pv),
                    pos == spos_after(pv.take(i as int), 0),
                decreases pv.len() - i,
            {
                let c = part[i];
                proof {
                    assert(pv.skip(i as int)[0] == pv[i as int]);
                    assert(pv.skip(i as int).skip(1) =~= pv.skip(i + 1));
                    assert(pv.take(i + 1) =~= pv.take(i as int).push(c));
                    lemma_spos_after_push(pv.take(i as int), c, 0);
                    lemma_tpos_after_push(pv.take(i as int), c, 0);
                }
                let mut pnext: u64 = pos + c.add;
                if c.seek >= 0 {
                    pnext = pnext + (c.seek as u64);
                } else {
                    let back: u64 = ((-1i64 - c.seek) as u64) + 1;
                    pnext = pnext - back;
                }
                pos = pnext;
                i = i + 1;
            }
            proof {
                assert(pv.take(pv.len() as int) =~= pv);
                assert(pos == spos_after(pv, 0));
                assert(pos <= slen);
            }

            // Append the chunk's controls after what is already stitched.
            let mut j: usize = 0;
            let ghost out_base = out@;
            while j < part.len()
                invariant
                    pv == part@,
                    0 <= j <= pv.len(),
                    out@ == out_base + pv.take(j as int),
                decreases pv.len() - j,
            {
                let c = part[j];
                out.push(c);
                proof {
                    assert(out@ =~= out_base + pv.take(j + 1));
                }
                j = j + 1;
            }
            proof {
                assert(pv.take(pv.len() as int) =~= pv);
                assert(out@ == out_base + pv);

                // The chunk's walk holds inside the whole target, shifted
                // past the chunks already stitched.
                lemma_steps_ok_embed(sv@, cv, tv@, pv, 0, 0, shift);
                lemma_steps_ok_concat(sv@, tv@, out_base, pv, 0, 0);
            }

            // Reset the source cursor for the next chunk.
            let reset = Control { add: 0, copy: 0, seek: -(pos as i64) };
            proof {
                lemma_spos_after_push(out@, reset, 0);
                lemma_tpos_after_push(out@, reset, 0);
                lemma_steps_ok_push(sv@, tv@, out@, reset, 0, 0);
                assert(reset == reset_of(pv));
                lemma_stitched_push(pviews.take(k as int), pv);
                assert(pviews.take(k + 1) =~= pviews.take(k as int).push(pv));
            }
            out.push(reset);
            proof {
                assert(out@ =~= stitched(pviews.take(k as int)) + (pv + seq![reset_of(pv)]));
            }
            k = k + 1;
        }
        proof {
            lemma_chunks_cover(tlen as int, chunk as int);
            assert((n as int) * (chunk as int) >= tlen as int);
            assert(pviews.take(n as int) =~= pviews);
            assert(forall|q: int|
                0 <= q < n ==> #[trigger] pviews[q] == parts@[q]@);
            lemma_n_chunks_le(tlen as int, chunk as int);
        }
        out
    }
}

/// What the control stream behind an emitted patch satisfies: it covers
/// the target, it is never longer than three controls per target byte, and
/// it leaves the source cursor where the scheduling demands — at the
/// source's end after a single whole-target walk, at zero after the last
/// chunk's rewind in a parallel walk.
pub open spec fn emitted_stream_ok(
    src: Seq<u8>,
    tgt: Seq<u8>,
    scheme: ParallelScheme,
    cs: Seq<Control>,
) -> bool {
    &&& covers(src, tgt, cs)
    &&& cs.len() <= 3 * tgt.len()
    &&& (effective_chunk(scheme, tgt.len() as int) >= tgt.len() ==> (tgt.len() > 0
        ==> spos_after(cs, 0) == src.len()))
    &&& (effective_chunk(scheme, tgt.len() as int) < tgt.len() ==> spos_after(cs, 0) == 0)
}

/// Fast and memory saving bsdiff 4.x compatible delta compressor.
///
/// Source data size should not be greater than `MAX_LENGTH`.  Configure
/// with the builder methods, then call [`Bsdiff::compare`] to produce the
/// patch bytes.
pub struct Bsdiff<'s, 't> {
    source: &'s [u8],
    target: &'t [u8],
    parallel_scheme: ParallelScheme,
    small_match: usize,
    mismatch_count: usize,
    long_suffix: usize,
    buffer_size: usize,
    compression_level: u32,
}

impl<'s, 't> Bsdiff<'s, 't> {
    /// The source bytes.
    pub closed spec fn src(&self) -> Seq<u8> {
        self.source@
    }

    /// The target bytes.
    pub closed spec fn tgt(&self) -> Seq<u8> {
        self.target@
    }

    /// The configured compression level.
    pub closed spec fn level_spec(&self) -> u32 {
        self.compression_level
    }

    /// The configured parallel scheme.
    pub closed spec fn scheme_spec(&self) -> ParallelScheme {
        self.parallel_scheme
    }

    /// The configured small-match threshold.
    pub closed spec fn small_match_spec(&self) -> usize {
        self.small_match
    }

    /// The configured mismatch threshold.
    pub closed spec fn mismatch_count_spec(&self) -> usize {
        self.mismatch_count
    }

    /// The configured long-suffix threshold.
    pub closed spec fn long_suffix_spec(&self) -> usize {
        self.long_suffix
    }

    /// The configured delta buffer size.
    pub closed spec fn buffer_size_spec(&self) -> usize {
        self.buffer_size
    }

    /// The configuration is usable: the source fits the suffix index, the
    /// target length fits the header, every numeric option sits in its
    /// range, and a chunked scheme names a non-zero size.
    pub closed spec fn wf(&self) -> bool {
        &&& self.source@.len() <= MAX_LENGTH
        &&& self.target@.len() <= i64::MAX
        &&& 1 <= self.compression_level <= 9
        &&& self.mismatch_count >= 1
        &&& self.long_suffix >= 64
        &&& self.buffer_size >= 128
        &&& match self.parallel_scheme {
            ParallelScheme::ChunkSize(c) => c >= 1,
            ParallelScheme::NumJobs(j) => j >= 1,
            _ => true,
        }
    }

    /// Creates a new configuration for bsdiff delta compression, with the
    /// default thresholds, compression level and parallel scheme.
    pub fn new(source: &'s [u8], target: &'t [u8]) -> (r: Self)
        requires
            source@.len() <= MAX_LENGTH,
            target@.len() <= i64::MAX,
        ensures
            r.wf(),
            r.src() == source@,
            r.tgt() == target@,
            r.scheme_spec() == ParallelScheme::Auto,
            r.small_match_spec() == SMALL_MATCH,
            r.mismatch_count_spec() == MISMATCH_COUNT,
            r.long_suffix_spec() == LONG_SUFFIX,
            r.level_spec() == COMPRESSION_LEVEL,
            r.buffer_size_spec() == BUFFER_SIZE,
    {
        Bsdiff {
            source,
            target,
            parallel_scheme: ParallelScheme::Auto,
            small_match: SMALL_MATCH,
            mismatch_count: MISMATCH_COUNT,
            long_suffix: LONG_SUFFIX,
            compression_level: COMPRESSION_LEVEL,
            buffer_size: BUFFER_SIZE,
        }
    }

    /// Sets the source data.
    pub fn source(self, source: &'s [u8]) -> (r: Self)
        requires
            source@.len() <= MAX_LENGTH,
        ensures
            r.src() == source@,
            r.tgt() == self.tgt(),
            self.wf() ==> r.wf(),
            r.scheme_spec() == self.scheme_spec(),
            r.small_match_spec() == self.small_match_spec(),
            r.level_spec() == self.level_spec(),
            r.buffer_size_spec() == self.buffer_size_spec(),
    {
        Bsdiff { source, ..self }
    }

    /// Sets the target data.
    pub fn target(self, target: &'t [u8]) -> (r: Self)
        requires
            target@.len() <= i64::MAX,
        ensures
            r.tgt() == target@,
            r.src() == self.src(),
            self.wf() ==> r.wf(),
            r.scheme_spec() == self.scheme_spec(),
            r.small_match_spec() == self.small_match_spec(),
            r.level_spec() == self.level_spec(),
            r.buffer_size_spec() == self.buffer_size_spec(),
    {
        Bsdiff { target, ..self }
    }

    /// Sets the parallel searching scheme.  A zero chunk size or job count
    /// is coerced to `Auto`.
    pub fn parallel_scheme(self, parallel_scheme: ParallelScheme) -> (r: Self)
        ensures
            r.scheme_spec() == if parallel_scheme == ParallelScheme::ChunkSize(0usize)
                || parallel_scheme == ParallelScheme::NumJobs(0usize) {
                ParallelScheme::Auto
            } else {
                parallel_scheme
            },
            r.src() == self.src(),
            r.tgt() == self.tgt(),
            self.wf() ==> r.wf(),
            r.small_match_spec() == self.small_match_spec(),
            r.level_spec() == self.level_spec(),
            r.buffer_size_spec() == self.buffer_size_spec(),
    {
        let coerced = if parallel_scheme == ParallelScheme::ChunkSize(0) || parallel_scheme
            == ParallelScheme::NumJobs(0) {
            ParallelScheme::Auto
        } else {
            parallel_scheme
        };
        Bsdiff { parallel_scheme: coerced, ..self }
    }

    /// Sets the threshold that declares a match too small to anchor.  Zero
    /// skips no matches.
    pub fn small_match(self, small_match: usize) -> (r: Self)
        ensures
            r.small_match_spec() == small_match,
            r.src() == self.src(),
            r.tgt() == self.tgt(),
            self.wf() ==> r.wf(),
            r.scheme_spec() == self.scheme_spec(),
            r.level_spec() == self.level_spec(),
            r.buffer_size_spec() == self.buffer_size_spec(),
    {
        Bsdiff { small_match, ..self }
    }

    /// Sets the threshold that declares a candidate a mismatch, floored at
    /// one.
    #[allow(unused)]
    fn mismatch_count(self, mismatch_count: usize) -> (r: Self)
        ensures
            r.mismatch_count_spec() == if mismatch_count < 1 {
                1int
            } else {
                mismatch_count as int
            },
            r.src() == self.src(),
            r.tgt() == self.tgt(),
            self.wf() ==> r.wf(),
            r.scheme_spec() == self.scheme_spec(),
            r.small_match_spec() == self.small_match_spec(),
            r.level_spec() == self.level_spec(),
            r.buffer_size_spec() == self.buffer_size_spec(),
    {
        let clamped: usize = if mismatch_count < 1 {
            1
        } else {
            mismatch_count
        };
        Bsdiff { mismatch_count: clamped, ..self }
    }

    /// Sets the threshold past which suffixing similar bytes are skimmed
    /// by bisection rather than scanned, floored at 64.
    #[allow(unused)]
    fn long_suffix(self, long_suffix: usize) -> (r: Self)
        ensures
            r.long_suffix_spec() == if long_suffix < 64 {
                64int
            } else {
                long_suffix as int
            },
            r.src() == self.src(),
            r.tgt() == self.tgt(),
            self.wf() ==> r.wf(),
            r.scheme_spec() == self.scheme_spec(),
            r.small_match_spec() == self.small_match_spec(),
            r.level_spec() == self.level_spec(),
            r.buffer_size_spec() == self.buffer_size_spec(),
    {
        let clamped: usize = if long_suffix < 64 {
            64
        } else {
            long_suffix
        };
        Bsdiff { long_suffix: clamped, ..self }
    }

    /// Sets the bzip2 compression level, clamped into `1..=9`.
    pub fn compression_level(self, compression_level: u32) -> (r: Self)
        ensures
            r.level_spec() == if compression_level < 1 {
                1u32
            } else if compression_level > 9 {
                9u32
            } else {
                compression_level
            },
            r.src() == self.src(),
            r.tgt() == self.tgt(),
            self.wf() ==> r.wf(),
            r.scheme_spec() == self.scheme_spec(),
            r.small_match_spec() == self.small_match_spec(),
            r.buffer_size_spec() == self.buffer_size_spec(),
    {
        let clamped: u32 = if compression_level < 1 {
            1
        } else if compression_level > 9 {
            9
        } else {
            compression_level
        };
        Bsdiff { compression_level: clamped, ..self }
    }

    /// Sets the buffer size for delta calculation, floored at 128.
    pub fn buffer_size(self, buffer_size: usize) -> (r: Self)
        ensures
            r.buffer_size_spec() == if buffer_size < 128 {
                128int
            } else {
                buffer_size as int
            },
            r.src() == self.src(),
            r.tgt() == self.tgt(),
            self.wf() ==> r.wf(),
            r.scheme_spec() == self.scheme_spec(),
            r.small_match_spec() == self.small_match_spec(),
            r.level_spec() == self.level_spec(),
    {
        let clamped: usize = if buffer_size < 128 {
            128
        } else {
            buffer_size
        };
        Bsdiff { buffer_size: clamped, ..self }
    }

    /// Searches matches of the target in the source and constructs the
    /// patch.
    ///
    /// On success the result is exactly the wire encoding of a control
    /// stream of the walk — one that covers the target, holds at most three
    /// controls per target byte, and parks the source cursor as the chosen
    /// scheme demands — so applying it to the source yields the target.  It
    /// fails only when a compressed section outgrows the header's signed
    /// size fields, which the compressor's documented worst case rules out
    /// for any target below a petabyte scale.
    pub fn compare(&self) -> (r: Result<Vec<u8>, Error>)
        requires
            self.wf(),
        ensures
            compress_bound(72 * self.tgt().len() as int) <= i64::MAX ==> r is Ok,
            match r {
                Ok(p) => exists|cs: Seq<Control>|
                    emitted_stream_ok(self.src(), self.tgt(), self.scheme_spec(), cs)
                        && sections_fit(self.src(), self.tgt(), cs, self.level_spec()) && p@
                        == patch_wire(self.src(), self.tgt(), cs, self.level_spec()),
                Err(e) => e == Error::TooLarge && exists|cs: Seq<Control>|
                    emitted_stream_ok(self.src(), self.tgt(), self.scheme_spec(), cs)
                        && !sections_fit(self.src(), self.tgt(), cs, self.level_spec()),
            },
    {
        // Determine the parallel chunk size.
        let tlen: usize = self.target.len();
        let mut chunk: usize = match self.parallel_scheme {
            ParallelScheme::Never => tlen,
            ParallelScheme::ChunkSize(c) => c,
            ParallelScheme::NumJobs(jobs) => div_ceil(tlen, jobs),
            ParallelScheme::Auto => DEFAULT_CHUNK,
        };
        if chunk < MIN_CHUNK {
            chunk = MIN_CHUNK;
        }
        proof {
            assert(chunk as int == effective_chunk(self.scheme_spec(), tlen as int));
        }

        let mut sa = SuffixIndex::new(self.source);
        sa.enable_buckets();
        let ctrls: Vec<Control> = if chunk >= tlen {
            // Single thread is fine.
            diff_controls(
                self.source,
                self.target,
                &sa,
                self.small_match,
                self.mismatch_count,
                self.long_suffix,
            )
        } else {
            // Go parallel.
            let par_diff = ParSaDiff::new(
                self.source,
                self.target,
                &sa,
                chunk,
                self.small_match,
                self.mismatch_count,
                self.long_suffix,
            );
            let stitched_ctrls = par_diff.compute();
            proof {
                lemma_n_chunks_le(tlen as int, chunk as int);
            }
            stitched_ctrls
        };
        proof {
            assert(emitted_stream_ok(self.src(), self.tgt(), self.scheme_spec(), ctrls@));
            let w = ctrls@;
            lemma_ctrl_bytes_len(w);
            lemma_control_sum(self.src(), self.tgt(), w);
            lemma_delta_bytes_len(self.src(), self.tgt(), w, 0, 0);
            lemma_extra_bytes_len(self.src(), self.tgt(), w, 0, 0);
            if compress_bound(72 * self.tgt().len() as int) <= i64::MAX {
                vstd::arithmetic::div_mod::lemma_div_is_ordered(
                    ctrl_bytes(w).len() as int,
                    72 * self.tgt().len() as int,
                    100,
                );
                vstd::arithmetic::div_mod::lemma_div_is_ordered(
                    delta_bytes(self.src(), self.tgt(), w, 0, 0).len() as int,
                    72 * self.tgt().len() as int,
                    100,
                );
                vstd::arithmetic::div_mod::lemma_div_is_ordered(
                    extra_bytes(self.tgt(), w, 0).len() as int,
                    72 * self.tgt().len() as int,
                    100,
                );
            }
        }
        let packed = pack(
            self.source,
            self.target,
            &ctrls,
            self.compression_level,
            self.buffer_size,
        );
        proof {
            let w = ctrls@;
            match &packed {
                Ok(p) => {
                    assert(emitted_stream_ok(self.src(), self.tgt(), self.scheme_spec(), w)
                        && sections_fit(self.src(), self.tgt(), w, self.level_spec()) && p@
                        == patch_wire(self.src(), self.tgt(), w, self.level_spec()));
                },
                Err(_e) => {
                    assert(emitted_stream_ok(self.src(), self.tgt(), self.scheme_spec(), w)
                        && !sections_fit(self.src(), self.tgt(), w, self.level_spec()));
                },
            }
        }
        packed
    }
}

} // verus!
