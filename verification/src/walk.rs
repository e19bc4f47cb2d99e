//! The match walker: the stateful producer of control records.
//!
//! The walker scans the target for anchors — regions whose suffix-array
//! match in the source is strong enough to delta against — and emits one
//! control per anchor.  Between two anchors it extends "similar" bytes
//! forward from the previous anchor and backward from the next one, and
//! resolves any overlap of the two extensions by a three-way divide.  The
//! stream it emits provably [`covers`] the target: packed and replayed, it
//! reconstructs the target byte for byte.

use crate::control::Control;
use crate::control::covers;
use crate::control::lemma_spos_after_push;
use crate::control::lemma_steps_ok_push;
use crate::control::lemma_tpos_after_push;
use crate::control::spos_after;
use crate::control::steps_ok;
use crate::control::tpos_after;
use crate::similar::best_len;
use crate::similar::div_score;
use crate::similar::lemma_best_len_is;
use crate::similar::scan_divide;
use crate::similar::scan_similar;
use crate::similar::scan_similar_rev;
use crate::similar::sim_score;
use crate::suffix::MAX_LENGTH;
use crate::suffix::SuffixIndex;
use vstd::prelude::*;

verus! {

/// The delta-matching walk over one target against one indexed source.
pub(crate) struct SaDiff<'s, 't> {
    s: &'s [u8],
    t: &'t [u8],
    sa: &'s SuffixIndex<'s>,
    small_match: usize,
    mismatch_count: usize,
    long_suffix: usize,
    i0: usize,
    j0: usize,
    n0: usize,
    b0: usize,
    emitted: Ghost<Seq<Control>>,
}

impl<'s, 't> SaDiff<'s, 't> {
    /// The source bytes.
    pub(crate) closed spec fn src(&self) -> Seq<u8> {
        self.s@
    }

    /// The target bytes.
    pub(crate) closed spec fn tgt(&self) -> Seq<u8> {
        self.t@
    }

    /// The controls emitted so far.
    pub(crate) closed spec fn emitted_view(&self) -> Seq<Control> {
        self.emitted@
    }

    /// The walker's invariant: the persistent match state stays inside the
    /// two byte strings, and the controls emitted so far walk safely with
    /// the cursors landing at the start of the current match's prefix.
    pub(crate) closed spec fn inv(&self) -> bool {
        &&& self.sa.src() == self.s@
        &&& self.i0 + self.n0 <= self.s@.len()
        &&& self.j0 + self.n0 <= self.t@.len()
        &&& self.b0 <= self.i0
        &&& self.b0 <= self.j0
        &&& steps_ok(self.s@, self.t@, self.emitted@, 0, 0)
        &&& spos_after(self.emitted@, 0) == self.i0 - self.b0
        &&& tpos_after(self.emitted@, 0) == self.j0 - self.b0
        &&& self.s@.len() <= MAX_LENGTH
        &&& self.t@.len() <= i64::MAX
        &&& (self.j0 == self.t@.len() && self.b0 == 0 && self.t@.len() > 0) ==> self.i0
            == self.s@.len()
    }

    /// The configured small-match threshold.
    pub(crate) closed spec fn small_spec(&self) -> usize {
        self.small_match
    }

    /// The configured mismatch threshold.
    pub(crate) closed spec fn mismatch_spec(&self) -> usize {
        self.mismatch_count
    }

    /// The walk is finished: the terminal anchor has been flushed.
    pub(crate) closed spec fn done(&self) -> bool {
        self.j0 == self.t@.len() && self.b0 == 0
    }

    /// Primary progress measure: target bytes not yet accounted for.
    pub(crate) closed spec fn measure1(&self) -> int {
        self.t@.len() - (self.j0 - self.b0)
    }

    /// Secondary progress measure: target bytes past the exact match.
    pub(crate) closed spec fn measure2(&self) -> int {
        self.t@.len() - (self.j0 + self.n0)
    }

    /// Creates a new search context over `t` against the indexed `s`.
    pub(crate) fn new(
        s: &'s [u8],
        t: &'t [u8],
        sa: &'s SuffixIndex<'s>,
        small_match: usize,
        mismatch_count: usize,
        long_suffix: usize,
    ) -> (r: Self)
        requires
            sa.src() == s@,
            s@.len() <= MAX_LENGTH,
            t@.len() <= i64::MAX,
        ensures
            r.inv(),
            r.src() == s@,
            r.tgt() == t@,
            r.emitted_view() == Seq::<Control>::empty(),
    {
        SaDiff {
            s,
            t,
            sa,
            small_match,
            mismatch_count,
            long_suffix,
            i0: 0,
            j0: 0,
            n0: 0,
            b0: 0,
            emitted: Ghost(Seq::empty()),
        }
    }

    /// Searches for the next exact match `(i, j, n)`.
    ///
    /// The returned extent lies inside both byte strings, starts at or
    /// after the previous match's end, and its source and target bytes
    /// agree; the synthetic terminal anchor reports the two lengths with a
    /// zero extent.
    fn search_next(&self) -> (r: Option<(usize, usize, usize)>)
        requires
            self.inv(),
        ensures
            r is None <==> self.done(),
            match r {
                None => true,
                Some(ijn) => {
                    &&& ijn.0 <= self.src().len()
                    &&& ijn.2 <= self.src().len() - ijn.0
                    &&& self.j0 + self.n0 <= ijn.1 <= self.tgt().len()
                    &&& ijn.2 <= self.tgt().len() - ijn.1
                    &&& (ijn.2 == 0 ==> ijn.0 == self.src().len() && ijn.1 == self.tgt().len())
                    &&& (ijn.2 >= 1 ==> ijn.2 > self.small_spec() && ijn.2 > self.mismatch_spec()
                        && ijn.1 + self.small_spec() < self.tgt().len())
                    &&& self.src().subrange(ijn.0 as int, ijn.0 + ijn.2) == self.tgt().subrange(
                        ijn.1 as int,
                        ijn.1 + ijn.2,
                    )
                },
            },
    {
        // EOF is already scanned.
        if self.j0 == self.t.len() && self.b0 == 0 {
            return None;
        }
        let slen = self.s.len();
        let tlen = self.t.len();
        let mut j = self.j0 + self.n0;
        let mut k = j;
        let mut m: usize = 0;
        let bound = tlen.saturating_sub(self.small_match);
        while j < bound
            invariant
                self.inv(),
                slen == self.src().len(),
                tlen == self.tgt().len(),
                bound == if self.small_spec() <= tlen {
                    tlen - self.small_spec()
                } else {
                    0int
                },
                self.j0 + self.n0 <= j <= tlen,
                self.j0 + self.n0 <= k <= tlen,
                m <= k,
            decreases tlen - j,
        {
            // Find out a possible exact match.
            let pat = vstd::slice::slice_subrange(self.t, j, tlen);
            let (i, n) = self.sa.search_lcp(pat);
            proof {
                assert(pat@.subrange(0, n as int) =~= self.tgt().subrange(j as int, j + n));
            }

            // Count the matched bytes: how many of the candidate's bytes
            // the previous anchor's extrapolation into the source would
            // also explain.
            while k < j + n
                invariant
                    self.inv(),
                    slen == self.src().len(),
                    tlen == self.tgt().len(),
                    j + n <= tlen,
                    self.j0 + self.n0 <= j,
                    self.j0 + self.n0 <= k <= tlen,
                    m <= k,
                decreases j + n - k,
            {
                let ii = self.i0.saturating_add(k - self.j0);
                if ii < slen && self.s[ii] == self.t[k] {
                    m = m + 1;
                }
                k = k + 1;
            }

            if n == 0 {
                // Match nothing.
                j = j + 1;
                m = 0;
            } else if m == n || n <= self.small_match {
                // Skip small matches and matches that the extrapolation
                // explains entirely.
                j = j + n;
                m = 0;
            } else if n <= m.saturating_add(self.mismatch_count) {
                // Too few mismatches: treat the run as suffixing similar
                // bytes.  Long runs are skimmed by bisection, short ones
                // walked byte by byte.
                let next = if n <= self.long_suffix {
                    j + 1
                } else {
                    let mut x: usize = 0;
                    let mut y: usize = n;
                    while x < y
                        invariant
                            self.inv(),
                            slen == self.src().len(),
                            tlen == self.tgt().len(),
                            x <= y <= n,
                            j + n <= tlen,
                            i + n <= slen,
                        decreases y - x,
                    {
                        let z = x + (y - x) / 2;
                        let patz = vstd::slice::slice_subrange(self.t, j + z, tlen);
                        let (iz, nz) = self.sa.search_lcp(patz);
                        if i + n == iz + nz && j + n == j + z + nz {
                            x = z + 1;
                        } else {
                            y = z;
                        }
                    }
                    if x > 1 {
                        j + x
                    } else {
                        j + 1
                    }
                };
                // Walk up to the skip point, undoing the extrapolation
                // counter where the source still agreed.  Every position
                // walked here was counted by the scan above, so the
                // counter stays positive; the guard keeps that local.
                let mut ii = self.i0.saturating_add(j - self.j0);
                while j < next
                    invariant
                        self.inv(),
                        slen == self.src().len(),
                        tlen == self.tgt().len(),
                        self.j0 + self.n0 <= j <= next,
                        next <= tlen,
                        m <= k,
                    decreases next - j,
                {
                    if ii < slen && self.s[ii] == self.t[j] {
                        if m > 0 {
                            m = m - 1;
                        }
                    }
                    ii = ii.saturating_add(1);
                    j = j + 1;
                }
            } else {
                // The count of mismatches is sufficient: a fresh anchor.
                return Some((i, j, n));
            }
        }

        // EOF is treated as the last exact match.
        proof {
            assert(self.src().subrange(slen as int, slen as int) =~= self.tgt().subrange(
                tlen as int,
                tlen as int,
            ));
        }
        Some((slen, tlen, 0))
    }

    /// Shrinks the gap between the previous and the current exact match by
    /// measuring similar bytes on both sides and dividing any overlap.
    /// Returns `(a0, b)`: the best similarity length of the gap against the
    /// source bytes continuing the previous anchor, and of the reversed gap
    /// against the reversed source bytes preceding the new anchor — each
    /// shortened across the overlap, when they overlap, at the three-way
    /// dividing point.  Together they never exceed the gap.
    fn shrink_gap(&self, i: usize, j: usize) -> (r: (usize, usize))
        requires
            self.inv(),
            i <= self.src().len(),
            self.j0 + self.n0 <= j <= self.tgt().len(),
        ensures
            r.0 + r.1 <= j - (self.j0 + self.n0),
            r.0 <= self.src().len() - (self.i0 + self.n0),
            r.1 <= i,
            ({
                let gap = self.tgt().subrange(self.j0 + self.n0, j as int);
                let suffix = self.src().subrange(self.i0 + self.n0, self.src().len() as int);
                let prefix = self.src().subrange(0, i as int);
                let g = best_len(
                    |k: int| sim_score(gap, suffix, k),
                    vstd::math::min(gap.len() as int, suffix.len() as int),
                );
                let h = best_len(
                    |k: int| sim_score(gap.reverse(), prefix.reverse(), k),
                    vstd::math::min(gap.len() as int, prefix.len() as int),
                );
                if g + h <= gap.len() {
                    r.0 == g && r.1 == h
                } else {
                    let ov = g + h - gap.len();
                    let xs = gap.subrange(gap.len() - h, g);
                    let ys = suffix.subrange(gap.len() - h, g);
                    let zs = prefix.subrange(prefix.len() - h, prefix.len() - h + ov);
                    let d = best_len(|k: int| div_score(xs, ys, zs, k), ov);
                    r.0 == g - (ov - d) && r.1 == h - d
                }
            }),
    {
        let gap = vstd::slice::slice_subrange(self.t, self.j0 + self.n0, j);
        let suffix = vstd::slice::slice_subrange(self.s, self.i0 + self.n0, self.s.len());
        let prefix = vstd::slice::slice_subrange(self.s, 0, i);

        let g = scan_similar(gap, suffix);
        let h = scan_similar_rev(gap, prefix);
        proof {
            lemma_best_len_is(
                |k: int| sim_score(gap@, suffix@, k),
                vstd::math::min(gap@.len() as int, suffix@.len() as int),
                g as int,
            );
            lemma_best_len_is(
                |k: int| sim_score(gap@.reverse(), prefix@.reverse(), k),
                vstd::math::min(gap@.len() as int, prefix@.len() as int),
                h as int,
            );
        }

        // Overlapped.
        if g > gap.len() - h {
            let ov = g - (gap.len() - h);
            let xs = vstd::slice::slice_subrange(gap, gap.len() - h, g);
            let ys = vstd::slice::slice_subrange(suffix, gap.len() - h, g);
            let zs = vstd::slice::slice_subrange(prefix, prefix.len() - h, prefix.len() - h + ov);

            let d = scan_divide(xs, ys, zs);
            proof {
                assert(vstd::math::min(
                    xs@.len() as int,
                    vstd::math::min(ys@.len() as int, zs@.len() as int),
                ) == ov);
                lemma_best_len_is(|k: int| div_score(xs@, ys@, zs@, k), ov as int, d as int);
            }
            (g - (ov - d), h - d)
        } else {
            (g, h)
        }
    }

    /// Produces the next control, or `None` once the walk is done.
    ///
    /// Each emitted control extends the walked stream safely and advances
    /// the walk: the two measures shrink lexicographically.
    pub(crate) fn next(&mut self) -> (r: Option<Control>)
        requires
            old(self).inv(),
        ensures
            final(self).inv(),
            final(self).src() == old(self).src(),
            final(self).tgt() == old(self).tgt(),
            r is None <==> old(self).done(),
            match r {
                None => *final(self) == *old(self),
                Some(c) => {
                    &&& final(self).emitted_view() == old(self).emitted_view().push(c)
                    &&& final(self).measure1() <= old(self).measure1()
                    &&& final(self).measure2() <= old(self).measure2()
                    &&& (final(self).measure1() < old(self).measure1() || (final(self).measure1()
                        == old(self).measure1() && final(self).measure2() < old(
                        self,
                    ).measure2()))
                },
            },
    {
        let found = self.search_next();
        match found {
            None => None,
            Some((i, j, n)) => {
                let (a0, b) = self.shrink_gap(i, j);

                // source:
                //     ...(   b0   ,   n0   ,   a0   )...(   b   ,...
                //        ^ spos   ^ i0                ^         ^ i
                //                                     | distance can be negative
                // target:
                //     ...(   b0   ,   n0   ,   a0   ;   copy   )(   b   ,...
                //        ^ tpos   ^ j0              ^ tpos+add          ^ j
                let add_n = self.b0 + self.n0 + a0;
                let copy_n = (j - b) - (self.j0 + self.n0 + a0);
                let seek_v: i64 = (i - b) as i64 - ((self.i0 + self.n0 + a0) as i64);
                let c = Control { add: add_n as u64, copy: copy_n as u64, seek: seek_v };

                proof {
                    let cs = self.emitted@;
                    let sv = self.s@;
                    let tv = self.t@;
                    lemma_spos_after_push(cs, c, 0);
                    lemma_tpos_after_push(cs, c, 0);
                    lemma_steps_ok_push(sv, tv, cs, c, 0, 0);
                }

                self.i0 = i;
                self.j0 = j;
                self.n0 = n;
                self.b0 = b;
                self.emitted = Ghost(self.emitted@.push(c));
                Some(c)
            },
        }
    }
}

/// Runs one full walk and gathers the stream it emits.  The result covers
/// the target, and the walk leaves the source cursor inside the source.
pub(crate) fn diff_controls(
    s: &[u8],
    t: &[u8],
    sa: &SuffixIndex,
    small_match: usize,
    mismatch_count: usize,
    long_suffix: usize,
) -> (r: Vec<Control>)
    requires
        sa.src() == s@,
        s@.len() <= MAX_LENGTH,
        t@.len() <= i64::MAX,
    ensures
        covers(s@, t@, r@),
        0 <= spos_after(r@, 0) <= s@.len(),
        t@.len() > 0 ==> spos_after(r@, 0) == s@.len(),
        r@.len() <= 2 * t@.len(),
{
    let mut d = SaDiff::new(s, t, sa, small_match, mismatch_count, long_suffix);
    let mut out: Vec<Control> = Vec::new();
    loop
        invariant
            d.inv(),
            d.src() == s@,
            d.tgt() == t@,
            out@ == d.emitted_view(),
            out@.len() + d.measure1() + d.measure2() <= 2 * t@.len(),
        ensures
            d.inv(),
            d.done(),
            d.src() == s@,
            d.tgt() == t@,
            out@ == d.emitted_view(),
            out@.len() + d.measure1() + d.measure2() <= 2 * t@.len(),
        decreases d.measure1(), d.measure2(),
    {
        match d.next() {
            Some(c) => out.push(c),
            None => break,
        }
    }
    out
}

} // verus!
