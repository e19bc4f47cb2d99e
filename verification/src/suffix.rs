//! The suffix index over the source, and search contexts built on it.
//!
//! The index itself comes from the `suffix_array` crate and is opaque
//! here; what the library relies on is its longest-common-prefix search:
//! given a pattern, it reports a position in the source and a length such
//! that the source bytes at that position equal a prefix of the pattern.

use vstd::prelude::*;

verus! {

/// The longest source length the suffix index can handle.
pub const MAX_LENGTH: usize = 0x7fff_ffff;

#[verifier::external_type_specification]
#[verifier::external_body]
pub struct ExSuffixArray<'a>(suffix_array::SuffixArray<'a>);

/// A suffix index over one source byte string.
pub struct SuffixIndex<'a> {
    s: &'a [u8],
    sa: suffix_array::SuffixArray<'a>,
}

impl<'a> SuffixIndex<'a> {
    /// The bytes the index was built over.
    pub closed spec fn src(&self) -> Seq<u8> {
        self.s@
    }

    /// Builds the index.
    ///
    /// Relies on `suffix_array::SuffixArray::new`: the structure indexes
    /// exactly the bytes it is given; construction asserts that the input
    /// is no longer than `MAX_LENGTH`.
    #[verifier::external_body]
    pub fn new(s: &'a [u8]) -> (r: Self)
        requires
            s@.len() <= MAX_LENGTH,
        ensures
            r.src() == s@,
    {
        SuffixIndex { s, sa: suffix_array::SuffixArray::new(s) }
    }

    /// Adds bucket pointers that speed up repeated searches.
    ///
    /// Relies on `suffix_array::SuffixArray::enable_buckets`: a pure
    /// accelerator that leaves the indexed bytes unchanged.
    #[verifier::external_body]
    pub fn enable_buckets(&mut self)
        ensures
            final(self).src() == old(self).src(),
    {
        self.sa.enable_buckets();
    }

    /// Relies on `suffix_array::SuffixArray::search_lcp`: the returned
    /// range lies inside the indexed source, is never longer than the
    /// pattern, the source bytes in the range equal a prefix of the
    /// pattern, and the match is the longest — no source range matches a
    /// longer pattern prefix.
    #[verifier::external_body]
    fn search_lcp_raw(&self, pat: &[u8]) -> (r: (usize, usize))
        ensures
            r.0 <= r.1,
            r.1 <= self.src().len(),
            r.1 - r.0 <= pat@.len(),
            self.src().subrange(r.0 as int, r.1 as int) == pat@.subrange(0, r.1 - r.0),
            forall|p: int, q: int|
                0 <= p <= q <= self.src().len() && q - p <= pat@.len()
                    && #[trigger] self.src().subrange(p, q) == pat@.subrange(0, q - p) ==> q - p
                    <= r.1 - r.0,
    {
        let range = self.sa.search_lcp(pat);
        (range.start, range.end)
    }

    /// Longest-common-prefix search: a position `i` in the source and a
    /// length `n` such that `src[i..i+n]` equals `pat[..n]`, with `n`
    /// maximal over every source position.
    pub fn search_lcp(&self, pat: &[u8]) -> (r: (usize, usize))
        ensures
            ({
                let (i, n) = r;
                &&& i <= self.src().len()
                &&& n <= self.src().len() - i
                &&& n <= pat@.len()
                &&& self.src().subrange(i as int, i + n) == pat@.subrange(0, n as int)
                &&& forall|p: int, q: int|
                    0 <= p <= q <= self.src().len() && q - p <= pat@.len()
                        && #[trigger] self.src().subrange(p, q) == pat@.subrange(0, q - p) ==> q
                        - p <= n
            }),
    {
        let (start, end) = self.search_lcp_raw(pat);
        range_to_extent(start, end)
    }
}

/// Converts a range's bounds to an extent `(start, length)`.
fn range_to_extent(start: usize, end: usize) -> (r: (usize, usize))
    ensures
        r.0 == start,
        r.1 == if end >= start {
            end - start
        } else {
            0int
        },
{
    (start, end.saturating_sub(start))
}

/// Count of the longest common prefix of two byte strings.
pub fn lcp(xs: &[u8], ys: &[u8]) -> (r: usize)
    ensures
        r <= xs@.len(),
        r <= ys@.len(),
        xs@.subrange(0, r as int) == ys@.subrange(0, r as int),
        r < xs@.len() && r < ys@.len() ==> xs@[r as int] != ys@[r as int],
{
    let n: usize = if xs.len() < ys.len() {
        xs.len()
    } else {
        ys.len()
    };
    let mut i: usize = 0;
    while i < n
        invariant
            0 <= i <= n,
            n <= xs@.len(),
            n <= ys@.len(),
            forall|k: int| 0 <= k < i ==> xs@[k] == ys@[k],
        decreases n - i,
    {
        if xs[i] != ys[i] {
            proof {
                assert(xs@.subrange(0, i as int) =~= ys@.subrange(0, i as int));
            }
            return i;
        }
        i = i + 1;
    }
    proof {
        assert(xs@.subrange(0, n as int) =~= ys@.subrange(0, n as int));
    }
    n
}

/// Bsdiff search context.
pub trait SearchContext: Sized {
    /// The context's internal well-formedness.
    spec fn inv(&self) -> bool;

    /// The source bytes searched in.
    spec fn src_view(&self) -> Seq<u8>;

    /// The target bytes walked over.
    spec fn tgt_view(&self) -> Seq<u8>;

    /// The current target cursor.
    spec fn cur(&self) -> int;

    /// The minimum match length the context cares about.
    spec fn min_match_spec(&self) -> int;

    /// The source.
    fn source(&self) -> (r: &[u8])
        ensures
            r@ == self.src_view(),
    ;

    /// The target.
    fn target(&self) -> (r: &[u8])
        ensures
            r@ == self.tgt_view(),
    ;

    /// Minimum length of match.
    fn min_match(&self) -> (r: usize)
        ensures
            r == self.min_match_spec(),
    ;

    /// Maximum target cursor: one past the last position from which a
    /// minimum-length match could still start.
    fn len(&self) -> (r: usize)
        requires
            self.inv(),
        ensures
            r == if self.tgt_view().len() >= self.min_match_spec() {
                self.tgt_view().len() - self.min_match_spec() + 1
            } else {
                0int
            },
    ;

    /// Get the target cursor.
    fn cursor(&self) -> (r: usize)
        ensures
            r == self.cur(),
    ;

    /// Forth the target cursor.
    fn forth(&mut self, n: usize) -> (r: usize)
        requires
            old(self).inv(),
            old(self).cur() + n <= usize::MAX,
        ensures
            final(self).inv(),
            final(self).cur() == old(self).cur() + n,
            r == final(self).cur(),
            final(self).src_view() == old(self).src_view(),
            final(self).tgt_view() == old(self).tgt_view(),
            final(self).min_match_spec() == old(self).min_match_spec(),
    ;

    /// Search for a longest common prefix of the remaining target in the
    /// source: `(i, n)` with the source bytes at `i..i+n` equal to the next
    /// `n` target bytes after the cursor, and `n` maximal over every source
    /// position.
    fn search(&self) -> (r: (usize, usize))
        ensures
            ({
                let (i, n) = r;
                let from = vstd::math::min(self.cur(), self.tgt_view().len() as int);
                &&& i <= self.src_view().len()
                &&& n <= self.src_view().len() - i
                &&& n <= self.tgt_view().len() - from
                &&& self.src_view().subrange(i as int, i + n) == self.tgt_view().subrange(
                    from,
                    from + n,
                )
                &&& forall|p: int, q: int|
                    0 <= p <= q <= self.src_view().len() && q - p <= self.tgt_view().len() - from
                        && #[trigger] self.src_view().subrange(p, q) == self.tgt_view().subrange(
                        from,
                        from + (q - p),
                    ) ==> q - p <= n
            }),
    ;
}

/// Simple suffix array based search context.
pub struct SaSearch<'s, 't> {
    idx: SuffixIndex<'s>,
    t: &'t [u8],
    small: usize,
    cursor: usize,
}

impl<'s, 't> SaSearch<'s, 't> {
    /// Builds the suffix index over `s` and starts the cursor at zero.
    pub fn new(s: &'s [u8], t: &'t [u8], small: usize) -> (r: Self)
        requires
            s@.len() <= MAX_LENGTH,
            t@.len() < usize::MAX,
        ensures
            r.inv(),
            r.src_view() == s@,
            r.tgt_view() == t@,
            r.cur() == 0,
            r.min_match_spec() == small,
    {
        SaSearch { idx: SuffixIndex::new(s), t, small, cursor: 0 }
    }
}

impl<'s, 't> SearchContext for SaSearch<'s, 't> {
    closed spec fn inv(&self) -> bool {
        self.t@.len() < usize::MAX
    }

    closed spec fn src_view(&self) -> Seq<u8> {
        self.idx.src()
    }

    closed spec fn tgt_view(&self) -> Seq<u8> {
        self.t@
    }

    closed spec fn cur(&self) -> int {
        self.cursor as int
    }

    closed spec fn min_match_spec(&self) -> int {
        self.small as int
    }

    fn source(&self) -> (r: &[u8]) {
        self.idx.s
    }

    fn target(&self) -> (r: &[u8]) {
        self.t
    }

    fn min_match(&self) -> (r: usize) {
        self.small
    }

    fn len(&self) -> (r: usize) {
        if self.t.len() >= self.small {
            self.t.len() - self.small + 1
        } else {
            0
        }
    }

    fn cursor(&self) -> (r: usize) {
        self.cursor
    }

    fn forth(&mut self, n: usize) -> (r: usize) {
        self.cursor = self.cursor + n;
        self.cursor
    }

    fn search(&self) -> (r: (usize, usize)) {
        let from = if self.cursor < self.t.len() {
            self.cursor
        } else {
            self.t.len()
        };
        let pat = vstd::slice::slice_subrange(self.t, from, self.t.len());
        let (i, n) = self.idx.search_lcp(pat);
        proof {
            assert(pat@.subrange(0, n as int) =~= self.tgt_view().subrange(
                from as int,
                from + n,
            ));
            assert forall|p: int, q: int|
                0 <= p <= q <= self.src_view().len() && q - p <= self.tgt_view().len() - from
                    && #[trigger] self.src_view().subrange(p, q) == self.tgt_view().subrange(
                    from as int,
                    from + (q - p),
                ) implies q - p <= n by {
                assert(pat@.subrange(0, q - p) =~= self.tgt_view().subrange(
                    from as int,
                    from + (q - p),
                ));
            }
        }
        (i, n)
    }
}

} // verus!
