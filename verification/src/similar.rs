//! Similarity scoring over byte runs.
//!
//! Two byte runs are walked in lockstep; a position scores `+1` when the
//! bytes agree and `-1` when they differ.  The best similarity length is
//! the shortest prefix whose score is maximal and strictly positive, or
//! zero when no prefix scores above zero.  The three-way divide plays the
//! agreement with one run against the agreement with another in the same
//! fashion.

use vstd::prelude::*;

verus! {

/// How many of the first `k` positions of `xs` and `ys` hold equal bytes.
pub open spec fn matched(xs: Seq<u8>, ys: Seq<u8>, k: int) -> int
    recommends
        k <= xs.len(),
        k <= ys.len(),
    decreases k,
{
    if k <= 0 {
        0
    } else {
        matched(xs, ys, k - 1) + if xs[k - 1] == ys[k - 1] {
            1int
        } else {
            0int
        }
    }
}

/// The similarity score of the first `k` positions: agreements minus
/// disagreements.
pub open spec fn sim_score(xs: Seq<u8>, ys: Seq<u8>, k: int) -> int {
    2 * matched(xs, ys, k) - k
}

/// The divide score of the first `k` positions: agreements of `xs` with
/// `ys` minus agreements of `xs` with `zs`.
pub open spec fn div_score(xs: Seq<u8>, ys: Seq<u8>, zs: Seq<u8>, k: int) -> int {
    matched(xs, ys, k) - matched(xs, zs, k)
}

/// What the scans return: the shortest strictly-positive maximiser of the
/// score `f` over `1..=n`, or zero when every score is at most zero.
pub open spec fn is_best(f: spec_fn(int) -> int, n: int, r: int) -> bool {
    &&& 0 <= r <= n
    &&& r == 0 ==> forall|k: int| 1 <= k <= n ==> #[trigger] f(k) <= 0
    &&& r > 0 ==> {
        &&& f(r) > 0
        &&& forall|k: int| 1 <= k <= n ==> #[trigger] f(k) <= f(r)
        &&& forall|k: int| 1 <= k < r ==> #[trigger] f(k) < f(r)
    }
}

/// The best length for a score function: the unique value that
/// [`is_best`] accepts.
pub open spec fn best_len(f: spec_fn(int) -> int, n: int) -> int {
    choose|r: int| is_best(f, n, r)
}

/// At most one value is best: the shortest strictly-positive maximiser is
/// unique.
pub proof fn lemma_best_unique(f: spec_fn(int) -> int, n: int, a: int, b: int)
    requires
        is_best(f, n, a),
        is_best(f, n, b),
    ensures
        a == b,
{
    if a == 0 && b > 0 {
        assert(f(b) <= 0);
    } else if b == 0 && a > 0 {
        assert(f(a) <= 0);
    } else if a > 0 && b > 0 {
        if a < b {
            assert(f(a) < f(b));
            assert(f(b) <= f(a));
        }
        if b < a {
            assert(f(b) < f(a));
            assert(f(a) <= f(b));
        }
    }
}

/// Any witness of [`is_best`] is the best length.
pub proof fn lemma_best_len_is(f: spec_fn(int) -> int, n: int, r: int)
    requires
        is_best(f, n, r),
    ensures
        best_len(f, n) == r,
{
    assert(exists|x: int| is_best(f, n, x));
    let w = choose|x: int| is_best(f, n, x);
    lemma_best_unique(f, n, w, r);
}

/// The length of the run where the two byte slices look most alike.
pub fn scan_similar(xs: &[u8], ys: &[u8]) -> (r: usize)
    ensures
        is_best(|k: int| sim_score(xs@, ys@, k), vstd::math::min(xs@.len() as int, ys@.len() as int), r as int),
{
    let n: usize = if xs.len() < ys.len() {
        xs.len()
    } else {
        ys.len()
    };
    let mut r: usize = 0;
    let mut m: usize = 0;
    let mut max_score: i128 = 0;
    let mut idx: usize = 0;
    while idx < n
        invariant
            0 <= idx <= n,
            n == vstd::math::min(xs@.len() as int, ys@.len() as int),
            m == matched(xs@, ys@, idx as int),
            m <= idx,
            r <= idx,
            max_score == if r == 0 {
                0int
            } else {
                sim_score(xs@, ys@, r as int)
            },
            r > 0 ==> sim_score(xs@, ys@, r as int) > 0,
            forall|k: int| 1 <= k <= idx ==> #[trigger] sim_score(xs@, ys@, k) <= max_score,
            forall|k: int| 1 <= k < r ==> #[trigger] sim_score(xs@, ys@, k) < max_score,
        decreases n - idx,
    {
        if xs[idx] == ys[idx] {
            m = m + 1;
        }
        proof {
            assert(m == matched(xs@, ys@, idx + 1));
        }
        let score: i128 = 2 * (m as i128) - ((idx + 1) as i128);
        if score > max_score {
            r = idx + 1;
            max_score = score;
        }
        idx = idx + 1;
    }
    r
}

/// The same scan walked from the tails of the two slices: the result is
/// the best similarity length of the reversed runs.
pub fn scan_similar_rev(xs: &[u8], ys: &[u8]) -> (r: usize)
    ensures
        is_best(
            |k: int| sim_score(xs@.reverse(), ys@.reverse(), k),
            vstd::math::min(xs@.len() as int, ys@.len() as int),
            r as int,
        ),
{
    let n: usize = if xs.len() < ys.len() {
        xs.len()
    } else {
        ys.len()
    };
    let mut r: usize = 0;
    let mut m: usize = 0;
    let mut max_score: i128 = 0;
    let mut idx: usize = 0;
    while idx < n
        invariant
            0 <= idx <= n,
            n == vstd::math::min(xs@.len() as int, ys@.len() as int),
            m == matched(xs@.reverse(), ys@.reverse(), idx as int),
            m <= idx,
            r <= idx,
            max_score == if r == 0 {
                0int
            } else {
                sim_score(xs@.reverse(), ys@.reverse(), r as int)
            },
            r > 0 ==> sim_score(xs@.reverse(), ys@.reverse(), r as int) > 0,
            forall|k: int| 1 <= k <= idx ==> #[trigger] sim_score(xs@.reverse(), ys@.reverse(), k) <= max_score,
            forall|k: int| 1 <= k < r ==> #[trigger] sim_score(xs@.reverse(), ys@.reverse(), k) < max_score,
        decreases n - idx,
    {
        let a = xs[xs.len() - 1 - idx];
        let b = ys[ys.len() - 1 - idx];
        proof {
            assert(xs@.reverse()[idx as int] == xs@[xs@.len() - 1 - idx]);
            assert(ys@.reverse()[idx as int] == ys@[ys@.len() - 1 - idx]);
        }
        if a == b {
            m = m + 1;
        }
        proof {
            assert(m == matched(xs@.reverse(), ys@.reverse(), idx + 1));
        }
        let score: i128 = 2 * (m as i128) - ((idx + 1) as i128);
        if score > max_score {
            r = idx + 1;
            max_score = score;
        }
        idx = idx + 1;
    }
    r
}

/// The dividing point of an overlap: the prefix where agreement with `ys`
/// most exceeds agreement with `zs`.
pub fn scan_divide(xs: &[u8], ys: &[u8], zs: &[u8]) -> (r: usize)
    ensures
        is_best(
            |k: int| div_score(xs@, ys@, zs@, k),
            vstd::math::min(xs@.len() as int, vstd::math::min(ys@.len() as int, zs@.len() as int)),
            r as int,
        ),
{
    let n0: usize = if ys.len() < zs.len() {
        ys.len()
    } else {
        zs.len()
    };
    let n: usize = if xs.len() < n0 {
        xs.len()
    } else {
        n0
    };
    let mut r: usize = 0;
    let mut my: usize = 0;
    let mut mz: usize = 0;
    let mut max_score: i128 = 0;
    let mut idx: usize = 0;
    while idx < n
        invariant
            0 <= idx <= n,
            n == vstd::math::min(xs@.len() as int, vstd::math::min(ys@.len() as int, zs@.len() as int)),
            my == matched(xs@, ys@, idx as int),
            mz == matched(xs@, zs@, idx as int),
            my <= idx,
            mz <= idx,
            r <= idx,
            max_score == if r == 0 {
                0int
            } else {
                div_score(xs@, ys@, zs@, r as int)
            },
            r > 0 ==> div_score(xs@, ys@, zs@, r as int) > 0,
            forall|k: int| 1 <= k <= idx ==> #[trigger] div_score(xs@, ys@, zs@, k) <= max_score,
            forall|k: int| 1 <= k < r ==> #[trigger] div_score(xs@, ys@, zs@, k) < max_score,
        decreases n - idx,
    {
        if xs[idx] == ys[idx] {
            my = my + 1;
        }
        if xs[idx] == zs[idx] {
            mz = mz + 1;
        }
        proof {
            assert(my == matched(xs@, ys@, idx + 1));
            assert(mz == matched(xs@, zs@, idx + 1));
        }
        let score: i128 = (my as i128) - (mz as i128);
        if score > max_score {
            r = idx + 1;
            max_score = score;
        }
        idx = idx + 1;
    }
    r
}

} // verus!
