use qbsdiff::bspatch::read_exact_or_eof;
use qbsdiff::similar::scan_divide;
use qbsdiff::similar::scan_similar;
use qbsdiff::similar::scan_similar_rev;
use qbsdiff::suffix::SaSearch;
use qbsdiff::suffix::SearchContext;
use qbsdiff::suffix::SuffixIndex;
use qbsdiff::suffix::lcp;

#[test]
fn lcp_counts_common_prefix() {
    assert_eq!(lcp(b"abcdef", b"abcxyz"), 3);
    assert_eq!(lcp(b"", b"abc"), 0);
    assert_eq!(lcp(b"same", b"same"), 4);
    assert_eq!(lcp(b"ab", b"abcd"), 2);
}

#[test]
fn suffix_index_finds_longest_match() {
    let s = b"mississippi";
    let idx = SuffixIndex::new(s);
    let (i, n) = idx.search_lcp(b"issip");
    assert_eq!(n, 5);
    assert_eq!(&s[i..i + n], b"issip");
    let (_, n) = idx.search_lcp(b"zzz");
    assert_eq!(n, 0);
    let (i, n) = idx.search_lcp(b"");
    assert_eq!(n, 0);
    assert!(i <= s.len());
}

#[test]
fn suffix_index_on_empty_source() {
    let idx = SuffixIndex::new(b"");
    let (i, n) = idx.search_lcp(b"anything");
    assert_eq!((i, n), (0, 0));
}

#[test]
fn sa_search_walks_the_target() {
    let s = b"abracadabra";
    let t = b"cadabra stew";
    let mut ctx = SaSearch::new(s, t, 3);
    assert_eq!(ctx.source(), s);
    assert_eq!(ctx.target(), t);
    assert_eq!(ctx.min_match(), 3);
    assert_eq!(ctx.len(), t.len() - 3 + 1);
    assert_eq!(ctx.cursor(), 0);
    let (i, n) = ctx.search();
    assert_eq!(&s[i..i + n], b"cadabra");
    assert_eq!(ctx.forth(7), 7);
    let (_, n) = ctx.search();
    assert!(n <= t.len() - 7);
}

#[test]
fn sa_search_len_short_target() {
    let ctx = SaSearch::new(b"source", b"ab", 12);
    assert_eq!(ctx.len(), 0);
}

#[test]
fn scan_similar_prefers_shortest_best_run() {
    // Scores by position: +1 +1 -1 +1: the maximum 2 is first reached at 2.
    assert_eq!(scan_similar(b"aaxa", b"aaya"), 2);
    // All equal: the whole run.
    assert_eq!(scan_similar(b"abc", b"abc"), 3);
    // Nothing equal: no strictly positive score.
    assert_eq!(scan_similar(b"abc", b"xyz"), 0);
    // Equal again after a dip: -1 +1 +1 +1 peaks at 4 with score 2.
    assert_eq!(scan_similar(b"xbcd", b"abcd"), 4);
    assert_eq!(scan_similar(b"", b""), 0);
}

#[test]
fn scan_similar_rev_walks_from_the_tails() {
    assert_eq!(scan_similar_rev(b"xxab", b"yyab"), 2);
    assert_eq!(scan_similar_rev(b"ab", b"cab"), 2);
    assert_eq!(scan_similar_rev(b"abc", b"xyz"), 0);
}

#[test]
fn scan_divide_splits_toward_stronger_side() {
    // xs agrees with ys everywhere and zs nowhere: take all of it.
    assert_eq!(scan_divide(b"abcd", b"abcd", b"wxyz"), 4);
    // xs agrees with zs everywhere and ys nowhere: take none.
    assert_eq!(scan_divide(b"abcd", b"wxyz", b"abcd"), 0);
    assert_eq!(scan_divide(b"", b"", b""), 0);
}

#[test]
fn read_exact_or_eof_reports_full_empty_or_error() {
    let data = [1u8, 2, 3, 4, 5];
    assert_eq!(read_exact_or_eof(&data, 0, 5).unwrap(), 5);
    assert_eq!(read_exact_or_eof(&data, 2, 3).unwrap(), 3);
    assert_eq!(read_exact_or_eof(&data, 5, 3).unwrap(), 0);
    assert!(read_exact_or_eof(&data, 3, 3).is_err());
}
