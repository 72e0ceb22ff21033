use levenshtein::distance;
use levenshtein::partial_distance;
use levenshtein::partial_similarity;
use levenshtein::similarity;

#[test]
fn distance_is_symmetric() {
    assert_eq!(distance("kitten", "sitting"), distance("sitting", "kitten"));
    assert_eq!(distance("", "abc"), distance("abc", ""));
    assert_eq!(distance("flaw", "lawn"), distance("lawn", "flaw"));
}

#[test]
fn distance_to_self_is_zero() {
    assert_eq!(distance("", ""), 0);
    assert_eq!(distance("a", "a"), 0);
    assert_eq!(distance("john wicker", "john wicker"), 0);
}

#[test]
fn distance_zero_only_for_identical_texts() {
    assert_eq!(distance("abc", "abc"), 0);
    assert_ne!(distance("abc", "abd"), 0);
    assert_ne!(distance("abc", "ab"), 0);
    assert_ne!(distance("", "a"), 0);
}

#[test]
fn distance_respects_length_bounds() {
    let cases = [("kitten", "sitting"), ("", "abc"), ("abab", "abxab"), ("flaw", "lawn")];
    for (a, b) in cases {
        let la = a.chars().count();
        let lb = b.chars().count();
        let d = distance(a, b);
        assert!(d >= la.abs_diff(lb));
        assert!(d <= la.max(lb));
    }
}

#[test]
fn distance_and_similarity_sum_to_longer_length() {
    let cases = [("kitten", "sitting"), ("", ""), ("abc", "xyz"), ("john wick", "john wicker")];
    for (a, b) in cases {
        let max = a.chars().count().max(b.chars().count());
        assert_eq!(distance(a, b) + similarity(a, b), max);
        let nd = if max == 0 { 0.0 } else { distance(a, b) as f64 / max as f64 };
        let ns = if max == 0 { 1.0 } else { 1.0 - distance(a, b) as f64 / max as f64 };
        assert!((nd + ns - 1.0).abs() < 1e-12);
    }
}

#[test]
fn partial_no_worse_than_full_for_dominant_gap() {
    // The longer side is at least twice the shorter one.
    assert!(partial_distance("ab", "abcdef") <= distance("ab", "abcdef"));
    assert!(partial_distance("xy", "abcdef") <= distance("xy", "abcdef"));
    assert!(partial_distance("", "abc") <= distance("", "abc"));
}

#[test]
fn partial_can_exceed_full_for_narrow_gap() {
    // One interior insertion: every same-length window needs two edits,
    // while the full distance is a single insertion.
    assert_eq!(distance("abab", "abxab"), 1);
    assert_eq!(partial_distance("abab", "abxab"), 2);
}

#[test]
fn partial_distance_zero_for_exact_substring() {
    assert_eq!(partial_distance("wick", "john wicker"), 0);
    assert_eq!(partial_distance("john wicker", "wick"), 0);
    assert_eq!(partial_distance("", "abc"), 0);
    assert_eq!(partial_distance("abc", "abc"), 0);
}

#[test]
fn partial_distance_equal_lengths_is_full_distance() {
    assert_eq!(partial_distance("abc", "abd"), distance("abc", "abd"));
    assert_eq!(partial_distance("abc", "abd"), 1);
    assert_eq!(partial_distance("", ""), 0);
}

#[test]
fn john_wick_cases() {
    assert_eq!(distance("john wick", "john wicker"), 2);
    assert_eq!(partial_distance("john wick", "john wicker"), 0);
    assert!(partial_distance("john wick", "john wicker") < distance("john wick", "john wicker"));
    assert_eq!(similarity("john wick", "john wicker"), 9);
    assert_eq!(partial_similarity("john wick", "john wicker"), 9);
}

#[test]
fn similarity_floors_at_zero() {
    assert_eq!(similarity("abc", "xyz"), 0);
    assert_eq!(partial_similarity("abc", "xyz"), 0);
    assert_eq!(partial_similarity("", ""), 0);
    assert_eq!(similarity("", ""), 0);
}

#[test]
fn multi_byte_code_points_count_as_one() {
    assert_eq!(distance("caf\u{e9}", "cafe"), 1);
    assert_eq!(distance("", "h\u{e9}llo"), 5);
    assert_eq!(distance("h\u{e9}llo", "hello"), 1);
    assert_eq!(partial_distance("\u{e9}", "h\u{e9}llo"), 0);
    assert_eq!(similarity("h\u{e9}llo", "h\u{e9}llo"), 5);
}

#[test]
fn partial_distance_best_window_wins() {
    // "bcd" sits one edit away from the windows of "abcxe".
    assert_eq!(partial_distance("bcd", "abcxe"), 1);
    assert_eq!(partial_similarity("bcd", "abcxe"), 2);
}
