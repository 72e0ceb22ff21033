//! Partial-match engine: the shorter sequence slides as a fixed-width
//! window across the longer one, and the least window distance wins.

use vstd::prelude::*;

use crate::edit::chars_of;
use crate::edit::dp_distance;
use crate::edit::edit_dist;
use crate::edit::lemma_edit_dist_ge_diff;
use crate::edit::lemma_edit_dist_le_max;
use crate::edit::lemma_edit_dist_self;
use crate::edit::max_len;
use crate::edit::min_len;

verus! {

/// Distance between `s` and the window of `l` that starts at `k` and has
/// the same length as `s`.
pub open spec fn window_dist(s: Seq<char>, l: Seq<char>, k: int) -> nat {
    edit_dist(s, l.subrange(k, k + s.len()))
}

/// Least window distance over the start offsets `0 ..< upto`.
pub open spec fn min_window_dist(s: Seq<char>, l: Seq<char>, upto: int) -> nat
    recommends
        1 <= upto <= l.len() - s.len() + 1,
    decreases upto,
{
    if upto <= 1 {
        window_dist(s, l, 0)
    } else {
        let rest = min_window_dist(s, l, upto - 1);
        let here = window_dist(s, l, upto - 1);
        if here < rest {
            here
        } else {
            rest
        }
    }
}

/// Partial distance: the least distance between the shorter input and any
/// contiguous same-length window of the longer input; zero when the
/// shorter input is empty.
pub open spec fn partial_dist(a: Seq<char>, b: Seq<char>) -> nat {
    let s = if a.len() <= b.len() {
        a
    } else {
        b
    };
    let l = if a.len() <= b.len() {
        b
    } else {
        a
    };
    if s.len() == 0 {
        0
    } else {
        min_window_dist(s, l, l.len() - s.len() + 1)
    }
}

/// Partial similarity: the shorter length minus the partial distance,
/// floored at zero.
pub open spec fn partial_similarity_spec(a: Seq<char>, b: Seq<char>) -> nat {
    if partial_dist(a, b) <= min_len(a, b) {
        (min_len(a, b) - partial_dist(a, b)) as nat
    } else {
        0
    }
}

/// The least window distance is no more than the distance at any single
/// scanned offset.
proof fn lemma_min_window_le(s: Seq<char>, l: Seq<char>, upto: int, k: int)
    requires
        0 <= k < upto,
    ensures
        min_window_dist(s, l, upto) <= window_dist(s, l, k),
    decreases upto,
{
    if upto > 1 && k < upto - 1 {
        lemma_min_window_le(s, l, upto - 1, k);
    }
}

/// Widening the scanned range can only lower the least window distance.
proof fn lemma_min_window_mono(s: Seq<char>, l: Seq<char>, u1: int, u2: int)
    requires
        1 <= u1 <= u2,
    ensures
        min_window_dist(s, l, u2) <= min_window_dist(s, l, u1),
    decreases u2,
{
    if u1 < u2 {
        lemma_min_window_mono(s, l, u1, u2 - 1);
    }
}

/// The partial distance never exceeds the shorter of the two lengths.
pub proof fn lemma_partial_le_min(a: Seq<char>, b: Seq<char>)
    ensures
        partial_dist(a, b) <= min_len(a, b),
{
    let s = if a.len() <= b.len() {
        a
    } else {
        b
    };
    let l = if a.len() <= b.len() {
        b
    } else {
        a
    };
    if s.len() > 0 {
        let upto = l.len() - s.len() + 1;
        lemma_min_window_le(s, l, upto as int, 0);
        lemma_edit_dist_le_max(s, l.subrange(0, s.len() as int));
    }
}

/// If the shorter sequence occurs verbatim as a contiguous window of the
/// longer one, the partial distance between the two is zero.
pub proof fn lemma_substring_partial_zero(s: Seq<char>, l: Seq<char>, k: int)
    requires
        0 <= k,
        k + s.len() <= l.len(),
        l.subrange(k, k + s.len()) == s,
    ensures
        partial_dist(s, l) == 0,
{
    if s.len() > 0 {
        let upto = l.len() - s.len() + 1;
        lemma_min_window_le(s, l, upto as int, k);
        lemma_edit_dist_self(s);
        assert(window_dist(s, l, k) == 0);
    }
}

/// When the longer input is at least twice as long as the shorter one,
/// the partial distance is no more than the full distance: the best
/// window costs at most the shorter length, while the full distance must
/// pay for the whole surplus of the longer input.
pub proof fn lemma_partial_le_distance(a: Seq<char>, b: Seq<char>)
    requires
        a.len() != b.len(),
        2 * min_len(a, b) <= max_len(a, b),
    ensures
        partial_dist(a, b) <= edit_dist(a, b),
{
    lemma_partial_le_min(a, b);
    lemma_edit_dist_ge_diff(a, b);
}

/// The least Levenshtein distance between the shorter input and any
/// contiguous window of the longer input with the shorter input's
/// code-point length; zero when the shorter input is empty, and zero
/// whenever the shorter input occurs verbatim as a substring.
pub fn partial_distance(a: &str, b: &str) -> (r: usize)
    ensures
        r == partial_dist(a@, b@),
{
    let av = chars_of(a);
    let bv = chars_of(b);
    let (sv, lv) = if av.len() <= bv.len() {
        (av, bv)
    } else {
        (bv, av)
    };
    let ghost s = sv@;
    let ghost l = lv@;
    let n: usize = sv.len();
    let m: usize = lv.len();
    if n == 0 {
        return 0;
    }
    if n == m {
        proof {
            assert(l.subrange(0, n as int) =~= l);
        }
        return dp_distance(&sv, &lv);
    }

    let mut best: usize = usize::MAX;
    let mut start: usize = 0;
    while start <= m - n
        invariant
            n == s.len(),
            m == l.len(),
            0 < n,
            n < m,
            sv@ == s,
            lv@ == l,
            s == (if a@.len() <= b@.len() {
                a@
            } else {
                b@
            }),
            l == (if a@.len() <= b@.len() {
                b@
            } else {
                a@
            }),
            start <= m - n + 1,
            start == 0 ==> best == usize::MAX,
            start >= 1 ==> best == min_window_dist(s, l, start as int),
        decreases m - start,
    {
        let mut w: Vec<char> = Vec::new();
        let mut t: usize = start;
        proof {
            assert(w@ =~= l.subrange(start as int, start as int));
        }
        while t < start + n
            invariant
                n == s.len(),
                m == l.len(),
                lv@ == l,
                start + n <= m,
                start <= t <= start + n,
                w@ == l.subrange(start as int, t as int),
            decreases start + n - t,
        {
            let c: char = lv[t];
            w.push(c);
            proof {
                assert(w@ =~= l.subrange(start as int, t + 1));
            }
            t += 1;
        }
        let d: usize = dp_distance(&sv, &w);
        proof {
            assert(d == window_dist(s, l, start as int));
        }
        if d < best {
            best = d;
            if best == 0 {
                proof {
                    assert(min_window_dist(s, l, start as int + 1) == 0);
                    lemma_min_window_mono(s, l, start as int + 1, m - n + 1);
                }
                return 0;
            }
        }
        start += 1;
    }
    best
}

/// Raw partial similarity: the shorter length minus the partial distance.
/// The partial distance never exceeds the shorter length, so the score is
/// exact and the two always add back up to the shorter length.
pub fn partial_similarity(a: &str, b: &str) -> (r: usize)
    ensures
        r == partial_similarity_spec(a@, b@),
        r + partial_dist(a@, b@) == min_len(a@, b@),
{
    let la: usize = a.unicode_len();
    let lb: usize = b.unicode_len();
    let mn: usize = if la <= lb {
        la
    } else {
        lb
    };
    let d: usize = partial_distance(a, b);
    proof {
        lemma_partial_le_min(a@, b@);
    }
    mn - d
}

} // verus!
