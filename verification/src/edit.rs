//! Core Levenshtein engine: a recursive specification of edit distance
//! over sequences of code points, the laws it obeys, and a verified
//! two-row dynamic-programming implementation.

use vstd::prelude::*;

verus! {

/// Minimum of three natural numbers.
pub open spec fn min3(x: nat, y: nat, z: nat) -> nat {
    if x <= y && x <= z {
        x
    } else if y <= z {
        y
    } else {
        z
    }
}

/// Length of the longer of two sequences.
pub open spec fn max_len(a: Seq<char>, b: Seq<char>) -> nat {
    if a.len() >= b.len() {
        a.len()
    } else {
        b.len()
    }
}

/// Length of the shorter of two sequences.
pub open spec fn min_len(a: Seq<char>, b: Seq<char>) -> nat {
    if a.len() <= b.len() {
        a.len()
    } else {
        b.len()
    }
}

/// Levenshtein distance between two sequences of code points: the least
/// number of single-element insertions, deletions and substitutions that
/// turns `a` into `b`.
pub open spec fn edit_dist(a: Seq<char>, b: Seq<char>) -> nat
    decreases a.len() + b.len(),
{
    if a.len() == 0 {
        b.len()
    } else if b.len() == 0 {
        a.len()
    } else {
        let tail: nat = if a.last() == b.last() {
            0
        } else {
            1
        };
        min3(
            edit_dist(a.drop_last(), b) + 1,
            edit_dist(a, b.drop_last()) + 1,
            edit_dist(a.drop_last(), b.drop_last()) + tail,
        )
    }
}

/// Raw similarity: the longer length minus the distance, floored at zero.
pub open spec fn similarity_spec(a: Seq<char>, b: Seq<char>) -> nat {
    if edit_dist(a, b) <= max_len(a, b) {
        (max_len(a, b) - edit_dist(a, b)) as nat
    } else {
        0
    }
}

/// The distance never exceeds the longer of the two lengths.
pub proof fn lemma_edit_dist_le_max(a: Seq<char>, b: Seq<char>)
    ensures
        edit_dist(a, b) <= max_len(a, b),
    decreases a.len() + b.len(),
{
    if a.len() == 0 {
    } else if b.len() == 0 {
    } else {
        lemma_edit_dist_le_max(a.drop_last(), b.drop_last());
    }
}

/// The distance is at least the difference of the two lengths.
pub proof fn lemma_edit_dist_ge_diff(a: Seq<char>, b: Seq<char>)
    ensures
        edit_dist(a, b) + a.len() >= b.len(),
        edit_dist(a, b) + b.len() >= a.len(),
    decreases a.len() + b.len(),
{
    if a.len() == 0 {
    } else if b.len() == 0 {
    } else {
        lemma_edit_dist_ge_diff(a.drop_last(), b);
        lemma_edit_dist_ge_diff(a, b.drop_last());
        lemma_edit_dist_ge_diff(a.drop_last(), b.drop_last());
    }
}

/// Every sequence is at distance zero from itself.
pub proof fn lemma_edit_dist_self(a: Seq<char>)
    ensures
        edit_dist(a, a) == 0,
    decreases a.len(),
{
    if a.len() == 0 {
    } else {
        lemma_edit_dist_self(a.drop_last());
    }
}

/// The distance is symmetric in its two arguments.
pub proof fn lemma_edit_dist_sym(a: Seq<char>, b: Seq<char>)
    ensures
        edit_dist(a, b) == edit_dist(b, a),
    decreases a.len() + b.len(),
{
    if a.len() == 0 {
    } else if b.len() == 0 {
    } else {
        lemma_edit_dist_sym(a.drop_last(), b);
        lemma_edit_dist_sym(a, b.drop_last());
        lemma_edit_dist_sym(a.drop_last(), b.drop_last());
    }
}

/// The distance is zero exactly when the two sequences are
/// code-point-identical.
pub proof fn lemma_edit_dist_zero_iff(a: Seq<char>, b: Seq<char>)
    ensures
        edit_dist(a, b) == 0 <==> a == b,
    decreases a.len() + b.len(),
{
    if a == b {
        lemma_edit_dist_self(a);
    }
    if a.len() == 0 {
        if edit_dist(a, b) == 0 {
            assert(a =~= b);
        }
    } else if b.len() == 0 {
    } else {
        if edit_dist(a, b) == 0 {
            lemma_edit_dist_zero_iff(a.drop_last(), b.drop_last());
            assert(a.drop_last() == b.drop_last());
            assert(a.last() == b.last());
            assert forall|k: int| 0 <= k < a.len() implies a[k] == b[k] by {
                if k < a.len() - 1 {
                    assert(a[k] == a.drop_last()[k]);
                    assert(b[k] == b.drop_last()[k]);
                }
            }
            assert(a =~= b);
        }
    }
}

/// The distance between two prefixes satisfies the classic one-step
/// dynamic-programming recurrence.
proof fn lemma_edit_dist_step(a: Seq<char>, b: Seq<char>, i: int, j: int)
    requires
        1 <= i <= a.len(),
        1 <= j <= b.len(),
    ensures
        edit_dist(a.take(i), b.take(j)) == min3(
            edit_dist(a.take(i - 1), b.take(j)) + 1,
            edit_dist(a.take(i), b.take(j - 1)) + 1,
            edit_dist(a.take(i - 1), b.take(j - 1)) + (if a[i - 1] == b[j - 1] {
                0nat
            } else {
                1nat
            }),
        ),
{
    let ai = a.take(i);
    let bj = b.take(j);
    assert(ai.drop_last() =~= a.take(i - 1));
    assert(bj.drop_last() =~= b.take(j - 1));
    assert(ai.last() == a[i - 1]);
    assert(bj.last() == b[j - 1]);
}

/// Collects the code points of a text value into a vector.
pub(crate) fn chars_of(s: &str) -> (v: Vec<char>)
    ensures
        v@ == s@,
{
    let len: usize = s.unicode_len();
    let mut v: Vec<char> = Vec::new();
    let mut i: usize = 0;
    while i < len
        invariant
            len == s@.len(),
            i <= len,
            v@ == s@.take(i as int),
        decreases len - i,
    {
        let c: char = s.get_char(i);
        v.push(c);
        proof {
            assert(v@ =~= s@.take(i + 1));
        }
        i += 1;
    }
    proof {
        assert(s@.take(len as int) =~= s@);
    }
    v
}

/// Two-row dynamic program over vectors of code points.
pub(crate) fn dp_distance(a: &Vec<char>, b: &Vec<char>) -> (d: usize)
    ensures
        d == edit_dist(a@, b@),
{
    let n: usize = a.len();
    let m: usize = b.len();
    if n == 0 {
        return m;
    }
    if m == 0 {
        return n;
    }

    let mut prev: Vec<usize> = Vec::new();
    let mut p: usize = 0;
    while p < m
        invariant
            p <= m,
            prev@.len() == p,
            forall|k: int| 0 <= k < p ==> prev@[k] == k,
        decreases m - p,
    {
        prev.push(p);
        p += 1;
    }
    prev.push(m);

    let mut curr: Vec<usize> = Vec::new();
    let mut q: usize = 0;
    while q < m
        invariant
            q <= m,
            curr@.len() == q,
        decreases m - q,
    {
        curr.push(0);
        q += 1;
    }
    curr.push(0);

    proof {
        assert(a@.take(0) =~= Seq::<char>::empty());
        assert forall|k: int| 0 <= k <= m implies edit_dist(a@.take(0), b@.take(k)) == k by {
            assert(b@.take(k).len() == k);
        }
    }

    let mut i: usize = 0;
    while i < n
        invariant
            n == a@.len(),
            m == b@.len(),
            0 < n,
            0 < m,
            i <= n,
            prev@.len() == m + 1,
            curr@.len() == m + 1,
            forall|k: int| 0 <= k <= m ==> prev@[k] == edit_dist(a@.take(i as int), b@.take(k)),
        decreases n - i,
    {
        curr[0] = i + 1;
        proof {
            assert(b@.take(0) =~= Seq::<char>::empty());
            assert(a@.take(i + 1).len() == i + 1);
            assert(edit_dist(a@.take(i + 1), b@.take(0)) == i + 1);
        }
        let mut j: usize = 0;
        while j < m
            invariant
                n == a@.len(),
                m == b@.len(),
                0 < n,
                0 < m,
                i < n,
                j <= m,
                prev@.len() == m + 1,
                curr@.len() == m + 1,
                forall|k: int| 0 <= k <= m ==> prev@[k] == edit_dist(a@.take(i as int), b@.take(k)),
                forall|k: int| 0 <= k <= j ==> curr@[k] == edit_dist(a@.take(i + 1), b@.take(k)),
            decreases m - j,
        {
            proof {
                lemma_edit_dist_le_max(a@.take(i as int), b@.take(j as int));
                assert(a@.take(i as int).len() == i);
                assert(b@.take(j as int).len() == j);
            }
            let cost: usize = if a[i] == b[j] {
                0
            } else {
                1
            };
            let sub: usize = prev[j] + cost;
            let del: usize = prev[j + 1];
            let ins: usize = curr[j];
            let low: usize = if del < ins {
                del
            } else {
                ins
            };
            let val: usize = if low < sub {
                low + 1
            } else {
                sub
            };
            proof {
                lemma_edit_dist_step(a@, b@, i + 1, j + 1);
            }
            curr[j + 1] = val;
            j += 1;
        }
        let tmp = prev;
        prev = curr;
        curr = tmp;
        i += 1;
    }
    proof {
        assert(a@.take(n as int) =~= a@);
        assert(b@.take(m as int) =~= b@);
    }
    prev[m]
}

/// The Levenshtein distance between two text values, counted in whole
/// code points: the least number of single-code-point insertions,
/// deletions and substitutions that turns `a` into `b`.
pub fn distance(a: &str, b: &str) -> (d: usize)
    ensures
        d == edit_dist(a@, b@),
{
    let av = chars_of(a);
    let bv = chars_of(b);
    dp_distance(&av, &bv)
}

/// Raw similarity: the longer length minus the distance. The distance
/// never exceeds the longer length, so the score is exact and the two
/// always add back up to the longer length.
pub fn similarity(a: &str, b: &str) -> (r: usize)
    ensures
        r == similarity_spec(a@, b@),
        r + edit_dist(a@, b@) == max_len(a@, b@),
{
    let la: usize = a.unicode_len();
    let lb: usize = b.unicode_len();
    let mx: usize = if la >= lb {
        la
    } else {
        lb
    };
    let d: usize = distance(a, b);
    proof {
        lemma_edit_dist_le_max(a@, b@);
    }
    mx - d
}

} // verus!
