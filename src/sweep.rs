//! Enumeration of the unordered pairs of distinct body indices.
use vstd::prelude::*;

verus! {

/// `p` comes strictly before `q` in lexicographic order.
pub open spec fn lex_lt(p: (usize, usize), q: (usize, usize)) -> bool {
    p.0 < q.0 || (p.0 == q.0 && p.1 < q.1)
}

/// The pair `(i, j)` occurs in `s`.
pub open spec fn contains_pair(s: Seq<(usize, usize)>, i: usize, j: usize) -> bool {
    exists|k: int| 0 <= k < s.len() && s[k] == (i, j)
}

/// `s` lists every unordered pair of distinct indices below `n`, each as
/// `(i, j)` with `i < j`, in strictly increasing lexicographic order.
pub open spec fn is_pair_sweep(s: Seq<(usize, usize)>, n: nat) -> bool {
    &&& forall|k: int| 0 <= k < s.len() ==> (#[trigger] s[k]).0 < s[k].1 && (s[k].1 as nat) < n
    &&& forall|k1: int, k2: int|
        0 <= k1 < k2 < s.len() ==> lex_lt(#[trigger] s[k1], #[trigger] s[k2])
    &&& forall|i: usize, j: usize|
        i < j && (j as nat) < n ==> #[trigger] contains_pair(s, i, j)
}

/// Number of pairs whose first index is below `i`, out of `n` bodies.
pub open spec fn rows_total(n: nat, i: nat) -> nat
    decreases i,
{
    if i == 0 {
        0
    } else {
        rows_total(n, (i - 1) as nat) + (n - i) as nat
    }
}

/// Number of unordered pairs of distinct indices below `n`.
pub open spec fn pair_count(n: nat) -> nat {
    rows_total(n, n)
}

/// The pair `p` joins the bodies `a` and `b`, in either orientation.
pub open spec fn joins(p: (usize, usize), a: usize, b: usize) -> bool {
    p == (a, b) || p == (b, a)
}

/// A sweep never pairs a body with itself: both indices of every pair are
/// in range and distinct.
pub proof fn lemma_no_self_pair(s: Seq<(usize, usize)>, n: nat)
    requires
        is_pair_sweep(s, n),
    ensures
        forall|k: int| 0 <= k < s.len() ==> (#[trigger] s[k]).0 != s[k].1 && (s[k].0 as nat) < n
            && (s[k].1 as nat) < n,
{
}

/// Every unordered pair of distinct bodies `{a, b}` is visited exactly once
/// by a sweep, whichever way round it is named.
pub proof fn lemma_each_pair_once(s: Seq<(usize, usize)>, n: nat, a: usize, b: usize)
    requires
        is_pair_sweep(s, n),
        a != b,
        (a as nat) < n,
        (b as nat) < n,
    ensures
        exists|k: int| 0 <= k < s.len() && joins(#[trigger] s[k], a, b),
        forall|k1: int, k2: int|
            0 <= k1 < s.len() && 0 <= k2 < s.len() && joins(#[trigger] s[k1], a, b) && joins(
                #[trigger] s[k2],
                a,
                b,
            ) ==> k1 == k2,
{
    let lo = if a < b { a } else { b };
    let hi = if a < b { b } else { a };
    assert(contains_pair(s, lo, hi));
    let k = choose|k: int| 0 <= k < s.len() && s[k] == (lo, hi);
    assert(joins(s[k], a, b));
    assert forall|k1: int, k2: int|
        0 <= k1 < s.len() && 0 <= k2 < s.len() && joins(#[trigger] s[k1], a, b) && joins(
            #[trigger] s[k2],
            a,
            b,
        ) implies k1 == k2 by {
        if k1 < k2 {
            assert(lex_lt(s[k1], s[k2]));
        } else if k2 < k1 {
            assert(lex_lt(s[k2], s[k1]));
        }
    }
}

/// Twice the number of pairs in rows below `i` is `i * (2n - i - 1)`.
proof fn lemma_rows_total(n: nat, i: nat)
    requires
        i <= n,
    ensures
        2 * rows_total(n, i) == i * (2 * n - i - 1),
    decreases i,
{
    if i > 0 {
        lemma_rows_total(n, (i - 1) as nat);
        assert(2 * rows_total(n, i) == i * (2 * n - i - 1)) by (nonlinear_arith)
            requires
                2 * rows_total(n, (i - 1) as nat) == (i - 1) * (2 * n - (i - 1) - 1),
                rows_total(n, i) == rows_total(n, (i - 1) as nat) + (n - i),
                0 < i <= n,
        ;
    } else {
        assert(i * (2 * n - i - 1) == 0) by (nonlinear_arith)
            requires
                i == 0,
        ;
    }
}

/// A sweep over `n` bodies performs `n (n - 1) / 2` interactions.
pub proof fn lemma_pair_count(n: nat)
    ensures
        pair_count(n) == n * (n - 1) / 2,
{
    lemma_rows_total(n, n);
    assert(n * (n - 1) / 2 == rows_total(n, n)) by (nonlinear_arith)
        requires
            2 * rows_total(n, n) == n * (2 * n - n - 1),
    ;
}

/// The unordered pairs `(i, j)`, `i < j < n`, in lexicographic order.
pub fn unordered_pairs(n: usize) -> (r: Vec<(usize, usize)>)
    ensures
        is_pair_sweep(r@, n as nat),
        r@.len() == pair_count(n as nat),
{
    let mut r: Vec<(usize, usize)> = Vec::new();
    let mut i: usize = 0;
    while i < n
        invariant
            i <= n,
            r@.len() == rows_total(n as nat, i as nat),
            forall|k: int| 0 <= k < r@.len() ==> (#[trigger] r@[k]).0 < r@[k].1 && r@[k].1 < n && r@[k].0 < i,
            forall|k1: int, k2: int|
                0 <= k1 < k2 < r@.len() ==> lex_lt(#[trigger] r@[k1], #[trigger] r@[k2]),
            forall|a: usize, b: usize|
                a < b && b < n && a < i ==> #[trigger] contains_pair(r@, a, b),
        decreases n - i,
    {
        let mut j: usize = i + 1;
        let ghost start = r@.len();
        while j < n
            invariant
                i < n,
                i < j <= n,
                r@.len() == rows_total(n as nat, i as nat) + (j - i - 1),
                forall|k: int| 0 <= k < r@.len() ==> (#[trigger] r@[k]).0 < r@[k].1 && r@[k].1 < n
                    && lex_lt(r@[k], (i, j)),
                forall|k1: int, k2: int|
                    0 <= k1 < k2 < r@.len() ==> lex_lt(#[trigger] r@[k1], #[trigger] r@[k2]),
                forall|a: usize, b: usize|
                    a < b && b < n && (a < i || (a == i && b < j)) ==> #[trigger] contains_pair(r@, a, b),
            decreases n - j,
        {
            let ghost prev = r@;
            r.push((i, j));
            assert forall|a: usize, b: usize|
                a < b && b < n && (a < i || (a == i && b < j + 1)) implies #[trigger] contains_pair(r@, a, b) by {
                if a == i && b == j {
                    assert(r@[prev.len() as int] == (a, b));
                } else {
                    assert(contains_pair(prev, a, b));
                    let k = choose|k: int| 0 <= k < prev.len() && prev[k] == (a, b);
                    assert(r@[k] == (a, b));
                }
            }
            j = j + 1;
        }
        assert forall|k: int| 0 <= k < r@.len() implies (#[trigger] r@[k]).0 < i + 1 by {
            assert(lex_lt(r@[k], (i, j)));
        }
        i = i + 1;
    }
    r
}

} // verus!
