//! Counting the positions that satisfy a predicate, and the permutations of
//! `0, 1, ..., n - 1`, under which such counts do not change.

use vstd::prelude::*;
use vstd::set_lib::{lemma_int_range, lemma_subset_equality, set_int_range};

verus! {

/// The number of `i` in `[0, n)` for which `p(i)` holds.
pub open spec fn count(n: int, p: spec_fn(int) -> bool) -> int
    decreases n,
{
    if n <= 0 {
        0
    } else {
        count(n - 1, p) + if p(n - 1) {
            1int
        } else {
            0int
        }
    }
}

/// Every entry of `s` is a position in `[0, s.len())`, and no position
/// occurs twice.
pub open spec fn is_permutation(s: Seq<int>) -> bool {
    &&& forall|i: int| 0 <= i < s.len() ==> 0 <= #[trigger] s[i] < s.len()
    &&& forall|i: int, j: int| 0 <= i < j < s.len() ==> s[i] != s[j]
}

/// A count is between zero and the number of positions.
pub proof fn lemma_count_bounds(n: int, p: spec_fn(int) -> bool)
    requires
        0 <= n,
    ensures
        0 <= count(n, p) <= n,
    decreases n,
{
    if n > 0 {
        lemma_count_bounds(n - 1, p);
    }
}

/// Predicates that agree on `[0, n)` have the same count.
pub proof fn lemma_count_ext(n: int, p: spec_fn(int) -> bool, q: spec_fn(int) -> bool)
    requires
        forall|i: int| 0 <= i < n ==> #[trigger] p(i) == q(i),
    ensures
        count(n, p) == count(n, q),
    decreases n,
{
    if n > 0 {
        lemma_count_ext(n - 1, p, q);
    }
}

/// A count grows with the range.
pub proof fn lemma_count_monotone(m: int, n: int, p: spec_fn(int) -> bool)
    requires
        m <= n,
    ensures
        count(m, p) <= count(n, p),
    decreases n,
{
    if m < n {
        if n > 0 {
            lemma_count_monotone(m, n - 1, p);
        }
    }
}

/// The count of a predicate that holds nowhere is zero, and of one that
/// holds everywhere is the number of positions.
pub proof fn lemma_count_constant(n: int, p: spec_fn(int) -> bool)
    requires
        0 <= n,
    ensures
        (forall|i: int| 0 <= i < n ==> !#[trigger] p(i)) ==> count(n, p) == 0,
        (forall|i: int| 0 <= i < n ==> #[trigger] p(i)) ==> count(n, p) == n,
    decreases n,
{
    if n > 0 {
        lemma_count_constant(n - 1, p);
    }
}

/// A predicate that holds only where another holds has no larger count.
pub proof fn lemma_count_implies(n: int, p: spec_fn(int) -> bool, q: spec_fn(int) -> bool)
    requires
        forall|i: int| 0 <= i < n && #[trigger] p(i) ==> q(i),
    ensures
        count(n, p) <= count(n, q),
    decreases n,
{
    if n > 0 {
        lemma_count_implies(n - 1, p, q);
    }
}

/// A predicate that holds only where another holds, and not everywhere
/// where that one holds, has a smaller count.
pub proof fn lemma_count_grows(n: int, p: spec_fn(int) -> bool, q: spec_fn(int) -> bool, w: int)
    requires
        forall|i: int| 0 <= i < n && #[trigger] p(i) ==> q(i),
        0 <= w < n,
        q(w),
        !p(w),
    ensures
        count(n, p) < count(n, q),
    decreases n,
{
    if w == n - 1 {
        lemma_count_implies(n - 1, p, q);
    } else {
        lemma_count_grows(n - 1, p, q, w);
    }
}

/// Where `p` holds exactly when one of `q` and `r` holds, and these two never
/// hold together, the count of `p` is the sum of their counts.
pub proof fn lemma_count_split(
    n: int,
    p: spec_fn(int) -> bool,
    q: spec_fn(int) -> bool,
    r: spec_fn(int) -> bool,
)
    requires
        forall|i: int| 0 <= i < n ==> (#[trigger] p(i) <==> q(i) || r(i)) && !(q(i) && r(i)),
    ensures
        count(n, p) == count(n, q) + count(n, r),
    decreases n,
{
    if n > 0 {
        lemma_count_split(n - 1, p, q, r);
    }
}

/// Counting `p` among the first `m` positions is counting, among all, the
/// positions below `m` where `p` holds.
pub proof fn lemma_count_prefix(m: int, n: int, p: spec_fn(int) -> bool, q: spec_fn(int) -> bool)
    requires
        0 <= m <= n,
        forall|i: int| 0 <= i < n ==> (#[trigger] q(i) <==> i < m && p(i)),
    ensures
        count(n, q) == count(m, p),
    decreases n,
{
    if n > m {
        lemma_count_prefix(m, n - 1, p, q);
    } else {
        lemma_count_ext(n, p, q);
    }
}

/// The number of positions at which `p` holds of the entry of `s`.
pub open spec fn count_in(s: Seq<int>, p: spec_fn(int) -> bool) -> int {
    count(s.len() as int, |i: int| p(s[i]))
}

proof fn lemma_count_in_last(s: Seq<int>, p: spec_fn(int) -> bool)
    requires
        s.len() > 0,
    ensures
        count_in(s, p) == count_in(s.drop_last(), p) + if p(s.last()) {
            1int
        } else {
            0int
        },
{
    let d = s.drop_last();
    lemma_count_ext(d.len() as int, |i: int| p(s[i]), |i: int| p(d[i]));
}

proof fn lemma_count_in_remove(s: Seq<int>, p: spec_fn(int) -> bool, k: int)
    requires
        0 <= k < s.len(),
    ensures
        count_in(s, p) == count_in(s.remove(k), p) + if p(s[k]) {
            1int
        } else {
            0int
        },
    decreases s.len(),
{
    lemma_count_in_last(s, p);
    if k < s.len() - 1 {
        let r = s.remove(k);
        lemma_count_in_last(r, p);
        assert(r.drop_last() =~= s.drop_last().remove(k));
        lemma_count_in_remove(s.drop_last(), p, k);
    }
}

/// A permutation of `0, ..., n - 1` has every one of these positions as an
/// entry; the result is an index of `v`.
pub proof fn lemma_permutation_onto(s: Seq<int>, v: int) -> (k: int)
    requires
        is_permutation(s),
        0 <= v < s.len(),
    ensures
        0 <= k < s.len(),
        s[k] == v,
{
    let n = s.len() as int;
    s.unique_seq_to_set();
    lemma_int_range(0, n);
    lemma_subset_equality(s.to_set(), set_int_range(0, n));
    assert(set_int_range(0, n).contains(v));
    let k = choose|k: int| 0 <= k < s.len() && s[k] == v;
    k
}

/// Counting through a permutation is counting: the positions `i` at which
/// `p` holds of `s[i]` are as many as the positions at which `p` holds.
pub proof fn lemma_count_permuted(s: Seq<int>, p: spec_fn(int) -> bool)
    requires
        is_permutation(s),
    ensures
        count_in(s, p) == count(s.len() as int, p),
    decreases s.len(),
{
    let n = s.len() as int;
    if n > 0 {
        let k = lemma_permutation_onto(s, n - 1);
        let r = s.remove(k);
        assert(is_permutation(r));
        lemma_count_permuted(r, p);
        lemma_count_in_remove(s, p, k);
    }
}

} // verus!
