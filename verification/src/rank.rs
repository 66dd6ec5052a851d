//! The rank of a suffix: how many suffixes come before it.

use vstd::prelude::*;
use crate::count::{
    count,
    is_permutation,
    lemma_count_bounds,
    lemma_count_grows,
    lemma_count_constant,
    lemma_count_ext,
    lemma_count_permuted,
    lemma_count_prefix,
    lemma_count_split,
    lemma_permutation_onto,
};
use crate::order::{lemma_suffix_lt_step, lemma_suffix_order, suffix_lt};
use crate::suffix_array::{is_suffix_array, lemma_suffix_array_is_permutation};

verus! {

/// Of a position: its suffix comes before the suffix at `v`.
pub open spec fn comes_before(t: Seq<int>, v: int) -> spec_fn(int) -> bool {
    |u: int| suffix_lt(t, u, v)
}

/// Of a position: its symbol is smaller than `c`.
pub open spec fn symbol_below(t: Seq<int>, c: int) -> spec_fn(int) -> bool {
    |u: int| t[u] < c
}

/// Of a position: its symbol is `c`.
pub open spec fn symbol_is(t: Seq<int>, c: int) -> spec_fn(int) -> bool {
    |u: int| t[u] == c
}

/// Of a position: its symbol is `c`, and the suffix behind it comes before
/// the suffix at `s`.
pub open spec fn continues_before(t: Seq<int>, c: int, s: int) -> spec_fn(int) -> bool {
    |u: int| t[u] == c && suffix_lt(t, u + 1, s)
}

/// The number of non-empty suffixes of `t` that come before the suffix at
/// `v`.
pub open spec fn rank(t: Seq<int>, v: int) -> int {
    count(t.len() as int, comes_before(t, v))
}

/// A suffix array holds each suffix at the place that is its rank.
pub proof fn lemma_rank_of_entry(t: Seq<int>, sa: Seq<int>, i: int)
    requires
        is_suffix_array(t, sa),
        0 <= i < sa.len(),
    ensures
        rank(t, sa[i]) == i,
{
    let n = t.len() as int;
    let v = sa[i];
    let before = comes_before(t, v);
    lemma_suffix_array_is_permutation(t, sa);
    lemma_count_permuted(sa, before);
    let below = |k: int| k < i;
    assert forall|k: int| 0 <= k < n implies (#[trigger] before(sa[k])) == below(k) by {
        lemma_suffix_order(t, sa[k], v, v);
    }
    lemma_count_ext(n, |k: int| before(sa[k]), below);
    let all = |k: int| true;
    lemma_count_prefix(i, n, all, below);
    lemma_count_constant(i, all);
}

/// A text has one suffix array only.
pub proof fn lemma_suffix_array_unique(t: Seq<int>, sa1: Seq<int>, sa2: Seq<int>)
    requires
        is_suffix_array(t, sa1),
        is_suffix_array(t, sa2),
    ensures
        sa1 == sa2,
{
    lemma_suffix_array_is_permutation(t, sa2);
    assert forall|i: int| 0 <= i < sa1.len() implies sa1[i] == sa2[i] by {
        lemma_rank_of_entry(t, sa1, i);
        let k = lemma_permutation_onto(sa2, sa1[i]);
        lemma_rank_of_entry(t, sa2, k);
    }
}

/// A suffix that comes before another has the smaller rank.
pub proof fn lemma_rank_ascends(t: Seq<int>, u: int, v: int)
    requires
        0 <= u < t.len(),
        0 <= v <= t.len(),
        suffix_lt(t, u, v),
    ensures
        0 <= rank(t, u) < rank(t, v) <= t.len(),
{
    let n = t.len() as int;
    let p = comes_before(t, u);
    let q = comes_before(t, v);
    assert forall|w: int| 0 <= w < n && #[trigger] p(w) implies q(w) by {
        lemma_suffix_order(t, w, u, v);
    }
    lemma_suffix_order(t, u, u, u);
    lemma_count_grows(n, p, q, u);
    lemma_count_bounds(n, p);
    lemma_count_bounds(n, q);
}

/// The ranks of the non-empty suffixes of `t`, in the order of the text.
pub open spec fn ranks(t: Seq<int>) -> Seq<int> {
    Seq::new(t.len(), |v: int| rank(t, v))
}

/// The suffixes of a text have the ranks `0, ..., n - 1`, each of them once.
pub proof fn lemma_ranks_permute(t: Seq<int>)
    ensures
        is_permutation(ranks(t)),
{
    let n = t.len() as int;
    let r = ranks(t);
    assert forall|i: int| 0 <= i < r.len() implies 0 <= #[trigger] r[i] < r.len() by {
        lemma_count_bounds(n, comes_before(t, i));
        lemma_suffix_order(t, i, i, i);
        lemma_count_grows(n, comes_before(t, i), |w: int| true, i);
        lemma_count_bounds(n, |w: int| true);
    }
    assert forall|i: int, j: int| 0 <= i < j < r.len() implies r[i] != r[j] by {
        lemma_suffix_order(t, i, j, j);
        if suffix_lt(t, i, j) {
            lemma_rank_ascends(t, i, j);
        } else {
            lemma_rank_ascends(t, j, i);
        }
    }
}

/// The suffix array of `t`: at place `r` the position of the suffix of rank
/// `r`.
pub open spec fn suffix_array_of(t: Seq<int>) -> Seq<int> {
    Seq::new(t.len(), |r: int| choose|v: int| 0 <= v < t.len() && rank(t, v) == r)
}

/// Every text has a suffix array, and [`suffix_array_of`] is it.
pub proof fn lemma_suffix_array_exists(t: Seq<int>)
    ensures
        is_suffix_array(t, suffix_array_of(t)),
{
    let n = t.len() as int;
    let sa = suffix_array_of(t);
    lemma_ranks_permute(t);
    assert forall|r: int| 0 <= r < n implies 0 <= #[trigger] sa[r] < n && rank(t, sa[r])
        == r by {
        lemma_permutation_onto(ranks(t), r);
    }
    assert forall|i: int, j: int| 0 <= i < j < sa.len() implies suffix_lt(
        t,
        #[trigger] sa[i],
        #[trigger] sa[j],
    ) by {
        lemma_suffix_order(t, sa[i], sa[j], sa[j]);
        if suffix_lt(t, sa[j], sa[i]) {
            lemma_rank_ascends(t, sa[j], sa[i]);
        }
    }
}

/// A sequence is the suffix array of `t` exactly if it is
/// [`suffix_array_of`]`(t)`.
pub proof fn lemma_suffix_array_is(t: Seq<int>, sa: Seq<int>)
    ensures
        is_suffix_array(t, sa) <==> sa == suffix_array_of(t),
{
    lemma_suffix_array_exists(t);
    if is_suffix_array(t, sa) {
        lemma_suffix_array_unique(t, sa, suffix_array_of(t));
    }
}

/// The rank of the suffix at `s - 1`, from its first symbol `c` and the
/// suffix at `s` behind it: before it come the suffixes whose first symbol
/// is smaller than `c`, and those that begin with `c` and go on with a
/// suffix that comes before the one at `s`.
pub proof fn lemma_rank_of_predecessor(t: Seq<int>, s: int)
    requires
        0 < s <= t.len(),
    ensures
        rank(t, s - 1) == count(t.len() as int, symbol_below(t, t[s - 1])) + count(
            t.len() as int,
            continues_before(t, t[s - 1], s),
        ),
{
    let n = t.len() as int;
    let c = t[s - 1];
    let p = comes_before(t, s - 1);
    let q = symbol_below(t, c);
    let r = continues_before(t, c, s);
    assert forall|u: int| 0 <= u < n implies (#[trigger] p(u) <==> q(u) || r(u)) && !(q(u) && r(
        u,
    )) by {
        lemma_suffix_lt_step(t, u, s - 1);
    }
    lemma_count_split(n, p, q, r);
}

} // verus!
