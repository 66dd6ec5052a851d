//! Suffix sorting by prefix doubling.
//!
//! The positions of a text are ordered by their first `h` symbols, for
//! `h = 1, 2, 4, ...`. Each position has a rank that says where its first `h`
//! symbols stand among those of the others; the ranks of a position and of
//! the position `h` further on, taken as a pair, order the positions by
//! their first `2h` symbols. When the ranks are all different, or `h` has
//! reached the length of the text, the positions are in the order of their
//! suffixes.
//!
//! A round sorts the positions by merging, and there are no more rounds
//! than the length of the text has binary digits.

use vstd::prelude::*;
use vstd::seq_lib::{lemma_multiset_commutative, to_multiset_build, to_multiset_contains};
use crate::count::lemma_permutation_onto;
use crate::order::{lemma_suffix_lt_step, lemma_suffix_order, suffix_lt};
use crate::suffix_array::{is_suffix_array, positions};
use crate::symbol::{codes, natural, Symbol};

verus! {

/// The suffixes at `i` and `j` agree in their first `h` symbols, or end
/// together before that.
pub open spec fn prefix_eq(t: Seq<int>, i: int, j: int, h: nat) -> bool
    decreases h,
{
    if h == 0 {
        true
    } else if i >= t.len() || j >= t.len() {
        i >= t.len() && j >= t.len()
    } else {
        t[i] == t[j] && prefix_eq(t, i + 1, j + 1, (h - 1) as nat)
    }
}

/// The first `h` symbols of the suffix at `i` come before the first `h`
/// symbols of the suffix at `j`.
pub open spec fn prefix_lt(t: Seq<int>, i: int, j: int, h: nat) -> bool
    decreases h,
{
    if h == 0 {
        false
    } else if j >= t.len() {
        false
    } else if i >= t.len() {
        true
    } else if t[i] != t[j] {
        t[i] < t[j]
    } else {
        prefix_lt(t, i + 1, j + 1, (h - 1) as nat)
    }
}

/// The first `h1 + h2` symbols are ordered by the first `h1`, and where
/// these agree, by the `h2` symbols that follow them.
pub proof fn lemma_prefix_split(t: Seq<int>, i: int, j: int, h1: nat, h2: nat)
    requires
        0 <= i,
        0 <= j,
    ensures
        prefix_eq(t, i, j, h1 + h2) <==> prefix_eq(t, i, j, h1) && prefix_eq(
            t,
            i + h1,
            j + h1,
            h2,
        ),
        prefix_lt(t, i, j, h1 + h2) <==> prefix_lt(t, i, j, h1) || (prefix_eq(t, i, j, h1)
            && prefix_lt(t, i + h1, j + h1, h2)),
    decreases h1,
{
    if h1 > 0 {
        if i < t.len() && j < t.len() {
            lemma_prefix_split(t, i + 1, j + 1, (h1 - 1) as nat, h2);
        } else {
            reveal_with_fuel(prefix_eq, 2);
            reveal_with_fuel(prefix_lt, 2);
        }
    }
}

/// What comes before in the first `h` symbols comes before.
pub proof fn lemma_prefix_decides(t: Seq<int>, i: int, j: int, h: nat)
    requires
        0 <= i <= t.len(),
        0 <= j <= t.len(),
        prefix_lt(t, i, j, h),
    ensures
        suffix_lt(t, i, j),
    decreases h,
{
    lemma_suffix_lt_step(t, i, j);
    if h > 0 && i < t.len() && j < t.len() && t[i] == t[j] {
        lemma_prefix_decides(t, i + 1, j + 1, (h - 1) as nat);
    }
}

/// Where `h` symbols reach beyond the end of one of two suffixes, the first
/// `h` symbols order them.
pub proof fn lemma_prefix_is_whole(t: Seq<int>, i: int, j: int, h: nat)
    requires
        0 <= i <= t.len(),
        0 <= j <= t.len(),
        h + i > t.len() || h + j > t.len(),
    ensures
        prefix_lt(t, i, j, h) <==> suffix_lt(t, i, j),
    decreases h,
{
    lemma_suffix_lt_step(t, i, j);
    if i < t.len() && j < t.len() && t[i] == t[j] {
        lemma_prefix_is_whole(t, i + 1, j + 1, (h - 1) as nat);
    }
}

/// The ranks order the positions of `t` as their first `h` symbols do, with
/// equal ranks for equal symbols.
pub open spec fn ranked(t: Seq<int>, rank: Seq<usize>, h: nat) -> bool {
    &&& rank.len() == t.len()
    &&& forall|i: int, j: int|
        0 <= i < t.len() && 0 <= j < t.len() ==> (#[trigger] rank[i] < #[trigger] rank[j]
            <==> prefix_lt(t, i, j, h))
    &&& forall|i: int, j: int|
        0 <= i < t.len() && 0 <= j < t.len() ==> (#[trigger] rank[i] == #[trigger] rank[j]
            <==> prefix_eq(t, i, j, h))
}

/// The key of position `a` in a round of doubling: its rank, and the rank of
/// the position `h` further on, or -1 where the text ends before that.
pub open spec fn key_of(rank: Seq<usize>, h: int, a: int) -> (int, int) {
    (
        rank[a] as int,
        if a + h < rank.len() {
            rank[a + h] as int
        } else {
            -1
        },
    )
}

/// The order of keys: by the first rank, then by the second.
pub open spec fn pair_lt(x: (int, int), y: (int, int)) -> bool {
    x.0 < y.0 || (x.0 == y.0 && x.1 < y.1)
}

/// Position `a` has a smaller key than position `b`.
pub open spec fn key_lt(rank: Seq<usize>, h: int, a: int, b: int) -> bool {
    pair_lt(key_of(rank, h, a), key_of(rank, h, b))
}

/// The keys of a round order the positions as their first `2h` symbols do.
pub proof fn lemma_key_order(t: Seq<int>, rank: Seq<usize>, h: nat, a: int, b: int)
    requires
        ranked(t, rank, h),
        h >= 1,
        0 <= a < t.len(),
        0 <= b < t.len(),
    ensures
        key_lt(rank, h as int, a, b) <==> prefix_lt(t, a, b, 2 * h),
        key_of(rank, h as int, a) == key_of(rank, h as int, b) <==> prefix_eq(t, a, b, 2 * h),
{
    lemma_prefix_split(t, a, b, h, h);
    let n = t.len();
    assert(rank[a] < rank[b] <==> prefix_lt(t, a, b, h));
    assert(rank[a] == rank[b] <==> prefix_eq(t, a, b, h));
    if a + h < n && b + h < n {
        assert(rank[a + h] < rank[b + h] <==> prefix_lt(t, a + h, b + h, h));
        assert(rank[a + h] == rank[b + h] <==> prefix_eq(t, a + h, b + h, h));
    }
}

/// The places `lo..hi` of `s` hold positions in ascending order of their
/// keys, equal keys allowed.
pub open spec fn sorted_between(rank: Seq<usize>, h: int, s: Seq<usize>, lo: int, hi: int) -> bool {
    forall|a: int, b: int|
        lo <= a < b < hi ==> !key_lt(rank, h, #[trigger] s[b] as int, #[trigger] s[a] as int)
}

/// Decides whether position `a` has a smaller key than position `b`.
pub(crate) fn key_less(rank: &Vec<usize>, h: usize, a: usize, b: usize) -> (less: bool)
    requires
        a < rank@.len(),
        b < rank@.len(),
        1 <= h <= rank@.len(),
    ensures
        less == key_lt(rank@, h as int, a as int, b as int),
{
    let n = rank.len();
    if rank[a] != rank[b] {
        rank[a] < rank[b]
    } else if b >= n - h {
        false
    } else if a >= n - h {
        true
    } else {
        rank[a + h] < rank[b + h]
    }
}

fn merge(
    rank: &Vec<usize>,
    h: usize,
    v: &mut Vec<usize>,
    tmp: &mut Vec<usize>,
    lo: usize,
    mid: usize,
    hi: usize,
)
    requires
        1 <= h <= rank@.len(),
        lo <= mid <= hi <= old(v)@.len(),
        old(tmp)@.len() == old(v)@.len(),
        forall|k: int| lo <= k < hi ==> #[trigger] old(v)@[k] < rank@.len(),
        sorted_between(rank@, h as int, old(v)@, lo as int, mid as int),
        sorted_between(rank@, h as int, old(v)@, mid as int, hi as int),
    ensures
        final(v)@.len() == old(v)@.len(),
        final(tmp)@.len() == old(tmp)@.len(),
        forall|k: int| 0 <= k < lo || hi <= k < old(v)@.len() ==> final(v)@[k] == old(v)@[k],
        forall|k: int| lo <= k < hi ==> #[trigger] final(v)@[k] < rank@.len(),
        sorted_between(rank@, h as int, final(v)@, lo as int, hi as int),
        final(v)@.subrange(lo as int, hi as int).to_multiset() == old(v)@.subrange(
            lo as int,
            hi as int,
        ).to_multiset(),
{
    let ghost rk = rank@;
    let ghost n = rank@.len() as int;
    let ghost hh = h as int;
    let ghost v0 = v@;
    let mut i: usize = lo;
    let mut j: usize = mid;
    let mut k: usize = lo;
    proof {
        let e = Seq::<usize>::empty();
        assert(tmp@.subrange(lo as int, lo as int) =~= e);
        assert(v@.subrange(lo as int, lo as int) =~= e);
        assert(v@.subrange(mid as int, mid as int) =~= e);
        lemma_multiset_commutative(e, e);
    }
    while k < hi
        invariant
            rk == rank@,
            n == rank@.len(),
            hh == h,
            1 <= h <= n,
            v@ == v0,
            tmp@.len() == v@.len(),
            lo <= i <= mid <= j <= hi <= v@.len(),
            k == i + (j - mid),
            forall|x: int| lo <= x < hi ==> #[trigger] v@[x] < n,
            forall|x: int| lo <= x < k ==> #[trigger] tmp@[x] < n,
            sorted_between(rk, hh, v@, lo as int, mid as int),
            sorted_between(rk, hh, v@, mid as int, hi as int),
            sorted_between(rk, hh, tmp@, lo as int, k as int),
            i < mid ==> forall|x: int|
                lo <= x < k ==> !key_lt(rk, hh, v@[i as int] as int, #[trigger] tmp@[x] as int),
            j < hi ==> forall|x: int|
                lo <= x < k ==> !key_lt(rk, hh, v@[j as int] as int, #[trigger] tmp@[x] as int),
            tmp@.subrange(lo as int, k as int).to_multiset() == v@.subrange(
                lo as int,
                i as int,
            ).to_multiset().add(v@.subrange(mid as int, j as int).to_multiset()),
        decreases hi - k,
    {
        let ghost tmp0 = tmp@;
        let take_left = if i >= mid {
            false
        } else if j >= hi {
            true
        } else {
            !key_less(rank, h, v[j], v[i])
        };
        if take_left {
            let x = v[i];
            tmp[k] = x;
            proof {
                assert(tmp@.subrange(lo as int, k + 1) =~= tmp0.subrange(lo as int, k as int).push(
                    x,
                ));
                assert(v@.subrange(lo as int, i + 1) =~= v@.subrange(lo as int, i as int).push(x));
                to_multiset_build(tmp0.subrange(lo as int, k as int), x);
                to_multiset_build(v@.subrange(lo as int, i as int), x);
                assert(tmp@.subrange(lo as int, k + 1).to_multiset() =~= v@.subrange(
                    lo as int,
                    i + 1,
                ).to_multiset().add(v@.subrange(mid as int, j as int).to_multiset()));
            }
            i = i + 1;
        } else {
            let x = v[j];
            tmp[k] = x;
            proof {
                assert(tmp@.subrange(lo as int, k + 1) =~= tmp0.subrange(lo as int, k as int).push(
                    x,
                ));
                assert(v@.subrange(mid as int, j + 1) =~= v@.subrange(mid as int, j as int).push(
                    x,
                ));
                to_multiset_build(tmp0.subrange(lo as int, k as int), x);
                to_multiset_build(v@.subrange(mid as int, j as int), x);
                assert(tmp@.subrange(lo as int, k + 1).to_multiset() =~= v@.subrange(
                    lo as int,
                    i as int,
                ).to_multiset().add(v@.subrange(mid as int, j + 1).to_multiset()));
            }
            j = j + 1;
        }
        k = k + 1;
    }
    proof {
        assert(v0.subrange(lo as int, mid as int) + v0.subrange(mid as int, hi as int)
            =~= v0.subrange(lo as int, hi as int));
        lemma_multiset_commutative(
            v0.subrange(lo as int, mid as int),
            v0.subrange(mid as int, hi as int),
        );
    }
    let mut c: usize = lo;
    while c < hi
        invariant
            lo <= c <= hi <= v@.len(),
            v@.len() == v0.len(),
            tmp@.len() == v@.len(),
            forall|x: int| 0 <= x < lo || hi <= x < v@.len() ==> v@[x] == v0[x],
            forall|x: int| lo <= x < c ==> v@[x] == tmp@[x],
        decreases hi - c,
    {
        v[c] = tmp[c];
        c = c + 1;
    }
    proof {
        assert(v@.subrange(lo as int, hi as int) =~= tmp@.subrange(lo as int, hi as int));
    }
}

fn sort_range(
    rank: &Vec<usize>,
    h: usize,
    v: &mut Vec<usize>,
    tmp: &mut Vec<usize>,
    lo: usize,
    hi: usize,
)
    requires
        1 <= h <= rank@.len(),
        lo <= hi <= old(v)@.len(),
        old(tmp)@.len() == old(v)@.len(),
        forall|k: int| lo <= k < hi ==> #[trigger] old(v)@[k] < rank@.len(),
    ensures
        final(v)@.len() == old(v)@.len(),
        final(tmp)@.len() == old(tmp)@.len(),
        forall|k: int| 0 <= k < lo || hi <= k < old(v)@.len() ==> final(v)@[k] == old(v)@[k],
        forall|k: int| lo <= k < hi ==> #[trigger] final(v)@[k] < rank@.len(),
        sorted_between(rank@, h as int, final(v)@, lo as int, hi as int),
        final(v)@.subrange(lo as int, hi as int).to_multiset() == old(v)@.subrange(
            lo as int,
            hi as int,
        ).to_multiset(),
    decreases hi - lo,
{
    if hi - lo < 2 {
        return ;
    }
    let ghost v0 = v@;
    let mid = lo + (hi - lo) / 2;
    sort_range(rank, h, v, tmp, lo, mid);
    let ghost v1 = v@;
    sort_range(rank, h, v, tmp, mid, hi);
    let ghost v2 = v@;
    proof {
        assert(v2.subrange(lo as int, mid as int) =~= v1.subrange(lo as int, mid as int));
        assert(v1.subrange(mid as int, hi as int) =~= v0.subrange(mid as int, hi as int));
    }
    merge(rank, h, v, tmp, lo, mid, hi);
    proof {
        let a0 = v0.subrange(lo as int, mid as int);
        let b0 = v0.subrange(mid as int, hi as int);
        let a2 = v2.subrange(lo as int, mid as int);
        let b2 = v2.subrange(mid as int, hi as int);
        assert(a0 + b0 =~= v0.subrange(lo as int, hi as int));
        assert(a2 + b2 =~= v2.subrange(lo as int, hi as int));
        lemma_multiset_commutative(a0, b0);
        lemma_multiset_commutative(a2, b2);
    }
}

/// `s` lists the positions `0, ..., s.len() - 1`, each of them once.
pub open spec fn lists_all(s: Seq<usize>) -> bool {
    &&& forall|i: int| 0 <= i < s.len() ==> #[trigger] s[i] < s.len()
    &&& forall|i: int, j: int| 0 <= i < j < s.len() ==> s[i] != s[j]
}

/// A rearrangement of a list of all positions is a list of all positions.
pub proof fn lemma_rearranged(s: Seq<usize>, r: Seq<usize>)
    requires
        lists_all(s),
        r.to_multiset() == s.to_multiset(),
    ensures
        lists_all(r),
{
    vstd::seq_lib::to_multiset_len(s);
    vstd::seq_lib::to_multiset_len(r);
    s.lemma_multiset_has_no_duplicates();
    r.lemma_multiset_has_no_duplicates_conv();
    assert forall|i: int| 0 <= i < r.len() implies #[trigger] r[i] < r.len() by {
        to_multiset_contains(r, r[i]);
        to_multiset_contains(s, r[i]);
    }
}

/// Puts the positions that `order` lists into ascending order of their
/// keys.
pub(crate) fn sort_by_keys(
    rank: &Vec<usize>,
    h: usize,
    order: &mut Vec<usize>,
    spare: &mut Vec<usize>,
)
    requires
        1 <= h <= rank@.len(),
        old(order)@.len() == rank@.len(),
        old(spare)@.len() == rank@.len(),
        lists_all(old(order)@),
    ensures
        final(order)@.len() == rank@.len(),
        final(spare)@.len() == rank@.len(),
        lists_all(final(order)@),
        sorted_between(rank@, h as int, final(order)@, 0, rank@.len() as int),
{
    let n = rank.len();
    let ghost before = order@;
    sort_range(rank, h, order, spare, 0, n);
    proof {
        assert(order@.subrange(0, n as int) =~= order@);
        assert(before.subrange(0, n as int) =~= before);
        lemma_rearranged(before, order@);
    }
}

/// Ranks the positions by their keys: positions with equal keys get equal
/// ranks, and a position with a larger key a larger rank. Says whether all
/// keys are different.
pub(crate) fn rank_by_keys(
    rank: &Vec<usize>,
    h: usize,
    order: &Vec<usize>,
    next: &mut Vec<usize>,
) -> (all_differ: bool)
    requires
        1 <= h <= rank@.len(),
        order@.len() == rank@.len(),
        old(next)@.len() == rank@.len(),
        lists_all(order@),
        sorted_between(rank@, h as int, order@, 0, rank@.len() as int),
    ensures
        final(next)@.len() == rank@.len(),
        forall|a: int, b: int|
            0 <= a < rank@.len() && 0 <= b < rank@.len() ==> (#[trigger] final(next)@[a]
                < #[trigger] final(next)@[b] <==> key_lt(rank@, h as int, a, b)),
        forall|a: int, b: int|
            0 <= a < rank@.len() && 0 <= b < rank@.len() ==> (#[trigger] final(next)@[a]
                == #[trigger] final(next)@[b] <==> key_of(rank@, h as int, a) == key_of(
                rank@,
                h as int,
                b,
            )),
        all_differ ==> forall|x: int, y: int|
            0 <= x < y < rank@.len() ==> key_lt(
                rank@,
                h as int,
                #[trigger] order@[x] as int,
                #[trigger] order@[y] as int,
            ),
{
    let n = rank.len();
    let ghost rk = rank@;
    let ghost hh = h as int;
    let ghost ord = order@;
    let mut all_differ = true;
    let mut r: usize = 1;
    next[order[0]] = 0;
    while r < n
        invariant
            rk == rank@,
            ord == order@,
            hh == h,
            n == rank@.len(),
            1 <= h <= n,
            ord.len() == n,
            next@.len() == n,
            lists_all(ord),
            sorted_between(rk, hh, ord, 0, n as int),
            1 <= r <= n,
            forall|x: int| 0 <= x < r ==> #[trigger] next@[ord[x] as int] <= x,
            forall|x: int, y: int|
                0 <= x < r && 0 <= y < r ==> (next@[#[trigger] ord[x] as int]
                    < next@[#[trigger] ord[y] as int] <==> key_lt(
                    rk,
                    hh,
                    ord[x] as int,
                    ord[y] as int,
                )),
            forall|x: int, y: int|
                0 <= x < r && 0 <= y < r ==> (next@[#[trigger] ord[x] as int]
                    == next@[#[trigger] ord[y] as int] <==> key_of(rk, hh, ord[x] as int)
                    == key_of(rk, hh, ord[y] as int)),
            all_differ ==> forall|x: int, y: int|
                0 <= x < y < r ==> key_lt(
                    rk,
                    hh,
                    #[trigger] ord[x] as int,
                    #[trigger] ord[y] as int,
                ),
        decreases n - r,
    {
        let prev = order[r - 1];
        let cur = order[r];
        let ghost before = next@;
        let step = key_less(rank, h, prev, cur);
        let value = next[prev];
        if step {
            next[cur] = value + 1;
        } else {
            next[cur] = value;
            all_differ = false;
        }
        proof {
            assert forall|x: int, y: int| 0 <= x < r + 1 && 0 <= y < r + 1 implies (
            next@[#[trigger] ord[x] as int] < next@[#[trigger] ord[y] as int] <==> key_lt(
                rk,
                hh,
                ord[x] as int,
                ord[y] as int,
            )) && (next@[ord[x] as int] == next@[ord[y] as int] <==> key_of(rk, hh, ord[x] as int)
                == key_of(rk, hh, ord[y] as int)) by {
                let z = (r - 1) as int;
                if x < r && y < r {
                } else if x < r {
                    // y is the new place; the place before it stands between
                    assert(before[ord[x] as int] < before[ord[z] as int] <==> key_lt(
                        rk,
                        hh,
                        ord[x] as int,
                        ord[z] as int,
                    ));
                    assert(before[ord[x] as int] == before[ord[z] as int] <==> key_of(
                        rk,
                        hh,
                        ord[x] as int,
                    ) == key_of(rk, hh, ord[z] as int));
                } else if y < r {
                    assert(before[ord[y] as int] < before[ord[z] as int] <==> key_lt(
                        rk,
                        hh,
                        ord[y] as int,
                        ord[z] as int,
                    ));
                    assert(before[ord[y] as int] == before[ord[z] as int] <==> key_of(
                        rk,
                        hh,
                        ord[y] as int,
                    ) == key_of(rk, hh, ord[z] as int));
                }
            }
        }
        r = r + 1;
    }
    proof {
        assert forall|a: int, b: int| 0 <= a < n && 0 <= b < n implies (#[trigger] next@[a]
            < #[trigger] next@[b] <==> key_lt(rk, hh, a, b)) && (next@[a] == next@[b] <==> key_of(
            rk,
            hh,
            a,
        ) == key_of(rk, hh, b)) by {
            let x = lemma_listed(ord, a);
            let y = lemma_listed(ord, b);
            assert(next@[ord[x] as int] < next@[ord[y] as int] <==> key_lt(
                rk,
                hh,
                ord[x] as int,
                ord[y] as int,
            ));
        }
    }
    all_differ
}

/// A list of all positions has every position at some place.
pub proof fn lemma_listed(s: Seq<usize>, v: int) -> (k: int)
    requires
        lists_all(s),
        0 <= v < s.len(),
    ensures
        0 <= k < s.len(),
        s[k] == v,
{
    let p = positions(s);
    let k = lemma_permutation_onto(p, v);
    k
}

/// The work arrays of suffix sorting. A caller that sorts many texts keeps
/// one and hands it to every call, so that the arrays are allocated once.
pub(crate) struct Scratch {
    /// After a sort, the suffix array.
    pub(crate) order: Vec<usize>,
    /// The buffer that runs are merged into.
    pub(crate) spare: Vec<usize>,
    /// The ranks of the positions in the current round.
    pub(crate) rank: Vec<usize>,
    /// The ranks of the positions in the next round.
    pub(crate) next: Vec<usize>,
}

impl Scratch {
    /// Work arrays that hold nothing yet.
    pub(crate) fn new() -> (ws: Self)
        ensures
            ws.order@.len() == 0,
            ws.spare@.len() == 0,
            ws.rank@.len() == 0,
            ws.next@.len() == 0,
    {
        Scratch { order: Vec::new(), spare: Vec::new(), rank: Vec::new(), next: Vec::new() }
    }
}

/// The suffixes at the positions that `s` lists ascend.
pub open spec fn suffixes_ascend(t: Seq<int>, s: Seq<usize>) -> bool {
    forall|x: int, y: int|
        0 <= x < y < s.len() ==> suffix_lt(t, #[trigger] s[x] as int, #[trigger] s[y] as int)
}

/// Builds the suffix array of `t` in `ws.order`.
pub(crate) fn suffix_sort<T: Symbol>(t: &[T], ws: &mut Scratch)
    requires
        natural(codes(t@)),
    ensures
        is_suffix_array(codes(t@), positions(final(ws).order@)),
{
    let n = t.len();
    let ghost tc = codes(t@);
    ws.order.clear();
    ws.spare.clear();
    ws.rank.clear();
    ws.next.clear();
    let mut i: usize = 0;
    while i < n
        invariant
            n == t@.len(),
            tc == codes(t@),
            natural(tc),
            i <= n,
            ws.order@.len() == i,
            ws.spare@.len() == i,
            ws.rank@.len() == i,
            ws.next@.len() == i,
            forall|k: int| 0 <= k < i ==> ws.order@[k] == k,
            forall|k: int| 0 <= k < i ==> ws.rank@[k] == tc[k],
        decreases n - i,
    {
        assert(tc[i as int] == t@[i as int].code());
        ws.order.push(i);
        ws.spare.push(i);
        ws.rank.push(t[i].key());
        ws.next.push(0);
        i = i + 1;
    }
    let ghost mut h: nat = 1;
    let mut hh: usize = 1;
    proof {
        reveal_with_fuel(prefix_lt, 2);
        reveal_with_fuel(prefix_eq, 2);
    }
    while hh < n
        invariant
            n == t@.len(),
            tc == codes(t@),
            ws.order@.len() == n,
            ws.spare@.len() == n,
            ws.rank@.len() == n,
            ws.next@.len() == n,
            lists_all(ws.order@),
            1 <= hh,
            hh < n ==> hh == h && ranked(tc, ws.rank@, h),
            hh >= n ==> suffixes_ascend(tc, ws.order@),
        decreases n - hh,
    {
        sort_by_keys(&ws.rank, hh, &mut ws.order, &mut ws.spare);
        let all_differ = rank_by_keys(&ws.rank, hh, &ws.order, &mut ws.next);
        proof {
            let rk = ws.rank@;
            let nx = ws.next@;
            let ord = ws.order@;
            assert forall|a: int, b: int| 0 <= a < n && 0 <= b < n implies (#[trigger] nx[a]
                < #[trigger] nx[b] <==> prefix_lt(tc, a, b, 2 * h)) && (nx[a] == nx[b]
                <==> prefix_eq(tc, a, b, 2 * h)) by {
                lemma_key_order(tc, rk, h, a, b);
            }
            if all_differ {
                assert forall|x: int, y: int| 0 <= x < y < n implies suffix_lt(
                    tc,
                    #[trigger] ord[x] as int,
                    #[trigger] ord[y] as int,
                ) by {
                    lemma_key_order(tc, rk, h, ord[x] as int, ord[y] as int);
                    lemma_prefix_decides(tc, ord[x] as int, ord[y] as int, 2 * h);
                }
            } else if hh >= n - hh {
                assert forall|x: int, y: int| 0 <= x < y < n implies suffix_lt(
                    tc,
                    #[trigger] ord[x] as int,
                    #[trigger] ord[y] as int,
                ) by {
                    let a = ord[x] as int;
                    let b = ord[y] as int;
                    lemma_key_order(tc, rk, h, b, a);
                    lemma_prefix_is_whole(tc, b, a, 2 * h);
                    lemma_suffix_order(tc, a, b, b);
                }
            }
        }
        std::mem::swap(&mut ws.rank, &mut ws.next);
        if all_differ || hh >= n - hh {
            hh = n;
        } else {
            hh = 2 * hh;
        }
        proof {
            h = 2 * h;
        }
    }
}

} // verus!
