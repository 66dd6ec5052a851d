//! The suffix array of a text, and its construction by sorting.

use vstd::prelude::*;
use crate::count::{is_permutation, lemma_permutation_onto};
use crate::doubling::{suffix_sort, Scratch};
use crate::errors::{Error, ReturnCode};
use crate::histogram::{is_histogram, tabulate};
use crate::index::{store, values};
use crate::order::{lemma_suffix_lt_step, lemma_suffix_order, suffix_lt};
use crate::symbol::{codes, within_alphabet, Symbol};

verus! {

/// `sa` is the suffix array of `t`: it lists the starting positions of the
/// suffixes of `t`, each of them once, with the suffixes in ascending order.
pub open spec fn is_suffix_array(t: Seq<int>, sa: Seq<int>) -> bool {
    &&& sa.len() == t.len()
    &&& forall|i: int| 0 <= i < sa.len() ==> 0 <= #[trigger] sa[i] < t.len()
    &&& forall|i: int, j: int|
        0 <= i < j < sa.len() ==> suffix_lt(t, #[trigger] sa[i], #[trigger] sa[j])
}

/// A sequence of sizes as a sequence of integers.
pub open spec fn positions(s: Seq<usize>) -> Seq<int> {
    Seq::new(s.len(), |i: int| s[i] as int)
}

/// A suffix array is a permutation of the positions of its text.
pub proof fn lemma_suffix_array_is_permutation(t: Seq<int>, sa: Seq<int>)
    requires
        is_suffix_array(t, sa),
    ensures
        is_permutation(sa),
{
    assert forall|i: int, j: int| 0 <= i < j < sa.len() implies sa[i] != sa[j] by {
        lemma_suffix_order(t, sa[i], sa[j], sa[j]);
    }
}

/// The suffixes at neighbouring places of a suffix array ascend; this is the
/// whole order, since the order of suffixes is transitive.
pub proof fn lemma_suffix_array_from_neighbours(t: Seq<int>, sa: Seq<int>)
    requires
        sa.len() == t.len(),
        forall|i: int| 0 <= i < sa.len() ==> 0 <= #[trigger] sa[i] < t.len(),
        forall|i: int| 0 <= i < sa.len() - 1 ==> suffix_lt(t, #[trigger] sa[i], sa[i + 1]),
    ensures
        is_suffix_array(t, sa),
{
    assert forall|i: int, j: int| 0 <= i < j < sa.len() implies suffix_lt(
        t,
        #[trigger] sa[i],
        #[trigger] sa[j],
    ) by {
        lemma_ascends(t, sa, i, j);
    }
}

proof fn lemma_ascends(t: Seq<int>, sa: Seq<int>, i: int, j: int)
    requires
        sa.len() == t.len(),
        forall|i: int| 0 <= i < sa.len() ==> 0 <= #[trigger] sa[i] < t.len(),
        forall|i: int| 0 <= i < sa.len() - 1 ==> suffix_lt(t, #[trigger] sa[i], sa[i + 1]),
        0 <= i < j < sa.len(),
    ensures
        suffix_lt(t, sa[i], sa[j]),
    decreases j - i,
{
    if i + 1 < j {
        lemma_ascends(t, sa, i, j - 1);
        lemma_suffix_order(t, sa[i], sa[j - 1], sa[j]);
    }
}

/// `pos` says for each position at which place `order` lists it.
pub open spec fn inverse_of(order: Seq<int>, pos: Seq<int>) -> bool {
    &&& pos.len() == order.len()
    &&& forall|r: int| 0 <= r < order.len() ==> pos[#[trigger] order[r]] == r
}

/// The place of the suffix at `v`, and -1 for the empty suffix, which
/// comes before all others.
pub open spec fn place_of(pos: Seq<int>, v: int) -> int {
    if v >= pos.len() {
        -1
    } else {
        pos[v]
    }
}

/// The suffix listed at place `r` starts with a smaller symbol than the one
/// listed next, or with the same symbol, and then what follows it is listed
/// before what follows that.
pub open spec fn step_ascends(t: Seq<int>, order: Seq<int>, pos: Seq<int>, r: int) -> bool {
    let a = order[r];
    let b = order[r + 1];
    t[a] < t[b] || (t[a] == t[b] && place_of(pos, a + 1) < place_of(pos, b + 1))
}

/// Where `pos` is the inverse of a permutation, the permutation is the
/// inverse of `pos`.
pub proof fn lemma_inverse(order: Seq<int>, pos: Seq<int>, v: int)
    requires
        is_permutation(order),
        inverse_of(order, pos),
        0 <= v < order.len(),
    ensures
        0 <= pos[v] < order.len(),
        order[pos[v]] == v,
{
    let k = lemma_permutation_onto(order, v);
    assert(pos[order[k]] == k);
}

/// In a suffix array every step ascends.
pub proof fn lemma_steps_of_suffix_array(t: Seq<int>, sa: Seq<int>, pos: Seq<int>, r: int)
    requires
        is_suffix_array(t, sa),
        inverse_of(sa, pos),
        0 <= r < sa.len() - 1,
    ensures
        step_ascends(t, sa, pos, r),
{
    let a = sa[r];
    let b = sa[r + 1];
    assert(0 <= sa[r] < t.len() && 0 <= sa[r + 1] < t.len());
    assert(suffix_lt(t, sa[r], sa[r + 1]));
    lemma_suffix_lt_step(t, a, b);
    if t[a] == t[b] {
        lemma_suffix_lt_step(t, a + 1, b + 1);
        lemma_suffix_array_is_permutation(t, sa);
        lemma_inverse(sa, pos, b + 1);
        if a + 1 < t.len() {
            lemma_inverse(sa, pos, a + 1);
            let x = pos[a + 1];
            let y = pos[b + 1];
            assert(sa[x] == a + 1 && sa[y] == b + 1);
            lemma_suffix_order(t, a + 1, b + 1, b + 1);
            if y < x {
                assert(suffix_lt(t, sa[y], sa[x]));
            }
            assert(x < y);
        }
    }
}

proof fn lemma_steps_chain(t: Seq<int>, order: Seq<int>, pos: Seq<int>, x: int, y: int)
    requires
        is_permutation(order),
        order.len() == t.len(),
        inverse_of(order, pos),
        forall|r: int| 0 <= r < order.len() - 1 ==> step_ascends(t, order, pos, r),
        0 <= x < y < order.len(),
    ensures
        t[order[x]] <= t[order[y]],
        t[order[x]] == t[order[y]] ==> place_of(pos, order[x] + 1) < place_of(pos, order[y] + 1),
    decreases y - x,
{
    assert(step_ascends(t, order, pos, y - 1));
    if x < y - 1 {
        lemma_steps_chain(t, order, pos, x, y - 1);
    }
}

proof fn lemma_steps_order(t: Seq<int>, order: Seq<int>, pos: Seq<int>, v: int, w: int)
    requires
        is_permutation(order),
        order.len() == t.len(),
        inverse_of(order, pos),
        forall|r: int| 0 <= r < order.len() - 1 ==> step_ascends(t, order, pos, r),
        0 <= v <= t.len(),
        0 <= w <= t.len(),
        place_of(pos, v) < place_of(pos, w),
    ensures
        suffix_lt(t, v, w),
    decreases t.len() - v,
{
    lemma_suffix_lt_step(t, v, w);
    if v < t.len() {
        lemma_inverse(order, pos, v);
        lemma_inverse(order, pos, w);
        lemma_steps_chain(t, order, pos, pos[v], pos[w]);
        if t[v] == t[w] {
            lemma_steps_order(t, order, pos, v + 1, w + 1);
        }
    }
}

/// A permutation of the positions in which every step ascends is the suffix
/// array.
pub proof fn lemma_suffix_array_of_steps(t: Seq<int>, order: Seq<int>, pos: Seq<int>)
    requires
        is_permutation(order),
        order.len() == t.len(),
        inverse_of(order, pos),
        forall|r: int| 0 <= r < order.len() - 1 ==> step_ascends(t, order, pos, r),
    ensures
        is_suffix_array(t, order),
{
    assert forall|i: int, j: int| 0 <= i < j < order.len() implies suffix_lt(
        t,
        #[trigger] order[i],
        #[trigger] order[j],
    ) by {
        lemma_steps_order(t, order, pos, order[i], order[j]);
    }
}

/// The buffer `after` holds the suffix array of `t` in its first entries,
/// and behind them what `before` held there.
pub open spec fn holds_suffix_array<I: ReturnCode>(
    t: Seq<int>,
    before: Seq<I>,
    after: Seq<I>,
) -> bool {
    &&& after.len() == before.len()
    &&& is_suffix_array(t, values(after.take(t.len() as int)))
    &&& after.skip(t.len() as int) == before.skip(t.len() as int)
}

/// What a call that builds a suffix array leaves in its buffer: the suffix
/// array of `t` in front of what was there, if it succeeded, and what was
/// there, if it failed.
pub open spec fn constructed<I: ReturnCode>(
    t: Seq<int>,
    before: Seq<I>,
    after: Seq<I>,
    ok: bool,
) -> bool {
    if ok {
        holds_suffix_array(t, before, after)
    } else {
        after == before
    }
}

/// What a call leaves in a frequency table that it was given: the frequency
/// table of `t`, if it succeeded, and what was there, if it failed.
pub open spec fn tabled<I: ReturnCode>(
    t: Seq<int>,
    before: Seq<I>,
    after: Seq<I>,
    ok: bool,
) -> bool {
    if ok {
        after.len() == before.len() && is_histogram(t, values(after))
    } else {
        after == before
    }
}

/// Builds the suffix array of `t` in the first entries of `sa`, and, where a
/// table is given, the frequency table of `t` in it.
///
/// Fails if the table has not one entry for each of the `sigma` symbols of
/// the alphabet; nothing is written then.
pub(crate) fn construct<T: Symbol, I: ReturnCode>(
    t: &[T],
    sa: &mut [I],
    freq: Option<&mut [I]>,
    sigma: usize,
    ws: &mut Scratch,
) -> (r: Result<(), Error<I>>)
    requires
        within_alphabet(codes(t@), sigma as int),
        t@.len() <= old(sa)@.len(),
        t@.len() <= I::limit(),
    ensures
        final(sa)@.len() == old(sa)@.len(),
        freq matches Some(f) ==> final(f)@.len() == f@.len(),
        r is Ok <==> (freq matches Some(f) ==> f@.len() == sigma),
        r matches Err(e) ==> e == Error::<I>::IllegalArguments && final(sa)@ == old(sa)@ && (
        freq matches Some(f) ==> final(f)@ == f@),
        r is Ok ==> holds_suffix_array(codes(t@), old(sa)@, final(sa)@),
        r is Ok ==> (freq matches Some(f) ==> is_histogram(codes(t@), values(final(f)@))),
{
    if !tabulate(t, freq, sigma) {
        return Err(Error::IllegalArguments);
    }
    suffix_sort(t, ws);
    proof {
        assert forall|i: int| 0 <= i < ws.order@.len() implies #[trigger] ws.order@[i]
            <= I::limit() by {
            assert(positions(ws.order@)[i] == ws.order@[i]);
        }
    }
    store(sa, &ws.order);
    Ok(())
}

} // verus!
