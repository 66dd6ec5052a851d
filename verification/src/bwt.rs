//! The Burrows-Wheeler transform of a text, read off its suffix array.
//!
//! The transform is the last column of the sorted rotations of the text with
//! an end marker appended, without the marker itself. Row 0 of that matrix is
//! the rotation that starts with the marker; row `i + 1` is the one that
//! starts with the suffix at `sa[i]`. The primary index is the row of the
//! text itself, which is the row whose last symbol is the marker.

use vstd::prelude::*;
use crate::aux_index::{exact_length, exact_rate, lemma_ceil_div_bound};
use crate::count::{count, is_permutation, lemma_count_bounds, lemma_permutation_onto};
use crate::doubling::{suffix_sort, Scratch};
use crate::errors::{Error, ReturnCode};
use crate::histogram::{is_histogram, tabulate};
use crate::index::{narrow, store, values};
use crate::order::lemma_suffix_order;
use crate::rank::{comes_before, lemma_rank_of_entry, lemma_suffix_array_is, rank, suffix_array_of};
use crate::suffix_array::{
    holds_suffix_array,
    is_suffix_array,
    lemma_suffix_array_is_permutation,
    positions,
};
use crate::symbol::{codes, within_alphabet, Symbol};

verus! {

/// The row of the suffix at `v` among the sorted rotations: one more than
/// its rank, since the marker's row comes first.
pub open spec fn row_of(t: Seq<int>, v: int) -> int {
    rank(t, v) + 1
}

/// The primary index of the transform of `t`: the row of the text itself.
/// For the empty text it is zero.
pub open spec fn primary_index(t: Seq<int>) -> int {
    if t.len() == 0 {
        0
    } else {
        row_of(t, 0)
    }
}

/// The position in the text of the symbol that the transform has at place
/// `i`: the one before the suffix of the row, the row of the text itself
/// left out.
pub open spec fn source(t: Seq<int>, sa: Seq<int>, i: int) -> int {
    if i == 0 {
        t.len() - 1
    } else if i < primary_index(t) {
        sa[i - 1] - 1
    } else {
        sa[i] - 1
    }
}

/// The transform of `t`, whose suffix array is `sa`.
pub open spec fn bwt_of(t: Seq<int>, sa: Seq<int>) -> Seq<int> {
    Seq::new(t.len(), |i: int| t[source(t, sa, i)])
}

/// The transform of `t`.
pub open spec fn transform_of(t: Seq<int>) -> Seq<int> {
    bwt_of(t, suffix_array_of(t))
}

/// The transform read off the suffix array of a text is the transform of the
/// text.
pub proof fn lemma_transform_is(t: Seq<int>, sa: Seq<int>)
    requires
        is_suffix_array(t, sa),
    ensures
        bwt_of(t, sa) == transform_of(t),
{
    lemma_suffix_array_is(t, sa);
}

/// `u` is the transform of the text `x`, and `p` its primary index.
pub open spec fn is_transform_of(x: Seq<int>, u: Seq<int>, p: int) -> bool {
    transform_of(x) == u && primary_index(x) == p
}

/// `u` is the transform of some text, and `p` the primary index of that
/// transform.
pub open spec fn is_transform(u: Seq<int>, p: int) -> bool {
    exists|x: Seq<int>| is_transform_of(x, u, p)
}

/// `u` is the transform of the text `x`, and `aux` holds its auxiliary
/// indices at sampling rate `rate`.
pub open spec fn is_sampled_transform_of(
    x: Seq<int>,
    u: Seq<int>,
    rate: int,
    aux: Seq<int>,
) -> bool {
    transform_of(x) == u && samples_of(x, rate) == aux
}

/// `u` is the transform of some text, and `aux` holds the auxiliary indices
/// of that transform at sampling rate `rate`.
pub open spec fn is_sampled_transform(u: Seq<int>, rate: int, aux: Seq<int>) -> bool {
    exists|x: Seq<int>| is_sampled_transform_of(x, u, rate, aux)
}

/// The auxiliary indices of the transform of `t` at sampling rate `rate`:
/// entry `k` is the row of the suffix at `k * rate`. For the empty text the
/// one entry is zero.
pub open spec fn samples_of(t: Seq<int>, rate: int) -> Seq<int> {
    Seq::new(
        exact_length(t.len() as int, rate) as nat,
        |k: int|
            if t.len() == 0 {
                0
            } else {
                row_of(t, k * rate)
            },
    )
}

/// The suffix array holds the suffix at `sa[i]` in row `i + 1`; the text
/// itself has a row, and no other row holds position 0.
pub proof fn lemma_rows(t: Seq<int>, sa: Seq<int>)
    requires
        is_suffix_array(t, sa),
    ensures
        forall|i: int| 0 <= i < sa.len() ==> row_of(t, #[trigger] sa[i]) == i + 1,
        t.len() > 0 ==> 1 <= primary_index(t) <= t.len() && sa[primary_index(t) - 1] == 0,
        forall|i: int| 0 <= i < sa.len() && i != primary_index(t) - 1 ==> 1 <= #[trigger] sa[i],
        forall|v: int|
            0 <= v < t.len() ==> 1 <= #[trigger] row_of(t, v) <= t.len() && sa[row_of(t, v) - 1]
                == v,
{
    assert forall|i: int| 0 <= i < sa.len() implies row_of(t, #[trigger] sa[i]) == i + 1 by {
        lemma_rank_of_entry(t, sa, i);
    }
    lemma_suffix_array_is_permutation(t, sa);
    assert forall|v: int| 0 <= v < t.len() implies 1 <= #[trigger] row_of(t, v) <= t.len()
        && sa[row_of(t, v) - 1] == v by {
        lemma_permutation_onto(sa, v);
    }
}

/// The places of the transform take their symbols from all positions of the
/// text, from each of them once.
pub proof fn lemma_sources_permute(t: Seq<int>, sa: Seq<int>)
    requires
        is_suffix_array(t, sa),
    ensures
        is_permutation(Seq::new(t.len(), |i: int| source(t, sa, i))),
{
    lemma_rows(t, sa);
    lemma_suffix_array_is_permutation(t, sa);
}

/// Writes the transform of `t` into `u` and returns the primary index.
pub(crate) fn last_column<T: Symbol>(t: &[T], sa: &Vec<usize>, u: &mut [T]) -> (p: usize)
    requires
        is_suffix_array(codes(t@), positions(sa@)),
        old(u)@.len() == t@.len(),
    ensures
        final(u)@.len() == t@.len(),
        codes(final(u)@) == bwt_of(codes(t@), positions(sa@)),
        p as int == primary_index(codes(t@)),
{
    let n = t.len();
    if n == 0 {
        return 0;
    }
    let ghost tc = codes(t@);
    let ghost sq = positions(sa@);
    let ghost pi = primary_index(tc);
    proof {
        lemma_rows(tc, sq);
    }
    u[0] = t[n - 1];
    let mut idx: usize = 1;
    let mut p: usize = 0;
    let mut r: usize = 0;
    while r < n
        invariant
            n == t@.len(),
            n > 0,
            u@.len() == n,
            sa@.len() == n,
            tc == codes(t@),
            sq == positions(sa@),
            is_suffix_array(tc, sq),
            pi == primary_index(tc),
            1 <= pi <= n,
            sq[pi - 1] == 0,
            forall|i: int| 0 <= i < n && i != pi - 1 ==> 1 <= #[trigger] sq[i],
            r <= n,
            r < pi ==> p == 0 && idx == r + 1,
            r >= pi ==> p == pi && idx == r,
            forall|i: int| 0 <= i < idx ==> (#[trigger] u@[i]).code() == tc[source(tc, sq, i)],
        decreases n - r,
    {
        let s = sa[r];
        assert(sq[r as int] == s);
        if s == 0 {
            p = r + 1;
        } else {
            u[idx] = t[s - 1];
            idx = idx + 1;
        }
        r = r + 1;
    }
    p
}

proof fn lemma_sample_position(n: int, rate: int, length: int, k: int)
    requires
        rate >= 1,
        n > rate * (length - 1),
        0 <= k < length,
    ensures
        0 <= k * rate < n,
        (k * rate) % rate == 0,
{
    assert(0 <= k * rate <= rate * (length - 1)) by (nonlinear_arith)
        requires
            rate >= 1,
            0 <= k < length,
    ;
    vstd::arithmetic::div_mod::lemma_mod_multiples_basic(k, rate);
}

/// Reads the auxiliary indices at sampling rate `rate` off the suffix array.
pub(crate) fn sample_rows(sa: &Vec<usize>, rate: usize, Ghost(t): Ghost<Seq<int>>) -> (aux: Vec<
    usize,
>)
    requires
        is_suffix_array(t, positions(sa@)),
        rate >= 1,
        t.len() < usize::MAX,
    ensures
        positions(aux@) == samples_of(t, rate as int),
{
    let n = sa.len();
    let ghost sq = positions(sa@);
    let length = if n == 0 {
        1
    } else {
        (n - 1) / rate + 1
    };
    proof {
        lemma_rows(t, sq);
        lemma_ceil_div_bound(n as int, rate as int, length as int);
        lemma_ceil_div_bound(n as int, rate as int, length - 1);
        assert(n as int <= rate * length && (n > 0 ==> n as int > rate * (length - 1)))
            by (nonlinear_arith)
            requires
                rate >= 1,
                n == 0 ==> length == 1,
                n > 0 ==> length == (n - 1) / (rate as int) + 1,
        ;
    }
    let mut aux: Vec<usize> = Vec::new();
    let mut k: usize = 0;
    while k < length
        invariant
            k <= length,
            aux@.len() == k,
            forall|j: int| 0 <= j < k ==> aux@[j] == 0,
        decreases length - k,
    {
        aux.push(0);
        k = k + 1;
    }
    proof {
        assert forall|k: int| 0 <= k < length implies #[trigger] aux@[k] == if row_of(
            t,
            k * rate,
        ) <= 0 {
            row_of(t, k * rate)
        } else {
            0
        } by {
            lemma_count_bounds(n as int, comes_before(t, k * rate));
        }
    }
    let mut r: usize = 0;
    while r < n
        invariant
            n == sa@.len(),
            n == t.len(),
            n < usize::MAX,
            sq == positions(sa@),
            is_suffix_array(t, sq),
            rate >= 1,
            aux@.len() == length,
            n as int <= rate * length,
            n == 0 || n as int > rate * (length - 1),
            r <= n,
            forall|v: int|
                0 <= v < n ==> 1 <= #[trigger] row_of(t, v) <= n && sq[row_of(t, v) - 1] == v,
            forall|k: int|
                0 <= k < length ==> #[trigger] aux@[k] == if row_of(t, k * rate) <= r {
                    row_of(t, k * rate)
                } else {
                    0
                },
        decreases n - r,
    {
        let s = sa[r];
        assert(sq[r as int] == s);
        assert(row_of(t, s as int) == r + 1) by {
            lemma_rows(t, sq);
        }
        if s % rate == 0 {
            let m = s / rate;
            proof {
                assert(m < length && m * rate == s) by (nonlinear_arith)
                    requires
                        s < n,
                        n as int <= rate * length,
                        rate >= 1,
                        s % rate == 0,
                        m == s / rate,
                ;
            }
            aux[m] = r + 1;
            proof {
                assert forall|k: int| 0 <= k < length implies #[trigger] aux@[k] == if row_of(
                    t,
                    k * rate,
                ) <= r + 1 {
                    row_of(t, k * rate)
                } else {
                    0
                } by {
                    lemma_sample_position(n as int, rate as int, length as int, k);
                    if k != m {
                        assert(k * rate != m * rate) by (nonlinear_arith)
                            requires
                                k != m,
                                rate >= 1,
                        ;
                    }
                }
            }
        } else {
            proof {
                assert forall|k: int| 0 <= k < length implies #[trigger] aux@[k] == if row_of(
                    t,
                    k * rate,
                ) <= r + 1 {
                    row_of(t, k * rate)
                } else {
                    0
                } by {
                    lemma_sample_position(n as int, rate as int, length as int, k);
                }
            }
        }
        r = r + 1;
    }
    proof {
        let want = samples_of(t, rate as int);
        assert forall|k: int| 0 <= k < length implies positions(aux@)[k] == want[k] by {
            if n > 0 {
                lemma_sample_position(n as int, rate as int, length as int, k);
            }
        }
    }
    aux
}

/// The buffer `a1` holds the suffix array of `t`, as
/// [`holds_suffix_array`] says, and `u1` is the transform of `t`.
pub open spec fn holds_transform<T: Symbol, I: ReturnCode>(
    t: Seq<int>,
    a0: Seq<I>,
    a1: Seq<I>,
    u1: Seq<T>,
) -> bool {
    &&& holds_suffix_array(t, a0, a1)
    &&& codes(u1) == transform_of(t)
}

/// What a call that transforms `t` leaves in its buffers: the suffix array
/// in `a` and the transform in `u`, if it succeeded, and what was there, if
/// it failed.
pub open spec fn transformed<T: Symbol, I: ReturnCode>(
    t: Seq<int>,
    a0: Seq<I>,
    a1: Seq<I>,
    u0: Seq<T>,
    u1: Seq<T>,
    ok: bool,
) -> bool {
    if ok {
        u1.len() == u0.len() && holds_transform(t, a0, a1, u1)
    } else {
        a1 == a0 && u1 == u0
    }
}

/// What a call that samples auxiliary indices leaves in their array: the
/// indices at the rate that the length of the array stands for, if it
/// succeeded, and what was there, if it failed.
pub open spec fn sampled<I: ReturnCode>(
    t: Seq<int>,
    before: Seq<I>,
    after: Seq<I>,
    ok: bool,
) -> bool {
    if ok {
        after.len() == before.len() && values(after) == samples_of(
            t,
            exact_rate(t.len() as int, before.len() as int),
        )
    } else {
        after == before
    }
}

proof fn lemma_stored<I: ReturnCode>(t: Seq<int>, order: Seq<usize>, a0: Seq<I>, a1: Seq<I>)
    requires
        is_suffix_array(t, positions(order)),
        a1.len() == a0.len(),
        values(a1.take(order.len() as int)) == positions(order),
        a1.skip(order.len() as int) == a0.skip(order.len() as int),
    ensures
        holds_suffix_array(t, a0, a1),
        bwt_of(t, positions(order)) == transform_of(t),
{
    lemma_transform_is(t, positions(order));
}

proof fn lemma_order_fits<I: ReturnCode>(t: Seq<int>, order: Seq<usize>)
    requires
        is_suffix_array(t, positions(order)),
        t.len() <= I::limit(),
    ensures
        forall|i: int| 0 <= i < order.len() ==> #[trigger] order[i] <= I::limit(),
{
    assert forall|i: int| 0 <= i < order.len() implies #[trigger] order[i] <= I::limit() by {
        assert(positions(order)[i] == order[i]);
    }
}

/// Writes the transform of `t` into `u`, and returns the primary index. The
/// suffix array of `t` is left in the first entries of `a`; where a table is
/// given, it receives the frequency table of `t`.
///
/// Fails if the table has not one entry for each of the `sigma` symbols of
/// the alphabet; nothing is written then.
pub(crate) fn transform<T: Symbol, I: ReturnCode>(
    t: &[T],
    u: &mut [T],
    a: &mut [I],
    freq: Option<&mut [I]>,
    sigma: usize,
    ws: &mut Scratch,
) -> (r: Result<I, Error<I>>)
    requires
        within_alphabet(codes(t@), sigma as int),
        t@.len() == old(u)@.len(),
        t@.len() <= old(a)@.len(),
        t@.len() <= I::limit(),
    ensures
        final(u)@.len() == old(u)@.len(),
        final(a)@.len() == old(a)@.len(),
        freq matches Some(f) ==> final(f)@.len() == f@.len(),
        r is Ok <==> (freq matches Some(f) ==> f@.len() == sigma),
        r matches Err(e) ==> e == Error::<I>::IllegalArguments && final(u)@ == old(u)@ && final(a)@
            == old(a)@ && (freq matches Some(f) ==> final(f)@ == f@),
        r matches Ok(p) ==> p.value() == primary_index(codes(t@)) && holds_transform(
            codes(t@),
            old(a)@,
            final(a)@,
            final(u)@,
        ),
        r is Ok ==> (freq matches Some(f) ==> is_histogram(codes(t@), values(final(f)@))),
{
    if !tabulate(t, freq, sigma) {
        return Err(Error::IllegalArguments);
    }
    suffix_sort(t, ws);
    proof {
        lemma_order_fits::<I>(codes(t@), ws.order@);
    }
    store(a, &ws.order);
    let p = last_column(t, &ws.order, u);
    proof {
        lemma_stored(codes(t@), ws.order@, old(a)@, a@);
        lemma_rows(codes(t@), positions(ws.order@));
    }
    Ok(narrow::<I>(p))
}

/// Replaces `t` by its transform, and returns the primary index; otherwise
/// as [`transform`], of which every clause holds of the text that `t` held
/// before.
pub(crate) fn transform_in_place<T: Symbol, I: ReturnCode>(
    t: &mut [T],
    a: &mut [I],
    freq: Option<&mut [I]>,
    sigma: usize,
    ws: &mut Scratch,
) -> (r: Result<I, Error<I>>)
    requires
        within_alphabet(codes(old(t)@), sigma as int),
        old(t)@.len() <= old(a)@.len(),
        old(t)@.len() <= I::limit(),
    ensures
        final(t)@.len() == old(t)@.len(),
        final(a)@.len() == old(a)@.len(),
        freq matches Some(f) ==> final(f)@.len() == f@.len(),
        r is Ok <==> (freq matches Some(f) ==> f@.len() == sigma),
        r matches Err(e) ==> e == Error::<I>::IllegalArguments && final(t)@ == old(t)@ && final(a)@
            == old(a)@ && (freq matches Some(f) ==> final(f)@ == f@),
        r matches Ok(p) ==> p.value() == primary_index(codes(old(t)@)) && holds_transform(
            codes(old(t)@),
            old(a)@,
            final(a)@,
            final(t)@,
        ),
        r is Ok ==> (freq matches Some(f) ==> is_histogram(codes(old(t)@), values(final(f)@))),
{
    let text = vstd::slice::slice_to_vec(t);
    transform(text.as_slice(), t, a, freq, sigma, ws)
}

/// As [`transform`], and writes into `aux` the auxiliary indices of the
/// transform at the sampling rate `rate`; the primary index is the first of
/// them.
pub(crate) fn transform_sampled<T: Symbol, I: ReturnCode>(
    t: &[T],
    u: &mut [T],
    a: &mut [I],
    freq: Option<&mut [I]>,
    rate: usize,
    aux: &mut [I],
    sigma: usize,
    ws: &mut Scratch,
) -> (r: Result<(), Error<I>>)
    requires
        within_alphabet(codes(t@), sigma as int),
        t@.len() == old(u)@.len(),
        t@.len() <= old(a)@.len(),
        t@.len() <= I::limit(),
        t@.len() < usize::MAX,
        rate >= 1,
        old(aux)@.len() == exact_length(t@.len() as int, rate as int),
    ensures
        final(u)@.len() == old(u)@.len(),
        final(a)@.len() == old(a)@.len(),
        final(aux)@.len() == old(aux)@.len(),
        freq matches Some(f) ==> final(f)@.len() == f@.len(),
        r is Ok <==> (freq matches Some(f) ==> f@.len() == sigma),
        r matches Err(e) ==> e == Error::<I>::IllegalArguments && final(u)@ == old(u)@ && final(a)@
            == old(a)@ && final(aux)@ == old(aux)@ && (freq matches Some(f) ==> final(f)@ == f@),
        r is Ok ==> holds_transform(codes(t@), old(a)@, final(a)@, final(u)@) && values(
            final(aux)@,
        ) == samples_of(codes(t@), rate as int),
        r is Ok ==> (freq matches Some(f) ==> is_histogram(codes(t@), values(final(f)@))),
{
    if !tabulate(t, freq, sigma) {
        return Err(Error::IllegalArguments);
    }
    suffix_sort(t, ws);
    proof {
        lemma_order_fits::<I>(codes(t@), ws.order@);
    }
    store(a, &ws.order);
    last_column(t, &ws.order, u);
    let rows = sample_rows(&ws.order, rate, Ghost(codes(t@)));
    proof {
        let tc = codes(t@);
        lemma_stored(tc, ws.order@, old(a)@, a@);
        assert(rows@.len() == positions(rows@).len());
        assert forall|k: int| 0 <= k < rows@.len() implies #[trigger] rows@[k] <= I::limit() by {
            lemma_sample_bound(tc, rate as int, k);
        }
    }
    store(aux, &rows);
    Ok(())
}

/// An auxiliary index is a row.
pub proof fn lemma_sample_bound(t: Seq<int>, rate: int, k: int)
    requires
        rate >= 1,
        0 <= k < samples_of(t, rate).len(),
    ensures
        0 <= samples_of(t, rate)[k] <= t.len(),
{
    let n = t.len() as int;
    let v = k * rate;
    lemma_count_bounds(n, comes_before(t, v));
    if n > 0 {
        lemma_ceil_div_bound(n, rate, k);
        lemma_ceil_div_bound(n, rate, 0);
        assert(0 <= v < n) by (nonlinear_arith)
            requires
                v == k * rate,
                0 <= k,
                rate >= 1,
                !(n <= rate * k),
        ;
        lemma_suffix_order(t, v, v, v);
        lemma_count_short(n, comes_before(t, v), v);
    }
}

proof fn lemma_count_short(n: int, p: spec_fn(int) -> bool, w: int)
    requires
        0 <= w < n,
        !p(w),
    ensures
        count(n, p) < n,
    decreases n,
{
    if w == n - 1 {
        lemma_count_bounds(n - 1, p);
    } else {
        lemma_count_short(n - 1, p, w);
    }
}

/// As [`transform_in_place`], and writes into `aux` the auxiliary indices of
/// the transform at the sampling rate `rate`.
pub(crate) fn transform_sampled_in_place<T: Symbol, I: ReturnCode>(
    t: &mut [T],
    a: &mut [I],
    freq: Option<&mut [I]>,
    rate: usize,
    aux: &mut [I],
    sigma: usize,
    ws: &mut Scratch,
) -> (r: Result<(), Error<I>>)
    requires
        within_alphabet(codes(old(t)@), sigma as int),
        old(t)@.len() <= old(a)@.len(),
        old(t)@.len() <= I::limit(),
        old(t)@.len() < usize::MAX,
        rate >= 1,
        old(aux)@.len() == exact_length(old(t)@.len() as int, rate as int),
    ensures
        final(t)@.len() == old(t)@.len(),
        final(a)@.len() == old(a)@.len(),
        final(aux)@.len() == old(aux)@.len(),
        freq matches Some(f) ==> final(f)@.len() == f@.len(),
        r is Ok <==> (freq matches Some(f) ==> f@.len() == sigma),
        r matches Err(e) ==> e == Error::<I>::IllegalArguments && final(t)@ == old(t)@ && final(a)@
            == old(a)@ && final(aux)@ == old(aux)@ && (freq matches Some(f) ==> final(f)@ == f@),
        r is Ok ==> holds_transform(codes(old(t)@), old(a)@, final(a)@, final(t)@) && values(
            final(aux)@,
        ) == samples_of(codes(old(t)@), rate as int),
        r is Ok ==> (freq matches Some(f) ==> is_histogram(codes(old(t)@), values(final(f)@))),
{
    let text = vstd::slice::slice_to_vec(t);
    transform_sampled(text.as_slice(), t, a, freq, rate, aux, sigma, ws)
}

} // verus!
