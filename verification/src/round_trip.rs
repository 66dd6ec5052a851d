//! The inverse transform undoes the transform.

use vstd::prelude::*;
use crate::aux_index::{exact_length, lemma_ceil_div_bound};
use crate::bwt::{
    bwt_of,
    is_sampled_transform,
    is_sampled_transform_of,
    is_transform,
    is_transform_of,
    lemma_transform_is,
    lemma_rows,
    lemma_sources_permute,
    primary_index,
    row_of,
    samples_of,
    source,
    transform_of,
};
use crate::count::{
    count,
    is_permutation,
    lemma_count_bounds,
    lemma_count_ext,
    lemma_count_implies,
    lemma_count_monotone,
    lemma_count_permuted,
    lemma_count_prefix,
    lemma_permutation_onto,
};
use crate::order::{lemma_suffix_lt_step, lemma_suffix_order, suffix_lt};
use crate::rank::{
    continues_before,
    lemma_rank_of_predecessor,
    lemma_suffix_array_exists,
    suffix_array_of,
    symbol_below,
    symbol_is,
};
use crate::suffix_array::{
    inverse_of,
    is_suffix_array,
    lemma_suffix_array_of_steps,
    place_of,
    step_ascends,
};
use crate::unbwt::{
    decodable,
    decoded,
    lemma_previous_row_bounds,
    lemma_symbols_up_to,
    place_of_row,
    previous_row,
    row_after,
    samples_agree,
    symbol_of_row,
};

verus! {

/// The position in the text at which the rotation of row `r` starts: the
/// end of the text for row 0, and the entries of the suffix array for the
/// rows behind it.
pub open spec fn start_of_row(t: Seq<int>, sa: Seq<int>, r: int) -> int {
    if r == 0 {
        t.len() as int
    } else {
        sa[r - 1]
    }
}

/// Rows are ordered as the suffixes they start with.
pub proof fn lemma_row_order(t: Seq<int>, sa: Seq<int>, a: int, b: int)
    requires
        is_suffix_array(t, sa),
        0 <= a <= t.len(),
        0 <= b <= t.len(),
    ensures
        a < b <==> suffix_lt(t, start_of_row(t, sa, a), start_of_row(t, sa, b)),
{
    let x = start_of_row(t, sa, a);
    let y = start_of_row(t, sa, b);
    lemma_suffix_order(t, x, y, y);
    lemma_suffix_order(t, y, x, x);
    lemma_suffix_lt_step(t, x, y);
    lemma_suffix_lt_step(t, y, x);
}

/// The last symbol of a row is the symbol of the text before the position
/// at which the row starts.
pub proof fn lemma_symbol_of_row(t: Seq<int>, sa: Seq<int>, r: int)
    requires
        is_suffix_array(t, sa),
        0 <= r <= t.len(),
        r != primary_index(t),
    ensures
        0 <= place_of_row(primary_index(t), r) < t.len(),
        1 <= start_of_row(t, sa, r) <= t.len(),
        source(t, sa, place_of_row(primary_index(t), r)) == start_of_row(t, sa, r) - 1,
        symbol_of_row(bwt_of(t, sa), primary_index(t), r) == t[start_of_row(t, sa, r) - 1],
{
    lemma_rows(t, sa);
}

/// The transform holds the symbols of the text, each as often as the text
/// does.
pub proof fn lemma_transform_keeps_symbols(t: Seq<int>, sa: Seq<int>, c: int)
    requires
        is_suffix_array(t, sa),
    ensures
        count(t.len() as int, symbol_is(bwt_of(t, sa), c)) == count(
            t.len() as int,
            symbol_is(t, c),
        ),
{
    let n = t.len() as int;
    let u = bwt_of(t, sa);
    let src = Seq::new(t.len(), |j: int| source(t, sa, j));
    let is_t = symbol_is(t, c);
    lemma_sources_permute(t, sa);
    lemma_count_permuted(src, is_t);
    lemma_count_ext(n, |j: int| is_t(src[j]), symbol_is(u, c));
}

/// A link leads from a row to the row that starts one position earlier.
pub proof fn lemma_link(t: Seq<int>, sa: Seq<int>, r: int)
    requires
        is_suffix_array(t, sa),
        0 <= r <= t.len(),
        r != primary_index(t),
    ensures
        previous_row(bwt_of(t, sa), primary_index(t), r) == row_of(
            t,
            start_of_row(t, sa, r) - 1,
        ),
        1 <= previous_row(bwt_of(t, sa), primary_index(t), r) <= t.len(),
        start_of_row(t, sa, previous_row(bwt_of(t, sa), primary_index(t), r)) == start_of_row(
            t,
            sa,
            r,
        ) - 1,
{
    let n = t.len() as int;
    let u = bwt_of(t, sa);
    let p = primary_index(t);
    let i = place_of_row(p, r);
    let s = start_of_row(t, sa, r);
    let c = t[s - 1];
    let src = Seq::new(t.len(), |j: int| source(t, sa, j));
    lemma_rows(t, sa);
    lemma_symbol_of_row(t, sa, r);
    lemma_sources_permute(t, sa);
    // the symbols below `c` are as many in the transform as in the text
    let below_t = symbol_below(t, c);
    lemma_count_permuted(src, below_t);
    lemma_count_ext(n, |j: int| below_t(src[j]), symbol_below(u, c));
    // the rows before `r` that end with `c` are the suffixes that begin with
    // `c` and go on with a suffix before the one of `r`
    let goes_on = continues_before(t, c, s);
    let earlier = |j: int| j < i && symbol_is(u, c)(j);
    lemma_count_prefix(i, n, symbol_is(u, c), earlier);
    lemma_count_permuted(src, goes_on);
    assert forall|j: int| 0 <= j < n implies (#[trigger] goes_on(src[j])) == earlier(j) by {
        let rj = if j < p {
            j
        } else {
            j + 1
        };
        lemma_row_order(t, sa, rj, r);
    }
    lemma_count_ext(n, |j: int| goes_on(src[j]), earlier);
    lemma_rank_of_predecessor(t, s);
}

/// Following `k` links from row 0 leads to the row that starts `k` positions
/// before the end of the text.
pub proof fn lemma_walk(t: Seq<int>, sa: Seq<int>, k: nat)
    requires
        is_suffix_array(t, sa),
        k <= t.len(),
    ensures
        0 <= row_after(bwt_of(t, sa), primary_index(t), k) <= t.len(),
        start_of_row(t, sa, row_after(bwt_of(t, sa), primary_index(t), k)) == t.len() - k,
        k < t.len() ==> row_after(bwt_of(t, sa), primary_index(t), k) != primary_index(t),
        k == t.len() ==> row_after(bwt_of(t, sa), primary_index(t), k) == primary_index(t),
    decreases k,
{
    let u = bwt_of(t, sa);
    let p = primary_index(t);
    lemma_rows(t, sa);
    if k > 0 {
        lemma_walk(t, sa, (k - 1) as nat);
        lemma_link(t, sa, row_after(u, p, (k - 1) as nat));
    }
    let r = row_after(u, p, k);
    if t.len() > 0 {
        if r != p && k == t.len() {
            lemma_symbol_of_row(t, sa, r);
        }
    }
}

/// Round trip: the transform of any text, with its primary index, can be
/// read back, and what is read back is the text.
pub proof fn lemma_round_trip(t: Seq<int>, sa: Seq<int>)
    requires
        is_suffix_array(t, sa),
    ensures
        decodable(bwt_of(t, sa), primary_index(t)),
        decoded(bwt_of(t, sa), primary_index(t)) == t,
{
    let u = bwt_of(t, sa);
    let p = primary_index(t);
    let n = t.len();
    lemma_rows(t, sa);
    assert forall|k: nat| k < n implies #[trigger] row_after(u, p, k) != p by {
        lemma_walk(t, sa, k);
    }
    assert forall|j: int| 0 <= j < n implies decoded(u, p)[j] == t[j] by {
        let k = (n - 1 - j) as nat;
        lemma_walk(t, sa, k);
    }
}

/// Round trip, of the text alone: the transform of any text, the empty one
/// too, can be read back with its primary index, and what is read back is
/// the text.
pub proof fn lemma_round_trip_of_text(t: Seq<int>)
    ensures
        decodable(transform_of(t), primary_index(t)),
        decoded(transform_of(t), primary_index(t)) == t,
{
    lemma_suffix_array_exists(t);
    lemma_round_trip(t, suffix_array_of(t));
}

/// Round trip with auxiliary indices, of the text alone: the indices sampled
/// beside the transform of any text, at any rate, start with the primary
/// index and name the rows that reading back passes through.
pub proof fn lemma_round_trip_sampled_of_text(t: Seq<int>, rate: int)
    requires
        rate >= 1,
    ensures
        samples_of(t, rate)[0] == primary_index(t),
        samples_agree(transform_of(t), primary_index(t), rate, samples_of(t, rate)),
{
    lemma_suffix_array_exists(t);
    lemma_round_trip_sampled(t, suffix_array_of(t), rate);
}

/// Round trip with auxiliary indices: the indices sampled beside the
/// transform, at any rate, start with the primary index and name the rows
/// that reading back passes through.
pub proof fn lemma_round_trip_sampled(t: Seq<int>, sa: Seq<int>, rate: int)
    requires
        is_suffix_array(t, sa),
        rate >= 1,
    ensures
        samples_of(t, rate).len() == exact_length(t.len() as int, rate),
        samples_of(t, rate)[0] == primary_index(t),
        samples_agree(bwt_of(t, sa), primary_index(t), rate, samples_of(t, rate)),
{
    let u = bwt_of(t, sa);
    let p = primary_index(t);
    let n = t.len() as int;
    let aux = samples_of(t, rate);
    lemma_rows(t, sa);
    lemma_ceil_div_bound(n, rate, 0);
    assert(0 * rate == 0) by (nonlinear_arith);
    assert forall|m: int| 0 <= m < aux.len() && m * rate <= n implies #[trigger] aux[m]
        == row_after(u, p, (n - m * rate) as nat) by {
        assert(0 <= m * rate) by (nonlinear_arith)
            requires
                0 <= m,
                rate >= 1,
        ;
        let k = (n - m * rate) as nat;
        lemma_walk(t, sa, k);
        if n > 0 {
            lemma_ceil_div_bound(n, rate, m);
            assert(rate * m == m * rate) by (nonlinear_arith);
            let r = row_after(u, p, k);
            assert(start_of_row(t, sa, r) == m * rate);
            assert(r > 0);
            assert(row_of(t, sa[r - 1]) == r);
        }
    }
}

/// Links lead to rows in the order of the last symbols of the rows they come
/// from, and between rows with the same last symbol, in the order of these
/// rows.
pub proof fn lemma_links_ascend(u: Seq<int>, p: int, r1: int, r2: int)
    requires
        1 <= p <= u.len(),
        0 <= r1 <= u.len(),
        0 <= r2 <= u.len(),
        r1 != p,
        r2 != p,
    ensures
        previous_row(u, p, r1) < previous_row(u, p, r2) <==> symbol_of_row(u, p, r1)
            < symbol_of_row(u, p, r2) || (symbol_of_row(u, p, r1) == symbol_of_row(u, p, r2) && r1
            < r2),
{
    let n = u.len() as int;
    let i1 = place_of_row(p, r1);
    let i2 = place_of_row(p, r2);
    let c1 = u[i1];
    let c2 = u[i2];
    lemma_link_within(u, i1);
    lemma_link_within(u, i2);
    if c1 == c2 {
        if i1 < i2 {
            lemma_count_monotone(i1 + 1, i2, symbol_is(u, c1));
        } else if i2 < i1 {
            lemma_count_monotone(i2 + 1, i1, symbol_is(u, c1));
        }
    } else if c1 < c2 {
        lemma_symbols_up_to(u, c1);
        lemma_count_implies(n, symbol_below(u, c1 + 1), symbol_below(u, c2));
    } else {
        lemma_symbols_up_to(u, c2);
        lemma_count_implies(n, symbol_below(u, c2 + 1), symbol_below(u, c1));
    }
}

proof fn lemma_link_within(u: Seq<int>, i: int)
    requires
        0 <= i < u.len(),
    ensures
        0 <= count(i, symbol_is(u, u[i])) < count(u.len() as int, symbol_is(u, u[i])),
{
    lemma_count_bounds(i, symbol_is(u, u[i]));
    lemma_count_monotone(i + 1, u.len() as int, symbol_is(u, u[i]));
}

/// Reading back stays within the rows, and comes to row 0 at the start
/// only.
pub proof fn lemma_walk_rows(u: Seq<int>, p: int, k: nat)
    requires
        decodable(u, p),
        0 < u.len(),
        k <= u.len(),
    ensures
        0 <= row_after(u, p, k) <= u.len(),
        k >= 1 ==> row_after(u, p, k) >= 1,
    decreases k,
{
    if k > 0 {
        lemma_walk_rows(u, p, (k - 1) as nat);
        lemma_previous_row_bounds(u, p, row_after(u, p, (k - 1) as nat));
    }
}

/// Reading back comes to no row twice.
pub proof fn lemma_walk_distinct(u: Seq<int>, p: int, k1: nat, k2: nat)
    requires
        decodable(u, p),
        0 < u.len(),
        k1 < k2 <= u.len(),
    ensures
        row_after(u, p, k1) != row_after(u, p, k2),
    decreases k1,
{
    lemma_walk_rows(u, p, k2);
    if k1 > 0 {
        let a = row_after(u, p, (k1 - 1) as nat);
        let b = row_after(u, p, (k2 - 1) as nat);
        lemma_walk_distinct(u, p, (k1 - 1) as nat, (k2 - 1) as nat);
        lemma_walk_rows(u, p, (k1 - 1) as nat);
        lemma_walk_rows(u, p, (k2 - 1) as nat);
        lemma_links_ascend(u, p, a, b);
        lemma_links_ascend(u, p, b, a);
    }
}

/// The rows that reading back comes to, in the order in which it comes to
/// them.
pub open spec fn walk(u: Seq<int>, p: int) -> Seq<int> {
    Seq::new(u.len() + 1, |k: int| row_after(u, p, k as nat))
}

/// Reading back comes to every row, to each of them once.
pub proof fn lemma_walk_permutes(u: Seq<int>, p: int)
    requires
        decodable(u, p),
        0 < u.len(),
    ensures
        is_permutation(walk(u, p)),
        walk(u, p)[u.len() as int] == p,
{
    let w = walk(u, p);
    assert forall|k: int| 0 <= k < w.len() implies 0 <= #[trigger] w[k] < w.len() by {
        lemma_walk_rows(u, p, k as nat);
    }
    assert forall|i: int, j: int| 0 <= i < j < w.len() implies w[i] != w[j] by {
        lemma_walk_distinct(u, p, i as nat, j as nat);
    }
    let k = lemma_permutation_onto(w, p);
    assert(w[k] == row_after(u, p, k as nat));
}

/// The step at which reading back comes to row `r`.
pub open spec fn step_of(u: Seq<int>, p: int, r: int) -> int {
    choose|k: int| 0 <= k <= u.len() && #[trigger] walk(u, p)[k] == r
}

/// Every row has its step, and one only.
pub proof fn lemma_step_of(u: Seq<int>, p: int, r: int)
    requires
        decodable(u, p),
        0 < u.len(),
        0 <= r <= u.len(),
    ensures
        0 <= step_of(u, p, r) <= u.len(),
        row_after(u, p, step_of(u, p, r) as nat) == r,
        forall|k: int|
            0 <= k <= u.len() && #[trigger] walk(u, p)[k] == r ==> k == step_of(u, p, r),
{
    lemma_walk_permutes(u, p);
    let w = walk(u, p);
    lemma_permutation_onto(w, r);
    let s = step_of(u, p, r);
    assert(w[s] == r);
    assert(w[s] == row_after(u, p, s as nat));
}

/// The positions at which the rows behind row 0 start in the text that is
/// read back: the suffix array of that text.
pub open spec fn starts(u: Seq<int>, p: int) -> Seq<int> {
    Seq::new(u.len(), |i: int| u.len() - step_of(u, p, i + 1))
}

/// For each position of the text that is read back, the place of the row
/// that starts there.
pub open spec fn places(u: Seq<int>, p: int) -> Seq<int> {
    Seq::new(u.len(), |v: int| row_after(u, p, (u.len() - v) as nat) - 1)
}

proof fn lemma_starts(u: Seq<int>, p: int)
    requires
        decodable(u, p),
        0 < u.len(),
    ensures
        is_permutation(starts(u, p)),
        inverse_of(starts(u, p), places(u, p)),
        starts(u, p)[p - 1] == 0,
{
    let n = u.len() as int;
    let sa = starts(u, p);
    let pos = places(u, p);
    assert forall|i: int| 0 <= i < n implies 0 <= #[trigger] sa[i] < n && pos[sa[i]] == i by {
        lemma_step_of(u, p, i + 1);
    }
    lemma_walk_permutes(u, p);
    lemma_step_of(u, p, p);
}

proof fn lemma_decoded_step(u: Seq<int>, p: int, i: int)
    requires
        decodable(u, p),
        0 < u.len(),
        0 <= i < u.len() - 1,
    ensures
        step_ascends(decoded(u, p), starts(u, p), places(u, p), i),
{
    let n = u.len() as int;
    let x = decoded(u, p);
    let sa = starts(u, p);
    let pos = places(u, p);
    let ka = step_of(u, p, i + 1);
    let kb = step_of(u, p, i + 2);
    lemma_step_of(u, p, i + 1);
    lemma_step_of(u, p, i + 2);
    let ra = row_after(u, p, (ka - 1) as nat);
    let rb = row_after(u, p, (kb - 1) as nat);
    lemma_walk_rows(u, p, (ka - 1) as nat);
    lemma_walk_rows(u, p, (kb - 1) as nat);
    lemma_links_ascend(u, p, ra, rb);
    let a = sa[i];
    let b = sa[i + 1];
    assert(a == n - ka && b == n - kb);
    assert(x[a] == symbol_of_row(u, p, ra));
    assert(x[b] == symbol_of_row(u, p, rb));
    assert(place_of(pos, a + 1) == ra - 1);
    assert(place_of(pos, b + 1) == rb - 1);
}

/// What is read back from a pair that can be read back is a text whose
/// transform and primary index the pair is.
pub proof fn lemma_decoded_is_text(u: Seq<int>, p: int)
    requires
        decodable(u, p),
    ensures
        is_transform_of(decoded(u, p), u, p),
{
    let n = u.len() as int;
    let x = decoded(u, p);
    if n == 0 {
        assert(transform_of(x) =~= u);
    } else {
        let sa = starts(u, p);
        let pos = places(u, p);
        lemma_starts(u, p);
        assert forall|i: int| 0 <= i < sa.len() - 1 implies step_ascends(x, sa, pos, i) by {
            lemma_decoded_step(u, p, i);
        }
        lemma_suffix_array_of_steps(x, sa, pos);
        lemma_rows(x, sa);
        assert(primary_index(x) == p) by {
            if primary_index(x) < p {
                assert(sa[primary_index(x) - 1] != sa[p - 1]);
            } else if primary_index(x) > p {
                assert(sa[p - 1] != sa[primary_index(x) - 1]);
            }
        }
        assert forall|i: int| 0 <= i < n implies bwt_of(x, sa)[i] == u[i] by {
            let r = if i < p {
                i
            } else {
                i + 1
            };
            lemma_step_of(u, p, r);
            lemma_walk_permutes(u, p);
            lemma_step_of(u, p, p);
            let k = step_of(u, p, r);
            assert(k < n);
            assert(x[n - 1 - k] == symbol_of_row(u, p, row_after(u, p, k as nat)));
            if i > 0 {
                assert(sa[r - 1] == n - k);
            }
        }
        assert(bwt_of(x, sa) =~= u);
        lemma_transform_is(x, sa);
    }
}

/// A pair can be read back exactly if it is the transform of a text with
/// its primary index.
pub proof fn lemma_decodable_is_transform(u: Seq<int>, p: int)
    ensures
        decodable(u, p) <==> is_transform(u, p),
{
    if decodable(u, p) {
        lemma_decoded_is_text(u, p);
    }
    if is_transform(u, p) {
        let x = choose|x: Seq<int>| is_transform_of(x, u, p);
        lemma_round_trip_of_text(x);
    }
}

/// A transform with its primary index is the transform of one text only.
pub proof fn lemma_text_of_transform_unique(x: Seq<int>, y: Seq<int>, u: Seq<int>, p: int)
    requires
        is_transform_of(x, u, p),
        is_transform_of(y, u, p),
    ensures
        x == y,
{
    lemma_round_trip_of_text(x);
    lemma_round_trip_of_text(y);
}

/// A transform with its auxiliary indices is the transform of one text
/// only.
pub proof fn lemma_text_of_sampled_transform_unique(
    x: Seq<int>,
    y: Seq<int>,
    u: Seq<int>,
    rate: int,
    aux: Seq<int>,
)
    requires
        rate >= 1,
        is_sampled_transform_of(x, u, rate, aux),
        is_sampled_transform_of(y, u, rate, aux),
    ensures
        x == y,
{
    lemma_round_trip_sampled_of_text(x, rate);
    lemma_round_trip_sampled_of_text(y, rate);
    lemma_text_of_transform_unique(x, y, u, aux[0]);
}

/// A transform can be read back with auxiliary indices exactly if these are
/// the auxiliary indices of the transform; the text that is read back is
/// the text whose transform and indices they are.
pub proof fn lemma_sampled_is_transform(u: Seq<int>, rate: int, aux: Seq<int>)
    requires
        rate >= 1,
        aux.len() == exact_length(u.len() as int, rate),
    ensures
        decodable(u, aux[0]) && samples_agree(u, aux[0], rate, aux) <==> is_sampled_transform(
            u,
            rate,
            aux,
        ),
        is_sampled_transform(u, rate, aux) ==> is_sampled_transform_of(
            decoded(u, aux[0]),
            u,
            rate,
            aux,
        ),
{
    let n = u.len() as int;
    let p = aux[0];
    lemma_ceil_div_bound(n, rate, 0);
    if decodable(u, p) && samples_agree(u, p, rate, aux) {
        let x = decoded(u, p);
        lemma_decoded_is_text(u, p);
        lemma_round_trip_sampled_of_text(x, rate);
        let want = samples_of(x, rate);
        assert forall|m: int| 0 <= m < aux.len() implies aux[m] == want[m] by {
            lemma_ceil_div_bound(n, rate, m);
        }
        assert(aux =~= want);
        assert(is_sampled_transform_of(x, u, rate, aux));
    }
    if is_sampled_transform(u, rate, aux) {
        let x = choose|x: Seq<int>| is_sampled_transform_of(x, u, rate, aux);
        lemma_round_trip_of_text(x);
        lemma_round_trip_sampled_of_text(x, rate);
    }
}

} // verus!
