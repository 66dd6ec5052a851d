//! The inverse of the Burrows-Wheeler transform.
//!
//! The rows of the sorted rotations are numbered from 0, the row of the end
//! marker, to the length of the text. The transform holds the last symbol of
//! every row but the primary one, whose last symbol is the marker. Each row
//! is linked to the row of the rotation that starts one symbol earlier, and
//! the text is read backwards by following the links from row 0.

use vstd::prelude::*;
use crate::aux_index::exact_length;
use crate::bwt::{is_sampled_transform, is_sampled_transform_of, is_transform, is_transform_of};
use crate::count::{
    count,
    lemma_count_bounds,
    lemma_count_constant,
    lemma_count_monotone,
    lemma_count_split,
};
use crate::errors::{Error, ReturnCode};
use crate::histogram::{count_into, is_histogram, lemma_histogram_unique, same_table};
use crate::index::values;
use crate::rank::{symbol_below, symbol_is};
use crate::round_trip::{
    lemma_decodable_is_transform,
    lemma_decoded_is_text,
    lemma_sampled_is_transform,
};
use crate::suffix_array::positions;
use crate::symbol::{codes, within_alphabet, Symbol};

verus! {

/// The place in the transform of the last symbol of row `r`, where `p` is
/// the primary row, which has no place.
pub open spec fn place_of_row(p: int, r: int) -> int {
    if r < p {
        r
    } else {
        r - 1
    }
}

/// The last symbol of row `r`.
pub open spec fn symbol_of_row(u: Seq<int>, p: int, r: int) -> int {
    u[place_of_row(p, r)]
}

/// The row that row `r` is linked to: behind the marker's row and the rows
/// that start with a smaller symbol than the last symbol of `r`, as far in as
/// there are rows before `r` with the same last symbol.
pub open spec fn previous_row(u: Seq<int>, p: int, r: int) -> int {
    let i = place_of_row(p, r);
    1 + count(u.len() as int, symbol_below(u, u[i])) + count(i, symbol_is(u, u[i]))
}

/// The row reached from row 0 by following `k` links.
pub open spec fn row_after(u: Seq<int>, p: int, k: nat) -> int
    decreases k,
{
    if k == 0 {
        0
    } else {
        previous_row(u, p, row_after(u, p, (k - 1) as nat))
    }
}

/// The pair of a transform and a primary index can be read back: the index
/// is a row that has no place in the transform, and the links from row 0
/// reach a row with a symbol as many times as the text has symbols.
pub open spec fn decodable(u: Seq<int>, p: int) -> bool {
    if u.len() == 0 {
        p == 0
    } else {
        1 <= p <= u.len() && forall|k: nat| k < u.len() ==> #[trigger] row_after(u, p, k) != p
    }
}

/// The text read back from a transform and its primary index.
pub open spec fn decoded(u: Seq<int>, p: int) -> Seq<int> {
    Seq::new(
        u.len(),
        |j: int| symbol_of_row(u, p, row_after(u, p, (u.len() - 1 - j) as nat)),
    )
}

/// The auxiliary indices `aux`, sampled at `rate`, name the rows that the
/// links pass through: entry `m` is the row reached when what is still to be
/// read ends at position `m * rate`.
pub open spec fn samples_agree(u: Seq<int>, p: int, rate: int, aux: Seq<int>) -> bool {
    forall|m: int|
        0 <= m < aux.len() && m * rate <= u.len() ==> #[trigger] aux[m] == row_after(
            u,
            p,
            (u.len() - m * rate) as nat,
        )
}

/// A link leads to a row behind the marker's row.
pub proof fn lemma_previous_row_bounds(u: Seq<int>, p: int, r: int)
    requires
        1 <= p <= u.len(),
        0 <= r <= u.len(),
        r != p,
    ensures
        1 <= previous_row(u, p, r) <= u.len(),
{
    let n = u.len() as int;
    let i = place_of_row(p, r);
    let c = u[i];
    lemma_symbols_up_to(u, c);
    lemma_count_bounds(n, symbol_below(u, c));
    lemma_count_bounds(i, symbol_is(u, c));
    lemma_count_monotone(i + 1, n, symbol_is(u, c));
}

/// The symbols below `c` and the symbols that are `c` are below `c + 1`.
pub proof fn lemma_symbols_up_to(u: Seq<int>, c: int)
    ensures
        count(u.len() as int, symbol_below(u, c + 1)) == count(u.len() as int, symbol_below(u, c))
            + count(u.len() as int, symbol_is(u, c)),
        count(u.len() as int, symbol_below(u, c)) + count(u.len() as int, symbol_is(u, c))
            <= u.len(),
{
    let n = u.len() as int;
    lemma_count_split(n, symbol_below(u, c + 1), symbol_below(u, c), symbol_is(u, c));
    lemma_count_bounds(n, symbol_below(u, c + 1));
}

/// The work arrays of the inverse transform. A caller that inverts many
/// transforms keeps one and hands it to every call, so that the arrays are
/// allocated once.
pub(crate) struct Links {
    /// How often each symbol occurs.
    pub(crate) table: Vec<usize>,
    /// For each symbol, the row that the next row ending with it is linked
    /// to.
    pub(crate) next: Vec<usize>,
    /// For each row, the row that it is linked to.
    pub(crate) rows: Vec<usize>,
}

impl Links {
    /// Work arrays that hold nothing yet.
    pub(crate) fn new() -> (ws: Self)
        ensures
            ws.table@.len() == 0,
            ws.next@.len() == 0,
            ws.rows@.len() == 0,
    {
        Links { table: Vec::new(), next: Vec::new(), rows: Vec::new() }
    }
}

/// Links every row but the primary one to the row before it in the text;
/// `ws.table` holds the frequency table of the transform, and `ws.rows`
/// receives the links.
pub(crate) fn build_links<T: Symbol>(u: &[T], p: usize, sigma: usize, ws: &mut Links)
    requires
        within_alphabet(codes(u@), sigma as int),
        old(ws).table@.len() == sigma,
        is_histogram(codes(u@), positions(old(ws).table@)),
        1 <= p <= u@.len(),
        u@.len() < usize::MAX,
    ensures
        final(ws).table@ == old(ws).table@,
        final(ws).rows@.len() == u@.len() + 1,
        forall|r: int|
            0 <= r <= u@.len() && r != p ==> #[trigger] final(ws).rows@[r] == previous_row(
                codes(u@),
                p as int,
                r,
            ),
{
    let n = u.len();
    let ghost uc = codes(u@);
    ws.next.clear();
    ws.rows.clear();
    let mut acc: usize = 1;
    let mut c: usize = 0;
    proof {
        lemma_count_constant(n as int, symbol_below(uc, 0));
    }
    while c < sigma
        invariant
            n == u@.len(),
            n < usize::MAX,
            uc == codes(u@),
            within_alphabet(uc, sigma as int),
            ws.table@ == old(ws).table@,
            ws.table@.len() == sigma,
            is_histogram(uc, positions(ws.table@)),
            c <= sigma,
            ws.next@.len() == c,
            ws.rows@.len() == 0,
            acc == 1 + count(n as int, symbol_below(uc, c as int)),
            forall|x: int|
                0 <= x < c ==> #[trigger] ws.next@[x] == 1 + count(n as int, symbol_below(uc, x)),
        decreases sigma - c,
    {
        ws.next.push(acc);
        proof {
            lemma_symbols_up_to(uc, c as int);
            assert(positions(ws.table@)[c as int] == ws.table@[c as int]);
        }
        acc = acc + ws.table[c];
        c = c + 1;
    }
    let mut r: usize = 0;
    while r <= n
        invariant
            r <= n + 1,
            n < usize::MAX,
            ws.table@ == old(ws).table@,
            ws.rows@.len() == r,
            ws.next@.len() == sigma,
            forall|x: int|
                0 <= x < sigma ==> #[trigger] ws.next@[x] == 1 + count(
                    n as int,
                    symbol_below(uc, x),
                ),
        decreases n + 1 - r,
    {
        ws.rows.push(0);
        r = r + 1;
    }
    let mut i: usize = 0;
    while i < n
        invariant
            n == u@.len(),
            n < usize::MAX,
            uc == codes(u@),
            within_alphabet(uc, sigma as int),
            1 <= p <= n,
            i <= n,
            ws.table@ == old(ws).table@,
            ws.next@.len() == sigma,
            ws.rows@.len() == n + 1,
            forall|x: int|
                0 <= x < sigma ==> #[trigger] ws.next@[x] == 1 + count(
                    n as int,
                    symbol_below(uc, x),
                ) + count(i as int, symbol_is(uc, x)),
            forall|r: int|
                0 <= r <= n && r != p && place_of_row(p as int, r) < i ==> #[trigger] ws.rows@[r]
                    == previous_row(uc, p as int, r),
        decreases n - i,
    {
        assert(uc[i as int] == u@[i as int].code());
        let k = u[i].key();
        let r = if i < p {
            i
        } else {
            i + 1
        };
        proof {
            lemma_previous_row_bounds(uc, p as int, r as int);
        }
        let target = ws.next[k];
        ws.rows[r] = target;
        ws.next[k] = target + 1;
        i = i + 1;
    }
}

/// Reads the text back into `out` by following the links, and says whether
/// the transform could be read back; with `samples`, also whether the rows
/// passed are the sampled ones.
pub(crate) fn follow_links<T: Symbol, I: ReturnCode>(
    u: &[T],
    p: usize,
    links: &Vec<usize>,
    out: &mut [T],
    rate: usize,
    samples: Option<&[I]>,
) -> (ok: bool)
    requires
        1 <= p <= u@.len(),
        old(out)@.len() == u@.len(),
        links@.len() == u@.len() + 1,
        forall|r: int|
            0 <= r <= u@.len() && r != p ==> #[trigger] links@[r] == previous_row(
                codes(u@),
                p as int,
                r,
            ),
        rate >= 1,
    ensures
        final(out)@.len() == u@.len(),
        ok <==> decodable(codes(u@), p as int) && (samples matches Some(a) ==> samples_agree(
            codes(u@),
            p as int,
            rate as int,
            values(a@),
        )),
        ok ==> codes(final(out)@) == decoded(codes(u@), p as int),
{
    let n = u.len();
    let ghost uc = codes(u@);
    let ghost pi = p as int;
    let mut row: usize = 0;
    let mut k: usize = n;
    while k > 0
        invariant
            n == u@.len(),
            uc == codes(u@),
            pi == p,
            1 <= p <= n,
            out@.len() == n,
            links@.len() == n + 1,
            rate >= 1,
            forall|r: int|
                0 <= r <= n && r != p ==> #[trigger] links@[r] == previous_row(uc, pi, r),
            k <= n,
            0 <= row <= n,
            row == row_after(uc, pi, (n - k) as nat),
            forall|j: nat| j < n - k ==> #[trigger] row_after(uc, pi, j) != pi,
            forall|j: int|
                k <= j < n ==> (#[trigger] out@[j]).code() == symbol_of_row(
                    uc,
                    pi,
                    row_after(uc, pi, (n - 1 - j) as nat),
                ),
            samples matches Some(a) ==> forall|m: int|
                0 <= m < a@.len() && k < m * rate <= n ==> (#[trigger] a@[m]).value() == row_after(
                    uc,
                    pi,
                    (n - m * rate) as nat,
                ),
        decreases k,
    {
        if row == p {
            return false;
        }
        match samples {
            Some(a) => {
                if k % rate == 0 && k / rate < a.len() {
                    let m = k / rate;
                    proof {
                        lemma_multiple(k as int, rate as int, m as int);
                    }
                    if !names_row(a[m], row) {
                        assert(values(a@)[m as int] == a@[m as int].value());
                        return false;
                    }
                }
                proof {
                    assert forall|m: int|
                        0 <= m < a@.len() && k - 1 < m * rate <= n implies (
                    #[trigger] a@[m]).value() == row_after(uc, pi, (n - m * rate) as nat) by {
                        if m * rate == k {
                            lemma_multiple(k as int, rate as int, m);
                        }
                    }
                }
            },
            None => {},
        }
        let i = if row < p {
            row
        } else {
            row - 1
        };
        proof {
            lemma_previous_row_bounds(uc, pi, row as int);
        }
        out[k - 1] = u[i];
        row = links[row];
        k = k - 1;
    }
    match samples {
        Some(a) => {
            if a.len() > 0 {
                if !names_row(a[0], row) {
                    assert(values(a@)[0] == a@[0].value());
                    return false;
                }
            }
            proof {
                assert forall|m: int|
                    0 <= m < a@.len() && m * rate <= n implies #[trigger] values(a@)[m]
                    == row_after(uc, pi, (n - m * rate) as nat) by {
                    if m > 0 {
                        assert(0 < m * rate) by (nonlinear_arith)
                            requires
                                m > 0,
                                rate >= 1,
                        ;
                    } else {
                        assert(m * rate == 0) by (nonlinear_arith)
                            requires
                                m == 0,
                        ;
                    }
                }
            }
        },
        None => {},
    }
    true
}

/// The table, where one is given, is the frequency table of `t` over an
/// alphabet of `sigma` symbols.
pub open spec fn table_agrees<I: ReturnCode>(t: Seq<int>, freq: Option<&[I]>, sigma: int) -> bool {
    freq matches Some(f) ==> f@.len() == sigma && is_histogram(t, values(f@))
}

fn check_table<T: Symbol, I: ReturnCode>(
    t: &[T],
    freq: Option<&[I]>,
    sigma: usize,
    ws: &mut Links,
) -> (ok: bool)
    requires
        within_alphabet(codes(t@), sigma as int),
    ensures
        final(ws).table@.len() == sigma,
        is_histogram(codes(t@), positions(final(ws).table@)),
        ok <==> table_agrees(codes(t@), freq, sigma as int),
{
    count_into(t, sigma, &mut ws.table);
    match freq {
        Some(f) => {
            if f.len() != sigma {
                return false;
            }
            proof {
                lemma_histogram_unique(codes(t@), positions(ws.table@), values(f@));
            }
            same_table(&ws.table, f)
        },
        None => true,
    }
}

/// Reads back into `u` the text whose transform is `t` and whose primary
/// index is `i`.
///
/// Fails if a table is given that is not the frequency table of `t`, or if
/// `t` is not the transform of any text with the primary index `i`; `u`
/// then holds nothing of use.
pub(crate) fn restore<T: Symbol, I: ReturnCode>(
    t: &[T],
    u: &mut [T],
    freq: Option<&[I]>,
    i: I,
    sigma: usize,
    ws: &mut Links,
) -> (r: Result<(), Error<I>>)
    requires
        within_alphabet(codes(t@), sigma as int),
        t@.len() == old(u)@.len(),
        t@.len() < usize::MAX,
    ensures
        final(u)@.len() == old(u)@.len(),
        r is Ok <==> table_agrees(codes(t@), freq, sigma as int) && is_transform(
            codes(t@),
            i.value(),
        ),
        r matches Err(e) ==> e == Error::<I>::IllegalArguments,
        r is Ok ==> is_transform_of(codes(final(u)@), codes(t@), i.value()),
{
    proof {
        lemma_decodable_is_transform(codes(t@), i.value());
        if decodable(codes(t@), i.value()) {
            lemma_decoded_is_text(codes(t@), i.value());
        }
    }
    if !check_table(t, freq, sigma, ws) {
        return Err(Error::IllegalArguments);
    }
    let n = t.len();
    let p = match i.to_usize() {
        Some(p) => p,
        None => {
            return Err(Error::IllegalArguments);
        },
    };
    if n == 0 {
        if p != 0 {
            return Err(Error::IllegalArguments);
        }
        assert(codes(u@) =~= decoded(codes(t@), i.value()));
        return Ok(());
    }
    if p < 1 || p > n {
        return Err(Error::IllegalArguments);
    }
    build_links(t, p, sigma, ws);
    if follow_links::<T, I>(t, p, &ws.rows, u, 1, None) {
        Ok(())
    } else {
        Err(Error::IllegalArguments)
    }
}

/// Replaces the transform in `t` by the text it is the transform of;
/// otherwise as [`restore`], of which every clause holds of the transform
/// that `t` held before.
pub(crate) fn restore_in_place<T: Symbol, I: ReturnCode>(
    t: &mut [T],
    freq: Option<&[I]>,
    i: I,
    sigma: usize,
    ws: &mut Links,
) -> (r: Result<(), Error<I>>)
    requires
        within_alphabet(codes(old(t)@), sigma as int),
        old(t)@.len() < usize::MAX,
    ensures
        final(t)@.len() == old(t)@.len(),
        r is Ok <==> table_agrees(codes(old(t)@), freq, sigma as int) && is_transform(
            codes(old(t)@),
            i.value(),
        ),
        r matches Err(e) ==> e == Error::<I>::IllegalArguments,
        r is Ok ==> is_transform_of(codes(final(t)@), codes(old(t)@), i.value()),
{
    let transform = vstd::slice::slice_to_vec(t);
    restore(transform.as_slice(), t, freq, i, sigma, ws)
}

/// As [`restore`], with the auxiliary indices `aux` that were sampled at
/// `rate` in place of the primary index, which is the first of them.
///
/// Fails if a table is given that is not the frequency table of `t`, or if
/// `t` is not the transform of any text with these auxiliary indices.
pub(crate) fn restore_sampled<T: Symbol, I: ReturnCode>(
    t: &[T],
    u: &mut [T],
    freq: Option<&[I]>,
    rate: usize,
    aux: &[I],
    sigma: usize,
    ws: &mut Links,
) -> (r: Result<(), Error<I>>)
    requires
        within_alphabet(codes(t@), sigma as int),
        t@.len() == old(u)@.len(),
        t@.len() < usize::MAX,
        rate >= 1,
        aux@.len() == exact_length(t@.len() as int, rate as int),
    ensures
        final(u)@.len() == old(u)@.len(),
        r is Ok <==> table_agrees(codes(t@), freq, sigma as int) && is_sampled_transform(
            codes(t@),
            rate as int,
            values(aux@),
        ),
        r matches Err(e) ==> e == Error::<I>::IllegalArguments,
        r is Ok ==> is_sampled_transform_of(
            codes(final(u)@),
            codes(t@),
            rate as int,
            values(aux@),
        ),
{
    proof {
        lemma_sampled_is_transform(codes(t@), rate as int, values(aux@));
    }
    if !check_table(t, freq, sigma, ws) {
        return Err(Error::IllegalArguments);
    }
    let n = t.len();
    let p = match aux[0].to_usize() {
        Some(p) => p,
        None => {
            return Err(Error::IllegalArguments);
        },
    };
    if n == 0 {
        if p != 0 {
            return Err(Error::IllegalArguments);
        }
        proof {
            let tc = codes(t@);
            assert(codes(u@) =~= decoded(tc, 0));
            assert forall|m: int|
                0 <= m < aux@.len() && m * rate <= tc.len() implies #[trigger] values(aux@)[m]
                == row_after(tc, 0, (tc.len() - m * rate) as nat) by {
                assert(m * rate == 0) by (nonlinear_arith)
                    requires
                        m == 0,
                ;
            }
        }
        return Ok(());
    }
    if p < 1 || p > n {
        return Err(Error::IllegalArguments);
    }
    build_links(t, p, sigma, ws);
    if follow_links(t, p, &ws.rows, u, rate, Some(aux)) {
        Ok(())
    } else {
        Err(Error::IllegalArguments)
    }
}

/// As [`restore_in_place`], with the auxiliary indices `aux` that were
/// sampled at `rate` in place of the primary index.
pub(crate) fn restore_sampled_in_place<T: Symbol, I: ReturnCode>(
    t: &mut [T],
    freq: Option<&[I]>,
    rate: usize,
    aux: &[I],
    sigma: usize,
    ws: &mut Links,
) -> (r: Result<(), Error<I>>)
    requires
        within_alphabet(codes(old(t)@), sigma as int),
        old(t)@.len() < usize::MAX,
        rate >= 1,
        aux@.len() == exact_length(old(t)@.len() as int, rate as int),
    ensures
        final(t)@.len() == old(t)@.len(),
        r is Ok <==> table_agrees(codes(old(t)@), freq, sigma as int) && is_sampled_transform(
            codes(old(t)@),
            rate as int,
            values(aux@),
        ),
        r matches Err(e) ==> e == Error::<I>::IllegalArguments,
        r is Ok ==> is_sampled_transform_of(
            codes(final(t)@),
            codes(old(t)@),
            rate as int,
            values(aux@),
        ),
{
    let transform = vstd::slice::slice_to_vec(t);
    restore_sampled(transform.as_slice(), t, freq, rate, aux, sigma, ws)
}

fn names_row<I: ReturnCode>(x: I, row: usize) -> (b: bool)
    ensures
        b <==> x.value() == row,
{
    match x.to_usize() {
        Some(v) => v == row,
        None => false,
    }
}

proof fn lemma_multiple(k: int, rate: int, m: int)
    requires
        rate >= 1,
        0 <= k,
    ensures
        m * rate == k <==> k % rate == 0 && k / rate == m,
{
    vstd::arithmetic::div_mod::lemma_fundamental_div_mod(k, rate);
    if m * rate == k {
        vstd::arithmetic::div_mod::lemma_mod_multiples_basic(m, rate);
        vstd::arithmetic::div_mod::lemma_div_multiples_vanish(m, rate);
    } else if k % rate == 0 && k / rate == m {
        assert(rate * (k / rate) == (k / rate) * rate) by (nonlinear_arith);
    }
}

} // verus!
