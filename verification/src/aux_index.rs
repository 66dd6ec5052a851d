//! Sampling rates and lengths of the auxiliary index array that the
//! transform can emit beside its output.
//!
//! A rate is a power of two, at least [`AUX_RATE_MIN`]. At rate `r` a text
//! of `n` symbols has one sample for every `r` positions, and at least one.

use vstd::prelude::*;

verus! {

/// Minimum auxiliary indices array sampling rate.
pub const AUX_RATE_MIN: usize = 2;

/// Minimum auxiliary indices array length.
pub const AUX_LENGTH_MIN: usize = 1;

/// `x` is 1, 2, 4, 8, ...
pub open spec fn is_power_of_two(x: int) -> bool
    decreases x,
{
    x == 1 || (x > 1 && x % 2 == 0 && is_power_of_two(x / 2))
}

/// `r` is a sampling rate: a power of two, at least two.
pub open spec fn is_rate(r: int) -> bool {
    r >= 2 && is_power_of_two(r)
}

/// `x / y`, rounded up.
pub open spec fn ceil_div(x: int, y: int) -> int
    recommends
        y > 0,
{
    if x % y == 0 {
        x / y
    } else {
        x / y + 1
    }
}

/// The length of the auxiliary array of a text of `n` symbols sampled at
/// rate `r`.
pub open spec fn exact_length(n: int, r: int) -> int
    recommends
        r > 0,
{
    if ceil_div(n, r) >= 1 {
        ceil_div(n, r)
    } else {
        1
    }
}

/// At rate `r` the samples of a text of `n` symbols fit into `cap` slots.
pub open spec fn rate_fits(n: int, cap: int, r: int) -> bool {
    is_rate(r) && ceil_div(n, r) <= cap
}

/// `r` is the smallest rate at which the samples fit into `cap` slots.
pub open spec fn is_min_rate(n: int, cap: int, r: int) -> bool {
    rate_fits(n, cap, r) && forall|q: int| rate_fits(n, cap, q) ==> r <= q
}

/// `r` is the rate that an auxiliary array of exactly `len` slots was
/// sampled at: the smallest rate that fits, and the one that fills it.
pub open spec fn is_exact_rate(n: int, len: int, r: int) -> bool {
    is_min_rate(n, len, r) && exact_length(n, r) == len
}

/// The rate that an auxiliary array of `len` slots was sampled at, where
/// there is one.
pub open spec fn exact_rate(n: int, len: int) -> int {
    choose|r: int| is_exact_rate(n, len, r)
}

/// An auxiliary array has one exact rate at most.
pub proof fn lemma_exact_rate(n: int, len: int, r: int)
    requires
        is_exact_rate(n, len, r),
    ensures
        exact_rate(n, len) == r,
{
    lemma_min_rate_unique(n, len, r, exact_rate(n, len));
}

/// Rounding up is the least bound: `ceil_div(x, y) <= z` exactly when
/// `x <= y * z`.
pub proof fn lemma_ceil_div_bound(x: int, y: int, z: int)
    requires
        y > 0,
    ensures
        ceil_div(x, y) <= z <==> x <= y * z,
{
    let d = x / y;
    let m = x % y;
    assert(x == y * d + m && 0 <= m < y) by (nonlinear_arith)
        requires
            y > 0,
            d == x / y,
            m == x % y,
    ;
    if d + 1 <= z {
        assert(y * (d + 1) <= y * z) by (nonlinear_arith)
            requires
                y > 0,
                d + 1 <= z,
        ;
        assert(y * (d + 1) == y * d + y) by (nonlinear_arith);
    } else if z < d {
        assert(y * z <= y * (d - 1)) by (nonlinear_arith)
            requires
                y > 0,
                z <= d - 1,
        ;
        assert(y * (d - 1) == y * d - y) by (nonlinear_arith);
    }
}

/// A larger rate never needs more slots.
pub proof fn lemma_exact_length_antitone(n: int, q: int, r: int)
    requires
        0 <= n,
        0 < q <= r,
    ensures
        ceil_div(n, r) <= ceil_div(n, q),
        exact_length(n, r) <= exact_length(n, q),
        0 <= ceil_div(n, r),
{
    let z = ceil_div(n, q);
    lemma_ceil_div_bound(n, q, z);
    lemma_ceil_div_bound(n, q, -1);
    lemma_ceil_div_bound(n, r, -1);
    assert(q * z <= r * z) by (nonlinear_arith)
        requires
            0 < q <= r,
            0 <= z,
    ;
    lemma_ceil_div_bound(n, r, z);
}

/// Between a power of two and its double there is no power of two.
pub proof fn lemma_power_of_two_gap(a: int, b: int)
    requires
        is_power_of_two(a),
        is_power_of_two(b),
        a < b,
    ensures
        2 * a <= b,
    decreases a,
{
    if a > 1 {
        lemma_power_of_two_gap(a / 2, b / 2);
    }
}

/// The smallest fitting rate is unique.
pub proof fn lemma_min_rate_unique(n: int, cap: int, r1: int, r2: int)
    requires
        is_min_rate(n, cap, r1),
        is_min_rate(n, cap, r2),
    ensures
        r1 == r2,
{
}

fn div_ceil(x: usize, y: usize) -> (q: usize)
    requires
        y != 0,
    ensures
        q as int == ceil_div(x as int, y as int),
{
    if x % y == 0 {
        x / y
    } else {
        assert(x / y < usize::MAX) by (nonlinear_arith)
            requires
                y > 0,
                x % y != 0,
                x <= usize::MAX,
        ;
        x / y + 1
    }
}

fn power_of_two(x: usize) -> (b: bool)
    ensures
        b == is_power_of_two(x as int),
{
    let mut p: usize = x;
    while p > 1 && p % 2 == 0
        invariant
            is_power_of_two(p as int) == is_power_of_two(x as int),
        decreases p,
    {
        p = p / 2;
    }
    p == 1
}

/// Calculates the minimum auxiliary indices sampling rate, given limited
/// array capacity.
///
/// Returns the smallest rate at which the samples of a text of `text_size`
/// symbols fit into `aux_capacity` slots. Returns `None` when the capacity
/// is zero, or when no rate that fits can be represented.
pub fn aux_rate_min(text_size: usize, aux_capacity: usize) -> (r: Option<usize>)
    ensures
        aux_capacity == 0 ==> r is None,
        r matches Some(rate) ==> is_min_rate(text_size as int, aux_capacity as int, rate as int),
        r is None ==> aux_capacity == 0 || forall|q: int|
            rate_fits(text_size as int, aux_capacity as int, q) ==> q > usize::MAX,
{
    if aux_capacity == 0 {
        return None;
    }
    let need = div_ceil(text_size, aux_capacity);
    let mut rate: usize = AUX_RATE_MIN;
    proof {
        assert(is_power_of_two(1));
    }
    while rate < need
        invariant
            aux_capacity > 0,
            need as int == ceil_div(text_size as int, aux_capacity as int),
            is_rate(rate as int),
            rate == 2 || rate / 2 < need,
        decreases usize::MAX - rate,
    {
        if rate > usize::MAX / 2 {
            proof {
                assert forall|q: int|
                    rate_fits(text_size as int, aux_capacity as int, q) implies q
                    > usize::MAX by {
                    lemma_ceil_div_bound(text_size as int, q, aux_capacity as int);
                    lemma_ceil_div_bound(text_size as int, aux_capacity as int, q);
                    lemma_power_of_two_gap(rate as int, q);
                }
            }
            return None;
        }
        rate = rate * 2;
    }
    proof {
        let n = text_size as int;
        let cap = aux_capacity as int;
        lemma_ceil_div_bound(n, cap, need as int);
        assert(cap * need <= cap * rate) by (nonlinear_arith)
            requires
                0 < cap,
                need <= rate,
        ;
        assert(cap * rate == rate * cap) by (nonlinear_arith);
        lemma_ceil_div_bound(n, rate as int, cap);
        assert forall|q: int| rate_fits(n, cap, q) implies rate <= q by {
            lemma_ceil_div_bound(n, q, cap);
            lemma_ceil_div_bound(n, cap, q);
            if q < rate {
                lemma_power_of_two_gap(q, rate as int);
            }
        }
    }
    Some(rate)
}

/// Calculates auxiliary indices array length from a valid sampling rate.
///
/// Returns `None` exactly when `aux_rate` is not a rate.
pub fn aux_length_exact(text_size: usize, aux_rate: usize) -> (r: Option<usize>)
    ensures
        r is Some <==> is_rate(aux_rate as int),
        r matches Some(len) ==> len as int == exact_length(text_size as int, aux_rate as int),
{
    if aux_rate >= AUX_RATE_MIN && power_of_two(aux_rate) {
        let len = div_ceil(text_size, aux_rate);
        if len >= AUX_LENGTH_MIN {
            Some(len)
        } else {
            Some(AUX_LENGTH_MIN)
        }
    } else {
        None
    }
}

/// Calculates proper sampling rate from a valid auxiliary indices array
/// length.
///
/// Returns the rate whose auxiliary array has exactly `exact_aux_length`
/// slots, if the smallest rate that fits is such a rate, and `None`
/// otherwise.
pub fn aux_rate_exact(text_size: usize, exact_aux_length: usize) -> (r: Option<usize>)
    ensures
        r matches Some(rate) ==> is_exact_rate(
            text_size as int,
            exact_aux_length as int,
            rate as int,
        ),
        r is None ==> forall|q: int|
            q <= usize::MAX ==> !is_exact_rate(text_size as int, exact_aux_length as int, q),
{
    if let Some(aux_rate) = aux_rate_min(text_size, exact_aux_length) {
        if let Some(max_aux_length) = aux_length_exact(text_size, aux_rate) {
            if exact_aux_length == max_aux_length {
                return Some(aux_rate);
            }
        }
    }
    None
}

/// Calculates the maximum auxiliary indices array length, given limited
/// array capacity: the length at the smallest rate that fits.
pub fn aux_length_max(text_size: usize, aux_capacity: usize) -> (r: Option<usize>)
    ensures
        aux_capacity == 0 ==> r is None,
        r matches Some(len) ==> exists|rate: int|
            is_min_rate(text_size as int, aux_capacity as int, rate) && len as int == exact_length(
                text_size as int,
                rate,
            ),
        r is None ==> aux_capacity == 0 || forall|q: int|
            rate_fits(text_size as int, aux_capacity as int, q) ==> q > usize::MAX,
{
    if let Some(rate) = aux_rate_min(text_size, aux_capacity) {
        aux_length_exact(text_size, rate)
    } else {
        None
    }
}

/// A rate is recovered from the length it gives, whenever no smaller rate
/// gives the same length.
pub proof fn lemma_rate_of_length(n: int, r: int)
    requires
        0 <= n,
        is_rate(r),
        r == 2 || exact_length(n, r / 2) != exact_length(n, r),
    ensures
        is_exact_rate(n, exact_length(n, r), r),
{
    let len = exact_length(n, r);
    assert forall|q: int| rate_fits(n, len, q) implies r <= q by {
        if q < r {
            lemma_power_of_two_gap(q, r);
            lemma_exact_length_antitone(n, q, r / 2);
            lemma_exact_length_antitone(n, r / 2, r);
        }
    }
}

/// The length that a rate gives has an exact rate: the smallest rate that
/// gives this length. The result is that rate.
pub proof fn lemma_length_has_rate(n: int, r: int) -> (q: int)
    requires
        0 <= n,
        is_rate(r),
    ensures
        is_rate(q),
        q <= r,
        is_exact_rate(n, exact_length(n, r), q),
    decreases r,
{
    if r == 2 || exact_length(n, r / 2) != exact_length(n, r) {
        lemma_rate_of_length(n, r);
        r
    } else {
        lemma_length_has_rate(n, r / 2)
    }
}

/// Whatever rate a length came from, the rate recovered from it is the
/// smallest with that length, and so never larger.
pub proof fn lemma_rate_of_length_le(n: int, r: int, q: int)
    requires
        0 <= n,
        is_rate(r),
        is_exact_rate(n, exact_length(n, r), q),
    ensures
        q <= r,
        exact_length(n, q) == exact_length(n, r),
{
    assert(rate_fits(n, exact_length(n, r), r));
}

/// A length of more than one slot comes from one rate only.
pub proof fn lemma_long_length_has_one_rate(n: int, r: int)
    requires
        0 <= n,
        is_rate(r),
        exact_length(n, r) > 1,
    ensures
        is_exact_rate(n, exact_length(n, r), r),
{
    if r != 2 {
        let h = r / 2;
        let z = ceil_div(n, r);
        lemma_ceil_div_bound(n, r, z - 1);
        lemma_ceil_div_bound(n, h, z);
        assert(h * z <= r * (z - 1)) by (nonlinear_arith)
            requires
                r == 2 * h,
                z >= 2,
                h >= 1,
        ;
    }
    lemma_rate_of_length(n, r);
}

} // verus!
