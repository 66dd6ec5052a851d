//! Suffix arrays, transforms and prefix arrays of byte texts, with 64-bit indices.

use vstd::prelude::*;
use crate::aux_index::{exact_length, exact_rate, is_exact_rate, lemma_exact_rate};
use crate::bwt::{
    is_sampled_transform,
    is_sampled_transform_of,
    is_transform,
    is_transform_of,
    primary_index,
    sampled,
    transform,
    transform_in_place,
    transform_sampled,
    transform_sampled_in_place,
    transformed,
};
use crate::common::{aux_rate, max_size, same_size, split_size, unbwt_sufficient_size};
use crate::doubling::Scratch;
use crate::errors::ReturnCode;
use crate::index::{all_below, values};
use crate::lcp::{is_lcp, is_plcp, ordered_lcp, permuted_lcp};
use crate::suffix_array::{construct, constructed, is_suffix_array, tabled};
use crate::symbol::codes;
use crate::unbwt::{
    restore,
    restore_in_place,
    restore_sampled,
    restore_sampled_in_place,
    table_agrees,
    Links,
};

pub mod parallel;

verus! {

/// Maximum array length sais algorithms able to cope with.
pub const MAX_LENGTH: usize = usize::MAX / 2;

/// Output symbol frequency table size for u8 strings.
pub const FREQ_TABLE_SIZE: usize = 256;

/// Interpreted error code for 64-bit sais algorithms.
pub type Error = crate::errors::Error<i64>;

/// A buffer of `capacity` entries can take the index array of a text of `n`
/// symbols: it has an entry for every symbol, and is no longer than
/// [`MAX_LENGTH`].
pub open spec fn takes(n: nat, capacity: nat) -> bool {
    n <= capacity <= MAX_LENGTH
}

/// A buffer of `capacity` entries can serve the inverse transform of a text
/// of `n` symbols as work space: it has more entries than the text has
/// symbols, and is no longer than [`MAX_LENGTH`].
pub open spec fn takes_with_spare(n: nat, capacity: nat) -> bool {
    n < capacity <= MAX_LENGTH
}

/// An auxiliary array of `len` entries stands for a sampling rate of a text
/// of `n` symbols, and the rate is within the index type.
pub open spec fn names_rate(n: nat, len: nat) -> bool {
    exists|q: int|
        q <= usize::MAX && q <= i64::MAX && #[trigger] is_exact_rate(n as int, len as int, q)
}

fn room(n: usize, capacity: usize) -> (r: Result<(), Error>)
    ensures
        r is Ok <==> takes(n as nat, capacity as nat),
        r matches Err(e) ==> e == Error::IllegalArguments,
{
    let (_n, _fs) = split_size::<i64>(n, max_size(capacity, MAX_LENGTH)?)?;
    Ok(())
}

fn room_to_spare(n: usize, capacity: usize) -> (r: Result<(), Error>)
    ensures
        r is Ok <==> takes_with_spare(n as nat, capacity as nat),
        r matches Err(e) ==> e == Error::IllegalArguments,
{
    let _n = unbwt_sufficient_size::<i64>(n, max_size(capacity, MAX_LENGTH)?)?;
    Ok(())
}

fn rate_of(len: usize, n: usize) -> (r: Result<usize, Error>)
    ensures
        r is Ok <==> names_rate(n as nat, len as nat),
        r matches Err(e) ==> e == Error::IllegalArguments,
        r matches Ok(rate) ==> rate >= 2 && rate as int == exact_rate(n as int, len as int)
            && len as int == exact_length(n as int, rate as int),
{
    let rate = aux_rate::<i64>(len, n)?;
    proof {
        lemma_exact_rate(n as int, len as int, rate.value());
    }
    match rate.to_usize() {
        Some(q) => Ok(q),
        None => Err(Error::IllegalArguments),
    }
}

/// Builds the suffix array of `t` in the first `t.len()` entries of `sa`; what
/// `sa` holds behind them is free space and stays as it is. Where a table is
/// given, it receives the frequency table of `t`.
///
/// Fails, and writes nothing, if `sa` cannot take the array (see [`takes`]),
/// or if the table has not [`FREQ_TABLE_SIZE`] entries.
pub fn sais(t: &[u8], sa: &mut [i64], freq: Option<&mut [i64]>) -> (r: Result<(), Error>)
    ensures
        r is Ok <==> takes(t@.len(), old(sa)@.len())
            && (freq matches Some(f) ==> f@.len() == FREQ_TABLE_SIZE),
        r matches Err(e) ==> e == Error::IllegalArguments,
        constructed(codes(t@), old(sa)@, final(sa)@, r is Ok),
        freq matches Some(f) ==> tabled(codes(t@), f@, final(f)@, r is Ok),
{
    room(t.len(), sa.len())?;
    let mut ws = Scratch::new();
    construct(t, sa, freq, FREQ_TABLE_SIZE, &mut ws)
}

/// Writes the transform of `t` into `u` and returns the primary index. The
/// suffix array of `t` is left in the first `t.len()` entries of `a`, and
/// what `a` holds behind them stays as it is. Where a table is given, it
/// receives the frequency table of `t`.
///
/// Fails, and writes nothing, if `u` is not as long as `t`, if `a` cannot
/// take the suffix array (see [`takes`]), or if the table has not
/// [`FREQ_TABLE_SIZE`] entries.
pub fn bwt(
    t: &[u8],
    u: &mut [u8],
    a: &mut [i64],
    freq: Option<&mut [i64]>,
) -> (r: Result<i64, Error>)
    ensures
        r is Ok <==> t@.len() == old(u)@.len()
            && takes(t@.len(), old(a)@.len())
            && (freq matches Some(f) ==> f@.len() == FREQ_TABLE_SIZE),
        r matches Err(e) ==> e == Error::IllegalArguments,
        r matches Ok(p) ==> p as int == primary_index(codes(t@)),
        transformed(codes(t@), old(a)@, final(a)@, old(u)@, final(u)@, r is Ok),
        freq matches Some(f) ==> tabled(codes(t@), f@, final(f)@, r is Ok),
{
    room(same_size::<i64>(t.len(), u.len())?, a.len())?;
    let mut ws = Scratch::new();
    transform(t, u, a, freq, FREQ_TABLE_SIZE, &mut ws)
}

/// Replaces `t` by its transform and returns the primary index. The suffix
/// array of the text is left in the first `t.len()` entries of `a`, and what
/// `a` holds behind them stays as it is. Where a table is given, it receives
/// the frequency table of the text.
///
/// Fails, and writes nothing, if `a` cannot take the suffix array (see
/// [`takes`]), or if the table has not [`FREQ_TABLE_SIZE`] entries.
pub fn bwt_inplace(t: &mut [u8], a: &mut [i64], freq: Option<&mut [i64]>) -> (r: Result<i64, Error>)
    ensures
        r is Ok <==> takes(old(t)@.len(), old(a)@.len())
            && (freq matches Some(f) ==> f@.len() == FREQ_TABLE_SIZE),
        r matches Err(e) ==> e == Error::IllegalArguments,
        r matches Ok(p) ==> p as int == primary_index(codes(old(t)@)),
        transformed(codes(old(t)@), old(a)@, final(a)@, old(t)@, final(t)@, r is Ok),
        freq matches Some(f) ==> tabled(codes(old(t)@), f@, final(f)@, r is Ok),
{
    room(t.len(), a.len())?;
    let mut ws = Scratch::new();
    transform_in_place(t, a, freq, FREQ_TABLE_SIZE, &mut ws)
}

/// Writes the transform of `t` into `u`, and into `i` the auxiliary indices
/// of the transform, sampled at the rate that the length of `i` stands for;
/// the first of them is the primary index. The suffix array of `t` is left in
/// the first `t.len()` entries of `a`, and what `a` holds behind them stays as
/// it is. Where a table is given, it receives the frequency table of `t`.
///
/// Fails, and writes nothing, if `u` is not as long as `t`, if `a` cannot
/// take the suffix array (see [`takes`]), if the table has not
/// [`FREQ_TABLE_SIZE`] entries, or if the length of `i` stands for no rate
/// (see [`names_rate`]).
pub fn bwt_aux(
    t: &[u8],
    u: &mut [u8],
    a: &mut [i64],
    freq: Option<&mut [i64]>,
    i: &mut [i64],
) -> (r: Result<(), Error>)
    ensures
        r is Ok <==> t@.len() == old(u)@.len()
            && takes(t@.len(), old(a)@.len())
            && (freq matches Some(f) ==> f@.len() == FREQ_TABLE_SIZE)
            && names_rate(t@.len(), old(i)@.len()),
        r matches Err(e) ==> e == Error::IllegalArguments,
        transformed(codes(t@), old(a)@, final(a)@, old(u)@, final(u)@, r is Ok),
        sampled(codes(t@), old(i)@, final(i)@, r is Ok),
        freq matches Some(f) ==> tabled(codes(t@), f@, final(f)@, r is Ok),
{
    room(same_size::<i64>(t.len(), u.len())?, a.len())?;
    let rate = rate_of(i.len(), t.len())?;
    let mut ws = Scratch::new();
    transform_sampled(t, u, a, freq, rate, i, FREQ_TABLE_SIZE, &mut ws)
}

/// Replaces `t` by its transform, and writes into `i` the auxiliary indices
/// of the transform, sampled at the rate that the length of `i` stands for;
/// the first of them is the primary index. The suffix array of the text is
/// left in the first `t.len()` entries of `a`, and what `a` holds behind them
/// stays as it is. Where a table is given, it receives the frequency table of
/// the text.
///
/// Fails, and writes nothing, if `a` cannot take the suffix array (see
/// [`takes`]), if the table has not [`FREQ_TABLE_SIZE`] entries, or if the
/// length of `i` stands for no rate (see [`names_rate`]).
pub fn bwt_aux_inplace(
    t: &mut [u8],
    a: &mut [i64],
    freq: Option<&mut [i64]>,
    i: &mut [i64],
) -> (r: Result<(), Error>)
    ensures
        r is Ok <==> takes(old(t)@.len(), old(a)@.len())
            && (freq matches Some(f) ==> f@.len() == FREQ_TABLE_SIZE)
            && names_rate(old(t)@.len(), old(i)@.len()),
        r matches Err(e) ==> e == Error::IllegalArguments,
        transformed(codes(old(t)@), old(a)@, final(a)@, old(t)@, final(t)@, r is Ok),
        sampled(codes(old(t)@), old(i)@, final(i)@, r is Ok),
        freq matches Some(f) ==> tabled(codes(old(t)@), f@, final(f)@, r is Ok),
{
    room(t.len(), a.len())?;
    let rate = rate_of(i.len(), t.len())?;
    let mut ws = Scratch::new();
    transform_sampled_in_place(t, a, freq, rate, i, FREQ_TABLE_SIZE, &mut ws)
}

/// Reads back into `u` the text whose transform is `t` and whose primary
/// index is `i`. The work space `a` is left as it is.
///
/// Fails if `u` is not as long as `t`, if `a` has not more entries than `t`
/// has symbols (see [`takes_with_spare`]), if a table is given that is not
/// the frequency table of `t`, or if `t` is not the transform of any text
/// with the primary index `i`; `u` then holds nothing of use.
pub fn unbwt(
    t: &[u8],
    u: &mut [u8],
    a: &mut [i64],
    freq: Option<&[i64]>,
    i: i64,
) -> (r: Result<(), Error>)
    ensures
        final(u)@.len() == old(u)@.len(),
        final(a)@ == old(a)@,
        r is Ok <==> t@.len() == old(u)@.len()
            && takes_with_spare(t@.len(), old(a)@.len())
            && table_agrees(codes(t@), freq, FREQ_TABLE_SIZE as int)
            && is_transform(codes(t@), i as int),
        r matches Err(e) ==> e == Error::IllegalArguments,
        r is Ok ==> is_transform_of(codes(final(u)@), codes(t@), i as int),
{
    room_to_spare(same_size::<i64>(t.len(), u.len())?, a.len())?;
    let mut ws = Links::new();
    restore(t, u, freq, i, FREQ_TABLE_SIZE, &mut ws)
}

/// Replaces the transform in `t`, whose primary index is `i`, by the text it
/// is the transform of. The work space `a` is left as it is.
///
/// Fails if `a` has not more entries than `t` has symbols (see
/// [`takes_with_spare`]), if a table is given that is not the frequency
/// table of the transform, or if what `t` holds is not the transform of any
/// text with the primary index `i`; `t` then holds nothing of use.
pub fn unbwt_inplace(
    t: &mut [u8],
    a: &mut [i64],
    freq: Option<&[i64]>,
    i: i64,
) -> (r: Result<(), Error>)
    ensures
        final(t)@.len() == old(t)@.len(),
        final(a)@ == old(a)@,
        r is Ok <==> takes_with_spare(old(t)@.len(), old(a)@.len())
            && table_agrees(codes(old(t)@), freq, FREQ_TABLE_SIZE as int)
            && is_transform(codes(old(t)@), i as int),
        r matches Err(e) ==> e == Error::IllegalArguments,
        r is Ok ==> is_transform_of(codes(final(t)@), codes(old(t)@), i as int),
{
    room_to_spare(t.len(), a.len())?;
    let mut ws = Links::new();
    restore_in_place(t, freq, i, FREQ_TABLE_SIZE, &mut ws)
}

/// Reads back into `u` the text whose transform is `t` and whose auxiliary
/// indices are `i`, sampled at the rate that the length of `i` stands for;
/// the first of them is the primary index. The work space `a` is left as it
/// is.
///
/// Fails if `u` is not as long as `t`, if `a` has not more entries than `t`
/// has symbols (see [`takes_with_spare`]), if a table is given that is not
/// the frequency table of `t`, if the length of `i` stands for no rate (see
/// [`names_rate`]), or if `t` is not the transform of any text with these
/// auxiliary indices; `u` then holds nothing of use.
pub fn unbwt_aux(
    t: &[u8],
    u: &mut [u8],
    a: &mut [i64],
    freq: Option<&[i64]>,
    i: &[i64],
) -> (r: Result<(), Error>)
    ensures
        final(u)@.len() == old(u)@.len(),
        final(a)@ == old(a)@,
        r is Ok <==> t@.len() == old(u)@.len()
            && takes_with_spare(t@.len(), old(a)@.len())
            && table_agrees(codes(t@), freq, FREQ_TABLE_SIZE as int)
            && names_rate(t@.len(), i@.len())
            && is_sampled_transform(
                    codes(t@),
                    exact_rate(t@.len() as int, i@.len() as int),
                    values(i@),
                ),
        r matches Err(e) ==> e == Error::IllegalArguments,
        r is Ok ==> is_sampled_transform_of(
            codes(final(u)@),
            codes(t@),
            exact_rate(t@.len() as int, i@.len() as int),
            values(i@),
        ),
{
    room_to_spare(same_size::<i64>(t.len(), u.len())?, a.len())?;
    let rate = rate_of(i.len(), t.len())?;
    let mut ws = Links::new();
    restore_sampled(t, u, freq, rate, i, FREQ_TABLE_SIZE, &mut ws)
}

/// Replaces the transform in `t` by the text it is the transform of, with
/// the auxiliary indices `i`, sampled at the rate that the length of `i`
/// stands for; the first of them is the primary index. The work space `a`
/// is left as it is.
///
/// Fails if `a` has not more entries than `t` has symbols (see
/// [`takes_with_spare`]), if a table is given that is not the frequency
/// table of the transform, if the length of `i` stands for no rate (see
/// [`names_rate`]), or if what `t` holds is not the transform of any text
/// with these auxiliary indices; `t` then holds nothing of use.
pub fn unbwt_aux_inplace(
    t: &mut [u8],
    a: &mut [i64],
    freq: Option<&[i64]>,
    i: &[i64],
) -> (r: Result<(), Error>)
    ensures
        final(t)@.len() == old(t)@.len(),
        final(a)@ == old(a)@,
        r is Ok <==> takes_with_spare(old(t)@.len(), old(a)@.len())
            && table_agrees(codes(old(t)@), freq, FREQ_TABLE_SIZE as int)
            && names_rate(old(t)@.len(), i@.len())
            && is_sampled_transform(
                    codes(old(t)@),
                    exact_rate(old(t)@.len() as int, i@.len() as int),
                    values(i@),
                ),
        r matches Err(e) ==> e == Error::IllegalArguments,
        r is Ok ==> is_sampled_transform_of(
            codes(final(t)@),
            codes(old(t)@),
            exact_rate(old(t)@.len() as int, i@.len() as int),
            values(i@),
        ),
{
    room_to_spare(t.len(), a.len())?;
    let rate = rate_of(i.len(), t.len())?;
    let mut ws = Links::new();
    restore_sampled_in_place(t, freq, rate, i, FREQ_TABLE_SIZE, &mut ws)
}

/// Writes into `out` the permuted prefix array of `t` under its suffix
/// array, which the first `t.len()` entries of `sa` hold: the entry at a
/// position is the number of symbols that the suffix there shares with the
/// suffix before it in `sa`.
///
/// Fails, and writes nothing, if `out` is not as long as `t`, if `sa` could
/// not have taken the suffix array (see [`takes`]), or if its first entries
/// are not the suffix array of `t`.
pub fn plcp(t: &[u8], sa: &[i64], out: &mut [i64]) -> (r: Result<(), Error>)
    ensures
        final(out)@.len() == old(out)@.len(),
        r is Ok <==> t@.len() == old(out)@.len()
            && takes(t@.len(), sa@.len())
            && is_suffix_array(codes(t@), values(sa@.take(t@.len() as int))),
        r matches Err(e) ==> e == Error::IllegalArguments && final(out)@ == old(out)@,
        r is Ok ==> is_plcp(codes(t@), values(sa@.take(t@.len() as int)), values(final(out)@)),
{
    room(same_size::<i64>(t.len(), out.len())?, sa.len())?;
    permuted_lcp(t, sa, out)
}

/// Writes into `out` the prefix array in the order of the suffix array: entry
/// `r` is the entry of `plcp` at the position `sa[r]`.
///
/// Fails, and writes nothing, if `out` is not as long as `plcp`, if `sa`
/// could not have taken the suffix array (see [`takes`]), or if one of its
/// first entries is not a position of `plcp`.
pub fn lcp(plcp: &[i64], sa: &[i64], out: &mut [i64]) -> (r: Result<(), Error>)
    ensures
        final(out)@.len() == old(out)@.len(),
        r is Ok <==> plcp@.len() == old(out)@.len()
            && takes(plcp@.len(), sa@.len())
            && all_below(values(sa@.take(plcp@.len() as int)), plcp@.len() as int),
        r matches Err(e) ==> e == Error::IllegalArguments && final(out)@ == old(out)@,
        r is Ok ==> is_lcp(
            values(plcp@),
            values(sa@.take(plcp@.len() as int)),
            values(final(out)@),
        ),
{
    room(same_size::<i64>(plcp.len(), out.len())?, sa.len())?;
    ordered_lcp(plcp, sa, out)
}

} // verus!
