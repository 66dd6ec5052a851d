//! The algorithms of the parent module with a degree of parallelism: the number
//! of workers that may share the work of a call. The degree changes nothing
//! of what a call computes.

use vstd::prelude::*;
use crate::aux_index::exact_rate;
use crate::bwt::{
    is_sampled_transform,
    is_sampled_transform_of,
    is_transform,
    is_transform_of,
    primary_index,
    sampled,
    transformed,
};
use crate::index::{all_below, values};
use crate::lcp::{is_lcp, is_plcp};
use crate::sais32::{names_rate, takes, takes_with_spare, Error, FREQ_TABLE_SIZE};
use crate::suffix_array::{constructed, is_suffix_array, tabled};
use crate::symbol::{codes, within_alphabet};
use crate::unbwt::table_agrees;

verus! {

/// Builds the suffix array of `t` in the first `t.len()` entries of `sa`; what
/// `sa` holds behind them is free space and stays as it is. Where a table is
/// given, it receives the frequency table of `t`.
///
/// Fails, and writes nothing, if `sa` cannot take the array (see [`takes`]),
/// or if the table has not [`FREQ_TABLE_SIZE`] entries.
///
/// The degree `threads` says how many workers may share the work, zero for as
/// many as there are; the result does not depend on it. Fails also if the
/// degree is negative.
pub fn sais(
    t: &[u8],
    sa: &mut [i32],
    freq: Option<&mut [i32]>,
    threads: i32,
) -> (r: Result<(), Error>)
    ensures
        r is Ok <==> threads >= 0
            && takes(t@.len(), old(sa)@.len())
            && (freq matches Some(f) ==> f@.len() == FREQ_TABLE_SIZE),
        r matches Err(e) ==> e == Error::IllegalArguments,
        constructed(codes(t@), old(sa)@, final(sa)@, r is Ok),
        freq matches Some(f) ==> tabled(codes(t@), f@, final(f)@, r is Ok),
{
    if threads < 0 {
        return Err(Error::IllegalArguments);
    }
    crate::sais32::sais(t, sa, freq)
}

/// Builds the suffix array of a text of integers, whose symbols are in
/// `[0, k)`, in the first `t.len()` entries of `sa`; what `sa` holds behind
/// them is free space and stays as it is. The text is left as it is.
///
/// Fails, and writes nothing, if `sa` cannot take the array (see [`takes`]),
/// or if a symbol of the text is not in `[0, k)`.
///
/// The degree `threads` says how many workers may share the work, zero for as
/// many as there are; the result does not depend on it. Fails also if the
/// degree is negative.
pub fn sais_int(t: &mut [i32], sa: &mut [i32], k: i32, threads: i32) -> (r: Result<(), Error>)
    ensures
        r is Ok <==> threads >= 0
            && takes(old(t)@.len(), old(sa)@.len())
            && within_alphabet(codes(old(t)@), k as int),
        final(t)@ == old(t)@,
        r matches Err(e) ==> e == Error::IllegalArguments,
        constructed(codes(old(t)@), old(sa)@, final(sa)@, r is Ok),
{
    if threads < 0 {
        return Err(Error::IllegalArguments);
    }
    crate::sais32::sais_int(t, sa, k)
}

/// Writes the transform of `t` into `u` and returns the primary index. The
/// suffix array of `t` is left in the first `t.len()` entries of `a`, and
/// what `a` holds behind them stays as it is. Where a table is given, it
/// receives the frequency table of `t`.
///
/// Fails, and writes nothing, if `u` is not as long as `t`, if `a` cannot
/// take the suffix array (see [`takes`]), or if the table has not
/// [`FREQ_TABLE_SIZE`] entries.
///
/// The degree `threads` says how many workers may share the work, zero for as
/// many as there are; the result does not depend on it. Fails also if the
/// degree is negative.
pub fn bwt(
    t: &[u8],
    u: &mut [u8],
    a: &mut [i32],
    freq: Option<&mut [i32]>,
    threads: i32,
) -> (r: Result<i32, Error>)
    ensures
        r is Ok <==> threads >= 0
            && t@.len() == old(u)@.len()
            && takes(t@.len(), old(a)@.len())
            && (freq matches Some(f) ==> f@.len() == FREQ_TABLE_SIZE),
        r matches Err(e) ==> e == Error::IllegalArguments,
        r matches Ok(p) ==> p as int == primary_index(codes(t@)),
        transformed(codes(t@), old(a)@, final(a)@, old(u)@, final(u)@, r is Ok),
        freq matches Some(f) ==> tabled(codes(t@), f@, final(f)@, r is Ok),
{
    if threads < 0 {
        return Err(Error::IllegalArguments);
    }
    crate::sais32::bwt(t, u, a, freq)
}

/// Replaces `t` by its transform and returns the primary index. The suffix
/// array of the text is left in the first `t.len()` entries of `a`, and what
/// `a` holds behind them stays as it is. Where a table is given, it receives
/// the frequency table of the text.
///
/// Fails, and writes nothing, if `a` cannot take the suffix array (see
/// [`takes`]), or if the table has not [`FREQ_TABLE_SIZE`] entries.
///
/// The degree `threads` says how many workers may share the work, zero for as
/// many as there are; the result does not depend on it. Fails also if the
/// degree is negative.
pub fn bwt_inplace(
    t: &mut [u8],
    a: &mut [i32],
    freq: Option<&mut [i32]>,
    threads: i32,
) -> (r: Result<i32, Error>)
    ensures
        r is Ok <==> threads >= 0
            && takes(old(t)@.len(), old(a)@.len())
            && (freq matches Some(f) ==> f@.len() == FREQ_TABLE_SIZE),
        r matches Err(e) ==> e == Error::IllegalArguments,
        r matches Ok(p) ==> p as int == primary_index(codes(old(t)@)),
        transformed(codes(old(t)@), old(a)@, final(a)@, old(t)@, final(t)@, r is Ok),
        freq matches Some(f) ==> tabled(codes(old(t)@), f@, final(f)@, r is Ok),
{
    if threads < 0 {
        return Err(Error::IllegalArguments);
    }
    crate::sais32::bwt_inplace(t, a, freq)
}

/// Writes the transform of `t` into `u`, and into `i` the auxiliary indices
/// of the transform, sampled at the rate that the length of `i` stands for;
/// the first of them is the primary index. The suffix array of `t` is left in
/// the first `t.len()` entries of `a`, and what `a` holds behind them stays as
/// it is. Where a table is given, it receives the frequency table of `t`.
///
/// Fails, and writes nothing, if `u` is not as long as `t`, if `a` cannot
/// take the suffix array (see [`takes`]), if the table has not
/// [`FREQ_TABLE_SIZE`] entries, or if the length of `i` stands for no rate
/// (see [`names_rate`]).
///
/// The degree `threads` says how many workers may share the work, zero for as
/// many as there are; the result does not depend on it. Fails also if the
/// degree is negative.
pub fn bwt_aux(
    t: &[u8],
    u: &mut [u8],
    a: &mut [i32],
    freq: Option<&mut [i32]>,
    i: &mut [i32],
    threads: i32,
) -> (r: Result<(), Error>)
    ensures
        r is Ok <==> threads >= 0
            && t@.len() == old(u)@.len()
            && takes(t@.len(), old(a)@.len())
            && (freq matches Some(f) ==> f@.len() == FREQ_TABLE_SIZE)
            && names_rate(t@.len(), old(i)@.len()),
        r matches Err(e) ==> e == Error::IllegalArguments,
        transformed(codes(t@), old(a)@, final(a)@, old(u)@, final(u)@, r is Ok),
        sampled(codes(t@), old(i)@, final(i)@, r is Ok),
        freq matches Some(f) ==> tabled(codes(t@), f@, final(f)@, r is Ok),
{
    if threads < 0 {
        return Err(Error::IllegalArguments);
    }
    crate::sais32::bwt_aux(t, u, a, freq, i)
}

/// Replaces `t` by its transform, and writes into `i` the auxiliary indices
/// of the transform, sampled at the rate that the length of `i` stands for;
/// the first of them is the primary index. The suffix array of the text is
/// left in the first `t.len()` entries of `a`, and what `a` holds behind them
/// stays as it is. Where a table is given, it receives the frequency table of
/// the text.
///
/// Fails, and writes nothing, if `a` cannot take the suffix array (see
/// [`takes`]), if the table has not [`FREQ_TABLE_SIZE`] entries, or if the
/// length of `i` stands for no rate (see [`names_rate`]).
///
/// The degree `threads` says how many workers may share the work, zero for as
/// many as there are; the result does not depend on it. Fails also if the
/// degree is negative.
pub fn bwt_aux_inplace(
    t: &mut [u8],
    a: &mut [i32],
    freq: Option<&mut [i32]>,
    i: &mut [i32],
    threads: i32,
) -> (r: Result<(), Error>)
    ensures
        r is Ok <==> threads >= 0
            && takes(old(t)@.len(), old(a)@.len())
            && (freq matches Some(f) ==> f@.len() == FREQ_TABLE_SIZE)
            && names_rate(old(t)@.len(), old(i)@.len()),
        r matches Err(e) ==> e == Error::IllegalArguments,
        transformed(codes(old(t)@), old(a)@, final(a)@, old(t)@, final(t)@, r is Ok),
        sampled(codes(old(t)@), old(i)@, final(i)@, r is Ok),
        freq matches Some(f) ==> tabled(codes(old(t)@), f@, final(f)@, r is Ok),
{
    if threads < 0 {
        return Err(Error::IllegalArguments);
    }
    crate::sais32::bwt_aux_inplace(t, a, freq, i)
}

/// Reads back into `u` the text whose transform is `t` and whose primary
/// index is `i`. The work space `a` is left as it is.
///
/// Fails if `u` is not as long as `t`, if `a` has not more entries than `t`
/// has symbols (see [`takes_with_spare`]), if a table is given that is not
/// the frequency table of `t`, or if `t` is not the transform of any text
/// with the primary index `i`; `u` then holds nothing of use.
///
/// The degree `threads` says how many workers may share the work, zero for as
/// many as there are; the result does not depend on it. Fails also if the
/// degree is negative.
pub fn unbwt(
    t: &[u8],
    u: &mut [u8],
    a: &mut [i32],
    freq: Option<&[i32]>,
    i: i32,
    threads: i32,
) -> (r: Result<(), Error>)
    ensures
        final(u)@.len() == old(u)@.len(),
        final(a)@ == old(a)@,
        r is Ok <==> threads >= 0
            && t@.len() == old(u)@.len()
            && takes_with_spare(t@.len(), old(a)@.len())
            && table_agrees(codes(t@), freq, FREQ_TABLE_SIZE as int)
            && is_transform(codes(t@), i as int),
        r matches Err(e) ==> e == Error::IllegalArguments,
        r is Ok ==> is_transform_of(codes(final(u)@), codes(t@), i as int),
{
    if threads < 0 {
        return Err(Error::IllegalArguments);
    }
    crate::sais32::unbwt(t, u, a, freq, i)
}

/// Replaces the transform in `t`, whose primary index is `i`, by the text it
/// is the transform of. The work space `a` is left as it is.
///
/// Fails if `a` has not more entries than `t` has symbols (see
/// [`takes_with_spare`]), if a table is given that is not the frequency
/// table of the transform, or if what `t` holds is not the transform of any
/// text with the primary index `i`; `t` then holds nothing of use.
///
/// The degree `threads` says how many workers may share the work, zero for as
/// many as there are; the result does not depend on it. Fails also if the
/// degree is negative.
pub fn unbwt_inplace(
    t: &mut [u8],
    a: &mut [i32],
    freq: Option<&[i32]>,
    i: i32,
    threads: i32,
) -> (r: Result<(), Error>)
    ensures
        final(t)@.len() == old(t)@.len(),
        final(a)@ == old(a)@,
        r is Ok <==> threads >= 0
            && takes_with_spare(old(t)@.len(), old(a)@.len())
            && table_agrees(codes(old(t)@), freq, FREQ_TABLE_SIZE as int)
            && is_transform(codes(old(t)@), i as int),
        r matches Err(e) ==> e == Error::IllegalArguments,
        r is Ok ==> is_transform_of(codes(final(t)@), codes(old(t)@), i as int),
{
    if threads < 0 {
        return Err(Error::IllegalArguments);
    }
    crate::sais32::unbwt_inplace(t, a, freq, i)
}

/// Reads back into `u` the text whose transform is `t` and whose auxiliary
/// indices are `i`, sampled at the rate that the length of `i` stands for;
/// the first of them is the primary index. The work space `a` is left as it
/// is.
///
/// Fails if `u` is not as long as `t`, if `a` has not more entries than `t`
/// has symbols (see [`takes_with_spare`]), if a table is given that is not
/// the frequency table of `t`, if the length of `i` stands for no rate (see
/// [`names_rate`]), or if `t` is not the transform of any text with these
/// auxiliary indices; `u` then holds nothing of use.
///
/// The degree `threads` says how many workers may share the work, zero for as
/// many as there are; the result does not depend on it. Fails also if the
/// degree is negative.
pub fn unbwt_aux(
    t: &[u8],
    u: &mut [u8],
    a: &mut [i32],
    freq: Option<&[i32]>,
    i: &[i32],
    threads: i32,
) -> (r: Result<(), Error>)
    ensures
        final(u)@.len() == old(u)@.len(),
        final(a)@ == old(a)@,
        r is Ok <==> threads >= 0
            && t@.len() == old(u)@.len()
            && takes_with_spare(t@.len(), old(a)@.len())
            && table_agrees(codes(t@), freq, FREQ_TABLE_SIZE as int)
            && names_rate(t@.len(), i@.len())
            && is_sampled_transform(
                    codes(t@),
                    exact_rate(t@.len() as int, i@.len() as int),
                    values(i@),
                ),
        r matches Err(e) ==> e == Error::IllegalArguments,
        r is Ok ==> is_sampled_transform_of(
            codes(final(u)@),
            codes(t@),
            exact_rate(t@.len() as int, i@.len() as int),
            values(i@),
        ),
{
    if threads < 0 {
        return Err(Error::IllegalArguments);
    }
    crate::sais32::unbwt_aux(t, u, a, freq, i)
}

/// Replaces the transform in `t` by the text it is the transform of, with
/// the auxiliary indices `i`, sampled at the rate that the length of `i`
/// stands for; the first of them is the primary index. The work space `a`
/// is left as it is.
///
/// Fails if `a` has not more entries than `t` has symbols (see
/// [`takes_with_spare`]), if a table is given that is not the frequency
/// table of the transform, if the length of `i` stands for no rate (see
/// [`names_rate`]), or if what `t` holds is not the transform of any text
/// with these auxiliary indices; `t` then holds nothing of use.
///
/// The degree `threads` says how many workers may share the work, zero for as
/// many as there are; the result does not depend on it. Fails also if the
/// degree is negative.
pub fn unbwt_aux_inplace(
    t: &mut [u8],
    a: &mut [i32],
    freq: Option<&[i32]>,
    i: &[i32],
    threads: i32,
) -> (r: Result<(), Error>)
    ensures
        final(t)@.len() == old(t)@.len(),
        final(a)@ == old(a)@,
        r is Ok <==> threads >= 0
            && takes_with_spare(old(t)@.len(), old(a)@.len())
            && table_agrees(codes(old(t)@), freq, FREQ_TABLE_SIZE as int)
            && names_rate(old(t)@.len(), i@.len())
            && is_sampled_transform(
                    codes(old(t)@),
                    exact_rate(old(t)@.len() as int, i@.len() as int),
                    values(i@),
                ),
        r matches Err(e) ==> e == Error::IllegalArguments,
        r is Ok ==> is_sampled_transform_of(
            codes(final(t)@),
            codes(old(t)@),
            exact_rate(old(t)@.len() as int, i@.len() as int),
            values(i@),
        ),
{
    if threads < 0 {
        return Err(Error::IllegalArguments);
    }
    crate::sais32::unbwt_aux_inplace(t, a, freq, i)
}

/// Writes into `out` the permuted prefix array of `t` under its suffix
/// array, which the first `t.len()` entries of `sa` hold: the entry at a
/// position is the number of symbols that the suffix there shares with the
/// suffix before it in `sa`.
///
/// Fails, and writes nothing, if `out` is not as long as `t`, if `sa` could
/// not have taken the suffix array (see [`takes`]), or if its first entries
/// are not the suffix array of `t`.
///
/// The degree `threads` says how many workers may share the work, zero for as
/// many as there are; the result does not depend on it. Fails also if the
/// degree is negative.
pub fn plcp(t: &[u8], sa: &[i32], out: &mut [i32], threads: i32) -> (r: Result<(), Error>)
    ensures
        final(out)@.len() == old(out)@.len(),
        r is Ok <==> threads >= 0
            && t@.len() == old(out)@.len()
            && takes(t@.len(), sa@.len())
            && is_suffix_array(codes(t@), values(sa@.take(t@.len() as int))),
        r matches Err(e) ==> e == Error::IllegalArguments && final(out)@ == old(out)@,
        r is Ok ==> is_plcp(codes(t@), values(sa@.take(t@.len() as int)), values(final(out)@)),
{
    if threads < 0 {
        return Err(Error::IllegalArguments);
    }
    crate::sais32::plcp(t, sa, out)
}

/// Writes into `out` the prefix array in the order of the suffix array: entry
/// `r` is the entry of `plcp` at the position `sa[r]`.
///
/// Fails, and writes nothing, if `out` is not as long as `plcp`, if `sa`
/// could not have taken the suffix array (see [`takes`]), or if one of its
/// first entries is not a position of `plcp`.
///
/// The degree `threads` says how many workers may share the work, zero for as
/// many as there are; the result does not depend on it. Fails also if the
/// degree is negative.
pub fn lcp(plcp: &[i32], sa: &[i32], out: &mut [i32], threads: i32) -> (r: Result<(), Error>)
    ensures
        final(out)@.len() == old(out)@.len(),
        r is Ok <==> threads >= 0
            && plcp@.len() == old(out)@.len()
            && takes(plcp@.len(), sa@.len())
            && all_below(values(sa@.take(plcp@.len() as int)), plcp@.len() as int),
        r matches Err(e) ==> e == Error::IllegalArguments && final(out)@ == old(out)@,
        r is Ok ==> is_lcp(
            values(plcp@),
            values(sa@.take(plcp@.len() as int)),
            values(final(out)@),
        ),
{
    if threads < 0 {
        return Err(Error::IllegalArguments);
    }
    crate::sais32::lcp(plcp, sa, out)
}

} // verus!
