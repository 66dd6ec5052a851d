//! Checks on buffer sizes, shared by every algorithm variant, and the reading
//! of raw status codes.

use vstd::prelude::*;
use crate::aux_index::{aux_rate_exact, is_exact_rate};
use crate::errors::{Error, ReturnCode};

verus! {

/// Accepts two sizes that are equal, and hands the size back.
pub fn same_size<EI: ReturnCode>(one_size: usize, another_size: usize) -> (r: Result<
    usize,
    Error<EI>,
>)
    ensures
        one_size == another_size ==> r == Ok::<usize, Error<EI>>(one_size),
        one_size != another_size ==> r == Err::<usize, Error<EI>>(Error::IllegalArguments),
{
    if one_size == another_size {
        Ok(one_size)
    } else {
        Err(Error::IllegalArguments)
    }
}

/// Accepts a size up to `max`, and hands the size back.
pub fn max_size<EI: ReturnCode>(size: usize, max: usize) -> (r: Result<usize, Error<EI>>)
    ensures
        size <= max ==> r == Ok::<usize, Error<EI>>(size),
        size > max ==> r == Err::<usize, Error<EI>>(Error::IllegalArguments),
{
    if size <= max {
        Ok(size)
    } else {
        Err(Error::IllegalArguments)
    }
}

/// Splits the capacity of a buffer into the length that the text needs and
/// the free space behind it, both in the algorithm's index type.
///
/// Fails when the buffer is shorter than the text, or when either part is
/// beyond the index type.
pub fn split_size<I: ReturnCode>(small_size: usize, big_size: usize) -> (r: Result<
    (I, I),
    Error<I>,
>)
    ensures
        r is Ok <==> small_size <= big_size && small_size <= I::limit() && big_size - small_size
            <= I::limit(),
        r matches Ok((n, fs)) ==> n.value() == small_size && fs.value() == big_size - small_size,
        r matches Err(e) ==> e == Error::<I>::IllegalArguments,
{
    if big_size < small_size {
        return Err(Error::IllegalArguments);
    }
    let free_space = big_size - small_size;
    match (I::from_usize(small_size), I::from_usize(free_space)) {
        (Some(n), Some(fs)) => Ok((n, fs)),
        _ => Err(Error::IllegalArguments),
    }
}

/// Accepts a work buffer for the inverse transform, which must have more
/// slots than the text has symbols, and hands the text's length back in the
/// algorithm's index type.
pub fn unbwt_sufficient_size<I: ReturnCode>(text_size: usize, tmp_size: usize) -> (r: Result<
    I,
    Error<I>,
>)
    ensures
        r is Ok <==> text_size < tmp_size && text_size <= I::limit(),
        r matches Ok(n) ==> n.value() == text_size,
        r matches Err(e) ==> e == Error::<I>::IllegalArguments,
{
    if tmp_size <= text_size {
        return Err(Error::IllegalArguments);
    }
    match I::from_usize(text_size) {
        Some(n) => Ok(n),
        None => Err(Error::IllegalArguments),
    }
}

/// Recovers the sampling rate from the length of an auxiliary array and the
/// size of the text, in the algorithm's index type.
///
/// Fails when no rate gives exactly that length, or when the rate is beyond
/// the index type.
pub fn aux_rate<I: ReturnCode>(aux_length: usize, text_size: usize) -> (r: Result<I, Error<I>>)
    ensures
        r matches Ok(rate) ==> is_exact_rate(
            text_size as int,
            aux_length as int,
            rate.value(),
        ),
        r matches Err(e) ==> e == Error::<I>::IllegalArguments && forall|q: int|
            q <= usize::MAX && q <= I::limit() ==> !is_exact_rate(
                text_size as int,
                aux_length as int,
                q,
            ),
{
    if let Some(rate) = aux_rate_exact(text_size, aux_length) {
        match I::from_usize(rate) {
            Some(r) => Ok(r),
            None => Err(Error::IllegalArguments),
        }
    } else {
        Err(Error::IllegalArguments)
    }
}

/// Reads a 32-bit status: a value from zero up is a result, -1 and -2 are
/// the two named errors, and anything else is kept as it came.
pub fn interpret_return_code_32(code: i32) -> (r: Result<i32, Error<i32>>)
    ensures
        code >= 0 ==> r == Ok::<i32, Error<i32>>(code),
        code == -1 ==> r == Err::<i32, Error<i32>>(Error::IllegalArguments),
        code == -2 ==> r == Err::<i32, Error<i32>>(Error::InternalError),
        code < -2 ==> r == Err::<i32, Error<i32>>(Error::Uncategorized(code)),
{
    if code >= 0 {
        Ok(code)
    } else if code == -1 {
        Err(Error::IllegalArguments)
    } else if code == -2 {
        Err(Error::InternalError)
    } else {
        Err(Error::Uncategorized(code))
    }
}

/// Reads a 64-bit status: a value from zero up is a result, -1 and -2 are
/// the two named errors, and anything else is kept as it came.
pub fn interpret_return_code_64(code: i64) -> (r: Result<i64, Error<i64>>)
    ensures
        code >= 0 ==> r == Ok::<i64, Error<i64>>(code),
        code == -1 ==> r == Err::<i64, Error<i64>>(Error::IllegalArguments),
        code == -2 ==> r == Err::<i64, Error<i64>>(Error::InternalError),
        code < -2 ==> r == Err::<i64, Error<i64>>(Error::Uncategorized(code)),
{
    if code >= 0 {
        Ok(code)
    } else if code == -1 {
        Err(Error::IllegalArguments)
    } else if code == -2 {
        Err(Error::InternalError)
    } else {
        Err(Error::Uncategorized(code))
    }
}

} // verus!
