//! Status codes of the algorithms and the errors they are read as.

use vstd::prelude::*;

verus! {

/// An integer type that an algorithm variant computes with: it indexes the
/// text, fills the index arrays, and carries the raw status of a call.
pub trait ReturnCode: Copy {
    /// The integer this value stands for.
    spec fn value(self) -> int;

    /// The largest integer the type can hold.
    spec fn limit() -> int;

    /// Two values that stand for the same integer are the same value, and
    /// the limit is a length some buffer could have.
    proof fn lemma_faithful(a: Self, b: Self)
        ensures
            a.value() <= Self::limit(),
            a.value() == b.value() ==> a == b,
            0 < Self::limit(),
    ;

    /// Narrows a size to this type, or reports that it does not fit.
    fn from_usize(x: usize) -> (r: Option<Self>)
        ensures
            r is Some <==> x <= Self::limit(),
            r matches Some(v) ==> v.value() == x,
    ;

    /// Reads this value as a size, or reports that it is negative.
    fn to_usize(self) -> (r: Option<usize>)
        ensures
            r is Some <==> 0 <= self.value() <= usize::MAX,
            r matches Some(v) ==> v == self.value(),
    ;
}

impl ReturnCode for i32 {
    open spec fn value(self) -> int {
        self as int
    }

    open spec fn limit() -> int {
        i32::MAX as int
    }

    proof fn lemma_faithful(a: Self, b: Self) {
    }

    fn from_usize(x: usize) -> (r: Option<Self>) {
        if x <= 0x7fff_ffff {
            Some(x as i32)
        } else {
            None
        }
    }

    fn to_usize(self) -> (r: Option<usize>) {
        if self >= 0 {
            Some(self as usize)
        } else {
            None
        }
    }
}

impl ReturnCode for i64 {
    open spec fn value(self) -> int {
        self as int
    }

    open spec fn limit() -> int {
        i64::MAX as int
    }

    proof fn lemma_faithful(a: Self, b: Self) {
    }

    fn from_usize(x: usize) -> (r: Option<Self>) {
        if x as u64 <= 0x7fff_ffff_ffff_ffff {
            Some(x as i64)
        } else {
            None
        }
    }

    fn to_usize(self) -> (r: Option<usize>) {
        if self >= 0 && self as u64 <= usize::MAX as u64 {
            Some(self as usize)
        } else {
            None
        }
    }
}

/// What went wrong in a call.
#[derive(Debug, Copy, PartialEq, Eq)]
pub enum Error<I: ReturnCode> {
    /// An argument broke a documented precondition: a buffer too small, a table
    /// of the wrong size, a size beyond the index range.
    IllegalArguments,
    /// The algorithm found one of its own invariants broken.
    InternalError,
    /// A status that is neither of the above, kept as it came.
    Uncategorized(I),
}

impl<I: ReturnCode> Clone for Error<I> {
    fn clone(&self) -> (e: Self)
        ensures
            e == *self,
    {
        *self
    }
}

/// The name of an error's kind, as a sequence of characters.
pub open spec fn kind_name_of<I: ReturnCode>(e: Error<I>) -> Seq<char> {
    match e {
        Error::IllegalArguments => "IllegalArguments"@,
        Error::InternalError => "InternalError"@,
        Error::Uncategorized(_) => "Uncategorized"@,
    }
}

impl<I: ReturnCode> Error<I> {
    /// The name of this error's kind; the payload of `Uncategorized` is not
    /// part of it.
    pub fn kind_name(&self) -> (name: &'static str)
        ensures
            name@ == kind_name_of(*self),
    {
        match self {
            Error::IllegalArguments => "IllegalArguments",
            Error::InternalError => "InternalError",
            Error::Uncategorized(_) => "Uncategorized",
        }
    }
}

} // verus!
