//! The symbols a text is made of.

use vstd::prelude::*;

verus! {

/// A symbol of a text: a byte, a 16-bit unit, or an integer of a declared
/// alphabet. Symbols are ordered by their codes.
pub trait Symbol: Copy {
    /// The integer this symbol is ordered by.
    spec fn code(self) -> int;

    /// Two symbols with the same code are the same symbol.
    proof fn lemma_faithful(a: Self, b: Self)
        ensures
            a.code() == b.code() ==> a == b,
    ;

    /// The code of a symbol that has no negative code, as an index.
    fn key(self) -> (k: usize)
        requires
            0 <= self.code(),
        ensures
            k as int == self.code(),
    ;
}

impl Symbol for u8 {
    open spec fn code(self) -> int {
        self as int
    }

    proof fn lemma_faithful(a: Self, b: Self) {
    }

    fn key(self) -> (k: usize) {
        self as usize
    }
}

impl Symbol for u16 {
    open spec fn code(self) -> int {
        self as int
    }

    proof fn lemma_faithful(a: Self, b: Self) {
    }

    fn key(self) -> (k: usize) {
        self as usize
    }
}

impl Symbol for i32 {
    open spec fn code(self) -> int {
        self as int
    }

    proof fn lemma_faithful(a: Self, b: Self) {
    }

    fn key(self) -> (k: usize) {
        self as usize
    }
}

/// A text as the sequence of its symbols' codes.
pub open spec fn codes<T: Symbol>(s: Seq<T>) -> Seq<int> {
    Seq::new(s.len(), |i: int| s[i].code())
}

/// Two texts with the same codes are the same text.
pub proof fn lemma_codes_faithful<T: Symbol>(a: Seq<T>, b: Seq<T>)
    requires
        codes(a) == codes(b),
    ensures
        a == b,
{
    assert(a.len() == codes(a).len());
    assert forall|i: int| 0 <= i < a.len() implies a[i] == b[i] by {
        assert(codes(a)[i] == a[i].code());
        T::lemma_faithful(a[i], b[i]);
    }
}

/// No symbol of the text has a negative code.
pub open spec fn natural(t: Seq<int>) -> bool {
    forall|i: int| 0 <= i < t.len() ==> 0 <= #[trigger] t[i]
}

/// Every symbol of the text has a code in `[0, k)`.
pub open spec fn within_alphabet(t: Seq<int>, k: int) -> bool {
    forall|i: int| 0 <= i < t.len() ==> 0 <= #[trigger] t[i] < k
}

} // verus!
