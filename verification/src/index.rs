//! Index arrays in the integer type of an algorithm variant: how they are
//! read into sizes and written from sizes.

use vstd::prelude::*;
use crate::count::is_permutation;
use crate::errors::ReturnCode;
use crate::suffix_array::positions;

verus! {

/// An index array as the sequence of the integers it holds.
pub open spec fn values<I: ReturnCode>(s: Seq<I>) -> Seq<int> {
    Seq::new(s.len(), |i: int| s[i].value())
}

/// Every entry is a position in `[0, bound)`.
pub open spec fn all_below(s: Seq<int>, bound: int) -> bool {
    forall|i: int| 0 <= i < s.len() ==> 0 <= #[trigger] s[i] < bound
}

/// Two index arrays that hold the same integers are the same array.
pub proof fn lemma_values_faithful<I: ReturnCode>(a: Seq<I>, b: Seq<I>)
    requires
        values(a) == values(b),
    ensures
        a == b,
{
    assert(a.len() == values(a).len());
    assert forall|i: int| 0 <= i < a.len() implies a[i] == b[i] by {
        assert(values(a)[i] == a[i].value());
        I::lemma_faithful(a[i], b[i]);
    }
}

/// Narrows a size that is known to fit.
pub(crate) fn narrow<I: ReturnCode>(x: usize) -> (v: I)
    requires
        x <= I::limit(),
    ensures
        v.value() == x,
{
    match I::from_usize(x) {
        Some(v) => v,
        None => vstd::pervasive::unreached(),
    }
}

/// Writes `src` over the first entries of `dst`, and leaves the rest.
pub(crate) fn store<I: ReturnCode>(dst: &mut [I], src: &Vec<usize>)
    requires
        src@.len() <= old(dst)@.len(),
        forall|i: int| 0 <= i < src@.len() ==> #[trigger] src@[i] <= I::limit(),
    ensures
        final(dst)@.len() == old(dst)@.len(),
        values(final(dst)@.take(src@.len() as int)) == positions(src@),
        final(dst)@.skip(src@.len() as int) == old(dst)@.skip(src@.len() as int),
{
    let n = src.len();
    let mut i: usize = 0;
    while i < n
        invariant
            n == src@.len(),
            n <= dst@.len(),
            dst@.len() == old(dst)@.len(),
            i <= n,
            forall|k: int| 0 <= k < n ==> #[trigger] src@[k] <= I::limit(),
            forall|k: int| 0 <= k < i ==> (#[trigger] dst@[k]).value() == src@[k],
            forall|k: int| i <= k < dst@.len() ==> dst@[k] == old(dst)@[k],
        decreases n - i,
    {
        dst[i] = narrow::<I>(src[i]);
        i = i + 1;
    }
}

/// Reads the first `n` entries of `src`, if they are positions in
/// `[0, bound)`.
pub(crate) fn read_positions<I: ReturnCode>(src: &[I], n: usize, bound: usize) -> (r: Option<
    Vec<usize>,
>)
    requires
        n <= src@.len(),
    ensures
        r is Some <==> all_below(values(src@.take(n as int)), bound as int),
        r matches Some(v) ==> positions(v@) == values(src@.take(n as int)),
{
    let ghost want = values(src@.take(n as int));
    let mut v: Vec<usize> = Vec::new();
    let mut i: usize = 0;
    while i < n
        invariant
            n <= src@.len(),
            want == values(src@.take(n as int)),
            i <= n,
            v@.len() == i,
            forall|k: int| 0 <= k < i ==> 0 <= #[trigger] want[k] < bound && v@[k] == want[k],
        decreases n - i,
    {
        assert(want[i as int] == src@[i as int].value());
        match src[i].to_usize() {
            Some(x) => {
                if x >= bound {
                    return None;
                }
                v.push(x);
            },
            None => {
                return None;
            },
        }
        i = i + 1;
    }
    Some(v)
}

/// Reads the first `n` entries of `src`, if they are the positions
/// `0, ..., n - 1` in some order.
pub(crate) fn read_permutation<I: ReturnCode>(src: &[I], n: usize) -> (r: Option<Vec<usize>>)
    requires
        n <= src@.len(),
    ensures
        r is Some <==> is_permutation(values(src@.take(n as int))),
        r matches Some(v) ==> positions(v@) == values(src@.take(n as int)),
{
    let ghost want = values(src@.take(n as int));
    let v = match read_positions(src, n, n) {
        Some(v) => v,
        None => {
            return None;
        },
    };
    let mut seen: Vec<bool> = Vec::new();
    let mut i: usize = 0;
    while i < n
        invariant
            i <= n,
            seen@.len() == i,
            forall|k: int| 0 <= k < i ==> !seen@[k],
        decreases n - i,
    {
        seen.push(false);
        i = i + 1;
    }
    let mut r: usize = 0;
    while r < n
        invariant
            n <= src@.len(),
            want == values(src@.take(n as int)),
            want.len() == n,
            positions(v@) == want,
            v@.len() == n,
            all_below(want, n as int),
            seen@.len() == n,
            r <= n,
            forall|x: int|
                0 <= x < n ==> (#[trigger] seen@[x] <==> exists|k: int|
                    0 <= k < r && want[k] == x),
            forall|a: int, b: int| 0 <= a < b < r ==> want[a] != want[b],
        decreases n - r,
    {
        let x = v[r];
        assert(want[r as int] == x);
        if seen[x] {
            return None;
        }
        seen[x] = true;
        r = r + 1;
    }
    Some(v)
}

} // verus!
