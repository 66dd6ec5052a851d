//! Longest common prefixes of the suffixes that are neighbours in a suffix
//! array: in the order of the text (permuted), and in the order of the array.

use vstd::prelude::*;
use crate::count::is_permutation;
use crate::errors::{Error, ReturnCode};
use crate::index::{all_below, narrow, read_permutation, read_positions, values};
use crate::order::{
    common_prefix,
    lemma_suffix_common_step,
    lemma_suffix_lt_step,
    lemma_suffix_order,
    lex_lt,
    suffix,
    suffix_common,
    suffix_lt,
};
use crate::suffix_array::{
    inverse_of,
    is_suffix_array,
    lemma_inverse,
    lemma_steps_of_suffix_array,
    lemma_suffix_array_is_permutation,
    lemma_suffix_array_of_steps,
    positions,
    step_ascends,
};
use crate::symbol::{codes, natural, Symbol};

verus! {

/// `plcp` is the permuted prefix array of `t` under the order `sa`: the
/// entry at a position is the number of symbols that the suffix there shares
/// with the suffix listed before it, and zero for the suffix listed first.
pub open spec fn is_plcp(t: Seq<int>, sa: Seq<int>, plcp: Seq<int>) -> bool {
    &&& plcp.len() == t.len()
    &&& sa.len() == t.len()
    &&& forall|r: int|
        0 <= r < sa.len() ==> plcp[#[trigger] sa[r]] == if r == 0 {
            0
        } else {
            suffix_common(t, sa[r - 1], sa[r]) as int
        }
}

/// `lcp` is `plcp` in the order of `sa`: entry `r` is the entry of `plcp` at
/// the position `sa[r]`.
pub open spec fn is_lcp(plcp: Seq<int>, sa: Seq<int>, lcp: Seq<int>) -> bool {
    &&& lcp.len() == plcp.len()
    &&& sa.len() == plcp.len()
    &&& forall|r: int| 0 <= r < lcp.len() ==> #[trigger] lcp[r] == plcp[sa[r]]
}

/// The prefix array, made in two steps, holds at each place but the first
/// the number of symbols that the suffix listed there shares with the one
/// listed before it, and zero at the first place.
pub proof fn lemma_lcp_is_common_prefix(
    t: Seq<int>,
    sa: Seq<int>,
    plcp: Seq<int>,
    lcp: Seq<int>,
    i: int,
)
    requires
        is_plcp(t, sa, plcp),
        is_lcp(plcp, sa, lcp),
        0 <= i < t.len(),
    ensures
        i == 0 ==> lcp[i] == 0,
        i >= 1 ==> lcp[i] == common_prefix(suffix(t, sa[i - 1]), suffix(t, sa[i])),
{
}

/// Of three texts in ascending order, the two that are neighbours share at
/// least what the outer two share.
pub proof fn lemma_common_prefix_between(a: Seq<int>, b: Seq<int>, c: Seq<int>)
    requires
        a == b || lex_lt(a, b),
        lex_lt(b, c),
    ensures
        common_prefix(a, c) <= common_prefix(b, c),
    decreases a.len(),
{
    if common_prefix(a, c) > 0 && a != b {
        lemma_common_prefix_between(a.drop_first(), b.drop_first(), c.drop_first());
    }
}

/// Suffixes that share `l` symbols share these and what the suffixes `l`
/// positions on share.
pub proof fn lemma_common_skip(t: Seq<int>, i: int, j: int, l: nat)
    requires
        0 <= i <= t.len(),
        0 <= j <= t.len(),
        l <= suffix_common(t, i, j),
    ensures
        i + l <= t.len(),
        j + l <= t.len(),
        suffix_common(t, i, j) == l + suffix_common(t, i + l, j + l),
    decreases l,
{
    if l > 0 {
        lemma_suffix_common_step(t, i, j);
        lemma_common_skip(t, i + 1, j + 1, (l - 1) as nat);
    }
}

/// For each position, finds the place at which `order` lists it.
pub(crate) fn invert(order: &Vec<usize>) -> (pos: Vec<usize>)
    requires
        is_permutation(positions(order@)),
    ensures
        inverse_of(positions(order@), positions(pos@)),
{
    let n = order.len();
    let mut pos: Vec<usize> = Vec::new();
    let mut i: usize = 0;
    while i < n
        invariant
            i <= n,
            pos@.len() == i,
        decreases n - i,
    {
        pos.push(0);
        i = i + 1;
    }
    let ghost sq = positions(order@);
    let mut r: usize = 0;
    while r < n
        invariant
            n == order@.len(),
            pos@.len() == n,
            sq == positions(order@),
            is_permutation(sq),
            r <= n,
            forall|x: int| 0 <= x < r ==> pos@[#[trigger] sq[x]] == x,
        decreases n - r,
    {
        let ghost before = pos@;
        assert(sq[r as int] == order@[r as int]);
        assert(0 <= sq[r as int] < n);
        pos[order[r]] = r;
        proof {
            assert forall|x: int| 0 <= x < r + 1 implies pos@[#[trigger] sq[x]] == x by {
                if x < r {
                    assert(sq[x] != sq[r as int]);
                    assert(pos@[sq[x]] == before[sq[x]]);
                }
            }
        }
        r = r + 1;
    }
    proof {
        let pq = positions(pos@);
        assert forall|x: int| 0 <= x < sq.len() implies pq[#[trigger] sq[x]] == x by {
            assert(0 <= sq[x] < n);
        }
    }
    pos
}

/// Decides whether `order`, a list of all positions of `t`, is the suffix
/// array of `t`.
pub(crate) fn ascends<T: Symbol>(t: &[T], order: &Vec<usize>, pos: &Vec<usize>) -> (b: bool)
    requires
        natural(codes(t@)),
        order@.len() == t@.len(),
        is_permutation(positions(order@)),
        inverse_of(positions(order@), positions(pos@)),
    ensures
        b <==> is_suffix_array(codes(t@), positions(order@)),
{
    let n = t.len();
    let ghost tc = codes(t@);
    let ghost sq = positions(order@);
    let ghost pq = positions(pos@);
    if n < 2 {
        return true;
    }
    let mut r: usize = 0;
    while r < n - 1
        invariant
            n == t@.len(),
            n >= 2,
            tc == codes(t@),
            natural(tc),
            order@.len() == n,
            pos@.len() == n,
            sq == positions(order@),
            pq == positions(pos@),
            is_permutation(sq),
            inverse_of(sq, pq),
            r <= n - 1,
            forall|x: int| 0 <= x < r ==> step_ascends(tc, sq, pq, x),
        decreases n - r,
    {
        let a = order[r];
        let b = order[r + 1];
        assert(sq[r as int] == a && sq[r + 1] == b);
        assert(tc[a as int] == t@[a as int].code());
        assert(tc[b as int] == t@[b as int].code());
        let ka = t[a].key();
        let kb = t[b].key();
        let ok = if ka != kb {
            ka < kb
        } else if b + 1 >= n {
            false
        } else if a + 1 >= n {
            true
        } else {
            pos[a + 1] < pos[b + 1]
        };
        if !ok {
            proof {
                if is_suffix_array(tc, sq) {
                    lemma_steps_of_suffix_array(tc, sq, pq, r as int);
                }
            }
            return false;
        }
        r = r + 1;
    }
    proof {
        lemma_suffix_array_of_steps(tc, sq, pq);
    }
    true
}

/// The number of symbols that the suffix at `i` shares with the suffix
/// listed before it, and zero for the suffix listed first.
pub open spec fn shared_with_previous(t: Seq<int>, sa: Seq<int>, pos: Seq<int>, i: int) -> int {
    if pos[i] == 0 {
        0
    } else {
        suffix_common(t, sa[pos[i] - 1], i) as int
    }
}

/// From a position to the next, what a suffix shares with the one listed
/// before it shrinks by one symbol at most.
pub proof fn lemma_shared_shrinks_slowly(t: Seq<int>, sa: Seq<int>, pos: Seq<int>, i: int)
    requires
        is_suffix_array(t, sa),
        inverse_of(sa, pos),
        0 <= i,
        i + 1 < t.len(),
    ensures
        shared_with_previous(t, sa, pos, i + 1) >= shared_with_previous(t, sa, pos, i) - 1,
{
    let c = shared_with_previous(t, sa, pos, i);
    lemma_suffix_array_is_permutation(t, sa);
    if c >= 2 {
        lemma_inverse(sa, pos, i);
        let r = pos[i];
        let p = sa[r - 1];
        assert(0 <= sa[r - 1] < t.len());
        assert(suffix_lt(t, sa[r - 1], sa[r]));
        lemma_suffix_common_step(t, p, i);
        lemma_suffix_lt_step(t, p, i);
        lemma_suffix_common_step(t, p + 1, i + 1);
        // the suffix behind `p` comes before the suffix behind `i`, and is
        // not empty, as the two share a symbol
        lemma_inverse(sa, pos, i + 1);
        lemma_inverse(sa, pos, p + 1);
        let x = pos[p + 1];
        let y = pos[i + 1];
        lemma_suffix_order(t, p + 1, i + 1, i + 1);
        if y < x {
            assert(suffix_lt(t, sa[y], sa[x]));
        }
        assert(x < y);
        let q = sa[y - 1];
        assert(0 <= sa[y - 1] < t.len());
        assert(suffix_lt(t, sa[y - 1], sa[y]));
        if x < y - 1 {
            assert(suffix_lt(t, sa[x], sa[y - 1]));
        }
        lemma_common_prefix_between(suffix(t, p + 1), suffix(t, q), suffix(t, i + 1));
    }
}

/// Writes into `plcp` the permuted prefix array of `t` under its suffix
/// array, which the first entries of `sa` hold.
///
/// Fails, and writes nothing, if these entries are not the suffix array of
/// `t`.
pub(crate) fn permuted_lcp<T: Symbol, I: ReturnCode>(
    t: &[T],
    sa: &[I],
    plcp: &mut [I],
) -> (r: Result<(), Error<I>>)
    requires
        natural(codes(t@)),
        t@.len() == old(plcp)@.len(),
        t@.len() <= sa@.len(),
        t@.len() <= I::limit(),
    ensures
        final(plcp)@.len() == old(plcp)@.len(),
        r is Ok <==> is_suffix_array(codes(t@), values(sa@.take(t@.len() as int))),
        r matches Err(e) ==> e == Error::<I>::IllegalArguments && final(plcp)@ == old(plcp)@,
        r is Ok ==> is_plcp(codes(t@), values(sa@.take(t@.len() as int)), values(final(plcp)@)),
{
    let n = t.len();
    let ghost tc = codes(t@);
    let ghost given = values(sa@.take(n as int));
    let order = match read_permutation(sa, n) {
        Some(v) => v,
        None => {
            proof {
                if is_suffix_array(tc, given) {
                    lemma_suffix_array_is_permutation(tc, given);
                }
            }
            return Err(Error::IllegalArguments);
        },
    };
    let ghost sq = positions(order@);
    let pos = invert(&order);
    let ghost pq = positions(pos@);
    if !ascends(t, &order, &pos) {
        return Err(Error::IllegalArguments);
    }
    let mut l: usize = 0;
    let mut i: usize = 0;
    while i < n
        invariant
            n == t@.len(),
            tc == codes(t@),
            natural(tc),
            n <= I::limit(),
            plcp@.len() == n,
            order@.len() == n,
            pos@.len() == n,
            sq == positions(order@),
            pq == positions(pos@),
            is_suffix_array(tc, sq),
            is_permutation(sq),
            inverse_of(sq, pq),
            i <= n,
            i < n ==> l <= shared_with_previous(tc, sq, pq, i as int),
            forall|x: int|
                0 <= x < i ==> (#[trigger] plcp@[x]).value() == shared_with_previous(
                    tc,
                    sq,
                    pq,
                    x,
                ),
        decreases n - i,
    {
        proof {
            lemma_inverse(sq, pq, i as int);
        }
        let r = pos[i];
        if r == 0 {
            l = 0;
        } else {
            let j = order[r - 1];
            proof {
                lemma_common_skip(tc, j as int, i as int, l as nat);
            }
            loop
                invariant
                    n == t@.len(),
                    tc == codes(t@),
                    natural(tc),
                    i < n,
                    j < n,
                    i + l <= n,
                    j + l <= n,
                    suffix_common(tc, j as int, i as int) == l + suffix_common(tc, j + l, i + l),
                ensures
                    l as int == suffix_common(tc, j as int, i as int),
                    l <= n,
                decreases n - l,
            {
                proof {
                    lemma_suffix_common_step(tc, j + l, i + l);
                }
                if i + l >= n || j + l >= n {
                    break ;
                }
                if t[i + l].key() != t[j + l].key() {
                    break ;
                }
                l = l + 1;
            }
        }
        plcp[i] = narrow::<I>(l);
        proof {
            if i + 1 < n {
                lemma_shared_shrinks_slowly(tc, sq, pq, i as int);
            }
        }
        if l > 0 {
            l = l - 1;
        }
        i = i + 1;
    }
    Ok(())
}

/// Writes into `lcp` the entries of `plcp` in the order that the first
/// entries of `sa` give.
///
/// Fails, and writes nothing, if one of these entries of `sa` is not a
/// position of `plcp`.
pub(crate) fn ordered_lcp<I: ReturnCode>(plcp: &[I], sa: &[I], lcp: &mut [I]) -> (r: Result<
    (),
    Error<I>,
>)
    requires
        plcp@.len() == old(lcp)@.len(),
        plcp@.len() <= sa@.len(),
    ensures
        final(lcp)@.len() == old(lcp)@.len(),
        r is Ok <==> all_below(values(sa@.take(plcp@.len() as int)), plcp@.len() as int),
        r matches Err(e) ==> e == Error::<I>::IllegalArguments && final(lcp)@ == old(lcp)@,
        r is Ok ==> is_lcp(
            values(plcp@),
            values(sa@.take(plcp@.len() as int)),
            values(final(lcp)@),
        ),
{
    let n = plcp.len();
    let order = match read_positions(sa, n, n) {
        Some(v) => v,
        None => {
            return Err(Error::IllegalArguments);
        },
    };
    let ghost sq = positions(order@);
    assert(order@.len() == sq.len());
    let mut r: usize = 0;
    while r < n
        invariant
            n == plcp@.len(),
            lcp@.len() == n,
            order@.len() == n,
            sq == positions(order@),
            all_below(sq, n as int),
            r <= n,
            forall|x: int| 0 <= x < r ==> #[trigger] lcp@[x] == plcp@[sq[x]],
        decreases n - r,
    {
        let v = order[r];
        assert(sq[r as int] == v);
        lcp[r] = plcp[v];
        r = r + 1;
    }
    Ok(())
}

} // verus!
