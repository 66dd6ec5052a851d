//! The symbol frequency table of a text.

use vstd::prelude::*;
use crate::count::{count, lemma_count_bounds};
use crate::errors::ReturnCode;
use crate::index::{store, values};
use crate::rank::symbol_is;
use crate::suffix_array::positions;
use crate::symbol::{codes, within_alphabet, Symbol};

verus! {

/// `f` is the frequency table of `t`: entry `c` is the number of positions
/// of `t` that hold the symbol `c`.
pub open spec fn is_histogram(t: Seq<int>, f: Seq<int>) -> bool {
    forall|c: int| 0 <= c < f.len() ==> #[trigger] f[c] == count(t.len() as int, symbol_is(t, c))
}

/// Counts into `hist` how often each symbol of an alphabet of `sigma`
/// symbols occurs in `t`.
pub(crate) fn count_into<T: Symbol>(t: &[T], sigma: usize, hist: &mut Vec<usize>)
    requires
        within_alphabet(codes(t@), sigma as int),
    ensures
        final(hist)@.len() == sigma,
        is_histogram(codes(t@), positions(final(hist)@)),
{
    let n = t.len();
    let ghost tc = codes(t@);
    hist.clear();
    let mut c: usize = 0;
    while c < sigma
        invariant
            c <= sigma,
            hist@.len() == c,
            forall|x: int| 0 <= x < c ==> hist@[x] == 0,
        decreases sigma - c,
    {
        hist.push(0);
        c = c + 1;
    }
    let mut i: usize = 0;
    while i < n
        invariant
            n == t@.len(),
            tc == codes(t@),
            within_alphabet(tc, sigma as int),
            i <= n,
            hist@.len() == sigma,
            forall|x: int|
                0 <= x < sigma ==> #[trigger] hist@[x] == count(i as int, symbol_is(tc, x)),
        decreases n - i,
    {
        assert(tc[i as int] == t@[i as int].code());
        let k = t[i].key();
        proof {
            lemma_count_bounds(i as int, symbol_is(tc, k as int));
        }
        hist[k] = hist[k] + 1;
        i = i + 1;
    }
}

/// Counts how often each symbol of an alphabet of `sigma` symbols occurs in
/// `t`.
pub(crate) fn frequencies<T: Symbol>(t: &[T], sigma: usize) -> (hist: Vec<usize>)
    requires
        within_alphabet(codes(t@), sigma as int),
    ensures
        hist@.len() == sigma,
        is_histogram(codes(t@), positions(hist@)),
{
    let mut hist: Vec<usize> = Vec::new();
    count_into(t, sigma, &mut hist);
    hist
}

/// Two tables of one length are both the frequency table of a text only if
/// they are equal.
pub proof fn lemma_histogram_unique(t: Seq<int>, f: Seq<int>, g: Seq<int>)
    requires
        is_histogram(t, f),
        f.len() == g.len(),
    ensures
        is_histogram(t, g) <==> f == g,
{
    if is_histogram(t, g) {
        assert(f =~= g);
    }
}

/// Decides whether the table `f` holds the counts `hist`.
pub(crate) fn same_table<I: ReturnCode>(hist: &Vec<usize>, f: &[I]) -> (b: bool)
    requires
        hist@.len() == f@.len(),
    ensures
        b <==> values(f@) == positions(hist@),
{
    let n = hist.len();
    let mut c: usize = 0;
    while c < n
        invariant
            n == hist@.len(),
            n == f@.len(),
            c <= n,
            forall|x: int| 0 <= x < c ==> (#[trigger] f@[x]).value() == hist@[x],
        decreases n - c,
    {
        let same = match f[c].to_usize() {
            Some(x) => x == hist[c],
            None => false,
        };
        if !same {
            assert(values(f@)[c as int] != positions(hist@)[c as int]);
            return false;
        }
        c = c + 1;
    }
    assert(values(f@) =~= positions(hist@));
    true
}

/// Where a table is given, writes the frequency table of `t` into it, and
/// says whether the table, if any, has one entry for each of the `sigma`
/// symbols of the alphabet. A table of another size is left as it is.
pub(crate) fn tabulate<T: Symbol, I: ReturnCode>(
    t: &[T],
    freq: Option<&mut [I]>,
    sigma: usize,
) -> (ok: bool)
    requires
        within_alphabet(codes(t@), sigma as int),
        t@.len() <= I::limit(),
    ensures
        freq matches Some(f) ==> final(f)@.len() == f@.len(),
        ok <==> (freq matches Some(f) ==> f@.len() == sigma),
        !ok ==> (freq matches Some(f) ==> final(f)@ == f@),
        ok ==> (freq matches Some(f) ==> is_histogram(codes(t@), values(final(f)@))),
{
    match freq {
        Some(f) => {
            if f.len() != sigma {
                return false;
            }
            let hist = frequencies(t, sigma);
            proof {
                assert forall|c: int| 0 <= c < hist@.len() implies #[trigger] hist@[c]
                    <= I::limit() by {
                    assert(positions(hist@)[c] == hist@[c]);
                    lemma_count_bounds(t@.len() as int, symbol_is(codes(t@), c));
                }
            }
            store(f, &hist);
            assert(f@.take(sigma as int) =~= f@);
            true
        },
        None => true,
    }
}

} // verus!
