//! Lexicographic order on texts, and the order it gives to the suffixes of
//! one text.

use vstd::prelude::*;

verus! {

/// `a` comes before `b` in lexicographic order: at the first position where
/// they differ `a` has the smaller symbol, or `a` ends there and `b` does not.
pub open spec fn lex_lt(a: Seq<int>, b: Seq<int>) -> bool
    decreases a.len(),
{
    if b.len() == 0 {
        false
    } else if a.len() == 0 {
        true
    } else if a[0] != b[0] {
        a[0] < b[0]
    } else {
        lex_lt(a.drop_first(), b.drop_first())
    }
}

/// The number of symbols at the start of `a` and `b` that agree.
pub open spec fn common_prefix(a: Seq<int>, b: Seq<int>) -> nat
    decreases a.len(),
{
    if a.len() == 0 || b.len() == 0 || a[0] != b[0] {
        0
    } else {
        1 + common_prefix(a.drop_first(), b.drop_first())
    }
}

/// The suffix of `t` that starts at position `i`; the one at `t.len()` is
/// empty.
pub open spec fn suffix(t: Seq<int>, i: int) -> Seq<int> {
    t.skip(i)
}

/// The suffix at `i` comes before the suffix at `j`.
pub open spec fn suffix_lt(t: Seq<int>, i: int, j: int) -> bool {
    lex_lt(suffix(t, i), suffix(t, j))
}

/// The number of symbols that the suffixes at `i` and `j` share at their
/// start.
pub open spec fn suffix_common(t: Seq<int>, i: int, j: int) -> nat {
    common_prefix(suffix(t, i), suffix(t, j))
}

/// No text comes before itself.
pub proof fn lemma_lex_irreflexive(a: Seq<int>)
    ensures
        !lex_lt(a, a),
    decreases a.len(),
{
    if a.len() > 0 {
        lemma_lex_irreflexive(a.drop_first());
    }
}

/// Of two texts at most one comes before the other.
pub proof fn lemma_lex_asymmetric(a: Seq<int>, b: Seq<int>)
    requires
        lex_lt(a, b),
    ensures
        !lex_lt(b, a),
    decreases a.len(),
{
    if a.len() > 0 && b.len() > 0 && a[0] == b[0] {
        lemma_lex_asymmetric(a.drop_first(), b.drop_first());
    }
}

/// What comes before something that comes before `c` comes before `c`.
pub proof fn lemma_lex_transitive(a: Seq<int>, b: Seq<int>, c: Seq<int>)
    requires
        lex_lt(a, b),
        lex_lt(b, c),
    ensures
        lex_lt(a, c),
    decreases a.len(),
{
    if a.len() > 0 && a[0] == b[0] && b[0] == c[0] {
        lemma_lex_transitive(a.drop_first(), b.drop_first(), c.drop_first());
    }
}

/// Of two texts of different lengths one comes before the other.
pub proof fn lemma_lex_total(a: Seq<int>, b: Seq<int>)
    requires
        a.len() != b.len(),
    ensures
        lex_lt(a, b) || lex_lt(b, a),
    decreases a.len(),
{
    if a.len() > 0 && b.len() > 0 && a[0] == b[0] {
        lemma_lex_total(a.drop_first(), b.drop_first());
    }
}

/// The order of two suffixes is decided by their first symbols, or else by
/// the suffixes one position on.
pub proof fn lemma_suffix_lt_step(t: Seq<int>, i: int, j: int)
    requires
        0 <= i <= t.len(),
        0 <= j <= t.len(),
    ensures
        suffix_lt(t, i, j) <==> j < t.len() && (i == t.len() || t[i] < t[j] || (t[i] == t[j]
            && suffix_lt(t, i + 1, j + 1))),
{
    if i < t.len() && j < t.len() {
        assert(suffix(t, i).drop_first() =~= suffix(t, i + 1));
        assert(suffix(t, j).drop_first() =~= suffix(t, j + 1));
    }
}

/// Two suffixes share their first symbol and what the suffixes one position
/// on share, or nothing.
pub proof fn lemma_suffix_common_step(t: Seq<int>, i: int, j: int)
    requires
        0 <= i <= t.len(),
        0 <= j <= t.len(),
    ensures
        suffix_common(t, i, j) == if i < t.len() && j < t.len() && t[i] == t[j] {
            1 + suffix_common(t, i + 1, j + 1)
        } else {
            0
        },
{
    if i < t.len() && j < t.len() {
        assert(suffix(t, i).drop_first() =~= suffix(t, i + 1));
        assert(suffix(t, j).drop_first() =~= suffix(t, j + 1));
    }
}

/// The suffixes of one text are strictly and totally ordered.
pub proof fn lemma_suffix_order(t: Seq<int>, i: int, j: int, k: int)
    requires
        0 <= i <= t.len(),
        0 <= j <= t.len(),
        0 <= k <= t.len(),
    ensures
        !suffix_lt(t, i, i),
        suffix_lt(t, i, j) ==> !suffix_lt(t, j, i),
        i != j ==> suffix_lt(t, i, j) || suffix_lt(t, j, i),
        suffix_lt(t, i, j) && suffix_lt(t, j, k) ==> suffix_lt(t, i, k),
{
    lemma_lex_irreflexive(suffix(t, i));
    if suffix_lt(t, i, j) {
        lemma_lex_asymmetric(suffix(t, i), suffix(t, j));
        if suffix_lt(t, j, k) {
            lemma_lex_transitive(suffix(t, i), suffix(t, j), suffix(t, k));
        }
    }
    if i != j {
        lemma_lex_total(suffix(t, i), suffix(t, j));
    }
}

/// The shared start of two texts is a start of both, and ends where one of
/// them ends or where they differ; and it is the only such length.
pub proof fn lemma_common_prefix_is_longest(a: Seq<int>, b: Seq<int>, k: int)
    ensures
        common_prefix(a, b) <= a.len(),
        common_prefix(a, b) <= b.len(),
        forall|i: int| 0 <= i < common_prefix(a, b) ==> a[i] == b[i],
        common_prefix(a, b) < a.len() && common_prefix(a, b) < b.len() ==> a[common_prefix(
            a,
            b,
        ) as int] != b[common_prefix(a, b) as int],
        (0 <= k <= a.len() && k <= b.len() && (forall|i: int| 0 <= i < k ==> a[i] == b[i]) && (k
            < a.len() && k < b.len() ==> a[k] != b[k])) ==> k == common_prefix(a, b),
    decreases a.len(),
{
    if a.len() > 0 && b.len() > 0 && a[0] == b[0] {
        let a1 = a.drop_first();
        let b1 = b.drop_first();
        lemma_common_prefix_is_longest(a1, b1, k - 1);
        let c = common_prefix(a, b) as int;
        assert forall|i: int| 0 <= i < c implies a[i] == b[i] by {
            if i > 0 {
                assert(a1[i - 1] == b1[i - 1]);
            }
        }
    }
}

} // verus!
