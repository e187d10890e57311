//! The mathematical model: what the distinct values of a sequence are, and
//! where a value first occurs.

use vstd::prelude::*;

verus! {

/// The least index at which `x` occurs in `s`, or `s.len()` if it does not
/// occur at all.
pub open spec fn first_index<T>(s: Seq<T>, x: T) -> int
    decreases s.len(),
{
    if s.len() == 0 {
        0
    } else if s.first() == x {
        0
    } else {
        1 + first_index(s.drop_first(), x)
    }
}

/// The distinct values of `s`, each once, in the order of their first
/// occurrence in `s`.
pub open spec fn first_occurrences<T>(s: Seq<T>) -> Seq<T>
    decreases s.len(),
{
    if s.len() == 0 {
        Seq::empty()
    } else {
        let before = first_occurrences(s.drop_last());
        if before.contains(s.last()) {
            before
        } else {
            before.push(s.last())
        }
    }
}

/// For each position of `s`, the index in `first_occurrences(s)` of the
/// element at that position.
pub open spec fn inverse_indices<T>(s: Seq<T>) -> Seq<int> {
    Seq::new(s.len(), |i: int| first_index(first_occurrences(s), s[i]))
}

/// Whether position `i` of `s` holds a value that no earlier position holds.
pub open spec fn is_first_occurrence<T>(s: Seq<T>, i: int) -> bool {
    &&& 0 <= i < s.len()
    &&& forall|j: int| 0 <= j < i ==> s[j] != s[i]
}

/// Whether `u` lists the values of `s`, each of them and no others, in the
/// order in which they first occur in `s`.
pub open spec fn lists_first_occurrences<T>(u: Seq<T>, s: Seq<T>) -> bool {
    &&& forall|k: int| 0 <= k < u.len() ==> s.contains(#[trigger] u[k])
    &&& forall|i: int| 0 <= i < s.len() ==> u.contains(#[trigger] s[i])
    &&& forall|a: int, b: int|
        0 <= a < b < u.len() ==> first_index(s, #[trigger] u[a]) < first_index(
            s,
            #[trigger] u[b],
        )
}

/// `first_index` is a valid index exactly when the value occurs, it points
/// at the value, and nothing before it holds the value.
pub proof fn lemma_first_index<T>(s: Seq<T>, x: T)
    ensures
        0 <= first_index(s, x) <= s.len(),
        first_index(s, x) < s.len() <==> s.contains(x),
        first_index(s, x) < s.len() ==> s[first_index(s, x)] == x,
        forall|j: int| 0 <= j < first_index(s, x) ==> s[j] != x,
    decreases s.len(),
{
    if s.len() == 0 {
    } else if s.first() == x {
        assert(s[0] == x);
    } else {
        let t = s.drop_first();
        lemma_first_index(t, x);
        let k = first_index(t, x);
        if k < t.len() {
            assert(s[k + 1] == t[k]);
        }
        if s.contains(x) {
            let w = choose|w: int| 0 <= w < s.len() && s[w] == x;
            assert(t[w - 1] == x);
        }
        assert forall|j: int| 0 <= j < 1 + k implies s[j] != x by {
            if j > 0 {
                assert(s[j] == t[j - 1]);
            }
        }
    }
}

/// An index that holds `x`, with no `x` before it, is the first index of `x`.
pub proof fn lemma_first_index_is<T>(s: Seq<T>, x: T, i: int)
    requires
        0 <= i < s.len(),
        s[i] == x,
        forall|j: int| 0 <= j < i ==> s[j] != x,
    ensures
        first_index(s, x) == i,
{
    lemma_first_index(s, x);
}

/// In a sequence without repeats, the index that holds a value is its
/// first index.
pub proof fn lemma_first_index_unique<T>(s: Seq<T>, x: T, i: int)
    requires
        s.no_duplicates(),
        0 <= i < s.len(),
        s[i] == x,
    ensures
        first_index(s, x) == i,
{
    lemma_first_index(s, x);
}

/// Taking one more element of `s` extends the distinct values of the prefix
/// by that element if it is new, and leaves them unchanged if it is not.
pub proof fn lemma_first_occurrences_step<T>(s: Seq<T>, i: int)
    requires
        0 <= i < s.len(),
    ensures
        first_occurrences(s.take(i + 1)) == if first_occurrences(s.take(i)).contains(s[i]) {
            first_occurrences(s.take(i))
        } else {
            first_occurrences(s.take(i)).push(s[i])
        },
{
    assert(s.take(i + 1).drop_last() =~= s.take(i));
    assert(s.take(i + 1).last() == s[i]);
}

/// The distinct values hold only values of the sequence and each value of
/// the sequence, none of them twice, and are no more than the sequence has
/// elements.
pub proof fn lemma_first_occurrences_content<T>(s: Seq<T>)
    ensures
        first_occurrences(s).no_duplicates(),
        first_occurrences(s).len() <= s.len(),
        forall|k: int|
            0 <= k < first_occurrences(s).len() ==> s.contains(#[trigger] first_occurrences(s)[k]),
        forall|i: int| 0 <= i < s.len() ==> first_occurrences(s).contains(#[trigger] s[i]),
    decreases s.len(),
{
    let u = first_occurrences(s);
    if s.len() > 0 {
        let t = s.drop_last();
        let before = first_occurrences(t);
        lemma_first_occurrences_content(t);
        assert forall|k: int| 0 <= k < u.len() implies s.contains(#[trigger] u[k]) by {
            if k < before.len() {
                assert(t.contains(before[k]));
                let w = t.index_of(before[k]);
                assert(s[w] == u[k]);
            } else {
                assert(s[s.len() - 1] == u[k]);
            }
        }
        assert forall|i: int| 0 <= i < s.len() implies u.contains(#[trigger] s[i]) by {
            if i < t.len() {
                assert(t[i] == s[i]);
                assert(before.contains(t[i]));
                let k = before.index_of(t[i]);
                assert(u[k] == s[i]);
            } else if before.contains(s.last()) {
            } else {
                assert(u[before.len() as int] == s[i]);
            }
        }
    }
}

/// The distinct values of a prefix are a prefix of the distinct values of
/// the whole sequence.
pub proof fn lemma_first_occurrences_prefix<T>(s: Seq<T>, i: int)
    requires
        0 <= i <= s.len(),
    ensures
        first_occurrences(s.take(i)).len() <= first_occurrences(s).len(),
        first_occurrences(s.take(i)) == first_occurrences(s).take(
            first_occurrences(s.take(i)).len() as int,
        ),
    decreases s.len(),
{
    if i == s.len() {
        assert(s.take(i) =~= s);
        assert(first_occurrences(s) =~= first_occurrences(s).take(
            first_occurrences(s).len() as int,
        ));
    } else {
        let t = s.drop_last();
        lemma_first_occurrences_prefix(t, i);
        assert(t.take(i) =~= s.take(i));
        let part = first_occurrences(s.take(i));
        assert(part =~= first_occurrences(s).take(part.len() as int));
    }
}

/// A sequence without repeats is its own sequence of distinct values.
pub proof fn lemma_first_occurrences_of_distinct<T>(s: Seq<T>)
    requires
        s.no_duplicates(),
    ensures
        first_occurrences(s) == s,
    decreases s.len(),
{
    if s.len() > 0 {
        let t = s.drop_last();
        lemma_first_occurrences_of_distinct(t);
        if t.contains(s.last()) {
            let w = t.index_of(s.last());
            assert(s[w] == s[s.len() - 1]);
        }
        assert(t.push(s.last()) =~= s);
    }
}

} // verus!
