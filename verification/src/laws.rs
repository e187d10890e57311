//! What holds of the decomposition of every sequence, stated over the model
//! and proved from it.

use crate::model::{
    first_index, first_occurrences, inverse_indices, is_first_occurrence, lemma_first_index,
    lists_first_occurrences,
    lemma_first_index_is, lemma_first_index_unique, lemma_first_occurrences_content,
    lemma_first_occurrences_of_distinct, lemma_first_occurrences_prefix,
    lemma_first_occurrences_step,
};
use vstd::prelude::*;

verus! {

/// There is one index for each position of the sequence.
pub proof fn law_length<T>(s: Seq<T>)
    ensures
        inverse_indices(s).len() == s.len(),
{
}

/// Every index points into the distinct values, at the value that the
/// sequence holds at that position: the two parts give the sequence back.
pub proof fn law_reconstruction<T>(s: Seq<T>, i: int)
    requires
        0 <= i < s.len(),
    ensures
        0 <= inverse_indices(s)[i] < first_occurrences(s).len(),
        first_occurrences(s)[inverse_indices(s)[i]] == s[i],
{
    lemma_first_occurrences_content(s);
    lemma_first_index(first_occurrences(s), s[i]);
}

/// No value stands twice among the distinct values, and each of them occurs
/// in the sequence.
pub proof fn law_uniqueness<T>(s: Seq<T>)
    ensures
        first_occurrences(s).no_duplicates(),
        forall|k: int|
            0 <= k < first_occurrences(s).len() ==> s.contains(#[trigger] first_occurrences(s)[k]),
{
    lemma_first_occurrences_content(s);
}

/// The distinct values stand in the order in which they first occur in the
/// sequence.
pub proof fn law_ordered_by_first_occurrence<T>(s: Seq<T>, a: int, b: int)
    requires
        0 <= a < b < first_occurrences(s).len(),
    ensures
        0 <= first_index(s, first_occurrences(s)[a]) < first_index(s, first_occurrences(s)[b])
            < s.len(),
    decreases s.len(),
{
    let u = first_occurrences(s);
    lemma_first_occurrences_content(s);
    lemma_first_index(s, u[a]);
    lemma_first_index(s, u[b]);
    if s.len() > 0 {
        let t = s.drop_last();
        let before = first_occurrences(t);
        lemma_first_occurrences_content(t);
        lemma_first_index(t, u[a]);
        let pa = first_index(t, u[a]);
        assert(before[a] == u[a]);
        assert(t.contains(u[a]));
        assert(s[pa] == t[pa]);
        assert forall|j: int| 0 <= j < pa implies s[j] != u[a] by {
            assert(s[j] == t[j]);
        }
        lemma_first_index_is(s, u[a], pa);
        if b < before.len() {
            law_ordered_by_first_occurrence(t, a, b);
            lemma_first_index(t, u[b]);
            let pb = first_index(t, u[b]);
            assert(s[pb] == t[pb]);
            assert forall|j: int| 0 <= j < pb implies s[j] != u[b] by {
                assert(s[j] == t[j]);
            }
            lemma_first_index_is(s, u[b], pb);
        } else {
            assert(u[b] == s.last());
            assert(!before.contains(s.last()));
            if first_index(s, u[b]) < t.len() {
                let pb = first_index(s, u[b]);
                assert(t[pb] == s[pb]);
                assert(before.contains(t[pb]));
            }
        }
    }
}

/// A position that holds its value for the first time gets the number of
/// distinct values before it as its index, no smaller index of the distinct
/// values holds that value, and every later position with the same value
/// gets the same index.
pub proof fn law_first_occurrence<T>(s: Seq<T>, i: int, j: int)
    requires
        is_first_occurrence(s, i),
        i <= j < s.len(),
        s[j] == s[i],
    ensures
        inverse_indices(s)[i] == first_occurrences(s.take(i)).len(),
        inverse_indices(s)[j] == inverse_indices(s)[i],
        forall|k: int| 0 <= k < inverse_indices(s)[i] ==> first_occurrences(s)[k] != s[i],
{
    let u = first_occurrences(s);
    let seen = first_occurrences(s.take(i));
    let next = first_occurrences(s.take(i + 1));
    lemma_first_occurrences_content(s);
    lemma_first_occurrences_content(s.take(i));
    lemma_first_occurrences_step(s, i);
    lemma_first_occurrences_prefix(s, i + 1);
    if seen.contains(s[i]) {
        let k = seen.index_of(s[i]);
        assert(s.take(i).contains(seen[k]));
        let w = s.take(i).index_of(s[i]);
        assert(s[w] == s[i]);
    }
    assert(next == seen.push(s[i]));
    assert(next[seen.len() as int] == s[i]);
    assert(u[seen.len() as int] == s[i]);
    lemma_first_index_unique(u, s[i], seen.len() as int);
    lemma_first_index(u, s[i]);
}

/// Decomposing the distinct values of a sequence gives them back unchanged,
/// with the indices counting up from zero.
pub proof fn law_idempotence<T>(s: Seq<T>)
    ensures
        first_occurrences(first_occurrences(s)) == first_occurrences(s),
        inverse_indices(first_occurrences(s)) == Seq::new(
            first_occurrences(s).len(),
            |i: int| i,
        ),
{
    let u = first_occurrences(s);
    lemma_first_occurrences_content(s);
    lemma_first_occurrences_of_distinct(u);
    assert forall|i: int| 0 <= i < u.len() implies inverse_indices(u)[i] == i by {
        lemma_first_index_unique(u, u[i], i);
    }
    assert(inverse_indices(u) =~= Seq::new(u.len(), |i: int| i));
}

/// There are at most as many distinct values as the sequence has elements,
/// and exactly as many if and only if no element of the sequence repeats.
pub proof fn law_cardinality<T>(s: Seq<T>)
    ensures
        first_occurrences(s).len() <= s.len(),
        first_occurrences(s).len() == s.len() <==> s.no_duplicates(),
    decreases s.len(),
{
    lemma_first_occurrences_content(s);
    if s.no_duplicates() {
        lemma_first_occurrences_of_distinct(s);
    }
    if s.len() > 0 && first_occurrences(s).len() == s.len() {
        let t = s.drop_last();
        let before = first_occurrences(t);
        law_cardinality(t);
        lemma_first_occurrences_content(t);
        assert(!before.contains(s.last()));
        assert forall|i: int, j: int| 0 <= i < s.len() && 0 <= j < s.len() && i != j implies s[i]
            != s[j] by {
            if i < t.len() && j < t.len() {
                assert(t[i] == s[i] && t[j] == s[j]);
            } else if i < t.len() {
                assert(before.contains(t[i]));
            } else {
                assert(before.contains(t[j]));
            }
        }
    }
}

/// Two listings of the values of one sequence in order of first occurrence
/// agree on every index that both have.
proof fn lemma_listings_agree<T>(s: Seq<T>, u: Seq<T>, v: Seq<T>, k: int)
    requires
        lists_first_occurrences(u, s),
        lists_first_occurrences(v, s),
        0 <= k < u.len(),
        k < v.len(),
    ensures
        u[k] == v[k],
    decreases k,
{
    assert(s.contains(u[k]));
    assert(s.contains(v[k]));
    let pu = s.index_of(u[k]);
    let pv = s.index_of(v[k]);
    assert(v.contains(s[pu]));
    assert(u.contains(s[pv]));
    let m = v.index_of(u[k]);
    let w = u.index_of(v[k]);
    if m < k {
        lemma_listings_agree(s, u, v, m);
    }
    if w < k {
        lemma_listings_agree(s, u, v, w);
    }
}

/// The distinct values of a sequence are the one listing of its values in
/// order of first occurrence, and the indices are the one way to point from
/// each position at its value in that listing.
pub proof fn law_decomposition_is_unique<T>(s: Seq<T>, u: Seq<T>, inv: Seq<int>)
    requires
        lists_first_occurrences(u, s),
        inv.len() == s.len(),
        forall|i: int| 0 <= i < s.len() ==> 0 <= #[trigger] inv[i] < u.len() && u[inv[i]] == s[i],
    ensures
        u == first_occurrences(s),
        inv == inverse_indices(s),
{
    let v = first_occurrences(s);
    law_lists_first_occurrences(s);
    if u.len() < v.len() {
        let x = v[u.len() as int];
        assert(s.contains(x));
        let p = s.index_of(x);
        assert(u.contains(s[p]));
        let w = u.index_of(x);
        lemma_listings_agree(s, u, v, w);
    }
    if v.len() < u.len() {
        let x = u[v.len() as int];
        assert(s.contains(x));
        let p = s.index_of(x);
        assert(v.contains(s[p]));
        let w = v.index_of(x);
        lemma_listings_agree(s, u, v, w);
    }
    assert forall|k: int| 0 <= k < u.len() implies u[k] == v[k] by {
        lemma_listings_agree(s, u, v, k);
    }
    assert(u =~= v);
    assert forall|i: int| 0 <= i < s.len() implies inv[i] == inverse_indices(s)[i] by {
        lemma_first_index_unique(u, s[i], inv[i]);
    }
    assert(inv =~= inverse_indices(s));
}

/// The distinct values list the values of the sequence in order of first
/// occurrence.
pub proof fn law_lists_first_occurrences<T>(s: Seq<T>)
    ensures
        lists_first_occurrences(first_occurrences(s), s),
{
    let u = first_occurrences(s);
    lemma_first_occurrences_content(s);
    assert forall|a: int, b: int| 0 <= a < b < u.len() implies first_index(s, #[trigger] u[a])
        < first_index(s, #[trigger] u[b]) by {
        law_ordered_by_first_occurrence(s, a, b);
    }
}

} // verus!
