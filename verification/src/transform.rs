//! The transform itself: one pass over the input with a hash map from value
//! to assigned index.

use crate::laws::{law_cardinality, law_first_occurrence, law_lists_first_occurrences};
use crate::model::{
    first_occurrences, inverse_indices, is_first_occurrence, lemma_first_index_unique,
    lemma_first_occurrences_content, lemma_first_occurrences_step, lists_first_occurrences,
};
use std::collections::HashMap;
use std::hash::Hash;
use vstd::prelude::*;
use vstd::std_specs::hash::obeys_key_model;

verus! {

/// What the transform asks of its element type: hashing and `==` agree with
/// equality of values, and a clone is equal to what it was cloned from.
pub open spec fn conforming<T: Clone>() -> bool {
    &&& obeys_key_model::<T>()
    &&& forall|a: T, b: T| #[trigger] vstd::pervasive::strictly_cloned(a, b) ==> a == b
}

/// The distinct values of a sequence in order of first occurrence, and for
/// each position of the sequence the index of its value among them.
#[derive(Debug, PartialEq)]
pub struct UniqueInverse<T> where T: PartialEq {
    pub uniques: Vec<T>,
    pub inverses: Vec<usize>,
}

/// Splits `input` into its distinct values, in the order in which they first
/// occur, and the indices that lead back from each position to its value.
///
/// The first three clauses say what the result is. The others spell out what
/// that means: no value is kept twice, the indices give the input back, the
/// values are listed by first occurrence, a value seen for the first time
/// gets the next free index, and the count of values is that of the input
/// exactly when nothing in the input repeats.
pub fn unique_inverse<T>(input: Vec<T>) -> (result: UniqueInverse<T>) where T: Eq + Hash + Clone
    requires
        conforming::<T>(),
    ensures
        result.uniques@ == first_occurrences(input@),
        result.inverses@.len() == input@.len(),
        forall|i: int|
            0 <= i < input@.len() ==> #[trigger] result.inverses@[i] as int == inverse_indices(
                input@,
            )[i],
        result.uniques@.no_duplicates(),
        forall|i: int|
            0 <= i < input@.len() ==> 0 <= #[trigger] result.inverses@[i] < result.uniques@.len()
                && result.uniques@[result.inverses@[i] as int] == input@[i],
        lists_first_occurrences(result.uniques@, input@),
        forall|i: int|
            is_first_occurrence(input@, i) ==> #[trigger] result.inverses@[i] as int
                == first_occurrences(input@.take(i)).len(),
        result.uniques@.len() <= input@.len(),
        result.uniques@.len() == input@.len() <==> input@.no_duplicates(),
{
    let ghost full = input@;
    let n = input.len();
    let mut lookup: HashMap<T, usize> = HashMap::with_capacity(n);
    let mut uniques: Vec<T> = Vec::new();
    let mut inverses: Vec<usize> = Vec::with_capacity(n);
    for item in it: input
        invariant
            it.seq() == full,
            conforming::<T>(),
            uniques@ == first_occurrences(full.take(it.index() as int)),
            inverses@.len() == it.index(),
            forall|k: int|
                0 <= k < it.index() ==> 0 <= #[trigger] inverses@[k] < uniques@.len()
                    && uniques@[inverses@[k] as int] == full[k],
            forall|k: int|
                0 <= k < uniques@.len() ==> lookup@.contains_key(#[trigger] uniques@[k]),
            forall|x: T|
                lookup@.contains_key(x) ==> 0 <= #[trigger] lookup@[x] < uniques@.len()
                    && uniques@[lookup@[x] as int] == x,
    {
        let ghost i = it.index() as int;
        proof {
            lemma_first_occurrences_step(full, i);
            lemma_first_occurrences_content(full.take(i));
            lemma_first_occurrences_content(full.take(i + 1));
        }
        let found = match lookup.get(&item) {
            Some(index) => Some(*index),
            None => None,
        };
        match found {
            Some(index) => {
                inverses.push(index);
            },
            None => {
                let index = uniques.len();
                let key = item.clone();
                assert(vstd::pervasive::strictly_cloned(item, key));
                lookup.insert(key, index);
                uniques.push(item);
                inverses.push(index);
            },
        }
    }
    proof {
        assert(full.take(full.len() as int) =~= full);
        lemma_first_occurrences_content(full);
        law_lists_first_occurrences(full);
        law_cardinality(full);
        assert forall|i: int| 0 <= i < full.len() implies #[trigger] inverses@[i] as int
            == inverse_indices(full)[i] by {
            lemma_first_index_unique(uniques@, full[i], inverses@[i] as int);
        }
        assert forall|i: int| is_first_occurrence(full, i) implies #[trigger] inverses@[i] as int
            == first_occurrences(full.take(i)).len() by {
            law_first_occurrence(full, i, i);
        }
    }
    UniqueInverse { uniques, inverses }
}

} // verus!
