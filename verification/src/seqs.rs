//! Small facts about sequences that several modules share.

use vstd::prelude::*;

verus! {

/// The first position of `value` in `values`.
pub open spec fn first_index<T>(values: Seq<T>, value: T) -> Option<int>
    decreases values.len(),
{
    if values.len() == 0 {
        None
    } else if let Some(index) = first_index(values.drop_last(), value) {
        Some(index)
    } else if values.last() == value {
        Some(values.len() - 1)
    } else {
        None
    }
}

/// `first_index` gives the first position, and misses none.
pub proof fn lemma_first_index<T>(values: Seq<T>, value: T)
    ensures
        match first_index(values, value) {
            Some(index) => 0 <= index < values.len() && values[index] == value && forall|k: int|
                0 <= k < index ==> values[k] != value,
            None => !values.contains(value),
        },
    decreases values.len(),
{
    if values.len() > 0 {
        let init = values.drop_last();
        lemma_first_index(init, value);
        match first_index(init, value) {
            Some(index) => {
                assert(values[index] == init[index]);
                assert forall|k: int| 0 <= k < index implies values[k] != value by {
                    assert(init[k] != value);
                }
            },
            None => {
                assert forall|k: int| 0 <= k < init.len() implies values[k] != value by {
                    assert(init.contains(init[k]));
                }
            },
        }
    }
}

/// A position is the first one exactly when nothing before it has the value.
pub proof fn lemma_first_index_is<T>(values: Seq<T>, value: T, index: int)
    requires
        0 <= index < values.len(),
        values[index] == value,
        forall|k: int| 0 <= k < index ==> values[k] != value,
    ensures
        first_index(values, value) == Some(index),
{
    lemma_first_index(values, value);
    assert(values.contains(value));
}

} // verus!
