//! Ascending order of integer samples, and the order statistics taken from it.
use vstd::prelude::*;
use vstd::relations::{sorted_by, total_ordering};

verus! {

broadcast use vstd::seq_lib::group_to_multiset_ensures;

/// The order that samples are ranked by.
pub open spec fn at_most(left: i128, right: i128) -> bool {
    left <= right
}

/// `values` in ascending order.
pub open spec fn ascending(values: Seq<i128>) -> Seq<i128> {
    values.sort_by(|left: i128, right: i128| at_most(left, right))
}

proof fn lemma_at_most_total()
    ensures
        total_ordering(|left: i128, right: i128| at_most(left, right)),
{
}

/// A sorted rearrangement of `values` is their ascending order.
pub proof fn lemma_ascending_unique(values: Seq<i128>, sorted: Seq<i128>)
    requires
        sorted_by(sorted, |left: i128, right: i128| at_most(left, right)),
        sorted.to_multiset() == values.to_multiset(),
    ensures
        sorted == ascending(values),
{
    lemma_at_most_total();
    values.lemma_sort_by_ensures(|left: i128, right: i128| at_most(left, right));
    vstd::seq_lib::lemma_sorted_unique(
        sorted,
        ascending(values),
        |left: i128, right: i128| at_most(left, right),
    );
}

/// The ascending order of `values` has their length.
pub proof fn lemma_ascending_len(values: Seq<i128>)
    ensures
        ascending(values).len() == values.len(),
        ascending(values).to_multiset() == values.to_multiset(),
        sorted_by(ascending(values), |left: i128, right: i128| at_most(left, right)),
{
    lemma_at_most_total();
    values.lemma_sort_by_ensures(|left: i128, right: i128| at_most(left, right));
    assert(ascending(values).to_multiset().len() == values.to_multiset().len());
}

/// The ascending order of `values` never decreases.
pub proof fn lemma_ascending_ordered(values: Seq<i128>)
    ensures
        forall|i: int, j: int|
            0 <= i <= j < ascending(values).len() ==> ascending(values)[i] <= ascending(values)[j],
{
    lemma_ascending_len(values);
    let sorted = ascending(values);
    assert forall|i: int, j: int| 0 <= i <= j < sorted.len() implies sorted[i] <= sorted[j] by {
        if i < j {
            let ranked = |left: i128, right: i128| at_most(left, right);
            assert(ranked(sorted[i], sorted[j]));
        }
    }
}

/// `values` never decrease.
pub open spec fn nondecreasing(values: Seq<i128>) -> bool {
    forall|i: int, j: int| 0 <= i < j < values.len() ==> values[i] <= values[j]
}

/// Sorts `values` ascending, by insertion.
pub fn sort_ascending(values: &Vec<i128>) -> (sorted: Vec<i128>)
    ensures
        sorted@ == ascending(values@),
{
    let mut sorted: Vec<i128> = Vec::new();
    let mut index: usize = 0;
    while index < values.len()
        invariant
            index <= values@.len(),
            nondecreasing(sorted@),
            sorted@.to_multiset() == values@.take(index as int).to_multiset(),
        decreases values@.len() - index,
    {
        let value = values[index];
        let mut position: usize = 0;
        while position < sorted.len() && sorted[position] <= value
            invariant
                position <= sorted@.len(),
                forall|i: int| 0 <= i < position ==> sorted@[i] <= value,
            decreases sorted@.len() - position,
        {
            position = position + 1;
        }
        let ghost before = sorted@;
        assert(position == before.len() || value < before[position as int]);
        sorted.insert(position, value);
        proof {
            assert forall|i: int, j: int| 0 <= i < j < sorted@.len() implies sorted@[i]
                <= sorted@[j] by {
                if j < position {
                    assert(sorted@[i] == before[i] && sorted@[j] == before[j]);
                } else if j == position {
                    assert(sorted@[i] == before[i]);
                } else if i < position {
                    assert(sorted@[i] == before[i] && sorted@[j] == before[j - 1]);
                } else if i == position {
                    assert(sorted@[j] == before[j - 1]);
                    assert(before[position as int] <= before[j - 1]);
                } else {
                    assert(sorted@[i] == before[i - 1] && sorted@[j] == before[j - 1]);
                }
            }
            assert(values@.take(index + 1) =~= values@.take(index as int).push(value));
        }
        index = index + 1;
    }
    proof {
        assert(values@.take(values@.len() as int) =~= values@);
        assert(sorted_by(sorted@, |left: i128, right: i128| at_most(left, right)));
        lemma_ascending_unique(values@, sorted@);
    }
    sorted
}

/// The middle sample of `values`, the upper one of the two middles for an even count.
pub fn median_i128(values: &Vec<i128>) -> (median: i128)
    requires
        values@.len() > 0,
    ensures
        median == ascending(values@)[(values@.len() / 2) as int],
{
    let sorted = sort_ascending(values);
    proof {
        lemma_ascending_len(values@);
    }
    sorted[values.len() / 2]
}

} // verus!
