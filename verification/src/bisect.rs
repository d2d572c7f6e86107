//! Bisection: finding where the answer of a test changes along a list.

use vstd::prelude::*;

verus! {

/// Whether the verdicts, once true, stay true.
pub open spec fn settled(verdicts: Seq<bool>) -> bool {
    forall|i: int, j: int| 0 <= i <= j < verdicts.len() && verdicts[i] ==> verdicts[j]
}

/// The place of the first item of `slice` that satisfies `predicate`, found by
/// bisection; the length of `slice` where the last item does not satisfy it.
///
/// The predicate is asked about no more items than it takes to halve the list
/// down to nothing, and it may answer as it likes. What is found is a place
/// where its answers change: it said yes to the item there, if there is one,
/// and no to the item before, if there is one. Where its answers are settled
/// along the list (see [`found_place_is_least`]) this is the first item to
/// which it says yes.
pub fn least_satisfying<T, P: Fn(&T) -> bool>(slice: &[T], predicate: P) -> (place: usize)
    requires
        forall|i: int| 0 <= i < slice@.len() ==> call_requires(predicate, (&#[trigger] slice@[i],)),
    ensures
        place <= slice@.len(),
        place < slice@.len() ==> call_ensures(predicate, (&slice@[place as int],), true),
        place > 0 ==> call_ensures(predicate, (&slice@[place - 1],), false),
{
    let mut low: usize = 0;
    let mut high: usize = slice.len();
    while low < high
        invariant
            low <= high <= slice@.len(),
            forall|i: int|
                0 <= i < slice@.len() ==> call_requires(predicate, (&#[trigger] slice@[i],)),
            high < slice@.len() ==> call_ensures(predicate, (&slice@[high as int],), true),
            low > 0 ==> call_ensures(predicate, (&slice@[low - 1],), false),
        decreases high - low,
    {
        let middle = low + (high - low) / 2;
        if predicate(&slice[middle]) {
            high = middle;
        } else {
            low = middle + 1;
        }
    }
    low
}

/// Where the verdicts are settled, a place at which they change from false to
/// true is the place of the first true one: every verdict before it is false
/// and every verdict from it on is true.
pub proof fn found_place_is_least(verdicts: Seq<bool>, place: int)
    requires
        settled(verdicts),
        0 <= place <= verdicts.len(),
        place < verdicts.len() ==> verdicts[place],
        place > 0 ==> !verdicts[place - 1],
    ensures
        forall|i: int| 0 <= i < place ==> !verdicts[i],
        forall|i: int| place <= i < verdicts.len() ==> verdicts[i],
{
    assert forall|i: int| 0 <= i < place implies !verdicts[i] by {
        if verdicts[i] {
            assert(verdicts[place - 1]);
        }
    }
}

} // verus!
