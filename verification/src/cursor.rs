use vstd::arithmetic::div_mod::{lemma_mod_self_0, lemma_small_mod};
use vstd::prelude::*;

verus! {

/// The index that follows `index` in a ring of `capacity` positions: one
/// further, or back to 0 once the end of the ring is reached.
pub open spec fn next_index(index: nat, capacity: nat) -> nat {
    if index + 1 >= capacity {
        0
    } else {
        index + 1
    }
}

/// For an index inside the ring, the next index is the successor modulo the
/// capacity, and it lies inside the ring again.
pub proof fn lemma_next_index_is_successor_mod(index: nat, capacity: nat)
    requires
        index < capacity,
    ensures
        next_index(index, capacity) == (index + 1) % capacity,
        next_index(index, capacity) < capacity,
{
    if index + 1 == capacity {
        lemma_mod_self_0(capacity as int);
    } else {
        lemma_small_mod(index + 1, capacity);
    }
}

/// Advances a cursor by one position, wrapping to 0 at `capacity`. An index
/// that is not inside the ring goes to 0 as well.
pub fn increment_index(index: u64, capacity: u64) -> (next: u64)
    ensures
        next == next_index(index as nat, capacity as nat),
        index < capacity ==> next == (index + 1) % (capacity as int),
        index < capacity ==> next < capacity,
{
    proof {
        if index < capacity {
            lemma_next_index_is_successor_mod(index as nat, capacity as nat);
        }
    }
    if index < capacity && index + 1 < capacity {
        index + 1
    } else {
        0
    }
}

} // verus!
