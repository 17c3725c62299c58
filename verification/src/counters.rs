//! Counters that stay at their largest value.

use vstd::prelude::*;

verus! {

/// A counter that stays at its largest value.
pub open spec fn counted(counter: u64, increment: nat) -> u64 {
    if counter + increment > u64::MAX {
        u64::MAX
    } else {
        (counter + increment) as u64
    }
}

/// A counter grows by exactly what is counted and stops at its largest value;
/// it never falls.
pub proof fn lemma_counter_grows(counter: u64, first: nat, second: nat)
    ensures
        counter + first <= u64::MAX ==> counted(counter, first) == counter + first,
        counter + first > u64::MAX ==> counted(counter, first) == u64::MAX,
        counter <= counted(counter, first),
        counted(counted(counter, first), second) == counted(counter, first + second),
{
}

} // verus!
