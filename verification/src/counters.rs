//! Byte counters that stop at their largest value instead of wrapping.

use vstd::prelude::*;

verus! {

/// A byte counter after `amount` more bytes: the sum, or the largest value
/// the counter can hold once the sum exceeds it.
pub open spec fn counted(counter: u64, amount: nat) -> u64 {
    if counter + amount > u64::MAX {
        u64::MAX
    } else {
        (counter + amount) as u64
    }
}

/// Adds `amount` bytes to a counter.
pub fn add_bytes(counter: u64, amount: usize) -> (sum: u64)
    ensures
        sum == counted(counter, amount as nat),
{
    counter.saturating_add(amount as u64)
}

} // verus!
