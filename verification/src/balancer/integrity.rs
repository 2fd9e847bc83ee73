//! How the admission semaphore is brought to the size of the fleet.
use vstd::prelude::*;

verus! {

/// What has to happen to the semaphore for it to account for exactly the
/// slots that the peers call for.
#[derive(Clone, Copy, Debug, PartialEq, Eq, Structural)]
pub enum Reconciliation {
    /// Nothing: the semaphore is as large as it should be.
    Balanced,
    /// The semaphore is short of this many permits; they are to be added.
    Add(usize),
    /// The semaphore has this many permits too many; they are to be
    /// drained.
    Drain(usize),
}

/// What has to happen to a semaphore that accounts for `total` permits and
/// should account for `target`.
pub open spec fn reconciliation_of(total: usize, target: usize) -> Reconciliation {
    if total < target {
        Reconciliation::Add((target - total) as usize)
    } else if total > target {
        Reconciliation::Drain((total - target) as usize)
    } else {
        Reconciliation::Balanced
    }
}

/// What has to happen to a semaphore that accounts for `total` permits and
/// should account for `target`.
pub fn reconciliation(total: usize, target: usize) -> (step: Reconciliation)
    ensures
        step == reconciliation_of(total, target),
{
    if total < target {
        Reconciliation::Add(target - total)
    } else if total > target {
        Reconciliation::Drain(total - target)
    } else {
        Reconciliation::Balanced
    }
}

/// What a drain leaves: the size of the semaphore, and what is left of the
/// surplus, after the semaphore has given up `forgotten` of the `surplus`
/// permits it was asked for.
pub fn drained(total: usize, surplus: usize, forgotten: usize) -> (left: (usize, usize))
    requires
        forgotten <= surplus <= total,
    ensures
        left.0 == total - forgotten,
        left.1 == surplus - forgotten,
{
    (total - forgotten, surplus - forgotten)
}

} // verus!
