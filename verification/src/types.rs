//! The vocabulary of the pallet: pools, amounts and pending operations.

use vstd::prelude::*;

verus! {

/// A pool that a delegator stakes in.
#[derive(Debug, Clone, Copy, PartialEq, Eq, Structural)]
pub enum TargetPool {
    AutoCompounding,
    ManualRewards,
}

/// Any of the pools of a candidate.
#[derive(Debug, Clone, Copy, PartialEq, Eq, Structural)]
pub enum AllTargetPool {
    Joining,
    AutoCompounding,
    ManualRewards,
    Leaving,
}

impl From<TargetPool> for AllTargetPool {
    fn from(value: TargetPool) -> (r: Self) {
        match value {
            TargetPool::AutoCompounding => AllTargetPool::AutoCompounding,
            TargetPool::ManualRewards => AllTargetPool::ManualRewards,
        }
    }
}

impl vstd::std_specs::convert::FromSpecImpl<TargetPool> for AllTargetPool {
    open spec fn obeys_from_spec() -> bool {
        true
    }

    open spec fn from_spec(value: TargetPool) -> Self {
        match value {
            TargetPool::AutoCompounding => AllTargetPool::AutoCompounding,
            TargetPool::ManualRewards => AllTargetPool::ManualRewards,
        }
    }
}

/// Lets calls be performed using either share amounts or stake. Stake is converted into the share
/// amount that is worth up to it, so that at most the given stake is moved.
#[derive(Debug, Clone, Copy, PartialEq, Eq)]
pub enum SharesOrStake<T> {
    Shares(T),
    Stake(T),
}

/// An amount of shares.
#[derive(Debug, Clone, Copy, PartialEq, Eq, Default)]
pub struct Shares<T>(pub T);

/// An amount of staked currency.
#[derive(Debug, Clone, Copy, PartialEq, Eq, Default)]
pub struct Stake<T>(pub T);

/// Second key of the pending operations; the first is the delegator who made the request. The
/// value is the amount of shares in the joining or leaving pool.
#[derive(Debug, Clone, Copy, PartialEq, Eq)]
pub enum PendingOperationKey<A, J, L> {
    /// Requested to join the auto compounding pool of a candidate.
    JoiningAutoCompounding { candidate: A, at: J },
    /// Requested to join the manual rewards pool of a candidate.
    JoiningManualRewards { candidate: A, at: J },
    /// Requested to leave a pool of a candidate.
    Leaving { candidate: A, at: L },
}

/// A pending operation and the delegator who requested it.
#[derive(Debug, Clone, Copy, PartialEq, Eq)]
pub struct PendingOperationQuery<A, J, L> {
    pub delegator: A,
    pub operation: PendingOperationKey<A, J, L>,
}

/// Every target pool is a pool of its own: two target pools are the same pool only if they are
/// equal, and neither is the joining or the leaving pool.
pub proof fn law_target_pools_are_distinct(first: TargetPool, second: TargetPool)
    ensures
        <AllTargetPool as vstd::std_specs::convert::FromSpec<TargetPool>>::from_spec(first)
            == <AllTargetPool as vstd::std_specs::convert::FromSpec<TargetPool>>::from_spec(second)
            ==> first == second,
        <AllTargetPool as vstd::std_specs::convert::FromSpec<TargetPool>>::from_spec(first)
            != AllTargetPool::Joining,
        <AllTargetPool as vstd::std_specs::convert::FromSpec<TargetPool>>::from_spec(first)
            != AllTargetPool::Leaving,
{
}

} // verus!
