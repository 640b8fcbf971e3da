//! What the pallet reports.

use crate::maths::Balance;
use crate::types::TargetPool;
use vstd::prelude::*;

verus! {

/// Events of the pallet, about accounts of type `A`.
#[derive(Debug, Clone, Copy, PartialEq, Eq)]
pub enum Event<A> {
    /// Stake of the candidate has changed, which may have modified its position in the eligible
    /// candidates list.
    UpdatedCandidatePosition {
        candidate: A,
        stake: Balance,
        self_delegation: Balance,
        before: Option<u32>,
        after: Option<u32>,
    },
    /// User requested to delegate towards a candidate.
    RequestedDelegate { candidate: A, delegator: A, pool: TargetPool, pending: Balance },
    /// Delegation request was executed. `staked` has been properly staked in `pool`, while the
    /// rounding when converting to shares has been `released`.
    ExecutedDelegate {
        candidate: A,
        delegator: A,
        pool: TargetPool,
        staked: Balance,
        released: Balance,
    },
    /// User requested to undelegate from a candidate. Stake was removed from a `pool` and is
    /// `pending` for the request to be executed. The rounding when converting to leaving shares
    /// has been `released` immediately.
    RequestedUndelegate {
        candidate: A,
        delegator: A,
        from: TargetPool,
        pending: Balance,
        released: Balance,
    },
    /// Undelegation request was executed.
    ExecutedUndelegate { candidate: A, delegator: A, released: Balance },
    /// Stake of the candidate increased.
    IncreasedStake { candidate: A, stake_diff: Balance },
    /// Stake of the candidate decreased.
    DecreasedStake { candidate: A, stake_diff: Balance },
    /// Delegator staked towards a candidate for auto compounding shares.
    StakedAutoCompounding { candidate: A, delegator: A, shares: Balance, stake: Balance },
    /// Delegator unstaked towards a candidate with auto compounding shares.
    UnstakedAutoCompounding { candidate: A, delegator: A, shares: Balance, stake: Balance },
    /// Delegator staked towards a candidate for manual rewards shares.
    StakedManualRewards { candidate: A, delegator: A, shares: Balance, stake: Balance },
    /// Delegator unstaked towards a candidate with manual rewards shares.
    UnstakedManualRewards { candidate: A, delegator: A, shares: Balance, stake: Balance },
    /// Collator has been rewarded.
    RewardedCollator {
        collator: A,
        auto_compounding_rewards: Balance,
        manual_claim_rewards: Balance,
    },
    /// Delegators have been rewarded.
    RewardedDelegators {
        collator: A,
        auto_compounding_rewards: Balance,
        manual_claim_rewards: Balance,
    },
    /// Rewards manually claimed.
    ClaimedManualRewards { candidate: A, delegator: A, rewards: Balance },
    /// Swapped between auto compounding and manual rewards shares.
    SwappedPool {
        candidate: A,
        delegator: A,
        source_pool: TargetPool,
        source_shares: Balance,
        source_stake: Balance,
        target_shares: Balance,
        target_stake: Balance,
        pending_leaving: Balance,
        released: Balance,
    },
}

} // verus!
