//! What a runtime decides for the pallet.

use crate::maths::Balance;
use crate::types::TargetPool;
use vstd::prelude::*;

verus! {

/// The types that a runtime provides.
pub trait Config {
    /// Identifies candidates and delegators.
    type AccountId;

    /// When a request to join was made.
    type JoiningInstant;

    /// When a request to leave was made.
    type LeavingInstant;
}

/// The values that a runtime provides.
#[derive(Debug, Clone, Copy, PartialEq, Eq)]
pub struct Settings {
    /// Value of each of the first manual rewards shares of a candidate. The supply can be
    /// arbitrary: a value too low makes a higher supply and more impactful rounding errors in the
    /// rewards, a value too high is a barrier of entry for staking.
    pub initial_manual_claim_share_value: Balance,
    /// Value of each of the first auto compounding shares of a candidate. A value too high is a
    /// barrier of entry for staking, which increases over time as shares gain value.
    pub initial_auto_compounding_share_value: Balance,
    /// Minimum amount of stake a candidate must delegate towards itself. Not reaching it prevents
    /// it from being elected.
    pub minimum_self_delegation: Balance,
    /// Part of the rewards that is sent exclusively to the collator, in parts per billion. What is
    /// above a billion counts as a billion.
    pub rewards_collator_commission: u32,
    /// How many eligible candidates are kept in the sorted list.
    pub eligible_candidates_buffer_size: u32,
}

impl Settings {
    /// Value of each of the first shares of `pool`.
    pub fn initial_share_value(&self, pool: TargetPool) -> (r: Balance)
        ensures
            r == (match pool {
                TargetPool::AutoCompounding => self.initial_auto_compounding_share_value,
                TargetPool::ManualRewards => self.initial_manual_claim_share_value,
            }),
    {
        match pool {
            TargetPool::AutoCompounding => self.initial_auto_compounding_share_value,
            TargetPool::ManualRewards => self.initial_manual_claim_share_value,
        }
    }

    /// The outcome of [`Settings::is_eligible`].
    pub open spec fn eligible(self, self_delegation: Balance, passes_filter: bool) -> bool {
        self_delegation >= self.minimum_self_delegation && passes_filter
    }

    /// Whether a candidate is eligible that delegates `self_delegation` towards itself and is or
    /// is not let through by the additional filter of the runtime.
    pub fn is_eligible(&self, self_delegation: Balance, passes_filter: bool) -> (r: bool)
        ensures
            r == self.eligible(self_delegation, passes_filter),
    {
        self_delegation >= self.minimum_self_delegation && passes_filter
    }
}

/// A candidate is eligible exactly where it delegates the minimum or more towards itself and the
/// filter lets it through.
pub proof fn law_eligibility(settings: Settings, self_delegation: Balance, passes_filter: bool)
    ensures
        !settings.eligible(self_delegation, false),
        self_delegation < settings.minimum_self_delegation ==> !settings.eligible(
            self_delegation,
            passes_filter,
        ),
        self_delegation >= settings.minimum_self_delegation ==> settings.eligible(
            self_delegation,
            true,
        ),
{
}

} // verus!
