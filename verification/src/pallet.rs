//! The calls of the pallet.
//!
//! A call decides who acts and on what. The outcome is an [`Action`] for the runtime, which owns
//! the storage and the currency, to perform.

use crate::config::Config;
use crate::error::Error;
use crate::maths::Balance;
use crate::origin::{NotSigned, Origin};
use crate::pools::{
    keys_of, law_held_stake_is_the_part_of_the_backing, law_owned_shares_have_a_stake,
    law_rewards_are_shared_by_increasing_the_backing, law_supply_is_worth_the_backing, pool_keys,
    PoolsKey, SharePool,
};
use crate::types::{
    AllTargetPool, PendingOperationKey, PendingOperationQuery, Shares, SharesOrStake, Stake,
    TargetPool,
};
use core::marker::PhantomData;
use vstd::prelude::*;

verus! {

/// An account that delegators stake towards.
pub type Candidate<T> = <T as Config>::AccountId;

/// An account that stakes towards candidates.
pub type Delegator<T> = <T as Config>::AccountId;

/// A pending operation of a runtime.
pub type PendingOperationKeyOf<T> = PendingOperationKey<
    <T as Config>::AccountId,
    <T as Config>::JoiningInstant,
    <T as Config>::LeavingInstant,
>;

/// A pending operation of a runtime and the delegator who requested it.
pub type PendingOperationQueryOf<T> = PendingOperationQuery<
    <T as Config>::AccountId,
    <T as Config>::JoiningInstant,
    <T as Config>::LeavingInstant,
>;

/// What the runtime has to perform.
#[derive(Debug, Clone, PartialEq, Eq)]
pub enum Action<A, J, L> {
    /// Make the hold of `delegator` match its stake in `pool`.
    RebalanceHold { candidate: A, delegator: A, pool: AllTargetPool },
    /// Put `stake` of `delegator` in the joining pool, on its way to `pool`.
    RequestDelegate { candidate: A, delegator: A, pool: TargetPool, stake: Balance },
    /// Execute requests whose time has come.
    ExecutePendingOperations { operations: Vec<PendingOperationQuery<A, J, L>> },
    /// Move `amount` of `delegator` from `pool` to the leaving pool.
    RequestUndelegate {
        candidate: A,
        delegator: A,
        pool: TargetPool,
        amount: SharesOrStake<Balance>,
    },
    /// Pay out the manual rewards of each pair of candidate and delegator.
    ClaimManualRewards { pairs: Vec<(A, A)> },
    /// Update the position of each candidate in the eligible candidates list.
    UpdateCandidatePosition { candidates: Vec<A> },
    /// Move `amount` of `delegator` from `source_pool` to the other target pool.
    SwapPool {
        candidate: A,
        delegator: A,
        source_pool: TargetPool,
        amount: SharesOrStake<Balance>,
    },
    /// Give out `rewards` to `candidate` and its delegators. [`Pallet::compound_rewards`] tells what
    /// the part of the auto compounding pool changes.
    DistributeRewards { candidate: A, rewards: Balance },
}

/// An action of a runtime.
pub type ActionOf<T> = Action<
    <T as Config>::AccountId,
    <T as Config>::JoiningInstant,
    <T as Config>::LeavingInstant,
>;

/// The pooled staking pallet of a runtime.
#[derive(Debug)]
pub struct Pallet<T>(PhantomData<T>);

impl<T: Config> Pallet<T> {
    /// Rebalances the hold of any delegator. Who signs does not matter, but somebody must.
    pub fn rebalance_hold(
        origin: Origin<T::AccountId>,
        candidate: Candidate<T>,
        delegator: Delegator<T>,
        pool: AllTargetPool,
    ) -> (r: Result<ActionOf<T>, NotSigned>)
        ensures
            r == (match origin.signed_by() {
                Ok(_) => Ok::<ActionOf<T>, NotSigned>(
                    Action::RebalanceHold { candidate, delegator, pool },
                ),
                Err(error) => Err::<ActionOf<T>, NotSigned>(error),
            }),
    {
        match origin.signer() {
            Ok(_) => Ok(Action::RebalanceHold { candidate, delegator, pool }),
            Err(error) => Err(error),
        }
    }

    /// Requests to stake `stake` of the account that signs towards `candidate`.
    pub fn request_delegate(
        origin: Origin<T::AccountId>,
        candidate: Candidate<T>,
        pool: TargetPool,
        stake: Balance,
    ) -> (r: Result<ActionOf<T>, NotSigned>)
        ensures
            r == (match origin.signed_by() {
                Ok(delegator) => Ok::<ActionOf<T>, NotSigned>(
                    Action::RequestDelegate { candidate, delegator, pool, stake },
                ),
                Err(error) => Err::<ActionOf<T>, NotSigned>(error),
            }),
    {
        match origin.signer() {
            Ok(delegator) => Ok(Action::RequestDelegate { candidate, delegator, pool, stake }),
            Err(error) => Err(error),
        }
    }

    /// Executes requests of any delegators. Who signs does not matter, but somebody must.
    pub fn execute_pending_operations(
        origin: Origin<T::AccountId>,
        operations: Vec<PendingOperationQueryOf<T>>,
    ) -> (r: Result<ActionOf<T>, NotSigned>)
        ensures
            r == (match origin.signed_by() {
                Ok(_) => Ok::<ActionOf<T>, NotSigned>(
                    Action::ExecutePendingOperations { operations },
                ),
                Err(error) => Err::<ActionOf<T>, NotSigned>(error),
            }),
    {
        match origin.signer() {
            Ok(_) => Ok(Action::ExecutePendingOperations { operations }),
            Err(error) => Err(error),
        }
    }

    /// Requests to take `amount` of the account that signs out of `pool` of `candidate`.
    pub fn request_undelegate(
        origin: Origin<T::AccountId>,
        candidate: Candidate<T>,
        pool: TargetPool,
        amount: SharesOrStake<Balance>,
    ) -> (r: Result<ActionOf<T>, NotSigned>)
        ensures
            r == (match origin.signed_by() {
                Ok(delegator) => Ok::<ActionOf<T>, NotSigned>(
                    Action::RequestUndelegate { candidate, delegator, pool, amount },
                ),
                Err(error) => Err::<ActionOf<T>, NotSigned>(error),
            }),
    {
        match origin.signer() {
            Ok(delegator) => Ok(Action::RequestUndelegate { candidate, delegator, pool, amount }),
            Err(error) => Err(error),
        }
    }

    /// Claims the manual rewards of any delegators. Who signs does not matter, but somebody must.
    pub fn claim_manual_rewards(
        origin: Origin<T::AccountId>,
        pairs: Vec<(Candidate<T>, Delegator<T>)>,
    ) -> (r: Result<ActionOf<T>, NotSigned>)
        ensures
            r == (match origin.signed_by() {
                Ok(_) => Ok::<ActionOf<T>, NotSigned>(
                    Action::ClaimManualRewards { pairs },
                ),
                Err(error) => Err::<ActionOf<T>, NotSigned>(error),
            }),
    {
        match origin.signer() {
            Ok(_) => Ok(Action::ClaimManualRewards { pairs }),
            Err(error) => Err(error),
        }
    }

    /// Updates the position of any candidates. Who signs does not matter, but somebody must.
    pub fn update_candidate_position(
        origin: Origin<T::AccountId>,
        candidates: Vec<Candidate<T>>,
    ) -> (r: Result<ActionOf<T>, NotSigned>)
        ensures
            r == (match origin.signed_by() {
                Ok(_) => Ok::<ActionOf<T>, NotSigned>(
                    Action::UpdateCandidatePosition { candidates },
                ),
                Err(error) => Err::<ActionOf<T>, NotSigned>(error),
            }),
    {
        match origin.signer() {
            Ok(_) => Ok(Action::UpdateCandidatePosition { candidates }),
            Err(error) => Err(error),
        }
    }

    /// Moves `amount` of the account that signs from `source_pool` of `candidate` to its other
    /// target pool.
    pub fn swap_pool(
        origin: Origin<T::AccountId>,
        candidate: Candidate<T>,
        source_pool: TargetPool,
        amount: SharesOrStake<Balance>,
    ) -> (r: Result<ActionOf<T>, NotSigned>)
        ensures
            r == (match origin.signed_by() {
                Ok(delegator) => Ok::<ActionOf<T>, NotSigned>(
                    Action::SwapPool { candidate, delegator, source_pool, amount },
                ),
                Err(error) => Err::<ActionOf<T>, NotSigned>(error),
            }),
    {
        match origin.signer() {
            Ok(delegator) => Ok(Action::SwapPool { candidate, delegator, source_pool, amount }),
            Err(error) => Err(error),
        }
    }

    /// Gives out `rewards` that the runtime collected for `candidate`. No origin is asked for.
    pub fn distribute_rewards(candidate: Candidate<T>, rewards: Balance) -> (r: ActionOf<T>)
        ensures
            r == (ActionOf::<T>::DistributeRewards { candidate, rewards }),
    {
        Action::DistributeRewards { candidate, rewards }
    }

    /// The stake of `delegator` in `pool` of `candidate`, or `None` where it has shares that give
    /// no price. The balances are read from the storage by `read`, which takes the candidate and
    /// the key of the balance.
    pub fn computed_stake<R: Fn(&Candidate<T>, &PoolsKey<Delegator<T>>) -> Balance>(
        read: R,
        candidate: Candidate<T>,
        delegator: Delegator<T>,
        pool: AllTargetPool,
    ) -> (r: Option<Balance>)
        requires
            forall|candidate: &Candidate<T>, key: &PoolsKey<Delegator<T>>|
                #[trigger] call_requires(read, (candidate, key)),
        ensures
            exists|shares: Balance, supply: Balance, total_staked: Balance|
                {
                    &&& #[trigger] call_ensures(
                        read,
                        (&candidate, &keys_of(pool, delegator).shares),
                        shares,
                    )
                    &&& #[trigger] call_ensures(
                        read,
                        (&candidate, &keys_of(pool, delegator).supply),
                        supply,
                    )
                    &&& #[trigger] call_ensures(
                        read,
                        (&candidate, &keys_of(pool, delegator).total_staked),
                        total_staked,
                    )
                    &&& r == stake_amount(
                        SharePool { supply: Shares(supply), total_staked: Stake(total_staked) },
                        Shares(shares),
                    )
                },
            forall|storage: spec_fn(Candidate<T>, PoolsKey<Delegator<T>>) -> Balance|
                #[trigger] reads(read, storage) ==> r == stake_in(
                    storage,
                    candidate,
                    delegator,
                    pool,
                ),
    {
        let keys = pool_keys(pool, delegator);
        let shares: Balance = read(&candidate, &keys.shares);
        let supply: Balance = read(&candidate, &keys.supply);
        let total_staked: Balance = read(&candidate, &keys.total_staked);
        let pool = SharePool { supply: Shares(supply), total_staked: Stake(total_staked) };
        match pool.computed_stake(Shares(shares)) {
            Ok(stake) => Some(stake.0),
            Err(_) => None,
        }
    }

    /// Gives out `reward` to the auto compounding pool of `candidate`: what has to be stored so
    /// that it backs the shares of that pool.
    pub fn compound_rewards<R: Fn(&Candidate<T>, &PoolsKey<Delegator<T>>) -> Balance>(
        read: R,
        candidate: &Candidate<T>,
        reward: Balance,
    ) -> (r: Result<PoolsWrite<Delegator<T>>, Error>)
        requires
            forall|candidate: &Candidate<T>, key: &PoolsKey<Delegator<T>>|
                #[trigger] call_requires(read, (candidate, key)),
        ensures
            exists|total_staked: Balance|
                {
                    &&& #[trigger] call_ensures(
                        read,
                        (candidate, &PoolsKey::AutoCompoundingSharesTotalStaked),
                        total_staked,
                    )
                    &&& r == compounding::<Delegator<T>>(total_staked, reward)
                },
            forall|storage: spec_fn(Candidate<T>, PoolsKey<Delegator<T>>) -> Balance|
                #[trigger] reads(read, storage) ==> r == compounding_in(
                    storage,
                    *candidate,
                    reward,
                ),
    {
        let key: PoolsKey<Delegator<T>> = PoolsKey::AutoCompoundingSharesTotalStaked;
        let supply: Balance = read(candidate, &PoolsKey::AutoCompoundingSharesSupply);
        let total_staked: Balance = read(candidate, &key);
        let mut pool = SharePool { supply: Shares(supply), total_staked: Stake(total_staked) };
        match pool.reward(reward) {
            Ok(_) => Ok(PoolsWrite { key, balance: pool.total_staked.0 }),
            Err(error) => Err(error),
        }
    }
}

/// The stake of who owns `shares` of `pool`, without the reason why there is none.
pub open spec fn stake_amount(pool: SharePool, shares: Shares<Balance>) -> Option<Balance> {
    match pool.stake_held(shares) {
        Ok(stake) => Some(stake.0),
        Err(_) => None,
    }
}

/// `read` gives what is in `storage`.
pub open spec fn reads<A, R: Fn(&A, &PoolsKey<A>) -> Balance>(
    read: R,
    storage: spec_fn(A, PoolsKey<A>) -> Balance,
) -> bool {
    forall|candidate: &A, key: &PoolsKey<A>, balance: Balance|
        #[trigger] call_ensures(read, (candidate, key), balance) ==> balance == storage(
            *candidate,
            *key,
        )
}

/// The stake that `delegator` has in `pool` of `candidate` by the balances in `storage`.
pub open spec fn stake_in<A>(
    storage: spec_fn(A, PoolsKey<A>) -> Balance,
    candidate: A,
    delegator: A,
    pool: AllTargetPool,
) -> Option<Balance> {
    let keys = keys_of(pool, delegator);
    stake_amount(
        SharePool {
            supply: Shares(storage(candidate, keys.supply)),
            total_staked: Stake(storage(candidate, keys.total_staked)),
        },
        Shares(storage(candidate, keys.shares)),
    )
}

/// A balance of a candidate that has to be stored.
#[derive(Debug, Clone, Copy, PartialEq, Eq)]
pub struct PoolsWrite<A> {
    pub key: PoolsKey<A>,
    pub balance: Balance,
}

/// The storage once `write` was stored for `candidate`.
pub open spec fn written<A>(
    storage: spec_fn(A, PoolsKey<A>) -> Balance,
    candidate: A,
    write: PoolsWrite<A>,
) -> spec_fn(A, PoolsKey<A>) -> Balance {
    |other: A, key: PoolsKey<A>|
        if other == candidate && key == write.key {
            write.balance
        } else {
            storage(other, key)
        }
}

/// What giving out `reward` to an auto compounding pool that is backed by `total_staked` stores.
pub open spec fn compounding<A>(total_staked: Balance, reward: Balance) -> Result<
    PoolsWrite<A>,
    Error,
> {
    if total_staked + reward > Balance::MAX {
        Err(Error::MathOverflow)
    } else {
        Ok(
            PoolsWrite {
                key: PoolsKey::AutoCompoundingSharesTotalStaked,
                balance: (total_staked + reward) as Balance,
            },
        )
    }
}

/// The outcome of [`Pallet::compound_rewards`] by the balances in `storage`.
pub open spec fn compounding_in<A>(
    storage: spec_fn(A, PoolsKey<A>) -> Balance,
    candidate: A,
    reward: Balance,
) -> Result<PoolsWrite<A>, Error> {
    compounding(storage(candidate, PoolsKey::AutoCompoundingSharesTotalStaked), reward)
}

/// A reward that is added to the backing of a pool lowers nobody's stake, and who owns no more
/// shares than there are has a stake before and after.
pub proof fn law_rewards_do_not_lower_a_stake(
    pool: SharePool,
    reward: nat,
    shares: Shares<Balance>,
)
    requires
        pool.total_staked.0 + reward <= Balance::MAX,
    ensures
        stake_amount(pool, shares) matches Some(before) ==> (stake_amount(
            pool.rewarded(reward),
            shares,
        ) matches Some(after) ==> after >= before),
        shares.0 <= pool.supply.0 ==> stake_amount(pool, shares) is Some && stake_amount(
            pool.rewarded(reward),
            shares,
        ) is Some,
{
    if pool.supply.0 > 0 {
        law_rewards_are_shared_by_increasing_the_backing(pool, reward, shares.0 as nat);
    }
    if shares.0 <= pool.supply.0 {
        law_owned_shares_have_a_stake(pool, shares);
        law_owned_shares_have_a_stake(pool.rewarded(reward), shares);
    }
}

/// Auto compounding rewards raise what backs the shares, not the number of them. Once a reward was
/// given out, every delegator of the candidate owns as many shares as before, its stake in the auto
/// compounding pool is at least what it was, and every stake in another pool or towards another
/// candidate is the same.
pub proof fn law_compounding_keeps_the_shares_and_lowers_no_stake<A>(
    storage: spec_fn(A, PoolsKey<A>) -> Balance,
    candidate: A,
    delegator: A,
    reward: Balance,
    write: PoolsWrite<A>,
)
    requires
        compounding_in(storage, candidate, reward) == Ok::<PoolsWrite<A>, Error>(write),
    ensures
        written(storage, candidate, write)(
            candidate,
            PoolsKey::AutoCompoundingShares { delegator },
        ) == storage(candidate, PoolsKey::AutoCompoundingShares { delegator }),
        stake_in(
            storage,
            candidate,
            delegator,
            AllTargetPool::AutoCompounding,
        ) matches Some(before) ==> (stake_in(
            written(storage, candidate, write),
            candidate,
            delegator,
            AllTargetPool::AutoCompounding,
        ) matches Some(after) ==> after >= before),
        storage(candidate, PoolsKey::AutoCompoundingShares { delegator }) <= storage(
            candidate,
            PoolsKey::AutoCompoundingSharesSupply,
        ) ==> stake_in(
            storage,
            candidate,
            delegator,
            AllTargetPool::AutoCompounding,
        ) is Some && stake_in(
            written(storage, candidate, write),
            candidate,
            delegator,
            AllTargetPool::AutoCompounding,
        ) is Some,
        forall|other: A, pool: AllTargetPool|
            other != candidate || pool != AllTargetPool::AutoCompounding ==> stake_in(
                written(storage, candidate, write),
                other,
                delegator,
                pool,
            ) == #[trigger] stake_in(storage, other, delegator, pool),
{
    let keys = keys_of(AllTargetPool::AutoCompounding, delegator);
    let pool = SharePool {
        supply: Shares(storage(candidate, keys.supply)),
        total_staked: Stake(storage(candidate, keys.total_staked)),
    };
    law_rewards_do_not_lower_a_stake(
        pool,
        reward as nat,
        Shares(storage(candidate, keys.shares)),
    );
}

/// The stake that is told of who owns `shares` is their part of the backing of the pool. Who owns
/// nothing is told zero, whoever owns no more shares than there are is told a stake, and none is
/// told only where the pool has no shares or the part is above the largest balance.
pub proof fn law_told_stake_is_the_part_of_the_backing(pool: SharePool, shares: Shares<Balance>)
    ensures
        shares.0 == 0 ==> stake_amount(pool, shares) == Some(0 as Balance),
        shares.0 <= pool.supply.0 ==> stake_amount(pool, shares) is Some,
        shares.0 > 0 ==> match stake_amount(pool, shares) {
            Some(stake) => {
                &&& pool.supply.0 > 0
                &&& stake * pool.supply.0 <= shares.0 * pool.total_staked.0
                &&& shares.0 * pool.total_staked.0 < (stake + 1) * pool.supply.0
            },
            None => pool.supply.0 == 0 || shares.0 * pool.total_staked.0 >= (Balance::MAX + 1)
                * pool.supply.0,
        },
{
    law_held_stake_is_the_part_of_the_backing(pool, shares);
}

/// The stake of a delegator in a pool of a candidate is its part of the backing, by the balances
/// that the storage keeps for that delegator, that pool and that candidate.
pub proof fn law_stored_stake_is_the_part_of_the_backing<A>(
    storage: spec_fn(A, PoolsKey<A>) -> Balance,
    candidate: A,
    delegator: A,
    pool: AllTargetPool,
    shares: Balance,
    supply: Balance,
    total_staked: Balance,
)
    requires
        match pool {
            AllTargetPool::Joining => {
                &&& shares == storage(candidate, PoolsKey::JoiningShares { delegator })
                &&& supply == storage(candidate, PoolsKey::JoiningSharesSupply)
                &&& total_staked == storage(candidate, PoolsKey::JoiningSharesTotalStaked)
            },
            AllTargetPool::AutoCompounding => {
                &&& shares == storage(candidate, PoolsKey::AutoCompoundingShares { delegator })
                &&& supply == storage(candidate, PoolsKey::AutoCompoundingSharesSupply)
                &&& total_staked == storage(candidate, PoolsKey::AutoCompoundingSharesTotalStaked)
            },
            AllTargetPool::ManualRewards => {
                &&& shares == storage(candidate, PoolsKey::ManualRewardsShares { delegator })
                &&& supply == storage(candidate, PoolsKey::ManualRewardsSharesSupply)
                &&& total_staked == storage(candidate, PoolsKey::ManualRewardsSharesTotalStaked)
            },
            AllTargetPool::Leaving => {
                &&& shares == storage(candidate, PoolsKey::LeavingShares { delegator })
                &&& supply == storage(candidate, PoolsKey::LeavingSharesSupply)
                &&& total_staked == storage(candidate, PoolsKey::LeavingSharesTotalStaked)
            },
        },
    ensures
        shares == 0 ==> stake_in(storage, candidate, delegator, pool) == Some(0 as Balance),
        shares <= supply ==> stake_in(storage, candidate, delegator, pool) is Some,
        shares > 0 ==> match stake_in(storage, candidate, delegator, pool) {
            Some(stake) => {
                &&& supply > 0
                &&& stake * supply <= shares * total_staked
                &&& shares * total_staked < (stake + 1) * supply
            },
            None => supply == 0 || shares * total_staked >= (Balance::MAX + 1) * supply,
        },
{
    law_told_stake_is_the_part_of_the_backing(
        SharePool { supply: Shares(supply), total_staked: Stake(total_staked) },
        Shares(shares),
    );
}

/// Compounding adds all of the reward to the backing of the auto compounding shares and changes
/// nothing else that is stored. It is refused only where the new backing would be above the largest
/// balance.
pub proof fn law_compounding_adds_the_whole_reward_to_the_backing<A>(
    storage: spec_fn(A, PoolsKey<A>) -> Balance,
    candidate: A,
    reward: Balance,
)
    ensures
        match compounding_in(storage, candidate, reward) {
            Ok(write) => {
                &&& written(storage, candidate, write)(
                    candidate,
                    PoolsKey::AutoCompoundingSharesTotalStaked,
                ) == storage(candidate, PoolsKey::AutoCompoundingSharesTotalStaked) + reward
                &&& forall|other: A, key: PoolsKey<A>|
                    other != candidate || key != PoolsKey::<A>::AutoCompoundingSharesTotalStaked
                        ==> #[trigger] written(storage, candidate, write)(other, key) == storage(
                        other,
                        key,
                    )
            },
            Err(error) => {
                &&& error == Error::MathOverflow
                &&& storage(candidate, PoolsKey::AutoCompoundingSharesTotalStaked) + reward
                    > Balance::MAX
            },
        },
{
}

/// What compounding stores is the backing that was read and the reward together, under the key of
/// the backing of the auto compounding shares.
pub proof fn law_compounded_backing<A>(total_staked: Balance, reward: Balance)
    ensures
        match compounding::<A>(total_staked, reward) {
            Ok(write) => {
                &&& write.key == PoolsKey::<A>::AutoCompoundingSharesTotalStaked
                &&& write.balance == total_staked + reward
            },
            Err(error) => error == Error::MathOverflow && total_staked + reward > Balance::MAX,
        },
{
}

/// All the auto compounding shares together gain the whole reward: a delegator that owned all of
/// them has a stake that is larger by exactly the reward.
pub proof fn law_all_shares_gain_the_whole_reward<A>(
    storage: spec_fn(A, PoolsKey<A>) -> Balance,
    candidate: A,
    delegator: A,
    reward: Balance,
    write: PoolsWrite<A>,
)
    requires
        compounding_in(storage, candidate, reward) == Ok::<PoolsWrite<A>, Error>(write),
        storage(candidate, PoolsKey::AutoCompoundingSharesSupply) > 0,
        storage(candidate, PoolsKey::AutoCompoundingShares { delegator }) == storage(
            candidate,
            PoolsKey::AutoCompoundingSharesSupply,
        ),
    ensures
        stake_in(
            storage,
            candidate,
            delegator,
            AllTargetPool::AutoCompounding,
        ) matches Some(before) && stake_in(
            written(storage, candidate, write),
            candidate,
            delegator,
            AllTargetPool::AutoCompounding,
        ) matches Some(after) && after == before + reward,
{
    let supply = Shares(storage(candidate, PoolsKey::AutoCompoundingSharesSupply));
    let total = storage(candidate, PoolsKey::AutoCompoundingSharesTotalStaked);
    law_supply_is_worth_the_backing(SharePool { supply, total_staked: Stake(total) });
    law_supply_is_worth_the_backing(
        SharePool { supply, total_staked: Stake((total + reward) as Balance) },
    );
}

/// Storing a balance changes what is read under its key for its candidate, and nothing else.
pub proof fn law_written_balance_is_read_back<A>(
    storage: spec_fn(A, PoolsKey<A>) -> Balance,
    candidate: A,
    write: PoolsWrite<A>,
    other: A,
    key: PoolsKey<A>,
)
    ensures
        written(storage, candidate, write)(candidate, write.key) == write.balance,
        other != candidate || key != write.key ==> written(storage, candidate, write)(other, key)
            == storage(other, key),
{
}

/// A reader reads a storage if each of its answers is what the storage keeps there.
pub proof fn law_reader_of_a_storage<A, R: Fn(&A, &PoolsKey<A>) -> Balance>(
    read: R,
    storage: spec_fn(A, PoolsKey<A>) -> Balance,
)
    requires
        forall|candidate: &A, key: &PoolsKey<A>, balance: Balance|
            #[trigger] call_ensures(read, (candidate, key), balance) ==> balance == storage(
                *candidate,
                *key,
            ),
    ensures
        reads(read, storage),
{
}

} // verus!
