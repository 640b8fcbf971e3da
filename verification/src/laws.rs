//! What the operations promise to whoever calls them.
//!
//! Each law is about any outcome that an operation can have, and says in plain terms what that
//! outcome is.

use crate::candidates::{
    accounts_are_ordered, law_last_state_of_a_candidate_decides_its_entry,
    law_lists_are_sorted_and_bounded, law_nobody_falls_out_while_there_is_room,
    law_position_is_where_the_entry_stands, law_ranked_lists_are_sorted_by_stake,
    law_update_in_full, CandidateState, EligibleCandidate, PositionChange,
    SortedEligibleCandidates,
};
use crate::config::{law_eligibility, Config, Settings};
use crate::error::Error;
use crate::maths::{law_mul_div_is_the_largest_quotient, mul_div, Balance, OverflowError};
use crate::origin::{NotSigned, Origin};
use crate::pallet::{
    compounding, law_compounded_backing, law_told_stake_is_the_part_of_the_backing, stake_amount,
    Action, ActionOf, Candidate, Delegator, Pallet, PendingOperationQueryOf, PoolsWrite,
};
use crate::pools::{
    keys_of, law_created_shares_are_the_most_the_stake_pays_for,
    law_held_stake_is_the_part_of_the_backing, law_only_the_rounding_is_released,
    law_price_of_shares, law_resolved_amount, law_shares_for_a_stake_are_the_most_it_pays_for,
    law_stake_of_shares_is_their_part_of_the_backing, Conversion, PoolsKey, SharePool,
};
use crate::rewards::{
    advance, claim, claim_all, claimable_rewards, claimed_at,
    law_claim_pays_the_shares_times_the_gain, law_commission_is_the_part_of_the_rewards,
    law_counter_advances_by_what_was_generated, law_each_listed_pair_is_paid_in_full_once,
    law_payout_is_the_shares_times_the_gain, Claim, ManualRewardsState, RewardsSplit,
};
use crate::types::{AllTargetPool, Shares, SharesOrStake, Stake, TargetPool};
use crate::weights;
use crate::weights::{
    counted, law_lists_are_counted_by_their_length, law_maximum_takes_the_larger_of_each_part,
    law_weights_add_up_until_they_saturate, max_of, sum_of, Weight, WeightInfo,
};
use vstd::prelude::*;
use vstd::std_specs::cmp::PartialOrdIs;

verus! {

/// Whoever signs, the hold that is rebalanced is that of the named delegator in the named pool of
/// the named candidate. Any other origin is refused.
pub proof fn law_rebalance_hold<T: Config>(
    origin: Origin<T::AccountId>,
    candidate: Candidate<T>,
    delegator: Delegator<T>,
    pool: AllTargetPool,
    r: Result<ActionOf<T>, NotSigned>,
)
    requires
        call_ensures(Pallet::<T>::rebalance_hold, (origin, candidate, delegator, pool), r),
    ensures
        match origin {
            Origin::Signed(_) => r == Ok::<ActionOf<T>, NotSigned>(
                Action::RebalanceHold { candidate, delegator, pool },
            ),
            _ => r is Err,
        },
{
}

/// A request to delegate is for the account that signed it, and for exactly the candidate, the pool
/// and the stake that it names. Any other origin is refused.
pub proof fn law_request_delegate<T: Config>(
    origin: Origin<T::AccountId>,
    candidate: Candidate<T>,
    pool: TargetPool,
    stake: Balance,
    r: Result<ActionOf<T>, NotSigned>,
)
    requires
        call_ensures(Pallet::<T>::request_delegate, (origin, candidate, pool, stake), r),
    ensures
        match origin {
            Origin::Signed(who) => r == Ok::<ActionOf<T>, NotSigned>(
                Action::RequestDelegate { candidate, delegator: who, pool, stake },
            ),
            _ => r is Err,
        },
{
}

/// Whoever signs, the operations that are executed are those that are named, in their order. Any
/// other origin is refused.
pub proof fn law_execute_pending_operations<T: Config>(
    origin: Origin<T::AccountId>,
    operations: Vec<PendingOperationQueryOf<T>>,
    r: Result<ActionOf<T>, NotSigned>,
)
    requires
        call_ensures(Pallet::<T>::execute_pending_operations, (origin, operations), r),
    ensures
        match origin {
            Origin::Signed(_) => r == Ok::<ActionOf<T>, NotSigned>(
                Action::ExecutePendingOperations { operations },
            ),
            _ => r is Err,
        },
{
}

/// A request to undelegate is for the account that signed it, and for exactly the candidate, the
/// pool and the amount that it names. Any other origin is refused.
pub proof fn law_request_undelegate<T: Config>(
    origin: Origin<T::AccountId>,
    candidate: Candidate<T>,
    pool: TargetPool,
    amount: SharesOrStake<Balance>,
    r: Result<ActionOf<T>, NotSigned>,
)
    requires
        call_ensures(Pallet::<T>::request_undelegate, (origin, candidate, pool, amount), r),
    ensures
        match origin {
            Origin::Signed(who) => r == Ok::<ActionOf<T>, NotSigned>(
                Action::RequestUndelegate { candidate, delegator: who, pool, amount },
            ),
            _ => r is Err,
        },
{
}

/// Whoever signs, the rewards that are claimed are those of the named pairs. Any other origin is
/// refused.
pub proof fn law_claim_manual_rewards<T: Config>(
    origin: Origin<T::AccountId>,
    pairs: Vec<(Candidate<T>, Delegator<T>)>,
    r: Result<ActionOf<T>, NotSigned>,
)
    requires
        call_ensures(Pallet::<T>::claim_manual_rewards, (origin, pairs), r),
    ensures
        match origin {
            Origin::Signed(_) => r == Ok::<ActionOf<T>, NotSigned>(
                Action::ClaimManualRewards { pairs },
            ),
            _ => r is Err,
        },
{
}

/// Whoever signs, the candidates that are updated are those that are named. Any other origin is
/// refused.
pub proof fn law_update_candidate_position<T: Config>(
    origin: Origin<T::AccountId>,
    candidates: Vec<Candidate<T>>,
    r: Result<ActionOf<T>, NotSigned>,
)
    requires
        call_ensures(Pallet::<T>::update_candidate_position, (origin, candidates), r),
    ensures
        match origin {
            Origin::Signed(_) => r == Ok::<ActionOf<T>, NotSigned>(
                Action::UpdateCandidatePosition { candidates },
            ),
            _ => r is Err,
        },
{
}

/// A swap is for the account that signed it, and for exactly the candidate, the pool and the amount
/// that it names. Any other origin is refused.
pub proof fn law_swap_pool<T: Config>(
    origin: Origin<T::AccountId>,
    candidate: Candidate<T>,
    source_pool: TargetPool,
    amount: SharesOrStake<Balance>,
    r: Result<ActionOf<T>, NotSigned>,
)
    requires
        call_ensures(Pallet::<T>::swap_pool, (origin, candidate, source_pool, amount), r),
    ensures
        match origin {
            Origin::Signed(who) => r == Ok::<ActionOf<T>, NotSigned>(
                Action::SwapPool { candidate, delegator: who, source_pool, amount },
            ),
            _ => r is Err,
        },
{
}

/// All of the rewards that are handed in are given out, to the candidate that they are for.
pub proof fn law_distribute_rewards<T: Config>(
    candidate: Candidate<T>,
    rewards: Balance,
    r: ActionOf<T>,
)
    requires
        call_ensures(Pallet::<T>::distribute_rewards, (candidate, rewards), r),
    ensures
        r == (ActionOf::<T>::DistributeRewards { candidate, rewards }),
{
}

/// The stake that is told of a delegator is its part of the backing, by what was read of its
/// shares, of the supply and of the backing of that very pool.
pub proof fn law_computed_stake<
    T: Config,
    R: Fn(&Candidate<T>, &PoolsKey<Delegator<T>>) -> Balance,
>(
    read: R,
    candidate: Candidate<T>,
    delegator: Delegator<T>,
    pool: AllTargetPool,
    r: Option<Balance>,
)
    requires
        call_ensures(Pallet::<T>::computed_stake::<R>, (read, candidate, delegator, pool), r),
    ensures
        exists|shares: Balance, supply: Balance, total_staked: Balance|
            {
                &&& #[trigger] call_ensures(
                    read,
                    (&candidate, &keys_of(pool, delegator).shares),
                    shares,
                )
                &&& #[trigger] call_ensures(
                    read,
                    (&candidate, &keys_of(pool, delegator).supply),
                    supply,
                )
                &&& #[trigger] call_ensures(
                    read,
                    (&candidate, &keys_of(pool, delegator).total_staked),
                    total_staked,
                )
                &&& shares == 0 ==> r == Some(0 as Balance)
                &&& shares <= supply ==> r is Some
                &&& shares > 0 ==> match r {
                    Some(stake) => {
                        &&& supply > 0
                        &&& stake * supply <= shares * total_staked
                        &&& shares * total_staked < (stake + 1) * supply
                    },
                    None => supply == 0 || shares * total_staked >= (Balance::MAX + 1) * supply,
                }
            },
{
    let (shares, supply, total_staked) = choose|
        shares: Balance,
        supply: Balance,
        total_staked: Balance,
    |
        {
            &&& #[trigger] call_ensures(
                read,
                (&candidate, &keys_of(pool, delegator).shares),
                shares,
            )
            &&& #[trigger] call_ensures(
                read,
                (&candidate, &keys_of(pool, delegator).supply),
                supply,
            )
            &&& #[trigger] call_ensures(
                read,
                (&candidate, &keys_of(pool, delegator).total_staked),
                total_staked,
            )
            &&& r == stake_amount(
                SharePool { supply: Shares(supply), total_staked: Stake(total_staked) },
                Shares(shares),
            )
        };
    law_told_stake_is_the_part_of_the_backing(
        SharePool { supply: Shares(supply), total_staked: Stake(total_staked) },
        Shares(shares),
    );
}

/// What compounding has stored is what was read of the backing and the whole reward together, and
/// it is refused only where that is above the largest balance.
pub proof fn law_compound_rewards<
    T: Config,
    R: Fn(&Candidate<T>, &PoolsKey<Delegator<T>>) -> Balance,
>(
    read: R,
    candidate: Candidate<T>,
    reward: Balance,
    r: Result<PoolsWrite<Delegator<T>>, Error>,
)
    requires
        call_ensures(Pallet::<T>::compound_rewards::<R>, (read, &candidate, reward), r),
    ensures
        exists|total_staked: Balance|
            {
                &&& #[trigger] call_ensures(
                    read,
                    (&candidate, &PoolsKey::AutoCompoundingSharesTotalStaked),
                    total_staked,
                )
                &&& match r {
                    Ok(write) => {
                        &&& write.key
                            == PoolsKey::<Delegator<T>>::AutoCompoundingSharesTotalStaked
                        &&& write.balance == total_staked + reward
                    },
                    Err(error) => error == Error::MathOverflow && total_staked + reward
                        > Balance::MAX,
                }
            },
{
    let total_staked = choose|total_staked: Balance|
        {
            &&& #[trigger] call_ensures(
                read,
                (&candidate, &PoolsKey::AutoCompoundingSharesTotalStaked),
                total_staked,
            )
            &&& r == compounding::<Delegator<T>>(total_staked, reward)
        };
    law_compounded_backing::<Delegator<T>>(total_staked, reward);
}

/// Stake that enters a pool is turned into the most shares that it pays for. What they are worth is
/// staked, the rest is released, and no more than the rounding is: less than the price of one share
/// and one unit, or less than the initial value where the shares are the first.
pub proof fn law_convert(
    pool: SharePool,
    stake: Stake<Balance>,
    initial_share_value: Balance,
    r: Result<Conversion, Error>,
)
    requires
        call_ensures(SharePool::convert, (&pool, stake, initial_share_value), r),
    ensures
        r matches Ok(conversion) ==> conversion.staked.0 + conversion.released.0 == stake.0,
        pool.supply.0 > 0 ==> match r {
            Ok(conversion) => {
                &&& conversion.shares.0 * pool.total_staked.0 <= stake.0 * pool.supply.0
                &&& stake.0 * pool.supply.0 < (conversion.shares.0 + 1) * pool.total_staked.0
                &&& conversion.staked.0 * pool.supply.0 <= conversion.shares.0
                    * pool.total_staked.0
                &&& conversion.shares.0 * pool.total_staked.0 < (conversion.staked.0 + 1)
                    * pool.supply.0
                &&& conversion.released.0 * pool.supply.0 < pool.total_staked.0 + pool.supply.0
            },
            Err(error) => error == Error::MathOverflow && stake.0 * pool.supply.0 >= (Balance::MAX
                + 1) * pool.total_staked.0,
        },
        pool.supply.0 == 0 ==> match r {
            Ok(conversion) => {
                &&& conversion.staked.0 == conversion.shares.0 * initial_share_value
                &&& conversion.released.0 < initial_share_value
            },
            Err(error) => error == Error::InvalidPalletSetting && initial_share_value == 0,
        },
{
    law_created_shares_are_the_most_the_stake_pays_for(pool, stake, initial_share_value);
    if let Ok(conversion) = r {
        let shares = conversion.shares;
        law_price_of_shares(pool, shares.0 as nat, initial_share_value);
        law_only_the_rounding_is_released(pool, stake, initial_share_value, shares);
        let price = pool.price_of(shares.0 as nat, initial_share_value);
        assert(stake.0 - price == conversion.released.0);
    }
}

/// The worth of shares is their part of the backing of the pool.
pub proof fn law_shares_to_stake(
    pool: SharePool,
    shares: Shares<Balance>,
    r: Result<Stake<Balance>, Error>,
)
    requires
        call_ensures(SharePool::shares_to_stake, (&pool, shares), r),
    ensures
        match r {
            Ok(stake) => {
                &&& pool.supply.0 > 0
                &&& stake.0 * pool.supply.0 <= shares.0 * pool.total_staked.0
                &&& shares.0 * pool.total_staked.0 < (stake.0 + 1) * pool.supply.0
            },
            Err(Error::NoOneIsStaking) => pool.supply.0 == 0,
            Err(error) => {
                &&& error == Error::MathOverflow
                &&& pool.supply.0 > 0
                &&& shares.0 * pool.total_staked.0 >= (Balance::MAX + 1) * pool.supply.0
            },
        },
{
    law_stake_of_shares_is_their_part_of_the_backing(pool, shares);
}

/// The stake of who owns shares of a pool is their part of the backing.
pub proof fn law_stake_of_who_owns_shares(
    pool: SharePool,
    shares: Shares<Balance>,
    r: Result<Stake<Balance>, Error>,
)
    requires
        call_ensures(SharePool::computed_stake, (&pool, shares), r),
    ensures
        shares.0 == 0 ==> r == Ok::<Stake<Balance>, Error>(Stake(0)),
        shares.0 <= pool.supply.0 ==> r is Ok,
        shares.0 > 0 ==> match r {
            Ok(stake) => {
                &&& pool.supply.0 > 0
                &&& stake.0 * pool.supply.0 <= shares.0 * pool.total_staked.0
                &&& shares.0 * pool.total_staked.0 < (stake.0 + 1) * pool.supply.0
            },
            Err(Error::NoOneIsStaking) => pool.supply.0 == 0,
            Err(error) => {
                &&& error == Error::MathOverflow
                &&& pool.supply.0 > 0
                &&& shares.0 * pool.total_staked.0 >= (Balance::MAX + 1) * pool.supply.0
            },
        },
{
    law_held_stake_is_the_part_of_the_backing(pool, shares);
}

/// A call on an amount of stake moves the most shares that are not worth more than it.
pub proof fn law_stake_to_shares(
    pool: SharePool,
    stake: Stake<Balance>,
    r: Result<Shares<Balance>, Error>,
)
    requires
        call_ensures(SharePool::stake_to_shares, (&pool, stake), r) || call_ensures(
            SharePool::resolve,
            (&pool, SharesOrStake::Stake(stake.0)),
            r,
        ),
    ensures
        match r {
            Ok(shares) => {
                &&& pool.supply.0 > 0
                &&& shares.0 * pool.total_staked.0 <= stake.0 * pool.supply.0
                &&& stake.0 * pool.supply.0 < (shares.0 + 1) * pool.total_staked.0
            },
            Err(Error::NoOneIsStaking) => pool.supply.0 == 0,
            Err(error) => {
                &&& error == Error::MathOverflow
                &&& pool.supply.0 > 0
                &&& stake.0 * pool.supply.0 >= (Balance::MAX + 1) * pool.total_staked.0
            },
        },
{
    law_shares_for_a_stake_are_the_most_it_pays_for(pool, stake);
    law_resolved_amount(pool, stake.0);
}

/// A call on an amount of shares moves that amount.
pub proof fn law_resolve_shares(pool: SharePool, shares: Balance, r: Result<Shares<Balance>, Error>)
    requires
        call_ensures(SharePool::resolve, (&pool, SharesOrStake::Shares(shares)), r),
    ensures
        r == Ok::<Shares<Balance>, Error>(Shares(shares)),
{
    law_resolved_amount(pool, shares);
}

/// The shares that are created for a stake are the most that it pays for.
pub proof fn law_stake_to_shares_or_init(
    pool: SharePool,
    stake: Stake<Balance>,
    initial_share_value: Balance,
    r: Result<Shares<Balance>, Error>,
)
    requires
        call_ensures(SharePool::stake_to_shares_or_init, (&pool, stake, initial_share_value), r),
    ensures
        pool.supply.0 > 0 ==> match r {
            Ok(shares) => {
                &&& shares.0 * pool.total_staked.0 <= stake.0 * pool.supply.0
                &&& stake.0 * pool.supply.0 < (shares.0 + 1) * pool.total_staked.0
            },
            Err(error) => error == Error::MathOverflow && stake.0 * pool.supply.0 >= (Balance::MAX
                + 1) * pool.total_staked.0,
        },
        pool.supply.0 == 0 ==> match r {
            Ok(shares) => {
                &&& shares.0 * initial_share_value <= stake.0
                &&& stake.0 < (shares.0 + 1) * initial_share_value
            },
            Err(error) => error == Error::InvalidPalletSetting && initial_share_value == 0,
        },
{
    law_created_shares_are_the_most_the_stake_pays_for(pool, stake, initial_share_value);
}

/// A claim pays the shares times what the counter gained since the checkpoint, going around the
/// largest balance or not, and moves the checkpoint to the counter.
pub proof fn law_claim(
    shares: Shares<Balance>,
    counter: Balance,
    checkpoint: Balance,
    gain: Balance,
    r: Result<Claim, Error>,
)
    requires
        call_ensures(claim, (shares, counter, checkpoint), r),
        counter == checkpoint + gain || counter == checkpoint + gain - (Balance::MAX + 1),
    ensures
        match r {
            Ok(claim) => claim.rewards == shares.0 * gain && claim.checkpoint == counter,
            Err(error) => error == Error::MathOverflow && shares.0 * gain > Balance::MAX,
        },
{
    law_claim_pays_the_shares_times_the_gain(shares, counter, checkpoint, gain);
}

/// What may be claimed is the shares times what the counter gained since the checkpoint.
pub proof fn law_claimable_rewards(
    shares: Shares<Balance>,
    counter: Balance,
    checkpoint: Balance,
    gain: Balance,
    r: Result<Balance, Error>,
)
    requires
        call_ensures(claimable_rewards, (shares, counter, checkpoint), r),
        counter == checkpoint + gain || counter == checkpoint + gain - (Balance::MAX + 1),
    ensures
        match r {
            Ok(rewards) => rewards == shares.0 * gain,
            Err(error) => error == Error::MathOverflow && shares.0 * gain > Balance::MAX,
        },
{
    law_payout_is_the_shares_times_the_gain(shares, counter, checkpoint, gain);
}

/// A list of claims pays each pair in full where it is listed first, and nothing where it is listed
/// again. Every checkpoint is then the counter.
pub proof fn law_claim_all<A: Ord>(
    states: Vec<ManualRewardsState<A>>,
    claims: Vec<Claim>,
    index: int,
    gain: Balance,
)
    requires
        call_ensures(claim_all::<A>, (&states,), Ok::<Vec<Claim>, Error>(claims)),
        0 <= index < states@.len(),
        states@[index].counter == states@[index].checkpoint + gain || states@[index].counter
            == states@[index].checkpoint + gain - (Balance::MAX + 1),
    ensures
        claims@.len() == states@.len(),
        claims@[index].checkpoint == states@[index].counter,
        (forall|i: int|
            0 <= i < index ==> (#[trigger] states@[i]).candidate != states@[index].candidate
                || states@[i].delegator != states@[index].delegator) ==> claims@[index].rewards
            == states@[index].shares.0 * gain,
        (exists|i: int|
            0 <= i < index && (#[trigger] states@[i]).candidate == states@[index].candidate
                && states@[i].delegator == states@[index].delegator) ==> claims@[index].rewards
            == 0,
{
    law_each_listed_pair_is_paid_in_full_once(states@, index, gain);
    assert(claimed_at(states@, index) == Ok::<Claim, Error>(claims@[index]));
}

/// The counter advances by what each share generated, going around the largest balance or not.
pub proof fn law_advance(counter: Balance, per_share: Balance, r: Balance)
    requires
        call_ensures(advance, (counter, per_share), r),
    ensures
        r == counter + per_share || r == counter + per_share - (Balance::MAX + 1),
{
    law_counter_advances_by_what_was_generated(counter, per_share);
}

/// The collator gets its parts per billion of the rewards, rounded down, and the delegators all the
/// rest.
pub proof fn law_split_rewards(settings: Settings, rewards: Balance, r: RewardsSplit)
    requires
        call_ensures(Settings::split_rewards, (&settings, rewards), r),
    ensures
        r.collator + r.delegators == rewards,
        settings.rewards_collator_commission <= 1_000_000_000 ==> r.collator * 1_000_000_000
            <= rewards * settings.rewards_collator_commission < (r.collator + 1) * 1_000_000_000,
        settings.rewards_collator_commission > 1_000_000_000 ==> r.collator == rewards,
{
    law_commission_is_the_part_of_the_rewards(settings.rewards_collator_commission, rewards);
}

/// A candidate is eligible exactly where it delegates the minimum or more towards itself and passes
/// the filter.
pub proof fn law_is_eligible(
    settings: Settings,
    self_delegation: Balance,
    passes_filter: bool,
    r: bool,
)
    requires
        call_ensures(Settings::is_eligible, (&settings, self_delegation, passes_filter), r),
    ensures
        r <==> self_delegation >= settings.minimum_self_delegation && passes_filter,
{
    law_eligibility(settings, self_delegation, passes_filter);
}

/// Each target pool starts at the share value that is set for it.
pub proof fn law_initial_share_value(settings: Settings, pool: TargetPool, r: Balance)
    requires
        call_ensures(Settings::initial_share_value, (&settings, pool), r),
    ensures
        pool is AutoCompounding ==> r == settings.initial_auto_compounding_share_value,
        pool is ManualRewards ==> r == settings.initial_manual_claim_share_value,
{
}

/// Executing operations is charged what was measured for that many operations and for that many
/// claims together, each part up to the largest value.
pub proof fn law_weight_of_execute_pending_operations<W: WeightInfo, I>(
    operations: Vec<I>,
    r: Weight,
)
    requires
        call_ensures(weights::execute_pending_operations::<W, I>, (&operations,), r),
        operations@.len() <= u32::MAX,
    ensures
        exists|execute: Weight, claims: Weight|
            {
                &&& #[trigger] call_ensures(
                    W::execute_pending_operations,
                    (operations@.len() as u32,),
                    execute,
                )
                &&& #[trigger] call_ensures(
                    W::claim_manual_rewards,
                    (operations@.len() as u32,),
                    claims,
                )
                &&& r.ref_time == if execute.ref_time + claims.ref_time <= u64::MAX {
                    execute.ref_time + claims.ref_time
                } else {
                    u64::MAX as int
                }
                &&& r.proof_size == if execute.proof_size + claims.proof_size <= u64::MAX {
                    execute.proof_size + claims.proof_size
                } else {
                    u64::MAX as int
                }
            },
{
    law_lists_are_counted_by_their_length(operations@.len());
    let (execute, claims) = choose|execute: Weight, claims: Weight|
        {
            &&& #[trigger] call_ensures(
                W::execute_pending_operations,
                (counted(operations@.len()),),
                execute,
            )
            &&& #[trigger] call_ensures(
                W::claim_manual_rewards,
                (counted(operations@.len()),),
                claims,
            )
            &&& r == sum_of(execute, claims)
        };
    law_weights_add_up_until_they_saturate(execute, claims);
}

/// Undelegating is charged what was measured for the request and the larger of what was measured
/// for one claim and for rebalancing a hold together, each part up to the largest value.
pub proof fn law_weight_of_request_undelegate<W: WeightInfo>(r: Weight)
    requires
        call_ensures(weights::request_undelegate::<W>, (), r),
    ensures
        exists|request: Weight, claims: Weight, rebalance: Weight|
            {
                &&& #[trigger] call_ensures(W::request_undelegate, (), request)
                &&& #[trigger] call_ensures(W::claim_manual_rewards, (1u32,), claims)
                &&& #[trigger] call_ensures(W::rebalance_hold, (), rebalance)
                &&& ({
                    let time = if claims.ref_time > rebalance.ref_time {
                        claims.ref_time
                    } else {
                        rebalance.ref_time
                    };
                    r.ref_time == if request.ref_time + time <= u64::MAX {
                        request.ref_time + time
                    } else {
                        u64::MAX as int
                    }
                })
                &&& ({
                    let size = if claims.proof_size > rebalance.proof_size {
                        claims.proof_size
                    } else {
                        rebalance.proof_size
                    };
                    r.proof_size == if request.proof_size + size <= u64::MAX {
                        request.proof_size + size
                    } else {
                        u64::MAX as int
                    }
                })
            },
{
    let (request, claims, rebalance) = choose|
        request: Weight,
        claims: Weight,
        rebalance: Weight,
    |
        {
            &&& #[trigger] call_ensures(W::request_undelegate, (), request)
            &&& #[trigger] call_ensures(W::claim_manual_rewards, (1u32,), claims)
            &&& #[trigger] call_ensures(W::rebalance_hold, (), rebalance)
            &&& r == sum_of(request, max_of(claims, rebalance))
        };
    law_maximum_takes_the_larger_of_each_part(claims, rebalance);
    law_weights_add_up_until_they_saturate(request, max_of(claims, rebalance));
}

/// A list of claims is refused only where one of them is above the largest balance: the shares
/// times what the counter gained since the checkpoint.
pub proof fn law_claim_all_is_refused<A: Ord>(states: Vec<ManualRewardsState<A>>, error: Error)
    requires
        call_ensures(claim_all::<A>, (&states,), Err::<Vec<Claim>, Error>(error)),
    ensures
        error == Error::MathOverflow,
        exists|i: int|
            0 <= i < states@.len() && (#[trigger] states@[i]).shares.0 * (if states@[i].counter
                >= states@[i].checkpoint {
                states@[i].counter - states@[i].checkpoint
            } else {
                states@[i].counter + Balance::MAX + 1 - states@[i].checkpoint
            }) > Balance::MAX,
{
    let index = choose|i: int| 0 <= i < states@.len() && #[trigger] claimed_at(states@, i) is Err;
    let state = states@[index];
    let gain = if state.counter >= state.checkpoint {
        state.counter - state.checkpoint
    } else {
        state.counter + Balance::MAX + 1 - state.checkpoint
    };
    law_claim_pays_the_shares_times_the_gain(
        state.shares,
        state.counter,
        state.checkpoint,
        gain as Balance,
    );
    law_claim_pays_the_shares_times_the_gain(state.shares, state.counter, state.counter, 0);
    assert(states@[index].shares.0 * gain > Balance::MAX);
}

/// A reward is added to the backing as a whole, the supply stays, and it is refused only where the
/// backing would be above the largest balance.
pub proof fn law_reward(amount: Balance, r: Result<(), Error>)
    ensures
        forall|pool: &mut SharePool|
            #[trigger] call_ensures(SharePool::reward, (pool, amount), r) ==> match r {
                Ok(_) => {
                    &&& final(pool).total_staked.0 == (*pool).total_staked.0 + amount
                    &&& final(pool).supply == (*pool).supply
                },
                Err(error) => {
                    &&& error == Error::MathOverflow
                    &&& (*pool).total_staked.0 + amount > Balance::MAX
                    &&& *final(pool) == *pool
                },
            },
{
}

/// A slash is taken off the backing as a whole, the supply stays, and it is refused only where it
/// is more than the backing.
pub proof fn law_slash(amount: Balance, r: Result<(), Error>)
    ensures
        forall|pool: &mut SharePool|
            #[trigger] call_ensures(SharePool::slash, (pool, amount), r) ==> match r {
                Ok(_) => {
                    &&& final(pool).total_staked.0 + amount == (*pool).total_staked.0
                    &&& final(pool).supply == (*pool).supply
                },
                Err(error) => {
                    &&& error == Error::MathUnderflow
                    &&& amount > (*pool).total_staked.0
                    &&& *final(pool) == *pool
                },
            },
{
}

/// The position that is told of a candidate is where its entry stands in the list.
pub proof fn law_position<A: Ord>(
    list: SortedEligibleCandidates<A>,
    candidate: A,
    r: Option<u32>,
)
    requires
        list.well_formed(),
        call_ensures(SortedEligibleCandidates::<A>::position, (&list, &candidate), r),
    ensures
        match r {
            Some(position) => position < list@.len() && list@[position as int].candidate
                == candidate,
            None => forall|i: int|
                0 <= i < list@.len() ==> (#[trigger] list@[i]).candidate != candidate,
        },
{
    law_lists_are_sorted_and_bounded(list);
    law_position_is_where_the_entry_stands(list@, candidate);
}

/// Entries make a list exactly where they are sorted by stake, without a candidate twice, and no
/// more than the bound.
pub proof fn law_from_entries<A: Ord>(
    entries: Vec<EligibleCandidate<A, Balance>>,
    bound: u32,
    r: Option<SortedEligibleCandidates<A>>,
)
    requires
        call_ensures(SortedEligibleCandidates::<A>::from_entries, (entries, bound), r),
    ensures
        r is Some <==> entries@.len() <= bound && (forall|i: int, j: int|
            0 <= i < j < entries@.len() ==> ((#[trigger] entries@[i]).stake > (
            #[trigger] entries@[j]).stake || (entries@[i].stake == entries@[j].stake
                && entries@[i].candidate.is_lt(&entries@[j].candidate))) && entries@[i].candidate
                != entries@[j].candidate),
        r matches Some(list) ==> list@ == entries@ && list.capacity() == bound,
{
    law_ranked_lists_are_sorted_by_stake(entries@);
}

/// What an update does to a list that is sorted and bounded. The list stays so. The candidate is in
/// it afterwards only if it is eligible, and then with its new stake. If it is eligible and not in
/// it, the list is full of entries that each come before it. Everybody else in the list was there
/// before, with the same stake, and nobody else leaves while there was room for one more. The
/// positions that are told are where the candidate stood and where it stands.
pub proof fn law_update<A: Ord>(candidate: A, stake: Balance, eligible: bool, r: PositionChange)
    requires
        accounts_are_ordered::<A>(),
    ensures
        forall|list: &mut SortedEligibleCandidates<A>|
            (*list).well_formed() && #[trigger] call_ensures(
                SortedEligibleCandidates::<A>::update,
                (list, candidate, stake, eligible),
                r,
            ) ==> {
                &&& final(list).capacity() == (*list).capacity()
                &&& final(list)@.len() <= (*list).capacity()
                &&& forall|i: int, j: int|
                    0 <= i < j < final(list)@.len() ==> ((#[trigger] final(list)@[i]).stake > (
                    #[trigger] final(list)@[j]).stake || (final(list)@[i].stake
                        == final(list)@[j].stake && final(list)@[i].candidate.is_lt(
                        &final(list)@[j].candidate,
                    ))) && final(list)@[i].candidate != final(list)@[j].candidate
                &&& forall|i: int|
                    0 <= i < final(list)@.len() && (#[trigger] final(list)@[i]).candidate
                        == candidate ==> eligible && final(list)@[i].stake == stake
                &&& eligible && !final(list)@.contains(
                    EligibleCandidate { candidate, stake },
                ) ==> final(list)@.len() == (*list).capacity() && (forall|i: int|
                    0 <= i < final(list)@.len() ==> (#[trigger] final(list)@[i]).stake > stake || (
                    final(list)@[i].stake == stake && final(list)@[i].candidate.is_lt(&candidate)))
                &&& forall|i: int|
                    0 <= i < final(list)@.len() && (#[trigger] final(list)@[i]).candidate
                        != candidate ==> (*list)@.contains(final(list)@[i])
                &&& (*list)@.len() < (*list).capacity() ==> forall|k: int|
                    0 <= k < (*list)@.len() && (#[trigger] (*list)@[k]).candidate != candidate
                        ==> final(list)@.contains((*list)@[k])
                &&& match r.before {
                    Some(position) => position < (*list)@.len()
                        && (*list)@[position as int].candidate == candidate,
                    None => forall|i: int|
                        0 <= i < (*list)@.len() ==> (#[trigger] (*list)@[i]).candidate != candidate,
                }
                &&& match r.after {
                    Some(position) => position < final(list)@.len()
                        && final(list)@[position as int].candidate == candidate,
                    None => forall|i: int|
                        0 <= i < final(list)@.len() ==> (#[trigger] final(list)@[i]).candidate
                            != candidate,
                }
            },
{
    assert forall|list: &mut SortedEligibleCandidates<A>|
        (*list).well_formed() && #[trigger] call_ensures(
            SortedEligibleCandidates::<A>::update,
            (list, candidate, stake, eligible),
            r,
        ) implies {
                &&& final(list).capacity() == (*list).capacity()
                &&& final(list)@.len() <= (*list).capacity()
                &&& forall|i: int, j: int|
                    0 <= i < j < final(list)@.len() ==> ((#[trigger] final(list)@[i]).stake > (
                    #[trigger] final(list)@[j]).stake || (final(list)@[i].stake
                        == final(list)@[j].stake && final(list)@[i].candidate.is_lt(
                        &final(list)@[j].candidate,
                    ))) && final(list)@[i].candidate != final(list)@[j].candidate
                &&& forall|i: int|
                    0 <= i < final(list)@.len() && (#[trigger] final(list)@[i]).candidate
                        == candidate ==> eligible && final(list)@[i].stake == stake
                &&& eligible && !final(list)@.contains(
                    EligibleCandidate { candidate, stake },
                ) ==> final(list)@.len() == (*list).capacity() && (forall|i: int|
                    0 <= i < final(list)@.len() ==> (#[trigger] final(list)@[i]).stake > stake || (
                    final(list)@[i].stake == stake && final(list)@[i].candidate.is_lt(&candidate)))
                &&& forall|i: int|
                    0 <= i < final(list)@.len() && (#[trigger] final(list)@[i]).candidate
                        != candidate ==> (*list)@.contains(final(list)@[i])
                &&& (*list)@.len() < (*list).capacity() ==> forall|k: int|
                    0 <= k < (*list)@.len() && (#[trigger] (*list)@[k]).candidate != candidate
                        ==> final(list)@.contains((*list)@[k])
                &&& match r.before {
                    Some(position) => position < (*list)@.len()
                        && (*list)@[position as int].candidate == candidate,
                    None => forall|i: int|
                        0 <= i < (*list)@.len() ==> (#[trigger] (*list)@[i]).candidate != candidate,
                }
                &&& match r.after {
                    Some(position) => position < final(list)@.len()
                        && final(list)@[position as int].candidate == candidate,
                    None => forall|i: int|
                        0 <= i < final(list)@.len() ==> (#[trigger] final(list)@[i]).candidate
                            != candidate,
                }
            } by {
        let before = (*list)@;
        let after = final(list)@;
        let capacity = (*list).capacity();
        law_lists_are_sorted_and_bounded(*list);
        law_update_in_full(before, candidate, stake, eligible, capacity, after);
        law_position_is_where_the_entry_stands(before, candidate);
        law_position_is_where_the_entry_stands(after, candidate);
        if before.len() < capacity {
            law_nobody_falls_out_while_there_is_room(
                before,
                candidate,
                stake,
                eligible,
                capacity,
                after,
            );
        }
    }
}

/// What several updates do to a list that is sorted and bounded. The last state that is given for a
/// candidate decides its entry: it has one only if that state makes it eligible, and then with the
/// stake of that state. While the list has room for everybody, it has one then. There is a change
/// of position for each state: the first tells where its candidate stood, and the last where its
/// candidate stands.
pub proof fn law_update_all<A: Ord>(
    settings: Settings,
    states: Vec<CandidateState<A>>,
    r: Vec<PositionChange>,
)
    requires
        accounts_are_ordered::<A>(),
    ensures
        forall|list: &mut SortedEligibleCandidates<A>|
            (*list).well_formed() && #[trigger] call_ensures(
                SortedEligibleCandidates::<A>::update_all,
                (list, &settings, states),
                r,
            ) ==> {
                &&& final(list).capacity() == (*list).capacity()
                &&& final(list)@.len() <= (*list).capacity()
                &&& r@.len() == states@.len()
                &&& states@.len() == 0 ==> final(list)@ == (*list)@
                &&& forall|k: int, i: int|
                    0 <= k < states@.len() && 0 <= i < final(list)@.len() && (
                    #[trigger] final(list)@[i]).candidate == (#[trigger] states@[k]).candidate && (
                    forall|l: int|
                        k < l < states@.len() ==> (#[trigger] states@[l]).candidate
                            != states@[k].candidate) ==> {
                        &&& states@[k].self_delegation >= settings.minimum_self_delegation
                        &&& states@[k].passes_filter
                        &&& final(list)@[i].stake == states@[k].stake
                    }
                &&& (*list)@.len() + states@.len() <= (*list).capacity() ==> forall|k: int|
                    0 <= k < states@.len() && states@[k].self_delegation
                        >= settings.minimum_self_delegation && states@[k].passes_filter && (
                    forall|l: int|
                        k < l < states@.len() ==> (#[trigger] states@[l]).candidate
                            != (#[trigger] states@[k]).candidate) ==> final(list)@.contains(
                        EligibleCandidate {
                            candidate: states@[k].candidate,
                            stake: states@[k].stake,
                        },
                    )
                &&& states@.len() > 0 ==> match r@.last().after {
                    Some(position) => position < final(list)@.len()
                        && final(list)@[position as int].candidate == states@.last().candidate,
                    None => forall|i: int|
                        0 <= i < final(list)@.len() ==> (#[trigger] final(list)@[i]).candidate
                            != states@.last().candidate,
                }
                &&& states@.len() > 0 ==> match r@[0].before {
                    Some(position) => position < (*list)@.len()
                        && (*list)@[position as int].candidate == states@[0].candidate,
                    None => forall|i: int|
                        0 <= i < (*list)@.len() ==> (#[trigger] (*list)@[i]).candidate
                            != states@[0].candidate,
                }
            },
{
    assert forall|list: &mut SortedEligibleCandidates<A>|
        (*list).well_formed() && #[trigger] call_ensures(
            SortedEligibleCandidates::<A>::update_all,
            (list, &settings, states),
            r,
        ) implies {
                &&& final(list).capacity() == (*list).capacity()
                &&& final(list)@.len() <= (*list).capacity()
                &&& r@.len() == states@.len()
                &&& states@.len() == 0 ==> final(list)@ == (*list)@
                &&& forall|k: int, i: int|
                    0 <= k < states@.len() && 0 <= i < final(list)@.len() && (
                    #[trigger] final(list)@[i]).candidate == (#[trigger] states@[k]).candidate && (
                    forall|l: int|
                        k < l < states@.len() ==> (#[trigger] states@[l]).candidate
                            != states@[k].candidate) ==> {
                        &&& states@[k].self_delegation >= settings.minimum_self_delegation
                        &&& states@[k].passes_filter
                        &&& final(list)@[i].stake == states@[k].stake
                    }
                &&& (*list)@.len() + states@.len() <= (*list).capacity() ==> forall|k: int|
                    0 <= k < states@.len() && states@[k].self_delegation
                        >= settings.minimum_self_delegation && states@[k].passes_filter && (
                    forall|l: int|
                        k < l < states@.len() ==> (#[trigger] states@[l]).candidate
                            != (#[trigger] states@[k]).candidate) ==> final(list)@.contains(
                        EligibleCandidate {
                            candidate: states@[k].candidate,
                            stake: states@[k].stake,
                        },
                    )
                &&& states@.len() > 0 ==> match r@.last().after {
                    Some(position) => position < final(list)@.len()
                        && final(list)@[position as int].candidate == states@.last().candidate,
                    None => forall|i: int|
                        0 <= i < final(list)@.len() ==> (#[trigger] final(list)@[i]).candidate
                            != states@.last().candidate,
                }
                &&& states@.len() > 0 ==> match r@[0].before {
                    Some(position) => position < (*list)@.len()
                        && (*list)@[position as int].candidate == states@[0].candidate,
                    None => forall|i: int|
                        0 <= i < (*list)@.len() ==> (#[trigger] (*list)@[i]).candidate
                            != states@[0].candidate,
                }
            } by {
        let before = (*list)@;
        let after = final(list)@;
        let capacity = (*list).capacity();
        law_lists_are_sorted_and_bounded(*list);
        law_lists_are_sorted_and_bounded(*final(list));
        assert forall|k: int, i: int|
            0 <= k < states@.len() && 0 <= i < after.len() && (#[trigger] after[i]).candidate == (
            #[trigger] states@[k]).candidate && (forall|l: int|
                k < l < states@.len() ==> (#[trigger] states@[l]).candidate
                    != states@[k].candidate) implies {
            &&& states@[k].self_delegation >= settings.minimum_self_delegation
            &&& states@[k].passes_filter
            &&& after[i].stake == states@[k].stake
        } by {
            law_last_state_of_a_candidate_decides_its_entry(
                before,
                settings,
                states@,
                capacity,
                k,
                after,
            );
        }
        if before.len() + states@.len() <= capacity {
            assert forall|k: int|
                0 <= k < states@.len() && states@[k].self_delegation
                    >= settings.minimum_self_delegation && states@[k].passes_filter && (forall|
                    l: int,
                |
                    k < l < states@.len() ==> (#[trigger] states@[l]).candidate
                        != (#[trigger] states@[k]).candidate) implies after.contains(
                EligibleCandidate { candidate: states@[k].candidate, stake: states@[k].stake },
            ) by {
                law_last_state_of_a_candidate_decides_its_entry(
                    before,
                    settings,
                    states@,
                    capacity,
                    k,
                    after,
                );
            }
        }
        if states@.len() > 0 {
            let last = states@.len() - 1;
            assert(states@.take(0) == Seq::<CandidateState<A>>::empty());
            assert(states@.take(last + 1) == states@);
            assert(r@[last] == r@.last());
            law_position_is_where_the_entry_stands(before, states@[0].candidate);
            law_position_is_where_the_entry_stands(after, states@[last].candidate);
        }
    }
}

/// Multiplying and dividing rounds down, and is refused only where the quotient is above the
/// largest balance.
pub proof fn law_mul_div(
    value: Balance,
    mul: Balance,
    div: Balance,
    r: Result<Balance, OverflowError>,
)
    requires
        div != 0,
        call_ensures(mul_div, (value, mul, div), r),
    ensures
        match r {
            Ok(quotient) => quotient * div <= value * mul < (quotient + 1) * div,
            Err(_) => value * mul >= (Balance::MAX + 1) * div,
        },
{
    law_mul_div_is_the_largest_quotient(value as nat, mul as nat, div as nat);
}

/// The signer of a call is the account of a signed origin, and no other origin has one.
pub proof fn law_signer<A>(origin: Origin<A>, r: Result<A, NotSigned>)
    requires
        call_ensures(Origin::<A>::signer, (origin,), r),
    ensures
        match origin {
            Origin::Signed(who) => r == Ok::<A, NotSigned>(who),
            _ => r is Err,
        },
{
}

/// A list starts out without entries, with the bound that it is given.
pub proof fn law_new<A>(bound: u32, r: SortedEligibleCandidates<A>)
    requires
        call_ensures(SortedEligibleCandidates::<A>::new, (bound,), r),
    ensures
        r@.len() == 0,
        r.capacity() == bound,
{
}

/// The entries that are told are all that the list holds, in its order.
pub proof fn law_entries<A>(
    list: SortedEligibleCandidates<A>,
    r: Vec<EligibleCandidate<A, Balance>>,
)
    requires
        call_ensures(SortedEligibleCandidates::<A>::entries, (&list,), &r),
    ensures
        r@ == list@,
{
}

/// A call that does one thing is charged what was measured for it.
pub proof fn law_weights_of_single_calls<W: WeightInfo>(
    rebalance: Weight,
    delegate: Weight,
    swap: Weight,
)
    requires
        call_ensures(weights::rebalance_hold::<W>, (), rebalance),
        call_ensures(weights::request_delegate::<W>, (), delegate),
        call_ensures(weights::swap_pool::<W>, (), swap),
    ensures
        call_ensures(W::rebalance_hold, (), rebalance),
        call_ensures(W::request_delegate, (), delegate),
        call_ensures(W::swap_pool, (), swap),
{
}

/// A call on a list is charged what was measured for a list of that length.
pub proof fn law_weights_of_calls_on_lists<W: WeightInfo, I>(
    list: Vec<I>,
    claims: Weight,
    updates: Weight,
)
    requires
        call_ensures(weights::claim_manual_rewards::<W, I>, (&list,), claims),
        call_ensures(weights::update_candidate_position::<W, I>, (&list,), updates),
        list@.len() <= u32::MAX,
    ensures
        call_ensures(W::claim_manual_rewards, (list@.len() as u32,), claims),
        call_ensures(W::update_candidate_position, (list@.len() as u32,), updates),
{
    law_lists_are_counted_by_their_length(list@.len());
}

} // verus!
