//! Rewards: the part of the collator, and what delegators claim by hand.
//!
//! A candidate counts the rewards per share that it generated since genesis, and each delegator
//! remembers the value of that counter at its last claim. The counter may wrap around.

use crate::candidates::{accounts_are_ordered, same_account};
use crate::config::Settings;
use crate::error::Error;
use crate::maths::{law_mul_div_is_the_largest_quotient, mul_div_floor, Balance};
use crate::types::Shares;
use vstd::arithmetic::div_mod::lemma_fundamental_div_mod_converse;
use vstd::prelude::*;

verus! {

/// The number of values a balance can take, and so the step after which the counter is back where
/// it was.
pub open spec fn balance_values() -> int {
    Balance::MAX + 1
}

/// The counter after each share generated `per_share` more.
pub open spec fn advanced(counter: Balance, per_share: nat) -> Balance {
    ((counter + per_share) % balance_values()) as Balance
}

/// What each share of a delegator may claim: how far the counter is ahead of the checkpoint, going
/// around the largest balance where the counter did.
pub open spec fn claimable_per_share(counter: Balance, checkpoint: Balance) -> int {
    if counter >= checkpoint {
        counter - checkpoint
    } else {
        counter - checkpoint + balance_values()
    }
}

/// What `shares` may claim together.
pub open spec fn payout(shares: Shares<Balance>, counter: Balance, checkpoint: Balance) -> int {
    shares.0 * claimable_per_share(counter, checkpoint)
}

/// What a delegator that owns `shares` may claim, or an overflow where that is above the largest
/// balance.
pub fn claimable_rewards(
    shares: Shares<Balance>,
    counter: Balance,
    checkpoint: Balance,
) -> (r: Result<Balance, Error>)
    ensures
        match r {
            Ok(rewards) => rewards == payout(shares, counter, checkpoint),
            Err(error) => {
                &&& error == Error::MathOverflow
                &&& payout(shares, counter, checkpoint) > Balance::MAX
            },
        },
{
    let per_share: Balance = counter.wrapping_sub(checkpoint);
    assert(per_share == claimable_per_share(counter, checkpoint));
    match shares.0.checked_mul(per_share) {
        Some(rewards) => Ok(rewards),
        None => Err(Error::MathOverflow),
    }
}

/// The counter after each share generated `per_share` more. It goes around the largest balance.
pub fn advance(counter: Balance, per_share: Balance) -> (r: Balance)
    ensures
        r == advanced(counter, per_share as nat),
{
    proof {
        lemma_advanced(counter, per_share as nat);
    }
    counter.wrapping_add(per_share)
}

/// A claim of manual rewards.
#[derive(Debug, Clone, Copy, PartialEq, Eq)]
pub struct Claim {
    /// What is paid out.
    pub rewards: Balance,
    /// The checkpoint to keep for the next claim.
    pub checkpoint: Balance,
}

/// The outcome of [`claim`].
pub open spec fn claimed(shares: Shares<Balance>, counter: Balance, checkpoint: Balance) -> Result<
    Claim,
    Error,
> {
    if payout(shares, counter, checkpoint) > Balance::MAX {
        Err(Error::MathOverflow)
    } else {
        Ok(
            Claim {
                rewards: payout(shares, counter, checkpoint) as Balance,
                checkpoint: counter,
            },
        )
    }
}

/// Claims all that a delegator that owns `shares` may claim, which moves its checkpoint to the
/// counter.
pub fn claim(shares: Shares<Balance>, counter: Balance, checkpoint: Balance) -> (r: Result<
    Claim,
    Error,
>)
    ensures
        r == claimed(shares, counter, checkpoint),
{
    proof {
        lemma_payout_is_not_negative(shares, counter, checkpoint);
    }
    match claimable_rewards(shares, counter, checkpoint) {
        Ok(rewards) => Ok(Claim { rewards, checkpoint: counter }),
        Err(error) => Err(error),
    }
}

/// No claim takes anything from a delegator.
proof fn lemma_payout_is_not_negative(
    shares: Shares<Balance>,
    counter: Balance,
    checkpoint: Balance,
)
    ensures
        payout(shares, counter, checkpoint) >= 0,
{
    let per_share = claimable_per_share(counter, checkpoint);
    assert(shares.0 * per_share >= 0) by (nonlinear_arith)
        requires
            shares.0 >= 0,
            per_share >= 0,
    ;
}

/// The manual rewards of a delegator of a candidate.
#[derive(Debug, Clone, Copy, PartialEq, Eq)]
pub struct ManualRewardsState<A> {
    pub candidate: A,
    pub delegator: A,
    /// The manual rewards shares of the delegator.
    pub shares: Shares<Balance>,
    /// The rewards per share that the candidate generated.
    pub counter: Balance,
    /// The counter at the last claim of the delegator.
    pub checkpoint: Balance,
}

/// Whether two states are of the same delegator of the same candidate.
pub open spec fn same_pair<A>(lhs: ManualRewardsState<A>, rhs: ManualRewardsState<A>) -> bool {
    lhs.candidate == rhs.candidate && lhs.delegator == rhs.delegator
}

/// Whether the pair of `states[index]` is listed before it, too.
pub open spec fn listed_before<A>(states: Seq<ManualRewardsState<A>>, index: int) -> bool {
    exists|i: int| 0 <= i < index && same_pair(#[trigger] states[i], states[index])
}

/// The outcome of the claim at `index`, after those before it. A pair that was listed before
/// starts from the checkpoint that its claim left, which is the counter.
pub open spec fn claimed_at<A>(states: Seq<ManualRewardsState<A>>, index: int) -> Result<
    Claim,
    Error,
> {
    let state = states[index];
    if listed_before(states, index) {
        claimed(state.shares, state.counter, state.counter)
    } else {
        claimed(state.shares, state.counter, state.checkpoint)
    }
}

/// Whether the pair of `states[index]` is listed before it, too.
fn is_listed_before<A: Ord>(states: &Vec<ManualRewardsState<A>>, index: usize) -> (r: bool)
    requires
        accounts_are_ordered::<A>(),
        index < states@.len(),
    ensures
        r == listed_before(states@, index as int),
{
    let mut other: usize = 0;
    while other < index
        invariant
            accounts_are_ordered::<A>(),
            other <= index < states@.len(),
            forall|i: int|
                0 <= i < other ==> !same_pair(#[trigger] states@[i], states@[index as int]),
        decreases index - other,
    {
        if same_account(&states[other].candidate, &states[index].candidate) && same_account(
            &states[other].delegator,
            &states[index].delegator,
        ) {
            assert(same_pair(states@[other as int], states@[index as int]));
            return true;
        }
        other = other + 1;
    }
    false
}

/// Claims the manual rewards of each of `states` in turn. One claim that cannot be paid refuses
/// all of them.
pub fn claim_all<A: Ord>(states: &Vec<ManualRewardsState<A>>) -> (r: Result<Vec<Claim>, Error>)
    requires
        accounts_are_ordered::<A>(),
    ensures
        match r {
            Ok(claims) => {
                &&& claims@.len() == states@.len()
                &&& forall|i: int|
                    0 <= i < states@.len() ==> claimed_at(states@, i) == Ok::<Claim, Error>(
                        #[trigger] claims@[i],
                    )
            },
            Err(error) => {
                &&& error == Error::MathOverflow
                &&& exists|i: int|
                    0 <= i < states@.len() && #[trigger] claimed_at(states@, i) is Err
            },
        },
{
    let mut claims: Vec<Claim> = Vec::new();
    let mut index: usize = 0;
    while index < states.len()
        invariant
            accounts_are_ordered::<A>(),
            index <= states@.len(),
            claims@.len() == index,
            forall|i: int|
                0 <= i < index ==> claimed_at(states@, i) == Ok::<Claim, Error>(
                    #[trigger] claims@[i],
                ),
        decreases states@.len() - index,
    {
        let state = &states[index];
        let checkpoint: Balance = if is_listed_before(states, index) {
            state.counter
        } else {
            state.checkpoint
        };
        match claim(state.shares, state.counter, checkpoint) {
            Ok(claim) => {
                claims.push(claim);
            },
            Err(error) => {
                assert(claimed_at(states@, index as int) is Err);
                return Err(error);
            },
        }
        index = index + 1;
    }
    Ok(claims)
}

/// A claim that follows another, with nothing generated in between, succeeds, pays nothing and
/// leaves the checkpoint where it is, whatever the shares are by then.
pub proof fn law_second_claim_pays_nothing(
    shares: Shares<Balance>,
    counter: Balance,
    checkpoint: Balance,
    first: Claim,
    later_shares: Shares<Balance>,
)
    requires
        claimed(shares, counter, checkpoint) == Ok::<Claim, Error>(first),
    ensures
        claimed(later_shares, counter, first.checkpoint) == Ok::<Claim, Error>(
            Claim { rewards: 0, checkpoint: first.checkpoint },
        ),
{
    assert(later_shares.0 * 0 == 0) by (nonlinear_arith);
}

/// A pair that is listed again in one call is paid once: its later claims succeed and pay nothing.
pub proof fn law_pair_listed_again_is_paid_once<A>(
    states: Seq<ManualRewardsState<A>>,
    first: int,
    again: int,
)
    requires
        0 <= first < again < states.len(),
        same_pair(states[first], states[again]),
    ensures
        claimed_at(states, again) == Ok::<Claim, Error>(
            Claim { rewards: 0, checkpoint: states[again].counter },
        ),
{
    assert(listed_before(states, again));
    assert(states[again].shares.0 * 0 == 0) by (nonlinear_arith);
}

/// Calling again, for the same pairs and with the checkpoints that the first call left, succeeds,
/// pays nothing to anybody and leaves those checkpoints.
pub proof fn law_second_call_pays_nothing<A>(
    states: Seq<ManualRewardsState<A>>,
    later: Seq<ManualRewardsState<A>>,
    claims: Seq<Claim>,
    index: int,
)
    requires
        claims.len() == states.len(),
        later.len() == states.len(),
        0 <= index < states.len(),
        claimed_at(states, index) == Ok::<Claim, Error>(claims[index]),
        later[index] == (ManualRewardsState {
            checkpoint: claims[index].checkpoint,
            ..states[index]
        }),
    ensures
        claimed_at(later, index) == Ok::<Claim, Error>(
            Claim { rewards: 0, checkpoint: claims[index].checkpoint },
        ),
{
    assert(states[index].shares.0 * 0 == 0) by (nonlinear_arith);
}

/// A step of at most the largest balance goes around at most once.
proof fn lemma_advanced(counter: Balance, per_share: nat)
    requires
        per_share <= Balance::MAX,
    ensures
        advanced(counter, per_share) == (if counter + per_share <= Balance::MAX {
            counter + per_share
        } else {
            counter + per_share - balance_values()
        }),
{
    if counter + per_share <= Balance::MAX {
        lemma_fundamental_div_mod_converse(
            counter + per_share,
            balance_values(),
            0,
            counter + per_share,
        );
    } else {
        lemma_fundamental_div_mod_converse(
            counter + per_share,
            balance_values(),
            1,
            counter + per_share - balance_values(),
        );
    }
}

/// The counter is safe to wrap around: whatever its value at the last claim, a share may claim
/// what the candidate generated since.
pub proof fn law_counter_may_wrap_around(checkpoint: Balance, per_share: nat)
    requires
        per_share <= Balance::MAX,
    ensures
        claimable_per_share(advanced(checkpoint, per_share), checkpoint) == per_share,
{
    lemma_advanced(checkpoint, per_share);
}

/// A claim leaves nothing to claim.
pub proof fn law_nothing_is_left_after_a_claim(counter: Balance)
    ensures
        claimable_per_share(counter, counter) == 0,
{
}

/// It does not matter how often a delegator claims: two claims give what one at the end gives.
pub proof fn law_claims_add_up(checkpoint: Balance, first: nat, second: nat)
    requires
        first + second <= Balance::MAX,
    ensures
        ({
            let middle = advanced(checkpoint, first);
            let end = advanced(middle, second);
            claimable_per_share(middle, checkpoint) + claimable_per_share(end, middle)
                == claimable_per_share(end, checkpoint)
        }),
{
    lemma_advanced(checkpoint, first);
    lemma_advanced(advanced(checkpoint, first), second);
}

/// Changing the amount of shares claims first, so each share is paid what was generated while it
/// was owned: the claim at the change pays the shares owned before it for what was generated until
/// then, and a later claim pays the shares owned after it for what was generated since.
pub proof fn law_changed_shares_are_paid_for_their_period(
    checkpoint: Balance,
    first_shares: Shares<Balance>,
    first: nat,
    second_shares: Shares<Balance>,
    second: nat,
)
    requires
        first <= Balance::MAX,
        second <= Balance::MAX,
    ensures
        ({
            let change = advanced(checkpoint, first);
            let end = advanced(change, second);
            &&& payout(first_shares, change, checkpoint) == first_shares.0 * first
            &&& payout(second_shares, end, change) == second_shares.0 * second
        }),
{
    law_counter_may_wrap_around(checkpoint, first);
    law_counter_may_wrap_around(advanced(checkpoint, first), second);
}

/// Rewards divided between the collator and its delegators.
#[derive(Debug, Clone, Copy, PartialEq, Eq)]
pub struct RewardsSplit {
    /// What is sent exclusively to the collator.
    pub collator: Balance,
    /// What is left for the delegators.
    pub delegators: Balance,
}

/// A billion, the whole that parts per billion are taken of.
pub open spec fn billion() -> nat {
    1_000_000_000
}

/// `parts` per billion of `amount`, rounded down. No more than the whole is taken.
pub open spec fn parts_per_billion_of(parts: u32, amount: Balance) -> nat {
    if parts >= billion() {
        amount as nat
    } else {
        mul_div_floor(amount as nat, parts as nat, billion())
    }
}

/// `sp_runtime::Perbill::mul_floor` on the `Perbill` of `parts`, which counts parts above a billion
/// as a billion. It gives that part of `amount`, rounded down to a whole number.
#[verifier::external_body]
fn perbill_mul_floor(parts: u32, amount: Balance) -> (r: Balance)
    ensures
        r == parts_per_billion_of(parts, amount),
{
    sp_runtime::Perbill::from_parts(parts).mul_floor(amount)
}

impl Settings {
    /// Divides `rewards` between the collator, which gets its commission rounded down, and the
    /// delegators, which get all the rest.
    pub fn split_rewards(&self, rewards: Balance) -> (r: RewardsSplit)
        ensures
            r.collator == parts_per_billion_of(self.rewards_collator_commission, rewards),
            r.collator + r.delegators == rewards,
    {
        let collator: Balance = perbill_mul_floor(self.rewards_collator_commission, rewards);
        proof {
            lemma_part_is_at_most_the_whole(self.rewards_collator_commission, rewards);
        }
        RewardsSplit { collator, delegators: rewards - collator }
    }
}

/// A part of an amount is at most the amount.
proof fn lemma_part_is_at_most_the_whole(parts: u32, amount: Balance)
    ensures
        parts_per_billion_of(parts, amount) <= amount,
{
    if parts < billion() {
        assert(amount * parts <= amount * billion()) by (nonlinear_arith)
            requires
                parts <= billion(),
                amount >= 0,
        ;
        vstd::arithmetic::div_mod::lemma_div_is_ordered(
            amount * parts,
            amount * billion(),
            billion() as int,
        );
        vstd::arithmetic::div_mod::lemma_div_multiples_vanish(amount as int, billion() as int);
        assert(amount * billion() == billion() * amount) by (nonlinear_arith);
    }
}

/// Without a commission the delegators get all the rewards, and a commission of a billion parts
/// leaves them none.
pub proof fn law_commission_of_nothing_and_of_everything(rewards: Balance)
    ensures
        parts_per_billion_of(0, rewards) == 0,
        parts_per_billion_of(1_000_000_000, rewards) == rewards,
{
    assert((rewards as nat) * 0 == 0) by (nonlinear_arith);
}

/// The counter advances by exactly what each share generated, or by that less the number of
/// values that a balance can take.
pub proof fn law_counter_advances_by_what_was_generated(counter: Balance, per_share: Balance)
    ensures
        advanced(counter, per_share as nat) == counter + per_share || advanced(
            counter,
            per_share as nat,
        ) == counter + per_share - (Balance::MAX + 1),
{
    lemma_advanced(counter, per_share as nat);
}

/// Whatever the shares of a delegator may claim is their number times what the counter gained
/// since the checkpoint, be it by going around the largest balance or not.
pub proof fn law_payout_is_the_shares_times_the_gain(
    shares: Shares<Balance>,
    counter: Balance,
    checkpoint: Balance,
    gain: Balance,
)
    requires
        counter == checkpoint + gain || counter == checkpoint + gain - (Balance::MAX + 1),
    ensures
        claimable_per_share(counter, checkpoint) == gain,
        payout(shares, counter, checkpoint) == shares.0 * gain,
{
    assert(claimable_per_share(counter, checkpoint) == gain);
}

/// A claim pays a delegator its shares times what the counter gained since the checkpoint, and
/// moves the checkpoint to the counter. It is refused only where that payment is above the largest
/// balance.
pub proof fn law_claim_pays_the_shares_times_the_gain(
    shares: Shares<Balance>,
    counter: Balance,
    checkpoint: Balance,
    gain: Balance,
)
    requires
        counter == checkpoint + gain || counter == checkpoint + gain - (Balance::MAX + 1),
    ensures
        match claimed(shares, counter, checkpoint) {
            Ok(claim) => {
                &&& claim.rewards == shares.0 * gain
                &&& claim.checkpoint == counter
            },
            Err(error) => {
                &&& error == Error::MathOverflow
                &&& shares.0 * gain > Balance::MAX
            },
        },
{
    law_payout_is_the_shares_times_the_gain(shares, counter, checkpoint, gain);
    lemma_payout_is_not_negative(shares, counter, checkpoint);
}

/// In a list of claims, a pair of candidate and delegator is paid in full where it is listed
/// first: its shares times what the counter gained since its checkpoint. Where it is listed again
/// it is paid nothing. Either way its checkpoint is then the counter.
pub proof fn law_each_listed_pair_is_paid_in_full_once<A>(
    states: Seq<ManualRewardsState<A>>,
    index: int,
    gain: Balance,
)
    requires
        0 <= index < states.len(),
        states[index].counter == states[index].checkpoint + gain || states[index].counter
            == states[index].checkpoint + gain - (Balance::MAX + 1),
    ensures
        (forall|i: int|
            0 <= i < index ==> (#[trigger] states[i]).candidate != states[index].candidate
                || states[i].delegator != states[index].delegator) ==> match claimed_at(
            states,
            index,
        ) {
            Ok(claim) => {
                &&& claim.rewards == states[index].shares.0 * gain
                &&& claim.checkpoint == states[index].counter
            },
            Err(error) => {
                &&& error == Error::MathOverflow
                &&& states[index].shares.0 * gain > Balance::MAX
            },
        },
        (exists|i: int|
            0 <= i < index && (#[trigger] states[i]).candidate == states[index].candidate
                && states[i].delegator == states[index].delegator) ==> claimed_at(states, index)
            == Ok::<Claim, Error>(Claim { rewards: 0, checkpoint: states[index].counter }),
{
    let state = states[index];
    law_claim_pays_the_shares_times_the_gain(state.shares, state.counter, state.checkpoint, gain);
    law_claim_pays_the_shares_times_the_gain(state.shares, state.counter, state.counter, 0);
    assert(state.shares.0 * 0 == 0) by (nonlinear_arith);
    if exists|i: int|
        0 <= i < index && (#[trigger] states[i]).candidate == state.candidate
            && states[i].delegator == state.delegator {
        let first = choose|i: int|
            0 <= i < index && (#[trigger] states[i]).candidate == state.candidate
                && states[i].delegator == state.delegator;
        assert(same_pair(states[first], states[index]));
    }
}

/// The commission of the collator is the largest whole number that is not above the given parts
/// per billion of the rewards, where parts above a billion take all of them.
pub proof fn law_commission_is_the_part_of_the_rewards(parts: u32, rewards: Balance)
    ensures
        parts <= 1_000_000_000 ==> parts_per_billion_of(parts, rewards) * 1_000_000_000 <= rewards
            * parts < (parts_per_billion_of(parts, rewards) + 1) * 1_000_000_000,
        parts > 1_000_000_000 ==> parts_per_billion_of(parts, rewards) == rewards,
{
    if parts < 1_000_000_000 {
        law_mul_div_is_the_largest_quotient(rewards as nat, parts as nat, 1_000_000_000);
    }
}

} // verus!
