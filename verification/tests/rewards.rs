use pooled_staking::rewards::{advance, claim, claim_all, claimable_rewards};
use pooled_staking::{Claim, Error, ManualRewardsState, RewardsSplit, Settings, Shares};

#[test]
fn each_share_claims_what_the_counter_gained() {
    assert_eq!(claimable_rewards(Shares(3), 17, 10), Ok(21));
    assert_eq!(claimable_rewards(Shares(0), 17, 10), Ok(0));
}

#[test]
fn the_counter_may_wrap_around() {
    assert_eq!(claimable_rewards(Shares(3), 1, u128::MAX - 4), Ok(18));
    assert_eq!(claimable_rewards(Shares(1), 9, 10), Ok(u128::MAX));
}

#[test]
fn nothing_is_left_after_a_claim() {
    assert_eq!(claimable_rewards(Shares(u128::MAX), 17, 17), Ok(0));
}

#[test]
fn claims_add_up() {
    let at_once = claimable_rewards(Shares(3), 4, u128::MAX - 4).unwrap();
    let first = claimable_rewards(Shares(3), u128::MAX - 1, u128::MAX - 4).unwrap();
    let second = claimable_rewards(Shares(3), 4, u128::MAX - 1).unwrap();
    assert_eq!((first, second, at_once), (9, 18, 27));
}

#[test]
fn rewards_above_the_largest_balance_overflow() {
    assert_eq!(
        claimable_rewards(Shares(u128::MAX), 2, 0),
        Err(Error::MathOverflow)
    );
    assert_eq!(claimable_rewards(Shares(u128::MAX), 1, 0), Ok(u128::MAX));
}

#[test]
fn changed_shares_are_paid_for_their_period() {
    let checkpoint = u128::MAX - 1;
    let at_change = checkpoint.wrapping_add(5);
    let at_end = at_change.wrapping_add(7);
    assert_eq!(claimable_rewards(Shares(3), at_change, checkpoint), Ok(15));
    assert_eq!(claimable_rewards(Shares(4), at_end, at_change), Ok(28));
}

fn with_commission(rewards_collator_commission: u32) -> Settings {
    Settings {
        initial_manual_claim_share_value: 1,
        initial_auto_compounding_share_value: 1,
        minimum_self_delegation: 1,
        rewards_collator_commission,
        eligible_candidates_buffer_size: 1,
    }
}

#[test]
fn the_commission_is_rounded_down() {
    assert_eq!(
        with_commission(200_000_000).split_rewards(1_004),
        RewardsSplit { collator: 200, delegators: 804 }
    );
    assert_eq!(
        with_commission(200_000_000).split_rewards(1_009),
        RewardsSplit { collator: 201, delegators: 808 }
    );
    assert_eq!(
        with_commission(1).split_rewards(999_999_999),
        RewardsSplit { collator: 0, delegators: 999_999_999 }
    );
    assert_eq!(
        with_commission(500_000_000).split_rewards(u128::MAX),
        RewardsSplit { collator: u128::MAX / 2, delegators: u128::MAX / 2 + 1 }
    );
}

#[test]
fn the_commission_may_be_nothing_or_everything() {
    assert_eq!(
        with_commission(0).split_rewards(77),
        RewardsSplit { collator: 0, delegators: 77 }
    );
    assert_eq!(
        with_commission(1_000_000_000).split_rewards(77),
        RewardsSplit { collator: 77, delegators: 0 }
    );
    assert_eq!(
        with_commission(u32::MAX).split_rewards(77),
        RewardsSplit { collator: 77, delegators: 0 }
    );
}

#[test]
fn the_counter_advances_around_the_largest_balance() {
    assert_eq!(advance(10, 7), 17);
    assert_eq!(advance(u128::MAX - 4, 6), 1);
    assert_eq!(advance(u128::MAX, u128::MAX), u128::MAX - 1);
}

#[test]
fn a_second_claim_pays_nothing() {
    let first = claim(Shares(3), 1, u128::MAX - 4).unwrap();
    assert_eq!(first, Claim { rewards: 18, checkpoint: 1 });
    assert_eq!(
        claim(Shares(3), 1, first.checkpoint),
        Ok(Claim { rewards: 0, checkpoint: 1 })
    );
    assert_eq!(
        claim(Shares(u128::MAX), 1, first.checkpoint),
        Ok(Claim { rewards: 0, checkpoint: 1 })
    );
    assert_eq!(claim(Shares(u128::MAX), 2, 0), Err(Error::MathOverflow));
}

fn owed(candidate: u64, delegator: u64, shares: u128) -> ManualRewardsState<u64> {
    ManualRewardsState { candidate, delegator, shares: Shares(shares), counter: 17, checkpoint: 10 }
}

#[test]
fn a_pair_listed_again_is_paid_once() {
    let states = vec![owed(1, 2, 3), owed(1, 3, 5), owed(1, 2, 3), owed(2, 2, 1)];
    let claims = claim_all(&states).unwrap();
    let rewards: Vec<u128> = claims.iter().map(|claim| claim.rewards).collect();
    assert_eq!(rewards, vec![21, 35, 0, 7]);
    assert!(claims.iter().all(|claim| claim.checkpoint == 17));
}

#[test]
fn a_second_call_pays_nothing() {
    let states = vec![owed(1, 2, 3), owed(1, 3, 5)];
    let claims = claim_all(&states).unwrap();
    let later: Vec<_> = states
        .iter()
        .zip(&claims)
        .map(|(state, claim)| ManualRewardsState { checkpoint: claim.checkpoint, ..*state })
        .collect();
    assert_eq!(
        claim_all(&later),
        Ok(vec![Claim { rewards: 0, checkpoint: 17 }, Claim { rewards: 0, checkpoint: 17 }])
    );
}

#[test]
fn one_claim_that_cannot_be_paid_refuses_all() {
    assert_eq!(
        claim_all(&vec![owed(1, 2, 3), owed(1, 3, u128::MAX)]),
        Err(Error::MathOverflow)
    );
    assert_eq!(claim_all::<u64>(&vec![]), Ok(vec![]));
}
