use pooled_staking::pools::pool_keys;
use pooled_staking::{
    AllTargetPool, Conversion, Error, PoolKeys, PoolsKey, Settings, SharePool, Shares,
    SharesOrStake, Stake, TargetPool,
};

fn pool(supply: u128, total_staked: u128) -> SharePool {
    SharePool { supply: Shares(supply), total_staked: Stake(total_staked) }
}

const EMPTY: SharePool = SharePool { supply: Shares(0), total_staked: Stake(0) };

#[test]
fn target_pools_are_pools() {
    assert_eq!(AllTargetPool::from(TargetPool::AutoCompounding), AllTargetPool::AutoCompounding);
    assert_eq!(AllTargetPool::from(TargetPool::ManualRewards), AllTargetPool::ManualRewards);
}

#[test]
fn each_pool_has_its_own_keys() {
    assert_eq!(
        pool_keys(AllTargetPool::Joining, 7u64),
        PoolKeys {
            shares: PoolsKey::JoiningShares { delegator: 7 },
            supply: PoolsKey::JoiningSharesSupply,
            total_staked: PoolsKey::JoiningSharesTotalStaked,
        }
    );
    assert_eq!(
        pool_keys(AllTargetPool::AutoCompounding, 7u64),
        PoolKeys {
            shares: PoolsKey::AutoCompoundingShares { delegator: 7 },
            supply: PoolsKey::AutoCompoundingSharesSupply,
            total_staked: PoolsKey::AutoCompoundingSharesTotalStaked,
        }
    );
    assert_eq!(
        pool_keys(AllTargetPool::ManualRewards, 7u64),
        PoolKeys {
            shares: PoolsKey::ManualRewardsShares { delegator: 7 },
            supply: PoolsKey::ManualRewardsSharesSupply,
            total_staked: PoolsKey::ManualRewardsSharesTotalStaked,
        }
    );
    assert_eq!(
        pool_keys(AllTargetPool::Leaving, 7u64),
        PoolKeys {
            shares: PoolsKey::LeavingShares { delegator: 7 },
            supply: PoolsKey::LeavingSharesSupply,
            total_staked: PoolsKey::LeavingSharesTotalStaked,
        }
    );
    assert_ne!(
        pool_keys(AllTargetPool::Leaving, 7u64).shares,
        pool_keys(AllTargetPool::Leaving, 8u64).shares
    );
    assert_ne!(
        pool_keys(AllTargetPool::Leaving, 7u64).supply,
        pool_keys(AllTargetPool::Joining, 7u64).supply
    );
}

#[test]
fn shares_are_worth_their_part_of_the_backing() {
    assert_eq!(pool(10, 25).shares_to_stake(Shares(4)), Ok(Stake(10)));
    assert_eq!(pool(10, 25).shares_to_stake(Shares(1)), Ok(Stake(2)));
    assert_eq!(pool(10, 0).shares_to_stake(Shares(1)), Ok(Stake(0)));
    assert_eq!(EMPTY.shares_to_stake(Shares(1)), Err(Error::NoOneIsStaking));
    assert_eq!(
        pool(1, u128::MAX).shares_to_stake(Shares(2)),
        Err(Error::MathOverflow)
    );
}

#[test]
fn stake_buys_shares_at_the_price_of_the_pool() {
    assert_eq!(pool(10, 25).stake_to_shares(Stake(10)), Ok(Shares(4)));
    assert_eq!(pool(10, 25).stake_to_shares(Stake(12)), Ok(Shares(4)));
    assert_eq!(EMPTY.stake_to_shares(Stake(10)), Err(Error::NoOneIsStaking));
    assert_eq!(pool(10, 0).stake_to_shares(Stake(10)), Err(Error::MathOverflow));
    assert_eq!(
        pool(u128::MAX, 1).stake_to_shares(Stake(2)),
        Err(Error::MathOverflow)
    );
}

#[test]
fn resolved_shares_are_worth_at_most_the_stake() {
    let pool = pool(7, 31);
    assert_eq!(pool.resolve(SharesOrStake::Stake(17)), Ok(Shares(3)));
    assert_eq!(pool.shares_to_stake(Shares(3)), Ok(Stake(13)));
    assert_eq!(pool.shares_to_stake(Shares(4)), Ok(Stake(17)));
    assert!(4 * 31 > 17 * 7);
    assert_eq!(pool.resolve(SharesOrStake::Shares(17)), Ok(Shares(17)));
    assert_eq!(EMPTY.resolve(SharesOrStake::Shares(17)), Ok(Shares(17)));
    assert_eq!(EMPTY.resolve(SharesOrStake::Stake(17)), Err(Error::NoOneIsStaking));
}

#[test]
fn who_owns_no_shares_has_no_stake() {
    assert_eq!(EMPTY.computed_stake(Shares(0)), Ok(Stake(0)));
    assert_eq!(pool(10, 25).computed_stake(Shares(0)), Ok(Stake(0)));
    assert_eq!(EMPTY.computed_stake(Shares(1)), Err(Error::NoOneIsStaking));
    assert_eq!(
        pool(1, u128::MAX).computed_stake(Shares(2)),
        Err(Error::MathOverflow)
    );
}

#[test]
fn all_shares_are_worth_the_backing() {
    assert_eq!(pool(10, 25).computed_stake(Shares(10)), Ok(Stake(25)));
    assert_eq!(pool(3, u128::MAX).computed_stake(Shares(3)), Ok(Stake(u128::MAX)));
}

#[test]
fn stakes_are_covered_by_the_backing() {
    let pool = pool(7, 31);
    let stakes: u128 = [1, 2, 4]
        .into_iter()
        .map(|shares| pool.computed_stake(Shares(shares)).unwrap().0)
        .sum();
    assert_eq!(stakes, 4 + 8 + 17);
    assert!(stakes <= 31);
}

#[test]
fn rewards_are_shared_by_increasing_the_backing() {
    assert_eq!(pool(10, 25).computed_stake(Shares(4)), Ok(Stake(10)));
    assert_eq!(pool(10, 25 + 12).computed_stake(Shares(4)), Ok(Stake(14)));
    assert_eq!(pool(10, 25 + 13).computed_stake(Shares(4)), Ok(Stake(15)));
}

#[test]
fn slashes_are_shared_by_decreasing_the_backing() {
    assert_eq!(pool(10, 25).computed_stake(Shares(4)), Ok(Stake(10)));
    assert_eq!(pool(10, 25 - 10).computed_stake(Shares(4)), Ok(Stake(6)));
    assert_eq!(pool(10, 25 - 11).computed_stake(Shares(4)), Ok(Stake(5)));
    assert_eq!(pool(10, 0).computed_stake(Shares(4)), Ok(Stake(0)));
}

#[test]
fn first_shares_have_the_initial_value() {
    assert_eq!(EMPTY.stake_to_shares_or_init(Stake(25), 10), Ok(Shares(2)));
    assert_eq!(EMPTY.stake_to_shares_or_init(Stake(25), 5), Ok(Shares(5)));
    assert_eq!(EMPTY.stake_to_shares_or_init(Stake(10), 10), Ok(Shares(1)));
    assert_eq!(EMPTY.stake_to_shares_or_init(Stake(9), 10), Ok(Shares(0)));
    assert_eq!(
        EMPTY.stake_to_shares_or_init(Stake(9), 0),
        Err(Error::InvalidPalletSetting)
    );
    assert_eq!(pool(10, 25).stake_to_shares_or_init(Stake(12), 1), Ok(Shares(4)));
    assert_eq!(pool(10, 25).stake_to_shares_or_init(Stake(12), 0), Ok(Shares(4)));
}

#[test]
fn rounding_of_a_conversion_is_released() {
    assert_eq!(
        pool(10, 25).convert(Stake(14), 1),
        Ok(Conversion { shares: Shares(5), staked: Stake(12), released: Stake(2) })
    );
    assert_eq!(
        EMPTY.convert(Stake(25), 10),
        Ok(Conversion { shares: Shares(2), staked: Stake(20), released: Stake(5) })
    );
    assert_eq!(
        EMPTY.convert(Stake(9), 10),
        Ok(Conversion { shares: Shares(0), staked: Stake(0), released: Stake(9) })
    );
    assert_eq!(EMPTY.convert(Stake(9), 0), Err(Error::InvalidPalletSetting));
    assert_eq!(pool(10, 0).convert(Stake(9), 1), Err(Error::MathOverflow));
}

#[test]
fn each_target_pool_has_its_initial_share_value() {
    let settings = Settings {
        initial_manual_claim_share_value: 3,
        initial_auto_compounding_share_value: 5,
        minimum_self_delegation: 100,
        rewards_collator_commission: 200_000_000,
        eligible_candidates_buffer_size: 2,
    };
    assert_eq!(settings.initial_share_value(TargetPool::ManualRewards), 3);
    assert_eq!(settings.initial_share_value(TargetPool::AutoCompounding), 5);
}

#[test]
fn a_reward_raises_the_backing() {
    let mut rewarded = pool(10, 25);
    assert_eq!(rewarded.reward(12), Ok(()));
    assert_eq!(rewarded, pool(10, 37));
    let mut full = pool(10, u128::MAX);
    assert_eq!(full.reward(1), Err(Error::MathOverflow));
    assert_eq!(full, pool(10, u128::MAX));
}

#[test]
fn a_slash_lowers_the_backing() {
    let mut slashed = pool(10, 25);
    assert_eq!(slashed.slash(25), Ok(()));
    assert_eq!(slashed, pool(10, 0));
    assert_eq!(slashed.slash(1), Err(Error::MathUnderflow));
    assert_eq!(slashed, pool(10, 0));
}
