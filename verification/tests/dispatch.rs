use pooled_staking::{
    Action, AllTargetPool, Config, Error, NotSigned, Origin, Pallet, PendingOperationKey,
    PendingOperationQuery, PoolsKey, PoolsWrite, SharesOrStake, TargetPool,
};

struct Runtime;

impl Config for Runtime {
    type AccountId = u64;
    type JoiningInstant = u32;
    type LeavingInstant = u32;
}

type Staking = Pallet<Runtime>;

const CANDIDATE: u64 = 1;
const DELEGATOR: u64 = 2;
const SOMEBODY: u64 = 3;

fn refused() -> Vec<Origin<u64>> {
    vec![Origin::Root, Origin::Unsigned, Origin::Authorized, Origin::Foreign]
}

#[test]
fn only_a_signed_origin_has_a_signer() {
    assert_eq!(Origin::Signed(SOMEBODY).signer(), Ok(SOMEBODY));
    for origin in refused() {
        assert_eq!(origin.signer(), Err(NotSigned));
    }
}

#[test]
fn anybody_may_rebalance_a_hold() {
    assert_eq!(
        Staking::rebalance_hold(
            Origin::Signed(SOMEBODY),
            CANDIDATE,
            DELEGATOR,
            AllTargetPool::Leaving
        ),
        Ok(Action::RebalanceHold {
            candidate: CANDIDATE,
            delegator: DELEGATOR,
            pool: AllTargetPool::Leaving,
        })
    );
    for origin in refused() {
        assert_eq!(
            Staking::rebalance_hold(origin, CANDIDATE, DELEGATOR, AllTargetPool::Leaving),
            Err(NotSigned)
        );
    }
}

#[test]
fn who_signs_delegates() {
    assert_eq!(
        Staking::request_delegate(
            Origin::Signed(DELEGATOR),
            CANDIDATE,
            TargetPool::ManualRewards,
            500
        ),
        Ok(Action::RequestDelegate {
            candidate: CANDIDATE,
            delegator: DELEGATOR,
            pool: TargetPool::ManualRewards,
            stake: 500,
        })
    );
    for origin in refused() {
        assert_eq!(
            Staking::request_delegate(origin, CANDIDATE, TargetPool::ManualRewards, 500),
            Err(NotSigned)
        );
    }
}

#[test]
fn anybody_may_execute_operations() {
    let operations = vec![
        PendingOperationQuery {
            delegator: DELEGATOR,
            operation: PendingOperationKey::JoiningAutoCompounding { candidate: CANDIDATE, at: 5 },
        },
        PendingOperationQuery {
            delegator: SOMEBODY,
            operation: PendingOperationKey::Leaving { candidate: CANDIDATE, at: 6 },
        },
    ];
    assert_eq!(
        Staking::execute_pending_operations(Origin::Signed(SOMEBODY), operations.clone()),
        Ok(Action::ExecutePendingOperations { operations: operations.clone() })
    );
    for origin in refused() {
        assert_eq!(
            Staking::execute_pending_operations(origin, operations.clone()),
            Err(NotSigned)
        );
    }
}

#[test]
fn who_signs_undelegates() {
    assert_eq!(
        Staking::request_undelegate(
            Origin::Signed(DELEGATOR),
            CANDIDATE,
            TargetPool::AutoCompounding,
            SharesOrStake::Stake(9)
        ),
        Ok(Action::RequestUndelegate {
            candidate: CANDIDATE,
            delegator: DELEGATOR,
            pool: TargetPool::AutoCompounding,
            amount: SharesOrStake::Stake(9),
        })
    );
    for origin in refused() {
        assert_eq!(
            Staking::request_undelegate(
                origin,
                CANDIDATE,
                TargetPool::AutoCompounding,
                SharesOrStake::Stake(9)
            ),
            Err(NotSigned)
        );
    }
}

#[test]
fn anybody_may_claim_rewards() {
    let pairs = vec![(CANDIDATE, DELEGATOR), (CANDIDATE, SOMEBODY)];
    assert_eq!(
        Staking::claim_manual_rewards(Origin::Signed(SOMEBODY), pairs.clone()),
        Ok(Action::ClaimManualRewards { pairs: pairs.clone() })
    );
    for origin in refused() {
        assert_eq!(
            Staking::claim_manual_rewards(origin, pairs.clone()),
            Err(NotSigned)
        );
    }
}

#[test]
fn anybody_may_update_positions() {
    assert_eq!(
        Staking::update_candidate_position(Origin::Signed(SOMEBODY), vec![CANDIDATE]),
        Ok(Action::UpdateCandidatePosition { candidates: vec![CANDIDATE] })
    );
    for origin in refused() {
        assert_eq!(
            Staking::update_candidate_position(origin, vec![CANDIDATE]),
            Err(NotSigned)
        );
    }
}

#[test]
fn who_signs_swaps() {
    assert_eq!(
        Staking::swap_pool(
            Origin::Signed(DELEGATOR),
            CANDIDATE,
            TargetPool::AutoCompounding,
            SharesOrStake::Shares(9)
        ),
        Ok(Action::SwapPool {
            candidate: CANDIDATE,
            delegator: DELEGATOR,
            source_pool: TargetPool::AutoCompounding,
            amount: SharesOrStake::Shares(9),
        })
    );
    for origin in refused() {
        assert_eq!(
            Staking::swap_pool(
                origin,
                CANDIDATE,
                TargetPool::AutoCompounding,
                SharesOrStake::Shares(9)
            ),
            Err(NotSigned)
        );
    }
}

#[test]
fn rewards_are_distributed_without_an_origin() {
    assert_eq!(
        Staking::distribute_rewards(CANDIDATE, 77),
        Action::DistributeRewards { candidate: CANDIDATE, rewards: 77 }
    );
}

fn stored(candidate: &u64, key: &PoolsKey<u64>) -> u128 {
    if *candidate != CANDIDATE {
        return 0;
    }
    match key {
        PoolsKey::JoiningShares { delegator: DELEGATOR } => 1,
        PoolsKey::JoiningSharesSupply => 4,
        PoolsKey::JoiningSharesTotalStaked => 10,
        PoolsKey::AutoCompoundingShares { delegator: DELEGATOR } => 2,
        PoolsKey::AutoCompoundingSharesSupply => 5,
        PoolsKey::AutoCompoundingSharesTotalStaked => 100,
        PoolsKey::ManualRewardsShares { delegator: DELEGATOR } => 3,
        PoolsKey::ManualRewardsSharesSupply => 0,
        PoolsKey::ManualRewardsSharesTotalStaked => 1_000,
        PoolsKey::LeavingShares { delegator: DELEGATOR } => 4,
        PoolsKey::LeavingSharesSupply => 1,
        PoolsKey::LeavingSharesTotalStaked => u128::MAX,
        _ => 0,
    }
}

#[test]
fn computed_stake_reads_the_asked_pool() {
    assert_eq!(
        Staking::computed_stake(stored, CANDIDATE, DELEGATOR, AllTargetPool::Joining),
        Some(2)
    );
    assert_eq!(
        Staking::computed_stake(stored, CANDIDATE, DELEGATOR, AllTargetPool::AutoCompounding),
        Some(40)
    );
}

#[test]
fn computed_stake_is_absent_without_a_price() {
    assert_eq!(
        Staking::computed_stake(stored, CANDIDATE, DELEGATOR, AllTargetPool::ManualRewards),
        None
    );
    assert_eq!(
        Staking::computed_stake(stored, CANDIDATE, DELEGATOR, AllTargetPool::Leaving),
        None
    );
}

#[test]
fn computed_stake_of_who_owns_nothing_is_zero() {
    assert_eq!(
        Staking::computed_stake(stored, CANDIDATE, SOMEBODY, AllTargetPool::AutoCompounding),
        Some(0)
    );
    assert_eq!(
        Staking::computed_stake(stored, SOMEBODY, DELEGATOR, AllTargetPool::AutoCompounding),
        Some(0)
    );
}

#[test]
fn compounding_keeps_the_shares_and_lowers_no_stake() {
    let write = Staking::compound_rewards(stored, &CANDIDATE, 7).unwrap();
    assert_eq!(
        write,
        PoolsWrite { key: PoolsKey::AutoCompoundingSharesTotalStaked, balance: 107 }
    );
    let rewarded = |candidate: &u64, key: &PoolsKey<u64>| {
        if *candidate == CANDIDATE && *key == write.key {
            write.balance
        } else {
            stored(candidate, key)
        }
    };
    assert_eq!(
        Staking::computed_stake(rewarded, CANDIDATE, DELEGATOR, AllTargetPool::AutoCompounding),
        Some(42)
    );
    assert_eq!(
        Staking::computed_stake(rewarded, CANDIDATE, DELEGATOR, AllTargetPool::Joining),
        Some(2)
    );
}

#[test]
fn rewards_above_the_largest_balance_do_not_compound() {
    assert_eq!(
        Staking::compound_rewards(stored, &CANDIDATE, u128::MAX - 99),
        Err(Error::MathOverflow)
    );
    assert_eq!(
        Staking::compound_rewards(stored, &CANDIDATE, u128::MAX - 100).map(|write| write.balance),
        Ok(u128::MAX)
    );
}
