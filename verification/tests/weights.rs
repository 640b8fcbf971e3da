use pooled_staking::weights;
use pooled_staking::{Weight, WeightInfo};

fn weight(ref_time: u64, proof_size: u64) -> Weight {
    Weight { ref_time, proof_size }
}

struct Measured;

impl WeightInfo for Measured {
    fn rebalance_hold() -> Weight {
        weight(40, 1)
    }

    fn request_delegate() -> Weight {
        weight(100, 2)
    }

    fn execute_pending_operations(operations: u32) -> Weight {
        weight(1_000 * operations as u64, 3)
    }

    fn request_undelegate() -> Weight {
        weight(200, 4)
    }

    fn claim_manual_rewards(pairs: u32) -> Weight {
        weight(10 * pairs as u64, 5)
    }

    fn update_candidate_position(candidates: u32) -> Weight {
        weight(7 * candidates as u64, 6)
    }

    fn swap_pool() -> Weight {
        weight(300, 7)
    }
}

struct Huge;

impl WeightInfo for Huge {
    fn rebalance_hold() -> Weight {
        weight(1, u64::MAX)
    }

    fn request_delegate() -> Weight {
        weight(0, 0)
    }

    fn execute_pending_operations(_operations: u32) -> Weight {
        weight(u64::MAX, 1)
    }

    fn request_undelegate() -> Weight {
        weight(3, 4)
    }

    fn claim_manual_rewards(_pairs: u32) -> Weight {
        weight(2, 5)
    }

    fn update_candidate_position(_candidates: u32) -> Weight {
        weight(0, 0)
    }

    fn swap_pool() -> Weight {
        weight(0, 0)
    }
}

#[test]
fn plain_calls_weigh_what_was_measured() {
    assert_eq!(weights::rebalance_hold::<Measured>(), weight(40, 1));
    assert_eq!(weights::request_delegate::<Measured>(), weight(100, 2));
    assert_eq!(weights::swap_pool::<Measured>(), weight(300, 7));
}

#[test]
fn calls_on_lists_weigh_by_their_length() {
    assert_eq!(weights::claim_manual_rewards::<Measured, (u64, u64)>(&vec![(1, 2), (3, 4)]), weight(20, 5));
    assert_eq!(weights::claim_manual_rewards::<Measured, (u64, u64)>(&vec![]), weight(0, 5));
    assert_eq!(weights::update_candidate_position::<Measured, u64>(&vec![1, 2, 3]), weight(21, 6));
}

#[test]
fn executing_operations_adds_the_claims() {
    assert_eq!(weights::execute_pending_operations::<Measured, u64>(&vec![1, 2]), weight(2_020, 8));
}

#[test]
fn undelegating_adds_the_worst_case() {
    assert_eq!(weights::request_undelegate::<Measured>(), weight(240, 9));
}

#[test]
fn weights_saturate() {
    assert_eq!(
        weights::execute_pending_operations::<Huge, u64>(&vec![1]),
        weight(u64::MAX, 6)
    );
    assert_eq!(weights::request_undelegate::<Huge>(), weight(5, u64::MAX));
}
