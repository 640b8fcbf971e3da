//! What a call is charged before it is dispatched.

use vstd::prelude::*;

verus! {

/// The weight of a call: the computation time on reference hardware and the size of the proof of
/// the storage it touches.
#[derive(Debug, Clone, Copy, PartialEq, Eq, Structural)]
pub struct Weight {
    pub ref_time: u64,
    pub proof_size: u64,
}

/// The sum of two numbers, or the largest number where it is above.
pub open spec fn saturated(sum: int) -> u64 {
    if sum > u64::MAX {
        u64::MAX
    } else {
        sum as u64
    }
}

/// The larger of two numbers.
pub open spec fn larger(lhs: u64, rhs: u64) -> u64 {
    if lhs > rhs {
        lhs
    } else {
        rhs
    }
}

/// The sum of two weights, each part saturating on its own.
pub open spec fn sum_of(lhs: Weight, rhs: Weight) -> Weight {
    Weight {
        ref_time: saturated(lhs.ref_time + rhs.ref_time),
        proof_size: saturated(lhs.proof_size + rhs.proof_size),
    }
}

/// A weight with the larger of each part of two weights.
pub open spec fn max_of(lhs: Weight, rhs: Weight) -> Weight {
    Weight {
        ref_time: larger(lhs.ref_time, rhs.ref_time),
        proof_size: larger(lhs.proof_size, rhs.proof_size),
    }
}

/// Whether `lhs` is no larger than `rhs` in either part.
pub open spec fn at_most(lhs: Weight, rhs: Weight) -> bool {
    lhs.ref_time <= rhs.ref_time && lhs.proof_size <= rhs.proof_size
}

/// The worst case that is added to the weight of a call covers each of the two things that the
/// call can incur.
pub proof fn law_worst_case_covers_both(call: Weight, first: Weight, second: Weight)
    ensures
        at_most(sum_of(call, first), sum_of(call, max_of(first, second))),
        at_most(sum_of(call, second), sum_of(call, max_of(first, second))),
{
}

/// `frame_support::weights::Weight::saturating_add`. It adds the reference times and the proof
/// sizes, and gives `u64::MAX` for a part whose sum is above it.
#[verifier::external_body]
fn saturating_add(lhs: Weight, rhs: Weight) -> (r: Weight)
    ensures
        r == sum_of(lhs, rhs),
{
    let sum = frame_support::weights::Weight::from_parts(lhs.ref_time, lhs.proof_size)
        .saturating_add(frame_support::weights::Weight::from_parts(rhs.ref_time, rhs.proof_size));
    Weight { ref_time: sum.ref_time(), proof_size: sum.proof_size() }
}

/// `frame_support::weights::Weight::max`. It takes the larger reference time and the larger proof
/// size, which may come from different weights.
#[verifier::external_body]
fn max(lhs: Weight, rhs: Weight) -> (r: Weight)
    ensures
        r == max_of(lhs, rhs),
{
    let max = frame_support::weights::Weight::from_parts(lhs.ref_time, lhs.proof_size)
        .max(frame_support::weights::Weight::from_parts(rhs.ref_time, rhs.proof_size));
    Weight { ref_time: max.ref_time(), proof_size: max.proof_size() }
}

/// Weights that the runtime measured. Those that take a number are for that many items.
pub trait WeightInfo {
    fn rebalance_hold() -> Weight;

    fn request_delegate() -> Weight;

    fn execute_pending_operations(operations: u32) -> Weight;

    fn request_undelegate() -> Weight;

    fn claim_manual_rewards(pairs: u32) -> Weight;

    fn update_candidate_position(candidates: u32) -> Weight;

    fn swap_pool() -> Weight;
}

/// What a list of `len` items counts for in a weight. Only the low 32 bits count.
pub open spec fn counted(len: nat) -> u32 {
    (len % 0x1_0000_0000) as u32
}

/// The number of items that the weight of a call on `items` is measured for.
fn count<T>(items: &Vec<T>) -> (r: u32)
    ensures
        r == counted(items@.len()),
{
    let len: u64 = items.len() as u64;
    assert(len as u32 == len % 0x1_0000_0000) by (bit_vector);
    #[verifier::truncate]
    (len as u32)
}

/// The weight of a call that rebalances a hold.
pub fn rebalance_hold<W: WeightInfo>() -> (r: Weight)
    ensures
        call_ensures(W::rebalance_hold, (), r),
{
    W::rebalance_hold()
}

/// The weight of a request to delegate.
pub fn request_delegate<W: WeightInfo>() -> (r: Weight)
    ensures
        call_ensures(W::request_delegate, (), r),
{
    W::request_delegate()
}

/// The weight of executing pending operations. Each of them can incur a claim of manual rewards:
/// the worst case is added.
pub fn execute_pending_operations<W: WeightInfo, T>(operations: &Vec<T>) -> (r: Weight)
    ensures
        exists|execute: Weight, claim: Weight|
            {
                &&& #[trigger] call_ensures(
                    W::execute_pending_operations,
                    (counted(operations@.len()),),
                    execute,
                )
                &&& #[trigger] call_ensures(
                    W::claim_manual_rewards,
                    (counted(operations@.len()),),
                    claim,
                )
                &&& r == sum_of(execute, claim)
            },
{
    let operations: u32 = count(operations);
    let execute = W::execute_pending_operations(operations);
    let claim = W::claim_manual_rewards(operations);
    saturating_add(execute, claim)
}

/// The weight of a request to undelegate. It can incur either a claim of manual rewards or a
/// rebalancing of the hold: the worst case is added.
pub fn request_undelegate<W: WeightInfo>() -> (r: Weight)
    ensures
        exists|request: Weight, claim: Weight, rebalance: Weight|
            {
                &&& #[trigger] call_ensures(W::request_undelegate, (), request)
                &&& #[trigger] call_ensures(W::claim_manual_rewards, (1u32,), claim)
                &&& #[trigger] call_ensures(W::rebalance_hold, (), rebalance)
                &&& r == sum_of(request, max_of(claim, rebalance))
            },
{
    let request = W::request_undelegate();
    let claim = W::claim_manual_rewards(1);
    let rebalance = W::rebalance_hold();
    saturating_add(request, max(claim, rebalance))
}

/// The weight of a claim of manual rewards for each of `pairs`.
pub fn claim_manual_rewards<W: WeightInfo, T>(pairs: &Vec<T>) -> (r: Weight)
    ensures
        call_ensures(W::claim_manual_rewards, (counted(pairs@.len()),), r),
{
    W::claim_manual_rewards(count(pairs))
}

/// The weight of updating the position of each of `candidates`.
pub fn update_candidate_position<W: WeightInfo, T>(candidates: &Vec<T>) -> (r: Weight)
    ensures
        call_ensures(W::update_candidate_position, (counted(candidates@.len()),), r),
{
    W::update_candidate_position(count(candidates))
}

/// The weight of a swap between pools.
pub fn swap_pool<W: WeightInfo>() -> (r: Weight)
    ensures
        call_ensures(W::swap_pool, (), r),
{
    W::swap_pool()
}

/// Each part of a sum of weights is the sum of the parts where that is no larger than a part can
/// be, and the largest value otherwise.
pub proof fn law_weights_add_up_until_they_saturate(lhs: Weight, rhs: Weight)
    ensures
        lhs.ref_time + rhs.ref_time <= u64::MAX ==> sum_of(lhs, rhs).ref_time == lhs.ref_time
            + rhs.ref_time,
        lhs.ref_time + rhs.ref_time > u64::MAX ==> sum_of(lhs, rhs).ref_time == u64::MAX,
        lhs.proof_size + rhs.proof_size <= u64::MAX ==> sum_of(lhs, rhs).proof_size
            == lhs.proof_size + rhs.proof_size,
        lhs.proof_size + rhs.proof_size > u64::MAX ==> sum_of(lhs, rhs).proof_size == u64::MAX,
{
}

/// Each part of the maximum of two weights is that part of one of them, and no smaller than that
/// of the other.
pub proof fn law_maximum_takes_the_larger_of_each_part(lhs: Weight, rhs: Weight)
    ensures
        max_of(lhs, rhs).ref_time >= lhs.ref_time,
        max_of(lhs, rhs).ref_time >= rhs.ref_time,
        max_of(lhs, rhs).ref_time == lhs.ref_time || max_of(lhs, rhs).ref_time == rhs.ref_time,
        max_of(lhs, rhs).proof_size >= lhs.proof_size,
        max_of(lhs, rhs).proof_size >= rhs.proof_size,
        max_of(lhs, rhs).proof_size == lhs.proof_size || max_of(lhs, rhs).proof_size
            == rhs.proof_size,
{
}

/// A list is counted by its length, of which whole multiples of 2 to the power of 32 are left out.
pub proof fn law_lists_are_counted_by_their_length(len: nat)
    ensures
        len <= u32::MAX ==> counted(len) == len,
        counted(len + 0x1_0000_0000) == counted(len),
{
    vstd::arithmetic::div_mod::lemma_mod_add_multiples_vanish(len as int, 0x1_0000_0000);
}

} // verus!
