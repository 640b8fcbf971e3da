//! What can go wrong in the pallet.

use crate::maths::{OverflowError, UnderflowError};
use vstd::prelude::*;

verus! {

/// Errors of the pallet.
#[derive(Debug, Clone, Copy, PartialEq, Eq, Structural)]
pub enum Error {
    InvalidPalletSetting,
    DisabledFeature,
    NoOneIsStaking,
    StakeMustBeNonZero,
    RewardsMustBeNonZero,
    MathUnderflow,
    MathOverflow,
    NotEnoughShares,
    TryingToLeaveTooSoon,
    InconsistentState,
    UnsufficientSharesForTransfer,
    CandidateTransferingOwnSharesForbidden,
    RequestCannotBeExecuted(u16),
    SwapResultsInZeroShares,
}

impl From<OverflowError> for Error {
    fn from(_error: OverflowError) -> (r: Self) {
        Error::MathOverflow
    }
}

impl vstd::std_specs::convert::FromSpecImpl<OverflowError> for Error {
    open spec fn obeys_from_spec() -> bool {
        true
    }

    open spec fn from_spec(_error: OverflowError) -> Self {
        Error::MathOverflow
    }
}

impl From<UnderflowError> for Error {
    fn from(_error: UnderflowError) -> (r: Self) {
        Error::MathUnderflow
    }
}

impl vstd::std_specs::convert::FromSpecImpl<UnderflowError> for Error {
    open spec fn obeys_from_spec() -> bool {
        true
    }

    open spec fn from_spec(_error: UnderflowError) -> Self {
        Error::MathUnderflow
    }
}

} // verus!
