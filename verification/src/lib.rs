//! A staking pallet based on pools of shares.
//!
//! Candidates are backed by delegators through pools inspired by AMM liquidity pools: one for
//! delegators that are joining, one for those that auto compound their rewards, one for those that
//! claim them by hand, and one for stake that is on its way out. Shares make it easy to give out
//! auto compounding rewards, by simply increasing what backs the shares, and to slash, by
//! decreasing it.
//!
//! - [`pallet`] decides who acts in a call and on what;
//! - [`pools`] values shares and turns stake into shares;
//! - [`rewards`] takes the part of the collator and counts what is claimed by hand;
//! - [`candidates`] ranks the eligible candidates;
//! - [`weights`] tells what a call is charged;
//! - [`laws`] says what each of their operations promises.

pub mod candidates;
pub mod config;
pub mod error;
pub mod event;
pub mod laws;
pub mod maths;
pub mod origin;
pub mod pallet;
pub mod pools;
pub mod rewards;
pub mod types;
pub mod weights;

pub use candidates::{
    CandidateState, EligibleCandidate, PositionChange, SortedEligibleCandidates,
};
pub use config::{Config, Settings};
pub use error::Error;
pub use event::Event;
pub use maths::{Balance, OverflowError, UnderflowError};
pub use origin::{NotSigned, Origin};
pub use pallet::{
    Action, ActionOf, Candidate, Delegator, Pallet, PendingOperationKeyOf, PendingOperationQueryOf,
    PoolsWrite,
};
pub use pools::{Conversion, PoolKeys, PoolsKey, SharePool};
pub use rewards::{Claim, ManualRewardsState, RewardsSplit};
pub use types::{
    AllTargetPool, PendingOperationKey, PendingOperationQuery, Shares, SharesOrStake, Stake,
    TargetPool,
};
pub use weights::{Weight, WeightInfo};
