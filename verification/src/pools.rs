//! Pools of shares.
//!
//! Each pool of a candidate is backed by an amount of currency that its shares divide evenly. The
//! worth of a share follows the backing: auto compounding rewards are given out by increasing it,
//! a slash decreases it, and in both cases no delegator has to be visited.

use crate::error::Error;
use crate::maths::{
    law_mul_div_is_the_largest_quotient, mul_div, mul_div_floor, Balance, OverflowError,
    UnderflowError,
};
use crate::types::{AllTargetPool, Shares, SharesOrStake, Stake};
use vstd::arithmetic::div_mod::{lemma_fundamental_div_mod, lemma_fundamental_div_mod_converse};
use vstd::prelude::*;

verus! {

/// Second key of the pools storage; the first is the candidate. One map keeps every balance of
/// every pool.
#[derive(Debug, Clone, Copy, PartialEq, Eq)]
pub enum PoolsKey<A> {
    /// Total amount of currency backing the candidate across all pools.
    CandidateTotalStake,
    /// Amount of joining shares a delegator has for the candidate.
    JoiningShares { delegator: A },
    /// Total amount of joining shares existing for the candidate.
    JoiningSharesSupply,
    /// Amount of currency backing all the joining shares of the candidate.
    JoiningSharesTotalStaked,
    /// Amount of currency held in the delegator account.
    JoiningSharesHeldStake { delegator: A },
    /// Amount of auto compounding shares a delegator has for the candidate.
    AutoCompoundingShares { delegator: A },
    /// Total amount of auto compounding shares existing for the candidate.
    AutoCompoundingSharesSupply,
    /// Amount of currency backing all the auto compounding shares of the candidate.
    AutoCompoundingSharesTotalStaked,
    /// Amount of currency held in the delegator account.
    AutoCompoundingSharesHeldStake { delegator: A },
    /// Amount of manual rewards shares a delegator has for the candidate.
    ManualRewardsShares { delegator: A },
    /// Total amount of manual rewards shares existing for the candidate.
    ManualRewardsSharesSupply,
    /// Amount of currency backing all the manual rewards shares of the candidate.
    ManualRewardsSharesTotalStaked,
    /// Amount of currency held in the delegator account.
    ManualRewardsSharesHeldStake { delegator: A },
    /// Counter of the cumulated rewards per share generated by the candidate since genesis. It is
    /// safe for it to wrap around the largest balance.
    ManualRewardsCounter,
    /// Value of the counter at the last time the delegator claimed its rewards or changed its
    /// amount of shares. What the counter gained since then is the claimable reward per share.
    ManualRewardsCheckpoint { delegator: A },
    /// Amount of shares of the delegator in the leaving pool of the candidate. Funds stay there,
    /// and stay slashable, until the leaving period has elapsed.
    LeavingShares { delegator: A },
    /// Total amount of leaving shares existing for the candidate.
    LeavingSharesSupply,
    /// Amount of currency backing all the leaving shares of the candidate.
    LeavingSharesTotalStaked,
    /// Amount of currency held in the delegator account.
    LeavingSharesHeldStake { delegator: A },
}

/// The keys under which the storage of a candidate keeps what one delegator owns of one pool.
#[derive(Debug, Clone, Copy, PartialEq, Eq)]
pub struct PoolKeys<A> {
    /// Amount of shares of the delegator.
    pub shares: PoolsKey<A>,
    /// Total amount of shares.
    pub supply: PoolsKey<A>,
    /// Amount of currency backing all the shares.
    pub total_staked: PoolsKey<A>,
}

/// The keys of `pool` for `delegator`.
pub open spec fn keys_of<A>(pool: AllTargetPool, delegator: A) -> PoolKeys<A> {
    match pool {
        AllTargetPool::Joining => PoolKeys {
            shares: PoolsKey::JoiningShares { delegator },
            supply: PoolsKey::JoiningSharesSupply,
            total_staked: PoolsKey::JoiningSharesTotalStaked,
        },
        AllTargetPool::AutoCompounding => PoolKeys {
            shares: PoolsKey::AutoCompoundingShares { delegator },
            supply: PoolsKey::AutoCompoundingSharesSupply,
            total_staked: PoolsKey::AutoCompoundingSharesTotalStaked,
        },
        AllTargetPool::ManualRewards => PoolKeys {
            shares: PoolsKey::ManualRewardsShares { delegator },
            supply: PoolsKey::ManualRewardsSharesSupply,
            total_staked: PoolsKey::ManualRewardsSharesTotalStaked,
        },
        AllTargetPool::Leaving => PoolKeys {
            shares: PoolsKey::LeavingShares { delegator },
            supply: PoolsKey::LeavingSharesSupply,
            total_staked: PoolsKey::LeavingSharesTotalStaked,
        },
    }
}

/// The keys under which the storage keeps what `delegator` owns of `pool`.
pub fn pool_keys<A>(pool: AllTargetPool, delegator: A) -> (r: PoolKeys<A>)
    ensures
        r == keys_of(pool, delegator),
{
    match pool {
        AllTargetPool::Joining => PoolKeys {
            shares: PoolsKey::JoiningShares { delegator },
            supply: PoolsKey::JoiningSharesSupply,
            total_staked: PoolsKey::JoiningSharesTotalStaked,
        },
        AllTargetPool::AutoCompounding => PoolKeys {
            shares: PoolsKey::AutoCompoundingShares { delegator },
            supply: PoolsKey::AutoCompoundingSharesSupply,
            total_staked: PoolsKey::AutoCompoundingSharesTotalStaked,
        },
        AllTargetPool::ManualRewards => PoolKeys {
            shares: PoolsKey::ManualRewardsShares { delegator },
            supply: PoolsKey::ManualRewardsSharesSupply,
            total_staked: PoolsKey::ManualRewardsSharesTotalStaked,
        },
        AllTargetPool::Leaving => PoolKeys {
            shares: PoolsKey::LeavingShares { delegator },
            supply: PoolsKey::LeavingSharesSupply,
            total_staked: PoolsKey::LeavingSharesTotalStaked,
        },
    }
}

/// A pool of one candidate: its shares and the currency that backs them.
#[derive(Debug, Clone, Copy, PartialEq, Eq)]
pub struct SharePool {
    /// Total amount of shares.
    pub supply: Shares<Balance>,
    /// Amount of currency backing all the shares.
    pub total_staked: Stake<Balance>,
}

/// Stake that enters a pool.
#[derive(Debug, Clone, Copy, PartialEq, Eq)]
pub struct Conversion {
    /// The shares that it is turned into.
    pub shares: Shares<Balance>,
    /// What those shares are worth.
    pub staked: Stake<Balance>,
    /// What is left over by the rounding.
    pub released: Stake<Balance>,
}

impl SharePool {
    /// What `shares` of the pool are worth, rounded down.
    pub open spec fn worth(self, shares: nat) -> nat
        recommends
            self.supply.0 > 0,
    {
        mul_div_floor(shares, self.total_staked.0 as nat, self.supply.0 as nat)
    }

    /// How many shares of the pool `stake` pays for, rounded down.
    pub open spec fn affordable(self, stake: nat) -> nat
        recommends
            self.total_staked.0 > 0,
    {
        mul_div_floor(stake, self.supply.0 as nat, self.total_staked.0 as nat)
    }

    /// The outcome of [`SharePool::shares_to_stake`].
    pub open spec fn stake_of(self, shares: Shares<Balance>) -> Result<Stake<Balance>, Error> {
        if self.supply.0 == 0 {
            Err(Error::NoOneIsStaking)
        } else if self.worth(shares.0 as nat) > Balance::MAX {
            Err(Error::MathOverflow)
        } else {
            Ok(Stake(self.worth(shares.0 as nat) as Balance))
        }
    }

    /// The outcome of [`SharePool::stake_to_shares`].
    pub open spec fn shares_for(self, stake: Stake<Balance>) -> Result<Shares<Balance>, Error> {
        if self.supply.0 == 0 {
            Err(Error::NoOneIsStaking)
        } else if self.total_staked.0 == 0 || self.affordable(stake.0 as nat) > Balance::MAX {
            Err(Error::MathOverflow)
        } else {
            Ok(Shares(self.affordable(stake.0 as nat) as Balance))
        }
    }

    /// The outcome of [`SharePool::computed_stake`].
    pub open spec fn stake_held(self, shares: Shares<Balance>) -> Result<Stake<Balance>, Error> {
        if shares.0 == 0 {
            Ok(Stake(0))
        } else {
            self.stake_of(shares)
        }
    }

    /// The outcome of [`SharePool::resolve`].
    pub open spec fn resolved(self, amount: SharesOrStake<Balance>) -> Result<
        Shares<Balance>,
        Error,
    > {
        match amount {
            SharesOrStake::Shares(shares) => Ok(Shares(shares)),
            SharesOrStake::Stake(stake) => self.shares_for(Stake(stake)),
        }
    }

    /// The outcome of [`SharePool::stake_to_shares_or_init`].
    pub open spec fn shares_for_or_init(
        self,
        stake: Stake<Balance>,
        initial_share_value: Balance,
    ) -> Result<Shares<Balance>, Error> {
        if self.supply.0 > 0 {
            self.shares_for(stake)
        } else if initial_share_value == 0 {
            Err(Error::InvalidPalletSetting)
        } else {
            Ok(Shares(stake.0 / initial_share_value))
        }
    }

    /// What `shares` are worth that are added to the pool: its price where it has one, and
    /// `initial_share_value` for each of its first shares.
    pub open spec fn price_of(self, shares: nat, initial_share_value: Balance) -> nat {
        if self.supply.0 > 0 {
            self.worth(shares)
        } else {
            shares * initial_share_value as nat
        }
    }

    /// What `shares` of the pool are worth. A pool without shares gives no price.
    pub fn shares_to_stake(&self, shares: Shares<Balance>) -> (r: Result<Stake<Balance>, Error>)
        ensures
            r == self.stake_of(shares),
    {
        if self.supply.0 == 0 {
            return Err(Error::NoOneIsStaking);
        }
        match mul_div(shares.0, self.total_staked.0, self.supply.0) {
            Ok(stake) => Ok(Stake(stake)),
            Err(error) => Err(Error::from(error)),
        }
    }

    /// The amount of shares of the pool that is worth up to `stake`. A pool without shares gives
    /// no price, and no amount of shares is too many for a pool that lost all of its backing.
    pub fn stake_to_shares(&self, stake: Stake<Balance>) -> (r: Result<Shares<Balance>, Error>)
        ensures
            r == self.shares_for(stake),
    {
        if self.supply.0 == 0 {
            return Err(Error::NoOneIsStaking);
        }
        if self.total_staked.0 == 0 {
            return Err(Error::MathOverflow);
        }
        match mul_div(stake.0, self.supply.0, self.total_staked.0) {
            Ok(shares) => Ok(Shares(shares)),
            Err(error) => Err(Error::from(error)),
        }
    }

    /// The amount of shares to create for `stake`. Where they are the first ones the supply can be
    /// arbitrary, and each share is worth `initial_share_value`.
    pub fn stake_to_shares_or_init(
        &self,
        stake: Stake<Balance>,
        initial_share_value: Balance,
    ) -> (r: Result<Shares<Balance>, Error>)
        ensures
            r == self.shares_for_or_init(stake, initial_share_value),
    {
        if self.supply.0 > 0 {
            self.stake_to_shares(stake)
        } else if initial_share_value == 0 {
            Err(Error::InvalidPalletSetting)
        } else {
            Ok(Shares(stake.0 / initial_share_value))
        }
    }

    /// Splits `stake` that enters the pool into what its new shares are worth, which is staked,
    /// and the rounding of the conversion, which is released.
    pub fn convert(&self, stake: Stake<Balance>, initial_share_value: Balance) -> (r: Result<
        Conversion,
        Error,
    >)
        ensures
            match r {
                Ok(conversion) => {
                    &&& self.shares_for_or_init(stake, initial_share_value) == Ok::<
                        Shares<Balance>,
                        Error,
                    >(conversion.shares)
                    &&& conversion.staked.0 == self.price_of(
                        conversion.shares.0 as nat,
                        initial_share_value,
                    )
                    &&& conversion.staked.0 + conversion.released.0 == stake.0
                },
                Err(error) => self.shares_for_or_init(stake, initial_share_value) == Err::<
                    Shares<Balance>,
                    Error,
                >(error),
            },
    {
        let shares = match self.stake_to_shares_or_init(stake, initial_share_value) {
            Ok(shares) => shares,
            Err(error) => {
                return Err(error);
            },
        };
        proof {
            lemma_price_is_at_most_the_stake(*self, stake, initial_share_value, shares);
        }
        let staked: Balance = if self.supply.0 > 0 {
            match mul_div(shares.0, self.total_staked.0, self.supply.0) {
                Ok(staked) => staked,
                Err(error) => {
                    return Err(Error::from(error));
                },
            }
        } else {
            shares.0 * initial_share_value
        };
        Ok(Conversion { shares, staked: Stake(staked), released: Stake(stake.0 - staked) })
    }

    /// The stake of a delegator that owns `shares` of the pool. Who owns none has none, whatever
    /// the state of the pool.
    pub fn computed_stake(&self, shares: Shares<Balance>) -> (r: Result<Stake<Balance>, Error>)
        ensures
            r == self.stake_held(shares),
    {
        if shares.0 == 0 {
            Ok(Stake(0))
        } else {
            self.shares_to_stake(shares)
        }
    }

    /// The amount of shares that a call on `amount` moves.
    pub fn resolve(&self, amount: SharesOrStake<Balance>) -> (r: Result<Shares<Balance>, Error>)
        ensures
            r == self.resolved(amount),
    {
        match amount {
            SharesOrStake::Shares(shares) => Ok(Shares(shares)),
            SharesOrStake::Stake(stake) => self.stake_to_shares(Stake(stake)),
        }
    }
}

impl SharePool {
    /// The pool once `reward` was added to its backing.
    pub open spec fn rewarded(self, reward: nat) -> SharePool
        recommends
            self.total_staked.0 + reward <= Balance::MAX,
    {
        SharePool { total_staked: Stake((self.total_staked.0 + reward) as Balance), ..self }
    }

    /// The pool once `loss` was taken off its backing.
    pub open spec fn slashed(self, loss: nat) -> SharePool
        recommends
            loss <= self.total_staked.0,
    {
        SharePool { total_staked: Stake((self.total_staked.0 - loss) as Balance), ..self }
    }

    /// Adds `amount` to the backing, which gives it out to all the shares.
    pub fn reward(&mut self, amount: Balance) -> (r: Result<(), Error>)
        ensures
            match r {
                Ok(_) => {
                    &&& old(self).total_staked.0 + amount <= Balance::MAX
                    &&& *final(self) == old(self).rewarded(amount as nat)
                },
                Err(error) => {
                    &&& error == Error::MathOverflow
                    &&& old(self).total_staked.0 + amount > Balance::MAX
                    &&& *final(self) == *old(self)
                },
            },
    {
        match self.total_staked.0.checked_add(amount) {
            Some(total_staked) => {
                self.total_staked = Stake(total_staked);
                Ok(())
            },
            None => Err(Error::from(OverflowError)),
        }
    }

    /// Takes `amount` off the backing, which slashes all the shares.
    pub fn slash(&mut self, amount: Balance) -> (r: Result<(), Error>)
        ensures
            match r {
                Ok(_) => {
                    &&& amount <= old(self).total_staked.0
                    &&& *final(self) == old(self).slashed(amount as nat)
                },
                Err(error) => {
                    &&& error == Error::MathUnderflow
                    &&& amount > old(self).total_staked.0
                    &&& *final(self) == *old(self)
                },
            },
    {
        match self.total_staked.0.checked_sub(amount) {
            Some(total_staked) => {
                self.total_staked = Stake(total_staked);
                Ok(())
            },
            None => Err(Error::from(UnderflowError)),
        }
    }

    /// The part of `amount` that falls to `shares`, rounded down.
    pub open spec fn pro_rata(self, amount: nat, shares: nat) -> nat
        recommends
            self.supply.0 > 0,
    {
        mul_div_floor(shares, amount, self.supply.0 as nat)
    }
}

/// The sum of `amounts`.
pub open spec fn total_of(amounts: Seq<nat>) -> nat
    decreases amounts.len(),
{
    if amounts.len() == 0 {
        0
    } else {
        total_of(amounts.drop_last()) + amounts.last()
    }
}

/// Dividing a sum gives what dividing its parts gives, or one more.
proof fn lemma_div_of_sum(lhs: int, rhs: int, div: int)
    requires
        div > 0,
    ensures
        lhs / div + rhs / div <= (lhs + rhs) / div <= lhs / div + rhs / div + 1,
{
    lemma_fundamental_div_mod(lhs, div);
    lemma_fundamental_div_mod(rhs, div);
    let quotient = lhs / div + rhs / div;
    let remainder = lhs % div + rhs % div;
    assert(div * (lhs / div) + div * (rhs / div) == quotient * div) by (nonlinear_arith)
        requires
            quotient == lhs / div + rhs / div,
    ;
    if remainder < div {
        lemma_fundamental_div_mod_converse(lhs + rhs, div, quotient, remainder);
    } else {
        assert((quotient + 1) * div == quotient * div + div) by (nonlinear_arith);
        lemma_fundamental_div_mod_converse(lhs + rhs, div, quotient + 1, remainder - div);
    }
}

/// The quotient of a division, times the divisor, is at most the dividend, and one more is above.
proof fn lemma_div_bounds(value: int, div: int)
    requires
        div > 0,
    ensures
        (value / div) * div <= value < (value / div + 1) * div,
{
    lemma_fundamental_div_mod(value, div);
    assert((value / div + 1) * div == div * (value / div) + div) by (nonlinear_arith);
    assert((value / div) * div == div * (value / div)) by (nonlinear_arith);
}

/// A value of at most `bound * div` has a quotient of at most `bound`.
proof fn lemma_div_at_most(value: int, div: int, bound: int)
    requires
        div > 0,
        value <= bound * div,
    ensures
        value / div <= bound,
{
    lemma_div_bounds(value, div);
    assert(value / div <= bound) by (nonlinear_arith)
        requires
            (value / div) * div <= value,
            value <= bound * div,
            div > 0,
    ;
}

/// Stake given to a call is turned into the largest amount of shares that is not worth more: what
/// those shares are worth can be told and is at most the given stake, and one share more would,
/// before rounding, be worth more than it.
pub proof fn law_resolved_shares_are_worth_at_most_the_stake(
    pool: SharePool,
    stake: Balance,
    shares: Shares<Balance>,
)
    requires
        pool.resolved(SharesOrStake::Stake(stake)) == Ok::<Shares<Balance>, Error>(shares),
    ensures
        pool.stake_of(shares) matches Ok(worth) && worth.0 <= stake,
        shares.0 * pool.total_staked.0 <= stake * pool.supply.0 < (shares.0 + 1)
            * pool.total_staked.0,
{
    let total = pool.total_staked.0 as int;
    let supply = pool.supply.0 as int;
    assert((stake as nat) * (supply as nat) == stake * supply);
    assert((shares.0 as nat) * (total as nat) == shares.0 * total);
    lemma_div_bounds(stake * supply, total);
    lemma_div_at_most(shares.0 * total, supply, stake as int);
}

/// The shares created for a stake are priced at most that stake.
proof fn lemma_price_is_at_most_the_stake(
    pool: SharePool,
    stake: Stake<Balance>,
    initial_share_value: Balance,
    shares: Shares<Balance>,
)
    requires
        pool.shares_for_or_init(stake, initial_share_value) == Ok::<Shares<Balance>, Error>(shares),
    ensures
        pool.price_of(shares.0 as nat, initial_share_value) <= stake.0,
{
    if pool.supply.0 > 0 {
        law_resolved_shares_are_worth_at_most_the_stake(pool, stake.0, shares);
    } else {
        lemma_div_bounds(stake.0 as int, initial_share_value as int);
    }
}

/// The first shares of a pool can be created for any stake, and rounding leaves over less than
/// the value of one of them.
pub proof fn law_first_shares(pool: SharePool, stake: Stake<Balance>, initial_share_value: Balance)
    requires
        pool.supply.0 == 0,
        initial_share_value > 0,
    ensures
        pool.shares_for_or_init(stake, initial_share_value) matches Ok(shares) && {
            let price = pool.price_of(shares.0 as nat, initial_share_value);
            price <= stake.0 < price + initial_share_value
        },
{
    lemma_div_bounds(stake.0 as int, initial_share_value as int);
    let shares = stake.0 / initial_share_value;
    assert((shares + 1) * initial_share_value == shares * initial_share_value
        + initial_share_value) by (nonlinear_arith);
}

/// A lower initial value makes for a supply that is at least as high.
pub proof fn law_lower_initial_value_makes_a_higher_supply(
    pool: SharePool,
    stake: Stake<Balance>,
    low: Balance,
    high: Balance,
)
    requires
        pool.supply.0 == 0,
        0 < low <= high,
    ensures
        pool.shares_for_or_init(stake, low) matches Ok(more)
            && pool.shares_for_or_init(stake, high) matches Ok(fewer) && fewer.0 <= more.0,
{
    vstd::arithmetic::div_mod::lemma_div_is_ordered_by_denominator(
        stake.0 as int,
        low as int,
        high as int,
    );
}

/// The initial value is a barrier of entry: a stake makes at least one first share if and only if
/// it reaches that value.
pub proof fn law_initial_value_is_a_barrier_of_entry(
    pool: SharePool,
    stake: Stake<Balance>,
    initial_share_value: Balance,
)
    requires
        pool.supply.0 == 0,
        initial_share_value > 0,
    ensures
        pool.shares_for_or_init(stake, initial_share_value) matches Ok(shares) && (shares.0 > 0
            <==> stake.0 >= initial_share_value),
{
    lemma_div_bounds(stake.0 as int, initial_share_value as int);
    let shares = stake.0 / initial_share_value;
    assert(shares > 0 ==> shares * initial_share_value >= initial_share_value)
        by (nonlinear_arith)
        requires
            shares >= 0,
            initial_share_value > 0,
    ;
    assert(shares == 0 ==> (shares + 1) * initial_share_value == initial_share_value)
        by (nonlinear_arith);
}

/// An amount given in shares is used as it is.
pub proof fn law_resolved_shares_are_kept(pool: SharePool, shares: Balance)
    ensures
        pool.resolved(SharesOrStake::Shares(shares)) == Ok::<Shares<Balance>, Error>(
            Shares(shares),
        ),
{
}

/// All the shares of a pool together are worth exactly its backing.
pub proof fn law_supply_is_worth_the_backing(pool: SharePool)
    requires
        pool.supply.0 > 0,
    ensures
        pool.worth(pool.supply.0 as nat) == pool.total_staked.0,
        pool.stake_held(pool.supply) == Ok::<Stake<Balance>, Error>(pool.total_staked),
{
    let total = pool.total_staked.0 as int;
    let supply = pool.supply.0 as int;
    assert((supply as nat) * (total as nat) == total * supply + 0) by (nonlinear_arith)
        requires
            supply >= 0,
            total >= 0,
    ;
    lemma_fundamental_div_mod_converse(supply * total, supply, total, 0);
}

/// Adding a reward to the backing of a pool gives it out: the shares of a delegator gain their
/// part of the reward, up to the rounding of one unit, and all shares together gain all of it.
pub proof fn law_rewards_are_shared_by_increasing_the_backing(
    pool: SharePool,
    reward: nat,
    shares: nat,
)
    requires
        pool.supply.0 > 0,
        pool.total_staked.0 + reward <= Balance::MAX,
    ensures
        pool.worth(shares) + pool.pro_rata(reward, shares) <= pool.rewarded(reward).worth(shares),
        pool.rewarded(reward).worth(shares) <= pool.worth(shares) + pool.pro_rata(reward, shares)
            + 1,
        pool.rewarded(reward).worth(pool.supply.0 as nat) == pool.worth(pool.supply.0 as nat)
            + reward,
{
    let total = pool.total_staked.0 as nat;
    assert(shares * (total + reward) == shares * total + shares * reward) by (nonlinear_arith);
    lemma_div_of_sum(
        (shares * total) as int,
        (shares * reward) as int,
        pool.supply.0 as int,
    );
    law_supply_is_worth_the_backing(pool);
    law_supply_is_worth_the_backing(pool.rewarded(reward));
}

/// Taking a loss off the backing of a pool slashes its shares: those of a delegator lose their
/// part of the loss, up to the rounding of one unit, and all shares together lose all of it.
pub proof fn law_slashes_are_shared_by_decreasing_the_backing(
    pool: SharePool,
    loss: nat,
    shares: nat,
)
    requires
        pool.supply.0 > 0,
        loss <= pool.total_staked.0,
    ensures
        pool.slashed(loss).worth(shares) + pool.pro_rata(loss, shares) <= pool.worth(shares),
        pool.worth(shares) <= pool.slashed(loss).worth(shares) + pool.pro_rata(loss, shares) + 1,
        pool.slashed(loss).worth(pool.supply.0 as nat) + loss == pool.worth(pool.supply.0 as nat),
{
    law_rewards_are_shared_by_increasing_the_backing(pool.slashed(loss), loss, shares);
    assert(pool.slashed(loss).rewarded(loss) == pool);
}

/// More shares are never worth less.
pub proof fn law_worth_grows_with_the_shares(pool: SharePool, fewer: nat, more: nat)
    requires
        pool.supply.0 > 0,
        fewer <= more,
    ensures
        pool.worth(fewer) <= pool.worth(more),
{
    let total = pool.total_staked.0 as nat;
    assert(fewer * total <= more * total) by (nonlinear_arith)
        requires
            fewer <= more,
    ;
    vstd::arithmetic::div_mod::lemma_div_is_ordered(
        (fewer * total) as int,
        (more * total) as int,
        pool.supply.0 as int,
    );
}

/// A delegator that owns no more shares than there are has a stake, and it is at most the backing
/// of the pool.
pub proof fn law_owned_shares_have_a_stake(pool: SharePool, shares: Shares<Balance>)
    requires
        shares.0 <= pool.supply.0,
    ensures
        pool.stake_held(shares) matches Ok(stake) && stake.0 <= pool.total_staked.0,
{
    if shares.0 > 0 {
        law_worth_grows_with_the_shares(pool, shares.0 as nat, pool.supply.0 as nat);
        law_supply_is_worth_the_backing(pool);
    }
}

/// The stakes of all the delegators of a pool are covered by its backing.
pub proof fn law_stakes_are_covered_by_the_backing(pool: SharePool, owned: Seq<nat>)
    requires
        pool.supply.0 > 0,
        total_of(owned) <= pool.supply.0,
    ensures
        total_of(owned.map_values(|shares: nat| pool.worth(shares))) <= pool.total_staked.0,
{
    lemma_worths_add_up(pool, owned);
    law_worth_grows_with_the_shares(pool, total_of(owned), pool.supply.0 as nat);
    law_supply_is_worth_the_backing(pool);
}

/// Amounts of shares that are valued one by one are together worth at most what their sum is.
proof fn lemma_worths_add_up(pool: SharePool, owned: Seq<nat>)
    requires
        pool.supply.0 > 0,
    ensures
        total_of(owned.map_values(|shares: nat| pool.worth(shares))) <= pool.worth(
            total_of(owned),
        ),
    decreases owned.len(),
{
    let worth = |shares: nat| pool.worth(shares);
    if owned.len() > 0 {
        let rest = owned.drop_last();
        lemma_worths_add_up(pool, rest);
        assert(owned.map_values(worth).drop_last() == rest.map_values(worth));
        let total = pool.total_staked.0 as nat;
        let sum = total_of(rest);
        let last = owned.last();
        assert((sum + last) * total == sum * total + last * total) by (nonlinear_arith);
        lemma_div_of_sum((sum * total) as int, (last * total) as int, pool.supply.0 as int);
    }
}

/// What a pool keeps never falls on the key of something else: the shares of two delegators, or of
/// one in two pools, have different keys, and the supply and the backing of a pool have keys that
/// no other pool uses.
pub proof fn law_pools_do_not_share_keys<A>(
    first: AllTargetPool,
    first_delegator: A,
    second: AllTargetPool,
    second_delegator: A,
)
    ensures
        keys_of(first, first_delegator).shares == keys_of(second, second_delegator).shares
            <==> first == second && first_delegator == second_delegator,
        keys_of(first, first_delegator).supply == keys_of(second, second_delegator).supply
            <==> first == second,
        keys_of(first, first_delegator).total_staked == keys_of(
            second,
            second_delegator,
        ).total_staked <==> first == second,
        keys_of(first, first_delegator).shares != keys_of(second, second_delegator).supply,
        keys_of(first, first_delegator).shares != keys_of(second, second_delegator).total_staked,
        keys_of(first, first_delegator).supply != keys_of(second, second_delegator).total_staked,
{
}

/// The stake that shares are turned into is their part of the backing: it is the largest amount
/// whose ratio to the backing is not above the ratio of the shares to the supply. There is none
/// only where the pool has no shares, or where that amount is above the largest balance.
pub proof fn law_stake_of_shares_is_their_part_of_the_backing(
    pool: SharePool,
    shares: Shares<Balance>,
)
    ensures
        match pool.stake_of(shares) {
            Ok(stake) => {
                &&& pool.supply.0 > 0
                &&& stake.0 * pool.supply.0 <= shares.0 * pool.total_staked.0
                &&& shares.0 * pool.total_staked.0 < (stake.0 + 1) * pool.supply.0
            },
            Err(Error::NoOneIsStaking) => pool.supply.0 == 0,
            Err(error) => {
                &&& error == Error::MathOverflow
                &&& pool.supply.0 > 0
                &&& shares.0 * pool.total_staked.0 >= (Balance::MAX + 1) * pool.supply.0
            },
        },
{
    if pool.supply.0 > 0 {
        law_mul_div_is_the_largest_quotient(
            shares.0 as nat,
            pool.total_staked.0 as nat,
            pool.supply.0 as nat,
        );
    }
}

/// The stake of a delegator is its part of the backing. Who owns nothing has nothing, whoever owns
/// no more shares than there are has a stake, and there is none only where the pool has no shares
/// or where the part is above the largest balance.
pub proof fn law_held_stake_is_the_part_of_the_backing(pool: SharePool, shares: Shares<Balance>)
    ensures
        shares.0 == 0 ==> pool.stake_held(shares) == Ok::<Stake<Balance>, Error>(Stake(0)),
        shares.0 <= pool.supply.0 ==> pool.stake_held(shares) is Ok,
        shares.0 > 0 ==> match pool.stake_held(shares) {
            Ok(stake) => {
                &&& pool.supply.0 > 0
                &&& stake.0 * pool.supply.0 <= shares.0 * pool.total_staked.0
                &&& shares.0 * pool.total_staked.0 < (stake.0 + 1) * pool.supply.0
            },
            Err(Error::NoOneIsStaking) => pool.supply.0 == 0,
            Err(error) => {
                &&& error == Error::MathOverflow
                &&& pool.supply.0 > 0
                &&& shares.0 * pool.total_staked.0 >= (Balance::MAX + 1) * pool.supply.0
            },
        },
{
    law_stake_of_shares_is_their_part_of_the_backing(pool, shares);
    if shares.0 <= pool.supply.0 {
        law_owned_shares_have_a_stake(pool, shares);
    }
}

/// The shares that a stake is turned into are the largest amount that is not worth more than the
/// stake. There is none only where the pool has no shares, or where no amount of shares up to the
/// largest balance is worth more than the stake.
pub proof fn law_shares_for_a_stake_are_the_most_it_pays_for(pool: SharePool, stake: Stake<Balance>)
    ensures
        match pool.shares_for(stake) {
            Ok(shares) => {
                &&& pool.supply.0 > 0
                &&& shares.0 * pool.total_staked.0 <= stake.0 * pool.supply.0
                &&& stake.0 * pool.supply.0 < (shares.0 + 1) * pool.total_staked.0
            },
            Err(Error::NoOneIsStaking) => pool.supply.0 == 0,
            Err(error) => {
                &&& error == Error::MathOverflow
                &&& pool.supply.0 > 0
                &&& stake.0 * pool.supply.0 >= (Balance::MAX + 1) * pool.total_staked.0
            },
        },
{
    if pool.supply.0 > 0 {
        if pool.total_staked.0 > 0 {
            law_mul_div_is_the_largest_quotient(
                stake.0 as nat,
                pool.supply.0 as nat,
                pool.total_staked.0 as nat,
            );
        } else {
            assert(stake.0 * pool.supply.0 >= 0) by (nonlinear_arith);
        }
    }
}

/// The amount of shares that a call moves: what was asked for in shares, and for a stake the most
/// shares that are not worth more than it.
pub proof fn law_resolved_amount(pool: SharePool, amount: Balance)
    ensures
        pool.resolved(SharesOrStake::Shares(amount)) == Ok::<Shares<Balance>, Error>(
            Shares(amount),
        ),
        match pool.resolved(SharesOrStake::Stake(amount)) {
            Ok(shares) => {
                &&& pool.supply.0 > 0
                &&& shares.0 * pool.total_staked.0 <= amount * pool.supply.0
                &&& amount * pool.supply.0 < (shares.0 + 1) * pool.total_staked.0
            },
            Err(Error::NoOneIsStaking) => pool.supply.0 == 0,
            Err(error) => {
                &&& error == Error::MathOverflow
                &&& pool.supply.0 > 0
                &&& amount * pool.supply.0 >= (Balance::MAX + 1) * pool.total_staked.0
            },
        },
{
    law_shares_for_a_stake_are_the_most_it_pays_for(pool, Stake(amount));
}

/// The shares created for a stake are the most that it pays for: at the price of the pool where it
/// has shares, and at the initial value where they are its first.
pub proof fn law_created_shares_are_the_most_the_stake_pays_for(
    pool: SharePool,
    stake: Stake<Balance>,
    initial_share_value: Balance,
)
    ensures
        pool.supply.0 > 0 ==> match pool.shares_for_or_init(stake, initial_share_value) {
            Ok(shares) => {
                &&& shares.0 * pool.total_staked.0 <= stake.0 * pool.supply.0
                &&& stake.0 * pool.supply.0 < (shares.0 + 1) * pool.total_staked.0
            },
            Err(error) => {
                &&& error == Error::MathOverflow
                &&& stake.0 * pool.supply.0 >= (Balance::MAX + 1) * pool.total_staked.0
            },
        },
        pool.supply.0 == 0 ==> match pool.shares_for_or_init(stake, initial_share_value) {
            Ok(shares) => {
                &&& shares.0 * initial_share_value <= stake.0
                &&& stake.0 < (shares.0 + 1) * initial_share_value
            },
            Err(error) => error == Error::InvalidPalletSetting && initial_share_value == 0,
        },
{
    law_shares_for_a_stake_are_the_most_it_pays_for(pool, stake);
    if pool.supply.0 == 0 && initial_share_value > 0 {
        lemma_div_bounds(stake.0 as int, initial_share_value as int);
    }
}

/// The price of new shares is their part of the backing, or the initial value for each of the
/// first.
pub proof fn law_price_of_shares(pool: SharePool, shares: nat, initial_share_value: Balance)
    ensures
        pool.supply.0 > 0 ==> pool.price_of(shares, initial_share_value) * pool.supply.0 <= shares
            * pool.total_staked.0 < (pool.price_of(shares, initial_share_value) + 1)
            * pool.supply.0,
        pool.supply.0 == 0 ==> pool.price_of(shares, initial_share_value) == shares
            * initial_share_value,
{
    if pool.supply.0 > 0 {
        law_mul_div_is_the_largest_quotient(
            shares,
            pool.total_staked.0 as nat,
            pool.supply.0 as nat,
        );
    }
}

/// Only the rounding is released when stake enters a pool: less than the price of one share and
/// the rounding of one unit, and less than the initial value where the shares are the first.
pub proof fn law_only_the_rounding_is_released(
    pool: SharePool,
    stake: Stake<Balance>,
    initial_share_value: Balance,
    shares: Shares<Balance>,
)
    requires
        pool.shares_for_or_init(stake, initial_share_value) == Ok::<Shares<Balance>, Error>(shares),
    ensures
        pool.price_of(shares.0 as nat, initial_share_value) <= stake.0,
        pool.supply.0 > 0 ==> (stake.0 - pool.price_of(shares.0 as nat, initial_share_value))
            * pool.supply.0 < pool.total_staked.0 + pool.supply.0,
        pool.supply.0 == 0 ==> stake.0 - pool.price_of(shares.0 as nat, initial_share_value)
            < initial_share_value,
{
    lemma_price_is_at_most_the_stake(pool, stake, initial_share_value, shares);
    law_created_shares_are_the_most_the_stake_pays_for(pool, stake, initial_share_value);
    law_price_of_shares(pool, shares.0 as nat, initial_share_value);
    let price = pool.price_of(shares.0 as nat, initial_share_value) as int;
    let total = pool.total_staked.0 as int;
    let supply = pool.supply.0 as int;
    let count = shares.0 as int;
    let value = initial_share_value as int;
    assert((stake.0 - price) * supply == stake.0 * supply - price * supply) by (nonlinear_arith);
    assert((count + 1) * total == count * total + total) by (nonlinear_arith);
    assert((price + 1) * supply == price * supply + supply) by (nonlinear_arith);
    assert((count + 1) * value == count * value + value) by (nonlinear_arith);
}

/// A reward adds all of it to the backing, a slash takes all of it off, and both leave the shares
/// alone.
pub proof fn law_rewards_and_slashes_change_the_backing_alone(pool: SharePool, amount: nat)
    ensures
        pool.rewarded(amount).supply == pool.supply,
        pool.total_staked.0 + amount <= Balance::MAX ==> pool.rewarded(amount).total_staked.0
            == pool.total_staked.0 + amount,
        pool.slashed(amount).supply == pool.supply,
        amount <= pool.total_staked.0 ==> pool.slashed(amount).total_staked.0 + amount
            == pool.total_staked.0,
{
}

/// What any amount of shares is worth, what any stake pays for, and the part of any amount that
/// falls to shares are the largest whole numbers that keep the proportions of the pool.
pub proof fn law_proportions_of_a_pool(pool: SharePool, amount: nat, shares: nat)
    ensures
        pool.supply.0 > 0 ==> pool.worth(shares) * pool.supply.0 <= shares * pool.total_staked.0
            < (pool.worth(shares) + 1) * pool.supply.0,
        pool.supply.0 > 0 ==> pool.pro_rata(amount, shares) * pool.supply.0 <= shares * amount < (
        pool.pro_rata(amount, shares) + 1) * pool.supply.0,
        pool.total_staked.0 > 0 ==> pool.affordable(amount) * pool.total_staked.0 <= amount
            * pool.supply.0 < (pool.affordable(amount) + 1) * pool.total_staked.0,
{
    let total = pool.total_staked.0 as nat;
    let supply = pool.supply.0 as nat;
    if supply > 0 {
        law_mul_div_is_the_largest_quotient(shares, total, supply);
        law_mul_div_is_the_largest_quotient(shares, amount, supply);
    }
    if total > 0 {
        law_mul_div_is_the_largest_quotient(amount, supply, total);
    }
}

/// Each balance of a pool is kept under the key that its documentation names, and the shares under
/// that of the delegator.
pub proof fn law_keys_of_each_pool<A>(delegator: A)
    ensures
        keys_of(AllTargetPool::Joining, delegator) == (PoolKeys {
            shares: PoolsKey::JoiningShares { delegator },
            supply: PoolsKey::<A>::JoiningSharesSupply,
            total_staked: PoolsKey::<A>::JoiningSharesTotalStaked,
        }),
        keys_of(AllTargetPool::AutoCompounding, delegator) == (PoolKeys {
            shares: PoolsKey::AutoCompoundingShares { delegator },
            supply: PoolsKey::<A>::AutoCompoundingSharesSupply,
            total_staked: PoolsKey::<A>::AutoCompoundingSharesTotalStaked,
        }),
        keys_of(AllTargetPool::ManualRewards, delegator) == (PoolKeys {
            shares: PoolsKey::ManualRewardsShares { delegator },
            supply: PoolsKey::<A>::ManualRewardsSharesSupply,
            total_staked: PoolsKey::<A>::ManualRewardsSharesTotalStaked,
        }),
        keys_of(AllTargetPool::Leaving, delegator) == (PoolKeys {
            shares: PoolsKey::LeavingShares { delegator },
            supply: PoolsKey::<A>::LeavingSharesSupply,
            total_staked: PoolsKey::<A>::LeavingSharesTotalStaked,
        }),
{
}

} // verus!
