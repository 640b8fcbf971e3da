# pooled_staking

The rules of a staking pallet that is based on pools of shares, written and proved in Verus.

Delegators back candidates through pools inspired by AMM liquidity pools. A delegation waits in a
joining pool, moves to a pool that compounds its rewards or to one whose rewards are claimed by
hand, and goes out through a leaving pool. Each pool divides the currency that backs it evenly
among its shares, so that rewards and slashes reach every delegator without visiting one.

- `src/pallet.rs`: who acts in a call, and on what; the stake of a delegator in a pool.
- `src/origin.rs`: which account signed a call.
- `src/pools.rs`: the keys of the stored balances, the worth of shares, stake turned into shares.
- `src/rewards.rs`: the part of the collator, and rewards that are claimed by hand, with a counter
  that may wrap around.
- `src/candidates.rs`: the sorted and bounded list of eligible candidates.
- `src/weights.rs`: what a call is charged.
- `src/maths.rs`, `src/types.rs`, `src/error.rs`, `src/event.rs`, `src/config.rs`: arithmetic and
  vocabulary.
- `app/`: storage, events and calls in a FRAME runtime. The runtime performs the actions that the
  calls decide.

Proof functions whose names start with `law_` state what holds of the library as a whole.
