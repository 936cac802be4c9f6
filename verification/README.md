# stake

Stakes, slashes and unstakings for a runtime with a currency, verified with Verus.

A runtime creates stakes and puts funds at stake. A stake can be increased and decreased, slashed
after a number of blocks, and unstaked, at once or after a number of blocks. Slashes and unstakings
can be paused and resumed, and slashes can be cancelled. All funds at stake lie in one account, the
stake pool.

## Layout

- `src/arithmetic.rs`: the numbers that everything is computed with, and the natural numbers that
  they stand for.
- `src/ordered.rs`: maps that are keyed by numbers, and the order of their keys.
- `src/errors.rs`: why a request is refused.
- `src/events.rs`: handlers of staking events, and how they are chained.
- `src/staked.rs`: funds at stake and the execution of slashes.
- `src/stake.rs`: a stake, and the requests that it grants or refuses.
- `src/pool.rs`: the account of the stake pool, and what can be done with its funds.
- `src/registry.rs`: what requests do to all stakes together, over the natural numbers.
- `src/module.rs`: all stakes of a runtime, and the requests on them.
- `src/soundness.rs`: what holds of all stakes at all times.
- `src/solvency.rs`: the stake pool always covers what is at stake.
- `src/laws.rs`: what requests undo of each other, and what they leave alone.
- `src/timers.rs`: when slashes are executed and unstakings finished.
- `app/`: the stakes in a FRAME runtime. It stores them and moves the funds.

## Funds

The library decides, and hands out what is to be done with the funds in the pool as `PoolAction`s.
Where a request needs the funds of an account, it comes in two halves: the first one decides, and
says what to withdraw; the second one is told whether that went well.

When a block is finalised, the stakes have their turn one after the other, and what is to be done
for one of them is done before the next one is looked at: handlers may make requests meanwhile.
