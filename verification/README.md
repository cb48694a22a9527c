# satsurance

Satsurance is an insurance protocol for Bitcoin projects: liquidity
providers lock ckBTC in a pool for fixed episodes and earn the premiums that
cover buyers pay; approved claims are paid out by slashing the pool.

This crate is the protocol's logic, verified with Verus.

- `src/` — the verified library.
  - `episodes`: episode arithmetic (which episode a moment falls into, which
    episodes accept stakes).
  - `pool`, `deposits`, `rewards`, `governance`, `coverage`: the liquidity
    pool — staking and withdrawing, expiring episodes, streaming rewards,
    slashing, cover products and purchases.
  - `accounting`: the pool's totals and episode shares as sums, used by the
    laws.
  - `claim_types`, `claims`: the claim registry.
  - `hashing`, `ledger`, `principal`: subaccount derivation and the decisions
    around ledger calls.
  - `laws`: properties that span operations, proved.
- `app/` — the two Internet Computer canisters (pool and claim registry)
  around the library: endpoints, ledger and inter-canister calls, timers,
  stable memory.
- `tests/` — scenarios that drive the library through a simulated ledger and
  clock, and direct checks of its functions.

Operations that wait on the ledger are split in two: a `*_begin` function
decides and updates the state before the call, a `*_finish` function takes
the call's result. An arithmetic overflow or underflow returns `Trap`, on
which the canister traps and its changes are discarded.

State is an ordinary value: a `Pool` or a `ClaimRegistry`. Deposits,
products, covers and claims sit in vectors indexed by their identifier (a
deposit slot may be empty, and any unused identifier can be filled),
episodes in a vector indexed by episode number, and each user's deposit
identifiers in a list of their own, in the order they were recorded. The
canisters keep this value in stable memory across upgrades: writing to and
reading from stable memory is the canisters' I/O, so `app/` does it, saving
the whole state in one stable cell, while the library works on the plain
values that the contracts speak of.
