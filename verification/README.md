# spr_contracts

Verified routing logic for a Stellar payment router over constant-product liquidity pools.

- `src/` is the library, verified with Verus:
  - `model.rs` states what every routing operation computes (swap and fee arithmetic,
    path scores, the breadth-first path search, route construction and validation).
  - `router.rs` implements the router against that model; `graph.rs` holds the pool
    graph; `config.rs` and `lib.rs` hold the contract's configuration and operations.
  - `liquidity.rs` and `path.rs` hold the liquidity manager and path finder helpers.
  - `laws.rs` proves what holds across inputs and calls: read-after-write of the fee,
    single initialization, swap bounds and fee monotonicity, the shape and order of found
    paths, validity and fee accounting of built routes, the minimum-output check, and that
    simulating a found route gives it back.
- The library is plain Rust over std types. Route construction takes the ledger time as a
  `u64` that the contract reads. Assets are the text of their Soroban symbols. The pool
  list and pool graph are std `Vec`s and a `PoolGraph` rather than Soroban's `Vec` and
  `Map`. Soroban's collections only hold items that implement its value conversions,
  which come from the `contracttype` derive of Soroban itself; the library cannot carry
  that derive, so its pools, hops and routes cannot be items of those collections.
- `app/` is the Soroban contract around the library: storage, authorization, events and
  the contract's own copies of the library's types.
- `tests/` runs the library on concrete values.
- `Cargo.toml` pins `derive_arbitrary` to 1.3.2, the release that the `arbitrary` 1.3.2
  pinned by `soroban-sdk` 20.5.0 was made with: with a newer `derive_arbitrary`, the
  `stellar-xdr` crate under `soroban-sdk` does not compile. Nothing calls it directly.
