# hydradx

Verified logic of two HydraDX runtime components, written in Verus.

- `src/dca.rs` — the DCA (dollar-cost averaging) pallet's storage and rules: scheduling a
  recurring buy under a fresh id, planning schedule ids per block (at most 20 per block),
  counting down fixed recurrences, and replanning a schedule after its buy.
- `src/multicurrency.rs` — the ERC-20 precompile over the chain's assets: the asset behind an
  address, the function behind a selector, the checks of the call's context, the reading of
  arguments, and the encoding of replies.
- `src/abi.rs` — the contract ABI words and `bytes` encoding that the precompile reads and
  writes.
- `src/bounded.rs` — the contracts of the `bounded_collections::BoundedVec` operations used.

`app/` holds what runs around the library: the SCALE-encodable forms of the types, the block
hook loop that executes the buys, and the precompile entry point that charges gas and reaches
the asset registry and balances.
