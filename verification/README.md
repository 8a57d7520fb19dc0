# collective_commitment_protocol

A collective commitment protocol for group savings vaults: members commit to
lock amounts of one token until an unlock time; early exits from penalty
vaults pay a penalty into a community pool that the members who stayed share
at settlement.

- `src/` is the verified library. The contract's storage is modelled by
  `storage::Storage` (viewed as `storage::StorageModel`), the host by
  `host::HostEnv` (storage, ledger timestamp, and the token transfers and
  events the contract asks for). `model.rs` states what each entry point does,
  `ledger_inv.rs` proves that every entry point keeps the ledger invariant,
  `laws.rs` holds the properties that relate two calls, and `history.rs`
  and `ledger_history.rs` those over any sequence of calls: how states move,
  which vaults are stored, how the creator and member lists grow, what the
  pool holds, and that the contract never pays out for a vault more than its
  deposits left in it.
- `tests/` runs the library on concrete scenarios.
- `app/` is the Soroban contract around the library: authorization, storage,
  the ledger clock, token transfers and events.
