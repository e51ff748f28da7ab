# txwatch_registry

Two on-chain registries for transaction monitoring, with their rules proved
in Verus:

- the **alert registry**, where owners register alert configurations
  (a target contract, a label, a webhook hash and a bounded list of rule
  descriptors), update, rotate, transfer, retarget, deactivate and remove
  them, under per-owner, per-contract and global limits, a pause switch and
  optional gating of reads by a watcher registry;
- the **watcher registry**, which keeps a set of admins and a bounded set of
  authorised watchers, with two-step admin handover, a pause switch and a
  ledger-based timelock for sensitive admin actions.

## Layout

- `src/` — the verified library. Each registry is a plain state machine:
  a method takes the caller's address handle (and, where it matters, the
  ledger time), returns the result the contract answers with, and records
  the events to publish and the storage lifetimes to extend.
  - `alert_model.rs`, `watcher_model.rs`: the mathematical model of each
    registry and of each operation; the method contracts are stated over it.
  - `alert_registry.rs`, `watcher_registry.rs`: the executable registries.
  - `alert_state.rs` and the `snapshot`/`restore` pair of each registry:
    the plain stored form, and the checks a loader makes on it.
  - `rules.rs`: the rule-descriptor grammar and its validation.
  - `alert_laws.rs`, `watcher_laws.rs`, and the `law_` functions in
    `rules.rs` and `seq_util.rs`: properties that span operations.
  - `fixtures.rs`: byte-string helpers shared by the tests.
- `tests/` — unit, regression, cross-registry and randomised tests.
- `app/` — the Soroban contracts: authentication, storage, events, the
  cross-contract watcher check and upgrades, around the library.
