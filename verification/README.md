# ayuda_direct

A community treasury that pays registered subsidy beneficiaries a fixed
entitlement, at most once per disbursement cycle, and logs every payment.

- `src/` is the verified library. `model.rs` describes the treasury as a
  mathematical value and says, for every operation, when it is refused and what
  it does otherwise; `contract.rs` implements the operations on the stored state
  and proves them against that description; `laws.rs` proves what holds across
  operations (the consistency invariant, one claim per cycle, fixed
  entitlements, the append-only audit log, the surplus guard, and more);
  `sequences.rs` models whole sequences of calls (`Op`, `step`, `run`) and proves
  what holds through them: consistency, fixed registration terms, lasting admin
  handovers, permanent receipts, claims after a withdrawal, and deactivation until
  reactivation. Every mutating method ensures that its effect is `step` of its call.
- `app/` is the Soroban contract around the library: it authenticates callers,
  loads and stores the treasury in ledger storage, performs the token transfers
  that the library returns, and publishes the disbursement events.
