# taba

Deterministic composition and placement of units (workloads, data,
policies, governance) on a cluster of nodes, with the security and
observability logic around it, written in Verus.

- `src/` is the verified library:
  - `model.rs`, `common.rs`: the unit model and identifiers.
  - `solver/`: conflict and cycle detection, capability filtering,
    scoring, resource ranking, promotion and scaling evaluation, and the
    solver that ties them together.
  - `security/`: Ed25519 signing and verification of units, key pairs,
    Shamir secret sharing over GF(256), node enrollment ceremonies,
    delegation tokens, author scope, taint, capability enforcement,
    provenance and software attestation.
  - `observe/`: decision trails, events, health, alerts, Prometheus
    exposition and replay.
  - `harness/`: builders of test data and an in-memory unit store.
  - `text.rs`, `order.rs`, `keyed.rs`: strings, a verified stable sort,
    and keyed sequences used as maps.
- `app/` holds what Verus does not see: JSON encoding of units, error
  display, the platform read for attestation, and proptest strategies.
- `tests/` exercises the library.
