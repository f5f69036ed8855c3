# chaincraft

The core of a framework for prototyping decentralized protocols, written in
Verus: message envelopes and their content hashes, application objects that
validate and apply messages (merkleized logs, chains, DAGs, ledgers, caches),
digest-based synchronization, a peer book with bans, and the decisions of NAT
traversal (address discovery, NAT classification, hole-punch sessions,
keep-alives).

## Layout

- `src/` — the verified library. Public functions state their results in
  `ensures` (all but those whose result is random or the current time, and
  the conversions to and from `uuid::Uuid`) over mathematical models (`Seq`, `Map`, `Set`, a `Json` model of
  JSON values); laws that relate several operations are public proof
  functions named `lemma_*`.
- `tests/` — tests run against the compiled library.
- `app/` — the runtime: UDP sockets, timers and event loops, serde wire
  formats, readable error messages, and the floating-point balance ledger.

Calls into outside crates (SHA-256, hex, UUIDs, time, an LRU cache) go through
small trusted wrappers whose contracts say what the crates document.
