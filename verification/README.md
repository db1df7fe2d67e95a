# compose_sidecar

A cross-chain sidecar for rollups: it tracks cross-chain transaction (XT)
instances, simulates the local chain's part of each, votes, reaches a
decision with its peers when no publisher coordinates, hands committed
transactions to the block builder in order, and fills the mailbox contract's
storage for simulations that wait for cross-chain messages.

The library under `src/` is verified with Verus; `app/` is the program that
runs it (configuration files, HTTP server and clients, timers).

## Layout

- `src/assoc.rs` — association maps with unique keys, modelled as `Map`s.
- `src/config.rs`, `src/loader.rs` — configuration defaults and the layering
  of file values and `SIDECAR_*` environment variables.
- `src/primitives.rs`, `src/pending_xt.rs` — shared values and the per-instance record.
- `src/coordinator.rs` — the pending table, votes and standalone decisions, cleanup.
- `src/builder_poll.rs`, `src/put_inbox.rs` — builder polls: refreshing
  snapshots, starting processing, delivering committed instances in order.
- `src/pipeline.rs`, `src/run.rs` — the simulation pipeline: recording results,
  fulfilling dependencies from the mailbox, sending outbound messages, and the
  per-instance run that ends in a vote.
- `src/simulation.rs`, `src/override_json.rs` — transaction decoding, the JSON text
  of override documents and its check before a call, and call-trace interpretation.
- `src/overrides.rs`, `src/mailbox_overrides.rs`, `src/evm.rs`, `src/hex.rs` —
  state-override documents, mailbox storage slots, Keccak-256 and 256-bit words.
- `src/peer.rs`, `src/publisher.rs`, `src/storage.rs`, `src/wiring.rs` — peers,
  publisher messages and retries, in-memory storage, service selection.
- `src/laws.rs` — properties that span calls.
