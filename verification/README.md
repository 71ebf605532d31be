# p2ptokens

A peer-to-peer exchange of inference tokens: peers serve chat completions
from their own backends (seeding) and consume completions from other peers
(leeching). A coordinator matches consumers with providers, keeps each peer's
served/consumed ledger, and settles jobs from consumer-signed receipts.

## Layout

- `src/` — the verified library (Verus).
  - `coordinator.rs`, `tables.rs`: the tracker state — heartbeat validation
    and registration, weighted matchmaking with audit slots, fan-out, the
    ratio gate, settlement and the job sweep — with the laws it keeps.
  - `leecher.rs`, `seeder.rs`: the consumer's retry policy, stream accounting,
    fan-out strategies and streaming race; the provider's admission,
    chunking, receipt judging and settlement.
  - `protocol.rs`: the length-prefixed framing of the peer protocol.
  - `adapters.rs`, `files.rs`, `http.rs`: line framing and metering of backend
    streams, attachments, and the local endpoint's request handling.
  - `crypto.rs`, `auth.rs`, `receipts.rs`: keys, heartbeat signatures and
    co-signed receipts (over libp2p identities and base64).
  - `config.rs`, `client.rs`, `node.rs`, `threads.rs`, `types.rs`, `api.rs`,
    `text.rs`, `clock.rs`: configuration, the daemon's catalogue, dial
    bookkeeping, history, shared types and text helpers.
- `app/` — the executables around it: the coordinator's HTTP server and the
  client daemon (libp2p node, backend HTTP calls, local HTTP endpoint), with
  the serde forms of the library's types.
- `tests/` — tests of the library.
