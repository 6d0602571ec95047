# meshwork

Verified core of a small peer-to-peer data toolkit, written in Verus.

- `src/` — the library. Its functions are proved against their contracts; the
  calls into other crates and into std stand in small `external_body` wrappers
  whose contracts are trusted and say what the outside code does:
  - `store` — in-memory job store with FIFO pending order, claims, acks, nacks and
    a reaper for stale claims;
  - `protocol`, `node` — queue messages, their length-prefixed framing, the plan
    payload header, and the producer/consumer decisions of the queue protocol;
  - `plan` — placement of the network boundary in a physical plan;
  - `partition` — Iceberg partition transforms (Murmur3 bucket, truncate, day);
  - `windows` — 9-digit windows over the digits of pi and the tool's command line;
  - `transfer` — strategy and ticket checks of the multi-provider download;
  - `arrow_service` — configuration of the Arrow request/response endpoint;
  - `codec` — Arrow IPC stream encoding and decoding of record batches;
  - `error` — queue errors and their messages.
- `app/` — ordinary Rust around the library: QUIC streams and gossip (iroh),
  serialization (postcard, serde), and the pi-windows record batches.
- `tests/` — executable tests of the library.
