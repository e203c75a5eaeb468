# eidolon

Server-side services for a seamless open world, written in Verus. The functions in `src/`
carry `requires`/`ensures` contracts that Verus proves, and properties that span several
operations are stated as public proof functions (`lemma_*`).

## Layout

- `src/` — the verified library:
  - persistence: `wal` (write-ahead records, ring buffer, journal and its sink),
    `durable_journal`, `replicated_journal`, `sqpoll_journal`, `hibernation` (player
    snapshots), `reconstruction` (zone crash reconstruction from checkpoint and log, position payloads), `byte_order` (big-endian encodings);
  - world structure: `zone` (bounds and seams), `partition`, `instance`, `adaptive_shard`,
    `sector_parallel` (sector registry and migration barrier), `predictive_migration`,
    `chunk_manifest`, `interior`, `territory`;
  - gameplay and economy: `party`, `social`, `chat`, `companion`, `threat`, `ability`,
    `npc_ecosystem` (per-tick NPC behaviour decisions; positions stay with the caller),
    `transaction` (accounts and the transaction manager), `item_transaction` (transfer
    validation and the idempotency ring), `market_coordinator`, `script_engine`;
  - replication: `tier` (frequency tiers and hysteresis) and `aoi` (load shedding, relevance
    scoring, and the observer interest set with its visibility diffs);
  - small shared types: `grid` (cell coordinates), `quadtree`, `hlod`,
    `flight_recorder`, `cluster`, `voice_router`, `error`, `slots`.
- `tests/` — executable tests of the library.
- `app/` — ordinary Rust around the library: file-backed and replicated journals, the
  background journal flusher, error messages, and floating-point plot geometry.

Fixed-point coordinates and squared distances are 32.32 values kept as their raw `i64`
representation (`tier::FIXED_ONE` is one unit).
