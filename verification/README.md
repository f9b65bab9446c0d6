# feed_handler

A verified local order book for an exchange's spot depth stream, with the
canonical market-data schema it emits.

- `src/` — the library, verified with Verus:
  - `orderbook.rs`: the book, its resync state machine (buffering, snapshot
    application, gap detection) and the spec functions its contracts use;
  - `laws.rs`: properties across operations (stale events are dropped, the
    first applied event straddles the snapshot id, buffering then syncing
    equals syncing then applying, applying levels twice equals once,
    exported levels rebuild the book, canonical deltas replay the wire
    update) and over whole runs of the feed loop (no gaps in the printed
    depth lines, the printed lines rebuild the live book, at most one
    snapshot request open, and exactly one while the book awaits a snapshot);
  - `feed.rs`: the feed loop's decisions for each stream payload, each
    snapshot and each failed snapshot request, the stream URL, and the event clock;
  - `binance.rs`: wire types and their conversion to the canonical schema;
  - `schema.rs`, `config.rs`, `text.rs`, `ieee.rs`: canonical types,
    configuration sections and credentials, text helpers, and the
    zero/ordering facts on IEEE-754 bit patterns.
- `app/` — the program around it: configuration loading, the WebSocket and
  REST I/O, JSON (de)serialization through copies of the library types,
  and the reading of decimal texts as floating-point numbers.
- `tests/` — the book's scenarios and the library's other behaviours.
