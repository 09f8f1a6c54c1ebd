# mom

MOM is an event-sourced memory kernel and retrieval engine for autonomous
agents. This crate holds its logic as a library whose behaviour is stated in
`requires` / `ensures` contracts and proved with Verus; the HTTP programs
around it are ordinary Rust.

## Layout

- `src/` — the verified library.
  - `kernel.rs` — the stable data model: ids, kinds, scopes, items, queries.
  - `handlers.rs` — the service's request rules: kinds and tags filters,
    limits, time bounds, tenant scopes, error responses, the plan of a
    semantic search, and the progress of an ingestion from one source or
    from all registered sources.
  - `recall.rs` — case-insensitive lexical matching, item age, and the plan
    and final ranking of a recall.
  - `ranking.rs` — stable ranking of scored items by single-precision score,
    held as bits.
  - `surreal.rs` — the SurrealDB row of an item, its round trip, and the
    SurrealQL statements the store issues: record ids are written between
    brackets and string values quoted, the closing character and the
    backslash escaped by a backslash, so that read with those two escapes
    each reads back as itself; every scoped or listing statement filters on
    its tenant.
  - `memory.rs`, `store.rs`, `server.rs`, `error.rs` — the single-process
    server: its memory model, the in-memory store with its read-after-write
    laws, the write/get/recall rules and its errors.
  - `service.rs` — the service library's error responses.
  - `text.rs` — character-level helpers: trimming, splitting, decimal
    parsing and formatting, lower-casing.
- `tests/` — tests on concrete values.
- `app/` — one program for both servers: the HTTP service (SurrealDB,
  embeddings, ingestion sources) by default, and the single-process server
  with the argument `single` (`cargo run -- single`); the wire types with
  their serde derives; single-precision scoring.

Floating-point quantities are held in the library as their IEEE-754 bit
patterns and JSON documents as their serialized text; arithmetic on floats
happens in `app/`.
