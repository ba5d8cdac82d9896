# fraud_score

Nearest-neighbour fraud scoring over a binary store of labelled reference vectors.

- `src/` is the verified library:
  - `binary.rs`: the store file layout (16-byte little-endian header: magic, version,
    dimension, row count; then the `f32` bytes of every vector; then one label byte per
    row), its validation, and its encoder, with the laws that writing then reading, and
    reading then writing, give back what they started from.
  - `store.rs`: `VectorStore`, a validated store over its file bytes, and the query
    that counts fraud labels among the rows nearest to a query.
  - `nearest.rs`: selection of the `k` nearest rows by distance key, proved to pick
    exactly the rows with fewer than `k` rows before them in nearest-first order.
  - `error.rs`, `text.rs`, `label.rs`, `features.rs`, `handlers.rs`: errors and their
    messages, decimal text, row labels, the known-merchant check, store-file loading.
- `app/` is the HTTP service around it (axum, tokio): request parsing, the
  floating-point normalisation and distances, and reading the store file from disk.
  `app convert <references.json[.gz]>` writes a store file from JSON reference rows.
