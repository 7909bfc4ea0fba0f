# durable-streams-reference

A server for the durable streams protocol: append-only, offset-addressed
streams over HTTP, with idempotent producers, long-polling reads, JSON mode
and in-memory or file-backed storage.

The library in `src/` is verified with Verus:

- `protocol/` — offsets (canonical text, order, parsing with exact error
  messages), cursors, content types and header values, producer headers,
  JSON mode, SSE helpers, errors and their HTTP status.
- `storage/` — the in-memory store (`memory`), its laws (`laws`), the
  append-only record log of a file-backed stream (`records`), its index
  (`log_index`), the per-stream state of the file back end (`file_stream`),
  producer bookkeeping (`producers`) and stream directory names
  (`file_layout`).
- `handlers/` — what each HTTP request asks for and how each outcome is
  answered, as plain values.
- `config.rs` — configuration from a key-value lookup.

`app/` is the server around it: environment, axum routing and handlers, the
locks and change notifications of the in-memory back end, and the file I/O of
the file-backed one.
