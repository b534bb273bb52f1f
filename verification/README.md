# dial9_viewer

Service graphs from sampled stacks, verified with Verus.

- `src/` is the library. It decodes folded part-files, accumulates their samples, derives the
  module graph, and decides what the server answers. Every function carries a contract that is
  proved; the outside calls it rests on (`parquet`, `arrow`, `mime_guess`, `Arc::clone`) stand
  behind small trusted functions in `columns.rs`, `assets.rs` and `state.rs`.
- Merging raw part-files asks that the decoder survives them (`columns::decodes`): some malformed
  Parquet files make it panic instead of giving an error. `merge_if_certain` and
  `advance_if_certain` ask nothing, and take only bytes that are certain to be turned down cleanly.
- `src/merge_laws.rs`, `src/graph_laws.rs`, `src/flow_laws.rs` and the public proof functions beside the other
  functions state what holds across calls: that files can be merged in either order, that the
  graph only grows, that it is determined by what was merged.
- `tests/` runs the library with the real outside crates.
- `app/` is the HTTP server around it: extraction, storage, server-sent events, static files.
