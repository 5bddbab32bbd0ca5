# edgequake_query

Query-side logic of a retrieval-augmented generation engine, verified with
Verus: intent routing, merging of the local / global / naive retrieval arms,
pruning and compression of the graph context, token-budget truncation
and balancing of the whole prompt context (graph first, with a floor of
tokens kept for chunks), prompt formatting, grounding policy, citation rewriting and the in-memory
keyword and answer caches.

Scores are held as integer millionths (`1.0` is `1_000_000`) so that every
ranking rule can be stated and proved exactly.

## Layout

- `src/` — the verified library. Each public function states in `ensures`
  what it returns or changes, over spec functions and views; `context.rs`
  holds the shared data model (`QueryContext`, retrieved chunks, entities and
  relationships, keyed metadata).
- `tests/` — tests run against the compiled library.
- `app/` — the process-facing layer: environment settings, async and
  thread-local runtime state, JSON forms of the metadata, and the float
  scoring (RRF, min-max blends, cosine, PageRank) that the library leaves to
  its callers.

Outside crates called from the library: `regex` (the prose page-range
scrubber's pattern) and `sha2` (answer-cache keys), each behind one trusted
wrapper whose contract names what the crate computes.
