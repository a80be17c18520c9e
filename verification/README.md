# synton

SYNTON-DB's core as a Verus-verified library: the node/edge/relation model,
the in-memory graph and its traversals (BFS, DFS, shortest path, all simple
paths, subgraphs, relationship explanations), document chunking (fixed,
semantic, hierarchical), the database service (node table beside the graph,
text queries, traversals, bulk operations, ingestion), its gRPC face, the
trace span store and trace query filters, Graph-RAG bookkeeping (neighbor
expansion, context budgets, deduplication) and the server configuration.

- `src/` — the verified library; every public function states its result in
  `ensures`; `src/laws.rs` holds the laws that relate several functions.
- `tests/` — tests run against the compiled library.
- `app/` — the command-line client (REST over `reqwest`) and the reading of
  the server's TOML configuration; it calls the library for every rule.

Scores, weights and durations that the service keeps as floating point
numbers are outside the library; where logic reads them it takes them in
thousandths.

The node table of the service and the node set of `MemoryGraph` are kept as
`Vec`s of nodes with distinct ids (an invariant of each type), with lookup
by id, where a program might reach for a hash map keyed by id. Every
answer that lists nodes (searches, listings, traversals) is then stated in
one fixed order, insertion order, which is one of the orders a hash map's
iteration could give; the contracts name it exactly. A
`HashMap<u128, Node>` would leave that order to an unnamed iteration
sequence, and every listing contract would have to be restated up to it;
that form has not been tried.
