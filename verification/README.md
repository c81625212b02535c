# rainbow_docs

The document logic of Rainbow-Docs — Markdown processing, document structure, chunking for
vector search, caching, permissions and request validation — as a library whose behaviour is
stated in contracts and proved with Verus.

Layout:

- `src/` — the verified library, one module per concern:
  - `text`, `md`, `markdown`, `structure_parser`: characters, Markdown events (from
    pulldown-cmark), rendering, excerpts, tables of contents, document structure.
  - `chunking`, `chunker`, `chunk_suite`, `benchmark`: chunk model, the chunking strategies
    (simple, structural, semantic, hybrid, adaptive choice), test-suite cutting and counting,
    benchmark documents.
  - `cache`, `cache_strategy`: the LRU cache, the two-level chunking cache, access patterns,
    adaptive TTL and related-document prediction.
  - `concurrency`, `resources`: batching, priorities, worker choice, processing figures,
    memory accounting.
  - `document`, `doc_tree`, `comment`, `notification`, `space_member`, `auth`, `validation`,
    `queries`, `installer`, `stats`, `embedding`, `vector`, `quality`, `error`, `clock`:
    the models, their rules and request checks.
- `tests/` — tests of the library.
- `app/` — a command-line program around the library: files, environment, clock, threads,
  serialization, and the fractional quality and benchmark figures.
