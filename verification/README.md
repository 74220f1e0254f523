# ferres_db_core

The verified core of FerresDB, a vector database with keyword search,
relations between points and tiered storage. This crate holds the engine's
decision logic and its storage formats; it does not hold the whole engine:
the write-ahead log and snapshots, tiered collections as a whole and the
command-line tool are not part of it.

The crate is written in Verus. Its library (`src/`) holds the logic that
decides what the engine stores, keeps and returns, each function with a
contract that Verus proves:

| module       | what it decides                                                     |
|--------------|---------------------------------------------------------------------|
| `bm25`       | tokenization, per-document term counts, document frequencies        |
| `collection` | a collection's points, batch inserts, graph rebuild or extension    |
| `explain`    | candidate counts and ranks of an explained search                   |
| `search_cache` | the LRU cache of search results and its hit and miss counters   |
| `graph`      | relations between points, breadth-first traversal                   |
| `id_map`     | data ids and tombstones of the HNSW graph, which results are kept   |
| `jsonl`      | the `points.jsonl` format, line numbering                           |
| `storage`    | file bodies, MD5 integrity checks, the disk circuit breaker         |
| `warm`       | slot offsets of the Warm tier, crash recovery, compaction           |
| `tiered`     | tier of each point, demotions, compaction plans, tier statistics    |
| `encoding`   | collision-free file names for Cold points                           |
| `point_id`   | storage keys, point validation, expiry                              |
| `filter`     | metadata filter operators and their errors                          |
| `fusion`     | ranks of each document in each ranking                              |
| `cost`       | query advice and memory estimates                                   |
| `search`     | distance names, HNSW parameters, `ef_search` auto-tuning            |
| `reindex`    | when to rebuild an index, the delta to apply after a rebuild        |
| `stats`      | collection creation rules, statistics, listings                     |

Public proof functions named `law_*` state properties that hold across
operations (for instance that points written to `points.jsonl` are read
back unchanged, or that a circuit breaker opens after its threshold).

`app/` holds what Verus does not check: file and memory-mapped I/O,
(de)serialization, and the floating-point parts of search (HNSW over
`hnsw_rs`, BM25 scoring, rank fusion scores, the latency model, numeric
metadata comparisons). It is glue around the library, not a complete
engine: it calls the library where the library has the decision, and
several of the library's operations (compaction plans, the access
tracker, the relation graph, reindex decisions) are not wired into it.

`tests/` exercises the library on concrete values.
