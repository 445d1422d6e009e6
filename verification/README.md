# cognitive_memory

A memory server for language-model clients: it stores facts in a graph (Neo4j),
keeps a rebuildable vector index of them (Qdrant), and offers six MCP tools over
HTTP. The logic is a Verus library; a thin program around it does the I/O.

| path | contents |
|---|---|
| `src/text.rs` | texts, numbers, ordered name lists |
| `src/graph.rs`, `src/graph_laws.rs` | records, ids, the graph model and a graph in memory; what holds across its operations |
| `src/vectors.rs` | point ids, ranking, the index model and an index in memory |
| `src/neo4j.rs`, `src/qdrant.rs` | what to ask the databases and what their answers mean |
| `src/json.rs`, `src/embeddings.rs` | JSON values; the embedding providers |
| `src/service.rs`, `src/service_laws.rs` | the operations as flows of actions and replies; what holds across them |
| `src/in_memory.rs` | the service's actions on the stores in memory |
| `src/server.rs` | tools, answers, bearer authentication |
| `src/config.rs`, `src/startup.rs` | environment variables; a run of the program |
| `app/` | the program: network, databases, local model, signals |
| `tests/` | tests on the stores in memory, no services needed |

Numbers in single precision (vector components, scores) are held by their bit
patterns in `src/`; arithmetic on them is done in `app/`.

## Environment

```
NEO4J_URI      bolt://127.0.0.1:7687
NEO4J_USER / NEO4J_PASSWORD   (default neo4j / password, or from NEO4J_AUTH=neo4j/<pw>)
QDRANT_URL     http://127.0.0.1:6333     QDRANT_API_KEY
PORT           8080
MEMORY_TOKEN   optional bearer auth
ALLOWED_HOSTS  comma-separated extra HTTP Host names for /mcp (localhost allowed by default)
FASTEMBED_CACHE_PATH           persist the local model between restarts
EMBEDDINGS_BASEURL + EMBEDDINGS_MODEL (+ EMBEDDINGS_APIKEY)
               use an external OpenAI-compatible /embeddings endpoint;
               unset = local bge-small-en-v1.5 (384 dims)
EMBEDDING_DIMENSIONS           override the collection's dimensions
```

`--reindex` rebuilds the index from the graph and exits.
