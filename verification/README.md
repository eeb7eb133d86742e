# semdoc

A knowledge base of documents that a schema describes: texts are split into
chunks, embedded, stored in a table, and found again by meaning, by words, or
through a graph. It is used from the command line, over REST, and through the
tool protocol (MCP) over HTTP or standard input.

`src/` is the library. Everything in it is verified with Verus: each function
states in `ensures` what it returns, and the `law_*` proof functions state what
holds of several of them together.

| module | what it holds |
| --- | --- |
| `text`, `dict`, `json`, `hash` | texts, ordered maps, JSON values, content hashes |
| `schema`, `config`, `tls` | the schema of a database, the deployment, TLS settings |
| `chunker`, `chunker_laws` | splitting documents into chunks |
| `query` | filters and their SQL, expansion of chunk hits, ranking |
| `store`, `ingest` | columns, indexes, conditions, rows; embedding a document |
| `search`, `writing`, `asking` | searches, writes and graph questions, step by step |
| `plugins::graph`, `hybrid` | the graph server's protocol, merging its answers |
| `http`, `embedding`, `reranker` | requests to embedding and ranking services |
| `mcp`, `tools`, `server` | the tool protocol, sessions, REST answers |
| `cli`, `migrate` | the command line, copying a database |

`search`, `writing` and `asking` alternate decisions with work that happens
elsewhere: `next` says what is to be done, and the other methods take what came
of it. The program in `app/` runs these loops and does the work: it talks to
LanceDB, to embedding, ranking and graph servers, and serves HTTP.

Numbers of vectors and scores are kept as bit patterns. What the library takes
from `serde_json`, `blake3` and `md5` stands behind small trusted functions in
`json` and `hash`, whose comments say what is believed of them.
