pub mod answer_laws;
pub mod asking;
pub mod chunker;
pub mod chunker_kept;
pub mod chunker_laws;
pub mod cli;
pub mod config;
pub mod dict;
pub mod embedding;
pub mod filter_laws;
pub mod hash;
pub mod http;
pub mod hybrid;
pub mod hybrid_laws;
pub mod ingest;
pub mod json;
pub mod mcp;
pub mod migrate;
pub mod plugins;
pub mod query;
pub mod query_laws;
pub mod reranker;
pub mod schema;
pub mod search;
pub mod server;
pub mod service_laws;
pub mod store;
pub mod table_laws;
pub mod text;
pub mod tls;
pub mod tools;
pub mod write_laws;
pub mod writing;
