//! Persistent cognitive memory: the verified core of a memory server.
pub mod config;
pub mod embedding_laws;
pub mod embeddings;
pub mod graph;
pub mod graph_laws;
pub mod in_memory;
pub mod json;
pub mod neo4j;
pub mod operation_laws;
pub mod qdrant;
pub mod server;
pub mod service;
pub mod service_laws;
pub mod startup;
pub mod store_laws;
pub mod text;
pub mod text_laws;
pub mod vector_laws;
pub mod vectors;
