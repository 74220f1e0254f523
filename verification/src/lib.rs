//! Core of FerresDB: the verified logic of a vector search engine.
//!
//! The numeric search machinery (HNSW graphs, floating-point distances,
//! quantization) lives outside this crate's verified part; what is here is
//! the bookkeeping that decides what the engine stores, keeps and returns.
pub mod assoc;
pub mod bm25;
pub mod collection;
pub mod cost;
pub mod encoding;
pub mod error;
pub mod explain;
pub mod filter;
pub mod fusion;
pub mod graph;
pub mod id_map;
pub mod jsonl;
pub mod point_id;
pub mod quantization;
pub mod reindex;
pub mod report;
pub mod search;
pub mod search_cache;
pub mod stats;
pub mod storage;
pub mod text;
pub mod tiered;
pub mod warm;
pub mod time;
