//! Core of a ledger indexer: a polling block ingestor that keeps a local
//! chain cache within a bounded window of the network head, and a
//! block-range versioning layer that stores entity history as half-open
//! block-number intervals and generates the predicates that select or
//! close out versions.

pub mod backoff;
pub mod block_range;
pub mod blockchain;
pub mod chain_cache;
pub mod entity_version;
pub mod env_mappings;
pub mod ingestor;
pub mod ipfs;
pub mod strutil;
pub mod types;
