//! Persisting ingested content nodes into a key-value store: a reversible
//! node encoding, key and value derivation, the single and batch store
//! operations with their failure reports, and lazy connection decisions.
pub mod codec;
pub mod connection;
pub mod laws;
pub mod node;
pub mod persist;
pub mod store;
