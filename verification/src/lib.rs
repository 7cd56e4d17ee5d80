//! A Chord-style distributed hash table overlay: ring arithmetic, node
//! membership and routing, and key-value placement with replication.

pub mod directory;
pub mod error;
pub mod hashing;
pub mod laws;
pub mod messages;
pub mod node;
pub mod overlay;
pub mod ring;
pub mod store;
pub mod table;
pub mod ws_handler;
