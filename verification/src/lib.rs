//! The state of a transaction peer: which transactions it holds, which
//! consensus rounds commit them, which processors execute them and what the
//! clients are told about them.
pub mod bits;
pub mod clients;
pub mod component;
pub mod config;
pub mod consensus;
pub mod events;
pub mod guarantees;
pub mod ids;
pub mod keys;
pub mod laws;
pub mod model;
pub mod peer_xact;
pub mod processors;
pub mod seal_entry;
pub mod sessions;
pub mod state;
pub mod text;
pub mod time;
pub mod types;
pub mod xact;
