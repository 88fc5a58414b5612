//! Hoshi: the verified core of a peer-to-peer messenger with voice calls.
//!
//! The crate holds the parts of the messenger that decide and compute:
//! the μ-law audio codec, chat paths between public keys, the call state
//! machine, the hash-chained record stores and their sync protocol, and the
//! helpers that the control plane uses to check what clients send it.

pub mod audio_chunk;
pub mod node;
pub mod text;
pub mod digest;
pub mod ids;
pub mod clock;
pub mod hash_cache;
pub mod store;
pub mod store_file;
pub mod contact;
pub mod record;
pub mod chat;
pub mod call;
pub mod calls;
pub mod relay;
pub mod net;
pub mod client;
pub mod identity;
pub mod noise;
pub mod config;
pub mod wire;
pub mod control_plane;
pub mod audio;
pub mod bots;
pub mod connection;
