//! The decisions of a Schooner server, a small Raft node, apart from the sockets, threads,
//! timers and files that carry them.

pub mod append_entries;
pub mod decimal;
pub mod events;
pub mod follower;
pub mod laws;
pub mod leader;
pub mod leading;
pub mod listener;
pub mod log;
pub mod log_entry;
pub mod message;
pub mod peer;
pub mod server;
pub mod serving;
pub mod text;
