//! The decisions of a terminal multiplexer client that reaches several machines.
//!
//! The crate holds what can be decided from plain values: saved machine
//! profiles, private state files, endpoint supervision, metadata transport,
//! interactive handoffs and the session's message dialog. Sockets, files,
//! timers and the screen belong to the caller.

pub mod client;
pub mod duration;
pub mod identity;
pub mod machine_laws;
pub mod machines;
pub mod protocol;
pub mod ssh_bridge;
pub mod state_file;
pub mod terminal;
pub mod text;
pub mod text_laws;
