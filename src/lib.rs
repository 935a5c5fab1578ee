//! Session layer of a small text-chat protocol: message vocabularies,
//! length-prefixed framing, incremental frame assembly, per-connection
//! sessions and the server's session registry.

pub mod message;
pub mod frame;
pub mod command;
pub mod builder;
pub mod peer;
pub mod server;
pub mod client;
