//! Local-network order synchronisation between a leader device and its
//! kitchen and bar displays: message types, the wire codec, the connection
//! registry with its broadcast bus, and the server and client state machines.

pub mod types;
pub mod wire;
mod outside;
mod text;
pub mod registry;
pub mod server;
pub mod client;
pub mod discovery;
pub mod config;
pub mod storage;
pub mod staff;
