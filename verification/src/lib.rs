//! The protocol core of a small in-memory key-value server with live
//! replicas: the wire codec, the store with per-key expiry, command
//! dispatch, the replica registry and the replication handshake. Each part
//! is stated over a mathematical model and proved against it; sockets,
//! tasks and the clock are left to the program around it.

pub mod command;
pub mod decimal;
pub mod framing;
pub mod handshake;
pub mod laws;
pub mod options;
pub mod replicas;
pub mod resp;
pub mod roundtrip;
pub mod set;
pub mod store;
