//! An in-memory key-value server core speaking the RESP wire protocol, with
//! leader/follower replication: the codec, the command model, the store, and
//! the decisions of each connection, proved against their contracts.

pub mod bytes;
pub mod decimal;
pub mod resp;
pub mod decoder;
pub mod round_trip;
pub mod commands;
pub mod store;
pub mod registry;
pub mod snapshot;
pub mod node;
pub mod handshake;
pub mod config;
pub mod replication;
