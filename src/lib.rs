//! Sustenet: a Master / Cluster / Client server fleet that shares one framed
//! binary command protocol. This crate holds the verified core: the command
//! numbering, the wire codec, the per-connection decisions, the Master's
//! registry and handshake, and the Client's connection state machine.

pub mod bytes_be;
pub mod client;
pub mod cluster;
pub mod codec;
pub mod config;
pub mod connection;
pub mod constants;
pub mod events;
pub mod logging;
pub mod master;
pub mod packet;
pub mod packets;
pub mod queue;
pub mod security;
