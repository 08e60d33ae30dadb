//! Peer-to-peer wire protocol layer for a blockchain node.
//!
//! The crate frames bytes into typed messages (`codec`), negotiates a
//! version handshake that gates all other traffic (`handshake`), and
//! dispatches decoded messages to a domain callback interface while
//! correlating outbound requests with their replies (`protocol`).

pub mod bufio;
pub mod codec;
pub mod handshake;
pub mod msg;
pub mod protocol;
pub mod ser;
