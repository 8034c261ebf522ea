//! A reliable, connection-oriented datagram transport layered over UDP.
//!
//! The crate holds the protocol itself: the wire codec, the per-peer
//! connection with its de-duplication journal, the pending-acknowledgement
//! table and the endpoint that ties them together. Sockets and threads
//! belong to the program that drives the endpoint: every operation here
//! takes plain values and hands back the datagrams to transmit.

pub mod connection;
pub mod endpoint;
pub mod error;
pub mod guarantees;
pub mod header;
pub mod package;
pub mod prelude;
pub mod util;
pub mod version;
