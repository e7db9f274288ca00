//! Room-based matchmaking for a signaling relay.
//!
//! Peers connect, are given an identity, and are grouped into rooms. The
//! directory in [`state`] tracks each connection through its three phases
//! (pending by address, pending by identity, active), and [`topology`] drives
//! one connection from its join to its departure.

pub mod assoc;
pub mod count;
pub mod laws;
pub mod room;
pub mod state;
pub mod topology;
pub mod transport;
