//! Core of a rendezvous/signaling hub: many client connections register with
//! one central process, discover each other through roster snapshots, and
//! exchange opaque negotiation payloads relayed by the hub, so that two
//! clients can set up a direct peer-to-peer channel.
//!
//! The crate holds the verified core only: the wire-envelope data model and
//! codec, the presence registry with its routing rules, the heartbeat round
//! counter, and the per-connection bridge decisions. Transport, TLS, and the
//! event loops that drive these pieces live outside the library.

pub mod bridge;
pub mod codec;
pub mod models;
pub mod registry;
pub mod ticker;
