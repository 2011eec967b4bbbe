//! Core of a real-time publish/subscribe relay.
//!
//! Clients join named channels, publish generic messages or slide-change
//! events, and are tracked in a per-channel presence table.  This crate
//! holds the verified parts: the wire-text encoder for outbound events,
//! the protocol types and their dispatch rules, the presence table, and a
//! registry model of topics with bounded per-subscriber queues.  The
//! network and task plumbing around it is ordinary, unverified code.

pub mod json;
pub mod protocol;
pub mod presence;
pub mod registry;
pub mod relay;
pub mod live;
pub mod surface;
