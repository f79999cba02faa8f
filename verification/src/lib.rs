//! A multi-transport fan-out relay core.
//!
//! The relay accepts many concurrent peers, tracks each one in a
//! registry of sessions, and rebroadcasts every inbound message to the
//! other registered sessions. Once a configured number of peers has
//! joined, a readiness sentinel is delivered to every session, exactly
//! once. This crate holds the verified core: the session registry, the
//! fan-out and readiness decisions, the per-session lifecycle, and the
//! throughput counters. The transports themselves (stream, datagram,
//! message-framed) live with the I/O code that drives this core.

pub mod hashing;
pub mod registry;
pub mod relay;
pub mod session;
