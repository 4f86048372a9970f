//! Server-authoritative replication core for a small multiplayer simulation.
//!
//! Many clients send movement intent to one authoritative server, which
//! integrates motion on a fixed schedule and streams world state back. This
//! crate holds the replication subsystem itself: the lobby registry mapping
//! client identities to player records, the connection lifecycle manager, the
//! latest-wins input replicator, the fixed-tick movement integrator, the
//! per-tick snapshot builder, and the binary wire codec.
//!
//! Everything here is plain data and arithmetic: scalar quantities use a
//! fixed-point representation (see [`data`]), and client-reported view angles
//! travel as opaque 32-bit patterns. The surrounding process supplies network
//! events and raw message bytes, performs the sends the library asks for, and
//! computes the per-player trigonometric pairs the integrator consumes.

pub mod client;
pub mod codec;
pub mod connection;
pub mod data;
pub mod lobby;
pub mod replicate;
pub mod snapshot;
pub mod tick;
