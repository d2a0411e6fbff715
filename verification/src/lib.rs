//! Deterministic rollback core for a two-player, fixed-timestep simulation.
//!
//! The crate holds the pure part of a peer-to-peer rollback session: the
//! per-frame input value, the simulation step, the snapshot ring, the wire
//! format, and the session state machine that predicts the remote input,
//! detects mispredictions and replays corrected frames. It performs no I/O:
//! the host hands in bytes and key states and sends what the session returns.

pub mod input;
pub mod model;
pub mod network;
pub mod player;
mod ring;
pub mod session;
pub mod snapshot;
pub mod state;
pub mod timeline;
pub mod wire;
