//! A fixed-membership group of three peer servers that elects a leader over
//! an unreliable datagram transport and relays large binary payloads between
//! client endpoints through whichever server currently holds leadership.
//!
//! The verified core covers the ring-based leader election, datagram
//! fragmentation and reassembly, the peer directory, the per-message session
//! state machine with its bounded view budget, and the offline queue used for
//! store-and-forward replay.

pub mod codec;
pub mod directory;
pub mod election;
pub mod fault;
pub mod frame;
pub mod offline;
pub mod reassembly;
pub mod relay;
pub mod ring;
pub mod session;
pub mod text;
