//! The core of a real-time, deterministic, multi-user N-body simulation
//! delivered over an unreliable datagram channel.
//!
//! Every peer runs the same fixed-point gravitational simulation in
//! lock-step: inputs are dated a few frames into the future, buffered in
//! frame order, and applied exactly at their target frame; peers verify one
//! another by comparing stable 64-bit checksums of the simulation state.
//! The modules are, leaves first:
//!
//! - `fixed_scalar`: the saturating 64-bit fixed-point scalar (32
//!   fractional bits);
//! - `body`, `simulation`: one gravitational tick, pinned to a mathematical
//!   model;
//! - `input_buffer`, `state`: the frame-ordered input buffer and the
//!   lock-step stepping protocol;
//! - `hashing`: the stable checksum peers compare;
//! - `wire`, `codec`, `messages`: the length-prefixed little-endian wire
//!   format, with proved encode/decode round trips;
//! - `latency`, `hash_ring`, `client`, `server`: ping bookkeeping, the
//!   beacon-comparison ring, and the client and server decision logic.

pub mod body;
pub mod client;
pub mod codec;
pub mod fixed_scalar;
pub mod hash_ring;
pub mod hashing;
pub mod input_buffer;
pub mod latency;
pub mod messages;
pub mod server;
pub mod simulation;
pub mod state;
pub mod wire;
