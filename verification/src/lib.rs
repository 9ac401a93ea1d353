//! Deterministic lockstep simulation core with rollback networking.
//!
//! A match is a fixed-rate sequence of ticks. Every participant runs the same
//! deterministic simulation step, fed by one input symbol per participant per
//! tick. Remote input arrives late, so the rollback scheduler simulates ahead
//! with predicted input (repeat the last confirmed symbol, else neutral) and,
//! when a confirmed symbol contradicts a prediction already used for a past
//! tick, restores the snapshot taken at that tick and replays forward.
//!
//! Modules, leaves first:
//! - [`codec`]: encodes local control flags into a one-byte input symbol and
//!   decodes a symbol back into axis deltas.
//! - [`sim`]: the pure, deterministic per-tick step over fixed-point
//!   coordinates, and the laws that sequential simulation obeys.
//! - [`rollback`]: the scheduler that buffers confirmed input, predicts the
//!   rest, advances the simulation, and rolls back and replays when a late
//!   confirmation invalidates a prediction.
//! - [`session`]: the match lifecycle, from waiting for peers through
//!   negotiation to a running rollback scheduler.
//! - [`wire`]: the fixed-width message that carries one input symbol between
//!   peers, with a checked decoder that drops malformed datagrams.
//!
//! Transport and presentation are deliberately outside this crate: callers
//! hand in peer events and received datagrams as plain values and read
//! positions back out.

pub mod codec;
pub mod rollback;
pub mod session;
pub mod sim;
pub mod wire;
