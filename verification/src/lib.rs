//! Driver core for a square RGB panel behind an I/O-expander based
//! bit-serial command channel and a descriptor-chained bulk frame transfer.
//!
//! The library computes every register value, action sequence and buffer
//! layout the driver needs; the hardware-facing shell issues them.

pub mod encoder;
pub mod errors;
pub mod sequencer;
pub mod transfer;
