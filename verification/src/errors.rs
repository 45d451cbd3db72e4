//! Error taxonomy of the driver.
//!
//! A `BusError` is a transport fault on the expander's two-wire bus; it is
//! fatal during initialization. An `InitSequenceError` records at which table
//! entry initialization failed. A `TransferError` is a hardware-reported
//! bulk-transfer fault; it is absorbed per frame. A `ResourceMisuseError`
//! marks an attempt to start a transfer while one is still checked out.

use vstd::prelude::*;

verus! {

/// Transport-level fault on the expander bus (no acknowledgment, bus error).
#[derive(Clone, Copy, PartialEq, Eq, Structural, Debug)]
pub struct BusError;

/// Initialization failure: the bus fault and the index of the table entry
/// that was being replayed when it happened.
#[derive(Clone, Copy, PartialEq, Eq, Structural, Debug)]
pub struct InitSequenceError {
    pub index: usize,
    pub error: BusError,
}

/// Hardware-reported fault of one bulk frame transfer.
#[derive(Clone, Copy, PartialEq, Eq, Structural, Debug)]
pub struct TransferError;

/// A transfer was requested while the transfer resource was already
/// checked out: a caller bug, never a transient hardware condition.
#[derive(Clone, Copy, PartialEq, Eq, Structural, Debug)]
pub struct ResourceMisuseError;

} // verus!
