//! Verified core of an interactive process selector and signal sender.
//!
//! The library holds the logic that decides things: name and port
//! filtering, sorting, listener deduplication, signal-name resolution,
//! the live-mode selection state machine, and plain-text row layout.
//! Reading the OS process table, drawing the terminal and sending the
//! actual signals are left to the surrounding binary, which hands this
//! library plain values and obeys its contracts.

pub mod filter;
pub mod format;
pub mod live;
pub mod ports;
pub mod record;
pub mod signal;
pub mod sort;
pub mod text;

use vstd::prelude::*;

verus! {

/// Memory reported in bytes becomes whole megabytes, truncating.
pub fn bytes_to_mb(bytes: u64) -> (mb: u64)
    ensures
        mb as int == bytes as int / (1024int * 1024),
{
    bytes / 1024 / 1024
}

} // verus!
