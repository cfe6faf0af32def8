//! Matching packed 2-bit cells against a color, one byte at a time and 512
//! bytes at a time, with the steps of a benchmark that runs both ways on the
//! same data and checks that they agree.
//!
//! - [`scalar`]: the matcher on one byte, in three formulations.
//! - [`vector`]: the matcher on 64 lanes of 64 bits, and the packing of a
//!   buffer into lanes.
//! - [`lfsr`]: the generator of reproducible input.
//! - [`harness`]: the steps of a benchmark round and its totals.

pub mod harness;
pub mod lfsr;
pub mod scalar;
pub mod vector;
