//! The synchronizing signal, in symbols.
use vstd::prelude::*;

verus! {

/// Segment 1: no transmitted energy.
pub const SILENCE: u32 = 48;

/// Segment 2: two points in turn, for the timing and the carrier.
pub const ALTERNATIONS: u32 = 128;

/// Segment 3: two points in a pseudo-random order, for the equaliser.
pub const CONDITIONING: u32 = 384;

/// Segment 4: scrambled ONEs, coded as data.
pub const ONES: u32 = 48;

/// The whole of it: 608 symbols, 253 ms.
pub const TOTAL: u32 = SILENCE + ALTERNATIONS + CONDITIONING + ONES;

} // verus!
