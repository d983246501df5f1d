//! The four segments of a long train, in symbol intervals.
use vstd::prelude::*;

verus! {

/// Segment 1: alternations between states A and B.
pub const ALTERNATIONS: u64 = 256;

/// Segment 2: the equaliser training signal.
pub const EQUALIZER: u64 = 2976;

/// Segment 3: the bridge signal, sent only in a long train.
pub const BRIDGE: u64 = 64;

/// Segment 4: scrambled ones at the channel rate.
pub const SCRAMBLED_ONES: u64 = 48;

/// The whole of a long train.
pub const LONG: u64 = ALTERNATIONS + EQUALIZER + BRIDGE + SCRAMBLED_ONES;

} // verus!
