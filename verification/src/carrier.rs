//! Whether a burst is on the line: a carrier has to be well above the quiet line to
//! begin, and to have fallen well below its own loudest to be called gone.
//!
//! Its own, because that is the only reference that is always available and always
//! right: a burst that has stopped is twelve decibels down on the burst that was
//! there, on any line at any level.
use vstd::prelude::*;

verus! {

/// The quietest thing that may be called a carrier at all, and the level it has to
/// fall below before it is called gone, in hundred-millionths of full scale: sixty
/// decibels down, with five decibels of hysteresis.
pub const CARRIER_ON: u32 = 100_000;

pub const CARRIER_OFF: u32 = 56_200;

/// A level heard, the loudest the burst in hand has been, and what the line sounds
/// like with nothing on it, in hundred-millionths of full scale.
#[derive(Debug, Clone, Copy, PartialEq, Eq, Structural)]
pub struct Levels {
    pub level: u32,
    pub loudest: u32,
    pub floor: u32,
}

impl Levels {
    /// Whether there is a carrier, by whether there was one. Twelve decibels above
    /// the quiet line to begin, twelve below its own loudest to end.
    pub open spec fn carries(self, was: bool) -> bool {
        if was {
            4 * self.level > self.loudest && self.level > CARRIER_OFF
        } else {
            self.level > 4 * self.floor && self.level > CARRIER_ON
        }
    }

    pub fn carrier(self, was: bool) -> (carrier: bool)
        ensures
            carrier == self.carries(was),
    {
        if was {
            4 * (self.level as u64) > self.loudest as u64 && self.level > CARRIER_OFF
        } else {
            self.level as u64 > 4 * (self.floor as u64) && self.level > CARRIER_ON
        }
    }
}

/// Silence is not a carrier, whatever was there before it.
pub proof fn silence_is_not_a_carrier(l: Levels, was: bool)
    requires
        l.level <= CARRIER_OFF,
    ensures
        !l.carries(was),
{
}

/// A level that has just begun a burst does not end it.
pub proof fn a_burst_does_not_end_as_it_begins(l: Levels)
    requires
        l.carries(false),
        l.loudest <= l.level,
    ensures
        l.carries(true),
{
}

/// A carrier begins where it is more than twelve decibels above the quiet line, and goes
/// on while it is less than twelve below its own loudest, down to the least that is a
/// carrier at all: sixty decibels below full scale to begin, sixty-five to go on.
pub proof fn twelve_decibels_make_a_carrier(l: Levels)
    ensures
        l.carries(false) <==> l.level > 4 * l.floor && l.level > 100_000,
        l.carries(true) <==> l.loudest < 4 * l.level && l.level > 56_200,
{
}

/// A louder level is never less of a carrier; a louder line to be above, or a louder
/// burst to be below, never more of one.
pub proof fn a_louder_level_carries_as_well(l: Levels, other: Levels, was: bool)
    requires
        l.carries(was),
        other.level >= l.level,
        other.floor <= l.floor,
        other.loudest <= l.loudest,
    ensures
        other.carries(was),
{
}

/// What a line is quietly does not end a burst, and how loud the last burst was does not
/// keep another from beginning.
pub proof fn a_burst_ends_by_its_own_loudest(l: Levels, other: Levels)
    requires
        other.level == l.level,
    ensures
        other.loudest == l.loudest ==> other.carries(true) == l.carries(true),
        other.floor == l.floor ==> other.carries(false) == l.carries(false),
{
}

} // verus!
