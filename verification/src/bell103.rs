//! Bell 103: 300 bps full-duplex FSK.
//!
//! Full duplex is achieved by frequency division, so the two directions occupy
//! separate bands and no echo canceller is required. ITU-T V.21 is the equivalent
//! outside North America and differs only in tone assignment, so the same receiver
//! serves both.
//!
//! The discriminator is in front of this: what comes in is its level, sample by
//! sample, and whether there is a carrier in the band.
use crate::framing::{AsyncFramer, State};
use vstd::prelude::*;

verus! {

/// Which end of the call this modem is.
#[derive(Debug, Clone, Copy, PartialEq, Eq, Structural)]
pub enum Role {
    Originate,
    Answer,
}

/// The band a role transmits in, as space and mark in hertz.
pub open spec fn band(role: Role) -> (u32, u32) {
    match role {
        Role::Originate => (1070, 1270),
        Role::Answer => (2025, 2225),
    }
}

/// The other end of the call.
pub open spec fn far_end(role: Role) -> Role {
    match role {
        Role::Originate => Role::Answer,
        Role::Answer => Role::Originate,
    }
}

impl Role {
    /// The band this role transmits in, as `(space, mark)`.
    pub fn transmit_tones(self) -> (tones: (u32, u32))
        ensures
            tones == band(self),
    {
        match self {
            Role::Originate => (1070, 1270),
            Role::Answer => (2025, 2225),
        }
    }

    /// The band this role listens to: whatever the far end transmits.
    pub fn receive_tones(self) -> (tones: (u32, u32))
        ensures
            tones == band(far_end(self)),
    {
        match self {
            Role::Originate => Role::Answer.transmit_tones(),
            Role::Answer => Role::Originate.transmit_tones(),
        }
    }
}

/// Each end hears the other's band, and the two bands are apart: full duplex needs no
/// echo canceller.
pub proof fn the_bands_are_apart(role: Role)
    ensures
        far_end(far_end(role)) == role,
        band(Role::Originate).1 < band(Role::Answer).0,
        band(role).0 < band(role).1,
{
}

/// Bits a second.
pub const BAUD: u32 = 300;

/// A streaming Bell 103 receiver: discriminator levels in, characters out.
#[derive(Debug, Clone, Copy, PartialEq, Eq, Structural)]
pub struct Bell103Rx {
    /// Space and mark, in hertz, for the discriminator to be built on.
    pub space: u32,
    pub mark: u32,
    pub framer: AsyncFramer,
    pub last_level: i32,
    pub carrier: bool,
    pub symbol: Option<i32>,
}

impl Bell103Rx {
    pub open spec fn wf(self) -> bool {
        self.framer.wf()
    }

    /// A receiver for a tone pair that has heard nothing.
    pub open spec fn listening(space: u32, mark: u32, fs: u32) -> Bell103Rx {
        Bell103Rx {
            space,
            mark,
            framer: AsyncFramer {
                baud: BAUD,
                fs,
                data_bits: 8,
                state: State::Idle,
                since_edge: 0,
                next_bit: 0,
                value: 0,
                prev: 1,
                framing_errors: 0,
                sampled: None,
            },
            last_level: 0,
            carrier: false,
            symbol: None,
        }
    }

    /// Build a receiver listening to the band the far end of `role` transmits in.
    pub fn new(role: Role, fs: u32) -> (receiver: Self)
        requires
            0 < fs,
        ensures
            receiver.wf(),
            receiver == Bell103Rx::listening(band(far_end(role)).0, band(far_end(role)).1, fs),
    {
        let (space, mark) = role.receive_tones();
        Self::with_tones(space, mark, fs)
    }

    /// Build a receiver for an explicit tone pair, for V.21 or for tapping a specific
    /// direction out of a 2-wire capture.
    pub fn with_tones(space: u32, mark: u32, fs: u32) -> (receiver: Self)
        requires
            0 < fs,
        ensures
            receiver.wf(),
            receiver == Bell103Rx::listening(space, mark, fs),
    {
        Bell103Rx {
            space,
            mark,
            framer: AsyncFramer::new(BAUD, fs, 8),
            last_level: 0,
            carrier: false,
            symbol: None,
        }
    }

    /// Feed the discriminator's level for one line sample; yields a character when a
    /// frame completes.
    pub fn feed(&mut self, level: i32, carrier: bool) -> (out: Option<u8>)
        requires
            old(self).wf(),
            old(self).framer.framing_errors < u64::MAX,
        ensures
            final(self).wf(),
            ({
                let (framer, character) = old(self).framer.fed(level, carrier);
                &&& out == character
                &&& *final(self) == (Bell103Rx {
                    framer: AsyncFramer { sampled: None, ..framer },
                    last_level: level,
                    carrier,
                    symbol: framer.sampled,
                    ..*old(self)
                })
            }),
    {
        self.last_level = level;
        self.carrier = carrier;
        let out = self.framer.feed(level, carrier);
        self.symbol = self.framer.take_sampled();
        out
    }

    /// Discriminator level of the bit sampled on the last `feed`, if any.
    ///
    /// One value per recovered bit, taken at the bit centre. This is what the symbol
    /// scope plots: distance from zero is the slicer's decision margin.
    pub fn take_symbol(&mut self) -> (symbol: Option<i32>)
        ensures
            symbol == old(self).symbol,
            *final(self) == (Bell103Rx { symbol: None, ..*old(self) }),
    {
        let symbol = self.symbol;
        self.symbol = None;
        symbol
    }

    /// Whether there was a carrier at the last sample.
    pub fn carrier(&self) -> (carrier: bool)
        ensures
            carrier == self.carrier,
    {
        self.carrier
    }

    /// Most recent discriminator output: above 0 is a mark.
    pub fn level(&self) -> (level: i32)
        ensures
            level == self.last_level,
    {
        self.last_level
    }

    /// Characters whose stop bit was not mark.
    pub fn framing_errors(&self) -> (errors: u64)
        ensures
            errors == self.framer.framing_errors,
    {
        self.framer.framing_errors
    }
}

/// The calling end sends a space at 1070 Hz and a mark at 1270, the answering end at 2025
/// and 2225, and each listens where the other sends.
pub proof fn each_end_has_its_band(fs: u32)
    ensures
        band(Role::Originate) == (1070u32, 1270u32),
        band(Role::Answer) == (2025u32, 2225u32),
        far_end(Role::Originate) == Role::Answer,
        far_end(Role::Answer) == Role::Originate,
        Bell103Rx::listening(1070, 1270, fs).framer.baud == 300,
        Bell103Rx::listening(1070, 1270, fs).framer.data_bits == 8,
        Bell103Rx::listening(1070, 1270, fs).framer.fs == fs,
{
}

} // verus!
