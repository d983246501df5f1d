//! V.17: the fax modulation, which is V.32bis's modulation half-duplex.
//!
//! Everything that decides what a symbol looks like is shared with V.32bis. What is
//! different is everything around the symbols. There is no start-up handshake,
//! because T.30 has already done the negotiating; there is no echo canceller, because
//! only one end transmits at a time; and there is no round trip to measure, because
//! nothing is waiting for an answer. In place of all of it there is a fixed training
//! sequence that the sender simply sends.
use crate::v32::{state_point, Mode};
use vstd::prelude::*;

pub mod laws;
pub mod train;

verus! {

/// Symbols a second.
pub const BAUD: u32 = 2400;

/// Carrier, in hertz.
pub const CARRIER: u32 = 1800;

/// The scrambler, 1 + x^-18 + x^-23: the polynomial V.32 gives the calling modem.
pub const SCRAMBLER_TAPS: (u32, u32) = (18, 23);

/// The scrambler is the one V.32 gives its calling end.
pub proof fn the_scrambler_is_the_calling_ends()
    ensures
        SCRAMBLER_TAPS == Mode::Call.polynomial(),
{
}

/// The rates carried, fastest first.
pub const RATES: [u32; 4] = [14_400, 12_000, 9600, 7200];

/// Bits a symbol carries at each rate.
pub open spec fn width(rate: u32) -> Option<nat> {
    if rate == 14_400 {
        Some(6)
    } else if rate == 12_000 {
        Some(5)
    } else if rate == 9600 {
        Some(4)
    } else if rate == 7200 {
        Some(3)
    } else {
        None
    }
}

/// Bits a symbol carries at each rate, which is what picks the constellation.
pub fn bits_per_symbol(rate: u32) -> (bits: Option<usize>)
    ensures
        bits is Some == width(rate) is Some,
        bits matches Some(bits) ==> Some(bits as nat) == width(rate),
{
    match rate {
        14_400 => Some(6),
        12_000 => Some(5),
        9600 => Some(4),
        7200 => Some(3),
        _ => None,
    }
}

/// At every rate a symbol's bits, as often as symbols go, are the rate; and each of
/// the rates is carried.
pub proof fn every_rate_is_its_bits(rate: u32, i: int)
    ensures
        width(rate) matches Some(bits) ==> bits * BAUD == rate,
        0 <= i < 4 ==> width(RATES@[i]) is Some,
{
}

/// A trellis-coded constellation: the bits of data a symbol of it carries.
#[derive(Debug, Clone, Copy, PartialEq, Eq, Structural)]
pub struct Coded {
    pub bits: usize,
}

impl Coded {
    /// How many points there are. The redundant bit makes the set twice as big as
    /// the data.
    pub fn size(self) -> (size: usize)
        requires
            self.bits <= 6,
        ensures
            size == vstd::arithmetic::power2::pow2((self.bits + 1) as nat),
    {
        proof {
            vstd::arithmetic::power2::lemma2_to64();
        }
        match self.bits {
            0 => 2,
            1 => 4,
            2 => 8,
            3 => 16,
            4 => 32,
            5 => 64,
            _ => 128,
        }
    }
}

/// The constellation for a rate.
pub fn coding_for(rate: u32) -> (coded: Option<Coded>)
    ensures
        coded is Some == width(rate) is Some,
        coded matches Some(coded) ==> Some(coded.bits as nat) == width(rate) && coded.bits <= 6,
{
    match bits_per_symbol(rate) {
        Some(bits) => Some(Coded { bits }),
        None => None,
    }
}

/// The four signalling states the training uses.
#[derive(Debug, Clone, Copy, PartialEq, Eq, Structural)]
pub enum State {
    A,
    B,
    C,
    D,
}

pub open spec fn numbered(state: State) -> nat {
    match state {
        State::A => 0,
        State::B => 1,
        State::C => 2,
        State::D => 3,
    }
}

pub open spec fn state_of(number: int) -> State {
    if number == 0 {
        State::A
    } else if number == 1 {
        State::B
    } else if number == 2 {
        State::C
    } else {
        State::D
    }
}

/// How segment 2's dibits become signal states, read as two bits.
pub open spec fn state_for(first: bool, second: bool) -> State {
    match (first, second) {
        (false, false) => State::C,
        (false, true) => State::D,
        (true, true) => State::A,
        (true, false) => State::B,
    }
}

/// How segment 2's dibits become signal states. Differential encoding is off through
/// this segment, so a dibit is a state and not a change of state.
pub fn four_phase_state(dibit: u8) -> (state: State)
    ensures
        state == state_for(dibit / 2 % 2 == 1, dibit % 2 == 1),
{
    match dibit % 4 {
        0 => State::C,
        1 => State::D,
        3 => State::A,
        _ => State::B,
    }
}

/// The quarters a dibit of segment 3 turns the state by.
pub open spec fn quarters_for(first: bool, second: bool) -> int {
    match (first, second) {
        (false, false) => 1,
        (false, true) => 0,
        (true, false) => 2,
        (true, true) => 3,
    }
}

/// How segment 3's dibits change the state, in quarter turns.
pub fn bridge_turn(dibit: u8) -> (quarters: u8)
    ensures
        quarters == quarters_for(dibit / 2 % 2 == 1, dibit % 2 == 1),
        quarters < 4,
{
    match dibit % 4 {
        0 => 1,
        1 => 0,
        2 => 2,
        _ => 3,
    }
}

/// No two dibits are the same state, nor the same turn.
pub proof fn dibits_are_told_apart(a: (bool, bool), b: (bool, bool))
    ensures
        state_for(a.0, a.1) == state_for(b.0, b.1) ==> a == b,
        quarters_for(a.0, a.1) == quarters_for(b.0, b.1) ==> a == b,
{
}

/// The sixteen bits of the bridge signal, sent eight times, the first of them first
/// into the scrambler.
pub const BRIDGE_PATTERN: [bool; 16] = [
    false, false, false, false, false, false, false, true, false, false, false, true, false, false,
    false, true,
];

impl State {
    /// The index of the point this state is, in the constellation of a rate. Only
    /// that of 7200 is settled.
    pub open spec fn label(self, rate: u32) -> Option<nat> {
        if rate != 7200 {
            None
        } else {
            match self {
                State::A => Some(6),
                State::B => Some(10),
                State::C => Some(4),
                State::D => Some(8),
            }
        }
    }

    /// Which point of the constellation this state is.
    ///
    /// Labels are printed most significant first, as Q3, Y2, Y1, Y0, while the index
    /// into a constellation is the other way round.
    pub fn label_at(self, rate: u32) -> (label: Option<usize>)
        ensures
            label is Some == self.label(rate) is Some,
            label matches Some(label) ==> Some(label as nat) == self.label(rate),
    {
        if rate != 7200 {
            return None;
        }
        let printed: usize = match self {
            State::A => 0b0110,
            State::B => 0b0101,
            State::C => 0b0010,
            State::D => 0b0001,
        };
        Some(8 * (printed % 2) + 4 * (printed / 2 % 2) + 2 * (printed / 4 % 2) + printed / 8)
    }

    /// Where the state lands, in the constellation's own coordinates: where V.32 puts
    /// its four states.
    pub fn point(self, rate: u32) -> (point: Option<(i32, i32)>)
        ensures
            point is Some == (rate == 7200),
            point matches Some(p) ==> (p.0 as int, p.1 as int) == state_point(numbered(self)),
    {
        if rate != 7200 {
            return None;
        }
        Some(
            match self {
                State::A => (-3, -1),
                State::B => (1, -3),
                State::C => (3, 1),
                State::D => (-1, 3),
            },
        )
    }

    /// So many quarter turns on, which is how the four are related.
    pub fn turned(self, quarters: u8) -> (state: State)
        ensures
            state == state_of((numbered(self) + quarters) % 4),
    {
        let from: usize = match self {
            State::A => 0,
            State::B => 1,
            State::C => 2,
            State::D => 3,
        };
        match (from + quarters as usize) % 4 {
            0 => State::A,
            1 => State::B,
            2 => State::C,
            _ => State::D,
        }
    }
}

/// The four states are quarter turns of one another.
pub proof fn the_states_are_quarter_turns(state: State)
    ensures
        ({
            let here = state_point(numbered(state));
            let next = state_of((numbered(state) + 1) as int % 4);
            state_point(numbered(next)) == (-here.1, here.0)
        }),
{
}

} // verus!
