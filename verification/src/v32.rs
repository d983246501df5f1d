//! V.32 at 4800 bit/s: 2400 baud, four points, one band both ways.
//!
//! The scrambled data is taken two bits at a time and differentially encoded
//! into a quadrant, one point to a quadrant. What is here is which point each
//! pair of bits becomes, and which bits each point comes back as; the pulse,
//! the equaliser and the echo canceller are the caller's.
pub mod laws;
pub mod line_laws;
pub mod startup;
pub mod trellis;

use crate::octets::{octets, push_octets, take_octets};
use crate::scrambling::{
    descrambled, descrambling_undoes_scrambling, fed_back, scrambled, shift_in, shifted_in, tapped,
};
use std::collections::VecDeque;
use vstd::prelude::*;

verus! {

/// Modulation rate.
pub const BAUD: u32 = 2400;

/// Carrier frequency, the same in both directions.
pub const CARRIER: u32 = 1800;

/// Symbols each side of centre in the shaping filter.
pub const SPAN: usize = 6;

/// Which end of the call this modem is.
///
/// It selects the scrambler: each direction uses a different polynomial. Two
/// modems with the same polynomial would descramble each other's echo into
/// their own data.
#[derive(Debug, Clone, Copy, PartialEq, Eq, Structural)]
pub enum Mode {
    /// Placed the call. Scrambles with 1 + x^-18 + x^-23.
    Call,
    /// Took the call. Scrambles with 1 + x^-5 + x^-23.
    Answer,
}

impl Mode {
    /// The two feedback taps of this direction's polynomial, in bits back.
    pub open spec fn polynomial(self) -> (u32, u32) {
        match self {
            Mode::Call => (18, 23),
            Mode::Answer => (5, 23),
        }
    }

    /// The two feedback taps of this direction's polynomial, in bits back.
    pub fn taps(self) -> (taps: (u32, u32))
        ensures
            taps == self.polynomial(),
    {
        match self {
            Mode::Call => (18, 23),
            Mode::Answer => (5, 23),
        }
    }

    pub open spec fn other(self) -> Mode {
        match self {
            Mode::Call => Mode::Answer,
            Mode::Answer => Mode::Call,
        }
    }

    /// What this end listens with: the far end's polynomial.
    pub fn peer(self) -> (peer: Mode)
        ensures
            peer == self.other(),
    {
        match self {
            Mode::Call => Mode::Answer,
            Mode::Answer => Mode::Call,
        }
    }
}

/// A point of the constellation.
pub type Point = (i32, i32);

/// The four signal states: one point to a quadrant, all at the root of ten,
/// ninety degrees apart, and arranged so that C is the negative of A and D the
/// negative of B.
pub const STATES: [(i32, i32); 4] = [(-3, -1), (1, -3), (3, 1), (-1, 3)];

/// Index into `STATES` of each named state.
pub const STATE_A: usize = 0;

pub const STATE_B: usize = 1;

pub const STATE_C: usize = 2;

pub const STATE_D: usize = 3;

/// Mean power of the constellation.
pub const CONSTELLATION_MEAN_POWER: u32 = 10;

/// Quadrant change for each dibit.
pub const QUADRANT_CHANGE: [u8; 4] = [1, 0, 2, 3];

/// The inverse, for the receiver.
pub const CHANGE_TO_DIBIT: [u8; 4] = [1, 0, 2, 3];

/// A state's point.
pub open spec fn state_point(state: nat) -> (int, int) {
    if state == 0 {
        (-3, -1)
    } else if state == 1 {
        (1, -3)
    } else if state == 2 {
        (3, 1)
    } else {
        (-1, 3)
    }
}

/// Quarters that a dibit turns the point by, the first bit of it weighing two.
pub open spec fn turn_of(first: bool, second: bool) -> nat {
    if !first && !second {
        1
    } else if !first {
        0
    } else if !second {
        2
    } else {
        3
    }
}

/// A point turned through whole quadrants.
pub open spec fn turned(point: (int, int), quadrant: nat) -> (int, int) {
    if quadrant % 4 == 0 {
        point
    } else if quadrant % 4 == 1 {
        (-point.1, point.0)
    } else if quadrant % 4 == 2 {
        (-point.0, -point.1)
    } else {
        (point.1, -point.0)
    }
}

/// Turn a point through whole quadrants.
pub fn rotate(point: (i32, i32), quadrant: u8) -> (to: (i32, i32))
    requires
        point.0 > i32::MIN,
        point.1 > i32::MIN,
    ensures
        (to.0 as int, to.1 as int) == turned((point.0 as int, point.1 as int), quadrant as nat),
{
    match quadrant % 4 {
        0 => point,
        1 => (-point.1, point.0),
        2 => (-point.0, -point.1),
        _ => (point.1, -point.0),
    }
}

/// Squared distance between two points.
pub open spec fn apart(a: (int, int), b: (int, int)) -> int {
    (a.0 - b.0) * (a.0 - b.0) + (a.1 - b.1) * (a.1 - b.1)
}

/// The state whose quarter of the plane a point falls in. The boundaries are
/// midway between neighbours: where y is 2x, and where x is -2y.
pub open spec fn nearest(p: (int, int)) -> nat {
    if p.1 >= 2 * p.0 && p.0 + 2 * p.1 <= 0 {
        0
    } else if p.1 < 2 * p.0 && p.0 + 2 * p.1 <= 0 {
        1
    } else if p.1 < 2 * p.0 {
        2
    } else {
        3
    }
}

/// Which of the four states a received point is nearest.
///
/// The states are a quarter turn apart, so the decision is which quarter the
/// point falls in, with the boundaries midway between neighbours rather than
/// on the axes.
pub fn nearest_state(p: (i32, i32)) -> (state: usize)
    ensures
        state == nearest((p.0 as int, p.1 as int)),
        state < 4,
{
    let (x, y): (i64, i64) = (p.0 as i64, p.1 as i64);
    let towards_ad = y >= 2 * x;
    let towards_ab = x + 2 * y <= 0;
    if towards_ab {
        if towards_ad {
            STATE_A
        } else {
            STATE_B
        }
    } else if towards_ad {
        STATE_D
    } else {
        STATE_C
    }
}

/// The state a point is decided to be is as near to it as any.
pub proof fn the_nearest_state_is_nearest(p: (int, int), other: nat)
    requires
        other < 4,
    ensures
        apart(p, state_point(nearest(p))) <= apart(p, state_point(other)),
{
    let (x, y) = p;
    let n = x * x + y * y + 10;
    assert((x + 3) * (x + 3) + (y + 1) * (y + 1) == n + 6 * x + 2 * y && (x - 1) * (x - 1) + (y
        + 3) * (y + 3) == n - 2 * x + 6 * y && (x - 3) * (x - 3) + (y - 1) * (y - 1) == n - 6 * x
        - 2 * y && (x + 1) * (x + 1) + (y - 3) * (y - 3) == n + 2 * x - 6 * y)
        by (nonlinear_arith)
        requires
            n == x * x + y * y + 10,
    ;
    assert(apart(p, state_point(0)) == n + 6 * x + 2 * y);
    assert(apart(p, state_point(1)) == n - 2 * x + 6 * y);
    assert(apart(p, state_point(2)) == n - 6 * x - 2 * y);
    assert(apart(p, state_point(3)) == n + 2 * x - 6 * y);
}

/// The states are a quarter turn apart, and the second pair is the first pair
/// negated: the conditioning signal inverts between its two segments.
pub proof fn the_states_are_quarter_turns(state: nat)
    requires
        state < 4,
    ensures
        turned(state_point(0), state) == state_point(state),
        turned(state_point(state), 1) == state_point((state + 1) % 4),
        state_point(2) == (-state_point(0).0, -state_point(0).1),
        state_point(3) == (-state_point(1).0, -state_point(1).1),
        nearest(state_point(state)) == state,
{
}

/// The self-synchronising scrambler.
///
/// One polynomial for each direction. The transmitter divides by it and the
/// receiver multiplies back.
#[derive(Debug, Clone, Copy, PartialEq, Eq, Structural)]
pub struct Scrambler {
    pub register: u32,
    pub first: u32,
    pub second: u32,
}

impl Scrambler {
    /// Both taps are inside the register.
    pub open spec fn wf(self) -> bool {
        1 <= self.first <= self.second <= 32
    }

    pub open spec fn taps(self) -> (u32, u32) {
        (self.first, self.second)
    }

    pub fn new(mode: Mode) -> (scrambler: Scrambler)
        ensures
            scrambler.register == 0,
            scrambler.taps() == mode.polynomial(),
            scrambler.wf(),
    {
        let (first, second): (u32, u32) = mode.taps();
        Scrambler { register: 0, first, second }
    }

    fn feedback(&self) -> (bit: bool)
        requires
            self.wf(),
        ensures
            bit == fed_back(self.register, self.taps()),
    {
        tapped(self.register, self.first) != tapped(self.register, self.second)
    }

    /// Divide by the polynomial: the output feeds back.
    pub fn scramble(&mut self, bit: bool) -> (out: bool)
        requires
            old(self).wf(),
        ensures
            out == (bit != fed_back(old(self).register, old(self).taps())),
            *final(self) == (Scrambler {
                register: shifted_in(old(self).register, out),
                ..*old(self)
            }),
    {
        let out = bit != self.feedback();
        self.register = shift_in(self.register, out);
        out
    }

    /// Multiply by the polynomial: the input feeds back.
    pub fn descramble(&mut self, bit: bool) -> (out: bool)
        requires
            old(self).wf(),
        ensures
            out == (bit != fed_back(old(self).register, old(self).taps())),
            *final(self) == (Scrambler {
                register: shifted_in(old(self).register, bit),
                ..*old(self)
            }),
    {
        let out = bit != self.feedback();
        self.register = shift_in(self.register, bit);
        out
    }

    pub fn reset(&mut self)
        ensures
            *final(self) == (Scrambler { register: 0, ..*old(self) }),
    {
        self.register = 0;
    }
}

/// Each direction's scrambling is undone by its own descrambler: from the first
/// bit where the two start alike, and from any starting state once twenty-three
/// bits have arrived.
pub proof fn the_scrambler_is_undone(
    mode: Mode,
    sender: u32,
    receiver: u32,
    bits: Seq<bool>,
    i: int,
)
    requires
        0 <= i < bits.len(),
        sender == receiver || i >= 23,
    ensures
        descrambled(receiver, mode.polynomial(), scrambled(sender, mode.polynomial(), bits))[i]
            == bits[i],
{
    descrambling_undoes_scrambling(sender, receiver, mode.polynomial(), bits, i);
}

/// What a transmitter can be told to send.
#[derive(Debug, Clone, Copy, PartialEq, Eq, Structural)]
pub enum Signal {
    Silent,
    /// The 2100 Hz answering tone.
    AnswerTone,
    /// A repeated state.
    StateA,
    StateC,
    /// An alternation between opposite states.
    AlternateAC,
    AlternateCA,
    /// The conditioning signal: A with B, and then C with D.
    ConditioningS,
    ConditioningSbar,
    /// Scrambled ones, for training.
    Trn,
    /// A sixteen-bit sequence, over and over.
    Rate(u16),
    ScrambledOnes,
}

/// What is left to send, and where the last point was, as a value.
pub struct Sending {
    pub scrambler: Scrambler,
    pub quadrant: u8,
    pub pending: Seq<bool>,
}

impl Sending {
    pub open spec fn wf(self) -> bool {
        self.scrambler.wf() && self.quadrant < 4
    }

    /// The next bit to send: ones once there is nothing left.
    pub open spec fn bit(self) -> bool {
        if self.pending.len() > 0 {
            self.pending[0]
        } else {
            true
        }
    }

    /// The next bit as the line will carry it.
    pub open spec fn line_bit(self) -> bool {
        self.bit() != fed_back(self.scrambler.register, self.scrambler.taps())
    }

    /// What is left once that bit has gone.
    pub open spec fn bit_gone(self) -> Sending {
        Sending {
            scrambler: Scrambler {
                register: shifted_in(self.scrambler.register, self.line_bit()),
                ..self.scrambler
            },
            pending: if self.pending.len() > 0 {
                self.pending.skip(1)
            } else {
                self.pending
            },
            ..self
        }
    }

    /// A symbol on: two bits gone, and the point turned by what they came to.
    pub open spec fn symbol_gone(self) -> Sending {
        let last = self.bit_gone().bit_gone();
        Sending {
            quadrant: ((self.quadrant + turn_of(self.line_bit(), self.bit_gone().line_bit()))
                % 4) as u8,
            ..last
        }
    }
}

/// Which point each pair of bits becomes.
#[derive(Debug, Clone)]
pub struct Transmitter {
    pub scrambler: Scrambler,
    pub quadrant: u8,
    pub pending: VecDeque<bool>,
}

impl View for Transmitter {
    type V = Sending;

    open spec fn view(&self) -> Sending {
        Sending {
            scrambler: self.scrambler,
            quadrant: self.quadrant,
            pending: self.pending@,
        }
    }
}

impl Transmitter {
    pub fn new(mode: Mode) -> (tx: Transmitter)
        ensures
            tx@.wf(),
            tx@.scrambler.register == 0,
            tx@.scrambler.taps() == mode.polynomial(),
            tx@.quadrant == 0,
            tx@.pending == Seq::<bool>::empty(),
    {
        Transmitter { scrambler: Scrambler::new(mode), quadrant: 0, pending: VecDeque::new() }
    }

    pub fn push_bits(&mut self, bits: &[bool])
        ensures
            final(self)@ == (Sending { pending: old(self)@.pending + bits@, ..old(self)@ }),
    {
        let ghost start = self@;
        let mut i: usize = 0;
        assert(start.pending + bits@.take(0) =~= start.pending);
        while i < bits.len()
            invariant
                i <= bits@.len(),
                self@ == (Sending { pending: start.pending + bits@.take(i as int), ..start }),
            decreases bits@.len() - i,
        {
            self.pending.push_back(bits[i]);
            i = i + 1;
            assert(self.pending@ =~= start.pending + bits@.take(i as int));
        }
        assert(bits@.take(i as int) =~= bits@);
    }

    /// Most significant bit first.
    pub fn push_bytes(&mut self, bytes: &[u8])
        ensures
            final(self)@ == (Sending {
                pending: old(self)@.pending + octets(bytes@),
                ..old(self)@
            }),
    {
        push_octets(&mut self.pending, bytes);
    }

    pub fn pending_bits(&self) -> (left: usize)
        ensures
            left == self@.pending.len(),
    {
        self.pending.len()
    }

    fn next_bit(&mut self) -> (bit: bool)
        requires
            old(self)@.wf(),
        ensures
            bit == old(self)@.line_bit(),
            final(self)@ == old(self)@.bit_gone(),
    {
        let ghost before = self.pending@;
        let bit = match self.pending.pop_front() {
            Some(bit) => bit,
            None => true,
        };
        assert(before.len() > 0 ==> self.pending@ =~= before.skip(1));
        self.scrambler.scramble(bit)
    }

    /// Map the next dibit to a signal state.
    pub fn next_symbol(&mut self) -> (point: (i32, i32))
        requires
            old(self)@.wf(),
        ensures
            final(self)@ == old(self)@.symbol_gone(),
            final(self)@.wf(),
            (point.0 as int, point.1 as int) == state_point(final(self)@.quadrant as nat),
    {
        let first = self.next_bit();
        let second = self.next_bit();
        let dibit: usize = (if first {
            2
        } else {
            0
        }) + (if second {
            1
        } else {
            0
        });
        let change: u8 = QUADRANT_CHANGE[dibit];
        self.quadrant = (self.quadrant + change) % 4;
        proof {
            the_states_are_quarter_turns(self.quadrant as nat);
        }
        rotate(STATES[STATE_A], self.quadrant)
    }
}

/// What has come back from the points heard, as a value.
pub struct Hearing {
    pub descrambler: Scrambler,
    pub quadrant: Option<u8>,
    pub bits: Seq<bool>,
}

/// The bits that a turn of so many quarters stands for.
pub open spec fn dibit_of(turn: nat) -> (bool, bool) {
    if turn == 0 {
        (false, true)
    } else if turn == 1 {
        (false, false)
    } else if turn == 2 {
        (true, false)
    } else {
        (true, true)
    }
}

impl Hearing {
    pub open spec fn wf(self) -> bool {
        self.descrambler.wf() && (self.quadrant matches Some(quadrant) ==> quadrant < 4)
    }

    /// Another bit off the line.
    pub open spec fn hear_bit(self, bit: bool) -> Hearing {
        Hearing {
            descrambler: Scrambler {
                register: shifted_in(self.descrambler.register, bit),
                ..self.descrambler
            },
            bits: self.bits.push(
                bit != fed_back(self.descrambler.register, self.descrambler.taps()),
            ),
            ..self
        }
    }

    /// Another state off the line. The first is only where the turns are
    /// counted from.
    pub open spec fn hear(self, state: nat) -> Hearing {
        let here = Hearing { quadrant: Some(state as u8), ..self };
        match self.quadrant {
            None => here,
            Some(previous) => {
                let (first, second) = dibit_of(((state + 4 - previous) % 4) as nat);
                here.hear_bit(first).hear_bit(second)
            },
        }
    }
}

/// Which bits each point comes back as.
#[derive(Debug, Clone)]
pub struct Receiver {
    pub descrambler: Scrambler,
    pub quadrant: Option<u8>,
    pub bits: Vec<bool>,
}

impl View for Receiver {
    type V = Hearing;

    open spec fn view(&self) -> Hearing {
        Hearing { descrambler: self.descrambler, quadrant: self.quadrant, bits: self.bits@ }
    }
}

impl Receiver {
    /// `mode` is this modem's own end; the descrambler is set to the far end's
    /// polynomial, since that is what will arrive.
    pub fn new(mode: Mode) -> (rx: Receiver)
        ensures
            rx@.wf(),
            rx@.descrambler.register == 0,
            rx@.descrambler.taps() == mode.other().polynomial(),
            rx@.quadrant is None,
            rx@.bits == Seq::<bool>::empty(),
    {
        Receiver { descrambler: Scrambler::new(mode.peer()), quadrant: None, bits: Vec::new() }
    }

    fn hear_bit(&mut self, bit: bool)
        requires
            old(self)@.wf(),
        ensures
            final(self)@ == old(self)@.hear_bit(bit),
    {
        let out = self.descrambler.descramble(bit);
        self.bits.push(out);
    }

    /// A point off the line, carrier and channel taken out, decided and turned
    /// back into bits.
    pub fn on_symbol(&mut self, point: (i32, i32))
        requires
            old(self)@.wf(),
        ensures
            final(self)@ == old(self)@.hear(nearest((point.0 as int, point.1 as int))),
            final(self)@.wf(),
    {
        let quadrant: u8 = nearest_state(point) as u8;
        let before = self.quadrant;
        self.quadrant = Some(quadrant);
        if let Some(previous) = before {
            let change: usize = ((quadrant + 4 - previous) % 4) as usize;
            let dibit: u8 = CHANGE_TO_DIBIT[change];
            self.hear_bit(dibit / 2 == 1);
            self.hear_bit(dibit % 2 == 1);
        }
    }

    pub fn take_bits(&mut self) -> (bits: Vec<bool>)
        ensures
            bits@ == old(self)@.bits,
            final(self)@ == (Hearing { bits: Seq::empty(), ..old(self)@ }),
    {
        let mut bits: Vec<bool> = Vec::new();
        std::mem::swap(&mut bits, &mut self.bits);
        bits
    }

    /// Take whole octets, most significant bit first, leaving any remainder.
    pub fn take_bytes(&mut self) -> (bytes: Vec<u8>)
        ensures
            octets(bytes@) == old(self)@.bits.take(old(self)@.bits.len() as int / 8 * 8),
            bytes@.len() == old(self)@.bits.len() / 8,
            final(self)@ == (Hearing {
                bits: old(self)@.bits.skip(old(self)@.bits.len() as int / 8 * 8),
                ..old(self)@
            }),
    {
        take_octets(&mut self.bits)
    }
}

/// A receiver that knows the transmitter's last point and has heard its last
/// twenty-three bits.
pub open spec fn in_step(tx: Sending, rx: Hearing) -> bool {
    &&& rx.quadrant == Some(tx.quadrant)
    &&& rx.descrambler.register == tx.scrambler.register
    &&& rx.descrambler.taps() == tx.scrambler.taps()
}

/// What is sent is what is received: the point that carries the next two bits,
/// heard by a receiver in step with the transmitter, gives those two bits back
/// and leaves the two in step. Points disturbed by less than it takes to bring
/// another state nearer change nothing.
pub proof fn what_is_sent_is_received(tx: Sending, rx: Hearing, heard: (int, int))
    requires
        tx.wf(),
        rx.wf(),
        in_step(tx, rx),
        nearest(heard) == tx.symbol_gone().quadrant,
    ensures
        rx.hear(nearest(heard)).bits == rx.bits.push(tx.bit()).push(tx.bit_gone().bit()),
        in_step(tx.symbol_gone(), rx.hear(nearest(heard))),
        nearest(state_point(tx.symbol_gone().quadrant as nat)) == tx.symbol_gone().quadrant,
{
    the_states_are_quarter_turns(tx.symbol_gone().quadrant as nat);
}

} // verus!
