//! V.27 ter: 4800 and 2400 bit/s, differentially encoded phase.
//!
//! The modulation every group 3 fax machine must have. The line is half duplex and
//! turns around between messages, so a burst is a training sequence, then data,
//! then silence.
//!
//! Two rates, differing only in how many bits ride on each symbol and how fast the
//! symbols go: three bits on eight phases at 1600 baud, or two bits on four phases
//! at 1200 baud. The carrier, the shaping, the scrambler and every training segment
//! are shared.
use crate::carrier::Levels;
use crate::octets::{octets, push_octets};
use crate::scrambling::{
    descrambled, descrambling_undoes_scrambling, fed_back, scrambled, shift_in, shifted_in,
    shifted_in_all, tapped,
};
use std::collections::VecDeque;
use vstd::prelude::*;

pub mod laws;

verus! {

/// The carrier frequency, in hertz.
pub const CARRIER: u32 = 1800;

/// Symbols either side of centre that the shaping pulse reaches.
pub const SPAN: usize = 6;

/// Which of the two rates is in use.
#[derive(Debug, Clone, Copy, PartialEq, Eq, Structural)]
pub enum Rate {
    /// 4800 bit/s: tribits on eight phases at 1600 baud.
    R4800,
    /// 2400 bit/s: dibits on four phases at 1200 baud. The fall-back, and where a
    /// fax goes when the line will not carry more.
    R2400,
}

impl Default for Rate {
    fn default() -> (rate: Rate)
        ensures
            rate == Rate::R4800,
    {
        Rate::R4800
    }
}

impl Rate {
    pub open spec fn width(self) -> nat {
        match self {
            Rate::R4800 => 3,
            Rate::R2400 => 2,
        }
    }

    pub open spec fn symbol_rate(self) -> nat {
        match self {
            Rate::R4800 => 1600,
            Rate::R2400 => 1200,
        }
    }

    pub fn baud(self) -> (baud: u32)
        ensures
            baud == self.symbol_rate(),
    {
        match self {
            Rate::R4800 => 1600,
            Rate::R2400 => 1200,
        }
    }

    /// Bits to the symbol: a tribit or a dibit.
    pub fn bits(self) -> (bits: usize)
        ensures
            bits == self.width(),
    {
        match self {
            Rate::R4800 => 3,
            Rate::R2400 => 2,
        }
    }

    /// As many as each symbol carries, as often as symbols go.
    pub fn bits_per_second(self) -> (bits: u32)
        ensures
            bits == self.width() * self.symbol_rate(),
    {
        match self {
            Rate::R4800 => 4800,
            Rate::R2400 => 2400,
        }
    }

    /// How many of the eight phases this rate uses: one for each value a symbol
    /// can carry.
    pub fn phases(self) -> (phases: u8)
        ensures
            phases == (if self is R4800 {
                8int
            } else {
                4
            }),
    {
        match self {
            Rate::R4800 => 8,
            Rate::R2400 => 4,
        }
    }
}

/// Which turn-on sequence to send.
///
/// The long one teaches an equaliser a line it has never seen; the short one
/// refreshes what it already knows.
#[derive(Debug, Clone, Copy, PartialEq, Eq, Structural)]
pub enum Training {
    Short,
    Long,
}

impl Default for Training {
    fn default() -> (training: Training)
        ensures
            training == Training::Long,
    {
        Training::Long
    }
}

/// Segment 5: continuous scrambled ONEs, eight symbols.
pub const SCRAMBLED_ONES: u32 = 8;

impl Training {
    pub open spec fn turns(self) -> u32 {
        match self {
            Training::Short => 14,
            Training::Long => 50,
        }
    }

    pub open spec fn patterned(self) -> u32 {
        match self {
            Training::Short => 58,
            Training::Long => 1074,
        }
    }

    /// Segment 3: continuous 180 degree reversals, for clock acquisition.
    pub fn reversals(self) -> (symbols: u32)
        ensures
            symbols == self.turns(),
    {
        match self {
            Training::Short => 14,
            Training::Long => 50,
        }
    }

    /// Segment 4: the two-phase equaliser conditioning pattern.
    pub fn conditioning(self) -> (symbols: u32)
        ensures
            symbols == self.patterned(),
    {
        match self {
            Training::Short => 58,
            Training::Long => 1074,
        }
    }

    /// Every symbol of the turn-on sequence, without the echo protection of
    /// segments 1 and 2.
    pub fn symbols(self) -> (symbols: u32)
        ensures
            symbols == self.turns() + self.patterned() + 8,
    {
        self.reversals() + self.conditioning() + SCRAMBLED_ONES
    }
}

/// A tribit's phase change, in eighths of a turn, indexed by the tribit read as a
/// binary number, the left-hand digit being the one that entered the modulator
/// first.
pub const TRIBIT_TURN: [u8; 8] = [1, 0, 2, 3, 6, 7, 5, 4];

/// Backwards: eighths of a turn to the tribit that asked for it.
pub const TURN_TRIBIT: [u8; 8] = [1, 0, 2, 3, 7, 6, 4, 5];

/// A dibit's phase change, in eighths of a turn, the same units as the tribit
/// table so one modulator serves both.
pub const DIBIT_TURN: [u8; 4] = [0, 2, 6, 4];

/// Backwards, indexed by quarters of a turn.
pub const TURN_DIBIT: [u8; 4] = [0, 1, 3, 2];

/// The tables and their reverses agree, both ways round.
pub proof fn the_tables_and_their_reverses_agree(tribit: int, dibit: int)
    requires
        0 <= tribit < 8,
        0 <= dibit < 4,
    ensures
        TRIBIT_TURN@[tribit] < 8,
        TURN_TRIBIT@[TRIBIT_TURN@[tribit] as int] == tribit,
        TRIBIT_TURN@[TURN_TRIBIT@[tribit] as int] == tribit,
        DIBIT_TURN@[dibit] < 8,
        DIBIT_TURN@[dibit] % 2 == 0,
        TURN_DIBIT@[DIBIT_TURN@[dibit] as int / 2] == dibit,
        DIBIT_TURN@[TURN_DIBIT@[dibit] as int] == 2 * dibit,
{
}

/// The scrambler's seven stages at the start of a turn-on sequence, earliest
/// first. Loading it and then holding the input at ONE produces exactly the
/// pseudo-random sequence the training is defined by, at both ends and at both
/// lengths.
pub const TRAINING_SEED: [bool; 7] = [false, true, true, true, true, false, false];

/// The sixth and the seventh most recent bits.
pub open spec fn taps() -> (u32, u32) {
    (6, 7)
}

/// The self-synchronizing scrambler, `1 + x^-6 + x^-7`.
#[derive(Debug, Clone, Copy, PartialEq, Eq, Structural)]
pub struct Scrambler {
    /// The bits through the register, most recent in bit 0.
    pub register: u32,
}

/// The register loaded for a turn-on sequence.
pub open spec fn seed() -> u32 {
    shifted_in_all(0, TRAINING_SEED@)
}

impl Scrambler {
    pub open spec fn sum(self) -> bool {
        fed_back(self.register, taps())
    }

    pub open spec fn pushed(self, bit: bool) -> Scrambler {
        Scrambler { register: shifted_in(self.register, bit) }
    }

    pub fn new() -> (scrambler: Scrambler)
        ensures
            scrambler.register == 0,
    {
        Scrambler { register: 0 }
    }

    /// Load the register for a turn-on sequence.
    pub fn seeded() -> (scrambler: Scrambler)
        ensures
            scrambler.register == seed(),
    {
        let mut me = Scrambler::new();
        let mut i: usize = 0;
        let ghost all = TRAINING_SEED@;
        assert(all.take(0) =~= Seq::empty());
        while i < 7
            invariant
                i <= 7,
                all == TRAINING_SEED@,
                me.register == shifted_in_all(0, all.take(i as int)),
            decreases 7 - i,
        {
            me.push(TRAINING_SEED[i]);
            i = i + 1;
            assert(all.take(i as int).drop_last() =~= all.take(i - 1));
        }
        assert(all.take(7) =~= all);
        me
    }

    fn taps(&self) -> (bit: bool)
        ensures
            bit == self.sum(),
    {
        tapped(self.register, 6) != tapped(self.register, 7)
    }

    fn push(&mut self, bit: bool)
        ensures
            *final(self) == old(self).pushed(bit),
    {
        self.register = shift_in(self.register, bit);
    }

    /// Divide by the generating polynomial: the register holds what went out.
    pub fn scramble(&mut self, bit: bool) -> (out: bool)
        ensures
            out == (bit != old(self).sum()),
            *final(self) == old(self).pushed(out),
    {
        let out = bit != self.taps();
        self.push(out);
        out
    }

    /// Multiply by it again: the register holds what came in.
    pub fn descramble(&mut self, bit: bool) -> (out: bool)
        ensures
            out == (bit != old(self).sum()),
            *final(self) == old(self).pushed(bit),
    {
        let out = bit != self.taps();
        self.push(bit);
        out
    }

    pub fn reset(&mut self)
        ensures
            final(self).register == 0,
    {
        self.register = 0;
    }
}

impl Default for Scrambler {
    fn default() -> (scrambler: Scrambler)
        ensures
            scrambler.register == 0,
    {
        Scrambler::new()
    }
}

/// The scrambler is undone by the descrambler: from the first bit where the two
/// registers start alike, and from any starting state once seven bits have
/// arrived.
pub proof fn the_scrambler_is_undone(sender: u32, receiver: u32, bits: Seq<bool>, i: int)
    requires
        0 <= i < bits.len(),
        sender == receiver || i >= 7,
    ensures
        descrambled(receiver, taps(), scrambled(sender, taps(), bits))[i] == bits[i],
{
    descrambling_undoes_scrambling(sender, receiver, taps(), bits, i);
}

/// Where a burst has got to, counted in symbols still to go.
#[derive(Debug, Clone, Copy, PartialEq, Eq, Structural)]
pub enum Stage {
    /// Off the line.
    Silent,
    /// Segment 1, with protection against talker echo: unmodulated carrier.
    Unmodulated(u32),
    /// Segment 2, the same: no transmitted energy.
    Gap(u32),
    /// Segment 3.
    Reversals(u32),
    /// Segment 4.
    Conditioning(u32),
    /// Segment 5.
    Ones(u32),
    /// Data, until whoever is above says to stop.
    Data,
    /// The turn-off sequence: scrambled ones, then nothing.
    TurnOff(u32),
}

/// Segment 1: 192.5 ms of unmodulated carrier, in symbols.
pub open spec fn unmodulated(rate: Rate) -> u32 {
    match rate {
        Rate::R4800 => 308,
        Rate::R2400 => 231,
    }
}

/// Segment 2: 22.5 ms of no transmitted energy, in symbols.
pub open spec fn gap(rate: Rate) -> u32 {
    match rate {
        Rate::R4800 => 36,
        Rate::R2400 => 27,
    }
}

/// Segments 1 and 2 are as long as they are to be at either rate: 192.5 ms and
/// 22.5 ms.
pub proof fn echo_protection_lasts_what_it_should(rate: Rate)
    ensures
        10000 * unmodulated(rate) == 1925 * rate.symbol_rate(),
        10000 * gap(rate) == 225 * rate.symbol_rate(),
{
}

fn unmodulated_symbols(rate: Rate) -> (symbols: u32)
    ensures
        symbols == unmodulated(rate),
{
    match rate {
        Rate::R4800 => 308,
        Rate::R2400 => 231,
    }
}

fn gap_symbols(rate: Rate) -> (symbols: u32)
    ensures
        symbols == gap(rate),
{
    match rate {
        Rate::R4800 => 36,
        Rate::R2400 => 27,
    }
}

/// Segment A of the turn-off sequence, in symbols: inside the 5 to 10 ms it is to
/// last at both rates.
pub const TURN_OFF_SYMBOLS: u32 = 10;

/// A transmitter, as a value.
pub struct Sending {
    pub rate: Rate,
    pub training: Training,
    pub scrambler: Scrambler,
    pub stage: Stage,
    pub echo_protection: bool,
    /// The phase of the symbol most recently put on the line, in eighths of a
    /// turn, or none where it had no energy.
    pub sent: Option<u8>,
    pub eighths: u8,
    pub pending: Seq<bool>,
}

/// The number bits spell, the first weighing most.
pub open spec fn spelt(bits: Seq<bool>) -> int
    decreases bits.len(),
{
    if bits.len() == 0 {
        0
    } else {
        2 * spelt(bits.drop_last()) + (if bits.last() {
            1int
        } else {
            0
        })
    }
}

/// The eighths a symbol's bits turn the carrier by.
pub open spec fn turn_of(rate: Rate, bits: Seq<bool>) -> int {
    match rate {
        Rate::R4800 => TRIBIT_TURN@[spelt(bits)] as int,
        Rate::R2400 => DIBIT_TURN@[spelt(bits)] as int,
    }
}

impl Sending {
    pub open spec fn wf(self) -> bool {
        self.eighths < 8
    }

    /// The next bit to send: ones during the training and the turn-off, and once
    /// there is nothing left.
    pub open spec fn bit(self, ones: bool) -> bool {
        if !ones && self.pending.len() > 0 {
            self.pending[0]
        } else {
            true
        }
    }

    pub open spec fn line_bit(self, ones: bool) -> bool {
        self.bit(ones) != self.scrambler.sum()
    }

    pub open spec fn bit_gone(self, ones: bool) -> Sending {
        Sending {
            scrambler: self.scrambler.pushed(self.line_bit(ones)),
            pending: if !ones && self.pending.len() > 0 {
                self.pending.skip(1)
            } else {
                self.pending
            },
            ..self
        }
    }

    /// So many bits gone.
    pub open spec fn bits_gone(self, ones: bool, n: nat) -> Sending
        decreases n,
    {
        if n == 0 {
            self
        } else {
            self.bits_gone(ones, (n - 1) as nat).bit_gone(ones)
        }
    }

    /// The line bits they were.
    pub open spec fn line_bits(self, ones: bool, n: nat) -> Seq<bool>
        decreases n,
    {
        if n == 0 {
            Seq::empty()
        } else {
            self.line_bits(ones, (n - 1) as nat).push(
                self.bits_gone(ones, (n - 1) as nat).line_bit(ones),
            )
        }
    }

    pub open spec fn turned(self, eighths: int) -> Sending {
        let to = ((self.eighths + eighths) % 8) as u8;
        Sending { eighths: to, sent: Some(to), ..self }
    }

    pub open spec fn at(self, stage: Stage) -> Sending {
        Sending { stage, ..self }
    }

    /// One symbol's worth of bits, encoded as a phase change.
    pub open spec fn symbol(self, ones: bool) -> Sending {
        let bits = self.line_bits(ones, self.rate.width());
        self.bits_gone(ones, self.rate.width()).turned(turn_of(self.rate, bits))
    }

    /// Every third bit of the sequence the scrambler makes from continuous ONEs,
    /// a ZERO meaning no phase change and a ONE meaning a reversal.
    pub open spec fn conditioned(self) -> Sending {
        self.bits_gone(true, 3).turned(
            if self.line_bit(true) {
                4
            } else {
                0
            },
        )
    }

    /// A burst begun: the turn-on sequence, behind the echo protection where that is
    /// asked for.
    pub open spec fn started(self, rate: Rate, training: Training) -> Sending {
        Sending {
            rate,
            training,
            scrambler: Scrambler { register: seed() },
            stage: if self.echo_protection {
                Stage::Unmodulated(unmodulated(rate))
            } else {
                Stage::Reversals(training.turns())
            },
            eighths: 0,
            pending: Seq::empty(),
            ..self
        }
    }

    /// A burst to be finished, if there is one that is not being finished already.
    pub open spec fn stopped(self) -> Sending {
        if self.stage is Silent || self.stage is TurnOff {
            self
        } else {
            self.at(Stage::TurnOff(10))
        }
    }

    /// The next symbol.
    pub open spec fn next(self) -> Sending {
        match self.stage {
            Stage::Silent => Sending { sent: None, ..self },
            Stage::Unmodulated(left) => self.at(
                if left > 1 {
                    Stage::Unmodulated((left - 1) as u32)
                } else {
                    Stage::Gap(gap(self.rate))
                },
            ).turned(0),
            Stage::Gap(left) => Sending {
                sent: None,
                ..self.at(
                    if left > 1 {
                        Stage::Gap((left - 1) as u32)
                    } else {
                        Stage::Reversals(self.training.turns())
                    },
                )
            },
            Stage::Reversals(left) => self.at(
                if left > 1 {
                    Stage::Reversals((left - 1) as u32)
                } else {
                    Stage::Conditioning(self.training.patterned())
                },
            ).turned(4),
            Stage::Conditioning(left) => self.at(
                if left > 1 {
                    Stage::Conditioning((left - 1) as u32)
                } else {
                    Stage::Ones(8)
                },
            ).conditioned(),
            Stage::Ones(left) => self.at(
                if left > 1 {
                    Stage::Ones((left - 1) as u32)
                } else {
                    Stage::Data
                },
            ).symbol(true),
            Stage::Data => self.symbol(false),
            Stage::TurnOff(left) => if self.pending.len() > 0 {
                self.symbol(false)
            } else {
                self.at(
                    if left > 1 {
                        Stage::TurnOff((left - 1) as u32)
                    } else {
                        Stage::Silent
                    },
                ).symbol(true)
            },
        }
    }
}

/// V.27 ter transmitter.
#[derive(Debug, Clone)]
pub struct Transmitter {
    pub rate: Rate,
    pub training: Training,
    pub scrambler: Scrambler,
    pub stage: Stage,
    /// Whether segments 1 and 2 go in front of each burst.
    pub echo_protection: bool,
    pub sent: Option<u8>,
    /// The phase the last symbol went out at, in eighths of a turn. Every symbol
    /// is a change from this one.
    pub eighths: u8,
    pub pending: VecDeque<bool>,
}

impl View for Transmitter {
    type V = Sending;

    open spec fn view(&self) -> Sending {
        Sending {
            rate: self.rate,
            training: self.training,
            scrambler: self.scrambler,
            stage: self.stage,
            echo_protection: self.echo_protection,
            sent: self.sent,
            eighths: self.eighths,
            pending: self.pending@,
        }
    }
}

impl Transmitter {
    pub fn new() -> (tx: Transmitter)
        ensures
            tx@ == (Sending {
                rate: Rate::R4800,
                training: Training::Long,
                scrambler: Scrambler { register: 0 },
                stage: Stage::Silent,
                echo_protection: false,
                sent: None,
                eighths: 0,
                pending: Seq::empty(),
            }),
            tx@.wf(),
    {
        Transmitter {
            rate: Rate::R4800,
            training: Training::Long,
            scrambler: Scrambler::new(),
            stage: Stage::Silent,
            echo_protection: false,
            sent: None,
            eighths: 0,
            pending: VecDeque::new(),
        }
    }

    /// Raise the carrier and begin the turn-on sequence.
    ///
    /// Segments 1 and 2, unmodulated carrier and then a gap to turn echo
    /// suppressors around, are sent only if asked for.
    pub fn start(&mut self, rate: Rate, training: Training)
        ensures
            final(self)@ == (Sending {
                rate,
                training,
                scrambler: Scrambler { register: seed() },
                stage: if old(self)@.echo_protection {
                    Stage::Unmodulated(unmodulated(rate))
                } else {
                    Stage::Reversals(training.turns())
                },
                eighths: 0,
                pending: Seq::empty(),
                ..old(self)@
            }),
            final(self)@ == old(self)@.started(rate, training),
            final(self)@.wf(),
    {
        self.rate = rate;
        self.training = training;
        self.scrambler = Scrambler::seeded();
        self.stage = if self.echo_protection {
            Stage::Unmodulated(unmodulated_symbols(rate))
        } else {
            Stage::Reversals(training.reversals())
        };
        self.eighths = 0;
        self.pending = VecDeque::new();
    }

    /// Send segments 1 and 2 in front of every burst from now on.
    pub fn set_echo_protection(&mut self, on: bool)
        ensures
            final(self)@ == (Sending { echo_protection: on, ..old(self)@ }),
    {
        self.echo_protection = on;
    }

    /// Finish the burst: whatever is queued, then scrambled ones, then off.
    ///
    /// Asking twice is not asking for twice as long. Whoever is above cannot see
    /// symbol boundaries and will call this on every sample until the carrier
    /// goes, so a second call has to be nothing.
    pub fn stop(&mut self)
        ensures
            final(self)@ == (if old(self)@.stage is Silent || old(self)@.stage is TurnOff {
                old(self)@
            } else {
                old(self)@.at(Stage::TurnOff(10))
            }),
            final(self)@ == old(self)@.stopped(),
    {
        match self.stage {
            Stage::Silent | Stage::TurnOff(_) => {},
            _ => {
                self.stage = Stage::TurnOff(TURN_OFF_SYMBOLS);
            },
        }
    }

    /// Drop the carrier now, without a turn-off sequence.
    pub fn abort(&mut self)
        ensures
            final(self)@ == (Sending {
                stage: Stage::Silent,
                pending: Seq::empty(),
                ..old(self)@
            }),
    {
        self.stage = Stage::Silent;
        self.pending = VecDeque::new();
    }

    pub fn rate(&self) -> (rate: Rate)
        ensures
            rate == self@.rate,
    {
        self.rate
    }

    /// The phase most recently sent, in eighths of a turn, for a constellation
    /// display, or `None` while nothing is going out.
    pub fn last_point(&self) -> (point: Option<u8>)
        ensures
            point == (if self@.stage is Silent {
                None
            } else {
                self@.sent
            }),
    {
        match self.stage {
            Stage::Silent => None,
            _ => self.sent,
        }
    }

    pub fn is_transmitting(&self) -> (transmitting: bool)
        ensures
            transmitting == !(self@.stage is Silent),
    {
        match self.stage {
            Stage::Silent => false,
            _ => true,
        }
    }

    /// Whether the turn-on sequence is over and data is going out.
    pub fn trained(&self) -> (trained: bool)
        ensures
            trained == (self@.stage is Data || self@.stage is TurnOff),
    {
        match self.stage {
            Stage::Data | Stage::TurnOff(_) => true,
            _ => false,
        }
    }

    pub fn push_bits(&mut self, bits: &[bool])
        ensures
            final(self)@ == (Sending { pending: old(self)@.pending + bits@, ..old(self)@ }),
    {
        let ghost start = self@;
        let mut i: usize = 0;
        assert(start.pending + bits@.take(0) =~= start.pending);
        while i < bits.len()
            invariant
                i <= bits@.len(),
                self@ == (Sending { pending: start.pending + bits@.take(i as int), ..start }),
            decreases bits@.len() - i,
        {
            self.pending.push_back(bits[i]);
            i = i + 1;
            assert(self.pending@ =~= start.pending + bits@.take(i as int));
        }
        assert(bits@.take(i as int) =~= bits@);
    }

    /// Push octets most significant bit first.
    pub fn push_bytes(&mut self, bytes: &[u8])
        ensures
            final(self)@ == (Sending {
                pending: old(self)@.pending + octets(bytes@),
                ..old(self)@
            }),
    {
        push_octets(&mut self.pending, bytes);
    }

    pub fn pending_bits(&self) -> (left: usize)
        ensures
            left == self@.pending.len(),
    {
        self.pending.len()
    }

    /// The next scrambled bit: from the queue, or one of the continuous ONEs the
    /// training and the turn-off run on, which leave anything queued where it is.
    fn next_bit(&mut self, ones: bool) -> (bit: bool)
        ensures
            bit == old(self)@.line_bit(ones),
            final(self)@ == old(self)@.bit_gone(ones),
    {
        let ghost before = self.pending@;
        let bit = if ones {
            true
        } else {
            match self.pending.pop_front() {
                Some(bit) => bit,
                None => true,
            }
        };
        assert(!ones && before.len() > 0 ==> self.pending@ =~= before.skip(1));
        self.scrambler.scramble(bit)
    }

    /// Turn by the given eighths.
    fn turn(&mut self, eighths: u8)
        requires
            old(self)@.wf(),
            eighths < 8,
        ensures
            final(self)@ == old(self)@.turned(eighths as int),
            final(self)@.wf(),
    {
        self.eighths = (self.eighths + eighths) % 8;
        self.sent = Some(self.eighths);
    }

    /// One symbol's worth of bits, encoded as a phase change.
    fn symbol(&mut self, ones: bool)
        requires
            old(self)@.wf(),
        ensures
            final(self)@ == old(self)@.symbol(ones),
            final(self)@.wf(),
    {
        let ghost start = self@;
        proof {
            reveal_with_fuel(Sending::bits_gone, 4);
            reveal_with_fuel(Sending::line_bits, 4);
            reveal_with_fuel(spelt, 4);
        }
        let eighths: u8 = match self.rate {
            Rate::R4800 => {
                let a = self.next_bit(ones);
                let b = self.next_bit(ones);
                let c = self.next_bit(ones);
                let tribit: usize = 4 * one(a) + 2 * one(b) + one(c);
                proof {
                    let bits = start.line_bits(ones, 3);
                    assert(bits.drop_last().drop_last().drop_last() =~= Seq::empty());
                    assert(spelt(bits) == tribit);
                    the_tables_and_their_reverses_agree(tribit as int, 0);
                }
                TRIBIT_TURN[tribit]
            },
            Rate::R2400 => {
                let a = self.next_bit(ones);
                let b = self.next_bit(ones);
                let dibit: usize = 2 * one(a) + one(b);
                proof {
                    let bits = start.line_bits(ones, 2);
                    assert(bits.drop_last().drop_last() =~= Seq::empty());
                    assert(spelt(bits) == dibit);
                    the_tables_and_their_reverses_agree(0, dibit as int);
                }
                DIBIT_TURN[dibit]
            },
        };
        self.turn(eighths);
    }

    /// The next symbol: the phase it goes out at, in eighths of a turn, or none
    /// where nothing does.
    pub fn next_symbol(&mut self) -> (phase: Option<u8>)
        requires
            old(self)@.wf(),
        ensures
            final(self)@ == old(self)@.next(),
            phase == final(self)@.sent,
            final(self)@.wf(),
    {
        match self.stage {
            Stage::Silent => {
                self.sent = None;
            },
            Stage::Unmodulated(left) => {
                self.stage = if left > 1 {
                    Stage::Unmodulated(left - 1)
                } else {
                    Stage::Gap(gap_symbols(self.rate))
                };
                self.turn(0);
            },
            Stage::Gap(left) => {
                self.stage = if left > 1 {
                    Stage::Gap(left - 1)
                } else {
                    Stage::Reversals(self.training.reversals())
                };
                self.sent = None;
            },
            Stage::Reversals(left) => {
                self.stage = if left > 1 {
                    Stage::Reversals(left - 1)
                } else {
                    Stage::Conditioning(self.training.conditioning())
                };
                self.turn(4);
            },
            Stage::Conditioning(left) => {
                self.stage = if left > 1 {
                    Stage::Conditioning(left - 1)
                } else {
                    Stage::Ones(SCRAMBLED_ONES)
                };
                proof {
                    reveal_with_fuel(Sending::bits_gone, 4);
                }
                let bit = self.next_bit(true);
                let _ = self.next_bit(true);
                let _ = self.next_bit(true);
                self.turn(if bit {
                    4
                } else {
                    0
                });
            },
            Stage::Ones(left) => {
                self.stage = if left > 1 {
                    Stage::Ones(left - 1)
                } else {
                    Stage::Data
                };
                self.symbol(true);
            },
            Stage::Data => self.symbol(false),
            Stage::TurnOff(left) => {
                if self.pending.len() > 0 {
                    self.symbol(false);
                } else {
                    self.stage = if left > 1 {
                        Stage::TurnOff(left - 1)
                    } else {
                        Stage::Silent
                    };
                    self.symbol(true);
                }
            },
        }
        self.sent
    }
}

fn one(bit: bool) -> (n: usize)
    ensures
        n == (if bit {
            1int
        } else {
            0
        }),
{
    if bit {
        1
    } else {
        0
    }
}

impl Sending {
    /// Symbols of the turn-on sequence still to go.
    pub open spec fn to_go(self) -> int {
        let training = self.training.turns() + self.training.patterned() + 8;
        match self.stage {
            Stage::Unmodulated(left) => left + gap(self.rate) + training,
            Stage::Gap(left) => left + training,
            Stage::Reversals(left) => left + self.training.patterned() + 8,
            Stage::Conditioning(left) => left + 8,
            Stage::Ones(left) => left as int,
            _ => 0,
        }
    }

    /// A count of nothing is not a stage.
    pub open spec fn counting(self) -> bool {
        match self.stage {
            Stage::Unmodulated(left) => left > 0,
            Stage::Gap(left) => left > 0,
            Stage::Reversals(left) => left > 0,
            Stage::Conditioning(left) => left > 0,
            Stage::Ones(left) => left > 0,
            Stage::TurnOff(left) => left > 0,
            _ => true,
        }
    }
}

proof fn lemma_ones_leave_the_queue(s: Sending, n: nat)
    ensures
        s.bits_gone(true, n).pending == s.pending,
        s.bits_gone(true, n).stage == s.stage,
        s.bits_gone(true, n).rate == s.rate,
        s.bits_gone(true, n).training == s.training,
    decreases n,
{
    if n > 0 {
        lemma_ones_leave_the_queue(s, (n - 1) as nat);
    }
}

/// The turn-on sequence is exactly as long as its segments: a symbol goes by, and
/// there is one fewer to go; and nothing queued is read until it is over, when
/// data follows it.
pub proof fn the_training_lasts_what_it_should(s: Sending)
    requires
        s.counting(),
        s.to_go() > 0,
    ensures
        s.next().to_go() == s.to_go() - 1,
        s.next().counting(),
        s.next().pending == s.pending,
        s.next().to_go() == 0 ==> s.next().stage is Data,
{
    let on = match s.stage {
        Stage::Ones(left) => s.at(
            if left > 1 {
                Stage::Ones((left - 1) as u32)
            } else {
                Stage::Data
            },
        ),
        Stage::Conditioning(left) => s.at(
            if left > 1 {
                Stage::Conditioning((left - 1) as u32)
            } else {
                Stage::Ones(8)
            },
        ),
        _ => s,
    };
    lemma_ones_leave_the_queue(on, on.rate.width());
    lemma_ones_leave_the_queue(on, 3);
}

/// A burst told to stop sends what is queued first, and then the turn-off
/// sequence, a symbol at a time, and then is silent.
pub proof fn a_burst_ends(s: Sending)
    requires
        s.counting(),
        s.stage is TurnOff,
    ensures
        s.pending.len() > 0 ==> s.next().stage == s.stage,
        s.pending.len() == 0 ==> (if s.stage->TurnOff_0 > 1 {
            s.next().stage == Stage::TurnOff((s.stage->TurnOff_0 - 1) as u32)
        } else {
            s.next().stage is Silent
        }),
{
    lemma_stage_kept(s, s.rate.width());
    if s.pending.len() == 0 {
        let on = s.at(
            if s.stage->TurnOff_0 > 1 {
                Stage::TurnOff((s.stage->TurnOff_0 - 1) as u32)
            } else {
                Stage::Silent
            },
        );
        lemma_ones_leave_the_queue(on, on.rate.width());
    }
}

proof fn lemma_stage_kept(s: Sending, n: nat)
    ensures
        s.bits_gone(false, n).stage == s.stage,
        s.bits_gone(false, n).rate == s.rate,
        s.bits_gone(false, n).eighths == s.eighths,
    decreases n,
{
    if n > 0 {
        lemma_stage_kept(s, (n - 1) as nat);
    }
}

/// Which of the eight phases a point is nearest, by which side of each halfway
/// line it falls: a point is nearer the axis than the diagonal where the sum of its
/// coordinates is no more than the root of two times the larger.
pub open spec fn first_eighth(x: int, y: int) -> int {
    if (x + y) * (x + y) <= 2 * (x * x) {
        0
    } else if (x + y) * (x + y) <= 2 * (y * y) {
        2
    } else {
        1
    }
}

/// The nearest of the eight phases, in eighths of a turn anticlockwise.
pub open spec fn nearest(p: (int, int)) -> int {
    if p.1 >= 0 && p.0 >= 0 {
        first_eighth(p.0, p.1)
    } else if p.1 >= 0 {
        2 + first_eighth(p.1, -p.0)
    } else if p.0 < 0 {
        4 + first_eighth(-p.0, -p.1)
    } else {
        (6 + first_eighth(-p.1, p.0)) % 8
    }
}

fn octant(x: i64, y: i64) -> (eighth: u8)
    requires
        0 <= x <= 0x8000_0000,
        0 <= y <= 0x8000_0000,
    ensures
        eighth == first_eighth(x as int, y as int),
        eighth <= 2,
{
    assert(0 <= x * x <= 0x4000_0000_0000_0000 && 0 <= y * y <= 0x4000_0000_0000_0000)
        by (nonlinear_arith)
        requires
            0 <= x <= 0x8000_0000,
            0 <= y <= 0x8000_0000,
    ;
    assert(0 <= (x + y) * (x + y) <= 0x1_0000_0000 * 0x1_0000_0000) by (nonlinear_arith)
        requires
            0 <= x <= 0x8000_0000,
            0 <= y <= 0x8000_0000,
    ;
    let (a, b): (i128, i128) = (x as i128, y as i128);
    let sum: i128 = (a + b) * (a + b);
    if sum <= 2 * (a * a) {
        0
    } else if sum <= 2 * (b * b) {
        2
    } else {
        1
    }
}

/// Which of the eight phases a point is nearest.
pub fn nearest_eighth(point: (i32, i32)) -> (eighth: u8)
    ensures
        eighth == nearest((point.0 as int, point.1 as int)),
        eighth < 8,
{
    let (x, y): (i64, i64) = (point.0 as i64, point.1 as i64);
    if y >= 0 && x >= 0 {
        octant(x, y)
    } else if y >= 0 {
        2 + octant(y, -x)
    } else if x < 0 {
        4 + octant(-x, -y)
    } else {
        (6 + octant(-y, x)) % 8
    }
}

/// A quarter turn of a point is two eighths on, and the eight phases themselves
/// are each nearest to themselves.
pub proof fn a_quarter_turn_is_two_eighths(p: (int, int), size: int)
    requires
        p != (0int, 0int),
        size > 0,
    ensures
        nearest((-p.1, p.0)) == (nearest(p) + 2) % 8,
        nearest((size, 0)) == 0,
        nearest((size, size)) == 1,
{
    let (x, y) = p;
    lemma_axis(x);
    lemma_axis(y);
    lemma_axis(-x);
    lemma_axis(-y);
    lemma_axis(size);
    assert((size + size) * (size + size) > 2 * (size * size)) by (nonlinear_arith)
        requires
            size > 0,
    ;
    assert((size + 0) * (size + 0) == size * size);
}

/// A point on an axis is nearest that axis.
proof fn lemma_axis(v: int)
    ensures
        v > 0 ==> first_eighth(v, 0) == 0 && first_eighth(0, v) == 2,
{
    if v > 0 {
        assert((v + 0) * (v + 0) <= 2 * (v * v) && (0 + v) * (0 + v) > 2 * (0int * 0int) && (0 + v)
            * (0 + v) <= 2 * (v * v)) by (nonlinear_arith)
            requires
                v > 0,
        ;
    }
}

/// Symbols of a burst ignored while the filters fill.
pub const SETTLING: u64 = 8;

/// Symbols the carrier is then measured over.
pub const ACQUIRING: u64 = 48;

/// What a symbol of the front of a burst is for.
#[derive(Debug, Clone, Copy, PartialEq, Eq, Structural)]
pub enum Front {
    /// Nothing: the filters are filling, or there is no carrier.
    Ignored,
    /// One of those the carrier is measured by, kept.
    Kept,
    /// The last of those: the carrier is measured now.
    Measured,
    /// The carrier is known, and followed.
    Acquired,
}

/// A receiver, as a value.
pub struct Hearing {
    pub rate: Rate,
    pub carrier: bool,
    pub symbols: nat,
    pub eighths: Option<u8>,
    pub descrambler: Scrambler,
    pub bits: Seq<bool>,
}

/// The bits a change of phase stands for. At the slower rate a quarter turn is two
/// eighths; anything odd is an error, and rounding it down is the nearest legal
/// answer.
pub open spec fn bits_of(rate: Rate, change: int) -> Seq<bool> {
    match rate {
        Rate::R4800 => {
            let tribit = TURN_TRIBIT@[change] as int;
            seq![tribit / 4 == 1, tribit / 2 % 2 == 1, tribit % 2 == 1]
        },
        Rate::R2400 => {
            let dibit = TURN_DIBIT@[change / 2] as int;
            seq![dibit / 2 == 1, dibit % 2 == 1]
        },
    }
}

impl Hearing {
    pub open spec fn wf(self) -> bool {
        self.eighths matches Some(eighths) ==> eighths < 8
    }

    /// The decoding state left over from the last burst, thrown away.
    pub open spec fn new_burst(self) -> Hearing {
        Hearing {
            eighths: None,
            descrambler: Scrambler { register: 0 },
            bits: Seq::empty(),
            symbols: 0,
            ..self
        }
    }

    /// What a level makes of it: a carrier that has just come up is a new burst.
    pub open spec fn levelled(self, levels: Levels) -> Hearing {
        let carrier = levels.carries(self.carrier);
        if carrier && !self.carrier {
            Hearing { carrier, ..self.new_burst() }
        } else {
            Hearing { carrier, ..self }
        }
    }

    pub open spec fn front(self) -> Front {
        if self.symbols >= 56 {
            Front::Acquired
        } else if !self.carrier || self.symbols < 8 {
            Front::Ignored
        } else if self.symbols + 1 == 56 {
            Front::Measured
        } else {
            Front::Kept
        }
    }

    pub open spec fn hear_bit(self, bit: bool) -> Hearing {
        Hearing {
            descrambler: self.descrambler.pushed(bit),
            bits: self.bits.push(bit != self.descrambler.sum()),
            ..self
        }
    }

    pub open spec fn hear_bits(self, bits: Seq<bool>) -> Hearing
        decreases bits.len(),
    {
        if bits.len() == 0 {
            self
        } else {
            self.hear_bits(bits.drop_last()).hear_bit(bits.last())
        }
    }

    /// A symbol decided on. The first of a burst is only a reference; a
    /// difference needs two.
    pub open spec fn hear(self, decided: u8) -> Hearing {
        let on = Hearing { symbols: self.symbols + 1, ..self };
        if !self.carrier {
            on
        } else {
            let here = Hearing { eighths: Some(decided), ..on };
            match self.eighths {
                None => here,
                Some(previous) => here.hear_bits(
                    bits_of(self.rate, (decided + 8 - previous) % 8),
                ),
            }
        }
    }
}

/// V.27 ter receiver: what is made of the phases decided on.
///
/// It never decides where the training ended. Nothing in the turn-on sequence marks
/// its own last symbol, and whoever is above finds its own place in the bits.
#[derive(Debug, Clone)]
pub struct Receiver {
    pub rate: Rate,
    pub carrier: bool,
    pub symbols: u64,
    /// The phase the previous symbol landed on, in eighths of a turn.
    pub eighths: Option<u8>,
    pub descrambler: Scrambler,
    pub bits: Vec<bool>,
}

impl View for Receiver {
    type V = Hearing;

    open spec fn view(&self) -> Hearing {
        Hearing {
            rate: self.rate,
            carrier: self.carrier,
            symbols: self.symbols as nat,
            eighths: self.eighths,
            descrambler: self.descrambler,
            bits: self.bits@,
        }
    }
}

impl Receiver {
    pub fn new() -> (rx: Receiver)
        ensures
            rx@ == (Hearing {
                rate: Rate::R4800,
                carrier: false,
                symbols: 0,
                eighths: None,
                descrambler: Scrambler { register: 0 },
                bits: Seq::empty(),
            }),
            rx@.wf(),
    {
        Receiver {
            rate: Rate::R4800,
            carrier: false,
            symbols: 0,
            eighths: None,
            descrambler: Scrambler::new(),
            bits: Vec::new(),
        }
    }

    /// Set the rate the burst about to arrive is at.
    pub fn set_rate(&mut self, rate: Rate)
        ensures
            final(self)@ == (Hearing { rate, ..old(self)@ }),
    {
        self.rate = rate;
    }

    pub fn rate(&self) -> (rate: Rate)
        ensures
            rate == self@.rate,
    {
        self.rate
    }

    /// Whether the far end's carrier is on the line.
    pub fn carrier(&self) -> (carrier: bool)
        ensures
            carrier == self@.carrier,
    {
        self.carrier
    }

    /// The level on the line now. A carrier that has just come up is a new burst.
    pub fn on_level(&mut self, levels: Levels)
        requires
            old(self)@.wf(),
        ensures
            ({
                let carrier = levels.carries(old(self)@.carrier);
                final(self)@ == (if carrier && !old(self)@.carrier {
                    Hearing { carrier, ..old(self)@.new_burst() }
                } else {
                    Hearing { carrier, ..old(self)@ }
                })
            }),
            final(self)@ == old(self)@.levelled(levels),
            final(self)@.wf(),
    {
        let carrier = levels.carrier(self.carrier);
        if carrier && !self.carrier {
            self.new_burst();
        }
        self.carrier = carrier;
    }

    /// Forget the burst just gone and be ready for the next one, the carrier
    /// detector along with it: what is on the line at the moment somebody starts
    /// listening for a burst is the tail of the last one.
    pub fn restart(&mut self)
        ensures
            final(self)@ == (Hearing { carrier: false, ..old(self)@.new_burst() }),
            final(self)@.wf(),
    {
        self.new_burst();
        self.carrier = false;
    }

    fn new_burst(&mut self)
        ensures
            final(self)@ == old(self)@.new_burst(),
    {
        self.eighths = None;
        self.descrambler.reset();
        self.bits = Vec::new();
        self.symbols = 0;
    }

    pub fn take_bits(&mut self) -> (bits: Vec<bool>)
        ensures
            bits@ == old(self)@.bits,
            final(self)@ == (Hearing { bits: Seq::empty(), ..old(self)@ }),
    {
        let mut bits: Vec<bool> = Vec::new();
        std::mem::swap(&mut bits, &mut self.bits);
        bits
    }

    /// What the next symbol is for, at the front of the burst.
    pub fn front(&self) -> (front: Front)
        ensures
            front == self@.front(),
    {
        if self.symbols >= SETTLING + ACQUIRING {
            Front::Acquired
        } else if !self.carrier || self.symbols < SETTLING {
            Front::Ignored
        } else if self.symbols + 1 == SETTLING + ACQUIRING {
            Front::Measured
        } else {
            Front::Kept
        }
    }

    fn hear_bit(&mut self, bit: bool)
        ensures
            final(self)@ == old(self)@.hear_bit(bit),
    {
        let out = self.descrambler.descramble(bit);
        self.bits.push(out);
    }

    /// An equalised symbol, decided and turned back into bits.
    pub fn on_symbol(&mut self, point: (i32, i32))
        requires
            old(self)@.wf(),
            old(self).symbols < u64::MAX,
        ensures
            final(self)@ == old(self)@.hear(
                nearest((point.0 as int, point.1 as int)) as u8,
            ),
            final(self)@.wf(),
    {
        let decided: u8 = nearest_eighth(point);
        self.symbols = self.symbols + 1;
        if !self.carrier {
            return ;
        }
        let before = self.eighths;
        self.eighths = Some(decided);
        match before {
            None => {},
            Some(previous) => {
                let change: usize = ((decided + 8 - previous) % 8) as usize;
                proof {
                    reveal_with_fuel(Hearing::hear_bits, 4);
                    let bits = bits_of(self.rate, change as int);
                    if self.rate is R4800 {
                        assert(bits.drop_last().drop_last().drop_last() =~= Seq::empty());
                    } else {
                        assert(bits.drop_last().drop_last() =~= Seq::empty());
                    }
                }
                match self.rate {
                    Rate::R4800 => {
                        let group: u8 = TURN_TRIBIT[change];
                        self.hear_bit(group / 4 == 1);
                        self.hear_bit(group / 2 % 2 == 1);
                        self.hear_bit(group % 2 == 1);
                    },
                    Rate::R2400 => {
                        let group: u8 = TURN_DIBIT[change / 2];
                        self.hear_bit(group / 2 == 1);
                        self.hear_bit(group % 2 == 1);
                    },
                }
            },
        }
    }
}

/// The bits of a symbol come back from the turn they asked for.
pub proof fn a_turn_stands_for_its_bits(rate: Rate, bits: Seq<bool>)
    requires
        bits.len() == rate.width(),
    ensures
        0 <= turn_of(rate, bits) < 8,
        bits_of(rate, turn_of(rate, bits)) == bits,
{
    reveal_with_fuel(spelt, 4);
    if rate is R4800 {
        assert(bits.drop_last().drop_last().drop_last() =~= Seq::empty());
        the_tables_and_their_reverses_agree(spelt(bits), 0);
    } else {
        assert(bits.drop_last().drop_last() =~= Seq::empty());
        the_tables_and_their_reverses_agree(0, spelt(bits));
    }
    assert(bits_of(rate, turn_of(rate, bits)) =~= bits);
}

/// A receiver that knows the transmitter's last phase and has heard its last seven
/// bits.
pub open spec fn in_step(tx: Sending, rx: Hearing) -> bool {
    &&& rx.carrier
    &&& rx.rate == tx.rate
    &&& rx.eighths == Some(tx.eighths)
    &&& rx.descrambler == tx.scrambler
}

/// The bits a transmitter takes, of those queued and of the ones after them.
pub open spec fn taken(s: Sending, ones: bool, n: nat) -> Seq<bool>
    decreases n,
{
    if n == 0 {
        Seq::empty()
    } else {
        taken(s, ones, (n - 1) as nat).push(s.bits_gone(ones, (n - 1) as nat).bit(ones))
    }
}

proof fn lemma_heard(tx: Sending, rx: Hearing, ones: bool, n: nat)
    requires
        rx.descrambler == tx.scrambler,
    ensures
        tx.line_bits(ones, n).len() == n,
        ({
            let heard = rx.hear_bits(tx.line_bits(ones, n));
            &&& heard.bits == rx.bits + taken(tx, ones, n)
            &&& heard.descrambler == tx.bits_gone(ones, n).scrambler
            &&& heard.carrier == rx.carrier
            &&& heard.rate == rx.rate
            &&& heard.eighths == rx.eighths
        }),
        tx.bits_gone(ones, n).rate == tx.rate,
        tx.bits_gone(ones, n).eighths == tx.eighths,
    decreases n,
{
    if n > 0 {
        lemma_heard(tx, rx, ones, (n - 1) as nat);
        let line = tx.line_bits(ones, n);
        assert(line.drop_last() =~= tx.line_bits(ones, (n - 1) as nat));
        let heard = rx.hear_bits(line);
        assert(heard.bits =~= rx.bits + taken(tx, ones, n));
    } else {
        assert(rx.bits + taken(tx, ones, 0) =~= rx.bits);
    }
}

/// What is sent is what is received: a symbol of data decided by a receiver in step
/// with the transmitter gives back the bits it carried, at either rate, and leaves
/// the two in step.
pub proof fn what_is_sent_is_received(tx: Sending, rx: Hearing, ones: bool)
    requires
        tx.wf(),
        rx.wf(),
        in_step(tx, rx),
    ensures
        ({
            let sent = tx.symbol(ones);
            let heard = rx.hear(sent.eighths);
            &&& heard.bits == rx.bits + taken(tx, ones, tx.rate.width())
            &&& in_step(sent, heard)
        }),
{
    let width = tx.rate.width();
    let bits = tx.line_bits(ones, width);
    let sent = tx.symbol(ones);
    let here = Hearing {
        symbols: rx.symbols + 1,
        eighths: Some(sent.eighths),
        ..rx
    };
    lemma_heard(tx, here, ones, width);
    a_turn_stands_for_its_bits(tx.rate, bits);
    assert((sent.eighths + 8 - tx.eighths) % 8 == turn_of(tx.rate, bits));
}

} // verus!
