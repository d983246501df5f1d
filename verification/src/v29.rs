//! V.29: 9600, 7200 and 4800 bit/s, sixteen points at 2400 baud.
//!
//! Adopted by T.30 as the middle of the three modulations a fax can carry a page
//! with. There is no trellis code and no rate negotiation. A burst is a
//! synchronizing signal, then data, then silence.
//!
//! The constellation is not a grid: the points sit on eight phases, at two radii,
//! and the radii are different on the axes from on the diagonals. Three of the four
//! bits of a symbol are a phase change, coded exactly as V.27 ter codes its tribits,
//! and the fourth says which of the two radii.
use crate::carrier::Levels;
use crate::octets::{octets, push_octets};
use crate::scrambling::{fed_back, shifted_in};
use crate::v27ter::{the_tables_and_their_reverses_agree, TRIBIT_TURN, TURN_TRIBIT};
use crate::v32::{Mode, Scrambler};
use std::collections::VecDeque;
use vstd::prelude::*;

pub mod laws;
pub mod train;

verus! {

/// The carrier frequency, in hertz.
pub const CARRIER: u32 = 1700;

/// The modulation rate, at every data rate.
pub const BAUD: u32 = 2400;

/// Symbols either side of centre that the shaping pulse reaches.
pub const SPAN: usize = 6;

/// Which of the three rates is in use.
#[derive(Debug, Clone, Copy, PartialEq, Eq, Structural)]
pub enum Rate {
    /// Quadbits: all sixteen points.
    R9600,
    /// Tribits: the inner eight points.
    R7200,
    /// Dibits: the four points on the axes.
    R4800,
}

impl Default for Rate {
    fn default() -> (rate: Rate)
        ensures
            rate == Rate::R9600,
    {
        Rate::R9600
    }
}

/// One point: which of the eight phases it lies on, and whether it is on the outer
/// ring. The phase is what the bits change, and the ring is one bit on its own.
#[derive(Debug, Clone, Copy, PartialEq, Eq, Structural)]
pub struct Point {
    /// The absolute phase, in eighths of a turn from 0 degrees.
    pub eighths: u8,
    pub outer: bool,
}

impl Point {
    /// Where the point is: 3 or 5 out on the axes, and (1, 1) or (3, 3) and their
    /// reflections on the diagonals.
    pub open spec fn at(self) -> (int, int) {
        let r = if self.outer {
            5int
        } else {
            3
        };
        let k = if self.outer {
            3int
        } else {
            1
        };
        let e = self.eighths as int % 8;
        if e == 0 {
            (r, 0)
        } else if e == 1 {
            (k, k)
        } else if e == 2 {
            (0, r)
        } else if e == 3 {
            (-k, k)
        } else if e == 4 {
            (-r, 0)
        } else if e == 5 {
            (-k, -k)
        } else if e == 6 {
            (0, -r)
        } else {
            (k, -k)
        }
    }

    pub open spec fn strength(self) -> int {
        self.at().0 * self.at().0 + self.at().1 * self.at().1
    }

    pub fn xy(self) -> (xy: (i32, i32))
        ensures
            (xy.0 as int, xy.1 as int) == self.at(),
            -5 <= xy.0 <= 5,
            -5 <= xy.1 <= 5,
    {
        let (r, k): (i32, i32) = if self.outer {
            (5, 3)
        } else {
            (3, 1)
        };
        match self.eighths % 8 {
            0 => (r, 0),
            1 => (k, k),
            2 => (0, r),
            3 => (-k, k),
            4 => (-r, 0),
            5 => (-k, -k),
            6 => (0, -r),
            _ => (k, -k),
        }
    }

    /// The square of its radius.
    pub fn power(self) -> (power: u32)
        ensures
            power == self.strength(),
    {
        let (x, y): (i32, i32) = self.xy();
        assert(0 <= x * x <= 25 && 0 <= y * y <= 25) by (nonlinear_arith)
            requires
                -5 <= x <= 5,
                -5 <= y <= 5,
        ;
        (x * x + y * y) as u32
    }
}

impl Rate {
    pub open spec fn width(self) -> nat {
        match self {
            Rate::R9600 => 4,
            Rate::R7200 => 3,
            Rate::R4800 => 2,
        }
    }

    /// Points this rate can send.
    pub open spec fn size(self) -> nat {
        match self {
            Rate::R9600 => 16,
            Rate::R7200 => 8,
            Rate::R4800 => 4,
        }
    }

    /// Each of them: the inner ring and then the outer, anticlockwise.
    pub open spec fn nth(self, i: int) -> Point {
        match self {
            Rate::R4800 => Point { eighths: (2 * i) as u8, outer: false },
            _ => Point { eighths: (i % 8) as u8, outer: i >= 8 },
        }
    }

    pub open spec fn points(self) -> Seq<Point> {
        Seq::new(self.size(), |i: int| self.nth(i))
    }

    /// Data bits carried by each symbol.
    pub fn bits(self) -> (bits: usize)
        ensures
            bits == self.width(),
    {
        match self {
            Rate::R9600 => 4,
            Rate::R7200 => 3,
            Rate::R4800 => 2,
        }
    }

    pub fn bits_per_second(self) -> (bits: u32)
        ensures
            bits == BAUD * self.width(),
    {
        match self {
            Rate::R9600 => 9600,
            Rate::R7200 => 7200,
            Rate::R4800 => 4800,
        }
    }

    /// Every point this rate can send.
    pub fn constellation(self) -> (points: Vec<Point>)
        ensures
            points@ == self.points(),
    {
        let (count, step): (u8, u8) = match self {
            Rate::R9600 => (16, 1),
            Rate::R7200 => (8, 1),
            Rate::R4800 => (4, 2),
        };
        let mut points: Vec<Point> = Vec::new();
        let mut i: u8 = 0;
        while i < count
            invariant
                i <= count,
                count == self.size(),
                step == (if self is R4800 {
                    2int
                } else {
                    1
                }),
                points@ == self.points().take(i as int),
            decreases count - i,
        {
            points.push(Point { eighths: (i % 8) * step, outer: i >= 8 });
            i = i + 1;
            assert(points@ =~= self.points().take(i as int));
        }
        assert(points@ =~= self.points());
        points
    }

    /// Twice the mean power of the constellation, which is a whole number at every
    /// rate: everything is divided by the root of the mean before it goes out, so
    /// the three rates leave at the same power.
    pub fn twice_mean_power(self) -> (power: u32)
        ensures
            power * self.size() == 2 * strength_of(self.points(), self.size()),
    {
        proof {
            lemma_strengths(self);
        }
        match self {
            Rate::R9600 => 27,
            Rate::R7200 => 11,
            Rate::R4800 => 18,
        }
    }
}

/// The power of the first so many points together.
pub open spec fn strength_of(points: Seq<Point>, n: nat) -> int
    decreases n,
{
    if n == 0 {
        0
    } else {
        strength_of(points, (n - 1) as nat) + points[n - 1].strength()
    }
}

proof fn lemma_strength(p: Point)
    ensures
        p.eighths % 2 == 0 ==> p.strength() == (if p.outer {
            25int
        } else {
            9
        }),
        p.eighths % 2 == 1 ==> p.strength() == (if p.outer {
            18int
        } else {
            2
        }),
{
    lemma_square(p.at().0);
    lemma_square(p.at().1);
}

proof fn lemma_square(x: int)
    ensures
        x == 0 ==> x * x == 0,
        x == 1 || x == -1 ==> x * x == 1,
        x == 3 || x == -3 ==> x * x == 9,
        x == 5 || x == -5 ==> x * x == 25,
{
    assert((x == 0 ==> x * x == 0) && (x == 1 || x == -1 ==> x * x == 1) && (x == 3 || x == -3
        ==> x * x == 9) && (x == 5 || x == -5 ==> x * x == 25)) by (nonlinear_arith);
}

proof fn lemma_strengths(rate: Rate)
    ensures
        strength_of(rate.points(), rate.size()) == (match rate {
            Rate::R9600 => 216int,
            Rate::R7200 => 44,
            Rate::R4800 => 36,
        }),
{
    reveal_with_fuel(strength_of, 17);
    assert forall|i: int| 0 <= i < rate.size() implies (#[trigger] rate.points()[i]).strength()
        == (if rate is R4800 || i % 2 == 0 {
        if rate is R4800 || i < 8 {
            9int
        } else {
            25
        }
    } else if i < 8 {
        2
    } else {
        18
    }) by {
        lemma_strength(rate.nth(i));
    }
}

pub open spec fn first() -> Point {
    Point { eighths: 4, outer: false }
}

pub open spec fn third() -> Point {
    Point { eighths: 0, outer: false }
}

/// The first point of segment 2: a relative amplitude of 3 at 180 degrees.
pub fn a() -> (point: Point)
    ensures
        point == first(),
{
    Point { eighths: 4, outer: false }
}

/// The first point of segment 3: a relative amplitude of 3 at 0 degrees.
pub fn c() -> (point: Point)
    ensures
        point == third(),
{
    Point { eighths: 0, outer: false }
}

pub open spec fn second(rate: Rate) -> Point {
    match rate {
        Rate::R4800 => Point { eighths: 6, outer: false },
        Rate::R7200 => Point { eighths: 7, outer: false },
        Rate::R9600 => Point { eighths: 7, outer: true },
    }
}

pub open spec fn fourth(rate: Rate) -> Point {
    match rate {
        Rate::R4800 => Point { eighths: 2, outer: false },
        Rate::R7200 => Point { eighths: 3, outer: false },
        Rate::R9600 => Point { eighths: 3, outer: true },
    }
}

/// The second point of segment 2: a point of each rate's own constellation, so the
/// receiver can slice the training with the same slicer as the data.
pub fn b(rate: Rate) -> (point: Point)
    ensures
        point == second(rate),
{
    match rate {
        Rate::R4800 => Point { eighths: 6, outer: false },
        Rate::R7200 => Point { eighths: 7, outer: false },
        Rate::R9600 => Point { eighths: 7, outer: true },
    }
}

/// The second point of segment 3, always opposite the second of segment 2.
pub fn d(rate: Rate) -> (point: Point)
    ensures
        point == fourth(rate),
{
    match rate {
        Rate::R4800 => Point { eighths: 2, outer: false },
        Rate::R7200 => Point { eighths: 3, outer: false },
        Rate::R9600 => Point { eighths: 3, outer: true },
    }
}

/// The training is as loud as the data it trains for: the two points of segment 2
/// together have exactly the mean power of the constellation, and so have the two
/// of segment 3, each opposite the other segment's.
pub proof fn the_training_is_as_loud_as_the_data(rate: Rate)
    ensures
        (first().strength() + second(rate).strength()) * rate.size() == 2 * strength_of(
            rate.points(),
            rate.size(),
        ),
        third().at() == (-first().at().0, -first().at().1),
        fourth(rate).at() == (-second(rate).at().0, -second(rate).at().1),
        rate.points().contains(first()) && rate.points().contains(third()),
        rate.points().contains(second(rate)) && rate.points().contains(fourth(rate)),
{
    lemma_strengths(rate);
    lemma_strength(first());
    lemma_strength(second(rate));
    let points = rate.points();
    if rate is R4800 {
        assert(points[2] == first() && points[0] == third() && points[3] == second(rate) && points[1]
            == fourth(rate));
    } else if rate is R7200 {
        assert(points[4] == first() && points[0] == third() && points[7] == second(rate) && points[3]
            == fourth(rate));
    } else {
        assert(points[4] == first() && points[0] == third() && points[15] == second(rate) && points[11]
            == fourth(rate));
    }
}

/// The pseudo-random sequence of segment 3: `1 + x^-6 + x^-7`, clocked once a
/// symbol, with the last stage as the output.
#[derive(Debug, Clone, Copy, PartialEq, Eq, Structural)]
pub struct Conditioning {
    /// Stage 1 in bit 6, stage 7 in bit 0.
    pub register: u8,
}

impl Conditioning {
    pub open spec fn wf(self) -> bool {
        self.register < 128
    }

    pub open spec fn fresh() -> Conditioning {
        Conditioning { register: 0b010_1010 }
    }

    pub open spec fn out(self) -> bool {
        self.register % 2 == 1
    }

    /// The register shifted towards its last stage, the sum of the last two fed
    /// back to the first.
    pub open spec fn after(self) -> Conditioning {
        Conditioning {
            register: (self.register / 2 + (if self.register % 2 != self.register / 2 % 2 {
                64int
            } else {
                0
            })) as u8,
        }
    }

    pub fn new() -> (conditioning: Conditioning)
        ensures
            conditioning == Conditioning::fresh(),
            conditioning.wf(),
    {
        Conditioning { register: 0b010_1010 }
    }

    /// The register, stage 1 first.
    pub fn condition(&self) -> (register: u8)
        ensures
            register == self.register,
    {
        self.register
    }

    /// The next bit: a ZERO sends one point of segment 3 and a ONE the other.
    pub fn next_bit(&mut self) -> (bit: bool)
        requires
            old(self).wf(),
        ensures
            bit == old(self).out(),
            *final(self) == old(self).after(),
            final(self).wf(),
    {
        let out = self.register % 2 == 1;
        let fed: u8 = if self.register % 2 != self.register / 2 % 2 {
            64
        } else {
            0
        };
        self.register = self.register / 2 + fed;
        out
    }
}

impl Default for Conditioning {
    fn default() -> (conditioning: Conditioning)
        ensures
            conditioning == Conditioning::fresh(),
    {
        Conditioning::new()
    }
}

/// The generator never runs down: from any condition but nothing it goes on to one
/// that is not nothing, and no two conditions lead to the same one.
pub proof fn the_generator_never_runs_down(a: Conditioning, b: Conditioning)
    requires
        a.wf(),
        b.wf(),
    ensures
        a.register != 0 ==> a.after().register != 0,
        a.after() == b.after() ==> a == b,
{
}

/// Where a burst has got to, counted in symbols still to go.
#[derive(Debug, Clone, Copy, PartialEq, Eq, Structural)]
pub enum Stage {
    Silent,
    /// Segment 1.
    Quiet(u32),
    /// Segment 2.
    Alternations(u32),
    /// Segment 3.
    Conditioning(u32),
    /// Segment 4.
    Ones(u32),
    Data,
    /// The last of the data, then scrambled ONEs until the shaping filters at both
    /// ends have let go of the final symbol.
    TurnOff(u32),
}

/// Symbols of scrambled ONEs after the last data: twice the reach of the shaping
/// pulse at both ends.
pub const TURN_OFF_SYMBOLS: u32 = 24;

/// A transmitter, as a value.
pub struct Sending {
    pub rate: Rate,
    pub scrambler: Scrambler,
    pub conditioning: Conditioning,
    pub stage: Stage,
    pub point: Point,
    pub pending: Seq<bool>,
}

/// The tribit that changes the phase, and the bit that picks the ring, of a
/// symbol's bits: at 7200 the ring is always the inner one, and at 4800 the last of
/// the tribit is the other two added and inverted, which keeps every change a
/// quarter turn.
pub open spec fn quadbit(rate: Rate, bits: Seq<bool>) -> (bool, bool, bool, bool) {
    match rate {
        Rate::R9600 => (bits[0], bits[1], bits[2], bits[3]),
        Rate::R7200 => (false, bits[0], bits[1], bits[2]),
        Rate::R4800 => (false, bits[0], bits[1], bits[0] == bits[1]),
    }
}

pub open spec fn bit(b: bool) -> int {
    if b {
        1
    } else {
        0
    }
}

/// The eighths a symbol's bits turn the carrier by.
pub open spec fn turn_of(rate: Rate, bits: Seq<bool>) -> int {
    let (_, q2, q3, q4) = quadbit(rate, bits);
    TRIBIT_TURN@[4 * bit(q2) + 2 * bit(q3) + bit(q4)] as int
}

impl Sending {
    pub open spec fn wf(self) -> bool {
        &&& self.scrambler.wf()
        &&& self.scrambler.taps() == Mode::Call.polynomial()
        &&& self.conditioning.wf()
        &&& self.point.eighths < 8
        &&& self.stage matches Stage::Alternations(left) ==> left <= 128
    }

    /// The next bit to send: ones in segment 4 and the turn-off, and once there is
    /// nothing left.
    pub open spec fn next_data(self, ones: bool) -> bool {
        if !ones && self.pending.len() > 0 {
            self.pending[0]
        } else {
            true
        }
    }

    pub open spec fn line_bit(self, ones: bool) -> bool {
        self.next_data(ones) != fed_back(self.scrambler.register, self.scrambler.taps())
    }

    pub open spec fn bit_gone(self, ones: bool) -> Sending {
        Sending {
            scrambler: Scrambler {
                register: shifted_in(self.scrambler.register, self.line_bit(ones)),
                ..self.scrambler
            },
            pending: if !ones && self.pending.len() > 0 {
                self.pending.skip(1)
            } else {
                self.pending
            },
            ..self
        }
    }

    pub open spec fn bits_gone(self, ones: bool, n: nat) -> Sending
        decreases n,
    {
        if n == 0 {
            self
        } else {
            self.bits_gone(ones, (n - 1) as nat).bit_gone(ones)
        }
    }

    pub open spec fn line_bits(self, ones: bool, n: nat) -> Seq<bool>
        decreases n,
    {
        if n == 0 {
            Seq::empty()
        } else {
            self.line_bits(ones, (n - 1) as nat).push(
                self.bits_gone(ones, (n - 1) as nat).line_bit(ones),
            )
        }
    }

    pub open spec fn at(self, stage: Stage) -> Sending {
        Sending { stage, ..self }
    }

    /// An absolute point, which the data that follows is a change from.
    pub open spec fn on(self, point: Point) -> Sending {
        Sending { point, ..self }
    }

    /// One symbol coded as data is.
    pub open spec fn coded(self, ones: bool) -> Sending {
        let bits = self.line_bits(ones, self.rate.width());
        self.bits_gone(ones, self.rate.width()).on(
            Point {
                eighths: ((self.point.eighths + turn_of(self.rate, bits)) % 8) as u8,
                outer: quadbit(self.rate, bits).0,
            },
        )
    }

    /// A burst begun: the synchronizing signal from its first segment.
    pub open spec fn begun(self, rate: Rate) -> bool {
        &&& self.rate == rate
        &&& self.scrambler.register == 0
        &&& self.conditioning == Conditioning::fresh()
        &&& self.stage == Stage::Quiet(48)
        &&& self.point == third()
        &&& self.pending == Seq::<bool>::empty()
    }

    /// A burst to be finished, if there is one that is not being finished already.
    pub open spec fn stopped(self) -> Sending {
        if self.stage is Silent || self.stage is TurnOff {
            self
        } else {
            self.at(Stage::TurnOff(24))
        }
    }

    /// Whether the next symbol has any energy.
    pub open spec fn quiet(self) -> bool {
        self.stage is Silent || self.stage is Quiet
    }

    /// The next symbol.
    pub open spec fn next(self) -> Sending {
        match self.stage {
            Stage::Silent => self,
            Stage::Quiet(left) => self.at(
                if left > 1 {
                    Stage::Quiet((left - 1) as u32)
                } else {
                    Stage::Alternations(128)
                },
            ),
            Stage::Alternations(left) => self.at(
                if left > 1 {
                    Stage::Alternations((left - 1) as u32)
                } else {
                    Stage::Conditioning(384)
                },
            ).on(
                if (128 - left) % 2 == 0 {
                    first()
                } else {
                    second(self.rate)
                },
            ),
            Stage::Conditioning(left) => Sending {
                conditioning: self.conditioning.after(),
                ..self.at(
                    if left > 1 {
                        Stage::Conditioning((left - 1) as u32)
                    } else {
                        Stage::Ones(48)
                    },
                ).on(
                    if self.conditioning.out() {
                        fourth(self.rate)
                    } else {
                        third()
                    },
                )
            },
            Stage::Ones(left) => self.at(
                if left > 1 {
                    Stage::Ones((left - 1) as u32)
                } else {
                    Stage::Data
                },
            ).coded(true),
            Stage::Data => self.coded(false),
            Stage::TurnOff(left) => if self.pending.len() > 0 {
                self.coded(false)
            } else {
                self.at(
                    if left > 1 {
                        Stage::TurnOff((left - 1) as u32)
                    } else {
                        Stage::Silent
                    },
                ).coded(true)
            },
        }
    }
}

/// V.29 transmitter.
#[derive(Debug, Clone)]
pub struct Transmitter {
    pub rate: Rate,
    pub scrambler: Scrambler,
    pub conditioning: Conditioning,
    pub stage: Stage,
    /// The point last sent. Every data symbol is a phase change from it.
    pub point: Point,
    pub pending: VecDeque<bool>,
}

impl View for Transmitter {
    type V = Sending;

    open spec fn view(&self) -> Sending {
        Sending {
            rate: self.rate,
            scrambler: self.scrambler,
            conditioning: self.conditioning,
            stage: self.stage,
            point: self.point,
            pending: self.pending@,
        }
    }
}

impl Transmitter {
    pub fn new() -> (tx: Transmitter)
        ensures
            tx@.wf(),
            tx@.rate == Rate::R9600,
            tx@.scrambler.register == 0,
            tx@.conditioning == Conditioning::fresh(),
            tx@.stage is Silent,
            tx@.point == third(),
            tx@.pending.len() == 0,
    {
        Transmitter {
            rate: Rate::R9600,
            scrambler: Scrambler::new(Mode::Call),
            conditioning: Conditioning::new(),
            stage: Stage::Silent,
            point: c(),
            pending: VecDeque::new(),
        }
    }

    /// Raise the carrier and begin the synchronizing signal.
    pub fn start(&mut self, rate: Rate)
        ensures
            final(self)@.wf(),
            final(self)@.rate == rate,
            final(self)@.scrambler.register == 0,
            final(self)@.conditioning == Conditioning::fresh(),
            final(self)@.stage == Stage::Quiet(48),
            final(self)@.point == third(),
            final(self)@.pending == Seq::<bool>::empty(),
            final(self)@.begun(rate),
    {
        self.rate = rate;
        self.scrambler = Scrambler::new(Mode::Call);
        self.conditioning = Conditioning::new();
        self.stage = Stage::Quiet(train::SILENCE);
        self.point = c();
        self.pending = VecDeque::new();
    }

    /// Finish the burst: whatever is queued, then scrambled ONEs, then off. A second
    /// call is not a second turn-off.
    pub fn stop(&mut self)
        ensures
            final(self)@ == (if old(self)@.stage is Silent || old(self)@.stage is TurnOff {
                old(self)@
            } else {
                old(self)@.at(Stage::TurnOff(24))
            }),
            final(self)@ == old(self)@.stopped(),
    {
        match self.stage {
            Stage::Silent | Stage::TurnOff(_) => {},
            _ => {
                self.stage = Stage::TurnOff(TURN_OFF_SYMBOLS);
            },
        }
    }

    /// Drop the carrier now.
    pub fn abort(&mut self)
        ensures
            final(self)@ == (Sending {
                stage: Stage::Silent,
                pending: Seq::empty(),
                ..old(self)@
            }),
    {
        self.stage = Stage::Silent;
        self.pending = VecDeque::new();
    }

    pub fn rate(&self) -> (rate: Rate)
        ensures
            rate == self@.rate,
    {
        self.rate
    }

    pub fn is_transmitting(&self) -> (transmitting: bool)
        ensures
            transmitting == !(self@.stage is Silent),
    {
        match self.stage {
            Stage::Silent => false,
            _ => true,
        }
    }

    /// Whether the synchronizing signal is over and data is going out.
    pub fn trained(&self) -> (trained: bool)
        ensures
            trained == (self@.stage is Data || self@.stage is TurnOff),
    {
        match self.stage {
            Stage::Data | Stage::TurnOff(_) => true,
            _ => false,
        }
    }

    pub fn push_bits(&mut self, bits: &[bool])
        ensures
            final(self)@ == (Sending { pending: old(self)@.pending + bits@, ..old(self)@ }),
    {
        let ghost start = self@;
        let mut i: usize = 0;
        assert(start.pending + bits@.take(0) =~= start.pending);
        while i < bits.len()
            invariant
                i <= bits@.len(),
                self@ == (Sending { pending: start.pending + bits@.take(i as int), ..start }),
            decreases bits@.len() - i,
        {
            self.pending.push_back(bits[i]);
            i = i + 1;
            assert(self.pending@ =~= start.pending + bits@.take(i as int));
        }
        assert(bits@.take(i as int) =~= bits@);
    }

    /// Push octets most significant bit first.
    pub fn push_bytes(&mut self, bytes: &[u8])
        ensures
            final(self)@ == (Sending {
                pending: old(self)@.pending + octets(bytes@),
                ..old(self)@
            }),
    {
        push_octets(&mut self.pending, bytes);
    }

    pub fn pending_bits(&self) -> (left: usize)
        ensures
            left == self@.pending.len(),
    {
        self.pending.len()
    }

    /// The next scrambled bit: from the queue, or a ONE.
    fn next_bit(&mut self, ones: bool) -> (bit: bool)
        requires
            old(self)@.wf(),
        ensures
            bit == old(self)@.line_bit(ones),
            final(self)@ == old(self)@.bit_gone(ones),
            final(self)@.wf(),
    {
        let ghost before = self.pending@;
        let bit = if ones {
            true
        } else {
            match self.pending.pop_front() {
                Some(bit) => bit,
                None => true,
            }
        };
        assert(!ones && before.len() > 0 ==> self.pending@ =~= before.skip(1));
        self.scrambler.scramble(bit)
    }

    /// One symbol coded as data is. `ones` takes scrambled ONEs instead of the
    /// queue, for segment 4 and the turn-off: reading the queue any earlier than the
    /// end of segment 4 throws the start of a page away.
    #[verifier::rlimit(60)]
    pub fn coded(&mut self, ones: bool) -> (point: Point)
        requires
            old(self)@.wf(),
        ensures
            final(self)@ == old(self)@.coded(ones),
            point == final(self)@.point,
            final(self)@.wf(),
    {
        proof {
            reveal_with_fuel(Sending::bits_gone, 5);
            reveal_with_fuel(Sending::line_bits, 5);
        }
        let (q1, q2, q3, q4): (bool, bool, bool, bool) = match self.rate {
            Rate::R9600 => {
                let q1 = self.next_bit(ones);
                let q2 = self.next_bit(ones);
                let q3 = self.next_bit(ones);
                let q4 = self.next_bit(ones);
                (q1, q2, q3, q4)
            },
            Rate::R7200 => {
                let q2 = self.next_bit(ones);
                let q3 = self.next_bit(ones);
                let q4 = self.next_bit(ones);
                (false, q2, q3, q4)
            },
            Rate::R4800 => {
                let q2 = self.next_bit(ones);
                let q3 = self.next_bit(ones);
                (false, q2, q3, q2 == q3)
            },
        };
        let tribit: usize = 4 * one(q2) + 2 * one(q3) + one(q4);
        proof {
            the_tables_and_their_reverses_agree(tribit as int, 0);
        }
        self.point = Point {
            eighths: (self.point.eighths + TRIBIT_TURN[tribit]) % 8,
            outer: q1,
        };
        self.point
    }

    /// The next symbol, or `None` for one of no energy.
    pub fn next_symbol(&mut self) -> (point: Option<Point>)
        requires
            old(self)@.wf(),
        ensures
            final(self)@ == old(self)@.next(),
            point == (if old(self)@.quiet() {
                None
            } else {
                Some(final(self)@.point)
            }),
            final(self)@.wf(),
    {
        let point = match self.stage {
            Stage::Silent => {
                return None;
            },
            Stage::Quiet(left) => {
                self.stage = if left > 1 {
                    Stage::Quiet(left - 1)
                } else {
                    Stage::Alternations(train::ALTERNATIONS)
                };
                return None;
            },
            Stage::Alternations(left) => {
                self.stage = if left > 1 {
                    Stage::Alternations(left - 1)
                } else {
                    Stage::Conditioning(train::CONDITIONING)
                };
                if (train::ALTERNATIONS - left) % 2 == 0 {
                    a()
                } else {
                    b(self.rate)
                }
            },
            Stage::Conditioning(left) => {
                self.stage = if left > 1 {
                    Stage::Conditioning(left - 1)
                } else {
                    Stage::Ones(train::ONES)
                };
                if self.conditioning.next_bit() {
                    d(self.rate)
                } else {
                    c()
                }
            },
            Stage::Ones(left) => {
                self.stage = if left > 1 {
                    Stage::Ones(left - 1)
                } else {
                    Stage::Data
                };
                return Some(self.coded(true));
            },
            Stage::Data => {
                return Some(self.coded(false));
            },
            Stage::TurnOff(left) => {
                if self.pending.len() > 0 {
                    return Some(self.coded(false));
                }
                self.stage = if left > 1 {
                    Stage::TurnOff(left - 1)
                } else {
                    Stage::Silent
                };
                return Some(self.coded(true));
            },
        };
        self.point = point;
        Some(point)
    }
}

fn one(b: bool) -> (n: usize)
    ensures
        n == bit(b),
{
    if b {
        1
    } else {
        0
    }
}

impl Sending {
    /// Symbols of the synchronizing signal still to go.
    pub open spec fn to_go(self) -> int {
        match self.stage {
            Stage::Quiet(left) => left + 560,
            Stage::Alternations(left) => left + 432,
            Stage::Conditioning(left) => left + 48,
            Stage::Ones(left) => left as int,
            _ => 0,
        }
    }

    /// A count of nothing is not a stage.
    pub open spec fn counting(self) -> bool {
        match self.stage {
            Stage::Quiet(left) => left > 0,
            Stage::Alternations(left) => left > 0,
            Stage::Conditioning(left) => left > 0,
            Stage::Ones(left) => left > 0,
            Stage::TurnOff(left) => left > 0,
            _ => true,
        }
    }
}

proof fn lemma_kept(s: Sending, ones: bool, n: nat)
    ensures
        s.bits_gone(ones, n).stage == s.stage,
        s.bits_gone(ones, n).rate == s.rate,
        s.bits_gone(ones, n).point == s.point,
        s.bits_gone(ones, n).scrambler.taps() == s.scrambler.taps(),
        ones ==> s.bits_gone(ones, n).pending == s.pending,
    decreases n,
{
    if n > 0 {
        lemma_kept(s, ones, (n - 1) as nat);
    }
}

/// The synchronizing signal is exactly as long as its segments, 608 symbols from
/// its start; a symbol goes by, and there is one fewer to go; and nothing queued is
/// read until it is over, when data follows it.
pub proof fn the_training_lasts_what_it_should(s: Sending)
    requires
        s.counting(),
        s.to_go() > 0,
    ensures
        s.next().to_go() == s.to_go() - 1,
        s.next().counting(),
        s.next().pending == s.pending,
        s.next().to_go() == 0 ==> s.next().stage is Data,
        s.at(Stage::Quiet(train::SILENCE)).to_go() == train::TOTAL,
{
    if s.stage is Ones {
        let left = s.stage->Ones_0;
        let on = s.at(
            if left > 1 {
                Stage::Ones((left - 1) as u32)
            } else {
                Stage::Data
            },
        );
        lemma_kept(on, true, on.rate.width());
    }
}

/// A burst told to stop sends what is queued first, and then the turn-off, a symbol
/// at a time, and then is silent.
pub proof fn a_burst_ends(s: Sending)
    requires
        s.counting(),
        s.stage is TurnOff,
    ensures
        s.pending.len() > 0 ==> s.next().stage == s.stage,
        s.pending.len() == 0 ==> (if s.stage->TurnOff_0 > 1 {
            s.next().stage == Stage::TurnOff((s.stage->TurnOff_0 - 1) as u32)
        } else {
            s.next().stage is Silent
        }),
{
    lemma_kept(s, false, s.rate.width());
    if s.pending.len() == 0 {
        let on = s.at(
            if s.stage->TurnOff_0 > 1 {
                Stage::TurnOff((s.stage->TurnOff_0 - 1) as u32)
            } else {
                Stage::Silent
            },
        );
        lemma_kept(on, true, on.rate.width());
    }
}

/// The squared distance of a point from where one was heard, in thousandths of a
/// unit of the constellation.
pub open spec fn off(at: (i32, i32), p: Point) -> int {
    let (x, y) = (at.0 - 1000 * p.at().0, at.1 - 1000 * p.at().1);
    x * x + y * y
}

/// The nearest of the first so many points of a rate, the first of those as near.
pub open spec fn nearest_of(rate: Rate, at: (i32, i32), n: nat) -> int
    decreases n,
{
    if n <= 1 {
        0
    } else {
        let before = nearest_of(rate, at, (n - 1) as nat);
        if off(at, rate.nth(n - 1)) < off(at, rate.nth(before)) {
            n - 1
        } else {
            before
        }
    }
}

/// The point of a rate's constellation nearest to where one was heard.
pub open spec fn nearest(rate: Rate, at: (i32, i32)) -> Point {
    rate.nth(nearest_of(rate, at, rate.size()))
}

/// No point of the constellation is nearer than the one decided on.
pub proof fn the_nearest_point_is_nearest(rate: Rate, at: (i32, i32), n: nat, i: int)
    requires
        0 <= i < n,
    ensures
        0 <= nearest_of(rate, at, n) < n,
        off(at, rate.nth(nearest_of(rate, at, n))) <= off(at, rate.nth(i)),
    decreases n,
{
    if n > 1 {
        if i < n - 1 {
            the_nearest_point_is_nearest(rate, at, (n - 1) as nat, i);
        } else {
            the_nearest_point_is_nearest(rate, at, (n - 1) as nat, 0);
        }
    }
}

/// Where a point is heard exactly.
pub open spec fn exact(p: Point) -> (i32, i32) {
    ((1000 * p.at().0) as i32, (1000 * p.at().1) as i32)
}

/// A point heard exactly is decided on.
proof fn lemma_exact(rate: Rate, i: int)
    requires
        0 <= i < rate.size(),
    ensures
        nearest(rate, exact(rate.nth(i))) == rate.nth(i),
{
    let p = rate.nth(i);
    let at = exact(p);
    the_nearest_point_is_nearest(rate, at, rate.size(), i);
    let q = nearest(rate, at);
    let (x, y) = (at.0 - 1000 * q.at().0, at.1 - 1000 * q.at().1);
    assert(off(at, p) == 0) by {
        lemma_square(at.0 - 1000 * p.at().0);
        lemma_square(at.1 - 1000 * p.at().1);
    }
    assert(x * x >= 0 && y * y >= 0 && (x * x + y * y <= 0 ==> x == 0 && y == 0))
        by (nonlinear_arith);
    assert(q.at() == p.at());
}

fn distance(at: (i32, i32), p: Point) -> (d: u64)
    requires
        -0x1000_0000 <= at.0 <= 0x1000_0000,
        -0x1000_0000 <= at.1 <= 0x1000_0000,
    ensures
        d == off(at, p),
{
    let (px, py): (i32, i32) = p.xy();
    let x: i64 = at.0 as i64 - 1000 * (px as i64);
    let y: i64 = at.1 as i64 - 1000 * (py as i64);
    assert(0 <= x * x <= 0x1001_0000 * 0x1001_0000 && 0 <= y * y <= 0x1001_0000 * 0x1001_0000)
        by (nonlinear_arith)
        requires
            -0x1001_0000 <= x <= 0x1001_0000,
            -0x1001_0000 <= y <= 0x1001_0000,
    ;
    (x * x + y * y) as u64
}

/// The point of a rate's constellation nearest to where one was heard, in
/// thousandths of a unit.
pub fn nearest_point(rate: Rate, at: (i32, i32)) -> (point: Point)
    requires
        -0x1000_0000 <= at.0 <= 0x1000_0000,
        -0x1000_0000 <= at.1 <= 0x1000_0000,
    ensures
        point == nearest(rate, at),
        point.eighths < 8,
{
    let points = rate.constellation();
    let mut best: usize = 0;
    let mut least: u64 = distance(at, points[0]);
    let mut i: usize = 1;
    while i < points.len()
        invariant
            1 <= i <= points@.len(),
            points@ == rate.points(),
            -0x1000_0000 <= at.0 <= 0x1000_0000,
            -0x1000_0000 <= at.1 <= 0x1000_0000,
            best < i,
            best == nearest_of(rate, at, i as nat),
            least == off(at, rate.nth(best as int)),
        decreases points@.len() - i,
    {
        let d: u64 = distance(at, points[i]);
        if d < least {
            least = d;
            best = i;
        }
        i = i + 1;
    }
    points[best]
}

/// A receiver, as a value.
pub struct Hearing {
    pub rate: Rate,
    pub carrier: bool,
    pub symbols: nat,
    pub previous: Option<Point>,
    pub descrambler: Scrambler,
    pub bits: Seq<bool>,
}

/// The bits a symbol stands for, by the change of phase to it and its ring.
pub open spec fn bits_of(rate: Rate, change: int, outer: bool) -> Seq<bool> {
    let tribit = TURN_TRIBIT@[change] as int;
    let (q2, q3, q4) = (tribit / 4 == 1, tribit / 2 % 2 == 1, tribit % 2 == 1);
    match rate {
        Rate::R9600 => seq![outer, q2, q3, q4],
        Rate::R7200 => seq![q2, q3, q4],
        Rate::R4800 => seq![q2, q3],
    }
}

impl Hearing {
    pub open spec fn wf(self) -> bool {
        &&& self.descrambler.wf()
        &&& self.descrambler.taps() == Mode::Call.polynomial()
        &&& self.previous matches Some(p) ==> p.eighths < 8
    }

    pub open spec fn new_burst(self) -> Hearing {
        Hearing {
            previous: None,
            descrambler: Scrambler { register: 0, ..self.descrambler },
            bits: Seq::empty(),
            symbols: 0,
            ..self
        }
    }

    /// What a level makes of it: a carrier that has just come up is a new burst.
    pub open spec fn levelled(self, levels: Levels) -> Hearing {
        let carrier = levels.carries(self.carrier);
        if carrier && !self.carrier {
            Hearing { carrier, ..self.new_burst() }
        } else {
            Hearing { carrier, ..self }
        }
    }

    pub open spec fn hear_bit(self, bit: bool) -> Hearing {
        Hearing {
            descrambler: Scrambler {
                register: shifted_in(self.descrambler.register, bit),
                ..self.descrambler
            },
            bits: self.bits.push(
                bit != fed_back(self.descrambler.register, self.descrambler.taps()),
            ),
            ..self
        }
    }

    pub open spec fn hear_bits(self, bits: Seq<bool>) -> Hearing
        decreases bits.len(),
    {
        if bits.len() == 0 {
            self
        } else {
            self.hear_bits(bits.drop_last()).hear_bit(bits.last())
        }
    }

    /// A symbol decided on. The first of a burst is only a reference.
    pub open spec fn hear(self, decided: Point) -> Hearing {
        let on = Hearing { symbols: self.symbols + 1, ..self };
        if !self.carrier {
            on
        } else {
            let here = Hearing { previous: Some(decided), ..on };
            match self.previous {
                None => here,
                Some(previous) => here.hear_bits(
                    bits_of(
                        self.rate,
                        (decided.eighths + 8 - previous.eighths) % 8,
                        decided.outer,
                    ),
                ),
            }
        }
    }
}

/// V.29 receiver: what is made of the points decided on.
///
/// It never decides where the synchronizing signal ended: everything is descrambled
/// from the moment there is a carrier and whoever is above finds its own place.
#[derive(Debug, Clone)]
pub struct Receiver {
    pub rate: Rate,
    pub carrier: bool,
    pub symbols: u64,
    /// The point the previous symbol was decided to be.
    pub previous: Option<Point>,
    pub descrambler: Scrambler,
    pub bits: Vec<bool>,
}

impl View for Receiver {
    type V = Hearing;

    open spec fn view(&self) -> Hearing {
        Hearing {
            rate: self.rate,
            carrier: self.carrier,
            symbols: self.symbols as nat,
            previous: self.previous,
            descrambler: self.descrambler,
            bits: self.bits@,
        }
    }
}

impl Receiver {
    pub fn new() -> (rx: Receiver)
        ensures
            rx@.wf(),
            rx@.rate == Rate::R9600,
            !rx@.carrier,
            rx@.symbols == 0,
            rx@.previous is None,
            rx@.descrambler.register == 0,
            rx@.bits.len() == 0,
    {
        Receiver {
            rate: Rate::R9600,
            carrier: false,
            symbols: 0,
            previous: None,
            descrambler: Scrambler::new(Mode::Call),
            bits: Vec::new(),
        }
    }

    /// Set the rate the burst about to arrive is at.
    pub fn set_rate(&mut self, rate: Rate)
        ensures
            final(self)@ == (Hearing { rate, ..old(self)@ }),
    {
        self.rate = rate;
    }

    pub fn rate(&self) -> (rate: Rate)
        ensures
            rate == self@.rate,
    {
        self.rate
    }

    pub fn carrier(&self) -> (carrier: bool)
        ensures
            carrier == self@.carrier,
    {
        self.carrier
    }

    /// The level on the line now. A carrier that has just come up is a new burst.
    pub fn on_level(&mut self, levels: Levels)
        requires
            old(self)@.wf(),
        ensures
            ({
                let carrier = levels.carries(old(self)@.carrier);
                final(self)@ == (if carrier && !old(self)@.carrier {
                    Hearing { carrier, ..old(self)@.new_burst() }
                } else {
                    Hearing { carrier, ..old(self)@ }
                })
            }),
            final(self)@ == old(self)@.levelled(levels),
            final(self)@.wf(),
    {
        let carrier = levels.carrier(self.carrier);
        if carrier && !self.carrier {
            self.new_burst();
        }
        self.carrier = carrier;
    }

    /// Forget the burst just gone, detector and all.
    pub fn restart(&mut self)
        requires
            old(self)@.wf(),
        ensures
            final(self)@ == (Hearing { carrier: false, ..old(self)@.new_burst() }),
            final(self)@.wf(),
    {
        self.new_burst();
        self.carrier = false;
    }

    fn new_burst(&mut self)
        ensures
            final(self)@ == old(self)@.new_burst(),
    {
        self.previous = None;
        self.descrambler.reset();
        self.bits = Vec::new();
        self.symbols = 0;
    }

    pub fn take_bits(&mut self) -> (bits: Vec<bool>)
        ensures
            bits@ == old(self)@.bits,
            final(self)@ == (Hearing { bits: Seq::empty(), ..old(self)@ }),
    {
        let mut bits: Vec<bool> = Vec::new();
        std::mem::swap(&mut bits, &mut self.bits);
        bits
    }

    fn hear_bit(&mut self, bit: bool)
        requires
            old(self)@.wf(),
        ensures
            final(self)@ == old(self)@.hear_bit(bit),
            final(self)@.wf(),
    {
        let out = self.descrambler.descramble(bit);
        self.bits.push(out);
    }

    /// An equalised symbol, in thousandths of a unit of the constellation, decided
    /// and turned back into bits.
    pub fn on_symbol(&mut self, at: (i32, i32))
        requires
            old(self)@.wf(),
            old(self).symbols < u64::MAX,
            -0x1000_0000 <= at.0 <= 0x1000_0000,
            -0x1000_0000 <= at.1 <= 0x1000_0000,
        ensures
            final(self)@ == old(self)@.hear(nearest(old(self)@.rate, at)),
            final(self)@.wf(),
    {
        let decided = nearest_point(self.rate, at);
        self.symbols = self.symbols + 1;
        if !self.carrier {
            return ;
        }
        let before = self.previous;
        self.previous = Some(decided);
        match before {
            None => {},
            Some(previous) => {
                let change: usize = ((decided.eighths + 8 - previous.eighths) % 8) as usize;
                let tribit: u8 = TURN_TRIBIT[change];
                proof {
                    reveal_with_fuel(Hearing::hear_bits, 5);
                    let bits = bits_of(self.rate, change as int, decided.outer);
                    assert(bits.take(0) =~= Seq::empty());
                    if self.rate is R9600 {
                        assert(bits.drop_last().drop_last().drop_last().drop_last()
                            =~= Seq::empty());
                    } else if self.rate is R7200 {
                        assert(bits.drop_last().drop_last().drop_last() =~= Seq::empty());
                    } else {
                        assert(bits.drop_last().drop_last() =~= Seq::empty());
                    }
                }
                match self.rate {
                    Rate::R9600 => {
                        self.hear_bit(decided.outer);
                        self.hear_bit(tribit / 4 == 1);
                        self.hear_bit(tribit / 2 % 2 == 1);
                        self.hear_bit(tribit % 2 == 1);
                    },
                    Rate::R7200 => {
                        self.hear_bit(tribit / 4 == 1);
                        self.hear_bit(tribit / 2 % 2 == 1);
                        self.hear_bit(tribit % 2 == 1);
                    },
                    Rate::R4800 => {
                        self.hear_bit(tribit / 4 == 1);
                        self.hear_bit(tribit / 2 % 2 == 1);
                    },
                }
            },
        }
    }
}

/// The bits of a symbol come back from the turn and the ring they asked for, and at
/// 4800 every turn is a quarter turn.
pub proof fn a_symbol_stands_for_its_bits(rate: Rate, bits: Seq<bool>)
    requires
        bits.len() == rate.width(),
    ensures
        0 <= turn_of(rate, bits) < 8,
        rate is R4800 ==> turn_of(rate, bits) % 2 == 0,
        bits_of(rate, turn_of(rate, bits), quadbit(rate, bits).0) == bits,
{
    let (_, q2, q3, q4) = quadbit(rate, bits);
    the_tables_and_their_reverses_agree(4 * bit(q2) + 2 * bit(q3) + bit(q4), 0);
    assert(bits_of(rate, turn_of(rate, bits), quadbit(rate, bits).0) =~= bits);
}

/// A receiver that knows the transmitter's last point and has heard its last
/// twenty-three bits.
pub open spec fn in_step(tx: Sending, rx: Hearing) -> bool {
    &&& rx.carrier
    &&& rx.rate == tx.rate
    &&& rx.previous matches Some(p) && p.eighths == tx.point.eighths
    &&& rx.descrambler.register == tx.scrambler.register
    &&& rx.descrambler.taps() == tx.scrambler.taps()
}

/// The bits a transmitter takes, of those queued and of the ones after them.
pub open spec fn taken(s: Sending, ones: bool, n: nat) -> Seq<bool>
    decreases n,
{
    if n == 0 {
        Seq::empty()
    } else {
        taken(s, ones, (n - 1) as nat).push(s.bits_gone(ones, (n - 1) as nat).next_data(ones))
    }
}

proof fn lemma_heard(tx: Sending, rx: Hearing, ones: bool, n: nat)
    requires
        rx.descrambler.register == tx.scrambler.register,
        rx.descrambler.taps() == tx.scrambler.taps(),
    ensures
        tx.line_bits(ones, n).len() == n,
        ({
            let heard = rx.hear_bits(tx.line_bits(ones, n));
            &&& heard.bits == rx.bits + taken(tx, ones, n)
            &&& heard.descrambler.register == tx.bits_gone(ones, n).scrambler.register
            &&& heard.descrambler.taps() == tx.scrambler.taps()
            &&& heard.carrier == rx.carrier
            &&& heard.rate == rx.rate
            &&& heard.previous == rx.previous
        }),
        tx.bits_gone(ones, n).scrambler.taps() == tx.scrambler.taps(),
    decreases n,
{
    if n > 0 {
        lemma_heard(tx, rx, ones, (n - 1) as nat);
        let line = tx.line_bits(ones, n);
        assert(line.drop_last() =~= tx.line_bits(ones, (n - 1) as nat));
        assert(rx.hear_bits(line).bits =~= rx.bits + taken(tx, ones, n));
    } else {
        assert(rx.bits + taken(tx, ones, 0) =~= rx.bits);
    }
}

/// What is sent is what is received: a symbol coded as data, heard exactly by a
/// receiver in step with the transmitter, gives back the bits it carried, at every
/// rate, and leaves the two in step.
pub proof fn what_is_sent_is_received(tx: Sending, rx: Hearing, ones: bool)
    requires
        tx.wf(),
        rx.wf(),
        in_step(tx, rx),
        tx.rate is R4800 ==> tx.point.eighths % 2 == 0,
    ensures
        ({
            let sent = tx.coded(ones);
            let heard = rx.hear(nearest(rx.rate, exact(sent.point)));
            &&& nearest(rx.rate, exact(sent.point)) == sent.point
            &&& heard.bits == rx.bits + taken(tx, ones, tx.rate.width())
            &&& in_step(sent, heard)
            &&& tx.rate is R4800 ==> sent.point.eighths % 2 == 0
        }),
{
    let width = tx.rate.width();
    let bits = tx.line_bits(ones, width);
    let sent = tx.coded(ones);
    lemma_kept(tx, ones, width);
    let here = Hearing { symbols: rx.symbols + 1, previous: Some(sent.point), ..rx };
    lemma_heard(tx, here, ones, width);
    a_symbol_stands_for_its_bits(tx.rate, bits);
    let i = if tx.rate is R4800 {
        sent.point.eighths as int / 2
    } else if sent.point.outer {
        sent.point.eighths + 8
    } else {
        sent.point.eighths as int
    };
    assert(tx.rate.nth(i) == sent.point);
    lemma_exact(tx.rate, i);
    assert((sent.point.eighths + 8 - tx.point.eighths) % 8 == turn_of(tx.rate, bits));
}

} // verus!
