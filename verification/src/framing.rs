//! Start-stop (asynchronous) character framing.
use crate::bits::{lemma_lsb_index, lemma_lsb_len, lsb, put};
use vstd::arithmetic::power2::{lemma2_to64, lemma_pow2_pos, lemma_pow2_unfold, pow2};
use vstd::prelude::*;

verus! {

/// Where in a character the line is.
#[derive(Debug, Clone, Copy, PartialEq, Eq, Structural)]
pub enum State {
    Idle,
    ConfirmStart,
    Data,
    Stop,
}

/// Recovers 8N1-style characters from a sliced baseband level.
///
/// Async framing does not need a continuously-tracked bit clock: the line idles at
/// mark and every character re-synchronises on its own start bit, exactly as a UART
/// does. What it does need is rejection of glitches that look like start bits, so a
/// candidate edge is confirmed at the half-bit point before the character is
/// accepted, and the stop bit must come back as mark.
#[derive(Debug, Clone, Copy, PartialEq, Eq, Structural)]
pub struct AsyncFramer {
    pub baud: u32,
    pub fs: u32,
    pub data_bits: u32,
    pub state: State,
    /// Samples since the edge that began the character.
    pub since_edge: u64,
    pub next_bit: u32,
    pub value: u32,
    pub prev: i32,
    /// Characters whose stop bit was not mark.
    pub framing_errors: u64,
    /// Level of the most recently sampled data bit, for display. Set at each bit
    /// centre and cleared when read, so a scope sees one entry per bit.
    pub sampled: Option<i32>,
}

impl AsyncFramer {
    pub open spec fn wf(self) -> bool {
        &&& 0 < self.baud
        &&& 0 < self.fs
        &&& 5 <= self.data_bits <= 8
        &&& self.next_bit <= self.data_bits
        &&& self.state == State::Data ==> self.next_bit < self.data_bits
        &&& self.value < pow2(self.next_bit as nat)
        &&& self.since_edge <= 10 * self.fs + match self.state {
            State::ConfirmStart => 0int,
            State::Data => self.next_bit + 1,
            State::Stop => self.data_bits + 1,
            State::Idle => self.data_bits + 2,
        }
    }

    /// Whether so many samples past the edge are so many half bits past it.
    pub open spec fn past(self, samples: int, half_bits: int) -> bool {
        2 * samples * self.baud >= self.fs * half_bits
    }

    /// A sample with a carrier: the framer after it, and the character it completes.
    pub open spec fn hear(self, level: i32) -> (AsyncFramer, Option<u8>) {
        let now = AsyncFramer { prev: level, since_edge: (self.since_edge + 1) as u64, ..self };
        match self.state {
            State::Idle => (
                // A start bit is a mark-to-space transition on an idle line.
                if self.prev > 0 && level <= 0 {
                    AsyncFramer { prev: level, state: State::ConfirmStart, since_edge: 0, ..self }
                } else {
                    AsyncFramer { prev: level, ..self }
                },
                None,
            ),
            State::ConfirmStart => (
                if !self.past(self.since_edge + 1, 1) {
                    now
                } else if level > 0 {
                    // A glitch, not a start bit.
                    AsyncFramer { state: State::Idle, ..now }
                } else {
                    AsyncFramer { state: State::Data, next_bit: 0, value: 0, ..now }
                },
                None,
            ),
            // Bit n is sampled at its centre: a bit and a half past the edge, then one
            // bit time per bit after that.
            State::Data => (
                if !self.past(self.since_edge + 1, 3 + 2 * self.next_bit) {
                    now
                } else {
                    AsyncFramer {
                        state: if self.next_bit + 1 >= self.data_bits {
                            State::Stop
                        } else {
                            State::Data
                        },
                        next_bit: (self.next_bit + 1) as u32,
                        value: (self.value + if level > 0 {
                            pow2(self.next_bit as nat) as int
                        } else {
                            0
                        }) as u32,
                        sampled: Some(level),
                        ..now
                    }
                },
                None,
            ),
            State::Stop => if !self.past(self.since_edge + 1, 3 + 2 * self.data_bits) {
                (now, None)
            } else if level > 0 {
                (AsyncFramer { state: State::Idle, ..now }, Some(self.value as u8))
            } else {
                (
                    AsyncFramer {
                        state: State::Idle,
                        framing_errors: (self.framing_errors + 1) as u64,
                        ..now
                    },
                    None,
                )
            },
        }
    }

    /// A sample, with or without a carrier. Losing the carrier drops whatever
    /// character was being read.
    pub open spec fn fed(self, level: i32, carrier: bool) -> (AsyncFramer, Option<u8>) {
        if carrier {
            self.hear(level)
        } else {
            (AsyncFramer { state: State::Idle, prev: level, ..self }, None)
        }
    }

    /// A framer of characters of so many bits, on samples at `fs` of a line at `baud`.
    pub fn new(baud: u32, fs: u32, data_bits: u32) -> (framer: Self)
        requires
            0 < baud,
            0 < fs,
            5 <= data_bits <= 8,
        ensures
            framer.wf(),
            framer == (AsyncFramer {
                baud,
                fs,
                data_bits,
                state: State::Idle,
                since_edge: 0,
                next_bit: 0,
                value: 0,
                prev: 1,
                framing_errors: 0,
                sampled: None,
            }),
    {
        proof {
            lemma2_to64();
        }
        AsyncFramer {
            baud,
            fs,
            data_bits,
            state: State::Idle,
            since_edge: 0,
            next_bit: 0,
            value: 0,
            prev: 1,
            framing_errors: 0,
            sampled: None,
        }
    }

    fn is_past(&self, samples: u64, half_bits: u32) -> (past: bool)
        requires
            samples <= 10 * self.fs + 16,
            half_bits <= 19,
        ensures
            past == self.past(samples as int, half_bits as int),
    {
        let (samples, baud, fs): (u128, u128, u128) = (
            samples as u128,
            self.baud as u128,
            self.fs as u128,
        );
        assert(0 <= 2 * samples * baud <= 2 * 50_000_000_000 * 4_294_967_295) by (nonlinear_arith)
            requires
                0 <= samples <= 50_000_000_000,
                0 <= baud <= 4_294_967_295,
        ;
        let half_bits: u128 = half_bits as u128;
        assert(0 <= fs * half_bits <= 19 * 4_294_967_295) by (nonlinear_arith)
            requires
                0 <= half_bits <= 19,
                0 <= fs <= 4_294_967_295,
        ;
        2 * samples * baud >= fs * half_bits
    }

    /// Feed one sample of sliced level (above 0 is mark) plus the carrier state.
    /// Returns a character once a full frame has been validated.
    pub fn feed(&mut self, level: i32, carrier: bool) -> (out: Option<u8>)
        requires
            old(self).wf(),
            old(self).framing_errors < u64::MAX,
        ensures
            final(self).wf(),
            (*final(self), out) == old(self).fed(level, carrier),
    {
        proof {
            lemma2_to64();
            self.lemma_kept(level, carrier);
        }
        if !carrier {
            self.state = State::Idle;
            self.prev = level;
            return None;
        }
        let mut out = None;
        match self.state {
            State::Idle => {
                if self.prev > 0 && level <= 0 {
                    self.state = State::ConfirmStart;
                    self.since_edge = 0;
                }
            },
            State::ConfirmStart => {
                self.since_edge = self.since_edge + 1;
                if self.is_past(self.since_edge, 1) {
                    if level > 0 {
                        self.state = State::Idle;
                    } else {
                        self.state = State::Data;
                        self.next_bit = 0;
                        self.value = 0;
                    }
                }
            },
            State::Data => {
                self.since_edge = self.since_edge + 1;
                if self.is_past(self.since_edge, 3 + 2 * self.next_bit) {
                    self.sampled = Some(level);
                    if level > 0 {
                        self.value = self.value + weight(self.next_bit);
                    }
                    self.next_bit = self.next_bit + 1;
                    if self.next_bit >= self.data_bits {
                        self.state = State::Stop;
                    }
                }
            },
            State::Stop => {
                self.since_edge = self.since_edge + 1;
                if self.is_past(self.since_edge, 3 + 2 * self.data_bits) {
                    if level > 0 {
                        out = Some(self.value as u8);
                    } else {
                        self.framing_errors = self.framing_errors + 1;
                    }
                    self.state = State::Idle;
                }
            },
        }
        self.prev = level;
        out
    }

    /// Level of the data bit sampled last, if it has not been read. Cleared by
    /// reading, so a display receives exactly one value per recovered bit.
    pub fn take_sampled(&mut self) -> (sampled: Option<i32>)
        ensures
            sampled == old(self).sampled,
            *final(self) == (AsyncFramer { sampled: None, ..*old(self) }),
    {
        let sampled = self.sampled;
        self.sampled = None;
        sampled
    }

    /// Back to an idle line.
    pub fn reset(&mut self)
        ensures
            *final(self) == (AsyncFramer {
                state: State::Idle,
                prev: 1,
                sampled: None,
                ..*old(self)
            }),
            old(self).wf() ==> final(self).wf(),
    {
        self.state = State::Idle;
        self.prev = 1;
        self.sampled = None;
    }

    /// A sample keeps what holds of a framer.
    proof fn lemma_kept(self, level: i32, carrier: bool)
        requires
            self.wf(),
        ensures
            self.fed(level, carrier).0.wf(),
            self.state == State::Data && level > 0 ==> self.value + pow2(self.next_bit as nat)
                <= 255,
    {
        lemma2_to64();
        let t = self.since_edge + 1;
        let fs = self.fs as int;
        if !self.past(t, 19) {
            assert(t <= 10 * fs) by (nonlinear_arith)
                requires
                    2 * t * self.baud < fs * 19,
                    self.baud >= 1,
                    t >= 1,
                    fs >= 1,
            ;
        }
        assert(forall|h: int| #![trigger self.past(t, h)] h <= 19 && self.past(t, 19) ==> self.past(
            t,
            h,
        )) by {
            assert forall|h: int| #![trigger self.past(t, h)] h <= 19 && self.past(t, 19) implies self.past(
                t,
                h,
            ) by {
                assert(fs * h <= fs * 19) by (nonlinear_arith)
                    requires
                        h <= 19,
                        fs >= 1,
                ;
            }
        }
        assert(self.next_bit <= 8);
    }
}

/// What a bit is worth, the first sent worth least.
fn weight(bit: u32) -> (weight: u32)
    requires
        bit < 8,
    ensures
        weight == pow2(bit as nat),
{
    proof {
        lemma2_to64();
    }
    match bit {
        0 => 1,
        1 => 2,
        2 => 4,
        3 => 8,
        4 => 16,
        5 => 32,
        6 => 64,
        _ => 128,
    }
}

/// A character as it goes down the line: a start bit, the bits least significant
/// first, and a stop bit.
pub open spec fn character(value: u8, data_bits: nat) -> Seq<bool> {
    seq![false] + lsb(value as nat, data_bits) + seq![true]
}

/// Characters one after another.
pub open spec fn characters(values: Seq<u8>, data_bits: nat) -> Seq<bool>
    decreases values.len(),
{
    if values.len() == 0 {
        Seq::empty()
    } else {
        characters(values.drop_last(), data_bits) + character(values.last(), data_bits)
    }
}

/// Puts characters into start and stop bits.
#[derive(Debug, Clone, Copy, PartialEq, Eq, Structural)]
pub struct AsyncBits {
    pub data_bits: usize,
}

impl AsyncBits {
    /// Characters of so many bits.
    pub fn new(data_bits: usize) -> (framing: Self)
        requires
            5 <= data_bits <= 8,
        ensures
            framing.data_bits == data_bits,
    {
        AsyncBits { data_bits }
    }

    /// One character, framed.
    pub fn encode(&self, value: u8) -> (bits: Vec<bool>)
        requires
            self.data_bits <= 8,
        ensures
            bits@ == character(value, self.data_bits as nat),
    {
        let mut bits: Vec<bool> = Vec::new();
        bits.push(false);
        put(&mut bits, value as u32, self.data_bits);
        bits.push(true);
        assert(bits@ =~= character(value, self.data_bits as nat));
        bits
    }
}

/// Whether levels carry bits: above 0 is mark, a one. A bit lasts `fs` of what a sample
/// lasts `baud` of, and the first sample is taken so much of it into the first bit.
pub open spec fn carries(
    levels: Seq<i32>,
    bits: Seq<bool>,
    baud: int,
    fs: int,
    phase: int,
) -> bool {
    &&& phase + (levels.len() - 1) * baud < bits.len() * fs <= phase + levels.len() * baud
    &&& forall|i: int|
        0 <= i < levels.len() ==> (#[trigger] levels[i] > 0) == bits[(phase + i * baud) / fs]
}

/// A run of samples with a carrier: the framer after them, and the characters they
/// complete.
pub open spec fn all_heard(framer: AsyncFramer, levels: Seq<i32>) -> (AsyncFramer, Seq<u8>)
    decreases levels.len(),
{
    if levels.len() == 0 {
        (framer, Seq::empty())
    } else {
        let (before, characters) = all_heard(framer, levels.drop_last());
        let (after, character) = before.hear(levels.last());
        (
            after,
            match character {
                Some(character) => characters.push(character),
                None => characters,
            },
        )
    }
}

/// Whether two framers are of the same characters on the same line, and have seen as
/// many framing errors.
pub open spec fn alike(a: AsyncFramer, b: AsyncFramer) -> bool {
    &&& a.baud == b.baud
    &&& a.fs == b.fs
    &&& a.data_bits == b.data_bits
    &&& a.framing_errors == b.framing_errors
}

/// Whether a framer is on an idle line, ready for a start bit.
pub open spec fn ready(framer: AsyncFramer) -> bool {
    framer.wf() && framer.state == State::Idle && framer.prev > 0
}

/// How far the first sample of the `k`th character of a run is into its start bit.
pub open spec fn phase_of(framer: AsyncFramer, k: int) -> int {
    (-(k * (framer.data_bits + 2) * framer.fs)) % (framer.baud as int)
}

/// How far the first sample past so many half bits is past them, twice over.
pub open spec fn overshoot(framer: AsyncFramer, half_bits: int) -> int {
    (-(framer.fs * half_bits)) % (2 * framer.baud)
}

/// Whether every bit of a character is sampled while it lasts, where its first sample is
/// so far into its start bit.
pub open spec fn sampled_in_time(framer: AsyncFramer, phase: int) -> bool {
    forall|bit: int|
        0 <= bit <= framer.data_bits + 1 ==> 2 * phase + #[trigger] overshoot(framer, 1 + 2 * bit)
            < framer.fs
}

/// And of each of a run of so many characters.
pub open spec fn punctual(framer: AsyncFramer, count: nat) -> bool {
    forall|k: int| 0 <= k < count ==> sampled_in_time(framer, #[trigger] phase_of(framer, k))
}

/// The sample just heard is so many past the edge that began a character: how far
/// into it the framer is, and what it has made of it.
spec fn reading(start: AsyncFramer, now: AsyncFramer, out: Seq<u8>, value: u8, t: int) -> bool {
    let d = start.data_bits;
    let n = now.next_bit;
    &&& now.wf()
    &&& alike(start, now)
    &&& if !start.past(t, 1) {
        &&& now.state == State::ConfirmStart
        &&& now.since_edge == t
        &&& out == Seq::<u8>::empty()
    } else if !start.past(t, 3 + 2 * d) {
        &&& now.state == if n < d {
            State::Data
        } else {
            State::Stop
        }
        &&& start.past(t, 1 + 2 * n)
        &&& !start.past(t, 3 + 2 * n)
        &&& now.value == value as nat % pow2(n as nat)
        &&& now.since_edge == t
        &&& out == Seq::<u8>::empty()
    } else {
        &&& ready(now)
        &&& out == seq![(value as nat % pow2(d as nat)) as u8]
    }
}

/// What is past more half bits is past fewer.
proof fn lemma_past_less(framer: AsyncFramer, t: int, less: int, more: int)
    requires
        less <= more,
        framer.past(t, more),
    ensures
        framer.past(t, less),
{
    assert(framer.fs * less <= framer.fs * more) by (nonlinear_arith)
        requires
            less <= more,
            framer.fs >= 0,
    ;
}

/// The first sample past the middle of a bit is one of that bit, and is not past the
/// middle of the next.
proof fn lemma_middle(framer: AsyncFramer, t: int, bit: int, phase: int)
    requires
        framer.wf(),
        0 <= phase,
        0 <= bit <= framer.data_bits + 1,
        sampled_in_time(framer, phase),
        !framer.past(t - 1, 1 + 2 * bit),
        framer.past(t, 1 + 2 * bit),
    ensures
        (phase + t * framer.baud) / (framer.fs as int) == bit,
        !framer.past(t, 3 + 2 * bit),
{
    let (baud, fs) = (framer.baud as int, framer.fs as int);
    let h = 1 + 2 * bit;
    let over = 2 * t * baud - fs * h;
    assert(2 * (t - 1) * baud == 2 * t * baud - 2 * baud) by (nonlinear_arith);
    assert(0 <= over < 2 * baud);
    assert(over == overshoot(framer, h)) by {
        assert(-(fs * h) == -t * (2 * baud) + over) by (nonlinear_arith)
            requires
                over == 2 * t * baud - fs * h,
        ;
        vstd::arithmetic::div_mod::lemma_fundamental_div_mod_converse(
            -(fs * h),
            2 * baud,
            -t,
            over,
        );
    }
    assert(fs * h == fs + 2 * (fs * bit) && fs * (3 + 2 * bit) == fs * h + 2 * fs && 2 * t * baud
        == 2 * (t * baud)) by (nonlinear_arith)
        requires
            h == 1 + 2 * bit,
    ;
    let at = phase + t * baud;
    assert(0 <= at - fs * bit < fs);
    vstd::arithmetic::div_mod::lemma_fundamental_div_mod_converse(at, fs, bit, at - fs * bit);
}

/// One more bit of a number.
proof fn lemma_bit(value: u8, n: nat)
    requires
        n < 8,
    ensures
        value as nat % pow2(n + 1) == value as nat % pow2(n) + if value as nat / pow2(n) % 2 == 1 {
            pow2(n)
        } else {
            0
        },
{
    lemma_pow2_pos(n);
    lemma_pow2_unfold(n + 1);
    vstd::arithmetic::div_mod::lemma_mod_breakdown(value as int, pow2(n) as int, 2);
}

/// Whether levels are those of a character, from a sample so far into its start bit.
spec fn spells(framer: AsyncFramer, levels: Seq<i32>, value: u8, phase: int) -> bool {
    &&& framer.wf()
    &&& 0 <= phase
    &&& sampled_in_time(framer, phase)
    &&& carries(
        levels,
        character(value, framer.data_bits as nat),
        framer.baud as int,
        framer.fs as int,
        phase,
    )
}

/// A character begins with space.
proof fn lemma_first(framer: AsyncFramer, levels: Seq<i32>, value: u8, phase: int)
    requires
        spells(framer, levels, value, phase),
        levels.len() > 0,
    ensures
        levels[0] <= 0,
{
    let fs = framer.fs as int;
    assert(overshoot(framer, 1 + 2 * 0int) >= 0);
    assert(phase < fs);
    assert((phase + 0 * framer.baud) / fs == 0) by {
        vstd::arithmetic::div_mod::lemma_basic_div(phase, fs);
    }
    assert(!character(value, framer.data_bits as nat)[0]);
}

/// Past the middle of the stop bit a character is mark to its end.
proof fn lemma_last(framer: AsyncFramer, levels: Seq<i32>, value: u8, phase: int, t: int)
    requires
        spells(framer, levels, value, phase),
        0 <= t < levels.len(),
        framer.past(t, 3 + 2 * framer.data_bits),
    ensures
        levels[t] > 0,
{
    let (d, baud, fs) = (framer.data_bits as int, framer.baud as int, framer.fs as int);
    lemma_lsb_len(value as nat, d as nat);
    let at = phase + t * baud;
    assert(t * baud <= (levels.len() - 1) * baud) by (nonlinear_arith)
        requires
            t <= levels.len() - 1,
            baud >= 0,
    ;
    assert(at < (d + 2) * fs);
    assert(2 * t * baud == 2 * (t * baud) && fs * (3 + 2 * d) == 2 * (fs * (d + 1)) + fs && (d + 2)
        * fs == fs * (d + 1) + fs && fs * (d + 1) == (d + 1) * fs) by (nonlinear_arith);
    vstd::arithmetic::div_mod::lemma_fundamental_div_mod_converse(
        at,
        fs,
        d + 1,
        at - fs * (d + 1),
    );
    assert(character(value, d as nat)[d + 1]);
}

/// The first sample past a threshold falls on the bit the threshold is the middle of.
proof fn lemma_sampled(
    framer: AsyncFramer,
    levels: Seq<i32>,
    value: u8,
    phase: int,
    t: int,
    n: int,
)
    requires
        spells(framer, levels, value, phase),
        0 <= n <= framer.data_bits,
        0 <= t < levels.len(),
        !framer.past(t - 1, 3 + 2 * n),
        framer.past(t, 3 + 2 * n),
    ensures
        n < framer.data_bits ==> (levels[t] > 0) == (value as nat / pow2(n as nat) % 2 == 1),
        n == framer.data_bits ==> levels[t] > 0,
        !framer.past(t, 5 + 2 * n),
{
    let d = framer.data_bits as nat;
    lemma_lsb_len(value as nat, d);
    lemma_middle(framer, t, n + 1, phase);
    let bits = character(value, d);
    if n < d {
        lemma_lsb_index(value as nat, d, n as nat);
        assert(bits[n + 1] == lsb(value as nat, d)[n]);
    } else {
        assert(bits[(d + 1) as int]);
    }
}

/// Each sample of a character takes the framer a sample further into it.
proof fn lemma_step(
    start: AsyncFramer,
    before: AsyncFramer,
    levels: Seq<i32>,
    out: Seq<u8>,
    value: u8,
    phase: int,
    t: int,
)
    requires
        ready(start),
        spells(start, levels, value, phase),
        0 < t < levels.len(),
        reading(start, before, out, value, t - 1),
    ensures
        ({
            let (after, character) = before.hear(levels[t]);
            let heard = match character {
                Some(character) => out.push(character),
                None => out,
            };
            reading(start, after, heard, value, t)
        }),
{
    let d = start.data_bits as nat;
    let n = before.next_bit as nat;
    lemma2_to64();
    before.lemma_kept(levels[t], true);
    assert forall|h: int| before.past(t, h) == #[trigger] start.past(t, h) by {}
    if !start.past(t - 1, 1) {
        if start.past(t, 1) {
            lemma_middle(start, t, 0, phase);
            assert(levels[t] <= 0) by {
                assert(!character(value, d)[0]);
            }
            if start.past(t, (3 + 2 * d) as int) {
                lemma_past_less(start, t, 3, (3 + 2 * d) as int);
            }
        } else if start.past(t, (3 + 2 * d) as int) {
            lemma_past_less(start, t, 1, (3 + 2 * d) as int);
        }
    } else {
        lemma_on(start, t);
        if !start.past(t - 1, (3 + 2 * d) as int) {
            if start.past(t, (3 + 2 * n) as int) {
                lemma_sampled(start, levels, value, phase, t, n as int);
                if n < d {
                    lemma_bit(value, n);
                    assert(3 + 2 * (n + 1) == 5 + 2 * n);
                    if start.past(t, (3 + 2 * d) as int) {
                        lemma_past_less(start, t, (5 + 2 * n) as int, (3 + 2 * d) as int);
                    }
                }
            } else if start.past(t, (3 + 2 * d) as int) {
                lemma_past_less(start, t, (3 + 2 * n) as int, (3 + 2 * d) as int);
            }
        } else {
            lemma_last(start, levels, value, phase, t);
        }
    }
}

/// What one sample is past, the next is.
proof fn lemma_on(framer: AsyncFramer, t: int)
    ensures
        forall|h: int| #[trigger] framer.past(t - 1, h) ==> framer.past(t, h),
{
    assert(2 * (t - 1) * framer.baud <= 2 * t * framer.baud) by (nonlinear_arith)
        requires
            framer.baud >= 0,
    ;
}

/// Hearing a character, a sample at a time.
proof fn lemma_reading(start: AsyncFramer, levels: Seq<i32>, value: u8, phase: int, t: int)
    requires
        ready(start),
        spells(start, levels, value, phase),
        0 <= t < levels.len(),
    ensures
        ({
            let (now, out) = all_heard(start, levels.take(t + 1));
            reading(start, now, out, value, t)
        }),
    decreases t,
{
    let prefix = levels.take(t + 1);
    assert(prefix.drop_last() =~= levels.take(t));
    assert(prefix.last() == levels[t]);
    if t == 0 {
        assert(levels.take(0) =~= Seq::empty());
        lemma_first(start, levels, value, phase);
        start.lemma_kept(levels[0], true);
        assert(2 * 0 * start.baud == 0 && start.fs * 1 == start.fs) by (nonlinear_arith);
        assert(!start.past(0, 1));
    } else {
        lemma_reading(start, levels, value, phase, t - 1);
        let (before, out) = all_heard(start, levels.take(t));
        lemma_step(start, before, levels, out, value, phase, t);
    }
}

/// The last sample of a character is past the middle of its stop bit.
proof fn lemma_reaches_the_stop(framer: AsyncFramer, levels: Seq<i32>, value: u8, phase: int)
    requires
        spells(framer, levels, value, phase),
    ensures
        levels.len() > 0,
        framer.past(levels.len() - 1, 3 + 2 * framer.data_bits),
{
    let (d, baud, fs) = (framer.data_bits as int, framer.baud as int, framer.fs as int);
    lemma_lsb_len(value as nat, d as nat);
    let h = 3 + 2 * d;
    let over = overshoot(framer, h);
    assert(2 * phase + overshoot(framer, 1 + 2 * (d + 1)) < fs);
    // The first sample past that middle, and where it is.
    let first = -((-(fs * h)) / (2 * baud));
    vstd::arithmetic::div_mod::lemma_fundamental_div_mod(-(fs * h), 2 * baud);
    assert(2 * first * baud == fs * h + over) by (nonlinear_arith)
        requires
            -(fs * h) == (2 * baud) * ((-(fs * h)) / (2 * baud)) + over,
            first == -((-(fs * h)) / (2 * baud)),
    ;
    assert(fs * h + fs == 2 * ((d + 2) * fs)) by (nonlinear_arith)
        requires
            h == 3 + 2 * d,
    ;
    assert(2 * first * baud == 2 * (first * baud)) by (nonlinear_arith);
    assert(phase + first * baud < (d + 2) * fs);
    let len = levels.len() as int;
    assert(first < len) by (nonlinear_arith)
        requires
            phase + first * baud < phase + len * baud,
            baud > 0,
    ;
    assert(over >= 0);
    assert(2 * (len - 1) * baud >= 2 * first * baud) by (nonlinear_arith)
        requires
            first <= len - 1,
            baud > 0,
    ;
    assert(fs * h >= 3 * fs) by (nonlinear_arith)
        requires
            h >= 3,
            fs > 0,
    ;
    assert(len > 0) by (nonlinear_arith)
        requires
            2 * first * baud > 0,
            first < len,
            baud > 0,
    ;
}

/// A run of samples is heard a part at a time.
proof fn lemma_parts(framer: AsyncFramer, a: Seq<i32>, b: Seq<i32>)
    ensures
        ({
            let (between, first) = all_heard(framer, a);
            let (after, second) = all_heard(between, b);
            all_heard(framer, a + b) == (after, first + second)
        }),
    decreases b.len(),
{
    if b.len() == 0 {
        assert(a + b =~= a);
        let (between, first) = all_heard(framer, a);
        assert(first + Seq::<u8>::empty() =~= first);
    } else {
        lemma_parts(framer, a, b.drop_last());
        assert((a + b).drop_last() =~= a + b.drop_last());
        assert((a + b).last() == b.last());
        let (between, first) = all_heard(framer, a);
        let (almost, second) = all_heard(between, b.drop_last());
        let (after, character) = almost.hear(b.last());
        if let Some(character) = character {
            assert((first + second).push(character) =~= first + second.push(character));
        }
    }
}

/// Samples of so many bits.
proof fn lemma_split(bits: int, baud: int, fs: int) -> (samples: int)
    requires
        0 <= bits,
        0 < baud,
        0 < fs,
    ensures
        samples >= 0,
        samples * baud == bits * fs + (-(bits * fs)) % baud,
        0 <= (-(bits * fs)) % baud < baud,
{
    let samples = -((-(bits * fs)) / baud);
    vstd::arithmetic::div_mod::lemma_fundamental_div_mod(-(bits * fs), baud);
    let rest = (-(bits * fs)) % baud;
    assert(samples * baud == bits * fs + rest) by (nonlinear_arith)
        requires
            -(bits * fs) == baud * ((-(bits * fs)) / baud) + rest,
            samples == -((-(bits * fs)) / baud),
    ;
    assert(samples >= 0) by (nonlinear_arith)
        requires
            samples * baud >= 0,
            samples * baud == bits * fs + rest,
            baud > 0,
            bits * fs >= 0,
    {
        assert(bits * fs >= 0);
    }
    samples
}

/// The samples of two runs of bits are those of one and those of the other.
proof fn lemma_carried_apart(
    levels: Seq<i32>,
    a: Seq<bool>,
    b: Seq<bool>,
    baud: int,
    fs: int,
) -> (split: int)
    requires
        0 < baud,
        0 < fs,
        carries(levels, a + b, baud, fs, 0),
    ensures
        0 <= split <= levels.len(),
        carries(levels.take(split), a, baud, fs, 0),
        carries(levels.skip(split), b, baud, fs, (-(a.len() * fs)) % baud),
{
    let split = lemma_split(a.len() as int, baud, fs);
    let phase = (-(a.len() * fs)) % baud;
    let len = levels.len() as int;
    assert((a.len() + b.len()) * fs == a.len() * fs + b.len() * fs && 0 <= b.len() * fs)
        by (nonlinear_arith)
        requires
            fs > 0,
    ;
    assert((split - 1) * baud == split * baud - baud && (len - split) * baud == len * baud - split
        * baud && (len - split - 1) * baud == (len - 1) * baud - split * baud) by (nonlinear_arith);
    assert(split <= len) by (nonlinear_arith)
        requires
            (split - 1) * baud < len * baud,
            baud > 0,
    ;
    let (first, second) = (levels.take(split), levels.skip(split));
    assert forall|i: int| 0 <= i < first.len() implies (#[trigger] first[i] > 0) == a[(0 + i
        * baud) / fs] by {
        assert(levels[i] == first[i]);
        let at = (0 + i * baud) / fs;
        assert(0 <= i * baud <= (split - 1) * baud) by (nonlinear_arith)
            requires
                0 <= i <= split - 1,
                baud > 0,
        ;
        lemma_within(i * baud, a.len() as int, fs);
    }
    assert forall|i: int| 0 <= i < second.len() implies (#[trigger] second[i] > 0) == b[(phase + i
        * baud) / fs] by {
        assert(levels[i + split] == second[i]);
        assert((i + split) * baud == i * baud + split * baud && 0 <= i * baud <= (len - split - 1)
            * baud) by (nonlinear_arith)
            requires
                0 <= i <= len - split - 1,
                baud > 0,
        ;
        let at = phase + i * baud;
        lemma_within(at, b.len() as int, fs);
        vstd::arithmetic::div_mod::lemma_hoist_over_denominator(at, a.len() as int, fs as nat);
        assert(0 + (i + split) * baud == at + a.len() * fs);
        assert((a + b)[at / fs + a.len()] == b[at / fs]);
    }
    split
}

/// A time before the end of so many bits is in one of them.
proof fn lemma_within(at: int, bits: int, fs: int)
    requires
        0 <= at < bits * fs,
        0 < fs,
    ensures
        0 <= at / fs < bits,
{
    vstd::arithmetic::div_mod::lemma_fundamental_div_mod(at, fs);
    let q = at / fs;
    assert(0 <= q < bits) by (nonlinear_arith)
        requires
            0 <= at < bits * fs,
            at == fs * q + at % fs,
            0 <= at % fs < fs,
    ;
}

proof fn lemma_characters_len(values: Seq<u8>, data_bits: nat)
    ensures
        characters(values, data_bits).len() == values.len() * (data_bits + 2),
    decreases values.len(),
{
    if values.len() > 0 {
        lemma_characters_len(values.drop_last(), data_bits);
        lemma_lsb_len(values.last() as nat, data_bits);
        assert((values.len() - 1) * (data_bits + 2) + (data_bits + 2) == values.len() * (data_bits
            + 2)) by (nonlinear_arith);
    }
}

/// What is framed is read: characters sent one after another down a clean line are the
/// characters heard, with no framing error, and the framer is ready for more. A sample
/// carries the bit that is on the line when it is taken, and all that is asked of the
/// rates is that the framer takes each bit's sample while that bit is on the line. Of a
/// character only the bits that the framing has room for are sent.
pub proof fn what_is_framed_is_read(framer: AsyncFramer, levels: Seq<i32>, values: Seq<u8>)
    requires
        ready(framer),
        punctual(framer, values.len()),
        carries(
            levels,
            characters(values, framer.data_bits as nat),
            framer.baud as int,
            framer.fs as int,
            0,
        ),
    ensures
        ({
            let (after, heard) = all_heard(framer, levels);
            &&& heard == values.map_values(
                |value: u8| (value as nat % pow2(framer.data_bits as nat)) as u8,
            )
            &&& alike(framer, after)
            &&& ready(after)
        }),
    decreases values.len(),
{
    let (d, baud, fs) = (framer.data_bits as nat, framer.baud as int, framer.fs as int);
    let kept = |value: u8| (value as nat % pow2(framer.data_bits as nat)) as u8;
    if values.len() == 0 {
        assert(levels.len() == 0) by (nonlinear_arith)
            requires
                (levels.len() - 1) * baud < 0 * fs,
                baud > 0,
        ;
        assert(values.map_values(kept) =~= Seq::empty());
    } else {
        let sent = values.drop_last();
        let value = values.last();
        let k = sent.len() as int;
        let (a, b) = (characters(sent, d), character(value, d));
        lemma_characters_len(sent, d);
        let split = lemma_carried_apart(levels, a, b, baud, fs);
        let (first, second) = (levels.take(split), levels.skip(split));
        assert(levels =~= first + second);
        what_is_framed_is_read(framer, first, sent);
        lemma_parts(framer, first, second);
        let (between, heard) = all_heard(framer, first);
        let phase = phase_of(framer, k);
        assert(phase == (-(a.len() * fs)) % baud);
        assert(sampled_in_time(framer, phase));
        assert forall|h: int| overshoot(between, h) == #[trigger] overshoot(framer, h) by {}
        assert forall|bit: int| 0 <= bit <= between.data_bits + 1 implies 2 * phase
            + #[trigger] overshoot(between, 1 + 2 * bit) < between.fs by {
            assert(2 * phase + overshoot(framer, 1 + 2 * bit) < framer.fs);
        }
        assert(0 <= phase) by {
            vstd::arithmetic::div_mod::lemma_mod_bound(-(a.len() * fs), baud);
        }
        lemma_reaches_the_stop(between, second, value, phase);
        let last = second.len() - 1;
        lemma_reading(between, second, value, phase, last);
        assert(second.take(last + 1) =~= second);
        lemma_past_less(between, last, 1, (3 + 2 * d) as int);
        assert(values.map_values(kept) =~= sent.map_values(kept).push(kept(value)));
        assert(heard + seq![kept(value)] =~= heard.push(kept(value)));
    }
}

/// Every bit is sampled in time on a line that is sampled often enough. Two samples to a
/// bit are enough for a character that begins with a sample, and for any run of them
/// where every bit has a whole number of samples. For any run at all, with both rates
/// counted in some unit that they share, four are, and three units fewer.
pub proof fn a_line_sampled_often_is_punctual(framer: AsyncFramer, count: nat, unit: int)
    requires
        0 < framer.baud,
        0 < unit,
        framer.baud as int % unit == 0,
        framer.fs as int % unit == 0,
    ensures
        count <= 1 && framer.fs >= 2 * framer.baud ==> punctual(framer, count),
        framer.fs >= 2 * framer.baud && framer.fs as int % framer.baud as int == 0 ==> punctual(
            framer,
            count,
        ),
        framer.fs + 3 * unit > 4 * framer.baud ==> punctual(framer, count),
{
    let (baud, fs) = (framer.baud as int, framer.fs as int);
    assert forall|k: int| 0 <= k < count implies {
        let phase = #[trigger] phase_of(framer, k);
        &&& count <= 1 && fs >= 2 * baud ==> sampled_in_time(framer, phase)
        &&& fs >= 2 * baud && fs % baud == 0 ==> sampled_in_time(framer, phase)
        &&& fs + 3 * unit > 4 * baud ==> sampled_in_time(framer, phase)
    } by {
        let phase = phase_of(framer, k);
        lemma_unit(k * (framer.data_bits + 2), fs, baud, unit);
        if fs % baud == 0 {
            vstd::arithmetic::div_mod::lemma_mod_self_0(baud);
            lemma_unit(k * (framer.data_bits + 2), fs, baud, baud);
        }
        if count <= 1 {
            assert(-(k * (framer.data_bits + 2) * fs) == 0) by (nonlinear_arith)
                requires
                    k == 0,
            ;
            vstd::arithmetic::div_mod::lemma_small_mod(0, baud as nat);
        }
        assert forall|bit: int| 0 <= bit <= framer.data_bits + 1 implies {
            let over = #[trigger] overshoot(framer, 1 + 2 * bit);
            &&& over < 2 * baud
            &&& over <= 2 * baud - unit
        } by {
            assert((2 * baud) % unit == 0) by {
                vstd::arithmetic::div_mod::lemma_mul_mod_noop_right(2, baud, unit);
                assert(2 * 0 == 0);
                vstd::arithmetic::div_mod::lemma_small_mod(0, unit as nat);
            }
            lemma_unit(1 + 2 * bit, fs, 2 * baud, unit);
            assert(fs * (1 + 2 * bit) == (1 + 2 * bit) * fs) by (nonlinear_arith);
        }
    }
}

/// What is left over of a rate by another is a whole number of any unit both are.
proof fn lemma_unit(n: int, rate: int, by: int, unit: int)
    requires
        0 < by,
        0 < unit,
        rate % unit == 0,
        by % unit == 0,
    ensures
        0 <= (-(n * rate)) % by <= by - unit,
{
    let (r, b) = (rate / unit, by / unit);
    vstd::arithmetic::div_mod::lemma_fundamental_div_mod(rate, unit);
    vstd::arithmetic::div_mod::lemma_fundamental_div_mod(by, unit);
    assert(rate == unit * r && by == unit * b);
    let rest = (-(n * rate)) % by;
    let q = (-(n * rate)) / by;
    vstd::arithmetic::div_mod::lemma_fundamental_div_mod(-(n * rate), by);
    let whole = -(n * r) - b * q;
    assert(rest == unit * whole) by (nonlinear_arith)
        requires
            -(n * rate) == by * q + rest,
            rate == unit * r,
            by == unit * b,
            whole == -(n * r) - b * q,
    ;
    assert(whole <= b - 1) by (nonlinear_arith)
        requires
            unit * whole < unit * b,
            unit > 0,
    ;
    assert(unit * whole <= unit * b - unit) by (nonlinear_arith)
        requires
            whole <= b - 1,
            unit > 0,
    ;
}

/// Losing the carrier drops the character being read: nothing comes out, and nothing
/// does until an idle line has been left again.
pub proof fn loss_of_carrier_aborts_a_character(framer: AsyncFramer, level: i32, next: i32)
    ensures
        framer.fed(level, false).1 is None,
        framer.fed(level, false).0.state == State::Idle,
        framer.fed(level, false).0.fed(next, true).1 is None,
{
}

/// A start bit that is over by its middle is a glitch, and begins no character.
pub proof fn a_glitch_is_no_start_bit(framer: AsyncFramer, level: i32)
    requires
        framer.state == State::ConfirmStart,
        framer.past(framer.since_edge + 1, 1),
        level > 0,
    ensures
        framer.hear(level).0.state == State::Idle,
        framer.hear(level).1 is None,
{
}

/// A character is a space, its bits with the lowest first, and a mark.
pub proof fn a_character_goes_lowest_bit_first(value: u8)
    ensures
        ({
            let bits = character(value, 8);
            &&& bits.len() == 10
            &&& !bits[0]
            &&& bits[1] == (value % 2 == 1)
            &&& bits[2] == (value / 2 % 2 == 1)
            &&& bits[3] == (value / 4 % 2 == 1)
            &&& bits[4] == (value / 8 % 2 == 1)
            &&& bits[5] == (value / 16 % 2 == 1)
            &&& bits[6] == (value / 32 % 2 == 1)
            &&& bits[7] == (value / 64 % 2 == 1)
            &&& bits[8] == (value / 128 % 2 == 1)
            &&& bits[9]
        }),
{
    lemma2_to64();
    lemma_lsb_len(value as nat, 8);
    lemma_lsb_index(value as nat, 8, 0);
    lemma_lsb_index(value as nat, 8, 1);
    lemma_lsb_index(value as nat, 8, 2);
    lemma_lsb_index(value as nat, 8, 3);
    lemma_lsb_index(value as nat, 8, 4);
    lemma_lsb_index(value as nat, 8, 5);
    lemma_lsb_index(value as nat, 8, 6);
    lemma_lsb_index(value as nat, 8, 7);
}

/// A character begins where an idle line goes from mark to space and nowhere else. Half a
/// bit later it is confirmed, or was a glitch.
pub proof fn a_character_begins_at_an_edge(framer: AsyncFramer, level: i32)
    requires
        framer.wf(),
    ensures
        framer.state == State::Idle ==> {
            let next = framer.hear(level).0;
            &&& next.state == State::ConfirmStart <==> framer.prev > 0 && level <= 0
            &&& next.state == State::ConfirmStart || next.state == State::Idle
            &&& next.state == State::ConfirmStart ==> next.since_edge == 0
        },
        framer.state == State::ConfirmStart ==> {
            let next = framer.hear(level).0;
            let half = 2 * (framer.since_edge + 1) * framer.baud >= framer.fs;
            next.state == (if !half {
                State::ConfirmStart
            } else if level > 0 {
                State::Idle
            } else {
                State::Data
            })
        },
        framer.hear(level).0.prev == level,
{
}

/// A stop bit of mark gives the character, and one of space gives nothing and is counted.
pub proof fn a_stop_bit_has_to_be_mark(framer: AsyncFramer, level: i32)
    requires
        framer.wf(),
        framer.framing_errors < u64::MAX,
    ensures
        ({
            let (next, out) = framer.hear(level);
            let due = framer.state == State::Stop && 2 * (framer.since_edge + 1) * framer.baud
                >= framer.fs * (3 + 2 * framer.data_bits);
            &&& out == (if due && level > 0 {
                Some(framer.value as u8)
            } else {
                None
            })
            &&& next.framing_errors == framer.framing_errors + (if due && level <= 0 {
                1int
            } else {
                0
            })
            &&& due ==> next.state == State::Idle
        }),
{
}

} // verus!
