//! The V.32 start-up procedure.
//!
//! Two modems that have never met have to agree a data rate, train an
//! equaliser at each end and an echo canceller at each end, and measure how
//! long the line takes to carry a signal there and back. None of that can use
//! a demodulator, because the demodulator is one of the things being set up,
//! so the whole exchange is conducted in fixed patterns of constellation
//! states that can be recognised as waveforms.
//!
//! The round trip is measured directly. Each modem reverses the phase of what
//! it is sending at a moment of its own choosing, and starts a clock; the far
//! end, on hearing that reversal, reverses its own transmission exactly 64
//! symbols later; the first modem stops its clock when that comes back.
use crate::scrambling::{shift_in, shifted_in};
use crate::v32::{Mode, Receiver, Signal, Transmitter};
use vstd::prelude::*;

verus! {

/// What the line is carrying, as far as the start-up needs to know: the
/// distinctions are all between waveforms rather than between messages.
#[derive(Debug, Clone, Copy, PartialEq, Eq, Structural)]
pub enum Heard {
    /// Not enough signal to say anything.
    Nothing,
    /// The answering tone at 2100 Hz.
    AnswerTone,
    /// A repeated state: the bare carrier.
    Carrier,
    /// An alternation between opposite states: sidebands at 600 and 3000 with
    /// the carrier suppressed.
    Alternation,
    /// An alternation between states a quarter turn apart: the same sidebands
    /// but with the carrier still standing.
    Conditioning,
    /// Energy across the band and no line standing out.
    Spread,
}

/// The amplitudes the start-up signals are recognised by, in millionths of full
/// scale: four spectral lines, and the mean level of the whole signal.
#[derive(Debug, Clone, Copy, PartialEq, Eq, Structural)]
pub struct Listener {
    /// 2100 Hz.
    pub answer: u32,
    /// 1800 Hz.
    pub carrier: u32,
    /// 600 Hz.
    pub low: u32,
    /// 3000 Hz.
    pub high: u32,
    pub level: u32,
}

/// Level below which the line is carrying nothing, in millionths.
pub const QUIET: u32 = 20000;

impl Listener {
    /// A line stands where it is seven tenths of the mean level.
    pub open spec fn stands(self, amplitude: u32) -> bool {
        10 * amplitude > 7 * self.level
    }

    /// Both sidebands stand where each is half the mean level.
    pub open spec fn sidebands(self) -> bool {
        2 * self.low > self.level && 2 * self.high > self.level
    }

    /// What the amplitudes come to. The answering tone is nowhere near the
    /// others; between the rest the carrier and the sidebands decide.
    pub open spec fn classified(self) -> Heard {
        if self.level < 20000 {
            Heard::Nothing
        } else if self.stands(self.answer) {
            Heard::AnswerTone
        } else if self.stands(self.carrier) {
            if self.sidebands() {
                Heard::Conditioning
            } else {
                Heard::Carrier
            }
        } else if self.sidebands() {
            Heard::Alternation
        } else {
            Heard::Spread
        }
    }

    pub fn new() -> (listener: Listener)
        ensures
            listener == (Listener { answer: 0, carrier: 0, low: 0, high: 0, level: 0 }),
    {
        Listener { answer: 0, carrier: 0, low: 0, high: 0, level: 0 }
    }

    /// The amplitudes as they now stand.
    pub fn feed(&mut self, now: Listener)
        ensures
            *final(self) == now,
    {
        *self = now;
    }

    /// Amplitude of the bare carrier.
    pub fn carrier_amplitude(&self) -> (amplitude: u32)
        ensures
            amplitude == self.carrier,
    {
        self.carrier
    }

    pub fn level(&self) -> (level: u32)
        ensures
            level == self.level,
    {
        self.level
    }

    /// Everything is judged against the level of the whole signal rather than
    /// against an absolute, so that a quiet line and a loud one are read alike.
    pub fn classify(&self) -> (heard: Heard)
        ensures
            heard == self.classified(),
    {
        let level: u64 = self.level as u64;
        if self.level < QUIET {
            return Heard::Nothing;
        }
        if 10 * (self.answer as u64) > 7 * level {
            return Heard::AnswerTone;
        }
        let carrier = 10 * (self.carrier as u64) > 7 * level;
        let sidebands = 2 * (self.low as u64) > level && 2 * (self.high as u64) > level;
        if carrier && sidebands {
            Heard::Conditioning
        } else if carrier {
            Heard::Carrier
        } else if sidebands {
            Heard::Alternation
        } else {
            Heard::Spread
        }
    }
}

/// Which end of the call this is.
#[derive(Debug, Clone, Copy, PartialEq, Eq, Structural)]
pub enum Role {
    Calling,
    Answering,
}

impl Role {
    pub open spec fn own_mode(self) -> Mode {
        match self {
            Role::Calling => Mode::Call,
            Role::Answering => Mode::Answer,
        }
    }

    pub fn mode(self) -> (mode: Mode)
        ensures
            mode == self.own_mode(),
    {
        match self {
            Role::Calling => Mode::Call,
            Role::Answering => Mode::Answer,
        }
    }
}

/// The synchronising bits every sequence has: B7, B11 and B15.
pub open spec fn synchronises(s: u16) -> bool {
    s & 0x0111u16 == 0x0111u16
}

/// A rate signal has B0 to B3 zero.
pub open spec fn rate_like(s: u16) -> bool {
    s & 0xf000u16 == 0u16 && synchronises(s)
}

/// An E has B0 to B3 ones.
pub open spec fn end_like(s: u16) -> bool {
    s & 0xf000u16 == 0xf000u16 && synchronises(s)
}

/// The highest data rate a sequence offers, by B6, B5 and B4.
pub open spec fn rate_in(s: u16) -> u32 {
    if s & 0x0200u16 != 0u16 {
        9600
    } else if s & 0x0400u16 != 0u16 {
        4800
    } else if s & 0x0800u16 != 0u16 {
        2400
    } else {
        0
    }
}

/// Make a transmitter and receiver for one end of a V.32 call.
pub fn endpoints(role: Role) -> (ends: (Transmitter, Receiver))
    ensures
        ends.0@.wf(),
        ends.0@.scrambler.register == 0,
        ends.0@.scrambler.taps() == role.own_mode().polynomial(),
        ends.0@.quadrant == 0,
        ends.0@.pending == Seq::<bool>::empty(),
        ends.1@.wf(),
        ends.1@.descrambler.register == 0,
        ends.1@.descrambler.taps() == role.own_mode().other().polynomial(),
        ends.1@.quadrant is None,
        ends.1@.bits == Seq::<bool>::empty(),
{
    let mode = role.mode();
    (Transmitter::new(mode), Receiver::new(mode))
}

/// The sequence that offers what a modem can do.
pub open spec fn offering(bits_4800: bool, bits_9600: bool) -> u16 {
    0x0111u16 | (if bits_4800 {
        0x0400u16
    } else {
        0u16
    }) | (if bits_9600 {
        0x0200u16
    } else {
        0u16
    })
}

/// Signal that a modem sends to say what it can do.
///
/// B0 to B3 are zero and B7, B11 and B15 are one, which is what a receiver
/// synchronises on; B5 offers 4800 and B6 offers 9600.
pub fn rate_signal(bits_4800: bool, bits_9600: bool) -> (s: u16)
    ensures
        s == (0x0111u16 | (if bits_4800 {
            0x0400u16
        } else {
            0u16
        }) | (if bits_9600 {
            0x0200u16
        } else {
            0u16
        })),
        s == offering(bits_4800, bits_9600),
{
    let slow: u16 = if bits_4800 {
        0x0400
    } else {
        0
    };
    let fast: u16 = if bits_9600 {
        0x0200
    } else {
        0
    };
    0x0111 | slow | fast
}

/// The E sequence that ends a rate exchange: a rate signal with B0 to B3 ones.
pub fn end_signal(rate: u16) -> (s: u16)
    ensures
        s == rate | 0xf000u16,
{
    rate | 0xf000
}

/// True if `s` has the synchronising bits a rate signal must have.
pub fn is_rate_signal(s: u16) -> (is: bool)
    ensures
        is == rate_like(s),
{
    s & 0xf000 == 0 && s & 0x0111 == 0x0111
}

/// True if `s` is an E sequence rather than a rate signal.
pub fn is_end_signal(s: u16) -> (is: bool)
    ensures
        is == end_like(s),
{
    s & 0xf000 == 0xf000 && s & 0x0111 == 0x0111
}

/// The highest data rate a rate signal offers, in bits per second. Zero calls
/// for the connection to be cleared down.
pub fn offered_rate(s: u16) -> (rate: u32)
    ensures
        rate == rate_in(s),
{
    if s & 0x0200 != 0 {
        9600
    } else if s & 0x0400 != 0 {
        4800
    } else if s & 0x0800 != 0 {
        2400
    } else {
        0
    }
}

/// What a modem says it can do is what is read: the highest of what it offers,
/// or nothing. Its E is never taken for a rate signal, and carries the same
/// rate.
pub proof fn a_sequence_says_what_it_offers(s: u16, bits_4800: bool, bits_9600: bool)
    ensures
        ({
            let slow = if bits_4800 { 0x0400u16 } else { 0u16 };
            let fast = if bits_9600 { 0x0200u16 } else { 0u16 };
            let offer = 0x0111u16 | slow | fast;
            &&& rate_like(offer)
            &&& rate_in(offer) == (if bits_9600 { 9600u32 } else if bits_4800 { 4800 } else { 0 })
        }),
        rate_like(s) ==> end_like(s | 0xf000u16) && rate_in(s | 0xf000u16) == rate_in(s),
        !(rate_like(s) && end_like(s)),
{
    let slow = if bits_4800 {
        0x0400u16
    } else {
        0u16
    };
    let fast = if bits_9600 {
        0x0200u16
    } else {
        0u16
    };
    let offer = 0x0111u16 | slow | fast;
    assert(offer & 0xf000u16 == 0u16 && offer & 0x0111u16 == 0x0111u16 && (offer & 0x0200u16
        != 0u16 <==> fast != 0u16) && (offer & 0x0400u16 != 0u16 <==> slow != 0u16) && offer
        & 0x0800u16 == 0u16) by (bit_vector)
        requires
            offer == 0x0111u16 | slow | fast,
            slow == 0x0400u16 || slow == 0u16,
            fast == 0x0200u16 || fast == 0u16,
    ;
    let e = s | 0xf000u16;
    assert(e & 0xf000u16 == 0xf000u16 && e & 0x0111u16 == s & 0x0111u16 && e & 0x0200u16 == s
        & 0x0200u16 && e & 0x0400u16 == s & 0x0400u16 && e & 0x0800u16 == s & 0x0800u16)
        by (bit_vector)
        requires
            e == s | 0xf000u16,
    ;
}

/// Finds the repeated 16-bit sequences a rate signal is made of.
///
/// The stream carries no framing, so the sequence has to be found in it: two
/// consecutive identical sixteens whose synchronising bits are in the right
/// places.
#[derive(Debug, Clone, Copy, PartialEq, Eq, Structural)]
pub struct RateDetector {
    /// The last thirty-two bits seen, newest at the bottom.
    pub window: u32,
    pub filled: u32,
}

impl Default for RateDetector {
    fn default() -> (detector: RateDetector)
        ensures
            detector == RateDetector::empty(),
    {
        RateDetector { window: 0, filled: 0 }
    }
}

/// The older and the newer sixteen bits of a window.
pub open spec fn older(window: u32) -> u16 {
    (window >> 16u32) as u16
}

pub open spec fn newer(window: u32) -> u16 {
    (window & 0xffffu32) as u16
}

impl RateDetector {
    /// Nothing seen.
    pub open spec fn empty() -> RateDetector {
        RateDetector { window: 0, filled: 0 }
    }

    pub open spec fn wf(self) -> bool {
        self.filled <= 32
    }

    /// One more bit seen.
    pub open spec fn with(self, bit: bool) -> RateDetector {
        RateDetector {
            window: shifted_in(self.window, bit),
            filled: if self.filled < 32 {
                (self.filled + 1) as u32
            } else {
                32
            },
        }
    }

    /// The sequence that has just come twice, if one has.
    pub open spec fn found(self) -> Option<u16> {
        let first = older(self.window);
        if self.filled == 32 && first == newer(self.window) && (rate_like(first) || end_like(
            first,
        )) {
            Some(first)
        } else {
            None
        }
    }

    pub fn new() -> (detector: RateDetector)
        ensures
            detector == RateDetector::empty(),
    {
        RateDetector { window: 0, filled: 0 }
    }

    /// Offer one received bit. Yields a sequence once two identical ones have
    /// arrived back to back.
    pub fn feed(&mut self, bit: bool) -> (found: Option<u16>)
        requires
            old(self).wf(),
        ensures
            *final(self) == old(self).with(bit),
            final(self).wf(),
            found == final(self).found(),
    {
        self.window = shift_in(self.window, bit);
        if self.filled < 32 {
            self.filled = self.filled + 1;
        }
        if self.filled < 32 {
            return None;
        }
        let first: u16 = (self.window >> 16) as u16;
        let second: u16 = (self.window & 0xffff) as u16;
        if first == second && (is_rate_signal(first) || is_end_signal(first)) {
            Some(first)
        } else {
            None
        }
    }

    pub fn reset(&mut self)
        ensures
            *final(self) == RateDetector::empty(),
    {
        self.window = 0;
        self.filled = 0;
    }
}

/// A detector after a run of bits.
pub open spec fn detected(detector: RateDetector, bits: Seq<bool>) -> RateDetector
    decreases bits.len(),
{
    if bits.len() == 0 {
        detector
    } else {
        detected(detector, bits.drop_last()).with(bits.last())
    }
}

/// The sixteen bits of a sequence, B0 first.
pub open spec fn sixteen(s: u16) -> Seq<bool> {
    Seq::new(16, |i: int| (s >> ((15 - i) as u16)) & 1u16 == 1u16)
}

/// Bits in push everything before them along.
proof fn lemma_sixteen(detector: RateDetector, s: u16, k: u32)
    requires
        detector.wf(),
        k <= 16,
    ensures
        detected(detector, sixteen(s).take(k as int)).window == (detector.window << k) | (s as u32
            >> ((16 - k) as u32)),
        detected(detector, sixteen(s).take(k as int)).filled == if detector.filled + k < 32 {
            (detector.filled + k) as u32
        } else {
            32
        },
    decreases k,
{
    let w = detector.window;
    let word = s as u32;
    if k == 0 {
        assert((w << 0u32) | (word >> 16u32) == w) by (bit_vector)
            requires
                word < 0x10000u32,
        ;
    } else {
        let before = (k - 1) as u32;
        lemma_sixteen(detector, s, before);
        let bits = sixteen(s).take(k as int);
        assert(bits.drop_last() =~= sixteen(s).take(k - 1));
        let shift = (16 - k) as u16;
        let bit = (s >> shift) & 1u16 == 1u16;
        assert(bits.last() == bit);
        let one = if bit {
            1u32
        } else {
            0u32
        };
        assert((((w << before) | (word >> ((16 - before) as u32))) << 1u32) | one == (w << k) | (
        word >> ((16 - k) as u32))) by (bit_vector)
            requires
                1 <= k <= 16,
                before == k - 1,
                shift == 16 - k,
                word == s as u32,
                one == (if (s >> shift) & 1u16 == 1u16 {
                    1u32
                } else {
                    0u32
                }),
        ;
    }
}

/// A sequence sent twice running is found, whatever came before it.
pub proof fn a_repeated_sequence_is_found(detector: RateDetector, s: u16)
    requires
        detector.wf(),
        rate_like(s) || end_like(s),
    ensures
        detected(detected(detector, sixteen(s)), sixteen(s)).found() == Some(s),
{
    let once = detected(detector, sixteen(s));
    lemma_sixteen(detector, s, 16);
    assert(sixteen(s).take(16) =~= sixteen(s));
    lemma_sixteen(once, s, 16);
    let (w, word) = (detector.window, s as u32);
    let twice = detected(once, sixteen(s)).window;
    assert((((((w << 16u32) | (word >> 0u32)) << 16u32) | (word >> 0u32)) >> 16u32) as u16 == s && (
    ((((w << 16u32) | (word >> 0u32)) << 16u32) | (word >> 0u32)) & 0xffffu32) as u16 == s)
        by (bit_vector)
        requires
            word == s as u32,
    ;
}

/// How far the start-up has got.
#[derive(Debug, Clone, Copy, PartialEq, Eq, Structural)]
pub enum Status {
    Negotiating,
    /// Agreed, at this many bits per second.
    Connected(u32),
    /// The far end called for the connection to be cleared, or nothing
    /// recognisable arrived in time.
    Failed,
}

/// The answering tone, in symbol intervals.
pub const ANSWER_TONE: u64 = 7920;

/// How long the calling modem must hear the answering tone before joining in.
pub const HEARD_ANSWER_TONE: u64 = 2400;

/// The response delay both ends owe each other.
pub const RESPONSE: u64 = 64;

/// Alternating states before the answering modem may move on.
pub const MIN_ALTERNATION: u64 = 128;

/// The incoming carrier must be heard this long first.
pub const HEARD_CARRIER: u64 = 64;

/// Silence after the amplitude drop.
pub const GAP: u64 = 16;

/// The three segments of the conditioning signal.
pub const SEGMENT_S: u64 = 256;

pub const SEGMENT_S_BAR: u64 = 16;

pub const SEGMENT_TRN: u64 = 1280;

/// Scrambled ones before data may flow.
pub const SETTLE: u64 = 128;

/// Nothing recognisable for this long and the attempt is abandoned.
pub const PATIENCE: u64 = 144_000;

/// Where the start-up has got to.
#[derive(Debug, Clone, Copy, PartialEq, Eq, Structural)]
pub enum State {
    /// Calling: silent, waiting for something to answer.
    Listening,
    /// Calling: repeating state A, waiting for a first reversal in the tones.
    Aa,
    /// Calling: the 64 symbols owed between hearing a reversal and answering.
    AaToCc,
    /// Calling: repeating state C, waiting for the second reversal.
    Cc,
    /// Calling: silent, waiting for the conditioning signal and then R1.
    AwaitingR1,
    /// Calling: an extra S, sent for the measured round trip.
    PreRoll,
    /// Answering: sending the answering tone.
    AnswerTone,
    /// Answering: alternating A and C, waiting to hear the calling modem.
    Ac,
    /// Answering: alternating the other way round, waiting for the reversal.
    Ca,
    /// Answering: the 64 symbols owed before turning back again.
    CaToAc,
    /// Answering: alternating again, waiting for the far end to stop.
    AcAgain,
    /// Answering: the 16 symbols of silence after the drop.
    Gap,
    /// Answering: silent again after R1, waiting out the measured round trip.
    AfterR1,
    /// Answering: waiting for the far end's conditioning signal, then R2.
    AwaitingR2,
    /// Both: the conditioning signal, in its three segments.
    SendS,
    SendSBar,
    SendTrn,
    /// Both: the rate signal, until the far end answers with its own.
    SendRate,
    /// Both: the single E that ends the exchange.
    SendEnd,
    /// Both: scrambled ones while the far end settles.
    Settling,
    Connected(u32),
    Failed,
}

/// What the caller's detectors made of one sample of the line.
#[derive(Debug, Clone, Copy, PartialEq, Eq, Structural)]
pub struct Ear {
    pub listener: Listener,
    /// A reversal of the carrier or of either sideband was noticed at this
    /// sample.
    pub reversed: bool,
    /// Samples between a reversal on the line and its being noticed.
    pub latency: u32,
}

/// Runs one end of the V.32 start-up, a sample at a time.
#[derive(Debug, Clone, Copy, PartialEq, Eq, Structural)]
pub struct Startup {
    pub role: Role,
    pub state: State,
    /// What this end's transmitter is to send.
    pub signal: Signal,
    pub listener: Listener,
    /// Samples a second.
    pub fs: u32,
    /// Symbols the transmitter's shaper holds a pulse back.
    pub shaping_delay: u32,
    /// Samples for which a reversal is the same one seen again.
    pub reversal_quiet: u64,
    pub rates: RateDetector,
    /// What is left of the current symbol, in parts of a sample of which there
    /// are 2400.
    pub countdown: i64,
    /// Symbols in the current state, and since the start.
    pub symbols: u64,
    pub total: u64,
    /// Symbols since the round-trip timer was started, and its final value.
    pub timer: Option<u64>,
    pub round_trip: u64,
    /// Consecutive symbols the condition being waited for has held.
    pub held: u64,
    /// Amplitude of the incoming carrier while it was up, for spotting a drop.
    pub carrier_peak: u32,
    /// Held until the next symbol boundary, where the machine can act on it.
    pub pending_reversal: bool,
    pub pending_sequence: Option<u16>,
    /// What this modem offers, and what has been settled on.
    pub offer: u16,
    pub agreed: u32,
}

/// The lesser of two rates.
pub open spec fn lesser(a: u32, b: u32) -> u32 {
    if a < b {
        a
    } else {
        b
    }
}

impl Startup {
    /// What holds at every sample.
    pub open spec fn wf(self) -> bool {
        &&& self.fs > 0
        &&& self.countdown <= self.fs
        &&& self.rates.wf()
        &&& self.symbols <= self.total
        &&& self.held <= self.total
        &&& self.timer matches Some(timer) ==> timer <= self.total
        &&& self.agreed == 0 || self.agreed == 2400 || self.agreed == 4800 || self.agreed == 9600
        &&& self.state matches State::Connected(rate) ==> rate == 2400 || rate == 4800 || rate
            == 9600
    }

    pub open spec fn ended(self) -> bool {
        self.state is Connected || self.state is Failed
    }

    pub open spec fn enter(self, state: State) -> Startup {
        Startup { state, symbols: 0, held: 0, ..self }
    }

    pub open spec fn send(self, signal: Signal) -> Startup {
        Startup { signal, ..self }
    }

    /// Symbols the condition being waited for has held unbroken.
    pub open spec fn hold(self, present: bool) -> Startup {
        Startup {
            held: if present {
                (self.held + 1) as u64
            } else {
                0
            },
            ..self
        }
    }

    /// What sits between the two events the clock is started and stopped by,
    /// besides the line: both 64 symbol waits at the calling modem and the far
    /// end's alone at the answering modem, and twice over the reversal
    /// detector's delay, to the nearest symbol, and the shaper's.
    pub open spec fn overhead(self, latency: u32) -> int {
        (match self.role {
            Role::Calling => 128int,
            Role::Answering => 64,
        }) + (9600 * latency + self.fs) / (2 * self.fs as int) + 2 * self.shaping_delay
    }

    /// The clock stopped, and what it says the line adds.
    pub open spec fn measured(self, latency: u32) -> Startup {
        let timer = match self.timer {
            Some(timer) => timer as int,
            None => 0,
        };
        let trip = timer - self.overhead(latency);
        Startup {
            timer: None,
            round_trip: if trip > 0 {
                trip as u64
            } else {
                0
            },
            ..self
        }
    }

    /// The loudest the incoming carrier has been.
    pub open spec fn peak(self) -> Startup {
        Startup {
            carrier_peak: if self.listener.carrier > self.carrier_peak {
                self.listener.carrier
            } else {
                self.carrier_peak
            },
            ..self
        }
    }

    /// The far end's offer: the lesser of the two ends', or the end of the call
    /// where there is none.
    pub open spec fn offered(self, s: u16, next: State) -> Startup {
        let agreed = lesser(rate_in(s), rate_in(self.offer));
        let settled = Startup { agreed, ..self };
        if agreed == 0 {
            Startup { state: State::Failed, ..settled }
        } else {
            settled.send(Signal::ConditioningS).enter(next)
        }
    }

    /// The calling modem, one symbol on.
    pub open spec fn calling(self, reversal: bool, sequence: Option<u16>, latency: u32) -> Startup {
        match self.state {
            // Silent until the answering modem is heard: its tone for a second,
            // or the alternating tones on their own.
            State::Listening => {
                let heard = self.listener.classified();
                let listening = self.send(Signal::Silent).hold(heard is AnswerTone);
                if heard is Alternation || listening.held >= 2400 {
                    listening.enter(State::Aa)
                } else {
                    listening
                }
            },
            // The far end turns its alternation over: start the clock, and owe
            // it a reversal of our own in 64 symbols.
            State::Aa => if reversal {
                Startup { timer: Some(0), ..self.send(Signal::StateA) }.enter(State::AaToCc)
            } else {
                self.send(Signal::StateA)
            },
            State::AaToCc => if self.symbols >= 64 {
                self.send(Signal::StateC).enter(State::Cc)
            } else {
                self
            },
            // Our reversal has come back, so stop the clock.
            State::Cc => if reversal {
                self.measured(latency).send(Signal::Silent).enter(State::AwaitingR1)
            } else {
                self
            },
            State::AwaitingR1 => match sequence {
                Some(s) if rate_like(s) => self.send(Signal::Silent).offered(s, State::PreRoll),
                _ => self.send(Signal::Silent),
            },
            // An S for the period already measured, which lines this modem's
            // conditioning signal up with the far end's idea of its arrival.
            State::PreRoll => if self.symbols >= self.round_trip {
                self.enter(State::SendS)
            } else {
                self
            },
            _ => self,
        }
    }

    /// The answering modem, one symbol on.
    pub open spec fn answering(
        self,
        reversal: bool,
        sequence: Option<u16>,
        latency: u32,
    ) -> Startup {
        match self.state {
            State::AnswerTone => if self.symbols >= 7920 {
                self.send(Signal::AlternateAC).enter(State::Ac)
            } else {
                self.send(Signal::AnswerTone)
            },
            // An even number of symbols, at least 128, and the calling modem's
            // carrier heard for 64.
            State::Ac => {
                let carrier = self.listener.classified() is Carrier;
                let heard = if carrier {
                    self.peak()
                } else {
                    self
                };
                let held = heard.hold(carrier);
                if self.symbols >= 128 && self.symbols % 2 == 0 && held.held >= 64 {
                    Startup { timer: Some(0), ..held.send(Signal::AlternateCA) }.enter(State::Ca)
                } else {
                    held
                }
            },
            State::Ca => if reversal {
                self.peak().measured(latency).enter(State::CaToAc)
            } else {
                self.peak()
            },
            State::CaToAc => if self.symbols >= 64 {
                self.peak().send(Signal::AlternateAC).enter(State::AcAgain)
            } else {
                self.peak()
            },
            // The incoming tone drops to a quarter: the calling modem has its
            // own measurement.
            State::AcAgain => {
                let held = self.hold(4 * self.listener.carrier < self.carrier_peak);
                if held.held >= 16 {
                    held.send(Signal::Silent).enter(State::Gap)
                } else {
                    held
                }
            },
            State::Gap => if self.symbols >= 16 {
                self.enter(State::SendS)
            } else {
                self
            },
            // Wait out the measured round trip before believing what arrives.
            State::AfterR1 => if self.symbols >= self.round_trip {
                Startup { rates: RateDetector::empty(), ..self.send(Signal::Silent) }.enter(
                    State::AwaitingR2,
                )
            } else {
                self.send(Signal::Silent)
            },
            State::AwaitingR2 => match sequence {
                Some(s) if rate_like(s) => self.send(Signal::Silent).offered(s, State::SendS),
                _ => self.send(Signal::Silent),
            },
            _ => self,
        }
    }

    /// The far end's answer to this end's rate signal: an E closes the exchange
    /// out, a rate signal narrows what is agreed, and no rate at all is a call
    /// to clear down.
    pub open spec fn answered(self, sequence: Option<u16>) -> Startup {
        let closing = Signal::Rate(self.offer | 0xf000u16);
        match sequence {
            Some(s) if end_like(s) => Startup {
                agreed: if self.agreed == 0 {
                    rate_in(s)
                } else {
                    self.agreed
                },
                ..self
            }.send(closing).enter(State::SendEnd),
            Some(s) if rate_like(s) => if rate_in(s) == 0 {
                Startup { state: State::Failed, ..self }
            } else {
                Startup {
                    agreed: if self.agreed == 0 {
                        lesser(rate_in(s), rate_in(self.offer))
                    } else {
                        lesser(self.agreed, rate_in(s))
                    },
                    ..self
                }.send(closing).enter(State::SendEnd)
            },
            _ => self,
        }
    }

    /// What both ends do, one symbol on.
    pub open spec fn training(self, sequence: Option<u16>) -> Startup {
        match self.state {
            State::SendS => if self.symbols >= 256 {
                self.send(Signal::ConditioningSbar).enter(State::SendSBar)
            } else {
                self.send(Signal::ConditioningS)
            },
            State::SendSBar => if self.symbols >= 16 {
                self.send(Signal::Trn).enter(State::SendTrn)
            } else {
                self
            },
            State::SendTrn => if self.symbols >= 1280 {
                Startup {
                    rates: RateDetector::empty(),
                    ..self.send(Signal::Rate(self.offer))
                }.enter(State::SendRate)
            } else {
                self
            },
            // The answering modem comes through here twice. Sending R1, it
            // stops when the calling modem's conditioning signal arrives;
            // sending R3 it waits to be closed out. Having agreed a rate
            // already is what tells the two apart.
            State::SendRate => if self.role is Answering && self.agreed == 0 {
                let held = self.hold(self.listener.classified() is Conditioning);
                if held.held >= 64 {
                    held.send(Signal::Silent).enter(State::AfterR1)
                } else {
                    held.answered(sequence)
                }
            } else {
                self.answered(sequence)
            },
            // One complete sixteen-bit sequence, two bits to a symbol.
            State::SendEnd => if self.symbols >= 8 {
                self.send(Signal::ScrambledOnes).enter(State::Settling)
            } else {
                self
            },
            State::Settling => {
                let agreed = match sequence {
                    Some(s) if end_like(s) && self.agreed == 0 => rate_in(s),
                    _ => self.agreed,
                };
                let settled = Startup { agreed, ..self };
                if self.symbols >= 128 {
                    Startup {
                        state: State::Connected(
                            if agreed == 0 {
                                4800
                            } else {
                                agreed
                            },
                        ),
                        ..settled
                    }
                } else {
                    settled
                }
            },
            _ => self,
        }
    }

    /// One symbol of the procedure.
    #[verifier::opaque]
    pub open spec fn advanced(self, reversal: bool, sequence: Option<u16>, latency: u32) -> Startup {
        match self.state {
            State::Listening
            | State::Aa
            | State::AaToCc
            | State::Cc
            | State::AwaitingR1
            | State::PreRoll => self.calling(reversal, sequence, latency),
            State::AnswerTone
            | State::Ac
            | State::Ca
            | State::CaToAc
            | State::AcAgain
            | State::Gap
            | State::AfterR1
            | State::AwaitingR2 => self.answering(reversal, sequence, latency),
            _ => self.training(sequence),
        }
    }
}

impl Startup {
    /// A symbol has just begun.
    pub open spec fn ticked(self) -> Startup {
        Startup {
            countdown: (self.countdown + self.fs) as i64,
            pending_reversal: false,
            pending_sequence: None,
            symbols: (self.symbols + 1) as u64,
            total: (self.total + 1) as u64,
            timer: match self.timer {
                Some(timer) => Some((timer + 1) as u64),
                None => None,
            },
            ..self
        }
    }

    /// A symbol boundary: what was held for it is acted on, and the attempt is
    /// abandoned once it has taken too long.
    pub open spec fn symbol(self, latency: u32) -> Startup {
        let next = self.ticked().advanced(self.pending_reversal, self.pending_sequence, latency);
        if !next.ended() && next.total >= 144_000 {
            Startup { state: State::Failed, ..next }
        } else {
            next
        }
    }

    /// The line as it now stands, and a reversal latched unless it is one
    /// already seen.
    pub open spec fn heard_line(self, ear: Ear) -> Startup {
        let fresh = self.reversal_quiet == 0 && ear.reversed;
        Startup {
            listener: ear.listener,
            reversal_quiet: if self.reversal_quiet > 0 {
                (self.reversal_quiet - 1) as u64
            } else if fresh {
                (16 * self.fs as int / 2400) as u64
            } else {
                0
            },
            pending_reversal: self.pending_reversal || fresh,
            ..self
        }
    }

    /// Bits off the line, looked through for a sequence while there is still a
    /// rate to agree.
    pub open spec fn heard_bits(self, bits: Seq<bool>) -> Startup
        decreases bits.len(),
    {
        if self.ended() || bits.len() == 0 {
            self
        } else {
            let before = self.heard_bits(bits.drop_last());
            let rates = before.rates.with(bits.last());
            Startup {
                rates,
                pending_sequence: match rates.found() {
                    Some(s) => Some(s),
                    None => before.pending_sequence,
                },
                ..before
            }
        }
    }

    /// One sample on.
    pub open spec fn stepped(self, ear: Ear, bits: Seq<bool>) -> Startup {
        let heard = self.heard_line(ear).heard_bits(bits);
        let next = Startup { countdown: (heard.countdown - 2400) as i64, ..heard };
        if next.countdown > 0 {
            next
        } else {
            next.symbol(ear.latency)
        }
    }

    /// A start-up that has heard nothing.
    pub open spec fn opened(role: Role, offer: u16, fs: u32, shaping_delay: u32) -> Startup {
        Startup {
            role,
            state: match role {
                Role::Calling => State::Listening,
                Role::Answering => State::AnswerTone,
            },
            signal: Signal::Silent,
            listener: Listener { answer: 0, carrier: 0, low: 0, high: 0, level: 0 },
            fs,
            shaping_delay,
            reversal_quiet: 0,
            rates: RateDetector::empty(),
            countdown: fs as i64,
            symbols: 0,
            total: 0,
            timer: None,
            round_trip: 0,
            held: 0,
            carrier_peak: 0,
            pending_reversal: false,
            pending_sequence: None,
            offer,
            agreed: 0,
        }
    }

    pub open spec fn stands(self) -> Status {
        match self.state {
            State::Connected(rate) => Status::Connected(rate),
            State::Failed => Status::Failed,
            _ => Status::Negotiating,
        }
    }

    /// `offer` is the rate signal this modem sends.
    pub fn new(role: Role, offer: u16, fs: u32, shaping_delay: u32) -> (startup: Startup)
        requires
            fs > 0,
        ensures
            startup.wf(),
            startup == (Startup {
                role,
                state: match role {
                    Role::Calling => State::Listening,
                    Role::Answering => State::AnswerTone,
                },
                signal: Signal::Silent,
                listener: Listener { answer: 0, carrier: 0, low: 0, high: 0, level: 0 },
                fs,
                shaping_delay,
                reversal_quiet: 0,
                rates: RateDetector::empty(),
                countdown: fs as i64,
                symbols: 0,
                total: 0,
                timer: None,
                round_trip: 0,
                held: 0,
                carrier_peak: 0,
                pending_reversal: false,
                pending_sequence: None,
                offer,
                agreed: 0,
            }),
            startup.listener.classified() is Nothing,
            startup == Startup::opened(role, offer, fs, shaping_delay),
    {
        Startup {
            role,
            state: match role {
                Role::Calling => State::Listening,
                Role::Answering => State::AnswerTone,
            },
            signal: Signal::Silent,
            listener: Listener::new(),
            fs,
            shaping_delay,
            reversal_quiet: 0,
            rates: RateDetector::new(),
            countdown: fs as i64,
            symbols: 0,
            total: 0,
            timer: None,
            round_trip: 0,
            held: 0,
            carrier_peak: 0,
            pending_reversal: false,
            pending_sequence: None,
            offer,
            agreed: 0,
        }
    }

    pub fn role(&self) -> (role: Role)
        ensures
            role == self.role,
    {
        self.role
    }

    pub fn status(&self) -> (status: Status)
        ensures
            status == self.stands(),
    {
        match self.state {
            State::Connected(rate) => Status::Connected(rate),
            State::Failed => Status::Failed,
            _ => Status::Negotiating,
        }
    }

    /// The round trip, in symbol intervals, once it has been measured.
    ///
    /// This is what an echo canceller needs in order to know how far back the
    /// line's reflection of our own signal can be.
    pub fn round_trip(&self) -> (symbols: u64)
        ensures
            symbols == self.round_trip,
    {
        self.round_trip
    }

    pub open spec fn named(self) -> &'static str {
        match self.state {
            State::Listening => "listening",
            State::Aa => "AA",
            State::AaToCc => "AA to CC",
            State::Cc => "CC",
            State::AwaitingR1 => "awaiting R1",
            State::PreRoll => "S pre-roll",
            State::AnswerTone => "answer tone",
            State::Ac => "AC",
            State::Ca => "CA",
            State::CaToAc => "CA to AC",
            State::AcAgain => "AC again",
            State::Gap => "gap",
            State::AfterR1 => "after R1",
            State::AwaitingR2 => "awaiting R2",
            State::SendS => "S",
            State::SendSBar => "S bar",
            State::SendTrn => "TRN",
            State::SendRate => "rate signal",
            State::SendEnd => "E",
            State::Settling => "settling",
            State::Connected(_) => "connected",
            State::Failed => "failed",
        }
    }

    /// Which step of the procedure this end is on.
    pub fn phase(&self) -> (phase: &'static str)
        ensures
            phase == self.named(),
    {
        match self.state {
            State::Listening => "listening",
            State::Aa => "AA",
            State::AaToCc => "AA to CC",
            State::Cc => "CC",
            State::AwaitingR1 => "awaiting R1",
            State::PreRoll => "S pre-roll",
            State::AnswerTone => "answer tone",
            State::Ac => "AC",
            State::Ca => "CA",
            State::CaToAc => "CA to AC",
            State::AcAgain => "AC again",
            State::Gap => "gap",
            State::AfterR1 => "after R1",
            State::AwaitingR2 => "awaiting R2",
            State::SendS => "S",
            State::SendSBar => "S bar",
            State::SendTrn => "TRN",
            State::SendRate => "rate signal",
            State::SendEnd => "E",
            State::Settling => "settling",
            State::Connected(_) => "connected",
            State::Failed => "failed",
        }
    }

    /// What the line is carrying at the moment.
    pub fn heard(&self) -> (heard: Heard)
        ensures
            heard == self.listener.classified(),
    {
        self.listener.classify()
    }

    fn enter_state(&mut self, state: State)
        ensures
            *final(self) == old(self).enter(state),
    {
        self.state = state;
        self.symbols = 0;
        self.held = 0;
    }

    fn hold_while(&mut self, present: bool)
        requires
            old(self).held < u64::MAX,
        ensures
            *final(self) == old(self).hold(present),
    {
        if present {
            self.held = self.held + 1;
        } else {
            self.held = 0;
        }
    }

    fn note_peak(&mut self)
        ensures
            *final(self) == old(self).peak(),
    {
        if self.listener.carrier > self.carrier_peak {
            self.carrier_peak = self.listener.carrier;
        }
    }

    /// Stop the clock, and take off it everything but the line.
    ///
    /// The calling modem starts its clock on detecting the far end's reversal
    /// and stops it on detecting the answer, so both 64 symbol waits fall
    /// inside. The answering modem starts its clock on sending its own
    /// reversal, so only the far end's wait is inside.
    fn measure(&mut self, latency: u32)
        requires
            old(self).fs > 0,
        ensures
            *final(self) == old(self).measured(latency),
    {
        let response: u64 = match self.role {
            Role::Calling => 2 * RESPONSE,
            Role::Answering => RESPONSE,
        };
        let fs: u64 = self.fs as u64;
        let delay: u64 = (9600 * (latency as u64) + fs) / (2 * fs);
        assert(delay <= 9600 * latency + fs) by (nonlinear_arith)
            requires
                fs >= 1,
                delay == (9600 * latency + fs) / (2 * fs),
        ;
        let overhead: u64 = response + delay + 2 * (self.shaping_delay as u64);
        let timer: u64 = match self.timer {
            Some(timer) => timer,
            None => 0,
        };
        self.timer = None;
        self.round_trip = if timer > overhead {
            timer - overhead
        } else {
            0
        };
    }

    fn take_offer(&mut self, s: u16, next: State)
        ensures
            *final(self) == old(self).offered(s, next),
    {
        let (theirs, mine): (u32, u32) = (offered_rate(s), offered_rate(self.offer));
        self.agreed = if theirs < mine {
            theirs
        } else {
            mine
        };
        if self.agreed == 0 {
            self.state = State::Failed;
        } else {
            self.signal = Signal::ConditioningS;
            self.enter_state(next);
        }
    }

    fn advance_calling(&mut self, reversal: bool, sequence: Option<u16>, latency: u32)
        requires
            old(self).fs > 0,
            old(self).held < u64::MAX,
        ensures
            *final(self) == old(self).calling(reversal, sequence, latency),
    {
        match self.state {
            State::Listening => {
                let heard = self.listener.classify();
                self.signal = Signal::Silent;
                self.hold_while(heard == Heard::AnswerTone);
                if heard == Heard::Alternation || self.held >= HEARD_ANSWER_TONE {
                    self.enter_state(State::Aa);
                }
            },
            State::Aa => {
                self.signal = Signal::StateA;
                if reversal {
                    self.timer = Some(0);
                    self.enter_state(State::AaToCc);
                }
            },
            State::AaToCc => {
                if self.symbols >= RESPONSE {
                    self.signal = Signal::StateC;
                    self.enter_state(State::Cc);
                }
            },
            State::Cc => {
                if reversal {
                    self.measure(latency);
                    self.signal = Signal::Silent;
                    self.enter_state(State::AwaitingR1);
                }
            },
            State::AwaitingR1 => {
                self.signal = Signal::Silent;
                if let Some(s) = sequence {
                    if is_rate_signal(s) {
                        self.take_offer(s, State::PreRoll);
                    }
                }
            },
            State::PreRoll => {
                if self.symbols >= self.round_trip {
                    self.enter_state(State::SendS);
                }
            },
            _ => {},
        }
    }

    fn advance_answering(&mut self, reversal: bool, sequence: Option<u16>, latency: u32)
        requires
            old(self).fs > 0,
            old(self).held < u64::MAX,
        ensures
            *final(self) == old(self).answering(reversal, sequence, latency),
    {
        match self.state {
            State::AnswerTone => {
                self.signal = Signal::AnswerTone;
                if self.symbols >= ANSWER_TONE {
                    self.signal = Signal::AlternateAC;
                    self.enter_state(State::Ac);
                }
            },
            State::Ac => {
                let carrier = self.listener.classify() == Heard::Carrier;
                if carrier {
                    self.note_peak();
                }
                self.hold_while(carrier);
                if self.symbols >= MIN_ALTERNATION && self.symbols % 2 == 0 && self.held
                    >= HEARD_CARRIER {
                    self.timer = Some(0);
                    self.signal = Signal::AlternateCA;
                    self.enter_state(State::Ca);
                }
            },
            State::Ca => {
                self.note_peak();
                if reversal {
                    self.measure(latency);
                    self.enter_state(State::CaToAc);
                }
            },
            State::CaToAc => {
                self.note_peak();
                if self.symbols >= RESPONSE {
                    self.signal = Signal::AlternateAC;
                    self.enter_state(State::AcAgain);
                }
            },
            State::AcAgain => {
                let dropped = 4 * (self.listener.carrier as u64) < self.carrier_peak as u64;
                self.hold_while(dropped);
                if self.held >= GAP {
                    self.signal = Signal::Silent;
                    self.enter_state(State::Gap);
                }
            },
            State::Gap => {
                if self.symbols >= GAP {
                    self.enter_state(State::SendS);
                }
            },
            State::AfterR1 => {
                self.signal = Signal::Silent;
                if self.symbols >= self.round_trip {
                    self.rates.reset();
                    self.enter_state(State::AwaitingR2);
                }
            },
            State::AwaitingR2 => {
                self.signal = Signal::Silent;
                if let Some(s) = sequence {
                    if is_rate_signal(s) {
                        self.take_offer(s, State::SendS);
                    }
                }
            },
            _ => {},
        }
    }

    fn take_answer(&mut self, sequence: Option<u16>)
        ensures
            *final(self) == old(self).answered(sequence),
    {
        if let Some(s) = sequence {
            if is_end_signal(s) {
                // The far end has closed the exchange out. Answer in kind and
                // settle at what it named.
                if self.agreed == 0 {
                    self.agreed = offered_rate(s);
                }
                self.signal = Signal::Rate(end_signal(self.offer));
                self.enter_state(State::SendEnd);
            } else if is_rate_signal(s) {
                let theirs: u32 = offered_rate(s);
                if theirs == 0 {
                    self.state = State::Failed;
                    return ;
                }
                let limit: u32 = if self.agreed == 0 {
                    offered_rate(self.offer)
                } else {
                    self.agreed
                };
                self.agreed = if theirs < limit {
                    theirs
                } else {
                    limit
                };
                self.signal = Signal::Rate(end_signal(self.offer));
                self.enter_state(State::SendEnd);
            }
        }
    }

    fn advance_training(&mut self, sequence: Option<u16>)
        requires
            old(self).held < u64::MAX,
        ensures
            *final(self) == old(self).training(sequence),
    {
        match self.state {
            State::SendS => {
                self.signal = Signal::ConditioningS;
                if self.symbols >= SEGMENT_S {
                    self.signal = Signal::ConditioningSbar;
                    self.enter_state(State::SendSBar);
                }
            },
            State::SendSBar => {
                if self.symbols >= SEGMENT_S_BAR {
                    self.signal = Signal::Trn;
                    self.enter_state(State::SendTrn);
                }
            },
            State::SendTrn => {
                if self.symbols >= SEGMENT_TRN {
                    self.rates.reset();
                    self.signal = Signal::Rate(self.offer);
                    self.enter_state(State::SendRate);
                }
            },
            State::SendRate => {
                if self.role == Role::Answering && self.agreed == 0 {
                    let conditioning = self.listener.classify() == Heard::Conditioning;
                    self.hold_while(conditioning);
                    if self.held >= HEARD_CARRIER {
                        self.signal = Signal::Silent;
                        self.enter_state(State::AfterR1);
                        return ;
                    }
                }
                self.take_answer(sequence);
            },
            State::SendEnd => {
                if self.symbols >= 8 {
                    self.signal = Signal::ScrambledOnes;
                    self.enter_state(State::Settling);
                }
            },
            State::Settling => {
                if let Some(s) = sequence {
                    if is_end_signal(s) && self.agreed == 0 {
                        self.agreed = offered_rate(s);
                    }
                }
                if self.symbols >= SETTLE {
                    let rate: u32 = if self.agreed == 0 {
                        4800
                    } else {
                        self.agreed
                    };
                    self.state = State::Connected(rate);
                }
            },
            _ => {},
        }
    }

    /// One symbol of the procedure.
    pub fn advance(&mut self, reversal: bool, sequence: Option<u16>, latency: u32)
        requires
            old(self).fs > 0,
            old(self).held < u64::MAX,
        ensures
            *final(self) == old(self).advanced(reversal, sequence, latency),
    {
        proof {
            reveal(Startup::advanced);
        }
        match self.state {
            State::Listening
            | State::Aa
            | State::AaToCc
            | State::Cc
            | State::AwaitingR1
            | State::PreRoll => self.advance_calling(reversal, sequence, latency),
            State::AnswerTone
            | State::Ac
            | State::Ca
            | State::CaToAc
            | State::AcAgain
            | State::Gap
            | State::AfterR1
            | State::AwaitingR2 => self.advance_answering(reversal, sequence, latency),
            _ => self.advance_training(sequence),
        }
    }

    fn has_ended(&self) -> (ended: bool)
        ensures
            ended == self.ended(),
    {
        match self.state {
            State::Connected(_) => true,
            State::Failed => true,
            _ => false,
        }
    }

    fn hear_line(&mut self, ear: Ear)
        ensures
            *final(self) == old(self).heard_line(ear),
    {
        self.listener.feed(ear.listener);
        if self.reversal_quiet > 0 {
            self.reversal_quiet = self.reversal_quiet - 1;
        } else if ear.reversed {
            // Both sidebands belong to the one signal and turn together.
            self.reversal_quiet = 16 * (self.fs as u64) / 2400;
            self.pending_reversal = true;
        }
    }

    fn hear_bits(&mut self, bits: &[bool])
        requires
            old(self).rates.wf(),
        ensures
            *final(self) == old(self).heard_bits(bits@),
            final(self).rates.wf(),
    {
        if self.has_ended() {
            return ;
        }
        let ghost start = *self;
        let mut i: usize = 0;
        assert(bits@.take(0) =~= Seq::empty());
        while i < bits.len()
            invariant
                i <= bits@.len(),
                !start.ended(),
                self.rates.wf(),
                *self == start.heard_bits(bits@.take(i as int)),
            decreases bits@.len() - i,
        {
            let found = self.rates.feed(bits[i]);
            if found.is_some() {
                self.pending_sequence = found;
            }
            i = i + 1;
            assert(bits@.take(i as int).drop_last() =~= bits@.take(i - 1));
        }
        assert(bits@.take(i as int) =~= bits@);
    }

    /// Advance one sample: listen, and decide what to send.
    ///
    /// Reversals and rate sequences arrive whenever they arrive, which is very
    /// rarely on a symbol boundary. Both are held until the next one.
    pub fn step(&mut self, ear: Ear, bits: &[bool]) -> (status: Status)
        requires
            old(self).wf(),
            old(self).total < u64::MAX,
            old(self).countdown >= i64::MIN + 2400,
        ensures
            *final(self) == old(self).stepped(ear, bits@),
            final(self).wf(),
            status == final(self).stands(),
    {
        let ghost start = *self;
        self.hear_line(ear);
        self.hear_bits(bits);
        proof {
            lemma_heard_bits(start.heard_line(ear), bits@);
        }
        self.countdown = self.countdown - 2400;
        if self.countdown > 0 {
            return self.status();
        }
        let ghost boundary = *self;
        let reversal = self.pending_reversal;
        let sequence = self.pending_sequence;
        let timer: Option<u64> = match self.timer {
            Some(timer) => Some(timer + 1),
            None => None,
        };
        *self = Startup {
            countdown: self.countdown + self.fs as i64,
            pending_reversal: false,
            pending_sequence: None,
            symbols: self.symbols + 1,
            total: self.total + 1,
            timer,
            ..*self
        };
        assert(*self == boundary.ticked());
        proof {
            lemma_advanced(*self, reversal, sequence, ear.latency);
        }
        self.advance(reversal, sequence, ear.latency);
        if !self.has_ended() && self.total >= PATIENCE {
            self.state = State::Failed;
        }
        self.status()
    }
}

proof fn lemma_heard_bits(s: Startup, bits: Seq<bool>)
    requires
        s.rates.wf(),
    ensures
        s.heard_bits(bits) == (Startup {
            rates: s.heard_bits(bits).rates,
            pending_sequence: s.heard_bits(bits).pending_sequence,
            ..s
        }),
        s.heard_bits(bits).rates.wf(),
    decreases bits.len(),
{
    if bits.len() > 0 {
        lemma_heard_bits(s, bits.drop_last());
    }
}

proof fn lemma_advanced(s: Startup, reversal: bool, sequence: Option<u16>, latency: u32)
    requires
        s.wf(),
        s.held < s.total,
    ensures
        s.advanced(reversal, sequence, latency).wf(),
        s.advanced(reversal, sequence, latency).total == s.total,
        s.ended() ==> s.advanced(reversal, sequence, latency) == s,
{
    reveal(Startup::advanced);
}

/// The two ends do not time the same interval, and yet both measure the line:
/// an end whose clock ran for what the line adds and everything the clock holds
/// besides reads what the line adds. The calling modem's holds one wait more.
pub proof fn both_ends_measure_the_line(s: Startup, other: Startup, line: u64, latency: u32)
    requires
        s.role is Calling,
        other.role is Answering,
        s.fs == other.fs,
        s.fs > 0,
        s.shaping_delay == other.shaping_delay,
        s.timer matches Some(timer) && timer == line + s.overhead(latency),
        other.timer matches Some(timer) && timer == line + other.overhead(latency),
    ensures
        s.overhead(latency) == other.overhead(latency) + 64,
        s.measured(latency).round_trip == line,
        other.measured(latency).round_trip == line,
{
}

/// Nobody waits for ever: at the symbol that uses up the patience, a start-up
/// that has not ended fails.
pub proof fn patience_runs_out(s: Startup, ear: Ear, bits: Seq<bool>)
    requires
        s.wf(),
        143_999 <= s.total < u64::MAX,
        i64::MIN + 2400 <= s.countdown <= 2400,
    ensures
        s.stepped(ear, bits).ended(),
{
    let heard = s.heard_line(ear);
    lemma_heard_bits(heard, bits);
    let next = Startup {
        countdown: (heard.heard_bits(bits).countdown - 2400) as i64,
        ..heard.heard_bits(bits)
    };
    lemma_advanced(
        next.ticked(),
        next.pending_reversal,
        next.pending_sequence,
        ear.latency,
    );
}

/// A start-up that has ended stays as it ended, and what it sends does not
/// change.
pub proof fn an_ended_startup_stays_ended(s: Startup, ear: Ear, bits: Seq<bool>)
    requires
        s.wf(),
        s.ended(),
        s.total < u64::MAX,
    ensures
        s.stepped(ear, bits).state == s.state,
        s.stepped(ear, bits).signal == s.signal,
{
    reveal(Startup::advanced);
}

/// A far end that offers no rate at all is not talked to: the call is cleared
/// down wherever a rate signal is waited for.
pub proof fn no_rate_clears_the_call_down(s: Startup, reversal: bool, sequence: u16, latency: u32)
    requires
        rate_like(sequence),
        rate_in(sequence) == 0,
        s.state is AwaitingR1 || s.state is AwaitingR2 || (s.state is SendRate && (s.role is Calling
            || s.agreed != 0)),
    ensures
        s.advanced(reversal, Some(sequence), latency).state is Failed,
{
    reveal(Startup::advanced);
    a_sequence_says_what_it_offers(sequence, false, false);
}

/// Where a rate signal or an E is what ends the negotiation of the rate, the
/// rate agreed is no more than the far end offered; and no more than this end
/// offers where this end had not agreed one yet and heard a rate signal.
pub proof fn the_rate_agreed_was_offered(s: Startup, sequence: u16)
    requires
        rate_like(sequence),
        rate_in(sequence) > 0,
    ensures
        s.answered(Some(sequence)).agreed <= rate_in(sequence),
        s.agreed == 0 ==> s.answered(Some(sequence)).agreed <= rate_in(s.offer),
        s.agreed != 0 ==> s.answered(Some(sequence)).agreed <= s.agreed,
{
    a_sequence_says_what_it_offers(sequence, false, false);
}

} // verus!
