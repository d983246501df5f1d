//! Phase 2 of the start-up: probing and ranging.
//!
//! What happens, from the end that dialled:
//!
//! 1. Both ends send an INFO0 and follow it with a tone, the call modem tone B
//!    at 1200 Hz and the answer modem tone A at 2400.
//! 2. The answer modem, hearing tone B, reverses tone A. The call modem answers
//!    with a reversal of tone B exactly 40 ms after hearing that one, and the
//!    answer modem answers that with another, again 40 ms on. The time between
//!    an end's own reversal and the answer to it, less the 40 ms, is the round
//!    trip.
//! 3. The answer modem sends L1 and L2 and the call modem measures the line
//!    with them; then the other way round, after one more pair of reversals.
//! 4. The call modem sends INFO1c, what it found; the answer modem answers with
//!    INFO1a, what the two of them will use.
//!
//! V.90 and V.92 run the same procedure with INFO sequences of their own. What
//! is decided here is decided a sample at a time, from what the caller's
//! detectors made of the line; what goes on the line is said in terms of the
//! modulator's points and the two halves of the probing signal.
use crate::bits::lsb;
use crate::v34::dpsk::{Sending, Side, Transmitter};
use crate::v34::info::{
    framed, framing_is_undone, Info, Info0, Info0d, Info1a, Info1aPcm, Info1aPcmUp,
    Info1c, PcmFlags, Probed, SymbolRate,
};
use crate::v34::info1::{
    lemma_info1a_len, lemma_info1a_pcm_len, lemma_info1c_len, offset_field, probed_info,
};
use vstd::prelude::*;

verus! {

/// Which end of the call this is.
#[derive(Debug, Clone, Copy, PartialEq, Eq, Structural)]
pub enum Role {
    Call,
    Answer,
}

impl Role {
    /// The side this end sends on.
    pub fn side(self) -> (side: Side)
        ensures
            side == self.sends_as(),
    {
        match self {
            Role::Call => Side::Call,
            Role::Answer => Side::Answer,
        }
    }

    /// The side the far end sends on.
    pub fn far(self) -> (side: Side)
        ensures
            side != self.sends_as(),
    {
        match self {
            Role::Call => Side::Answer,
            Role::Answer => Side::Call,
        }
    }

    pub open spec fn sends_as(self) -> Side {
        match self {
            Role::Call => Side::Call,
            Role::Answer => Side::Answer,
        }
    }
}

/// The precoder and prefilter the analogue modem is able to run, which is what
/// bounds the digital modem's design of them. All zeros is the least any V.92
/// analogue modem may promise.
#[derive(Debug, Clone, Copy, PartialEq, Eq, Structural)]
pub struct UpCaps {
    /// Filter sections: bit 0 says z1 is supported and bit 1 that p2 is.
    pub sections: u8,
    /// Coefficients in all, in multiples of 64 starting at 192.
    pub ltot_code: u8,
    /// Coefficients in one section, in multiples of 64 starting at 128.
    pub lmax_code: u8,
}

impl UpCaps {
    pub open spec fn least() -> UpCaps {
        UpCaps { sections: 0, ltot_code: 0, lmax_code: 0 }
    }
}

impl Default for UpCaps {
    fn default() -> (caps: UpCaps)
        ensures
            caps == UpCaps::least(),
    {
        UpCaps { sections: 0, ltot_code: 0, lmax_code: 0 }
    }
}

/// What this end has of V.92 to offer, and what it wants out of it.
#[derive(Debug, Clone, Copy, PartialEq, Eq, Structural)]
pub struct V92Wish {
    /// V.92 capability, as this end's INFO0 says it.
    pub capable: bool,
    /// A request for a short phase 2.
    pub short_phase2: bool,
    /// Whether PCM upstream is wanted: at the digital modem, its own verdict on
    /// the channel, which is what its INFO1d bit 70 carries.
    pub pcm_upstream: bool,
    /// What the analogue modem can run. The digital modem has no use for it.
    pub up_caps: UpCaps,
}

impl V92Wish {
    /// Nothing offered and nothing wanted.
    pub open spec fn nothing() -> V92Wish {
        V92Wish {
            capable: false,
            short_phase2: false,
            pcm_upstream: false,
            up_caps: UpCaps::least(),
        }
    }

    /// The two INFO0 bits, whichever layout is about to place them.
    pub open spec fn flagged(self) -> PcmFlags {
        PcmFlags { v92: self.capable, short_phase2: self.short_phase2 }
    }

    /// The two INFO0 bits, whichever layout is about to place them.
    pub fn flags(self) -> (flags: PcmFlags)
        ensures
            flags == self.flagged(),
    {
        PcmFlags { v92: self.capable, short_phase2: self.short_phase2 }
    }
}

impl Default for V92Wish {
    fn default() -> (wish: V92Wish)
        ensures
            wish == V92Wish::nothing(),
    {
        V92Wish {
            capable: false,
            short_phase2: false,
            pcm_upstream: false,
            up_caps: UpCaps::default(),
        }
    }
}

/// V.90's part in phase 2, where there is one. The sides go by what the modems
/// are rather than by who dialled: the analogue modem is V.34's answer modem,
/// and the digital modem V.34's call modem.
#[derive(Debug, Clone, Copy, PartialEq, Eq, Structural)]
pub enum Pcm {
    /// The analogue modem: it asks for V.90 in INFO1a when the far end's INFO0
    /// was an INFO0d.
    Analogue,
    /// The digital modem, whose INFO0 is this INFO0d. Its bits 12 to 28 are
    /// filled in from this end's own capabilities.
    Digital(Info0d),
    /// The analogue modem with V.92 to offer.
    AnalogueV92(V92Wish),
    /// The digital modem with V.92 to offer.
    DigitalV92(Info0d, V92Wish),
}

impl Pcm {
    pub open spec fn plays(self) -> Role {
        match self {
            Pcm::Analogue | Pcm::AnalogueV92(_) => Role::Answer,
            Pcm::Digital(_) | Pcm::DigitalV92(_, _) => Role::Call,
        }
    }

    pub open spec fn wishes(self) -> V92Wish {
        match self {
            Pcm::AnalogueV92(wish) => wish,
            Pcm::DigitalV92(_, wish) => wish,
            Pcm::Analogue | Pcm::Digital(_) => V92Wish::nothing(),
        }
    }

    /// The V.34 side this takes in phase 2.
    pub fn role(self) -> (role: Role)
        ensures
            role == self.plays(),
    {
        match self {
            Pcm::Analogue | Pcm::AnalogueV92(_) => Role::Answer,
            Pcm::Digital(_) | Pcm::DigitalV92(_, _) => Role::Call,
        }
    }

    /// What this end offers of V.92. The V.90 roles offer nothing.
    pub fn wish(self) -> (wish: V92Wish)
        ensures
            wish == self.wishes(),
    {
        match self {
            Pcm::AnalogueV92(wish) => wish,
            Pcm::DigitalV92(_, wish) => wish,
            Pcm::Analogue | Pcm::Digital(_) => V92Wish::default(),
        }
    }
}

/// How phase 2 is going.
#[derive(Debug, Clone, Copy, PartialEq, Eq)]
pub enum Status {
    Running,
    /// INFO1a is across, and phase 3 is next.
    Done,
    /// It went wrong, and why.
    Failed(&'static str),
}

/// Where phase 2 has got to.
#[derive(Debug, Clone, Copy, PartialEq, Eq, Structural)]
pub enum Stage {
    // The call modem.
    CallInfo0,
    CallFirstReversal,
    CallRanging,
    CallReadProbe,
    CallAwaitTone,
    CallSendProbe,
    CallInfo1,
    // The answer modem.
    AnswerInfo0,
    AnswerAwaitTone,
    AnswerRanging,
    AnswerSendProbe,
    AnswerProbeReversal,
    AnswerReadProbe,
    AnswerInfo1,
    // Both.
    Finished,
}

impl Stage {
    pub open spec fn named(self) -> &'static str {
        match self {
            Stage::CallInfo0 | Stage::AnswerInfo0 => "V.34 INFO0",
            Stage::CallFirstReversal | Stage::AnswerAwaitTone => "V.34 tones",
            Stage::CallRanging | Stage::AnswerRanging => "V.34 ranging",
            Stage::CallReadProbe | Stage::AnswerReadProbe => "V.34 reading the probe",
            Stage::CallAwaitTone | Stage::AnswerProbeReversal => "V.34 tones again",
            Stage::CallSendProbe | Stage::AnswerSendProbe => "V.34 sending the probe",
            Stage::CallInfo1 | Stage::AnswerInfo1 => "V.34 INFO1",
            Stage::Finished => "V.34 phase 2 done",
        }
    }

    pub fn name(self) -> (name: &'static str)
        ensures
            name == self.named(),
    {
        match self {
            Stage::CallInfo0 | Stage::AnswerInfo0 => "V.34 INFO0",
            Stage::CallFirstReversal | Stage::AnswerAwaitTone => "V.34 tones",
            Stage::CallRanging | Stage::AnswerRanging => "V.34 ranging",
            Stage::CallReadProbe | Stage::AnswerReadProbe => "V.34 reading the probe",
            Stage::CallAwaitTone | Stage::AnswerProbeReversal => "V.34 tones again",
            Stage::CallSendProbe | Stage::AnswerSendProbe => "V.34 sending the probe",
            Stage::CallInfo1 | Stage::AnswerInfo1 => "V.34 INFO1",
            Stage::Finished => "V.34 phase 2 done",
        }
    }
}

/// What is on the line from this end.
#[derive(Debug, Clone, Copy, PartialEq, Eq, Structural)]
pub enum Speaking {
    Silent,
    /// An INFO sequence or a tone, through the DPSK modulator.
    Carrier,
    /// L1 until the sample given, and L2 after it.
    Probe { l1_until: u64 },
}

/// What this end made of the far end's L2: the projection for each symbol
/// rate, between two ends that can do what these two can, and the offset of
/// the 1050 Hz tone in steps of 0.02 Hz.
#[derive(Debug, Clone, Copy, PartialEq, Eq)]
pub struct Reading {
    pub probed: [Probed; 6],
    pub frequency_offset: Option<i16>,
}

/// What the caller's detectors made of one sample of the line.
#[derive(Debug, Clone, Copy, PartialEq, Eq)]
pub struct Heard {
    /// An INFO sequence whose CRC checked at this sample.
    pub info: Option<Info>,
    /// The amplitude of the far end's tone, and of what is 150 Hz below and
    /// above it, in millionths of full scale.
    pub tone: u32,
    pub below: u32,
    pub above: u32,
    /// Whether a reversal of the far end's tone was noticed at this sample, and
    /// how many samples ago it was on the line.
    pub reversed: bool,
    pub latency: u32,
    /// What the stretch of L2 read so far comes to. Looked at only where
    /// `Modem::reads_now` says so.
    pub reading: Option<Reading>,
    /// The codewords the digital modem is to train with, in V.90 and in V.92,
    /// for the INFO0d it sent. Looked at only once it has sent one.
    pub codeword: u8,
    pub codeword_v92: u8,
}

/// Amplitude a tone has to reach before it counts as there, in millionths.
pub const AUDIBLE: u32 = 8000;

impl Heard {
    /// Whether the codeword for PCM upstream is one that may be asked for.
    pub open spec fn wf(self) -> bool {
        67 <= self.codeword_v92 <= 111
    }

    /// The louder of what is either side of the tone.
    pub open spec fn sides(self) -> int {
        if self.below > self.above {
            self.below as int
        } else {
            self.above as int
        }
    }

    /// The tone is audible, and stands above what its neighbours leak into its
    /// detector: a twentieth of the louder of them.
    pub open spec fn tone_there(self) -> bool {
        self.tone > 8000 && 20 * self.tone > self.sides()
    }

    /// Whether what is either side of the tone is louder than the tone, which
    /// is what a probing signal looks like from here. While it is, the caller's
    /// reversal detector has to start again.
    pub fn probing(&self) -> (probing: bool)
        ensures
            probing == (self.sides() > self.tone),
    {
        self.below > self.tone || self.above > self.tone
    }

    /// Whether the far end's tone is there, rather than this end's own L2
    /// leaking into its detector.
    pub fn present(&self) -> (there: bool)
        ensures
            there == self.tone_there(),
    {
        let tone: u64 = self.tone as u64;
        self.tone > AUDIBLE && 20 * tone > self.below as u64 && 20 * tone > self.above as u64
    }
}

/// The most samples a second that phase 2's clock is kept for: twenty seconds
/// of them are counted in 32 bits.
pub const FASTEST: u32 = 214_748_364;

/// A time in milliseconds as samples, to the nearest.
#[verifier::opaque]
pub open spec fn samples(fs: u32, ms: nat) -> nat {
    ((ms * fs + 500) / 1000) as nat
}

/// Up to twenty seconds is not too many samples.
proof fn lemma_samples(fs: u32)
    ensures
        forall|ms: nat| ms <= 20000 ==> #[trigger] samples(fs, ms) <= 20 * fs + 1,
{
    reveal(samples);
    assert forall|ms: nat| ms <= 20000 implies #[trigger] samples(fs, ms) <= 20 * fs + 1 by {
        assert(ms * fs <= 20000 * fs) by (nonlinear_arith)
            requires
                ms <= 20000,
        ;
    }
}

/// Everything phase 2 remembers but for its modulator.
#[derive(Debug, Clone, Copy, PartialEq, Eq)]
pub struct Progress {
    pub role: Role,
    /// Samples a second.
    pub fs: u32,
    /// Samples since phase 2 began.
    pub now: u64,
    pub stage: Stage,
    pub status: Status,
    /// When the stage began, and a deadline for it where it has one.
    pub since: u64,
    pub deadline: Option<u64>,
    pub speaking: Speaking,
    /// A reversal of this end's tone, due at this sample.
    pub reverse_at: Option<u64>,
    /// When this end's last reversal went out.
    pub reversed_at: Option<u64>,
    /// This end's tone stops at this sample.
    pub silence_at: Option<u64>,
    /// L1 starts at this sample.
    pub probe_at: Option<u64>,
    /// This end's tone starts at this sample, after a retrain's silence.
    pub tone_at: Option<u64>,
    /// Samples for which the far end's tone has been there.
    pub held: u64,
    /// Reversals detected before this sample are not tone reversals but the
    /// tail of an INFO sequence, which is DPSK and full of them.
    pub ignore_reversals_until: u64,
    /// The stretch of L2 being read.
    pub read_from: u64,
    pub read_until: u64,
    pub ours: Info0,
    pub far: Option<Info0>,
    /// How many times the far end's INFO0 has been received.
    pub far_info0_count: u32,
    pub first_reversal_at: Option<u64>,
    pub round_trip: Option<u64>,
    pub reading: Option<Reading>,
    pub info1c: Option<Info1c>,
    pub info1a: Option<Info1a>,
    /// Times a timeout was taken instead of the signal it waited for.
    pub recoveries: u32,
    /// Set when the failure is one to retrain from.
    pub retrain_instead: bool,
    /// V.90's part, if this is V.90's phase 2.
    pub pcm: Option<Pcm>,
    /// Whether an analogue modem that meets a digital one asks for V.34 anyway.
    pub pcm_declined: bool,
    /// The far end's INFO0d, if it sent one.
    pub far_info0d: Option<Info0d>,
    /// An INFO1a asking for V.90, sent or received.
    pub info1a_pcm: Option<Info1aPcm>,
    /// An INFO1a asking for PCM upstream, sent or received.
    pub info1a_pcm_up: Option<Info1aPcmUp>,
    /// Whether an analogue modem that could ask for PCM upstream asks for V.90
    /// data mode instead.
    pub pcm_up_declined: bool,
    /// The far end's two V.92 bits, read as its own INFO0 lays them out. Only
    /// ever written in a PCM role.
    pub far_flags: PcmFlags,
    /// Set on a retrain, which always re-enters full phase 2.
    pub full_phase2_only: bool,
    /// Bit 70 as this end's INFO1d sent it, meaning that the channel supports
    /// PCM upstream.
    pub sent_pcm_upstream: bool,
    /// Why the last INFO1a was counted as not received, if one was.
    pub refused_info1a: Option<&'static str>,
}

/// Neither of V.92's flags.
pub open spec fn no_flags() -> PcmFlags {
    PcmFlags { v92: false, short_phase2: false }
}

/// Everything V.34 has, which is what this end says it can do.
pub open spec fn everything() -> Info0 {
    Info0 {
        rate_2743: true,
        rate_2800: true,
        rate_3429: true,
        low_carrier_3000: true,
        high_carrier_3000: true,
        low_carrier_3200: true,
        high_carrier_3200: true,
        transmit_3429: true,
        can_reduce_power: false,
        asymmetry: 5,
        cme: false,
        constellation_1664: true,
        clock: 0,
        acknowledge: false,
    }
}

/// The place in `rates` of the fastest, the earliest of equals, where any is
/// more than zero.
pub open spec fn fastest(rates: Seq<u8>) -> Option<int>
    decreases rates.len(),
{
    if rates.len() == 0 {
        None
    } else {
        let before = fastest(rates.drop_last());
        if rates.last() > 0 && (before is None || rates[before->0] < rates.last()) {
            Some(rates.len() - 1)
        } else {
            before
        }
    }
}

/// The fastest is as fast as any, faster than any before it, and there is one
/// exactly where some rate is more than zero.
pub proof fn the_fastest_is_the_fastest(rates: Seq<u8>)
    ensures
        match fastest(rates) {
            Some(i) => {
                &&& 0 <= i < rates.len()
                &&& rates[i] > 0
                &&& forall|j: int| 0 <= j < rates.len() ==> rates[j] <= rates[i]
                &&& forall|j: int| 0 <= j < i ==> rates[j] < rates[i]
            },
            None => forall|j: int| 0 <= j < rates.len() ==> rates[j] == 0,
        },
    decreases rates.len(),
{
    if rates.len() > 0 {
        the_fastest_is_the_fastest(rates.drop_last());
        assert(forall|j: int|
            0 <= j < rates.len() - 1 ==> #[trigger] rates[j] == rates.drop_last()[j]);
    }
}

/// The symbol rate in a place.
pub open spec fn rate_at(place: int) -> SymbolRate {
    if place == 0 {
        SymbolRate::S2400
    } else if place == 1 {
        SymbolRate::S2743
    } else if place == 2 {
        SymbolRate::S2800
    } else if place == 3 {
        SymbolRate::S3000
    } else if place == 4 {
        SymbolRate::S3200
    } else {
        SymbolRate::S3429
    }
}

/// The fastest of the rates, or `otherwise` where none can be used.
fn best(rates: &[u8; 6], otherwise: SymbolRate) -> (rate: SymbolRate)
    ensures
        rate == match fastest(rates@) {
            Some(place) => rate_at(place),
            None => otherwise,
        },
{
    let mut found: Option<usize> = None;
    let mut i: usize = 0;
    assert(rates@.take(0) =~= Seq::empty());
    while i < 6
        invariant
            i <= 6,
            rates@.len() == 6,
            match fastest(rates@.take(i as int)) {
                Some(place) => found matches Some(at) && at == place && at < i,
                None => found is None,
            },
        decreases 6 - i,
    {
        let faster = match found {
            Some(at) => rates[at] < rates[i],
            None => true,
        };
        if rates[i] > 0 && faster {
            found = Some(i);
        }
        i = i + 1;
        assert(rates@.take(i as int).drop_last() =~= rates@.take(i - 1));
    }
    assert(rates@.take(6) =~= rates@);
    match found {
        Some(at) => SymbolRate::ALL[at],
        None => otherwise,
    }
}

/// Phase 2, one end of it, as a value.
pub struct Standing {
    pub s: Progress,
    pub tx: Sending,
}

/// The rates of each of six projections.
pub open spec fn rates_of(probed: Seq<Probed>) -> Seq<u8> {
    Seq::new(6, |i: int| probed[i].max_rate)
}

impl Progress {
    /// A time in milliseconds as samples.
    pub open spec fn ms(self, ms: nat) -> nat {
        samples(self.fs, ms)
    }

    /// What this end offers of V.92, which is nothing outside a PCM role.
    pub open spec fn wish(self) -> V92Wish {
        match self.pcm {
            Some(pcm) => pcm.wishes(),
            None => V92Wish::nothing(),
        }
    }

    /// Both modems have shown V.92 capability.
    pub open spec fn both_v92(self) -> bool {
        self.wish().capable && self.far_flags.v92
    }

    /// The round trip, or nothing before it has been measured.
    pub open spec fn rtd(self) -> nat {
        match self.round_trip {
            Some(trip) => trip as nat,
            None => 0,
        }
    }

    /// What this end read of the far end's L2, symbol rate by symbol rate.
    pub open spec fn projected(self) -> Seq<Probed> {
        match self.reading {
            Some(reading) => reading.probed@,
            None => Seq::new(6, |i: int| Probed::nothing()),
        }
    }

    pub open spec fn offset(self) -> Option<i16> {
        match self.reading {
            Some(reading) => reading.frequency_offset,
            None => None,
        }
    }

    /// The information of this end's INFO0 as it goes out: INFO0d from a
    /// digital modem, and V.92's flags where this layout puts them.
    #[verifier::opaque]
    pub open spec fn info0(self) -> Seq<bool> {
        match self.pcm {
            Some(Pcm::Digital(d)) => (Info0d { v34: self.ours, ..d }).info(),
            Some(Pcm::DigitalV92(d, wish)) => (Info0d { v34: self.ours, ..d }).with_flags(
                wish.flagged(),
            ).info(),
            Some(Pcm::AnalogueV92(wish)) => self.ours.with_flags(wish.flagged()).info(),
            Some(Pcm::Analogue) => self.ours.info(),
            None => self.ours.info(),
        }
    }

    /// The results this end's INFO1c carries. Between two V.92 modems the
    /// carrier bit at 3429 is the digital modem's verdict on PCM upstream.
    pub open spec fn results(self) -> Seq<Probed> {
        let found = self.projected();
        if self.both_v92() {
            found.update(5, Probed { high_carrier: self.wish().pcm_upstream, ..found[5] })
        } else {
            found
        }
    }

    /// The information of this end's INFO1c.
    pub open spec fn info1c_sent(self) -> Seq<bool> {
        lsb(0, 3) + lsb(0, 3) + lsb(0, 7) + probed_info(self.results()) + lsb(
            offset_field(self.offset()),
            10,
        )
    }

    /// Whether this INFO1d and this call between them let the analogue modem
    /// ask for PCM upstream: both modems have shown V.92, bit 70 is set, it is
    /// wanted here, and neither rung of the fallback ladder has been taken.
    pub open spec fn upstream_allowed(self, info1d: Info1c) -> bool {
        &&& self.both_v92()
        &&& info1d.probed[5].high_carrier
        &&& self.wish().pcm_upstream
        &&& !self.pcm_up_declined
        &&& !self.pcm_declined
    }

    /// The request for PCM upstream.
    pub open spec fn asks_pcm_up(self, codeword: u8) -> Info1aPcmUp {
        let caps = self.wish().up_caps;
        Info1aPcmUp {
            sections: caps.sections,
            ltot_code: caps.ltot_code,
            lmax_code: caps.lmax_code,
            md_length: 0,
            uinfo: codeword,
        }
    }

    /// The upstream rates V.90 allows between these two, as the digital modem
    /// projected them: 3000 and 3200, and 3429 where both ends allow it.
    pub open spec fn upstream_rates(self, info1d: Info1c, far: Info0d) -> Seq<u8> {
        Seq::new(
            6,
            |i: int|
                if i == 3 || i == 4 || (i == 5 && far.upstream_3429 && self.ours.transmit_3429) {
                    info1d.probed[i].max_rate
                } else {
                    0
                },
        )
    }

    /// The request for V.90: the fastest upstream the digital modem projected,
    /// the lower symbol rate on a tie, and 3200 where nothing was projected.
    pub open spec fn asks_pcm(self, info1d: Info1c, far: Info0d, codeword: u8) -> Info1aPcm {
        Info1aPcm {
            md_length: 0,
            uinfo: codeword,
            upstream: match fastest(self.upstream_rates(info1d, far)) {
                Some(place) => rate_at(place),
                None => SymbolRate::S3200,
            },
            frequency_offset: self.offset(),
        }
    }

    /// The symbol rate towards the call modem: the fastest the call modem
    /// projected, the lower on a tie.
    pub open spec fn towards_call(self, info1c: Info1c) -> SymbolRate {
        match fastest(rates_of(info1c.probed@)) {
            Some(place) => rate_at(place),
            None => SymbolRate::S2400,
        }
    }

    /// How many steps apart the two directions may be.
    pub open spec fn steps(self) -> int {
        let far = match self.far {
            Some(far) => far.asymmetry,
            None => 0,
        };
        if far < self.ours.asymmetry {
            far as int
        } else {
            self.ours.asymmetry as int
        }
    }

    /// What this end read of the call modem's L2 at each symbol rate within the
    /// asymmetry both ends allow.
    pub open spec fn towards_answer(self, other: SymbolRate) -> Seq<u8> {
        Seq::new(
            6,
            |i: int|
                if -self.steps() <= i - other.numbered() <= self.steps() {
                    self.projected()[i].max_rate
                } else {
                    0
                },
        )
    }

    /// INFO1a: the symbol rates both ways, and what the call modem's
    /// transmitter is to use.
    pub open spec fn settles(self, info1c: Info1c) -> Info1a {
        let answer_to_call = self.towards_call(info1c);
        let place = fastest(self.towards_answer(answer_to_call));
        Info1a {
            min_power_reduction: 0,
            additional_power_reduction: 0,
            md_length: 0,
            probed: match place {
                Some(place) => self.projected()[place],
                None => Probed::nothing(),
            },
            answer_to_call,
            call_to_answer: match place {
                Some(place) => rate_at(place),
                None => answer_to_call,
            },
            frequency_offset: self.offset(),
        }
    }
}

impl Standing {
    /// What holds of phase 2 at every sample.
    pub open spec fn wf(self) -> bool {
        let s = self.s;
        &&& self.tx.wf()
        &&& self.tx.fs == s.fs
        &&& 0 < s.fs <= FASTEST
        &&& s.status is Running ==> s.now <= 20 * s.fs
        &&& s.since <= s.now
        &&& s.far_info0_count <= s.now + 1
        &&& s.recoveries <= s.now
        &&& s.rtd() <= s.now
        &&& s.reversed_at matches Some(at) ==> at <= s.now
        &&& s.speaking matches Speaking::Probe { l1_until } ==> l1_until <= s.now + s.ms(160)
        &&& self.consistent()
    }

    pub open spec fn enter(self, stage: Stage) -> Standing {
        Standing { s: Progress { stage, since: self.s.now, deadline: None, ..self.s }, ..self }
    }

    pub open spec fn fail(self, why: &'static str) -> Standing {
        Standing {
            s: Progress {
                status: Status::Failed(why),
                stage: Stage::Finished,
                speaking: Speaking::Silent,
                ..self.s
            },
            tx: self.tx.stop(),
        }
    }

    pub open spec fn fail_for_a_retrain(self, why: &'static str) -> Standing {
        let failed = self.fail(why);
        Standing { s: Progress { retrain_instead: true, ..failed.s }, ..failed }
    }

    pub open spec fn done(self) -> Standing {
        Standing { s: Progress { status: Status::Done, ..self.s }, ..self }.enter(Stage::Finished)
    }

    /// This end's tone: the carrier up, with nothing on it.
    pub open spec fn start_tone(self) -> Standing {
        Standing {
            s: Progress { speaking: Speaking::Carrier, ..self.s },
            tx: self.tx.send(Seq::empty()),
        }
    }

    /// Bits behind whatever is going out.
    pub open spec fn send(self, bits: Seq<bool>) -> Standing {
        Standing { tx: self.tx.send(bits), ..self }
    }
}

impl Progress {
    /// The deadline of this stage has gone by.
    pub open spec fn late(self) -> bool {
        self.deadline matches Some(at) && self.now > at
    }

    /// 40 ms after a far reversal, which is when it is answered.
    pub open spec fn turn_after(self, at: u64) -> u64 {
        if at + self.ms(40) > self.now + 1 {
            (at + self.ms(40)) as u64
        } else {
            (self.now + 1) as u64
        }
    }

    /// The round trip, from this end's reversal to the answer to it less the
    /// 40 ms the far end waits.
    pub open spec fn trip(self, ours: u64, at: u64) -> u64 {
        if at - ours > self.ms(40) {
            (at - ours - self.ms(40)) as u64
        } else {
            0
        }
    }

    /// L1 begins 10 ms after a reversal and runs 160 ms; L2 is let settle and
    /// then read.
    pub open spec fn read_after(self, at: u64) -> Progress {
        let l2 = at + self.ms(170);
        Progress {
            read_from: (l2 + self.ms(20)) as u64,
            read_until: (l2 + self.ms(300)) as u64,
            ..self
        }
    }
}

impl Standing {
    /// Everything scheduled for this sample.
    #[verifier::opaque]
    pub open spec fn timers(self) -> Standing {
        self.tone_timer().reversal_timer().silence_timer()
    }

    pub open spec fn tone_timer(self) -> Standing {
        if self.s.tone_at == Some(self.s.now) {
            let started = self.start_tone();
            Standing { s: Progress { tone_at: None, since: self.s.now, ..started.s }, ..started }
        } else {
            self
        }
    }

    pub open spec fn reversal_timer(self) -> Standing {
        if self.s.reverse_at == Some(self.s.now) {
            Standing {
                s: Progress {
                    reverse_at: None,
                    reversed_at: Some(self.s.now),
                    silence_at: Some((self.s.now + self.s.ms(10)) as u64),
                    ..self.s
                },
                tx: self.tx.reverse(),
            }
        } else {
            self
        }
    }

    pub open spec fn silence_timer(self) -> Standing {
        if self.s.silence_at == Some(self.s.now) {
            Standing {
                s: Progress {
                    silence_at: None,
                    probe_at: None,
                    speaking: if self.s.probe_at is Some {
                        Speaking::Probe { l1_until: (self.s.now + self.s.ms(160)) as u64 }
                    } else {
                        Speaking::Silent
                    },
                    ..self.s
                },
                tx: self.tx.stop(),
            }
        } else {
            self
        }
    }

    /// The far end's capabilities. A repeat of them while this end is still
    /// sending its own means that those were not received, so they go again,
    /// now saying that the far end's arrived.
    pub open spec fn heard_info0(self, far: Info0) -> Standing {
        let s = Progress {
            far: Some(far),
            far_flags: if self.s.pcm is Some && self.s.far_info0d is None {
                PcmFlags { v92: far.clock % 2 == 1, short_phase2: far.clock / 2 % 2 == 1 }
            } else {
                self.s.far_flags
            },
            far_info0_count: (self.s.far_info0_count + 1) as u32,
            ignore_reversals_until: (self.s.now + self.s.ms(40)) as u64,
            ours: Info0 { acknowledge: true, ..self.s.ours },
            ..self.s
        };
        let heard = Standing { s, ..self };
        if s.far_info0_count > 1 && (s.stage is CallInfo0 || s.stage is AnswerInfo0) {
            heard.send(framed(s.info0()))
        } else {
            heard
        }
    }

    /// The answer modem hears the call modem's results, and answers with what
    /// the two will use: PCM upstream or V.90 where it may ask for them, and
    /// V.34 otherwise.
    pub open spec fn heard_info1c(self, info1c: Info1c, h: Heard) -> Standing {
        let s = Progress { info1c: Some(info1c), ..self.s };
        let analogue = s.pcm is Some && s.pcm->0.plays() is Answer;
        let (answered, info) = if analogue && s.far_info0d is Some && s.upstream_allowed(info1c) {
            let asked = s.asks_pcm_up(h.codeword_v92);
            (Progress { info1a_pcm: None, info1a_pcm_up: Some(asked), ..s }, asked.info())
        } else if analogue && s.far_info0d is Some && !s.pcm_declined {
            let asked = s.asks_pcm(info1c, s.far_info0d->0, h.codeword);
            (
                Progress {
                    info1a_pcm: Info1aPcm::of_info(asked.info()),
                    info1a_pcm_up: None,
                    ..s
                },
                asked.info(),
            )
        } else {
            let settled = s.settles(info1c);
            (Progress { info1a: Info1a::of_info(settled.info()), ..s }, settled.info())
        };
        Standing {
            s: Progress { speaking: Speaking::Carrier, ..answered },
            tx: self.tx.send(framed(info)).silence(),
        }
    }

    /// A request for PCM upstream is acted on only where both modems have shown
    /// V.92 and the INFO1d this end sent allowed it; otherwise it is counted as
    /// not received.
    pub open spec fn heard_pcm_up(self, asked: Info1aPcmUp) -> Standing {
        if self.s.both_v92() && self.s.sent_pcm_upstream {
            Standing {
                s: Progress { info1a_pcm: None, info1a_pcm_up: Some(asked), ..self.s },
                ..self
            }.done()
        } else if self.s.both_v92() {
            Standing {
                s: Progress {
                    refused_info1a: Some("a table 18 info1a after an info1d that cleared bit 70"),
                    ..self.s
                },
                ..self
            }
        } else {
            Standing {
                s: Progress {
                    refused_info1a: Some(
                        "a table 18 info1a from a far end that did not indicate v.92",
                    ),
                    ..self.s
                },
                ..self
            }
        }
    }

    /// An INFO sequence.
    #[verifier::opaque]
    pub open spec fn heard(self, info: Info, h: Heard) -> Standing {
        let call = self.s.role is Call && self.s.stage is CallInfo1;
        match info {
            Info::Info0d(far) => Standing {
                s: Progress {
                    far_info0d: Some(far),
                    far_flags: if self.s.pcm is Some {
                        far.flags()
                    } else {
                        self.s.far_flags
                    },
                    ..self.s
                },
                ..self
            }.heard_info0(far.v34),
            Info::Info0(far) => self.heard_info0(far),
            Info::Info1c(info1c) => if self.s.role is Answer && self.s.stage is AnswerInfo1 {
                self.heard_info1c(info1c, h)
            } else {
                self
            },
            Info::Info1a(info1a) => if call {
                Standing { s: Progress { info1a: Some(info1a), ..self.s }, ..self }.done()
            } else {
                self
            },
            Info::Info1aPcm(asked) => if call && self.s.pcm is Some {
                Standing {
                    s: Progress { info1a_pcm: Some(asked), info1a_pcm_up: None, ..self.s },
                    ..self
                }.done()
            } else {
                self
            },
            Info::Info1aPcmUp(asked) => if call && self.s.pcm is Some {
                self.heard_pcm_up(asked)
            } else {
                self
            },
            _ => self,
        }
    }

    /// A reversal of the far end's tone, on the line at sample `at`.
    #[verifier::opaque]
    pub open spec fn reversal(self, at: u64) -> Standing {
        let s = self.s;
        let answers = s.reversed_at matches Some(ours) && at > ours;
        match s.stage {
            // The answer modem's first reversal, answered 40 ms later.
            Stage::CallFirstReversal => {
                let next = Standing {
                    s: Progress {
                        first_reversal_at: Some(at),
                        reverse_at: Some(s.turn_after(at)),
                        ..s
                    },
                    ..self
                }.enter(Stage::CallRanging);
                Standing {
                    s: Progress { deadline: Some((at + s.ms(2000)) as u64), ..next.s },
                    ..next
                }
            },
            // Its second, and the round trip.
            Stage::CallRanging => if answers {
                Standing {
                    s: Progress { round_trip: Some(s.trip(s.reversed_at->0, at)), ..s }.read_after(
                        at,
                    ),
                    ..self
                }.enter(Stage::CallReadProbe)
            } else {
                self
            },
            // The answer modem's reversal after its L2, answered 40 ms later
            // with tone B's, then L1 and L2.
            Stage::CallAwaitTone => if s.held > 0 || s.now - s.since > s.ms(100) {
                Standing {
                    s: Progress {
                        reverse_at: Some(s.turn_after(at)),
                        probe_at: Some((s.turn_after(at) + s.ms(10)) as u64),
                        ..s
                    },
                    ..self
                }.enter(Stage::CallSendProbe)
            } else {
                self
            },
            // The call modem's answer to ours, and the round trip; then tone
            // A's reversal 40 ms on, and L1 and L2.
            Stage::AnswerRanging => if answers {
                Standing {
                    s: Progress {
                        round_trip: Some(s.trip(s.reversed_at->0, at)),
                        reverse_at: Some(s.turn_after(at)),
                        probe_at: Some((s.turn_after(at) + s.ms(10)) as u64),
                        ..s
                    },
                    ..self
                }.enter(Stage::AnswerSendProbe)
            } else {
                self
            },
            // The call modem's reversal before its L1 and L2.
            Stage::AnswerProbeReversal => Standing { s: s.read_after(at), ..self }.enter(
                Stage::AnswerReadProbe,
            ),
            _ => self,
        }
    }
}

impl Standing {
    /// A timeout taken instead of the signal it waited for.
    pub open spec fn recovered(self) -> Standing {
        Standing { s: Progress { recoveries: (self.s.recoveries + 1) as u32, ..self.s }, ..self }
    }

    pub open spec fn until(self, deadline: int) -> Standing {
        Standing { s: Progress { deadline: Some(deadline as u64), ..self.s }, ..self }
    }

    pub open spec fn deaf_until(self, at: int) -> Standing {
        Standing { s: Progress { ignore_reversals_until: at as u64, ..self.s }, ..self }
    }

    /// INFO0a received, and INFO0c gone: on to the reversals.
    pub open spec fn call_info0(self) -> Standing {
        if self.s.far is Some && self.tx.pending.len() == 0 {
            self.enter(Stage::CallFirstReversal)
        } else {
            self
        }
    }

    /// Tone B until the reversal comes, however long; and after a silence, once
    /// tone A is heard.
    pub open spec fn call_first_reversal(self) -> Standing {
        let s = self.s;
        if s.speaking is Silent && s.tone_at is None && s.held >= s.ms(20) {
            self.start_tone()
        } else {
            self
        }
    }

    /// No answer to this end's reversal: silence, and back to waiting for the
    /// first.
    pub open spec fn call_ranging(self) -> Standing {
        if self.s.late() {
            Standing {
                s: Progress { first_reversal_at: None, reversed_at: None, ..self.s },
                ..self
            }.recovered().enter(Stage::CallFirstReversal)
        } else {
            self
        }
    }

    /// L2 read: tone B, and the answer modem's reversal is next.
    pub open spec fn call_read_probe(self, reading: Option<Reading>) -> Standing {
        let s = self.s;
        if s.now >= s.read_until {
            Standing { s: Progress { reading, ..s }, ..self }.start_tone().enter(
                Stage::CallAwaitTone,
            ).until(s.now + s.ms(900) + s.rtd()).deaf_until(s.now + s.ms(50))
        } else {
            self
        }
    }

    /// No reversal: wait 40 ms and go on as though there had been one.
    pub open spec fn call_await_tone(self) -> Standing {
        let s = self.s;
        if s.late() && s.reverse_at is None {
            Standing {
                s: Progress {
                    reverse_at: Some((s.now + s.ms(40)) as u64),
                    probe_at: Some((s.now + s.ms(40) + s.ms(10)) as u64),
                    ..s
                },
                ..self
            }.recovered().enter(Stage::CallSendProbe)
        } else {
            self
        }
    }

    /// A deadline counted from the beginning of L2, where there is none yet.
    pub open spec fn timed_from(self, l1_until: u64, ms: nat) -> Standing {
        if self.s.deadline is None {
            self.until(l1_until + self.s.ms(ms) + self.s.rtd())
        } else {
            self
        }
    }

    /// L1 and L2 going out, until tone A is heard over the echo of them.
    pub open spec fn call_send_probe(self) -> Standing {
        let s = self.s;
        match s.speaking {
            Speaking::Probe { l1_until } => {
                let timed = self.timed_from(l1_until, 950);
                if s.now > l1_until && s.held >= s.ms(20) {
                    timed.send_info1c()
                } else if timed.s.late() {
                    timed.fail_for_a_retrain("no tone A after this end's probing")
                } else {
                    timed
                }
            },
            _ => self,
        }
    }

    /// INFO1c gone, and INFO1a waited for.
    pub open spec fn call_info1(self) -> Standing {
        let s = self.s;
        let timed = if s.deadline is None && self.tx.pending.len() == 0 {
            self.until(s.now + s.ms(700) + s.rtd() + s.ms(300))
        } else {
            self
        };
        if timed.s.late() {
            timed.fail_for_a_retrain("no INFO1a")
        } else {
            timed
        }
    }

    /// Tone A, heard over the echo of L2: INFO1c, and silence after it.
    pub open spec fn send_info1c(self) -> Standing {
        let s = self.s;
        Standing {
            s: Progress {
                info1c: Some(Info1c::of_info(s.info1c_sent())),
                sent_pcm_upstream: if s.both_v92() {
                    s.wish().pcm_upstream
                } else {
                    s.sent_pcm_upstream
                },
                speaking: Speaking::Carrier,
                ..s
            },
            tx: self.tx.stop().send(framed(s.info1c_sent())).silence(),
        }.enter(Stage::CallInfo1)
    }

    /// The modulator stopped dead, and this end's tone started afresh.
    pub open spec fn fresh_tone(self) -> Standing {
        Standing { tx: self.tx.stop(), ..self }.start_tone()
    }

    /// INFO0c received, and INFO0a gone.
    pub open spec fn answer_info0(self) -> Standing {
        if self.s.far is Some && self.tx.pending.len() == 0 {
            self.enter(Stage::AnswerAwaitTone)
        } else {
            self
        }
    }

    /// Tone B heard, and tone A on for 50 ms: its reversal.
    pub open spec fn answer_await_tone(self) -> Standing {
        let s = self.s;
        if s.tone_at is None && s.held >= s.ms(20) && s.now - s.since >= s.ms(50) {
            Standing {
                s: Progress { reverse_at: Some((s.now + 1) as u64), ..s },
                ..self
            }.enter(Stage::AnswerRanging).until(s.now + s.ms(2000)).deaf_until(s.now + s.ms(40))
        } else {
            self
        }
    }

    /// The reversal just made should not also stop the tone.
    pub open spec fn keep_tone(self) -> Standing {
        let s = self.s;
        if s.reversed_at is Some && s.silence_at is Some && s.probe_at is None {
            Standing { s: Progress { silence_at: None, ..s }, ..self }
        } else {
            self
        }
    }

    /// No answer to this end's reversal: listen for tone B and reverse again.
    pub open spec fn answer_ranging(self) -> Standing {
        let kept = self.keep_tone();
        if kept.s.late() {
            Standing { s: Progress { reversed_at: None, ..kept.s }, ..kept }.recovered().enter(
                Stage::AnswerAwaitTone,
            )
        } else {
            kept
        }
    }

    /// Tone B over the echo of L2: tone A for 50 ms, its reversal, 10 ms more
    /// and silence. Without it, back to the first tone.
    pub open spec fn answer_send_probe(self) -> Standing {
        let s = self.s;
        match s.speaking {
            Speaking::Probe { l1_until } => {
                let timed = self.timed_from(l1_until, 900);
                if s.now > l1_until && s.held >= s.ms(20) {
                    let tone = timed.fresh_tone();
                    Standing {
                        s: Progress { reverse_at: Some((s.now + s.ms(50)) as u64), ..tone.s },
                        ..tone
                    }.enter(Stage::AnswerProbeReversal).deaf_until(s.now + s.ms(60))
                } else if timed.s.late() {
                    let tone = timed.fresh_tone();
                    Standing {
                        s: Progress { reversed_at: None, ..tone.s },
                        ..tone
                    }.recovered().enter(Stage::AnswerAwaitTone)
                } else {
                    timed
                }
            },
            _ => self,
        }
    }

    /// L2 read: tone A, and INFO1c is next.
    pub open spec fn answer_read_probe(self, reading: Option<Reading>) -> Standing {
        let s = self.s;
        if s.now >= s.read_until {
            Standing { s: Progress { reading, ..s }, ..self }.start_tone().enter(
                Stage::AnswerInfo1,
            ).until(s.now + s.ms(2000) + 2 * s.rtd())
        } else {
            self
        }
    }

    /// INFO1a gone, or INFO1c waited for.
    pub open spec fn answer_info1(self) -> Standing {
        let s = self.s;
        if s.info1a is Some || s.info1a_pcm is Some || s.info1a_pcm_up is Some {
            if self.tx.sending() {
                self
            } else {
                self.done()
            }
        } else if s.late() {
            self.fail_for_a_retrain("no INFO1c")
        } else {
            self
        }
    }

    /// The stage this end is in, a sample on.
    #[verifier::opaque]
    pub open spec fn stage_step(self, h: Heard) -> Standing {
        match self.s.stage {
            Stage::CallInfo0 => self.call_info0(),
            Stage::CallFirstReversal => self.call_first_reversal(),
            Stage::CallRanging => self.call_ranging(),
            Stage::CallReadProbe => self.call_read_probe(h.reading),
            Stage::CallAwaitTone => self.call_await_tone(),
            Stage::CallSendProbe => self.call_send_probe(),
            Stage::CallInfo1 => self.call_info1(),
            Stage::AnswerInfo0 => self.answer_info0(),
            Stage::AnswerAwaitTone => self.answer_await_tone(),
            Stage::AnswerRanging => self.answer_ranging(),
            Stage::AnswerSendProbe => self.answer_send_probe(),
            Stage::AnswerProbeReversal => self,
            Stage::AnswerReadProbe => self.answer_read_probe(h.reading),
            Stage::AnswerInfo1 => self.answer_info1(),
            Stage::Finished => self,
        }
    }

    /// One more sample heard.
    pub open spec fn hear(self, h: Heard) -> Standing {
        Standing {
            s: Progress {
                now: (self.s.now + 1) as u64,
                held: if h.tone_there() {
                    (self.s.held + 1) as u64
                } else {
                    0
                },
                ..self.s
            },
            ..self
        }
    }

    /// What a sample changes of a phase 2 that is still running.
    #[verifier::opaque]
    pub open spec fn run(self, h: Heard) -> Standing {
        if self.s.now > self.s.ms(20000) {
            self.fail("phase 2 went on for twenty seconds")
        } else {
            let timed = self.timers();
            let informed = match h.info {
                Some(info) => timed.heard(info, h),
                None => timed,
            };
            let ranged = if h.reversed && self.s.now >= self.s.ignore_reversals_until {
                informed.reversal(
                    if self.s.now > h.latency {
                        (self.s.now - h.latency) as u64
                    } else {
                        0
                    },
                )
            } else {
                informed
            };
            ranged.stage_step(h)
        }
    }

    /// One sample on.
    pub open spec fn step(self, h: Heard) -> Standing {
        let heard = self.hear(h);
        let next = if heard.s.status is Running {
            heard.run(h)
        } else {
            heard
        };
        if next.s.speaking is Carrier {
            Standing { tx: next.tx.step(), ..next }
        } else {
            next
        }
    }
}

/// What goes on the line at a sample, and what becomes of the one just heard.
#[derive(Debug, Clone, Copy, PartialEq, Eq, Structural)]
pub struct Said {
    pub line: Line,
    /// The sample just heard belongs to the stretch of L2 being read.
    pub analyse: bool,
    /// The reading of L2 starts again after it.
    pub restart: bool,
}

/// What goes on the line.
#[derive(Debug, Clone, Copy, PartialEq, Eq, Structural)]
pub enum Line {
    Silence,
    /// The modulator's points, and its pulse through them.
    Carrier,
    L1,
    L2,
}

/// Phase 2, one end of it.
#[derive(Debug, Clone)]
pub struct Modem {
    pub state: Progress,
    pub tx: Transmitter,
}

impl View for Modem {
    type V = Standing;

    open spec fn view(&self) -> Standing {
        Standing { s: self.state, tx: self.tx@ }
    }
}

/// What each end is, before anything has been heard.
pub open spec fn blank(role: Role, fs: u32) -> Standing {
    Standing {
        s: Progress {
            role,
            fs,
            now: 0,
            stage: Stage::Finished,
            status: Status::Running,
            since: 0,
            deadline: None,
            speaking: Speaking::Silent,
            reverse_at: None,
            reversed_at: None,
            silence_at: None,
            probe_at: None,
            tone_at: None,
            held: 0,
            ignore_reversals_until: 0,
            read_from: u64::MAX,
            read_until: u64::MAX,
            ours: everything(),
            far: None,
            far_info0_count: 0,
            first_reversal_at: None,
            round_trip: None,
            reading: None,
            info1c: None,
            info1a: None,
            recoveries: 0,
            retrain_instead: false,
            pcm: None,
            pcm_declined: false,
            far_info0d: None,
            info1a_pcm: None,
            info1a_pcm_up: None,
            pcm_up_declined: false,
            far_flags: no_flags(),
            full_phase2_only: false,
            sent_pcm_upstream: false,
            refused_info1a: None,
        },
        tx: Sending::new(role.sends_as(), fs as nat),
    }
}

/// Phase 2 from its start, in a PCM role or none: INFO0 with this end's tone
/// after it.
pub open spec fn opened(role: Role, pcm: Option<Pcm>, fs: u32) -> Standing {
    let start = blank(role, fs);
    let s = Progress {
        pcm,
        stage: match role {
            Role::Call => Stage::CallInfo0,
            Role::Answer => Stage::AnswerInfo0,
        },
        speaking: Speaking::Carrier,
        ..start.s
    };
    Standing { s, ..start }.send(framed(s.info0()))
}

/// Phase 2 as a retrain: INFO0 is skipped, and after a silence this end goes
/// straight to its tone and the reversals.
pub open spec fn reopened(role: Role, pcm: Option<Pcm>, fs: u32, far: Info0) -> Standing {
    let start = blank(role, fs);
    Standing {
        s: Progress {
            pcm,
            far: Some(far),
            far_info0_count: 1,
            ours: Info0 { acknowledge: true, ..everything() },
            tone_at: Some(samples(fs, 70) as u64),
            ignore_reversals_until: samples(fs, 120) as u64,
            stage: match role {
                Role::Call => Stage::CallFirstReversal,
                Role::Answer => Stage::AnswerAwaitTone,
            },
            ..start.s
        },
        ..start
    }
}

impl Modem {
    /// Every field at rest: silent, at the finished stage, nothing heard.
    fn blank(role: Role, fs: u32) -> (modem: Modem)
        requires
            0 < fs <= FASTEST,
        ensures
            modem@ == blank(role, fs),
            modem.tx@.wf(),
    {
        Modem {
            state: Progress {
                role,
                fs,
                now: 0,
                stage: Stage::Finished,
                status: Status::Running,
                since: 0,
                deadline: None,
                speaking: Speaking::Silent,
                reverse_at: None,
                reversed_at: None,
                silence_at: None,
                probe_at: None,
                tone_at: None,
                held: 0,
                ignore_reversals_until: 0,
                read_from: u64::MAX,
                read_until: u64::MAX,
                ours: Modem::capabilities(),
                far: None,
                far_info0_count: 0,
                first_reversal_at: None,
                round_trip: None,
                reading: None,
                info1c: None,
                info1a: None,
                recoveries: 0,
                retrain_instead: false,
                pcm: None,
                pcm_declined: false,
                far_info0d: None,
                info1a_pcm: None,
                info1a_pcm_up: None,
                pcm_up_declined: false,
                far_flags: PcmFlags { v92: false, short_phase2: false },
                full_phase2_only: false,
                sent_pcm_upstream: false,
                refused_info1a: None,
            },
            tx: Transmitter::new(role.side(), fs),
        }
    }

    /// What this end says it can do: everything V.34 has.
    fn capabilities() -> (ours: Info0)
        ensures
            ours == everything(),
    {
        Info0 {
            rate_2743: true,
            rate_2800: true,
            rate_3429: true,
            low_carrier_3000: true,
            high_carrier_3000: true,
            low_carrier_3200: true,
            high_carrier_3200: true,
            transmit_3429: true,
            can_reduce_power: false,
            asymmetry: 5,
            cme: false,
            constellation_1664: true,
            clock: 0,
            acknowledge: false,
        }
    }

    fn open(role: Role, pcm: Option<Pcm>, fs: u32) -> (modem: Modem)
        requires
            0 < fs <= FASTEST,
            pcm matches Some(pcm) ==> role == pcm.plays(),
        ensures
            modem@ == opened(role, pcm, fs),
            modem@.wf(),
    {
        let mut modem = Modem::blank(role, fs);
        modem.state.pcm = pcm;
        modem.state.stage = match role {
            Role::Call => Stage::CallInfo0,
            Role::Answer => Stage::AnswerInfo0,
        };
        modem.state.speaking = Speaking::Carrier;
        let bits = modem.info0_bits();
        modem.tx.send(bits.as_slice());
        modem
    }

    /// Phase 2 from its start: the 75 ms of silence that end phase 1 have
    /// already gone.
    pub fn new(role: Role, fs: u32) -> (modem: Modem)
        requires
            0 < fs <= FASTEST,
        ensures
            modem@ == opened(role, None, fs),
            modem@.wf(),
    {
        Modem::open(role, None, fs)
    }

    /// V.90's phase 2 from its start.
    pub fn v90(pcm: Pcm, fs: u32) -> (modem: Modem)
        requires
            0 < fs <= FASTEST,
        ensures
            modem@ == opened(pcm.plays(), Some(pcm), fs),
            modem@.wf(),
    {
        Modem::open(pcm.role(), Some(pcm), fs)
    }

    /// This end's INFO0 as it goes out: INFO0d from a digital modem, and the
    /// two V.92 flags at whichever bits this layout puts them.
    pub fn info0_bits(&self) -> (bits: Vec<bool>)
        ensures
            bits@ == framed(self.state.info0()),
    {
        let ours = self.state.ours;
        proof {
            reveal(Progress::info0);
        }
        match self.state.pcm {
            Some(Pcm::Digital(d)) => {
                let sent = Info0d { v34: ours, ..d };
                sent.to_bits()
            },
            Some(Pcm::DigitalV92(d, wish)) => {
                let mut sent = Info0d { v34: ours, ..d };
                sent.set_pcm_flags(wish.flags());
                sent.to_bits()
            },
            Some(Pcm::AnalogueV92(wish)) => {
                let mut sent = ours;
                sent.set_pcm_flags(wish.flags());
                sent.to_bits()
            },
            Some(Pcm::Analogue) => ours.to_bits(),
            None => ours.to_bits(),
        }
    }

    /// A time in milliseconds as samples, to the nearest.
    pub fn ms(&self, ms: u32) -> (count: u64)
        requires
            ms <= 20000,
            self.state.fs <= FASTEST,
        ensures
            count == self.state.ms(ms as nat),
            count <= 20 * self.state.fs + 1,
            ms == 20000 ==> count == 20 * self.state.fs,
    {
        proof {
            lemma_samples(self.state.fs);
            reveal(samples);
        }
        let (time, fs): (u64, u64) = (ms as u64, self.state.fs as u64);
        assert(time * fs <= 20000 * 214_748_364) by (nonlinear_arith)
            requires
                time <= 20000,
                fs <= 214_748_364,
        ;
        (time * fs + 500) / 1000
    }
}

impl Standing {
    /// What holds while a sample is being acted on: the counters have room, and
    /// no time is more than a few seconds off.
    pub open spec fn midway(self) -> bool {
        let s = self.s;
        &&& self.tx.wf()
        &&& self.tx.fs == s.fs
        &&& 0 < s.fs <= FASTEST
        &&& 0 < s.now <= 20 * s.fs
        &&& s.since <= s.now
        &&& s.rtd() <= s.now
        &&& s.reversed_at matches Some(at) ==> at <= s.now
        &&& s.speaking matches Speaking::Probe { l1_until } ==> l1_until <= s.now + s.ms(160)
        &&& s.recoveries < s.now
        &&& s.far_info0_count <= s.now + 1
        &&& self.consistent()
    }

    /// What the fields of a phase 2 that has or has not ended say of each other.
    pub open spec fn consistent(self) -> bool {
        let s = self.s;
        &&& s.held <= s.now
        &&& s.status is Failed ==> s.speaking is Silent && !self.tx.sending()
        &&& !(s.status is Running) ==> s.stage is Finished
        &&& s.retrain_instead ==> s.status is Failed
        &&& s.info1a_pcm is None || s.info1a_pcm_up is None
        &&& s.pcm is None ==> s.far_flags == no_flags()
        &&& s.pcm matches Some(pcm) ==> s.role == pcm.plays()
    }
}

impl Modem {
    fn enter(&mut self, stage: Stage)
        ensures
            final(self)@ == old(self)@.enter(stage),
    {
        self.state.stage = stage;
        self.state.since = self.state.now;
        self.state.deadline = None;
    }

    fn fail(&mut self, why: &'static str)
        ensures
            final(self)@ == old(self)@.fail(why),
    {
        self.state.status = Status::Failed(why);
        self.state.stage = Stage::Finished;
        self.tx.stop();
        self.state.speaking = Speaking::Silent;
    }

    /// Stop here, for a lapse that is answered with a retrain rather than the
    /// end of the call.
    fn fail_for_a_retrain(&mut self, why: &'static str)
        ensures
            final(self)@ == old(self)@.fail_for_a_retrain(why),
    {
        self.fail(why);
        self.state.retrain_instead = true;
    }

    fn finish(&mut self)
        ensures
            final(self)@ == old(self)@.done(),
    {
        self.state.status = Status::Done;
        self.enter(Stage::Finished);
    }

    fn start_tone(&mut self)
        ensures
            final(self)@ == old(self)@.start_tone(),
    {
        let none: [bool; 0] = [];
        self.tx.send(&none);
        self.state.speaking = Speaking::Carrier;
        assert(none@ =~= Seq::empty());
    }

    fn late(&self) -> (late: bool)
        ensures
            late == self.state.late(),
    {
        match self.state.deadline {
            Some(at) => self.state.now > at,
            None => false,
        }
    }

    fn rtd(&self) -> (trip: u64)
        ensures
            trip == self.state.rtd(),
    {
        match self.state.round_trip {
            Some(trip) => trip,
            None => 0,
        }
    }

    fn recover(&mut self)
        requires
            old(self).state.recoveries < u32::MAX,
        ensures
            final(self)@ == old(self)@.recovered(),
    {
        self.state.recoveries = self.state.recoveries + 1;
    }

    fn tone_timer(&mut self)
        ensures
            final(self)@ == old(self)@.tone_timer(),
    {
        let now: u64 = self.state.now;
        if self.state.tone_at == Some(now) {
            self.start_tone();
            // The stage's own clock -- tone A's 50 ms before its reversal --
            // starts with the tone.
            self.state = Progress { tone_at: None, since: now, ..self.state };
        }
    }

    fn reversal_timer(&mut self)
        requires
            old(self)@.tx.wf(),
            old(self).state.fs <= FASTEST,
            old(self).state.now <= 20 * old(self).state.fs,
        ensures
            final(self)@ == old(self)@.reversal_timer(),
            final(self)@.tx.wf(),
    {
        let now: u64 = self.state.now;
        if self.state.reverse_at == Some(now) {
            let silence: u64 = now + self.ms(10);
            self.tx.reverse();
            self.state = Progress {
                reverse_at: None,
                reversed_at: Some(now),
                silence_at: Some(silence),
                ..self.state
            };
        }
    }

    fn silence_timer(&mut self)
        requires
            old(self).state.fs <= FASTEST,
            old(self).state.now <= 20 * old(self).state.fs,
        ensures
            final(self)@ == old(self)@.silence_timer(),
    {
        let now: u64 = self.state.now;
        if self.state.silence_at == Some(now) {
            // The tone's ten milliseconds are up, and where there is a probe to
            // send L1 follows at once.
            let speaking = if self.state.probe_at.is_some() {
                Speaking::Probe { l1_until: now + self.ms(160) }
            } else {
                Speaking::Silent
            };
            self.tx.stop();
            self.state = Progress { silence_at: None, probe_at: None, speaking, ..self.state };
        }
    }

    /// Everything scheduled for this sample.
    fn timers(&mut self)
        requires
            old(self)@.midway(),
        ensures
            final(self)@ == old(self)@.timers(),
    {
        proof {
            reveal(Standing::timers);
        }
        self.tone_timer();
        self.reversal_timer();
        self.silence_timer();
    }

    fn wish(&self) -> (wish: V92Wish)
        ensures
            wish == self.state.wish(),
    {
        match self.state.pcm {
            Some(pcm) => pcm.wish(),
            None => V92Wish::default(),
        }
    }

    /// Whether both modems have shown V.92 capability. Everything V.92 adds to
    /// phase 2 hangs off this.
    pub fn both_v92(&self) -> (both: bool)
        ensures
            both == self.state.both_v92(),
    {
        self.wish().capable && self.state.far_flags.v92
    }

    fn table_18_allowed(&self, info1d: &Info1c) -> (allowed: bool)
        ensures
            allowed == self.state.upstream_allowed(*info1d),
    {
        self.both_v92() && info1d.pcm_upstream() && self.wish().pcm_upstream
            && !self.state.pcm_up_declined && !self.state.pcm_declined
    }

    /// The request for PCM upstream: the precoder and prefilter the digital
    /// modem may design, and the codeword it is to train with. MD is length 0.
    fn settle_pcm_up(&self, codeword: u8) -> (asked: Info1aPcmUp)
        ensures
            asked == self.state.asks_pcm_up(codeword),
    {
        let caps = self.wish().up_caps;
        Info1aPcmUp {
            sections: caps.sections,
            ltot_code: caps.ltot_code,
            lmax_code: caps.lmax_code,
            md_length: 0,
            uinfo: codeword,
        }
    }

    fn offset(&self) -> (offset: Option<i16>)
        ensures
            offset == self.state.offset(),
    {
        match self.state.reading {
            Some(reading) => reading.frequency_offset,
            None => None,
        }
    }

    fn projected(&self) -> (probed: [Probed; 6])
        ensures
            probed@ == self.state.projected(),
    {
        match self.state.reading {
            Some(reading) => reading.probed,
            None => {
                let none = Probed::default();
                let probed = [none, none, none, none, none, none];
                assert(probed@ =~= self.state.projected());
                probed
            },
        }
    }

    /// The request for V.90: the upstream symbol rate, and the codeword the
    /// digital modem is to train with.
    fn settle_pcm(&self, info1d: &Info1c, far: &Info0d, codeword: u8) -> (asked: Info1aPcm)
        ensures
            asked == self.state.asks_pcm(*info1d, *far, codeword),
    {
        let probed = info1d.probed;
        let top: u8 = if far.upstream_3429 && self.state.ours.transmit_3429 {
            probed[5].max_rate
        } else {
            0
        };
        let rates: [u8; 6] = [0, 0, 0, probed[3].max_rate, probed[4].max_rate, top];
        assert(rates@ =~= self.state.upstream_rates(*info1d, *far));
        Info1aPcm {
            md_length: 0,
            uinfo: codeword,
            upstream: best(&rates, SymbolRate::S3200),
            frequency_offset: self.offset(),
        }
    }

    /// How many steps apart the two directions may be.
    fn steps(&self) -> (steps: u32)
        ensures
            steps == self.state.steps(),
    {
        let far: u8 = match self.state.far {
            Some(far) => far.asymmetry,
            None => 0,
        };
        if far < self.state.ours.asymmetry {
            far as u32
        } else {
            self.state.ours.asymmetry as u32
        }
    }

    /// INFO1a: the symbol rates both ways, and what the call modem's
    /// transmitter is to use.
    pub fn settle(&self, info1c: &Info1c) -> (settled: Info1a)
        ensures
            settled == self.state.settles(*info1c),
    {
        let found = info1c.probed;
        let towards_call: [u8; 6] = [
            found[0].max_rate,
            found[1].max_rate,
            found[2].max_rate,
            found[3].max_rate,
            found[4].max_rate,
            found[5].max_rate,
        ];
        assert(towards_call@ =~= rates_of(info1c.probed@));
        let answer_to_call = best(&towards_call, SymbolRate::S2400);
        let steps: u32 = self.steps();
        let other: u32 = answer_to_call.index();
        let probed = self.projected();
        let mut rates: [u8; 6] = [0, 0, 0, 0, 0, 0];
        let mut i: usize = 0;
        while i < 6
            invariant
                i <= 6,
                steps == self.state.steps(),
                steps <= 255,
                other == answer_to_call.numbered() < 6,
                probed@ == self.state.projected(),
                forall|j: int|
                    0 <= j < 6 ==> #[trigger] rates@[j] == if j < i {
                        self.state.towards_answer(answer_to_call)[j]
                    } else {
                        0
                    },
            decreases 6 - i,
        {
            let at: u32 = i as u32;
            if at <= other + steps && other <= at + steps {
                rates[i] = probed[i].max_rate;
            }
            i = i + 1;
        }
        assert(rates@ =~= self.state.towards_answer(answer_to_call));
        let call_to_answer = best(&rates, answer_to_call);
        proof {
            the_fastest_is_the_fastest(rates@);
        }
        let at: usize = call_to_answer.index() as usize;
        let chosen = if rates[at] > 0 {
            probed[at]
        } else {
            Probed::default()
        };
        Info1a {
            min_power_reduction: 0,
            additional_power_reduction: 0,
            md_length: 0,
            probed: chosen,
            answer_to_call,
            call_to_answer,
            frequency_offset: self.offset(),
        }
    }
}

impl Modem {
    fn heard_info0(&mut self, far: Info0)
        requires
            old(self)@.midway(),
            old(self).state.far_info0_count <= old(self).state.now,
        ensures
            final(self)@ == old(self)@.heard_info0(far),
    {
        // Read as flags only where this is INFO0a's order, and only in a PCM
        // role: in V.34's own phase 2 the two bits are a transmit clock source.
        let flags = if self.state.pcm.is_some() && self.state.far_info0d.is_none() {
            far.pcm_flags()
        } else {
            self.state.far_flags
        };
        // Its tail is fill bits, which are reversals.
        let deaf: u64 = self.state.now + self.ms(40);
        self.state = Progress {
            far: Some(far),
            far_flags: flags,
            far_info0_count: self.state.far_info0_count + 1,
            ignore_reversals_until: deaf,
            ours: Info0 { acknowledge: true, ..self.state.ours },
            ..self.state
        };
        self.repeat_info0();
    }

    /// The far end is repeating its INFO0, so it did not get ours.
    fn repeat_info0(&mut self)
        ensures
            final(self)@ == if old(self).state.far_info0_count > 1 && (
            old(self).state.stage is CallInfo0 || old(self).state.stage is AnswerInfo0) {
                old(self)@.send(framed(old(self).state.info0()))
            } else {
                old(self)@
            },
    {
        let sending = match self.state.stage {
            Stage::CallInfo0 | Stage::AnswerInfo0 => true,
            _ => false,
        };
        if self.state.far_info0_count > 1 && sending {
            let bits = self.info0_bits();
            self.tx.send(bits.as_slice());
        }
    }

    fn heard_info1c(&mut self, info1c: Info1c, h: &Heard)
        requires
            h.wf(),
        ensures
            final(self)@ == old(self)@.heard_info1c(info1c, *h),
    {
        self.state.info1c = Some(info1c);
        let analogue = match self.state.pcm {
            Some(pcm) => pcm.role() == Role::Answer,
            None => false,
        };
        let digital = if analogue {
            self.state.far_info0d
        } else {
            None
        };
        let bits = match digital {
            Some(far) => if self.table_18_allowed(&info1c) {
                let asked = self.settle_pcm_up(h.codeword_v92);
                self.state.info1a_pcm = None;
                self.state.info1a_pcm_up = Some(asked);
                asked.to_bits()
            } else if !self.state.pcm_declined {
                let asked = self.settle_pcm(&info1c, &far, h.codeword);
                let bits = asked.to_bits();
                proof {
                    lemma_info1a_pcm_len(asked);
                    framing_is_undone(asked.info());
                }
                self.state.info1a_pcm = Info1aPcm::from_bits(bits.as_slice());
                self.state.info1a_pcm_up = None;
                bits
            } else {
                self.settled_bits(&info1c)
            },
            None => self.settled_bits(&info1c),
        };
        // Straight on from tone A, as one group with it.
        self.tx.send(bits.as_slice());
        self.tx.silence();
        self.state.speaking = Speaking::Carrier;
    }

    /// V.34's INFO1a, kept as it goes, which is to each field's own resolution.
    fn settled_bits(&mut self, info1c: &Info1c) -> (bits: Vec<bool>)
        ensures
            bits@ == framed(old(self).state.settles(*info1c).info()),
            final(self).tx == old(self).tx,
            final(self).state == (Progress {
                info1a: Info1a::of_info(old(self).state.settles(*info1c).info()),
                ..old(self).state
            }),
    {
        let settled = self.settle(info1c);
        let bits = settled.to_bits();
        proof {
            lemma_info1a_len(settled);
            framing_is_undone(settled.info());
        }
        self.state.info1a = Info1a::from_bits(bits.as_slice());
        bits
    }

    /// An INFO sequence from the far end.
    pub fn heard(&mut self, info: Info, h: &Heard)
        requires
            old(self)@.midway(),
            old(self).state.far_info0_count <= old(self).state.now,
            h.wf(),
        ensures
            final(self)@ == old(self)@.heard(info, *h),
    {
        proof {
            reveal(Standing::heard);
        }
        let call = self.state.role == Role::Call && self.state.stage == Stage::CallInfo1;
        match info {
            // A digital modem's INFO0 carries INFO0a's bits, and is heard as
            // one -- by a V.34 modem too, which has no use for the rest.
            Info::Info0d(far) => {
                self.state.far_info0d = Some(far);
                if self.state.pcm.is_some() {
                    self.state.far_flags = far.pcm_flags();
                }
                self.heard_info0(far.v34);
            },
            Info::Info0(far) => self.heard_info0(far),
            Info::Info1c(info1c) => {
                if self.state.role == Role::Answer && self.state.stage == Stage::AnswerInfo1 {
                    self.heard_info1c(info1c, h);
                }
            },
            Info::Info1a(info1a) => {
                if call {
                    self.state.info1a = Some(info1a);
                    self.finish();
                }
            },
            Info::Info1aPcm(asked) => {
                if call && self.state.pcm.is_some() {
                    self.state.info1a_pcm = Some(asked);
                    self.state.info1a_pcm_up = None;
                    self.finish();
                }
            },
            Info::Info1aPcmUp(asked) => {
                if call && self.state.pcm.is_some() {
                    if self.both_v92() && self.state.sent_pcm_upstream {
                        self.state.info1a_pcm = None;
                        self.state.info1a_pcm_up = Some(asked);
                        self.finish();
                    } else if self.both_v92() {
                        self.state.refused_info1a = Some(
                            "a table 18 info1a after an info1d that cleared bit 70",
                        );
                    } else {
                        self.state.refused_info1a = Some(
                            "a table 18 info1a from a far end that did not indicate v.92",
                        );
                    }
                }
            },
            _ => {},
        }
    }

    /// 40 ms after a far reversal, or the next sample where that is too late.
    fn turn_after(&self, at: u64) -> (turn: u64)
        requires
            self@.midway(),
            at <= self.state.now,
        ensures
            turn == self.state.turn_after(at),
            turn <= self.state.now + self.state.ms(40) + 1,
    {
        let turn: u64 = at + self.ms(40);
        if turn > self.state.now + 1 {
            turn
        } else {
            self.state.now + 1
        }
    }

    fn trip(&self, ours: u64, at: u64) -> (trip: u64)
        requires
            self.state.fs <= FASTEST,
            ours < at,
        ensures
            trip == self.state.trip(ours, at),
            trip <= at,
    {
        let turn: u64 = self.ms(40);
        if at - ours > turn {
            at - ours - turn
        } else {
            0
        }
    }

    fn read_after(&mut self, at: u64)
        requires
            old(self)@.midway(),
            at <= old(self).state.now,
        ensures
            final(self).state == old(self).state.read_after(at),
            final(self).tx == old(self).tx,
    {
        let l2: u64 = at + self.ms(170);
        self.state.read_from = l2 + self.ms(20);
        self.state.read_until = l2 + self.ms(300);
    }

    /// A reversal of the far end's tone, on the line at sample `at`.
    pub fn reversal(&mut self, at: u64)
        requires
            old(self)@.midway(),
            at <= old(self).state.now,
        ensures
            final(self)@ == old(self)@.reversal(at),
    {
        proof {
            lemma_samples(self.state.fs);
            reveal(Standing::reversal);
        }
        match self.state.stage {
            Stage::CallFirstReversal => {
                self.state.first_reversal_at = Some(at);
                self.state.reverse_at = Some(self.turn_after(at));
                self.enter(Stage::CallRanging);
                self.state.deadline = Some(at + self.ms(2000));
            },
            Stage::CallRanging => {
                if let Some(ours) = self.state.reversed_at {
                    if at > ours {
                        self.state.round_trip = Some(self.trip(ours, at));
                        self.read_after(at);
                        self.enter(Stage::CallReadProbe);
                    }
                }
            },
            Stage::CallAwaitTone => {
                if self.state.held > 0 || self.state.now - self.state.since > self.ms(100) {
                    let turn: u64 = self.turn_after(at);
                    self.state.reverse_at = Some(turn);
                    self.state.probe_at = Some(turn + self.ms(10));
                    self.enter(Stage::CallSendProbe);
                }
            },
            Stage::AnswerRanging => {
                if let Some(ours) = self.state.reversed_at {
                    if at > ours {
                        let turn: u64 = self.turn_after(at);
                        self.state.round_trip = Some(self.trip(ours, at));
                        self.state.reverse_at = Some(turn);
                        self.state.probe_at = Some(turn + self.ms(10));
                        self.enter(Stage::AnswerSendProbe);
                    }
                }
            },
            Stage::AnswerProbeReversal => {
                self.read_after(at);
                self.enter(Stage::AnswerReadProbe);
            },
            _ => {},
        }
    }
}

proof fn lemma_timers(m: Standing)
    requires
        m.midway(),
        m.s.status is Running,
    ensures
        m.timers().midway(),
        m.timers().s.now == m.s.now,
        m.timers().s.far_info0_count == m.s.far_info0_count,
        m.timers().s.status is Running,
{
    lemma_samples(m.s.fs);
    reveal(Standing::timers);
    let a = m.tone_timer();
    assert(a.midway());
    let b = a.reversal_timer();
    assert(b.midway()) by {
        if a.s.reverse_at == Some(a.s.now) {
            assert forall|i: int| 0 <= i < 13 implies -1 <= #[trigger] b.tx.history[i] <= 1 by {
                assert(-1 <= a.tx.history[i] <= 1);
            }
        }
    }
    assert(b.silence_timer().midway());
}

proof fn lemma_heard(m: Standing, info: Info, h: Heard)
    requires
        m.midway(),
        m.s.far_info0_count <= m.s.now,
        m.s.status is Running,
    ensures
        m.heard(info, h).midway(),
        m.heard(info, h).s.now == m.s.now,
        !(m.heard(info, h).s.status is Failed),
{
    lemma_samples(m.s.fs);
    reveal(Standing::heard);
}

proof fn lemma_reversal(m: Standing, at: u64)
    requires
        m.midway(),
        at <= m.s.now,
        !(m.s.status is Failed),
    ensures
        m.reversal(at).midway(),
        m.reversal(at).s.now == m.s.now,
        !(m.reversal(at).s.status is Failed),
{
    lemma_samples(m.s.fs);
    reveal(Standing::reversal);
}

proof fn lemma_call_info0(m: Standing)
    requires
        m.midway(),
        m.s.status is Running,
    ensures
        m.call_info0().wf(),
        m.call_info0().s.now == m.s.now,
{
    lemma_samples(m.s.fs);
}

proof fn lemma_call_first_reversal(m: Standing)
    requires
        m.midway(),
        m.s.status is Running,
    ensures
        m.call_first_reversal().wf(),
        m.call_first_reversal().s.now == m.s.now,
{
    lemma_samples(m.s.fs);
}

proof fn lemma_call_ranging(m: Standing)
    requires
        m.midway(),
        m.s.status is Running,
    ensures
        m.call_ranging().wf(),
        m.call_ranging().s.now == m.s.now,
{
    lemma_samples(m.s.fs);
}

proof fn lemma_call_await_tone(m: Standing)
    requires
        m.midway(),
        m.s.status is Running,
    ensures
        m.call_await_tone().wf(),
        m.call_await_tone().s.now == m.s.now,
{
    lemma_samples(m.s.fs);
}

proof fn lemma_call_send_probe(m: Standing)
    requires
        m.midway(),
        m.s.status is Running,
    ensures
        m.call_send_probe().wf(),
        m.call_send_probe().s.now == m.s.now,
{
    lemma_samples(m.s.fs);
}

proof fn lemma_call_info1(m: Standing)
    requires
        m.midway(),
        m.s.status is Running,
    ensures
        m.call_info1().wf(),
        m.call_info1().s.now == m.s.now,
{
    lemma_samples(m.s.fs);
}

proof fn lemma_answer_info0(m: Standing)
    requires
        m.midway(),
        m.s.status is Running,
    ensures
        m.answer_info0().wf(),
        m.answer_info0().s.now == m.s.now,
{
    lemma_samples(m.s.fs);
}

proof fn lemma_answer_await_tone(m: Standing)
    requires
        m.midway(),
        m.s.status is Running,
    ensures
        m.answer_await_tone().wf(),
        m.answer_await_tone().s.now == m.s.now,
{
    lemma_samples(m.s.fs);
}

proof fn lemma_answer_ranging(m: Standing)
    requires
        m.midway(),
        m.s.status is Running,
    ensures
        m.answer_ranging().wf(),
        m.answer_ranging().s.now == m.s.now,
{
    lemma_samples(m.s.fs);
}

proof fn lemma_answer_send_probe(m: Standing)
    requires
        m.midway(),
        m.s.status is Running,
    ensures
        m.answer_send_probe().wf(),
        m.answer_send_probe().s.now == m.s.now,
{
    lemma_samples(m.s.fs);
}

proof fn lemma_answer_info1(m: Standing)
    requires
        m.midway(),
        m.s.status is Running,
    ensures
        m.answer_info1().wf(),
        m.answer_info1().s.now == m.s.now,
{
    lemma_samples(m.s.fs);
}

proof fn lemma_call_read_probe(m: Standing, reading: Option<Reading>)
    requires
        m.midway(),
        m.s.status is Running,
    ensures
        m.call_read_probe(reading).wf(),
        m.call_read_probe(reading).s.now == m.s.now,
{
    lemma_samples(m.s.fs);
}

proof fn lemma_answer_read_probe(m: Standing, reading: Option<Reading>)
    requires
        m.midway(),
        m.s.status is Running,
    ensures
        m.answer_read_probe(reading).wf(),
        m.answer_read_probe(reading).s.now == m.s.now,
{
    lemma_samples(m.s.fs);
}

proof fn lemma_stage_step(m: Standing, h: Heard)
    requires
        m.midway(),
        !(m.s.status is Failed),
    ensures
        m.stage_step(h).wf(),
        m.stage_step(h).s.now == m.s.now,
{
    reveal(Standing::stage_step);
    match m.s.stage {
        Stage::CallInfo0 => lemma_call_info0(m),
        Stage::CallFirstReversal => lemma_call_first_reversal(m),
        Stage::CallRanging => lemma_call_ranging(m),
        Stage::CallReadProbe => lemma_call_read_probe(m, h.reading),
        Stage::CallAwaitTone => lemma_call_await_tone(m),
        Stage::CallSendProbe => lemma_call_send_probe(m),
        Stage::CallInfo1 => lemma_call_info1(m),
        Stage::AnswerInfo0 => lemma_answer_info0(m),
        Stage::AnswerAwaitTone => lemma_answer_await_tone(m),
        Stage::AnswerRanging => lemma_answer_ranging(m),
        Stage::AnswerSendProbe => lemma_answer_send_probe(m),
        Stage::AnswerProbeReversal => {},
        Stage::AnswerReadProbe => lemma_answer_read_probe(m, h.reading),
        Stage::AnswerInfo1 => lemma_answer_info1(m),
        Stage::Finished => {},
    }
}

impl Modem {
    fn call_info0(&mut self)
        ensures
            final(self)@ == old(self)@.call_info0(),
    {
        if self.state.far.is_some() && self.tx.pending() == 0 {
            self.enter(Stage::CallFirstReversal);
        }
    }

    fn call_first_reversal(&mut self)
        requires
            old(self)@.midway(),
        ensures
            final(self)@ == old(self)@.call_first_reversal(),
    {
        // Silent here means a timeout sent us back, and tone B is to follow
        // once tone A is heard. Not while a tone is already due: a retrain
        // opens with a deliberate silence before its own.
        if self.state.speaking == Speaking::Silent && self.state.tone_at.is_none()
            && self.state.held >= self.ms(20) {
            self.start_tone();
        }
    }

    fn call_ranging(&mut self)
        requires
            old(self)@.midway(),
        ensures
            final(self)@ == old(self)@.call_ranging(),
    {
        if self.late() {
            self.state = Progress { first_reversal_at: None, reversed_at: None, ..self.state };
            self.recover();
            self.enter(Stage::CallFirstReversal);
        }
    }

    fn call_read_probe(&mut self, reading: Option<Reading>)
        requires
            old(self)@.midway(),
        ensures
            final(self)@ == old(self)@.call_read_probe(reading),
    {
        let now: u64 = self.state.now;
        if now >= self.state.read_until {
            let deadline: u64 = now + self.ms(900) + self.rtd();
            let deaf: u64 = now + self.ms(50);
            self.state.reading = reading;
            self.start_tone();
            self.enter(Stage::CallAwaitTone);
            self.state = Progress {
                deadline: Some(deadline),
                ignore_reversals_until: deaf,
                ..self.state
            };
        }
    }

    fn call_await_tone(&mut self)
        requires
            old(self)@.midway(),
        ensures
            final(self)@ == old(self)@.call_await_tone(),
    {
        let now: u64 = self.state.now;
        if self.late() && self.state.reverse_at.is_none() {
            let turn: u64 = now + self.ms(40);
            let probe: u64 = turn + self.ms(10);
            self.state = Progress { reverse_at: Some(turn), probe_at: Some(probe), ..self.state };
            self.recover();
            self.enter(Stage::CallSendProbe);
        }
    }

    /// INFO1c: what this end made of the far end's L2.
    fn make_info1c(&self) -> (info1c: Info1c)
        ensures
            info1c.info() == self.state.info1c_sent(),
            self.state.both_v92() ==> info1c.probed[5].high_carrier
                == self.state.wish().pcm_upstream,
    {
        let mut info1c = Info1c {
            min_power_reduction: 0,
            additional_power_reduction: 0,
            md_length: 0,
            probed: self.projected(),
            frequency_offset: self.offset(),
        };
        // Between two V.92 modems bit 70 stops being the 3429 high-carrier flag
        // and becomes a permission to ask for PCM upstream.
        if self.both_v92() {
            info1c.set_pcm_upstream(self.wish().pcm_upstream);
        }
        assert(info1c.probed@ =~= self.state.results());
        info1c
    }

    fn send_info1c(&mut self)
        ensures
            final(self)@ == old(self)@.send_info1c(),
    {
        let info1c = self.make_info1c();
        let allowed = if self.both_v92() {
            info1c.pcm_upstream()
        } else {
            self.state.sent_pcm_upstream
        };
        let bits = info1c.to_bits();
        proof {
            lemma_info1c_len(info1c);
            framing_is_undone(info1c.info());
        }
        let sent = Info1c::from_bits(bits.as_slice());
        self.state = Progress {
            info1c: sent,
            sent_pcm_upstream: allowed,
            speaking: Speaking::Carrier,
            ..self.state
        };
        self.tx.stop();
        self.tx.send(bits.as_slice());
        self.tx.silence();
        self.enter(Stage::CallInfo1);
    }

    /// A deadline counted from the beginning of L2, where there is none yet.
    fn time_from(&mut self, l1_until: u64, ms: u32)
        requires
            old(self)@.midway(),
            ms <= 1000,
            l1_until <= old(self).state.now + old(self).state.ms(160),
        ensures
            final(self)@ == old(self)@.timed_from(l1_until, ms as nat),
    {
        proof {
            lemma_samples(self.state.fs);
        }
        if self.state.deadline.is_none() {
            self.state.deadline = Some(l1_until + self.ms(ms) + self.rtd());
        }
    }

    fn call_send_probe(&mut self)
        requires
            old(self)@.midway(),
        ensures
            final(self)@ == old(self)@.call_send_probe(),
    {
        if let Speaking::Probe { l1_until } = self.state.speaking {
            self.time_from(l1_until, 950);
            if self.state.now > l1_until && self.state.held >= self.ms(20) {
                self.send_info1c();
            } else if self.late() {
                self.fail_for_a_retrain("no tone A after this end's probing");
            }
        }
    }

    fn call_info1(&mut self)
        requires
            old(self)@.midway(),
        ensures
            final(self)@ == old(self)@.call_info1(),
    {
        if self.state.deadline.is_none() && self.tx.pending() == 0 {
            self.state.deadline = Some(self.state.now + self.ms(700) + self.rtd() + self.ms(300));
        }
        if self.late() {
            self.fail_for_a_retrain("no INFO1a");
        }
    }

    fn answer_info0(&mut self)
        ensures
            final(self)@ == old(self)@.answer_info0(),
    {
        if self.state.far.is_some() && self.tx.pending() == 0 {
            self.enter(Stage::AnswerAwaitTone);
        }
    }

    fn answer_await_tone(&mut self)
        requires
            old(self)@.midway(),
        ensures
            final(self)@ == old(self)@.answer_await_tone(),
    {
        let now: u64 = self.state.now;
        if self.state.tone_at.is_none() && self.state.held >= self.ms(20) && now - self.state.since
            >= self.ms(50) {
            let deadline: u64 = now + self.ms(2000);
            // The reversal is this end's, and the call modem's answer cannot be
            // back before a round trip and 40 ms.
            let deaf: u64 = now + self.ms(40);
            self.state.reverse_at = Some(now + 1);
            self.enter(Stage::AnswerRanging);
            self.state = Progress {
                deadline: Some(deadline),
                ignore_reversals_until: deaf,
                ..self.state
            };
        }
    }

    fn keep_tone(&mut self)
        ensures
            final(self)@ == old(self)@.keep_tone(),
    {
        if self.state.reversed_at.is_some() && self.state.silence_at.is_some()
            && self.state.probe_at.is_none() {
            self.state.silence_at = None;
        }
    }

    fn answer_ranging(&mut self)
        requires
            old(self)@.midway(),
        ensures
            final(self)@ == old(self)@.answer_ranging(),
    {
        self.keep_tone();
        if self.late() {
            self.state.reversed_at = None;
            self.recover();
            self.enter(Stage::AnswerAwaitTone);
        }
    }

    fn fresh_tone(&mut self)
        ensures
            final(self)@ == old(self)@.fresh_tone(),
    {
        self.tx.stop();
        self.start_tone();
    }

    fn answer_send_probe(&mut self)
        requires
            old(self)@.midway(),
        ensures
            final(self)@ == old(self)@.answer_send_probe(),
    {
        let now: u64 = self.state.now;
        if let Speaking::Probe { l1_until } = self.state.speaking {
            let turn: u64 = now + self.ms(50);
            let deaf: u64 = now + self.ms(60);
            let heard = now > l1_until && self.state.held >= self.ms(20);
            self.time_from(l1_until, 900);
            if heard {
                self.fresh_tone();
                self.state.reverse_at = Some(turn);
                self.enter(Stage::AnswerProbeReversal);
                self.state.ignore_reversals_until = deaf;
            } else if self.late() {
                self.fresh_tone();
                self.state.reversed_at = None;
                self.recover();
                self.enter(Stage::AnswerAwaitTone);
            }
        }
    }

    fn answer_read_probe(&mut self, reading: Option<Reading>)
        requires
            old(self)@.midway(),
        ensures
            final(self)@ == old(self)@.answer_read_probe(reading),
    {
        let now: u64 = self.state.now;
        if now >= self.state.read_until {
            let deadline: u64 = now + self.ms(2000) + 2 * self.rtd();
            self.state.reading = reading;
            self.start_tone();
            self.enter(Stage::AnswerInfo1);
            self.state.deadline = Some(deadline);
        }
    }

    fn answer_info1(&mut self)
        ensures
            final(self)@ == old(self)@.answer_info1(),
    {
        if self.state.info1a.is_some() || self.state.info1a_pcm.is_some()
            || self.state.info1a_pcm_up.is_some() {
            if !self.tx.is_sending() {
                self.finish();
            }
        } else if self.late() {
            self.fail_for_a_retrain("no INFO1c");
        }
    }

    /// The stage this end is in, a sample on.
    pub fn stage_step(&mut self, h: &Heard)
        requires
            old(self)@.midway(),
            !(old(self).state.status is Failed),
        ensures
            final(self)@ == old(self)@.stage_step(*h),
            final(self)@.wf(),
            final(self).state.now == old(self).state.now,
    {
        let ghost m = self@;
        proof {
            reveal(Standing::stage_step);
            lemma_stage_step(m, *h);
        }
        match self.state.stage {
            Stage::CallInfo0 => self.call_info0(),
            Stage::CallFirstReversal => self.call_first_reversal(),
            Stage::CallRanging => self.call_ranging(),
            Stage::CallReadProbe => self.call_read_probe(h.reading),
            Stage::CallAwaitTone => self.call_await_tone(),
            Stage::CallSendProbe => self.call_send_probe(),
            Stage::CallInfo1 => self.call_info1(),
            Stage::AnswerInfo0 => self.answer_info0(),
            Stage::AnswerAwaitTone => self.answer_await_tone(),
            Stage::AnswerRanging => self.answer_ranging(),
            Stage::AnswerSendProbe => self.answer_send_probe(),
            Stage::AnswerProbeReversal => {},
            Stage::AnswerReadProbe => self.answer_read_probe(h.reading),
            Stage::AnswerInfo1 => self.answer_info1(),
            Stage::Finished => {},
        }
    }

    /// What a sample changes of a phase 2 that is still running.
    fn run(&mut self, h: &Heard)
        requires
            old(self)@.wf_running(),
            h.wf(),
        ensures
            final(self)@ == old(self)@.run(*h),
            final(self)@.wf(),
            final(self).state.now == old(self).state.now,
    {
        proof {
            reveal(Standing::run);
        }
        let now: u64 = self.state.now;
        if now > self.ms(20000) {
            self.fail("phase 2 went on for twenty seconds");
            return;
        }
        let listening = now >= self.state.ignore_reversals_until;
        proof {
            lemma_timers(self@);
        }
        self.timers();
        if let Some(info) = h.info {
            proof {
                lemma_heard(self@, info, *h);
            }
            self.heard(info, h);
        }
        if h.reversed && listening {
            // Where the reversal was on the line, as against where it was
            // noticed.
            let at: u64 = if now > h.latency as u64 {
                now - h.latency as u64
            } else {
                0
            };
            proof {
                lemma_reversal(self@, at);
            }
            self.reversal(at);
        }
        self.stage_step(h);
    }

    /// Whether the stretch of L2 being read ends at the next sample, so that
    /// what it comes to has to be there.
    pub fn reads_now(&self) -> (reads: bool)
        requires
            self.state.now < u64::MAX,
        ensures
            reads == ((self.state.stage is CallReadProbe || self.state.stage is AnswerReadProbe)
                && self.state.now + 1 >= self.state.read_until),
    {
        let reading = match self.state.stage {
            Stage::CallReadProbe | Stage::AnswerReadProbe => true,
            _ => false,
        };
        reading && self.state.now + 1 >= self.state.read_until
    }

    fn is_reading(&self) -> (reading: bool)
        ensures
            reading == (self.state.stage is CallReadProbe || self.state.stage is AnswerReadProbe),
    {
        match self.state.stage {
            Stage::CallReadProbe | Stage::AnswerReadProbe => true,
            _ => false,
        }
    }

    /// Carry phase 2 one sample further: what was heard, and what goes on the
    /// line.
    pub fn step(&mut self, h: &Heard) -> (said: Said)
        requires
            old(self)@.wf(),
            old(self).state.now < u64::MAX,
            h.wf(),
        ensures
            final(self)@ == old(self)@.step(*h),
            final(self)@.wf(),
            final(self).state.now == old(self).state.now + 1,
            said.line == final(self).state.line(),
            said.analyse == (old(self).state.read_from <= final(self).state.now
                < old(self).state.read_until),
            said.analyse == old(self).state.analysed(final(self).state.now),
            said.restart == (final(self).state.reading_probe()
                && !old(self).state.reading_probe()),
    {
        let ghost start = self@;
        let was_reading = self.is_reading();
        let now: u64 = self.state.now + 1;
        let held: u64 = if h.present() {
            self.state.held + 1
        } else {
            0
        };
        let analyse = self.state.read_from <= now && now < self.state.read_until;
        self.state = Progress { now, held, ..self.state };
        let running = match self.state.status {
            Status::Running => true,
            _ => false,
        };
        assert(self@ == start.hear(*h));
        if running {
            self.run(h);
        }
        let restart = self.is_reading() && !was_reading;
        let line = match self.state.speaking {
            Speaking::Silent => Line::Silence,
            Speaking::Carrier => {
                self.tx.next_sample();
                Line::Carrier
            },
            Speaking::Probe { l1_until } => if self.state.now < l1_until {
                Line::L1
            } else {
                Line::L2
            },
        };
        Said { line, analyse, restart }
    }
}

impl Progress {
    /// Reading the far end's L2, or waiting for it to start.
    pub open spec fn reading_probe(self) -> bool {
        self.stage is CallReadProbe || self.stage is AnswerReadProbe
    }

    /// Whether a sample is of the stretch of L2 that is read.
    pub open spec fn analysed(self, sample: u64) -> bool {
        self.read_from <= sample < self.read_until
    }

    /// V.42's detection is skipped: both ends have V.92, and both have LAPM.
    pub open spec fn bypasses(self, both_lapm: bool) -> bool {
        self.both_v92() && both_lapm
    }

    /// What goes on the line.
    pub open spec fn line(self) -> Line {
        match self.speaking {
            Speaking::Silent => Line::Silence,
            Speaking::Carrier => Line::Carrier,
            Speaking::Probe { l1_until } => if self.now < l1_until {
                Line::L1
            } else {
                Line::L2
            },
        }
    }
}

impl Standing {
    /// Just heard another sample, and still running.
    pub open spec fn wf_running(self) -> bool {
        let s = self.s;
        &&& self.tx.wf()
        &&& self.tx.fs == s.fs
        &&& 0 < s.fs <= FASTEST
        &&& s.status is Running
        &&& 0 < s.now <= 20 * s.fs + 1
        &&& s.since <= s.now
        &&& s.rtd() <= s.now
        &&& s.reversed_at matches Some(at) ==> at <= s.now
        &&& s.speaking matches Speaking::Probe { l1_until } ==> l1_until <= s.now + s.ms(160)
        &&& s.recoveries < s.now
        &&& s.far_info0_count <= s.now
        &&& self.consistent()
    }
}

impl Progress {
    /// Both ends have V.92 and both have asked for a short phase 2, and this is no
    /// retrain.
    pub open spec fn short_agreed(self) -> bool {
        !self.full_phase2_only && self.both_v92() && self.wish().short_phase2
            && self.far_flags.short_phase2
    }

    /// The fastest that this end could receive, in bit/s, by what it read.
    pub open spec fn could_receive(self) -> Option<u32> {
        if self.reading is Some && self.far is Some {
            Some((2400 * highest(rates_of(self.projected()))) as u32)
        } else {
            None
        }
    }

    /// A retrain of this, with all that INFO0 said.
    pub open spec fn retrained(self) -> Progress {
        Progress {
            far_info0d: if self.pcm is Some {
                self.far_info0d
            } else {
                None
            },
            pcm_declined: self.pcm_declined,
            pcm_up_declined: self.pcm_up_declined,
            far_flags: self.far_flags,
            full_phase2_only: true,
            ..reopened(
                self.role,
                self.pcm,
                self.fs,
                match self.far {
                    Some(far) => far,
                    None => Info0::nothing(),
                },
            ).s
        }
    }
}

/// The most of some rates, or zero of none.
pub open spec fn highest(rates: Seq<u8>) -> u8
    decreases rates.len(),
{
    if rates.len() == 0 {
        0
    } else if rates.last() > highest(rates.drop_last()) {
        rates.last()
    } else {
        highest(rates.drop_last())
    }
}

impl Modem {
    /// Phase 2 as a retrain: the capabilities were settled the first time and
    /// are not exchanged again, so INFO0 is skipped and this end goes straight
    /// to its tone and the reversal handshake. `far` is what the far end's
    /// INFO0 said the first time round, kept so INFO1 has it.
    pub fn retrain(role: Role, fs: u32, far: Info0) -> (modem: Modem)
        requires
            0 < fs <= FASTEST,
        ensures
            modem@ == reopened(role, None, fs, far),
            modem@.wf(),
    {
        Modem::reopen(role, None, fs, far)
    }

    fn reopen(role: Role, pcm: Option<Pcm>, fs: u32, far: Info0) -> (modem: Modem)
        requires
            0 < fs <= FASTEST,
            pcm matches Some(pcm) ==> role == pcm.plays(),
        ensures
            modem@ == reopened(role, pcm, fs, far),
            modem@.wf(),
    {
        let mut modem = Modem::blank(role, fs);
        // Silence first, then the tone; and the step from data or a
        // renegotiation tone into this one is not a reversal, however it reads.
        let tone: u64 = modem.ms(70);
        let deaf: u64 = modem.ms(120);
        modem.state = Progress {
            pcm,
            far: Some(far),
            far_info0_count: 1,
            ours: Info0 { acknowledge: true, ..modem.state.ours },
            tone_at: Some(tone),
            ignore_reversals_until: deaf,
            stage: match role {
                Role::Call => Stage::CallFirstReversal,
                Role::Answer => Stage::AnswerAwaitTone,
            },
            ..modem.state
        };
        modem
    }

    /// V.90's phase 2 as a retrain.
    pub fn v90_retrain(pcm: Pcm, fs: u32, far: Info0, far_info0d: Option<Info0d>) -> (modem: Modem)
        requires
            0 < fs <= FASTEST,
        ensures
            modem.state == (Progress {
                far_info0d,
                ..reopened(pcm.plays(), Some(pcm), fs, far).s
            }),
            modem@.tx == reopened(pcm.plays(), Some(pcm), fs, far).tx,
            modem@.wf(),
    {
        let mut modem = Modem::reopen(pcm.role(), Some(pcm), fs, far);
        modem.state.far_info0d = far_info0d;
        modem
    }

    /// A retrain of this phase 2: the same end, the same far end, and V.90's
    /// part kept if there is one.
    ///
    /// The V.92 flags are kept too, since a retrain never repeats INFO0. What a
    /// retrain does not keep is the short phase 2 agreement.
    pub fn again(&self) -> (modem: Modem)
        requires
            self@.wf(),
        ensures
            modem@.wf(),
            modem.state == (Progress {
                far_info0d: if self.state.pcm is Some {
                    self.state.far_info0d
                } else {
                    None
                },
                pcm_declined: self.state.pcm_declined,
                pcm_up_declined: self.state.pcm_up_declined,
                far_flags: self.state.far_flags,
                full_phase2_only: true,
                ..reopened(
                    self.state.role,
                    self.state.pcm,
                    self.state.fs,
                    match self.state.far {
                        Some(far) => far,
                        None => Info0::nothing(),
                    },
                ).s
            }),
            modem@.tx == blank(self.state.role, self.state.fs).tx,
            modem.state == self.state.retrained(),
    {
        let far = match self.state.far {
            Some(far) => far,
            None => Info0::default(),
        };
        let mut modem = match self.state.pcm {
            Some(pcm) => Modem::v90_retrain(pcm, self.state.fs, far, self.state.far_info0d),
            None => Modem::retrain(self.state.role, self.state.fs, far),
        };
        modem.state = Progress {
            pcm_declined: self.state.pcm_declined,
            pcm_up_declined: self.state.pcm_up_declined,
            far_flags: self.state.far_flags,
            full_phase2_only: true,
            ..modem.state
        };
        modem
    }

    /// Ask for V.34 in INFO1a from now on, even of a V.90 digital modem.
    pub fn decline_pcm(&mut self)
        ensures
            final(self)@ == (Standing {
                s: Progress { pcm_declined: true, ..old(self).state },
                ..old(self)@
            }),
    {
        self.state.pcm_declined = true;
    }

    /// Ask for V.90 data mode rather than PCM upstream in INFO1a from now on,
    /// without giving up PCM downstream as well.
    pub fn decline_pcm_upstream(&mut self)
        ensures
            final(self)@ == (Standing {
                s: Progress { pcm_up_declined: true, ..old(self).state },
                ..old(self)@
            }),
    {
        self.state.pcm_up_declined = true;
    }

    /// The far end's two V.92 bits as its own INFO0 laid them out. Both false
    /// outside a PCM role, where those bits are a transmit clock.
    pub fn far_pcm_flags(&self) -> (flags: PcmFlags)
        ensures
            flags == self.state.far_flags,
    {
        self.state.far_flags
    }

    /// Whether both modems have shown V.92 and both asked for a short phase 2.
    /// False after a retrain, whatever the flags say.
    pub fn short_phase2_agreed(&self) -> (agreed: bool)
        ensures
            agreed == (!self.state.full_phase2_only && self.state.both_v92()
                && self.state.wish().short_phase2 && self.state.far_flags.short_phase2),
            agreed == self.state.short_agreed(),
    {
        !self.state.full_phase2_only && self.both_v92() && self.wish().short_phase2
            && self.state.far_flags.short_phase2
    }

    /// Whether V.42's ODP/ADP exchange is to be skipped: both modems have shown
    /// V.92, and both menus said LAPM, which the caller knows.
    pub fn lapm_bypass_allowed(&self, both_lapm: bool) -> (allowed: bool)
        ensures
            allowed == (self.state.both_v92() && both_lapm),
            allowed == self.state.bypasses(both_lapm),
    {
        self.both_v92() && both_lapm
    }

    /// V.90's part, if this is V.90's phase 2.
    pub fn pcm(&self) -> (pcm: Option<Pcm>)
        ensures
            pcm == self.state.pcm,
    {
        self.state.pcm
    }

    /// The far end's INFO0d, if it sent one: a V.90 digital modem.
    pub fn far_info0d(&self) -> (far: Option<Info0d>)
        ensures
            far == self.state.far_info0d,
    {
        self.state.far_info0d
    }

    /// The INFO1a asking for V.90, if one went or came.
    pub fn info1a_pcm(&self) -> (asked: Option<Info1aPcm>)
        ensures
            asked == self.state.info1a_pcm,
    {
        self.state.info1a_pcm
    }

    /// The INFO1a asking for PCM upstream, if one went or came. At most one of
    /// this and `info1a_pcm` is ever set.
    pub fn info1a_pcm_up(&self) -> (asked: Option<Info1aPcmUp>)
        ensures
            asked == self.state.info1a_pcm_up,
    {
        self.state.info1a_pcm_up
    }

    /// Why the last INFO1a was counted as not received, if one was: for a log,
    /// not for a decision.
    pub fn refused_info1a(&self) -> (why: Option<&'static str>)
        ensures
            why == self.state.refused_info1a,
    {
        self.state.refused_info1a
    }

    /// The fastest V.34 the far end's line probe says this end could receive,
    /// in bit/s. None before the probe has been read.
    pub fn v34_receive_rate(&self) -> (rate: Option<u32>)
        ensures
            rate == if self.state.reading is Some && self.state.far is Some {
                Some((2400 * highest(rates_of(self.state.projected()))) as u32)
            } else {
                None
            },
            rate == self.state.could_receive(),
    {
        if self.state.reading.is_none() || self.state.far.is_none() {
            return None;
        }
        let probed = self.projected();
        let mut most: u8 = 0;
        let mut i: usize = 0;
        let ghost rates = rates_of(probed@);
        assert(rates.take(0) =~= Seq::empty());
        while i < 6
            invariant
                i <= 6,
                rates == rates_of(probed@),
                most == highest(rates.take(i as int)),
            decreases 6 - i,
        {
            if probed[i].max_rate > most {
                most = probed[i].max_rate;
            }
            i = i + 1;
            assert(rates.take(i as int).drop_last() =~= rates.take(i - 1));
        }
        assert(rates.take(6) =~= rates);
        Some(2400 * (most as u32))
    }

    pub fn role(&self) -> (role: Role)
        ensures
            role == self.state.role,
    {
        self.state.role
    }

    pub fn status(&self) -> (status: Status)
        ensures
            status == self.state.status,
    {
        self.state.status
    }

    pub fn phase(&self) -> (phase: &'static str)
        ensures
            phase == match self.state.status {
                Status::Failed(_) => "V.34 phase 2 failed",
                _ => self.state.stage.named(),
            },
    {
        match self.state.status {
            Status::Failed(_) => "V.34 phase 2 failed",
            _ => self.state.stage.name(),
        }
    }

    /// The far end's INFO0, once it has arrived.
    pub fn far_capabilities(&self) -> (far: Option<Info0>)
        ensures
            far == self.state.far,
    {
        self.state.far
    }

    /// The round trip, in samples, once it has been measured.
    pub fn round_trip(&self) -> (trip: Option<u64>)
        ensures
            trip == self.state.round_trip,
    {
        self.state.round_trip
    }

    /// What this end made of the far end's L2.
    pub fn reading(&self) -> (reading: Option<Reading>)
        ensures
            reading == self.state.reading,
    {
        self.state.reading
    }

    /// How many times a timeout was taken instead of the signal it was waiting
    /// for. A clean line should need none.
    pub fn recoveries(&self) -> (count: u32)
        ensures
            count == self.state.recoveries,
    {
        self.state.recoveries
    }

    pub fn info1c(&self) -> (info: Option<Info1c>)
        ensures
            info == self.state.info1c,
    {
        self.state.info1c
    }

    pub fn info1a(&self) -> (info: Option<Info1a>)
        ensures
            info == self.state.info1a,
    {
        self.state.info1a
    }

    /// Whether the failure is one that is recovered from by retraining.
    pub fn asks_for_retrain(&self) -> (asks: bool)
        ensures
            asks == self.state.retrain_instead,
    {
        self.state.retrain_instead
    }
}

/// No part of phase 2 takes twenty seconds: by then it has ended.
pub proof fn phase_2_gives_up(m: Standing, h: Heard)
    requires
        m.wf(),
        m.s.now < u64::MAX,
        m.s.now >= 20 * m.s.fs,
    ensures
        !(m.step(h).s.status is Running),
{
    reveal(Standing::run);
    reveal(samples);
}

/// Once ended, phase 2 stays as it ended: neither its status nor what it
/// settled changes, and one that failed is silent.
pub proof fn an_ended_phase_2_stays_ended(m: Standing, h: Heard)
    requires
        m.wf(),
        m.s.now < u64::MAX,
        !(m.s.status is Running),
    ensures
        m.step(h).s == m.hear(h).s,
        m.step(h).s.status == m.s.status,
        m.s.status is Failed ==> m.step(h).s.line() is Silence && m.step(h).tx == m.tx,
{
}

/// Outside a PCM role, and in V.90's own two roles, nothing is ever taken for
/// V.92: no flag, no short phase 2, no PCM upstream.
pub proof fn only_a_v92_role_is_v92(m: Standing, info1d: Info1c)
    requires
        m.wf(),
        m.s.pcm is None || m.s.pcm->0 is Analogue || m.s.pcm->0 is Digital,
    ensures
        !m.s.both_v92(),
        !m.s.upstream_allowed(info1d),
        m.s.pcm is None ==> m.s.far_flags == no_flags(),
{
}

/// PCM upstream is never settled on without both ends: the analogue modem asks
/// for it only of a digital modem that allowed it, and the digital modem takes
/// it only where it did allow it.
pub proof fn pcm_upstream_needs_both_ends(m: Standing, info: Info, h: Heard)
    requires
        m.s.info1a_pcm_up is None,
        m.heard(info, h).s.info1a_pcm_up is Some,
    ensures
        m.s.both_v92(),
        m.s.role is Call ==> m.s.sent_pcm_upstream,
        m.s.role is Answer ==> (info matches Info::Info1c(info1d) && m.s.upstream_allowed(info1d)
            && m.s.far_info0d is Some),
{
    reveal(Standing::heard);
}

/// A line with the same delay each way, and a far end that waits its 40 ms:
/// what is measured is the delay there and back.
pub proof fn the_round_trip_is_the_delay_both_ways(s: Progress, ours: u64, delay: nat)
    requires
        ours + 2 * delay + s.ms(40) <= u64::MAX,
    ensures
        s.trip(ours, (ours + 2 * delay + s.ms(40)) as u64) == 2 * delay,
{
}

/// A retrain says nothing until its tone is due, whatever is heard meanwhile.
pub proof fn a_retrain_is_silent_until_its_tone(m: Standing, h: Heard)
    requires
        m.wf(),
        m.awaits_its_tone(),
        m.s.now + 1 < m.s.tone_at->0,
    ensures
        m.step(h).awaits_its_tone(),
        m.step(h).s.line() is Silence,
        m.step(h).s.tone_at == m.s.tone_at,
{
    let heard = m.hear(h);
    lemma_samples(m.s.fs);
    assert(samples(m.s.fs, 70) <= 20 * m.s.fs == samples(m.s.fs, 20000)) by {
        reveal(samples);
    }
    lemma_silent_timers(heard);
    let timed = heard.timers();
    let informed = match h.info {
        Some(info) => {
            lemma_silent_heard(timed, info, h);
            timed.heard(info, h)
        },
        None => timed,
    };
    let at = if heard.s.now > h.latency {
        (heard.s.now - h.latency) as u64
    } else {
        0
    };
    let ranged = if h.reversed && heard.s.now >= heard.s.ignore_reversals_until {
        lemma_silent_reversal(informed, at);
        informed.reversal(at)
    } else {
        informed
    };
    lemma_silent_stage(ranged, h);
    reveal(Standing::run);
}

impl Standing {
    /// In the silence a retrain opens with.
    pub open spec fn awaits_its_tone(self) -> bool {
        let s = self.s;
        &&& s.status is Running
        &&& s.stage is CallFirstReversal || s.stage is CallRanging || s.stage is CallReadProbe
            || s.stage is AnswerAwaitTone
        &&& s.speaking is Silent
        &&& s.probe_at is None
        &&& s.tone_at matches Some(at) && s.now < at <= s.ms(70)
        &&& s.stage is CallReadProbe ==> s.read_until >= s.ms(170)
        &&& s.ms(70) < s.ms(170)
    }
}

proof fn lemma_silent_timers(m: Standing)
    requires
        m.awaits_its_tone(),
    ensures
        m.timers().awaits_its_tone(),
        m.timers().s.tone_at == m.s.tone_at,
        m.timers().s.now == m.s.now,
        m.timers().s.fs == m.s.fs,
{
    reveal(Standing::timers);
}

proof fn lemma_silent_heard(m: Standing, info: Info, h: Heard)
    requires
        m.awaits_its_tone(),
    ensures
        m.heard(info, h).awaits_its_tone(),
        m.heard(info, h).s.tone_at == m.s.tone_at,
        m.heard(info, h).s.now == m.s.now,
        m.heard(info, h).s.fs == m.s.fs,
{
    reveal(Standing::heard);
}

proof fn lemma_silent_reversal(m: Standing, at: u64)
    requires
        m.awaits_its_tone(),
        at <= m.s.now <= 20 * m.s.fs,
        m.s.fs <= FASTEST,
    ensures
        m.reversal(at).awaits_its_tone(),
        m.reversal(at).s.tone_at == m.s.tone_at,
        m.reversal(at).s.now == m.s.now,
        m.reversal(at).s.fs == m.s.fs,
{
    reveal(Standing::reversal);
    lemma_samples(m.s.fs);
}

proof fn lemma_silent_stage(m: Standing, h: Heard)
    requires
        m.awaits_its_tone(),
    ensures
        m.stage_step(h).awaits_its_tone(),
        m.stage_step(h).s.tone_at == m.s.tone_at,
        m.stage_step(h).s.now == m.s.now,
        m.stage_step(h).s.fs == m.s.fs,
{
    reveal(Standing::stage_step);
}

/// A retrain opens with 70 ms of silence.
pub proof fn a_retrain_opens_in_silence(role: Role, pcm: Option<Pcm>, fs: u32, far: Info0)
    requires
        15 <= fs <= FASTEST,
    ensures
        reopened(role, pcm, fs, far).awaits_its_tone(),
        reopened(role, pcm, fs, far).s.tone_at == Some(samples(fs, 70) as u64),
{
    reveal(samples);
}

/// The V.90 roles put the same bits on the line as the V.92 roles that offer
/// nothing.
pub proof fn offering_nothing_is_v90(s: Progress, d: Info0d)
    requires
        s.ours.clock == 0,
    ensures
        (Progress { pcm: Some(Pcm::Analogue), ..s }).info0() == (Progress {
            pcm: Some(Pcm::AnalogueV92(V92Wish::nothing())),
            ..s
        }).info0(),
        (Progress { pcm: Some(Pcm::Digital(d)), ..s }).info0() == (Progress {
            pcm: Some(Pcm::DigitalV92(d, V92Wish::nothing())),
            ..s
        }).info0(),
{
    reveal(Progress::info0);
    assert(s.ours.with_flags(V92Wish::nothing().flagged()) == s.ours);
    let sent = Info0d { v34: s.ours, ..d };
    assert(sent.with_flags(V92Wish::nothing().flagged()) == sent);
}

/// What the answer modem settles keeps the two directions within the asymmetry
/// both ends allow, and asks of neither transmitter a rate that was not
/// projected for it.
pub proof fn what_is_settled_was_projected(s: Progress, info1c: Info1c)
    ensures
        ({
            let settled = s.settles(info1c);
            let (down, up) = (settled.answer_to_call.numbered(), settled.call_to_answer.numbered());
            &&& -s.steps() <= up - down <= s.steps()
            &&& forall|i: int|
                0 <= i < 6 ==> (#[trigger] info1c.probed[i]).max_rate
                    <= info1c.probed[down as int].max_rate
            &&& settled.probed == s.projected()[up as int] || settled.probed == Probed::nothing()
        }),
{
    let rates = rates_of(info1c.probed@);
    the_fastest_is_the_fastest(rates);
    let answer_to_call = s.towards_call(info1c);
    the_fastest_is_the_fastest(s.towards_answer(answer_to_call));
    assert forall|i: int| 0 <= i < 6 implies (#[trigger] info1c.probed[i]).max_rate
        <= info1c.probed[answer_to_call.numbered() as int].max_rate by {
        assert(rates[i] == info1c.probed[i].max_rate);
        assert(rates[answer_to_call.numbered() as int] == info1c.probed[answer_to_call.numbered() as int].max_rate);
    }
}

} // verus!
