//! Phase 2 of V.34, V.90 and V.92: two ends on a line, the line's detectors taken
//! as right.

use softmodem::v34::dpsk::{Receiver, SPAN};
use softmodem::v34::info::{Info, Info0, Info0d, PcmFlags, SymbolRate, INFO0D_BITS, INFO0_BITS};
use softmodem::v34::info1::{Info1aPcmUp, Probed};
use softmodem::v34::phase2::{
    Heard, Line as Out, Modem, Pcm, Reading, Role, Speaking, Stage, Status, UpCaps, V92Wish,
};
use std::collections::VecDeque;

const FS: u32 = 8000;

/// What one end puts on the line at a sample.
#[derive(Clone, Copy)]
struct Sample {
    out: Out,
    /// The point a symbol has just come to, at the middle of its pulse.
    symbol: Option<i8>,
    /// The carrier was turned half way round under a steady tone.
    reversed: bool,
}

const NOTHING: Sample = Sample { out: Out::Silence, symbol: None, reversed: false };

/// A probe of a line that is good for a rate, as far as each symbol rate carries it.
fn reading(max_rate: u8) -> Reading {
    let probed = [9u8, 11, 11, 12, 13, 14].map(|ceiling| Probed {
        high_carrier: false,
        pre_emphasis: 0,
        max_rate: max_rate.min(ceiling),
    });
    Reading { probed, frequency_offset: None }
}

/// The detectors of one end, on what the far end sends.
struct Ears {
    rx: Receiver,
    point: i8,
    /// Symbols since the carrier last turned.
    steady: u32,
}

impl Ears {
    fn new(modem: &Modem) -> Ears {
        Ears { rx: Receiver::new(modem.role().far()), point: 0, steady: 0 }
    }

    fn hear(&mut self, sample: Sample, max_rate: u8) -> Heard {
        let mut info = None;
        if sample.reversed {
            self.point = -self.point;
        }
        if let Some(point) = sample.symbol {
            if point != 0 && self.point != 0 {
                let turned = point != self.point;
                self.steady = if turned { 0 } else { self.steady + 1 };
                info = self.rx.feed(0, turned);
            } else {
                self.steady = 0;
            }
            self.point = point;
        }
        let (tone, sides) = match sample.out {
            Out::Carrier if self.point != 0 && self.steady >= 6 => (300_000, 0),
            Out::L1 | Out::L2 => (1000, 200_000),
            _ => (1000, 0),
        };
        Heard {
            info,
            tone,
            below: sides,
            above: sides,
            reversed: sample.reversed,
            latency: 0,
            reading: Some(reading(max_rate)),
            codeword: 79,
            codeword_v92: 79,
        }
    }
}

/// One sample from a modem.
fn step(modem: &mut Modem, heard: &Heard) -> Sample {
    let (clock, point, pending) = (modem.tx.clock, modem.tx.point, modem.tx.pending());
    let said = modem.step(heard);
    if said.line != Out::Carrier {
        return Sample { out: said.line, ..NOTHING };
    }
    let ticked = modem.tx.clock < clock;
    let middle = modem.tx.history.len() - 1 - SPAN;
    Sample {
        out: said.line,
        symbol: if ticked { Some(modem.tx.history[middle]) } else { None },
        reversed: pending == 0 && modem.tx.pending() == 0 && modem.tx.point == -point,
    }
}

/// A line between two modems: a delay each way, and the rate that it is good for.
struct Line {
    to_answer: VecDeque<Sample>,
    to_call: VecDeque<Sample>,
    max_rate: u8,
}

impl Line {
    fn new(one_way: f64, max_rate: u8) -> Self {
        let delay = (one_way * f64::from(FS)) as usize;
        Self {
            to_answer: std::iter::repeat_n(NOTHING, delay.max(1)).collect(),
            to_call: std::iter::repeat_n(NOTHING, delay.max(1)).collect(),
            max_rate,
        }
    }
}

/// Run the two ends of phase 2 against each other.
fn call(line: &mut Line, seconds: f64) -> (Modem, Modem) {
    run(line, seconds, Modem::new(Role::Call, FS), Modem::new(Role::Answer, FS))
}

/// The same for any two ends: the first takes V.34's call side.
fn run(line: &mut Line, seconds: f64, mut caller: Modem, mut answerer: Modem) -> (Modem, Modem) {
    let (mut call_ears, mut answer_ears) = (Ears::new(&caller), Ears::new(&answerer));
    for _ in 0..(seconds * f64::from(FS)) as usize {
        let at_call = call_ears.hear(line.to_call.pop_front().unwrap(), line.max_rate);
        let at_answer = answer_ears.hear(line.to_answer.pop_front().unwrap(), line.max_rate);
        let from_call = step(&mut caller, &at_call);
        let from_answer = step(&mut answerer, &at_answer);
        line.to_answer.push_back(from_call);
        line.to_call.push_back(from_answer);
        if caller.status() != Status::Running && answerer.status() != Status::Running {
            break;
        }
    }
    (caller, answerer)
}

/// An end that hears nothing.
fn nothing_heard() -> Heard {
    Heard {
        info: None,
        tone: 0,
        below: 0,
        above: 0,
        reversed: false,
        latency: 0,
        reading: Some(reading(14)),
        codeword: 79,
        codeword_v92: 79,
    }
}

fn seconds(samples: u64) -> f64 {
    samples as f64 / f64::from(FS)
}

#[test]
fn two_ends_get_through_phase_2_on_a_short_line() {
    let mut line = Line::new(0.010, 14);
    let (caller, answerer) = call(&mut line, 12.0);
    assert_eq!(caller.status(), Status::Done, "call modem stuck at {}", caller.phase());
    assert_eq!(answerer.status(), Status::Done, "answer modem stuck at {}", answerer.phase());
    assert_eq!(caller.info1a(), answerer.info1a());
    assert_eq!(caller.info1c(), answerer.info1c());
    for (who, m) in [("call", &caller), ("answer", &answerer)] {
        let rtd = seconds(m.round_trip().expect("no round trip"));
        assert!((rtd - 0.020).abs() < 0.002, "{who} measured {rtd}");
        assert_eq!(m.recoveries(), 0, "{who} timed out rather than hearing a reversal");
    }
}

#[test]
fn the_round_trip_of_a_voip_line_is_measured_and_survived() {
    // 750 ms each way, which is what the rig this is built on measures,
    // with an echo of each end's own signal 15 dB down and the line 20 dB.
    let mut line = Line::new(0.750, 14);
    let (caller, answerer) = call(&mut line, 20.0);
    assert_eq!(caller.status(), Status::Done, "call modem stuck at {}", caller.phase());
    assert_eq!(answerer.status(), Status::Done, "answer modem stuck at {}", answerer.phase());
    for (who, m) in [("call", &caller), ("answer", &answerer)] {
        let rtd = seconds(m.round_trip().expect("no round trip"));
        assert!((rtd - 1.5).abs() < 0.002, "{who} measured {rtd}");
        assert_eq!(m.recoveries(), 0, "{who} timed out rather than hearing a reversal");
    }
}

#[test]
fn a_clean_line_is_projected_at_33600_both_ways() {
    let mut line = Line::new(0.020, 14);
    let (caller, answerer) = call(&mut line, 12.0);
    let info1a = caller.info1a().expect("no INFO1a");
    assert_eq!(answerer.status(), Status::Done);
    assert_eq!(info1a.answer_to_call, SymbolRate::S3429, "{info1a:?}");
    assert_eq!(info1a.call_to_answer, SymbolRate::S3429, "{info1a:?}");
    assert_eq!(info1a.probed.max_rate, 14, "{info1a:?}");
    let info1c = caller.info1c().unwrap();
    assert_eq!(info1c.probed[5].max_rate, 14, "{info1c:?}");
}

#[test]
fn a_noisy_line_is_projected_slower() {
    let mut line = Line::new(0.020, 8);
    let (caller, answerer) = call(&mut line, 12.0);
    assert_eq!(caller.status(), Status::Done, "call modem stuck at {}", caller.phase());
    assert_eq!(answerer.status(), Status::Done, "answer modem stuck at {}", answerer.phase());
    let info1a = caller.info1a().unwrap();
    assert!(info1a.probed.max_rate < 12, "{info1a:?}");
    assert!(info1a.probed.max_rate > 2, "{info1a:?}");
}

#[test]
fn a_far_end_that_never_answers_is_given_up_on() {
    let mut caller = Modem::new(Role::Call, FS);
    for _ in 0..21 * FS {
        caller.step(&nothing_heard());
    }
    assert!(matches!(caller.status(), Status::Failed(_)), "{:?}", caller.status());
}

fn server() -> Info0d {
    Info0d { nominal_power: 4, max_power: 23, power_at_codec: true, ..Info0d::default() }
}

#[test]
fn a_v90_pair_settles_on_v90() {
    let mut line = Line::new(0.030, 14);
    let (digital, analogue) = run(&mut line, 12.0, Modem::v90(Pcm::Digital(server()), FS), Modem::v90(Pcm::Analogue, FS));
    assert_eq!(digital.status(), Status::Done, "digital: {}", digital.phase());
    assert_eq!(analogue.status(), Status::Done, "analogue: {}", analogue.phase());
    // Each end heard what the other is.
    assert_eq!(analogue.far_info0d().map(|d| d.max_power), Some(23));
    assert!(digital.far_info0d().is_none());
    let asked = analogue.info1a_pcm().expect("the analogue modem sent no V.90 INFO1a");
    assert_eq!(digital.info1a_pcm(), Some(asked));
    assert!(digital.info1a().is_none() && analogue.info1a().is_none());
    assert_eq!(asked.uinfo, 79);
    assert!(matches!(asked.upstream, SymbolRate::S3000 | SymbolRate::S3200));
    // And the digital modem probed the upstream, as INFO1d says.
    assert!(digital.info1c().is_some_and(|i| i.probed[4].max_rate > 0));
}

#[test]
fn a_v34_modem_calling_a_v90_server_gets_v34() {
    let mut line = Line::new(0.030, 14);
    let (digital, v34) = run(&mut line, 12.0, Modem::v90(Pcm::Digital(server()), FS), Modem::new(Role::Answer, FS));
    assert_eq!(digital.status(), Status::Done, "digital: {}", digital.phase());
    assert_eq!(v34.status(), Status::Done, "V.34: {}", v34.phase());
    assert!(v34.info1a().is_some());
    assert!(digital.info1a().is_some(), "the server did not take V.34's INFO1a");
    assert!(digital.info1a_pcm().is_none());
}

/// When each end starts its tone after reading the other's L2, against the far end's
/// deadline for hearing it, in seconds to spare once the tone has crossed the line.
fn time_to_spare(one_way: f64) -> (f64, f64) {
    let mut line = Line::new(one_way, 14);
    let (mut caller, mut answerer) = (Modem::new(Role::Call, FS), Modem::new(Role::Answer, FS));
    let (mut call_ears, mut answer_ears) = (Ears::new(&caller), Ears::new(&answerer));
    // Where each end's L2 began, and where the other's tone began after it.
    let (mut answer_l2, mut call_l2, mut tone_b, mut tone_a) = (None, None, None, None);
    for _ in 0..20 * FS - 1 {
        let at_call = call_ears.hear(line.to_call.pop_front().unwrap(), 14);
        let at_answer = answer_ears.hear(line.to_answer.pop_front().unwrap(), 14);
        let (call_was, answer_was) = (caller.state.stage, answerer.state.stage);
        line.to_answer.push_back(step(&mut caller, &at_call));
        line.to_call.push_back(step(&mut answerer, &at_answer));
        if let (Stage::AnswerSendProbe, Speaking::Probe { l1_until }) = (answerer.state.stage, answerer.state.speaking) {
            answer_l2.get_or_insert(l1_until);
        }
        if let (Stage::CallSendProbe, Speaking::Probe { l1_until }) = (caller.state.stage, caller.state.speaking) {
            call_l2.get_or_insert(l1_until);
        }
        if call_was == Stage::CallReadProbe && caller.state.stage == Stage::CallAwaitTone {
            tone_b.get_or_insert(caller.state.now);
        }
        if answer_was == Stage::AnswerReadProbe && answerer.state.stage == Stage::AnswerInfo1 {
            tone_a.get_or_insert(answerer.state.now);
        }
        if caller.status() != Status::Running && answerer.status() != Status::Running {
            break;
        }
    }
    assert_eq!(caller.status(), Status::Done, "call modem stuck at {}", caller.phase());
    let crossing = (one_way * f64::from(FS)) as u64;
    let spare = |l2: Option<u64>, tone: Option<u64>, wait: u32, far: &Modem| {
        let (l2, tone) = (l2.expect("no L2"), tone.expect("no tone"));
        let deadline = l2 + far.ms(wait) + far.round_trip().unwrap_or(0);
        (deadline as f64 - (tone + crossing) as f64) / f64::from(FS)
    };
    (spare(answer_l2, tone_b, 600, &answerer), spare(call_l2, tone_a, 650, &caller))
}

#[test]
fn each_end_leaves_the_other_time_to_hear_its_tone() {
    // Reading the whole 500 ms the recommendation allows left a real
    // modem's detector 100 ms, and it missed its deadline by one. The
    // round trips cancel, so the margin is the same on every line.
    for one_way in [0.010, 0.650, 0.750] {
        let (for_answer, for_call) = time_to_spare(one_way);
        assert!(for_answer > 0.25, "{one_way} s each way: the answer modem has {for_answer:.3} s to hear tone B");
        assert!(for_call > 0.30, "{one_way} s each way: the call modem has {for_call:.3} s to hear tone A");
    }
}

#[test]
fn a_call_modem_whose_ranging_went_unanswered_sends_tone_b_again() {
    // Ranging, with this end's reversal made and nothing answering it: the call modem
    // hears tone A, is never answered, and goes back to the beginning.
    let mut m = Modem::new(Role::Call, FS);
    let mut answer = Modem::new(Role::Answer, FS);
    let (mut ears, mut answer_ears) = (Ears::new(&m), Ears::new(&answer));
    let (mut to_call, mut to_answer) = (NOTHING, NOTHING);
    while m.state.stage != Stage::CallRanging {
        let (at_call, at_answer) = (ears.hear(to_call, 14), answer_ears.hear(to_answer, 14));
        to_answer = step(&mut m, &at_call);
        to_call = step(&mut answer, &at_answer);
        assert_eq!(m.status(), Status::Running);
    }
    // Tone A all the while.
    let tone = Heard { tone: 300_000, ..nothing_heard() };
    let mut spoke_again = false;
    let mut went_back = false;
    for _ in 0..5 * FS {
        let sample = step(&mut m, &tone);
        went_back = went_back || m.state.stage == Stage::CallFirstReversal;
        spoke_again = spoke_again || (went_back && sample.out == Out::Carrier);
    }
    assert!(went_back, "the recovery never ran");
    assert!(spoke_again, "the call modem is still silent");
}

#[test]
fn a_retrain_begins_with_70_ms_of_silence_and_then_the_tone() {
    for role in [Role::Call, Role::Answer] {
        let mut m = Modem::retrain(role, FS, Info0::default());
        let out: Vec<Out> = (0..FS / 5).map(|_| step(&mut m, &nothing_heard()).out).collect();
        let first = out.iter().position(|s| *s == Out::Carrier).expect("no tone at all");
        let ms = first as f64 / f64::from(FS) * 1000.0;
        assert!((65.0..=75.0).contains(&ms), "{role:?}: the tone began after {ms} ms");
        assert!(out[first..].iter().all(|s| *s == Out::Carrier), "{role:?}: the tone stopped");
    }
}

#[test]
fn a_v90_analogue_modem_meeting_v34_asks_for_v34() {
    let mut line = Line::new(0.030, 14);
    let (v34, analogue) = run(&mut line, 12.0, Modem::new(Role::Call, FS), Modem::v90(Pcm::Analogue, FS));
    assert_eq!(v34.status(), Status::Done);
    assert_eq!(analogue.status(), Status::Done);
    assert!(analogue.info1a().is_some() && analogue.info1a_pcm().is_none());
    assert!(v34.info1a().is_some());
}

fn caps() -> UpCaps {
    UpCaps { sections: 3, ltot_code: 3, lmax_code: 3 }
}

fn analogue_v92(pcm_upstream: bool) -> Pcm {
    Pcm::AnalogueV92(V92Wish { capable: true, short_phase2: false, pcm_upstream, up_caps: caps() })
}

fn digital_v92(pcm_upstream: bool) -> Pcm {
    Pcm::DigitalV92(server(), V92Wish { capable: true, pcm_upstream, ..V92Wish::default() })
}

fn pcm_call(line: &mut Line, digital: Pcm, analogue: Pcm) -> (Modem, Modem) {
    run(line, 12.0, Modem::v90(digital, FS), Modem::v90(analogue, FS))
}

#[test]
fn a_v92_pair_settles_on_pcm_upstream() {
    let mut line = Line::new(0.030, 14);
    let (digital, analogue) = pcm_call(&mut line, digital_v92(true), analogue_v92(true));
    assert_eq!(digital.status(), Status::Done, "digital: {}", digital.phase());
    assert_eq!(analogue.status(), Status::Done, "analogue: {}", analogue.phase());
    // Each end read the other's capability bit, at its own table's place.
    assert!(digital.both_v92() && analogue.both_v92());
    assert!(!digital.short_phase2_agreed() && !analogue.short_phase2_agreed());
    // Bit 70 said the channel carries PCM upstream, and it was the
    // digital modem's verdict rather than the probe's carrier flag.
    assert!(analogue.info1c().is_some_and(|d| d.pcm_upstream()), "INFO1d bit 70 was clear");
    let asked = analogue.info1a_pcm_up().expect("the analogue modem sent no Table 18 INFO1a");
    assert_eq!(digital.info1a_pcm_up(), Some(asked));
    assert_eq!(digital.refused_info1a(), None);
    // And no other INFO1a layout went either way.
    assert!(analogue.info1a().is_none() && analogue.info1a_pcm().is_none());
    assert!(digital.info1a().is_none() && digital.info1a_pcm().is_none());
    // What Table 18 carries: this end's filter capabilities, an MD of
    // nothing, and a codeword the digital modem can build Sd from.
    assert_eq!((asked.sections, asked.ltot_code, asked.lmax_code), (3, 3, 3));
    assert_eq!(asked.md_length, 0);
    assert_eq!(asked.uinfo, 79, "the same ceiling V.90 works to, for the same INFO0d");
    assert!(asked.uinfo_is_sendable());
}

#[test]
fn a_v92_analogue_modem_meets_a_v90_digital_modem_with_table_10() {
    let mut line = Line::new(0.030, 14);
    let (digital, analogue) = pcm_call(&mut line, Pcm::Digital(server()), analogue_v92(true));
    assert_eq!(digital.status(), Status::Done, "digital: {}", digital.phase());
    assert_eq!(analogue.status(), Status::Done, "analogue: {}", analogue.phase());
    assert!(!analogue.both_v92() && !digital.both_v92());
    assert_eq!(analogue.far_pcm_flags(), PcmFlags::default());
    assert!(analogue.info1a_pcm_up().is_none(), "Table 18 went to a modem that never offered V.92");
    let asked = analogue.info1a_pcm().expect("no Table 10 INFO1a");
    assert_eq!(digital.info1a_pcm(), Some(asked));
}

#[test]
fn a_v90_analogue_modem_meets_a_v92_digital_modem_with_table_10() {
    let mut line = Line::new(0.030, 14);
    let (digital, analogue) = pcm_call(&mut line, digital_v92(true), Pcm::Analogue);
    assert_eq!(digital.status(), Status::Done, "digital: {}", digital.phase());
    assert_eq!(analogue.status(), Status::Done, "analogue: {}", analogue.phase());
    assert!(!digital.both_v92());
    assert_eq!(digital.far_pcm_flags(), PcmFlags::default());
    assert!(digital.info1a_pcm().is_some() && digital.info1a_pcm_up().is_none());
    // The INFO1d it sent kept bit 70 as V.90's 3429 high-carrier flag: the
    // verdict is written over it only when both ends are V.92.
    assert!(!digital.state.sent_pcm_upstream);
}

#[test]
fn bit_70_clear_means_no_table_18() {
    let mut line = Line::new(0.030, 14);
    let (digital, analogue) = pcm_call(&mut line, digital_v92(false), analogue_v92(true));
    assert_eq!(digital.status(), Status::Done, "digital: {}", digital.phase());
    assert_eq!(analogue.status(), Status::Done, "analogue: {}", analogue.phase());
    assert!(digital.both_v92() && analogue.both_v92(), "the flags crossed all the same");
    assert!(!analogue.info1c().expect("no INFO1d").pcm_upstream(), "bit 70 was set");
    assert!(analogue.info1a_pcm_up().is_none(), "Table 18 went with bit 70 clear");
    assert!(analogue.info1a_pcm().is_some() && digital.info1a_pcm().is_some());
}

#[test]
fn pig_off_means_no_table_18() {
    let mut line = Line::new(0.030, 14);
    let (digital, analogue) = pcm_call(&mut line, digital_v92(true), analogue_v92(false));
    assert_eq!(analogue.status(), Status::Done, "analogue: {}", analogue.phase());
    assert!(analogue.info1c().is_some_and(|d| d.pcm_upstream()), "bit 70 should still be set");
    assert!(analogue.info1a_pcm_up().is_none());
    assert!(digital.info1a_pcm().is_some(), "the server took Table 10");
}

#[test]
fn declining_pcm_upstream_gives_table_10_next_time() {
    let mut line = Line::new(0.030, 14);
    let (digital, mut analogue) = pcm_call(&mut line, digital_v92(true), analogue_v92(true));
    assert!(analogue.info1a_pcm_up().is_some(), "no Table 18 the first time round");

    analogue.decline_pcm_upstream();
    let mut again = Line::new(0.030, 14);
    let (digital, analogue) = run(&mut again, 12.0, digital.again(), analogue.again());
    assert_eq!(digital.status(), Status::Done, "digital: {}", digital.phase());
    assert_eq!(analogue.status(), Status::Done, "analogue: {}", analogue.phase());
    assert!(analogue.info1a_pcm_up().is_none(), "Table 18 again after declining it");
    assert!(analogue.info1a_pcm().is_some() && digital.info1a_pcm().is_some());
    // The offer is still on the table; only this end's answer changed.
    assert!(analogue.both_v92());
    assert!(analogue.info1c().is_some_and(|d| d.pcm_upstream()));
}

#[test]
fn a_retrain_between_v92_modems_keeps_the_flags_and_runs_full_phase_2() {
    let short = |pcm: Pcm| match pcm {
        Pcm::AnalogueV92(w) => Pcm::AnalogueV92(V92Wish { short_phase2: true, ..w }),
        Pcm::DigitalV92(d, w) => Pcm::DigitalV92(d, V92Wish { short_phase2: true, ..w }),
        other => other,
    };
    let mut line = Line::new(0.030, 14);
    let (digital, analogue) =
        pcm_call(&mut line, short(digital_v92(true)), short(analogue_v92(true)));
    assert!(digital.short_phase2_agreed() && analogue.short_phase2_agreed(), "all four bits are set");

    let (before_d, before_a) = (digital.far_pcm_flags(), analogue.far_pcm_flags());
    let mut again = Line::new(0.030, 14);
    let (digital, analogue) = run(&mut again, 12.0, digital.again(), analogue.again());
    assert_eq!(digital.status(), Status::Done, "digital: {}", digital.phase());
    assert_eq!(analogue.status(), Status::Done, "analogue: {}", analogue.phase());
    // No INFO0 crossed this time, and the flags are the ones that did.
    assert_eq!(digital.state.far_info0_count, 1);
    assert_eq!((digital.far_pcm_flags(), analogue.far_pcm_flags()), (before_d, before_a));
    assert!(digital.both_v92() && analogue.both_v92());
    assert!(!digital.short_phase2_agreed() && !analogue.short_phase2_agreed(), "a retrain runs full phase 2");
    // Which is to say the V.92 layouts are still in use: a full phase 2
    // with its probing, an INFO1d with bit 70, and Table 18 again.
    assert!(analogue.reading().is_some(), "a full phase 2 probes");
    assert!(analogue.info1a_pcm_up().is_some() && digital.info1a_pcm_up().is_some());
}

#[test]
fn a_v34_info0_with_a_clock_of_1_is_not_taken_for_v92() {
    let mut line = Line::new(0.030, 14);
    let mut v34 = Modem::new(Role::Answer, FS);
    // "Transmit clock source: synchronized to the receive timing", which
    // sits in the two bits V.92's INFO0a uses.
    v34.state.ours.clock = 1;
    // The constructor queued an INFO0 with the clock that was there; this
    // test means the other one.
    v34.tx.stop();
    let bits = v34.info0_bits();
    assert!(bits[26] && !bits[27], "the clock should still go out as a clock");
    v34.tx.send(&bits);
    let (digital, v34) = run(&mut line, 12.0, Modem::v90(digital_v92(true), FS), v34);
    assert_eq!(digital.status(), Status::Done, "digital: {}", digital.phase());
    assert_eq!(v34.status(), Status::Done, "V.34: {}", v34.phase());
    // The V.34 end reads no flags at all: it has no PCM role.
    assert!(!v34.both_v92());
    assert_eq!(v34.far_pcm_flags(), PcmFlags::default());
    // And it could not: an INFO0d's bits 26:27 are parked above V.34's own
    // two on the way in, so they are not a clock source there either.
    assert_eq!(v34.far_capabilities().map(|f| f.clock & 3), Some(0), "an INFO0d read as a clock");
    // The digital end cannot tell, and does believe it -- and nothing
    // comes of it, because the far end asked for V.34.
    assert!(digital.both_v92(), "no frame bit could say otherwise");
    assert!(digital.info1a().is_some(), "the server did not take V.34's INFO1a");
    assert!(digital.info1a_pcm_up().is_none() && digital.info1a_pcm().is_none());
}

#[test]
fn the_lapm_bypass_needs_both_v92_and_both_prot0() {
    let mut line = Line::new(0.030, 14);
    let (digital, analogue) = pcm_call(&mut line, digital_v92(true), analogue_v92(true));
    for (who, m) in [("digital", &digital), ("analogue", &analogue)] {
        assert!(m.lapm_bypass_allowed(true), "{who} would not bypass with both halves");
        assert!(!m.lapm_bypass_allowed(false), "{who} bypassed without LAPM in prot0");
    }
    // A V.90 pair never bypasses, however the menus read.
    let mut line = Line::new(0.030, 14);
    let (digital, analogue) = pcm_call(&mut line, Pcm::Digital(server()), Pcm::Analogue);
    assert!(!digital.lapm_bypass_allowed(true) && !analogue.lapm_bypass_allowed(true));
}

#[test]
fn a_table_18_info1a_this_end_did_not_invite_is_counted_as_not_received() {
    let asked = Info1aPcmUp { sections: 3, ltot_code: 0, lmax_code: 0, md_length: 0, uinfo: 90 };

    // A V.92 pair whose INFO1d said the channel will not carry PCM
    // upstream, and an analogue modem that asks for it regardless.
    let mut m = Modem::v90(digital_v92(false), FS);
    m.state.far_flags = PcmFlags { v92: true, short_phase2: false };
    m.state.stage = Stage::CallInfo1;
    m.heard(Info::Info1aPcmUp(asked), &nothing_heard());
    assert_eq!(m.status(), Status::Running, "the frame was acted on");
    assert!(m.info1a_pcm_up().is_none());
    assert_eq!(m.refused_info1a(), Some("a table 18 info1a after an info1d that cleared bit 70"));

    // And the same frame from a far end that never indicated V.92, with
    // bit 70 set, so that only the capability test can refuse it.
    let mut m = Modem::v90(digital_v92(true), FS);
    m.state.stage = Stage::CallInfo1;
    m.state.sent_pcm_upstream = true;
    m.heard(Info::Info1aPcmUp(asked), &nothing_heard());
    assert_eq!(m.status(), Status::Running);
    assert!(m.info1a_pcm_up().is_none());
    assert_eq!(m.refused_info1a(), Some("a table 18 info1a from a far end that did not indicate v.92"));

    // With both, it is the INFO1a this phase 2 was waiting for.
    let mut m = Modem::v90(digital_v92(true), FS);
    m.state.far_flags = PcmFlags { v92: true, short_phase2: false };
    m.state.stage = Stage::CallInfo1;
    m.state.sent_pcm_upstream = true;
    m.heard(Info::Info1aPcmUp(asked), &nothing_heard());
    assert_eq!(m.status(), Status::Done);
    assert_eq!(m.info1a_pcm_up(), Some(asked));
    assert_eq!(m.refused_info1a(), None);
}

#[test]
fn the_info0_flags_go_out_where_each_table_puts_them() {
    let asking = V92Wish { capable: true, short_phase2: true, pcm_upstream: true, up_caps: caps() };
    let capable = V92Wish { short_phase2: false, ..asking };

    let bits = Modem::v90(Pcm::DigitalV92(server(), capable), FS).info0_bits();
    assert_eq!(bits.len(), INFO0D_BITS);
    assert!(!bits[26] && bits[27], "INFO0d: 26 is the request, 27 the capability");
    let bits = Modem::v90(Pcm::DigitalV92(server(), asking), FS).info0_bits();
    assert!(bits[26] && bits[27]);
    assert_eq!(Info0d::from_bits(&bits).map(|d| d.pcm_flags()), Some(asking.flags()));

    let bits = Modem::v90(Pcm::AnalogueV92(capable), FS).info0_bits();
    assert_eq!(bits.len(), INFO0_BITS);
    assert!(bits[26] && !bits[27], "INFO0a: 26 is the capability, 27 the request");
    let bits = Modem::v90(Pcm::AnalogueV92(asking), FS).info0_bits();
    assert!(bits[26] && bits[27]);
    assert_eq!(Info0::from_bits(&bits).map(|a| a.pcm_flags()), Some(asking.flags()));
}

#[test]
fn the_v90_constructors_still_send_what_they_always_sent() {
    let nothing = V92Wish::default();
    for (v90, v92) in [
        (Pcm::Analogue, Pcm::AnalogueV92(nothing)),
        (Pcm::Digital(server()), Pcm::DigitalV92(server(), nothing)),
    ] {
        let was = Modem::v90(v90, FS).info0_bits();
        assert_eq!(was, Modem::v90(v92, FS).info0_bits(), "{v90:?}");
        assert!(!was[26] && !was[27], "{v90:?}: V.90 sets both of these to 0");
        assert_eq!(v90.wish(), nothing);
        assert_eq!(v90.role(), v92.role());
    }
}

#[test]
fn the_probe_says_how_fast_this_end_could_receive() {
    let mut line = Line::new(0.020, 8);
    let before = Modem::new(Role::Call, FS);
    assert_eq!(before.v34_receive_rate(), None);
    assert!(!before.reads_now() && !before.asks_for_retrain());
    let (caller, _) = call(&mut line, 12.0);
    assert_eq!(caller.v34_receive_rate(), Some(8 * 2400));
}

#[test]
fn declining_pcm_asks_for_v34() {
    let mut line = Line::new(0.030, 14);
    let mut analogue = Modem::v90(Pcm::Analogue, FS);
    analogue.decline_pcm();
    let (digital, analogue) = run(&mut line, 12.0, Modem::v90(Pcm::Digital(server()), FS), analogue);
    assert_eq!(analogue.status(), Status::Done, "analogue: {}", analogue.phase());
    assert!(analogue.info1a_pcm().is_none());
    assert_eq!(digital.info1a(), analogue.info1a());
    assert!(digital.info1a().is_some());
}
