//! The phase 2 modulation: turns out, and sequences in.

use softmodem::v34::dpsk::{Receiver, Side, Transmitter, HISTORY, PHASES, SPAN};
use softmodem::v34::info::{Info, Info0, SymbolRate};
use softmodem::v34::info1::{Info1a, Info1aPcm, Info1aPcmUp, Info1aV34Up, Info1c, Probed};
use softmodem::v34::mh::{Cleardown, Mh, T1};

const FS: u32 = 16_000;

fn capabilities() -> Info0 {
    Info0 {
        rate_2743: true,
        rate_3429: true,
        low_carrier_3200: true,
        transmit_3429: true,
        asymmetry: 5,
        constellation_1664: true,
        ..Info0::default()
    }
}

fn results() -> Info1a {
    Info1a {
        min_power_reduction: 1,
        additional_power_reduction: 0,
        md_length: 20,
        probed: Probed { high_carrier: true, pre_emphasis: 6, max_rate: 13 },
        answer_to_call: SymbolRate::S3200,
        call_to_answer: SymbolRate::S3429,
        frequency_offset: Some(-25),
    }
}

/// The points a transmitter comes to, one for each symbol, at the middle of the pulse.
fn symbols(tx: &mut Transmitter, samples: u32) -> Vec<i8> {
    let mut points = Vec::new();
    for _ in 0..samples {
        let clock = tx.clock;
        tx.next_sample();
        if tx.clock < clock {
            points.push(tx.history[HISTORY - 1 - SPAN]);
        }
    }
    points
}

/// A transmitter straight into a receiver, through the branch it is sampled in.
fn heard_by(side: Side, sequences: &[Vec<bool>], mut rx: Receiver) -> Vec<Info> {
    let mut tx = Transmitter::new(side, FS);
    for bits in sequences {
        tx.send(bits);
    }
    tx.silence();
    let mut found = Vec::new();
    let mut last = 0;
    for point in symbols(&mut tx, 2 * FS) {
        if point != 0 && last != 0 {
            found.extend(rx.feed(3, point != last));
        }
        last = point;
    }
    assert!(!tx.is_sending());
    found
}

#[test]
fn both_sides_carry_both_their_sequences() {
    let info1c = Info1c { md_length: 12, ..Info1c::default() };
    let call = Receiver::new(Side::Call);
    let found = heard_by(Side::Call, &[capabilities().to_bits(), info1c.to_bits()], call);
    assert_eq!(found, vec![Info::Info0(capabilities()), Info::Info1c(info1c)]);
    let answer = Receiver::new(Side::Answer);
    let found = heard_by(Side::Answer, &[capabilities().to_bits(), results().to_bits()], answer);
    assert_eq!(found, vec![Info::Info0(capabilities()), Info::Info1a(results())]);
}

#[test]
fn a_sequence_carries_on_into_the_tone_after_it() {
    // INFO0 followed by tone B: the carrier stays up with no reversals.
    let mut tx = Transmitter::new(Side::Call, FS);
    assert_eq!(tx.side(), Side::Call);
    tx.send(&capabilities().to_bits());
    let points = symbols(&mut tx, FS);
    assert!(tx.is_sending(), "the tone stopped");
    assert_eq!(tx.pending(), 0);
    let tone = &points[100..];
    assert!(tone.iter().all(|p| *p == tone[0] && *p != 0), "the tone turned");
}

#[test]
fn a_reversal_turns_the_carrier_round_on_the_sample() {
    let mut tx = Transmitter::new(Side::Call, FS);
    let mut plain = Transmitter::new(Side::Call, FS);
    tx.send(&[false; 40]);
    plain.send(&[false; 40]);
    for _ in 0..4000 {
        tx.next_sample();
        plain.next_sample();
    }
    tx.reverse();
    for _ in 0..200 {
        tx.next_sample();
        plain.next_sample();
        let negated: Vec<i8> = plain.history.iter().map(|p| -p).collect();
        assert_eq!(tx.history.to_vec(), negated);
    }
    tx.stop();
    assert!(!tx.is_sending());
    tx.next_sample();
    assert!(tx.history.iter().all(|p| *p == 0));
}

#[test]
fn every_info1a_layout_reaches_the_caller_as_itself() {
    let table18 = Info1aPcmUp { sections: 3, ltot_code: 1, lmax_code: 0, md_length: 4, uinfo: 90 };
    let table10 = Info1aPcm { md_length: 20, uinfo: 78, upstream: SymbolRate::S3200, frequency_offset: Some(-25) };
    let sequences = [results().to_bits(), table18.to_bits(), table10.to_bits()];
    let found = heard_by(Side::Answer, &sequences, Receiver::new(Side::Answer));
    assert_eq!(found, vec![Info::Info1a(results()), Info::Info1aPcmUp(table18), Info::Info1aPcm(table10)]);
    let short = Receiver::new(Side::Answer).in_short_phase2();
    assert_eq!(heard_by(Side::Answer, &sequences[1..2], short), vec![Info::Info1aPcmUp(table18)]);
}

#[test]
fn bit_33_is_read_only_where_short_phase_2_gives_it_a_meaning() {
    let table19 = Info1aV34Up {
        v90: Info1aPcm { md_length: 20, uinfo: 77, upstream: SymbolRate::S3429, frequency_offset: Some(-25) },
        high_carrier: true,
    };
    let low = Info1aV34Up { high_carrier: false, ..table19 };
    for asked in [table19, low] {
        let bits = [asked.to_bits()];
        let full = Receiver::new(Side::Answer);
        assert_eq!(heard_by(Side::Answer, &bits, full), vec![Info::Info1aPcm(asked.v90)]);
        let short = Receiver::new(Side::Answer).in_short_phase2();
        assert_eq!(heard_by(Side::Answer, &bits, short), vec![Info::Info1aV34Up(asked)]);
    }
}

#[test]
fn mh_frames_are_heard_back_to_back_only_when_asked_for() {
    let sent = [Mh::req(), Mh::ack(T1::from_code(5)), Mh::clrd(Cleardown::IncomingCall)];
    let bits: Vec<Vec<bool>> = sent.iter().map(Mh::to_bits).collect();
    let wanted: Vec<Info> = sent.iter().map(|&mh| Info::Mh(mh)).collect();
    for side in [Side::Call, Side::Answer] {
        let listening = Receiver::new(side).with_mh();
        assert_eq!(heard_by(side, &bits, listening), wanted, "{side:?}");
        let deaf = Receiver::new(side);
        assert_eq!(heard_by(side, &bits, deaf), Vec::new(), "{side:?}");
    }
    let sequences = [capabilities().to_bits(), results().to_bits()];
    let listening = Receiver::new(Side::Answer).with_mh();
    assert_eq!(
        heard_by(Side::Answer, &sequences, listening),
        vec![Info::Info0(capabilities()), Info::Info1a(results())]
    );
}

#[test]
fn a_branch_that_hears_noise_does_not_spoil_another() {
    let mut rx = Receiver::new(Side::Call);
    let mut found = Vec::new();
    for (n, bit) in capabilities().to_bits().into_iter().enumerate() {
        for branch in 0..PHASES {
            let heard = if branch == 5 { bit } else { (n * branch) % 3 == 1 };
            found.extend(rx.feed(branch, heard));
        }
    }
    assert_eq!(found, vec![Info::Info0(capabilities())]);
}

#[test]
fn the_two_sides_have_carriers_an_octave_apart() {
    assert_eq!((Side::Call.carrier(), Side::Answer.carrier()), (1200, 2400));
}
