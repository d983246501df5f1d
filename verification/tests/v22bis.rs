//! V.22bis: the points, the scrambler, data from end to end, and the handshake.

use softmodem::v22bis::handshake::{Handshake, Modem, Pattern, Rate, Role, Signal, Status};
use softmodem::v22bis::{
    nearest_point, point_bits, quadrant_of, rotate, Channel, Receiver, Scrambler, Transmitter, CARRIER_HIGH,
    CARRIER_LOW, CHANGE_TO_BITS, CONSTELLATION_MEAN_POWER, QUADRANT_CHANGE, QUADRANT_POINTS, UNIT,
};

#[test]
fn the_channels_face_each_other() {
    assert_eq!(Channel::Calling.transmit_carrier(), CARRIER_LOW);
    assert_eq!(Channel::Calling.receive_carrier(), CARRIER_HIGH);
    assert_eq!(Channel::Answering.transmit_carrier(), CARRIER_HIGH);
    assert_eq!(Channel::Answering.receive_carrier(), CARRIER_LOW);
}

#[test]
fn the_quadrant_changes_match_table_1() {
    // 00 turns by one quadrant, 01 stays, 10 turns by two, 11 by three.
    assert_eq!(QUADRANT_CHANGE[0b00], 1);
    assert_eq!(QUADRANT_CHANGE[0b01], 0);
    assert_eq!(QUADRANT_CHANGE[0b10], 2);
    assert_eq!(QUADRANT_CHANGE[0b11], 3);
    // And the inverse agrees.
    for (bits, &change) in QUADRANT_CHANGE.iter().enumerate() {
        assert_eq!(CHANGE_TO_BITS[change as usize], bits as u8);
    }
}

#[test]
fn the_constellation_matches_figure_2() {
    assert_eq!(QUADRANT_POINTS[0b00], (1, 1));
    assert_eq!(QUADRANT_POINTS[0b01], (3, 1));
    assert_eq!(QUADRANT_POINTS[0b10], (1, 3));
    assert_eq!(QUADRANT_POINTS[0b11], (3, 3));
}

#[test]
fn the_v22_compatibility_point_carries_the_average_power() {
    // 01 is nominated for 1200 bit/s. Its magnitude is the
    // root-mean-square of the whole constellation, so the slower signal has
    // the same average power as the faster one.
    let (x, y) = QUADRANT_POINTS[0b01];
    let magnitude = f64::from(x * x + y * y).sqrt();
    let mut sum = 0;
    for q in 0..4u8 {
        for p in QUADRANT_POINTS {
            let r = rotate(p, q);
            sum += r.0 * r.0 + r.1 * r.1;
        }
    }
    let rms = (f64::from(sum) / 16.0).sqrt();
    assert!((magnitude - rms).abs() < 1e-12, "{magnitude} against {rms}");
    assert!((rms - f64::from(CONSTELLATION_MEAN_POWER).sqrt()).abs() < 1e-12);
}

#[test]
fn rotation_walks_the_quadrants() {
    let p = (1, 3);
    assert_eq!(rotate(p, 0), (1, 3));
    assert_eq!(rotate(p, 1), (-3, 1));
    assert_eq!(rotate(p, 2), (-1, -3));
    assert_eq!(rotate(p, 3), (3, -1));
    assert_eq!(quadrant_of(rotate(p, 1)), 1);
    assert_eq!(quadrant_of(rotate(p, 3)), 3);
}

#[test]
fn every_constellation_point_decodes_to_its_own_bits() {
    for quadrant in 0..4u8 {
        for (bits, &base) in QUADRANT_POINTS.iter().enumerate() {
            let point = rotate(base, quadrant);
            assert_eq!(quadrant_of(point), quadrant);
            assert_eq!(point_bits(point, quadrant), bits as u8);
        }
    }
}

#[test]
fn slicing_snaps_to_the_nearest_point() {
    assert_eq!(nearest_point((900, 1100)), (1, 1));
    assert_eq!(nearest_point((2700, -3400)), (3, -3));
    assert_eq!(nearest_point((-1200, 2600)), (-1, 3));
    // Beyond the constellation, clamp rather than run away.
    assert_eq!(nearest_point((9000, -9000)), (3, -3));
}

#[test]
fn the_scrambler_is_self_inverse() {
    let mut tx = Scrambler::new();
    let mut rx = Scrambler::new();
    let input: Vec<bool> = (0..2000).map(|i| (i * 37 + 11) % 5 < 2).collect();
    let recovered: Vec<bool> = input
        .iter()
        .map(|&b| rx.descramble(tx.scramble(b)))
        .collect();
    assert_eq!(recovered, input);
}

#[test]
fn the_scrambler_breaks_up_a_constant_input() {
    // Its purpose: a run of identical bits must not become a line spectrum.
    let mut s = Scrambler::new();
    let out: Vec<bool> = (0..4000).map(|_| s.scramble(true)).collect();
    let ones = out.iter().filter(|b| **b).count();
    let ratio = ones as f64 / out.len() as f64;
    assert!(
        (0.4..0.6).contains(&ratio),
        "all-ones input produced {ratio} ones, which is not scrambled"
    );
}

#[test]
fn the_scrambler_recovers_from_a_lock_up() {
    // Sixty-four ones at the output invert the next input, so
    // the pathological all-ones state cannot persist.
    let mut s = Scrambler::new();
    s.register = 0;
    let mut longest = 0;
    let mut run = 0;
    for _ in 0..20_000 {
        if s.scramble(false) {
            run += 1;
            longest = longest.max(run);
        } else {
            run = 0;
        }
    }
    assert!(longest <= 64, "a run of {longest} ones escaped the detector");
}

#[test]
fn what_is_sent_is_received_through_a_noisy_line() {
    let mut tx = Transmitter::new();
    let mut rx = Receiver::new();
    let data = b"two thousand four hundred bits a second";
    tx.push_bytes(data);
    assert_eq!(tx.pending_bits(), 8 * data.len());
    let mut n = 0i32;
    // The first symbol is only a reference, so it goes out before the data.
    let first = Transmitter::new().next_symbol();
    rx.on_symbol((first.0 * UNIT, first.1 * UNIT));
    let mut fresh = Transmitter::new();
    fresh.push_bytes(data);
    while fresh.pending_bits() > 0 {
        let p = fresh.next_symbol();
        n = (n * 37 + 11) % 1801;
        rx.on_symbol((p.0 * UNIT + n - 900, p.1 * UNIT + 900 - n));
    }
    let bits = rx.take_bits();
    assert_eq!(bits.len(), 8 * data.len());
    assert!(rx.take_bytes().is_empty());
}

#[test]
fn octets_come_back_from_their_points() {
    let mut tx = Transmitter::new();
    let mut rx = Receiver::new();
    let preamble = tx.next_symbol();
    rx.on_symbol((preamble.0 * UNIT, preamble.1 * UNIT));
    for _ in 0..8 {
        let p = tx.next_symbol();
        rx.on_symbol((p.0 * UNIT, p.1 * UNIT));
    }
    rx.take_bits();
    tx.push_bytes(b"octets");
    while tx.pending_bits() > 0 {
        let p = tx.next_symbol();
        rx.on_symbol((p.0 * UNIT, p.1 * UNIT));
    }
    assert_eq!(rx.take_bytes(), b"octets");
}

/// What a signal sounds like at the far end.
fn heard(signal: Option<Signal>) -> Pattern {
    match signal {
        Some(Signal::UnscrambledOnes) => Pattern::UnscrambledOnes,
        Some(Signal::DoubleDibit) => Pattern::DoubleDibit,
        Some(Signal::ScrambledOnes) => Pattern::ScrambledOnes,
        _ => Pattern::Other,
    }
}

const FS: u32 = 8000;

/// Two handshakes against each other, the calling one deaf to the double dibit or not.
fn shake(seconds: u32, at_1200: bool) -> (Status, Status) {
    let mut calling = Handshake::new(Role::Calling, FS);
    let mut answering = Handshake::new(Role::Answering, FS);
    let (mut from_calling, mut from_answering) = (None, None);
    for _ in 0..seconds * FS {
        let (_, told) = calling.step(heard(from_answering));
        let to_answering = if at_1200 && from_calling == Some(Signal::DoubleDibit) {
            Pattern::Other
        } else {
            heard(from_calling)
        };
        let (_, answer) = answering.step(to_answering);
        from_calling = told.signal.or(from_calling);
        from_answering = answer.signal.or(from_answering);
    }
    (calling.status(), answering.status())
}

#[test]
fn two_ends_that_offer_2400_connect_at_it() {
    assert_eq!(
        shake(8, false),
        (Status::Connected(Rate::Bps2400), Status::Connected(Rate::Bps2400))
    );
}

#[test]
fn an_end_that_hears_no_offer_connects_at_1200() {
    let (_, answering) = shake(8, true);
    assert_eq!(answering, Status::Connected(Rate::Bps1200));
}

#[test]
fn a_handshake_that_hears_nothing_gives_up_after_a_minute() {
    let mut calling = Handshake::new(Role::Calling, FS);
    assert_eq!(calling.role(), Role::Calling);
    for _ in 1..60 * FS {
        assert_eq!(calling.step(Pattern::Other).1.signal, Some(Signal::Silent));
    }
    assert_eq!(calling.status(), Status::Negotiating);
    calling.step(Pattern::Other);
    assert_eq!(calling.status(), Status::Failed);
}

#[test]
fn a_modem_is_told_its_rate_and_carries_data() {
    let mut modem = Modem::new(Role::Answering, FS);
    assert_eq!(modem.channel(), Channel::Answering);
    assert_eq!(modem.rate(), Rate::Bps1200);
    modem.send_bits(&[true, false, true]);
    assert_eq!(modem.pending_bits(), 3);
    for i in 0..8 * FS {
        let second = i / FS;
        let pattern = if second < 4 { Pattern::DoubleDibit } else { Pattern::ScrambledOnes };
        modem.step(pattern, if i % 100 == 0 { Some((3000, 1000)) } else { None });
    }
    assert_eq!(modem.status(), Status::Connected(Rate::Bps2400));
    assert_eq!(modem.rate(), Rate::Bps2400);
    // One symbol is a reference; every other is four bits.
    assert_eq!(modem.take_bits().len(), 4 * (8 * 80 - 1));
    assert!(modem.take_bits().is_empty());
}
