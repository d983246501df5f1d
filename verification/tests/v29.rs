//! V.29: the points, the synchronizing signal, and bursts from end to end.

use softmodem::carrier::Levels;
use softmodem::v29::{
    a, b, c, d, nearest_point, train, Conditioning, Point, Rate, Receiver, Stage, Transmitter, BAUD, TURN_OFF_SYMBOLS,
};

const LOUD: Levels = Levels { level: 50_000_000, loudest: 50_000_000, floor: 1000 };
const QUIET: Levels = Levels { level: 0, loudest: 50_000_000, floor: 1000 };

fn bits_of(bytes: &[u8]) -> Vec<bool> {
    bytes
        .iter()
        .flat_map(|&byte| (0..8).rev().map(move |i| byte >> i & 1 != 0))
        .collect()
}

fn find(haystack: &[bool], needle: &[bool]) -> Option<usize> {
    haystack.windows(needle.len()).position(|w| w == needle)
}

/// One burst, symbol by symbol, and what the receiver made of it.
fn loopback(rate: Rate, data: &[u8]) -> Vec<bool> {
    let mut tx = Transmitter::new();
    let mut rx = Receiver::new();
    rx.set_rate(rate);
    assert_eq!(rx.rate(), rate);
    tx.start(rate);
    assert_eq!(tx.rate(), rate);
    tx.push_bytes(data);
    let mut out = Vec::new();
    for _ in 0..20_000 {
        if tx.trained() && tx.pending_bits() == 0 {
            tx.stop();
        }
        match tx.next_symbol() {
            Some(point) => {
                rx.on_level(LOUD);
                let (x, y) = point.xy();
                rx.on_symbol((1000 * x + 300, 1000 * y - 300));
            }
            None => rx.on_level(QUIET),
        }
        out.extend(rx.take_bits());
        if !tx.is_transmitting() && !rx.carrier() && !out.is_empty() {
            break;
        }
    }
    out
}

#[test]
fn table_2_gives_the_radii_and_figures_1_to_3_the_counts() {
    let radius = |p: Point| f64::from(p.power()).sqrt();
    let sqrt2 = std::f64::consts::SQRT_2;
    for (eighths, outer, want) in [
        (0, false, 3.0),
        (0, true, 5.0),
        (1, false, sqrt2),
        (1, true, 3.0 * sqrt2),
    ] {
        for turn in [0, 2, 4, 6] {
            let p = Point { eighths: eighths + turn, outer };
            assert!(
                (radius(p) - want).abs() < 1e-12,
                "{p:?} is at {}, Table 2 says {want}",
                radius(p)
            );
        }
    }
    assert_eq!(Rate::R9600.constellation().len(), 16);
    assert_eq!(Rate::R7200.constellation().len(), 8);
    assert_eq!(Rate::R4800.constellation().len(), 4);
    assert!(
        Rate::R4800.constellation().iter().all(|p| (radius(*p) - 3.0).abs() < 1e-12),
        "the amplitude is constant with a relative value of 3"
    );
}

#[test]
fn the_points_are_where_the_figures_draw_them() {
    let at = |eighths, outer| Point { eighths, outer }.xy();
    assert_eq!(at(0, false), (3, 0));
    assert_eq!(at(2, true), (0, 5));
    assert_eq!(at(1, false), (1, 1));
    assert_eq!(at(3, true), (-3, 3));
    assert_eq!(at(5, false), (-1, -1));
    assert_eq!(at(7, true), (3, -3));
}

#[test]
fn figure_4_puts_the_training_points_where_it_does() {
    assert_eq!(a().xy(), (-3, 0));
    assert_eq!(c().xy(), (3, 0));
    assert_eq!(b(Rate::R4800).xy(), (0, -3));
    assert_eq!(d(Rate::R4800).xy(), (0, 3));
    assert_eq!(b(Rate::R7200).xy(), (1, -1));
    assert_eq!(d(Rate::R7200).xy(), (-1, 1));
    assert_eq!(b(Rate::R9600).xy(), (3, -3));
    assert_eq!(d(Rate::R9600).xy(), (-3, 3));
    for rate in [Rate::R4800, Rate::R7200, Rate::R9600] {
        let points = rate.constellation();
        assert!(points.contains(&b(rate)) && points.contains(&d(rate)));
        assert!(points.contains(&a()) && points.contains(&c()));
    }
}

#[test]
fn the_training_is_as_loud_as_the_data_it_trains_for() {
    // Not stated anywhere, and true at all three rates: A and B together
    // have exactly the mean power of the constellation. Which is what lets
    // a receiver's gain control settle on the training and still be right
    // for the data that follows.
    for rate in [Rate::R4800, Rate::R7200, Rate::R9600] {
        let training = f64::from(a().power() + b(rate).power()) / 2.0;
        let data = f64::from(rate.twice_mean_power()) / 2.0;
        assert!(
            (training - data).abs() < 1e-12,
            "{rate:?}: training {training}, data {data}"
        );
    }
}

#[test]
fn table_5_is_608_symbols_or_253_milliseconds() {
    assert_eq!(train::TOTAL, 608);
    let ms = 1000.0 * f64::from(train::TOTAL) / f64::from(BAUD);
    assert!((ms - 253.0).abs() < 1.0, "{ms}");
}

#[test]
fn appendix_i_lists_these_four_conditions_and_8_2_this_start() {
    let mut g = Conditioning::new();
    let mut conditions = Vec::new();
    let mut symbols = String::new();
    for _ in 0..7 {
        conditions.push(format!("{:07b}", g.condition()));
        symbols.push(if g.next_bit() { 'D' } else { 'C' });
    }
    assert_eq!(conditions[..4], ["0101010", "1010101", "1101010", "1110101"]);
    assert_eq!(symbols, "CDCDCDC");
}

#[test]
fn table_3_codes_4800_as_it_prints() {
    // Data bits to phase change: 00 none, 01 a quarter, 11 a half, 10
    // three quarters -- by way of Q4, which is Q2 plus Q3 inverted.
    //
    // The scrambler is in the way, but only after eighteen bits: an empty
    // register adds nothing to the first of them, so two bits pushed into
    // a fresh one come out as they went in.
    for (bits, turn) in [
        ([false, false], 0u8),
        ([false, true], 2),
        ([true, true], 4),
        ([true, false], 6),
    ] {
        let mut tx = Transmitter::new();
        tx.start(Rate::R4800);
        tx.stage = Stage::Data;
        let before = tx.point;
        tx.push_bits(&bits);
        let after = tx.coded(false);
        assert_eq!((after.eighths + 8 - before.eighths) & 7, turn, "{bits:?}");
        assert!(!after.outer, "4800 is only ever the inner ring");
    }
}

#[test]
fn a_burst_comes_back_out_at_every_rate() {
    for rate in [Rate::R9600, Rate::R7200, Rate::R4800] {
        let data = b"V.29 carries a page at twice the speed of V.27 ter.";
        let bits = loopback(rate, data);
        assert!(find(&bits, &bits_of(data)).is_some(), "{rate:?}: the message did not survive");
    }
}

#[test]
fn v29_the_training_check_arrives_as_zeros() {
    for rate in [Rate::R9600, Rate::R7200] {
        let count = (1.5 * f64::from(rate.bits_per_second())) as usize;
        let bits = loopback(rate, &vec![0; count / 8]);
        let mut longest = 0;
        let mut run = 0;
        for &bit in &bits {
            run = if bit { 0 } else { run + 1 };
            longest = longest.max(run);
        }
        assert!(longest >= count - 100, "{rate:?}: longest run {longest} of {count}");
    }
}

#[test]
fn the_carrier_comes_and_goes_with_the_burst() {
    let mut tx = Transmitter::new();
    let mut rx = Receiver::new();
    rx.set_rate(Rate::R9600);
    tx.start(Rate::R9600);
    tx.push_bytes(b"a short page");
    let (mut up, mut down) = (None, None);
    for i in 0..4000u32 {
        if tx.trained() && tx.pending_bits() == 0 {
            tx.stop();
        }
        match tx.next_symbol() {
            Some(_) => rx.on_level(LOUD),
            None => rx.on_level(QUIET),
        }
        if up.is_none() && rx.carrier() {
            up = Some(i);
        }
        if up.is_some() && down.is_none() && !rx.carrier() {
            down = Some(i);
        }
    }
    let up = up.expect("no carrier found");
    // Segment 1 is twenty milliseconds of nothing, so not before that.
    assert!(up >= train::SILENCE, "found a carrier in the silence");
    assert!(up < BAUD / 10, "took {up} symbols");
    assert!(down.is_some(), "the carrier never went away");
}

#[test]
fn v29_silence_is_not_a_carrier() {
    let mut rx = Receiver::new();
    for _ in 0..8000 {
        rx.on_level(Levels { level: 0, loudest: 0, floor: 0 });
        rx.on_symbol((0, 0));
    }
    assert!(!rx.carrier());
    assert!(rx.take_bits().is_empty());
}

#[test]
fn the_synchronizing_signal_is_its_segments_in_turn() {
    for rate in [Rate::R9600, Rate::R7200, Rate::R4800] {
        let mut tx = Transmitter::new();
        tx.start(rate);
        for _ in 0..train::SILENCE {
            assert_eq!(tx.next_symbol(), None);
        }
        for n in 0..train::ALTERNATIONS {
            assert_eq!(tx.next_symbol(), Some(if n % 2 == 0 { a() } else { b(rate) }));
        }
        for n in 0..train::CONDITIONING {
            let point = tx.next_symbol().unwrap();
            assert!(point == c() || point == d(rate), "symbol {n}");
        }
        for _ in 0..train::ONES {
            assert!(!tx.trained());
            assert!(tx.next_symbol().is_some());
        }
        assert!(tx.trained());
        tx.stop();
        for _ in 0..TURN_OFF_SYMBOLS {
            assert!(tx.next_symbol().is_some());
        }
        assert_eq!(tx.next_symbol(), None);
        assert!(!tx.is_transmitting());
        tx.start(rate);
        tx.abort();
        assert!(!tx.is_transmitting());
    }
}

#[test]
fn every_point_is_the_one_nearest_to_itself() {
    for rate in [Rate::R9600, Rate::R7200, Rate::R4800] {
        assert_eq!(1 << rate.bits(), rate.constellation().len());
        for point in rate.constellation() {
            let (x, y) = point.xy();
            assert_eq!(nearest_point(rate, (1000 * x, 1000 * y)), point);
            assert_eq!(nearest_point(rate, (1000 * x + 400, 1000 * y - 400)), point);
        }
    }
}

#[test]
fn a_receiver_that_restarts_forgets_the_burst() {
    let mut rx = Receiver::new();
    rx.on_level(LOUD);
    rx.on_symbol((3000, 0));
    rx.on_symbol((0, 3000));
    rx.restart();
    assert!(!rx.carrier());
    assert!(rx.take_bits().is_empty());
    rx.on_level(LOUD);
    rx.on_symbol((3000, 0));
    assert!(rx.take_bits().is_empty(), "the first symbol is only a reference");
}
