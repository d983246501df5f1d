//! V.34's data mode: bits to points, and points back to bits.

use softmodem::v32::Mode;
use softmodem::v34::coding::Precoder;
use softmodem::v34::data::{parse, round_steps, round_to, unparse, Decoder, Encoder, Params, Point, Tables};
use softmodem::v34::frame::Framing;
use softmodem::v34::info::SymbolRate;
use softmodem::v34::viterbi::{cheapest_state, lower, nearest_by_label};

#[test]
fn a_frames_bits_come_back_from_its_split() {
    for (rate, primary) in [(SymbolRate::S3429, 4800), (SymbolRate::S3429, 7200), (SymbolRate::S2400, 2400), (SymbolRate::S3429, 33_600), (SymbolRate::S3000, 4800)] {
        let f = Framing::new(rate, primary, false, false).unwrap();
        // A framing whose every frame is high has no low frame to split.
        let lows = f.r < f.p;
        for high in [true, false].into_iter().filter(|&h| h || lows) {
            let count = if high { f.b } else { f.b - 1 };
            let bits: Vec<bool> = (0..count).map(|i| (i * 7 + 3) % 5 < 2).collect();
            let (shell_bits, groups) = parse(&f, high, &bits);
            assert_eq!(unparse(&f, high, &shell_bits, &groups), bits, "{rate:?} at {primary}, high {high}");
        }
    }
}

#[test]
fn the_precoder_rounds_halfway_to_the_smaller_magnitude() {
    assert_eq!(round_to(3, 2), 2);
    assert_eq!(round_to(-3, 2), -2);
    assert_eq!(round_to(5, 4), 4);
    assert_eq!(round_to(7, 4), 8);
    assert_eq!(round_to(-7, 4), -8);
    assert_eq!(round_to(6, 4), 4);
}

#[test]
fn rounding_counts_its_steps() {
    assert_eq!(round_steps(7, 4), 2);
    assert_eq!(round_steps(-6, 4), -1);
    assert_eq!(round_steps(0, 4), 0);
}

#[test]
fn a_data_frame_carries_its_rate() {
    // The bits of a superframe of so many data frames of so many mapping frames are
    // what the rate sends in the 280 ms it lasts.
    for (rate, primary) in [(SymbolRate::S3429, 33_600), (SymbolRate::S3200, 28_800), (SymbolRate::S2400, 9600)] {
        let f = Framing::new(rate, primary, false, false).unwrap();
        let bits: usize = (0..f.p).map(|i| f.bits_in(i)).sum();
        assert_eq!(bits * f.j * 1000, primary as usize * 280, "{rate:?}");
        assert_eq!((0..f.p).filter(|&i| f.high(i)).count(), f.r);
    }
    assert!(Framing::new(SymbolRate::S2400, 33_600, false, false).is_none());
    assert!(Framing::new(SymbolRate::S3429, 5000, false, false).is_none());
    let f = Framing::new(SymbolRate::S3429, 33_600, false, false).unwrap();
    assert_eq!(f.width(), 1 << f.q);
    assert_eq!(f.precoder_scale(), 2);
}

/// Tables of a code with one state, on a quarter of the grid in order of power.
fn tables(f: &Framing) -> Tables {
    let mut quarter: Vec<Point> = Vec::new();
    for x in (-23i32..=25).step_by(4) {
        for y in (-23i32..=25).step_by(4) {
            quarter.push((x, y));
        }
    }
    quarter.sort_by_key(|(x, y)| (x * x + y * y, *x, *y));
    let mut labels = [0u8; 16];
    for x in 0..4usize {
        for y in 0..4usize {
            // A quarter turn clockwise takes each label to the next.
            labels[4 * x + y] = match (x % 2, y % 2) {
                (0, 0) => 0,
                (0, 1) => 1,
                (1, 1) => 2,
                _ => 3,
            };
        }
    }
    Tables {
        quarter,
        labels,
        conversions: [0; 64],
        inputs: 0,
        outputs: vec![false],
        nexts: vec![0; 16],
        inversions: vec![false; 2 * f.j],
    }
}

/// Frames without rings through the encoder and back through the decoder, each
/// point moved by so much.
fn loopback(rate: SymbolRate, primary: u32, frames: usize, off: i32) -> (Vec<bool>, Vec<bool>, u64) {
    let framing = Framing::new(rate, primary, false, false).unwrap();
    assert!(framing.b <= 12, "no bits go to the rings");
    let params = Params { framing, nonlinear: false, precoding: [(0, 0); 3], mode: Mode::Call };
    let mut encoder = Encoder::new(params, tables(&framing));
    let mut decoder = Decoder::new(params, tables(&framing));
    let mut sent = Vec::new();
    let mut got = Vec::new();
    let mut seed = 0x2545_f491u32;
    for _ in 0..frames {
        let data: Vec<bool> = (0..encoder.wanted())
            .map(|_| {
                seed ^= seed << 13;
                seed ^= seed >> 17;
                seed ^= seed << 5;
                seed & 1 == 1
            })
            .collect();
        let shell_bits = encoder.begin_frame(&data);
        assert!(shell_bits.is_empty());
        sent.extend(data);
        for (n, (x, y)) in encoder.finish_frame(&[0; 8]).into_iter().enumerate() {
            assert!(decoder.is_safe());
            let nudge = if n % 2 == 0 { off } else { -off };
            let fed = decoder.feed((x as i32 + nudge, y as i32 - nudge));
            if let Some(rings) = fed.and_then(|fed| fed.rings) {
                assert_eq!(rings, [0; 8]);
                decoder.finish_frame(&[]);
                got.extend(decoder.take_bits());
            }
        }
    }
    assert_eq!(encoder.mapping_frames(), frames as u64);
    // One point at (1, 1), and a precoder's step either way.
    assert_eq!(decoder.extent(), 1 + 2 * framing.precoder_scale() as i32);
    assert_eq!(encoder.params().framing, framing);
    (sent, got, decoder.outside())
}

#[test]
fn frames_without_rings_decode_clean() {
    for (rate, primary) in [(SymbolRate::S3429, 4800), (SymbolRate::S2400, 2400), (SymbolRate::S3200, 4800)] {
        for off in [0, 60, 100] {
            let (sent, got, outside) = loopback(rate, primary, 60, off);
            assert!(got.len() > sent.len() / 2, "{rate:?} at {primary}: {} of {}", got.len(), sent.len());
            assert_eq!(got, sent[..got.len()], "{rate:?} at {primary}, {off} off");
            assert_eq!(outside, 0);
        }
    }
}

#[test]
fn the_nearest_point_of_each_label_is_found() {
    let f = Framing::new(SymbolRate::S3429, 4800, false, false).unwrap();
    let t = tables(&f);
    let best = nearest_by_label(&t, (120, 124));
    assert_eq!(best[0].point, (1, 1));
    assert_eq!(best[0].off, Some(8 * 8 + 4 * 4));
    assert_eq!(best[1].point, (1, -1));
    assert_eq!(best[2].point, (-1, -1));
    assert_eq!(best[3].point, (-1, 1));
    assert_eq!(t.label((1, -1)), 1);
    assert_eq!(t.quarter_label((1, 1), 4), Some(0));
    assert_eq!(t.quarter_label((25, 25), 4), None);
}

#[test]
fn the_cheapest_state_is_the_floor() {
    assert_eq!(cheapest_state(&vec![None, Some(7), Some(3), Some(3)]), Some((2, 3)));
    assert_eq!(cheapest_state(&vec![None, None]), None);
    assert_eq!(lower(&vec![None, Some(7), Some(3)], 3), vec![None, Some(4), Some(0)]);
}

/// Tables of a code with so many states, on a constellation large enough for any rate.
fn coded_tables(f: &Framing, states: usize) -> Tables {
    let mut quarter: Vec<Point> = Vec::new();
    for x in (-47i32..=49).step_by(4) {
        for y in (-47i32..=49).step_by(4) {
            quarter.push((x, y));
        }
    }
    quarter.sort_by_key(|(x, y)| (x * x + y * y, *x, *y));
    let mut labels = [0u8; 16];
    for (i, label) in labels.iter_mut().enumerate() {
        let (x, y) = (i / 4, i % 4);
        *label = (((x + y) % 2) + 2 * (x / 2) + 4 * (y / 2)) as u8;
    }
    let mut conversions = [0u8; 64];
    for (i, conversion) in conversions.iter_mut().enumerate() {
        *conversion = ((i / 8 + 3 * (i % 8)) % 16) as u8;
    }
    Tables {
        quarter,
        labels,
        conversions,
        inputs: if states == 64 { 15 } else { 3 },
        outputs: (0..states).map(|s| (s ^ (s >> 2)) & 1 == 1).collect(),
        nexts: (0..16 * states).map(|n| ((4 * (n / 16) + n % 16) % states) as u8).collect(),
        inversions: (0..2 * f.j).map(|i| i % 3 == 1).collect(),
    }
}

/// Frames through the encoder, a channel and the decoder: the data of each as it was
/// sent, and as it came back.
fn exchange(
    params: Params,
    states: usize,
    frames: usize,
    mut channel: impl FnMut((i64, i64)) -> (i32, i32),
) -> (Vec<Vec<bool>>, Vec<Vec<bool>>) {
    let framing = params.framing;
    let mut encoder = Encoder::new(params, coded_tables(&framing, states));
    let mut decoder = Decoder::new(params, coded_tables(&framing, states));
    let (mut sent, mut got) = (Vec::new(), Vec::new());
    let mut underway: Vec<([usize; 8], Vec<bool>)> = Vec::new();
    for n in 0..frames {
        let data: Vec<bool> = (0..encoder.wanted()).map(|i| (i * 37 + n * n + 11) % 7 < 3).collect();
        let shell_bits = encoder.begin_frame(&data);
        sent.push(data);
        let rings: [usize; 8] = std::array::from_fn(|i| (3 * n + 5 * i) % framing.m);
        underway.push((rings, shell_bits));
        for x in encoder.finish_frame(&rings) {
            assert!(decoder.is_safe());
            if let Some(rings) = decoder.feed(channel(x)).and_then(|fed| fed.rings) {
                assert_eq!(rings, underway[got.len()].0);
                decoder.finish_frame(&underway[got.len()].1);
                got.push(decoder.take_bits());
            }
        }
    }
    assert_eq!(decoder.outside(), 0);
    (sent, got)
}

#[test]
fn what_is_encoded_is_decoded_with_rings_and_precoding() {
    let framing = Framing::new(SymbolRate::S3429, 33600, false, false).unwrap();
    assert!(framing.b > 12 && framing.m > 1);
    for precoding in [[(0, 0); 3], [(-9000, 1200), (2500, -700), (300, 40)]] {
        let params = Params { framing, nonlinear: false, precoding, mode: Mode::Answer };
        // A channel that adds to each point what the precoder expects of it.
        let mut expected = Precoder::new(&framing, precoding);
        let (sent, got) = exchange(params, 16, 40, |(x, y)| {
            let ((re, im), _) = expected.predict();
            let arrived = (x + re, y + im);
            assert_eq!((arrived.0 % 128, arrived.1 % 128), (0, 0));
            expected.push((arrived.0 / 128, arrived.1 / 128), (re, im));
            (arrived.0 as i32, arrived.1 as i32)
        });
        // Forty 4D symbols are ten frames.
        assert_eq!(got.len(), 30);
        assert_eq!(got, sent[..30]);
    }
}

#[test]
fn every_rate_and_code_decodes_clean() {
    for (rate, primary) in [
        (SymbolRate::S3429, 4800),
        (SymbolRate::S3429, 14_400),
        (SymbolRate::S3429, 31_200),
        (SymbolRate::S3429, 33_600),
        (SymbolRate::S3200, 28_800),
        (SymbolRate::S2400, 9600),
    ] {
        for states in [16, 32, 64] {
            for expanded in [false, true] {
                let framing = Framing::new(rate, primary, false, expanded).unwrap();
                let params = Params { framing, nonlinear: false, precoding: [(0, 0); 3], mode: Mode::Answer };
                let mut n = 0;
                let (sent, got) = exchange(params, states, 60, |(x, y)| {
                    n = (n + 7) % 5;
                    (x as i32 + n - 2, y as i32 + 2 - n)
                });
                assert_eq!(got.len(), 50, "{rate:?} at {primary}");
                assert_eq!(got, sent[..50], "{rate:?} at {primary}, {states} states, expanded {expanded}");
            }
        }
    }
}

#[test]
fn precoding_is_undone_through_the_channel_it_was_made_for() {
    // A channel of 1 + h(1) z^-1 + h(2) z^-2 + h(3) z^-3 on x gives back y, less the
    // rounding of p: which is what a precoder is for.
    let framing = Framing::new(SymbolRate::S3429, 31_200, false, false).unwrap();
    let precoding = [(4096, -2048), (-1024, 512), (256, 0)];
    let params = Params { framing, nonlinear: false, precoding, mode: Mode::Answer };
    let mut past = [(0.0, 0.0); 3];
    let (sent, got) = exchange(params, 16, 80, |(x, y)| {
        let x = (x as f64, y as f64);
        let mut out = x;
        for (p, h) in past.iter().zip(precoding) {
            let h = (f64::from(h.0) / 16384.0, f64::from(h.1) / 16384.0);
            out = (out.0 + p.0 * h.0 - p.1 * h.1, out.1 + p.0 * h.1 + p.1 * h.0);
        }
        past = [x, past[0], past[1]];
        (out.0.round() as i32, out.1.round() as i32)
    });
    assert!(got.iter().map(Vec::len).sum::<usize>() > 1000);
    assert_eq!(got, sent[..got.len()]);
}

#[test]
fn rounding_reaches_as_far_as_the_numbers_do() {
    assert_eq!(round_to(i64::MAX - 1, 2), i64::MAX - 1);
    assert_eq!(round_to(i64::MAX, 2), i64::MAX - 1, "halfway, to the smaller magnitude");
    assert_eq!(round_to(-i64::MAX, 2), -(i64::MAX - 1));
    assert_eq!(round_to(i64::MAX, 1), i64::MAX);
    let half = i64::MAX / 2;
    assert_eq!(round_to(half + 1, half), half);
    assert_eq!(round_to(half / 2 + 1, half), half);
    assert_eq!(round_to(-(half / 2), half), 0);
    assert_eq!(round_to(0, i64::MAX), 0);
    assert_eq!(round_steps(i64::MAX, i64::MAX), 1);
    assert_eq!(round_steps(-(i64::MAX / 2), i64::MAX), 0);
}

#[test]
fn no_more_bits_go_to_the_points_than_have_to() {
    let f = Framing::new(SymbolRate::S3429, 33_600, false, false).unwrap();
    assert_eq!((f.b, f.k, f.q), (79, 27, 5));
    let f = Framing::new(SymbolRate::S3429, 14_400, false, false).unwrap();
    assert_eq!((f.b, f.k, f.q), (34, 22, 0));
}
