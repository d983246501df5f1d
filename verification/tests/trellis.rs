//! V.32's trellis code: the partition, the encoder and the decoder.

use softmodem::v32::trellis::{
    advance, pack, point, undo_differential, unpack, Decoder, Encoder, DIFFERENTIAL, POINTS, STATES, UNIT,
};

/// A point as it is received, undisturbed.
fn received(p: (i32, i32)) -> (i32, i32) {
    (p.0 * UNIT, p.1 * UNIT)
}

/// A deterministic bit stream to encode.
fn bits(n: usize) -> Vec<[bool; 4]> {
    let mut x = 0x1234_5678_9abc_def0u64;
    (0..n)
        .map(|_| {
            x ^= x << 13;
            x ^= x >> 7;
            x ^= x << 17;
            [x & 1 != 0, x & 2 != 0, x & 4 != 0, x & 8 != 0]
        })
        .collect()
}

/// The partition the code is built on.
///
/// Thirty-two points as close as d^2 = 2, but the four sharing a Y0 Y1 Y2
/// are d^2 = 16 apart. Those four differ only in Q3 Q4, which the code does
/// not protect, so that distance is the whole of what an uncoded bit gets
/// -- and it is eight times the raw minimum. A single point read off the
/// figure wrongly would show up here and nowhere else.
#[test]
fn every_subset_is_four_times_as_far_apart_as_the_constellation() {
    let d2 = |a: (i32, i32), b: (i32, i32)| {
        (a.0 - b.0).pow(2) + (a.1 - b.1).pow(2)
    };
    let mut whole = i32::MAX;
    for (i, &a) in POINTS.iter().enumerate() {
        for &b in &POINTS[i + 1..] {
            whole = whole.min(d2(a, b));
        }
    }
    assert_eq!(whole, 2, "the thirty-two points sit at d^2 = 2");

    for subset in 0..8 {
        let pts: Vec<_> = (0..4).map(|q| POINTS[subset << 2 | q]).collect();
        let mut inside = i32::MAX;
        for i in 0..4 {
            for j in i + 1..4 {
                inside = inside.min(d2(pts[i], pts[j]));
            }
        }
        assert_eq!(
            inside, 16,
            "subset {subset:03b} is not the partition the code needs: {pts:?}"
        );
    }
}

/// Every point is used exactly once, and the constellation is the cross of
/// Figure 3: integer coordinates with an odd sum, none beyond four.
#[test]
fn the_thirty_two_points_are_the_cross_of_figure_3() {
    let mut seen = std::collections::HashSet::new();
    for &(x, y) in &POINTS {
        assert!(seen.insert((x, y)), "({x}, {y}) twice");
        assert!(x.abs() <= 4 && y.abs() <= 4);
        assert_eq!(
            (x + y).rem_euclid(2),
            1,
            "({x}, {y}) is off the lattice"
        );
    }
    assert_eq!(seen.len(), 32);
}

/// The same mean power as everything else in this modem.
///
/// Not a coincidence and worth keeping: the automatic gain control, the
/// equaliser and the level meter are all set from the training segment,
/// which is four points, and none of them has to be told that the data
/// which follows is thirty-two.
#[test]
fn the_mean_power_is_the_one_the_receiver_is_already_scaled_to() {
    let mean: f64 =
        f64::from(POINTS.iter().map(|(x, y)| x * x + y * y).sum::<i32>()) / 32.0;
    assert!((mean - 10.0).abs() < 1e-12, "mean power {mean}");
}

/// Table 2 is a group: every Q1 Q2 permutes the four quadrants, so a
/// receiver can always undo it.
#[test]
fn the_differential_table_is_reversible() {
    for (q, row) in DIFFERENTIAL.iter().enumerate() {
        let mut seen = [false; 4];
        for &y in row {
            let y = usize::from(y);
            assert!(!seen[y], "Q1Q2={q:02b} sends two quadrants to {y:02b}");
            seen[y] = true;
        }
    }
    // And 0 0 is the identity: no change of quadrant.
    for (previous, &y) in DIFFERENTIAL[0].iter().enumerate() {
        assert_eq!(usize::from(y), previous);
    }
}

/// Each state leads to four others, one per Y1 Y2, and all eight states
/// are reachable. An encoder whose trellis collapsed would still encode
/// and would decode to noise.
#[test]
fn the_trellis_is_the_eight_state_one_figure_2_draws() {
    let mut reached = [false; STATES];
    for s in 0..STATES {
        let mut next = std::collections::HashSet::new();
        for y1 in [false, true] {
            for y2 in [false, true] {
                let (y0, n) = advance(unpack(s), y1, y2);
                assert_eq!(
                    y0,
                    s & 1 != 0,
                    "Y0 is T3's contents, which is the state's last bit"
                );
                next.insert(pack(n));
                reached[pack(n)] = true;
            }
        }
        assert_eq!(next.len(), 4, "state {s} does not fan out to four");
    }
    assert!(reached.iter().all(|&r| r), "not every state is reachable");
}

/// Encode, decode, get it back.
#[test]
fn what_the_encoder_sends_the_decoder_reads() {
    let input = bits(400);
    let mut enc = Encoder::new();
    let mut dec = Decoder::new();
    let mut out = Vec::new();
    for group in &input {
        let code = enc.encode(*group);
        if let Some(got) = dec.decode(received(point(code))) {
            out.push(got);
        }
    }
    assert_eq!(out.len(), input.len() - Decoder::depth());
    assert_eq!(&out[..], &input[..out.len()]);
}

/// And gets it back through noise that would defeat a slicer.
///
/// This is the whole reason for the code. The thirty-two points sit at
/// d^2 = 2, so noise of half that amplitude puts a bare decision on the
/// wrong point regularly; the decoder is choosing between sequences the
/// encoder could have produced, and the nearest wrong one is far away.
#[test]
fn it_reads_through_noise_that_moves_points_past_their_neighbours() {
    const NOISE: f64 = 1.5;
    let input = bits(4000);
    let mut enc = Encoder::new();
    let mut dec = Decoder::new();
    let mut nearest_wrong = 0usize;
    let mut wrong = 0usize;
    let mut given = 0usize;
    let mut x = 0xdead_beef_cafe_1234u64;
    let mut noise = || {
        x ^= x << 13;
        x ^= x >> 7;
        x ^= x << 17;
        (x >> 11) as f64 / (1u64 << 53) as f64 - 0.5
    };
    for (i, group) in input.iter().enumerate() {
        let code = enc.encode(*group);
        let (px, py) = point(code);
        // Uniform noise on each axis, reaching well beyond half the
        // distance between neighbouring points.
        let at = (f64::from(px) + NOISE * noise(), f64::from(py) + NOISE * noise());
        // What a decision without the code would have made of it.
        let slice = (0..32)
            .min_by(|&a, &b| {
                let d = |c: usize| {
                    let (x, y) = POINTS[c];
                    (at.0 - f64::from(x)).powi(2) + (at.1 - f64::from(y)).powi(2)
                };
                d(a).total_cmp(&d(b))
            })
            .unwrap();
        if slice != code {
            nearest_wrong += 1;
        }
        if let Some(got) = dec.decode(((at.0 * f64::from(UNIT)) as i32, (at.1 * f64::from(UNIT)) as i32)) {
            if got != input[given] {
                wrong += 1;
            }
            given += 1;
        }
        let _ = i;
    }
    assert!(
        nearest_wrong * 10 > given,
        "the noise was too gentle to be worth the test: only              {nearest_wrong} of {given} symbols would have been sliced wrongly"
    );
    assert_eq!(
        wrong, 0,
        "{wrong} of {given} groups came back changed, where a bare              decision on the nearest point would have got {nearest_wrong}              of them wrong"
    );
}

/// The decoder does not need to be told where the encoder started.
///
/// A modem joins a connection in the middle of it: the start-up hands over
/// somewhere in the far end's scrambled ones and nothing says which state
/// the encoder is in. The differential coding of Table 2 is what makes
/// that recoverable, and the trellis converges on its own.
#[test]
fn a_decoder_that_joins_late_catches_up() {
    let input = bits(500);
    let mut enc = Encoder::new();
    let points: Vec<_> = input.iter().map(|g| point(enc.encode(*g))).collect();

    let skip = 101;
    let mut dec = Decoder::new();
    let mut out = Vec::new();
    for p in &points[skip..] {
        if let Some(got) = dec.decode(received(*p)) {
            out.push(got);
        }
    }
    // The first group is the one whose Q1 Q2 is measured against a quadrant
    // the decoder never saw, so only that one is allowed to differ.
    let expected = &input[skip..skip + out.len()];
    let differing = out
        .iter()
        .zip(expected)
        .enumerate()
        .filter(|(_, (a, b))| a != b)
        .map(|(i, _)| i)
        .collect::<Vec<_>>();
    assert!(
        differing.iter().all(|&i| i == 0),
        "still wrong after the first group: {differing:?}"
    );
}

#[test]
fn the_differential_coding_is_undone() {
    for q in 0..4u8 {
        for previous in 0..4u8 {
            let y = DIFFERENTIAL[usize::from(q)][usize::from(previous)];
            assert_eq!(undo_differential(previous, y), q);
        }
    }
}

#[test]
fn a_reset_is_a_fresh_start() {
    let mut enc = Encoder::new();
    let mut dec = Decoder::new();
    let first: Vec<usize> = bits(60).into_iter().map(|g| enc.encode(g)).collect();
    for &code in &first {
        dec.decode(received(point(code)));
    }
    enc.reset();
    dec.reset();
    let again: Vec<usize> = bits(60).into_iter().map(|g| enc.encode(g)).collect();
    assert_eq!(again, first);
    let out: Vec<[bool; 4]> = again.iter().filter_map(|&code| dec.decode(received(point(code)))).collect();
    assert_eq!(out, bits(60)[..60 - Decoder::depth()]);
}
