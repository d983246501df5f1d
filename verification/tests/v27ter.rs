//! V.27 ter: the training, the scrambler, and bursts from end to end.

use softmodem::carrier::Levels;
use softmodem::v27ter::{
    nearest_eighth, Front, Rate, Receiver, Scrambler, Training, Transmitter, ACQUIRING, DIBIT_TURN, SCRAMBLED_ONES,
    SETTLING, TRIBIT_TURN, TURN_DIBIT, TURN_OFF_SYMBOLS, TURN_TRIBIT,
};

/// The eight phases, well out.
const EIGHTHS: [(i32, i32); 8] = [
    (1000, 0),
    (707, 707),
    (0, 1000),
    (-707, 707),
    (-1000, 0),
    (-707, -707),
    (0, -1000),
    (707, -707),
];

const LOUD: Levels = Levels { level: 50_000_000, loudest: 50_000_000, floor: 1000 };
const QUIET: Levels = Levels { level: 0, loudest: 50_000_000, floor: 1000 };

/// One burst, symbol by symbol, and what the receiver made of it.
fn loopback(rate: Rate, training: Training, data: &[u8]) -> Vec<bool> {
    let mut tx = Transmitter::new();
    let mut rx = Receiver::new();
    rx.set_rate(rate);
    tx.start(rate, training);
    tx.push_bytes(data);
    rx.on_level(LOUD);
    let mut out = Vec::new();
    for _ in 0..8000 {
        if tx.trained() && tx.pending_bits() == 0 {
            tx.stop();
        }
        match tx.next_symbol() {
            Some(eighths) => rx.on_symbol(EIGHTHS[eighths as usize]),
            None => rx.on_level(QUIET),
        }
        out.extend(rx.take_bits());
        if !tx.is_transmitting() && !rx.carrier() {
            break;
        }
    }
    out
}

/// Find `needle` in `haystack`, as a run of bits.
fn find(haystack: &[bool], needle: &[bool]) -> Option<usize> {
    haystack.windows(needle.len()).position(|w| w == needle)
}

fn bits_of(bytes: &[u8]) -> Vec<bool> {
    let mut bits = Vec::new();
    for &byte in bytes {
        for i in (0..8).rev() {
            bits.push(byte >> i & 1 != 0);
        }
    }
    bits
}

#[test]
fn the_training_sequence_is_the_length_table_3_gives() {
    // 708 ms at 4800 and 943 ms at 2400, long; 50 and 66 ms, short.
    let cases = [
        (Rate::R4800, Training::Long, 708.0),
        (Rate::R2400, Training::Long, 943.0),
        (Rate::R4800, Training::Short, 50.0),
        (Rate::R2400, Training::Short, 66.0),
    ];
    for (rate, training, want_ms) in cases {
        let ms = 1000.0 * f64::from(training.symbols()) / f64::from(rate.baud());
        assert!(
            (ms - want_ms).abs() < 1.0,
            "{rate:?} {training:?} trains for {ms:.0} ms, Table 3 says {want_ms:.0}"
        );
    }
}

#[test]
fn segment_4_starts_the_way_table_4_prints_it() {
    // 0, 180, 180, 180, 180, 180, 0 degrees, and ending 180, 180, 0, 0.
    let mut s = Scrambler::seeded();
    let mut turns = Vec::new();
    for _ in 0..Training::Long.conditioning() {
        let bit = s.scramble(true);
        s.scramble(true);
        s.scramble(true);
        turns.push(if bit { 180 } else { 0 });
    }
    assert_eq!(turns[..7], [0, 180, 180, 180, 180, 180, 0]);
    assert_eq!(turns[turns.len() - 4..], [180, 180, 0, 0]);
}

#[test]
fn segment_5_is_the_same_scrambler_still_running() {
    // Table 4 prints segment 5 as 270, 225, 315, 90, 45, 45, 180, 180 at
    // 4800, and the tribits that ask for those. Nothing sets it up: it is
    // what continuous ONEs give once segment 4 has finished.
    for conditioning in [Training::Short, Training::Long] {
        let mut s = Scrambler::seeded();
        for _ in 0..conditioning.conditioning() * 3 {
            s.scramble(true);
        }
        let mut tribits = Vec::new();
        for _ in 0..SCRAMBLED_ONES {
            let a = s.scramble(true);
            let b = s.scramble(true);
            let c = s.scramble(true);
            tribits.push(usize::from(a) << 2 | usize::from(b) << 1 | usize::from(c));
        }
        assert_eq!(
            tribits,
            [0b100, 0b110, 0b101, 0b010, 0b000, 0b000, 0b111, 0b111],
            "{conditioning:?}"
        );
        let degrees: Vec<u32> = tribits
            .iter()
            .map(|&t| u32::from(TRIBIT_TURN[t]) * 45)
            .collect();
        assert_eq!(degrees, [270, 225, 315, 90, 45, 45, 180, 180]);
    }
}

#[test]
fn the_tribit_table_and_its_reverse_agree() {
    for tribit in 0..8u8 {
        let turn = TRIBIT_TURN[usize::from(tribit)];
        assert_eq!(TURN_TRIBIT[usize::from(turn)], tribit);
    }
    for dibit in 0..4u8 {
        let turn = DIBIT_TURN[usize::from(dibit)];
        assert_eq!(TURN_DIBIT[usize::from(turn >> 1)], dibit);
    }
}

#[test]
fn the_scrambler_and_the_descrambler_are_inverses() {
    let mut tx = Scrambler::new();
    // A descrambler that starts in the wrong state still catches up, so
    // this one is deliberately not the transmitter's.
    let mut rx = Scrambler::seeded();
    let input: Vec<bool> = (0..200).map(|i| i % 5 == 0 || i % 7 == 3).collect();
    let out: Vec<bool> = input
        .iter()
        .map(|&b| rx.descramble(tx.scramble(b)))
        .collect();
    assert_eq!(
        out[7..],
        input[7..],
        "it should agree once the register has filled"
    );
}

#[test]
fn with_echo_protection_the_turn_on_is_as_long_as_table_3_says() {
    for (rate, want_ms) in [(Rate::R4800, 923.0), (Rate::R2400, 1158.0)] {
        let mut tx = Transmitter::new();
        tx.set_echo_protection(true);
        tx.start(rate, Training::Long);
        let mut symbols = 0usize;
        while !tx.trained() {
            tx.next_symbol();
            symbols += 1;
            assert!(symbols < 4000, "the training never ended");
        }
        let ms = 1000.0 * symbols as f64 / f64::from(rate.baud());
        assert!((ms - want_ms).abs() < 8.0, "{rate:?} took {ms:.0} ms to train, the table says {want_ms:.0}");
    }
}

#[test]
fn with_echo_protection_there_is_a_carrier_then_a_silence_then_the_training() {
    let mut tx = Transmitter::new();
    tx.set_echo_protection(true);
    tx.start(Rate::R4800, Training::Long);
    let symbols: Vec<Option<u8>> = (0..400).map(|_| tx.next_symbol()).collect();
    assert!(symbols[..308].iter().all(|s| *s == symbols[0] && s.is_some()), "segment 1 is one point");
    assert!(symbols[308..344].iter().all(Option::is_none), "segment 2 was not silent");
    assert!(symbols[344..].iter().all(Option::is_some), "no training after the gap");
}

#[test]
fn a_burst_at_4800_comes_back_out() {
    let data = b"BinModem sends a page over V.27 ter at four thousand eight hundred.";
    let bits = loopback(Rate::R4800, Training::Long, data);
    assert!(find(&bits, &bits_of(data)).is_some(), "the message did not survive ({} bits back)", bits.len());
}

#[test]
fn a_burst_at_2400_comes_back_out() {
    let data = b"And at two thousand four hundred, which is the fall-back.";
    let bits = loopback(Rate::R2400, Training::Long, data);
    assert!(find(&bits, &bits_of(data)).is_some(), "the message did not survive ({} bits back)", bits.len());
}

#[test]
fn the_short_training_is_enough_on_a_clean_line() {
    let data = b"Short training carries data too.";
    let bits = loopback(Rate::R4800, Training::Short, data);
    assert!(find(&bits, &bits_of(data)).is_some());
}

#[test]
fn v27ter_the_training_check_arrives_as_zeros() {
    let bits = loopback(Rate::R4800, Training::Long, &[0; 900]);
    let mut longest = 0;
    let mut run = 0;
    for &bit in &bits {
        run = if bit { 0 } else { run + 1 };
        longest = longest.max(run);
    }
    assert!(longest >= 7100, "the longest run of zeros was {longest}, and 7200 were sent");
}

#[test]
fn v27ter_silence_is_not_a_carrier() {
    let mut rx = Receiver::new();
    for _ in 0..8000 {
        rx.on_level(Levels { level: 0, loudest: 0, floor: 0 });
        rx.on_symbol((0, 0));
    }
    assert!(!rx.carrier());
    assert!(rx.take_bits().is_empty());
}

#[test]
fn the_carrier_goes_up_during_training_and_down_after_the_turn_off() {
    let mut tx = Transmitter::new();
    let mut rx = Receiver::new();
    rx.set_rate(Rate::R4800);
    assert_eq!(rx.rate(), Rate::R4800);
    tx.start(Rate::R4800, Training::Long);
    assert_eq!(tx.rate(), Rate::R4800);
    tx.push_bytes(b"a short page");
    let (mut up, mut down) = (None, None);
    for i in 0..4000 {
        if tx.trained() && tx.pending_bits() == 0 {
            tx.stop();
        }
        match tx.next_symbol() {
            Some(_) => rx.on_level(LOUD),
            None => rx.on_level(QUIET),
        }
        if up.is_none() && rx.carrier() {
            up = Some(i);
        }
        if up.is_some() && down.is_none() && !rx.carrier() {
            down = Some(i);
        }
    }
    let up = up.expect("no carrier was ever found");
    let down = down.expect("the carrier never went away");
    assert!(up < 160, "took {up} symbols to find the carrier");
    assert!(down > up);
}

#[test]
fn a_stopped_burst_turns_off_and_an_aborted_one_is_off() {
    let mut tx = Transmitter::new();
    assert!(!tx.is_transmitting());
    assert_eq!(tx.next_symbol(), None);
    tx.start(Rate::R2400, Training::Short);
    for _ in 0..Training::Short.symbols() {
        assert!(!tx.trained());
        assert!(tx.next_symbol().is_some());
    }
    assert!(tx.trained());
    tx.push_bits(&[true; 4]);
    tx.stop();
    let mut left = 0;
    while tx.is_transmitting() {
        tx.next_symbol();
        left += 1;
    }
    assert!(left >= TURN_OFF_SYMBOLS, "{left}");
    tx.start(Rate::R2400, Training::Short);
    tx.abort();
    assert!(!tx.is_transmitting());
    assert_eq!(tx.last_point(), None);
}

#[test]
fn the_front_of_a_burst_is_settled_then_measured() {
    let mut rx = Receiver::new();
    assert_eq!(rx.front(), Front::Ignored);
    rx.restart();
    rx.on_level(LOUD);
    for n in 0..SETTLING + ACQUIRING {
        let want = if n < SETTLING {
            Front::Ignored
        } else if n + 1 == SETTLING + ACQUIRING {
            Front::Measured
        } else {
            Front::Kept
        };
        assert_eq!(rx.front(), want, "symbol {n}");
        rx.on_symbol((1, 0));
    }
    assert_eq!(rx.front(), Front::Acquired);
}

#[test]
fn a_point_is_decided_by_the_phase_it_is_nearest() {
    for (i, &(x, y)) in EIGHTHS.iter().enumerate() {
        assert_eq!(nearest_eighth((x, y)), i as u8);
        // Twenty degrees either way and still itself.
        let (c, s) = (940, 342);
        assert_eq!(nearest_eighth((x * c - y * s, y * c + x * s)), i as u8);
        assert_eq!(nearest_eighth((x * c + y * s, y * c - x * s)), i as u8);
    }
}

#[test]
fn a_rate_is_its_bits_as_often_as_its_symbols() {
    for rate in [Rate::R4800, Rate::R2400] {
        assert_eq!(rate.baud() * rate.bits() as u32, rate.bits_per_second());
    }
    assert_eq!((Rate::R4800.phases(), Rate::R2400.phases()), (8, 4));
    assert_eq!(Training::Long.symbols(), Training::Long.reversals() + Training::Long.conditioning() + SCRAMBLED_ONES);
}

#[test]
fn a_scrambler_that_is_reset_begins_again() {
    let mut s = Scrambler::seeded();
    s.scramble(true);
    s.reset();
    assert_eq!(s, Scrambler::new());
}
