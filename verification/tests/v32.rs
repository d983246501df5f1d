//! V.32: the four states, the scramblers, data from end to end, and the start-up.

use softmodem::v32::startup::{
    end_signal, endpoints, is_end_signal, is_rate_signal, offered_rate, rate_signal, Ear, Heard, Listener, RateDetector, Role,
    Startup, State, Status,
};
use softmodem::v32::{
    nearest_state, rotate, Mode, Receiver, Scrambler, Signal, Transmitter, CONSTELLATION_MEAN_POWER, STATES, STATE_A,
    STATE_B, STATE_C, STATE_D,
};

#[test]
fn the_four_states_are_a_quarter_turn_apart_at_one_radius() {
    for (i, &(re, im)) in STATES.iter().enumerate() {
        let r = f64::from(re * re + im * im).sqrt();
        assert!(
            (r - f64::from(CONSTELLATION_MEAN_POWER).sqrt()).abs() < 1e-12,
            "state {i} is at radius {r}"
        );
    }
    // Each is the one before it turned a quarter.
    for i in 0..4 {
        let turned = rotate(STATES[i], 1);
        assert_eq!(
            (turned.0, turned.1),
            STATES[(i + 1) & 3],
            "turning state {i} does not give the next"
        );
    }
}

#[test]
fn the_conditioning_signal_inverts_between_its_two_segments() {
    // Segment one alternates A with B and segment two alternates C
    // with D, written S and S-bar. The bar is the whole point of the
    // arrangement, since the receiver takes its time reference from the
    // inversion, so C has to be exactly the negative of A and D of B.
    assert_eq!(STATES[STATE_C], (-STATES[STATE_A].0, -STATES[STATE_A].1));
    assert_eq!(STATES[STATE_D], (-STATES[STATE_B].0, -STATES[STATE_B].1));
}

#[test]
fn slicing_returns_each_state_from_its_own_neighbourhood() {
    for (i, &(re, im)) in STATES.iter().enumerate() {
        assert_eq!(nearest_state((re, im)), i, "state {i} itself");
        // A fifth of the way towards each neighbour, and still itself.
        for &(nre, nim) in &STATES {
            let probe = (5 * re + (nre - re), 5 * im + (nim - im));
            assert_eq!(nearest_state(probe), i, "state {i} nudged towards a neighbour");
        }
    }
}

#[test]
fn each_direction_scrambles_with_its_own_polynomial() {
    // The two directions must differ, or each modem would descramble
    // its own echo into what looks like the far end's data.
    let mut call = Scrambler::new(Mode::Call);
    let mut answer = Scrambler::new(Mode::Answer);
    let input: Vec<bool> = (0..200).map(|i| (i * 37 + 11) % 5 < 2).collect();
    let a: Vec<bool> = input.iter().map(|&b| call.scramble(b)).collect();
    let b: Vec<bool> = input.iter().map(|&b| answer.scramble(b)).collect();
    assert_ne!(a, b);
}

#[test]
fn the_scrambler_is_undone_by_the_descrambler() {
    for mode in [Mode::Call, Mode::Answer] {
        let mut tx = Scrambler::new(mode);
        let mut rx = Scrambler::new(mode);
        let input: Vec<bool> = (0..2000).map(|i| (i * 37 + 11) % 5 < 2).collect();
        let out: Vec<bool> = input
            .iter()
            .map(|&b| rx.descramble(tx.scramble(b)))
            .collect();
        assert_eq!(out, input, "{mode:?}");
    }
}

#[test]
fn the_descrambler_synchronises_itself_from_any_starting_state() {
    // The point of dividing rather than adding: a receiver that joins a
    // call already in progress needs no agreement about where the sequence
    // began, only the last twenty-three bits of what arrived.
    let mut tx = Scrambler::new(Mode::Call);
    let mut rx = Scrambler::new(Mode::Call);
    rx.register = 0x0055_aa55;
    let input: Vec<bool> = (0..500).map(|i| (i * 37 + 11) % 5 < 2).collect();
    let out: Vec<bool> = input
        .iter()
        .map(|&b| rx.descramble(tx.scramble(b)))
        .collect();
    // The first twenty-three are wrong, and everything after is right.
    assert_eq!(out[23..], input[23..]);
}

#[test]
fn continuous_ones_do_not_come_out_as_a_constant() {
    // What the scrambler is for: a run of identical bits would otherwise
    // sit the transmitter on one point and give timing recovery nothing to
    // work from.
    let mut s = Scrambler::new(Mode::Call);
    let out: Vec<bool> = (0..2000).map(|_| s.scramble(true)).collect();
    let mut longest = 0;
    let mut run = 0;
    let mut previous = None;
    for b in out {
        if Some(b) == previous {
            run += 1;
        } else {
            run = 1;
            previous = Some(b);
        }
        longest = longest.max(run);
    }
    assert!(longest < 30, "a run of {longest} identical bits got through");
}

#[test]
fn a_rate_signal_says_what_it_offers() {
    let r = rate_signal(true, false);
    assert!(is_rate_signal(r), "{r:016b} lacks its synchronising bits");
    assert!(!is_end_signal(r));
    assert_eq!(offered_rate(r), 4800);

    let both = rate_signal(true, true);
    assert_eq!(offered_rate(both), 9600, "the highest offered wins");

    let e = end_signal(r);
    assert!(is_end_signal(e), "{e:016b} is not recognised as E");
    assert!(!is_rate_signal(e), "E was taken for a rate signal");
    assert_eq!(offered_rate(e), 4800, "E carries the rate it settles on");
}

#[test]
fn no_rate_at_all_calls_for_a_cleardown() {
    // B4 to B6 all zero. A modem that reads that as some default
    // rate would keep talking to one that has given up.
    let none = rate_signal(false, false);
    assert!(is_rate_signal(none));
    assert_eq!(offered_rate(none), 0);
}

#[test]
fn octets_cross_from_one_end_to_the_other() {
    for mode in [Mode::Call, Mode::Answer] {
        let mut tx = Transmitter::new(mode);
        let mut rx = Receiver::new(mode.peer());
        for _ in 0..16 {
            rx.on_symbol(tx.next_symbol());
        }
        rx.take_bits();
        tx.push_bytes(b"four thousand eight hundred");
        tx.push_bits(&[true, false]);
        while tx.pending_bits() > 0 {
            let (x, y) = tx.next_symbol();
            rx.on_symbol((1000 * x + 700, 1000 * y - 700));
        }
        assert_eq!(rx.take_bytes(), b"four thousand eight hundred", "{mode:?}");
        assert_eq!(rx.take_bits(), [true, false]);
    }
}

#[test]
fn a_listener_gives_its_levels() {
    let heard = lines(Signal::StateA);
    assert_eq!((heard.carrier_amplitude(), heard.level()), (900_000, 900_000));
    assert_eq!(lines(Signal::AlternateAC).carrier_amplitude(), 0);
}

#[test]
fn the_two_ends_taps_are_each_other_s() {
    assert_eq!(Mode::Call.taps(), (18, 23));
    assert_eq!(Mode::Answer.taps(), (5, 23));
    assert_eq!(Mode::Call.peer(), Mode::Answer);
    let mut s = Scrambler::new(Mode::Answer);
    s.scramble(true);
    s.reset();
    assert_eq!(s, Scrambler::new(Mode::Answer));
}

/// The spectral lines of a signal at full scale.
fn lines(signal: Signal) -> Listener {
    let silent = Listener { answer: 0, carrier: 0, low: 0, high: 0, level: 0 };
    match signal {
        Signal::Silent => silent,
        Signal::AnswerTone => Listener { answer: 900_000, level: 900_000, ..silent },
        Signal::StateA | Signal::StateC => Listener { carrier: 900_000, level: 900_000, ..silent },
        Signal::AlternateAC | Signal::AlternateCA => {
            Listener { low: 600_000, high: 600_000, level: 900_000, ..silent }
        }
        Signal::ConditioningS | Signal::ConditioningSbar => {
            Listener { carrier: 700_000, low: 500_000, high: 500_000, level: 900_000, ..silent }
        }
        Signal::Trn | Signal::Rate(_) | Signal::ScrambledOnes => {
            Listener { answer: 100_000, carrier: 100_000, low: 100_000, high: 100_000, level: 900_000 }
        }
    }
}

#[test]
fn each_start_up_signal_is_recognised_for_what_it_is() {
    let hear = |signal| {
        let mut listener = Listener::new();
        listener.feed(lines(signal));
        listener.classify()
    };
    assert_eq!(hear(Signal::Silent), Heard::Nothing);
    assert_eq!(hear(Signal::AnswerTone), Heard::AnswerTone);
    assert_eq!(hear(Signal::StateA), Heard::Carrier);
    assert_eq!(hear(Signal::StateC), Heard::Carrier);
    assert_eq!(hear(Signal::AlternateAC), Heard::Alternation);
    assert_eq!(hear(Signal::AlternateCA), Heard::Alternation);
    assert_eq!(hear(Signal::ConditioningS), Heard::Conditioning);
    assert_eq!(hear(Signal::ConditioningSbar), Heard::Conditioning);
    assert_eq!(hear(Signal::Trn), Heard::Spread);
    assert_eq!(hear(Signal::ScrambledOnes), Heard::Spread);
    assert_eq!(hear(Signal::Rate(0x0699)), Heard::Spread);
}

#[test]
fn an_alternation_is_not_confused_with_the_conditioning_signal() {
    // The two put their sidebands in the same place and differ only in whether
    // the carrier survives.
    assert_ne!(lines(Signal::AlternateAC).classify(), lines(Signal::ConditioningS).classify());
}

#[test]
fn a_sequence_is_found_once_it_has_come_twice() {
    let mut rates = RateDetector::new();
    let word = rate_signal(true, true);
    let bit = |i: usize| word >> (15 - i % 16) & 1 != 0;
    for i in 0..31 {
        assert_eq!(rates.feed(bit(i)), None);
    }
    assert_eq!(rates.feed(bit(31)), Some(word));
    rates.reset();
    assert_eq!(rates.feed(bit(0)), None);
}

const FS: u32 = 2400;

fn turned_over(before: Signal, now: Signal) -> bool {
    matches!(
        (before, now),
        (Signal::StateA, Signal::StateC)
            | (Signal::AlternateAC, Signal::AlternateCA)
            | (Signal::AlternateCA, Signal::AlternateAC)
    )
}

/// What a listener makes of the far end's signal as it was some symbols ago.
fn ear(line: &[Signal], at: usize, delay: usize) -> (Ear, Vec<bool>) {
    let then = |back: usize| if at >= delay + back { line[at - delay - back] } else { Signal::Silent };
    let bits = match then(0) {
        Signal::Rate(word) => (0..2).map(|k| word >> (15 - (2 * (at - delay) + k) % 16) & 1 != 0).collect(),
        _ => Vec::new(),
    };
    (Ear { listener: lines(then(0)), reversed: turned_over(then(1), then(0)), latency: 0 }, bits)
}

/// Two start-ups over a line that takes so many symbols each way.
fn start(calls: u16, answers: u16, delay: usize, seconds: usize) -> (Startup, Startup) {
    let mut calling = Startup::new(Role::Calling, calls, FS, 0);
    let mut answering = Startup::new(Role::Answering, answers, FS, 0);
    let (mut out, mut back) = (Vec::new(), Vec::new());
    for at in 0..seconds * FS as usize {
        out.push(calling.signal);
        back.push(answering.signal);
        let (heard, bits) = ear(&back, at, delay);
        calling.step(heard, &bits);
        let (heard, bits) = ear(&out, at, delay);
        answering.step(heard, &bits);
    }
    (calling, answering)
}

#[test]
fn two_ends_start_up_at_the_fastest_they_share() {
    let both = rate_signal(true, true);
    let slow = rate_signal(true, false);
    for (calls, answers, rate) in [(both, both, 9600), (both, slow, 4800), (slow, both, 4800)] {
        let (calling, answering) = start(calls, answers, 20, 12);
        assert_eq!(calling.status(), Status::Connected(rate), "calling at {}", calling.phase());
        assert_eq!(answering.status(), Status::Connected(rate), "answering at {}", answering.phase());
        for trip in [calling.round_trip(), answering.round_trip()] {
            assert!((38..=46).contains(&trip), "measured {trip} symbols of a line of 40");
        }
    }
}

#[test]
fn an_end_that_can_do_nothing_is_cleared_down() {
    let (calling, answering) = start(rate_signal(true, true), rate_signal(false, false), 5, 12);
    assert_eq!(calling.status(), Status::Failed);
    assert_eq!(answering.role(), Role::Answering);
    assert_ne!(answering.status(), Status::Connected(4800));
}

#[test]
fn a_start_up_that_hears_nothing_gives_up() {
    let mut calling = Startup::new(Role::Calling, rate_signal(true, true), FS, 0);
    let nothing = Ear { listener: lines(Signal::Silent), reversed: false, latency: 0 };
    let mut symbols = 0;
    while calling.status() == Status::Negotiating {
        calling.step(nothing, &[]);
        assert_eq!(calling.heard(), Heard::Nothing);
        symbols += 1;
        assert!(symbols < 150_000);
    }
    assert_eq!(calling.status(), Status::Failed);
    assert!((143_999..=144_002).contains(&symbols), "{symbols}");
}

#[test]
fn the_two_ends_of_a_call_understand_each_other() {
    for (here, there) in [(Role::Calling, Role::Answering), (Role::Answering, Role::Calling)] {
        let (mut tx, _) = endpoints(here);
        let (_, mut rx) = endpoints(there);
        for _ in 0..16 {
            rx.on_symbol(tx.next_symbol());
        }
        rx.take_bits();
        tx.push_bytes(b"V.32");
        while tx.pending_bits() > 0 {
            rx.on_symbol(tx.next_symbol());
        }
        assert_eq!(rx.take_bytes(), b"V.32", "{here:?}");
    }
}

#[test]
fn the_carrier_is_heard_for_64_symbols_without_a_break() {
    let carrier = lines(Signal::StateA);
    let silence = lines(Signal::Silent);
    // The symbols at which the answering modem turns its alternation over, by when the
    // carrier is there.
    let turns_over = |there: &dyn Fn(u64) -> bool| {
        let mut s = Startup::new(Role::Answering, rate_signal(true, false), FS, 0);
        s.state = State::Ac;
        s.signal = Signal::AlternateAC;
        for symbol in 1..=1000 {
            s.symbols = symbol;
            s.listener = if there(symbol) { carrier } else { silence };
            s.advance(false, None, 0);
            if s.state == State::Ca {
                assert_eq!((s.signal, s.timer), (Signal::AlternateCA, Some(0)));
                return symbol;
            }
        }
        0
    };
    assert_eq!(turns_over(&|_| true), 128, "128 alternations at least");
    assert_eq!(turns_over(&|n| n > 100), 164, "64 symbols of the carrier");
    assert_eq!(turns_over(&|n| n > 101), 166, "on an even symbol");
    assert_eq!(turns_over(&|n| n != 141), 128);
    assert_eq!(turns_over(&|n| n > 100 && n != 141), 206, "a break on an odd symbol begins it again");
    assert_eq!(turns_over(&|_| false), 0);
}
