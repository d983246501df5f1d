//! V.17's training signals.

use softmodem::v17::{
    bits_per_symbol, bridge_turn, coding_for, four_phase_state, train, State, BAUD, BRIDGE_PATTERN, RATES,
    SCRAMBLER_TAPS,
};

#[test]
fn the_segments_add_up_to_the_time_the_table_gives() {
    assert_eq!(train::LONG, 3344);
    let seconds = train::LONG as f64 / f64::from(BAUD);
    assert!(
        (seconds - 1.393).abs() < 0.001,
        "a long train is {seconds:.3} s, and Table 3 says 1393 ms"
    );
}

#[test]
fn every_rate_has_a_constellation_of_the_right_size() {
    for rate in RATES {
        let bits = bits_per_symbol(rate).expect("a rate V.17 carries");
        let coded = coding_for(rate).expect("and a constellation for it");
        // The redundant bit makes the set twice as big as the data.
        assert_eq!(coded.size(), 1 << (bits + 1), "{rate}");
        assert_eq!(coded.bits, bits, "{rate}");
    }
}

#[test]
fn the_seven_thousand_two_hundred_states_are_where_the_figure_puts_them() {
    // The figure draws its constellation at twice the scale used here,
    // so its (-6, -2) is this (-3, -1). All four were read off the figure
    // twice, once by eye and once by matching the circled letters to the
    // printed labels of the nearest points.
    let want = [
        (State::A, (-3, -1)),
        (State::B, (1, -3)),
        (State::C, (3, 1)),
        (State::D, (-1, 3)),
    ];
    for (state, p) in want {
        assert_eq!(state.point(7200), Some(p), "{state:?}");
    }
}

#[test]
fn the_four_states_are_quarter_turns_of_one_another() {
    // The property that makes them usable for a differentially coded
    // training signal, and the one that catches a state read off the
    // wrong point: three of four can look plausible and still not turn.
    for state in [State::A, State::B, State::C, State::D] {
        let here = state.point(7200).expect("7200 is settled");
        let next = state.turned(1).point(7200).expect("7200 is settled");
        let turned = (-here.1, here.0);
        assert_eq!(
            (turned.0, turned.1),
            next,
            "{state:?} turned a quarter is not {:?}",
            state.turned(1)
        );
    }
}

#[test]
fn segment_two_maps_dibits_to_the_states_table_4_gives() {
    // 00 01 00 01 ... 10 01 10 01 comes out as C D C D ... B D B D, which
    // is the worked example.
    let dibits = [
        0b00, 0b01, 0b00, 0b01, 0b00, 0b01, 0b00, 0b01,
        0b00, 0b01, 0b00, 0b01, 0b10, 0b01, 0b10, 0b01,
    ];
    let got: Vec<State> = dibits.iter().map(|d| four_phase_state(*d)).collect();
    let want = [
        State::C, State::D, State::C, State::D, State::C, State::D,
        State::C, State::D, State::C, State::D, State::C, State::D,
        State::B, State::D, State::B, State::D,
    ];
    assert_eq!(got, want);
}

#[test]
fn segment_three_turns_by_the_quarters_table_6_gives() {
    assert_eq!(bridge_turn(0b01), 0, "A/A is no change");
    assert_eq!(bridge_turn(0b00), 1, "A/B is a quarter");
    assert_eq!(bridge_turn(0b10), 2, "A/C is a half");
    assert_eq!(bridge_turn(0b11), 3, "A/D is three quarters");
    // And turning by the four of them in a row comes back where it began.
    let total: u8 = (0..4).map(bridge_turn).sum();
    assert_eq!(total % 4, 2, "0 + 1 + 2 + 3 is six quarters");
}

#[test]
fn the_bridge_pattern_is_the_sixteen_bits_of_table_5() {
    assert_eq!(BRIDGE_PATTERN.len(), 16);
    let ones: Vec<usize> = BRIDGE_PATTERN
        .iter()
        .enumerate()
        .filter(|(_, b)| **b)
        .map(|(i, _)| i)
        .collect();
    assert_eq!(ones, vec![7, 11, 15], "B7, B11 and B15 and no others");
}

#[test]
fn the_scrambler_is_the_one_v32_gives_its_calling_end() {
    // Which is the whole reason there is nothing to write for it.
    assert_eq!(SCRAMBLER_TAPS, (18, 23));
}

#[test]
fn only_the_rates_carried_have_a_constellation() {
    assert_eq!(bits_per_symbol(4800), None);
    assert!(coding_for(28_800).is_none());
    for rate in RATES {
        assert_eq!(bits_per_symbol(rate).unwrap() as u32 * BAUD, rate);
    }
}

#[test]
fn only_the_states_of_7200_are_settled() {
    assert_eq!(State::A.label_at(7200), Some(0b0110));
    assert_eq!(State::B.label_at(7200), Some(0b1010));
    assert_eq!(State::C.label_at(7200), Some(0b0100));
    assert_eq!(State::D.label_at(7200), Some(0b1000));
    assert_eq!(State::A.label_at(9600), None);
    assert_eq!(State::A.point(14_400), None);
    assert_eq!(State::B.turned(255), State::A);
}
