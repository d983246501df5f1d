//! What V.32 puts on the line: its states, its turns, what the scramblers add, and the
//! trellis code's indifference to a quarter turn.
use super::trellis::{encoded, named, off, subset_cost, uncoded};
use super::trellis::{Decoding, Encoder, Received, State};
use super::{dibit_of, state_point, turn_of, Hearing, Mode, Sending};
use crate::scrambling::{lemma_registers_agree, shifted_in_all};
use vstd::prelude::*;

verus! {

/// The four states: A at (-3, -1), B at (1, -3), C at (3, 1) and D at (-1, 3).
pub proof fn the_states_are_where_they_are()
    ensures
        state_point(0) == (-3int, -1int),
        state_point(1) == (1int, -3int),
        state_point(2) == (3int, 1int),
        state_point(3) == (-1int, 3int),
        super::CARRIER == 1800,
        super::BAUD == 2400,
{
}

/// A dibit turns the state by a quarter for 00, by nothing for 01, by a half for 10 and
/// by three quarters for 11, and a turn is heard as the bits it was made for.
pub proof fn a_dibit_turns_the_state(first: bool, second: bool)
    ensures
        90 * turn_of(false, false) == 90,
        90 * turn_of(false, true) == 0,
        90 * turn_of(true, false) == 180,
        90 * turn_of(true, true) == 270,
        dibit_of(turn_of(first, second)) == (first, second),
{
}

/// The bit that a direction's line bits add to the next: those 18 and 23 back from the
/// calling modem, those 5 and 23 back from the answering one.
pub open spec fn added(mode: Mode, line: Seq<bool>) -> bool {
    match mode {
        Mode::Call => line[line.len() - 18] != line[line.len() - 23],
        Mode::Answer => line[line.len() - 5] != line[line.len() - 23],
    }
}

/// A bit goes out added to two of the line bits before it, and comes back by the same
/// sum; each end listens with the other's.
pub proof fn a_bit_is_added_to_two_before_it(
    mode: Mode,
    tx: Sending,
    rx: Hearing,
    line: Seq<bool>,
    bit: bool,
)
    requires
        line.len() >= 23,
        tx.scrambler.taps() == mode.polynomial(),
        tx.scrambler.register == shifted_in_all(0, line),
        rx.descrambler == tx.scrambler,
    ensures
        tx.line_bit() == (tx.bit() != added(mode, line)),
        tx.bit_gone().scrambler.register == shifted_in_all(0, line.push(tx.line_bit())),
        rx.hear_bit(bit).bits == rx.bits.push(bit != added(mode, line)),
        rx.hear_bit(bit).descrambler.register == shifted_in_all(0, line.push(bit)),
        Mode::Call.other() == Mode::Answer,
        Mode::Answer.other() == Mode::Call,
{
    lemma_registers_agree(0, 0, line, 5);
    lemma_registers_agree(0, 0, line, 18);
    lemma_registers_agree(0, 0, line, 23);
    assert(line.push(tx.line_bit()).drop_last() =~= line);
    assert(line.push(bit).drop_last() =~= line);
}

/// Bits go in the order they were queued, two to a symbol, and ones when there are none.
pub proof fn bits_go_in_order(tx: Sending)
    requires
        tx.wf(),
    ensures
        tx.pending.len() > 0 ==> tx.bit() == tx.pending[0] && tx.bit_gone().pending
            == tx.pending.skip(1),
        tx.pending.len() == 0 ==> tx.bit() && tx.bit_gone().pending == tx.pending,
        tx.pending.len() >= 2 ==> tx.symbol_gone().pending == tx.pending.skip(2),
        ({
            let turned = (tx.symbol_gone().quadrant + 4 - tx.quadrant) % 4;
            (tx.line_bit(), tx.bit_gone().line_bit()) == (turned == 2 || turned == 3, turned == 0
                || turned == 3)
        }),
{
    if tx.pending.len() >= 2 {
        assert(tx.pending.skip(1).skip(1) =~= tx.pending.skip(2));
    }
}

/// A receiver hears the same bits of a line turned from end to end, and nothing in the
/// first symbol but a place to count from.
pub proof fn a_turned_line_says_the_same(rx: Hearing, state: nat, turn: nat)
    requires
        rx.wf(),
        state < 4,
        turn < 4,
    ensures
        rx.quadrant is None ==> rx.hear(state).bits == rx.bits,
        rx.hear(state).quadrant == Some(state as u8),
        rx.quadrant is Some ==> {
            let other = Hearing { quadrant: Some(((rx.quadrant->0 + turn) % 4) as u8), ..rx };
            let (heard, again) = (rx.hear(state), other.hear(((state + turn) % 4) as nat));
            &&& heard.bits.len() == rx.bits.len() + 2
            &&& again.bits == heard.bits
            &&& again.descrambler == heard.descrambler
        },
{
    if rx.quadrant is Some {
        let previous = ((rx.quadrant->0 + turn) % 4) as u8;
        assert(((state + turn) % 4 + 4 - previous) % 4 == (state + 4 - rx.quadrant->0) % 4);
    }
}

/// Y1 Y2 of a point a quarter turn on.
pub open spec fn pair_turned(pair: int) -> int {
    if pair == 0 {
        3
    } else if pair == 1 {
        2
    } else if pair == 2 {
        0
    } else {
        1
    }
}

/// The encoder that sends every point a quarter turn on.
pub open spec fn encoder_turned(e: Encoder) -> Encoder {
    let State { t1, t2, t3 } = e.state;
    Encoder {
        previous: pair_turned(e.previous as int) as u8,
        state: State { t1: !t1, t2: t2 == t3, t3: !t3 },
    }
}

/// A trellis-coded line turned by a quarter from end to end is one that could have been
/// sent, and by the same bits: the code cares for the turns and not for where they are
/// counted from. The last two bits of a group choose among the points of a subset and
/// keep doing so.
pub proof fn the_trellis_does_not_mind_a_quarter_turn(e: Encoder, group: Seq<bool>)
    requires
        e.wf(),
        group.len() == 4,
    ensures
        ({
            let (here, turned) = (named(e.code(group)), named(encoder_turned(e).code(group)));
            turned == (-here.1, here.0)
        }),
        encoder_turned(e).wf(),
        encoder_turned(e).after(group) == encoder_turned(e.after(group)),
{
    let q = super::trellis::pair_of(group);
    let y = e.quadrant(group);
    assert(0 <= y < 4 && encoded(q, pair_turned(e.previous as int)) == pair_turned(y)) by {
        reveal(encoded);
    }
    let low = 2 * super::trellis::one(group[2]) + super::trellis::one(group[3]);
    let code = 4 * (4 * super::trellis::one(e.state.t3) + y) + low;
    assert(e.code(group) == code);
    assert(encoder_turned(e).code(group) == 4 * (4 * super::trellis::one(!e.state.t3)
        + pair_turned(y)) + low);
    lemma_point_turned(super::trellis::one(e.state.t3), y, low);
}

proof fn lemma_point_turned(y0: int, y: int, low: int)
    requires
        0 <= y0 < 2,
        0 <= y < 4,
        0 <= low < 4,
    ensures
        ({
            let here = named(16 * y0 + 4 * y + low);
            named(16 * (1 - y0) + 4 * pair_turned(y) + low) == (-here.1, here.0)
        }),
{
    reveal(named);
    assert(y0 == 0 || y0 == 1);
    assert(y == 0 || y == 1 || y == 2 || y == 3);
    assert(low == 0 || low == 1 || low == 2 || low == 3);
}

/// Two points of one subset are at least four apart, and the neighbours among all of them
/// are closer than that.
pub proof fn the_points_of_a_subset_are_far_apart(subset: int, a: int, b: int)
    requires
        0 <= subset < 8,
        0 <= a < 4,
        0 <= b < 4,
        a != b,
    ensures
        ({
            let (p, q) = (named(4 * subset + a), named(4 * subset + b));
            let (x, y) = (p.0 - q.0, p.1 - q.1);
            x >= 4 || x <= -4 || y >= 4 || y <= -4
        }),
{
    reveal(named);
    assert(subset == 0 || subset == 1 || subset == 2 || subset == 3 || subset == 4 || subset == 5
        || subset == 6 || subset == 7);
    assert(a == 0 || a == 1 || a == 2 || a == 3);
    assert(b == 0 || b == 1 || b == 2 || b == 3);
}

/// The redundant bit of a group is what the last delay element held before it, and the
/// last two bits of a group go as they are.
pub proof fn a_group_is_coded_in_its_parts(e: Encoder, group: Seq<bool>)
    requires
        e.wf(),
        group.len() == 4,
    ensures
        ({
            let code = e.code(group);
            &&& 0 <= code < 32
            &&& code / 16 == 1 <==> e.state.t3
            &&& code / 2 % 2 == 1 <==> group[2]
            &&& code % 2 == 1 <==> group[3]
            &&& code / 4 % 4 == e.after(group).previous
            &&& e.after(group).state.t1 == e.state.t3
        }),
        !group[0] && !group[1] ==> e.after(group).previous == e.previous,
        Encoder::fresh().previous == 0,
        !Encoder::fresh().state.t1 && !Encoder::fresh().state.t2 && !Encoder::fresh().state.t3,
{
    let q = super::trellis::pair_of(group);
    super::trellis::the_differential_coding_is_reversible(q, q, e.previous as int);
}

/// The first two bits of a group turn the quadrant: 00 leaves it where it was and 01 does
/// when it comes twice; 10 twice, or 11 twice, is 01; and 10 and 11 undo each other.
pub proof fn the_quadrants_are_turned_by_their_bits(previous: int)
    requires
        0 <= previous < 4,
    ensures
        encoded(0, previous) == previous,
        encoded(1, encoded(1, previous)) == previous,
        encoded(2, encoded(2, previous)) == encoded(1, previous),
        encoded(3, encoded(3, previous)) == encoded(1, previous),
        encoded(2, encoded(3, previous)) == previous,
        encoded(1, 0) == 1,
        encoded(2, 0) == 2,
        encoded(3, 0) == 3,
{
    reveal(encoded);
}

/// A subset is judged by its nearest point.
pub proof fn a_subset_is_judged_by_its_nearest_point(at: Received, subset: int, other: int)
    requires
        0 <= subset < 8,
        0 <= other < 4,
    ensures
        0 <= uncoded(at, subset) < 4,
        subset_cost(at, subset) == off(at, 4 * subset + uncoded(at, subset)),
        subset_cost(at, subset) <= off(at, 4 * subset + other),
{
    reveal(uncoded);
    reveal(subset_cost);
    reveal_with_fuel(super::trellis::nearest_of, 5);
}

/// Twenty-four symbols are held before the oldest is given, and from then on one is given
/// for each that comes.
pub proof fn a_symbol_is_given_24_symbols_later(d: Decoding, at: Received)
    requires
        d.wf(),
    ensures
        d.history.len() < 24 ==> d.decoded(at).history.len() == d.history.len() + 1,
        d.history.len() < 24 ==> d.decoded(at).previous == d.previous,
        d.history.len() == 24 ==> d.decoded(at).history.len() == 24,
        Decoding::fresh().history.len() == 0,
{
    reveal(Decoding::heard);
}

} // verus!
