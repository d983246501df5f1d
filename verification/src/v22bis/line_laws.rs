//! What V.22bis puts on the line: the carriers, the turns, the points, and what the
//! scrambler adds to each bit.
use super::{base_of, bits_at, dibit_of, quadrant_at, rotated, snapped, turn_of, Channel, Hearing};
use super::{Scrambler, Sending};
use super::handshake::{channel_of, Role};
use crate::scrambling::{lemma_registers_agree, shifted_in_all};
use vstd::prelude::*;

verus! {

/// The calling modem sends at 1200 Hz and the answering modem at 2400, and each hears
/// where the other sends.
pub proof fn each_end_has_its_carrier(channel: Channel)
    ensures
        Channel::Calling.sends_at() == 1200,
        Channel::Answering.sends_at() == 2400,
        Channel::Calling.other() == Channel::Answering,
        Channel::Answering.other() == Channel::Calling,
        channel.other().sends_at() + channel.sends_at() == 3600,
{
}

/// The first two bits of four turn the phase, by a quarter for 00, by nothing for 01,
/// by a half for 10 and by three quarters for 11; a turn is heard as the bits it was
/// made for.
pub proof fn a_dibit_turns_the_phase(first: bool, second: bool)
    ensures
        90 * turn_of(false, false) == 90,
        90 * turn_of(false, true) == 0,
        90 * turn_of(true, false) == 180,
        90 * turn_of(true, true) == 270,
        dibit_of(turn_of(first, second)) == (first, second),
{
}

/// The last two bits of four choose the point of a quadrant: the third bit is whether it
/// is 3 up rather than 1, the fourth whether it is 3 across.
pub proof fn a_dibit_chooses_the_point(third: bool, fourth: bool)
    ensures
        base_of(false, false) == (1int, 1int),
        base_of(false, true) == (3int, 1int),
        base_of(true, false) == (1int, 3int),
        base_of(true, true) == (3int, 3int),
        bits_at(base_of(third, fourth), 0) == (third, fourth),
{
}

/// A quarter turn carries a point (x, y) to (-y, x), into the quadrant after its own and
/// with the bits it had: all that a quarter turn of the line changes is where a symbol
/// is counted from.
pub proof fn a_quarter_turn_keeps_the_bits(p: (int, int))
    requires
        p.0 != 0,
        p.1 != 0,
    ensures
        rotated(p, 1) == (-p.1, p.0),
        rotated(rotated(p, 1), 1) == rotated(p, 2),
        rotated(rotated(p, 2), 1) == rotated(p, 3),
        rotated(rotated(p, 3), 1) == p,
        quadrant_at(rotated(p, 1)) == (quadrant_at(p) + 1) % 4,
        bits_at(rotated(p, 1), quadrant_at(rotated(p, 1))) == bits_at(p, quadrant_at(p)),
        p.0 > 0 && p.1 > 0 ==> quadrant_at(p) == 0,
{
}

/// A receiver hears the same bits of a signal turned by a quarter from end to end.
pub proof fn a_line_turned_by_a_quarter_says_the_same(rx: Hearing, p: (int, int))
    requires
        rx.wf(),
        rx.quadrant is Some,
        p.0 != 0,
        p.1 != 0,
    ensures
        ({
            let turned = Hearing { quadrant: Some(((rx.quadrant->0 + 1) % 4) as u8), ..rx };
            let (heard, again) = (rx.hear(p), turned.hear(rotated(p, 1)));
            &&& again.bits == heard.bits
            &&& again.descrambler == heard.descrambler
            &&& again.quadrant is Some && heard.quadrant is Some
            &&& again.quadrant->0 == (heard.quadrant->0 + 1) % 4
        }),
{
    a_quarter_turn_keeps_the_bits(p);
    let turned = ((rx.quadrant->0 + 1) % 4) as u8;
    assert((quadrant_at(rotated(p, 1)) + 4 - turned) % 4 == (quadrant_at(p) + 4 - rx.quadrant->0)
        % 4);
}

/// The first symbol is only a place to count from; each after it is four bits.
pub proof fn a_symbol_is_four_bits(rx: Hearing, p: (int, int))
    requires
        rx.wf(),
    ensures
        rx.quadrant is None ==> rx.hear(p).bits == rx.bits,
        rx.quadrant is Some ==> rx.hear(p).bits.len() == rx.bits.len() + 4,
        rx.hear(p).quadrant == Some(quadrant_at(p) as u8),
{
}

/// A coordinate is read as the odd one it is less than a unit from.
pub proof fn a_coordinate_is_read_as_the_odd_one_near_it(v: int, odd: int)
    requires
        odd == -3 || odd == -1 || odd == 1 || odd == 3,
        -1000 < v - 1000 * odd < 1000,
    ensures
        snapped(v) == odd,
        v > 4000 - 1 ==> snapped(v) == 3,
{
}

/// A bit goes out added to the fourteenth and the seventeenth line bits before it, and
/// is turned over as well where sixty-four ones have just gone by; and comes back by
/// the same sum.
pub proof fn a_bit_is_added_to_those_14_and_17_before(
    tx: Sending,
    rx: Hearing,
    line: Seq<bool>,
    bit: bool,
)
    requires
        tx.wf(),
        rx.wf(),
        line.len() >= 17,
        tx.scrambler.register == shifted_in_all(0, line),
        rx.descrambler == tx.scrambler,
    ensures
        ({
            let n = line.len();
            let added = line[n - 14] != line[n - 17];
            let turned_over = tx.scrambler.ones == 64;
            &&& tx.line_bit() == (tx.bit() != (added != turned_over))
            &&& tx.bit_gone().scrambler.register == shifted_in_all(0, line.push(tx.line_bit()))
            &&& rx.hear_bit(bit).bits == rx.bits.push(bit != (added != turned_over))
            &&& rx.hear_bit(bit).descrambler.register == shifted_in_all(0, line.push(bit))
        }),
{
    lemma_registers_agree(0, 0, line, 14);
    lemma_registers_agree(0, 0, line, 17);
    assert(line.push(tx.line_bit()).drop_last() =~= line);
    assert(line.push(bit).drop_last() =~= line);
}

/// The ones counted are those running up to now, and the count begins again once
/// sixty-four have turned a bit over.
pub proof fn ones_are_counted_to_64(s: Scrambler, line: bool)
    requires
        s.wf(),
    ensures
        Scrambler::fresh().ones == 0,
        !line ==> s.seen(line).ones == 0,
        line && s.ones < 64 ==> s.seen(line).ones == s.ones + 1,
        line && s.ones == 64 ==> s.seen(line).ones == 1,
{
}

/// Bits go in the order they were queued, and ones when there are none.
pub proof fn bits_go_in_order(tx: Sending)
    ensures
        tx.pending.len() > 0 ==> tx.bit() == tx.pending[0] && tx.bit_gone().pending
            == tx.pending.skip(1),
        tx.pending.len() == 0 ==> tx.bit() && tx.bit_gone().pending == tx.pending,
{
}

/// The turn a symbol makes, and the point within the quadrant, are those of its four
/// line bits.
pub proof fn a_symbol_is_its_four_line_bits(tx: Sending)
    requires
        tx.wf(),
    ensures
        ({
            let (b, c) = (tx.bit_gone(), tx.bit_gone().bit_gone());
            let d = c.bit_gone();
            let turned = (tx.symbol_gone().quadrant + 4 - tx.quadrant) % 4;
            let p = tx.point();
            &&& (tx.line_bit(), b.line_bit()) == (turned == 2 || turned == 3, turned == 0 || turned
                == 3)
            &&& quadrant_at(p) == tx.symbol_gone().quadrant
            &&& tx.symbol_gone().quadrant % 2 == 0 ==> {
                &&& c.line_bit() == (p.1 == 3 || p.1 == -3)
                &&& d.line_bit() == (p.0 == 3 || p.0 == -3)
            }
            &&& tx.symbol_gone().quadrant % 2 == 1 ==> {
                &&& c.line_bit() == (p.0 == 3 || p.0 == -3)
                &&& d.line_bit() == (p.1 == 3 || p.1 == -3)
            }
        }),
{
}

/// The modem that calls sends low and hears high, and the modem that answers the other way
/// about.
pub proof fn the_calling_modem_sends_low()
    ensures
        channel_of(Role::Calling).sends_at() == 1200,
        channel_of(Role::Calling).other().sends_at() == 2400,
        channel_of(Role::Answering).sends_at() == 2400,
        channel_of(Role::Answering).other().sends_at() == 1200,
{
}

} // verus!
