//! What V.27ter puts on the line, in degrees, symbols and milliseconds.
use super::{bits_of, nearest, seed, turn_of, unmodulated, Hearing, Rate, Sending};
use super::{Stage, Training, TRAINING_SEED};
use crate::carrier::Levels;
use crate::scrambling::{lemma_registers_agree, shifted_in_all, tap};
use vstd::prelude::*;

verus! {

/// A tribit turns the carrier by the eighths that are its own.
pub proof fn a_tribit_turns_the_carrier(a: bool, b: bool, c: bool)
    ensures
        ({
            let turn = 45 * turn_of(Rate::R4800, seq![a, b, c]);
            &&& turn == 0 <==> (a, b, c) == (false, false, true)
            &&& turn == 45 <==> (a, b, c) == (false, false, false)
            &&& turn == 90 <==> (a, b, c) == (false, true, false)
            &&& turn == 135 <==> (a, b, c) == (false, true, true)
            &&& turn == 180 <==> (a, b, c) == (true, true, true)
            &&& turn == 225 <==> (a, b, c) == (true, true, false)
            &&& turn == 270 <==> (a, b, c) == (true, false, false)
            &&& turn == 315 <==> (a, b, c) == (true, false, true)
        }),
{
    reveal_with_fuel(super::spelt, 4);
    let bits = seq![a, b, c];
    assert(bits.drop_last() =~= seq![a, b]);
    assert(bits.drop_last().drop_last() =~= seq![a]);
    assert(bits.drop_last().drop_last().drop_last() =~= Seq::empty());
    super::the_tables_and_their_reverses_agree(super::spelt(bits), 0);
}

/// A dibit turns the carrier by the quarters that are its own.
pub proof fn a_dibit_turns_the_carrier(a: bool, b: bool)
    ensures
        ({
            let turn = 45 * turn_of(Rate::R2400, seq![a, b]);
            &&& turn == 0 <==> (a, b) == (false, false)
            &&& turn == 90 <==> (a, b) == (false, true)
            &&& turn == 180 <==> (a, b) == (true, true)
            &&& turn == 270 <==> (a, b) == (true, false)
        }),
{
    reveal_with_fuel(super::spelt, 4);
    let bits = seq![a, b];
    assert(bits.drop_last() =~= seq![a]);
    assert(bits.drop_last().drop_last() =~= Seq::empty());
    super::the_tables_and_their_reverses_agree(0, super::spelt(bits));
}

/// The rates are 4800 and 2400 bits a second, of three bits to a symbol and of two.
pub proof fn the_rates_are_what_they_are()
    ensures
        Rate::R4800.width() * Rate::R4800.symbol_rate() == 4800,
        Rate::R2400.width() * Rate::R2400.symbol_rate() == 2400,
        Rate::R4800.width() == 3,
        Rate::R2400.width() == 2,
{
}

/// A bit goes out added to the sixth and the seventh line bits before it, and comes back
/// by the same sum.
pub proof fn a_bit_is_added_to_those_6_and_7_before(
    tx: Sending,
    rx: Hearing,
    line: Seq<bool>,
    ones: bool,
    bit: bool,
)
    requires
        line.len() >= 7,
        tx.scrambler.register == shifted_in_all(0, line),
        rx.descrambler == tx.scrambler,
    ensures
        ({
            let n = line.len();
            let added = line[n - 6] != line[n - 7];
            &&& tx.line_bit(ones) == (tx.bit(ones) != added)
            &&& tx.bit_gone(ones).scrambler.register == shifted_in_all(
                0,
                line.push(tx.line_bit(ones)),
            )
            &&& rx.hear_bit(bit).bits == rx.bits.push(bit != added)
            &&& rx.hear_bit(bit).descrambler.register == shifted_in_all(0, line.push(bit))
        }),
{
    lemma_registers_agree(0, 0, line, 6);
    lemma_registers_agree(0, 0, line, 7);
    assert(line.push(tx.line_bit(ones)).drop_last() =~= line);
    assert(line.push(bit).drop_last() =~= line);
}

/// A turn-on sequence starts from the bits 0 1 1 1 1 0 0, earliest first, so the first
/// bit of the conditioning is a zero.
pub proof fn a_burst_starts_from_its_seed(tx: Sending)
    requires
        tx.scrambler.register == seed(),
    ensures
        !tap(seed(), 7) && tap(seed(), 6) && tap(seed(), 5) && tap(seed(), 4) && tap(seed(), 3),
        !tap(seed(), 2) && !tap(seed(), 1),
        !tx.line_bit(true),
{
    let bits = TRAINING_SEED@;
    assert forall|back: u32| 1 <= back <= 7 implies #[trigger] tap(seed(), back) == bits[7
        - back] by {
        lemma_registers_agree(0, 0, bits, back);
    }
}

/// The segments of a burst last what they should: 192.5 ms of carrier and 22.5 of
/// nothing where asked for; then 50 reversals, 1074 symbols of conditioning and 8 of
/// scrambled ones, or 14, 58 and 8.
pub proof fn the_segments_last_what_they_should(tx: Sending)
    requires
        tx.wf(),
        tx.counting(),
    ensures
        ({
            let long = tx.training is Long;
            let next = tx.next().stage;
            &&& tx.stage == Stage::Unmodulated(1) ==> next == Stage::Gap(
                if tx.rate is R4800 {
                    36
                } else {
                    27
                },
            )
            &&& tx.stage == Stage::Gap(1) ==> next == Stage::Reversals(
                if long {
                    50
                } else {
                    14
                },
            )
            &&& tx.stage == Stage::Reversals(1) ==> next == Stage::Conditioning(
                if long {
                    1074
                } else {
                    58
                },
            )
            &&& tx.stage == Stage::Conditioning(1) ==> next == Stage::Ones(8)
            &&& tx.stage == Stage::Ones(1) ==> next == Stage::Data
            &&& tx.stage == Stage::Data ==> next == Stage::Data
            &&& tx.stage == Stage::Silent ==> next == Stage::Silent
        }),
        unmodulated(Rate::R4800) == 308,
        unmodulated(Rate::R2400) == 231,
        Training::Long.turns() == 50,
        Training::Short.turns() == 14,
{
    lemma_kept(tx);
}

proof fn lemma_kept(tx: Sending)
    ensures
        forall|stage: Stage, ones: bool| (#[trigger] tx.at(stage).symbol(ones)).stage == stage,
        forall|stage: Stage| (#[trigger] tx.at(stage).conditioned()).stage == stage,
        forall|ones: bool| (#[trigger] tx.symbol(ones)).stage == tx.stage,
{
    reveal_with_fuel(Sending::bits_gone, 4);
}

/// What each segment sends: a steady carrier, then nothing, then a reversal at every
/// symbol, and then a reversal or none by every third bit of scrambled ones.
pub proof fn each_segment_sends_its_signal(tx: Sending)
    requires
        tx.wf(),
    ensures
        ({
            let next = tx.next();
            &&& tx.stage is Silent || tx.stage is Gap ==> next.sent is None && next.eighths
                == tx.eighths
            &&& tx.stage is Unmodulated ==> next.sent == Some(tx.eighths)
            &&& tx.stage is Reversals ==> next.sent == Some(((tx.eighths + 4) % 8) as u8)
            &&& tx.stage is Conditioning ==> next.sent == Some(
                if tx.line_bit(true) {
                    ((tx.eighths + 4) % 8) as u8
                } else {
                    tx.eighths
                },
            )
            &&& tx.stage is Conditioning ==> next.scrambler == tx.bit_gone(true).bit_gone(
                true,
            ).bit_gone(true).scrambler
            &&& !(tx.stage is Silent || tx.stage is Gap) ==> next.sent == Some(next.eighths)
            &&& !(tx.stage is Data || tx.stage is TurnOff) ==> next.pending == tx.pending
        }),
{
    reveal_with_fuel(Sending::bits_gone, 4);
}

/// The phase a symbol of data goes out at is the last one turned by its bits.
pub proof fn data_turns_the_phase(tx: Sending)
    requires
        tx.wf(),
        tx.stage is Data,
    ensures
        ({
            let next = tx.next();
            let width = tx.rate.width();
            let turn = turn_of(tx.rate, tx.line_bits(false, width));
            &&& next.sent == Some(((tx.eighths + turn) % 8) as u8)
            &&& next.pending == (if tx.pending.len() >= width {
                tx.pending.skip(width as int)
            } else {
                Seq::empty()
            })
        }),
{
    reveal_with_fuel(Sending::bits_gone, 4);
    let n = tx.pending.len();
    let width = tx.rate.width();
    if n >= width {
        assert(tx.next().pending =~= tx.pending.skip(width as int));
    } else {
        assert(tx.next().pending =~= Seq::empty());
    }
}

/// A receiver counts a turn from the symbol before, so that a line turned from end to
/// end says the same.
pub proof fn a_turned_line_says_the_same(rx: Hearing, decided: u8, turn: u8)
    requires
        rx.wf(),
        decided < 8,
        turn < 8,
        rx.eighths is Some,
    ensures
        ({
            let other = Hearing { eighths: Some(((rx.eighths->0 + turn) % 8) as u8), ..rx };
            let (heard, again) = (rx.hear(decided), other.hear(((decided + turn) % 8) as u8));
            again.bits == heard.bits && again.descrambler == heard.descrambler
        }),
{
    let other = Hearing { eighths: Some(((rx.eighths->0 + turn) % 8) as u8), ..rx };
    let moved = ((decided + turn) % 8) as u8;
    let change = (decided + 8 - rx.eighths->0) % 8;
    assert((moved + 8 - other.eighths->0) % 8 == change);
    if rx.carrier {
        let a = Hearing { symbols: rx.symbols + 1, eighths: Some(decided), ..rx };
        let b = Hearing { symbols: rx.symbols + 1, eighths: Some(moved), ..rx };
        lemma_bits_alike(a, b, bits_of(rx.rate, change));
    }
}

proof fn lemma_bits_alike(a: Hearing, b: Hearing, bits: Seq<bool>)
    requires
        a.bits == b.bits,
        a.descrambler == b.descrambler,
    ensures
        a.hear_bits(bits).bits == b.hear_bits(bits).bits,
        a.hear_bits(bits).descrambler == b.hear_bits(bits).descrambler,
    decreases bits.len(),
{
    if bits.len() > 0 {
        lemma_bits_alike(a, b, bits.drop_last());
    }
}

/// Nothing is heard without a carrier, and the first symbol of a burst is only a place to
/// count from.
pub proof fn a_burst_begins_with_a_reference(rx: Hearing, decided: u8)
    requires
        rx.wf(),
        decided < 8,
    ensures
        !rx.carrier ==> rx.hear(decided).bits == rx.bits && rx.hear(decided).eighths == rx.eighths,
        rx.carrier ==> rx.hear(decided).eighths == Some(decided),
        rx.eighths is None ==> rx.hear(decided).bits == rx.bits,
        rx.carrier && rx.eighths is Some ==> rx.hear(decided).bits.len() == rx.bits.len()
            + rx.rate.width(),
        rx.new_burst().eighths is None,
        rx.new_burst().bits.len() == 0,
        rx.new_burst().symbols == 0,
        rx.hear(decided).symbols == rx.symbols + 1,
{
    reveal_with_fuel(Hearing::hear_bits, 4);
}

/// The first 8 symbols of a burst are ignored, the next 48 are kept, and the carrier is
/// measured at the last of them.
pub proof fn the_carrier_is_measured_over_48_symbols(rx: Hearing)
    requires
        rx.carrier,
    ensures
        rx.symbols < 8 <==> rx.front() is Ignored,
        8 <= rx.symbols < 55 <==> rx.front() is Kept,
        rx.symbols == 55 <==> rx.front() is Measured,
        rx.symbols > 55 <==> rx.front() is Acquired,
{
}

/// A point is nearest the phase it is at: along an axis, and along a diagonal, to the
/// same side of the bisector as they.
pub proof fn a_phase_is_within_an_eighth(x: int, y: int)
    requires
        x > 0,
        y >= 0,
    ensures
        5 * y < 2 * x ==> nearest((x, y)) == 0,
        5 * x < 2 * y ==> nearest((x, y)) == 2,
        12 * y > 5 * x && 12 * x > 5 * y ==> nearest((x, y)) == 1,
{
    let square = (x + y) * (x + y);
    if 5 * y < 2 * x {
        assert(square <= 2 * (x * x)) by (nonlinear_arith)
            requires
                square == (x + y) * (x + y),
                5 * y < 2 * x,
                x > 0,
                y >= 0,
        ;
    }
    if 5 * x < 2 * y {
        assert(square <= 2 * (y * y) && square > 2 * (x * x)) by (nonlinear_arith)
            requires
                square == (x + y) * (x + y),
                5 * x < 2 * y,
                x > 0,
                y >= 0,
        ;
    }
    if 12 * y > 5 * x && 12 * x > 5 * y {
        assert(square > 2 * (y * y) && square > 2 * (x * x)) by (nonlinear_arith)
            requires
                square == (x + y) * (x + y),
                12 * y > 5 * x,
                12 * x > 5 * y,
                x > 0,
                y >= 0,
        ;
    }
}

/// A burst begins with its echo protection where that was asked for and with its reversals
/// where not, from the first phase and with nothing queued.
pub proof fn a_burst_begins_as_it_was_asked_to(tx: Sending, rate: Rate, training: Training)
    ensures
        ({
            let begun = tx.started(rate, training);
            &&& begun.rate == rate && begun.training == training
            &&& tx.echo_protection ==> begun.stage == Stage::Unmodulated(
                if rate is R4800 {
                    308
                } else {
                    231
                },
            )
            &&& !tx.echo_protection ==> begun.stage == Stage::Reversals(
                if training is Long {
                    50
                } else {
                    14
                },
            )
            &&& begun.scrambler.register == seed()
            &&& begun.eighths == 0
            &&& begun.pending.len() == 0
            &&& begun.echo_protection == tx.echo_protection
        }),
{
}

/// A burst asked to end sends what is queued and ten symbols more; asking again, or asking
/// a silent line, asks for nothing.
pub proof fn a_burst_is_ended_once(tx: Sending)
    ensures
        tx.stage is Silent ==> tx.stopped() == tx,
        !(tx.stage is Silent || tx.stage is TurnOff) ==> tx.stopped().stage == Stage::TurnOff(10),
        tx.stopped().pending == tx.pending,
        tx.stopped().stopped() == tx.stopped(),
{
}

/// A carrier that comes up begins a burst with nothing heard; one that goes, or stays,
/// leaves what was heard where it is.
pub proof fn a_carrier_that_comes_up_is_a_new_burst(rx: Hearing, levels: Levels)
    ensures
        ({
            let next = rx.levelled(levels);
            &&& next.carrier == levels.carries(rx.carrier)
            &&& next.carrier && !rx.carrier ==> next.bits.len() == 0 && next.symbols == 0
                && next.eighths is None && next.descrambler.register == 0
            &&& !next.carrier || rx.carrier ==> next.bits == rx.bits && next.symbols == rx.symbols
                && next.eighths == rx.eighths && next.descrambler == rx.descrambler
            &&& next.rate == rx.rate
        }),
{
}

} // verus!
