//! What V.29 puts on the line, in points, turns and symbols.
use super::{bits_of, first, fourth, quadbit, second, third, turn_of, Conditioning, Hearing};
use super::{Point, Rate, Sending, Stage};
use crate::carrier::Levels;
use crate::scrambling::{lemma_registers_agree, shifted_in_all};
use crate::v32::Mode;
use vstd::prelude::*;

verus! {

/// A point two eighths on is the same point a quarter turn round, and each ring is where
/// it is: 3 and 5 on the axes, (1, 1) and (3, 3) between them.
pub proof fn the_points_are_where_they_are(p: Point)
    requires
        p.eighths < 8,
    ensures
        (Point { eighths: 0, outer: false }).at() == (3int, 0int),
        (Point { eighths: 0, outer: true }).at() == (5int, 0int),
        (Point { eighths: 1, outer: false }).at() == (1int, 1int),
        (Point { eighths: 1, outer: true }).at() == (3int, 3int),
        (Point { eighths: ((p.eighths + 2) % 8) as u8, ..p }).at() == (-p.at().1, p.at().0),
{
}

/// A rate's constellation: all sixteen points, the eight of the inner ring, or the four
/// of those on the axes, and each of them once.
pub proof fn a_rate_has_its_points(rate: Rate, p: Point)
    requires
        p.eighths < 8,
    ensures
        rate.points().contains(p) <==> match rate {
            Rate::R9600 => true,
            Rate::R7200 => !p.outer,
            Rate::R4800 => !p.outer && p.eighths % 2 == 0,
        },
        rate.points().len() == (match rate {
            Rate::R9600 => 16nat,
            Rate::R7200 => 8,
            Rate::R4800 => 4,
        }),
        rate.points().no_duplicates(),
        rate.width() * 2400 == (match rate {
            Rate::R9600 => 9600int,
            Rate::R7200 => 7200,
            Rate::R4800 => 4800,
        }),
{
    let points = rate.points();
    let i = match rate {
        Rate::R4800 => p.eighths as int / 2,
        _ => p.eighths as int + if p.outer {
            8int
        } else {
            0
        },
    };
    if 0 <= i < points.len() && (rate is R4800 ==> p.eighths % 2 == 0 && !p.outer) {
        assert(points[i] == p);
    }
}

/// The first of four bits is the ring, and the other three turn the carrier.
pub proof fn four_bits_are_a_ring_and_a_turn(q1: bool, q2: bool, q3: bool, q4: bool)
    ensures
        ({
            let bits = seq![q1, q2, q3, q4];
            let turn = 45 * turn_of(Rate::R9600, bits);
            &&& quadbit(Rate::R9600, bits).0 == q1
            &&& turn == 0 <==> (q2, q3, q4) == (false, false, true)
            &&& turn == 45 <==> (q2, q3, q4) == (false, false, false)
            &&& turn == 90 <==> (q2, q3, q4) == (false, true, false)
            &&& turn == 135 <==> (q2, q3, q4) == (false, true, true)
            &&& turn == 180 <==> (q2, q3, q4) == (true, true, true)
            &&& turn == 225 <==> (q2, q3, q4) == (true, true, false)
            &&& turn == 270 <==> (q2, q3, q4) == (true, false, false)
            &&& turn == 315 <==> (q2, q3, q4) == (true, false, true)
        }),
{
}

/// Three bits turn the carrier on the inner ring as the last three of four do, and two
/// turn it by the quarter that is their own.
pub proof fn fewer_bits_are_a_turn_alone(a: bool, b: bool, c: bool)
    ensures
        turn_of(Rate::R7200, seq![a, b, c]) == turn_of(Rate::R9600, seq![false, a, b, c]),
        !quadbit(Rate::R7200, seq![a, b, c]).0,
        !quadbit(Rate::R4800, seq![a, b]).0,
        ({
            let turn = 45 * turn_of(Rate::R4800, seq![a, b]);
            &&& turn == 0 <==> (a, b) == (false, false)
            &&& turn == 90 <==> (a, b) == (false, true)
            &&& turn == 180 <==> (a, b) == (true, true)
            &&& turn == 270 <==> (a, b) == (true, false)
        }),
{
}

/// The points of the training: A at 180 degrees and C at 0, three out; B and D opposite
/// each other, B at 270 degrees at the slowest rate and at 315 at the others, on the
/// outer ring at the fastest.
pub proof fn the_training_has_its_points(rate: Rate)
    ensures
        first().at() == (-3int, 0int),
        third().at() == (3int, 0int),
        second(rate).at() == (match rate {
            Rate::R4800 => (0int, -3int),
            Rate::R7200 => (1int, -1int),
            Rate::R9600 => (3int, -3int),
        }),
        fourth(rate).at() == (-second(rate).at().0, -second(rate).at().1),
{
}

/// A generator so many symbols on.
pub open spec fn generated(c: Conditioning, n: nat) -> Conditioning
    decreases n,
{
    if n == 0 {
        c
    } else {
        generated(c, (n - 1) as nat).after()
    }
}

/// The stage of a generator that comes out so many symbols from now.
pub open spec fn stage(c: Conditioning, from_last: int) -> bool {
    if from_last == 0 {
        c.register % 2 == 1
    } else if from_last == 1 {
        c.register / 2 % 2 == 1
    } else if from_last == 2 {
        c.register / 4 % 2 == 1
    } else if from_last == 3 {
        c.register / 8 % 2 == 1
    } else if from_last == 4 {
        c.register / 16 % 2 == 1
    } else if from_last == 5 {
        c.register / 32 % 2 == 1
    } else {
        c.register / 64 % 2 == 1
    }
}

proof fn lemma_halves(half: int, fed: int)
    requires
        0 <= half < 64,
        0 <= fed <= 1,
    ensures
        ({
            let s = half + 64 * fed;
            &&& s % 2 == half % 2
            &&& s / 2 % 2 == half / 2 % 2
            &&& s / 4 % 2 == half / 4 % 2
            &&& s / 8 % 2 == half / 8 % 2
            &&& s / 16 % 2 == half / 16 % 2
            &&& s / 32 % 2 == half / 32 % 2
            &&& s / 64 % 2 == fed
        }),
{
    let s = half + 64 * fed;
    assert(s / 2 == half / 2 + 32 * fed);
    assert(s / 4 == half / 4 + 16 * fed);
    assert(s / 8 == half / 8 + 8 * fed);
    assert(s / 16 == half / 16 + 4 * fed);
    assert(s / 32 == half / 32 + 2 * fed);
    assert(s / 64 == fed);
}

proof fn lemma_stages(c: Conditioning)
    requires
        c.wf(),
    ensures
        c.after().wf(),
        c.out() == stage(c, 0),
        forall|i: int| 0 <= i < 6 ==> #[trigger] stage(c.after(), i) == stage(c, i + 1),
        stage(c.after(), 6) == (stage(c, 0) != stage(c, 1)),
{
    let (r, s) = (c.register as int, c.after().register as int);
    let (half, fed) = (r / 2, if r % 2 != r / 2 % 2 {
        1int
    } else {
        0
    });
    assert(0 <= half < 64 && s == half + 64 * fed);
    lemma_halves(half, fed);
    assert(half / 2 == r / 4 && half / 4 == r / 8 && half / 8 == r / 16 && half / 16 == r / 32
        && half / 32 == r / 64);
    assert forall|i: int| 0 <= i < 6 implies #[trigger] stage(c.after(), i) == stage(c, i + 1) by {
        assert(i == 0 || i == 1 || i == 2 || i == 3 || i == 4 || i == 5);
    }
}

/// The conditioning sequence: from the start 0 1 0 1 0 1 0, and each bit after the
/// seventh is the sum of those six and seven before it.
pub proof fn the_conditioning_sequence_is_generated(c: Conditioning)
    requires
        c.wf(),
    ensures
        generated(c, 7).out() == (c.out() != generated(c, 1).out()),
        ({
            let fresh = Conditioning::fresh();
            &&& !fresh.out()
            &&& generated(fresh, 1).out()
            &&& !generated(fresh, 2).out()
            &&& generated(fresh, 3).out()
            &&& !generated(fresh, 4).out()
            &&& generated(fresh, 5).out()
            &&& !generated(fresh, 6).out()
        }),
{
    lemma_seven(c);
    let fresh = Conditioning::fresh();
    lemma_seven(fresh);
    assert(!stage(fresh, 0) && stage(fresh, 1) && !stage(fresh, 2) && stage(fresh, 3) && !stage(
        fresh,
        4,
    ) && stage(fresh, 5) && !stage(fresh, 6));
}

proof fn lemma_seven(c: Conditioning)
    requires
        c.wf(),
    ensures
        c.out() == stage(c, 0),
        generated(c, 1).out() == stage(c, 1),
        generated(c, 2).out() == stage(c, 2),
        generated(c, 3).out() == stage(c, 3),
        generated(c, 4).out() == stage(c, 4),
        generated(c, 5).out() == stage(c, 5),
        generated(c, 6).out() == stage(c, 6),
        generated(c, 7).out() == (stage(c, 0) != stage(c, 1)),
{
    reveal_with_fuel(generated, 8);
    let (c1, c2, c3, c4) = (generated(c, 1), generated(c, 2), generated(c, 3), generated(c, 4));
    let (c5, c6, c7) = (generated(c, 5), generated(c, 6), generated(c, 7));
    lemma_stages(c);
    lemma_stages(c1);
    lemma_stages(c2);
    lemma_stages(c3);
    lemma_stages(c4);
    lemma_stages(c5);
    lemma_stages(c6);
    lemma_stages(c7);
    assert(stage(c1, 0) == stage(c, 1));
    assert(stage(c2, 0) == stage(c1, 1) && stage(c1, 1) == stage(c, 2));
    assert(stage(c3, 0) == stage(c2, 1) && stage(c2, 1) == stage(c1, 2) && stage(c1, 2) == stage(
        c,
        3,
    ));
    assert(stage(c4, 0) == stage(c3, 1) && stage(c3, 1) == stage(c2, 2) && stage(c2, 2) == stage(
        c1,
        3,
    ) && stage(c1, 3) == stage(c, 4));
    assert(stage(c5, 0) == stage(c4, 1) && stage(c4, 1) == stage(c3, 2) && stage(c3, 2) == stage(
        c2,
        3,
    ) && stage(c2, 3) == stage(c1, 4) && stage(c1, 4) == stage(c, 5));
    assert(stage(c6, 0) == stage(c5, 1) && stage(c5, 1) == stage(c4, 2) && stage(c4, 2) == stage(
        c3,
        3,
    ) && stage(c3, 3) == stage(c2, 4) && stage(c2, 4) == stage(c1, 5) && stage(c1, 5) == stage(
        c,
        6,
    ));
    assert(stage(c7, 0) == stage(c6, 1) && stage(c6, 1) == stage(c5, 2) && stage(c5, 2) == stage(
        c4,
        3,
    ) && stage(c4, 3) == stage(c3, 4) && stage(c3, 4) == stage(c2, 5) && stage(c2, 5) == stage(
        c1,
        6,
    ));
}

/// The segments of a burst last what they should: 48 symbols of nothing, 128 of
/// alternations, 384 of conditioning and 48 of scrambled ones.
pub proof fn the_segments_last_what_they_should(tx: Sending)
    requires
        tx.wf(),
        tx.counting(),
    ensures
        ({
            let next = tx.next().stage;
            &&& tx.stage == Stage::Quiet(1) ==> next == Stage::Alternations(128)
            &&& tx.stage == Stage::Alternations(1) ==> next == Stage::Conditioning(384)
            &&& tx.stage == Stage::Conditioning(1) ==> next == Stage::Ones(48)
            &&& tx.stage == Stage::Ones(1) ==> next == Stage::Data
            &&& tx.stage == Stage::Data ==> next == Stage::Data
            &&& tx.stage == Stage::Silent ==> next == Stage::Silent
        }),
{
    reveal_with_fuel(Sending::bits_gone, 5);
}

/// What each segment sends: A first and then B and A by turns; and then C for a zero of
/// the conditioning sequence and D for a one.
pub proof fn each_segment_sends_its_points(tx: Sending)
    requires
        tx.wf(),
        tx.counting(),
    ensures
        ({
            let next = tx.next();
            &&& tx.stage == Stage::Alternations(128) ==> next.point == first()
            &&& tx.stage is Alternations && next.stage is Alternations && tx.point == first()
                && tx.stage->Alternations_0 % 2 == 1 ==> next.point == second(tx.rate)
            &&& tx.stage is Alternations ==> next.point == (if tx.stage->Alternations_0 % 2 == 0 {
                first()
            } else {
                second(tx.rate)
            })
            &&& tx.stage is Conditioning ==> next.point == (if tx.conditioning.out() {
                fourth(tx.rate)
            } else {
                third()
            })
            &&& tx.stage is Conditioning ==> next.conditioning == tx.conditioning.after()
            &&& tx.stage is Conditioning ==> next.scrambler == tx.scrambler
            &&& tx.quiet() <==> tx.stage is Silent || tx.stage is Quiet
            &&& !(tx.stage is Data || tx.stage is TurnOff) ==> next.pending == tx.pending
        }),
{
    reveal_with_fuel(Sending::bits_gone, 5);
}

/// A symbol of data goes out where its bits turn the last one to, on the ring its first
/// bit asks for, and takes as many bits as the rate carries.
pub proof fn data_turns_the_phase(tx: Sending)
    requires
        tx.wf(),
        tx.stage is Data,
    ensures
        ({
            let next = tx.next();
            let width = tx.rate.width();
            let bits = tx.line_bits(false, width);
            &&& next.point.eighths == (tx.point.eighths + turn_of(tx.rate, bits)) % 8
            &&& next.point.outer == (tx.rate is R9600 && bits[0])
            &&& next.pending == (if tx.pending.len() >= width {
                tx.pending.skip(width as int)
            } else {
                Seq::empty()
            })
        }),
{
    reveal_with_fuel(Sending::bits_gone, 5);
    let width = tx.rate.width();
    if tx.pending.len() >= width {
        assert(tx.next().pending =~= tx.pending.skip(width as int));
    } else {
        assert(tx.next().pending =~= Seq::empty());
    }
}

/// A bit goes out added to the eighteenth and the twenty-third line bits before it, and
/// comes back by the same sum.
pub proof fn a_bit_is_added_to_those_18_and_23_before(
    tx: Sending,
    rx: Hearing,
    line: Seq<bool>,
    ones: bool,
    bit: bool,
)
    requires
        tx.wf(),
        line.len() >= 23,
        tx.scrambler.register == shifted_in_all(0, line),
        rx.descrambler == tx.scrambler,
    ensures
        ({
            let n = line.len();
            let added = line[n - 18] != line[n - 23];
            &&& tx.line_bit(ones) == (tx.next_data(ones) != added)
            &&& tx.bit_gone(ones).scrambler.register == shifted_in_all(
                0,
                line.push(tx.line_bit(ones)),
            )
            &&& rx.hear_bit(bit).bits == rx.bits.push(bit != added)
            &&& rx.hear_bit(bit).descrambler.register == shifted_in_all(0, line.push(bit))
        }),
        ones ==> tx.next_data(ones),
        !ones && tx.pending.len() > 0 ==> tx.next_data(ones) == tx.pending[0],
{
    lemma_registers_agree(0, 0, line, 18);
    lemma_registers_agree(0, 0, line, 23);
    assert(line.push(tx.line_bit(ones)).drop_last() =~= line);
    assert(line.push(bit).drop_last() =~= line);
}

/// A receiver counts a turn from the symbol before, so that a line turned from end to
/// end says the same.
pub proof fn a_turned_line_says_the_same(rx: Hearing, decided: Point, turn: u8)
    requires
        rx.wf(),
        decided.eighths < 8,
        turn < 8,
        rx.previous is Some,
    ensures
        ({
            let was = rx.previous->0;
            let other = Hearing {
                previous: Some(Point { eighths: ((was.eighths + turn) % 8) as u8, ..was }),
                ..rx
            };
            let heard = rx.hear(decided);
            let again = other.hear(
                Point { eighths: ((decided.eighths + turn) % 8) as u8, ..decided },
            );
            again.bits == heard.bits && again.descrambler == heard.descrambler
        }),
{
    let was = rx.previous->0;
    let moved = Point { eighths: ((decided.eighths + turn) % 8) as u8, ..decided };
    let from = ((was.eighths + turn) % 8) as u8;
    let change = (decided.eighths + 8 - was.eighths) % 8;
    assert((moved.eighths + 8 - from) % 8 == change);
    if rx.carrier {
        let a = Hearing { symbols: rx.symbols + 1, previous: Some(decided), ..rx };
        let b = Hearing { symbols: rx.symbols + 1, previous: Some(moved), ..rx };
        lemma_bits_alike(a, b, bits_of(rx.rate, change, decided.outer));
    }
}

proof fn lemma_bits_alike(a: Hearing, b: Hearing, bits: Seq<bool>)
    requires
        a.bits == b.bits,
        a.descrambler == b.descrambler,
    ensures
        a.hear_bits(bits).bits == b.hear_bits(bits).bits,
        a.hear_bits(bits).descrambler == b.hear_bits(bits).descrambler,
    decreases bits.len(),
{
    if bits.len() > 0 {
        lemma_bits_alike(a, b, bits.drop_last());
    }
}

/// Nothing is heard without a carrier, and the first symbol of a burst is only a place to
/// count from.
pub proof fn a_burst_begins_with_a_reference(rx: Hearing, decided: Point)
    requires
        rx.wf(),
        decided.eighths < 8,
    ensures
        !rx.carrier ==> rx.hear(decided).bits == rx.bits && rx.hear(decided).previous
            == rx.previous,
        rx.carrier ==> rx.hear(decided).previous == Some(decided),
        rx.previous is None ==> rx.hear(decided).bits == rx.bits,
        rx.carrier && rx.previous is Some ==> rx.hear(decided).bits.len() == rx.bits.len()
            + rx.rate.width(),
        rx.new_burst().previous is None,
        rx.new_burst().bits.len() == 0,
        rx.new_burst().symbols == 0,
{
    reveal_with_fuel(Hearing::hear_bits, 5);
}

/// The scrambler is the one V.32 gives its calling end.
pub proof fn the_scrambler_is_the_calling_ends()
    ensures
        Mode::Call.polynomial() == (18u32, 23u32),
{
}

/// A burst begins with 48 symbols of nothing, from a cleared scrambler, the conditioning
/// sequence at its start and nothing queued.
pub proof fn a_burst_begins_with_nothing(tx: Sending, rate: Rate)
    requires
        tx.begun(rate),
    ensures
        tx.rate == rate,
        tx.stage == Stage::Quiet(48),
        tx.quiet(),
        tx.scrambler.register == 0,
        !tx.conditioning.out(),
        tx.pending.len() == 0,
        tx.point.at() == (3int, 0int),
{
}

/// A burst asked to end sends what is queued and 24 symbols more; asking again, or asking
/// a silent line, asks for nothing.
pub proof fn a_burst_is_ended_once(tx: Sending)
    ensures
        tx.stage is Silent ==> tx.stopped() == tx,
        !(tx.stage is Silent || tx.stage is TurnOff) ==> tx.stopped().stage == Stage::TurnOff(24),
        tx.stopped().pending == tx.pending,
        tx.stopped().stopped() == tx.stopped(),
{
}

/// A carrier that comes up begins a burst with nothing heard; one that goes, or stays,
/// leaves what was heard where it is.
pub proof fn a_carrier_that_comes_up_is_a_new_burst(rx: Hearing, levels: Levels)
    ensures
        ({
            let next = rx.levelled(levels);
            &&& next.carrier == levels.carries(rx.carrier)
            &&& next.carrier && !rx.carrier ==> next.bits.len() == 0 && next.symbols == 0
                && next.previous is None && next.descrambler.register == 0
            &&& !next.carrier || rx.carrier ==> next.bits == rx.bits && next.symbols == rx.symbols
                && next.previous == rx.previous && next.descrambler == rx.descrambler
            &&& next.rate == rx.rate
        }),
{
}

} // verus!
