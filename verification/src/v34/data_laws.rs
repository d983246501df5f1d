//! What data mode comes to: how the bits of a superframe are shared out, how a 4D symbol
//! is turned, and what the precoder does to it.
use crate::v34::coding::{
    bit, carried as carried_parity, largest, reach_of, room, turned, turned_back, turns_of, whole,
    Precoder, Running, Tables,
};
use crate::v34::data::{group_of, shell_of, small_group, steps_of, with_i3, Group};
use crate::v34::data::the_precoder_rounds_to_the_nearest;
use crate::v34::decoder::Decoding;
use crate::v34::encoder::Sending;
use crate::v34::frame::{bits_per_frame, carried, frames, lemma_highs, Framing};
use crate::v34::info::SymbolRate;
use crate::v34::phase2;
use crate::v34::startup::{settings_of, Standing};
use crate::v34::training::{self, Ear};
use crate::v34::viterbi::{candidate, nearest_odd, Received};
use vstd::prelude::*;

verus! {

/// A superframe lasts 280 ms at every symbol rate, of eight symbols to a mapping frame:
/// to the nearest symbol, where the symbol rate is not a whole number.
pub proof fn a_superframe_lasts_280_ms(rate: SymbolRate)
    ensures
        ({
            let symbols = 8 * frames(rate).0 * frames(rate).1;
            &&& -140 <= 1000 * symbols - 280 * rate.baud() <= 140
            &&& frames(rate).0 == (if rate is S2743 || rate is S3429 {
                8int
            } else {
                7
            })
        }),
{
    let (j, p) = frames(rate);
    assert(8 * j * p == (match rate {
        SymbolRate::S2400 => 672int,
        SymbolRate::S2743 => 768,
        SymbolRate::S2800 => 784,
        SymbolRate::S3000 => 840,
        SymbolRate::S3200 => 896,
        SymbolRate::S3429 => 960,
    })) by (nonlinear_arith)
        requires
            (j, p) == (match rate {
                SymbolRate::S2400 => (7nat, 12nat),
                SymbolRate::S2743 => (8, 12),
                SymbolRate::S2800 => (7, 14),
                SymbolRate::S3000 => (7, 15),
                SymbolRate::S3200 => (7, 16),
                SymbolRate::S3429 => (8, 15),
            }),
    ;
}

/// The slowest data rate of a symbol rate is 4800 bit/s, or 2400 at the slowest, and the
/// fastest is 9, 11, 11, 12, 13 or 14 times 2400.
pub proof fn a_symbol_rate_carries_what_it_can(rate: SymbolRate)
    ensures
        carried(rate).0 == (if rate is S2400 {
            2400int
        } else {
            4800
        }),
        carried(rate).1 == 2400 * (match rate {
            SymbolRate::S2400 => 9int,
            SymbolRate::S2743 => 11,
            SymbolRate::S2800 => 11,
            SymbolRate::S3000 => 12,
            SymbolRate::S3200 => 13,
            SymbolRate::S3429 => 14,
        }),
{
}

/// The data frames of a superframe carry 280 ms of the data rate between them, and of the
/// auxiliary channel's 200 bit/s, and not a bit more or less.
pub proof fn a_superframe_carries_its_bits(rate: SymbolRate, n: nat, auxiliary: bool)
    ensures
        1000 * frames(rate).0 * bits_per_frame(rate, 2400 * n, auxiliary) == 280 * (2400 * n + (
        if auxiliary {
            200int
        } else {
            0
        })),
{
    let all = (2400 * n + (if auxiliary {
        200int
    } else {
        0
    })) * 280;
    let bits = bits_per_frame(rate, 2400 * n, auxiliary);
    if frames(rate).0 == 7 {
        assert(all % 7000 == 0);
        assert(bits == all / 7000);
        assert(1000 * frames(rate).0 * bits == 7000 * bits);
    } else {
        assert(all % 8000 == 0);
        assert(bits == all / 8000);
        assert(1000 * frames(rate).0 * bits == 8000 * bits);
    }
}

/// The high frames of a data frame are spread as evenly as they go: among the first so
/// many there are as many as their share comes to, rounded down.
pub proof fn high_frames_are_spread_evenly(f: Framing, n: nat)
    requires
        f.wf(),
    ensures
        f.highs(n) == n * f.r / (f.p as int),
        f.bits_up_to(n) == n * (f.b - 1) + f.highs(n),
        f.highs(n + 1) == f.highs(n) + (if f.is_high(n as int) {
            1int
        } else {
            0
        }),
{
    lemma_highs(f, n);
}

/// The precoder's corrections are multiples of 2, and of 4 where a mapping frame has 56
/// bits or more.
pub proof fn corrections_are_coarser_from_56_bits(f: Framing, h: [(i16, i16); 3])
    ensures
        Running::fresh(f, h).precoder.grid_step == (if f.b < 56 {
            2int
        } else {
            4
        }),
        Running::fresh(f, h).z == 0,
        Running::fresh(f, h).precoder.h == h,
{
}

/// A frame of 8, 9, 11 or 12 bits is four groups of I1 and I2, with an I3 in as many of
/// them, from the first, as there are bits over.
pub proof fn a_small_frame_is_split_into_groups(bits: Seq<bool>, j: int)
    requires
        bits.len() == 8 || bits.len() == 9 || bits.len() == 11 || bits.len() == 12,
        0 <= j < 4,
    ensures
        with_i3(bits.len()) == bits.len() - 8,
        ({
            let over = bits.len() as int - 8;
            let group = small_group(bits, j);
            &&& j < over ==> group.i1 == bits[3 * j] && group.i2 == bits[3 * j + 1] && group.i3
                == bits[3 * j + 2]
            &&& j >= over ==> group.i1 == bits[2 * j + over] && group.i2 == bits[2 * j + 1 + over]
                && !group.i3
            &&& group.q == (0u32, 0u32)
        }),
{
}

/// A larger frame is the shell mapper's bits and then four groups alike: I1, I2, I3 and
/// the bits of two points; a low frame is short of the last bit of the shell mapper's,
/// which then is a zero.
pub proof fn a_frame_is_split_into_shell_bits_and_groups(
    f: Framing,
    high: bool,
    bits: Seq<bool>,
    j: int,
)
    requires
        f.wf(),
        f.b > 12,
        bits.len() == f.bits_of(high),
        0 <= j < 4,
    ensures
        ({
            let shell = if high {
                f.k as int
            } else {
                f.k - 1
            };
            let at = shell + j * (3 + 2 * f.q);
            let group = group_of(f, high, bits, j);
            let given = shell_of(f, high, bits);
            &&& given.len() == f.k
            &&& forall|i: int| 0 <= i < shell ==> #[trigger] given[i] == bits[i]
            &&& !high ==> !given[f.k - 1]
            &&& group.i1 == bits[at]
            &&& group.i2 == bits[at + 1]
            &&& group.i3 == bits[at + 2]
        }),
{
}

/// I2 and I3 turn both points by a number that adds up: I2 a quarter and I3 a half, over
/// what the symbols before turned.
pub proof fn i2_and_i3_turn_both_points(at: Running, group: Group)
    requires
        at.wf(),
    ensures
        0 <= at.turned_by(group) < 4,
        (at.turned_by(group) + 4 - at.z) % 4 == (match (group.i2, group.i3) {
            (false, false) => 0int,
            (true, false) => 1,
            (false, true) => 2,
            (true, true) => 3,
        }),
{
}

/// A quarter turn is clockwise, takes (x, y) to (y, -x), and is undone by the other three;
/// a point off the quarter superconstellation tells how often it was turned.
pub proof fn quarters_are_clockwise(p: (int, int), quarters: int, more: int)
    requires
        p.0 % 2 == 1,
        p.1 % 2 == 1,
        0 <= quarters < 4,
        0 <= more < 4,
    ensures
        turned(p, 1) == (p.1, -p.0),
        turned(turned(p, quarters), more) == turned(p, (quarters + more) % 4),
        turned_back(turned(p, quarters), quarters) == p,
        turns_of(turned(p, more)) == (turns_of(p) + more) % 4,
        turned_back(turned(p, more), turns_of(turned(p, more))) == turned_back(p, turns_of(p)),
{
}

/// A channel that adds nothing of what went before: the precoder predicts nothing.
pub open spec fn flat(precoder: Precoder) -> bool {
    forall|i: int| 0 <= i < 3 ==> #[trigger] precoder.h@[i] == (0i16, 0i16)
}

proof fn lemma_flat(precoder: Precoder)
    requires
        flat(precoder),
        precoder.wf(),
    ensures
        precoder.predicted().p == (0int, 0int),
        precoder.predicted().steps == (0int, 0int),
{
    reveal(Precoder::predicted);
    let (x, h) = (precoder.x@, precoder.h@);
    assert(h[0] == (0i16, 0i16) && h[1] == (0i16, 0i16) && h[2] == (0i16, 0i16));
    lemma_nothing(x[0].0 as int, x[0].1 as int);
    lemma_nothing(x[1].0 as int, x[1].1 as int);
    lemma_nothing(x[2].0 as int, x[2].1 as int);
    assert(precoder.response() == (0int, 0int));
    let step = precoder.grid_step * 128;
    assert(step == 256 || step == 512);
}

proof fn lemma_nothing(a: int, b: int)
    ensures
        a * 0 == 0,
        b * 0 == 0,
{
}

/// On a channel that adds nothing, a line turned by quarters from end to end says the
/// same: a decoder that counts its turns from a place as many quarters on gets the same
/// bits and the same rings.
#[verifier::rlimit(40)]
pub proof fn a_turned_line_says_the_same(
    at: Running,
    t: Tables,
    f: Framing,
    y: ((int, int), (int, int)),
    state: u8,
    m: int,
    quarters: int,
)
    requires
        at.wf(),
        flat(at.precoder),
        y.0.0 % 2 == 1,
        y.0.1 % 2 == 1,
        y.1.0 % 2 == 1,
        y.1.1 % 2 == 1,
        0 <= quarters < 4,
    ensures
        ({
            let other = Running { z: ((at.z + quarters) % 4) as u32, ..at };
            let here = at.decoded(t, f, y, state, m);
            let there = other.decoded(t, f, (turned(y.0, quarters), turned(y.1, quarters)), state, m);
            &&& there.group == here.group
            &&& there.rings == here.rings
            &&& there.outside == here.outside
            &&& there.next.z == (here.next.z + quarters) % 4
        }),
{
    let other = Running { z: ((at.z + quarters) % 4) as u32, ..at };
    let (a, b) = (turned(y.0, quarters), turned(y.1, quarters));
    lemma_label_turned(t, f, y.0, quarters);
    lemma_label_turned(t, f, y.1, quarters);
    lemma_decoded_flat(at, t, f, y, state, m);
    lemma_decoded_flat(other, t, f, (a, b), state, m);
    let odd = bit(t.outputs@[state as int] != t.inverted(f, m));
    lemma_turns_alike(turns_of(y.0), turns_of(y.1), at.z as int, odd, quarters);
}

proof fn lemma_turns_alike(z: int, turn: int, from: int, odd: int, quarters: int)
    requires
        0 <= z < 4,
        0 <= turn < 4,
        0 <= from < 4,
        0 <= odd < 2,
        0 <= quarters < 4,
    ensures
        ({
            let (z2, turn2, from2) = ((z + quarters) % 4, (turn + quarters) % 4, (from + quarters)
                % 4);
            &&& (z2 + 4 - from2) % 4 == (z + 4 - from) % 4
            &&& (turn2 + 8 - z2 - odd) % 4 == (turn + 8 - z - odd) % 4
            &&& 0 <= from2 < 4
        }),
{
    let (z2, turn2, from2) = ((z + quarters) % 4, (turn + quarters) % 4, (from + quarters) % 4);
    assert(z2 == z + quarters || z2 == z + quarters - 4);
    assert(turn2 == turn + quarters || turn2 == turn + quarters - 4);
    assert(from2 == from + quarters || from2 == from + quarters - 4);
}

proof fn lemma_label_turned(t: Tables, f: Framing, p: (int, int), quarters: int)
    requires
        p.0 % 2 == 1,
        p.1 % 2 == 1,
        0 <= quarters < 4,
    ensures
        turns_of(turned(p, quarters)) == (turns_of(p) + quarters) % 4,
        Running::relabelled(t, f, turned(p, quarters)) == Running::relabelled(t, f, p),
        Running::strayed(t, f, turned(p, quarters)) == Running::strayed(t, f, p),
{
    quarters_are_clockwise(p, 0, quarters);
    reveal(Running::relabelled);
    reveal(Running::strayed);
}

proof fn lemma_decoded_flat(
    at: Running,
    t: Tables,
    f: Framing,
    y: ((int, int), (int, int)),
    state: u8,
    m: int,
)
    requires
        at.wf(),
        flat(at.precoder),
    ensures
        ({
            let here = at.decoded(t, f, y, state, m);
            let odd = bit(t.outputs@[state as int] != t.inverted(f, m));
            let (z, turn) = (turns_of(y.0), turns_of(y.1));
            let width = vstd::arithmetic::power2::pow2(f.q as nat);
            let (l0, l1) = (Running::relabelled(t, f, y.0), Running::relabelled(t, f, y.1));
            &&& here.group == (Group {
                i1: (turn + 8 - z - odd) % 4 / 2 == 1,
                i2: (z + 4 - at.z) % 4 % 2 == 1,
                i3: (z + 4 - at.z) % 4 / 2 == 1,
                q: ((l0 % width) as u32, (l1 % width) as u32),
            })
            &&& here.rings == ((l0 / width) as nat, (l1 / width) as nat)
            &&& here.outside == Running::strayed(t, f, y.0) + Running::strayed(t, f, y.1)
            &&& here.next.z == z
        }),
{
    let between = at.precoder.pushed(y.0);
    lemma_flat(at.precoder);
    lemma_flat(between);
    let step = at.precoder.grid_step as int;
    assert(0 * step == 0);
    assert(at.precoder.uncorrected(y.0) == y.0);
    assert(between.uncorrected(y.1) == y.1);
    assert(!carried_parity(at.precoder, between)) by {
        reveal(carried_parity);
        let half = at.precoder.grid_step / 2;
        assert(0 * half == 0);
    }
}

/// On a channel that adds nothing the first point goes out turned by I2 and I3 over what
/// went before, and the second by a half more for I1, and a quarter more for what the
/// trellis adds: so I1 turned over is the second point turned half round.
pub proof fn i1_turns_the_second_point_half_round(
    at: Running,
    t: Tables,
    f: Framing,
    group: Group,
    rings: (nat, nat),
    state: u8,
    m: int,
)
    requires
        at.wf(),
        flat(at.precoder),
    ensures
        ({
            let here = at.encoded(t, f, group, rings, state, m);
            let there = at.encoded(t, f, Group { i1: !group.i1, ..group }, rings, state, m);
            let width = vstd::arithmetic::power2::pow2(f.q as nat);
            let odd = t.outputs@[state as int] != t.inverted(f, m);
            &&& there.y.0 == here.y.0
            &&& there.y.1 == (-here.y.1.0, -here.y.1.1)
            &&& here.y.0 == turned(t.point_of(group.q.0 + rings.0 * width), at.turned_by(group))
            &&& !group.i1 && !odd ==> here.y.1 == turned(
                t.point_of(group.q.1 + rings.1 * width),
                at.turned_by(group),
            )
            &&& !group.i1 && odd ==> here.y.1 == turned(
                t.point_of(group.q.1 + rings.1 * width),
                (at.turned_by(group) + 1) % 4,
            )
            &&& here.next.z == at.turned_by(group)
        }),
{
    reveal(carried_parity);
    let z = at.turned_by(group);
    let width = vstd::arithmetic::power2::pow2(f.q as nat);
    let v0 = t.point_of(group.q.0 + rings.0 * width);
    let y0 = turned(v0, z);
    lemma_flat(at.precoder);
    let step = at.precoder.grid_step as int;
    assert(0 * step == 0);
    assert(at.precoder.corrected(y0) == y0);
    let between = at.precoder.pushed(y0);
    lemma_flat(between);
    assert(forall|p: (int, int)| #[trigger] between.corrected(p) == p);
    assert(!carried_parity(at.precoder, between)) by {
        let half = at.precoder.grid_step / 2;
        assert(0 * half == 0);
    }
}

/// The inversions come at the first 4D symbol of each half of a data frame and nowhere
/// else, and come round again with the superframe; B1 has those of its last data frame.
pub proof fn the_inversions_come_round(t: Tables, f: Framing, m: int)
    requires
        f.wf(),
        0 <= m,
    ensures
        m % (2 * f.p as int) != 0 ==> !t.inverted(f, m),
        t.inverted(f, 0) == t.inversions@[2 * f.j - 2],
        t.inverted(f, 2 * f.p as int) == t.inversions@[2 * f.j - 1],
        t.inverted(f, 4 * f.p as int) == t.inversions@[0],
        t.inverted(f, m + (2 * f.p) * (2 * f.j)) == t.inverted(f, m),
{
    let (half, all) = (2 * f.p as int, 2 * f.j as int);
    assert(half / half == 1 && (2 * half) / half == 2 && half % half == 0 && (2 * half) % half == 0
        && 0int / half == 0 && 0int % half == 0) by (nonlinear_arith)
        requires
            half > 0,
    ;
    assert((0 + all - 2) % all == all - 2 && (1 + all - 2) % all == all - 1 && (2 + all - 2) % all
        == 0) by (nonlinear_arith)
        requires
            all >= 14,
    ;
    assert((2 * f.p) * (2 * f.j) == half * all);
    vstd::arithmetic::div_mod::lemma_fundamental_div_mod(m, half);
    let (q, r) = (m / half, m % half);
    assert(m + half * all == half * (q + all) + r) by (nonlinear_arith)
        requires
            m == half * q + r,
    ;
    assert(half * (q + all) == (q + all) * half) by (nonlinear_arith);
    vstd::arithmetic::div_mod::lemma_mod_bound(m, half);
    vstd::arithmetic::div_mod::lemma_fundamental_div_mod_converse(m + half * all, half, q + all, r);
    vstd::arithmetic::div_mod::lemma_mod_add_multiples_vanish(q + all - 2, all);
    assert((q + all) + all - 2 == all + (q + all - 2));
}

/// What the precoder predicts is what the channel makes of the last three symbols, one
/// tap to each: a tap of one gives back the symbol it is for, and a tap of i gives it
/// back a quarter turn on.
pub proof fn a_tap_is_for_its_own_symbol(precoder: Precoder, tap: int)
    requires
        precoder.wf(),
        0 <= tap < 3,
        forall|i: int| 0 <= i < 3 && i != tap ==> #[trigger] precoder.h@[i] == (0i16, 0i16),
    ensures
        ({
            let (p, x) = (precoder.predicted().p, precoder.x@[tap]);
            &&& precoder.h@[tap] == (16384i16, 0i16) ==> p == (x.0 as int, x.1 as int)
            &&& precoder.h@[tap] == (0i16, 16384i16) ==> p == (-x.1 as int, x.0 as int)
        }),
{
    reveal(Precoder::predicted);
    let (x, h) = (precoder.x@, precoder.h@);
    assert(tap == 0 || tap == 1 || tap == 2);
    lemma_nothing(x[0].0 as int, x[0].1 as int);
    lemma_nothing(x[1].0 as int, x[1].1 as int);
    lemma_nothing(x[2].0 as int, x[2].1 as int);
    lemma_whole(x[tap].0 as int);
    lemma_whole(x[tap].1 as int);
    lemma_whole(-x[tap].1 as int);
    if precoder.h@[tap] == (16384i16, 0i16) {
        assert(precoder.response() == (x[tap].0 * 16384, x[tap].1 * 16384));
    }
    if precoder.h@[tap] == (0i16, 16384i16) {
        assert(precoder.response() == (-(x[tap].1 * 16384), x[tap].0 * 16384));
        assert(-(x[tap].1 * 16384) == (-x[tap].1) * 16384);
    }
}

proof fn lemma_whole(n: int)
    ensures
        steps_of(n * 16384, 16384) == n,
{
}

/// What goes out is a symbol's point within half a step of where it was to be: the
/// correction takes off the prediction all but what is less than that.
pub proof fn what_goes_out_is_near_the_point(precoder: Precoder, u: (int, int))
    requires
        precoder.wf(),
    ensures
        ({
            let y = precoder.corrected(u);
            let p = precoder.predicted().p;
            let (re, im) = (128 * y.0 - p.0, 128 * y.1 - p.1);
            let step = 128 * precoder.grid_step;
            &&& -step <= 2 * (re - 128 * u.0) <= step
            &&& -step <= 2 * (im - 128 * u.1) <= step
            &&& (y.0 - u.0) % (precoder.grid_step as int) == 0
            &&& (y.1 - u.1) % (precoder.grid_step as int) == 0
            &&& precoder.uncorrected(y) == u
        }),
{
    reveal(Precoder::predicted);
    let g = precoder.grid_step as int;
    let step = g * 128;
    let (p, s) = (precoder.predicted().p, precoder.predicted().steps);
    the_precoder_rounds_to_the_nearest(p.0, step, 0);
    the_precoder_rounds_to_the_nearest(p.1, step, 0);
    assert(s.0 * step == 128 * (s.0 * g) && s.1 * step == 128 * (s.1 * g)) by (nonlinear_arith)
        requires
            step == g * 128,
    ;
    vstd::arithmetic::div_mod::lemma_mod_multiples_basic(s.0, g);
    vstd::arithmetic::div_mod::lemma_mod_multiples_basic(s.1, g);
}

/// Forty 4D symbols are held before the oldest is decided; from then on one is decided
/// for each that comes.
pub proof fn a_symbol_is_decided_40_symbols_later(
    d: Decoding,
    t: Tables,
    r0: Received,
    r1: Received,
)
    ensures
        d.fed(t, r0, r1).received == d.received + 1,
        d.stages.len() < 40 ==> d.fed(t, r0, r1).decided == d.decided && d.fed(
            t,
            r0,
            r1,
        ).stages.len() == d.stages.len() + 1,
        d.stages.len() == 40 ==> d.fed(t, r0, r1).decided == d.decided + 1 && d.fed(
            t,
            r0,
            r1,
        ).stages.len() == 40,
{
}

/// A start-up runs phase 2 until it is over and has left what training needs, and from
/// that sample on phases 3 and 4; neither goes on while the other does.
pub proof fn training_follows_phase_2(m: Standing, h: phase2::Heard, ear: Ear)
    requires
        m.wf(),
    ensures
        ({
            let next = m.step(h, ear);
            &&& m.training is Some ==> next.phase2 == m.phase2 && next.training == Some(
                m.training->0.step(ear),
            )
            &&& m.training is None ==> next.phase2 == m.phase2.step(h)
            &&& m.training is None ==> (next.training is Some <==> next.phase2.s.status is Done
                && next.phase2.s.far is Some && next.phase2.s.info1c is Some
                && next.phase2.s.info1a is Some)
            &&& next.front == m.front
            &&& next.fs == m.fs
        }),
{
}

/// Training is opened on what the two ends settled, with this end's fastest data rate at
/// each direction's symbol rate.
pub proof fn training_is_limited_by_the_front(m: Standing, h: phase2::Heard, ear: Ear)
    requires
        m.wf(),
        m.training is None,
        m.step(h, ear).training is Some,
    ensures
        ({
            let s = m.phase2.step(h).s;
            let settings = settings_of(s)->0;
            let limits = m.front.limiting(settings);
            &&& settings_of(s) is Some
            &&& m.step(h, ear).training == Some(training::opened(settings, limits, m.fs))
            &&& limits.lookahead == m.front.lookahead
            &&& limits.transmit_ceiling == m.front.ceilings@[settings.transmit.rate.numbered() as int]
            &&& limits.receive_ceiling == m.front.ceilings@[settings.receive.rate.numbered() as int]
        }),
{
}

/// How a start-up stands: failed where either part failed, running until training is
/// done, and then connected at 2400 bit/s times what was settled each way, or done where
/// that is nothing.
pub proof fn a_start_up_stands_where_its_parts_do(m: Standing)
    requires
        m.wf(),
    ensures
        m.phase2.s.status is Failed ==> m.status() is Failed,
        !(m.phase2.s.status is Failed) && m.training is None ==> m.status() is Running,
        !(m.phase2.s.status is Failed) && m.training is Some ==> {
            let status = m.training->0.s.status;
            let (transmit, receive) = m.training->0.settled_rates();
            &&& status is Failed ==> m.status() is Failed
            &&& status is Running ==> m.status() is Running
            &&& status is Done ==> m.status() is Connected || m.status() is Done
            &&& m.status() is Connected ==> m.status()->transmit == (2400 * transmit) as u32
                && m.status()->receive == (2400 * receive) as u32
            &&& status is Done && m.training->0.s.ours is Some && m.training->0.s.far_mp is Some ==> (
            m.status() is Connected <==> transmit > 0 && receive > 0)
        },
{
}

/// A coordinate received is nearest an odd one that it is no more than a unit from, and the
/// points tried are the twenty-five within four of that, both ways.
pub proof fn the_points_tried_are_around_the_nearest(r: Received, n: int)
    requires
        0 <= n < 25,
    ensures
        ({
            let (x, y) = (nearest_odd(r.0 as int), nearest_odd(r.1 as int));
            let p = candidate(r, n);
            &&& x % 2 == 1 && y % 2 == 1
            &&& -128 <= r.0 - 128 * x <= 128
            &&& -128 <= r.1 - 128 * y <= 128
            &&& -4 <= p.0 - x <= 4 && (p.0 - x) % 2 == 0
            &&& -4 <= p.1 - y <= 4 && (p.1 - y) % 2 == 0
            &&& candidate(r, 12) == (x, y)
        }),
{
}

/// The bits of a data frame go as evenly as they can into its mapping frames, each the
/// same but for one bit; and those of a mapping frame are twelve for the turns, a ring
/// choice of fewer than 32, and as many for each of eight points as are left.
pub proof fn the_bits_of_a_frame_are_shared_out(f: Framing)
    requires
        f.wf(),
    ensures
        (f.b - 1) * f.p < f.total() <= f.b * f.p,
        f.b > 12 ==> 12 + f.k + 8 * f.q == f.b && 0 < f.k < 32,
        f.b <= 12 ==> f.k == 0 && f.q == 0 && f.m == 1 && f.l == 4,
        f.l == 4 * f.m * vstd::arithmetic::power2::pow2(f.q as nat),
{
    assert((f.b - 1) * f.p + f.p == f.b * f.p) by (nonlinear_arith);
    assert((f.b - 1) * f.p >= 0) by (nonlinear_arith)
        requires
            f.b >= 8,
    ;
    vstd::arithmetic::power2::lemma2_to64();
}

/// A mapping frame going out is counted within its data frame, and gives its four groups
/// to four 4D symbols in turn, each with the next two rings.
pub proof fn a_frame_goes_out_group_by_group(
    s: Sending,
    t: Tables,
    rings: Seq<usize>,
    j: nat,
)
    requires
        j < 4,
    ensures
        ({
            let (before, after) = (s.gone(t, rings, j), s.gone(t, rings, j + 1));
            let group = s.groups[j as int];
            let pair = (rings[2 * j as int] as nat, rings[2 * j as int + 1] as nat);
            let encoded = before.running.encoded(
                t,
                s.params.framing,
                group,
                pair,
                before.state,
                (4 * s.frame + j) as int,
            );
            &&& after.running == encoded.next
            &&& after.state == encoded.state
            &&& after.frame == s.frame
        }),
        s.params.framing.p > 0 && s.frame < s.params.framing.p ==> s.high()
            == s.params.framing.is_high(s.frame as int),
        s.params.framing.p > 0 && s.frame == s.params.framing.p ==> s.high()
            == s.params.framing.is_high(0),
{
    lemma_gone_keeps(s, t, rings, j);
    let p = s.params.framing.p as int;
    if p > 0 {
        assert(p % p == 0) by (nonlinear_arith)
            requires
                p > 0,
        ;
        if s.frame < p {
            vstd::arithmetic::div_mod::lemma_small_mod(s.frame, p as nat);
        }
    }
}

proof fn lemma_gone_keeps(s: Sending, t: Tables, rings: Seq<usize>, j: nat)
    ensures
        s.gone(t, rings, j).frame == s.frame,
    decreases j,
{
    if j > 0 {
        lemma_gone_keeps(s, t, rings, (j - 1) as nat);
    }
}

/// A decided 4D symbol gives its group and its two rings to the place in its mapping frame
/// that its count says, and leaves the others; and the frame that a fourth symbol finishes
/// is high by its own place in its data frame.
pub proof fn a_symbol_goes_to_its_place(
    d: Decoding,
    t: Tables,
    y: ((int, int), (int, int)),
    state: u8,
    n: nat,
)
    requires
        d.groups.len() == 4,
        d.rings.len() == 8,
        d.framing.p > 0,
    ensures
        ({
            let next = d.undone(t, y, state);
            let decoded = d.running.decoded(t, d.framing, y, state, d.decided as int);
            let j = d.decided as int % 4;
            &&& next.decided == d.decided + 1
            &&& next.groups[j] == decoded.group
            &&& next.rings[2 * j] == decoded.rings.0 as usize
            &&& next.rings[2 * j + 1] == decoded.rings.1 as usize
            &&& forall|k: int| 0 <= k < 4 && k != j ==> next.groups[k] == d.groups[k]
            &&& forall|k: int|
                0 <= k < 8 && k != 2 * j && k != 2 * j + 1 ==> next.rings[k] == d.rings[k]
            &&& next.outside == d.outside + decoded.outside
        }),
        d.decided == 4 * (n + 1) ==> d.high() == d.framing.is_high(
            n as int % (d.framing.p as int),
        ),
{
}

/// The room a constellation takes is that of the furthest of its points along either axis,
/// and a step of the precoder's besides, which is 2 or 4.
pub proof fn no_point_is_out_of_room(t: Tables, f: Framing, i: int)
    requires
        f.wf(),
        t.wf(f),
        0 <= i < f.l / 4,
    ensures
        ({
            let p = whole(t.quarter@[i]);
            let most = room(t, f) - (if f.b < 56 {
                2int
            } else {
                4
            });
            &&& -most <= p.0 <= most && -most <= p.1 <= most
            &&& exists|k: int|
                0 <= k < f.l / 4 && {
                    let q = whole(#[trigger] t.quarter@[k]);
                    q.0 == most || q.0 == -most || q.1 == most || q.1 == -most
                }
        }),
{
    lemma_largest(t, f, (f.l / 4) as nat);
    let p = whole(t.quarter@[i]);
    assert(reach_of(p) <= largest(t, (f.l / 4) as nat));
}

proof fn lemma_largest(t: Tables, f: Framing, count: nat)
    requires
        t.wf(f),
        count <= t.quarter@.len(),
    ensures
        largest(t, count) >= 0,
        forall|i: int|
            0 <= i < count ==> reach_of(whole(#[trigger] t.quarter@[i])) <= largest(t, count),
        count > 0 ==> exists|k: int|
            0 <= k < count && reach_of(whole(#[trigger] t.quarter@[k])) == largest(t, count),
    decreases count,
{
    if count > 0 {
        lemma_largest(t, f, (count - 1) as nat);
        let here = reach_of(whole(t.quarter@[count - 1]));
        assert(here >= 1) by {
            let p = whole(t.quarter@[count - 1]);
            assert(p.0 % 4 == 1);
        }
        if here <= largest(t, (count - 1) as nat) {
            assert(count - 1 > 0);
            let k = choose|k: int|
                0 <= k < count - 1 && reach_of(whole(#[trigger] t.quarter@[k])) == largest(
                    t,
                    (count - 1) as nat,
                );
            assert(reach_of(whole(t.quarter@[k])) == largest(t, count));
        } else {
            assert(reach_of(whole(t.quarter@[count - 1])) == largest(t, count));
        }
    }
}

} // verus!
