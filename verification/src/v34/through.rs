//! Data mode through a clean line: points received where they were sent are
//! decided as they were sent, and give back the bits they were made of.
use crate::scrambling::{
    descrambled, descrambling_undoes_scrambling, scrambled, shifted_in_all,
};
use crate::v34::coding::{
    a_4d_symbol_is_undone, bit, carried, lemma_corrected, lemma_predicted, turned, whole, Encoded,
    Precoder, Running, Tables, SENT,
};
use crate::v34::data::{
    a_frame_comes_back_from_its_split, group_of, joined, lemma_groups_fit, occurs, Group,
};
use crate::v34::decoder::{traced, Decoder, Decoding, Held, MOST};
use crate::v34::encoder::{lemma_scrambled_len, Encoder, Sending};
use crate::v34::frame::Framing;
use crate::v34::viterbi::{
    backs_of, best_pair, branch, branch_cost, candidate, cheapest, costs_of, distance, least_of,
    lemma_cheapest, lowered, near, near_of, nearest_odd, nears, pair_of, pair_off, pairs_of,
    reached, subset_of, the_best_pair_is_best, the_nearest_is_nearest, the_survivor_is_the_cheapest,
    well_coded, Back, Near, Pair, Received, FAR,
};
use vstd::arithmetic::power2::pow2;
use vstd::prelude::*;

verus! {

/// A point that the encoder can send: on the grid, and not far out.
pub open spec fn sendable(y: (int, int)) -> bool {
    y.0 % 2 == 1 && y.1 % 2 == 1 && -2000 <= y.0 <= 2000 && -2000 <= y.1 <= 2000
}

/// A point received where it was sent, in 1/128 of a grid unit.
pub open spec fn clean(y: (int, int)) -> Received {
    ((128 * y.0) as i32, (128 * y.1) as i32)
}

/// The nearest points of a clean one: it is itself the nearest of its label, and
/// none of another label is where it is.
pub open spec fn marks(found: Seq<Near>, label: int) -> bool {
    &&& found.len() == 8
    &&& 0 <= label < 8
    &&& found[label].off == Some(0u64)
    &&& forall|l: int|
        0 <= l < 8 && l != label ==> ((#[trigger] found[l]).off matches Some(off) ==> 0 < off
            <= FAR / 2)
}

/// The nearest point of a label is one of those looked at.
proof fn lemma_near_is_close(t: Tables, r: Received, label: int, n: nat)
    requires
        n <= 25,
    ensures
        near(t, r, label, n) matches Some(p) ==> {
            &&& t.label_of(p) == label
            &&& -4 <= p.0 - nearest_odd(r.0 as int) <= 4
            &&& -4 <= p.1 - nearest_odd(r.1 as int) <= 4
        },
    decreases n,
{
    if n > 0 {
        lemma_near_is_close(t, r, label, (n - 1) as nat);
    }
}

/// Only a point itself is no distance off.
proof fn lemma_apart(r: Received, y: (int, int), p: (int, int))
    requires
        r.0 == 128 * y.0,
        r.1 == 128 * y.1,
        -4 <= p.0 - y.0 <= 4,
        -4 <= p.1 - y.1 <= 4,
    ensures
        0 <= distance(r, p) <= FAR / 2,
        distance(r, p) == 0 <==> p == y,
{
    let (a, b) = (128 * p.0 - r.0, 128 * p.1 - r.1);
    assert(0 <= a * a <= 262144 && 0 <= b * b <= 262144 && (a * a == 0 <==> a == 0) && (b * b == 0
        <==> b == 0)) by (nonlinear_arith)
        requires
            -512 <= a <= 512,
            -512 <= b <= 512,
    ;
}

proof fn lemma_marked(t: Tables, y: (int, int))
    requires
        sendable(y),
        t.label_of(y) < 8,
    ensures
        marks(nears(t, clean(y)), t.label_of(y) as int),
        nears(t, clean(y))[t.label_of(y) as int].point == (y.0 as i32, y.1 as i32),
{
    let r = clean(y);
    assert(nearest_odd(r.0 as int) == y.0 && nearest_odd(r.1 as int) == y.1);
    assert(candidate(r, 12) == y);
    let own = t.label_of(y) as int;
    assert forall|l: int| 0 <= l < 8 implies ({
        let found = #[trigger] nears(t, r)[l];
        if l == own {
            found.off == Some(0u64) && found.point == (y.0 as i32, y.1 as i32)
        } else {
            found.off matches Some(off) ==> 0 < off <= FAR / 2
        }
    }) by {
        assert(nears(t, r)[l] == near_of(t, r, l));
        lemma_near_is_close(t, r, l, 25);
        if l == own {
            the_nearest_is_nearest(t, r, l, 25, 12);
            lemma_apart(r, y, y);
        }
        if let Some(p) = near(t, r, l, 25) {
            lemma_apart(r, y, p);
        }
    }
    assert(nears(t, r)[own] == near_of(t, r, own));
}

proof fn lemma_pair_range(t: Tables, first: Seq<Near>, second: Seq<Near>, subset: int, n: nat)
    requires
        n <= 64,
    ensures
        best_pair(t, first, second, subset, n) matches Some((a, b)) ==> 0 <= a < 8 && 0 <= b < 8
            && subset_of(t, a, b) == subset && pair_off(first, second, a, b) is Some,
    decreases n,
{
    if n > 0 {
        lemma_pair_range(t, first, second, subset, (n - 1) as nat);
    }
}

/// Of two clean points the pair of their own labels is the only one that is no
/// distance off.
proof fn lemma_paired(
    t: Tables,
    first: Seq<Near>,
    second: Seq<Near>,
    labels: (u8, u8),
    subset: int,
)
    requires
        marks(first, labels.0 as int),
        marks(second, labels.1 as int),
    ensures
        subset == subset_of(t, labels.0 as int, labels.1 as int) ==> pair_of(
            t,
            first,
            second,
            subset,
        ) == Some(Pair { labels, off: 0 }),
        subset != subset_of(t, labels.0 as int, labels.1 as int) ==> (pair_of(
            t,
            first,
            second,
            subset,
        ) matches Some(pair) ==> 0 < pair.off <= FAR),
{
    let (a, b) = (labels.0 as int, labels.1 as int);
    lemma_pair_range(t, first, second, subset, 64);
    if subset == subset_of(t, a, b) {
        let i = 8 * a + b;
        assert(i / 8 == a && i % 8 == b);
        the_best_pair_is_best(t, first, second, subset, 64, i);
    }
    if let Some((x, y)) = best_pair(t, first, second, subset, 64) {
        assert(first[x].off is Some && second[y].off is Some);
    }
}

/// One state alone costs nothing to have reached.
pub open spec fn alone(costs: Seq<Option<u64>>, state: int, most: int) -> bool {
    &&& 0 <= state < costs.len()
    &&& costs[state] == Some(0u64)
    &&& forall|s: int|
        0 <= s < costs.len() && s != state ==> ((#[trigger] costs[s]) matches Some(cost) ==> 0
            < cost <= most)
}

/// One pair alone is no distance off.
pub open spec fn pair_alone(best: Seq<Option<Pair>>, subset: int, labels: (u8, u8)) -> bool {
    &&& best.len() == 32
    &&& 0 <= subset < 32
    &&& best[subset] == Some(Pair { labels, off: 0 })
    &&& forall|s: int|
        0 <= s < 32 && s != subset ==> ((#[trigger] best[s]) matches Some(pair) ==> 0 < pair.off
            <= FAR)
}

/// Where the subset of a branch is.
pub open spec fn subset_at(t: Tables, inversion: bool, state: int, inputs: int) -> int {
    (if t.outputs@[state] != inversion {
        16int
    } else {
        0int
    }) + inputs
}

/// A branch that is not the one taken costs something.
proof fn lemma_other_branch(
    t: Tables,
    metrics: Seq<Option<u64>>,
    best: Seq<Option<Pair>>,
    inversion: bool,
    state: int,
    inputs: int,
    labels: (u8, u8),
    most: int,
    b: int,
)
    requires
        metrics.len() == t.states(),
        alone(metrics, state, most),
        0 <= most,
        0 <= inputs < 16,
        pair_alone(best, subset_at(t, inversion, state, inputs), labels),
        0 <= b < 16 * t.states(),
        b != 16 * state + inputs,
    ensures
        branch_cost(t, metrics, best, inversion, b) matches Some(cost) ==> 0 < cost <= most + FAR,
{
    let (s, y) = branch(b);
    assert(b == 16 * s + y);
    let subset = subset_at(t, inversion, s, y);
    assert(metrics[s] is Some ==> metrics[s]->0 <= most);
    assert(best[subset] is Some ==> best[subset]->0.off <= FAR);
}

/// The state the branch taken leads to is reached for nothing, by that branch;
/// any other costs something.
proof fn lemma_reached(
    t: Tables,
    metrics: Seq<Option<u64>>,
    best: Seq<Option<Pair>>,
    inversion: bool,
    state: int,
    inputs: int,
    labels: (u8, u8),
    most: int,
    to: int,
)
    requires
        well_coded(t),
        metrics.len() == t.states(),
        alone(metrics, state, most),
        0 <= most < 0x4000_0000_0000_0000,
        0 <= inputs < 16,
        (inputs as u8) & t.inputs == inputs as u8,
        pair_alone(best, subset_at(t, inversion, state, inputs), labels),
        0 <= to < t.states(),
    ensures
        ({
            let (cost, back) = reached(t, metrics, best, inversion, to);
            if to == t.nexts@[16 * state + inputs] {
                cost == Some(0u64) && back == (Back { from: state as u8, labels })
            } else {
                cost matches Some(c) ==> 0 < c <= most + FAR
            }
        }),
{
    let taken = 16 * state + inputs;
    let n = 16 * t.states();
    assert(taken / 16 == state && taken % 16 == inputs);
    assert(branch_cost(t, metrics, best, inversion, taken) == Some(0nat));
    lemma_cheapest(t, metrics, best, inversion, to, n);
    if to == t.nexts@[taken] {
        the_survivor_is_the_cheapest(t, metrics, best, inversion, to, n, taken);
    }
    if let Some(b) = cheapest(t, metrics, best, inversion, to, n) {
        if b != taken {
            lemma_other_branch(t, metrics, best, inversion, state, inputs, labels, most, b);
        }
    }
}

/// The state that alone costs nothing is the one that costs least.
proof fn lemma_least(costs: Seq<Option<u64>>, state: int, most: int, n: nat)
    requires
        alone(costs, state, most),
        n <= costs.len(),
    ensures
        n > state ==> least_of(costs, n) == Some(state),
        n <= state ==> (least_of(costs, n) matches Some(s) ==> 0 <= s < n && costs[s] is Some),
    decreases n,
{
    if n > 0 {
        lemma_least(costs, state, most, (n - 1) as nat);
        assert(costs[n - 1] == costs[n - 1]);
    }
}

impl Tables {
    /// The labels are odd and even by turns along the grid, so that a quarter
    /// turn or a step of two takes a point from one to the other.
    pub open spec fn alternates(self) -> bool {
        forall|i: int| 0 <= i < 16 ==> (#[trigger] self.labels@[i]) % 2 == (i / 4 + i % 4) % 2
    }
}

/// Whether a grid point's label is odd.
#[verifier::opaque]
pub open spec fn oddness(p: (int, int)) -> int {
    ((p.0 - 1) / 2 + (p.1 - 1) / 2) % 2
}

/// Where a grid point's label stands, and whether its place is an odd one.
proof fn lemma_place(a: int, b: int)
    ensures
        ({
            let i = a % 4 * 4 + b % 4;
            &&& 0 <= i < 16
            &&& i / 4 == a % 4
            &&& i % 4 == b % 4
            &&& (a % 4 + b % 4) % 2 == (a + b) % 2
        }),
{
    let (x, y) = (a % 4, b % 4);
    assert(a == 4 * (a / 4) + x && b == 4 * (b / 4) + y);
    assert(a + b == 2 * (2 * (a / 4) + 2 * (b / 4)) + (x + y));
}

proof fn lemma_label_oddness(t: Tables, p: (int, int))
    requires
        t.alternates(),
    ensures
        t.label_of(p) as int % 2 == oddness(p),
{
    reveal(oddness);
    let (a, b) = ((p.0 - 1) / 2, (p.1 - 1) / 2);
    let i = a % 4 * 4 + b % 4;
    lemma_place(a, b);
    assert(t.labels@[i] % 2 == (i / 4 + i % 4) % 2);
}

/// Steps of two show in a point's oddness.
proof fn lemma_stepped_oddness(u: (int, int), a: int, b: int)
    requires
        u.0 % 2 == 1,
        u.1 % 2 == 1,
    ensures
        ({
            let y = (u.0 + 2 * a, u.1 + 2 * b);
            &&& y.0 % 2 == 1 && y.1 % 2 == 1
            &&& oddness(y) == (oddness(u) + a + b) % 2
        }),
{
    reveal(oddness);
    let y = (u.0 + 2 * a, u.1 + 2 * b);
    assert((y.0 - 1) / 2 == (u.0 - 1) / 2 + a);
    assert((y.1 - 1) / 2 == (u.1 - 1) / 2 + b);
}

proof fn lemma_odd_pair(a: int, b: int, u: (int, int))
    requires
        u.0 == 2 * a + 1,
        u.1 == 2 * b + 1,
    ensures
        u.0 % 2 == 1,
        u.1 % 2 == 1,
        oddness(u) == (a + b) % 2,
{
    reveal(oddness);
}

/// A turn of a point of the quarter superconstellation shows in its oddness.
proof fn lemma_turned_oddness(v: (int, int), turn: int)
    requires
        v.0 % 4 == 1,
        v.1 % 4 == 1,
        0 <= turn < 4,
    ensures
        ({
            let u = turned(v, turn);
            &&& u.0 % 2 == 1 && u.1 % 2 == 1
            &&& oddness(u) == turn % 2
        }),
{
    let (a, b) = (v.0 / 4, v.1 / 4);
    let u = turned(v, turn);
    assert(v.0 == 4 * a + 1 && v.1 == 4 * b + 1);
    if turn == 0 {
        lemma_odd_pair(2 * a, 2 * b, u);
    } else if turn == 1 {
        lemma_odd_pair(2 * b, -2 * a - 1, u);
    } else if turn == 2 {
        lemma_odd_pair(-2 * a - 1, -2 * b - 1, u);
    } else {
        lemma_odd_pair(-2 * b - 1, 2 * a, u);
    }
}

/// A point turned and corrected can be sent, and its oddness is that of its turn
/// and its correction together.
proof fn lemma_sent_point(precoder: Precoder, v: (int, int), turn: int)
    requires
        precoder.wf(),
        precoder.within(SENT as int),
        v.0 % 4 == 1,
        v.1 % 4 == 1,
        -127 <= v.0 <= 127,
        -127 <= v.1 <= 127,
        0 <= turn < 4,
    ensures
        ({
            let y = precoder.corrected(turned(v, turn));
            let steps = precoder.predicted().steps;
            &&& sendable(y)
            &&& oddness(y) == (turn + (steps.0 + steps.1) * (precoder.grid_step as int / 2)) % 2
            &&& precoder.pushed(y).wf()
            &&& precoder.pushed(y).grid_step == precoder.grid_step
            &&& precoder.pushed(y).within(SENT as int)
        }),
{
    let u = turned(v, turn);
    let steps = precoder.predicted().steps;
    let (g, half) = (precoder.grid_step as int, precoder.grid_step as int / 2);
    lemma_corrected(precoder, u);
    lemma_turned_oddness(v, turn);
    lemma_stepped_oddness(u, steps.0 * half, steps.1 * half);
    assert(steps.0 * g == 2 * (steps.0 * half) && steps.1 * g == 2 * (steps.1 * half) && (steps.0
        + steps.1) * half == steps.0 * half + steps.1 * half) by (nonlinear_arith)
        requires
            g == 2 * half,
    ;
}

/// The parity of two labels is that of the turns and corrections behind them.
proof fn lemma_parity(z: int, i1: bool, odd: bool, first: int, second: int, all: int)
    requires
        0 <= z < 4,
        all == first + second,
    ensures
        ({
            let turn = (z + 2 * bit(i1) + bit(odd)) % 4;
            ((z + first) % 2 + (turn + second) % 2) % 2 == bit(odd != (all % 2 == 1))
        }),
{
}

/// The inputs of two labels are among those the code takes.
proof fn lemma_inputs(t: Tables, f: Framing, y0: (int, int), y1: (int, int))
    requires
        t.wf(f),
    ensures
        t.label_of(y0) < 8,
        t.label_of(y1) < 8,
        t.inputs_of(y0, y1) < 16,
        t.inputs_of(y0, y1) & t.inputs == t.inputs_of(y0, y1),
{
    let (a, b) = ((y0.0 - 1) / 2, (y0.1 - 1) / 2);
    let (c, d) = ((y1.0 - 1) / 2, (y1.1 - 1) / 2);
    lemma_place(a, b);
    lemma_place(c, d);
    assert(t.labels@[a % 4 * 4 + b % 4] < 8 && t.labels@[c % 4 * 4 + d % 4] < 8);
    let (conversion, inputs) = (
        t.conversions@[8 * t.label_of(y0) + t.label_of(y1)],
        t.inputs,
    );
    assert((conversion & inputs) & inputs == conversion & inputs && conversion & inputs <= inputs)
        by (bit_vector);
}

/// Every point of the quarter superconstellation is one more than a multiple of
/// four both ways.
proof fn lemma_point(t: Tables, f: Framing, label: int)
    requires
        t.wf(f),
        0 <= label,
    ensures
        ({
            let v = t.point_of(label);
            &&& v.0 % 4 == 1 && v.1 % 4 == 1
            &&& -127 <= v.0 <= 127 && -127 <= v.1 <= 127
        }),
{
    let l = if label < t.quarter@.len() {
        label
    } else {
        t.quarter@.len() - 1
    };
    assert(whole(t.quarter@[l]) == t.point_of(label));
}

/// The two points of a 4D symbol that is sent: both on the grid, and of the
/// parity that the trellis encoder's state and the bit inversions ask for.
proof fn lemma_encoded_points(
    at: Running,
    t: Tables,
    f: Framing,
    group: Group,
    rings: (nat, nat),
    state: u8,
    m: int,
)
    requires
        at.wf(),
        at.precoder.within(SENT as int),
        t.wf(f),
    ensures
        ({
            let e = at.encoded(t, f, group, rings, state, m);
            &&& sendable(e.y.0)
            &&& sendable(e.y.1)
            &&& e.next.wf()
            &&& e.next.precoder.within(SENT as int)
            &&& (oddness(e.y.0) + oddness(e.y.1)) % 2 == bit(
                t.outputs@[state as int] != t.inverted(f, m),
            )
        }),
{
    let e = at.encoded(t, f, group, rings, state, m);
    let z = at.turned_by(group);
    let width = pow2(f.q as nat);
    let (l0, l1) = (group.q.0 + rings.0 * width, group.q.1 + rings.1 * width);
    lemma_point(t, f, l0);
    lemma_point(t, f, l1);
    lemma_sent_point(at.precoder, t.point_of(l0), z);
    let between = at.precoder.pushed(e.y.0);
    let odd = (t.outputs@[state as int] != carried(at.precoder, between)) != t.inverted(f, m);
    let turn = (z + 2 * bit(group.i1) + bit(odd)) % 4;
    lemma_sent_point(between, t.point_of(l1), turn);
    let (a, b) = (at.precoder.predicted().steps, between.predicted().steps);
    let half = at.precoder.grid_step as int / 2;
    let (first, second) = ((a.0 + a.1) * half, (b.0 + b.1) * half);
    let all = (a.0 + a.1 + b.0 + b.1) * half;
    assert(all == first + second) by (nonlinear_arith)
        requires
            all == (a.0 + a.1 + b.0 + b.1) * half,
            first == (a.0 + a.1) * half,
            second == (b.0 + b.1) * half,
    ;
    assert(carried(at.precoder, between) == (all % 2 == 1)) by {
        reveal(carried);
    }
    lemma_parity(z, group.i1, odd, first, second, all);
}

/// The subset of two labels, by their parity and their inputs.
proof fn lemma_subset(
    t: Tables,
    f: Framing,
    y: ((int, int), (int, int)),
    state: int,
    inverted: bool,
)
    requires
        t.wf(f),
        t.alternates(),
        (oddness(y.0) + oddness(y.1)) % 2 == bit(t.outputs@[state] != inverted),
    ensures
        subset_of(t, t.label_of(y.0) as int, t.label_of(y.1) as int) == subset_at(
            t,
            inverted,
            state,
            t.inputs_of(y.0, y.1) as int,
        ),
{
    lemma_label_oddness(t, y.0);
    lemma_label_oddness(t, y.1);
}

/// A 4D symbol that is sent: its points are on the grid, its labels are in the
/// subset that the trellis encoder's state allows, and the encoder stays within
/// reach.
proof fn lemma_encoded(
    at: Running,
    t: Tables,
    f: Framing,
    group: Group,
    rings: (nat, nat),
    state: u8,
    m: int,
)
    requires
        at.wf(),
        at.precoder.within(SENT as int),
        t.wf(f),
        t.alternates(),
        state < t.states(),
    ensures
        ({
            let e = at.encoded(t, f, group, rings, state, m);
            let inputs = t.inputs_of(e.y.0, e.y.1) as int;
            &&& sendable(e.y.0)
            &&& sendable(e.y.1)
            &&& e.next.wf()
            &&& e.next.precoder.within(SENT as int)
            &&& e.state == t.nexts@[16 * state + inputs]
            &&& e.state < t.states()
            &&& subset_of(t, t.label_of(e.y.0) as int, t.label_of(e.y.1) as int) == subset_at(
                t,
                t.inverted(f, m),
                state as int,
                inputs,
            )
        }),
{
    let e = at.encoded(t, f, group, rings, state, m);
    lemma_encoded_points(at, t, f, group, rings, state, m);
    lemma_subset(t, f, e.y, state as int, t.inverted(f, m));
    lemma_inputs(t, f, e.y.0, e.y.1);
}

/// What a 4D symbol is made of: its bits and its two rings.
pub struct Symbol {
    pub group: Group,
    pub rings: (nat, nat),
}

impl Symbol {
    /// Its points are in the constellation.
    pub open spec fn fits(self, f: Framing) -> bool {
        &&& self.group.q.0 < pow2(f.q as nat)
        &&& self.group.q.1 < pow2(f.q as nat)
        &&& self.rings.0 < f.m
        &&& self.rings.1 < f.m
    }
}

/// Where the sending end has got to.
pub struct Along {
    pub running: Running,
    pub state: u8,
}

impl Along {
    pub open spec fn wf(self, t: Tables) -> bool {
        &&& self.running.wf()
        &&& self.running.precoder.within(SENT as int)
        &&& self.state < t.states()
    }

    /// A 4D symbol gone out, the `m`th since the start of B1.
    pub open spec fn sends(self, t: Tables, f: Framing, symbol: Symbol, m: int) -> Encoded {
        self.running.encoded(t, f, symbol.group, symbol.rings, self.state, m)
    }

    /// Where it is once so many 4D symbols have gone out.
    pub open spec fn after(self, t: Tables, f: Framing, symbols: Seq<Symbol>, n: nat) -> Along
        decreases n,
    {
        if n == 0 {
            self
        } else {
            let sent = self.after(t, f, symbols, (n - 1) as nat).sends(
                t,
                f,
                symbols[n - 1],
                n - 1,
            );
            Along { running: sent.next, state: sent.state }
        }
    }

    /// The two points of the `m`th 4D symbol.
    pub open spec fn points(self, t: Tables, f: Framing, symbols: Seq<Symbol>, m: int) -> (
        (int, int),
        (int, int),
    ) {
        self.after(t, f, symbols, m as nat).sends(t, f, symbols[m], m).y
    }
}

impl Decoding {
    /// So many 4D symbols received where they were sent.
    pub open spec fn fed_clean(
        self,
        t: Tables,
        from: Along,
        symbols: Seq<Symbol>,
        n: nat,
    ) -> Decoding
        decreases n,
    {
        if n == 0 {
            self
        } else {
            let y = from.points(t, self.framing, symbols, n - 1);
            self.fed_clean(t, from, symbols, (n - 1) as nat).fed(t, clean(y.0), clean(y.1))
        }
    }

    /// At the start of B1, with the far end where it starts.
    pub open spec fn fresh(self, t: Tables, from: Along) -> bool {
        &&& self.metrics.len() == t.states()
        &&& forall|s: int|
            0 <= s < t.states() ==> #[trigger] self.metrics[s] == (if s == from.state {
                Some(0u64)
            } else {
                None
            })
        &&& self.stages.len() == 0
        &&& self.received == 0
        &&& self.decided == 0
        &&& self.running == from.running
        &&& self.groups.len() == 4
        &&& self.rings.len() == 8
        &&& self.outside == 0
    }
}

/// Two ends that begin as they are made begin in step: an encoder and a decoder
/// at the start of B1, made for the same line, are where the laws below ask them
/// to be.
pub proof fn two_ends_begin_in_step(e: Encoder, d: Decoder)
    requires
        e.wf(),
        d.tables == e.tables,
        d.wf(),
        e.state == 0,
        e.running == d.running,
        forall|s: int|
            0 <= s < d.tables.states() ==> #[trigger] d.metrics@[s] == (if s == 0 {
                Some(0u64)
            } else {
                None
            }),
        d.stages@.len() == 0,
        d.received == 0,
        d.outside == 0,
    ensures
        e@.along().wf(e.tables),
        d@.fresh(d.tables, e@.along()),
{
}

proof fn lemma_along(t: Tables, f: Framing, from: Along, symbols: Seq<Symbol>, n: nat)
    requires
        t.wf(f),
        t.alternates(),
        from.wf(t),
    ensures
        from.after(t, f, symbols, n).wf(t),
    decreases n,
{
    if n > 0 {
        lemma_along(t, f, from, symbols, (n - 1) as nat);
        let at = from.after(t, f, symbols, (n - 1) as nat);
        let symbol = symbols[n - 1];
        lemma_encoded(at.running, t, f, symbol.group, symbol.rings, at.state, n - 1);
    }
}

/// The way into the state the sending end reached is the way it went, between
/// the points it sent.
pub open spec fn follows(
    stage: Held,
    t: Tables,
    f: Framing,
    from: Along,
    symbols: Seq<Symbol>,
    m: int,
) -> bool {
    let (before, after) = (
        from.after(t, f, symbols, m as nat),
        from.after(t, f, symbols, (m + 1) as nat),
    );
    let y = from.points(t, f, symbols, m);
    let labels = (t.label_of(y.0), t.label_of(y.1));
    &&& stage.back[after.state as int] == (Back { from: before.state, labels })
    &&& whole(stage.first[labels.0 as int].point) == y.0
    &&& whole(stage.second[labels.1 as int].point) == y.1
}

/// Two clean points into the trellis: the state the sending end has reached is
/// still the only one that costs nothing, and the way there is the way it went.
proof fn lemma_stepped(
    d: Decoding,
    t: Tables,
    from: Along,
    symbols: Seq<Symbol>,
    n: nat,
    most: int,
)
    requires
        t.wf(d.framing),
        t.alternates(),
        from.wf(t),
        d.received == n,
        d.metrics.len() == t.states(),
        alone(d.metrics, from.after(t, d.framing, symbols, n).state as int, most),
        0 <= most < 0x4000_0000_0000_0000,
    ensures
        ({
            let f = d.framing;
            let y = from.points(t, f, symbols, n as int);
            let next = d.stepped(t, clean(y.0), clean(y.1));
            &&& next.metrics.len() == t.states()
            &&& alone(
                next.metrics,
                from.after(t, f, symbols, n + 1).state as int,
                most + FAR,
            )
            &&& follows(next.stages.last(), t, f, from, symbols, n as int)
        }),
{
    let f = d.framing;
    let at = from.after(t, f, symbols, n);
    let symbol = symbols[n as int];
    lemma_along(t, f, from, symbols, n);
    lemma_encoded(at.running, t, f, symbol.group, symbol.rings, at.state, n as int);
    let y = from.points(t, f, symbols, n as int);
    let inputs = t.inputs_of(y.0, y.1) as int;
    let labels = (t.label_of(y.0), t.label_of(y.1));
    lemma_inputs(t, f, y.0, y.1);
    let (first, second) = (nears(t, clean(y.0)), nears(t, clean(y.1)));
    lemma_marked(t, y.0);
    lemma_marked(t, y.1);
    let best = pairs_of(t, first, second);
    let inversion = t.inverted(f, n as int);
    let subset = subset_at(t, inversion, at.state as int, inputs);
    assert(pair_alone(best, subset, labels)) by {
        assert forall|s: int| 0 <= s < 32 implies #[trigger] best[s] == pair_of(
            t,
            first,
            second,
            s,
        ) && (s == subset ==> best[s] == Some(Pair { labels, off: 0 })) && (s != subset ==> (
        best[s] matches Some(pair) ==> 0 < pair.off <= FAR)) by {
            lemma_paired(t, first, second, labels, s);
        }
    }
    let costs = d.costs(t, clean(y.0), clean(y.1));
    let to = from.after(t, f, symbols, n + 1).state as int;
    assert(to == t.nexts@[16 * at.state + inputs]);
    lemma_survived(t, d.metrics, best, inversion, at.state as int, inputs, labels, most);
    lemma_least(costs, to, most + FAR, costs.len());
    assert(lowered(costs, 0) =~= costs);
}

/// The costs and the ways back of one step, of every state.
proof fn lemma_survived(
    t: Tables,
    metrics: Seq<Option<u64>>,
    best: Seq<Option<Pair>>,
    inversion: bool,
    state: int,
    inputs: int,
    labels: (u8, u8),
    most: int,
)
    requires
        well_coded(t),
        metrics.len() == t.states(),
        alone(metrics, state, most),
        0 <= most < 0x4000_0000_0000_0000,
        0 <= inputs < 16,
        (inputs as u8) & t.inputs == inputs as u8,
        pair_alone(best, subset_at(t, inversion, state, inputs), labels),
    ensures
        ({
            let to = t.nexts@[16 * state + inputs] as int;
            &&& alone(costs_of(t, metrics, best, inversion), to, most + FAR)
            &&& backs_of(t, metrics, best, inversion)[to] == (Back { from: state as u8, labels })
        }),
{
    let to = t.nexts@[16 * state + inputs] as int;
    assert forall|s: int| 0 <= s < t.states() implies ({
        let cost = #[trigger] costs_of(t, metrics, best, inversion)[s];
        &&& s == to ==> cost == Some(0u64)
        &&& s != to ==> (cost matches Some(c) ==> 0 < c <= most + FAR)
    }) by {
        lemma_reached(t, metrics, best, inversion, state, inputs, labels, most, s);
    }
    lemma_reached(t, metrics, best, inversion, state, inputs, labels, most, to);
}

/// Traced back along the way the sending end went, the oldest stage held leads
/// to where it was then.
proof fn lemma_traced(
    stages: Seq<Held>,
    t: Tables,
    f: Framing,
    from: Along,
    symbols: Seq<Symbol>,
    m: nat,
)
    requires
        stages.len() > 0,
        forall|i: int|
            0 <= i < stages.len() ==> follows(
                #[trigger] stages[i],
                t,
                f,
                from,
                symbols,
                m + i,
            ),
    ensures
        ({
            let y = from.points(t, f, symbols, m as int);
            traced(stages, from.after(t, f, symbols, m + stages.len()).state as int) == (
                from.after(t, f, symbols, m).state as int,
                (t.label_of(y.0), t.label_of(y.1)),
            )
        }),
    decreases stages.len(),
{
    let last = stages.len() - 1;
    assert(follows(stages[last], t, f, from, symbols, m + last));
    if stages.len() > 1 {
        let before = stages.drop_last();
        assert forall|i: int| 0 <= i < before.len() implies follows(
            #[trigger] before[i],
            t,
            f,
            from,
            symbols,
            m + i,
        ) by {
            assert(before[i] == stages[i]);
        }
        lemma_traced(before, t, f, from, symbols, m);
    }
}

impl Decoding {
    /// The decoder holds what the sending end sent, once so many 4D symbols have
    /// been received: the last of them in the trellis, the rest decided.
    pub open spec fn in_step(self, t: Tables, from: Along, symbols: Seq<Symbol>, n: nat) -> bool {
        let f = self.framing;
        &&& self.received == n
        &&& self.decided == if n <= 40 {
            0
        } else {
            n - 40
        }
        &&& self.decided + self.stages.len() == n
        &&& self.metrics.len() == t.states()
        &&& alone(self.metrics, from.after(t, f, symbols, n).state as int, n * FAR)
        &&& forall|i: int|
            0 <= i < self.stages.len() ==> follows(
                #[trigger] self.stages[i],
                t,
                f,
                from,
                symbols,
                self.decided + i,
            )
        &&& self.running == from.after(t, f, symbols, self.decided).running
        &&& self.outside == 0
        &&& self.holds(symbols)
    }

    /// The last four decided are as they were sent.
    pub open spec fn holds(self, symbols: Seq<Symbol>) -> bool {
        &&& self.groups.len() == 4
        &&& self.rings.len() == 8
        &&& forall|m: int|
            0 <= m < self.decided && self.decided <= m + 4 ==> {
                let symbol = #[trigger] symbols[m];
                &&& self.groups[m % 4] == symbol.group
                &&& self.rings[2 * (m % 4)] == symbol.rings.0
                &&& self.rings[2 * (m % 4) + 1] == symbol.rings.1
            }
    }
}

/// A 4D symbol decided where it was sent.
proof fn lemma_undone(d: Decoding, t: Tables, from: Along, symbols: Seq<Symbol>)
    requires
        d.framing.wf(),
        t.wf(d.framing),
        t.alternates(),
        from.wf(t),
        d.running == from.after(t, d.framing, symbols, d.decided).running,
        d.outside == 0,
        d.holds(symbols),
        symbols[d.decided as int].fits(d.framing),
    ensures
        ({
            let y = from.points(t, d.framing, symbols, d.decided as int);
            let state = from.after(t, d.framing, symbols, d.decided).state;
            let next = d.undone(t, y, state);
            &&& next.running == from.after(t, d.framing, symbols, d.decided + 1).running
            &&& next.outside == 0
            &&& next.holds(symbols)
        }),
{
    let f = d.framing;
    let at = from.after(t, f, symbols, d.decided);
    let symbol = symbols[d.decided as int];
    lemma_along(t, f, from, symbols, d.decided);
    a_4d_symbol_is_undone(
        at.running,
        t,
        f,
        symbol.group,
        symbol.rings,
        at.state,
        d.decided as int,
    );
    let y = from.points(t, f, symbols, d.decided as int);
    let next = d.undone(t, y, at.state);
    let j = d.decided as int % 4;
    assert forall|m: int| 0 <= m < next.decided && next.decided <= m + 4 implies ({
        let symbol = #[trigger] symbols[m];
        &&& next.groups[m % 4] == symbol.group
        &&& next.rings[2 * (m % 4)] == symbol.rings.0
        &&& next.rings[2 * (m % 4) + 1] == symbol.rings.1
    }) by {
        if m < d.decided {
            assert(m % 4 != j);
        }
    }
}

/// One more 4D symbol keeps the decoder in step.
proof fn lemma_fed(d: Decoding, t: Tables, from: Along, symbols: Seq<Symbol>, n: nat)
    requires
        d.framing.wf(),
        t.wf(d.framing),
        t.alternates(),
        from.wf(t),
        d.in_step(t, from, symbols, n),
        n < MOST,
        n < symbols.len(),
        forall|m: int| 0 <= m < symbols.len() ==> (#[trigger] symbols[m]).fits(d.framing),
    ensures
        ({
            let y = from.points(t, d.framing, symbols, n as int);
            let next = d.fed(t, clean(y.0), clean(y.1));
            next.framing == d.framing && next.in_step(t, from, symbols, n + 1)
        }),
{
    let f = d.framing;
    let y = from.points(t, f, symbols, n as int);
    lemma_stepped(d, t, from, symbols, n, n * FAR);
    let stepped = d.stepped(t, clean(y.0), clean(y.1));
    assert((n + 1) * FAR == n * FAR + FAR);
    assert forall|i: int| 0 <= i < stepped.stages.len() implies follows(
        #[trigger] stepped.stages[i],
        t,
        f,
        from,
        symbols,
        stepped.decided + i,
    ) by {
        if i < d.stages.len() {
            assert(stepped.stages[i] == d.stages[i]);
        }
    }
    if stepped.stages.len() > 40 {
        let k = stepped.decided;
        let end = from.after(t, f, symbols, n + 1).state as int;
        lemma_least(stepped.metrics, end, (n + 1) * FAR, stepped.metrics.len());
        lemma_traced(stepped.stages, t, f, from, symbols, k);
        assert(follows(stepped.stages[0], t, f, from, symbols, k as int));
        let left = Decoding { stages: stepped.stages.skip(1), ..stepped };
        lemma_along(t, f, from, symbols, k);
        lemma_undone(left, t, from, symbols);
        let next = stepped.oldest_decided(t);
        assert(next == left.undone(
            t,
            from.points(t, f, symbols, k as int),
            from.after(t, f, symbols, k).state,
        ));
        assert forall|i: int| 0 <= i < next.stages.len() implies follows(
            #[trigger] next.stages[i],
            t,
            f,
            from,
            symbols,
            next.decided + i,
        ) by {
            assert(next.stages[i] == stepped.stages[i + 1]);
        }
    }
}

/// What is sent is decided: 4D symbols received where they were sent are decided
/// in turn once forty more have come, each with the bits and the rings it was
/// made of, none outside the constellation, and the decoder is left where the
/// encoder was.
pub proof fn what_is_sent_is_decided(
    d: Decoding,
    t: Tables,
    from: Along,
    symbols: Seq<Symbol>,
    n: nat,
)
    requires
        d.framing.wf(),
        t.wf(d.framing),
        t.alternates(),
        from.wf(t),
        d.fresh(t, from),
        n <= symbols.len(),
        n <= MOST,
        forall|m: int| 0 <= m < symbols.len() ==> (#[trigger] symbols[m]).fits(d.framing),
    ensures
        d.fed_clean(t, from, symbols, n).framing == d.framing,
        d.fed_clean(t, from, symbols, n).in_step(t, from, symbols, n),
    decreases n,
{
    if n == 0 {
        assert(alone(d.metrics, from.state as int, 0));
    } else {
        what_is_sent_is_decided(d, t, from, symbols, (n - 1) as nat);
        lemma_fed(
            d.fed_clean(t, from, symbols, (n - 1) as nat),
            t,
            from,
            symbols,
            (n - 1) as nat,
        );
    }
}

/// What leaves is the point less what the precoder predicts that the channel
/// adds to it: through such a channel the point arrives.
pub proof fn the_channel_gives_the_point_back(precoder: Precoder, u: (int, int))
    requires
        precoder.wf(),
        precoder.within(SENT as int),
        -127 <= u.0 <= 127,
        -127 <= u.1 <= 127,
    ensures
        ({
            let y = precoder.corrected(u);
            let (x, p) = (precoder.pushed(y).x@[0], precoder.predicted().p);
            x.0 + p.0 == clean(y).0 && x.1 + p.1 == clean(y).1
        }),
{
    lemma_corrected(precoder, u);
    lemma_predicted(precoder, SENT as int);
}

/// A mapping frame to be sent: its data, and the rings that its bits choose.
pub struct Frame {
    pub data: Seq<bool>,
    pub rings: Seq<usize>,
}

impl Frame {
    /// It has the bits and the rings that the `j`th frame since B1 takes.
    pub open spec fn fits(self, f: Framing, j: int) -> bool {
        let high = f.is_high(j % (f.p as int));
        &&& occurs(f, high)
        &&& self.data.len() == f.bits_of(high)
        &&& self.rings.len() == 8
        &&& forall|i: int| 0 <= i < 8 ==> (#[trigger] self.rings[i]) < f.m
    }
}

impl Sending {
    pub open spec fn along(self) -> Along {
        Along { running: self.running, state: self.state }
    }

    /// A frame gone out whole.
    pub open spec fn framed(self, t: Tables, frame: Frame) -> Sending {
        let gone = self.begun(frame.data).gone(t, frame.rings, 4);
        Sending { frame: gone.frame + 1, ..gone }
    }

    /// So many frames gone out.
    pub open spec fn framed_all(self, t: Tables, frames: Seq<Frame>, n: nat) -> Sending
        decreases n,
    {
        if n == 0 {
            self
        } else {
            self.framed_all(t, frames, (n - 1) as nat).framed(t, frames[n - 1])
        }
    }

    /// The `m`th 4D symbol of those frames.
    pub open spec fn symbol(self, t: Tables, frames: Seq<Frame>, m: int) -> Symbol {
        let frame = frames[m / 4];
        let begun = self.framed_all(t, frames, (m / 4) as nat).begun(frame.data);
        let (a, b) = (frame.rings[2 * (m % 4)], frame.rings[2 * (m % 4) + 1]);
        Symbol { group: begun.groups[m % 4], rings: (a as nat, b as nat) }
    }

    pub open spec fn symbols(self, t: Tables, frames: Seq<Frame>) -> Seq<Symbol> {
        Seq::new(4 * frames.len(), |m: int| self.symbol(t, frames, m))
    }
}

/// Within a frame the sending end moves as its symbols take it.
proof fn lemma_gone(
    s: Sending,
    t: Tables,
    from: Along,
    symbols: Seq<Symbol>,
    rings: Seq<usize>,
    j: nat,
)
    requires
        j <= 4,
        4 * s.frame + 4 <= symbols.len(),
        s.along() == from.after(t, s.params.framing, symbols, 4 * s.frame),
        forall|i: int|
            0 <= i < 4 ==> {
                let symbol = #[trigger] symbols[4 * s.frame + i];
                &&& symbol.group == s.groups[i]
                &&& symbol.rings == (rings[2 * i] as nat, rings[2 * i + 1] as nat)
            },
    ensures
        s.gone(t, rings, j).along() == from.after(t, s.params.framing, symbols, 4 * s.frame + j),
        s.gone(t, rings, j) == (Sending {
            running: s.gone(t, rings, j).running,
            state: s.gone(t, rings, j).state,
            ..s
        }),
    decreases j,
{
    if j > 0 {
        lemma_gone(s, t, from, symbols, rings, (j - 1) as nat);
        let symbol = symbols[4 * s.frame + (j - 1)];
        assert(symbol.group == s.groups[j - 1]);
    }
}

/// Frame by frame the sending end moves as its symbols take it.
proof fn lemma_framed(s: Sending, t: Tables, frames: Seq<Frame>, n: nat)
    requires
        s.frame == 0,
        n <= frames.len(),
    ensures
        ({
            let after = s.framed_all(t, frames, n);
            &&& after.frame == n
            &&& after.params == s.params
            &&& after.scrambler.taps() == s.scrambler.taps()
            &&& after.along() == s.along().after(
                t,
                s.params.framing,
                s.symbols(t, frames),
                4 * n,
            )
        }),
    decreases n,
{
    if n > 0 {
        let k = (n - 1) as nat;
        lemma_framed(s, t, frames, k);
        let begun = s.framed_all(t, frames, k).begun(frames[n - 1].data);
        let symbols = s.symbols(t, frames);
        assert forall|i: int| 0 <= i < 4 implies ({
            let symbol = #[trigger] symbols[4 * begun.frame + i];
            let rings = frames[n - 1].rings;
            &&& symbol.group == begun.groups[i]
            &&& symbol.rings == (rings[2 * i] as nat, rings[2 * i + 1] as nat)
        }) by {
            let m = 4 * begun.frame + i;
            assert(m / 4 == k && m % 4 == i);
            assert(symbols[m] == s.symbol(t, frames, m));
        }
        lemma_gone(begun, t, s.along(), symbols, frames[n - 1].rings, 4);
    }
}

/// The symbols of frames that fit are in the constellation.
proof fn lemma_symbols_fit(s: Sending, t: Tables, frames: Seq<Frame>, m: int)
    requires
        s.params.framing.wf(),
        s.frame == 0,
        forall|j: int|
            0 <= j < frames.len() ==> (#[trigger] frames[j]).fits(s.params.framing, j),
        0 <= m < 4 * frames.len(),
    ensures
        s.symbols(t, frames)[m].fits(s.params.framing),
{
    let f = s.params.framing;
    let (k, i) = (m / 4, m % 4);
    lemma_framed(s, t, frames, k as nat);
    let before = s.framed_all(t, frames, k as nat);
    assert(frames[k].fits(f, k));
    let bits = scrambled(before.scrambler.register, before.scrambler.taps(), frames[k].data);
    lemma_scrambled_len(before.scrambler.register, before.scrambler.taps(), frames[k].data);
    lemma_groups_fit(f, before.high(), bits, i);
    assert(frames[k].rings[2 * i] < f.m && frames[k].rings[2 * i + 1] < f.m);
}

/// What is encoded is decoded: frames sent from the start of B1 and received
/// where they were sent come back in turn. Once forty 4D symbols more than its
/// own have come, a frame's rings are those that were sent, its groups and the
/// bits that chose its rings join to its scrambled bits, and those give its data
/// back to a descrambler that has heard the frames before it.
pub proof fn what_is_encoded_is_decoded(
    s: Sending,
    d: Decoding,
    t: Tables,
    frames: Seq<Frame>,
    j: nat,
)
    requires
        d.framing == s.params.framing,
        d.framing.wf(),
        t.wf(d.framing),
        t.alternates(),
        s.frame == 0,
        s.scrambler.wf(),
        s.along().wf(t),
        d.fresh(t, s.along()),
        forall|i: int|
            0 <= i < frames.len() ==> (#[trigger] frames[i]).fits(s.params.framing, i),
        j + 11 <= frames.len(),
        4 * (j + 11) <= MOST,
    ensures
        ({
            let f = d.framing;
            let got = d.fed_clean(t, s.along(), s.symbols(t, frames), 4 * (j + 11));
            let before = s.framed_all(t, frames, j);
            let (register, taps) = (before.scrambler.register, s.scrambler.taps());
            let data = frames[j as int].data;
            let bits = joined(f, got.high(), before.choosing(data), got.groups);
            &&& got.decided == 4 * (j + 1)
            &&& got.outside == 0
            &&& got.finished() == frames[j as int].rings
            &&& bits == scrambled(register, taps, data)
            &&& descrambled(register, taps, bits) == data
            &&& s.framed_all(t, frames, j + 1).scrambler.register == shifted_in_all(register, bits)
        }),
{
    let f = d.framing;
    let symbols = s.symbols(t, frames);
    assert forall|m: int| 0 <= m < symbols.len() implies (#[trigger] symbols[m]).fits(f) by {
        lemma_symbols_fit(s, t, frames, m);
    }
    what_is_sent_is_decided(d, t, s.along(), symbols, 4 * (j + 11));
    lemma_framed(s, t, frames, j);
    lemma_framed(s, t, frames, j + 1);
    let got = d.fed_clean(t, s.along(), symbols, 4 * (j + 11));
    let before = s.framed_all(t, frames, j);
    let frame = frames[j as int];
    let begun = before.begun(frame.data);
    let high = before.high();
    let (register, taps) = (before.scrambler.register, s.scrambler.taps());
    let bits = scrambled(register, taps, frame.data);
    assert(got.high() == high) by {
        assert(got.decided / 4 - 1 == j);
    }
    assert(frame.fits(f, j as int));
    lemma_scrambled_len(register, taps, frame.data);
    let groups = Seq::new(4, |i: int| group_of(f, high, bits, i));
    lemma_held(got, s, t, frames, j);
    assert(got.groups =~= groups);
    a_frame_comes_back_from_its_split(f, high, bits);
    assert(got.finished() =~= frame.rings);
    assert(descrambled(register, taps, bits) =~= frame.data) by {
        assert forall|i: int| 0 <= i < frame.data.len() implies descrambled(
            register,
            taps,
            bits,
        )[i] == frame.data[i] by {
            descrambling_undoes_scrambling(register, register, taps, frame.data, i);
        }
    }
    lemma_gone_scrambler(begun, t, frame.rings, 4);
}

/// The groups and rings held are those of the frame.
proof fn lemma_held(got: Decoding, s: Sending, t: Tables, frames: Seq<Frame>, j: nat)
    requires
        j < frames.len(),
        got.decided == 4 * (j + 1),
        got.holds(s.symbols(t, frames)),
        frames[j as int].rings.len() == 8,
    ensures
        ({
            let begun = s.framed_all(t, frames, j).begun(frames[j as int].data);
            &&& forall|i: int| 0 <= i < 4 ==> #[trigger] got.groups[i] == begun.groups[i]
            &&& got.rings == frames[j as int].rings
        }),
{
    let symbols = s.symbols(t, frames);
    let begun = s.framed_all(t, frames, j).begun(frames[j as int].data);
    let rings = frames[j as int].rings;
    assert forall|i: int| 0 <= i < 4 implies #[trigger] got.groups[i] == begun.groups[i]
        && got.rings[2 * i] == rings[2 * i] && got.rings[2 * i + 1] == rings[2 * i + 1] by {
        let m = 4 * j + i;
        assert(m / 4 == j && m % 4 == i);
        assert(symbols[m] == s.symbol(t, frames, m));
    }
    assert forall|i: int| 0 <= i < 8 implies #[trigger] got.rings[i] == rings[i] by {
        let k = i / 2;
        assert(got.groups[k] == begun.groups[k]);
        assert(i == 2 * k || i == 2 * k + 1);
    }
    assert(got.rings =~= rings);
}

/// Sending a frame's symbols leaves the scrambler as it is.
proof fn lemma_gone_scrambler(s: Sending, t: Tables, rings: Seq<usize>, j: nat)
    ensures
        s.gone(t, rings, j).scrambler == s.scrambler,
    decreases j,
{
    if j > 0 {
        lemma_gone_scrambler(s, t, rings, (j - 1) as nat);
    }
}

} // verus!
