//! The trellis-coded alternative at 9600 bit/s.
//!
//! Four information bits per symbol, on thirty-two points, with a fifth bit Y0
//! generated from the two differentially encoded ones and three delay elements.
//! The redundant bit buys back more than the larger constellation costs: the
//! thirty-two points sit as close as d^2 = 2, but the four points sharing any
//! one Y0 Y1 Y2 are d^2 = 16 apart, and a decoder that follows the code's own
//! state cannot be pushed off a path by less than that.
use std::collections::VecDeque;
use vstd::prelude::*;

verus! {

/// Differential quadrant coding.
///
/// Indexed by `[Q1 Q2][previous Y1 Y2]`, giving `Y1 Y2`.
pub const DIFFERENTIAL: [[u8; 4]; 4] = [[0, 1, 2, 3], [1, 0, 3, 2], [2, 3, 1, 0], [3, 2, 0, 1]];

/// The thirty-two signal states, indexed by Y0 Y1 Y2 Q3 Q4 with Y0 most
/// significant. The mean power is 10, the same as the four-point and
/// sixteen-point constellations have.
pub const POINTS: [(i32, i32); 32] = [
    (-4, 1), (0, -3), (0, 1), (4, 1),
    (4, -1), (0, 3), (0, -1), (-4, -1),
    (-2, 3), (-2, -1), (2, 3), (2, -1),
    (2, -3), (2, 1), (-2, -3), (-2, 1),
    (-3, -2), (1, -2), (-3, 2), (1, 2),
    (3, 2), (-1, 2), (3, -2), (-1, -2),
    (1, 4), (-3, 0), (1, 0), (1, -4),
    (-1, -4), (3, 0), (-1, 0), (-1, 4),
];

/// The point a code names, as a value.
#[verifier::opaque]
pub open spec fn named(code: int) -> (int, int) {
    (POINTS@[code].0 as int, POINTS@[code].1 as int)
}

/// The point a five-bit code names.
pub fn point(code: usize) -> (p: (i32, i32))
    ensures
        (p.0 as int, p.1 as int) == named(code as int % 32),
{
    proof {
        reveal(named);
    }
    POINTS[code % 32]
}

/// Every point is used exactly once.
pub proof fn the_points_are_distinct(a: int, b: int)
    requires
        0 <= a < 32,
        0 <= b < 32,
        named(a) == named(b),
    ensures
        a == b,
{
    reveal(named);
}

/// How many states the code has: three delay elements.
pub const STATES: usize = 8;

/// What the three delay elements of the convolutional encoder hold.
#[derive(Debug, Clone, Copy, PartialEq, Eq, Structural)]
pub struct State {
    pub t1: bool,
    pub t2: bool,
    pub t3: bool,
}

pub open spec fn one(bit: bool) -> int {
    if bit {
        1
    } else {
        0
    }
}

pub open spec fn packed(s: State) -> int {
    4 * one(s.t1) + 2 * one(s.t2) + one(s.t3)
}

pub open spec fn unpacked(n: int) -> State {
    State { t1: n / 4 % 2 == 1, t2: n / 2 % 2 == 1, t3: n % 2 == 1 }
}

fn number(bit: bool) -> (n: usize)
    ensures
        n == one(bit),
{
    if bit {
        1
    } else {
        0
    }
}

pub fn pack(s: State) -> (n: usize)
    ensures
        n == packed(s),
        n < 8,
{
    4 * number(s.t1) + 2 * number(s.t2) + number(s.t3)
}

pub fn unpack(n: usize) -> (s: State)
    ensures
        s == unpacked(n as int),
        n < 8 ==> packed(s) == n,
{
    State { t1: n / 4 % 2 == 1, t2: n / 2 % 2 == 1, t3: n % 2 == 1 }
}

/// The state after one symbol.
///
/// The main row is `T1 -> + -> + -> T2 -> + -> + -> T3`, with Y0 taken from T3's
/// output and carried back round to T1's input; two AND terms make the code not
/// linear.
pub open spec fn next_state(s: State, y1: bool, y2: bool) -> State {
    let w = s.t2 != y2;
    State { t1: s.t3, t2: ((s.t1 != y1) != y2) != (s.t3 && w), t3: w != (y1 && s.t3) }
}

/// The convolutional encoder, one symbol: the redundant bit for this symbol and
/// the state that follows. Y0 is the delay element's current contents, so it is
/// decided before the inputs of this symbol touch anything.
pub fn advance(s: State, y1: bool, y2: bool) -> (advanced: (bool, State))
    ensures
        advanced.0 == s.t3,
        advanced.1 == next_state(s, y1, y2),
{
    let w = s.t2 != y2;
    let t2 = ((s.t1 != y1) != y2) != (s.t3 && w);
    (s.t3, State { t1: s.t3, t2, t3: w != (y1 && s.t3) })
}

/// The inputs that lead from one state to another whose first element is the
/// last of the one left.
pub open spec fn inputs_between(from: State, to: State) -> (bool, bool) {
    let y1 = if from.t3 {
        (from.t1 != from.t2) != to.t2
    } else {
        (from.t1 != to.t2) != (from.t2 != to.t3)
    };
    (y1, (from.t2 != to.t3) != (from.t3 && y1))
}

/// Each state leads to exactly the four states whose first delay element holds
/// what its last one did, each by one pair of inputs, so two symbols lead from
/// any state to any other.
pub proof fn each_state_fans_out_to_four(from: State, to: State, y1: bool, y2: bool)
    ensures
        from.t3 == to.t1 ==> next_state(
            from,
            inputs_between(from, to).0,
            inputs_between(from, to).1,
        ) == to,
        next_state(from, y1, y2) == to ==> from.t3 == to.t1 && inputs_between(from, to) == (y1, y2),
{
}

/// A quadrant differentially encoded against the one before.
#[verifier::opaque]
pub open spec fn encoded(q: int, previous: int) -> int {
    DIFFERENTIAL@[q]@[previous] as int
}

/// Every Q1 Q2 permutes the four quadrants, so the coding is undone by the
/// change between one symbol and the next; and no change is 0 0.
pub proof fn the_differential_coding_is_reversible(q: int, r: int, previous: int)
    requires
        0 <= q < 4,
        0 <= r < 4,
        0 <= previous < 4,
    ensures
        0 <= encoded(q, previous) < 4,
        encoded(q, previous) == encoded(r, previous) ==> q == r,
        encoded(0, previous) == previous,
{
    reveal(encoded);
}

/// Turns groups of four scrambled bits into signal points.
#[derive(Debug, Clone, Copy, PartialEq, Eq, Structural)]
pub struct Encoder {
    /// Y1 Y2 of the previous group, which the next is encoded against.
    pub previous: u8,
    pub state: State,
}

/// Q1 Q2 of a group.
pub open spec fn pair_of(q: Seq<bool>) -> int {
    2 * one(q[0]) + one(q[1])
}

impl Encoder {
    pub open spec fn fresh() -> Encoder {
        Encoder { previous: 0, state: State { t1: false, t2: false, t3: false } }
    }

    pub open spec fn wf(self) -> bool {
        self.previous < 4
    }

    /// Y1 Y2 of the next group.
    pub open spec fn quadrant(self, q: Seq<bool>) -> int {
        encoded(pair_of(q), self.previous as int)
    }

    /// The code of the next group's point.
    pub open spec fn code(self, q: Seq<bool>) -> int {
        16 * one(self.state.t3) + 4 * self.quadrant(q) + 2 * one(q[2]) + one(q[3])
    }

    pub open spec fn after(self, q: Seq<bool>) -> Encoder {
        let y = self.quadrant(q);
        Encoder { previous: y as u8, state: next_state(self.state, y / 2 == 1, y % 2 == 1) }
    }

    pub fn new() -> (encoder: Encoder)
        ensures
            encoder == Encoder::fresh(),
            encoder.wf(),
    {
        Encoder { previous: 0, state: State { t1: false, t2: false, t3: false } }
    }

    /// Start again from the state a fresh connection has.
    pub fn reset(&mut self)
        ensures
            *final(self) == Encoder::fresh(),
    {
        *self = Encoder::new();
    }

    /// One group of four bits, in the order they were scrambled, to the index of
    /// the point to transmit.
    pub fn encode(&mut self, q: [bool; 4]) -> (code: usize)
        requires
            old(self).wf(),
        ensures
            code == old(self).code(q@),
            code < 32,
            *final(self) == old(self).after(q@),
            final(self).wf(),
    {
        proof {
            reveal(encoded);
        }
        let pair: usize = 2 * number(q[0]) + number(q[1]);
        let y: u8 = DIFFERENTIAL[pair][self.previous as usize];
        proof {
            the_differential_coding_is_reversible(pair as int, 0, self.previous as int);
        }
        self.previous = y;
        let (y0, next) = advance(self.state, y / 2 == 1, y % 2 == 1);
        self.state = next;
        16 * number(y0) + 4 * (y as usize) + 2 * number(q[2]) + number(q[3])
    }
}

impl Default for Encoder {
    fn default() -> (encoder: Encoder)
        ensures
            encoder == Encoder::fresh(),
    {
        Encoder::new()
    }
}

/// The differential coding undone: Q1 Q2, from the quadrant before and the
/// quadrant.
pub fn undo_differential(previous: u8, y: u8) -> (q: u8)
    requires
        previous < 4,
        y < 4,
    ensures
        q < 4,
        encoded(q as int, previous as int) == y,
{
    proof {
        reveal(encoded);
    }
    if DIFFERENTIAL[0][previous as usize] == y {
        0
    } else if DIFFERENTIAL[1][previous as usize] == y {
        1
    } else if DIFFERENTIAL[2][previous as usize] == y {
        2
    } else {
        3
    }
}

/// Received points are in this many parts of a unit of the constellation.
pub const UNIT: i32 = 4096;

/// The furthest out a received point can be, in those parts.
pub const WIDEST: i32 = 0x100_0000;

/// The most a received point can be off.
pub const FAR: u64 = 0x8_0000_0000_0000;

/// How far back the decoder looks before committing to a symbol. The paths
/// through an eight-state trellis have merged long before this.
pub const DEPTH: usize = 24;

/// A received point, in parts of a unit.
pub type Received = (i32, i32);

pub open spec fn receivable(at: Received) -> bool {
    -0x100_0000 <= at.0 <= 0x100_0000 && -0x100_0000 <= at.1 <= 0x100_0000
}

/// The squared distance of a received point from a code's.
pub open spec fn off(at: Received, code: int) -> int {
    let (x, y) = (at.0 - 4096 * named(code).0, at.1 - 4096 * named(code).1);
    x * x + y * y
}

/// The nearest of the first so many points of a subset, the first of those as
/// near.
pub open spec fn nearest_of(at: Received, subset: int, n: nat) -> int
    decreases n,
{
    if n <= 1 {
        0
    } else {
        let before = nearest_of(at, subset, (n - 1) as nat);
        if off(at, 4 * subset + n - 1) < off(at, 4 * subset + before) {
            n - 1
        } else {
            before
        }
    }
}

/// Q3 Q4 of the nearest point of a subset. They are not coded, so this is the
/// whole of their decision.
#[verifier::opaque]
pub open spec fn uncoded(at: Received, subset: int) -> int {
    nearest_of(at, subset, 4)
}

/// What a subset costs.
#[verifier::opaque]
pub open spec fn subset_cost(at: Received, subset: int) -> int {
    off(at, 4 * subset + uncoded(at, subset))
}

proof fn lemma_off(at: Received, code: int)
    requires
        receivable(at),
        0 <= code < 32,
    ensures
        0 <= off(at, code) <= FAR,
        -4 <= named(code).0 <= 4,
        -4 <= named(code).1 <= 4,
        off(at, code) == 0 ==> at.0 == 4096 * named(code).0 && at.1 == 4096 * named(code).1,
{
    reveal(named);
    let (x, y) = (at.0 - 4096 * named(code).0, at.1 - 4096 * named(code).1);
    assert(0 <= x * x <= 0x101_0000 * 0x101_0000) by (nonlinear_arith)
        requires
            -0x101_0000 <= x <= 0x101_0000,
    ;
    assert(0 <= y * y <= 0x101_0000 * 0x101_0000) by (nonlinear_arith)
        requires
            -0x101_0000 <= y <= 0x101_0000,
    ;
    if x != 0 {
        assert(x * x > 0) by (nonlinear_arith)
            requires
                x != 0,
        ;
    }
    if y != 0 {
        assert(y * y > 0) by (nonlinear_arith)
            requires
                y != 0,
        ;
    }
}

/// No point of a subset is nearer than the one taken.
proof fn lemma_nearest(at: Received, subset: int, n: nat, q: int)
    requires
        0 <= q < n,
    ensures
        0 <= nearest_of(at, subset, n) < n,
        off(at, 4 * subset + nearest_of(at, subset, n)) <= off(at, 4 * subset + q),
    decreases n,
{
    if n > 1 {
        if q < n - 1 {
            lemma_nearest(at, subset, (n - 1) as nat, q);
        } else {
            lemma_nearest(at, subset, (n - 1) as nat, 0);
        }
    }
}

fn distance(at: Received, code: usize) -> (d: u64)
    requires
        receivable(at),
        code < 32,
    ensures
        d == off(at, code as int),
        d <= FAR,
{
    proof {
        reveal(named);
    }
    proof {
        lemma_off(at, code as int);
    }
    let p = POINTS[code];
    let x: i64 = at.0 as i64 - 4096 * (p.0 as i64);
    let y: i64 = at.1 as i64 - 4096 * (p.1 as i64);
    assert(0 <= x * x <= 0x101_0000 * 0x101_0000) by (nonlinear_arith)
        requires
            -0x101_0000 <= x <= 0x101_0000,
    ;
    assert(0 <= y * y <= 0x101_0000 * 0x101_0000) by (nonlinear_arith)
        requires
            -0x101_0000 <= y <= 0x101_0000,
    ;
    (x * x + y * y) as u64
}

/// What a subset costs, and which of its four points is the one being paid for.
fn price(at: Received, subset: usize) -> (priced: (u64, u8))
    requires
        receivable(at),
        subset < 8,
    ensures
        priced.0 == subset_cost(at, subset as int),
        priced.1 == uncoded(at, subset as int),
        priced.1 < 4,
        priced.0 <= FAR,
{
    proof {
        reveal(uncoded);
        reveal(subset_cost);
    }
    let mut best: u64 = distance(at, 4 * subset);
    let mut which: u8 = 0;
    let mut q: u8 = 1;
    while q < 4
        invariant
            1 <= q <= 4,
            receivable(at),
            subset < 8,
            which < q,
            which == nearest_of(at, subset as int, q as nat),
            best == off(at, 4 * subset + which),
            best <= FAR,
        decreases 4 - q,
    {
        let d: u64 = distance(at, 4 * subset + q as usize);
        if d < best {
            best = d;
            which = q;
        }
        q = q + 1;
    }
    (best, which)
}

/// One symbol's decision for one state.
#[derive(Debug, Clone, Copy, PartialEq, Eq, Structural)]
pub struct Step {
    /// The state this path came from.
    pub from: u8,
    /// Y1 Y2 Q3 Q4, the four bits this transition carried.
    pub bits: u8,
}

/// A branch's state, of the thirty-two branches in order.
pub open spec fn branch_from(n: int) -> State {
    unpacked(n / 4)
}

pub open spec fn branch_to(n: int) -> State {
    next_state(branch_from(n), n / 2 % 2 == 1, n % 2 == 1)
}

/// The subset a branch sends a point of.
pub open spec fn branch_subset(n: int) -> int {
    4 * one(branch_from(n).t3) + n % 4
}

/// What it costs to have come along a branch.
pub open spec fn branch_total(metrics: Seq<u64>, at: Received, n: int) -> int {
    metrics[n / 4] + subset_cost(at, branch_subset(n))
}

/// The cheapest of the first so many branches into a state, the first of those
/// as cheap.
pub open spec fn cheapest(metrics: Seq<u64>, at: Received, to: int, n: nat) -> Option<int>
    decreases n,
{
    if n == 0 {
        None
    } else {
        let before = cheapest(metrics, at, to, (n - 1) as nat);
        let cheaper = match before {
            Some(b) => branch_total(metrics, at, n - 1) < branch_total(metrics, at, b),
            None => true,
        };
        if packed(branch_to(n - 1)) == to && cheaper {
            Some(n - 1)
        } else {
            before
        }
    }
}

proof fn lemma_cheapest(metrics: Seq<u64>, at: Received, to: int, n: nat)
    ensures
        cheapest(metrics, at, to, n) matches Some(b) ==> 0 <= b < n && packed(branch_to(b)) == to,
        cheapest(metrics, at, to, n) is None ==> forall|i: int|
            0 <= i < n ==> packed(#[trigger] branch_to(i)) != to,
        cheapest(metrics, at, to, n) matches Some(b) ==> forall|i: int|
            0 <= i < n && packed(#[trigger] branch_to(i)) == to ==> branch_total(metrics, at, b)
                <= branch_total(metrics, at, i),
    decreases n,
{
    if n > 0 {
        lemma_cheapest(metrics, at, to, (n - 1) as nat);
    }
}

/// The survivor into a state is the cheapest of the branches into it.
pub proof fn the_survivor_is_the_cheapest(metrics: Seq<u64>, at: Received, to: int, i: int)
    requires
        0 <= i < 32,
        packed(branch_to(i)) == to,
    ensures
        cheapest(metrics, at, to, 32) matches Some(b) && (0 <= b < 32 && packed(branch_to(b)) == to
            && branch_total(metrics, at, b) <= branch_total(metrics, at, i)),
{
    lemma_cheapest(metrics, at, to, 32);
}

/// The branch between two states.
pub open spec fn branch_between(from: State, to: State) -> int {
    let (y1, y2) = inputs_between(from, to);
    4 * packed(from) + 2 * one(y1) + one(y2)
}

proof fn lemma_between(from: State, to: State)
    requires
        from.t3 == to.t1,
    ensures
        0 <= branch_between(from, to) < 32,
        branch_between(from, to) / 4 == packed(from),
        branch_from(branch_between(from, to)) == from,
        branch_to(branch_between(from, to)) == to,
{
    each_state_fans_out_to_four(from, to, false, false);
    let n = branch_between(from, to);
    assert(n / 4 == packed(from));
    assert(unpacked(packed(from)) == from);
}

/// What it costs to have reached a state, one symbol on.
pub open spec fn reached(metrics: Seq<u64>, at: Received, to: int) -> int {
    branch_total(metrics, at, cheapest(metrics, at, to, 32)->0)
}

/// The way back along a branch.
pub open spec fn step_along(at: Received, b: int) -> Step {
    Step { from: (b / 4) as u8, bits: (4 * (b % 4) + uncoded(at, branch_subset(b))) as u8 }
}

/// The way into a state.
pub open spec fn step_into(metrics: Seq<u64>, at: Received, to: int) -> Step {
    step_along(at, cheapest(metrics, at, to, 32)->0)
}

/// Whether a cost and a step are those of the cheapest of the first so many
/// branches into a state.
pub open spec fn survives(
    metrics: Seq<u64>,
    at: Received,
    to: int,
    n: nat,
    found: bool,
    cost: u64,
    step: Step,
) -> bool {
    match cheapest(metrics, at, to, n) {
        Some(b) => found && cost == branch_total(metrics, at, b) && step == step_along(at, b),
        None => !found,
    }
}

/// A state of each number, and one way in for each.
proof fn lemma_reached(metrics: Seq<u64>, at: Received, to: int, from: int)
    requires
        0 <= to < 8,
        0 <= from < 8,
        unpacked(from).t3 == unpacked(to).t1,
        receivable(at),
    ensures
        cheapest(metrics, at, to, 32) is Some,
        ({
            let b = cheapest(metrics, at, to, 32)->0;
            &&& 0 <= b < 32
            &&& branch_to(b) == unpacked(to)
            &&& branch_from(b).t3 == unpacked(to).t1
            &&& 0 <= branch_subset(b) < 8
            &&& 0 <= subset_cost(at, branch_subset(b)) <= FAR
        }),
        metrics[from] + FAR >= reached(metrics, at, to),
{
    reveal(uncoded);
    reveal(subset_cost);
    let i = branch_between(unpacked(from), unpacked(to));
    lemma_between(unpacked(from), unpacked(to));
    assert(packed(unpacked(from)) == from && packed(unpacked(to)) == to);
    the_survivor_is_the_cheapest(metrics, at, to, i);
    let b = cheapest(metrics, at, to, 32)->0;
    assert(unpacked(packed(branch_to(b))) == branch_to(b));
    each_state_fans_out_to_four(
        branch_from(b),
        branch_to(b),
        b / 2 % 2 == 1,
        b % 2 == 1,
    );
    lemma_nearest(at, branch_subset(b), 4, 0);
    lemma_off(at, 4 * branch_subset(b) + uncoded(at, branch_subset(b)));
    lemma_nearest(at, branch_subset(i), 4, 0);
    lemma_off(at, 4 * branch_subset(i) + uncoded(at, branch_subset(i)));
}

/// States whose first delay element agrees cost much the same, some state costs
/// nothing, and none costs more than twice what one point can be off.
pub open spec fn level(metrics: Seq<u64>) -> bool {
    &&& metrics.len() == 8
    &&& exists|i: int| 0 <= i < 8 && #[trigger] metrics[i] == 0
    &&& forall|i: int, j: int|
        0 <= i < 8 && 0 <= j < 8 && unpacked(i).t1 == unpacked(j).t1 ==> #[trigger] metrics[i]
            <= #[trigger] metrics[j] + FAR
    &&& forall|i: int| 0 <= i < 8 ==> (#[trigger] metrics[i]) <= 2 * FAR
}

/// What a decoder remembers, as a value.
pub struct Decoding {
    pub metrics: Seq<u64>,
    pub history: Seq<Seq<Step>>,
    pub previous: u8,
}

/// The first of the first so many states that costs least.
pub open spec fn least_of(costs: Seq<u64>, n: nat) -> int
    decreases n,
{
    if n <= 1 {
        0
    } else {
        let before = least_of(costs, (n - 1) as nat);
        if costs[n - 1] < costs[before] {
            n - 1
        } else {
            before
        }
    }
}

proof fn lemma_least(costs: Seq<u64>, n: nat, i: int)
    requires
        0 <= i < n,
    ensures
        0 <= least_of(costs, n) < n,
        costs[least_of(costs, n)] <= costs[i],
    decreases n,
{
    if n > 1 {
        if i < n - 1 {
            lemma_least(costs, (n - 1) as nat, i);
        } else {
            lemma_least(costs, (n - 1) as nat, 0);
        }
    }
}

/// Where a path stood at the oldest symbol held, from where it stands now.
pub open spec fn walked(history: Seq<Seq<Step>>, state: int) -> int
    decreases history.len(),
{
    if history.len() <= 1 {
        state
    } else {
        walked(history.drop_last(), history.last()[state].from as int)
    }
}

impl Decoding {
    /// Every state equally likely: the encoder starts at zero but a receiver
    /// joins a connection already running.
    pub open spec fn fresh() -> Decoding {
        Decoding { metrics: Seq::new(8, |i: int| 0u64), history: Seq::empty(), previous: 0 }
    }

    pub open spec fn wf(self) -> bool {
        &&& level(self.metrics)
        &&& self.history.len() <= 24
        &&& self.previous < 4
        &&& followable(self.history)
    }

    pub open spec fn costs(self, at: Received) -> Seq<u64> {
        Seq::new(8, |to: int| reached(self.metrics, at, to) as u64)
    }

    pub open spec fn steps(self, at: Received) -> Seq<Step> {
        Seq::new(8, |to: int| step_into(self.metrics, at, to))
    }

    /// A point into the trellis. Metrics only ever grow, so the smallest comes
    /// off all of them.
    #[verifier::opaque]
    pub open spec fn heard(self, at: Received) -> Decoding {
        let costs = self.costs(at);
        let floor = costs[least_of(costs, 8)];
        Decoding {
            metrics: Seq::new(8, |i: int| (costs[i] - floor) as u64),
            history: self.history.push(self.steps(at)),
            ..self
        }
    }

    /// Y1 Y2 Q3 Q4 of the oldest symbol held, on the best path.
    pub open spec fn oldest(self) -> u8 {
        self.history[0][walked(self.history, least_of(self.metrics, 8))].bits
    }

    /// The oldest symbol given back.
    pub open spec fn given(self) -> Decoding {
        Decoding {
            history: self.history.skip(1),
            previous: (self.oldest() / 4) as u8,
            ..self
        }
    }

    /// A point in, and the oldest symbol out once enough are held.
    pub open spec fn decoded(self, at: Received) -> Decoding {
        let heard = self.heard(at);
        if heard.history.len() <= 24 {
            heard
        } else {
            heard.given()
        }
    }
}

/// Ways back that can be followed.
pub open spec fn followable(history: Seq<Seq<Step>>) -> bool {
    forall|i: int|
        0 <= i < history.len() ==> {
            &&& (#[trigger] history[i]).len() == 8
            &&& forall|j: int| 0 <= j < 8 ==> (#[trigger] history[i][j]).from < 8
                && history[i][j].bits < 16
        }
}

/// Metrics never grow past twice what one point can be off.
proof fn lemma_metrics_bound(d: Decoding, i: int)
    requires
        level(d.metrics),
        0 <= i < 8,
    ensures
        exists|f: int|
            0 <= f < 8 && unpacked(f).t3 == unpacked(i).t1 && #[trigger] d.metrics[f] <= FAR,
{
    let z = choose|z: int| 0 <= z < 8 && #[trigger] d.metrics[z] == 0;
    let f = 4 * one(unpacked(z).t1) + one(unpacked(i).t1);
    assert(unpacked(f).t1 == unpacked(z).t1 && unpacked(f).t3 == unpacked(i).t1);
    assert(d.metrics[f] <= d.metrics[z] + FAR);
}

/// The metrics stay level.
proof fn lemma_level(d: Decoding, at: Received)
    requires
        level(d.metrics),
        receivable(at),
    ensures
        level(d.heard(at).metrics),
        forall|to: int| 0 <= to < 8 ==> 0 <= #[trigger] reached(d.metrics, at, to) <= 2 * FAR,
{
    reveal(Decoding::heard);
    let costs = d.costs(at);
    assert forall|to: int| 0 <= to < 8 implies 0 <= #[trigger] reached(d.metrics, at, to) <= 2
        * FAR by {
        lemma_metrics_bound(d, to);
        let f = choose|f: int|
            0 <= f < 8 && unpacked(f).t3 == unpacked(to).t1 && #[trigger] d.metrics[f] <= FAR;
        lemma_reached(d.metrics, at, to, f);
    }
    assert forall|i: int, j: int|
        0 <= i < 8 && 0 <= j < 8 && unpacked(i).t1 == unpacked(j).t1 implies reached(
        d.metrics,
        at,
        i,
    ) <= reached(d.metrics, at, j) + FAR by {
        lemma_metrics_bound(d, j);
        let f = choose|f: int|
            0 <= f < 8 && unpacked(f).t3 == unpacked(j).t1 && #[trigger] d.metrics[f] <= FAR;
        lemma_reached(d.metrics, at, j, f);
        let b = cheapest(d.metrics, at, j, 32)->0;
        lemma_reached(d.metrics, at, i, b / 4);
    }
    let least = least_of(costs, 8);
    assert forall|i: int| 0 <= i < 8 implies #[trigger] costs[least] <= costs[i] by {
        lemma_least(costs, 8, i);
    }
    lemma_least(costs, 8, 0);
    assert(d.heard(at).metrics[least] == 0);
    assert forall|i: int, j: int|
        0 <= i < 8 && 0 <= j < 8 && unpacked(i).t1 == unpacked(j).t1 implies (
    #[trigger] d.heard(at).metrics[i]) <= (#[trigger] d.heard(at).metrics[j]) + FAR by {
        lemma_least(costs, 8, i);
        lemma_least(costs, 8, j);
        assert(costs[i] == reached(d.metrics, at, i) && costs[j] == reached(d.metrics, at, j));
    }
}

/// Recovers groups of four bits from received points.
///
/// A slicer would take the nearest of the thirty-two points and be wrong
/// whenever the noise exceeded d^2 = 2. This follows the code instead: the only
/// sequences it will consider are the ones the encoder could have produced.
#[derive(Debug, Clone)]
pub struct Decoder {
    pub metrics: [u64; 8],
    pub history: VecDeque<[Step; 8]>,
    /// Y1 Y2 of the last group given back.
    pub previous: u8,
}

pub open spec fn remembered(history: Seq<[Step; 8]>) -> Seq<Seq<Step>> {
    Seq::new(history.len(), |i: int| history[i]@)
}

impl View for Decoder {
    type V = Decoding;

    open spec fn view(&self) -> Decoding {
        Decoding {
            metrics: self.metrics@,
            history: remembered(self.history@),
            previous: self.previous,
        }
    }
}

/// The group that the bits of a step and the quadrant before it stand for.
pub open spec fn is_group(bits: u8, previous: u8, group: Seq<bool>) -> bool {
    &&& group.len() == 4
    &&& encoded(pair_of(group), previous as int) == bits as int / 4
    &&& group[2] == (bits / 2 % 2 == 1)
    &&& group[3] == (bits % 2 == 1)
}

impl Decoder {
    pub fn new() -> (decoder: Decoder)
        ensures
            decoder@ == Decoding::fresh(),
            decoder@.wf(),
    {
        let decoder = Decoder { metrics: [0;8], history: VecDeque::new(), previous: 0 };
        proof {
            assert(decoder@.metrics =~= Decoding::fresh().metrics);
            assert(decoder@.history =~= Seq::empty());
            assert(decoder@.metrics[0] == 0);
        }
        decoder
    }

    pub fn reset(&mut self)
        ensures
            final(self)@ == Decoding::fresh(),
            final(self)@.wf(),
    {
        *self = Decoder::new();
    }

    /// How many symbols the decoder is holding before it will commit.
    pub fn depth() -> (depth: usize)
        ensures
            depth == 24,
    {
        DEPTH
    }

    /// What each state costs one symbol on, and the way into each.
    fn branches(&self, at: Received) -> (next: ([u64; 8], [Step; 8]))
        requires
            level(self.metrics@),
            receivable(at),
        ensures
            next.0@ == self@.costs(at),
            next.1@ == self@.steps(at),
            forall|j: int| 0 <= j < 8 ==> (#[trigger] next.1@[j]).from < 8 && next.1@[j].bits < 16,
    {
        proof {
            lemma_level(self@, at);
        }
        let mut costs: [u64; 8] = [0;8];
        let mut steps: [Step; 8] = [Step { from: 0, bits: 0 };8];
        let mut found: [bool; 8] = [false;8];
        let mut n: usize = 0;
        while n < 32
            invariant
                n <= 32,
                receivable(at),
                level(self.metrics@),
                forall|to: int|
                    0 <= to < 8 ==> survives(
                        self.metrics@,
                        at,
                        to,
                        n as nat,
                        #[trigger] found@[to],
                        costs@[to],
                        steps@[to],
                    ),
                forall|j: int|
                    0 <= j < 8 ==> (#[trigger] steps@[j]).from < 8 && steps@[j].bits < 16,
            decreases 32 - n,
        {
            let (to, total, step): (usize, u64, Step) = self.branch(at, n);
            let ghost was = (costs@, steps@, found@);
            assert(survives(
                self.metrics@,
                at,
                to as int,
                n as nat,
                was.2[to as int],
                was.0[to as int],
                was.1[to as int],
            ));
            if !found[to] || total < costs[to] {
                costs[to] = total;
                steps[to] = step;
                found[to] = true;
            }
            n = n + 1;
            assert forall|t: int| 0 <= t < 8 implies survives(
                self.metrics@,
                at,
                t,
                n as nat,
                #[trigger] found@[t],
                costs@[t],
                steps@[t],
            ) by {
                assert(survives(
                    self.metrics@,
                    at,
                    t,
                    (n - 1) as nat,
                    was.2[t],
                    was.0[t],
                    was.1[t],
                ));
            }
        }
        proof {
            assert forall|to: int| 0 <= to < 8 implies #[trigger] costs@[to] == self@.costs(at)[to]
                && steps@[to] == self@.steps(at)[to] by {
                lemma_metrics_bound(self@, to);
                let f = choose|f: int|
                    0 <= f < 8 && unpacked(f).t3 == unpacked(to).t1
                        && #[trigger] self@.metrics[f] <= FAR;
                lemma_reached(self@.metrics, at, to, f);
                assert(survives(
                    self.metrics@,
                    at,
                    to,
                    32,
                    found@[to],
                    costs@[to],
                    steps@[to],
                ));
            }
            assert(costs@ =~= self@.costs(at));
            assert forall|to: int| 0 <= to < 8 implies #[trigger] steps@[to] == self@.steps(
                at,
            )[to] by {
                assert(costs@[to] == self@.costs(at)[to]);
            }
            assert(steps@ =~= self@.steps(at));
        }
        (costs, steps)
    }

    /// Where a branch leads, what it costs to have come along it, and the way
    /// back.
    fn branch(&self, at: Received, n: usize) -> (branch: (usize, u64, Step))
        requires
            level(self.metrics@),
            receivable(at),
            n < 32,
        ensures
            branch.0 == packed(branch_to(n as int)),
            branch.0 < 8,
            branch.1 == branch_total(self.metrics@, at, n as int),
            branch.2 == step_along(at, n as int),
            branch.2.from < 8,
            branch.2.bits < 16,
    {
        let from: usize = n / 4;
        let (y0, next) = advance(unpack(from), n / 2 % 2 == 1, n % 2 == 1);
        let subset: usize = 4 * number(y0) + n % 4;
        assert(subset == branch_subset(n as int));
        let (cost, q): (u64, u8) = price(at, subset);
        assert(self.metrics@[from as int] <= 2 * FAR);
        let total: u64 = self.metrics[from] + cost;
        (pack(next), total, Step { from: from as u8, bits: 4 * ((n % 4) as u8) + q })
    }

    /// The first state that costs least.
    fn best(costs: &[u64; 8]) -> (best: usize)
        ensures
            best == least_of(costs@, 8),
            best < 8,
    {
        let mut best: usize = 0;
        let mut i: usize = 1;
        while i < 8
            invariant
                1 <= i <= 8,
                best < i,
                best == least_of(costs@, i as nat),
            decreases 8 - i,
        {
            if costs[i] < costs[best] {
                best = i;
            }
            i = i + 1;
        }
        best
    }

    /// A point into the trellis.
    fn hear(&mut self, at: Received)
        requires
            old(self)@.wf(),
            receivable(at),
        ensures
            final(self)@ == old(self)@.heard(at),
            level(final(self)@.metrics),
            final(self)@.history.len() == old(self)@.history.len() + 1,
            followable(final(self)@.history),
            final(self).previous == old(self).previous,
    {
        proof {
            reveal(Decoding::heard);
        }
        let ghost before = self@;
        let (costs, steps): ([u64; 8], [Step; 8]) = self.branches(at);
        let floor: u64 = costs[Decoder::best(&costs)];
        proof {
            lemma_level(before, at);
        }
        let mut metrics = costs;
        let mut i: usize = 0;
        while i < 8
            invariant
                i <= 8,
                costs@ == before.costs(at),
                floor == costs@[least_of(costs@, 8)],
                forall|j: int| 0 <= j < i ==> #[trigger] metrics@[j] == costs@[j] - floor,
                forall|j: int| i <= j < 8 ==> #[trigger] metrics@[j] == costs@[j],
            decreases 8 - i,
        {
            proof {
                lemma_least(costs@, 8, i as int);
            }
            metrics[i] = metrics[i] - floor;
            i = i + 1;
        }
        self.metrics = metrics;
        self.history.push_back(steps);
        proof {
            assert(self@.metrics =~= before.heard(at).metrics);
            assert(self@.history =~= before.heard(at).history);
            assert forall|i: int| 0 <= i < self@.history.len() implies {
                &&& (#[trigger] self@.history[i]).len() == 8
                &&& forall|j: int|
                    0 <= j < 8 ==> (#[trigger] self@.history[i][j]).from < 8
                        && self@.history[i][j].bits < 16
            } by {
                if i < before.history.len() {
                    assert(self@.history[i] == before.history[i]);
                } else {
                    assert(self@.history[i] == steps@);
                }
            }
        }
    }

    /// Walk a path back to the oldest symbol still held.
    fn walk(&self, state: usize) -> (oldest: usize)
        requires
            state < 8,
            self.history@.len() > 0,
            followable(self@.history),
        ensures
            oldest == walked(self@.history, state as int),
            oldest < 8,
    {
        let mut at: usize = state;
        let mut left: usize = self.history.len();
        let ghost all = self@.history;
        assert(all.take(left as int) =~= all);
        while left > 1
            invariant
                1 <= left <= self.history@.len(),
                all == self@.history,
                followable(all),
                at < 8,
                walked(all.take(left as int), at as int) == walked(all, state as int),
            decreases left,
        {
            let steps = self.history[left - 1];
            assert(all[left - 1] == steps@);
            assert(all.take(left as int).drop_last() =~= all.take(left - 1));
            assert(all.take(left as int).last() == steps@);
            assert(all[left - 1][at as int].from < 8);
            at = steps[at].from as usize;
            left = left - 1;
        }
        at
    }

    /// Offer one received point. Gives back a group of four bits once enough
    /// symbols have arrived for the paths to have merged.
    pub fn decode(&mut self, at: Received) -> (group: Option<[bool; 4]>)
        requires
            old(self)@.wf(),
            receivable(at),
        ensures
            final(self)@ == old(self)@.decoded(at),
            final(self)@.wf(),
            group is Some <==> old(self)@.history.len() == 24,
            group matches Some(group) ==> is_group(
                old(self)@.heard(at).oldest(),
                old(self).previous,
                group@,
            ),
    {
        self.hear(at);
        if self.history.len() <= DEPTH {
            return None;
        }
        let ghost heard = self@;
        let best: usize = Decoder::best(&self.metrics);
        let state: usize = self.walk(best);
        let steps = self.history[0];
        assert(heard.history[0] == steps@);
        assert(heard.history[0][state as int].bits < 16);
        let bits: u8 = steps[state].bits;
        let _ = self.history.pop_front();
        let y: u8 = bits / 4;
        let q: u8 = undo_differential(self.previous, y);
        self.previous = y;
        proof {
            assert(self@.history =~= heard.history.skip(1));
            assert forall|i: int| 0 <= i < self@.history.len() implies {
                &&& (#[trigger] self@.history[i]).len() == 8
                &&& forall|j: int|
                    0 <= j < 8 ==> (#[trigger] self@.history[i][j]).from < 8
                        && self@.history[i][j].bits < 16
            } by {
                assert(self@.history[i] == heard.history[i + 1]);
            }
        }
        let group: [bool; 4] = [q / 2 == 1, q % 2 == 1, bits / 2 % 2 == 1, bits % 2 == 1];
        assert(pair_of(group@) == q);
        Some(group)
    }
}

impl Default for Decoder {
    fn default() -> (decoder: Decoder)
        ensures
            decoder@ == Decoding::fresh(),
    {
        Decoder::new()
    }
}

/// A code's point, received exactly.
pub open spec fn exact(code: int) -> Received {
    ((4096 * named(code).0) as i32, (4096 * named(code).1) as i32)
}

/// A path back from a state carries the bits of these codes, newest last.
pub open spec fn follows(history: Seq<Seq<Step>>, codes: Seq<int>, state: int) -> bool
    decreases history.len(),
{
    history.len() > 0 ==> {
        let step = history.last()[state];
        step.bits == codes.last() % 16 && follows(
            history.drop_last(),
            codes.drop_last(),
            step.from as int,
        )
    }
}

/// A decoder in step with an encoder: the encoder's own state costs nothing, and
/// every path that costs nothing carries what was sent.
pub open spec fn in_step(d: Decoding, codes: Seq<int>, state: State) -> bool {
    &&& codes.len() == d.history.len()
    &&& d.metrics[packed(state)] == 0
    &&& forall|s: int| 0 <= s < 8 && d.metrics[s] == 0 ==> #[trigger] follows(
        d.history,
        codes,
        s,
    )
}

proof fn lemma_exact(code: int)
    requires
        0 <= code < 32,
    ensures
        receivable(exact(code)),
        off(exact(code), code) == 0,
        exact(code).0 == 4096 * named(code).0,
        exact(code).1 == 4096 * named(code).1,
{
    reveal(named);
    assert(-4 <= named(code).0 <= 4 && -4 <= named(code).1 <= 4);
}

/// A subset that costs nothing is the one the point was sent from.
proof fn lemma_free(code: int, subset: int)
    requires
        0 <= code < 32,
        0 <= subset < 8,
    ensures
        0 <= uncoded(exact(code), subset) < 4,
        subset_cost(exact(code), subset) >= 0,
        subset_cost(exact(code), subset) == 0 <==> subset == code / 4,
        subset_cost(exact(code), subset) == 0 ==> 4 * subset + uncoded(exact(code), subset) == code,
{
    reveal(uncoded);
    reveal(subset_cost);
    let at = exact(code);
    lemma_exact(code);
    lemma_nearest(at, subset, 4, 0);
    let taken = 4 * subset + uncoded(at, subset);
    lemma_off(at, taken);
    if subset_cost(at, subset) == 0 {
        assert(named(taken) == named(code));
        the_points_are_distinct(taken, code);
    }
    if subset == code / 4 {
        lemma_nearest(at, subset, 4, code % 4);
    }
}

/// The branch an encoder takes is the one its state and its code name.
proof fn lemma_own_branch(state: State, code: int)
    requires
        0 <= code < 32,
        code / 16 == one(state.t3),
    ensures
        ({
            let mine = 4 * packed(state) + code / 4 % 4;
            &&& 0 <= mine < 32
            &&& mine / 4 == packed(state)
            &&& branch_from(mine) == state
            &&& branch_to(mine) == next_state(state, code / 8 % 2 == 1, code / 4 % 2 == 1)
            &&& branch_subset(mine) == code / 4
        }),
{
    let mine = 4 * packed(state) + code / 4 % 4;
    assert(mine / 4 == packed(state) && mine % 4 == code / 4 % 4);
    assert(unpacked(packed(state)) == state);
}

/// A symbol heard exactly leaves a decoder in step.
#[verifier::rlimit(40)]
#[verifier::spinoff_prover]
proof fn lemma_in_step(d: Decoding, codes: Seq<int>, state: State, code: int)
    requires
        level(d.metrics),
        in_step(d, codes, state),
        0 <= code < 32,
        code / 16 == one(state.t3),
    ensures
        in_step(
            d.heard(exact(code)),
            codes.push(code),
            next_state(state, code / 8 % 2 == 1, code / 4 % 2 == 1),
        ),
{
    reveal(Decoding::heard);
    let at = exact(code);
    let next = next_state(state, code / 8 % 2 == 1, code / 4 % 2 == 1);
    let heard = d.heard(at);
    let costs = d.costs(at);
    let mine = 4 * packed(state) + code / 4 % 4;
    lemma_exact(code);
    lemma_level(d, at);
    lemma_own_branch(state, code);
    lemma_free(code, code / 4);
    let to = packed(next);
    assert(branch_total(d.metrics, at, mine) == 0);
    the_survivor_is_the_cheapest(d.metrics, at, to, mine);
    assert(reached(d.metrics, at, to) == 0);
    assert(costs[to] == 0);
    lemma_least(costs, 8, to);
    assert(heard.metrics[to] == 0);
    assert forall|s: int| 0 <= s < 8 && heard.metrics[s] == 0 implies #[trigger] follows(
        heard.history,
        codes.push(code),
        s,
    ) by {
        lemma_least(costs, 8, s);
        assert(costs[s] == 0 && reached(d.metrics, at, s) == 0);
        lemma_free_path(d, codes, code, s);
    }
}

/// A path that costs nothing once a symbol has been heard exactly is a path that
/// cost nothing before, and carries the symbol.
proof fn lemma_free_path(d: Decoding, codes: Seq<int>, code: int, s: int)
    requires
        level(d.metrics),
        codes.len() == d.history.len(),
        forall|s: int| 0 <= s < 8 && d.metrics[s] == 0 ==> #[trigger] follows(
            d.history,
            codes,
            s,
        ),
        0 <= code < 32,
        0 <= s < 8,
        reached(d.metrics, exact(code), s) == 0,
    ensures
        follows(d.heard(exact(code)).history, codes.push(code), s),
{
    reveal(Decoding::heard);
    let at = exact(code);
    lemma_exact(code);
    lemma_metrics_bound(d, s);
    let f = choose|f: int|
        0 <= f < 8 && unpacked(f).t3 == unpacked(s).t1 && #[trigger] d.metrics[f] <= FAR;
    lemma_reached(d.metrics, at, s, f);
    let b = cheapest(d.metrics, at, s, 32)->0;
    let subset = branch_subset(b);
    lemma_free(code, subset);
    assert(d.metrics[b / 4] == 0);
    assert(follows(d.history, codes, b / 4));
    let history = d.heard(at).history;
    assert(history.last()[s] == step_along(at, b));
    assert(history.drop_last() =~= d.history);
    assert(codes.push(code).drop_last() =~= codes);
    assert(4 * (b % 4) + uncoded(at, subset) == code % 16);
}

/// The oldest symbol on a path that carries what was sent is the oldest sent.
proof fn lemma_oldest(history: Seq<Seq<Step>>, codes: Seq<int>, state: int)
    requires
        follows(history, codes, state),
        history.len() == codes.len(),
        history.len() > 0,
    ensures
        history[0][walked(history, state)].bits == codes[0] % 16,
        follows(history.skip(1), codes.skip(1), state),
    decreases history.len(),
{
    if history.len() > 1 {
        let (h, c) = (history.drop_last(), codes.drop_last());
        lemma_oldest(h, c, history.last()[state].from as int);
        assert(history.skip(1).drop_last() =~= h.skip(1));
        assert(codes.skip(1).drop_last() =~= c.skip(1));
    }
}

/// What an encoder has come to after some groups.
pub open spec fn after_all(e: Encoder, groups: Seq<Seq<bool>>) -> Encoder
    decreases groups.len(),
{
    if groups.len() == 0 {
        e
    } else {
        after_all(e, groups.drop_last()).after(groups.last())
    }
}

/// The codes it sent for them.
pub open spec fn sent(e: Encoder, groups: Seq<Seq<bool>>) -> Seq<int>
    decreases groups.len(),
{
    if groups.len() == 0 {
        Seq::empty()
    } else {
        sent(e, groups.drop_last()).push(after_all(e, groups.drop_last()).code(groups.last()))
    }
}

/// What a fresh decoder has come to after hearing some codes exactly.
pub open spec fn heard_all(codes: Seq<int>) -> Decoding
    decreases codes.len(),
{
    if codes.len() == 0 {
        Decoding::fresh()
    } else {
        heard_all(codes.drop_last()).decoded(exact(codes.last()))
    }
}

/// The codes a decoder still holds.
pub open spec fn still_held(codes: Seq<int>) -> Seq<int> {
    if codes.len() <= 24 {
        codes
    } else {
        codes.skip(codes.len() - 24)
    }
}

/// A code and the group it was sent for.
proof fn lemma_code(e: Encoder, group: Seq<bool>)
    requires
        e.wf(),
        group.len() == 4,
    ensures
        0 <= e.code(group) < 32,
        e.code(group) / 16 == one(e.state.t3),
        e.code(group) / 4 % 4 == e.quadrant(group),
        e.code(group) / 8 % 2 == e.quadrant(group) / 2,
        e.code(group) / 4 % 2 == e.quadrant(group) % 2,
        e.code(group) / 2 % 2 == one(group[2]),
        e.code(group) % 2 == one(group[3]),
        e.after(group).wf(),
        e.after(group).previous == e.code(group) / 4 % 4,
        e.after(group).state == next_state(
            e.state,
            e.code(group) / 8 % 2 == 1,
            e.code(group) / 4 % 2 == 1,
        ),
{
    the_differential_coding_is_reversible(pair_of(group), 0, e.previous as int);
}

/// Decoder and encoder stay in step over a run.
proof fn lemma_run(e: Encoder, groups: Seq<Seq<bool>>)
    requires
        e.wf(),
        forall|i: int| 0 <= i < groups.len() ==> (#[trigger] groups[i]).len() == 4,
    ensures
        after_all(e, groups).wf(),
        sent(e, groups).len() == groups.len(),
        level(heard_all(sent(e, groups)).metrics),
        in_step(
            heard_all(sent(e, groups)),
            still_held(sent(e, groups)),
            after_all(e, groups).state,
        ),
        heard_all(sent(e, groups)).previous == (if groups.len() <= 24 {
            0
        } else {
            sent(e, groups)[groups.len() - 25] / 4 % 4
        }),
    decreases groups.len(),
{
    if groups.len() == 0 {
        assert(Decoding::fresh().metrics[0] == 0);
    } else {
        let before = groups.drop_last();
        lemma_run(e, before);
        let (enc, codes) = (after_all(e, before), sent(e, before));
        let d = heard_all(codes);
        let code = enc.code(groups.last());
        let all = sent(e, groups);
        assert(all.drop_last() =~= codes);
        lemma_code(enc, groups.last());
        lemma_decoded(d, still_held(codes), enc.state, code);
        let held = still_held(codes).push(code);
        if groups.len() <= 24 {
            assert(still_held(all) =~= held);
        } else {
            assert(held[0] == all[groups.len() - 25]);
            assert(held.skip(1) =~= still_held(all));
        }
    }
}

/// A symbol decoded exactly leaves a decoder in step, and the symbol given back
/// is the oldest of those sent.
proof fn lemma_decoded(d: Decoding, codes: Seq<int>, state: State, code: int)
    requires
        level(d.metrics),
        in_step(d, codes, state),
        codes.len() <= 24,
        0 <= code < 32,
        code / 16 == one(state.t3),
    ensures
        ({
            let after = d.decoded(exact(code));
            let held = codes.push(code);
            let next = next_state(state, code / 8 % 2 == 1, code / 4 % 2 == 1);
            &&& level(after.metrics)
            &&& codes.len() < 24 ==> in_step(after, held, next) && after.previous == d.previous
            &&& codes.len() == 24 ==> {
                &&& in_step(after, held.skip(1), next)
                &&& d.heard(exact(code)).oldest() == held[0] % 16
                &&& after.previous == held[0] % 16 / 4
            }
        }),
{
    reveal(Decoding::heard);
    let held = codes.push(code);
    let next = next_state(state, code / 8 % 2 == 1, code / 4 % 2 == 1);
    lemma_in_step(d, codes, state, code);
    lemma_exact(code);
    lemma_level(d, exact(code));
    let heard = d.heard(exact(code));
    if codes.len() == 24 {
        let best = least_of(heard.metrics, 8);
        lemma_least(heard.metrics, 8, packed(next));
        assert(follows(heard.history, held, best));
        lemma_oldest(heard.history, held, best);
        let after = heard.given();
        assert forall|s: int| 0 <= s < 8 && after.metrics[s] == 0 implies #[trigger] follows(
            after.history,
            held.skip(1),
            s,
        ) by {
            assert(follows(heard.history, held, s));
            lemma_oldest(heard.history, held, s);
        }
    }
}

/// What the encoder sends the decoder reads. Heard exactly, the twenty-fifth
/// symbol on gives back the first group, and every symbol after it the next:
/// from the first where the encoder began fresh, and from the second whatever
/// state it was in when the decoder joined, for only the quadrant of the first
/// is measured against one the decoder never saw.
pub proof fn what_is_sent_is_decoded(
    e: Encoder,
    groups: Seq<Seq<bool>>,
    next: Seq<bool>,
    given: Seq<bool>,
)
    requires
        e.wf(),
        groups.len() >= 24,
        groups.len() > 24 || e.previous == 0,
        forall|i: int| 0 <= i < groups.len() ==> (#[trigger] groups[i]).len() == 4,
        next.len() == 4,
        ({
            let d = heard_all(sent(e, groups));
            let code = after_all(e, groups).code(next);
            is_group(d.heard(exact(code)).oldest(), d.previous, given)
        }),
    ensures
        given == groups.push(next)[groups.len() - 24],
{
    let all = groups.push(next);
    let codes = sent(e, groups);
    let d = heard_all(codes);
    let enc = after_all(e, groups);
    let code = enc.code(next);
    let first = groups.len() - 24;
    lemma_run(e, groups);
    let bits = d.heard(exact(code)).oldest();
    assert(bits == codes.push(code)[first] % 16) by {
        lemma_code(enc, next);
        lemma_decoded(d, still_held(codes), enc.state, code);
        assert(still_held(codes).push(code)[0] == codes.push(code)[first]);
    }
    assert(sent(e, all) == codes.push(code)) by {
        assert(all.drop_last() =~= groups);
    }
    assert forall|j: int| 0 <= j < all.len() implies (#[trigger] all[j]).len() == 4 by {
        if j < groups.len() {
            assert(all[j] == groups[j]);
        }
    }
    let then = after_all(e, all.take(first));
    lemma_sent_at(e, all, first as nat);
    assert(d.previous == then.previous) by {
        if first > 0 {
            lemma_sent_at(e, all, (first - 1) as nat);
        }
    }
    lemma_group_back(codes.push(code)[first], d.previous, all[first], given);
}

/// Two groups that stand for the same bits after the same quadrant are the same.
proof fn lemma_group_back(code: int, previous: u8, group: Seq<bool>, given: Seq<bool>)
    requires
        0 <= code < 32,
        previous < 4,
        group.len() == 4,
        code % 16 / 4 == encoded(pair_of(group), previous as int),
        code / 2 % 2 == one(group[2]),
        code % 2 == one(group[3]),
        is_group((code % 16) as u8, previous, given),
    ensures
        given == group,
{
    the_differential_coding_is_reversible(pair_of(given), pair_of(group), previous as int);
    let bits = (code % 16) as u8;
    assert(bits / 2 % 2 == code / 2 % 2);
    assert(bits % 2 == code % 2);
    assert(given =~= group);
}

/// What the encoder stood at when it sent a group, and the code it sent for it.
proof fn lemma_sent_at(e: Encoder, groups: Seq<Seq<bool>>, i: nat)
    requires
        e.wf(),
        i < groups.len(),
        forall|j: int| 0 <= j < groups.len() ==> (#[trigger] groups[j]).len() == 4,
    ensures
        ({
            let then = after_all(e, groups.take(i as int));
            let code = sent(e, groups)[i as int];
            &&& then.wf()
            &&& i == 0 ==> then == e
            &&& 0 <= code < 32
            &&& code == then.code(groups[i as int])
            &&& code % 16 / 4 == encoded(pair_of(groups[i as int]), then.previous as int)
            &&& code / 2 % 2 == one(groups[i as int][2])
            &&& code % 2 == one(groups[i as int][3])
            &&& after_all(e, groups.take((i + 1) as int)).previous == code / 4 % 4
        }),
{
    let prefix = groups.take(i as int);
    lemma_prefix(e, groups, i);
    assert forall|j: int| 0 <= j < prefix.len() implies (#[trigger] prefix[j]).len() == 4 by {
        assert(prefix[j] == groups[j]);
    }
    lemma_encoder(e, prefix);
    lemma_code(after_all(e, prefix), groups[i as int]);
    assert(groups.take((i + 1) as int).drop_last() =~= prefix);
}

proof fn lemma_encoder(e: Encoder, groups: Seq<Seq<bool>>)
    requires
        e.wf(),
        forall|i: int| 0 <= i < groups.len() ==> (#[trigger] groups[i]).len() == 4,
    ensures
        after_all(e, groups).wf(),
    decreases groups.len(),
{
    if groups.len() > 0 {
        lemma_encoder(e, groups.drop_last());
        lemma_code(after_all(e, groups.drop_last()), groups.last());
    }
}

proof fn lemma_sent_len(e: Encoder, groups: Seq<Seq<bool>>)
    ensures
        sent(e, groups).len() == groups.len(),
    decreases groups.len(),
{
    if groups.len() > 0 {
        lemma_sent_len(e, groups.drop_last());
    }
}

/// The code of a group is settled by the groups before it.
proof fn lemma_prefix(e: Encoder, groups: Seq<Seq<bool>>, i: nat)
    requires
        i < groups.len(),
    ensures
        sent(e, groups).len() == groups.len(),
        sent(e, groups)[i as int] == after_all(e, groups.take(i as int)).code(groups[i as int]),
    decreases groups.len(),
{
    let before = groups.drop_last();
    if i < groups.len() - 1 {
        lemma_prefix(e, before, i);
        assert(before.take(i as int) =~= groups.take(i as int));
    } else {
        assert(groups.take(i as int) =~= before);
        lemma_sent_len(e, before);
    }
}

} // verus!
