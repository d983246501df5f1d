//! The most likely path through the trellis: for each received pair of points
//! the nearest of each label, the best pair of labels in each subset, and the
//! cheapest branch into each state.
//!
//! Received points are in 1/128 of a grid unit, so every distance is a whole
//! number.
use crate::v34::coding::{on_the_grid, whole, Point, Tables};
use vstd::prelude::*;

verus! {

/// A received point.
pub type Received = (i32, i32);

/// Where a received point can be.
pub open spec fn receivable(r: Received) -> bool {
    -0x400_0000 <= r.0 <= 0x400_0000 && -0x400_0000 <= r.1 <= 0x400_0000
}

/// The nearest odd coordinate, halfway going away from one.
pub open spec fn nearest_odd(v: int) -> int {
    2 * (if v >= 128 {
        v / 256
    } else {
        -((256 - v) / 256)
    }) + 1
}

fn odd(v: i32) -> (n: i32)
    requires
        -0x400_0000 <= v <= 0x400_0000,
    ensures
        n == nearest_odd(v as int),
        -128 <= 128 * n - v <= 128,
        -0x8_0001 <= n <= 0x8_0001,
{
    if v >= 128 {
        2 * (v / 256) + 1
    } else {
        1 - 2 * ((256 - v) / 256)
    }
}

/// One of the twenty-five grid points round a received point, in order.
pub open spec fn candidate(r: Received, n: int) -> (int, int) {
    (nearest_odd(r.0 as int) + 2 * (n / 5) - 4, nearest_odd(r.1 as int) + 2 * (n % 5) - 4)
}

/// The squared distance of a grid point.
pub open spec fn distance(r: Received, p: (int, int)) -> int {
    (128 * p.0 - r.0) * (128 * p.0 - r.0) + (128 * p.1 - r.1) * (128 * p.1 - r.1)
}

/// A grid point with a label, and how far off it is, if it is anywhere near.
#[derive(Debug, Clone, Copy, PartialEq, Eq)]
pub struct Near {
    pub point: Point,
    pub off: Option<u64>,
}

/// The most that two points can be off together.
pub const FAR: u64 = 1_638_400;

/// The nearest of the first so many candidates that carries a label, the first
/// of those as near.
pub open spec fn near(t: Tables, r: Received, label: int, n: nat) -> Option<(int, int)>
    decreases n,
{
    if n == 0 {
        None
    } else {
        let before = near(t, r, label, (n - 1) as nat);
        let p = candidate(r, n - 1);
        if t.label_of(p) == label && (before is None || distance(r, p) < distance(r, before->0)) {
            Some(p)
        } else {
            before
        }
    }
}

/// Whether a near point is the nearest of the first so many.
pub open spec fn is_near(t: Tables, r: Received, label: int, n: nat, found: Near) -> bool {
    match near(t, r, label, n) {
        Some(p) => whole(found.point) == p && found.off is Some && found.off->0 == distance(r, p),
        None => found.point == (0i32, 0i32) && found.off is None,
    }
}

/// For each label, the nearest grid point carrying it.
pub open spec fn all_near(t: Tables, r: Received, found: Seq<Near>) -> bool {
    &&& found.len() == 8
    &&& forall|l: int| 0 <= l < 8 ==> is_near(t, r, l, 25, #[trigger] found[l])
}

/// The nearest grid point carrying a label.
pub open spec fn near_of(t: Tables, r: Received, label: int) -> Near {
    match near(t, r, label, 25) {
        Some(p) => Near {
            point: (p.0 as i32, p.1 as i32),
            off: Some(distance(r, p) as u64),
        },
        None => Near { point: (0, 0), off: None },
    }
}

/// The nearest grid point carrying each label.
pub open spec fn nears(t: Tables, r: Received) -> Seq<Near> {
    Seq::new(8, |label: int| near_of(t, r, label))
}

/// Near points are on the grid, and not far.
pub open spec fn sound(found: Seq<Near>) -> bool {
    &&& found.len() == 8
    &&& forall|l: int|
        0 <= l < 8 ==> on_the_grid((#[trigger] found[l]).point) && (found[l].off matches Some(
            off,
        ) ==> off <= FAR / 2)
}

/// No candidate with the label is nearer than the one found.
pub proof fn the_nearest_is_nearest(t: Tables, r: Received, label: int, n: nat, i: int)
    requires
        0 <= i < n,
        t.label_of(candidate(r, i)) == label,
    ensures
        near(t, r, label, n) is Some,
        t.label_of(near(t, r, label, n)->0) == label,
        distance(r, near(t, r, label, n)->0) <= distance(r, candidate(r, i)),
    decreases n,
{
    if i < n - 1 {
        the_nearest_is_nearest(t, r, label, (n - 1) as nat, i);
    } else {
        lemma_near_label(t, r, label, (n - 1) as nat);
    }
}

proof fn lemma_near_label(t: Tables, r: Received, label: int, n: nat)
    ensures
        near(t, r, label, n) matches Some(p) ==> t.label_of(p) == label,
    decreases n,
{
    if n > 0 {
        lemma_near_label(t, r, label, (n - 1) as nat);
    }
}

/// A squared distance.
fn squared(r: Received, p: Point) -> (off: u64)
    requires
        -640 <= 128 * p.0 - r.0 <= 640,
        -640 <= 128 * p.1 - r.1 <= 640,
    ensures
        off == distance(r, whole(p)),
        off <= FAR / 2,
{
    let dx: i64 = 128 * (p.0 as i64) - r.0 as i64;
    let dy: i64 = 128 * (p.1 as i64) - r.1 as i64;
    assert(0 <= dx * dx <= 409600 && 0 <= dy * dy <= 409600) by (nonlinear_arith)
        requires
            -640 <= dx <= 640,
            -640 <= dy <= 640,
    ;
    (dx * dx + dy * dy) as u64
}

/// For each label, the nearest grid point carrying it and how far away.
pub fn nearest_by_label(t: &Tables, r: Received) -> (best: Vec<Near>)
    requires
        receivable(r),
        forall|i: int| 0 <= i < 16 ==> #[trigger] t.labels@[i] < 8,
    ensures
        best@ == nears(*t, r),
        all_near(*t, r, best@),
        sound(best@),
{
    let mut best: Vec<Near> = Vec::new();
    let mut l: usize = 0;
    while l < 8
        invariant
            l <= 8,
            best@.len() == l,
            forall|i: int| 0 <= i < l ==> #[trigger] best@[i] == (Near { point: (0, 0), off: None }),
        decreases 8 - l,
    {
        best.push(Near { point: (0, 0), off: None });
        l = l + 1;
    }
    let (cx, cy): (i32, i32) = (odd(r.0), odd(r.1));
    let mut n: i32 = 0;
    while n < 25
        invariant
            0 <= n <= 25,
            receivable(r),
            cx == nearest_odd(r.0 as int),
            cy == nearest_odd(r.1 as int),
            -128 <= 128 * cx - r.0 <= 128,
            -128 <= 128 * cy - r.1 <= 128,
            -0x8_0001 <= cx <= 0x8_0001,
            -0x8_0001 <= cy <= 0x8_0001,
            forall|i: int| 0 <= i < 16 ==> #[trigger] t.labels@[i] < 8,
            best@.len() == 8,
            forall|i: int| 0 <= i < 8 ==> is_near(*t, r, i, n as nat, #[trigger] best@[i]),
            sound(best@),
        decreases 25 - n,
    {
        let p: Point = (cx + 2 * (n / 5) - 4, cy + 2 * (n % 5) - 4);
        assert(whole(p) == candidate(r, n as int));
        let off: u64 = squared(r, p);
        let label: usize = t.label(p) as usize;
        let closer = match best[label].off {
            Some(before) => off < before,
            None => true,
        };
        let ghost was = best@;
        if closer {
            best.set(label, Near { point: p, off: Some(off) });
        }
        n = n + 1;
        assert forall|i: int| 0 <= i < 8 implies is_near(
            *t,
            r,
            i,
            n as nat,
            #[trigger] best@[i],
        ) by {
            assert(is_near(*t, r, i, (n - 1) as nat, was[i]));
        }
    }
    assert forall|l: int| 0 <= l < 8 implies #[trigger] best@[l] == near_of(*t, r, l) by {
        assert(is_near(*t, r, l, 25, best@[l]));
    }
    assert(best@ =~= nears(*t, r));
    best
}

/// Which subset a pair of labels is in: by the parity of the two, and by the
/// inputs they come to.
pub open spec fn subset_of(t: Tables, a: int, b: int) -> int {
    16 * ((a + b) % 2) + (t.conversions@[8 * a + b] & t.inputs)
}

/// How far off a pair of labels is, if both are near.
pub open spec fn pair_off(first: Seq<Near>, second: Seq<Near>, a: int, b: int) -> Option<nat> {
    match (first[a].off, second[b].off) {
        (Some(x), Some(y)) => Some((x + y) as nat),
        _ => None,
    }
}

/// The nearest of the first so many pairs of labels in a subset, the first of
/// those as near.
pub open spec fn best_pair(
    t: Tables,
    first: Seq<Near>,
    second: Seq<Near>,
    subset: int,
    n: nat,
) -> Option<(int, int)>
    decreases n,
{
    if n == 0 {
        None
    } else {
        let before = best_pair(t, first, second, subset, (n - 1) as nat);
        let (a, b) = ((n - 1) / 8, (n - 1) % 8);
        let off = pair_off(first, second, a, b);
        let closer = match before {
            Some((x, y)) => off->0 < pair_off(first, second, x, y)->0,
            None => true,
        };
        if subset_of(t, a, b) == subset && off is Some && closer {
            Some((a, b))
        } else {
            before
        }
    }
}

/// A pair of labels, and how far off the two are.
#[derive(Debug, Clone, Copy, PartialEq, Eq)]
pub struct Pair {
    pub labels: (u8, u8),
    pub off: u64,
}

/// Whether a pair is the nearest of the first so many in its subset.
pub open spec fn is_best(
    t: Tables,
    first: Seq<Near>,
    second: Seq<Near>,
    subset: int,
    n: nat,
    found: Option<Pair>,
) -> bool {
    match (best_pair(t, first, second, subset, n), found) {
        (Some((a, b)), Some(pair)) => {
            &&& pair.labels.0 == a && pair.labels.1 == b
            &&& pair_off(first, second, a, b) == Some(pair.off as nat)
            &&& a < 8 && b < 8 && pair.off <= FAR
        },
        (None, None) => true,
        _ => false,
    }
}

/// The nearest pair of labels in a subset.
pub open spec fn pair_of(
    t: Tables,
    first: Seq<Near>,
    second: Seq<Near>,
    subset: int,
) -> Option<Pair> {
    match best_pair(t, first, second, subset, 64) {
        Some((a, b)) => Some(
            Pair { labels: (a as u8, b as u8), off: pair_off(first, second, a, b)->0 as u64 },
        ),
        None => None,
    }
}

/// The nearest pair of labels in each of the thirty-two subsets.
pub open spec fn pairs_of(t: Tables, first: Seq<Near>, second: Seq<Near>) -> Seq<Option<Pair>> {
    Seq::new(32, |subset: int| pair_of(t, first, second, subset))
}

/// The best pair in each of the thirty-two subsets.
pub open spec fn all_best(
    t: Tables,
    first: Seq<Near>,
    second: Seq<Near>,
    found: Seq<Option<Pair>>,
) -> bool {
    &&& found.len() == 32
    &&& forall|i: int| 0 <= i < 32 ==> is_best(t, first, second, i, 64, #[trigger] found[i])
}

/// No pair of the subset is nearer than the best.
pub proof fn the_best_pair_is_best(
    t: Tables,
    first: Seq<Near>,
    second: Seq<Near>,
    subset: int,
    n: nat,
    i: int,
)
    requires
        0 <= i < n,
        subset_of(t, i / 8, i % 8) == subset,
        pair_off(first, second, i / 8, i % 8) is Some,
    ensures
        best_pair(t, first, second, subset, n) matches Some((a, b)) && (subset_of(t, a, b)
            == subset && pair_off(first, second, a, b) is Some && pair_off(
            first,
            second,
            a,
            b,
        )->0 <= pair_off(first, second, i / 8, i % 8)->0),
    decreases n,
{
    lemma_best_pair(t, first, second, subset, (n - 1) as nat);
    if i < n - 1 {
        the_best_pair_is_best(t, first, second, subset, (n - 1) as nat, i);
    }
}

proof fn lemma_best_pair(t: Tables, first: Seq<Near>, second: Seq<Near>, subset: int, n: nat)
    ensures
        best_pair(t, first, second, subset, n) matches Some((a, b)) ==> subset_of(t, a, b)
            == subset && pair_off(first, second, a, b) is Some,
    decreases n,
{
    if n > 0 {
        lemma_best_pair(t, first, second, subset, (n - 1) as nat);
    }
}

/// The best pair in each subset.
pub fn best_pairs(t: &Tables, first: &Vec<Near>, second: &Vec<Near>) -> (best: Vec<Option<Pair>>)
    requires
        sound(first@),
        sound(second@),
        forall|i: int| 0 <= i < 64 ==> #[trigger] t.conversions@[i] < 16,
    ensures
        best@ == pairs_of(*t, first@, second@),
        all_best(*t, first@, second@, best@),
        pairs_within(best@),
{
    let mut best: Vec<Option<Pair>> = Vec::new();
    let mut i: usize = 0;
    while i < 32
        invariant
            i <= 32,
            best@.len() == i,
            forall|j: int| 0 <= j < i ==> #[trigger] best@[j] is None,
        decreases 32 - i,
    {
        best.push(None);
        i = i + 1;
    }
    let mut n: usize = 0;
    while n < 64
        invariant
            n <= 64,
            sound(first@),
            sound(second@),
            forall|i: int| 0 <= i < 64 ==> #[trigger] t.conversions@[i] < 16,
            best@.len() == 32,
            forall|j: int|
                0 <= j < 32 ==> is_best(*t, first@, second@, j, n as nat, #[trigger] best@[j]),
        decreases 64 - n,
    {
        let (a, b): (usize, usize) = (n / 8, n % 8);
        let all: u8 = t.conversions[8 * a + b];
        let taken: u8 = t.inputs;
        assert(all & taken <= all) by (bit_vector);
        let subset: usize = 16 * ((a + b) % 2) + (all & taken) as usize;
        assert(subset == subset_of(*t, a as int, b as int));
        assert(on_the_grid(first@[a as int].point) && on_the_grid(second@[b as int].point));
        let ghost was = best@;
        match (first[a].off, second[b].off) {
            (Some(x), Some(y)) => {
                let off: u64 = x + y;
                let closer = match best[subset] {
                    Some(before) => off < before.off,
                    None => true,
                };
                if closer {
                    best.set(subset, Some(Pair { labels: (a as u8, b as u8), off }));
                }
            },
            _ => {},
        }
        n = n + 1;
        assert forall|j: int| 0 <= j < 32 implies is_best(
            *t,
            first@,
            second@,
            j,
            n as nat,
            #[trigger] best@[j],
        ) by {
            assert(is_best(*t, first@, second@, j, (n - 1) as nat, was[j]));
        }
    }
    assert forall|j: int| 0 <= j < 32 implies #[trigger] best@[j] == pair_of(
        *t,
        first@,
        second@,
        j,
    ) by {
        assert(is_best(*t, first@, second@, j, 64, best@[j]));
    }
    assert(best@ =~= pairs_of(*t, first@, second@));
    assert forall|j: int| 0 <= j < 32 implies ((#[trigger] best@[j]) matches Some(pair)
        ==> pair.off <= FAR && pair.labels.0 < 8 && pair.labels.1 < 8) by {
        assert(is_best(*t, first@, second@, j, 64, best@[j]));
    }
    best
}

/// A branch of the trellis: the state it leaves, and the inputs it takes.
pub open spec fn branch(n: int) -> (int, int) {
    (n / 16, n % 16)
}

/// What a branch costs, if it can be taken: the state reached so far, the inputs
/// ones the code has, and a pair received in the subset.
pub open spec fn branch_cost(
    t: Tables,
    metrics: Seq<Option<u64>>,
    best: Seq<Option<Pair>>,
    inversion: bool,
    n: int,
) -> Option<nat> {
    let (state, y) = branch(n);
    let subset = (if t.outputs@[state] != inversion {
        16int
    } else {
        0int
    }) + y;
    match (metrics[state], best[subset]) {
        (Some(metric), Some(pair)) => if (y as u8) & t.inputs == y as u8 {
            Some((metric + pair.off) as nat)
        } else {
            None
        },
        _ => None,
    }
}

/// The cheapest of the first so many branches into a state, the first of those
/// as cheap.
pub open spec fn cheapest(
    t: Tables,
    metrics: Seq<Option<u64>>,
    best: Seq<Option<Pair>>,
    inversion: bool,
    to: int,
    n: nat,
) -> Option<int>
    decreases n,
{
    if n == 0 {
        None
    } else {
        let before = cheapest(t, metrics, best, inversion, to, (n - 1) as nat);
        let cost = branch_cost(t, metrics, best, inversion, n - 1);
        let cheaper = match before {
            Some(b) => cost->0 < branch_cost(t, metrics, best, inversion, b)->0,
            None => true,
        };
        if t.nexts@[n - 1] == to && cost is Some && cheaper {
            Some(n - 1)
        } else {
            before
        }
    }
}

/// The survivor into a state is the cheapest way there: it is a branch that can
/// be taken into the state, and none into it costs less.
pub proof fn the_survivor_is_the_cheapest(
    t: Tables,
    metrics: Seq<Option<u64>>,
    best: Seq<Option<Pair>>,
    inversion: bool,
    to: int,
    n: nat,
    i: int,
)
    requires
        0 <= i < n,
        t.nexts@[i] == to,
        branch_cost(t, metrics, best, inversion, i) is Some,
    ensures
        cheapest(t, metrics, best, inversion, to, n) matches Some(b) && (0 <= b < n && t.nexts@[b]
            == to && branch_cost(t, metrics, best, inversion, b) is Some && branch_cost(
            t,
            metrics,
            best,
            inversion,
            b,
        )->0 <= branch_cost(t, metrics, best, inversion, i)->0),
    decreases n,
{
    lemma_cheapest(t, metrics, best, inversion, to, (n - 1) as nat);
    if i < n - 1 {
        the_survivor_is_the_cheapest(t, metrics, best, inversion, to, (n - 1) as nat, i);
    }
}

/// The cheapest branch into a state is one that leads there and can be taken.
pub proof fn lemma_cheapest(
    t: Tables,
    metrics: Seq<Option<u64>>,
    best: Seq<Option<Pair>>,
    inversion: bool,
    to: int,
    n: nat,
)
    ensures
        cheapest(t, metrics, best, inversion, to, n) matches Some(b) ==> 0 <= b < n && t.nexts@[b]
            == to && branch_cost(t, metrics, best, inversion, b) is Some,
    decreases n,
{
    if n > 0 {
        lemma_cheapest(t, metrics, best, inversion, to, (n - 1) as nat);
    }
}

/// The way into a state: where from, and the labels of the two points.
#[derive(Debug, Clone, Copy, PartialEq, Eq)]
pub struct Back {
    pub from: u8,
    pub labels: (u8, u8),
}

/// Whether a cost and a way into a state are the cheapest branch's.
pub open spec fn is_survivor(
    t: Tables,
    metrics: Seq<Option<u64>>,
    best: Seq<Option<Pair>>,
    inversion: bool,
    to: int,
    n: nat,
    cost: Option<u64>,
    back: Back,
) -> bool {
    match cheapest(t, metrics, best, inversion, to, n) {
        Some(b) => {
            let (state, y) = branch(b);
            let subset = (if t.outputs@[state] != inversion {
                16int
            } else {
                0int
            }) + y;
            &&& cost is Some
            &&& branch_cost(t, metrics, best, inversion, b) == Some(cost->0 as nat)
            &&& back == (Back { from: state as u8, labels: best[subset]->0.labels })
        },
        None => cost is None && back == (Back { from: 0, labels: (0, 0) }),
    }
}

/// The tables' trellis hangs together.
pub open spec fn well_coded(t: Tables) -> bool {
    &&& 1 <= t.states() <= 64
    &&& t.nexts@.len() == 16 * t.states()
    &&& forall|i: int| 0 <= i < t.nexts@.len() ==> (#[trigger] t.nexts@[i]) < t.states()
}

/// Costs no more than `most`.
pub open spec fn costs_within(costs: Seq<Option<u64>>, most: int) -> bool {
    forall|i: int|
        0 <= i < costs.len() ==> ((#[trigger] costs[i]) matches Some(cost) ==> cost <= most)
}

/// Pairs no further off than they can be.
pub open spec fn pairs_within(best: Seq<Option<Pair>>) -> bool {
    &&& best.len() == 32
    &&& forall|i: int|
        0 <= i < 32 ==> ((#[trigger] best[i]) matches Some(pair) ==> pair.off <= FAR
            && pair.labels.0 < 8 && pair.labels.1 < 8)
}

/// Ways back that can be followed.
pub open spec fn backs_within(backs: Seq<Back>, states: nat) -> bool {
    &&& backs.len() == states
    &&& forall|i: int|
        0 <= i < states ==> (#[trigger] backs[i]).from < states && backs[i].labels.0 < 8
            && backs[i].labels.1 < 8
}

/// What it costs to reach a state, one 4D symbol on, and the way there.
pub open spec fn reached(
    t: Tables,
    metrics: Seq<Option<u64>>,
    best: Seq<Option<Pair>>,
    inversion: bool,
    to: int,
) -> (Option<u64>, Back) {
    match cheapest(t, metrics, best, inversion, to, 16 * t.states()) {
        Some(b) => {
            let (state, y) = branch(b);
            let subset = (if t.outputs@[state] != inversion {
                16int
            } else {
                0int
            }) + y;
            (
                Some(branch_cost(t, metrics, best, inversion, b)->0 as u64),
                Back { from: state as u8, labels: best[subset]->0.labels },
            )
        },
        None => (None, Back { from: 0, labels: (0, 0) }),
    }
}

pub open spec fn costs_of(
    t: Tables,
    metrics: Seq<Option<u64>>,
    best: Seq<Option<Pair>>,
    inversion: bool,
) -> Seq<Option<u64>> {
    Seq::new(t.states(), |to: int| reached(t, metrics, best, inversion, to).0)
}

pub open spec fn backs_of(
    t: Tables,
    metrics: Seq<Option<u64>>,
    best: Seq<Option<Pair>>,
    inversion: bool,
) -> Seq<Back> {
    Seq::new(t.states(), |to: int| reached(t, metrics, best, inversion, to).1)
}

/// Every state's cost and way in are the cheapest branch's among the first so
/// many.
pub open spec fn all_survive(
    t: Tables,
    metrics: Seq<Option<u64>>,
    best: Seq<Option<Pair>>,
    inversion: bool,
    n: nat,
    costs: Seq<Option<u64>>,
    backs: Seq<Back>,
) -> bool {
    &&& costs.len() == t.states()
    &&& backs.len() == t.states()
    &&& forall|to: int|
        0 <= to < t.states() ==> #[trigger] is_survivor(
            t,
            metrics,
            best,
            inversion,
            to,
            n,
            costs[to],
            backs[to],
        )
}

/// A branch's cost and the way back along it, if it can be taken.
fn branch_at(
    t: &Tables,
    metrics: &Vec<Option<u64>>,
    best: &Vec<Option<Pair>>,
    inversion: bool,
    n: usize,
    most: u64,
) -> (taken: Option<(u64, Back)>)
    requires
        well_coded(*t),
        metrics@.len() == t.states(),
        pairs_within(best@),
        costs_within(metrics@, most as int),
        most < 0x7fff_ffff_ffff_ffff,
        n < 16 * t.states(),
    ensures
        ({
            let cost = branch_cost(*t, metrics@, best@, inversion, n as int);
            let (state, y) = branch(n as int);
            let subset = (if t.outputs@[state] != inversion {
                16int
            } else {
                0int
            }) + y;
            match taken {
                Some((total, back)) => {
                    &&& cost == Some(total as nat)
                    &&& back == (Back { from: state as u8, labels: best@[subset]->0.labels })
                    &&& total <= most + FAR
                    &&& back.from < t.states()
                    &&& back.labels.0 < 8 && back.labels.1 < 8
                },
                None => cost is None,
            }
        }),
{
    let (state, y): (usize, usize) = (n / 16, n % 16);
    let subset: usize = if t.outputs[state] != inversion {
        16 + y
    } else {
        y
    };
    let bits: u8 = y as u8;
    let taken: u8 = t.inputs;
    if bits & taken != bits {
        return None;
    }
    match (metrics[state], best[subset]) {
        (Some(metric), Some(pair)) => {
            Some((metric + pair.off, Back { from: state as u8, labels: pair.labels }))
        },
        _ => None,
    }
}

/// The cheapest way into each state, one 4D symbol on.
pub fn survivors(
    t: &Tables,
    metrics: &Vec<Option<u64>>,
    best: &Vec<Option<Pair>>,
    inversion: bool,
    most: u64,
) -> (next: (Vec<Option<u64>>, Vec<Back>))
    requires
        well_coded(*t),
        metrics@.len() == t.states(),
        pairs_within(best@),
        costs_within(metrics@, most as int),
        most < 0x7fff_ffff_ffff_ffff,
    ensures
        next.0@ == costs_of(*t, metrics@, best@, inversion),
        next.1@ == backs_of(*t, metrics@, best@, inversion),
        costs_within(next.0@, most + FAR),
        backs_within(next.1@, t.states()),
{
    let states: usize = t.outputs.len();
    let mut costs: Vec<Option<u64>> = Vec::new();
    let mut backs: Vec<Back> = Vec::new();
    let mut i: usize = 0;
    while i < states
        invariant
            i <= states,
            costs@.len() == i,
            backs@.len() == i,
            forall|j: int| 0 <= j < i ==> #[trigger] costs@[j] is None,
            forall|j: int|
                0 <= j < i ==> #[trigger] backs@[j] == (Back { from: 0, labels: (0, 0) }),
        decreases states - i,
    {
        costs.push(None);
        backs.push(Back { from: 0, labels: (0, 0) });
        i = i + 1;
    }
    let mut n: usize = 0;
    while n < 16 * states
        invariant
            n <= 16 * states,
            states == t.states(),
            well_coded(*t),
            metrics@.len() == states,
            pairs_within(best@),
            costs_within(metrics@, most as int),
            most < 0x7fff_ffff_ffff_ffff,
            all_survive(*t, metrics@, best@, inversion, n as nat, costs@, backs@),
            costs_within(costs@, most + FAR),
            backs_within(backs@, states as nat),
        decreases 16 * states - n,
    {
        let to: usize = t.nexts[n] as usize;
        let ghost was = (costs@, backs@);
        match branch_at(t, metrics, best, inversion, n, most) {
            Some((total, back)) => {
                let cheaper = match costs[to] {
                    Some(before) => total < before,
                    None => true,
                };
                assert(is_survivor(
                    *t,
                    metrics@,
                    best@,
                    inversion,
                    to as int,
                    n as nat,
                    was.0[to as int],
                    was.1[to as int],
                ));
                if cheaper {
                    costs.set(to, Some(total));
                    backs.set(to, back);
                }
            },
            None => {},
        }
        n = n + 1;
        assert forall|j: int| 0 <= j < states implies #[trigger] is_survivor(
            *t,
            metrics@,
            best@,
            inversion,
            j,
            n as nat,
            costs@[j],
            backs@[j],
        ) by {
            assert(is_survivor(
                *t,
                metrics@,
                best@,
                inversion,
                j,
                (n - 1) as nat,
                was.0[j],
                was.1[j],
            ));
        }
    }
    assert forall|j: int| 0 <= j < states implies (#[trigger] costs@[j], backs@[j]) == reached(
        *t,
        metrics@,
        best@,
        inversion,
        j,
    ) by {
        assert(is_survivor(
            *t,
            metrics@,
            best@,
            inversion,
            j,
            16 * t.states(),
            costs@[j],
            backs@[j],
        ));
    }
    assert(costs@ =~= costs_of(*t, metrics@, best@, inversion));
    assert forall|j: int| 0 <= j < states implies #[trigger] backs@[j] == backs_of(
        *t,
        metrics@,
        best@,
        inversion,
    )[j] by {
        assert((costs@[j], backs@[j]) == reached(*t, metrics@, best@, inversion, j));
    }
    assert(backs@ =~= backs_of(*t, metrics@, best@, inversion));
    (costs, backs)
}

/// The first state that costs least.
pub open spec fn is_first_least(costs: Seq<Option<u64>>, at: int) -> bool {
    &&& 0 <= at < costs.len()
    &&& costs[at] is Some
    &&& forall|i: int|
        0 <= i < costs.len() && costs[i] is Some ==> costs[at]->0 <= (#[trigger] costs[i])->0
    &&& forall|i: int|
        0 <= i < at && costs[i] is Some ==> costs[at]->0 < (#[trigger] costs[i])->0
}

/// The first of the first so many states that costs least, if any has been
/// reached.
pub open spec fn least_of(costs: Seq<Option<u64>>, n: nat) -> Option<int>
    decreases n,
{
    if n == 0 {
        None
    } else {
        let before = least_of(costs, (n - 1) as nat);
        let better = match before {
            Some(at) => costs[n - 1]->0 < costs[at]->0,
            None => true,
        };
        if costs[n - 1] is Some && better {
            Some(n - 1)
        } else {
            before
        }
    }
}

/// The first state that costs least, if any has been reached.
pub fn cheapest_state(costs: &Vec<Option<u64>>) -> (least: Option<(usize, u64)>)
    ensures
        match least {
            Some((at, cost)) => is_first_least(costs@, at as int) && costs@[at as int] == Some(
                cost,
            ) && least_of(costs@, costs@.len()) == Some(at as int),
            None => least_of(costs@, costs@.len()) is None && forall|i: int|
                0 <= i < costs@.len() ==> (#[trigger] costs@[i]) is None,
        },
{
    let mut least: Option<(usize, u64)> = None;
    let mut i: usize = 0;
    while i < costs.len()
        invariant
            i <= costs@.len(),
            match least {
                Some((at, cost)) => {
                    &&& at < i
                    &&& least_of(costs@, i as nat) == Some(at as int)
                    &&& costs@[at as int] == Some(cost)
                    &&& forall|j: int|
                        0 <= j < i && costs@[j] is Some ==> cost <= (#[trigger] costs@[j])->0
                    &&& forall|j: int|
                        0 <= j < at && costs@[j] is Some ==> cost < (#[trigger] costs@[j])->0
                },
                None => least_of(costs@, i as nat) is None && forall|j: int|
                    0 <= j < i ==> (#[trigger] costs@[j]) is None,
            },
        decreases costs@.len() - i,
    {
        match costs[i] {
            Some(cost) => {
                let better = match least {
                    Some((_, before)) => cost < before,
                    None => true,
                };
                if better {
                    least = Some((i, cost));
                }
            },
            None => {},
        }
        i = i + 1;
    }
    least
}

/// Costs less the least of them.
pub open spec fn lowered(costs: Seq<Option<u64>>, floor: int) -> Seq<Option<u64>> {
    Seq::new(
        costs.len(),
        |i: int|
            match costs[i] {
                Some(cost) => Some((cost - floor) as u64),
                None => None,
            },
    )
}

/// Costs with the least of them taken off each.
pub fn lower(costs: &Vec<Option<u64>>, floor: u64) -> (low: Vec<Option<u64>>)
    requires
        forall|i: int|
            0 <= i < costs@.len() && costs@[i] is Some ==> floor <= (#[trigger] costs@[i])->0,
    ensures
        low@ == lowered(costs@, floor as int),
{
    let mut low: Vec<Option<u64>> = Vec::new();
    let mut i: usize = 0;
    while i < costs.len()
        invariant
            i <= costs@.len(),
            forall|i: int|
                0 <= i < costs@.len() && costs@[i] is Some ==> floor <= (#[trigger] costs@[i])->0,
            low@ == lowered(costs@, floor as int).take(i as int),
        decreases costs@.len() - i,
    {
        let next = match costs[i] {
            Some(cost) => Some(cost - floor),
            None => None,
        };
        low.push(next);
        i = i + 1;
        assert(low@ =~= lowered(costs@, floor as int).take(i as int));
    }
    assert(low@ =~= lowered(costs@, floor as int));
    low
}

} // verus!
