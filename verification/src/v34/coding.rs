//! What data mode makes of a 4D symbol's bits, and how it is undone.
//!
//! I2 and I3 turn both points by a differentially encoded number of quarters.
//! I1 turns the second point half a revolution more, and the trellis encoder's
//! bit a quarter more again. The precoder moves each point by a multiple of 2
//! or 4 so that what arrives through the far end's channel is back on the grid.
//! The order of all that is fixed, because each step needs something the one
//! before it made: the precoder's correction for the second point is known
//! before the trellis bit is, and the trellis bit before the second point can
//! be turned.
use crate::v34::data::{round_steps, steps_of, the_precoder_rounds_to_the_nearest, Group};
use crate::v34::frame::Framing;
use vstd::arithmetic::power2::pow2;
use vstd::prelude::*;

verus! {

/// Units the precoder works in: 1/128 of a grid unit, so every value it makes is
/// a whole number.
pub const FINE: i64 = 128;

/// The furthest the precoder's memory reaches, in fine units.
pub const FURTHEST: i64 = 0x1000_0000_0000;

/// A point of the grid.
pub type Point = (i32, i32);

/// The precoder, in exact arithmetic.
#[derive(Debug, Clone, Copy, PartialEq, Eq)]
pub struct Precoder {
    /// h(1), h(2), h(3) in units of 2^-14.
    pub h: [(i16, i16); 3],
    /// What corrections are multiples of, in grid units.
    pub grid_step: i64,
    /// x(n - 1), x(n - 2), x(n - 3) in fine units.
    pub x: [(i64, i64); 3],
}

/// What the precoder predicts: the interference to come, in fine units, and the
/// correction for it, in steps.
pub struct Predicted {
    pub p: (int, int),
    pub steps: (int, int),
}

impl Precoder {
    pub open spec fn wf(self) -> bool {
        self.grid_step == 2 || self.grid_step == 4
    }

    /// Small enough for exact arithmetic.
    pub open spec fn within(self, reach: int) -> bool {
        forall|i: int|
            0 <= i < 3 ==> -reach <= (#[trigger] self.x@[i]).0 <= reach && -reach <= self.x@[i].1
                <= reach
    }

    /// The channel's response to the last three symbols, in units of 2^-21.
    pub open spec fn response(self) -> (int, int) {
        let (x, h) = (self.x@, self.h@);
        (
            (x[0].0 * h[0].0 - x[0].1 * h[0].1) + (x[1].0 * h[1].0 - x[1].1 * h[1].1) + (x[2].0
                * h[2].0 - x[2].1 * h[2].1),
            (x[0].0 * h[0].1 + x[0].1 * h[0].0) + (x[1].0 * h[1].1 + x[1].1 * h[1].0) + (x[2].0
                * h[2].1 + x[2].1 * h[2].0),
        )
    }

    /// To the nearest 2^-7, and from there the nearest correction.
    #[verifier::opaque]
    pub open spec fn predicted(self) -> Predicted {
        let (re, im) = self.response();
        let p = (steps_of(re, 16384), steps_of(im, 16384));
        let step = self.grid_step * 128;
        Predicted { p, steps: (steps_of(p.0, step), steps_of(p.1, step)) }
    }

    /// A channel output point gone out, less what was predicted.
    pub open spec fn pushed(self, y: (int, int)) -> Precoder {
        let p = self.predicted().p;
        Precoder {
            x: [((y.0 * 128 - p.0) as i64, (y.1 * 128 - p.1) as i64), self.x@[0], self.x@[1]],
            ..self
        }
    }

    /// A point as the channel will give it back.
    pub open spec fn corrected(self, u: (int, int)) -> (int, int) {
        let steps = self.predicted().steps;
        (u.0 + steps.0 * self.grid_step, u.1 + steps.1 * self.grid_step)
    }

    /// The point a channel output point was made from.
    pub open spec fn uncorrected(self, y: (int, int)) -> (int, int) {
        let steps = self.predicted().steps;
        (y.0 - steps.0 * self.grid_step, y.1 - steps.1 * self.grid_step)
    }

    pub fn new(framing: &Framing, h: [(i16, i16); 3]) -> (precoder: Precoder)
        ensures
            precoder == (Precoder {
                h,
                grid_step: (2 * framing.scale()) as i64,
                x: [(0, 0), (0, 0), (0, 0)],
            }),
            precoder.wf(),
            precoder.within(0),
    {
        Precoder { h, grid_step: 2 * framing.precoder_scale(), x: [(0, 0), (0, 0), (0, 0)] }
    }

    /// What is predicted of the next symbol, in fine units, and the steps that
    /// correct for it.
    pub fn predict(&self) -> (predicted: ((i64, i64), (i64, i64)))
        requires
            self.wf(),
            self.within(FURTHEST as int),
        ensures
            (predicted.0.0 as int, predicted.0.1 as int) == self.predicted().p,
            (predicted.1.0 as int, predicted.1.1 as int) == self.predicted().steps,
            -0xc000_0000_0001 <= predicted.0.0 <= 0xc000_0000_0001,
            -0xc000_0000_0001 <= predicted.0.1 <= 0xc000_0000_0001,
            -0xc0_0000_0001 <= predicted.1.0 <= 0xc0_0000_0001,
            -0xc0_0000_0001 <= predicted.1.1 <= 0xc0_0000_0001,
    {
        let (x, h) = (self.x, self.h);
        proof {
            reveal(Precoder::predicted);
            assert(x@[0] == self.x@[0] && x@[1] == self.x@[1] && x@[2] == self.x@[2]);
        }
        let (r0, i0): (i64, i64) = times(x[0], h[0]);
        let (r1, i1): (i64, i64) = times(x[1], h[1]);
        let (r2, i2): (i64, i64) = times(x[2], h[2]);
        let (re, im): (i64, i64) = (r0 + r1 + r2, i0 + i1 + i2);
        proof {
            lemma_steps_bound(re as int, 16384, 0x3000_0000_0000_0000);
            lemma_steps_bound(im as int, 16384, 0x3000_0000_0000_0000);
        }
        let p: (i64, i64) = (round_steps(re, 16384), round_steps(im, 16384));
        let step: i64 = self.grid_step * FINE;
        proof {
            assert(step == 256 || step == 512);
            lemma_steps_bound(p.0 as int, step as int, 0xc000_0000_0001);
            lemma_steps_bound(p.1 as int, step as int, 0xc000_0000_0001);
        }
        (p, (round_steps(p.0, step), round_steps(p.1, step)))
    }

    /// A channel output point gone out.
    pub fn push(&mut self, y: (i64, i64), p: (i64, i64))
        requires
            (p.0 as int, p.1 as int) == old(self).predicted().p,
            -0x100_0000_0000 <= y.0 <= 0x100_0000_0000,
            -0x100_0000_0000 <= y.1 <= 0x100_0000_0000,
            -0xc000_0000_0001 <= p.0 <= 0xc000_0000_0001,
            -0xc000_0000_0001 <= p.1 <= 0xc000_0000_0001,
        ensures
            *final(self) == old(self).pushed((y.0 as int, y.1 as int)),
    {
        let x: (i64, i64) = (y.0 * FINE - p.0, y.1 * FINE - p.1);
        let next: [(i64, i64); 3] = [x, self.x[0], self.x[1]];
        let ghost before = *self;
        self.x = next;
        assert(self.x == before.pushed((y.0 as int, y.1 as int)).x);
    }
}

/// A product of complex numbers.
fn times(x: (i64, i64), h: (i16, i16)) -> (product: (i64, i64))
    requires
        -FURTHEST <= x.0 <= FURTHEST,
        -FURTHEST <= x.1 <= FURTHEST,
    ensures
        product.0 == x.0 * h.0 - x.1 * h.1,
        product.1 == x.0 * h.1 + x.1 * h.0,
        -0x1000_0000_0000_0000 <= product.0 <= 0x1000_0000_0000_0000,
        -0x1000_0000_0000_0000 <= product.1 <= 0x1000_0000_0000_0000,
{
    proof {
        lemma_product(x.0 as int, h.0 as int);
        lemma_product(x.0 as int, h.1 as int);
        lemma_product(x.1 as int, h.0 as int);
        lemma_product(x.1 as int, h.1 as int);
    }
    let (re, im): (i64, i64) = (h.0 as i64, h.1 as i64);
    (x.0 * re - x.1 * im, x.0 * im + x.1 * re)
}

proof fn lemma_product(a: int, b: int)
    requires
        -0x1000_0000_0000 <= a <= 0x1000_0000_0000,
        -0x8000 <= b <= 0x8000,
    ensures
        -0x800_0000_0000_0000 <= a * b <= 0x800_0000_0000_0000,
{
    assert(-0x1000_0000_0000 * 0x8000 <= a * b <= 0x1000_0000_0000 * 0x8000) by (nonlinear_arith)
        requires
            -0x1000_0000_0000 <= a <= 0x1000_0000_0000,
            -0x8000 <= b <= 0x8000,
    ;
}

/// Rounding to steps does not reach past the next one.
proof fn lemma_steps_bound(value: int, step: int, bound: int)
    requires
        step > 0,
        -bound <= value <= bound,
    ensures
        -(bound / step + 1) <= steps_of(value, step) <= bound / step + 1,
{
    let size = if value >= 0 {
        value
    } else {
        -value
    };
    assert(0 <= (size + (step - 1) / 2) / step <= bound / step + 1) by (nonlinear_arith)
        requires
            0 <= size <= bound,
            step > 0,
    ;
}

/// A point turned clockwise by so many quarters.
pub open spec fn turned(p: (int, int), quarters: int) -> (int, int) {
    if quarters == 0 {
        p
    } else if quarters == 1 {
        (p.1, -p.0)
    } else if quarters == 2 {
        (-p.0, -p.1)
    } else {
        (-p.1, p.0)
    }
}

/// Turned the other way.
pub open spec fn turned_back(p: (int, int), quarters: int) -> (int, int) {
    turned(p, if quarters == 0 {
        0
    } else {
        4 - quarters
    })
}

pub fn clockwise(p: Point, quarters: u32) -> (turned: Point)
    requires
        quarters < 4,
        p.0 > i32::MIN,
        p.1 > i32::MIN,
    ensures
        whole(turned) == self::turned(whole(p), quarters as int),
{
    match quarters {
        0 => p,
        1 => (p.1, -p.0),
        2 => (-p.0, -p.1),
        _ => (-p.1, p.0),
    }
}

pub fn counterclockwise(p: Point, quarters: u32) -> (turned: Point)
    requires
        quarters < 4,
        p.0 > i32::MIN,
        p.1 > i32::MIN,
    ensures
        whole(turned) == turned_back(whole(p), quarters as int),
{
    match quarters {
        0 => p,
        1 => (-p.1, p.0),
        2 => (-p.0, -p.1),
        _ => (p.1, -p.0),
    }
}

/// A point's coordinates as numbers.
pub open spec fn whole(p: Point) -> (int, int) {
    (p.0 as int, p.1 as int)
}

/// The quarter turns that carry a point of the quarter superconstellation, both
/// of whose coordinates are one more than a multiple of four, to this point.
pub open spec fn turns_of(p: (int, int)) -> int {
    if p.0 % 4 == 1 {
        if p.1 % 4 == 1 {
            0
        } else {
            1
        }
    } else if p.1 % 4 == 1 {
        3
    } else {
        2
    }
}

/// A point's turn is read from it, and turning it back brings it home.
pub proof fn a_turn_is_read_back(p: (int, int), quarters: int)
    requires
        p.0 % 4 == 1,
        p.1 % 4 == 1,
        0 <= quarters < 4,
    ensures
        turns_of(turned(p, quarters)) == quarters,
        turned_back(turned(p, quarters), quarters) == p,
{
}

/// The tables the coding of data mode goes by.
#[derive(Debug, Clone)]
pub struct Tables {
    /// The quarter superconstellation, by label.
    pub quarter: Vec<Point>,
    /// The subset label of a grid point, by its two coordinates among the odd
    /// numbers, each counted modulo four.
    pub labels: [u8; 16],
    /// What the labels of two points come to as trellis inputs.
    pub conversions: [u8; 64],
    /// The inputs the code in use takes.
    pub inputs: u8,
    /// The code's output bit from each state.
    pub outputs: Vec<bool>,
    /// The state each of sixteen inputs leads to from each state.
    pub nexts: Vec<u8>,
    /// The bit inversions of a superframe, two to a data frame.
    pub inversions: Vec<bool>,
}

impl Tables {
    pub open spec fn states(self) -> nat {
        self.outputs@.len()
    }

    pub open spec fn wf(self, f: Framing) -> bool {
        &&& f.l <= 4 * self.quarter@.len()
        &&& 1 <= self.quarter@.len() <= 0xffff
        &&& forall|i: int|
            0 <= i < self.quarter@.len() ==> {
                let p = whole(#[trigger] self.quarter@[i]);
                -127 <= p.0 <= 127 && -127 <= p.1 <= 127 && p.0 % 4 == 1 && p.1 % 4 == 1
            }
        &&& forall|i: int, j: int|
            0 <= i < j < self.quarter@.len() ==> #[trigger] self.quarter@[i]
                != #[trigger] self.quarter@[j]
        &&& forall|i: int| 0 <= i < 16 ==> #[trigger] self.labels@[i] < 8
        &&& forall|i: int| 0 <= i < 64 ==> #[trigger] self.conversions@[i] < 16
        &&& self.inputs < 16
        &&& 1 <= self.states() <= 64
        &&& self.nexts@.len() == 16 * self.states()
        &&& forall|i: int|
            0 <= i < self.nexts@.len() ==> (#[trigger] self.nexts@[i]) < self.states()
        &&& self.inversions@.len() == 2 * f.j
    }

    /// A grid point's label.
    pub open spec fn label_of(self, p: (int, int)) -> u8 {
        self.labels@[(p.0 - 1) / 2 % 4 * 4 + (p.1 - 1) / 2 % 4]
    }

    /// The trellis inputs of two points.
    pub open spec fn inputs_of(self, first: (int, int), second: (int, int)) -> u8 {
        self.conversions@[8 * self.label_of(first) + self.label_of(second)] & self.inputs
    }

    /// The point of a label, the last for one past it.
    pub open spec fn point_of(self, label: int) -> (int, int) {
        whole(
            self.quarter@[if label < self.quarter@.len() {
                label
            } else {
                self.quarter@.len() - 1
            }],
        )
    }

    /// The label of a point, if it has one among the first so many.
    pub open spec fn is_label(self, p: (int, int), label: int, count: int) -> bool {
        0 <= label < count && label < self.quarter@.len() && whole(self.quarter@[label]) == p
    }

    /// The bit inversion of a 4D symbol since the start of B1, which is sent as
    /// the last data frame of a superframe.
    pub open spec fn inverted(self, f: Framing, m: int) -> bool {
        let half = 2 * f.p;
        m % half == 0 && self.inversions@[(m / half + 2 * f.j - 2) % (2 * f.j)]
    }

    pub fn label(&self, p: Point) -> (label: u8)
        requires
            forall|i: int| 0 <= i < 16 ==> #[trigger] self.labels@[i] < 8,
            -0x100_0000 <= p.0 <= 0x100_0000,
            -0x100_0000 <= p.1 <= 0x100_0000,
        ensures
            label == self.label_of(whole(p)),
            label < 8,
    {
        let x: usize = ((p.0 + 0x200_0000 - 1) as usize) / 2 % 4;
        let y: usize = ((p.1 + 0x200_0000 - 1) as usize) / 2 % 4;
        assert(x == (p.0 - 1) / 2 % 4 && y == (p.1 - 1) / 2 % 4);
        self.labels[x * 4 + y]
    }

    fn convert(&self, first: Point, second: Point) -> (inputs: u8)
        requires
            forall|i: int| 0 <= i < 16 ==> #[trigger] self.labels@[i] < 8,
            -0x100_0000 <= first.0 <= 0x100_0000,
            -0x100_0000 <= first.1 <= 0x100_0000,
            -0x100_0000 <= second.0 <= 0x100_0000,
            -0x100_0000 <= second.1 <= 0x100_0000,
            forall|i: int| 0 <= i < 64 ==> #[trigger] self.conversions@[i] < 16,
        ensures
            inputs == self.inputs_of(whole(first), whole(second)),
            inputs < 16,
    {
        let at: usize = 8 * (self.label(first) as usize) + self.label(second) as usize;
        let all: u8 = self.conversions[at];
        let taken: u8 = self.inputs;
        assert(all & taken <= all) by (bit_vector);
        all & taken
    }

    /// The label of a point among the first so many, if it has one.
    pub fn quarter_label(&self, p: Point, count: usize) -> (label: Option<usize>)
        ensures
            label matches Some(l) ==> self.is_label(whole(p), l as int, count as int) && forall|
                i: int,
            |
                0 <= i < l ==> !#[trigger] self.is_label(whole(p), i, count as int),
            label is None ==> forall|i: int| !#[trigger] self.is_label(whole(p), i, count as int),
    {
        let mut i: usize = 0;
        while i < count && i < self.quarter.len()
            invariant
                i <= count,
                forall|j: int|
                    0 <= j < i ==> !#[trigger] self.is_label(whole(p), j, count as int),
            decreases count - i,
        {
            let q = self.quarter[i];
            if q.0 == p.0 && q.1 == p.1 {
                return Some(i);
            }
            i = i + 1;
        }
        None
    }

    pub fn inversion_at(&self, f: &Framing, m: u64) -> (inverted: bool)
        requires
            f.wf(),
            self.inversions@.len() == 2 * f.j,
        ensures
            inverted == self.inverted(*f, m as int),
    {
        let half: u64 = 2 * (f.p as u64);
        let halves: u64 = 2 * (f.j as u64);
        if m % half != 0 {
            return false;
        }
        let within: u64 = (m / half % halves + halves - 2) % halves;
        proof {
            let (a, n) = ((m / half) as int, halves as int);
            assert((a % n + n - 2) % n == (a + n - 2) % n) by {
                vstd::arithmetic::div_mod::lemma_add_mod_noop(a, n - 2, n);
                vstd::arithmetic::div_mod::lemma_add_mod_noop(a % n, n - 2, n);
                vstd::arithmetic::div_mod::lemma_mod_twice(a, n);
            }
        }
        self.inversions[within as usize]
    }
}

/// Where the differential encoder and the precoder have got to, the same at both
/// ends.
#[derive(Debug, Clone, Copy, PartialEq, Eq)]
pub struct Running {
    pub z: u32,
    pub precoder: Precoder,
}

/// A 4D symbol on its way out: the two channel output points, where the encoders
/// have got to, and the trellis encoder's next state.
pub struct Encoded {
    pub y: ((int, int), (int, int)),
    pub next: Running,
    pub state: u8,
}

/// A 4D symbol brought back: its bits, its rings, and where the decoders have
/// got to.
pub struct Decoded {
    pub group: Group,
    pub rings: (nat, nat),
    pub next: Running,
    pub outside: nat,
}

/// What the precoder's corrections add to the parity of the labels: corrections
/// are even, so half their sum is a whole number.
#[verifier::opaque]
pub open spec fn carried(first: Precoder, second: Precoder) -> bool {
    let (a, b) = (first.predicted().steps, second.predicted().steps);
    (a.0 + a.1 + b.0 + b.1) * (first.grid_step / 2) % 2 == 1
}

pub open spec fn bit(b: bool) -> int {
    if b {
        1
    } else {
        0
    }
}

impl Running {
    /// At the start of B1: the differential encoder and the precoder at zero.
    pub open spec fn fresh(f: Framing, h: [(i16, i16); 3]) -> Running {
        Running {
            z: 0,
            precoder: Precoder {
                h,
                grid_step: (2 * f.scale()) as i64,
                x: [(0, 0), (0, 0), (0, 0)],
            },
        }
    }

    pub open spec fn wf(self) -> bool {
        self.z < 4 && self.precoder.wf()
    }

    /// The quarters both points are turned by.
    pub open spec fn turned_by(self, group: Group) -> int {
        (self.z + bit(group.i2) + 2 * bit(group.i3)) % 4
    }

    /// A 4D symbol out, from a state of the trellis encoder.
    pub open spec fn encoded(
        self,
        t: Tables,
        f: Framing,
        group: Group,
        rings: (nat, nat),
        state: u8,
        m: int,
    ) -> Encoded {
        let z = self.turned_by(group);
        let width = pow2(f.q as nat);
        let v0 = t.point_of(group.q.0 + rings.0 * width);
        let v1 = t.point_of(group.q.1 + rings.1 * width);
        let y0 = self.precoder.corrected(turned(v0, z));
        let between = self.precoder.pushed(y0);
        let odd = (t.outputs@[state as int] != carried(self.precoder, between)) != t.inverted(f, m);
        let y1 = between.corrected(turned(v1, (z + 2 * bit(group.i1) + bit(odd)) % 4));
        Encoded {
            y: (y0, y1),
            next: Running { z: z as u32, precoder: between.pushed(y1) },
            state: t.nexts@[16 * state + t.inputs_of(y0, y1)],
        }
    }

    /// A decided point's label, zero for a point outside the constellation.
    #[verifier::opaque]
    pub open spec fn relabelled(t: Tables, f: Framing, u: (int, int)) -> nat {
        let home = turned_back(u, turns_of(u));
        if exists|l: int| #[trigger] t.is_label(home, l, f.l as int / 4) {
            (choose|l: int| #[trigger] t.is_label(home, l, f.l as int / 4)) as nat
        } else {
            0
        }
    }

    #[verifier::opaque]
    pub open spec fn strayed(t: Tables, f: Framing, u: (int, int)) -> nat {
        let home = turned_back(u, turns_of(u));
        if exists|l: int| #[trigger] t.is_label(home, l, f.l as int / 4) {
            0
        } else {
            1
        }
    }

    /// A decided 4D symbol undone, which left from a state of the trellis.
    pub open spec fn decoded(
        self,
        t: Tables,
        f: Framing,
        y: ((int, int), (int, int)),
        state: u8,
        m: int,
    ) -> Decoded {
        let between = self.precoder.pushed(y.0);
        let u0 = self.precoder.uncorrected(y.0);
        let u1 = between.uncorrected(y.1);
        let odd = (t.outputs@[state as int] != carried(self.precoder, between)) != t.inverted(f, m);
        let (z, turn) = (turns_of(u0), turns_of(u1));
        let i = (z + 4 - self.z) % 4;
        let width = pow2(f.q as nat);
        let (l0, l1) = (Running::relabelled(t, f, u0), Running::relabelled(t, f, u1));
        Decoded {
            group: Group {
                i1: (turn + 8 - z - bit(odd)) % 4 / 2 == 1,
                i2: i % 2 == 1,
                i3: i / 2 == 1,
                q: ((l0 % width) as u32, (l1 % width) as u32),
            },
            rings: ((l0 / width) as nat, (l1 / width) as nat),
            next: Running { z: z as u32, precoder: between.pushed(y.1) },
            outside: Running::strayed(t, f, u0) + Running::strayed(t, f, u1),
        }
    }
}

/// A point of the quarter superconstellation has one label only.
proof fn lemma_one_label(t: Tables, f: Framing, label: int, quarters: int)
    requires
        t.wf(f),
        0 <= label < f.l / 4,
        label < t.quarter@.len(),
        0 <= quarters < 4,
    ensures
        turns_of(turned(t.point_of(label), quarters)) == quarters,
        Running::relabelled(t, f, turned(t.point_of(label), quarters)) == label,
        Running::strayed(t, f, turned(t.point_of(label), quarters)) == 0,
{
    reveal(Running::relabelled);
    reveal(Running::strayed);
    let p = t.point_of(label);
    let count = (f.l / 4) as int;
    assert(whole(t.quarter@[label]) == p);
    a_turn_is_read_back(p, quarters);
    assert(t.is_label(p, label, count));
    let l = choose|l: int| #[trigger] t.is_label(p, l, count);
    assert(whole(t.quarter@[l]) == whole(t.quarter@[label]));
    assert(t.quarter@[l] == t.quarter@[label]);
    if l < label {
        assert(t.quarter@[l] != t.quarter@[label]);
    } else if label < l {
        assert(t.quarter@[label] != t.quarter@[l]);
    }
}

/// A 4D symbol is undone by the end it was made for: decided without error, it
/// gives back the bits and the rings it was made of, and leaves the decoder
/// where the encoder is.
pub proof fn a_4d_symbol_is_undone(
    at: Running,
    t: Tables,
    f: Framing,
    group: Group,
    rings: (nat, nat),
    state: u8,
    m: int,
)
    requires
        at.wf(),
        f.wf(),
        t.wf(f),
        group.q.0 < pow2(f.q as nat),
        group.q.1 < pow2(f.q as nat),
        rings.0 < f.m,
        rings.1 < f.m,
    ensures
        ({
            let encoded = at.encoded(t, f, group, rings, state, m);
            let decoded = at.decoded(t, f, encoded.y, state, m);
            &&& decoded.group == group
            &&& decoded.rings == rings
            &&& decoded.next == encoded.next
            &&& decoded.outside == 0
        }),
{
    let width = pow2(f.q as nat);
    vstd::arithmetic::power2::lemma_pow2_pos(f.q as nat);
    let l0 = group.q.0 + rings.0 * width;
    let l1 = group.q.1 + rings.1 * width;
    lemma_shared(group.q.0 as nat, rings.0, width, f.m as nat);
    lemma_shared(group.q.1 as nat, rings.1, width, f.m as nat);
    assert(f.l / 4 == f.m * width) by {
        assert(4 * f.m * width == 4 * (f.m * width)) by (nonlinear_arith);
    }
    let z = at.turned_by(group);
    let encoded = at.encoded(t, f, group, rings, state, m);
    let u0 = turned(t.point_of(l0), z);
    lemma_one_label(t, f, l0, z);
    assert(at.precoder.uncorrected(encoded.y.0) == u0);
    let between = at.precoder.pushed(encoded.y.0);
    let odd = (t.outputs@[state as int] != carried(at.precoder, between)) != t.inverted(f, m);
    let turn = (z + 2 * bit(group.i1) + bit(odd)) % 4;
    lemma_one_label(t, f, l1, turn);
    assert(between.uncorrected(encoded.y.1) == turned(t.point_of(l1), turn));
    lemma_turns(at.z as int, group.i1, group.i2, group.i3, odd);
    let decoded = at.decoded(t, f, encoded.y, state, m);
    assert(decoded.rings == rings);
    assert(decoded.group == group);
}

/// The bits that turn two points are read back from their turns.
proof fn lemma_turns(before: int, i1: bool, i2: bool, i3: bool, odd: bool)
    requires
        0 <= before < 4,
    ensures
        ({
            let z = (before + bit(i2) + 2 * bit(i3)) % 4;
            let turn = (z + 2 * bit(i1) + bit(odd)) % 4;
            let i = (z + 4 - before) % 4;
            &&& (turn + 8 - z - bit(odd)) % 4 / 2 == bit(i1)
            &&& i % 2 == bit(i2)
            &&& i / 2 == bit(i3)
        }),
{
}

/// A ring and a place in it share out a label.
proof fn lemma_shared(place: nat, ring: nat, width: nat, rings: nat)
    requires
        place < width,
        ring < rings,
    ensures
        place + ring * width < rings * width,
        (place + ring * width) % width == place,
        (place + ring * width) / width == ring,
{
    assert(place + ring * width < rings * width) by (nonlinear_arith)
        requires
            place < width,
            ring < rings,
    ;
    vstd::arithmetic::div_mod::lemma_fundamental_div_mod_converse(
        (place + ring * width) as int,
        width as int,
        ring as int,
        place as int,
    );
}

/// What is predicted is no more than twelve times the precoder's memory, and the
/// correction is within half a step of it.
pub proof fn lemma_predicted(precoder: Precoder, reach: int)
    requires
        precoder.wf(),
        0 <= reach,
        precoder.within(reach),
    ensures
        ({
            let predicted = precoder.predicted();
            let step = precoder.grid_step * 128;
            &&& -(12 * reach + 1) <= predicted.p.0 <= 12 * reach + 1
            &&& -(12 * reach + 1) <= predicted.p.1 <= 12 * reach + 1
            &&& -256 <= predicted.steps.0 * step - predicted.p.0 <= 256
            &&& -256 <= predicted.steps.1 * step - predicted.p.1 <= 256
            &&& predicted.steps.0 * step == 128 * (predicted.steps.0 * precoder.grid_step)
            &&& predicted.steps.1 * step == 128 * (predicted.steps.1 * precoder.grid_step)
        }),
{
    reveal(Precoder::predicted);
    let (x, h) = (precoder.x@, precoder.h@);
    assert forall|i: int| 0 <= i < 3 implies {
        let (a, b) = (#[trigger] x[i], h[i]);
        &&& -65536 * reach <= a.0 * b.0 - a.1 * b.1 <= 65536 * reach
        &&& -65536 * reach <= a.0 * b.1 + a.1 * b.0 <= 65536 * reach
    } by {
        let (a, b) = (x[i], h[i]);
        assert(-reach <= precoder.x@[i].0 <= reach);
        lemma_reach(a.0 as int, b.0 as int, reach);
        lemma_reach(a.0 as int, b.1 as int, reach);
        lemma_reach(a.1 as int, b.0 as int, reach);
        lemma_reach(a.1 as int, b.1 as int, reach);
    }
    assert(x[0] == x[0] && x[1] == x[1] && x[2] == x[2]);
    let (re, im) = precoder.response();
    lemma_steps_bound(re, 16384, 196608 * reach);
    lemma_steps_bound(im, 16384, 196608 * reach);
    assert(196608 * reach / 16384 == 12 * reach);
    let p = precoder.predicted().p;
    let step = precoder.grid_step * 128;
    the_precoder_rounds_to_the_nearest(p.0, step, 0);
    the_precoder_rounds_to_the_nearest(p.1, step, 0);
    let steps = precoder.predicted().steps;
    assert(steps.0 * step == 128 * (steps.0 * precoder.grid_step) && steps.1 * step == 128 * (
    steps.1 * precoder.grid_step)) by (nonlinear_arith)
        requires
            step == precoder.grid_step * 128,
    ;
}

proof fn lemma_reach(a: int, b: int, reach: int)
    requires
        -reach <= a <= reach,
        -0x8000 <= b <= 0x8000,
    ensures
        -32768 * reach <= a * b <= 32768 * reach,
{
    assert(-32768 * reach <= a * b <= 32768 * reach) by (nonlinear_arith)
        requires
            -reach <= a <= reach,
            -0x8000 <= b <= 0x8000,
    ;
}

/// The furthest the precoder's memory reaches at the sending end: the largest
/// point, and half a step.
pub const SENT: i64 = 16512;

/// The furthest it may reach at the receiving end for the next symbol's
/// arithmetic to be exact.
pub const SAFE: i64 = 0x800_0000;

/// A point of the constellation, corrected, is not far out, and what leaves in
/// its place is within reach.
pub proof fn lemma_corrected(precoder: Precoder, u: (int, int))
    requires
        precoder.wf(),
        precoder.within(SENT as int),
        -127 <= u.0 <= 127,
        -127 <= u.1 <= 127,
    ensures
        ({
            let y = precoder.corrected(u);
            &&& -2000 <= y.0 <= 2000
            &&& -2000 <= y.1 <= 2000
            &&& precoder.pushed(y).wf()
            &&& precoder.pushed(y).within(SENT as int)
        }),
{
    lemma_predicted(precoder, SENT as int);
    let y = precoder.corrected(u);
    let pushed = precoder.pushed(y);
    assert(pushed.x@[1] == precoder.x@[0] && pushed.x@[2] == precoder.x@[1]);
    let p = precoder.predicted().p;
    assert(pushed.x@[0].0 == y.0 * 128 - p.0 && pushed.x@[0].1 == y.1 * 128 - p.1);
}

impl Precoder {
    /// A point corrected, and what was predicted of it.
    fn correct(&self, u: Point) -> (corrected: (Point, (i64, i64), (i64, i64)))
        requires
            self.wf(),
            self.within(SENT as int),
            -127 <= u.0 <= 127,
            -127 <= u.1 <= 127,
        ensures
            whole(corrected.0) == self.corrected(whole(u)),
            (corrected.1.0 as int, corrected.1.1 as int) == self.predicted().p,
            (corrected.2.0 as int, corrected.2.1 as int) == self.predicted().steps,
            -2000 <= corrected.0.0 <= 2000,
            -2000 <= corrected.0.1 <= 2000,
            -200000 <= corrected.1.0 <= 200000,
            -200000 <= corrected.1.1 <= 200000,
            -2000 <= corrected.2.0 <= 2000,
            -2000 <= corrected.2.1 <= 2000,
            self.pushed(whole(corrected.0)).within(SENT as int),
    {
        let (p, steps): ((i64, i64), (i64, i64)) = self.predict();
        proof {
            lemma_predicted(*self, SENT as int);
            let g = self.grid_step;
            assert(-2000 <= steps.0 * g <= 2000 && -2000 <= steps.1 * g <= 2000);
            assert(-1000 <= steps.0 <= 1000 && -1000 <= steps.1 <= 1000) by (nonlinear_arith)
                requires
                    -2000 <= steps.0 * g <= 2000,
                    -2000 <= steps.1 * g <= 2000,
                    g == 2 || g == 4,
            ;
        }
        let y: Point = (
            u.0 + (steps.0 * self.grid_step) as i32,
            u.1 + (steps.1 * self.grid_step) as i32,
        );
        proof {
            let pushed = self.pushed(whole(y));
            assert(pushed.x@[1] == self.x@[0] && pushed.x@[2] == self.x@[1]);
            assert(pushed.x@[0].0 == y.0 * 128 - p.0 && pushed.x@[0].1 == y.1 * 128 - p.1);
        }
        (y, p, steps)
    }

    fn advance(&mut self, y: Point, p: (i64, i64))
        requires
            (p.0 as int, p.1 as int) == old(self).predicted().p,
            -0xc000_0000_0001 <= p.0 <= 0xc000_0000_0001,
            -0xc000_0000_0001 <= p.1 <= 0xc000_0000_0001,
        ensures
            *final(self) == old(self).pushed(whole(y)),
    {
        self.push((y.0 as i64, y.1 as i64), p);
    }
}

/// A point no further out than any that is received.
pub open spec fn on_the_grid(p: Point) -> bool {
    -0x10_0000 <= p.0 <= 0x10_0000 && -0x10_0000 <= p.1 <= 0x10_0000
}

/// A correction no larger than `most` grid units, by the prediction behind it.
proof fn lemma_small_steps(precoder: Precoder, most: int)
    requires
        precoder.wf(),
        ({
            let predicted = precoder.predicted();
            let step = precoder.grid_step * 128;
            &&& -128 * most + 256 <= predicted.p.0 <= 128 * most - 256
            &&& -128 * most + 256 <= predicted.p.1 <= 128 * most - 256
            &&& -256 <= predicted.steps.0 * step - predicted.p.0 <= 256
            &&& -256 <= predicted.steps.1 * step - predicted.p.1 <= 256
            &&& predicted.steps.0 * step == 128 * (predicted.steps.0 * precoder.grid_step)
            &&& predicted.steps.1 * step == 128 * (predicted.steps.1 * precoder.grid_step)
        }),
    ensures
        -most <= precoder.predicted().steps.0 * precoder.grid_step <= most,
        -most <= precoder.predicted().steps.1 * precoder.grid_step <= most,
{
}

/// A channel output point less its correction.
fn uncorrect(y: Point, steps: (i64, i64), grid_step: i64) -> (u: Point)
    requires
        on_the_grid(y),
        -0x7000_0000 <= steps.0 * grid_step <= 0x7000_0000,
        -0x7000_0000 <= steps.1 * grid_step <= 0x7000_0000,
    ensures
        u.0 == y.0 - steps.0 * grid_step,
        u.1 == y.1 - steps.1 * grid_step,
{
    (y.0 - (steps.0 * grid_step) as i32, y.1 - (steps.1 * grid_step) as i32)
}

/// The quarters a point is turned by.
fn turns(p: Point) -> (quarters: u32)
    ensures
        quarters == turns_of(whole(p)),
        quarters < 4,
{
    let x: u64 = (p.0 as i64 + 0x1_0000_0000) as u64;
    let y: u64 = (p.1 as i64 + 0x1_0000_0000) as u64;
    assert(x % 4 == p.0 as int % 4 && y % 4 == p.1 as int % 4);
    if x % 4 == 1 {
        if y % 4 == 1 {
            0
        } else {
            1
        }
    } else if y % 4 == 1 {
        3
    } else {
        2
    }
}

/// What the corrections of two points add to the parity of their labels.
fn carry(a: (i64, i64), b: (i64, i64), grid_step: i64) -> (odd: bool)
    requires
        grid_step == 2 || grid_step == 4,
        -0xc0_0000_0001 <= a.0 <= 0xc0_0000_0001,
        -0xc0_0000_0001 <= a.1 <= 0xc0_0000_0001,
        -0xc0_0000_0001 <= b.0 <= 0xc0_0000_0001,
        -0xc0_0000_0001 <= b.1 <= 0xc0_0000_0001,
    ensures
        odd == ((a.0 + a.1 + b.0 + b.1) * (grid_step as int / 2) % 2 == 1),
{
    let sum: i64 = a.0 + a.1 + b.0 + b.1;
    let ghost half = grid_step as int / 2;
    if grid_step == 4 {
        assert(sum * half == 2 * sum) by (nonlinear_arith)
            requires
                half == 2,
        ;
        return false;
    }
    assert(sum * half == sum) by (nonlinear_arith)
        requires
            half == 1,
    ;
    let shifted: u64 = (sum + 0x1000_0000_0000) as u64;
    shifted % 2 == 1
}

fn quarters(b: bool) -> (n: u32)
    ensures
        n == bit(b),
{
    if b {
        1
    } else {
        0
    }
}

impl Running {
    /// From the start of B1.
    pub fn new(framing: &Framing, h: [(i16, i16); 3]) -> (running: Running)
        ensures
            running == Running::fresh(*framing, h),
            running.wf(),
            running.precoder.within(0),
    {
        Running { z: 0, precoder: Precoder::new(framing, h) }
    }

    fn point(t: &Tables, f: &Framing, place: u32, ring: usize) -> (point: Point)
        requires
            f.wf(),
            t.wf(*f),
            place < pow2(f.q as nat),
            ring < f.m,
        ensures
            whole(point) == t.point_of(place + ring * pow2(f.q as nat)),
            -127 <= point.0 <= 127,
            -127 <= point.1 <= 127,
    {
        let width: usize = f.width();
        proof {
            lemma_shared(place as nat, ring as nat, width as nat, f.m as nat);
            assert(ring * width <= 19 * 32) by (nonlinear_arith)
                requires
                    ring <= 19,
                    width <= 32,
            ;
            assert(4 * f.m * width == 4 * (f.m * width)) by (nonlinear_arith);
        }
        let label: usize = place as usize + ring * width;
        t.quarter[label]
    }

    /// A 4D symbol out, from a state of the trellis encoder: the two channel
    /// output points, what leaves in their place in fine units, and the trellis
    /// encoder's next state.
    pub fn encode(
        &mut self,
        t: &Tables,
        f: &Framing,
        group: &Group,
        rings: (usize, usize),
        state: u8,
        m: u64,
    ) -> (encoded: ((Point, Point), ((i64, i64), (i64, i64)), u8))
        requires
            old(self).wf(),
            old(self).precoder.within(SENT as int),
            f.wf(),
            t.wf(*f),
            group.q.0 < pow2(f.q as nat),
            group.q.1 < pow2(f.q as nat),
            rings.0 < f.m,
            rings.1 < f.m,
            state < t.states(),
        ensures
            ({
                let wanted = old(self).encoded(
                    *t,
                    *f,
                    *group,
                    (rings.0 as nat, rings.1 as nat),
                    state,
                    m as int,
                );
                &&& (whole(encoded.0.0), whole(encoded.0.1)) == wanted.y
                &&& *final(self) == wanted.next
                &&& encoded.2 == wanted.state
            }),
            encoded.1.0 == final(self).precoder.x@[1],
            encoded.1.1 == final(self).precoder.x@[0],
            encoded.2 < t.states(),
            final(self).wf(),
            final(self).precoder.within(SENT as int),
    {
        let z: u32 = (self.z + quarters(group.i2) + 2 * quarters(group.i3)) % 4;
        let v0 = Running::point(t, f, group.q.0, rings.0);
        let v1 = Running::point(t, f, group.q.1, rings.1);
        let ghost first = self.precoder;
        let (y0, p0, c0) = self.precoder.correct(clockwise(v0, z));
        self.precoder.advance(y0, p0);
        let x0 = self.precoder.x[0];
        let ghost second = self.precoder;
        let (_, c1): ((i64, i64), (i64, i64)) = self.precoder.predict();
        let carried_bit = carry(c0, c1, self.precoder.grid_step);
        assert(carried_bit == carried(first, second)) by {
            reveal(carried);
        }
        let odd = (t.outputs[state as usize] != carried_bit) != t.inversion_at(f, m);
        let turn: u32 = (z + 2 * quarters(group.i1) + quarters(odd)) % 4;
        let (y1, p1, _) = self.precoder.correct(clockwise(v1, turn));
        self.precoder.advance(y1, p1);
        let x1 = self.precoder.x[0];
        assert(self.precoder.x@[1] == second.x@[0]);
        self.z = z;
        let inputs: u8 = t.convert(y0, y1);
        let next: u8 = t.nexts[16 * (state as usize) + inputs as usize];
        ((y0, y1), (x0, x1), next)
    }

    fn relabel(t: &Tables, f: &Framing, u: Point) -> (label: (usize, u64))
        requires
            f.wf(),
            t.wf(*f),
            u.0 > i32::MIN,
            u.1 > i32::MIN,
        ensures
            label.0 == Running::relabelled(*t, *f, whole(u)),
            label.1 == Running::strayed(*t, *f, whole(u)),
            label.1 <= 1,
    {
        let quarters: u32 = turns(u);
        let home = counterclockwise(u, quarters);
        proof {
            reveal(Running::relabelled);
            reveal(Running::strayed);
            assert(whole(home) == turned_back(whole(u), turns_of(whole(u))));
        }
        match t.quarter_label(home, f.l / 4) {
            Some(label) => {
                proof {
                    let count = f.l as int / 4;
                    assert(t.is_label(whole(home), label as int, count));
                    let l = choose|l: int| #[trigger] t.is_label(whole(home), l, count);
                    assert(t.quarter@[l] == t.quarter@[label as int]);
                    if l < label {
                        assert(t.quarter@[l] != t.quarter@[label as int]);
                    } else if label < l {
                        assert(t.quarter@[label as int] != t.quarter@[l]);
                    }
                }
                (label, 0)
            },
            None => (0, 1),
        }
    }

    /// A decided 4D symbol undone, which left from a state of the trellis: its
    /// bits, its two rings, and how many of its points fell outside the
    /// constellation.
    pub fn decode(&mut self, t: &Tables, f: &Framing, y: (Point, Point), state: u8, m: u64) -> (
        decoded: (Group, (usize, usize), u64))
        requires
            old(self).wf(),
            old(self).precoder.within(SAFE as int),
            on_the_grid(y.0) && on_the_grid(y.1),
            f.wf(),
            t.wf(*f),
            state < t.states(),
        ensures
            ({
                let wanted = old(self).decoded(
                    *t,
                    *f,
                    (whole(y.0), whole(y.1)),
                    state,
                    m as int,
                );
                &&& decoded.0 == wanted.group
                &&& (decoded.1.0 as nat, decoded.1.1 as nat) == wanted.rings
                &&& *final(self) == wanted.next
                &&& decoded.2 == wanted.outside
            }),
            decoded.2 <= 2,
            final(self).wf(),
    {
        let ghost first = self.precoder;
        let (p0, c0): ((i64, i64), (i64, i64)) = self.precoder.predict();
        proof {
            lemma_predicted(first, SAFE as int);
            lemma_small_steps(first, 0xd00_0000);
        }
        let u0 = uncorrect(y.0, c0, self.precoder.grid_step);
        self.precoder.advance(y.0, p0);
        let ghost second = self.precoder;
        proof {
            assert(second.x@[1] == first.x@[0] && second.x@[2] == first.x@[1]);
            assert(second.within(0x8000_0000));
            lemma_predicted(second, 0x8000_0000);
            lemma_small_steps(second, 0xd000_000);
        }
        let (p1, c1): ((i64, i64), (i64, i64)) = self.precoder.predict();
        let u1 = uncorrect(y.1, c1, self.precoder.grid_step);
        self.precoder.advance(y.1, p1);
        let carried_bit = carry(c0, c1, self.precoder.grid_step);
        assert(carried_bit == carried(first, second)) by {
            reveal(carried);
        }
        let odd = (t.outputs[state as usize] != carried_bit) != t.inversion_at(f, m);
        let (z, turn): (u32, u32) = (turns(u0), turns(u1));
        let i: u32 = (z + 4 - self.z) % 4;
        self.z = z;
        let (l0, out0): (usize, u64) = Running::relabel(t, f, u0);
        let (l1, out1): (usize, u64) = Running::relabel(t, f, u1);
        let width: usize = f.width();
        let group = Group {
            i1: (turn + 8 - z - quarters(odd)) % 4 / 2 == 1,
            i2: i % 2 == 1,
            i3: i / 2 == 1,
            q: ((l0 % width) as u32, (l1 % width) as u32),
        };
        (group, (l0 / width, l1 / width), out0 + out1)
    }
}

/// How far out a point reaches.
pub open spec fn reach_of(p: (int, int)) -> int {
    let (x, y) = (if p.0 < 0 {
        -p.0
    } else {
        p.0
    }, if p.1 < 0 {
        -p.1
    } else {
        p.1
    });
    if x > y {
        x
    } else {
        y
    }
}

/// The largest coordinate of the first so many points.
pub open spec fn largest(t: Tables, count: nat) -> int
    decreases count,
{
    if count == 0 {
        0
    } else {
        let before = largest(t, (count - 1) as nat);
        let here = reach_of(whole(t.quarter@[count - 1]));
        if here > before {
            here
        } else {
            before
        }
    }
}

/// The room a constellation takes: its own, and a step of the precoder's.
pub open spec fn room(t: Tables, f: Framing) -> int {
    largest(t, (f.l / 4) as nat) + 2 * f.scale()
}

/// The largest coordinate of any point of a framing's constellation, with room
/// for the precoder's corrections of up to a step either way.
pub fn extent(t: &Tables, f: &Framing) -> (extent: i32)
    requires
        f.wf(),
        t.wf(*f),
    ensures
        extent == largest(*t, (f.l / 4) as nat) + 2 * f.scale(),
        extent == room(*t, *f),
{
    let count: usize = f.l / 4;
    let mut most: i32 = 0;
    let mut i: usize = 0;
    while i < count
        invariant
            i <= count <= t.quarter@.len(),
            t.wf(*f),
            most == largest(*t, i as nat),
            0 <= most <= 127,
        decreases count - i,
    {
        let p = t.quarter[i];
        assert(whole(t.quarter@[i as int]) == whole(p));
        let x: i32 = if p.0 < 0 {
            -p.0
        } else {
            p.0
        };
        let y: i32 = if p.1 < 0 {
            -p.1
        } else {
            p.1
        };
        let here: i32 = if x > y {
            x
        } else {
            y
        };
        if here > most {
            most = here;
        }
        i = i + 1;
    }
    most + 2 * f.precoder_scale() as i32
}

} // verus!
