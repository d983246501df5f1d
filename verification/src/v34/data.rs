//! Data mode: bits to points, and points back to bits.
//!
//! Going out, a mapping frame's bits are split: K of them choose eight rings
//! through the shell mapper, and each of the frame's four 4D symbols takes
//! three more -- I1, I2 and I3 -- and 2q that pick a point within each of its
//! two 2D symbols' rings.
use crate::bits::{get, lemma_lsb_of_number, lsb, number, put};
use crate::v34::frame::Framing;
use vstd::arithmetic::power2::pow2;
use vstd::prelude::*;

pub use crate::v34::coding::{extent, Point, Precoder, Running, Tables};
pub use crate::v34::decoder::{Decoder, Fed};
pub use crate::v34::encoder::{Encoder, Params};

verus! {

/// A 4D symbol's bits: I1, I2, I3 and the two 2D symbols' q bits.
#[derive(Debug, Clone, Copy, PartialEq, Eq)]
pub struct Group {
    pub i1: bool,
    pub i2: bool,
    pub i3: bool,
    pub q: (u32, u32),
}

impl Group {
    pub open spec fn nothing() -> Group {
        Group { i1: false, i2: false, i3: false, q: (0, 0) }
    }

    pub fn new() -> (group: Group)
        ensures
            group == Group::nothing(),
    {
        Group { i1: false, i2: false, i3: false, q: (0, 0) }
    }
}

/// Groups that carry an I3 in a frame with no bits for the shell mapper: 8, 9,
/// 11 or 12 bits, I3 of the later groups left out.
pub open spec fn with_i3(bits: nat) -> nat {
    if bits == 12 {
        4
    } else if bits == 11 {
        3
    } else if bits == 9 {
        1
    } else {
        0
    }
}

/// Where a group's bits start in such a frame.
pub open spec fn small_at(j: int, i3s: int) -> int {
    if j < i3s {
        3 * j
    } else {
        2 * j + i3s
    }
}

/// A group of such a frame.
pub open spec fn small_group(bits: Seq<bool>, j: int) -> Group {
    let i3s = with_i3(bits.len()) as int;
    let at = small_at(j, i3s);
    Group { i1: bits[at], i2: bits[at + 1], i3: j < i3s && bits[at + 2], q: (0, 0) }
}

/// A group from a place in the bits, with `q` bits to each point.
pub open spec fn group_at(bits: Seq<bool>, at: int, q: int) -> Group {
    Group {
        i1: bits[at],
        i2: bits[at + 1],
        i3: bits[at + 2],
        q: (
            number(bits.subrange(at + 3, at + 3 + q)) as u32,
            number(bits.subrange(at + 3 + q, at + 3 + 2 * q)) as u32,
        ),
    }
}

/// Bits of a frame that go to the shell mapper.
pub open spec fn shell_width(f: Framing, high: bool) -> int {
    if high {
        f.k as int
    } else {
        f.k - 1
    }
}

/// The shell mapper's bits of a frame, with a zero for the one a low frame is
/// short of.
pub open spec fn shell_of(f: Framing, high: bool, bits: Seq<bool>) -> Seq<bool> {
    if f.b <= 12 {
        Seq::empty()
    } else if high {
        bits.take(f.k as int)
    } else {
        bits.take(f.k - 1).push(false)
    }
}

/// A group of a frame.
pub open spec fn group_of(f: Framing, high: bool, bits: Seq<bool>, j: int) -> Group {
    if f.b <= 12 {
        small_group(bits, j)
    } else {
        group_at(bits, shell_width(f, high) + j * (3 + 2 * f.q), f.q as int)
    }
}

/// A group's bits in a frame that has some for the shell mapper.
pub open spec fn group_bits(group: Group, q: nat) -> Seq<bool> {
    seq![group.i1, group.i2, group.i3] + lsb(group.q.0 as nat, q) + lsb(group.q.1 as nat, q)
}

/// A group's bits in one that has none.
pub open spec fn small_bits(group: Group, i3: bool) -> Seq<bool> {
    if i3 {
        seq![group.i1, group.i2, group.i3]
    } else {
        seq![group.i1, group.i2]
    }
}

/// The bits of the first so many groups.
pub open spec fn all_bits(f: Framing, high: bool, groups: Seq<Group>) -> Seq<bool>
    decreases groups.len(),
{
    if groups.len() == 0 {
        Seq::empty()
    } else {
        let before = all_bits(f, high, groups.drop_last());
        before + if f.b <= 12 {
            small_bits(groups.last(), groups.len() - 1 < with_i3(f.bits_of(high)))
        } else {
            group_bits(groups.last(), f.q as nat)
        }
    }
}

/// A mapping frame's bits from its shell bits and groups.
pub open spec fn joined(
    f: Framing,
    high: bool,
    shell_bits: Seq<bool>,
    groups: Seq<Group>,
) -> Seq<bool> {
    if f.b <= 12 {
        all_bits(f, high, groups)
    } else {
        shell_bits.take(shell_width(f, high)) + all_bits(f, high, groups)
    }
}

/// Whether a framing has such a frame: a frame with no bits for the shell
/// mapper has 8, 9, 11 or 12, and one whose every frame is high has no low one.
pub open spec fn occurs(f: Framing, high: bool) -> bool {
    let count = f.bits_of(high);
    f.b <= 12 ==> count == 8 || count == 9 || count == 11 || count == 12
}

/// A mapping frame's bits split: the shell mapper's, and four groups.
pub fn parse(f: &Framing, high: bool, bits: &[bool]) -> (split: (Vec<bool>, [Group; 4]))
    requires
        f.wf(),
        bits@.len() == f.bits_of(high),
        bits@.len() >= 8,
    ensures
        split.0@ == shell_of(*f, high, bits@),
        forall|j: int| 0 <= j < 4 ==> #[trigger] split.1@[j] == group_of(*f, high, bits@, j),
{
    let mut groups = [Group::new();4];
    let mut shell: Vec<bool> = Vec::new();
    if f.b <= 12 {
        let i3s: usize = match bits.len() {
            12 => 4,
            11 => 3,
            9 => 1,
            _ => 0,
        };
        let mut at: usize = 0;
        let mut j: usize = 0;
        while j < 4
            invariant
                j <= 4,
                i3s == with_i3(bits@.len()),
                8 <= bits@.len() <= 12,
                bits.len() == bits@.len(),
                at == small_at(j as int, i3s as int),
                forall|i: int| 0 <= i < j ==> #[trigger] groups@[i] == small_group(bits@, i),
            decreases 4 - j,
        {
            let mut group = Group::new();
            group.i1 = bits[at];
            group.i2 = bits[at + 1];
            at = at + 2;
            if j < i3s {
                group.i3 = bits[at];
                at = at + 1;
            }
            groups[j] = group;
            j = j + 1;
        }
        assert(shell@ =~= Seq::empty());
        return (shell, groups);
    }
    let width: usize = if high {
        f.k
    } else {
        f.k - 1
    };
    let mut i: usize = 0;
    assert(f.k <= bits.len());
    while i < width
        invariant
            i <= width <= bits.len(),
            shell@ == bits@.take(i as int),
        decreases width - i,
    {
        shell.push(bits[i]);
        i = i + 1;
        assert(shell@ =~= bits@.take(i as int));
    }
    if !high {
        shell.push(false);
    }
    assert(shell@ =~= shell_of(*f, high, bits@));
    let q: usize = f.q;
    let mut at: usize = width;
    let mut j: usize = 0;
    proof {
        assert(4 * (3 + 2 * q) == 12 + 8 * q) by (nonlinear_arith);
        vstd::arithmetic::power2::lemma2_to64();
    }
    while j < 4
        invariant
            j <= 4,
            q <= 5,
            bits.len() == bits@.len(),
            bits@.len() == width + 12 + 8 * q,
            at == width + j * (3 + 2 * q),
            forall|i: int|
                0 <= i < j ==> #[trigger] groups@[i] == group_at(
                    bits@,
                    width + i * (3 + 2 * q),
                    q as int,
                ),
        decreases 4 - j,
    {
        proof {
            assert(j * (3 + 2 * q) + (3 + 2 * q) == (j + 1) * (3 + 2 * q)) by (nonlinear_arith);
            assert((j + 1) * (3 + 2 * q) <= 12 + 8 * q) by (nonlinear_arith)
                requires
                    j < 4,
                    0 <= q,
            ;
        }
        groups[j] = Group {
            i1: bits[at],
            i2: bits[at + 1],
            i3: bits[at + 2],
            q: (get(bits, at + 3, q), get(bits, at + 3 + q, q)),
        };
        at = at + 3 + 2 * q;
        j = j + 1;
    }
    (shell, groups)
}

/// A group's places are within a ring.
pub proof fn lemma_groups_fit(f: Framing, high: bool, bits: Seq<bool>, j: int)
    requires
        f.wf(),
        0 <= j < 4,
        bits.len() == f.bits_of(high),
    ensures
        group_of(f, high, bits, j).q.0 < pow2(f.q as nat),
        group_of(f, high, bits, j).q.1 < pow2(f.q as nat),
{
    vstd::arithmetic::power2::lemma2_to64();
    vstd::arithmetic::power2::lemma_pow2_pos(f.q as nat);
    if f.b > 12 {
        let q = f.q as int;
        let each = 3 + 2 * q;
        let at = shell_width(f, high) + j * each;
        assert(0 <= j * each && j * each + each <= 4 * each) by (nonlinear_arith)
            requires
                0 <= j < 4,
                each >= 0,
        ;
        crate::bits::lemma_number_bound(bits.subrange(at + 3, at + 3 + q));
        crate::bits::lemma_number_bound(bits.subrange(at + 3 + q, at + 3 + 2 * q));
        if f.q < 5 {
            vstd::arithmetic::power2::lemma_pow2_strictly_increases(f.q as nat, 5);
        }
    }
}

/// A group's bits, at the end of some.
fn put_group(bits: &mut Vec<bool>, group: Group, q: usize)
    ensures
        final(bits)@ == old(bits)@ + group_bits(group, q as nat),
{
    bits.push(group.i1);
    bits.push(group.i2);
    bits.push(group.i3);
    put(bits, group.q.0, q);
    put(bits, group.q.1, q);
    assert(bits@ =~= old(bits)@ + group_bits(group, q as nat));
}

/// And in a frame that has no shell bits.
fn put_small(bits: &mut Vec<bool>, group: Group, i3: bool)
    ensures
        final(bits)@ == old(bits)@ + small_bits(group, i3),
{
    bits.push(group.i1);
    bits.push(group.i2);
    if i3 {
        bits.push(group.i3);
    }
    assert(bits@ =~= old(bits)@ + small_bits(group, i3));
}

/// The same the other way: a mapping frame's bits from its shell bits and
/// groups.
pub fn unparse(f: &Framing, high: bool, shell_bits: &[bool], groups: &[Group; 4]) -> (bits: Vec<
    bool,
>)
    requires
        f.wf(),
        f.b > 12 ==> shell_bits@.len() >= shell_width(*f, high),
    ensures
        bits@ == joined(*f, high, shell_bits@, groups@),
{
    let mut bits: Vec<bool> = Vec::new();
    let small = f.b <= 12;
    let count: usize = if high {
        f.b
    } else {
        f.b - 1
    };
    let i3s: usize = match count {
        12 => 4,
        11 => 3,
        9 => 1,
        _ => 0,
    };
    if !small {
        let width: usize = if high {
            f.k
        } else {
            f.k - 1
        };
        let mut i: usize = 0;
        while i < width
            invariant
                i <= width <= shell_bits.len(),
                bits@ == shell_bits@.take(i as int),
            decreases width - i,
        {
            bits.push(shell_bits[i]);
            i = i + 1;
            assert(bits@ =~= shell_bits@.take(i as int));
        }
    }
    let ghost start = bits@;
    let mut j: usize = 0;
    assert(groups@.take(0) =~= Seq::empty());
    assert(bits@ =~= start + Seq::empty());
    while j < 4
        invariant
            j <= 4,
            small == (f.b <= 12),
            i3s == with_i3(f.bits_of(high)),
            bits@ == start + all_bits(*f, high, groups@.take(j as int)),
        decreases 4 - j,
    {
        let ghost before = bits@;
        let group = groups[j];
        if small {
            put_small(&mut bits, group, j < i3s);
        } else {
            put_group(&mut bits, group, f.q);
        }
        j = j + 1;
        proof {
            let taken = groups@.take(j as int);
            assert(taken.drop_last() =~= groups@.take(j - 1));
            let now = if small {
                small_bits(group, j - 1 < i3s)
            } else {
                group_bits(group, f.q as nat)
            };
            assert(all_bits(*f, high, taken) == all_bits(*f, high, groups@.take(j - 1)) + now);
            assert(start + all_bits(*f, high, groups@.take(j - 1)) + now =~= start + all_bits(
                *f,
                high,
                taken,
            ));
        }
    }
    assert(groups@.take(4) =~= groups@);
    if small {
        assert(bits@ =~= all_bits(*f, high, groups@));
    }
    bits
}

/// A group written back is the bits it was read from.
proof fn lemma_group_back(bits: Seq<bool>, at: int, q: nat)
    requires
        0 <= at,
        at + 3 + 2 * q <= bits.len(),
        q <= 5,
    ensures
        group_bits(group_at(bits, at, q as int), q) == bits.subrange(at, at + 3 + 2 * q),
{
    let first = bits.subrange(at + 3, at + 3 + q);
    let second = bits.subrange(at + 3 + q, at + 3 + 2 * q);
    crate::bits::lemma_number_bound(first);
    crate::bits::lemma_number_bound(second);
    vstd::arithmetic::power2::lemma2_to64();
    if q < 5 {
        vstd::arithmetic::power2::lemma_pow2_strictly_increases(q, 5);
    }
    lemma_lsb_of_number(first);
    lemma_lsb_of_number(second);
    assert(group_bits(group_at(bits, at, q as int), q) =~= bits.subrange(at, at + 3 + 2 * q));
}

/// The groups read of a frame, written back.
proof fn lemma_groups_back(f: Framing, high: bool, bits: Seq<bool>, n: nat)
    requires
        f.wf(),
        f.b > 12,
        bits.len() == f.bits_of(high),
        n <= 4,
    ensures
        shell_width(f, high) + n * (3 + 2 * f.q) <= bits.len(),
        all_bits(f, high, Seq::new(n, |j: int| group_of(f, high, bits, j))) == bits.subrange(
            shell_width(f, high),
            shell_width(f, high) + n * (3 + 2 * f.q),
        ),
    decreases n,
{
    let width = shell_width(f, high);
    let each = 3 + 2 * f.q;
    let groups = Seq::new(n, |j: int| group_of(f, high, bits, j));
    assert(n * each <= 4 * each) by (nonlinear_arith)
        requires
            n <= 4,
            each >= 0,
    ;
    if n == 0 {
        assert(groups =~= Seq::empty());
        assert(0int * each == 0) by (nonlinear_arith);
        assert(bits.subrange(width, width) =~= Seq::empty());
    } else {
        let before = (n - 1) as nat;
        lemma_groups_back(f, high, bits, before);
        assert(before * each + each == n * each) by (nonlinear_arith)
            requires
                n == before + 1,
        ;
        assert(groups.drop_last() =~= Seq::new(before, |j: int| group_of(f, high, bits, j)));
        lemma_group_back(bits, width + before * each, f.q as nat);
        assert(bits.subrange(width, width + before * each) + bits.subrange(
            width + before * each,
            width + n * each,
        ) =~= bits.subrange(width, width + n * each));
    }
}

/// The bits of a frame with none for the shell mapper, taken group by group.
proof fn lemma_small_back(f: Framing, high: bool, bits: Seq<bool>, n: nat)
    requires
        f.b <= 12,
        occurs(f, high),
        bits.len() == f.bits_of(high),
        n <= 4,
    ensures
        all_bits(f, high, Seq::new(n, |j: int| group_of(f, high, bits, j))) == bits.take(
            small_at(n as int, with_i3(bits.len()) as int),
        ),
    decreases n,
{
    let i3s = with_i3(bits.len()) as int;
    let groups = Seq::new(n, |j: int| group_of(f, high, bits, j));
    if n == 0 {
        assert(all_bits(f, high, groups) =~= bits.take(0));
    } else {
        let k = n - 1;
        lemma_small_back(f, high, bits, k as nat);
        assert(groups.drop_last() =~= Seq::new(k as nat, |j: int| group_of(f, high, bits, j)));
        let (at, to) = (small_at(k, i3s), small_at(n as int, i3s));
        assert(0 <= at < to <= bits.len());
        assert(small_bits(groups.last(), k < i3s) =~= bits.subrange(at, to));
        assert(bits.take(at) + bits.subrange(at, to) =~= bits.take(to));
    }
}

/// A frame's bits come back from its split: splitting a frame and joining what
/// it was split into gives the frame.
pub proof fn a_frame_comes_back_from_its_split(f: Framing, high: bool, bits: Seq<bool>)
    requires
        f.wf(),
        occurs(f, high),
        bits.len() == f.bits_of(high),
    ensures
        joined(
            f,
            high,
            shell_of(f, high, bits),
            Seq::new(4, |j: int| group_of(f, high, bits, j)),
        ) == bits,
{
    if f.b <= 12 {
        lemma_small_back(f, high, bits, 4);
        assert(bits.take(bits.len() as int) =~= bits);
    } else {
        lemma_groups_back(f, high, bits, 4);
        let width = shell_width(f, high);
        let shell = shell_of(f, high, bits);
        assert(4 * (3 + 2 * f.q) == 12 + 8 * f.q) by (nonlinear_arith);
        assert(shell.take(width) =~= bits.take(width));
        assert(shell.take(width) + bits.subrange(width, bits.len() as int) =~= bits);
    }
}

/// The nearest multiple of `step` to `value`, halfway going to the smaller
/// magnitude.
pub open spec fn rounded(value: int, step: int) -> int {
    steps_of(value, step) * step
}

/// How many steps that is.
pub open spec fn steps_of(value: int, step: int) -> int {
    if value >= 0 {
        (value + (step - 1) / 2) / step
    } else {
        -((-value + (step - 1) / 2) / step)
    }
}

/// What is rounded to is a multiple of the step, no further off than half of it,
/// no multiple is nearer, and of two as near it is the one nearer zero.
pub proof fn the_precoder_rounds_to_the_nearest(value: int, step: int, n: int)
    requires
        step > 0,
    ensures
        rounded(value, step) % step == 0,
        -step <= 2 * (value - rounded(value, step)) <= step,
        2 * (value - rounded(value, step)) == step ==> value > 0,
        2 * (value - rounded(value, step)) == -step ==> value < 0,
        ({
            let off = value - rounded(value, step);
            let other = value - n * step;
            (if off >= 0 {
                off
            } else {
                -off
            }) <= (if other >= 0 {
                other
            } else {
                -other
            })
        }),
{
    let whole = (if value >= 0 {
        value
    } else {
        -value
    });
    let m = (whole + (step - 1) / 2) / step;
    assert(m * step <= whole + (step - 1) / 2 < m * step + step && m >= 0) by (nonlinear_arith)
        requires
            m == (whole + (step - 1) / 2) / step,
            step > 0,
            whole >= 0,
    ;
    let sign = if value >= 0 {
        1int
    } else {
        -1int
    };
    assert(sign * m == steps_of(value, step)) by (nonlinear_arith)
        requires
            steps_of(value, step) == (if sign == 1 {
                m
            } else {
                -m
            }),
            sign == 1 || sign == -1,
    ;
    vstd::arithmetic::div_mod::lemma_mod_multiples_basic(sign * m, step);
    assert((sign * m) * step == sign * (m * step)) by (nonlinear_arith);
    let d = n - sign * m;
    assert(n * step == (sign * m) * step + d * step) by (nonlinear_arith)
        requires
            d == n - sign * m,
    ;
    if d >= 1 {
        assert(d * step >= step) by (nonlinear_arith)
            requires
                d >= 1,
                step > 0,
        ;
    } else if d <= -1 {
        assert(d * step <= -step) by (nonlinear_arith)
            requires
                d <= -1,
                step > 0,
        ;
    } else {
        assert(d * step == 0) by (nonlinear_arith)
            requires
                d == 0,
        ;
    }
}

/// How many steps the nearest multiple of `step` to `value` is, halfway going to
/// the smaller magnitude.
pub fn round_steps(value: i64, step: i64) -> (steps: i64)
    requires
        0 < step,
        i64::MIN < value,
    ensures
        steps == steps_of(value as int, step as int),
{
    let size: i64 = if value < 0 {
        -value
    } else {
        value
    };
    let whole: i64 = size / step;
    let rest: i64 = size % step;
    let up = rest > step - rest;
    proof {
        let (v, w, r, t) = (size as int, whole as int, rest as int, step as int);
        assert(v == w * t + r && 0 <= r < t && 0 <= w <= v) by (nonlinear_arith)
            requires
                w == v / t,
                r == v % t,
                v >= 0,
                t > 0,
        ;
        let h = (t - 1) / 2;
        if up {
            assert((v + h) / t == w + 1) by (nonlinear_arith)
                requires
                    v == w * t + r,
                    t <= r + h < 2 * t,
                    t > 0,
            ;
            // A step of one leaves no rest.
            assert(w < v) by (nonlinear_arith)
                requires
                    v == w * t + r,
                    0 < r,
                    t > 0,
                    w >= 0,
            ;
        } else {
            assert((v + h) / t == w) by (nonlinear_arith)
                requires
                    v == w * t + r,
                    0 <= r + h < t,
                    t > 0,
            ;
        }
    }
    let n: i64 = if up {
        whole + 1
    } else {
        whole
    };
    if value < 0 {
        -n
    } else {
        n
    }
}

/// The nearest multiple of `step` to `value`, halfway going to the smaller
/// magnitude. It has to be one that fits, as it does wherever the value and half
/// a step together do.
pub fn round_to(value: i64, step: i64) -> (nearest: i64)
    requires
        0 < step,
        i64::MIN < value,
        (step - 1) / 2 - i64::MAX <= value <= i64::MAX - (step - 1) / 2 || i64::MIN <= rounded(
            value as int,
            step as int,
        ) <= i64::MAX,
    ensures
        nearest == rounded(value as int, step as int),
        nearest as int % (step as int) == 0,
        -step <= 2 * (value - nearest) <= step,
        2 * (value - nearest) == step ==> 0 <= nearest < value,
        2 * (value - nearest) == -step ==> value < nearest <= 0,
{
    let steps: i64 = round_steps(value, step);
    proof {
        let (v, t) = (value as int, step as int);
        the_precoder_rounds_to_the_nearest(v, t, 0);
        lemma_rounded_sign(v, t);
    }
    steps * step
}

/// Rounding never changes a sign, nor goes further out than half a step short of
/// the value's own.
proof fn lemma_rounded_sign(value: int, step: int)
    requires
        step > 0,
    ensures
        value >= 0 ==> 0 <= rounded(value, step) <= value + (step - 1) / 2,
        value <= 0 ==> value - (step - 1) / 2 <= rounded(value, step) <= 0,
{
    let size = if value >= 0 {
        value
    } else {
        -value
    };
    let m = (size + (step - 1) / 2) / step;
    assert(0 <= m * step <= size + (step - 1) / 2 && (-m) * step == -(m * step)) by (
    nonlinear_arith)
        requires
            m == (size + (step - 1) / 2) / step,
            step > 0,
            size >= 0,
    ;
    if value == 0 {
        assert(m == 0) by (nonlinear_arith)
            requires
                0 <= m * step <= (step - 1) / 2,
                step > 0,
        ;
    }
}

} // verus!
