//! How data mode's bits are framed: superframes of data frames, data frames of
//! mapping frames, and the bits of a mapping frame shared out between the shell
//! mapper and the points within its rings.
use crate::v34::info::SymbolRate;
use vstd::arithmetic::power::pow;
use vstd::arithmetic::power2::pow2;
use vstd::prelude::*;

verus! {

/// One direction's framing.
#[derive(Debug, Clone, Copy, PartialEq, Eq, Structural)]
pub struct Framing {
    /// Data frames in a superframe.
    pub j: usize,
    /// Mapping frames in a data frame.
    pub p: usize,
    /// Bits in a high mapping frame; a low one has one fewer.
    pub b: usize,
    /// High mapping frames in a data frame.
    pub r: usize,
    /// Bits to the shell mapper.
    pub k: usize,
    /// Bits picking a point within a ring.
    pub q: usize,
    /// Rings.
    pub m: usize,
    /// Points in the constellation.
    pub l: usize,
}

/// Data frames in a superframe, and mapping frames in a data frame.
pub open spec fn frames(rate: SymbolRate) -> (nat, nat) {
    match rate {
        SymbolRate::S2400 => (7, 12),
        SymbolRate::S2743 => (8, 12),
        SymbolRate::S2800 => (7, 14),
        SymbolRate::S3000 => (7, 15),
        SymbolRate::S3200 => (7, 16),
        SymbolRate::S3429 => (8, 15),
    }
}

/// The data rates a symbol rate carries, slowest and fastest.
pub open spec fn carried(rate: SymbolRate) -> (nat, nat) {
    match rate {
        SymbolRate::S2400 => (2400, 21600),
        SymbolRate::S2743 => (4800, 26400),
        SymbolRate::S2800 => (4800, 26400),
        SymbolRate::S3000 => (4800, 28800),
        SymbolRate::S3200 => (4800, 31200),
        SymbolRate::S3429 => (4800, 33600),
    }
}

/// Bits in a data frame, which lasts 280 ms shared between the frames of a
/// superframe. The auxiliary channel is another 200 bit/s.
pub open spec fn bits_per_frame(rate: SymbolRate, primary: nat, auxiliary: bool) -> nat {
    ((primary + if auxiliary {
        200nat
    } else {
        0nat
    }) * 280 / (1000 * frames(rate).0)) as nat
}

/// The fewest rings a shell mapper of so many bits can do with: the least whose
/// eighth power is no less than two to the bits.
pub open spec fn least_rings(k: nat, m: nat) -> bool {
    pow(m as int, 8) >= pow2(k) && (m > 1 ==> pow(m - 1, 8) < pow2(k))
}

/// A quarter more rings than that, to the nearest, halfway going up: the number
/// `m` for which `2m - 1 <= 2.5 * 2^(k/8) < 2m + 1`.
pub open spec fn expanded_rings(k: nat, m: nat) -> bool {
    m > 0 && pow(4 * m - 2, 8) <= pow(5, 8) * pow2(k) < pow((4 * m + 2) as int, 8)
}

impl Framing {
    pub open spec fn wf(self) -> bool {
        &&& 7 <= self.j <= 8
        &&& 12 <= self.p <= 16
        &&& 8 <= self.b <= 79
        &&& 1 <= self.r <= self.p
        &&& self.b <= 12 ==> self.k == 0 && self.q == 0 && self.m == 1
        &&& self.b > 12 ==> 0 < self.k < 32 && self.b == 12 + self.k + 8 * self.q && self.q <= 5
        &&& 1 <= self.m <= 19
        &&& self.l == 4 * self.m * pow2(self.q as nat)
    }

    /// Bits in a data frame.
    pub open spec fn total(self) -> nat {
        ((self.b - 1) * self.p + self.r) as nat
    }

    /// Whether a mapping frame of a data frame is a high one: the high ones are
    /// spread as evenly as they go, the last always among them.
    pub open spec fn is_high(self, within: int) -> bool {
        (within + 1) * self.r / (self.p as int) > within * self.r / (self.p as int)
    }

    pub open spec fn bits_of(self, high: bool) -> nat {
        if high {
            self.b as nat
        } else {
            (self.b - 1) as nat
        }
    }

    /// High frames among the first so many.
    pub open spec fn highs(self, frames: nat) -> nat
        decreases frames,
    {
        if frames == 0 {
            0
        } else {
            self.highs((frames - 1) as nat) + (if self.is_high(frames - 1) {
                1nat
            } else {
                0nat
            })
        }
    }

    /// Bits in the first so many mapping frames.
    pub open spec fn bits_up_to(self, frames: nat) -> nat
        decreases frames,
    {
        if frames == 0 {
            0
        } else {
            self.bits_up_to((frames - 1) as nat) + self.bits_of(self.is_high(frames - 1))
        }
    }

    /// What the precoder's corrections are multiples of twice of.
    pub open spec fn scale(self) -> int {
        if self.b < 56 {
            1
        } else {
            2
        }
    }
}

/// Between two whole multiples of the number of high frames there is at most one
/// multiple of the number of frames.
proof fn lemma_high(f: Framing, within: nat)
    requires
        f.wf(),
    ensures
        f.is_high(within as int) ==> (within + 1) * f.r / (f.p as int) == within * f.r / (
        f.p as int) + 1,
        !f.is_high(within as int) ==> (within + 1) * f.r / (f.p as int) == within * f.r / (
        f.p as int),
{
    let p = f.p as int;
    let before = within * f.r;
    assert((within + 1) * f.r == before + f.r) by (nonlinear_arith)
        requires
            before == within * f.r,
    ;
    assert(before >= 0) by (nonlinear_arith)
        requires
            before == within * f.r,
    ;
    assert((before + f.r) / p <= before / p + 1 && (before + f.r) / p >= before / p)
        by (nonlinear_arith)
        requires
            1 <= f.r <= p,
            before >= 0,
    ;
}

pub proof fn lemma_highs(f: Framing, frames: nat)
    requires
        f.wf(),
    ensures
        f.highs(frames) == frames * f.r / (f.p as int),
        f.highs(frames) <= frames,
        f.bits_up_to(frames) == frames * (f.b - 1) + f.highs(frames),
    decreases frames,
{
    if frames == 0 {
        assert(0int * f.r == 0);
        assert(0int / (f.p as int) == 0) by (nonlinear_arith)
            requires
                f.p > 0,
        ;
    } else {
        let before = (frames - 1) as nat;
        lemma_highs(f, before);
        lemma_high(f, before);
        assert(frames * (f.b - 1) == before * (f.b - 1) + (f.b - 1)) by (nonlinear_arith)
            requires
                frames == before + 1,
        ;
    }
}

/// Of the mapping frames of a data frame, exactly as many are high as there are
/// to be, and together they carry exactly the data frame's bits.
pub proof fn a_data_frame_is_filled(f: Framing)
    requires
        f.wf(),
    ensures
        f.highs(f.p as nat) == f.r,
        f.bits_up_to(f.p as nat) == f.total(),
        f.is_high(f.p - 1),
{
    lemma_highs(f, f.p as nat);
    lemma_highs(f, (f.p - 1) as nat);
    let (p, r) = (f.p as int, f.r as int);
    assert(p * r / p == r) by (nonlinear_arith)
        requires
            p > 0,
    ;
    assert(p * (f.b - 1) == (f.b - 1) * p) by (nonlinear_arith);
    assert((p - 1) * r / p < r) by (nonlinear_arith)
        requires
            p > 0,
            r > 0,
    ;
}

/// Two to so many, to thirty-one.
fn two_to(k: usize) -> (power: u64)
    requires
        k < 32,
    ensures
        power == pow2(k as nat),
{
    let mut power: u64 = 1;
    let mut i: usize = 0;
    proof {
        vstd::arithmetic::power2::lemma2_to64();
    }
    while i < k
        invariant
            i <= k < 32,
            power == pow2(i as nat),
        decreases k - i,
    {
        proof {
            vstd::arithmetic::power2::lemma_pow2_unfold((i + 1) as nat);
            vstd::arithmetic::power2::lemma2_to64();
            vstd::arithmetic::power2::lemma_pow2_strictly_increases(i as nat, 32);
        }
        power = 2 * power;
        i = i + 1;
    }
    power
}

/// An eighth power.
fn eighth(n: u64) -> (power: u64)
    requires
        n <= 100,
    ensures
        power == pow(n as int, 8),
{
    proof {
        reveal(pow);
        reveal_with_fuel(pow, 9);
    }
    assert(n * n <= 10000) by (nonlinear_arith)
        requires
            n <= 100,
    ;
    let two: u64 = n * n;
    assert(two * two <= 100000000) by (nonlinear_arith)
        requires
            two <= 10000,
    ;
    let four: u64 = two * two;
    assert(four * four <= 10000000000000000) by (nonlinear_arith)
        requires
            four <= 100000000,
    ;
    assert(four * four == n * (n * (n * (n * (n * (n * (n * (n * 1)))))))) by (nonlinear_arith)
        requires
            two == n * n,
            four == two * two,
    ;
    four * four
}

/// The fewest rings, or a quarter more.
fn rings(k: usize, expanded: bool) -> (m: usize)
    requires
        k < 32,
    ensures
        !expanded ==> least_rings(k as nat, m as nat),
        expanded ==> expanded_rings(k as nat, m as nat),
        1 <= m <= 19,
{
    let power: u64 = two_to(k);
    proof {
        vstd::arithmetic::power2::lemma2_to64();
        vstd::arithmetic::power2::lemma_pow2_pos(k as nat);
        if k < 31 {
            vstd::arithmetic::power2::lemma_pow2_strictly_increases(k as nat, 31);
        }
        assert(pow(15, 8) == 2562890625int) by {
            reveal_with_fuel(pow, 9);
        }
        assert(pow(5, 8) == 390625int) by {
            reveal_with_fuel(pow, 9);
        }
        assert(pow(78, 8) == 1370114370683136int) by {
            reveal_with_fuel(pow, 9);
        }
        assert(pow(2, 8) == 256int) by {
            reveal_with_fuel(pow, 9);
        }
    }
    let mut m: usize = 1;
    if expanded {
        while eighth((4 * m + 2) as u64) <= 390625 * power
            invariant
                1 <= m <= 19,
                power <= 2147483648,
                power == pow2(k as nat),
                power >= 1,
                pow(78, 8) == 1370114370683136int,
                pow(4 * m - 2, 8) <= 390625 * power,
            decreases 20 - m,
        {
            m = m + 1;
            assert(4 * m - 2 == 4 * (m - 1) + 2);
        }
    } else {
        while eighth(m as u64) < power
            invariant
                1 <= m <= 15,
                power <= 2147483648,
                power == pow2(k as nat),
                pow(15, 8) == 2562890625int,
                m > 1 ==> pow(m - 1, 8) < power,
            decreases 15 - m,
        {
            m = m + 1;
        }
    }
    m
}

impl Framing {
    /// The framing of a primary data rate at a symbol rate, with or without the
    /// auxiliary channel and with or without an expanded constellation. None
    /// where the symbol rate does not carry the data rate.
    pub fn new(rate: SymbolRate, primary: u32, auxiliary: bool, expanded: bool) -> (framing: Option<
        Framing,
    >)
        ensures
            framing is Some <==> primary % 2400 == 0 && carried(rate).0 <= primary
                <= carried(rate).1,
            framing matches Some(f) ==> {
                &&& f.wf()
                &&& (f.j as nat, f.p as nat) == frames(rate)
                &&& f.total() == bits_per_frame(rate, primary as nat, auxiliary)
                &&& f.b > 12 && f.q > 0 ==> f.k + 8 >= 32
                &&& !expanded ==> least_rings(f.k as nat, f.m as nat)
                &&& expanded && f.b > 12 ==> expanded_rings(f.k as nat, f.m as nat)
            },
    {
        let (j, p): (usize, usize) = match rate {
            SymbolRate::S2400 => (7, 12),
            SymbolRate::S2743 => (8, 12),
            SymbolRate::S2800 => (7, 14),
            SymbolRate::S3000 => (7, 15),
            SymbolRate::S3200 => (7, 16),
            SymbolRate::S3429 => (8, 15),
        };
        let (slowest, fastest): (u32, u32) = match rate {
            SymbolRate::S2400 => (2400, 21600),
            SymbolRate::S2743 => (4800, 26400),
            SymbolRate::S2800 => (4800, 26400),
            SymbolRate::S3000 => (4800, 28800),
            SymbolRate::S3200 => (4800, 31200),
            SymbolRate::S3429 => (4800, 33600),
        };
        if primary % 2400 != 0 || primary < slowest || primary > fastest {
            return None;
        }
        let all: usize = (primary + if auxiliary {
            200u32
        } else {
            0
        }) as usize;
        let n: usize = if j == 7 {
            all * 280 / 7000
        } else {
            all * 280 / 8000
        };
        assert(7 * p < n <= 79 * p);
        assert(8 <= (n + p - 1) / (p as int) <= 79 && 0 < n - ((n + p - 1) / (p as int) - 1) * p
            <= p && ((n + p - 1) / (p as int) - 1) * p >= 0) by (nonlinear_arith)
            requires
                12 <= p <= 16,
                7 * p < n <= 79 * p,
        ;
        let b: usize = (n + p - 1) / p;
        let r: usize = n - (b - 1) * p;
        let mut q: usize = 0;
        if b > 12 {
            while b - 12 - 8 * q >= 32
                invariant
                    12 < b <= 79,
                    q > 0 ==> 12 + 8 * (q - 1) + 32 <= b,
                    12 + 8 * q < b,
                decreases b - 8 * q,
            {
                q = q + 1;
            }
        }
        let k: usize = if b > 12 {
            b - 12 - 8 * q
        } else {
            0
        };
        proof {
            vstd::arithmetic::power2::lemma2_to64();
            assert(pow(1, 8) == 1int) by {
                reveal_with_fuel(pow, 9);
            }
        }
        let m: usize = if b > 12 {
            rings(k, expanded)
        } else {
            1
        };
        let within: u64 = two_to(q);
        proof {
            assert(q <= 5 && within <= 32);
            assert(4 * m * within <= 4 * 19 * 32) by (nonlinear_arith)
                requires
                    m <= 19,
                    within <= 32,
            ;
        }
        let l: usize = 4 * m * (within as usize);
        Some(Framing { j, p, b, r, k, q, m, l })
    }

    /// Whether a mapping frame, counted within its data frame, is a high one.
    pub fn high(&self, within: usize) -> (high: bool)
        requires
            self.wf(),
            within < self.p,
        ensures
            high == self.is_high(within as int),
    {
        let (p, r): (usize, usize) = (self.p, self.r);
        assert(0 <= within * r <= 16 * 16 && 0 <= (within + 1) * r <= 16 * 16) by (nonlinear_arith)
            requires
                within < 16,
                r <= 16,
        ;
        (within + 1) * r / p > within * r / p
    }

    /// Bits in a mapping frame, counted within its data frame.
    pub fn bits_in(&self, within: usize) -> (bits: usize)
        requires
            self.wf(),
            within < self.p,
        ensures
            bits == self.bits_of(self.is_high(within as int)),
    {
        if self.high(within) {
            self.b
        } else {
            self.b - 1
        }
    }

    /// Points to a ring.
    pub fn width(&self) -> (width: usize)
        requires
            self.wf(),
        ensures
            width == pow2(self.q as nat),
            1 <= width <= 32,
    {
        let width: u64 = two_to(self.q);
        proof {
            vstd::arithmetic::power2::lemma2_to64();
            vstd::arithmetic::power2::lemma_pow2_pos(self.q as nat);
            if self.q < 5 {
                vstd::arithmetic::power2::lemma_pow2_strictly_increases(self.q as nat, 5);
            }
        }
        width as usize
    }

    /// What the precoder's corrections are multiples of twice of.
    pub fn precoder_scale(&self) -> (scale: i64)
        ensures
            scale == self.scale(),
    {
        if self.b < 56 {
            1
        } else {
            2
        }
    }
}

} // verus!
