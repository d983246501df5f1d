//! V.22bis: 2400 bit/s duplex, 600 baud, sixteen points.
//!
//! Full duplex by frequency division: the calling modem occupies the low channel
//! and the answering modem the high one.
//!
//! Data is carried in quadbits. The first two bits are a change of phase quadrant
//! relative to the previous symbol, which makes the link immune to a constant
//! carrier phase offset that is a multiple of 90 degrees. The last two bits pick
//! one of four points inside the new quadrant.
use crate::octets::{octets, push_octets, take_octets};
use crate::scrambling::{fed_back, lemma_shifted_in, shift_in, shifted_in, tap, tapped};
use std::collections::VecDeque;
use vstd::prelude::*;

pub mod handshake;
pub mod laws;
pub mod line_laws;

verus! {

/// Modulation rate, symbols a second.
pub const BAUD: u32 = 600;

/// Low channel carrier in hertz, used by the calling modem.
pub const CARRIER_LOW: u32 = 1200;

/// High channel carrier in hertz, used by the answering modem.
pub const CARRIER_HIGH: u32 = 2400;

/// Which channel this modem transmits in.
#[derive(Debug, Clone, Copy, PartialEq, Eq, Structural)]
pub enum Channel {
    /// Calling modem: transmits low, receives high.
    Calling,
    /// Answering modem: transmits high, receives low.
    Answering,
}

impl Channel {
    pub open spec fn other(self) -> Channel {
        match self {
            Channel::Calling => Channel::Answering,
            Channel::Answering => Channel::Calling,
        }
    }

    pub open spec fn sends_at(self) -> u32 {
        match self {
            Channel::Calling => CARRIER_LOW,
            Channel::Answering => CARRIER_HIGH,
        }
    }

    pub fn transmit_carrier(self) -> (carrier: u32)
        ensures
            carrier == self.sends_at(),
    {
        match self {
            Channel::Calling => CARRIER_LOW,
            Channel::Answering => CARRIER_HIGH,
        }
    }

    /// Each end listens where the other sends.
    pub fn receive_carrier(self) -> (carrier: u32)
        ensures
            carrier == self.other().sends_at(),
    {
        match self {
            Channel::Calling => CARRIER_HIGH,
            Channel::Answering => CARRIER_LOW,
        }
    }
}

/// Quadrant change for the first two bits of a quadbit, indexed by those bits.
/// Values are quadrants anticlockwise.
pub const QUADRANT_CHANGE: [u8; 4] = [1, 0, 2, 3];

/// The inverse: quadrant change back to the pair of bits that caused it.
pub const CHANGE_TO_BITS: [u8; 4] = [1, 0, 2, 3];

/// First-quadrant points selected by the last two bits.
///
/// `01` sits at (3,1), whose magnitude is exactly the root-mean-square magnitude
/// of the whole sixteen-point constellation, so the slower signal that uses it
/// alone has the same average power as the faster one.
pub const QUADRANT_POINTS: [(i32, i32); 4] = [(1, 1), (3, 1), (1, 3), (3, 3)];

/// Mean power of the sixteen points.
pub const CONSTELLATION_MEAN_POWER: u32 = 10;

/// Received coordinates are in thousandths of a unit of the constellation.
pub const UNIT: i32 = 1000;

/// The quarters a dibit turns the carrier by.
pub open spec fn turn_of(first: bool, second: bool) -> int {
    match (first, second) {
        (false, false) => 1,
        (false, true) => 0,
        (true, false) => 2,
        (true, true) => 3,
    }
}

/// The first-quadrant point of a dibit.
pub open spec fn base_of(third: bool, fourth: bool) -> (int, int) {
    (if fourth {
        3
    } else {
        1
    }, if third {
        3
    } else {
        1
    })
}

/// A point turned anticlockwise by so many quarters.
pub open spec fn rotated(p: (int, int), quadrant: int) -> (int, int) {
    if quadrant == 0 {
        p
    } else if quadrant == 1 {
        (-p.1, p.0)
    } else if quadrant == 2 {
        (-p.0, -p.1)
    } else {
        (p.1, -p.0)
    }
}

pub open spec fn quadrant_at(p: (int, int)) -> int {
    if p.1 >= 0 {
        if p.0 >= 0 {
            0
        } else {
            1
        }
    } else if p.0 >= 0 {
        3
    } else {
        2
    }
}

pub open spec fn whole(p: (i32, i32)) -> (int, int) {
    (p.0 as int, p.1 as int)
}

/// Rotate a first-quadrant point into `quadrant` (0 to 3, anticlockwise).
pub fn rotate(p: (i32, i32), quadrant: u8) -> (turned: (i32, i32))
    requires
        p.0 > i32::MIN,
        p.1 > i32::MIN,
    ensures
        whole(turned) == rotated(whole(p), quadrant as int % 4),
{
    match quadrant % 4 {
        0 => p,
        1 => (-p.1, p.0),
        2 => (-p.0, -p.1),
        _ => (p.1, -p.0),
    }
}

/// Which quadrant a point lies in.
pub fn quadrant_of(p: (i32, i32)) -> (quadrant: u8)
    ensures
        quadrant == quadrant_at(whole(p)),
        quadrant < 4,
{
    if p.1 >= 0 {
        if p.0 >= 0 {
            0
        } else {
            1
        }
    } else if p.0 >= 0 {
        3
    } else {
        2
    }
}

/// The odd coordinate nearest to so many thousandths, none further out than the
/// constellation: halfway goes away from one.
pub open spec fn snapped(v: int) -> int {
    if v >= 2000 {
        3
    } else if v > 0 {
        1
    } else if v > -2000 {
        -1
    } else {
        -3
    }
}

fn snap(v: i32) -> (odd: i32)
    ensures
        odd == snapped(v as int),
{
    if v >= 2000 {
        3
    } else if v > 0 {
        1
    } else if v > -2000 {
        -1
    } else {
        -3
    }
}

/// The constellation point nearest to one in thousandths of a unit. The sixteen
/// points are the odd coordinates from -3 to 3, so each axis is decided by
/// itself.
pub fn nearest_point(p: (i32, i32)) -> (point: (i32, i32))
    ensures
        whole(point) == (snapped(p.0 as int), snapped(p.1 as int)),
{
    (snap(p.0), snap(p.1))
}

/// No odd coordinate of the constellation is nearer than the one decided on.
pub proof fn the_nearest_coordinate_is_nearest(v: int, odd: int)
    requires
        odd == -3 || odd == -1 || odd == 1 || odd == 3,
    ensures
        ({
            let off = v - 1000 * snapped(v);
            let other = v - 1000 * odd;
            (if off >= 0 {
                off
            } else {
                -off
            }) <= (if other >= 0 {
                other
            } else {
                -other
            })
        }),
{
}

/// The last two bits of a decided point.
pub open spec fn bits_at(p: (int, int), quadrant: int) -> (bool, bool) {
    let base = rotated(p, (4 - quadrant) % 4);
    (base.1 > 2, base.0 > 2)
}

/// Recover the last two bits of a quadbit from a decided point: rotate back to
/// the first quadrant, then take the nearest of the four points, and the first of
/// those as near.
pub fn point_bits(p: (i32, i32), quadrant: u8) -> (bits: u8)
    requires
        quadrant < 4,
        p.0 > i32::MIN,
        p.1 > i32::MIN,
    ensures
        bits < 4,
        (bits / 2 == 1, bits % 2 == 1) == bits_at(whole(p), quadrant as int),
{
    let base = rotate(p, (4 - quadrant) % 4);
    let third: u8 = if base.1 > 2 {
        2
    } else {
        0
    };
    third + if base.0 > 2 {
        1
    } else {
        0
    }
}

/// Every constellation point decodes to its own quadrant and its own bits, and
/// slices to itself.
pub proof fn every_point_is_its_own(quadrant: int, third: bool, fourth: bool)
    requires
        0 <= quadrant < 4,
    ensures
        ({
            let p = rotated(base_of(third, fourth), quadrant);
            &&& quadrant_at(p) == quadrant
            &&& bits_at(p, quadrant) == (third, fourth)
            &&& snapped(1000 * p.0) == p.0 && snapped(1000 * p.1) == p.1
        }),
{
}

/// The self-synchronising scrambler, 1 + x^-14 + x^-17, the same in both
/// directions.
#[derive(Debug, Clone, Copy, PartialEq, Eq, Structural)]
pub struct Scrambler {
    pub register: u32,
    /// Consecutive ones seen on the line, up to sixty-four.
    pub ones: u32,
}

pub open spec fn taps() -> (u32, u32) {
    (14, 17)
}

impl Scrambler {
    pub open spec fn fresh() -> Scrambler {
        Scrambler { register: 0, ones: 0 }
    }

    /// The ones counted are in the register, as far back as it goes.
    pub open spec fn wf(self) -> bool {
        &&& self.ones <= 64
        &&& forall|back: u32| 1 <= back <= 32 && back <= self.ones ==> #[trigger] tap(
            self.register,
            back,
        )
    }

    /// Whether sixty-four ones have gone by, which inverts the next bit and
    /// starts the count again.
    pub open spec fn inverts(self) -> bool {
        self.ones >= 64
    }

    /// What the next bit is added to.
    pub open spec fn sum(self) -> bool {
        fed_back(self.register, taps()) != self.inverts()
    }

    /// Another bit on the line.
    pub open spec fn seen(self, line: bool) -> Scrambler {
        Scrambler {
            register: shifted_in(self.register, line),
            ones: if !line {
                0
            } else if self.inverts() {
                1
            } else {
                (self.ones + 1) as u32
            },
        }
    }

    pub fn new() -> (scrambler: Scrambler)
        ensures
            scrambler == Scrambler::fresh(),
            scrambler.wf(),
    {
        Scrambler { register: 0, ones: 0 }
    }

    fn see(&mut self, line: bool)
        requires
            old(self).wf(),
        ensures
            *final(self) == old(self).seen(line),
            final(self).wf(),
    {
        proof {
            lemma_seen(*self, line);
        }
        if self.ones >= 64 {
            self.ones = 0;
        }
        self.register = shift_in(self.register, line);
        if line {
            self.ones = self.ones + 1;
        } else {
            self.ones = 0;
        }
    }

    fn feedback(&self) -> (bit: bool)
        ensures
            bit == fed_back(self.register, taps()),
    {
        tapped(self.register, 14) != tapped(self.register, 17)
    }

    /// Scramble one bit. Sixty-four consecutive ones at the output invert the
    /// next input, which stops a lock-up being read as a remote loop request.
    pub fn scramble(&mut self, bit: bool) -> (out: bool)
        requires
            old(self).wf(),
        ensures
            out == (bit != old(self).sum()),
            *final(self) == old(self).seen(out),
            final(self).wf(),
    {
        let input = bit != (self.ones >= 64);
        let out = input != self.feedback();
        self.see(out);
        out
    }

    /// Descramble one bit. The detector watches the scrambled stream, which is
    /// identical at both ends.
    pub fn descramble(&mut self, bit: bool) -> (out: bool)
        requires
            old(self).wf(),
        ensures
            out == (bit != old(self).sum()),
            *final(self) == old(self).seen(bit),
            final(self).wf(),
    {
        let inverted = self.ones >= 64;
        let out = bit != self.feedback();
        self.see(bit);
        if inverted {
            !out
        } else {
            out
        }
    }

    pub fn reset(&mut self)
        ensures
            *final(self) == Scrambler::fresh(),
    {
        self.register = 0;
        self.ones = 0;
    }
}

impl Default for Scrambler {
    fn default() -> (scrambler: Scrambler)
        ensures
            scrambler == Scrambler::fresh(),
    {
        Scrambler::new()
    }
}

proof fn lemma_seen(s: Scrambler, line: bool)
    requires
        s.wf(),
    ensures
        s.seen(line).wf(),
{
    let next = s.seen(line);
    assert forall|back: u32| 1 <= back <= 32 && back <= next.ones implies #[trigger] tap(
        next.register,
        back,
    ) by {
        lemma_shifted_in(s.register, line, 1);
        if back > 1 {
            lemma_shifted_in(s.register, line, (back - 1) as u32);
            assert(tap(s.register, (back - 1) as u32));
        }
    }
}

/// What comes out of a scrambler for a run of bits.
pub open spec fn scrambled(s: Scrambler, bits: Seq<bool>) -> (Scrambler, Seq<bool>)
    decreases bits.len(),
{
    if bits.len() == 0 {
        (s, Seq::empty())
    } else {
        let (before, line) = scrambled(s, bits.drop_last());
        let out = bits.last() != before.sum();
        (before.seen(out), line.push(out))
    }
}

/// What comes back of a run of line bits.
pub open spec fn descrambled(s: Scrambler, line: Seq<bool>) -> (Scrambler, Seq<bool>)
    decreases line.len(),
{
    if line.len() == 0 {
        (s, Seq::empty())
    } else {
        let (before, bits) = descrambled(s, line.drop_last());
        (before.seen(line.last()), bits.push(line.last() != before.sum()))
    }
}

/// Two ends that start alike stay alike, and the scrambler is undone: what goes
/// in at one end comes out at the other, inversions and all.
pub proof fn the_scrambler_is_undone(s: Scrambler, bits: Seq<bool>)
    ensures
        descrambled(s, scrambled(s, bits).1) == (scrambled(s, bits).0, bits),
    decreases bits.len(),
{
    if bits.len() > 0 {
        the_scrambler_is_undone(s, bits.drop_last());
        let line = scrambled(s, bits).1;
        assert(line.drop_last() =~= scrambled(s, bits.drop_last()).1);
        assert(bits =~= bits.drop_last().push(bits.last()));
    } else {
        assert(bits =~= Seq::empty());
    }
}

/// A lock-up cannot persist. Once the register holds nothing but ones the output
/// is the input itself, and the bit after sixty-four ones is the input turned
/// over: so an unchanging input that has given sixty-four ones gives a zero next.
pub proof fn a_lock_up_is_broken(s: Scrambler, bit: bool)
    requires
        s.wf(),
    ensures
        17 <= s.ones < 64 ==> (bit != s.sum()) == bit,
        s.ones >= 64 ==> (bit != s.sum()) == !bit,
{
    if s.ones >= 17 {
        assert(tap(s.register, 14) && tap(s.register, 17));
    }
}

/// What a transmitter has to send, and where it has got to, as a value.
pub struct Sending {
    pub scrambler: Scrambler,
    pub quadrant: u8,
    pub pending: Seq<bool>,
}

impl Sending {
    pub open spec fn wf(self) -> bool {
        self.scrambler.wf() && self.quadrant < 4
    }

    /// The next bit to send: ones once there is nothing left.
    pub open spec fn bit(self) -> bool {
        if self.pending.len() > 0 {
            self.pending[0]
        } else {
            true
        }
    }

    /// The next bit as the line will carry it.
    pub open spec fn line_bit(self) -> bool {
        self.bit() != self.scrambler.sum()
    }

    pub open spec fn bit_gone(self) -> Sending {
        Sending {
            scrambler: self.scrambler.seen(self.line_bit()),
            pending: if self.pending.len() > 0 {
                self.pending.skip(1)
            } else {
                self.pending
            },
            ..self
        }
    }

    /// A symbol on: four bits gone, and the quadrant turned by the first two.
    pub open spec fn symbol_gone(self) -> Sending {
        let (second, third) = (self.bit_gone(), self.bit_gone().bit_gone());
        Sending {
            quadrant: ((self.quadrant + turn_of(self.line_bit(), second.line_bit())) % 4) as u8,
            ..third.bit_gone().bit_gone()
        }
    }

    /// The point that symbol is.
    pub open spec fn point(self) -> (int, int) {
        let third = self.bit_gone().bit_gone();
        rotated(
            base_of(third.line_bit(), third.bit_gone().line_bit()),
            self.symbol_gone().quadrant as int,
        )
    }
}

/// Which point each four bits become.
#[derive(Debug, Clone)]
pub struct Transmitter {
    pub scrambler: Scrambler,
    pub quadrant: u8,
    pub pending: VecDeque<bool>,
}

impl View for Transmitter {
    type V = Sending;

    open spec fn view(&self) -> Sending {
        Sending {
            scrambler: self.scrambler,
            quadrant: self.quadrant,
            pending: self.pending@,
        }
    }
}

impl Transmitter {
    pub fn new() -> (tx: Transmitter)
        ensures
            tx@ == (Sending {
                scrambler: Scrambler::fresh(),
                quadrant: 0,
                pending: Seq::empty(),
            }),
            tx@.wf(),
    {
        Transmitter { scrambler: Scrambler::new(), quadrant: 0, pending: VecDeque::new() }
    }

    /// Queue bits for transmission.
    pub fn push_bits(&mut self, bits: &[bool])
        ensures
            final(self)@ == (Sending { pending: old(self)@.pending + bits@, ..old(self)@ }),
    {
        let ghost start = self@;
        let mut i: usize = 0;
        assert(start.pending + bits@.take(0) =~= start.pending);
        while i < bits.len()
            invariant
                i <= bits@.len(),
                self@ == (Sending { pending: start.pending + bits@.take(i as int), ..start }),
            decreases bits@.len() - i,
        {
            self.pending.push_back(bits[i]);
            i = i + 1;
            assert(self.pending@ =~= start.pending + bits@.take(i as int));
        }
        assert(bits@.take(i as int) =~= bits@);
    }

    /// Most significant bit first within each octet.
    pub fn push_bytes(&mut self, bytes: &[u8])
        ensures
            final(self)@ == (Sending {
                pending: old(self)@.pending + octets(bytes@),
                ..old(self)@
            }),
    {
        push_octets(&mut self.pending, bytes);
    }

    pub fn pending_bits(&self) -> (left: usize)
        ensures
            left == self@.pending.len(),
    {
        self.pending.len()
    }

    fn next_bit(&mut self) -> (bit: bool)
        requires
            old(self)@.wf(),
        ensures
            bit == old(self)@.line_bit(),
            final(self)@ == old(self)@.bit_gone(),
            final(self)@.wf(),
    {
        let ghost before = self.pending@;
        let bit = match self.pending.pop_front() {
            Some(bit) => bit,
            None => true,
        };
        assert(before.len() > 0 ==> self.pending@ =~= before.skip(1));
        self.scrambler.scramble(bit)
    }

    /// Map the next quadbit to a constellation point.
    pub fn next_symbol(&mut self) -> (point: (i32, i32))
        requires
            old(self)@.wf(),
        ensures
            final(self)@ == old(self)@.symbol_gone(),
            whole(point) == old(self)@.point(),
            final(self)@.wf(),
    {
        let first = self.next_bit();
        let second = self.next_bit();
        let third = self.next_bit();
        let fourth = self.next_bit();
        let leading: usize = pair(first, second);
        let trailing: usize = pair(third, fourth);
        let change: u8 = QUADRANT_CHANGE[leading];
        self.quadrant = (self.quadrant + change) % 4;
        rotate(QUADRANT_POINTS[trailing], self.quadrant)
    }
}

fn pair(high: bool, low: bool) -> (n: usize)
    ensures
        n == (if high {
            2int
        } else {
            0
        }) + (if low {
            1int
        } else {
            0
        }),
{
    let n: usize = if high {
        2
    } else {
        0
    };
    n + if low {
        1
    } else {
        0
    }
}

/// What has come back from the points heard, as a value.
pub struct Hearing {
    pub descrambler: Scrambler,
    pub quadrant: Option<u8>,
    pub bits: Seq<bool>,
}

/// The bits that a turn of so many quarters stands for.
pub open spec fn dibit_of(turn: int) -> (bool, bool) {
    if turn == 0 {
        (false, true)
    } else if turn == 1 {
        (false, false)
    } else if turn == 2 {
        (true, false)
    } else {
        (true, true)
    }
}

impl Hearing {
    pub open spec fn wf(self) -> bool {
        self.descrambler.wf() && (self.quadrant matches Some(quadrant) ==> quadrant < 4)
    }

    /// Another bit off the line.
    pub open spec fn hear_bit(self, bit: bool) -> Hearing {
        Hearing {
            descrambler: self.descrambler.seen(bit),
            bits: self.bits.push(bit != self.descrambler.sum()),
            ..self
        }
    }

    /// A decided point. The first symbol only establishes a reference; a change
    /// needs two.
    pub open spec fn hear(self, p: (int, int)) -> Hearing {
        let quadrant = quadrant_at(p);
        let here = Hearing { quadrant: Some(quadrant as u8), ..self };
        match self.quadrant {
            None => here,
            Some(previous) => {
                let (first, second) = dibit_of((quadrant + 4 - previous) % 4);
                let (third, fourth) = bits_at(p, quadrant);
                here.hear_bit(first).hear_bit(second).hear_bit(third).hear_bit(fourth)
            },
        }
    }
}

/// Which bits each point comes back as.
#[derive(Debug, Clone)]
pub struct Receiver {
    pub descrambler: Scrambler,
    pub quadrant: Option<u8>,
    pub bits: Vec<bool>,
}

impl View for Receiver {
    type V = Hearing;

    open spec fn view(&self) -> Hearing {
        Hearing { descrambler: self.descrambler, quadrant: self.quadrant, bits: self.bits@ }
    }
}

impl Receiver {
    pub fn new() -> (rx: Receiver)
        ensures
            rx@ == (Hearing {
                descrambler: Scrambler::fresh(),
                quadrant: None,
                bits: Seq::empty(),
            }),
            rx@.wf(),
    {
        Receiver { descrambler: Scrambler::new(), quadrant: None, bits: Vec::new() }
    }

    fn hear_bit(&mut self, bit: bool)
        requires
            old(self)@.wf(),
        ensures
            final(self)@ == old(self)@.hear_bit(bit),
            final(self)@.wf(),
    {
        let out = self.descrambler.descramble(bit);
        self.bits.push(out);
    }

    /// An equalised symbol, in thousandths of a unit, decided and turned back
    /// into bits.
    pub fn on_symbol(&mut self, point: (i32, i32))
        requires
            old(self)@.wf(),
        ensures
            final(self)@ == old(self)@.hear((snapped(point.0 as int), snapped(point.1 as int))),
            final(self)@.wf(),
    {
        let decision = nearest_point(point);
        let quadrant: u8 = quadrant_of(decision);
        let before = self.quadrant;
        self.quadrant = Some(quadrant);
        match before {
            None => {},
            Some(previous) => {
                let change: usize = ((quadrant + 4 - previous) % 4) as usize;
                let leading: u8 = CHANGE_TO_BITS[change];
                let trailing: u8 = point_bits(decision, quadrant);
                self.hear_bit(leading / 2 == 1);
                self.hear_bit(leading % 2 == 1);
                self.hear_bit(trailing / 2 == 1);
                self.hear_bit(trailing % 2 == 1);
            },
        }
    }

    /// Take the bits recovered so far.
    pub fn take_bits(&mut self) -> (bits: Vec<bool>)
        ensures
            bits@ == old(self)@.bits,
            final(self)@ == (Hearing { bits: Seq::empty(), ..old(self)@ }),
    {
        let mut bits: Vec<bool> = Vec::new();
        std::mem::swap(&mut bits, &mut self.bits);
        bits
    }

    /// Take whole octets, most significant bit first, leaving any remainder.
    pub fn take_bytes(&mut self) -> (bytes: Vec<u8>)
        ensures
            octets(bytes@) == old(self)@.bits.take(old(self)@.bits.len() as int / 8 * 8),
            bytes@.len() == old(self)@.bits.len() / 8,
            final(self)@ == (Hearing {
                bits: old(self)@.bits.skip(old(self)@.bits.len() as int / 8 * 8),
                ..old(self)@
            }),
    {
        take_octets(&mut self.bits)
    }
}

/// A receiver that knows the transmitter's last quadrant and has heard what it
/// has sent.
pub open spec fn in_step(tx: Sending, rx: Hearing) -> bool {
    rx.quadrant == Some(tx.quadrant) && rx.descrambler == tx.scrambler
}

/// What is sent is what is received: the point that carries the next four bits,
/// decided by a receiver in step with the transmitter, gives those four bits back
/// and leaves the two in step.
pub proof fn what_is_sent_is_received(tx: Sending, rx: Hearing)
    requires
        tx.wf(),
        rx.wf(),
        in_step(tx, rx),
    ensures
        ({
            let (b, c) = (tx.bit_gone(), tx.bit_gone().bit_gone());
            let heard = rx.hear(tx.point());
            &&& heard.bits == rx.bits.push(tx.bit()).push(b.bit()).push(c.bit()).push(
                c.bit_gone().bit(),
            )
            &&& in_step(tx.symbol_gone(), heard)
            &&& snapped(1000 * tx.point().0) == tx.point().0
            &&& snapped(1000 * tx.point().1) == tx.point().1
        }),
{
    let third = tx.bit_gone().bit_gone();
    every_point_is_its_own(
        tx.symbol_gone().quadrant as int,
        third.line_bit(),
        third.bit_gone().line_bit(),
    );
}

} // verus!
