//! The modulation the INFO sequences ride on: binary DPSK at 600 bit/s, on
//! 1200 Hz from the call modem and 2400 Hz from the answer modem.
//!
//! The transmit point is turned half way round from the previous one for a 1
//! and left alone for a 0. A carrier with no reversals in it is a string of
//! zeros, which is also what tones A and B are between their phase reversals,
//! so the same modulator carries a sequence straight on into the tone that
//! follows it.
//!
//! What is here is which point is on the line at each sample, and what the
//! turns heard come to. The pulse the points are sent with, and the filters
//! that find them again, are the caller's.
use crate::v34::info::{
    framed, framing_is_undone, info0_comes_back, info0d_comes_back, unframed, Info, Info0, Info0d,
    Info1a, Info1aPcm, Info1aPcmUp, Info1aV34Up, Info1c, Mh,
    INFO0D_BITS, INFO0_BITS, INFO1A_BITS, INFO1C_BITS, MH_BITS,
};
use crate::v34::info1::{
    info1a_comes_back, info1a_pcm_up_comes_back, info1a_v34_up_comes_back,
    info1c_comes_back, the_layouts_of_info1a_are_told_apart,
};
use std::collections::VecDeque;
use vstd::prelude::*;

verus! {

/// Bits, and symbols, a second.
pub const BAUD: u64 = 600;

/// Symbols each side of centre in the shaping filter.
pub const SPAN: usize = 6;

/// Symbols the pulse is spread across.
pub const HISTORY: usize = 13;

/// The 1800 Hz guard tone the answer modem sends under its INFO sequences and
/// tone A.
pub const GUARD_TONE: u32 = 1800;

/// Which modem is sending, which is what decides the carrier.
#[derive(Debug, Clone, Copy, PartialEq, Eq, Structural)]
pub enum Side {
    Call,
    Answer,
}

impl Side {
    pub open spec fn tone(self) -> u32 {
        match self {
            Side::Call => 1200,
            Side::Answer => 2400,
        }
    }

    /// The carrier's frequency in hertz, which is also this side's tone.
    pub fn carrier(self) -> (hz: u32)
        ensures
            hz == match self {
                Side::Call => 1200u32,
                Side::Answer => 2400u32,
            },
            hz == self.tone(),
    {
        match self {
            Side::Call => 1200,
            Side::Answer => 2400,
        }
    }
}

/// What a transmitter is sending, as a value.
pub struct Sending {
    pub side: Side,
    pub fs: nat,
    /// How far through the current symbol, in parts of a symbol of which there
    /// are `fs`.
    pub clock: nat,
    /// The symbols the pulse is spread across, oldest first: one, minus one, or
    /// zero for nothing.
    pub history: Seq<i8>,
    pub pending: Seq<bool>,
    /// The point the carrier is on: one or minus one.
    pub point: i8,
    /// Whether the carrier is on.
    pub on: bool,
}

/// Whether nothing of any symbol is left.
pub open spec fn quiet(history: Seq<i8>) -> bool {
    forall|i: int| 0 <= i < history.len() ==> history[i] == 0
}

impl Sending {
    pub open spec fn wf(self) -> bool {
        &&& self.fs > 0
        &&& self.clock < self.fs
        &&& self.history.len() == 13
        &&& forall|i: int| 0 <= i < 13 ==> -1 <= #[trigger] self.history[i] <= 1
        &&& self.point == 1 || self.point == -1
    }

    pub open spec fn new(side: Side, fs: nat) -> Sending {
        Sending {
            side,
            fs,
            clock: 0,
            history: Seq::new(13, |i: int| 0i8),
            pending: Seq::empty(),
            point: 1,
            on: false,
        }
    }

    /// Bits queued behind what is queued already, and the carrier up.
    pub open spec fn send(self, bits: Seq<bool>) -> Sending {
        Sending { on: true, pending: self.pending + bits, ..self }
    }

    /// The carrier to fall once the queue has gone.
    pub open spec fn silence(self) -> Sending {
        Sending { on: false, ..self }
    }

    /// Every symbol still on the line turned half way round.
    pub open spec fn reverse(self) -> Sending {
        Sending {
            point: (-self.point) as i8,
            history: self.history.map_values(|s: i8| (-s) as i8),
            ..self
        }
    }

    /// Nothing queued and nothing on the line.
    pub open spec fn stop(self) -> Sending {
        Sending {
            pending: Seq::empty(),
            history: Seq::new(13, |i: int| 0i8),
            on: false,
            ..self
        }
    }

    /// Whether the carrier is on or still dying away.
    pub open spec fn sending(self) -> bool {
        self.on || self.pending.len() > 0 || !quiet(self.history)
    }

    /// The next symbol, and what is left to send after it. From silence the
    /// first symbol is the point the carrier is on, and the bits wait.
    pub open spec fn symbol(self) -> (i8, Sending) {
        if self.pending.len() > 0 {
            if quiet(self.history.skip(1)) {
                (self.point, self)
            } else {
                let point = if self.pending[0] {
                    (-self.point) as i8
                } else {
                    self.point
                };
                (point, Sending { point, pending: self.pending.skip(1), ..self })
            }
        } else {
            (
                if self.on {
                    self.point
                } else {
                    0
                },
                self,
            )
        }
    }

    /// One symbol on.
    pub open spec fn shift(self) -> Sending {
        let (symbol, rest) = self.symbol();
        Sending { history: self.history.skip(1).push(symbol), ..rest }
    }

    /// As many symbols on as the clock has run past.
    pub open spec fn catch_up(self, clock: nat) -> Sending
        decreases clock,
    {
        if self.fs == 0 || clock < self.fs {
            Sending { clock, ..self }
        } else {
            self.shift().catch_up((clock - self.fs) as nat)
        }
    }

    /// One sample on.
    pub open spec fn step(self) -> Sending {
        self.catch_up(self.clock + 600)
    }
}

/// INFO sequences and tones, as points on the line.
#[derive(Debug, Clone)]
pub struct Transmitter {
    pub side: Side,
    /// Samples a second.
    pub fs: u32,
    /// How far through the current symbol, in parts of a symbol of which there
    /// are `fs`.
    pub clock: u64,
    /// The symbols the pulse is spread across, oldest first.
    pub history: Vec<i8>,
    pub pending: VecDeque<bool>,
    /// The point the carrier is on: one or minus one.
    pub point: i8,
    /// Whether the carrier is on. Off, the modulator sends nothing, and the
    /// next sequence starts with a point of its own.
    pub on: bool,
}

impl View for Transmitter {
    type V = Sending;

    open spec fn view(&self) -> Sending {
        Sending {
            side: self.side,
            fs: self.fs as nat,
            clock: self.clock as nat,
            history: self.history@,
            pending: self.pending@,
            point: self.point,
            on: self.on,
        }
    }
}

impl Transmitter {
    pub fn new(side: Side, fs: u32) -> (tx: Transmitter)
        requires
            fs > 0,
        ensures
            tx@ == Sending::new(side, fs as nat),
            tx@.wf(),
    {
        let tx = Transmitter {
            side,
            fs,
            clock: 0,
            history: vec![0, 0, 0, 0, 0, 0, 0, 0, 0, 0, 0, 0, 0],
            pending: VecDeque::new(),
            point: 1,
            on: false,
        };
        assert(tx.history@ =~= Seq::new(13, |i: int| 0i8));
        tx
    }

    pub fn side(&self) -> (side: Side)
        ensures
            side == self.side,
    {
        self.side
    }

    /// Queue a sequence, or bits of one.
    ///
    /// A sequence queued while the carrier is already up follows straight on
    /// from it; only one sent from silence is preceded by a point of its own.
    pub fn send(&mut self, bits: &[bool])
        ensures
            final(self)@ == old(self)@.send(bits@),
    {
        self.on = true;
        let ghost before = self.pending@;
        let ghost start = self@;
        let mut i: usize = 0;
        while i < bits.len()
            invariant
                i <= bits@.len(),
                self.pending@ == before + bits@.take(i as int),
                self@ == (Sending { pending: self.pending@, ..start }),
            decreases bits@.len() - i,
        {
            self.pending.push_back(bits[i]);
            i = i + 1;
            assert(bits@.take(i as int) =~= bits@.take(i - 1).push(bits@[i - 1]));
        }
        assert(bits@.take(i as int) =~= bits@);
    }

    /// Stop once whatever is queued has gone: the carrier falls to nothing
    /// through the pulse rather than being cut.
    pub fn silence(&mut self)
        ensures
            final(self)@ == old(self)@.silence(),
    {
        self.on = false;
    }

    /// Bits still to go.
    pub fn pending(&self) -> (left: usize)
        ensures
            left == self@.pending.len(),
    {
        self.pending.len()
    }

    /// Turn the carrier half way round, on the very next sample.
    ///
    /// A round trip is measured between two reversals, so a reversal belongs
    /// at a sample and not at the next symbol boundary. Every symbol the pulse
    /// is still spread across is turned round with it, which turns the whole
    /// of the output round at once.
    pub fn reverse(&mut self)
        requires
            old(self)@.wf(),
        ensures
            final(self)@ == old(self)@.reverse(),
            final(self)@.wf(),
    {
        self.point = -self.point;
        let ghost start = self@;
        let ghost before = old(self).history@;
        let mut i: usize = 0;
        while i < self.history.len()
            invariant
                i <= self.history@.len() == before.len(),
                self@ == (Sending { history: self.history@, ..start }),
                forall|j: int| 0 <= j < before.len() ==> -1 <= #[trigger] before[j] <= 1,
                forall|j: int|
                    0 <= j < before.len() ==> #[trigger] self.history@[j] == if j < i {
                        (-before[j]) as i8
                    } else {
                        before[j]
                    },
            decreases before.len() - i,
        {
            let turned: i8 = -self.history[i];
            self.history.set(i, turned);
            i = i + 1;
        }
        assert(self.history@ =~= old(self)@.reverse().history);
    }

    /// Stop dead: nothing queued, nothing still dying away, and the next
    /// sequence starting from a point of its own. For the handover to a signal
    /// that is not this one.
    pub fn stop(&mut self)
        ensures
            final(self)@ == old(self)@.stop(),
    {
        self.pending = VecDeque::new();
        self.history = vec![0, 0, 0, 0, 0, 0, 0, 0, 0, 0, 0, 0, 0];
        self.on = false;
        assert(self.history@ =~= Seq::new(13, |i: int| 0i8));
        assert(self.pending@ =~= Seq::empty());
    }

    fn quiet(&self) -> (quiet: bool)
        ensures
            quiet == self::quiet(self.history@),
    {
        let mut i: usize = 0;
        while i < self.history.len()
            invariant
                i <= self.history@.len(),
                forall|j: int| 0 <= j < i ==> self.history@[j] == 0,
            decreases self.history@.len() - i,
        {
            if self.history[i] != 0 {
                return false;
            }
            i = i + 1;
        }
        true
    }

    /// Whether the carrier is on or still dying away.
    pub fn is_sending(&self) -> (sending: bool)
        ensures
            sending == self@.sending(),
    {
        self.on || self.pending.len() > 0 || !self.quiet()
    }

    /// One symbol on. The history is one symbol short on the way in.
    fn next_symbol(&mut self) -> (symbol: i8)
        requires
            old(self).point == 1 || old(self).point == -1,
        ensures
            ({
                let before = Sending {
                    history: seq![0i8] + old(self).history@,
                    ..old(self)@
                };
                &&& symbol == before.symbol().0
                &&& final(self)@ == (Sending {
                    history: old(self).history@,
                    ..before.symbol().1
                })
            }),
    {
        assert((seq![0i8] + self.history@).skip(1) =~= self.history@);
        if self.pending.len() == 0 {
            return if self.on {
                self.point
            } else {
                0
            };
        }
        if self.quiet() {
            // From silence, the first symbol is the arbitrary point, and the
            // bit waits for the next.
            return self.point;
        }
        let ghost before = self.pending@;
        let bit = self.pending.pop_front();
        assert(self.pending@ =~= before.skip(1));
        if bit == Some(true) {
            self.point = -self.point;
        }
        self.point
    }

    /// One sample on: the symbol clock, and the symbols it runs past. The
    /// output runs `SPAN` symbols behind the newest of the history.
    pub fn next_sample(&mut self)
        requires
            old(self)@.wf(),
        ensures
            final(self)@ == old(self)@.step(),
            final(self)@.wf(),
            final(self).fs == old(self).fs,
            final(self).side == old(self).side,
    {
        let ghost start = self@;
        let fs: u64 = self.fs as u64;
        self.clock = self.clock + BAUD;
        proof {
            lemma_catch_up_forgets_the_clock(start, self.clock as nat, self.clock as nat);
        }
        while self.clock >= fs
            invariant
                fs == self.fs > 0,
                self.fs == start.fs,
                self.side == start.side,
                self.history@.len() == 13,
                forall|i: int| 0 <= i < 13 ==> -1 <= #[trigger] self.history@[i] <= 1,
                self.point == 1 || self.point == -1,
                self@.catch_up(self.clock as nat) == start.step(),
            decreases self.clock,
        {
            let ghost before = self@;
            self.clock = self.clock - fs;
            let ghost all = self.history@;
            let _ = self.history.remove(0);
            assert(self.history@ =~= all.skip(1));
            assert((seq![0i8] + self.history@).skip(1) =~= all.skip(1));
            let symbol: i8 = self.next_symbol();
            self.history.push(symbol);
            proof {
                let after = before.shift();
                assert(self@ == (Sending { clock: self.clock as nat, ..after }));
                lemma_catch_up_forgets_the_clock(after, self.clock as nat, self.clock as nat);
            }
        }
    }
}

/// Where the clock stood does not matter once it is set.
pub proof fn lemma_catch_up_forgets_the_clock(sending: Sending, was: nat, clock: nat)
    ensures
        (Sending { clock: was, ..sending }).catch_up(clock) == sending.catch_up(clock),
    decreases clock,
{
    if sending.fs > 0 && clock >= sending.fs {
        let (a, b) = ((Sending { clock: was, ..sending }).shift(), sending.shift());
        assert(a == (Sending { clock: was, ..b }));
        lemma_catch_up_forgets_the_clock(b, was, (clock - sending.fs) as nat);
    }
}

/// Reversing twice changes nothing, and a stopped transmitter sends nothing.
pub proof fn reversals_and_stops(tx: Sending)
    requires
        tx.wf(),
    ensures
        tx.reverse().reverse() == tx,
        !tx.stop().sending(),
        tx.stop().step().history == tx.stop().history,
{
    assert(tx.reverse().reverse().history =~= tx.history);
    let stopped = tx.stop();
    lemma_stopped(stopped, stopped.clock + 600);
}

proof fn lemma_stopped(tx: Sending, clock: nat)
    requires
        tx.history == Seq::new(13, |i: int| 0i8),
        tx.pending.len() == 0,
        !tx.on,
    ensures
        tx.catch_up(clock).history == tx.history,
    decreases clock,
{
    if tx.fs > 0 && clock >= tx.fs {
        assert(tx.shift().history =~= tx.history);
        lemma_stopped(tx.shift(), (clock - tx.fs) as nat);
    }
}

/// The carrier is up and these bits are next: the point after each is the one
/// before it, turned half way round for a 1. So a receiver that takes a turn
/// for a 1 hears the bits that were sent, whatever the point they started from.
pub proof fn the_turns_spell_the_bits(tx: Sending, i: nat)
    requires
        tx.wf(),
        !quiet(tx.history.skip(1)),
        tx.history.last() != 0,
        i < tx.pending.len(),
    ensures
        tx.after(i).point == 1 || tx.after(i).point == -1,
        tx.after(i + 1).point == 1 || tx.after(i + 1).point == -1,
        tx.after(i + 1).history.last() == tx.after(i + 1).point,
        tx.after(i + 1).point != tx.after(i).point <==> tx.pending[i as int],
        tx.after(i + 1).pending == tx.pending.skip(i as int + 1),
{
    lemma_after(tx, i);
    lemma_after(tx, i + 1);
    let now = tx.after(i);
    assert(tx.after(i + 1) == now.shift());
    assert(now.history.skip(1)[11] == now.history.last());
    assert(now.pending[0] == tx.pending[i as int]);
}

impl Sending {
    /// So many symbols on.
    pub open spec fn after(self, symbols: nat) -> Sending
        decreases symbols,
    {
        if symbols == 0 {
            self
        } else {
            self.after((symbols - 1) as nat).shift()
        }
    }
}

proof fn lemma_after(tx: Sending, i: nat)
    requires
        tx.wf(),
        !quiet(tx.history.skip(1)),
        tx.history.last() != 0,
        i <= tx.pending.len(),
    ensures
        tx.after(i).wf(),
        tx.after(i).history.last() != 0,
        tx.after(i).pending == tx.pending.skip(i as int),
    decreases i,
{
    if i == 0 {
        assert(tx.pending.skip(0) =~= tx.pending);
    } else {
        let before = tx.after((i - 1) as nat);
        lemma_after(tx, (i - 1) as nat);
        assert(before.history.skip(1)[11] == before.history.last());
        assert(before.pending.skip(1) =~= tx.pending.skip(i as int));
        assert(before.shift().history.last() == before.symbol().0);
    }
}

/// What a receiver listens for beyond the sequences of a full V.34 or V.90
/// phase 2. Neither is a property of the bits.
#[derive(Debug, Clone, Copy, PartialEq, Eq, Structural)]
pub struct Expecting {
    /// Forty-bit MH sequences.
    pub mh: bool,
    /// Short phase 2, where bit 33 of a V.90-shaped INFO1a names a carrier.
    pub short_phase2: bool,
}

/// The information of the sequence that the last bits heard complete, if they
/// complete one of this length. The trailing fill is not waited for.
pub open spec fn completed(bits: Seq<bool>, length: nat) -> Option<Seq<bool>> {
    if bits.len() + 4 < length {
        None
    } else {
        unframed(bits.skip(bits.len() - (length - 4)), length)
    }
}

/// The INFO1a that seventy bits are: V.34's, the one asking for PCM upstream,
/// or V.90's, which a short phase 2 reads the carrier from as well.
pub open spec fn info1a_of(info: Seq<bool>, expecting: Expecting) -> Option<Info> {
    if Info1a::of_info(info) is Some {
        Some(Info::Info1a(Info1a::of_info(info)->0))
    } else if Info1aPcmUp::of_info(info) is Some {
        Some(Info::Info1aPcmUp(Info1aPcmUp::of_info(info)->0))
    } else if Info1aPcm::of_info(info) is Some {
        if expecting.short_phase2 {
            Some(Info::Info1aV34Up(Info1aV34Up::of_info(info)->0))
        } else {
            Some(Info::Info1aPcm(Info1aPcm::of_info(info)->0))
        }
    } else {
        None
    }
}

/// The MH sequence just completed, if there is one.
pub open spec fn mh_of(bits: Seq<bool>) -> Option<Mh> {
    match completed(bits, 40) {
        Some(info) => Mh::of_info(info),
        None => None,
    }
}

/// The sequence the last bits heard complete, from the side that sends them:
/// INFO0 from either, then INFO0d and INFO1c from the call modem's side or
/// INFO1a from the answer modem's.
pub open spec fn recognised(bits: Seq<bool>, side: Side, expecting: Expecting) -> Option<Info> {
    if expecting.mh && mh_of(bits) is Some {
        Some(Info::Mh(mh_of(bits)->0))
    } else if completed(bits, 49) is Some {
        Some(Info::Info0(Info0::of_info(completed(bits, 49)->0)))
    } else {
        match side {
            Side::Call => if completed(bits, 62) is Some {
                Some(Info::Info0d(Info0d::of_info(completed(bits, 62)->0)))
            } else if completed(bits, 109) is Some {
                Some(Info::Info1c(Info1c::of_info(completed(bits, 109)->0)))
            } else {
                None
            },
            Side::Answer => match completed(bits, 70) {
                Some(info) => info1a_of(info, expecting),
                None => None,
            },
        }
    }
}

/// The bits a branch remembers once it has heard one more: as many as the
/// longest sequence has.
pub open spec fn remembered(bits: Seq<bool>, bit: bool) -> Seq<bool> {
    if bits.len() == 109 {
        bits.skip(1).push(bit)
    } else {
        bits.push(bit)
    }
}

/// INFO sequences out of the turns of a carrier.
///
/// Without a timing loop. The clock is good enough that the right instant for
/// a sequence's first bit is the right instant for its last, so several
/// instants of the symbol are tried at once, each deciding its own bits in a
/// branch of its own, and the CRC says which of them was right.
#[derive(Debug, Clone)]
pub struct Receiver {
    pub side: Side,
    /// What is looked for beyond a full V.34 or V.90 phase 2.
    pub expecting: Expecting,
    /// The most recent bits of each branch.
    pub branches: Vec<Vec<bool>>,
}

/// Branches of a receiver: sampling instants a symbol is tried at.
pub const PHASES: usize = 8;

impl Receiver {
    /// The branches, as bits.
    pub open spec fn heard(self) -> Seq<Seq<bool>> {
        self.branches@.map_values(|b: Vec<bool>| b@)
    }

    pub open spec fn wf(self) -> bool {
        &&& self.branches@.len() == 8
        &&& forall|i: int| 0 <= i < 8 ==> (#[trigger] self.branches@[i])@.len() <= 109
    }

    /// A receiver for what `side` sends.
    pub fn new(side: Side) -> (rx: Receiver)
        ensures
            rx.wf(),
            rx.side == side,
            !rx.expecting.mh,
            !rx.expecting.short_phase2,
            rx.heard() == Seq::new(8, |i: int| Seq::<bool>::empty()),
    {
        let rx = Receiver {
            side,
            expecting: Expecting { mh: false, short_phase2: false },
            branches: empty_branches(),
        };
        assert(rx.heard() =~= Seq::new(8, |i: int| Seq::<bool>::empty()));
        rx
    }

    /// The same receiver, also listening for the forty-bit MH sequences. They
    /// are opt-in because a modem-on-hold transaction begins in the middle of
    /// a call, where a receiver otherwise has no reason to look for them.
    pub fn with_mh(self) -> (rx: Receiver)
        ensures
            rx == (Receiver {
                expecting: Expecting { mh: true, ..self.expecting },
                ..self
            }),
    {
        Receiver {
            side: self.side,
            expecting: Expecting { mh: true, short_phase2: self.expecting.short_phase2 },
            branches: self.branches,
        }
    }

    /// The same receiver, reading the upstream carrier out of a V.90-shaped
    /// INFO1a. Nothing in the frame says whether bit 33 means anything, so only
    /// the phase it arrived in can.
    pub fn in_short_phase2(self) -> (rx: Receiver)
        ensures
            rx == (Receiver {
                expecting: Expecting { short_phase2: true, ..self.expecting },
                ..self
            }),
    {
        Receiver {
            side: self.side,
            expecting: Expecting { mh: self.expecting.mh, short_phase2: true },
            branches: self.branches,
        }
    }

    /// A symbol heard by one branch, turned half way round from the one before
    /// it or not. Yields a sequence the moment its CRC checks, and then every
    /// branch starts afresh: every bit of it has been used, by every branch
    /// that was reading it.
    pub fn feed(&mut self, branch: usize, turned: bool) -> (found: Option<Info>)
        requires
            old(self).wf(),
            branch < 8,
        ensures
            final(self).wf(),
            final(self).side == old(self).side,
            final(self).expecting == old(self).expecting,
            found == recognised(
                remembered(old(self).heard()[branch as int], turned),
                old(self).side,
                old(self).expecting,
            ),
            final(self).heard() == if found is Some {
                Seq::new(8, |i: int| Seq::<bool>::empty())
            } else {
                old(self).heard().update(
                    branch as int,
                    remembered(old(self).heard()[branch as int], turned),
                )
            },
    {
        let bits = keep(self.branches[branch].as_slice(), turned);
        let found = recognise(bits.as_slice(), self.side, self.expecting);
        let ghost kept = bits@;
        assert(kept == remembered(old(self).heard()[branch as int], turned));
        if found.is_some() {
            self.branches = empty_branches();
            assert(self.heard() =~= Seq::new(8, |i: int| Seq::<bool>::empty()));
        } else {
            self.branches.set(branch, bits);
            assert(self.heard() =~= old(self).heard().update(branch as int, kept));
        }
        found
    }
}

fn empty_branches() -> (branches: Vec<Vec<bool>>)
    ensures
        branches@.len() == 8,
        forall|i: int| 0 <= i < 8 ==> (#[trigger] branches@[i])@ == Seq::<bool>::empty(),
{
    let mut branches: Vec<Vec<bool>> = Vec::new();
    let mut i: usize = 0;
    while i < PHASES
        invariant
            i <= 8,
            branches@.len() == i,
            forall|j: int| 0 <= j < i ==> (#[trigger] branches@[j])@ == Seq::<bool>::empty(),
        decreases 8 - i,
    {
        branches.push(Vec::new());
        i = i + 1;
    }
    branches
}

/// One more bit, and the oldest forgotten once there are enough.
fn keep(bits: &[bool], bit: bool) -> (kept: Vec<bool>)
    requires
        bits@.len() <= 109,
    ensures
        kept@ == remembered(bits@, bit),
        kept@.len() <= 109,
{
    let mut kept: Vec<bool> = Vec::new();
    if bits.len() == INFO1C_BITS {
        kept.extend_from_slice(vstd::slice::slice_subrange(bits, 1, bits.len()));
    } else {
        kept.extend_from_slice(bits);
    }
    kept.push(bit);
    assert(kept@ =~= remembered(bits@, bit));
    kept
}

/// The last `length` bits but for the fill after them.
fn candidate(bits: &[bool], length: usize) -> (candidate: &[bool])
    requires
        32 <= length <= 109,
    ensures
        bits@.len() + 4 >= length ==> candidate@ == bits@.skip(bits@.len() - (length - 4)),
        bits@.len() + 4 < length ==> candidate@ == bits@,
{
    if bits.len() < length - 4 {
        bits
    } else {
        let rest = vstd::slice::slice_subrange(bits, bits.len() - (length - 4), bits.len());
        assert(rest@ =~= bits@.skip(bits@.len() - (length - 4)));
        rest
    }
}

/// A branch's sequence, if its last bit completed one.
fn recognise(bits: &[bool], side: Side, expecting: Expecting) -> (found: Option<Info>)
    ensures
        found == recognised(bits@, side, expecting),
{
    proof {
        reveal(unframed);
    }
    // Checked the moment the CRC is in: the trailing fill says nothing, and
    // whatever follows a sequence may not be ones at all.
    if expecting.mh {
        if let Some(mh) = Mh::from_bits(candidate(bits, MH_BITS)) {
            return Some(Info::Mh(mh));
        }
    }
    if let Some(info) = Info0::from_bits(candidate(bits, INFO0_BITS)) {
        return Some(Info::Info0(info));
    }
    match side {
        Side::Call => {
            if let Some(info) = Info0d::from_bits(candidate(bits, INFO0D_BITS)) {
                return Some(Info::Info0d(info));
            }
            match Info1c::from_bits(candidate(bits, INFO1C_BITS)) {
                Some(info) => Some(Info::Info1c(info)),
                None => None,
            }
        },
        Side::Answer => {
            let last = candidate(bits, INFO1A_BITS);
            if let Some(info) = Info1a::from_bits(last) {
                return Some(Info::Info1a(info));
            }
            if let Some(info) = Info1aPcmUp::from_bits(last) {
                return Some(Info::Info1aPcmUp(info));
            }
            if expecting.short_phase2 {
                match Info1aV34Up::from_bits(last) {
                    Some(info) => Some(Info::Info1aV34Up(info)),
                    None => None,
                }
            } else {
                match Info1aPcm::from_bits(last) {
                    Some(info) => Some(Info::Info1aPcm(info)),
                    None => None,
                }
            }
        },
    }
}

/// The last bits heard are a whole sequence but for the fill after it: that
/// sequence is completed, whatever was heard before it.
pub proof fn a_whole_sequence_is_completed(before: Seq<bool>, info: Seq<bool>)
    ensures
        completed(before + framed(info).take(info.len() as int + 28), info.len() + 32) == Some(
            info,
        ),
{
    framing_is_undone(info);
    let length = info.len() as int;
    let sent = framed(info);
    let bits = sent.take(length + 28);
    assert((before + bits).skip(before.len() as int) =~= bits);
    reveal(unframed);
    assert(bits.take(12) =~= sent.take(12));
    assert(bits.subrange(12, length + 12) =~= sent.subrange(12, length + 12));
    assert(bits.subrange(length + 12, length + 28) =~= sent.subrange(length + 12, length + 28));
}

/// An INFO0 that is sent is heard as itself, by a receiver for either side.
pub proof fn an_info0_is_heard(before: Seq<bool>, sent: Info0, side: Side, expecting: Expecting)
    requires
        sent.fits(),
        !expecting.mh,
    ensures
        recognised(before + framed(sent.info()).take(45), side, expecting) == Some(
            Info::Info0(sent),
        ),
{
    info0_comes_back(sent);
    assert(sent.info().len() == 17) by {
        reveal(unframed);
    }
    a_whole_sequence_is_completed(before, sent.info());
}

/// A sequence that ends where no shorter one does is heard as itself: an
/// INFO0d and an INFO1c from the call modem's side.
pub proof fn the_call_side_is_heard(before: Seq<bool>, d: Info0d, c: Info1c, expecting: Expecting)
    requires
        d.fits(),
        c.fits(),
        !expecting.mh,
    ensures
        ({
            let bits = before + framed(d.info()).take(58);
            completed(bits, 49) is None ==> recognised(bits, Side::Call, expecting) == Some(
                Info::Info0d(d),
            )
        }),
        ({
            let bits = before + framed(c.info()).take(105);
            completed(bits, 49) is None && completed(bits, 62) is None ==> recognised(
                bits,
                Side::Call,
                expecting,
            ) == Some(Info::Info1c(c))
        }),
{
    info0d_comes_back(d);
    framing_is_undone(d.info());
    assert(d.info().len() == 30 && c.info().len() == 77) by {
        info1c_comes_back(c);
        reveal(unframed);
    }
    a_whole_sequence_is_completed(before, d.info());
    info1c_comes_back(c);
    framing_is_undone(c.info());
    a_whole_sequence_is_completed(before, c.info());
}

/// Every layout of INFO1a reaches the caller as itself, where no shorter
/// sequence ends with it. The carrier in bit 33 is read in a short phase 2 and
/// in no other, and there a V.90 request is still heard as one.
pub proof fn the_answer_side_is_heard(
    before: Seq<bool>,
    v34: Info1a,
    up: Info1aPcmUp,
    v90: Info1aV34Up,
    expecting: Expecting,
)
    requires
        v34.fits(),
        up.fits(),
        v90.v90.fits(),
        !expecting.mh,
    ensures
        ({
            let bits = before + framed(v34.info()).take(66);
            completed(bits, 49) is None ==> recognised(bits, Side::Answer, expecting) == Some(
                Info::Info1a(v34),
            )
        }),
        ({
            let bits = before + framed(up.info()).take(66);
            completed(bits, 49) is None ==> recognised(bits, Side::Answer, expecting) == Some(
                Info::Info1aPcmUp(up),
            )
        }),
        ({
            let bits = before + framed(v90.info()).take(66);
            completed(bits, 49) is None ==> recognised(bits, Side::Answer, expecting) == Some(
                if expecting.short_phase2 {
                    Info::Info1aV34Up(v90)
                } else {
                    Info::Info1aPcm(v90.v90)
                },
            )
        }),
{
    info1a_comes_back(v34);
    info1a_pcm_up_comes_back(up);
    info1a_v34_up_comes_back(v90);
    assert(v34.info().len() == 38 && up.info().len() == 38 && v90.info().len() == 38) by {
        reveal(unframed);
    }
    a_whole_sequence_is_completed(before, v34.info());
    a_whole_sequence_is_completed(before, up.info());
    a_whole_sequence_is_completed(before, v90.info());
    the_layouts_of_info1a_are_told_apart(v90.info());
}

} // verus!
