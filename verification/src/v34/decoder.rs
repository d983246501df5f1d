//! Data mode coming in: the most likely sequence of channel output points under
//! the trellis code, and everything the encoder did undone in reverse.
use crate::scrambling::{descrambled, shifted_in_all};
use crate::v32::Scrambler;
use crate::v34::coding::{extent, largest, on_the_grid, whole, Running, Tables, SAFE};
use crate::v34::data::{joined, shell_width, unparse, Group};
use crate::v34::encoder::Params;
use crate::v34::frame::Framing;
use crate::v34::viterbi::{
    backs_of, backs_within, best_pairs, cheapest_state, costs_of, costs_within, least_of, lower,
    lowered, nearest_by_label, nears, pairs_of, receivable, sound, survivors, Back, Near, Received,
};
use std::collections::VecDeque;
use vstd::prelude::*;

verus! {

/// 4D symbols the decoder looks back over before deciding.
pub const DEPTH: usize = 40;

/// 4D symbols after which the costs of the trellis could no longer be held.
pub const MOST: u64 = 0x100_0000_0000;

/// One 4D symbol's worth of the decoder's memory: the way into each state, and
/// the nearest point of each label to each of the two points received.
#[derive(Debug, Clone)]
pub struct Stage {
    pub back: Vec<Back>,
    pub first: Vec<Near>,
    pub second: Vec<Near>,
}

/// The same, as a value.
pub struct Held {
    pub back: Seq<Back>,
    pub first: Seq<Near>,
    pub second: Seq<Near>,
}

impl View for Stage {
    type V = Held;

    open spec fn view(&self) -> Held {
        Held { back: self.back@, first: self.first@, second: self.second@ }
    }
}

impl Held {
    pub open spec fn wf(self, states: nat) -> bool {
        backs_within(self.back, states) && sound(self.first) && sound(self.second)
    }
}

pub open spec fn held(stages: Seq<Stage>) -> Seq<Held> {
    Seq::new(stages.len(), |i: int| stages[i]@)
}

/// Where the path into a state left from, as far back as is held, and the labels
/// of the oldest pair of points on it.
pub open spec fn traced(stages: Seq<Held>, state: int) -> (int, (u8, u8))
    decreases stages.len(),
{
    if stages.len() == 0 {
        (state, (0, 0))
    } else {
        let back = stages.last().back[state];
        if stages.len() == 1 {
            (back.from as int, back.labels)
        } else {
            traced(stages.drop_last(), back.from as int)
        }
    }
}

/// A decoder, but for its tables and what it has decoded.
pub struct Decoding {
    pub framing: Framing,
    pub metrics: Seq<Option<u64>>,
    pub stages: Seq<Held>,
    pub received: nat,
    pub decided: nat,
    pub running: Running,
    pub groups: Seq<Group>,
    pub rings: Seq<usize>,
    pub outside: nat,
}

impl Decoding {
    /// Everything above the trellis, undone for one decided 4D symbol.
    pub open spec fn undone(
        self,
        t: Tables,
        y: ((int, int), (int, int)),
        state: u8,
    ) -> Decoding {
        let decoded = self.running.decoded(t, self.framing, y, state, self.decided as int);
        let j = self.decided as int % 4;
        Decoding {
            running: decoded.next,
            groups: self.groups.update(j, decoded.group),
            rings: self.rings.update(2 * j, decoded.rings.0 as usize).update(
                2 * j + 1,
                decoded.rings.1 as usize,
            ),
            decided: self.decided + 1,
            outside: self.outside + decoded.outside,
            ..self
        }
    }

    /// The best path traced back to the oldest 4D symbol held, and that symbol
    /// decided.
    pub open spec fn oldest_decided(self, t: Tables) -> Decoding {
        let best = match least_of(self.metrics, self.metrics.len()) {
            Some(state) => state,
            None => 0,
        };
        let (from, labels) = traced(self.stages, best);
        let oldest = self.stages[0];
        let y = (
            whole(oldest.first[labels.0 as int].point),
            whole(oldest.second[labels.1 as int].point),
        );
        Decoding { stages: self.stages.skip(1), ..self }.undone(t, y, from as u8)
    }

    /// What it costs to reach each state once two more points have arrived.
    pub open spec fn costs(self, t: Tables, r0: Received, r1: Received) -> Seq<Option<u64>> {
        costs_of(
            t,
            self.metrics,
            pairs_of(t, nears(t, r0), nears(t, r1)),
            t.inverted(self.framing, self.received as int),
        )
    }

    /// What the best path costs more by two more points.
    pub open spec fn floor(self, t: Tables, r0: Received, r1: Received) -> Option<u64> {
        let costs = self.costs(t, r0, r1);
        match least_of(costs, costs.len()) {
            Some(state) => costs[state],
            None => None,
        }
    }

    /// Two more points into the trellis.
    pub open spec fn stepped(self, t: Tables, r0: Received, r1: Received) -> Decoding {
        let costs = self.costs(t, r0, r1);
        Decoding {
            metrics: match self.floor(t, r0, r1) {
                Some(floor) => lowered(costs, floor as int),
                None => costs,
            },
            stages: self.stages.push(
                Held {
                    back: backs_of(
                        t,
                        self.metrics,
                        pairs_of(t, nears(t, r0), nears(t, r1)),
                        t.inverted(self.framing, self.received as int),
                    ),
                    first: nears(t, r0),
                    second: nears(t, r1),
                },
            ),
            received: self.received + 1,
            ..self
        }
    }

    /// Two more points, and the oldest decided once enough are held.
    pub open spec fn fed(self, t: Tables, r0: Received, r1: Received) -> Decoding {
        let stepped = self.stepped(t, r0, r1);
        if stepped.stages.len() > 40 {
            stepped.oldest_decided(t)
        } else {
            stepped
        }
    }

    /// The rings of the frame just finished, none further out than there are.
    pub open spec fn finished(self) -> Seq<usize> {
        Seq::new(
            8,
            |i: int|
                if self.rings[i] < self.framing.m {
                    self.rings[i]
                } else {
                    (self.framing.m - 1) as usize
                },
        )
    }

    /// The mapping frame last finished is a high one.
    pub open spec fn high(self) -> bool {
        self.framing.is_high((self.decided / 4 - 1) % (self.framing.p as int))
    }
}

/// Data mode coming in.
#[derive(Debug, Clone)]
pub struct Decoder {
    pub params: Params,
    pub tables: Tables,
    pub descrambler: Scrambler,
    /// What it costs to have reached each state.
    pub metrics: Vec<Option<u64>>,
    pub stages: VecDeque<Stage>,
    /// 4D symbols received, and decided.
    pub received: u64,
    pub decided: u64,
    pub half: Option<Received>,
    /// What undoing the transmitter needs as it goes.
    pub running: Running,
    pub groups: [Group; 4],
    pub rings: [usize; 8],
    pub bits: Vec<bool>,
    /// Points the decisions put outside the constellation.
    pub outside: u64,
}

impl View for Decoder {
    type V = Decoding;

    open spec fn view(&self) -> Decoding {
        Decoding {
            framing: self.params.framing,
            metrics: self.metrics@,
            stages: held(self.stages@),
            received: self.received as nat,
            decided: self.decided as nat,
            running: self.running,
            groups: self.groups@,
            rings: self.rings@,
            outside: self.outside as nat,
        }
    }
}

/// What a 4D symbol left of the trellis: what the best path costs more by it,
/// and the rings of the mapping frame that it finished, if it did.
#[derive(Debug, Clone, Copy, PartialEq, Eq)]
pub struct Fed {
    pub cost: Option<u64>,
    pub rings: Option<[usize; 8]>,
}

impl Decoder {
    pub open spec fn wf(self) -> bool {
        let f = self.params.framing;
        &&& f.wf()
        &&& self.tables.wf(f)
        &&& self.descrambler.wf()
        &&& self.metrics@.len() == self.tables.states()
        &&& costs_within(self.metrics@, self.received * 1_638_400)
        &&& self.stages@.len() <= 40
        &&& self.remembers()
        &&& self.received <= MOST
        &&& self.decided + self.stages@.len() == self.received
        &&& self.outside <= 2 * self.decided
        &&& self.half matches Some(r) ==> receivable(r)
        &&& self.running.wf()
    }

    pub open spec fn remembers(self) -> bool {
        forall|i: int|
            0 <= i < self.stages@.len() ==> (#[trigger] self.stages@[i])@.wf(self.tables.states())
    }

    /// Whether the arithmetic of the next symbol is exact.
    pub open spec fn safe(self) -> bool {
        self.running.precoder.within(SAFE as int)
    }

    /// Nothing but the trellis and what it decides has changed.
    pub open spec fn same_but_decoding(self, other: Decoder) -> bool {
        &&& self.params == other.params
        &&& self.tables == other.tables
        &&& self.descrambler == other.descrambler
        &&& self.bits == other.bits
        &&& self.half == other.half
    }

    /// From the start of B1, for a far end sending with `params`.
    pub fn new(params: Params, tables: Tables) -> (decoder: Decoder)
        requires
            params.framing.wf(),
            tables.wf(params.framing),
        ensures
            decoder.wf(),
            decoder.safe(),
            decoder.params == params,
            decoder.tables == tables,
            decoder.descrambler.register == 0,
            decoder.descrambler.taps() == params.mode.polynomial(),
            decoder.metrics@.len() == tables.states(),
            forall|i: int|
                0 <= i < tables.states() ==> #[trigger] decoder.metrics@[i] == (if i == 0 {
                    Some(0u64)
                } else {
                    None
                }),
            decoder.stages@.len() == 0,
            decoder.received == 0 && decoder.decided == 0 && decoder.outside == 0,
            decoder.half is None,
            decoder.running == Running::fresh(params.framing, params.precoding),
            decoder.bits@.len() == 0,
            forall|j: int| 0 <= j < 4 ==> #[trigger] decoder.groups@[j] == Group::nothing(),
            forall|i: int| 0 <= i < 8 ==> #[trigger] decoder.rings@[i] == 0,
    {
        let states: usize = tables.outputs.len();
        let mut metrics: Vec<Option<u64>> = Vec::new();
        let mut i: usize = 0;
        while i < states
            invariant
                i <= states,
                metrics@.len() == i,
                forall|j: int|
                    0 <= j < i ==> #[trigger] metrics@[j] == (if j == 0 {
                        Some(0u64)
                    } else {
                        None
                    }),
            decreases states - i,
        {
            metrics.push(if i == 0 {
                Some(0)
            } else {
                None
            });
            i = i + 1;
        }
        Decoder {
            params,
            tables,
            descrambler: Scrambler::new(params.mode),
            metrics,
            stages: VecDeque::new(),
            received: 0,
            decided: 0,
            half: None,
            running: Running::new(&params.framing, params.precoding),
            groups: [Group::new();4],
            rings: [0;8],
            bits: Vec::new(),
            outside: 0,
        }
    }

    /// How far out the constellation's points reach, in grid units.
    pub fn extent(&self) -> (reach: i32)
        requires
            self.wf(),
        ensures
            reach == largest(self.tables, (self.params.framing.l / 4) as nat) + 2
                * self.params.framing.scale(),
    {
        extent(&self.tables, &self.params.framing)
    }

    /// Decided points that fell outside the constellation.
    pub fn outside(&self) -> (outside: u64)
        ensures
            outside == self@.outside,
    {
        self.outside
    }

    /// Bits decoded so far, and taken.
    pub fn take_bits(&mut self) -> (bits: Vec<bool>)
        requires
            old(self).wf(),
        ensures
            bits@ == old(self).bits@,
            final(self).bits@.len() == 0,
            *final(self) == (Decoder { bits: final(self).bits, ..*old(self) }),
            final(self).wf(),
    {
        let mut bits: Vec<bool> = Vec::new();
        std::mem::swap(&mut bits, &mut self.bits);
        bits
    }

    /// Whether the arithmetic of the next symbol is exact, which it is for any
    /// far end whose precoder's corrections are being followed.
    pub fn is_safe(&self) -> (safe: bool)
        ensures
            safe == self.safe(),
    {
        let x = self.running.precoder.x;
        let mut i: usize = 0;
        while i < 3
            invariant
                i <= 3,
                x == self.running.precoder.x,
                forall|j: int|
                    0 <= j < i ==> -SAFE <= (#[trigger] x@[j]).0 <= SAFE && -SAFE <= x@[j].1
                        <= SAFE,
            decreases 3 - i,
        {
            let (re, im): (i64, i64) = x[i];
            if re < -SAFE || re > SAFE || im < -SAFE || im > SAFE {
                assert(!(-SAFE <= x@[i as int].0 <= SAFE && -SAFE <= x@[i as int].1 <= SAFE));
                return false;
            }
            i = i + 1;
        }
        true
    }

    /// Trace a path back from a state.
    fn trace(&self, state: usize) -> (traced_back: (usize, (u8, u8)))
        requires
            self.remembers(),
            state < self.tables.states(),
            self.tables.states() <= 64,
        ensures
            (traced_back.0 as int, traced_back.1) == traced(held(self.stages@), state as int),
            traced_back.0 < self.tables.states(),
            traced_back.1.0 < 8 && traced_back.1.1 < 8,
    {
        let mut at: usize = state;
        let mut labels: (u8, u8) = (0, 0);
        let mut left: usize = self.stages.len();
        let ghost all = held(self.stages@);
        assert(all.take(left as int) =~= all);
        while left > 0
            invariant
                left <= self.stages@.len(),
                all == held(self.stages@),
                self.remembers(),
                at < self.tables.states(),
                self.tables.states() <= 64,
                labels.0 < 8 && labels.1 < 8,
                left > 0 ==> traced(all.take(left as int), at as int) == traced(all, state as int),
                left == 0 ==> (at as int, labels) == traced(all, state as int),
            decreases left,
        {
            let stage = &self.stages[left - 1];
            assert(self.stages@[left - 1]@.wf(self.tables.states()));
            let back = stage.back[at];
            labels = back.labels;
            proof {
                assert(all.take(left as int).drop_last() =~= all.take(left - 1));
                assert(all.take(left as int).last() == stage@);
            }
            at = back.from as usize;
            left = left - 1;
        }
        (at, labels)
    }

    /// Everything above the trellis, undone for one decided 4D symbol.
    fn undo(&mut self, y: ((i32, i32), (i32, i32)), state: u8)
        requires
            old(self).params.framing.wf(),
            old(self).tables.wf(old(self).params.framing),
            old(self).running.wf(),
            old(self).safe(),
            on_the_grid(y.0) && on_the_grid(y.1),
            state < old(self).tables.states(),
            old(self).decided < MOST,
            old(self).outside <= 2 * old(self).decided,
        ensures
            final(self)@ == old(self)@.undone(
                old(self).tables,
                (whole(y.0), whole(y.1)),
                state,
            ),
            final(self).same_but_decoding(*old(self)),
            final(self).metrics == old(self).metrics,
            final(self).stages == old(self).stages,
            final(self).received == old(self).received,
            final(self).decided == old(self).decided + 1,
            final(self).outside <= 2 * final(self).decided,
            final(self).running.wf(),
    {
        let f = self.params.framing;
        let m: u64 = self.decided;
        let j: usize = (m % 4) as usize;
        let mut running = self.running;
        let (group, rings, outside): (Group, (usize, usize), u64) = running.decode(
            &self.tables,
            &f,
            y,
            state,
            m,
        );
        self.running = running;
        let mut groups = self.groups;
        groups[j] = group;
        let mut all = self.rings;
        all[2 * j] = rings.0;
        all[2 * j + 1] = rings.1;
        self.groups = groups;
        self.rings = all;
        self.decided = m + 1;
        self.outside = self.outside + outside;
        proof {
            let wanted = old(self)@.undone(old(self).tables, (whole(y.0), whole(y.1)), state);
            assert(self@.groups =~= wanted.groups);
            assert(self@.rings =~= wanted.rings);
        }
    }

    /// Trace the best path back to the oldest 4D symbol held, and decide it.
    fn decide_oldest(&mut self)
        requires
            old(self).params.framing.wf(),
            old(self).tables.wf(old(self).params.framing),
            old(self).running.wf(),
            old(self).safe(),
            old(self).metrics@.len() == old(self).tables.states(),
            old(self).stages@.len() > 0,
            old(self).remembers(),
            old(self).decided < MOST,
            old(self).outside <= 2 * old(self).decided,
        ensures
            final(self)@ == old(self)@.oldest_decided(old(self).tables),
            final(self).same_but_decoding(*old(self)),
            final(self).metrics == old(self).metrics,
            final(self).stages@ == old(self).stages@.skip(1),
            final(self).received == old(self).received,
            final(self).decided == old(self).decided + 1,
            final(self).outside <= 2 * final(self).decided,
            final(self).running.wf(),
    {
        let best: usize = match cheapest_state(&self.metrics) {
            Some((state, _)) => state,
            None => 0,
        };
        let (from, labels): (usize, (u8, u8)) = self.trace(best);
        let ghost before = *self;
        assert(self.stages@[0]@.wf(self.tables.states()));
        let oldest = self.stages.pop_front();
        match oldest {
            Some(stage) => {
                proof {
                    assert(stage@ == before.stages@[0]@);
                    assert(self.stages@ =~= before.stages@.skip(1));
                    assert(held(self.stages@) =~= held(before.stages@).skip(1));
                    assert(on_the_grid(stage.first@[labels.0 as int].point));
                    assert(on_the_grid(stage.second@[labels.1 as int].point));
                }
                let y = (
                    stage.first[labels.0 as usize].point,
                    stage.second[labels.1 as usize].point,
                );
                self.undo(y, from as u8);
            },
            None => {},
        }
    }

    /// Two more points into the trellis: what the best path costs more by them.
    fn step(&mut self, r0: Received, r1: Received) -> (cost: Option<u64>)
        requires
            old(self).wf(),
            old(self).received < MOST,
            receivable(r0),
            receivable(r1),
        ensures
            final(self)@ == old(self)@.stepped(old(self).tables, r0, r1),
            cost == old(self)@.floor(old(self).tables, r0, r1),
            final(self).same_but_decoding(*old(self)),
            final(self).running == old(self).running,
            final(self).decided == old(self).decided,
            final(self).outside == old(self).outside,
            final(self).received == old(self).received + 1,
            final(self).stages@.len() == old(self).stages@.len() + 1,
            final(self).remembers(),
            final(self).metrics@.len() == final(self).tables.states(),
            costs_within(final(self).metrics@, final(self).received * 1_638_400),
    {
        let ghost before = *self;
        let first = nearest_by_label(&self.tables, r0);
        let second = nearest_by_label(&self.tables, r1);
        let best = best_pairs(&self.tables, &first, &second);
        let f = self.params.framing;
        let inversion = self.tables.inversion_at(&f, self.received);
        let most: u64 = self.received * 1_638_400;
        let (costs, back) = survivors(&self.tables, &self.metrics, &best, inversion, most);
        let least = cheapest_state(&costs);
        let (metrics, cost): (Vec<Option<u64>>, Option<u64>) = match least {
            Some((_, floor)) => (lower(&costs, floor), Some(floor)),
            None => (costs, None),
        };
        proof {
            assert((before.received + 1) * 1_638_400 == before.received * 1_638_400 + 1_638_400);
            assert forall|i: int| 0 <= i < metrics@.len() implies ((
            #[trigger] metrics@[i]) matches Some(c) ==> c <= (before.received + 1)
                * 1_638_400) by {
                assert(costs_of(before.tables, before.metrics@, best@, inversion)[i]
                    == costs_of(before.tables, before.metrics@, best@, inversion)[i]);
            }
        }
        self.metrics = metrics;
        let stage = Stage { back, first, second };
        assert(stage@.wf(self.tables.states()));
        self.stages.push_back(stage);
        self.received = self.received + 1;
        assert forall|i: int| 0 <= i < self.stages@.len() implies (
        #[trigger] self.stages@[i])@.wf(self.tables.states()) by {
            if i < before.stages@.len() {
                assert(self.stages@[i] == before.stages@[i]);
            }
        }
        assert(self@.stages =~= before@.stepped(before.tables, r0, r1).stages);
        cost
    }

    /// Two received points into the trellis.
    fn viterbi(&mut self, r0: Received, r1: Received) -> (fed: Fed)
        requires
            old(self).wf(),
            old(self).safe(),
            old(self).received < MOST,
            receivable(r0),
            receivable(r1),
        ensures
            final(self)@ == old(self)@.fed(old(self).tables, r0, r1),
            final(self).same_but_decoding(*old(self)),
            fed.cost == old(self)@.floor(old(self).tables, r0, r1),
            fed.rings is Some <==> final(self).decided > old(self).decided && final(self).decided
                % 4 == 0,
            fed.rings matches Some(rings) ==> rings@ == final(self)@.finished(),
            final(self).wf(),
    {
        let ghost start = *self;
        let cost = self.step(r0, r1);
        let decided: u64 = self.decided;
        if self.stages.len() > DEPTH {
            let ghost stepped = *self;
            self.decide_oldest();
            proof {
                assert forall|i: int| 0 <= i < self.stages@.len() implies (
                #[trigger] self.stages@[i])@.wf(self.tables.states()) by {
                    assert(self.stages@[i] == stepped.stages@[i + 1]);
                }
            }
        }
        let rings = if self.decided > decided && self.decided % 4 == 0 {
            Some(self.clamped())
        } else {
            None
        };
        Fed { cost, rings }
    }

    /// The rings of the frame just finished, none further out than there are.
    fn clamped(&self) -> (rings: [usize; 8])
        requires
            self.params.framing.wf(),
        ensures
            rings@ == self@.finished(),
    {
        let mut rings = self.rings;
        let last: usize = self.params.framing.m - 1;
        let mut i: usize = 0;
        while i < 8
            invariant
                i <= 8,
                last == self.params.framing.m - 1,
                forall|j: int| 0 <= j < i ==> #[trigger] rings@[j] == self@.finished()[j],
                forall|j: int| i <= j < 8 ==> #[trigger] rings@[j] == self.rings@[j],
            decreases 8 - i,
        {
            if rings[i] > last {
                rings[i] = last;
            }
            i = i + 1;
        }
        assert(rings@ =~= self@.finished());
        rings
    }

    /// One received 2D symbol, in 1/128 of a grid unit. The second of each two
    /// makes a 4D symbol.
    pub fn feed(&mut self, r: Received) -> (fed: Option<Fed>)
        requires
            old(self).wf(),
            old(self).safe(),
            old(self).received < MOST,
            receivable(r),
        ensures
            final(self).wf(),
            final(self).bits == old(self).bits,
            final(self).descrambler == old(self).descrambler,
            final(self).params == old(self).params,
            final(self).tables == old(self).tables,
            match old(self).half {
                None => fed is None && final(self)@ == old(self)@ && final(self).half == Some(r),
                Some(first) => {
                    &&& final(self).half is None
                    &&& final(self)@ == old(self)@.fed(old(self).tables, first, r)
                    &&& fed is Some
                    &&& fed->0.cost == old(self)@.floor(old(self).tables, first, r)
                    &&& fed->0.rings is Some <==> final(self).decided > old(self).decided
                        && final(self).decided % 4 == 0
                    &&& fed->0.rings matches Some(rings) ==> rings@ == final(self)@.finished()
                },
            },
    {
        match self.half {
            None => {
                self.half = Some(r);
                None
            },
            Some(first) => {
                self.half = None;
                Some(self.viterbi(first, r))
            },
        }
    }

    /// A mapping frame finished, with the bits its rings stand for: its data
    /// bits, descrambled, behind those not yet taken.
    pub fn finish_frame(&mut self, shell_bits: &[bool])
        requires
            old(self).wf(),
            old(self).decided >= 4,
            old(self).params.framing.b > 12 ==> shell_bits@.len() >= shell_width(
                old(self).params.framing,
                old(self)@.high(),
            ),
        ensures
            ({
                let bits = joined(
                    old(self).params.framing,
                    old(self)@.high(),
                    shell_bits@,
                    old(self).groups@,
                );
                let s = old(self).descrambler;
                &&& final(self).bits@ == old(self).bits@ + descrambled(
                    s.register,
                    s.taps(),
                    bits,
                )
                &&& final(self).descrambler == (Scrambler {
                    register: shifted_in_all(s.register, bits),
                    ..s
                })
            }),
            final(self)@ == old(self)@,
            final(self).params == old(self).params,
            final(self).tables == old(self).tables,
            final(self).half == old(self).half,
            final(self).wf(),
    {
        let f = self.params.framing;
        let within: u64 = (self.decided / 4 - 1) % (f.p as u64);
        let high = f.high(within as usize);
        let bits = unparse(&f, high, shell_bits, &self.groups);
        let ghost before = *self;
        let mut descrambler = self.descrambler;
        let ghost start = descrambler;
        let mut i: usize = 0;
        assert(bits@.take(0) =~= Seq::empty());
        assert(before.bits@ + descrambled(start.register, start.taps(), bits@).take(0)
            =~= before.bits@);
        while i < bits.len()
            invariant
                i <= bits@.len(),
                start.wf(),
                *self == (Decoder { bits: self.bits, ..before }),
                descrambler == (Scrambler {
                    register: shifted_in_all(start.register, bits@.take(i as int)),
                    ..start
                }),
                self.bits@ == before.bits@ + descrambled(
                    start.register,
                    start.taps(),
                    bits@,
                ).take(i as int),
            decreases bits@.len() - i,
        {
            let out = descrambler.descramble(bits[i]);
            self.bits.push(out);
            i = i + 1;
            proof {
                assert(bits@.take(i as int).drop_last() =~= bits@.take(i - 1));
                let whole_run = descrambled(start.register, start.taps(), bits@);
                assert(whole_run.take(i as int) =~= whole_run.take(i - 1).push(out));
                assert(self.bits@ =~= before.bits@ + whole_run.take(i as int));
            }
        }
        assert(bits@.take(i as int) =~= bits@);
        assert(descrambled(start.register, start.taps(), bits@).take(i as int) =~= descrambled(
            start.register,
            start.taps(),
            bits@,
        ));
        self.descrambler = descrambler;
    }
}

} // verus!
