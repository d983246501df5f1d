//! Data mode going out: a mapping frame's bits scrambled, split and made into
//! eight points.
use crate::scrambling::{scrambled, shifted_in_all};
use crate::v32::{Mode, Scrambler};
use crate::v34::coding::{Running, Tables, SENT};
use crate::v34::data::{group_of, lemma_groups_fit, parse, shell_of, Group};
use crate::v34::frame::Framing;
use vstd::arithmetic::power2::pow2;
use vstd::prelude::*;

verus! {

/// Everything one direction's data mode is set by, but for its tables.
#[derive(Debug, Clone, Copy, PartialEq, Eq)]
pub struct Params {
    pub framing: Framing,
    pub nonlinear: bool,
    /// h(1), h(2), h(3), as MP carries them: 14 bits after the point.
    pub precoding: [(i16, i16); 3],
    /// The transmitting end's scrambler.
    pub mode: Mode,
}

/// Data mode going out.
#[derive(Debug, Clone)]
pub struct Encoder {
    pub params: Params,
    pub tables: Tables,
    pub scrambler: Scrambler,
    /// The trellis encoder's state.
    pub state: u8,
    pub running: Running,
    /// Mapping frames begun since B1.
    pub frame: u64,
    /// The groups of the frame going out.
    pub groups: [Group; 4],
}

/// An encoder, but for its tables.
pub struct Sending {
    pub params: Params,
    pub scrambler: Scrambler,
    pub state: u8,
    pub running: Running,
    pub frame: nat,
    pub groups: Seq<Group>,
}

impl View for Encoder {
    type V = Sending;

    open spec fn view(&self) -> Sending {
        Sending {
            params: self.params,
            scrambler: self.scrambler,
            state: self.state,
            running: self.running,
            frame: self.frame as nat,
            groups: self.groups@,
        }
    }
}

impl Sending {
    /// The mapping frame next to go, counted within its data frame.
    pub open spec fn within(self) -> int {
        self.frame as int % (self.params.framing.p as int)
    }

    pub open spec fn high(self) -> bool {
        self.params.framing.is_high(self.within())
    }

    /// A frame begun: its bits scrambled, and its groups kept.
    pub open spec fn begun(self, data: Seq<bool>) -> Sending {
        let bits = scrambled(self.scrambler.register, self.scrambler.taps(), data);
        Sending {
            scrambler: Scrambler {
                register: shifted_in_all(self.scrambler.register, bits),
                ..self.scrambler
            },
            groups: Seq::new(4, |j: int| group_of(self.params.framing, self.high(), bits, j)),
            ..self
        }
    }

    /// The bits of a frame that choose its rings.
    pub open spec fn choosing(self, data: Seq<bool>) -> Seq<bool> {
        let bits = scrambled(self.scrambler.register, self.scrambler.taps(), data);
        shell_of(self.params.framing, self.high(), bits)
    }

    /// A frame's first so many 4D symbols gone out, with these rings.
    pub open spec fn gone(self, t: Tables, rings: Seq<usize>, symbols: nat) -> Sending
        decreases symbols,
    {
        if symbols == 0 {
            self
        } else {
            let j = symbols - 1;
            let before = self.gone(t, rings, j as nat);
            let encoded = before.running.encoded(
                t,
                self.params.framing,
                self.groups[j],
                (rings[2 * j] as nat, rings[2 * j + 1] as nat),
                before.state,
                self.frame * 4 + j,
            );
            Sending { running: encoded.next, state: encoded.state, ..before }
        }
    }
}

impl Sending {
    /// What those symbols are: each point less what the precoder predicted of
    /// it, in 1/128 of a grid unit.
    pub open spec fn sent(self, t: Tables, rings: Seq<usize>, symbols: nat) -> Seq<(i64, i64)>
        decreases symbols,
    {
        if symbols == 0 {
            Seq::empty()
        } else {
            let x = self.gone(t, rings, symbols).running.precoder.x@;
            self.sent(t, rings, (symbols - 1) as nat) + seq![x[1], x[0]]
        }
    }
}

impl Encoder {
    pub open spec fn wf(self) -> bool {
        let f = self.params.framing;
        &&& f.wf()
        &&& self.tables.wf(f)
        &&& self.scrambler.wf()
        &&& self.state < self.tables.states()
        &&& self.running.wf()
        &&& self.running.precoder.within(SENT as int)
        &&& forall|j: int|
            0 <= j < 4 ==> (#[trigger] self.groups@[j]).q.0 < pow2(f.q as nat)
                && self.groups@[j].q.1 < pow2(f.q as nat)
    }

    /// From the start of B1: scrambler, trellis encoder, differential encoder
    /// and precoder all at zero.
    pub fn new(params: Params, tables: Tables) -> (encoder: Encoder)
        requires
            params.framing.wf(),
            tables.wf(params.framing),
        ensures
            encoder.wf(),
            encoder.params == params,
            encoder.tables == tables,
            encoder.scrambler.register == 0,
            encoder.scrambler.taps() == params.mode.polynomial(),
            encoder.state == 0,
            encoder.running == Running::fresh(params.framing, params.precoding),
            encoder.frame == 0,
            forall|j: int| 0 <= j < 4 ==> #[trigger] encoder.groups@[j] == Group::nothing(),
    {
        proof {
            vstd::arithmetic::power2::lemma_pow2_pos(params.framing.q as nat);
        }
        Encoder {
            params,
            tables,
            scrambler: Scrambler::new(params.mode),
            state: 0,
            running: Running::new(&params.framing, params.precoding),
            frame: 0,
            groups: [Group::new();4],
        }
    }

    pub fn params(&self) -> (params: &Params)
        ensures
            *params == self.params,
    {
        &self.params
    }

    /// Mapping frames finished since B1.
    pub fn mapping_frames(&self) -> (frames: u64)
        ensures
            frames == self@.frame,
    {
        self.frame
    }

    /// Data bits the next mapping frame takes.
    pub fn wanted(&self) -> (bits: usize)
        requires
            self.wf(),
        ensures
            bits == self.params.framing.bits_of(self@.high()),
    {
        let within: u64 = self.frame % (self.params.framing.p as u64);
        self.params.framing.bits_in(within as usize)
    }

    fn scramble(&mut self, data: &[bool]) -> (bits: Vec<bool>)
        requires
            old(self).scrambler.wf(),
        ensures
            bits@ == scrambled(old(self).scrambler.register, old(self).scrambler.taps(), data@),
            *final(self) == (Encoder {
                scrambler: Scrambler {
                    register: shifted_in_all(old(self).scrambler.register, bits@),
                    ..old(self).scrambler
                },
                ..*old(self)
            }),
    {
        let ghost start = self.scrambler;
        let mut scrambler = self.scrambler;
        let mut bits: Vec<bool> = Vec::new();
        let mut i: usize = 0;
        assert(data@.take(0) =~= Seq::empty());
        while i < data.len()
            invariant
                i <= data@.len(),
                scrambler.wf(),
                start.wf(),
                scrambler == (Scrambler {
                    register: shifted_in_all(start.register, bits@),
                    ..start
                }),
                bits@ == scrambled(start.register, start.taps(), data@.take(i as int)),
            decreases data@.len() - i,
        {
            let ghost before = bits@;
            let out = scrambler.scramble(data[i]);
            bits.push(out);
            i = i + 1;
            proof {
                assert(data@.take(i as int).drop_last() =~= data@.take(i - 1));
                assert(bits@.drop_last() =~= before);
            }
        }
        assert(data@.take(i as int) =~= data@);
        self.scrambler = scrambler;
        bits
    }

    /// A mapping frame begun with its data: the bits that choose its rings.
    pub fn begin_frame(&mut self, data: &[bool]) -> (shell_bits: Vec<bool>)
        requires
            old(self).wf(),
            data@.len() == old(self).params.framing.bits_of(old(self)@.high()),
            data@.len() >= 8,
        ensures
            final(self)@ == old(self)@.begun(data@),
            final(self).tables == old(self).tables,
            shell_bits@ == old(self)@.choosing(data@),
            final(self).wf(),
    {
        let f = self.params.framing;
        let within: u64 = self.frame % (f.p as u64);
        let high = f.high(within as usize);
        let ghost start = self@;
        let bits = self.scramble(data);
        proof {
            lemma_scrambled_len(start.scrambler.register, start.scrambler.taps(), data@);
        }
        let (shell_bits, groups) = parse(&f, high, bits.as_slice());
        self.groups = groups;
        proof {
            assert(groups@ =~= Seq::new(4, |j: int| group_of(f, high, bits@, j)));
            assert forall|j: int| 0 <= j < 4 implies (#[trigger] groups@[j]).q.0 < pow2(
                f.q as nat,
            ) && groups@[j].q.1 < pow2(f.q as nat) by {
                lemma_groups_fit(f, high, bits@, j);
            }
        }
        shell_bits
    }

    /// The frame begun, finished with the rings its bits chose: what its eight
    /// symbols are, in 1/128 of a grid unit.
    pub fn finish_frame(&mut self, rings: &[usize; 8]) -> (points: Vec<(i64, i64)>)
        requires
            old(self).wf(),
            old(self).frame < 0x1000_0000_0000_0000,
            forall|i: int|
                0 <= i < 8 ==> (#[trigger] rings@[i]) < old(self).params.framing.m,
        ensures
            ({
                let gone = old(self)@.gone(old(self).tables, rings@, 4);
                final(self)@ == (Sending { frame: gone.frame + 1, ..gone })
            }),
            final(self).tables == old(self).tables,
            points@ == old(self)@.sent(old(self).tables, rings@, 4),
            points@.len() == 8,
            final(self).wf(),
    {
        let f = self.params.framing;
        let ghost start = *self;
        let mut points: Vec<(i64, i64)> = Vec::new();
        let mut j: usize = 0;
        while j < 4
            invariant
                j <= 4,
                start.frame < 0x1000_0000_0000_0000,
                self.wf(),
                f == start.params.framing,
                self.params == start.params,
                self.tables == start.tables,
                self.frame == start.frame,
                self.groups == start.groups,
                self@ == start@.gone(start.tables, rings@, j as nat),
                forall|i: int| 0 <= i < 8 ==> (#[trigger] rings@[i]) < f.m,
                points@.len() == 2 * j,
                points@ == start@.sent(start.tables, rings@, j as nat),
            decreases 4 - j,
        {
            let group = self.groups[j];
            let m: u64 = self.frame * 4 + j as u64;
            let mut running = self.running;
            let pair: (usize, usize) = (rings[2 * j], rings[2 * j + 1]);
            assert(rings@[2 * j as int] < f.m && rings@[2 * j + 1] < f.m);
            assert(self.groups@[j as int] == group);
            let (_, x, next) = running.encode(&self.tables, &f, &group, pair, self.state, m);
            self.running = running;
            self.state = next;
            let ghost before = points@;
            points.push(x.0);
            points.push(x.1);
            j = j + 1;
            assert(points@ =~= before + seq![x.0, x.1]);
        }
        self.frame = self.frame + 1;
        points
    }
}

/// Scrambling keeps the number of bits.
pub proof fn lemma_scrambled_len(register: u32, taps: (u32, u32), bits: Seq<bool>)
    ensures
        scrambled(register, taps, bits).len() == bits.len(),
    decreases bits.len(),
{
    if bits.len() > 0 {
        lemma_scrambled_len(register, taps, bits.drop_last());
    }
}

} // verus!
