//! What a modem sends in phases 3 and 4, symbol by symbol, and how it moves
//! from one signal to the next.
use crate::v34::mp::Mp;
use crate::v34::signals::{
    ended, Size, E_BITS, J_PRIME, PP_SYMBOLS, S_BAR_SYMBOLS, S_SYMBOLS,
};
use std::collections::VecDeque;
use vstd::prelude::*;

verus! {

/// One signal of the training.
#[derive(Debug, Clone, Copy, PartialEq, Eq, Structural)]
pub enum Segment {
    Silence,
    S,
    SBar,
    Pp,
    Trn,
    J,
    JPrime,
    Mp,
    E,
}

/// A symbol to send. Which point it is, is the caller's table and scrambler.
#[derive(Debug, Clone, Copy, PartialEq, Eq)]
pub enum Symbol {
    Nothing,
    /// A symbol of S, of S-bar or of PP, counted from its first.
    S(usize),
    SBar(usize),
    Pp(usize),
    /// Scrambled ones, from the scrambler as it stands.
    Trn(Size),
    /// Differentially encoded bits: two of them at four points, and all four at
    /// sixteen.
    Differential((bool, bool, bool, bool), Size),
}

/// The next symbol, and whether the scrambler is set to zero before it.
#[derive(Debug, Clone, Copy, PartialEq, Eq)]
pub struct Next {
    pub symbol: Symbol,
    pub restart: bool,
}

/// A source, as a value.
pub struct Giving {
    pub segment: Segment,
    pub count: nat,
    pub queue: Seq<bool>,
    pub after_s_bar: Segment,
    pub size: Size,
    pub pending: Option<Segment>,
    pub ask: Size,
    pub mp: Mp,
    pub sending_acknowledged: bool,
    pub acknowledged: nat,
    pub silent: nat,
    pub hold: nat,
    pub restart: bool,
}

impl Giving {
    /// A segment from its start. The scrambler is set to zero before TRN.
    pub open spec fn start(self, segment: Segment) -> Giving {
        Giving {
            segment,
            count: 0,
            silent: 0,
            queue: match segment {
                Segment::JPrime => ended(),
                Segment::E => Seq::new(20, |i: int| true),
                _ => Seq::empty(),
            },
            restart: self.restart || segment is Trn,
            ..self
        }
    }

    /// The change that is waiting, taken.
    pub open spec fn take(self) -> Giving {
        Giving { pending: None, ..self }.start(self.pending->0)
    }

    /// Another whole MP' has gone, if that is what the MP just finished was.
    pub open spec fn counted(self) -> Giving {
        Giving {
            acknowledged: self.acknowledged + (if self.count > 0 && self.sending_acknowledged {
                1nat
            } else {
                0nat
            }),
            ..self
        }
    }

    /// Whether the current segment is at a place where it ends: straight away
    /// from TRN where a change is waiting, at the end of a whole sequence from
    /// J or MP, and by itself where it has run its length.
    pub open spec fn at_its_end(self) -> bool {
        match self.segment {
            Segment::Silence => self.silent >= self.hold && self.pending is Some,
            Segment::S => self.count == 128,
            Segment::SBar => self.count == 16,
            Segment::Pp => self.count == 288,
            Segment::Trn => self.pending is Some,
            Segment::J | Segment::Mp => self.queue.len() == 0 && self.pending is Some,
            Segment::JPrime | Segment::E => self.queue.len() == 0,
        }
    }

    /// What follows the current segment.
    pub open spec fn next_segment(self) -> Giving {
        match self.segment {
            Segment::Silence => Giving { hold: 0, ..self }.take(),
            Segment::S => self.start(Segment::SBar),
            Segment::SBar => self.start(self.after_s_bar),
            Segment::Pp => self.start(Segment::Trn),
            Segment::Trn => self.take(),
            Segment::J => self.take(),
            Segment::Mp => self.counted().take(),
            Segment::JPrime => self.start(Segment::Trn),
            Segment::E => self.start(Segment::Silence),
        }
    }

    /// The next segment, where this one is at its end.
    #[verifier::opaque]
    pub open spec fn moved(self) -> Giving {
        if self.at_its_end() {
            self.next_segment()
        } else {
            self
        }
    }

    /// The segment the next symbol is given from.
    pub open spec fn settled(self) -> Giving {
        Giving { restart: false, ..self }.moved().moved().moved()
    }

    /// A bit of the queue, ones once it has run out.
    pub open spec fn bit(self, i: int) -> bool {
        if i < self.queue.len() {
            self.queue[i]
        } else {
            true
        }
    }

    /// Bits of the queue, in one symbol.
    pub open spec fn differential(self, size: Size) -> (Symbol, Giving) {
        let width = size.width() as int;
        (
            Symbol::Differential(
                (
                    self.bit(0),
                    self.bit(1),
                    size is Sixteen && self.bit(2),
                    size is Sixteen && self.bit(3),
                ),
                size,
            ),
            Giving {
                count: self.count + 1,
                queue: if self.queue.len() > width {
                    self.queue.skip(width)
                } else {
                    Seq::empty()
                },
                ..self
            },
        )
    }

    /// A whole J or MP behind the last, where that has all gone.
    pub open spec fn refilled(self, mp_bits: Seq<bool>) -> Giving {
        if self.queue.len() > 0 {
            self
        } else if self.segment is J {
            Giving { queue: self.ask.asked(), ..self }
        } else {
            let counted = self.counted();
            Giving {
                queue: mp_bits,
                sending_acknowledged: self.mp.acknowledge,
                count: if self.count > 1 {
                    self.count
                } else {
                    1
                },
                ..counted
            }
        }
    }

    /// The constellation of TRN, which is four points always in phase 3.
    pub open spec fn trn_size(self) -> Size {
        if self.after_s_bar is Pp {
            Size::Four
        } else {
            self.size
        }
    }

    /// A symbol of the current segment.
    pub open spec fn give(self, mp_bits: Seq<bool>) -> (Symbol, Giving) {
        let on = Giving { count: self.count + 1, ..self };
        match self.segment {
            Segment::Silence => (Symbol::Nothing, Giving { silent: self.silent + 1, ..self }),
            Segment::S => (Symbol::S(self.count as usize), on),
            Segment::SBar => (Symbol::SBar(self.count as usize), on),
            Segment::Pp => (Symbol::Pp(self.count as usize), on),
            Segment::Trn => (Symbol::Trn(self.trn_size()), on),
            Segment::J => self.refilled(mp_bits).differential(Size::Four),
            Segment::Mp => self.refilled(mp_bits).differential(self.size),
            Segment::JPrime => self.differential(Size::Four),
            Segment::E => self.differential(self.size),
        }
    }

    /// What was ever going to follow S-bar can.
    pub open spec fn wf(self) -> bool {
        self.after_s_bar is Pp || self.after_s_bar is Trn
    }
}

/// Three moves are always enough: the segment settled on gives a symbol.
pub proof fn the_source_settles(g: Giving)
    requires
        g.wf(),
    ensures
        !g.settled().at_its_end(),
        g.settled().wf(),
{
    reveal(Giving::moved);
}

/// A sequence that has begun is sent whole: a change asked for while bits of a
/// J or an MP are still to go is not taken until they have gone.
pub proof fn a_sequence_is_sent_whole(g: Giving, mp_bits: Seq<bool>)
    requires
        g.segment is J || g.segment is Mp || g.segment is JPrime || g.segment is E,
        g.queue.len() > 0,
    ensures
        g.settled() == (Giving { restart: false, ..g }),
        g.settled().give(mp_bits).1.segment == g.segment,
        g.settled().give(mp_bits).1.pending == g.pending,
{
    reveal(Giving::moved);
}

/// Symbols for the transmitter, one at a time.
#[derive(Debug, Clone)]
pub struct Source {
    pub segment: Segment,
    /// Symbols of the current segment given.
    pub count: usize,
    /// Bits of a J, J', MP or E still to go.
    pub queue: VecDeque<bool>,
    /// What follows S-bar: PP in phase 3 and TRN in phase 4.
    pub after_s_bar: Segment,
    /// The constellation of TRN, MP and E, which the far end's J chose.
    pub size: Size,
    /// The segment to change to at the first place the current one can end.
    pub pending: Option<Segment>,
    /// What this end's J asks for.
    pub ask: Size,
    pub mp: Mp,
    /// Whether the MP going out now has the acknowledge bit.
    pub sending_acknowledged: bool,
    /// Whole MP' sequences sent.
    pub acknowledged: usize,
    /// Symbols of silence given since the last signal, and how many there have
    /// to be before a change out of it is taken.
    pub silent: usize,
    pub hold: usize,
    /// Whether the scrambler is to be set to zero before the next symbol.
    pub restart: bool,
}

impl View for Source {
    type V = Giving;

    open spec fn view(&self) -> Giving {
        Giving {
            segment: self.segment,
            count: self.count as nat,
            queue: self.queue@,
            after_s_bar: self.after_s_bar,
            size: self.size,
            pending: self.pending,
            ask: self.ask,
            mp: self.mp,
            sending_acknowledged: self.sending_acknowledged,
            acknowledged: self.acknowledged as nat,
            silent: self.silent as nat,
            hold: self.hold as nat,
            restart: self.restart,
        }
    }
}

/// Bits behind what is queued.
fn extend(queue: &mut VecDeque<bool>, bits: &[bool])
    ensures
        final(queue)@ == old(queue)@ + bits@,
{
    let ghost before = queue@;
    let mut i: usize = 0;
    assert(before + bits@.take(0) =~= before);
    while i < bits.len()
        invariant
            i <= bits@.len(),
            queue@ == before + bits@.take(i as int),
        decreases bits@.len() - i,
    {
        queue.push_back(bits[i]);
        i = i + 1;
        assert(queue@ =~= before + bits@.take(i as int));
    }
    assert(bits@.take(i as int) =~= bits@);
}

impl Source {
    pub fn new(ask: Size) -> (source: Source)
        ensures
            source@ == (Giving {
                segment: Segment::Silence,
                count: 0,
                queue: Seq::empty(),
                after_s_bar: Segment::Pp,
                size: Size::Four,
                pending: None,
                ask,
                mp: Mp::nothing(),
                sending_acknowledged: false,
                acknowledged: 0,
                silent: 0,
                hold: 0,
                restart: false,
            }),
            source@.wf(),
    {
        Source {
            segment: Segment::Silence,
            count: 0,
            queue: VecDeque::new(),
            after_s_bar: Segment::Pp,
            size: Size::Four,
            pending: None,
            ask,
            mp: Mp::default(),
            sending_acknowledged: false,
            acknowledged: 0,
            silent: 0,
            hold: 0,
            restart: false,
        }
    }

    pub fn start(&mut self, segment: Segment)
        ensures
            final(self)@ == old(self)@.start(segment),
    {
        self.segment = segment;
        self.count = 0;
        self.silent = 0;
        self.queue = VecDeque::new();
        match segment {
            Segment::Trn => {
                self.restart = true;
            },
            Segment::JPrime => {
                extend(&mut self.queue, &J_PRIME);
                assert(self.queue@ =~= ended());
            },
            Segment::E => {
                let mut i: usize = 0;
                let ghost start = self@;
                assert(self.queue@ =~= Seq::new(0, |j: int| true));
                while i < E_BITS
                    invariant
                        i <= 20,
                        self@ == (Giving { queue: Seq::new(i as nat, |j: int| true), ..start }),
                    decreases 20 - i,
                {
                    self.queue.push_back(true);
                    i = i + 1;
                    assert(self.queue@ =~= Seq::new(i as nat, |j: int| true));
                }
            },
            _ => {},
        }
        assert(self.queue@ =~= old(self)@.start(segment).queue);
    }

    /// Move to `segment` at the next place the current one can end: straight
    /// away from silence or TRN, and at the end of a whole sequence from J or
    /// MP.
    pub fn change(&mut self, segment: Segment)
        ensures
            final(self)@ == (Giving { pending: Some(segment), ..old(self)@ }),
    {
        self.pending = Some(segment);
    }

    fn count_mp(&mut self)
        requires
            old(self).acknowledged < usize::MAX,
        ensures
            final(self)@ == old(self)@.counted(),
    {
        if self.count > 0 && self.sending_acknowledged {
            self.acknowledged = self.acknowledged + 1;
        }
    }

    /// The next segment, where this one is at its end.
    fn move_on(&mut self)
        requires
            old(self).acknowledged < usize::MAX,
        ensures
            final(self)@ == old(self)@.moved(),
            final(self).acknowledged <= old(self).acknowledged + 1,
            final(self).count <= old(self).count,
            final(self).silent <= old(self).silent,
            final(self).after_s_bar == old(self).after_s_bar,
    {
        proof {
            reveal(Giving::moved);
        }
        let waiting = self.pending;
        let ended = match self.segment {
            Segment::Silence => self.silent >= self.hold && waiting.is_some(),
            Segment::S => self.count == S_SYMBOLS,
            Segment::SBar => self.count == S_BAR_SYMBOLS,
            Segment::Pp => self.count == PP_SYMBOLS,
            Segment::Trn => waiting.is_some(),
            Segment::J | Segment::Mp => self.queue.len() == 0 && waiting.is_some(),
            Segment::JPrime | Segment::E => self.queue.len() == 0,
        };
        if !ended {
            return ;
        }
        let next = match self.segment {
            Segment::S => Segment::SBar,
            Segment::SBar => self.after_s_bar,
            Segment::Pp => Segment::Trn,
            Segment::JPrime => Segment::Trn,
            Segment::E => Segment::Silence,
            Segment::Silence | Segment::Trn | Segment::J | Segment::Mp => {
                if self.segment == Segment::Silence {
                    self.hold = 0;
                } else if self.segment == Segment::Mp {
                    self.count_mp();
                }
                self.pending = None;
                match waiting {
                    Some(next) => next,
                    None => Segment::Silence,
                }
            },
        };
        self.start(next);
    }

    fn take_bit(&mut self) -> (bit: bool)
        ensures
            bit == old(self)@.bit(0),
            final(self)@ == (Giving {
                queue: if old(self)@.queue.len() > 0 {
                    old(self)@.queue.skip(1)
                } else {
                    Seq::empty()
                },
                ..old(self)@
            }),
    {
        let ghost before = self.queue@;
        let bit = self.queue.pop_front();
        assert(before.len() > 0 ==> self.queue@ =~= before.skip(1));
        assert(before.len() == 0 ==> self.queue@ =~= Seq::empty());
        match bit {
            Some(bit) => bit,
            None => true,
        }
    }

    /// Bits for one symbol of a differential sequence at `size`.
    fn differential(&mut self, size: Size) -> (symbol: Symbol)
        requires
            old(self).count < usize::MAX,
        ensures
            (symbol, final(self)@) == old(self)@.differential(size),
    {
        let ghost before = self.queue@;
        let first = self.take_bit();
        let second = self.take_bit();
        let (third, fourth) = match size {
            Size::Four => (false, false),
            Size::Sixteen => {
                let third = self.take_bit();
                let fourth = self.take_bit();
                (third, fourth)
            },
        };
        self.count = self.count + 1;
        proof {
            let width = size.width() as int;
            let rest = if before.len() > width {
                before.skip(width)
            } else {
                Seq::empty()
            };
            assert(self.queue@ =~= rest);
        }
        Symbol::Differential((first, second, third, fourth), size)
    }

    fn refill(&mut self, mp_bits: &[bool])
        requires
            old(self).acknowledged < usize::MAX,
            old(self).segment is J || old(self).segment is Mp,
        ensures
            final(self)@ == old(self)@.refilled(mp_bits@),
    {
        if self.queue.len() > 0 {
            return ;
        }
        assert(self.queue@ =~= Seq::empty());
        if self.segment == Segment::J {
            let j = self.ask.j();
            extend(&mut self.queue, &j);
            assert(self.queue@ =~= self.ask.asked());
        } else {
            self.count_mp();
            extend(&mut self.queue, mp_bits);
            assert(self.queue@ =~= mp_bits@);
            self.sending_acknowledged = self.mp.acknowledge;
            if self.count < 1 {
                self.count = 1;
            }
        }
    }

    /// The segment the next symbol is given from.
    fn settle(&mut self)
        requires
            old(self).acknowledged < usize::MAX - 3,
        ensures
            final(self)@ == old(self)@.settled(),
            final(self).acknowledged <= old(self).acknowledged + 3,
            final(self).count <= old(self).count,
            final(self).silent <= old(self).silent,
            final(self).after_s_bar == old(self).after_s_bar,
    {
        self.restart = false;
        self.move_on();
        self.move_on();
        self.move_on();
    }

    /// A symbol of J or MP, a whole one behind the last where that has gone.
    fn give_repeated(&mut self, mp_bits: &[bool]) -> (symbol: Symbol)
        requires
            old(self).segment is J || old(self).segment is Mp,
            old(self).count < usize::MAX,
            old(self).acknowledged < usize::MAX,
        ensures
            (symbol, final(self)@) == old(self)@.give(mp_bits@),
    {
        let size = if self.segment == Segment::J {
            Size::Four
        } else {
            self.size
        };
        self.refill(mp_bits);
        self.differential(size)
    }

    /// A symbol of the current segment.
    fn give(&mut self, mp_bits: &[bool]) -> (symbol: Symbol)
        requires
            old(self).count < usize::MAX,
            old(self).silent < usize::MAX,
            old(self).acknowledged < usize::MAX,
        ensures
            (symbol, final(self)@) == old(self)@.give(mp_bits@),
            final(self).after_s_bar == old(self).after_s_bar,
    {
        let count: usize = self.count;
        match self.segment {
            Segment::Silence => {
                self.silent = self.silent + 1;
                Symbol::Nothing
            },
            Segment::S => {
                self.count = count + 1;
                Symbol::S(count)
            },
            Segment::SBar => {
                self.count = count + 1;
                Symbol::SBar(count)
            },
            Segment::Pp => {
                self.count = count + 1;
                Symbol::Pp(count)
            },
            Segment::Trn => {
                self.count = count + 1;
                Symbol::Trn(
                    if self.after_s_bar == Segment::Pp {
                        Size::Four
                    } else {
                        self.size
                    },
                )
            },
            Segment::J | Segment::Mp => self.give_repeated(mp_bits),
            Segment::JPrime => self.differential(Size::Four),
            Segment::E => {
                let size = self.size;
                self.differential(size)
            },
        }
    }

    /// The next symbol. `mp_bits` is the MP this end now has to say, as it is
    /// sent.
    pub fn next(&mut self, mp_bits: &[bool]) -> (next: Next)
        requires
            old(self)@.wf(),
            old(self).count < usize::MAX,
            old(self).silent < usize::MAX,
            old(self).acknowledged < usize::MAX - 3,
        ensures
            (next.symbol, final(self)@) == old(self)@.settled().give(mp_bits@),
            next.restart == old(self)@.settled().restart,
            final(self)@.wf(),
    {
        self.settle();
        let restart = self.restart;
        let symbol = self.give(mp_bits);
        Next { symbol, restart }
    }
}

} // verus!
