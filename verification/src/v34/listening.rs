//! What the far end's symbols of phases 3 and 4 come to: J, J', MP and E.
use crate::v34::mp::Mp;
use crate::v34::signals::{ended, four_asked, sixteen_asked, Size, J_FOUR, J_PRIME, J_SIXTEEN};
use vstd::prelude::*;

verus! {

/// What the far end's symbols come to.
#[derive(Debug, Clone, Copy, PartialEq, Eq)]
pub enum Event {
    J(Size),
    JPrime,
    Mp(Mp),
    E,
}

/// What a bit completed, in the sequences of phase 4.
#[derive(Debug, Clone, Copy, PartialEq, Eq)]
pub enum Found {
    Mp(Mp),
    E,
}

/// A bit of a differentially encoded sequence, and what it completed.
#[derive(Debug, Clone, Copy, PartialEq, Eq)]
pub struct Read {
    pub bit: bool,
    pub found: Option<Found>,
}

/// A listener, as a value.
pub struct Listened {
    pub size: Size,
    pub trn: bool,
    pub grace: nat,
    pub trn_symbols: nat,
    pub bits: Seq<bool>,
    pub j: Option<Size>,
    pub mp_found: bool,
    pub j_prime: bool,
}

/// Whether every bit is a one.
pub open spec fn all_ones(bits: Seq<bool>) -> bool {
    forall|i: int| 0 <= i < bits.len() ==> bits[i]
}

impl Listened {
    pub open spec fn wf(self) -> bool {
        self.bits.len() <= 32
    }

    /// TRN at a size from here: symbols are let go while the descrambler fills.
    pub open spec fn begin_trn(self, size: Size) -> Listened {
        Listened {
            size,
            trn: true,
            grace: (24nat / size.width() + 1) as nat,
            trn_symbols: 0,
            bits: Seq::empty(),
            ..self
        }
    }

    /// Whether a symbol is still TRN: while the descrambler fills, and while it
    /// descrambles to ones.
    pub open spec fn still_trn(self, trn_bits: Seq<bool>) -> bool {
        self.trn && (self.grace > 0 || all_ones(trn_bits))
    }

    /// A symbol of TRN.
    pub open spec fn heard_trn(self) -> Listened {
        if self.grace > 0 {
            Listened { grace: (self.grace - 1) as nat, ..self }
        } else {
            Listened { trn_symbols: self.trn_symbols + 1, ..self }
        }
    }

    /// One more bit of a differential sequence, of which the last 32 are kept.
    pub open spec fn with(self, read: Read) -> Listened {
        Listened {
            bits: if self.bits.len() >= 32 {
                self.bits.skip(1).push(read.bit)
            } else {
                self.bits.push(read.bit)
            },
            mp_found: self.mp_found || (read.found is Some && read.found->0 is Mp),
            ..self
        }
    }

    /// What a bit came to. Twenty ones could be anything before an MP has been
    /// read.
    pub open spec fn came_to(self, read: Read) -> Seq<Event> {
        match read.found {
            Some(Found::Mp(mp)) => seq![Event::Mp(mp)],
            Some(Found::E) => if self.mp_found {
                seq![Event::E]
            } else {
                Seq::empty()
            },
            None => Seq::empty(),
        }
    }

    /// A run of bits, and what they came to.
    pub open spec fn heard_bits(self, reads: Seq<Read>) -> (Listened, Seq<Event>)
        decreases reads.len(),
    {
        if reads.len() == 0 {
            (self, Seq::empty())
        } else {
            let (before, events) = self.heard_bits(reads.drop_last());
            (before.with(reads.last()), events + before.came_to(reads.last()))
        }
    }

    /// The J that has just come twice running, at four points.
    pub open spec fn repeated(self) -> Option<Size> {
        let (older, newer) = (self.bits.take(16), self.bits.skip(16));
        if older == four_asked() && newer == four_asked() {
            Some(Size::Four)
        } else if older == sixteen_asked() && newer == sixteen_asked() {
            Some(Size::Sixteen)
        } else {
            None
        }
    }

    /// A J' straight after a J.
    pub open spec fn closed(self) -> bool {
        let (older, newer) = (self.bits.take(16), self.bits.skip(16));
        newer == ended() && (older == four_asked() || older == sixteen_asked())
    }

    /// The J or J' that the last bits complete.
    pub open spec fn asked(self) -> (Listened, Seq<Event>) {
        if !(self.size is Four) || self.bits.len() != 32 {
            (self, Seq::empty())
        } else if self.j is None {
            match self.repeated() {
                Some(size) => (Listened { j: Some(size), ..self }, seq![Event::J(size)]),
                None => (self, Seq::empty()),
            }
        } else if !self.j_prime && self.closed() {
            (Listened { j_prime: true, ..self }, seq![Event::JPrime])
        } else {
            (self, Seq::empty())
        }
    }

    /// A symbol, which reads as these bits if it is TRN and as those if it is
    /// not, and what it came to.
    pub open spec fn heard(self, trn_bits: Seq<bool>, reads: Seq<Read>) -> (Listened, Seq<Event>) {
        if self.still_trn(trn_bits) {
            (self.heard_trn(), Seq::empty())
        } else {
            let (read, found) = Listened { trn: false, ..self }.heard_bits(reads);
            let (asked, more) = read.asked();
            (asked, found + more)
        }
    }
}

/// Reads the far end's symbols and picks out J, J', MP and E.
#[derive(Debug, Clone)]
pub struct Listening {
    pub size: Size,
    /// Reading TRN, which is not differentially encoded; after the first symbol
    /// that is not scrambled ones, everything is.
    pub trn: bool,
    /// Symbols let go while the descrambler fills with what it is reading.
    pub grace: usize,
    /// TRN symbols that descrambled to ones.
    pub trn_symbols: usize,
    /// The last 32 differentially decoded bits.
    pub bits: Vec<bool>,
    pub j: Option<Size>,
    pub mp_found: bool,
    pub j_prime: bool,
}

impl View for Listening {
    type V = Listened;

    open spec fn view(&self) -> Listened {
        Listened {
            size: self.size,
            trn: self.trn,
            grace: self.grace as nat,
            trn_symbols: self.trn_symbols as nat,
            bits: self.bits@,
            j: self.j,
            mp_found: self.mp_found,
            j_prime: self.j_prime,
        }
    }
}

/// Whether sixteen bits are a sequence.
fn spells(bits: &Vec<bool>, from: usize, sequence: &[bool; 16]) -> (spelt: bool)
    requires
        from + 16 <= bits@.len(),
    ensures
        spelt == (bits@.subrange(from as int, from + 16) == sequence@),
{
    assert(from + 16 <= bits.len());
    let ghost there = bits@.subrange(from as int, from + 16);
    let mut i: usize = 0;
    while i < 16
        invariant
            i <= 16,
            from + 16 <= bits.len(),
            there == bits@.subrange(from as int, from + 16),
            forall|j: int| 0 <= j < i ==> there[j] == sequence@[j],
        decreases 16 - i,
    {
        if bits[from + i] != sequence[i] {
            assert(there[i as int] != sequence@[i as int]);
            return false;
        }
        i = i + 1;
    }
    assert(there =~= sequence@);
    true
}

impl Listening {
    pub fn new() -> (listening: Listening)
        ensures
            listening@ == (Listened {
                size: Size::Four,
                trn: false,
                grace: 0,
                trn_symbols: 0,
                bits: Seq::empty(),
                j: None,
                mp_found: false,
                j_prime: false,
            }),
            listening@.wf(),
    {
        Listening {
            size: Size::Four,
            trn: false,
            grace: 0,
            trn_symbols: 0,
            bits: Vec::new(),
            j: None,
            mp_found: false,
            j_prime: false,
        }
    }

    /// TRN at `size` from here, from a scrambler this end's descrambler has not
    /// followed.
    pub fn begin_trn(&mut self, size: Size)
        ensures
            final(self)@ == old(self)@.begin_trn(size),
            final(self)@.wf(),
    {
        self.size = size;
        self.trn = true;
        self.grace = 24 / size.bits() + 1;
        self.trn_symbols = 0;
        self.bits = Vec::new();
    }

    fn hear_bits(&mut self, reads: &[Read], events: &mut Vec<Event>)
        requires
            old(self)@.wf(),
        ensures
            final(self)@ == old(self)@.heard_bits(reads@).0,
            final(events)@ == old(events)@ + old(self)@.heard_bits(reads@).1,
            final(self)@.wf(),
    {
        let ghost start = self@;
        let ghost before = events@;
        let mut i: usize = 0;
        assert(reads@.take(0) =~= Seq::empty());
        while i < reads.len()
            invariant
                i <= reads@.len(),
                self@.wf(),
                self@ == start.heard_bits(reads@.take(i as int)).0,
                events@ == before + start.heard_bits(reads@.take(i as int)).1,
            decreases reads@.len() - i,
        {
            let ghost now = self@;
            let ghost so_far = events@;
            let read = reads[i];
            if self.bits.len() >= 32 {
                let _ = self.bits.remove(0);
            }
            self.bits.push(read.bit);
            match read.found {
                Some(Found::Mp(mp)) => {
                    self.mp_found = true;
                    events.push(Event::Mp(mp));
                },
                Some(Found::E) => {
                    if self.mp_found {
                        events.push(Event::E);
                    }
                },
                None => {},
            }
            i = i + 1;
            proof {
                let taken = reads@.take(i as int);
                assert(taken.drop_last() =~= reads@.take(i - 1));
                assert(self.bits@ =~= now.with(read).bits);
                assert(events@ =~= so_far + now.came_to(read));
                assert(events@ =~= before + start.heard_bits(taken).1);
            }
        }
        assert(reads@.take(i as int) =~= reads@);
    }

    fn hear_asked(&mut self, events: &mut Vec<Event>)
        requires
            old(self)@.wf(),
        ensures
            final(self)@ == old(self)@.asked().0,
            final(events)@ == old(events)@ + old(self)@.asked().1,
            final(self)@.wf(),
    {
        assert(four_asked() =~= J_FOUR@);
        assert(sixteen_asked() =~= J_SIXTEEN@);
        assert(ended() =~= J_PRIME@);
        assert(events@ + Seq::<Event>::empty() =~= events@);
        if self.size != Size::Four || self.bits.len() != 32 {
            return ;
        }
        assert(self.bits@.take(16) =~= self.bits@.subrange(0, 16));
        assert(self.bits@.skip(16) =~= self.bits@.subrange(16, 32));
        let older_four = spells(&self.bits, 0, &J_FOUR);
        let older_sixteen = spells(&self.bits, 0, &J_SIXTEEN);
        if self.j.is_none() {
            if older_four && spells(&self.bits, 16, &J_FOUR) {
                self.j = Some(Size::Four);
                events.push(Event::J(Size::Four));
                assert(events@ =~= old(events)@ + seq![Event::J(Size::Four)]);
            } else if older_sixteen && spells(&self.bits, 16, &J_SIXTEEN) {
                self.j = Some(Size::Sixteen);
                events.push(Event::J(Size::Sixteen));
                assert(events@ =~= old(events)@ + seq![Event::J(Size::Sixteen)]);
            }
        } else if !self.j_prime && spells(&self.bits, 16, &J_PRIME) && (older_four
            || older_sixteen) {
            self.j_prime = true;
            events.push(Event::JPrime);
            assert(events@ =~= old(events)@ + seq![Event::JPrime]);
        }
    }

    /// A symbol, as the bits it reads as if it is TRN and as the bits it reads
    /// as if it is not. What it came to, and whether it was taken for TRN.
    pub fn symbol(&mut self, trn_bits: &[bool], reads: &[Read]) -> (heard: (Vec<Event>, bool))
        requires
            old(self)@.wf(),
            old(self).trn_symbols < usize::MAX,
        ensures
            (final(self)@, heard.0@) == old(self)@.heard(trn_bits@, reads@),
            heard.1 == old(self)@.still_trn(trn_bits@),
            final(self)@.wf(),
    {
        let mut events: Vec<Event> = Vec::new();
        if self.trn {
            if self.grace > 0 {
                self.grace = self.grace - 1;
                assert(events@ =~= Seq::empty());
                return (events, true);
            }
            if ones(trn_bits) {
                self.trn_symbols = self.trn_symbols + 1;
                assert(events@ =~= Seq::empty());
                return (events, true);
            }
            self.trn = false;
        }
        self.hear_bits(reads, &mut events);
        self.hear_asked(&mut events);
        proof {
            let (read, found) = Listened { trn: false, ..old(self)@ }.heard_bits(reads@);
            assert(Seq::<Event>::empty() + found + read.asked().1 =~= found + read.asked().1);
        }
        (events, false)
    }
}

fn ones(bits: &[bool]) -> (ones: bool)
    ensures
        ones == all_ones(bits@),
{
    let mut i: usize = 0;
    while i < bits.len()
        invariant
            i <= bits@.len(),
            forall|j: int| 0 <= j < i ==> bits@[j],
        decreases bits@.len() - i,
    {
        if !bits[i] {
            return false;
        }
        i = i + 1;
    }
    true
}

/// Ones are not taken for the E that ends phase 4 before an MP has been read.
pub proof fn no_end_before_an_mp(l: Listened, trn_bits: Seq<bool>, reads: Seq<Read>)
    requires
        !l.mp_found,
        !l.heard(trn_bits, reads).0.mp_found,
    ensures
        forall|i: int|
            0 <= i < l.heard(trn_bits, reads).1.len() ==> !(#[trigger] l.heard(
                trn_bits,
                reads,
            ).1[i] is E),
{
    if !l.still_trn(trn_bits) {
        lemma_no_end(Listened { trn: false, ..l }, reads);
    }
}

proof fn lemma_no_end(l: Listened, reads: Seq<Read>)
    requires
        !l.heard_bits(reads).0.mp_found,
    ensures
        !l.mp_found,
        forall|i: int|
            0 <= i < l.heard_bits(reads).1.len() ==> !(#[trigger] l.heard_bits(reads).1[i] is E),
    decreases reads.len(),
{
    if reads.len() > 0 {
        lemma_no_end(l, reads.drop_last());
    }
}

} // verus!
