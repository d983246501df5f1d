//! Hearing phases 3 and 4: what the receiver does with each half-symbol sample
//! of the far end's signal.
//!
//! Three jobs, one after another. Hunting for S: S repeats every two symbols
//! and nothing else does, and S-bar is S turned half a revolution, so once S is
//! sure its samples are learned as a template, and S-bar is the template turned
//! round. Training: what follows S-bar is known from its first symbol, so each
//! alignment of it either side of where S-bar put it is tried, and the best
//! kept. Tracking: from there a symbol is due every other sample.
//!
//! The samples themselves, and the filters and fits made of them, stay with
//! the caller; which of them are wanted, and what is concluded, is decided here.
use crate::v32::Mode;
use crate::v34::signals::Size;
use std::collections::VecDeque;
use vstd::prelude::*;

verus! {

/// Equaliser taps either side of the centre, in half symbols.
pub const REACH: u64 = 15;

/// Half-symbol samples kept for training.
pub const KEPT: u64 = 4096;

/// Half symbols either side of where S-bar puts the training sequence that the
/// search tries.
pub const SEARCH: u64 = 8;

/// Halves of S in a row before its template is trusted: twenty symbols.
pub const HELD: u32 = 40;

/// Halves that may miss the template before it is forgotten.
pub const LAPSES: u32 = 24;

/// What the far end sends after S-bar, known from its first symbol.
#[derive(Debug, Clone, Copy, PartialEq, Eq, Structural)]
pub enum Reference {
    /// PP and then TRN at four points, in phase 3.
    PpThenTrn,
    /// TRN alone, at the size given, in phase 4.
    Trn(Size),
}

/// Where training searches for alignment, and the whole window it trains on, as
/// symbol ranges of the reference.
pub open spec fn search_window(reference: Reference) -> (int, int) {
    match reference {
        Reference::PpThenTrn => (48, 288),
        Reference::Trn(_) => (16, 256),
    }
}

pub open spec fn training_window(reference: Reference) -> (int, int) {
    match reference {
        Reference::PpThenTrn => (48, 352),
        Reference::Trn(_) => (16, 384),
    }
}

pub fn windows(reference: Reference) -> (windows: ((u64, u64), (u64, u64)))
    ensures
        (windows.0.0 as int, windows.0.1 as int) == search_window(reference),
        (windows.1.0 as int, windows.1.1 as int) == training_window(reference),
{
    match reference {
        Reference::PpThenTrn => ((48, 288), (48, 352)),
        Reference::Trn(_) => ((16, 256), (16, 384)),
    }
}

/// How a half-symbol sample compares.
#[derive(Debug, Clone, Copy, PartialEq, Eq)]
pub struct Reading {
    /// Until S is sure: the last eight samples are audible and match those two
    /// symbols before them. Once it is: the last four lie along the template.
    pub alike: bool,
    /// The last four lie against the template.
    pub turned: bool,
}

/// What becomes of a sample of S's template.
#[derive(Debug, Clone, Copy, PartialEq, Eq, Structural)]
pub enum Template {
    Kept,
    /// A fifth of the new sample to four fifths of the old.
    Learned,
    /// A tenth of the new sample to nine tenths of the old.
    Followed,
    Forgotten,
}

/// Looks for S and its change to S-bar.
#[derive(Debug, Clone, Copy, PartialEq, Eq, Structural)]
pub struct Hunt {
    /// Samples of the last two symbols there are, four when they are all there.
    pub recent: u32,
    pub held: u32,
    pub armed: bool,
    /// Samples set against the template, up to four.
    pub matched: u32,
    pub lapsed: u32,
}

impl Hunt {
    pub open spec fn fresh() -> Hunt {
        Hunt { recent: 0, held: 0, armed: false, matched: 0, lapsed: 0 }
    }

    pub open spec fn wf(self) -> bool {
        &&& self.recent <= 4
        &&& self.held <= HELD
        &&& self.matched <= 4
        &&& self.lapsed <= LAPSES
        &&& self.armed <==> self.held == HELD
    }

    pub open spec fn one_more(self) -> Hunt {
        Hunt {
            recent: if self.recent < 4 {
                (self.recent + 1) as u32
            } else {
                4
            },
            ..self
        }
    }

    /// A sample set against the template. The reversal is put at the first of
    /// the four that turned it.
    pub open spec fn against_template(self, reading: Reading, index: u64) -> (
        Hunt,
        Template,
        Option<u64>,
    ) {
        let matched = Hunt {
            matched: if self.matched < 4 {
                (self.matched + 1) as u32
            } else {
                4
            },
            ..self
        };
        if matched.matched == 4 && reading.turned {
            (
                matched,
                Template::Kept,
                Some(
                    if index >= 3 {
                        (index - 3) as u64
                    } else {
                        0
                    },
                ),
            )
        } else if reading.alike {
            (Hunt { lapsed: 0, ..matched }.one_more(), Template::Followed, None)
        } else if self.lapsed == LAPSES {
            (Hunt::fresh().one_more(), Template::Forgotten, None)
        } else {
            (
                Hunt { lapsed: (self.lapsed + 1) as u32, ..matched }.one_more(),
                Template::Kept,
                None,
            )
        }
    }

    /// A sample set against the one two symbols before it.
    pub open spec fn against_itself(self, reading: Reading) -> (Hunt, Template) {
        if self.recent < 4 {
            (self.one_more(), Template::Kept)
        } else if !reading.alike {
            (Hunt { held: 0, ..self }, Template::Forgotten)
        } else if self.held + 1 == HELD {
            (Hunt { held: HELD, armed: true, lapsed: 0, matched: 0, ..self }, Template::Learned)
        } else {
            (Hunt { held: (self.held + 1) as u32, ..self }, Template::Learned)
        }
    }

    pub open spec fn fed(self, reading: Reading, index: u64) -> (Hunt, Template, Option<u64>) {
        if self.armed {
            self.against_template(reading, index)
        } else {
            let (hunt, template) = self.against_itself(reading);
            (hunt, template, None)
        }
    }

    pub fn new() -> (hunt: Hunt)
        ensures
            hunt == Hunt::fresh(),
            hunt.wf(),
    {
        Hunt { recent: 0, held: 0, armed: false, matched: 0, lapsed: 0 }
    }

    fn count(&mut self)
        ensures
            *final(self) == old(self).one_more(),
    {
        self.recent = if self.recent < 4 {
            self.recent + 1
        } else {
            4
        };
    }

    /// The next half-symbol sample: what becomes of the template, and where
    /// S-bar started if it has.
    pub fn feed(&mut self, reading: Reading, index: u64) -> (fed: (Template, Option<u64>))
        requires
            old(self).wf(),
        ensures
            (*final(self), fed.0, fed.1) == old(self).fed(reading, index),
            final(self).wf(),
    {
        if self.armed {
            if self.matched < 4 {
                self.matched = self.matched + 1;
            }
            if self.matched == 4 && reading.turned {
                let at: u64 = if index >= 3 {
                    index - 3
                } else {
                    0
                };
                return (Template::Kept, Some(at));
            }
            let template = if reading.alike {
                self.lapsed = 0;
                Template::Followed
            } else if self.lapsed == LAPSES {
                *self = Hunt::new();
                Template::Forgotten
            } else {
                self.lapsed = self.lapsed + 1;
                Template::Kept
            };
            self.count();
            return (template, None);
        }
        if self.recent < 4 {
            self.count();
            return (Template::Kept, None);
        }
        if !reading.alike {
            self.held = 0;
            return (Template::Forgotten, None);
        }
        self.held = self.held + 1;
        if self.held >= HELD {
            self.armed = true;
            self.lapsed = 0;
            self.matched = 0;
        }
        (Template::Learned, None)
    }
}

/// What the receiver has to report, apart from symbols.
#[derive(Debug, Clone, Copy, PartialEq, Eq)]
pub enum Heard {
    /// S, and then the change to S-bar. `at` is the half-symbol sample S-bar is
    /// reckoned to start at, give or take one.
    Reversal { at: u64 },
    /// Trained, with the signal to noise the training left, in hundredths of a
    /// decibel.
    Trained { snr: i32 },
    /// Nothing trained: the sequence was not where S-bar said.
    Untrained,
}

/// What the receiver is at.
#[derive(Debug, Clone, Copy, PartialEq, Eq)]
pub enum Doing {
    Idle,
    Hunting(Hunt),
    Collecting { reference: Reference, far: Mode, start: u64 },
    Trained,
}

/// What a sample asks of the caller.
#[derive(Debug, Clone, PartialEq, Eq)]
pub enum Asked {
    Nothing,
    /// The template at this sample's place in the two symbols of S.
    Template(Template),
    /// Fit the training sequence, and say how that went.
    Fit { reference: Reference, far: Mode, start: u64 },
    /// Equalise the symbols centred on these samples.
    Symbols(Vec<u64>),
}

/// A fit of the training sequence: the alignment it was best at, in half
/// symbols from where S-bar put it, and the signal to noise it left, in
/// hundredths of a decibel.
#[derive(Debug, Clone, Copy, PartialEq, Eq)]
pub struct Fit {
    pub delta: i64,
    pub snr: i32,
}

/// A receiver, as a value.
pub struct Hearing {
    pub made: nat,
    pub doing: Doing,
    pub next_symbol: nat,
    pub size: Size,
    pub heard: Seq<Heard>,
}

/// The centres from `next` on that have samples enough either side by `made`,
/// and of the samples that are kept.
pub open spec fn due(next: nat, made: nat) -> Seq<nat>
    decreases made + 1 - next,
{
    if next + 17 > made {
        Seq::empty()
    } else if next < oldest(made) + 16 {
        due(next + 2, made)
    } else {
        seq![next] + due(next + 2, made)
    }
}

/// The first centre from `next` on that is not due yet.
pub open spec fn not_due(next: nat, made: nat) -> nat
    decreases made + 1 - next,
{
    if next + 17 > made {
        next
    } else {
        not_due(next + 2, made)
    }
}

/// The oldest sample kept.
pub open spec fn oldest(made: nat) -> nat {
    if made > 4096 {
        (made - 4096) as nat
    } else {
        0
    }
}

/// Where an alignment puts the first symbol of the sequence.
pub open spec fn origin(start: u64, delta: int) -> nat {
    if start + delta < 0 {
        0
    } else {
        (start + delta) as nat
    }
}

impl Hearing {
    pub open spec fn wf(self) -> bool {
        &&& self.made < 0x7fff_ffff_ffff_0000
        &&& self.next_symbol < 0x7fff_ffff_ffff_0000
        &&& self.doing matches Doing::Hunting(hunt) ==> hunt.wf()
        &&& self.doing matches Doing::Collecting { start, .. } ==> start < 0x7fff_ffff_fffe_0000
    }

    /// Samples that have to have been made before the sequence can be fitted.
    pub open spec fn needed(reference: Reference, start: u64) -> int {
        start + 8 + 2 * training_window(reference).1 + 15
    }

    /// Told to train.
    pub open spec fn trains(self, reference: Reference, far: Mode, s_bar: u64) -> Hearing {
        Hearing {
            doing: Doing::Collecting { reference, far, start: (s_bar + 32) as u64 },
            size: match reference {
                Reference::PpThenTrn => Size::Four,
                Reference::Trn(size) => size,
            },
            ..self
        }
    }

    pub open spec fn report(self, heard: Heard) -> Hearing {
        Hearing { heard: self.heard.push(heard), ..self }
    }

    /// The next half-symbol sample, which was this hunt's reading.
    pub open spec fn on_half(self, reading: Reading) -> Hearing {
        let on = Hearing { made: self.made + 1, ..self };
        match self.doing {
            Doing::Hunting(hunt) => {
                let (after, _, found) = hunt.fed(reading, self.made as u64);
                match found {
                    Some(at) => Hearing { doing: Doing::Idle, ..on }.report(Heard::Reversal { at }),
                    None => Hearing { doing: Doing::Hunting(after), ..on },
                }
            },
            Doing::Trained => Hearing { next_symbol: not_due(self.next_symbol, on.made), ..on },
            _ => on,
        }
    }

    /// What the sample asks of the caller.
    pub open spec fn asks(self, reading: Reading, asked: Asked) -> bool {
        let made = self.made + 1;
        match self.doing {
            Doing::Idle => asked is Nothing,
            Doing::Hunting(hunt) => asked == Asked::Template(
                hunt.fed(reading, self.made as u64).1,
            ),
            Doing::Collecting { reference, far, start } => asked == (if made > Hearing::needed(
                reference,
                start,
            ) {
                Asked::Fit { reference, far, start }
            } else {
                Asked::Nothing
            }),
            Doing::Trained => asked matches Asked::Symbols(centres) && numbers(centres@) == due(
                self.next_symbol,
                made,
            ),
        }
    }

    /// How the fit went. Under six decibels is not trained.
    pub open spec fn fitted(self, fit: Option<Fit>) -> Hearing {
        match (self.doing, fit) {
            (Doing::Collecting { reference, start, .. }, Some(fit)) => {
                let next = origin(start, fit.delta as int) + 2 * training_window(reference).1;
                let on = Hearing { next_symbol: next as nat, ..self };
                if fit.snr < 600 {
                    Hearing { doing: Doing::Idle, ..on }.report(Heard::Untrained)
                } else {
                    Hearing {
                        doing: Doing::Trained,
                        next_symbol: not_due(on.next_symbol, self.made),
                        ..on
                    }.report(Heard::Trained { snr: fit.snr })
                }
            },
            (Doing::Collecting { .. }, None) => Hearing { doing: Doing::Idle, ..self }.report(
                Heard::Untrained,
            ),
            _ => self,
        }
    }

    /// The symbols already here past the window, once it has trained.
    pub open spec fn fit_due(self, fit: Option<Fit>) -> Seq<nat> {
        match (self.doing, fit) {
            (Doing::Collecting { reference, start, .. }, Some(fit)) => if fit.snr < 600 {
                Seq::empty()
            } else {
                due(
                    (origin(start, fit.delta as int) + 2 * training_window(reference).1) as nat,
                    self.made,
                )
            },
            _ => Seq::empty(),
        }
    }
}

pub open spec fn numbers(centres: Seq<u64>) -> Seq<nat> {
    Seq::new(centres.len(), |i: int| centres[i] as nat)
}

proof fn lemma_not_due(next: nat, made: nat)
    requires
        next < 0x7fff_ffff_ffff_0000,
        made < 0x7fff_ffff_ffff_0000,
    ensures
        not_due(next, made) < 0x7fff_ffff_ffff_0000,
        not_due(next, made) + 17 > made,
        not_due(next, made) >= next,
    decreases made + 1 - next,
{
    if next + 17 <= made {
        lemma_not_due(next + 2, made);
    }
}

/// The symbols due from `next` on, and the next one that is not.
fn collect(next: u64, made: u64) -> (collected: (Vec<u64>, u64))
    requires
        next < 0x7fff_ffff_ffff_0000,
        made < 0x7fff_ffff_ffff_0000,
    ensures
        numbers(collected.0@) == due(next as nat, made as nat),
        collected.1 == not_due(next as nat, made as nat),
{
    let mut centres: Vec<u64> = Vec::new();
    let mut at: u64 = next;
    let first: u64 = if made > KEPT {
        made - KEPT
    } else {
        0
    };
    assert(numbers(centres@) + due(at as nat, made as nat) =~= due(next as nat, made as nat));
    while at + REACH + 2 <= made
        invariant
            at < 0x7fff_ffff_ffff_0000,
            made < 0x7fff_ffff_ffff_0000,
            first == oldest(made as nat),
            numbers(centres@) + due(at as nat, made as nat) == due(next as nat, made as nat),
            not_due(at as nat, made as nat) == not_due(next as nat, made as nat),
        decreases made + 1 - at,
    {
        let ghost before = numbers(centres@);
        let ghost was = at as nat;
        if at < first + REACH + 1 {
            at = at + 2;
        } else {
            centres.push(at);
            at = at + 2;
            proof {
                assert(numbers(centres@) =~= before + seq![was]);
                assert(before + (seq![was] + due(at as nat, made as nat)) =~= numbers(centres@)
                    + due(at as nat, made as nat));
            }
        }
    }
    assert(numbers(centres@) + due(at as nat, made as nat) =~= numbers(centres@));
    (centres, at)
}

/// The far end's signal, one end of phases 3 and 4.
#[derive(Debug, Clone)]
pub struct Receiver {
    pub made: u64,
    pub doing: Doing,
    /// The half-symbol sample the next symbol is centred on.
    pub next_symbol: u64,
    pub size: Size,
    pub heard: VecDeque<Heard>,
}

impl View for Receiver {
    type V = Hearing;

    open spec fn view(&self) -> Hearing {
        Hearing {
            made: self.made as nat,
            doing: self.doing,
            next_symbol: self.next_symbol as nat,
            size: self.size,
            heard: self.heard@,
        }
    }
}

impl Receiver {
    pub fn new() -> (receiver: Receiver)
        ensures
            receiver@ == (Hearing {
                made: 0,
                doing: Doing::Idle,
                next_symbol: 0,
                size: Size::Four,
                heard: Seq::empty(),
            }),
            receiver@.wf(),
    {
        Receiver {
            made: 0,
            doing: Doing::Idle,
            next_symbol: 0,
            size: Size::Four,
            heard: VecDeque::new(),
        }
    }

    /// Look for S and the change to S-bar.
    pub fn hunt(&mut self)
        requires
            old(self)@.wf(),
        ensures
            final(self)@ == (Hearing { doing: Doing::Hunting(Hunt::fresh()), ..old(self)@ }),
            final(self)@.wf(),
    {
        self.doing = Doing::Hunting(Hunt::new());
    }

    /// Train on `reference`, which starts sixteen symbols after the S-bar at
    /// half-symbol sample `s_bar`, and is sent by a modem whose scrambler is
    /// `far`'s.
    pub fn train(&mut self, reference: Reference, far: Mode, s_bar: u64)
        requires
            old(self)@.wf(),
            s_bar < 0x7fff_ffff_fffd_0000,
        ensures
            final(self)@ == (Hearing {
                doing: Doing::Collecting { reference, far, start: (s_bar + 32) as u64 },
                size: match reference {
                    Reference::PpThenTrn => Size::Four,
                    Reference::Trn(size) => size,
                },
                ..old(self)@
            }),
            final(self)@ == old(self)@.trains(reference, far, s_bar),
            final(self)@.wf(),
    {
        self.doing = Doing::Collecting { reference, far, start: s_bar + 32 };
        self.size = match reference {
            Reference::PpThenTrn => Size::Four,
            Reference::Trn(size) => size,
        };
    }

    /// Stop listening.
    pub fn idle(&mut self)
        requires
            old(self)@.wf(),
        ensures
            final(self)@ == (Hearing { doing: Doing::Idle, ..old(self)@ }),
            final(self)@.wf(),
    {
        self.doing = Doing::Idle;
    }

    pub fn is_trained(&self) -> (trained: bool)
        ensures
            trained == (self@.doing is Trained),
    {
        match self.doing {
            Doing::Trained => true,
            _ => false,
        }
    }

    /// The constellation decisions are made against from here on.
    pub fn set_size(&mut self, size: Size)
        ensures
            final(self)@ == (Hearing { size, ..old(self)@ }),
    {
        self.size = size;
    }

    pub fn size(&self) -> (size: Size)
        ensures
            size == self@.size,
    {
        self.size
    }

    /// Half-symbol samples made so far.
    pub fn halves(&self) -> (made: u64)
        ensures
            made == self@.made,
    {
        self.made
    }

    /// The next thing heard, if there is one.
    pub fn heard(&mut self) -> (heard: Option<Heard>)
        ensures
            old(self)@.heard.len() == 0 ==> heard is None && final(self)@ == old(self)@,
            old(self)@.heard.len() > 0 ==> heard == Some(old(self)@.heard[0]) && final(self)@ == (
            Hearing { heard: old(self)@.heard.skip(1), ..old(self)@ }),
    {
        let heard = self.heard.pop_front();
        assert(heard is Some ==> self.heard@ =~= old(self)@.heard.skip(1));
        heard
    }

    /// The next half-symbol sample: what it asks of the caller.
    pub fn on_half(&mut self, reading: Reading) -> (asked: Asked)
        requires
            old(self)@.wf(),
            old(self).made + 1 < 0x7fff_ffff_ffff_0000,
        ensures
            final(self)@ == old(self)@.on_half(reading),
            old(self)@.asks(reading, asked),
            final(self)@.wf(),
    {
        let index: u64 = self.made;
        self.made = self.made + 1;
        match self.doing {
            Doing::Idle => Asked::Nothing,
            Doing::Hunting(hunt) => {
                let mut hunt = hunt;
                let (template, found) = hunt.feed(reading, index);
                match found {
                    Some(at) => {
                        self.doing = Doing::Idle;
                        self.heard.push_back(Heard::Reversal { at });
                    },
                    None => {
                        self.doing = Doing::Hunting(hunt);
                    },
                }
                Asked::Template(template)
            },
            Doing::Collecting { reference, far, start } => {
                let end: u64 = windows(reference).1.1;
                if self.made > start + SEARCH + 2 * end + REACH {
                    Asked::Fit { reference, far, start }
                } else {
                    Asked::Nothing
                }
            },
            Doing::Trained => {
                proof {
                    lemma_not_due(self.next_symbol as nat, self.made as nat);
                }
                let (centres, next) = collect(self.next_symbol, self.made);
                self.next_symbol = next;
                Asked::Symbols(centres)
            },
        }
    }

    /// How the fit went, if there was one to be had: the symbols to equalise
    /// that are already here past the training window.
    pub fn finish_training(&mut self, fit: Option<Fit>) -> (centres: Vec<u64>)
        requires
            old(self)@.wf(),
            fit matches Some(fit) ==> -8 <= fit.delta <= 8,
        ensures
            final(self)@ == old(self)@.fitted(fit),
            numbers(centres@) == old(self)@.fit_due(fit),
            final(self)@.wf(),
    {
        let (reference, start): (Reference, u64) = match self.doing {
            Doing::Collecting { reference, start, .. } => (reference, start),
            _ => {
                assert(numbers(Seq::empty()) =~= Seq::empty());
                return Vec::new();
            },
        };
        match fit {
            Some(fit) => {
                let start_at: i64 = start as i64;
                let from: u64 = if start_at + fit.delta < 0 {
                    0
                } else {
                    (start_at + fit.delta) as u64
                };
                let to: u64 = windows(reference).1.1;
                self.next_symbol = from + 2 * to;
                if fit.snr < 600 {
                    self.doing = Doing::Idle;
                    self.heard.push_back(Heard::Untrained);
                    assert(numbers(Seq::empty()) =~= Seq::empty());
                    return Vec::new();
                }
                self.doing = Doing::Trained;
                self.heard.push_back(Heard::Trained { snr: fit.snr });
                proof {
                    lemma_not_due(self.next_symbol as nat, self.made as nat);
                }
                let (centres, next) = collect(self.next_symbol, self.made);
                self.next_symbol = next;
                centres
            },
            None => {
                self.doing = Doing::Idle;
                self.heard.push_back(Heard::Untrained);
                assert(numbers(Seq::empty()) =~= Seq::empty());
                Vec::new()
            },
        }
    }

    /// Where in the samples kept those around a centre stand: the first of
    /// them, and one past the last. None where they are not all kept.
    pub fn samples(&self, centre: u64, reach: u64) -> (range: Option<(u64, u64)>)
        requires
            self@.wf(),
            centre < 0x7fff_ffff_ffff_0000,
            reach <= 0xffff,
        ensures
            range is Some <==> oldest(self@.made) + reach <= centre && centre + reach
                < self@.made,
            range matches Some((from, to)) ==> from == centre - reach - oldest(self@.made) && to
                == from + 2 * reach + 1,
    {
        let first: u64 = if self.made > KEPT {
            self.made - KEPT
        } else {
            0
        };
        if first + reach <= centre && centre + reach < self.made {
            let from: u64 = centre - reach - first;
            Some((from, from + 2 * reach + 1))
        } else {
            None
        }
    }
}

/// The best of the alignments tried: the first with the least error. Errors are
/// in whatever unit they compare in, from the earliest alignment to the latest,
/// and none where an alignment could not be tried.
pub fn best_alignment(errors: &[Option<u64>]) -> (best: Option<usize>)
    ensures
        best is None <==> forall|i: int| 0 <= i < errors@.len() ==> errors@[i] is None,
        best matches Some(b) ==> {
            &&& b < errors@.len()
            &&& errors@[b as int] is Some
            &&& forall|i: int|
                0 <= i < errors@.len() && errors@[i] is Some ==> errors@[b as int]->0
                    <= #[trigger] errors@[i]->0
            &&& forall|i: int|
                0 <= i < b && errors@[i] is Some ==> errors@[b as int]->0 < (
                #[trigger] errors@[i])->0
        },
{
    let mut best: Option<(usize, u64)> = None;
    let mut i: usize = 0;
    while i < errors.len()
        invariant
            i <= errors@.len(),
            best is None <==> forall|j: int| 0 <= j < i ==> errors@[j] is None,
            best matches Some((b, least)) ==> {
                &&& b < i
                &&& errors@[b as int] == Some(least)
                &&& forall|j: int|
                    0 <= j < i && errors@[j] is Some ==> least <= (#[trigger] errors@[j])->0
                &&& forall|j: int|
                    0 <= j < b && errors@[j] is Some ==> least < (#[trigger] errors@[j])->0
            },
        decreases errors@.len() - i,
    {
        match errors[i] {
            Some(error) => {
                let better = match best {
                    Some((_, least)) => error < least,
                    None => true,
                };
                if better {
                    best = Some((i, error));
                }
            },
            None => {},
        }
        i = i + 1;
    }
    match best {
        Some((b, _)) => Some(b),
        None => None,
    }
}

/// The reach of the search covers every alignment tried, and the training
/// window opens where the search does.
pub proof fn the_windows_agree(reference: Reference)
    ensures
        search_window(reference).0 == training_window(reference).0,
        search_window(reference).0 < search_window(reference).1 < training_window(reference).1,
        2 * training_window(reference).1 + 2 * SEARCH + 2 * REACH < KEPT,
{
}

/// A hunt reports a reversal only once forty halves of S have been heard in a
/// row, and only on four samples that lie against the template.
pub proof fn a_reversal_needs_an_s(hunt: Hunt, reading: Reading, index: u64)
    requires
        hunt.wf(),
        hunt.fed(reading, index).2 is Some,
    ensures
        hunt.held == HELD,
        hunt.matched >= 3,
        reading.turned,
        index < 3 || hunt.fed(reading, index).2 == Some((index - 3) as u64),
{
}

/// Every sample the equaliser needs for a symbol that is due has been made and
/// is still kept.
pub proof fn the_samples_of_a_symbol_are_there(next: nat, made: nat, i: int)
    requires
        0 <= i < due(next, made).len(),
    ensures
        due(next, made)[i] >= oldest(made) + 16,
        due(next, made)[i] + 16 < made,
        due(next, made)[i] >= next,
    decreases made + 1 - next,
{
    if next + 17 <= made {
        if next < oldest(made) + 16 {
            the_samples_of_a_symbol_are_there(next + 2, made, i);
        } else if i > 0 {
            the_samples_of_a_symbol_are_there(next + 2, made, i - 1);
        }
    }
}

} // verus!
