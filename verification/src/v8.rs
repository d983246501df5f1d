//! V.8's procedure: what the two ends say to each other before any modulation starts,
//! and when.
//!
//! A modem start-up assumes both ends already know which Recommendation is being
//! followed; nothing in V.32 or V.22bis says so, and two modems that guessed
//! differently transmit past each other until one gives up. V.8 asks first: 300 bit/s
//! over V.21, the calling modem in the low channel and the answering modem in the high
//! one.
//!
//! What comes in each sample is what the line has been made out to say; what goes out
//! is what to put on it.
use crate::framing::{character, AsyncBits};
use std::collections::VecDeque;
use vstd::prelude::*;

pub mod laws;

verus! {

/// V.8's signals are all at 300 bit/s.
pub const BAUD: u32 = 300;

/// V.21 channel 1: space and mark, in hertz.
pub const LOW: (u32, u32) = (1180, 980);

/// V.21 channel 2.
pub const HIGH: (u32, u32) = (1850, 1650);

/// Which end of the call this is.
#[derive(Debug, Clone, Copy, PartialEq, Eq, Structural)]
pub enum Role {
    /// Placed the call. Sends CI, CM and CJ in the low channel; hears JM in the high
    /// one.
    Calling,
    /// Took the call. Sends ANSam and JM; hears CM in the low channel.
    Answering,
}

/// The channel a role sends in.
pub open spec fn channel(role: Role) -> (u32, u32) {
    match role {
        Role::Calling => LOW,
        Role::Answering => HIGH,
    }
}

/// The other end.
pub open spec fn far_end(role: Role) -> Role {
    match role {
        Role::Calling => Role::Answering,
        Role::Answering => Role::Calling,
    }
}

impl Role {
    /// The channel this end sends in, as space and mark.
    pub fn transmit_tones(self) -> (tones: (u32, u32))
        ensures
            tones == channel(self),
    {
        match self {
            Role::Calling => LOW,
            Role::Answering => HIGH,
        }
    }

    /// The channel the far end sends in.
    pub fn receive_tones(self) -> (tones: (u32, u32))
        ensures
            tones == channel(far_end(self)),
    {
        match self {
            Role::Calling => HIGH,
            Role::Answering => LOW,
        }
    }
}

/// What a call is for.
#[derive(Debug, Clone, Copy, PartialEq, Eq, Structural)]
pub enum CallFunction {
    Multimedia,
    Textphone,
    Videotex,
    SendFax,
    ReceiveFax,
    Data,
}

/// A modulation that a menu can offer.
#[derive(Debug, Clone, Copy, PartialEq, Eq, Structural)]
pub enum Modulation {
    V34,
    V32bis,
    V22bis,
    V21,
}

/// Where a modulation stands among those a menu can offer, the fastest highest.
pub open spec fn speed(m: Modulation) -> int {
    match m {
        Modulation::V34 => 4,
        Modulation::V32bis => 3,
        Modulation::V22bis => 2,
        Modulation::V21 => 1,
    }
}

/// The modulations an end can do.
#[derive(Debug, Clone, Copy, PartialEq, Eq, Structural)]
pub struct Modulations {
    pub v34: bool,
    pub v32bis: bool,
    pub v22bis: bool,
    pub v21: bool,
}

impl Modulations {
    pub open spec fn has(self, m: Modulation) -> bool {
        match m {
            Modulation::V34 => self.v34,
            Modulation::V32bis => self.v32bis,
            Modulation::V22bis => self.v22bis,
            Modulation::V21 => self.v21,
        }
    }

    pub open spec fn with(self, m: Modulation) -> Modulations {
        match m {
            Modulation::V34 => Modulations { v34: true, ..self },
            Modulation::V32bis => Modulations { v32bis: true, ..self },
            Modulation::V22bis => Modulations { v22bis: true, ..self },
            Modulation::V21 => Modulations { v21: true, ..self },
        }
    }

    /// None of them.
    pub fn none() -> (none: Modulations)
        ensures
            forall|m: Modulation| !none.has(m),
            none == (Modulations { v34: false, v32bis: false, v22bis: false, v21: false }),
    {
        Modulations { v34: false, v32bis: false, v22bis: false, v21: false }
    }

    /// Those listed.
    pub fn of(listed: &[Modulation]) -> (set: Modulations)
        ensures
            forall|m: Modulation| set.has(m) == listed@.contains(m),
    {
        let mut set = Modulations::none();
        let mut i: usize = 0;
        while i < listed.len()
            invariant
                i <= listed.len(),
                forall|m: Modulation| set.has(m) == listed@.take(i as int).contains(m),
            decreases listed.len() - i,
        {
            let ghost before = set;
            set.insert(listed[i]);
            assert forall|m: Modulation| set.has(m) == listed@.take(i + 1).contains(m) by {
                let (now, next) = (listed@.take(i as int), listed@.take(i + 1));
                assert(next == now.push(listed@[i as int]));
                assert(set.has(m) == (before.has(m) || m == listed@[i as int]));
                assert(before.has(m) == now.contains(m));
                if now.contains(m) {
                    let k = choose|k: int| 0 <= k < now.len() && now[k] == m;
                    assert(next[k] == m);
                }
                if m == listed@[i as int] {
                    assert(next[i as int] == m);
                }
                if next.contains(m) && m != listed@[i as int] {
                    let k = choose|k: int| 0 <= k < next.len() && next[k] == m;
                    assert(now[k] == m);
                }
            }
            i = i + 1;
        }
        assert(listed@.take(i as int) =~= listed@);
        set
    }

    /// One more.
    pub fn insert(&mut self, m: Modulation)
        ensures
            *final(self) == old(self).with(m),
    {
        match m {
            Modulation::V34 => {
                self.v34 = true;
            },
            Modulation::V32bis => {
                self.v32bis = true;
            },
            Modulation::V22bis => {
                self.v22bis = true;
            },
            Modulation::V21 => {
                self.v21 = true;
            },
        }
    }

    /// Those that both have.
    pub open spec fn shared(self, other: Modulations) -> Modulations {
        Modulations {
            v34: self.v34 && other.v34,
            v32bis: self.v32bis && other.v32bis,
            v22bis: self.v22bis && other.v22bis,
            v21: self.v21 && other.v21,
        }
    }

    /// The fastest of them.
    pub open spec fn fastest(self) -> Option<Modulation> {
        if self.v34 {
            Some(Modulation::V34)
        } else if self.v32bis {
            Some(Modulation::V32bis)
        } else if self.v22bis {
            Some(Modulation::V22bis)
        } else if self.v21 {
            Some(Modulation::V21)
        } else {
            None
        }
    }
}

/// What an end offers: what the call is for, and the modulations for it.
#[derive(Debug, Clone, Copy, PartialEq, Eq, Structural)]
pub struct Menu {
    pub function: CallFunction,
    pub modulations: Modulations,
}

impl Menu {
    /// The answer to this menu from an end that can do `ours`.
    pub open spec fn answered(self, ours: Modulations) -> Menu {
        Menu { modulations: self.modulations.shared(ours), ..self }
    }

    /// The answer to this menu from an end that can do `ours`.
    pub fn joint(self, ours: Modulations) -> (menu: Menu)
        ensures
            menu == self.answered(ours),
    {
        Menu {
            function: self.function,
            modulations: Modulations {
                v34: self.modulations.v34 && ours.v34,
                v32bis: self.modulations.v32bis && ours.v32bis,
                v22bis: self.modulations.v22bis && ours.v22bis,
                v21: self.modulations.v21 && ours.v21,
            },
        }
    }

    /// The modulation a joint menu settles on.
    pub fn chosen(self) -> (chosen: Option<Modulation>)
        ensures
            chosen == self.modulations.fastest(),
    {
        let set = self.modulations;
        if set.v34 {
            Some(Modulation::V34)
        } else if set.v32bis {
            Some(Modulation::V32bis)
        } else if set.v22bis {
            Some(Modulation::V22bis)
        } else if set.v21 {
            Some(Modulation::V21)
        } else {
            None
        }
    }
}

/// The answer is what both ends have and not what one wants: the modulation a joint
/// menu settles on is one that both can do, nothing both can do is faster, and there is
/// one unless they have nothing in common. Which end asked makes no difference.
pub proof fn the_answer_is_what_both_ends_have(
    function: CallFunction,
    ours: Modulations,
    theirs: Modulations,
    other: Modulation,
)
    ensures
        ({
            let joint = Menu { function, modulations: ours }.answered(theirs);
            let back = Menu { function, modulations: theirs }.answered(ours);
            &&& joint == back
            &&& (joint.modulations.fastest() matches Some(m) ==> ours.has(m) && theirs.has(m))
            &&& (ours.has(other) && theirs.has(other) ==> (joint.modulations.fastest() matches Some(
                m,
            ) && speed(other) <= speed(m)))
        }),
{
}

/// The timings, in milliseconds.
///
/// The silence a calling modem opens with.
pub const CALL_QUIET: u64 = 1000;

/// The silence an answering modem opens with.
pub const ANSWER_QUIET: u64 = 200;

/// The silence between hearing ANSam and sending CM, at the second that lets the
/// network's echo cancellers be disabled.
pub const TE: u64 = 1000;

/// The gap between the end of V.8 and the beginning of the modulation it chose.
pub const HANDOVER: u64 = 75;

/// How long ANSam goes on if nothing ends it.
pub const ANSAM: u64 = 5000;

/// ANSam's phase reverses this often.
pub const REVERSAL: u64 = 450;

/// How long a modem waits for anything at all before giving up.
pub const PATIENCE: u64 = 60000;

/// A menu is believed once it has arrived twice the same.
pub const IDENTICAL: u32 = 2;

/// CJ: three zero octets.
pub const CJ: [u8; 3] = [0, 0, 0];

/// What the procedure has decided.
#[derive(Debug, Clone, Copy, PartialEq, Eq, Structural)]
pub enum Status {
    /// Still going.
    Negotiating,
    /// Both ends have a modulation in common and the line is clear for it.
    Agreed(Modulation),
    /// The far end does not do V.8, and the call goes on to the modulation's own
    /// procedure rather than negotiating.
    NoNegotiation,
    /// Nothing in common, or nothing heard at all.
    Failed,
}

/// Where the procedure has got to.
#[derive(Debug, Clone, Copy, PartialEq, Eq, Structural)]
pub enum State {
    /// The silence both ends open with.
    Quiet,
    /// The calling modem, listening for an answering tone.
    Listening,
    /// The calling modem's Te: silence between hearing ANSam and answering it.
    Waiting,
    /// Sending CM, over and over, until JM comes back.
    SendingCm,
    /// Sending CJ, which is three zero octets.
    SendingCj,
    /// The answering modem's ANSam.
    Ansam,
    /// Sending JM until CJ arrives.
    SendingJm,
    /// The gap of nothing before the chosen modulation starts.
    Handover,
    Done(Status),
}

/// A message made out of the octets heard. A call menu and a joint menu are the same
/// octets; which channel carried them is what tells them apart, and that is settled by
/// which end this is.
#[derive(Debug, Clone, Copy, PartialEq, Eq, Structural)]
pub enum Heard {
    Cm(Menu),
    Jm(Menu),
    Ci(CallFunction),
    /// All three octets of it.
    Cj,
}

/// What the calling modem's ear makes of the answering tone.
#[derive(Debug, Clone, Copy, PartialEq, Eq, Structural)]
pub struct Ear {
    /// ANSam: the far end will negotiate.
    pub ansam: bool,
    /// The plain answering tone of V.25: it will not.
    pub plain: bool,
}

/// What to put on the line.
#[derive(Debug, Clone, Copy, PartialEq, Eq, Structural)]
pub enum Order {
    /// Go on as before.
    Nothing,
    /// The carrier on, and these octets in place of any that wait to be sent.
    Cm(Menu),
    Jm(Menu),
    Cj,
    /// The carrier off, and nothing waiting.
    Quiet,
}

/// One end of a negotiation.
#[derive(Debug, Clone, Copy, PartialEq, Eq, Structural)]
pub struct Modem {
    pub role: Role,
    /// What this end can do, and what the call is for.
    pub menu: Menu,
    pub state: State,
    /// Samples in the current state.
    pub elapsed: u64,
    /// Samples since the whole thing began.
    pub total: u64,
    pub fs: u32,
    /// Samples of ANSam sent.
    pub tone: u64,
    /// The last menu heard, and how many times running it has arrived the same, as far
    /// as it matters.
    pub last: Option<Menu>,
    pub repeats: u32,
    /// What was agreed, once it has been.
    pub chosen: Option<Modulation>,
    /// Whether CJ has been heard.
    pub cj: bool,
}

impl Modem {
    pub open spec fn wf(self) -> bool {
        &&& 0 < self.fs
        &&& self.state is Done || self.total <= 60 * self.fs
        &&& self.elapsed <= self.total
        &&& self.tone <= self.total
        &&& self.total <= 60 * self.fs + 1
        &&& self.repeats <= IDENTICAL
        &&& self.state != State::Done(Status::Negotiating)
        &&& self.state matches State::Done(Status::Agreed(m)) ==> self.chosen == Some(m)
    }

    /// What has been decided.
    pub open spec fn decided(self) -> Status {
        match self.state {
            State::Done(status) => status,
            _ => Status::Negotiating,
        }
    }

    /// An end that has said and heard nothing.
    pub open spec fn fresh(
        role: Role,
        function: CallFunction,
        ours: Modulations,
        fs: u32,
    ) -> Modem {
        Modem {
            role,
            menu: Menu { function, modulations: ours },
            state: State::Quiet,
            elapsed: 0,
            total: 0,
            fs,
            tone: 0,
            last: None,
            repeats: 0,
            chosen: None,
            cj: false,
        }
    }

    /// Whether this state has lasted so many milliseconds.
    pub open spec fn lasted(self, ms: u64) -> bool {
        self.elapsed * 1000 >= ms * self.fs
    }

    /// A message came off the line.
    pub open spec fn told(self, heard: Heard) -> Modem {
        match heard {
            Heard::Cm(menu) => if self.last == Some(menu) {
                Modem {
                    repeats: if self.repeats < IDENTICAL {
                        (self.repeats + 1) as u32
                    } else {
                        self.repeats
                    },
                    ..self
                }
            } else {
                Modem { last: Some(menu), repeats: 1, ..self }
            },
            Heard::Cj => Modem { cj: true, ..self },
            _ => self,
        }
    }

    /// What the far end has said, once it has said the same thing twice.
    pub open spec fn settled(self) -> Option<Menu> {
        if self.repeats >= IDENTICAL {
            self.last
        } else {
            None
        }
    }

    pub open spec fn enter(self, state: State) -> Modem {
        Modem { state, elapsed: 0, ..self }
    }

    /// The JM to repeat: what was agreed, and nothing else.
    pub open spec fn jm(self) -> Menu {
        Menu {
            modulations: match self.chosen {
                Some(m) => Modulations {
                    v34: false,
                    v32bis: false,
                    v22bis: false,
                    v21: false,
                }.with(m),
                None => Modulations { v34: false, v32bis: false, v22bis: false, v21: false },
            },
            ..self.menu
        }
    }

    /// What the procedure does next, and what that puts on the line. `clear` is whether
    /// everything handed to the transmitter has gone.
    #[verifier::opaque]
    pub open spec fn moved(self, ear: Ear, clear: bool) -> (Modem, Order) {
        if self.total > 60 * self.fs && !(self.state is Done) {
            // Nobody waits for ever.
            (self.enter(State::Done(Status::Failed)), Order::Nothing)
        } else {
            match self.state {
                State::Quiet => (
                    match self.role {
                        Role::Calling => if self.lasted(CALL_QUIET) {
                            self.enter(State::Listening)
                        } else {
                            self
                        },
                        Role::Answering => if self.lasted(ANSWER_QUIET) {
                            self.enter(State::Ansam)
                        } else {
                            self
                        },
                    },
                    Order::Nothing,
                ),
                State::Listening => (
                    if ear.ansam {
                        self.enter(State::Waiting)
                    } else if ear.plain && self.elapsed * 1000 > TE * self.fs {
                        // Held for a while before believing it: ANSam is a modulated
                        // tone, and the modulation takes a moment to measure.
                        self.enter(State::Done(Status::NoNegotiation))
                    } else {
                        self
                    },
                    Order::Nothing,
                ),
                State::Waiting => if self.lasted(TE) {
                    (self.enter(State::SendingCm), Order::Cm(self.menu))
                } else {
                    (self, Order::Nothing)
                },
                State::SendingCm => match self.settled() {
                    Some(jm) => (
                        Modem { chosen: jm.modulations.fastest(), ..self }.enter(State::SendingCj),
                        Order::Cj,
                    ),
                    None => (
                        self,
                        if clear {
                            Order::Cm(self.menu)
                        } else {
                            Order::Nothing
                        },
                    ),
                },
                State::SendingCj => if clear {
                    (self.enter(State::Handover), Order::Quiet)
                } else {
                    (self, Order::Nothing)
                },
                State::Ansam => match self.settled() {
                    Some(cm) => {
                        let jm = cm.answered(self.menu.modulations);
                        (
                            Modem {
                                chosen: jm.modulations.fastest(),
                                last: None,
                                repeats: 0,
                                ..self
                            }.enter(State::SendingJm),
                            Order::Jm(jm),
                        )
                    },
                    None => (
                        if self.lasted(ANSAM) {
                            self.enter(State::Done(Status::NoNegotiation))
                        } else {
                            self
                        },
                        Order::Nothing,
                    ),
                },
                State::SendingJm => if self.cj {
                    (self.enter(State::Handover), Order::Quiet)
                } else if clear {
                    (self, Order::Jm(self.jm()))
                } else {
                    (self, Order::Nothing)
                },
                State::Handover => (
                    if self.lasted(HANDOVER) {
                        self.enter(
                            State::Done(
                                match self.chosen {
                                    Some(m) => Status::Agreed(m),
                                    None => Status::Failed,
                                },
                            ),
                        )
                    } else {
                        self
                    },
                    Order::Nothing,
                ),
                State::Done(_) => (self, Order::Nothing),
            }
        }
    }

    /// One sample, up to what the procedure does about it.
    pub open spec fn timed(self, heard: Option<Heard>) -> Modem {
        let now = if self.state is Done {
            self
        } else {
            Modem {
                elapsed: (self.elapsed + 1) as u64,
                total: (self.total + 1) as u64,
                ..self
            }
        };
        match heard {
            Some(heard) => now.told(heard),
            None => now,
        }
    }

    /// Whether the phase of ANSam is reversed after so many samples of it.
    pub open spec fn reversed(self, samples: int) -> bool {
        samples * 1000 / (REVERSAL * self.fs) % 2 == 1
    }

    /// One sample: the modem after it, what it puts on the line, and the phase of the
    /// answering tone if it is sending that.
    pub open spec fn after(self, heard: Option<Heard>, ear: Ear, clear: bool) -> (
        Modem,
        Order,
        Option<bool>,
    ) {
        let (next, order) = self.timed(heard).moved(ear, clear);
        if next.state == State::Ansam {
            let tone = next.tone + 1;
            (Modem { tone: tone as u64, ..next }, order, Some(next.reversed(tone)))
        } else {
            (next, order, None)
        }
    }
}

impl Modem {
    /// A modem that can do `ours`, for a call of the given function.
    pub fn new(role: Role, function: CallFunction, ours: Modulations, fs: u32) -> (modem: Self)
        requires
            0 < fs,
        ensures
            modem.wf(),
            modem == Modem::fresh(role, function, ours, fs),
    {
        Modem {
            role,
            menu: Menu { function, modulations: ours },
            state: State::Quiet,
            elapsed: 0,
            total: 0,
            fs,
            tone: 0,
            last: None,
            repeats: 0,
            chosen: None,
            cj: false,
        }
    }

    pub fn status(&self) -> (status: Status)
        ensures
            status == self.decided(),
    {
        match self.state {
            State::Done(status) => status,
            _ => Status::Negotiating,
        }
    }

    /// What the procedure is doing, for a scope to show.
    pub fn phase(&self) -> (phase: &'static str)
        ensures
            phase@ == match self.state {
                State::Quiet => "quiet"@,
                State::Listening => "listening for an answer"@,
                State::Waiting => "Te"@,
                State::SendingCm => "CM"@,
                State::SendingCj => "CJ"@,
                State::Ansam => "ANSam"@,
                State::SendingJm => "JM"@,
                State::Handover => "handover"@,
                State::Done(_) => "done"@,
            },
    {
        match self.state {
            State::Quiet => "quiet",
            State::Listening => "listening for an answer",
            State::Waiting => "Te",
            State::SendingCm => "CM",
            State::SendingCj => "CJ",
            State::Ansam => "ANSam",
            State::SendingJm => "JM",
            State::Handover => "handover",
            State::Done(_) => "done",
        }
    }

    /// The modulation both ends settled on.
    pub fn chosen(&self) -> (chosen: Option<Modulation>)
        ensures
            chosen == self.chosen,
    {
        self.chosen
    }

    /// One sample: what was made out of the line up to it, and what to put on the line.
    /// `clear` is whether everything handed to the transmitter has gone. The second part
    /// is the phase of the answering tone, while that is what to send.
    pub fn step(&mut self, heard: Option<Heard>, ear: Ear, clear: bool) -> (out: (
        Order,
        Option<bool>,
    ))
        requires
            old(self).wf(),
        ensures
            final(self).wf(),
            (*final(self), out.0, out.1) == old(self).after(heard, ear, clear),
    {
        let done = match self.state {
            State::Done(_) => true,
            _ => false,
        };
        if !done {
            self.elapsed = self.elapsed + 1;
            self.total = self.total + 1;
        }
        if let Some(heard) = heard {
            self.heard(heard);
        }
        let ghost timed = *self;
        proof {
            timed.lemma_moved(ear, clear);
        }
        let order = self.advance(ear, clear);
        if self.state == State::Ansam {
            self.tone = self.tone + 1;
            let reversed = self.reverses();
            (order, Some(reversed))
        } else {
            (order, None)
        }
    }

    /// Whether the phase of the answering tone is reversed by now.
    fn reverses(&self) -> (reversed: bool)
        requires
            0 < self.fs,
            self.tone <= 60 * self.fs + 1,
        ensures
            reversed == self.reversed(self.tone as int),
    {
        self.tone * 1000 / (REVERSAL * self.fs as u64) % 2 == 1
    }

    /// A message came off the line.
    fn heard(&mut self, heard: Heard)
        ensures
            *final(self) == old(self).told(heard),
    {
        match heard {
            Heard::Cm(menu) => {
                let same = match self.last {
                    Some(last) => last == menu,
                    None => false,
                };
                if !same {
                    self.last = Some(menu);
                    self.repeats = 1;
                } else if self.repeats < IDENTICAL {
                    self.repeats = self.repeats + 1;
                }
            },
            Heard::Cj => {
                self.cj = true;
            },
            _ => {},
        }
    }

    /// Whether the far end has said the same thing twice.
    fn has_settled(&self) -> (settled: Option<Menu>)
        ensures
            settled == self.settled(),
    {
        if self.repeats >= IDENTICAL {
            self.last
        } else {
            None
        }
    }

    fn go(&mut self, state: State)
        ensures
            *final(self) == old(self).enter(state),
    {
        self.state = state;
        self.elapsed = 0;
    }

    fn has_lasted(&self, ms: u64) -> (lasted: bool)
        requires
            self.elapsed <= 60 * self.fs + 1,
            ms <= PATIENCE,
        ensures
            lasted == self.lasted(ms),
    {
        let fs: u64 = self.fs as u64;
        assert(0 <= ms * fs <= 60000 * 4_294_967_295) by (nonlinear_arith)
            requires
                0 <= ms <= 60000,
                0 <= fs <= 4_294_967_295,
        ;
        self.elapsed * 1000 >= ms * fs
    }

    /// What the procedure does next leaves the count of the whole alone, and gives up
    /// when that has run out.
    proof fn lemma_moved(self, ear: Ear, clear: bool)
        requires
            self.elapsed <= self.total,
            self.repeats <= IDENTICAL,
        ensures
            ({
                let next = self.moved(ear, clear).0;
                &&& next.fs == self.fs
                &&& next.total == self.total
                &&& next.tone == self.tone
                &&& next.elapsed <= next.total
                &&& next.repeats <= IDENTICAL
                &&& next.state is Done || next.total <= 60 * next.fs
                &&& self.state is Done ==> next == self
                &&& !(self.state is Done) ==> next.state != State::Done(Status::Negotiating) && (
                next.state matches State::Done(Status::Agreed(m)) ==> next.chosen == Some(m))
            }),
    {
        reveal(Modem::moved);
    }

    /// What the procedure does next, once a sample and what was heard at it have been
    /// counted.
    pub fn advance(&mut self, ear: Ear, clear: bool) -> (order: Order)
        requires
            0 < old(self).fs,
            old(self).elapsed <= old(self).total <= 60 * old(self).fs + 1,
        ensures
            (*final(self), order) == old(self).moved(ear, clear),
    {
        proof {
            reveal(Modem::moved);
        }
        let done = match self.state {
            State::Done(_) => true,
            _ => false,
        };
        if self.total > 60 * self.fs as u64 && !done {
            self.go(State::Done(Status::Failed));
            return Order::Nothing;
        }
        match self.state {
            State::Quiet => {
                match self.role {
                    Role::Calling => {
                        if self.has_lasted(CALL_QUIET) {
                            self.go(State::Listening);
                        }
                    },
                    Role::Answering => {
                        if self.has_lasted(ANSWER_QUIET) {
                            self.go(State::Ansam);
                        }
                    },
                }
                Order::Nothing
            },
            State::Listening => {
                if ear.ansam {
                    self.go(State::Waiting);
                } else if ear.plain && self.elapsed * 1000 > TE * self.fs as u64 {
                    self.go(State::Done(Status::NoNegotiation));
                }
                Order::Nothing
            },
            State::Waiting => {
                if self.has_lasted(TE) {
                    self.go(State::SendingCm);
                    Order::Cm(self.menu)
                } else {
                    Order::Nothing
                }
            },
            State::SendingCm => match self.has_settled() {
                Some(jm) => {
                    self.chosen = jm.chosen();
                    self.go(State::SendingCj);
                    Order::Cj
                },
                None => if clear {
                    Order::Cm(self.menu)
                } else {
                    Order::Nothing
                },
            },
            State::SendingCj => {
                if clear {
                    self.go(State::Handover);
                    Order::Quiet
                } else {
                    Order::Nothing
                }
            },
            State::Ansam => match self.has_settled() {
                Some(cm) => {
                    let jm = cm.joint(self.menu.modulations);
                    self.chosen = jm.chosen();
                    self.last = None;
                    self.repeats = 0;
                    self.go(State::SendingJm);
                    Order::Jm(jm)
                },
                None => {
                    if self.has_lasted(ANSAM) {
                        self.go(State::Done(Status::NoNegotiation));
                    }
                    Order::Nothing
                },
            },
            State::SendingJm => {
                if self.cj {
                    self.go(State::Handover);
                    Order::Quiet
                } else if clear {
                    Order::Jm(self.last_jm())
                } else {
                    Order::Nothing
                }
            },
            State::Handover => {
                if self.has_lasted(HANDOVER) {
                    let status = match self.chosen {
                        Some(m) => Status::Agreed(m),
                        // The two modems have nothing in common and have now said so to
                        // each other.
                        None => Status::Failed,
                    };
                    self.go(State::Done(status));
                }
                Order::Nothing
            },
            State::Done(_) => Order::Nothing,
        }
    }

    /// The JM to repeat, rebuilt from what was agreed.
    fn last_jm(&self) -> (menu: Menu)
        ensures
            menu == self.jm(),
    {
        let mut modulations = Modulations::none();
        if let Some(m) = self.chosen {
            modulations.insert(m);
        }
        Menu { function: self.menu.function, modulations }
    }
}

/// The octets of a message on their way to the transmitter.
#[derive(Debug)]
pub struct Outgoing {
    pub octets: VecDeque<u8>,
    pub transmitting: bool,
}

impl Outgoing {
    /// Nothing to send, and no carrier.
    pub fn new() -> (outgoing: Self)
        ensures
            outgoing.octets@ == Seq::<u8>::empty(),
            !outgoing.transmitting,
    {
        Outgoing { octets: VecDeque::new(), transmitting: false }
    }

    /// Queue a message for transmission in place of what was queued, and start the
    /// carrier. What the transmitter has already been handed it completes.
    pub fn send(&mut self, octets: &[u8])
        ensures
            final(self).octets@ == octets@,
            final(self).transmitting,
    {
        self.octets.clear();
        let mut i: usize = 0;
        while i < octets.len()
            invariant
                i <= octets.len(),
                self.octets@ == octets@.take(i as int),
            decreases octets.len() - i,
        {
            self.octets.push_back(octets[i]);
            i = i + 1;
            assert(octets@.take(i as int) =~= octets@.take(i - 1).push(octets@[i - 1]));
        }
        assert(octets@.take(i as int) =~= octets@);
        self.transmitting = true;
    }

    /// Drop what was queued, and stop the carrier.
    pub fn quiet(&mut self)
        ensures
            final(self).octets@ == Seq::<u8>::empty(),
            !final(self).transmitting,
    {
        self.octets.clear();
        self.transmitting = false;
    }

    /// Whether everything has gone, given how many bits the transmitter still holds.
    pub fn is_clear(&self, pending_bits: usize) -> (clear: bool)
        ensures
            clear == (self.octets@.len() == 0 && pending_bits == 0),
    {
        self.octets.len() == 0 && pending_bits == 0
    }

    /// The bits to hand the transmitter next: one octet, framed, whenever it has run out.
    pub fn next(&mut self, pending_bits: usize) -> (bits: Option<Vec<bool>>)
        ensures
            final(self).transmitting == old(self).transmitting,
            if old(self).transmitting && pending_bits == 0 && old(self).octets@.len() > 0 {
                &&& bits matches Some(bits) && bits@ == character(old(self).octets@[0], 8)
                &&& final(self).octets@ == old(self).octets@.skip(1)
            } else {
                bits is None && final(self).octets@ == old(self).octets@
            },
    {
        if !self.transmitting || pending_bits != 0 {
            return None;
        }
        match self.octets.pop_front() {
            Some(octet) => {
                assert(self.octets@ =~= old(self).octets@.skip(1));
                Some(AsyncBits::new(8).encode(octet))
            },
            None => None,
        }
    }
}

/// A negotiation that is over stays over, and puts nothing on the line.
pub proof fn an_ended_negotiation_stays_ended(
    modem: Modem,
    heard: Option<Heard>,
    ear: Ear,
    clear: bool,
)
    requires
        modem.state is Done,
    ensures
        modem.after(heard, ear, clear).0.state == modem.state,
        modem.after(heard, ear, clear).1 == Order::Nothing,
        modem.after(heard, ear, clear).2 is None,
        modem.after(heard, ear, clear).0.chosen == modem.chosen,
{
    reveal(Modem::moved);
}

/// Nobody waits for ever: a negotiation has ended by the sample after its patience.
pub proof fn patience_runs_out(modem: Modem, heard: Option<Heard>, ear: Ear, clear: bool)
    requires
        modem.wf(),
        modem.total == 60 * modem.fs,
    ensures
        modem.after(heard, ear, clear).0.state is Done,
{
    reveal(Modem::moved);
}

/// A calling modem says nothing until it is answered: before it has heard ANSam nothing
/// it does puts anything on the line.
pub proof fn a_calling_modem_waits_to_be_answered(
    modem: Modem,
    heard: Option<Heard>,
    ear: Ear,
    clear: bool,
)
    requires
        modem.role == Role::Calling,
        modem.state == State::Quiet || modem.state == State::Listening,
    ensures
        modem.after(heard, ear, clear).1 == Order::Nothing,
        modem.after(heard, ear, clear).2 is None,
        modem.after(heard, ear, clear).0.state == State::Waiting ==> ear.ansam && modem.state
            == State::Listening,
        modem.after(heard, ear, clear).0.state != State::SendingCm,
{
    reveal(Modem::moved);
}

/// An answering modem waits before it speaks: no answering tone until the opening
/// silence is over, and no octets before the answering tone.
pub proof fn an_answering_modem_waits_before_it_speaks(
    modem: Modem,
    heard: Option<Heard>,
    ear: Ear,
    clear: bool,
)
    requires
        modem.wf(),
        modem.role == Role::Answering,
        modem.state == State::Quiet,
    ensures
        modem.after(heard, ear, clear).1 == Order::Nothing,
        modem.after(heard, ear, clear).2 is Some ==> (modem.elapsed + 1) * 1000 >= ANSWER_QUIET
            * modem.fs,
{
    reveal(Modem::moved);
}

/// Two modems come out at the same place. The answering end settles on what the joint
/// menu it sends settles on, and the calling end, once it believes that menu or the one
/// repeated after it, settles on the same.
pub proof fn both_ends_settle_on_the_same(menu: Menu, answering: Modem, ear: Ear, clear: bool)
    requires
        answering.wf(),
        answering.state == State::Ansam,
        answering.settled() == Some(menu),
    ensures
        ({
            let (answered, order) = answering.moved(ear, clear);
            let joint = menu.answered(answering.menu.modulations);
            &&& order == Order::Jm(joint)
            &&& answered.chosen == joint.modulations.fastest()
            &&& answered.jm().modulations.fastest() == answered.chosen
            &&& forall|heard: Modem|
                heard.state == State::SendingCm && heard.total <= 60 * heard.fs && (heard.settled()
                    == Some(joint) || heard.settled() == Some(answered.jm()))
                    ==> #[trigger] heard.moved(ear, clear).0.chosen == answered.chosen
        }),
{
    reveal(Modem::moved);
}

/// Where an advance leads, from anywhere. A negotiation that is over is left as it is.
/// One that has gone on for more than sixty seconds fails. One whose handover is over
/// agrees on what was chosen, and fails where nothing was; and there is no other way to
/// an agreement.
pub proof fn where_an_advance_leads(modem: Modem, ear: Ear, clear: bool)
    requires
        modem.state != State::Done(Status::Negotiating),
    ensures
        ({
            let next = modem.moved(ear, clear).0;
            let handed = modem.state == State::Handover && modem.lasted(HANDOVER);
            let late = modem.total > 60 * modem.fs;
            if modem.decided() != Status::Negotiating {
                next == modem
            } else if late {
                next.decided() == Status::Failed
            } else if handed {
                &&& next.chosen == modem.chosen
                &&& next.decided() == match modem.chosen {
                    Some(m) => Status::Agreed(m),
                    None => Status::Failed,
                }
            } else {
                next.decided() == Status::Negotiating || next.decided() == Status::NoNegotiation
            }
        }),
{
    reveal(Modem::moved);
}

/// What is agreed is never anything but what was chosen, in any modem and after any step
/// of it.
pub proof fn an_agreement_is_what_was_chosen(
    modem: Modem,
    heard: Option<Heard>,
    ear: Ear,
    clear: bool,
)
    requires
        modem.wf(),
    ensures
        modem.decided() matches Status::Agreed(m) ==> modem.chosen == Some(m),
        ({
            let next = modem.after(heard, ear, clear).0;
            next.decided() matches Status::Agreed(m) ==> next.chosen == Some(m)
        }),
{
    let timed = modem.timed(heard);
    timed.lemma_moved(ear, clear);
}

/// What is agreed was chosen, and where nothing was chosen the negotiation fails.
pub proof fn what_is_agreed_was_chosen(modem: Modem, heard: Option<Heard>, ear: Ear, clear: bool)
    requires
        modem.state == State::Handover,
    ensures
        modem.after(heard, ear, clear).0.state matches State::Done(status) ==> status
            == Status::Failed || (modem.chosen matches Some(m) && status == Status::Agreed(m)),
{
    reveal(Modem::moved);
}

} // verus!
