//! The V.22bis handshake.
//!
//! Two modems that have never met agree on a signalling rate by taking turns with
//! a handful of signals, to a schedule measured in milliseconds. Neither is told
//! what the other can do; each infers it from what it hears. The exchange is
//! arranged so that a V.22 modem, which knows nothing of 2400 bit/s, still reaches
//! a working connection at 1200: the signal that offers the faster rate is one it
//! never sends and never listens for, so its silence on the matter is itself the
//! answer.
//!
//! Driven a sample at a time. Each step takes what the receiver is hearing and
//! says what the transmitter is to send.
use crate::v22bis::{Channel, Hearing, Receiver, Scrambler, Sending, Transmitter};
use vstd::prelude::*;

verus! {

/// Which end of the call this is.
#[derive(Debug, Clone, Copy, PartialEq, Eq, Structural)]
pub enum Role {
    /// Placed the call: transmits low, receives high, and begins silent.
    Calling,
    /// Took the call: transmits high, receives low, and speaks first.
    Answering,
}

/// The signalling rates.
#[derive(Debug, Clone, Copy, PartialEq, Eq, Structural)]
pub enum Rate {
    Bps1200,
    Bps2400,
}

/// What the transmitter sends during the handshake.
#[derive(Debug, Clone, Copy, PartialEq, Eq, Structural)]
pub enum Signal {
    Silent,
    AnswerTone,
    UnscrambledOnes,
    DoubleDibit,
    ScrambledOnes,
}

/// What the receiver hears.
#[derive(Debug, Clone, Copy, PartialEq, Eq, Structural)]
pub enum Pattern {
    UnscrambledOnes,
    DoubleDibit,
    ScrambledOnes,
    /// Nothing that belongs to the handshake.
    Other,
}

/// How far the handshake has got.
#[derive(Debug, Clone, Copy, PartialEq, Eq, Structural)]
pub enum Status {
    /// Still negotiating.
    Negotiating,
    /// Agreed, and data may flow at this rate.
    Connected(Rate),
    /// Nothing recognisable arrived in time.
    Failed,
}

/// The timings, in milliseconds. Each is the middle of the range allowed, since
/// a modem has to land inside the range rather than on an edge of it.
///
/// The answering tone.
pub const ANSWER_TONE: u64 = 3300;

/// Unscrambled binary 1 heard before the calling modem responds.
pub const HEARD_UNSCRAMBLED: u64 = 155;

/// Silence the calling modem keeps afterwards.
pub const PAUSE: u64 = 456;

/// The double dibit that offers 2400.
pub const DOUBLE_DIBIT: u64 = 100;

/// Scrambled binary 1 heard before a 1200 connection is agreed.
pub const HEARD_SCRAMBLED: u64 = 270;

/// After the rate is agreed, when to start sending at 2400.
pub const TO_2400: u64 = 600;

/// And how long to send it before data may follow.
pub const SETTLE_2400: u64 = 200;

/// Nothing recognisable for this long and the attempt is abandoned.
pub const PATIENCE: u64 = 60000;

/// Where the handshake has got to.
#[derive(Debug, Clone, Copy, PartialEq, Eq, Structural)]
pub enum State {
    /// Answering: sending the answering tone.
    AnswerTone,
    /// Answering: sending unscrambled binary 1 and waiting to hear back.
    OfferingOnes,
    /// Calling: silent, waiting to hear unscrambled binary 1.
    Listening,
    /// Calling: silent for the pause that follows.
    Pausing,
    /// Sending the double dibit that offers 2400.
    OfferingDoubleDibit,
    /// Sending scrambled binary 1 at 1200, which either settles the connection
    /// there or is overtaken by the far end offering 2400.
    Scrambled1200,
    /// The rate is agreed at 2400 and the clock is running towards it.
    Rising2400,
    /// Sending scrambled binary 1 at 2400 and letting the far end settle.
    Settling2400,
    Connected(Rate),
    Failed,
}

/// What a step says to the transmitter and the receiver.
#[derive(Debug, Clone, Copy, PartialEq, Eq, Structural)]
pub struct Told {
    pub signal: Option<Signal>,
    pub transmit_rate: Option<Rate>,
    pub receive_rate: Option<Rate>,
}

impl Told {
    pub open spec fn send(signal: Signal) -> Told {
        Told { signal: Some(signal), transmit_rate: None, receive_rate: None }
    }

    pub open spec fn nothing() -> Told {
        Told { signal: None, transmit_rate: None, receive_rate: None }
    }
}

/// Runs one end of the handshake.
#[derive(Debug, Clone, Copy, PartialEq, Eq, Structural)]
pub struct Handshake {
    pub role: Role,
    pub state: State,
    /// Samples in the current state.
    pub elapsed: u64,
    /// Samples since the handshake began, for the overall limit.
    pub total: u64,
    /// Samples a second.
    pub fs: u32,
    /// Samples the pattern being waited for has been present without a break.
    pub held: u64,
    /// Whether the far end has offered 2400. It may do so while this end is still
    /// sending its own offer, so the fact has to be remembered.
    pub offered_2400: bool,
}

impl Handshake {
    pub open spec fn wf(self) -> bool {
        &&& 0 < self.fs
        &&& self.elapsed <= self.total
        &&& self.held <= self.total
        &&& self.total < 0x1_0000_0000_0000
    }

    /// Whether so many samples are so many milliseconds.
    pub open spec fn reaches(self, samples: u64, ms: u64) -> bool {
        samples * 1000 >= ms * self.fs
    }

    pub open spec fn enter(self, state: State) -> Handshake {
        Handshake { state, elapsed: 0, held: 0, ..self }
    }

    /// Every wait is for a signal to be continuously present for a stated time,
    /// so a break starts the count again.
    pub open spec fn holding(self, present: bool) -> Handshake {
        Handshake {
            held: if present {
                (self.held + 1) as u64
            } else {
                0
            },
            ..self
        }
    }

    pub open spec fn remembering(self, heard: Pattern) -> Handshake {
        Handshake { offered_2400: self.offered_2400 || heard is DoubleDibit, ..self }
    }

    /// Waiting for scrambled ones long enough to agree on 1200.
    pub open spec fn agreeing(self, heard: Pattern, told: Told) -> (Handshake, Told) {
        let held = self.holding(heard is ScrambledOnes);
        if held.reaches(held.held, HEARD_SCRAMBLED) {
            (
                held.enter(State::Connected(Rate::Bps1200)),
                Told { receive_rate: Some(Rate::Bps1200), ..told },
            )
        } else {
            (held, told)
        }
    }

    /// What a state makes of a sample.
    pub open spec fn acted(self, heard: Pattern) -> (Handshake, Told) {
        let at_1200 = Told { transmit_rate: Some(Rate::Bps1200), ..Told::nothing() };
        match self.state {
            State::AnswerTone => (
                if self.reaches(self.elapsed, ANSWER_TONE) {
                    self.enter(State::OfferingOnes)
                } else {
                    self
                },
                Told::send(Signal::AnswerTone),
            ),
            State::OfferingOnes => {
                let told = Told { signal: Some(Signal::UnscrambledOnes), ..at_1200 };
                if heard is DoubleDibit {
                    (self.remembering(heard).enter(State::OfferingDoubleDibit), told)
                } else {
                    self.agreeing(heard, told)
                }
            },
            State::Listening => {
                let held = self.holding(heard is UnscrambledOnes);
                (
                    if held.reaches(held.held, HEARD_UNSCRAMBLED) {
                        held.enter(State::Pausing)
                    } else {
                        held
                    },
                    Told::send(Signal::Silent),
                )
            },
            State::Pausing => (
                if self.reaches(self.elapsed, PAUSE) {
                    self.enter(State::OfferingDoubleDibit)
                } else {
                    self
                },
                Told::send(Signal::Silent),
            ),
            State::OfferingDoubleDibit => {
                let on = self.remembering(heard);
                (
                    if on.reaches(on.elapsed, DOUBLE_DIBIT) {
                        on.enter(State::Scrambled1200)
                    } else {
                        on
                    },
                    Told { signal: Some(Signal::DoubleDibit), ..at_1200 },
                )
            },
            State::Scrambled1200 => {
                let told = Told { signal: Some(Signal::ScrambledOnes), ..at_1200 };
                let on = self.remembering(heard);
                if on.offered_2400 {
                    (on.enter(State::Rising2400), told)
                } else {
                    on.agreeing(heard, told)
                }
            },
            State::Rising2400 => if self.reaches(self.elapsed, TO_2400) {
                (
                    self.enter(State::Settling2400),
                    Told {
                        signal: None,
                        transmit_rate: Some(Rate::Bps2400),
                        receive_rate: Some(Rate::Bps2400),
                    },
                )
            } else {
                (self, Told::nothing())
            },
            State::Settling2400 => {
                let told = Told::send(Signal::ScrambledOnes);
                if self.reaches(self.elapsed, SETTLE_2400) {
                    (
                        self.enter(State::Connected(Rate::Bps2400)),
                        Told { receive_rate: Some(Rate::Bps2400), ..told },
                    )
                } else {
                    (self, told)
                }
            },
            State::Connected(_) | State::Failed => (self, Told::nothing()),
        }
    }

    pub open spec fn ended(self) -> bool {
        self.state is Connected || self.state is Failed
    }

    /// Out of patience, where there is no end yet.
    pub open spec fn abandoned(self) -> Handshake {
        if !self.ended() && self.reaches(self.total, PATIENCE) {
            Handshake { state: State::Failed, ..self }
        } else {
            self
        }
    }

    /// One sample further.
    pub open spec fn stepped(self, heard: Pattern) -> (Handshake, Told) {
        let on = Handshake {
            elapsed: (self.elapsed + 1) as u64,
            total: (self.total + 1) as u64,
            ..self
        };
        let (acted, told) = on.acted(heard);
        (acted.abandoned(), told)
    }

    pub open spec fn says(self) -> Status {
        match self.state {
            State::Connected(rate) => Status::Connected(rate),
            State::Failed => Status::Failed,
            _ => Status::Negotiating,
        }
    }

    pub open spec fn opened(role: Role, fs: u32) -> Handshake {
        Handshake {
            role,
            state: match role {
                Role::Calling => State::Listening,
                Role::Answering => State::AnswerTone,
            },
            elapsed: 0,
            total: 0,
            fs,
            held: 0,
            offered_2400: false,
        }
    }

    pub fn new(role: Role, fs: u32) -> (handshake: Handshake)
        requires
            0 < fs,
        ensures
            handshake == Handshake::opened(role, fs),
            handshake.wf(),
    {
        Handshake {
            role,
            state: match role {
                Role::Calling => State::Listening,
                Role::Answering => State::AnswerTone,
            },
            elapsed: 0,
            total: 0,
            fs,
            held: 0,
            offered_2400: false,
        }
    }

    pub fn role(&self) -> (role: Role)
        ensures
            role == self.role,
    {
        self.role
    }

    pub fn status(&self) -> (status: Status)
        ensures
            status == self.says(),
    {
        match self.state {
            State::Connected(rate) => Status::Connected(rate),
            State::Failed => Status::Failed,
            _ => Status::Negotiating,
        }
    }

    fn has(&self, samples: u64, ms: u64) -> (reached: bool)
        requires
            samples <= 0x1_0000_0000_0000,
            ms <= 60000,
        ensures
            reached == self.reaches(samples, ms),
    {
        let fs: u32 = self.fs;
        assert(0 <= ms * fs <= 60000 * 0xffff_ffff) by (nonlinear_arith)
            requires
                ms <= 60000,
                fs <= 0xffff_ffff,
        ;
        samples * 1000 >= ms * (fs as u64)
    }

    fn hold(&mut self, present: bool)
        requires
            old(self).held < 0x1_0000_0000_0000,
        ensures
            *final(self) == old(self).holding(present),
    {
        self.held = if present {
            self.held + 1
        } else {
            0
        };
    }

    fn go(&mut self, state: State)
        ensures
            *final(self) == old(self).enter(state),
    {
        *self = Handshake { state, elapsed: 0, held: 0, ..*self };
    }

    fn remember(&mut self, heard: Pattern)
        ensures
            *final(self) == old(self).remembering(heard),
    {
        if heard == Pattern::DoubleDibit {
            self.offered_2400 = true;
        }
    }

    fn agree(&mut self, heard: Pattern, told: Told) -> (said: Told)
        requires
            old(self).held < old(self).total,
            old(self).elapsed <= old(self).total,
            old(self).total <= 0x1_0000_0000_0000,
        ensures
            (*final(self), said) == old(self).agreeing(heard, told),
            final(self).fs == old(self).fs,
            final(self).total == old(self).total,
            final(self).elapsed <= final(self).total,
            final(self).held <= final(self).total,
    {
        self.hold(heard == Pattern::ScrambledOnes);
        if self.has(self.held, HEARD_SCRAMBLED) {
            self.go(State::Connected(Rate::Bps1200));
            Told { receive_rate: Some(Rate::Bps1200), ..told }
        } else {
            told
        }
    }

    fn act(&mut self, heard: Pattern) -> (told: Told)
        requires
            0 < old(self).fs,
            old(self).elapsed <= old(self).total,
            old(self).held < old(self).total,
            old(self).total <= 0x1_0000_0000_0000,
        ensures
            (*final(self), told) == old(self).acted(heard),
            0 < final(self).fs,
            final(self).elapsed <= final(self).total,
            final(self).held <= final(self).total,
            final(self).total == old(self).total,
    {
        let at_1200 = Told {
            signal: None,
            transmit_rate: Some(Rate::Bps1200),
            receive_rate: None,
        };
        let nothing = Told { signal: None, transmit_rate: None, receive_rate: None };
        match self.state {
            State::AnswerTone => {
                if self.has(self.elapsed, ANSWER_TONE) {
                    self.go(State::OfferingOnes);
                }
                Told { signal: Some(Signal::AnswerTone), ..nothing }
            },
            State::OfferingOnes => {
                let told = Told { signal: Some(Signal::UnscrambledOnes), ..at_1200 };
                if heard == Pattern::DoubleDibit {
                    self.remember(heard);
                    self.go(State::OfferingDoubleDibit);
                    told
                } else {
                    self.agree(heard, told)
                }
            },
            State::Listening => {
                self.hold(heard == Pattern::UnscrambledOnes);
                if self.has(self.held, HEARD_UNSCRAMBLED) {
                    self.go(State::Pausing);
                }
                Told { signal: Some(Signal::Silent), ..nothing }
            },
            State::Pausing => {
                if self.has(self.elapsed, PAUSE) {
                    self.go(State::OfferingDoubleDibit);
                }
                Told { signal: Some(Signal::Silent), ..nothing }
            },
            State::OfferingDoubleDibit => {
                self.remember(heard);
                if self.has(self.elapsed, DOUBLE_DIBIT) {
                    self.go(State::Scrambled1200);
                }
                Told { signal: Some(Signal::DoubleDibit), ..at_1200 }
            },
            State::Scrambled1200 => {
                let told = Told { signal: Some(Signal::ScrambledOnes), ..at_1200 };
                self.remember(heard);
                if self.offered_2400 {
                    self.go(State::Rising2400);
                    told
                } else {
                    self.agree(heard, told)
                }
            },
            State::Rising2400 => {
                if self.has(self.elapsed, TO_2400) {
                    self.go(State::Settling2400);
                    Told {
                        signal: None,
                        transmit_rate: Some(Rate::Bps2400),
                        receive_rate: Some(Rate::Bps2400),
                    }
                } else {
                    nothing
                }
            },
            State::Settling2400 => {
                let told = Told { signal: Some(Signal::ScrambledOnes), ..nothing };
                if self.has(self.elapsed, SETTLE_2400) {
                    self.go(State::Connected(Rate::Bps2400));
                    Told { receive_rate: Some(Rate::Bps2400), ..told }
                } else {
                    told
                }
            },
            State::Connected(_) | State::Failed => nothing,
        }
    }

    /// Advance one sample: what is arriving, and what to send.
    pub fn step(&mut self, heard: Pattern) -> (stepped: (Status, Told))
        requires
            old(self).wf(),
            old(self).total + 1 < 0x1_0000_0000_0000,
        ensures
            (*final(self), stepped.1) == old(self).stepped(heard),
            stepped.0 == final(self).says(),
            final(self).wf(),
    {
        self.elapsed = self.elapsed + 1;
        self.total = self.total + 1;
        let told = self.act(heard);
        let ended = match self.state {
            State::Connected(_) | State::Failed => true,
            _ => false,
        };
        if !ended && self.has(self.total, PATIENCE) {
            self.state = State::Failed;
        }
        (self.status(), told)
    }
}

/// A handshake that has ended stays as it ended, and says nothing more.
pub proof fn an_ended_handshake_stays_ended(h: Handshake, heard: Pattern)
    requires
        h.wf(),
        h.ended(),
    ensures
        h.stepped(heard).0.says() == h.says(),
        h.stepped(heard).1 == Told::nothing(),
{
}

/// No handshake is waited on for ever: a minute on it is connected or has failed.
pub proof fn patience_runs_out(h: Handshake, heard: Pattern)
    requires
        h.wf(),
        h.reaches((h.total + 1) as u64, PATIENCE),
        h.total + 1 < 0x1_0000_0000_0000,
    ensures
        h.stepped(heard).0.ended(),
{
}

/// The faster rate is agreed only if the far end has offered it, and offering it
/// is never forgotten.
pub open spec fn only_what_was_offered(h: Handshake) -> bool {
    &&& h.state is Rising2400 || h.state is Settling2400 ==> h.offered_2400
    &&& h.state == State::Connected(Rate::Bps2400) ==> h.offered_2400
}

/// A modem that never sends the double dibit is never connected to at 2400, for
/// no step agrees on 2400 without its having been heard.
pub proof fn the_faster_rate_was_offered(h: Handshake, heard: Pattern)
    requires
        h.wf(),
        only_what_was_offered(h),
    ensures
        only_what_was_offered(h.stepped(heard).0),
        h.stepped(heard).0.offered_2400 ==> h.offered_2400 || heard is DoubleDibit,
        h.offered_2400 ==> h.stepped(heard).0.offered_2400,
{
}

/// The calling modem says nothing at all until the far end does.
pub proof fn the_calling_modem_begins_silent(h: Handshake, heard: Pattern)
    requires
        h.wf(),
        h.state is Listening || h.state is Pausing,
    ensures
        h.stepped(heard).1 == Told::send(Signal::Silent),
        h.state is Listening && !(heard is UnscrambledOnes) ==> !(h.stepped(
            heard,
        ).0.state is Pausing),
{
    let fs = h.fs;
    assert(155 * fs > 0);
}

/// One end of a V.22bis call: transmitter, receiver and handshake together.
#[derive(Debug, Clone)]
pub struct Modem {
    pub tx: Transmitter,
    pub rx: Receiver,
    pub hs: Handshake,
    /// The rate the receiver has been told.
    pub rate: Rate,
}

/// The channel of the end a role is.
pub open spec fn channel_of(role: Role) -> Channel {
    match role {
        Role::Calling => Channel::Calling,
        Role::Answering => Channel::Answering,
    }
}

impl Modem {
    pub open spec fn wf(self) -> bool {
        self.tx@.wf() && self.rx@.wf() && self.hs.wf()
    }

    pub fn new(role: Role, fs: u32) -> (modem: Modem)
        requires
            0 < fs,
        ensures
            modem.wf(),
            modem.hs == Handshake::opened(role, fs),
            modem.rate == Rate::Bps1200,
            modem.tx@ == (Sending {
                scrambler: Scrambler::fresh(),
                quadrant: 0,
                pending: Seq::empty(),
            }),
            modem.rx@ == (Hearing {
                descrambler: Scrambler::fresh(),
                quadrant: None,
                bits: Seq::empty(),
            }),
    {
        Modem {
            tx: Transmitter::new(),
            rx: Receiver::new(),
            hs: Handshake::new(role, fs),
            rate: Rate::Bps1200,
        }
    }

    /// A channel is named for the end that uses it and says both what that end
    /// transmits in and what it listens to.
    pub fn channel(&self) -> (channel: Channel)
        ensures
            channel == (match self.hs.role {
                Role::Calling => Channel::Calling,
                Role::Answering => Channel::Answering,
            }),
            channel == channel_of(self.hs.role),
    {
        match self.hs.role {
            Role::Calling => Channel::Calling,
            Role::Answering => Channel::Answering,
        }
    }

    /// One sample further: what the receiver is hearing, and any symbol it has
    /// just finished; and what the transmitter is told.
    pub fn step(&mut self, heard: Pattern, symbol: Option<(i32, i32)>) -> (told: Told)
        requires
            old(self).wf(),
            old(self).hs.total + 1 < 0x1_0000_0000_0000,
        ensures
            (final(self).hs, told) == old(self).hs.stepped(heard),
            final(self).tx == old(self).tx,
            final(self).rx@ == (match symbol {
                Some(p) => old(self).rx@.hear(
                    (crate::v22bis::snapped(p.0 as int), crate::v22bis::snapped(p.1 as int)),
                ),
                None => old(self).rx@,
            }),
            final(self).rate == (match told.receive_rate {
                Some(rate) => rate,
                None => old(self).rate,
            }),
            final(self).wf(),
    {
        match symbol {
            Some(p) => self.rx.on_symbol(p),
            None => {},
        }
        let (_, told) = self.hs.step(heard);
        match told.receive_rate {
            Some(rate) => {
                self.rate = rate;
            },
            None => {},
        }
        told
    }

    pub fn status(&self) -> (status: Status)
        ensures
            status == self.hs.says(),
    {
        self.hs.status()
    }

    pub fn rate(&self) -> (rate: Rate)
        ensures
            rate == self.rate,
    {
        self.rate
    }

    /// Bits recovered from the line.
    pub fn take_bits(&mut self) -> (bits: Vec<bool>)
        ensures
            bits@ == old(self).rx@.bits,
            final(self).rx@ == (Hearing { bits: Seq::empty(), ..old(self).rx@ }),
            final(self).tx == old(self).tx,
            final(self).hs == old(self).hs,
            final(self).rate == old(self).rate,
    {
        self.rx.take_bits()
    }

    /// Queue bits for transmission.
    pub fn send_bits(&mut self, bits: &[bool])
        ensures
            final(self).tx@ == (Sending {
                pending: old(self).tx@.pending + bits@,
                ..old(self).tx@
            }),
            final(self).rx == old(self).rx,
            final(self).hs == old(self).hs,
            final(self).rate == old(self).rate,
    {
        self.tx.push_bits(bits);
    }

    /// How many are still waiting to go out.
    pub fn pending_bits(&self) -> (left: usize)
        ensures
            left == self.tx@.pending.len(),
    {
        self.tx.pending_bits()
    }
}

} // verus!
