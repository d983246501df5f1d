//! V.34 from the end of V.8 to the start of data: phase 2, and phases 3 and 4
//! straight after it on what phase 2 settled.
use crate::v34::info::SymbolRate;
use crate::v34::phase2::{self, Heard, Role, Said, FASTEST};
use crate::v34::training::{self, settled_by, Ear, Limits, Settings};
use vstd::prelude::*;

verus! {

/// How the start-up is going.
#[derive(Debug, Clone, Copy, PartialEq, Eq)]
pub enum Status {
    Running,
    /// Phase 4 is over but the two MPs left no data mode to run.
    Done,
    /// Data mode is next, at these rates in bit/s.
    Connected { transmit: u32, receive: u32 },
    Failed(&'static str),
}

/// What the transmitter and receiver round the start-up can do.
#[derive(Debug, Clone, Copy, PartialEq, Eq)]
pub struct Front {
    /// Symbols the transmitter's pulse reaches ahead of the line.
    pub lookahead: u32,
    /// The fastest data rate at each symbol rate, 2400 to 3429, as multiples of
    /// 2400 bit/s.
    pub ceilings: [u8; 6],
}

impl Front {
    pub open spec fn wf(self) -> bool {
        forall|i: int| 0 <= i < 6 ==> 1 <= #[trigger] self.ceilings@[i]
    }

    pub open spec fn limiting(self, settings: Settings) -> Limits {
        Limits {
            lookahead: self.lookahead,
            transmit_ceiling: self.ceilings@[settings.transmit.rate.numbered() as int],
            receive_ceiling: self.ceilings@[settings.receive.rate.numbered() as int],
        }
    }

    fn ceiling(&self, rate: SymbolRate) -> (ceiling: u8)
        ensures
            ceiling == self.ceilings@[rate.numbered() as int],
    {
        self.ceilings[rate.index() as usize]
    }

    fn limits(&self, settings: &Settings) -> (limits: Limits)
        ensures
            limits == self.limiting(*settings),
    {
        Limits {
            lookahead: self.lookahead,
            transmit_ceiling: self.ceiling(settings.transmit.rate),
            receive_ceiling: self.ceiling(settings.receive.rate),
        }
    }
}

/// What phases 3 and 4 run on, from what phase 2 left. This end has the
/// 1664-point constellation, as its INFO0 says.
pub open spec fn settings_of(s: phase2::Progress) -> Option<Settings> {
    match (s.far, s.info1c, s.info1a) {
        (Some(far), Some(info1c), Some(info1a)) => Some(
            settled_by(s.role, far, info1c, info1a, s.rtd() as u32, far.constellation_1664),
        ),
        _ => None,
    }
}

/// A start-up, as a value.
pub struct Standing {
    pub front: Front,
    pub fs: u32,
    pub phase2: phase2::Standing,
    pub training: Option<training::Standing>,
}

impl Standing {
    pub open spec fn wf(self) -> bool {
        &&& 0 < self.fs <= FASTEST
        &&& self.front.wf()
        &&& self.phase2.wf()
        &&& self.phase2.s.rtd() <= u32::MAX
        &&& self.training matches Some(training) ==> training.wf()
    }

    /// One sample further: phases 3 and 4 once they have begun, and phase 2
    /// until then.
    pub open spec fn step(self, h: Heard, ear: Ear) -> Standing {
        match self.training {
            Some(training) => Standing { training: Some(training.step(ear)), ..self },
            None => {
                let phase2 = self.phase2.step(h);
                let on = Standing { phase2, ..self };
                match settings_of(phase2.s) {
                    Some(settings) if phase2.s.status is Done => Standing {
                        training: Some(
                            training::opened(settings, self.front.limiting(settings), self.fs),
                        ),
                        ..on
                    },
                    _ => on,
                }
            },
        }
    }

    pub open spec fn status(self) -> Status {
        match (self.phase2.s.status, self.training) {
            (phase2::Status::Failed(why), _) => Status::Failed(why),
            (_, Some(training)) => match training.s.status {
                training::Status::Failed(why) => Status::Failed(why),
                training::Status::Done => {
                    let (transmit, receive) = training.settled_rates();
                    if training.s.ours is Some && training.s.far_mp is Some && transmit > 0
                        && receive > 0 {
                        Status::Connected {
                            transmit: (2400 * transmit) as u32,
                            receive: (2400 * receive) as u32,
                        }
                    } else {
                        Status::Done
                    }
                },
                training::Status::Running => Status::Running,
            },
            _ => Status::Running,
        }
    }
}

/// One end of the start-up.
#[derive(Debug, Clone)]
pub struct Modem {
    pub front: Front,
    pub fs: u32,
    pub phase2: phase2::Modem,
    /// Phases 3 and 4, once phase 2 is over.
    pub training: Option<training::Modem>,
}

impl View for Modem {
    type V = Standing;

    open spec fn view(&self) -> Standing {
        Standing {
            front: self.front,
            fs: self.fs,
            phase2: self.phase2@,
            training: match self.training {
                Some(training) => Some(training@),
                None => None,
            },
        }
    }
}

impl Modem {
    pub fn new(role: Role, front: Front, fs: u32) -> (modem: Modem)
        requires
            0 < fs <= FASTEST,
            front.wf(),
        ensures
            modem@ == (Standing {
                front,
                fs,
                phase2: phase2::opened(role, None, fs),
                training: None,
            }),
            modem@.wf(),
    {
        Modem { front, fs, phase2: phase2::Modem::new(role, fs), training: None }
    }

    pub fn role(&self) -> (role: Role)
        ensures
            role == self@.phase2.s.role,
    {
        self.phase2.role()
    }

    pub fn phase2(&self) -> (phase2: &phase2::Modem)
        ensures
            *phase2 == self.phase2,
    {
        &self.phase2
    }

    /// Phases 3 and 4, once phase 2 is over.
    pub fn training(&self) -> (training: Option<&training::Modem>)
        ensures
            training is Some <==> self.training is Some,
            training matches Some(training) ==> self.training == Some(*training),
    {
        match &self.training {
            Some(training) => Some(training),
            None => None,
        }
    }

    pub fn status(&self) -> (status: Status)
        requires
            self@.wf(),
        ensures
            status == self@.status(),
    {
        match self.phase2.status() {
            phase2::Status::Failed(why) => {
                return Status::Failed(why);
            },
            _ => {},
        }
        match &self.training {
            Some(training) => match training.status() {
                training::Status::Failed(why) => Status::Failed(why),
                training::Status::Done => match training.rates() {
                    Some((transmit, receive)) => if transmit > 0 && receive > 0 {
                        Status::Connected {
                            transmit: 2400 * (transmit as u32),
                            receive: 2400 * (receive as u32),
                        }
                    } else {
                        Status::Done
                    },
                    None => Status::Done,
                },
                training::Status::Running => Status::Running,
            },
            None => Status::Running,
        }
    }

    pub fn phase(&self) -> (phase: &'static str)
        ensures
            phase == match self@.training {
                Some(training) => if training.s.status is Failed {
                    training.s.stopped_at
                } else {
                    training.s.stage.named()
                },
                None => if self@.phase2.s.status is Failed {
                    "V.34 phase 2 failed"
                } else {
                    self@.phase2.s.stage.named()
                },
            },
    {
        match &self.training {
            Some(training) => training.phase(),
            None => self.phase2.phase(),
        }
    }

    /// Carry the start-up one sample further. What phase 2 says, while it is
    /// phase 2 that is running.
    pub fn step(&mut self, h: &Heard, ear: Ear) -> (said: Option<Said>)
        requires
            old(self)@.wf(),
            old(self).phase2.state.now < u64::MAX,
            h.wf(),
            old(self)@.training matches Some(training) ==> training.s.now < 0x7fff_ffff_ffff_ffff,
        ensures
            final(self)@ == old(self)@.step(*h, ear),
            final(self)@.wf(),
            said is Some == (old(self)@.training is None),
            said matches Some(said) ==> {
                let (before, after) = (old(self)@.phase2.s, final(self)@.phase2.s);
                &&& said.line == after.line()
                &&& said.analyse == (before.read_from <= after.now < before.read_until)
                &&& said.restart == (after.reading_probe() && !before.reading_probe())
            },
    {
        match self.training.take() {
            Some(training) => {
                let mut training = training;
                training.step(ear);
                self.training = Some(training);
                return None;
            },
            None => {},
        }
        let ghost before = self.phase2@;
        let said = self.phase2.step(h);
        proof {
            lemma_trip(before, *h);
        }
        match self.phase2.status() {
            phase2::Status::Done => {
                match self.settings() {
                    Some(settings) => {
                        let limits = self.front.limits(&settings);
                        self.training = Some(training::Modem::new(settings, limits, self.fs));
                    },
                    None => {},
                }
            },
            _ => {},
        }
        Some(said)
    }

    /// What phases 3 and 4 run on, from what phase 2 left.
    fn settings(&self) -> (settings: Option<Settings>)
        requires
            self@.wf(),
        ensures
            settings == settings_of(self@.phase2.s),
    {
        match (self.phase2.far_capabilities(), self.phase2.info1c(), self.phase2.info1a()) {
            (Some(far), Some(info1c), Some(info1a)) => {
                let trip: u32 = match self.phase2.round_trip() {
                    Some(trip) => trip as u32,
                    None => 0,
                };
                Some(
                    Settings::new(
                        self.phase2.role(),
                        &far,
                        &info1c,
                        &info1a,
                        trip,
                        far.constellation_1664,
                    ),
                )
            },
            _ => None,
        }
    }
}

/// The round trip is measured within phase 2's twenty seconds.
proof fn lemma_trip(m: phase2::Standing, h: Heard)
    requires
        m.wf(),
        m.step(h).wf(),
        m.step(h).s.now == m.s.now + 1,
        m.s.rtd() <= u32::MAX,
    ensures
        m.step(h).s.rtd() <= u32::MAX,
{
}

/// The start-up is connected only when both ends have ended phase 4, and then
/// at the rates their two MPs come to.
pub proof fn what_connects_was_agreed(m: Standing)
    requires
        m.wf(),
        m.status() is Connected,
    ensures
        m.training is Some,
        m.training->0.s.sent_e && m.training->0.s.far_e,
        !(m.phase2.s.status is Failed),
        m.training->0.settled_rates().0 > 0,
        m.training->0.settled_rates().1 > 0,
{
}

} // verus!
