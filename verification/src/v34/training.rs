//! Phases 3 and 4 of the start-up: each end trains its receiver on the other's
//! signal, the two ask each other with J for the constellation to train with
//! next, train again, and settle what data mode will be in MP sequences.
//!
//! From the answer modem, with the call modem's side beneath it:
//!
//! ```text
//! answer  INFO1a, 70 ms, S S' PP TRN J J J ...            S S' TRN     MP MP' E
//! call                          S S' PP TRN J J J ... J J' TRN   MP MP' E
//! ```
//!
//! Every change is set off by hearing the other end, so each step waits a round
//! trip, and the timers all count one or two of them. What the receiver hears
//! comes in as plain values, and what it is to do next goes out as orders.
use crate::v32::Mode;
use crate::v34::info::{Info0, Info1a, Info1c, SymbolRate};
use crate::v34::listening::{Event, Listened, Listening, Read};
use crate::v34::mp::{agreed, enabled, Mp, Trellis};
use crate::v34::phase2::{samples, Role, FASTEST};
use crate::v34::receiver::Reference;
use crate::v34::signals::Size;
use crate::v34::source::{Giving, Next, Segment, Source};
use vstd::prelude::*;

pub use crate::v34::mp::negotiate;

verus! {

/// How phases 3 and 4 are going.
#[derive(Debug, Clone, Copy, PartialEq, Eq)]
pub enum Status {
    Running,
    /// Both ends have sent E: data mode is next.
    Done,
    Failed(&'static str),
}

/// A symbol rate and which of its two carriers.
#[derive(Debug, Clone, Copy, PartialEq, Eq, Structural)]
pub struct Band {
    pub rate: SymbolRate,
    pub high: bool,
}

/// Symbols per seven seconds, which is a whole number at every rate.
pub open spec fn sevenths(rate: SymbolRate) -> nat {
    match rate {
        SymbolRate::S2400 => 16800,
        SymbolRate::S2743 => 19200,
        SymbolRate::S2800 => 19600,
        SymbolRate::S3000 => 21000,
        SymbolRate::S3200 => 22400,
        SymbolRate::S3429 => 24000,
    }
}

impl Band {
    pub fn new(rate: SymbolRate, high: bool) -> (band: Band)
        ensures
            band == (Band { rate, high }),
    {
        Band { rate, high }
    }

    /// Symbols in seven seconds.
    pub fn baud_sevenths(self) -> (symbols: u32)
        ensures
            symbols == sevenths(self.rate),
    {
        match self.rate {
            SymbolRate::S2400 => 16800,
            SymbolRate::S2743 => 19200,
            SymbolRate::S2800 => 19600,
            SymbolRate::S3000 => 21000,
            SymbolRate::S3200 => 22400,
            SymbolRate::S3429 => 24000,
        }
    }
}

/// What phase 2 settled, as far as phases 3 and 4 need it.
#[derive(Debug, Clone, Copy, PartialEq, Eq)]
pub struct Settings {
    pub role: Role,
    /// This end's transmitter.
    pub transmit: Band,
    pub pre_emphasis: u8,
    pub power_reduction: u8,
    /// The far end's transmitter, which this end's receiver listens to.
    pub receive: Band,
    /// The far end's MD, in 35 ms steps.
    pub far_md: u8,
    /// In samples.
    pub round_trip: u32,
    /// Whether the far end's INFO0 set the CME bit, which stretches phase 4's
    /// wait for E to thirty seconds.
    pub far_cme: bool,
    /// Whether both ends have the 1664-point constellation rates above 28 800
    /// need.
    pub wide: bool,
}

/// What the sequences say of the two directions, taken from one end.
pub open spec fn settled_by(
    role: Role,
    far: Info0,
    info1c: Info1c,
    info1a: Info1a,
    round_trip: u32,
    wide: bool,
) -> Settings {
    let towards_call = info1c.probed@[info1a.answer_to_call.numbered() as int];
    let towards_answer = info1a.probed;
    let call = Band { rate: info1a.call_to_answer, high: towards_answer.high_carrier };
    let answer = Band { rate: info1a.answer_to_call, high: towards_call.high_carrier };
    match role {
        Role::Call => Settings {
            role,
            transmit: call,
            pre_emphasis: towards_answer.pre_emphasis,
            power_reduction: info1a.min_power_reduction,
            receive: answer,
            far_md: info1a.md_length,
            round_trip,
            far_cme: far.cme,
            wide,
        },
        Role::Answer => Settings {
            role,
            transmit: answer,
            pre_emphasis: towards_call.pre_emphasis,
            power_reduction: info1c.min_power_reduction,
            receive: call,
            far_md: info1c.md_length,
            round_trip,
            far_cme: far.cme,
            wide,
        },
    }
}

impl Settings {
    /// From the INFO sequences: INFO1c is what the call modem found of the
    /// answer modem's transmitter, INFO1a what the answer modem found of the
    /// call modem's and the symbol rates both ways.
    pub fn new(
        role: Role,
        far: &Info0,
        info1c: &Info1c,
        info1a: &Info1a,
        round_trip: u32,
        wide: bool,
    ) -> (settings: Settings)
        ensures
            settings == settled_by(role, *far, *info1c, *info1a, round_trip, wide),
    {
        let towards_call = info1c.probed[info1a.answer_to_call.index() as usize];
        let towards_answer = info1a.probed;
        let call = Band::new(info1a.call_to_answer, towards_answer.high_carrier);
        let answer = Band::new(info1a.answer_to_call, towards_call.high_carrier);
        match role {
            Role::Call => Settings {
                role,
                transmit: call,
                pre_emphasis: towards_answer.pre_emphasis,
                power_reduction: info1a.min_power_reduction,
                receive: answer,
                far_md: info1a.md_length,
                round_trip,
                far_cme: far.cme,
                wide,
            },
            Role::Answer => Settings {
                role,
                transmit: answer,
                pre_emphasis: towards_call.pre_emphasis,
                power_reduction: info1c.min_power_reduction,
                receive: call,
                far_md: info1c.md_length,
                round_trip,
                far_cme: far.cme,
                wide,
            },
        }
    }
}

/// The two ends settle the same two signals: each listens in the band the other
/// sends in.
pub proof fn the_ends_settle_the_same_bands(
    far_of_call: Info0,
    far_of_answer: Info0,
    info1c: Info1c,
    info1a: Info1a,
    round_trip: u32,
    wide: bool,
)
    ensures
        ({
            let call = settled_by(Role::Call, far_of_call, info1c, info1a, round_trip, wide);
            let answer = settled_by(Role::Answer, far_of_answer, info1c, info1a, round_trip, wide);
            call.transmit == answer.receive && call.receive == answer.transmit
        }),
{
}

/// What the transmitter and receiver round this can do.
#[derive(Debug, Clone, Copy, PartialEq, Eq)]
pub struct Limits {
    /// Symbols the transmitter's pulse reaches ahead of the line.
    pub lookahead: u32,
    /// The fastest data rate of each band, as multiples of 2400 bit/s.
    pub transmit_ceiling: u8,
    pub receive_ceiling: u8,
}

/// What the receiver is to do next.
#[derive(Debug, Clone, Copy, PartialEq, Eq)]
pub enum Order {
    /// Listen for S turning into S-bar.
    Hunt,
    Idle,
    /// Train on what follows the reversal heard at a sample.
    Train(Reference, Mode, u64),
    SetSize(Size),
}

/// The receiver, as the decisions see it.
#[derive(Debug, Clone, Copy, PartialEq, Eq)]
pub struct Ear {
    pub trained: bool,
    /// The fastest data rate its signal to noise projects, as a multiple of
    /// 2400 bit/s.
    pub projected: u8,
}

/// Where phases 3 and 4 have got to.
#[derive(Debug, Clone, Copy, PartialEq, Eq, Structural)]
pub enum Stage {
    CallAwaitS,
    CallTraining,
    CallAwaitJ,
    CallSendTraining,
    CallAwaitS4,
    CallTraining4,
    CallMp,
    AnswerSendTraining,
    AnswerAwaitS,
    AnswerTraining,
    AnswerAwaitJ,
    AnswerPhase4,
    AnswerMp,
    Finished,
}

impl Stage {
    pub open spec fn named(self) -> &'static str {
        match self {
            Stage::CallAwaitS | Stage::AnswerAwaitS => "V.34 phase 3: listening for S",
            Stage::CallTraining | Stage::AnswerTraining => "V.34 phase 3: training",
            Stage::CallAwaitJ | Stage::AnswerAwaitJ => "V.34 phase 3: listening for J",
            Stage::CallSendTraining
            | Stage::AnswerSendTraining => "V.34 phase 3: sending PP and TRN",
            Stage::CallAwaitS4 => "V.34 phase 4: listening for S",
            Stage::CallTraining4 | Stage::AnswerPhase4 => "V.34 phase 4: training",
            Stage::CallMp | Stage::AnswerMp => "V.34 phase 4: MP",
            Stage::Finished => "V.34 phase 4 done",
        }
    }

    fn name(self) -> (name: &'static str)
        ensures
            name == self.named(),
    {
        match self {
            Stage::CallAwaitS | Stage::AnswerAwaitS => "V.34 phase 3: listening for S",
            Stage::CallTraining | Stage::AnswerTraining => "V.34 phase 3: training",
            Stage::CallAwaitJ | Stage::AnswerAwaitJ => "V.34 phase 3: listening for J",
            Stage::CallSendTraining
            | Stage::AnswerSendTraining => "V.34 phase 3: sending PP and TRN",
            Stage::CallAwaitS4 => "V.34 phase 4: listening for S",
            Stage::CallTraining4 | Stage::AnswerPhase4 => "V.34 phase 4: training",
            Stage::CallMp | Stage::AnswerMp => "V.34 phase 4: MP",
            Stage::Finished => "V.34 phase 4 done",
        }
    }
}

/// What an end knows of the two phases.
#[derive(Debug, Clone, Copy, PartialEq, Eq)]
pub struct Progress {
    pub settings: Settings,
    pub limits: Limits,
    pub fs: u32,
    pub now: u64,
    pub stage: Stage,
    pub status: Status,
    /// A sample to give up at, and what to say.
    pub deadline: Option<(u64, &'static str)>,
    /// Where it had got to when it gave up.
    pub stopped_at: &'static str,
    /// Waiting out the far end's MD until this sample.
    pub md_until: Option<u64>,
    pub md_waited: bool,
    /// Symbols of phase 3's TRN to send.
    pub trn_symbols: usize,
    /// The constellation the receiver decides by.
    pub rx_size: Size,
    pub far_asked: Option<Size>,
    /// Signal to noise trained to, in hundredths of a decibel.
    pub phase3_snr: Option<i32>,
    pub phase4_snr: Option<i32>,
    pub ours: Option<Mp>,
    pub far_mp: Option<Mp>,
    pub far_acknowledged: bool,
    pub far_e: bool,
    pub sent_e: bool,
}

/// One end of the two phases, as a value.
pub struct Standing {
    pub s: Progress,
    pub source: Giving,
    pub listening: Listened,
    pub orders: Seq<Order>,
}

/// The far end's scrambler.
pub open spec fn far_mode(role: Role) -> Mode {
    match role {
        Role::Call => Mode::Answer,
        Role::Answer => Mode::Call,
    }
}

/// Symbols to the nearest in the 70 ms between INFO1a and S, less what the
/// pulse reaches ahead.
pub open spec fn silence_before_s(rate: SymbolRate, lookahead: nat) -> nat {
    let silence = (sevenths(rate) + 50) / 100;
    if silence >= lookahead {
        (silence - lookahead) as nat
    } else {
        0
    }
}

/// The lesser of two rates.
pub open spec fn least(a: u8, b: u8) -> u8 {
    if a < b {
        a
    } else {
        b
    }
}

impl Standing {
    pub open spec fn wf(self) -> bool {
        &&& self.sound()
        &&& self.listening.mp_found ==> self.s.far_mp is Some
        &&& self.s.far_e ==> self.s.far_mp is Some
    }

    /// All of the invariant but that an E is believed only behind an MP.
    pub open spec fn sound(self) -> bool {
        let s = self.s;
        &&& 0 < s.fs <= FASTEST
        &&& s.now <= 0x7fff_ffff_ffff_ffff
        &&& 1 <= s.limits.receive_ceiling
        &&& self.source.wf()
        &&& self.listening.wf()
        &&& self.consistent()
    }

    /// What is known hangs together: E is sent only behind an MP of this end's,
    /// and both ends' have gone when all is done.
    pub open spec fn consistent(self) -> bool {
        let s = self.s;
        &&& s.sent_e ==> s.ours is Some
        &&& (s.stage is CallMp || s.stage is AnswerMp) ==> s.ours is Some
        &&& s.status is Done ==> s.sent_e && s.far_e
        &&& !(s.status is Running) ==> s.stage is Finished
    }

    /// The sample a time and so many round trips from now.
    pub open spec fn after(self, ms: nat, trips: nat) -> u64 {
        (self.s.now + samples(self.s.fs, ms) + trips * self.s.settings.round_trip) as u64
    }

    /// The same from the sample that is being heard, which the next step counts.
    pub open spec fn heard_after(self, ms: nat, trips: nat) -> u64 {
        (self.after(ms, trips) + 1) as u64
    }

    pub open spec fn order(self, order: Order) -> Standing {
        Standing {
            s: Progress {
                rx_size: match order {
                    Order::Train(Reference::PpThenTrn, _, _) => Size::Four,
                    Order::Train(Reference::Trn(size), _, _) => size,
                    Order::SetSize(size) => size,
                    _ => self.s.rx_size,
                },
                ..self.s
            },
            orders: self.orders.push(order),
            ..self
        }
    }

    pub open spec fn enter(self, stage: Stage) -> Standing {
        Standing { s: Progress { stage, ..self.s }, ..self }
    }

    pub open spec fn wait(self, deadline: Option<(u64, &'static str)>) -> Standing {
        Standing { s: Progress { deadline, ..self.s }, ..self }
    }

    /// Move to a segment at the next place the current one can end.
    pub open spec fn change(self, segment: Segment) -> Standing {
        Standing { source: Giving { pending: Some(segment), ..self.source }, ..self }
    }

    /// The constellation to send, and what follows S-bar.
    pub open spec fn send_as(self, size: Size, after_s_bar: Segment) -> Standing {
        Standing { source: Giving { size, after_s_bar, ..self.source }, ..self }
    }

    pub open spec fn fail(self, why: &'static str) -> Standing {
        Standing {
            s: Progress {
                stopped_at: self.s.stage.named(),
                status: Status::Failed(why),
                stage: Stage::Finished,
                ..self.s
            },
            source: Giving { pending: None, ..self.source }.start(Segment::Silence),
            ..self
        }.order(Order::Idle)
    }

    /// The far end's S turning into S-bar in phase 3: its MD is waited out once,
    /// if it sends one, and its second S-bar trained on.
    pub open spec fn phase3_reversal(self, at: u64) -> Standing {
        let heard = if self.s.stage is AnswerAwaitS {
            self.change(Segment::Silence).wait(None)
        } else {
            self
        };
        let s = heard.s;
        if s.settings.far_md > 0 && !s.md_waited {
            Standing {
                s: Progress {
                    md_waited: true,
                    md_until: Some(heard.heard_after((35 * s.settings.far_md) as nat, 0)),
                    ..s
                },
                ..heard
            }.order(Order::Idle)
        } else {
            heard.order(Order::Train(Reference::PpThenTrn, far_mode(s.settings.role), at)).enter(
                if s.stage is CallAwaitS {
                    Stage::CallTraining
                } else {
                    Stage::AnswerTraining
                },
            )
        }
    }

    /// The answer modem's S-bar of phase 4: J ends with a J', and TRN follows.
    pub open spec fn phase4_reversal(self, at: u64) -> Standing {
        let s = self.s;
        self.order(
            Order::Train(Reference::Trn(self.source.ask), far_mode(s.settings.role), at),
        ).send_as(
            match s.far_asked {
                Some(size) => size,
                None => Size::Four,
            },
            Segment::Trn,
        ).change(Segment::JPrime).enter(Stage::CallTraining4).wait(
            Some(
                (
                    if s.settings.far_cme {
                        self.heard_after(30000, 0)
                    } else {
                        self.heard_after(2800, 3)
                    },
                    "no E from the answer modem",
                ),
            ),
        )
    }

    pub open spec fn reversal(self, at: u64) -> Standing {
        match self.s.stage {
            Stage::CallAwaitS | Stage::AnswerAwaitS => self.phase3_reversal(at),
            Stage::CallAwaitS4 => self.phase4_reversal(at),
            _ => self,
        }
    }

    /// The receiver is trained.
    pub open spec fn trained(self, snr: i32) -> Standing {
        let s = self.s;
        let on = match s.stage {
            Stage::CallTraining => Standing {
                s: Progress { phase3_snr: Some(snr), stage: Stage::CallAwaitJ, ..s },
                ..self
            },
            Stage::AnswerTraining => Standing {
                s: Progress {
                    phase3_snr: Some(snr),
                    stage: Stage::AnswerAwaitJ,
                    deadline: Some((self.heard_after(2900, 2), "no J from the call modem")),
                    ..s
                },
                ..self
            },
            Stage::CallTraining4 => Standing {
                s: Progress { phase4_snr: Some(snr), ..s },
                ..self
            },
            _ => self,
        };
        Standing { listening: on.listening.begin_trn(on.s.rx_size), ..on }
    }

    /// The far end's J, at either end.
    pub open spec fn asked_for(self, size: Size) -> Standing {
        let asked = Standing { s: Progress { far_asked: Some(size), ..self.s }, ..self };
        match self.s.stage {
            Stage::CallAwaitJ => asked.send_as(size, Segment::Pp).change(Segment::S).order(
                Order::Hunt,
            ).wait(None).enter(Stage::CallSendTraining),
            Stage::AnswerAwaitJ => asked.send_as(size, Segment::Trn).change(Segment::S).enter(
                Stage::AnswerPhase4,
            ).wait(
                Some(
                    (
                        if self.s.settings.far_cme {
                            self.heard_after(30000, 0)
                        } else {
                            self.heard_after(2850, 4)
                        },
                        "no E from the call modem",
                    ),
                ),
            ),
            _ => self,
        }
    }

    /// The far end's MP, with the signal to noise it came at.
    pub open spec fn heard_mp(self, mp: Mp, snr: i32) -> Standing {
        let s = self.s;
        Standing {
            s: Progress {
                phase4_snr: if s.far_mp is None && s.phase4_snr is None {
                    Some(snr)
                } else {
                    s.phase4_snr
                },
                far_mp: Some(mp),
                far_acknowledged: s.far_acknowledged || mp.acknowledge,
                ..s
            },
            ..self
        }
    }

    pub open spec fn event(self, event: Event, snr: i32) -> Standing {
        match event {
            Event::J(size) => self.asked_for(size),
            Event::JPrime => if self.s.stage is AnswerPhase4 {
                let set = self.order(Order::SetSize(self.source.ask));
                Standing { listening: set.listening.begin_trn(self.source.ask), ..set }
            } else {
                self
            },
            Event::Mp(mp) => self.heard_mp(mp, snr),
            Event::E => Standing { s: Progress { far_e: true, ..self.s }, ..self },
        }
    }

    pub open spec fn events(self, events: Seq<Event>, snr: i32) -> Standing
        decreases events.len(),
    {
        if events.len() == 0 {
            self
        } else {
            self.events(events.drop_last(), snr).event(events.last(), snr)
        }
    }

    /// A symbol of the far end's.
    pub open spec fn symbol(self, trn_bits: Seq<bool>, reads: Seq<Read>, snr: i32) -> Standing {
        let (listening, events) = self.listening.heard(trn_bits, reads);
        Standing { listening, ..self }.events(events, snr)
    }

    /// The MP this end sends: what it can take and give.
    pub open spec fn made_mp(self, projected: u8) -> Mp {
        let s = self.s;
        let receive = least(
            if projected < 1 {
                1
            } else {
                projected
            },
            s.limits.receive_ceiling,
        );
        let transmit = s.limits.transmit_ceiling;
        let (up, down) = match s.settings.role {
            Role::Call => (transmit, receive),
            Role::Answer => (receive, transmit),
        };
        Mp {
            call_to_answer: if s.settings.wide {
                up
            } else {
                least(up, 12)
            },
            answer_to_call: if s.settings.wide {
                down
            } else {
                least(down, 12)
            },
            auxiliary: false,
            trellis: Trellis::States16,
            non_linear: false,
            expanded_shaping: false,
            acknowledge: false,
            rates: 0x3fff,
            asymmetric: true,
            precoding: None,
        }
    }

    /// MP from the next place TRN can end.
    pub open spec fn send_mp(self, projected: u8, stage: Stage) -> Standing {
        let ours = self.made_mp(projected);
        Standing {
            s: Progress { ours: Some(ours), stage, ..self.s },
            source: Giving { mp: ours, pending: Some(Segment::Mp), ..self.source },
            ..self
        }
    }

    /// Symbols of TRN sent.
    pub open spec fn trn_sent(self) -> nat {
        if self.source.segment is Trn {
            self.source.count
        } else {
            0
        }
    }

    /// TRN for 512 symbols at least, then MP once trained, and not past two
    /// seconds of TRN and so many round trips whatever.
    pub open spec fn enough_trn(self, trained: bool, trips: nat) -> bool {
        let s = self.s;
        let sent = self.trn_sent();
        sent >= 512 && (trained || sent * s.fs * 7 >= (2 * s.fs + trips * s.settings.round_trip)
            * sevenths(s.settings.transmit.rate))
    }

    /// The call modem's TRN of phase 4, and MP once this end is trained.
    #[verifier::opaque]
    pub open spec fn call_trained(self, ear: Ear) -> Standing {
        if self.enough_trn(ear.trained && self.listening.trn_symbols >= 64, 0) {
            self.send_mp(ear.projected, Stage::CallMp)
        } else {
            self
        }
    }

    /// The answer modem's TRN of phase 4, and MP once the call modem's has been
    /// heard.
    #[verifier::opaque]
    pub open spec fn answer_trained(self, ear: Ear) -> Standing {
        if self.enough_trn(
            self.listening.j_prime && self.listening.trn_symbols + self.listening.grace >= 512,
            1,
        ) {
            self.send_mp(ear.projected, Stage::AnswerMp)
        } else {
            self
        }
    }

    /// The far end's MD has gone by.
    #[verifier::opaque]
    pub open spec fn md_passed(self) -> Standing {
        match self.s.md_until {
            Some(until) => if self.s.now >= until {
                Standing { s: Progress { md_until: None, ..self.s }, ..self }.order(Order::Hunt)
            } else {
                self
            },
            None => self,
        }
    }

    /// J, once phase 3's TRN has gone.
    pub open spec fn then_j(self) -> Standing {
        if self.source.segment is Trn && self.source.count >= self.s.trn_symbols {
            self.change(Segment::J)
        } else {
            self
        }
    }

    /// PP and TRN going out in phase 3, and the wait for S that J begins.
    #[verifier::opaque]
    pub open spec fn sent_training(self) -> Standing {
        let j = self.then_j();
        if !(j.source.segment is J) {
            j
        } else if j.s.stage is AnswerSendTraining {
            j.order(Order::Hunt).wait(
                Some((j.after(900, 1), "no S from the call modem")),
            ).enter(Stage::AnswerAwaitS)
        } else {
            j.wait(Some((j.after(900, 1), "no S from the answer modem in phase 4"))).enter(
                Stage::CallAwaitS4,
            )
        }
    }

    /// The rates the two MPs come to: this end's transmitter's and its
    /// receiver's.
    pub open spec fn settled_rates(self) -> (nat, nat) {
        let (far, ours) = (self.s.far_mp->0, self.s.ours->0);
        match self.s.settings.role {
            Role::Call => agreed(ours, far),
            Role::Answer => (agreed(far, ours).1, agreed(far, ours).0),
        }
    }

    /// MP' once the far end's MP has been read.
    #[verifier::opaque]
    pub open spec fn acknowledging(self) -> Standing {
        if self.s.far_mp is Some && !self.source.mp.acknowledge && self.s.ours is Some {
            Standing {
                source: Giving {
                    mp: Mp { acknowledge: true, ..self.s.ours->0 },
                    ..self.source
                },
                ..self
            }
        } else {
            self
        }
    }

    /// E, once eight MP' have gone and the far end has read an MP of this end's.
    #[verifier::opaque]
    pub open spec fn ending(self) -> Standing {
        let s = self.s;
        if !s.sent_e && self.source.acknowledged >= 8 && (s.far_acknowledged || s.far_e) {
            Standing { s: Progress { sent_e: true, ..s }, ..self.change(Segment::E) }
        } else {
            self
        }
    }

    /// Done once E is not just asked for but on the line.
    #[verifier::opaque]
    pub open spec fn finishing(self) -> Standing {
        let s = self.s;
        if s.sent_e && s.far_e && self.source.segment is Silence && self.source.silent > 2
            * s.limits.lookahead {
            Standing {
                s: Progress { status: Status::Done, deadline: None, stage: Stage::Finished, ..s },
                ..self
            }
        } else {
            self
        }
    }

    #[verifier::opaque]
    pub open spec fn stage_step(self, ear: Ear) -> Standing {
        let g = self.md_passed();
        match g.s.stage {
            Stage::AnswerSendTraining | Stage::CallSendTraining => g.sent_training(),
            Stage::CallTraining4 => g.call_trained(ear),
            Stage::AnswerPhase4 => g.answer_trained(ear),
            Stage::CallMp | Stage::AnswerMp => g.acknowledging().ending().finishing(),
            _ => g,
        }
    }

    /// What is heard of the far end's signal while there is still something to hear it
    /// for: S turning into S-bar, the receiver trained, or not trained.
    pub open spec fn on_reversal(self, at: u64) -> Standing {
        if self.s.status is Running {
            self.reversal(at)
        } else {
            self
        }
    }

    pub open spec fn on_trained(self, snr: i32) -> Standing {
        if self.s.status is Running {
            self.trained(snr)
        } else {
            self
        }
    }

    pub open spec fn on_untrained(self) -> Standing {
        if self.s.status is Running {
            self.fail("the far end's training sequence did not train this end")
        } else {
            self
        }
    }

    /// One sample further.
    pub open spec fn step(self, ear: Ear) -> Standing {
        let on = Standing { s: Progress { now: (self.s.now + 1) as u64, ..self.s }, ..self };
        if !(on.s.status is Running) {
            on
        } else {
            match on.s.deadline {
                Some((at, why)) => if on.s.now > at {
                    on.fail(why)
                } else {
                    on.stage_step(ear)
                },
                None => on.stage_step(ear),
            }
        }
    }
}

/// An MP is among what was heard.
pub open spec fn has_mp(events: Seq<Event>) -> bool {
    exists|i: int| 0 <= i < events.len() && #[trigger] events[i] is Mp
}

/// An E is among what was heard.
pub open spec fn has_e(events: Seq<Event>) -> bool {
    exists|i: int| 0 <= i < events.len() && #[trigger] events[i] is E
}

proof fn lemma_heard_bits(l: Listened, reads: Seq<Read>)
    ensures
        ({
            let (after, events) = l.heard_bits(reads);
            &&& l.mp_found ==> after.mp_found
            &&& after.mp_found ==> l.mp_found || has_mp(events)
            &&& has_e(events) ==> after.mp_found
        }),
    decreases reads.len(),
{
    if reads.len() > 0 {
        lemma_heard_bits(l, reads.drop_last());
        let (before, events) = l.heard_bits(reads.drop_last());
        let more = before.came_to(reads.last());
        let all = events + more;
        if has_mp(events) {
            let i = choose|i: int| 0 <= i < events.len() && #[trigger] events[i] is Mp;
            assert(all[i] is Mp);
        }
        if reads.last().found is Some && reads.last().found->0 is Mp {
            assert(all[events.len() as int] is Mp);
        }
        if has_e(all) {
            let i = choose|i: int| 0 <= i < all.len() && #[trigger] all[i] is E;
            if i < events.len() {
                assert(events[i] is E);
            } else {
                assert(more[i - events.len()] is E);
            }
        }
    }
}

proof fn lemma_heard(l: Listened, trn_bits: Seq<bool>, reads: Seq<Read>)
    ensures
        ({
            let (after, events) = l.heard(trn_bits, reads);
            &&& after.mp_found ==> l.mp_found || has_mp(events)
            &&& has_e(events) ==> l.mp_found || has_mp(events)
        }),
{
    if !l.still_trn(trn_bits) {
        let start = Listened { trn: false, ..l };
        lemma_heard_bits(start, reads);
        let (read, found) = start.heard_bits(reads);
        let more = read.asked().1;
        let all = found + more;
        if has_mp(found) {
            let i = choose|i: int| 0 <= i < found.len() && #[trigger] found[i] is Mp;
            assert(all[i] is Mp);
        }
        if has_e(all) {
            let i = choose|i: int| 0 <= i < all.len() && #[trigger] all[i] is E;
            if i < found.len() {
                assert(found[i] is E);
            } else {
                assert(more[i - found.len()] is E);
            }
        }
    }
}

/// What the events leave known of the far end's MP and E.
proof fn lemma_events(s: Standing, events: Seq<Event>, snr: i32)
    ensures
        ({
            let after = s.events(events, snr);
            &&& after.listening.mp_found == s.listening.mp_found
            &&& s.s.far_mp is Some || has_mp(events) ==> after.s.far_mp is Some
            &&& after.s.far_e ==> s.s.far_e || has_e(events)
        }),
    decreases events.len(),
{
    if events.len() > 0 {
        let before = events.drop_last();
        lemma_events(s, before, snr);
        if has_mp(events) {
            let i = choose|i: int| 0 <= i < events.len() && #[trigger] events[i] is Mp;
            if i < before.len() {
                assert(before[i] is Mp);
            }
        }
        if has_e(before) {
            let i = choose|i: int| 0 <= i < before.len() && #[trigger] before[i] is E;
            assert(events[i] is E);
        }
        if events.last() is E {
            assert(events[events.len() - 1] is E);
        }
    }
}

/// Phases 3 and 4, one end of them.
#[derive(Debug, Clone)]
pub struct Modem {
    pub state: Progress,
    pub source: Source,
    pub listening: Listening,
    pub orders: Vec<Order>,
}

impl View for Modem {
    type V = Standing;

    open spec fn view(&self) -> Standing {
        Standing {
            s: self.state,
            source: self.source@,
            listening: self.listening@,
            orders: self.orders@,
        }
    }
}

/// Phase 3 from its start.
pub open spec fn opened(settings: Settings, limits: Limits, fs: u32) -> Standing {
    let blank = Standing {
        s: Progress {
            settings,
            limits,
            fs,
            now: 0,
            stage: match settings.role {
                Role::Call => Stage::CallAwaitS,
                Role::Answer => Stage::AnswerSendTraining,
            },
            status: Status::Running,
            deadline: None,
            stopped_at: "",
            md_until: None,
            md_waited: false,
            trn_symbols: (sevenths(settings.transmit.rate) / 7) as usize,
            rx_size: Size::Four,
            far_asked: None,
            phase3_snr: None,
            phase4_snr: None,
            ours: None,
            far_mp: None,
            far_acknowledged: false,
            far_e: false,
            sent_e: false,
        },
        source: Giving {
            segment: Segment::Silence,
            count: 0,
            queue: Seq::empty(),
            after_s_bar: Segment::Pp,
            size: Size::Four,
            pending: None,
            ask: Size::Sixteen,
            mp: Mp::nothing(),
            sending_acknowledged: false,
            acknowledged: 0,
            silent: 0,
            hold: 0,
            restart: false,
        },
        listening: Listened {
            size: Size::Four,
            trn: false,
            grace: 0,
            trn_symbols: 0,
            bits: Seq::empty(),
            j: None,
            mp_found: false,
            j_prime: false,
        },
        orders: Seq::empty(),
    };
    match settings.role {
        Role::Call => blank.order(Order::Hunt).wait(
            Some((blank.after(3100, 2), "no J from the answer modem")),
        ),
        Role::Answer => Standing {
            source: Giving {
                hold: silence_before_s(settings.transmit.rate, limits.lookahead as nat),
                pending: Some(Segment::S),
                ..blank.source
            },
            ..blank
        },
    }
}

/// A wait and the round trips on it are not too many samples.
proof fn lemma_after(s: Standing, ms: nat, trips: nat)
    requires
        s.sound(),
        ms <= 30000,
        trips <= 4,
    ensures
        samples(s.s.fs, ms) <= 0x1_ffff_ffff,
        0 <= trips * s.s.settings.round_trip <= 0x3_ffff_fffc,
        s.after(ms, trips) == s.s.now + samples(s.s.fs, ms) + trips * s.s.settings.round_trip,
{
    reveal(samples);
    let fs = s.s.fs;
    let trip = s.s.settings.round_trip;
    assert(0 <= ms * fs <= 30000 * 214_748_364) by (nonlinear_arith)
        requires
            ms <= 30000,
            fs <= 214_748_364,
    ;
    assert(0 <= trips * trip <= 4 * 0xffff_ffff) by (nonlinear_arith)
        requires
            trips <= 4,
            trip <= 0xffff_ffff,
    ;
}

impl Modem {
    /// Phase 3 from its start: for the answer modem the moment INFO1a has gone,
    /// for the call modem the moment it has arrived. Sixteen points are asked
    /// of the far end's phase 4.
    pub fn new(settings: Settings, limits: Limits, fs: u32) -> (modem: Modem)
        requires
            0 < fs <= FASTEST,
            1 <= limits.receive_ceiling,
        ensures
            modem@ == opened(settings, limits, fs),
            modem@.wf(),
    {
        let symbols: u32 = settings.transmit.baud_sevenths();
        let mut modem = Modem {
            state: Progress {
                settings,
                limits,
                fs,
                now: 0,
                stage: match settings.role {
                    Role::Call => Stage::CallAwaitS,
                    Role::Answer => Stage::AnswerSendTraining,
                },
                status: Status::Running,
                deadline: None,
                stopped_at: "",
                md_until: None,
                md_waited: false,
                trn_symbols: (symbols / 7) as usize,
                rx_size: Size::Four,
                far_asked: None,
                phase3_snr: None,
                phase4_snr: None,
                ours: None,
                far_mp: None,
                far_acknowledged: false,
                far_e: false,
                sent_e: false,
            },
            source: Source::new(Size::Sixteen),
            listening: Listening::new(),
            orders: Vec::new(),
        };
        match settings.role {
            Role::Call => {
                let at: u64 = modem.after(3100, 2);
                modem.order(Order::Hunt);
                modem.wait(Some((at, "no J from the answer modem")));
            },
            Role::Answer => {
                let silence: u32 = (symbols + 50) / 100;
                modem.source.hold = if silence >= limits.lookahead {
                    (silence - limits.lookahead) as usize
                } else {
                    0
                };
                modem.source.change(Segment::S);
            },
        }
        modem
    }

    /// The sample a time and so many round trips from now.
    fn after(&self, ms: u32, trips: u32) -> (at: u64)
        requires
            self@.sound(),
            ms <= 30000,
            trips <= 4,
        ensures
            at == self@.after(ms as nat, trips as nat),
    {
        proof {
            lemma_after(self@, ms as nat, trips as nat);
            reveal(samples);
        }
        let fs: u32 = self.state.fs;
        assert(0 <= ms * fs <= 30000 * 214_748_364) by (nonlinear_arith)
            requires
                ms <= 30000,
                fs <= 214_748_364,
        ;
        let wait: u64 = ((ms as u64) * (fs as u64) + 500) / 1000;
        self.state.now + wait + (trips as u64) * (self.state.settings.round_trip as u64)
    }

    fn order(&mut self, order: Order)
        ensures
            final(self)@ == old(self)@.order(order),
    {
        match order {
            Order::Train(Reference::PpThenTrn, _, _) => {
                self.state.rx_size = Size::Four;
            },
            Order::Train(Reference::Trn(size), _, _) => {
                self.state.rx_size = size;
            },
            Order::SetSize(size) => {
                self.state.rx_size = size;
            },
            _ => {},
        }
        self.orders.push(order);
    }

    fn wait(&mut self, deadline: Option<(u64, &'static str)>)
        ensures
            final(self)@ == old(self)@.wait(deadline),
    {
        self.state.deadline = deadline;
    }

    fn enter(&mut self, stage: Stage)
        ensures
            final(self)@ == old(self)@.enter(stage),
    {
        self.state.stage = stage;
    }

    fn fail(&mut self, why: &'static str)
        ensures
            final(self)@ == old(self)@.fail(why),
    {
        let stopped_at = self.state.stage.name();
        self.state = Progress {
            stopped_at,
            status: Status::Failed(why),
            stage: Stage::Finished,
            ..self.state
        };
        self.source.pending = None;
        self.source.start(Segment::Silence);
        self.order(Order::Idle);
    }

    /// The same from the sample that is being heard, which the next step counts.
    fn heard_after(&self, ms: u32, trips: u32) -> (at: u64)
        requires
            self@.sound(),
            ms <= 30000,
            trips <= 4,
        ensures
            at == self@.heard_after(ms as nat, trips as nat),
    {
        proof {
            lemma_after(self@, ms as nat, trips as nat);
        }
        self.after(ms, trips) + 1
    }

    fn far_mode(&self) -> (mode: Mode)
        ensures
            mode == far_mode(self.state.settings.role),
    {
        match self.state.settings.role {
            Role::Call => Mode::Answer,
            Role::Answer => Mode::Call,
        }
    }

    fn phase3_reversal(&mut self, at: u64)
        requires
            old(self)@.wf(),
            old(self).state.stage is CallAwaitS || old(self).state.stage is AnswerAwaitS,
        ensures
            final(self)@ == old(self)@.phase3_reversal(at),
            final(self)@.wf(),
    {
        if self.state.stage == Stage::AnswerAwaitS {
            self.source.change(Segment::Silence);
            self.wait(None);
        }
        if self.state.settings.far_md > 0 && !self.state.md_waited {
            let until: u64 = self.heard_after(35 * (self.state.settings.far_md as u32), 0);
            self.state = Progress { md_waited: true, md_until: Some(until), ..self.state };
            self.order(Order::Idle);
            return ;
        }
        let mode = self.far_mode();
        self.order(Order::Train(Reference::PpThenTrn, mode, at));
        if self.state.stage == Stage::CallAwaitS {
            self.enter(Stage::CallTraining);
        } else {
            self.enter(Stage::AnswerTraining);
        }
    }

    fn phase4_reversal(&mut self, at: u64)
        requires
            old(self)@.wf(),
            old(self).state.status is Running,
        ensures
            final(self)@ == old(self)@.phase4_reversal(at),
            final(self)@.wf(),
    {
        let deadline: u64 = if self.state.settings.far_cme {
            self.heard_after(30000, 0)
        } else {
            self.heard_after(2800, 3)
        };
        let mode = self.far_mode();
        let asked = self.source.ask;
        self.order(Order::Train(Reference::Trn(asked), mode, at));
        self.source.size = match self.state.far_asked {
            Some(size) => size,
            None => Size::Four,
        };
        self.source.after_s_bar = Segment::Trn;
        self.source.change(Segment::JPrime);
        self.enter(Stage::CallTraining4);
        self.wait(Some((deadline, "no E from the answer modem")));
    }

    /// The far end's S turned into S-bar at a sample.
    pub fn reversal(&mut self, at: u64)
        requires
            old(self)@.wf(),
        ensures
            final(self)@ == (if old(self).state.status is Running {
                old(self)@.reversal(at)
            } else {
                old(self)@
            }),
            final(self)@ == old(self)@.on_reversal(at),
            final(self)@.wf(),
    {
        match self.state.status {
            Status::Running => {},
            _ => {
                return ;
            },
        }
        match self.state.stage {
            Stage::CallAwaitS | Stage::AnswerAwaitS => self.phase3_reversal(at),
            Stage::CallAwaitS4 => self.phase4_reversal(at),
            _ => {},
        }
    }

    /// The receiver trained, to a signal to noise in hundredths of a decibel.
    pub fn trained(&mut self, snr: i32)
        requires
            old(self)@.wf(),
        ensures
            final(self)@ == (if old(self).state.status is Running {
                old(self)@.trained(snr)
            } else {
                old(self)@
            }),
            final(self)@ == old(self)@.on_trained(snr),
            final(self)@.wf(),
    {
        match self.state.status {
            Status::Running => {},
            _ => {
                return ;
            },
        }
        match self.state.stage {
            Stage::CallTraining => {
                self.state = Progress {
                    phase3_snr: Some(snr),
                    stage: Stage::CallAwaitJ,
                    ..self.state
                };
            },
            Stage::AnswerTraining => {
                let at: u64 = self.heard_after(2900, 2);
                self.state = Progress {
                    phase3_snr: Some(snr),
                    stage: Stage::AnswerAwaitJ,
                    deadline: Some((at, "no J from the call modem")),
                    ..self.state
                };
            },
            Stage::CallTraining4 => {
                self.state.phase4_snr = Some(snr);
            },
            _ => {},
        }
        let size = self.state.rx_size;
        self.listening.begin_trn(size);
    }

    /// The far end's training sequence did not train the receiver.
    pub fn untrained(&mut self)
        requires
            old(self)@.wf(),
        ensures
            final(self)@ == (if old(self).state.status is Running {
                old(self)@.fail("the far end's training sequence did not train this end")
            } else {
                old(self)@
            }),
            final(self)@ == old(self)@.on_untrained(),
            final(self)@.wf(),
    {
        match self.state.status {
            Status::Running => self.fail("the far end's training sequence did not train this end"),
            _ => {},
        }
    }

    fn asked_for(&mut self, size: Size)
        requires
            old(self)@.sound(),
            old(self).state.status is Running,
        ensures
            final(self)@ == old(self)@.asked_for(size),
            final(self)@.sound(),
            final(self).state.status is Running,
    {
        match self.state.stage {
            Stage::CallAwaitJ => {
                self.state.far_asked = Some(size);
                self.source.size = size;
                self.source.after_s_bar = Segment::Pp;
                self.source.change(Segment::S);
                self.order(Order::Hunt);
                self.wait(None);
                self.enter(Stage::CallSendTraining);
            },
            Stage::AnswerAwaitJ => {
                let at: u64 = if self.state.settings.far_cme {
                    self.heard_after(30000, 0)
                } else {
                    self.heard_after(2850, 4)
                };
                self.state.far_asked = Some(size);
                self.source.size = size;
                self.source.after_s_bar = Segment::Trn;
                self.source.change(Segment::S);
                self.enter(Stage::AnswerPhase4);
                self.wait(Some((at, "no E from the call modem")));
            },
            _ => {},
        }
    }

    fn event(&mut self, event: Event, snr: i32)
        requires
            old(self)@.sound(),
            old(self).state.status is Running,
        ensures
            final(self)@ == old(self)@.event(event, snr),
            final(self)@.sound(),
            final(self).state.status is Running,
    {
        match event {
            Event::J(size) => self.asked_for(size),
            Event::JPrime => {
                if self.state.stage == Stage::AnswerPhase4 {
                    let asked = self.source.ask;
                    self.order(Order::SetSize(asked));
                    self.listening.begin_trn(asked);
                }
            },
            Event::Mp(mp) => {
                let s = self.state;
                self.state = Progress {
                    phase4_snr: if s.far_mp.is_none() && s.phase4_snr.is_none() {
                        Some(snr)
                    } else {
                        s.phase4_snr
                    },
                    far_mp: Some(mp),
                    far_acknowledged: s.far_acknowledged || mp.acknowledge,
                    ..s
                };
            },
            Event::E => {
                self.state.far_e = true;
            },
        }
    }

    /// A symbol of the far end's, as the bits it reads as if it is TRN and as
    /// the bits it reads as if it is not, with the receiver's signal to noise
    /// in hundredths of a decibel. Whether it was taken for TRN.
    pub fn symbol(&mut self, trn_bits: &[bool], reads: &[Read], snr: i32) -> (trn: bool)
        requires
            old(self)@.wf(),
            old(self).listening.trn_symbols < usize::MAX,
        ensures
            old(self).state.status is Running ==> {
                &&& final(self)@ == old(self)@.symbol(trn_bits@, reads@, snr)
                &&& trn == old(self)@.listening.still_trn(trn_bits@)
            },
            !(old(self).state.status is Running) ==> final(self)@ == old(self)@ && !trn,
            final(self)@.wf(),
    {
        match self.state.status {
            Status::Running => {},
            _ => {
                return false;
            },
        }
        let ghost before = self@;
        let (events, trn) = self.listening.symbol(trn_bits, reads);
        let ghost listened = self@;
        let mut i: usize = 0;
        assert(events@.take(0) =~= Seq::empty());
        while i < events.len()
            invariant
                i <= events@.len(),
                self@.sound(),
                self.state.status is Running,
                self@ == listened.events(events@.take(i as int), snr),
            decreases events@.len() - i,
        {
            self.event(events[i], snr);
            i = i + 1;
            assert(events@.take(i as int).drop_last() =~= events@.take(i - 1));
        }
        assert(events@.take(i as int) =~= events@);
        proof {
            lemma_heard(before.listening, trn_bits@, reads@);
            lemma_events(listened, events@, snr);
        }
        trn
    }

    fn make_mp(&self, projected: u8) -> (mp: Mp)
        ensures
            mp == self@.made_mp(projected),
    {
        let s = &self.state.settings;
        let wanted: u8 = if projected < 1 {
            1
        } else {
            projected
        };
        let receive: u8 = if wanted < self.state.limits.receive_ceiling {
            wanted
        } else {
            self.state.limits.receive_ceiling
        };
        let transmit: u8 = self.state.limits.transmit_ceiling;
        let (up, down): (u8, u8) = match s.role {
            Role::Call => (transmit, receive),
            Role::Answer => (receive, transmit),
        };
        Mp {
            call_to_answer: if s.wide || up < 12 {
                up
            } else {
                12
            },
            answer_to_call: if s.wide || down < 12 {
                down
            } else {
                12
            },
            auxiliary: false,
            trellis: Trellis::States16,
            non_linear: false,
            expanded_shaping: false,
            acknowledge: false,
            rates: 0x3fff,
            asymmetric: true,
            precoding: None,
        }
    }

    fn send_mp(&mut self, projected: u8, stage: Stage)
        ensures
            final(self)@ == old(self)@.send_mp(projected, stage),
    {
        let ours = self.make_mp(projected);
        self.state = Progress { ours: Some(ours), stage, ..self.state };
        self.source.mp = ours;
        self.source.change(Segment::Mp);
    }

    fn enough_trn(&self, trained: bool, trips: u32) -> (enough: bool)
        requires
            self@.sound(),
            trips <= 1,
        ensures
            enough == self@.enough_trn(trained, trips as nat),
    {
        let sent: usize = if self.source.segment == Segment::Trn {
            self.source.count
        } else {
            0
        };
        let fs: u32 = self.state.fs;
        let trip: u32 = self.state.settings.round_trip;
        let symbols: u32 = self.state.settings.transmit.baud_sevenths();
        assert(0 <= sent * fs <= 0xffff_ffff_ffff_ffff * 0xffff_ffff) by (nonlinear_arith)
            requires
                0 <= sent <= 0xffff_ffff_ffff_ffff,
                0 <= fs <= 0xffff_ffff,
        ;
        assert(0 <= trips * trip <= 0xffff_ffff) by (nonlinear_arith)
            requires
                trips <= 1,
                0 <= trip <= 0xffff_ffff,
        ;
        let most: u128 = 2 * (fs as u128) + (trips as u128) * (trip as u128);
        assert(0 <= most * symbols <= 0x3_ffff_ffff * 24000) by (nonlinear_arith)
            requires
                0 <= most <= 0x3_ffff_ffff,
                0 <= symbols <= 24000,
        ;
        sent >= 512 && (trained || (sent as u128) * (fs as u128) * 7 >= most * (symbols as u128))
    }

    fn then_j(&mut self)
        ensures
            final(self)@ == old(self)@.then_j(),
    {
        if self.source.segment == Segment::Trn && self.source.count >= self.state.trn_symbols {
            self.source.change(Segment::J);
        }
    }

    fn send_training(&mut self)
        requires
            old(self)@.wf(),
            old(self).state.status is Running,
            old(self).state.stage is AnswerSendTraining || old(self).state.stage
                is CallSendTraining,
        ensures
            final(self)@ == old(self)@.sent_training(),
            final(self)@.wf(),
    {
        proof {
            reveal(Standing::sent_training);
        }
        self.then_j();
        if self.source.segment == Segment::J {
            let at: u64 = self.after(900, 1);
            if self.state.stage == Stage::AnswerSendTraining {
                self.order(Order::Hunt);
                self.wait(Some((at, "no S from the call modem")));
                self.enter(Stage::AnswerAwaitS);
            } else {
                self.wait(Some((at, "no S from the answer modem in phase 4")));
                self.enter(Stage::CallAwaitS4);
            }
        }
    }

    fn acknowledge(&mut self)
        requires
            old(self)@.wf(),
        ensures
            final(self)@ == old(self)@.acknowledging(),
            final(self)@.wf(),
            final(self).state == old(self).state,
    {
        proof {
            reveal(Standing::acknowledging);
        }
        if self.state.far_mp.is_some() && !self.source.mp.acknowledge {
            match self.state.ours {
                Some(ours) => {
                    self.source.mp = ours.acknowledged();
                },
                None => {},
            }
        }
    }

    fn end(&mut self)
        requires
            old(self)@.wf(),
            old(self).state.ours is Some,
        ensures
            final(self)@ == old(self)@.ending(),
            final(self)@.wf(),
            final(self).state.status == old(self).state.status,
    {
        proof {
            reveal(Standing::ending);
        }
        let s = self.state;
        if !s.sent_e && self.source.acknowledged >= 8 && (s.far_acknowledged || s.far_e) {
            self.source.change(Segment::E);
            self.state.sent_e = true;
        }
    }

    fn finish(&mut self)
        requires
            old(self)@.wf(),
        ensures
            final(self)@ == old(self)@.finishing(),
            final(self)@.wf(),
    {
        proof {
            reveal(Standing::finishing);
        }
        let s = self.state;
        let flushed = self.source.segment == Segment::Silence && self.source.silent as u64 > 2 * (
        s.limits.lookahead as u64);
        if s.sent_e && s.far_e && flushed {
            self.state = Progress {
                status: Status::Done,
                deadline: None,
                stage: Stage::Finished,
                ..s
            };
        }
    }

    fn pass_md(&mut self)
        requires
            old(self)@.wf(),
        ensures
            final(self)@ == old(self)@.md_passed(),
            final(self)@.wf(),
            final(self).state.stage == old(self).state.stage,
            final(self).state.status == old(self).state.status,
    {
        proof {
            reveal(Standing::md_passed);
        }
        match self.state.md_until {
            Some(until) => {
                if self.state.now >= until {
                    self.state.md_until = None;
                    self.order(Order::Hunt);
                }
            },
            None => {},
        }
    }

    fn call_training(&mut self, ear: Ear)
        requires
            old(self)@.wf(),
            old(self).state.status is Running,
        ensures
            final(self)@ == old(self)@.call_trained(ear),
            final(self)@.wf(),
    {
        proof {
            reveal(Standing::call_trained);
        }
        let trained = ear.trained && self.listening.trn_symbols >= 64;
        if self.enough_trn(trained, 0) {
            self.send_mp(ear.projected, Stage::CallMp);
        }
    }

    fn answer_training(&mut self, ear: Ear)
        requires
            old(self)@.wf(),
            old(self).state.status is Running,
        ensures
            final(self)@ == old(self)@.answer_trained(ear),
            final(self)@.wf(),
    {
        proof {
            reveal(Standing::answer_trained);
        }
        let symbols: u128 = (self.listening.trn_symbols as u128) + (self.listening.grace as u128);
        let heard = self.listening.j_prime && symbols >= 512;
        if self.enough_trn(heard, 1) {
            self.send_mp(ear.projected, Stage::AnswerMp);
        }
    }

    fn stage_step(&mut self, ear: Ear)
        requires
            old(self)@.wf(),
            old(self).state.status is Running,
        ensures
            final(self)@ == old(self)@.stage_step(ear),
            final(self)@.wf(),
    {
        proof {
            reveal(Standing::stage_step);
        }
        self.pass_md();
        match self.state.stage {
            Stage::AnswerSendTraining | Stage::CallSendTraining => self.send_training(),
            Stage::CallTraining4 => self.call_training(ear),
            Stage::AnswerPhase4 => self.answer_training(ear),
            Stage::CallMp | Stage::AnswerMp => {
                self.acknowledge();
                self.end();
                self.finish();
            },
            _ => {},
        }
    }

    /// Carry phases 3 and 4 one sample further, once what was heard has been
    /// said.
    pub fn step(&mut self, ear: Ear)
        requires
            old(self)@.wf(),
            old(self).state.now < 0x7fff_ffff_ffff_ffff,
        ensures
            final(self)@ == old(self)@.step(ear),
            final(self)@.wf(),
    {
        self.state.now = self.state.now + 1;
        match self.state.status {
            Status::Running => {},
            _ => {
                return ;
            },
        }
        match self.state.deadline {
            Some((at, why)) => {
                if self.state.now > at {
                    self.fail(why);
                    return ;
                }
            },
            None => {},
        }
        self.stage_step(ear);
    }

    /// The orders given to the receiver since they were last taken, in order.
    pub fn take_orders(&mut self) -> (orders: Vec<Order>)
        ensures
            orders@ == old(self)@.orders,
            final(self)@ == (Standing { orders: Seq::empty(), ..old(self)@ }),
    {
        let mut orders: Vec<Order> = Vec::new();
        std::mem::swap(&mut orders, &mut self.orders);
        orders
    }

    /// The data rates each way, as multiples of 2400 bit/s -- this end's
    /// transmitter's and its receiver's -- once both MPs are known.
    pub fn rates(&self) -> (rates: Option<(u8, u8)>)
        ensures
            rates is Some == (self.state.far_mp is Some && self.state.ours is Some),
            rates matches Some((transmit, receive)) ==> (transmit as nat, receive as nat)
                == self@.settled_rates(),
    {
        match (self.state.far_mp, self.state.ours) {
            (Some(far), Some(ours)) => match self.state.settings.role {
                Role::Call => Some(negotiate(&ours, &far)),
                Role::Answer => {
                    let (up, down): (u8, u8) = negotiate(&far, &ours);
                    Some((down, up))
                },
            },
            _ => None,
        }
    }

    /// The next symbol for the transmitter, with the bits of the MP going out.
    pub fn next(&mut self, mp_bits: &[bool]) -> (next: Next)
        requires
            old(self)@.wf(),
            old(self).source.count < usize::MAX,
            old(self).source.silent < usize::MAX,
            old(self).source.acknowledged < usize::MAX - 3,
        ensures
            (next.symbol, final(self)@.source) == old(self)@.source.settled().give(mp_bits@),
            next.restart == old(self)@.source.settled().restart,
            final(self)@ == (Standing { source: final(self)@.source, ..old(self)@ }),
            final(self)@.wf(),
    {
        self.source.next(mp_bits)
    }

    pub fn settings(&self) -> (settings: Settings)
        ensures
            settings == self@.s.settings,
    {
        self.state.settings
    }

    pub fn status(&self) -> (status: Status)
        ensures
            status == self@.s.status,
    {
        self.state.status
    }

    /// What it is doing, or was doing when it gave up.
    pub fn phase(&self) -> (phase: &'static str)
        ensures
            phase == (if self@.s.status is Failed {
                self@.s.stopped_at
            } else {
                self@.s.stage.named()
            }),
    {
        match self.state.status {
            Status::Failed(_) => self.state.stopped_at,
            _ => self.state.stage.name(),
        }
    }

    /// The constellation the far end's J asked this end to train it with.
    pub fn far_asked(&self) -> (size: Option<Size>)
        ensures
            size == self@.s.far_asked,
    {
        self.state.far_asked
    }

    /// What this end's J asks for.
    pub fn asked(&self) -> (size: Size)
        ensures
            size == self@.source.ask,
    {
        self.source.ask
    }

    /// Signal to noise this end's receiver trained to in each phase, in
    /// hundredths of a decibel.
    pub fn phase3_snr(&self) -> (snr: Option<i32>)
        ensures
            snr == self@.s.phase3_snr,
    {
        self.state.phase3_snr
    }

    pub fn phase4_snr(&self) -> (snr: Option<i32>)
        ensures
            snr == self@.s.phase4_snr,
    {
        self.state.phase4_snr
    }

    /// The MP this end sends, once it has been made.
    pub fn our_mp(&self) -> (mp: Option<Mp>)
        ensures
            mp == self@.s.ours,
    {
        self.state.ours
    }

    pub fn far_mp(&self) -> (mp: Option<Mp>)
        ensures
            mp == self@.s.far_mp,
    {
        self.state.far_mp
    }
}

/// Training that has ended, well or badly, stays as it ended.
pub proof fn an_ended_training_stays_ended(s: Standing, ear: Ear)
    requires
        !(s.s.status is Running),
    ensures
        s.step(ear).s.status == s.s.status,
        s.step(ear).s.stage == s.s.stage,
        s.step(ear).source == s.source,
{
}

/// A step past the deadline is a failure, said with the deadline's reason, and
/// silence is what goes out after it.
pub proof fn training_gives_up(s: Standing, ear: Ear, at: u64, why: &'static str)
    requires
        s.wf(),
        s.s.status is Running,
        s.s.deadline == Some((at, why)),
        at <= s.s.now,
    ensures
        s.step(ear).s.status == Status::Failed(why),
        s.step(ear).s.stopped_at == s.s.stage.named(),
        s.step(ear).source.segment is Silence,
        s.step(ear).source.pending is None,
        s.step(ear).orders.last() == Order::Idle,
{
}

/// When training is done both ends have ended their MPs, so both MPs are known
/// and the rates are settled.
pub proof fn what_is_done_has_its_rates(s: Standing)
    requires
        s.wf(),
        s.s.status is Done,
    ensures
        s.s.sent_e,
        s.s.far_e,
        s.s.ours is Some,
        s.s.far_mp is Some,
{
}

/// The two ends of a call settle the same rates: what one transmits at, the
/// other receives at.
pub proof fn the_ends_settle_the_same_rates(call: Standing, answer: Standing)
    requires
        call.s.settings.role is Call,
        answer.s.settings.role is Answer,
        call.s.ours is Some,
        answer.s.ours is Some,
        call.s.far_mp == answer.s.ours,
        answer.s.far_mp == call.s.ours,
    ensures
        call.settled_rates().0 == answer.settled_rates().1,
        call.settled_rates().1 == answer.settled_rates().0,
{
}

/// The MP an end makes never asks for more than the receiver's ceiling, nor for
/// a rate above 28 800 bit/s without the wide constellation, and enables every
/// rate.
pub proof fn an_mp_stays_within_the_limits(s: Standing, projected: u8)
    requires
        s.wf(),
    ensures
        ({
            let mp = s.made_mp(projected);
            let receive = if s.s.settings.role is Call {
                mp.answer_to_call
            } else {
                mp.call_to_answer
            };
            &&& 1 <= receive <= s.s.limits.receive_ceiling
            &&& !s.s.settings.wide ==> mp.call_to_answer <= 12 && mp.answer_to_call <= 12
            &&& forall|rate: int| 1 <= rate <= 14 ==> #[trigger] enabled(mp.rates, rate)
        }),
{
    assert forall|rate: int| 1 <= rate <= 14 implies #[trigger] enabled(0x3fffu16, rate) by {
        let shift: u16 = (rate - 1) as u16;
        assert((0x3fffu16 >> shift) & 1u16 == 1u16) by (bit_vector)
            requires
                shift < 14,
        ;
    }
}

} // verus!
