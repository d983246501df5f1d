//! V.8 between two ends on a line that carries messages at 300 bit/s.

use softmodem::v8::{
    CallFunction, Ear, Heard, Menu, Modem, Modulation, Modulations, Order, Outgoing, Role, State, Status, BAUD, CJ, HIGH,
    LOW,
};

const FS: u32 = 16_000;

fn all() -> Modulations {
    Modulations::of(&[Modulation::V32bis, Modulation::V22bis, Modulation::V21])
}

/// One end, with the transmitter that sends what it orders.
struct End {
    modem: Modem,
    outgoing: Outgoing,
    message: Option<Heard>,
    pending: usize,
    clock: u32,
    /// Samples of ANSam heard from the far end.
    tone: u32,
    spoke: bool,
}

impl End {
    fn new(role: Role, ours: Modulations) -> End {
        End {
            modem: Modem::new(role, CallFunction::Data, ours, FS),
            outgoing: Outgoing::new(),
            message: None,
            pending: 0,
            clock: 0,
            tone: 0,
            spoke: false,
        }
    }

    /// One sample: whether the answering tone goes out, and the message completed.
    fn step(&mut self, heard: Option<Heard>, tone: bool, plain: bool) -> (bool, Option<Heard>) {
        if tone {
            self.tone += 1;
        }
        let ear = Ear { ansam: self.tone > FS / 2, plain };
        let clear = self.outgoing.is_clear(self.pending);
        let (order, sounding) = self.modem.step(heard, ear, clear);
        match order {
            Order::Nothing => {}
            // Which channel carries a menu says whether it is a call menu or a
            // joint one; the octets are the same.
            Order::Cm(menu) | Order::Jm(menu) => {
                self.message = Some(Heard::Cm(menu));
                self.outgoing.send(&[0xe0, 1, 2, 3, 4]);
            }
            Order::Cj => {
                self.message = Some(Heard::Cj);
                self.outgoing.send(&CJ);
            }
            Order::Quiet => self.outgoing.quiet(),
        }
        if let Some(bits) = self.outgoing.next(self.pending) {
            assert_eq!(bits.len(), 10);
            self.pending = bits.len();
        }
        self.spoke = self.spoke || self.pending > 0 || sounding.is_some();
        self.clock += BAUD;
        let mut said = None;
        if self.clock >= FS {
            self.clock -= FS;
            if self.pending > 0 {
                self.pending -= 1;
                if self.pending == 0 && self.outgoing.is_clear(0) {
                    said = self.message;
                }
            }
        }
        (sounding.is_some(), said)
    }
}

/// Run the two ends against each other over a clean line.
fn negotiate(ours: Modulations, theirs: Modulations, seconds: f64) -> (Status, Status) {
    let mut calling = End::new(Role::Calling, ours);
    let mut answering = End::new(Role::Answering, theirs);
    let (mut tone, mut to_calling, mut to_answering) = (false, None, None);
    for _ in 0..(seconds * f64::from(FS)) as usize {
        let (_, from_calling) = calling.step(to_calling, tone, false);
        let (sounding, from_answering) = answering.step(to_answering, false, false);
        tone = sounding;
        to_calling = from_answering;
        to_answering = from_calling;
    }
    (calling.modem.status(), answering.modem.status())
}

#[test]
fn the_two_channels_are_the_ones_v21_defines() {
    // Channel 1 is 1180 Hz and 980 Hz; channel 2 is 1850 Hz and 1650 Hz. The
    // calling modem sends in the low channel and the answering modem in the
    // high one, so each hears the other's.
    assert_eq!(LOW, (1180, 980));
    assert_eq!(HIGH, (1850, 1650));
    assert_eq!(Role::Calling.transmit_tones(), LOW);
    assert_eq!(Role::Calling.receive_tones(), HIGH);
    assert_eq!(Role::Answering.transmit_tones(), HIGH);
    assert_eq!(Role::Answering.receive_tones(), LOW);
}

#[test]
fn two_modems_agree_on_the_fastest_thing_they_share() {
    let (calling, answering) = negotiate(all(), all(), 12.0);
    assert_eq!(calling, Status::Agreed(Modulation::V32bis));
    assert_eq!(answering, Status::Agreed(Modulation::V32bis));
}

#[test]
fn the_answer_is_what_both_ends_have_and_not_what_one_wants() {
    // The whole point. A calling modem that can do V.32bis and an answering
    // modem that cannot must come out at V.22bis, and both must come out at
    // the same place.
    let ours = Modulations::of(&[Modulation::V32bis, Modulation::V22bis]);
    let theirs = Modulations::of(&[Modulation::V22bis, Modulation::V21]);
    let (calling, answering) = negotiate(ours, theirs, 12.0);
    assert_eq!(calling, Status::Agreed(Modulation::V22bis));
    assert_eq!(answering, Status::Agreed(Modulation::V22bis));
}

#[test]
fn nothing_in_common_is_found_out_rather_than_waited_through() {
    let (calling, answering) = negotiate(
        Modulations::of(&[Modulation::V32bis]),
        Modulations::of(&[Modulation::V21]),
        14.0,
    );
    assert_eq!(calling, Status::Failed);
    assert_eq!(answering, Status::Failed);
}

#[test]
fn a_far_end_that_only_sends_the_plain_tone_is_not_negotiated_with() {
    let mut calling = End::new(Role::Calling, all());
    for _ in 0..FS * 6 {
        calling.step(None, false, true);
    }
    assert_eq!(calling.modem.status(), Status::NoNegotiation);
    assert!(!calling.spoke, "answered a modem that cannot hear it");
}

#[test]
fn a_calling_modem_says_nothing_until_it_is_answered() {
    let mut calling = End::new(Role::Calling, all());
    for _ in 0..FS * 3 {
        calling.step(None, false, false);
    }
    assert!(!calling.spoke, "transmitted into a silent line");
    assert_eq!(calling.modem.phase(), "listening for an answer");
}

#[test]
fn an_answering_modem_waits_before_it_speaks() {
    let mut answering = End::new(Role::Answering, all());
    for _ in 0..FS * 19 / 100 {
        answering.step(None, false, false);
    }
    assert!(!answering.spoke, "spoke before the line had settled");
    for _ in 0..FS * 3 / 10 {
        answering.step(None, false, false);
    }
    assert!(answering.spoke, "never sent an answering tone");
    assert_eq!(answering.modem.phase(), "ANSam");
}

#[test]
fn what_the_answering_modem_sends_is_ansam_and_not_ans() {
    // ANSam's phase reverses every 450 ms, which the plain tone's need not.
    let mut answering = Modem::new(Role::Answering, CallFunction::Data, all(), FS);
    let quiet = Ear { ansam: false, plain: false };
    let mut phases = Vec::new();
    for _ in 0..FS * 4 {
        phases.extend(answering.step(None, quiet, true).1);
    }
    assert!(phases.len() > 3 * FS as usize, "no answering tone at all");
    let flips: Vec<usize> = (1..phases.len()).filter(|&i| phases[i] != phases[i - 1]).collect();
    assert!(!phases[0]);
    assert_eq!(flips, (1..9).map(|k| k * 7200 - 1).collect::<Vec<_>>());
}

#[test]
fn an_unanswered_ansam_ends_without_negotiation() {
    let mut answering = End::new(Role::Answering, all());
    for _ in 0..FS * 6 {
        answering.step(None, false, false);
    }
    assert_eq!(answering.modem.status(), Status::NoNegotiation);
    assert_eq!(answering.modem.phase(), "done");
    assert_eq!(answering.modem.chosen(), None);
}

#[test]
fn a_calling_modem_does_not_wait_for_ever() {
    let mut calling = End::new(Role::Calling, all());
    for _ in 0..FS * 60 {
        calling.step(None, false, false);
    }
    assert_eq!(calling.modem.status(), Status::Negotiating);
    calling.step(None, false, false);
    assert_eq!(calling.modem.status(), Status::Failed);
}

#[test]
fn one_menu_alone_is_not_believed() {
    let mut answering = Modem::new(Role::Answering, CallFunction::Data, all(), FS);
    let quiet = Ear { ansam: false, plain: false };
    for _ in 0..FS {
        answering.step(None, quiet, true);
    }
    let menu = |modulation| Menu { function: CallFunction::Data, modulations: Modulations::of(&[modulation]) };
    let (first, second) = (menu(Modulation::V21), menu(Modulation::V22bis));
    for heard in [Heard::Cm(first), Heard::Cm(second), Heard::Ci(CallFunction::Data), Heard::Jm(second)] {
        assert_eq!(answering.step(Some(heard), quiet, true).0, Order::Nothing);
    }
    assert_eq!(answering.step(Some(Heard::Cm(second)), quiet, true).0, Order::Jm(second));
    assert_eq!(answering.chosen(), Some(Modulation::V22bis));
}

#[test]
fn a_joint_menu_is_the_intersection() {
    let ours = Menu { function: CallFunction::Textphone, modulations: all() };
    let mut theirs = Modulations::none();
    theirs.insert(Modulation::V34);
    theirs.insert(Modulation::V21);
    let joint = ours.joint(theirs);
    assert_eq!(joint.function, CallFunction::Textphone);
    assert_eq!(joint.modulations, Modulations::of(&[Modulation::V21]));
    assert_eq!(joint.chosen(), Some(Modulation::V21));
    assert_eq!(ours.joint(Modulations::none()).chosen(), None);
}

#[test]
fn a_handover_that_is_over_agrees_on_what_was_chosen() {
    let deaf = Ear { ansam: false, plain: false };
    let ours = Modulations::of(&[Modulation::V34]);
    let fresh = Modem::new(Role::Calling, CallFunction::Data, ours, 8000);
    for (chosen, expected) in [
        (Some(Modulation::V22bis), Status::Agreed(Modulation::V22bis)),
        (None, Status::Failed),
    ] {
        let mut modem = Modem { state: State::Handover, elapsed: 599, total: 599, chosen, ..fresh };
        assert_eq!(modem.advance(deaf, true), Order::Nothing);
        assert_eq!(modem.status(), Status::Negotiating, "75 ms are 600 samples");
        modem.step(None, deaf, true);
        assert_eq!(modem.status(), expected);
        assert_eq!(modem.chosen(), chosen);
        let ended = modem;
        modem.advance(deaf, true);
        assert_eq!(modem, ended);
    }
    let mut late = Modem { state: State::Listening, elapsed: 480_001, total: 480_001, ..fresh };
    late.advance(Ear { ansam: true, plain: false }, true);
    assert_eq!(late.status(), Status::Failed);
}
