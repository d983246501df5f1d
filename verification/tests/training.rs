//! Phases 3 and 4: two ends on a line that carries symbols, and what each piece of
//! them does.

use softmodem::v34::info::{Info0, SymbolRate};
use softmodem::v34::info1::{Info1a, Info1c, Probed};
use softmodem::v34::listening::{Event, Found, Listening, Read};
use softmodem::v34::mp::{negotiate, Mp};
use softmodem::v34::phase2::Role;
use softmodem::v34::receiver::Reference;
use softmodem::v34::signals::{Size, J_FOUR, J_PRIME, J_SIXTEEN, PP_SYMBOLS, S_BAR_SYMBOLS, S_SYMBOLS};
use softmodem::v34::source::{Segment, Source, Symbol};
use softmodem::v34::training::{Band, Ear, Limits, Modem, Order, Settings, Stage, Status};
use std::collections::VecDeque;

const FS: u32 = 8000;

/// The bits of an MP, which only whoever frames them could tell apart.
const MP_BITS: [bool; 8] = [true, false, false, true, false, true, true, false];

fn settings(role: Role, round_trip: f64) -> Settings {
    let far = Info0 { constellation_1664: true, ..Info0::default() };
    let probed = Probed { high_carrier: false, pre_emphasis: 2, max_rate: 14 };
    let info1c = Info1c { probed: [probed; 6], ..Info1c::default() };
    let info1a = Info1a {
        min_power_reduction: 0,
        additional_power_reduction: 0,
        md_length: 0,
        probed: Probed { high_carrier: false, pre_emphasis: 1, max_rate: 14 },
        answer_to_call: SymbolRate::S3429,
        call_to_answer: SymbolRate::S3200,
        frequency_offset: None,
    };
    Settings::new(role, &far, &info1c, &info1a, (round_trip * f64::from(FS)) as u32, true)
}

fn limits(role: Role) -> Limits {
    match role {
        Role::Call => Limits { lookahead: 6, transmit_ceiling: 13, receive_ceiling: 14 },
        Role::Answer => Limits { lookahead: 6, transmit_ceiling: 14, receive_ceiling: 13 },
    }
}

/// A symbol on the line, and the sequence of phase 4 that it completes.
type Carried = (Symbol, Option<Found>);

/// One end: the modem, its transmitter's clock, and a receiver that trains.
struct End {
    modem: Modem,
    clock: u32,
    hunting: bool,
    training: Option<Reference>,
    trained: bool,
    trn_heard: u32,
    last: Symbol,
}

impl End {
    fn new(role: Role, round_trip: f64) -> End {
        End {
            modem: Modem::new(settings(role, round_trip), limits(role), FS),
            clock: 0,
            hunting: false,
            training: None,
            trained: false,
            trn_heard: 0,
            last: Symbol::Nothing,
        }
    }

    fn follow_orders(&mut self) {
        for order in self.modem.take_orders() {
            match order {
                Order::Hunt => self.hunting = true,
                Order::Idle => {
                    self.hunting = false;
                    self.training = None;
                }
                Order::Train(reference, _, _) => {
                    self.hunting = false;
                    self.training = Some(reference);
                    self.trained = false;
                    self.trn_heard = 0;
                }
                Order::SetSize(_) => {}
            }
        }
    }

    /// A symbol of the far end's.
    fn hear(&mut self, carried: Carried) {
        let (symbol, found) = carried;
        let turned = matches!((self.last, symbol), (Symbol::S(_), Symbol::SBar(_)));
        self.last = symbol;
        if self.hunting && turned {
            let now = self.modem.state.now;
            self.modem.reversal(now);
            self.follow_orders();
            return;
        }
        if self.training.is_some() {
            self.trn_heard += u32::from(matches!(symbol, Symbol::Trn(_)));
            if self.trn_heard > 300 {
                self.training = None;
                self.trained = true;
                self.modem.trained(3600);
                self.follow_orders();
            }
            return;
        }
        if self.trained {
            let trn_bits = [matches!(symbol, Symbol::Trn(_)); 4];
            let reads = match symbol {
                Symbol::Differential((a, b, c, d), size) => {
                    let mut reads: Vec<Read> = [a, b, c, d][..size.bits()]
                        .iter()
                        .map(|&bit| Read { bit, found: None })
                        .collect();
                    reads.last_mut().unwrap().found = found;
                    reads
                }
                _ => Vec::new(),
            };
            self.modem.symbol(&trn_bits, &reads, 3500);
            self.follow_orders();
        }
    }

    /// One sample: the symbol that goes out at it, if one does.
    fn step(&mut self) -> Option<Carried> {
        self.modem.step(Ear { trained: self.trained, projected: 14 });
        self.follow_orders();
        self.clock += self.modem.settings().transmit.baud_sevenths();
        if self.clock < 7 * FS {
            return None;
        }
        self.clock -= 7 * FS;
        let next = self.modem.next(&MP_BITS);
        let source = &self.modem.source;
        let found = if !source.queue.is_empty() {
            None
        } else if source.segment == Segment::Mp {
            Some(Found::Mp(Mp { acknowledge: source.sending_acknowledged, ..source.mp }))
        } else if source.segment == Segment::E {
            Some(Found::E)
        } else {
            None
        };
        Some((next.symbol, found))
    }
}

/// Two ends of phases 3 and 4 on a line with a delay each way.
fn call(one_way: f64, seconds: f64) -> (Modem, Modem) {
    let delay = (one_way * f64::from(FS)) as usize;
    let mut caller = End::new(Role::Call, 2.0 * one_way);
    let mut answerer = End::new(Role::Answer, 2.0 * one_way);
    caller.follow_orders();
    answerer.follow_orders();
    let mut to_answer: VecDeque<Option<Carried>> = std::iter::repeat_n(None, delay.max(1)).collect();
    let mut to_call: VecDeque<Option<Carried>> = std::iter::repeat_n(None, delay.max(1)).collect();
    for _ in 0..(seconds * f64::from(FS)) as usize {
        if let Some(carried) = to_call.pop_front().unwrap() {
            caller.hear(carried);
        }
        if let Some(carried) = to_answer.pop_front().unwrap() {
            answerer.hear(carried);
        }
        to_answer.push_back(caller.step());
        to_call.push_back(answerer.step());
        if caller.modem.status() != Status::Running && answerer.modem.status() != Status::Running {
            break;
        }
    }
    (caller.modem, answerer.modem)
}

fn check_done(caller: &Modem, answerer: &Modem) {
    assert_eq!(caller.status(), Status::Done, "call modem stuck at {}", caller.phase());
    assert_eq!(answerer.status(), Status::Done, "answer modem stuck at {}", answerer.phase());
    let (call_tx, call_rx) = caller.rates().unwrap();
    let (answer_tx, answer_rx) = answerer.rates().unwrap();
    assert_eq!((call_tx, call_rx), (answer_rx, answer_tx));
    for m in [caller, answerer] {
        assert_eq!(m.phase3_snr(), Some(3600));
        assert!(m.phase4_snr().is_some());
        assert!(m.our_mp().is_some() && m.far_mp().is_some());
        assert_eq!(m.far_asked(), Some(m.asked()), "both ends ask for the same");
    }
}

#[test]
fn two_ends_train_and_exchange_mp_on_a_short_line() {
    let (caller, answerer) = call(0.010, 12.0);
    check_done(&caller, &answerer);
    let (call_tx, call_rx) = caller.rates().unwrap();
    assert_eq!(call_tx, 13, "call to answer at 3200 symbols a second");
    assert_eq!(call_rx, 14, "answer to call at 3429");
}

#[test]
fn a_voip_round_trip_is_survived() {
    let (caller, answerer) = call(0.580, 25.0);
    check_done(&caller, &answerer);
}

#[test]
fn a_far_end_that_never_speaks_is_given_up_on() {
    let deaf = Ear { trained: false, projected: 1 };
    let mut caller = Modem::new(settings(Role::Call, 1.0), limits(Role::Call), FS);
    for _ in 0..6 * FS {
        caller.step(deaf);
    }
    assert_eq!(caller.status(), Status::Failed("no J from the answer modem"));
    let mut answerer = End::new(Role::Answer, 1.0);
    for _ in 0..4 * FS {
        answerer.step();
    }
    assert_eq!(answerer.modem.status(), Status::Failed("no S from the call modem"));
    assert_eq!(answerer.modem.phase(), "V.34 phase 3: listening for S", "where it had got to");
}

#[test]
fn rates_follow_both_ends_limits() {
    let call = Mp { call_to_answer: 14, answer_to_call: 10, rates: Mp::rates_up_to(14), asymmetric: true, ..Mp::default() };
    let answer = Mp { call_to_answer: 12, answer_to_call: 14, rates: Mp::rates_up_to(14) & !(1 << 11), asymmetric: true, ..Mp::default() };
    // 12 is not enabled at the answer end, so call to answer steps down to
    // 11; answer to call is the call end's limit of 10.
    assert_eq!(negotiate(&call, &answer), (11, 10));
    let symmetric = Mp { asymmetric: false, ..answer };
    assert_eq!(negotiate(&call, &symmetric), (10, 10));
}

#[test]
fn nothing_enabled_in_common_is_no_rate() {
    let call = Mp { call_to_answer: 14, answer_to_call: 14, rates: 1, asymmetric: true, ..Mp::default() };
    let answer = Mp { rates: 2, ..call };
    assert_eq!(negotiate(&call, &answer), (0, 0));
    assert!(call.acknowledged().acknowledge);
}

#[test]
fn a_band_counts_its_symbols_by_the_seven_seconds() {
    for (rate, sevenths) in [(SymbolRate::S2400, 16_800), (SymbolRate::S3429, 24_000), (SymbolRate::S2743, 19_200)] {
        assert_eq!(Band::new(rate, false).baud_sevenths(), sevenths);
    }
}

#[test]
fn a_source_gives_its_segments_at_their_lengths() {
    let mut source = Source::new(Size::Sixteen);
    assert_eq!(source.next(&[]).symbol, Symbol::Nothing);
    source.start(Segment::S);
    for n in 0..S_SYMBOLS {
        assert_eq!(source.next(&[]).symbol, Symbol::S(n));
    }
    for n in 0..S_BAR_SYMBOLS {
        assert_eq!(source.next(&[]).symbol, Symbol::SBar(n));
    }
    for n in 0..PP_SYMBOLS {
        assert_eq!(source.next(&[]).symbol, Symbol::Pp(n));
    }
    let first = source.next(&[]);
    assert_eq!(first.symbol, Symbol::Trn(Size::Four));
    assert!(first.restart, "the scrambler is set to zero before TRN");
    assert!(!source.next(&[]).restart);
    // J goes out whole however soon a change is asked for.
    source.change(Segment::J);
    let mut bits = Vec::new();
    for n in 0..8 {
        match source.next(&[]).symbol {
            Symbol::Differential((a, b, _, _), Size::Four) => bits.extend([a, b]),
            other => panic!("symbol {n} of J is {other:?}"),
        }
        source.change(Segment::JPrime);
    }
    assert_eq!(bits, J_SIXTEEN);
    let mut bits = Vec::new();
    for _ in 0..8 {
        if let Symbol::Differential((a, b, _, _), _) = source.next(&[]).symbol {
            bits.extend([a, b]);
        }
    }
    assert_eq!(bits, J_PRIME);
    assert!(matches!(source.next(&[]).symbol, Symbol::Trn(_)), "TRN follows J'");
}

#[test]
fn j_is_heard_once_it_has_come_twice_and_closed_by_j_prime() {
    let mut listening = Listening::new();
    listening.begin_trn(Size::Four);
    for _ in 0..100 {
        let (events, trn) = listening.symbol(&[true, true], &[]);
        assert!(events.is_empty() && trn);
    }
    let mut heard = Vec::new();
    let stream: Vec<bool> = [J_FOUR, J_FOUR, J_FOUR, J_PRIME].concat();
    for (n, pair) in stream.chunks(2).enumerate() {
        let reads: Vec<Read> = pair.iter().map(|&bit| Read { bit, found: None }).collect();
        let (events, trn) = listening.symbol(&[false, true], &reads);
        assert!(!trn);
        heard.extend(events.into_iter().map(|e| (n, e)));
    }
    assert_eq!(heard, vec![(15, Event::J(Size::Four)), (31, Event::JPrime)]);
}

#[test]
fn an_end_is_believed_only_behind_an_mp() {
    let mut listening = Listening::new();
    let one = |found| [Read { bit: true, found }];
    assert!(listening.symbol(&[false], &one(Some(Found::E))).0.is_empty());
    let mp = Mp { rates: 7, ..Mp::default() };
    assert_eq!(listening.symbol(&[false], &one(Some(Found::Mp(mp)))).0, vec![Event::Mp(mp)]);
    assert_eq!(listening.symbol(&[false], &one(Some(Found::E))).0, vec![Event::E]);
}

#[test]
fn a_sequence_that_does_not_train_ends_the_start_up() {
    let why = "the far end's training sequence did not train this end";
    let mut caller = Modem::new(settings(Role::Call, 0.1), limits(Role::Call), FS);
    caller.step(Ear { trained: false, projected: 1 });
    caller.untrained();
    assert_eq!(caller.status(), Status::Failed(why));
}

#[test]
fn a_wait_is_counted_from_the_sample_that_is_heard() {
    // Heard between two steps is heard at the sample that the next one counts.
    let mut s = settings(Role::Call, 0.1);
    s.far_md = 2;
    let mut caller = Modem::new(s, limits(Role::Call), FS);
    for _ in 0..10 {
        caller.step(Ear { trained: false, projected: 1 });
    }
    assert_eq!(caller.state.now, 10);
    caller.reversal(0);
    assert_eq!(caller.state.md_until, Some(11 + 560), "two of MD's 35 ms");
    let mut answerer = End::new(Role::Answer, 0.1);
    answerer.modem.state.stage = Stage::AnswerTraining;
    answerer.modem.trained(3000);
    assert_eq!(
        answerer.modem.state.deadline,
        Some((1 + 23200 + 2 * 800, "no J from the call modem")),
        "2.9 s and two round trips"
    );
    // The wait is over on the sample it names, and the deadline is past on the next.
    let (at, why) = answerer.modem.state.deadline.unwrap();
    while answerer.modem.state.now < at {
        answerer.modem.step(Ear { trained: false, projected: 1 });
        assert_eq!(answerer.modem.status(), Status::Running);
    }
    answerer.modem.step(Ear { trained: false, projected: 1 });
    assert_eq!(answerer.modem.status(), Status::Failed(why));
}
