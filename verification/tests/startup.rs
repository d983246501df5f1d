//! The whole start-up: two ends from INFO0 to E on a line with a delay, the line's
//! detectors taken as right.

use softmodem::v34::dpsk::{Receiver, SPAN};
use softmodem::v34::info::SymbolRate;
use softmodem::v34::info1::Probed;
use softmodem::v34::listening::{Found, Read};
use softmodem::v34::mp::Mp;
use softmodem::v34::phase2::{Heard, Line as Out, Reading, Role};
use softmodem::v34::receiver::Reference;
use softmodem::v34::signals::Size;
use softmodem::v34::source::{Segment, Symbol};
use softmodem::v34::startup::{Front, Modem, Status};
use softmodem::v34::training::{Ear, Order};
use std::collections::VecDeque;

const FS: u32 = 8000;
const FRONT: Front = Front { lookahead: 6, ceilings: [9, 11, 11, 12, 13, 14] };
const MP_BITS: [bool; 8] = [true, false, false, true, false, true, true, false];

/// What one end puts on the line at a sample.
#[derive(Clone, Copy)]
enum Sample {
    /// Phase 2: what it says, the point a symbol has just come to, and whether the
    /// carrier turned under a steady tone.
    Phase2(Out, Option<i8>, bool),
    /// Phases 3 and 4: the symbol that goes out at the sample, if one does, and the
    /// sequence of phase 4 that it completes.
    Training(Option<(Symbol, Option<Found>)>),
}

const NOTHING: Sample = Sample::Phase2(Out::Silence, None, false);

fn reading() -> Reading {
    let probed = [9u8, 11, 11, 12, 13, 14].map(|max_rate| Probed {
        high_carrier: false,
        pre_emphasis: 0,
        max_rate,
    });
    Reading { probed, frequency_offset: None }
}

/// One end: the modem, its detectors in phase 2, and its receiver from there on.
struct End {
    modem: Modem,
    rx: Receiver,
    point: i8,
    steady: u32,
    clock: u32,
    hunting: bool,
    training: Option<Reference>,
    trained: bool,
    trn_heard: u32,
    last: Symbol,
    loud: bool,
    /// Samples of the far end's probe analysed, and times its analyser was cleared.
    analysed: u32,
    restarts: u32,
}

impl End {
    fn new(role: Role) -> End {
        let modem = Modem::new(role, FRONT, FS);
        assert_eq!(modem.role(), role);
        End {
            rx: Receiver::new(modem.phase2().role().far()),
            modem,
            point: 0,
            steady: 0,
            clock: 0,
            hunting: false,
            training: None,
            trained: false,
            trn_heard: 0,
            last: Symbol::Nothing,
            loud: false,
            analysed: 0,
            restarts: 0,
        }
    }

    fn heard(&mut self, out: Out, symbol: Option<i8>, reversed: bool) -> Heard {
        let mut info = None;
        if reversed {
            self.point = -self.point;
        }
        if let Some(point) = symbol {
            if point != 0 && self.point != 0 {
                let turned = point != self.point;
                self.steady = if turned { 0 } else { self.steady + 1 };
                info = self.rx.feed(0, turned);
            } else {
                self.steady = 0;
            }
            self.point = point;
        }
        let (tone, sides) = match out {
            Out::Carrier if self.point != 0 && self.steady >= 6 => (300_000, 0),
            Out::L1 | Out::L2 => (1000, 200_000),
            _ => (1000, 0),
        };
        Heard {
            info,
            tone,
            below: sides,
            above: sides,
            reversed,
            latency: 0,
            reading: Some(reading()),
            codeword: 79,
            codeword_v92: 79,
        }
    }

    fn follow_orders(&mut self) {
        let orders = match &mut self.modem.training {
            Some(training) => training.take_orders(),
            None => return,
        };
        for order in orders {
            match order {
                Order::Hunt => self.hunting = true,
                Order::Idle => {
                    self.hunting = false;
                    self.training = None;
                }
                Order::Train(reference, _, _) => {
                    self.hunting = false;
                    self.training = Some(reference);
                    self.trained = false;
                    self.trn_heard = 0;
                }
                Order::SetSize(_) => {}
            }
        }
    }

    /// A symbol of phases 3 and 4.
    fn hear(&mut self, symbol: Symbol, found: Option<Found>) {
        let turned = matches!((self.last, symbol), (Symbol::S(_), Symbol::SBar(_)));
        self.last = symbol;
        let Some(modem) = &mut self.modem.training else { return };
        if self.hunting && turned {
            let now = modem.state.now;
            modem.reversal(now);
        } else if self.training.is_some() {
            self.trn_heard += u32::from(matches!(symbol, Symbol::Trn(_)));
            if self.trn_heard > 300 {
                self.training = None;
                self.trained = true;
                modem.trained(3600);
            }
        } else if self.trained {
            let trn_bits = [matches!(symbol, Symbol::Trn(_)); 4];
            let reads = match symbol {
                Symbol::Differential((a, b, c, d), size) => {
                    let mut reads: Vec<Read> = [a, b, c, d][..size.bits()]
                        .iter()
                        .map(|&bit| Read { bit, found: None })
                        .collect();
                    reads.last_mut().unwrap().found = found;
                    reads
                }
                _ => Vec::new(),
            };
            modem.symbol(&trn_bits, &reads, 3500);
        }
        self.follow_orders();
    }

    /// One sample in, and one out.
    fn step(&mut self, sample: Sample) -> Sample {
        let heard = match sample {
            Sample::Phase2(out, symbol, reversed) => self.heard(out, symbol, reversed),
            Sample::Training(carried) => {
                if let Some((symbol, found)) = carried {
                    self.hear(symbol, found);
                }
                self.heard(Out::Silence, None, false)
            }
        };
        let tx = &self.modem.phase2.tx;
        let (clock, point, pending) = (tx.clock, tx.point, tx.pending());
        let ear = Ear { trained: self.trained, projected: 14 };
        match self.modem.step(&heard, ear) {
            Some(said) => {
                self.follow_orders();
                let tx = &self.modem.phase2.tx;
                self.loud = said.line != Out::Silence;
                self.analysed += u32::from(said.analyse);
                self.restarts += u32::from(said.restart);
                if said.line != Out::Carrier {
                    return Sample::Phase2(said.line, None, false);
                }
                let middle = tx.history.len() - 1 - SPAN;
                let symbol = if tx.clock < clock { Some(tx.history[middle]) } else { None };
                // The line is not quiet until the last symbol's pulse is over.
                self.loud = tx.history.iter().any(|&point| point != 0);
                let reversed = pending == 0 && tx.pending() == 0 && tx.point == -point;
                Sample::Phase2(said.line, symbol, reversed)
            }
            None => {
                self.follow_orders();
                Sample::Training(self.send())
            }
        }
    }

    fn send(&mut self) -> Option<(Symbol, Option<Found>)> {
        let modem = self.modem.training.as_mut()?;
        self.clock += modem.settings().transmit.baud_sevenths();
        if self.clock < 7 * FS {
            return None;
        }
        self.clock -= 7 * FS;
        let next = modem.next(&MP_BITS);
        let source = &modem.source;
        let found = if !source.queue.is_empty() {
            None
        } else if source.segment == Segment::Mp {
            Some(Found::Mp(Mp { acknowledge: source.sending_acknowledged, ..source.mp }))
        } else if source.segment == Segment::E {
            Some(Found::E)
        } else {
            None
        };
        self.loud = next.symbol != Symbol::Nothing;
        Some((next.symbol, found))
    }
}

/// A call with a delay each way: the two ends, when the answer modem was sending, and
/// the call modem's phases.
fn run(one_way: f64, seconds: f64) -> (Modem, Modem, Vec<bool>, Vec<&'static str>) {
    let delay = (one_way * f64::from(FS)) as usize;
    let (mut caller, mut answerer) = (End::new(Role::Call), End::new(Role::Answer));
    let mut to_answer: VecDeque<Sample> = std::iter::repeat_n(NOTHING, delay).collect();
    let mut to_call: VecDeque<Sample> = std::iter::repeat_n(NOTHING, delay).collect();
    let mut phases: Vec<&'static str> = Vec::new();
    let mut answered = Vec::new();
    for _ in 0..(seconds * f64::from(FS)) as usize {
        let from_call = caller.step(to_call.pop_front().unwrap());
        let from_answer = answerer.step(to_answer.pop_front().unwrap());
        to_answer.push_back(from_call);
        to_call.push_back(from_answer);
        answered.push(answerer.loud);
        if phases.last() != Some(&caller.modem.phase()) {
            phases.push(caller.modem.phase());
        }
        if caller.modem.status() != Status::Running && answerer.modem.status() != Status::Running {
            break;
        }
    }
    for end in [&caller, &answerer] {
        assert_eq!(end.restarts, 1, "one probe to read");
        assert!(end.analysed > 0);
    }
    (caller.modem, answerer.modem, answered, phases)
}

#[test]
fn two_ends_go_from_info0_to_e() {
    let (caller, answerer, _, phases) = run(0.030, 25.0);
    assert!(matches!(caller.status(), Status::Connected { .. }), "call modem went {phases:?}");
    assert!(matches!(answerer.status(), Status::Connected { .. }), "answer modem stuck at {}", answerer.phase());
    let (call, answer) = (caller.training().unwrap(), answerer.training().unwrap());
    assert_eq!(call.far_asked(), Some(Size::Sixteen));
    assert_eq!(call.rates(), answer.rates().map(|(tx, rx)| (rx, tx)));
    // Phase 2 settled 3429 symbols a second both ways on a clean line, and that is
    // what phases 3 and 4 ran at.
    assert_eq!(call.settings().transmit.rate, SymbolRate::S3429);
    assert_eq!(call.rates(), Some((14, 14)));
    assert_eq!(caller.status(), Status::Connected { transmit: 33600, receive: 33600 });
}

#[test]
fn the_answer_modem_leaves_70_ms_between_info1a_and_s() {
    let (_, answerer, loud, _) = run(0.030, 25.0);
    assert!(matches!(answerer.status(), Status::Connected { .. }));
    // Every gap of more than 20 ms, as (start, length) in samples.
    let mut gaps = Vec::new();
    let mut start = None;
    for (i, &l) in loud.iter().enumerate() {
        match (l, start) {
            (false, None) => start = Some(i),
            (true, Some(s)) => {
                if i - s > (0.020 * f64::from(FS)) as usize {
                    gaps.push((s, i - s));
                }
                start = None;
            }
            _ => {}
        }
    }
    // The last gap is before phase 4's S, and INFO1a's is the one before that.
    let silences: Vec<f64> = gaps.iter().map(|(_, n)| *n as f64 / f64::from(FS) * 1000.0).collect();
    let before_s = silences.iter().rev().nth(1).copied().expect("no gaps");
    assert!((65.0..=75.0).contains(&before_s), "{before_s:.1} ms; gaps {silences:?}");
}
