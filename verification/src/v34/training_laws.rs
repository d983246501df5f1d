//! What phases 3 and 4 come to, told in what each end hears and in milliseconds of it.
use crate::v34::info::{Info0, SymbolRate};
use crate::v34::info1::{Info1a, Info1c};
use crate::v34::listening::{Event, Found, Listened, Read};
use crate::v34::mp::{agreed, enabled, the_fastest_enabled_is_the_fastest, Mp, Trellis};
use crate::v34::phase2::{Role, FASTEST};
use crate::v34::phase2_laws::{a_time_is_counted_to_the_nearest_sample, nearest};
use crate::v34::receiver::Reference;
use crate::v34::signals::Size;
use crate::v34::source::{Giving, Segment, Symbol};
use crate::v34::training::{opened, settled_by, Ear, Limits, Order, Settings, Stage, Standing, Status};
use crate::v32::Mode;
use vstd::prelude::*;

verus! {

/// When it gives up, below zero where it does not.
pub open spec fn due(m: Standing) -> int {
    match m.s.deadline {
        Some((at, _)) => at as int,
        None => -1,
    }
}

/// Each transmitter is set up as the end that hears it asked: the call modem's by INFO1a,
/// the answer modem's by INFO1c at the symbol rate it is to use. Each end waits for the
/// other's MD, and the two agree on what is theirs in common.
pub proof fn a_transmitter_is_set_up_by_the_end_that_hears_it(
    far: Info0,
    c: Info1c,
    a: Info1a,
    round_trip: u32,
    wide: bool,
)
    ensures
        ({
            let call = settled_by(Role::Call, far, c, a, round_trip, wide);
            let answer = settled_by(Role::Answer, far, c, a, round_trip, wide);
            let down = a.answer_to_call.numbered() as int;
            &&& call.role == Role::Call && answer.role == Role::Answer
            &&& call.transmit.rate == a.call_to_answer && call.transmit.high
                == a.probed.high_carrier
            &&& answer.receive.rate == a.call_to_answer && answer.receive.high
                == a.probed.high_carrier
            &&& answer.transmit.rate == a.answer_to_call && answer.transmit.high
                == c.probed@[down].high_carrier
            &&& call.receive.rate == a.answer_to_call && call.receive.high
                == c.probed@[down].high_carrier
            &&& call.pre_emphasis == a.probed.pre_emphasis
            &&& answer.pre_emphasis == c.probed@[down].pre_emphasis
            &&& call.power_reduction == a.min_power_reduction
            &&& answer.power_reduction == c.min_power_reduction
            &&& call.far_md == a.md_length && answer.far_md == c.md_length
            &&& call.round_trip == round_trip && answer.round_trip == round_trip
            &&& call.far_cme == far.cme && answer.far_cme == far.cme
            &&& call.wide == wide && answer.wide == wide
        }),
{
}

/// Nothing faster could have been agreed: a rate that both ends enable, and that is within
/// both ends' limits for a direction, is no faster than what was agreed for it; or, where
/// either wants the two directions alike, one that is within all four limits.
pub proof fn nothing_faster_was_in_common(call: Mp, answer: Mp, rate: int)
    requires
        1 <= rate <= 14,
        enabled(call.rates & answer.rates, rate),
    ensures
        ({
            let (up, down) = agreed(call, answer);
            let fits_up = rate <= call.call_to_answer && rate <= answer.call_to_answer;
            let fits_down = rate <= call.answer_to_call && rate <= answer.answer_to_call;
            &&& call.asymmetric && answer.asymmetric ==> (fits_up ==> rate <= up) && (fits_down
                ==> rate <= down)
            &&& !(call.asymmetric && answer.asymmetric) && fits_up && fits_down ==> rate <= up
                && rate <= down
            &&& up <= 14 && down <= 14
        }),
{
    let both = call.rates & answer.rates;
    let up = crate::v34::mp::lower(call.call_to_answer, answer.call_to_answer);
    let down = crate::v34::mp::lower(call.answer_to_call, answer.answer_to_call);
    let least = crate::v34::mp::lower(up, down);
    the_fastest_enabled_is_the_fastest(both, crate::v34::mp::lower(up, 14) as nat);
    the_fastest_enabled_is_the_fastest(both, crate::v34::mp::lower(down, 14) as nat);
    the_fastest_enabled_is_the_fastest(both, crate::v34::mp::lower(least, 14) as nat);
}

/// A rate is enabled in both where it is in each.
pub proof fn a_rate_in_common_is_enabled_at_both_ends(a: u16, b: u16, rate: int)
    requires
        1 <= rate <= 16,
    ensures
        enabled(a & b, rate) <==> enabled(a, rate) && enabled(b, rate),
        enabled(a, 1) <==> a % 2 == 1,
{
    let shift = (rate - 1) as u16;
    assert(((a & b) >> shift) & 1u16 == 1u16 <==> (a >> shift) & 1u16 == 1u16 && (b >> shift) & 1u16
        == 1u16) by (bit_vector);
    assert((a >> 0u16) & 1u16 == a % 2) by (bit_vector);
}

proof fn lemma_after(s: Standing, ms: nat, trips: nat)
    requires
        s.sound(),
        ms <= 30000,
        trips <= 4,
    ensures
        s.after(ms, trips) == s.s.now + nearest(s.s.fs, ms) + trips * s.s.settings.round_trip,
        s.heard_after(ms, trips) == s.s.now + 1 + nearest(s.s.fs, ms) + trips
            * s.s.settings.round_trip,
{
    a_time_is_counted_to_the_nearest_sample(s.s.fs, ms);
    let (fs, trip) = (s.s.fs, s.s.settings.round_trip);
    assert(0 <= ms * fs <= 30000 * 214_748_364) by (nonlinear_arith)
        requires
            ms <= 30000,
            fs <= 214_748_364,
    ;
    assert(0 <= trips * trip <= 4 * 0xffff_ffff) by (nonlinear_arith)
        requires
            trips <= 4,
            trip <= 0xffff_ffff,
    ;
}

/// Phase 3 opens: the call modem listening for S, with 3.1 s and two round trips for the
/// answer modem's J; the answer modem silent for 70 ms less what its pulse reaches ahead,
/// and then S. Both ask for sixteen points.
pub proof fn phase_3_opens(settings: Settings, limits: Limits, fs: u32)
    requires
        0 < fs <= FASTEST,
        1 <= limits.receive_ceiling,
    ensures
        ({
            let m = opened(settings, limits, fs);
            let symbols = crate::v34::training::sevenths(settings.transmit.rate);
            &&& m.s.status == Status::Running && m.s.now == 0
            &&& m.source.ask == Size::Sixteen && m.source.segment == Segment::Silence
            &&& m.s.trn_symbols == symbols / 7
            &&& settings.role == Role::Call ==> {
                &&& m.s.stage == Stage::CallAwaitS
                &&& m.orders == seq![Order::Hunt]
                &&& m.source.pending is None
                &&& due(m) == nearest(fs, 3100) + 2
                    * settings.round_trip
            }
            &&& settings.role == Role::Answer ==> {
                &&& m.s.stage == Stage::AnswerSendTraining
                &&& m.source.pending == Some(Segment::S)
                &&& m.s.deadline is None
                &&& (symbols + 50) / 100 >= limits.lookahead ==> m.source.hold == (symbols + 50)
                    / 100 - limits.lookahead
            }
        }),
{
    a_time_is_counted_to_the_nearest_sample(fs, 3100);
    assert(0 <= 3100 * fs <= 3100 * 214_748_364) by (nonlinear_arith)
        requires
            fs <= 214_748_364,
    ;
    let m = opened(settings, limits, fs);
    assert(m.orders =~= if settings.role == Role::Call {
        seq![Order::Hunt]
    } else {
        Seq::empty()
    });
}

/// The far end's S turning over. In phase 3 it is trained on, once its MD has been waited
/// out if it sends one, 35 ms to a step; the answer modem's J ends in silence for it. In
/// phase 4 the call modem's J is closed, its TRN follows at what was asked of it, and E is
/// waited for.
pub proof fn a_reversal_is_trained_on(m: Standing, at: u64)
    requires
        m.wf(),
        m.s.settings.far_md <= 127,
    ensures
        ({
            let next = m.reversal(at);
            let s = m.s;
            let far = if s.settings.role == Role::Call {
                Mode::Answer
            } else {
                Mode::Call
            };
            let first = s.stage == Stage::CallAwaitS || s.stage == Stage::AnswerAwaitS;
            let md = s.settings.far_md > 0 && !s.md_waited;
            &&& first && md ==> {
                &&& next.s.md_until is Some && next.s.md_until->0 == s.now + 1 + nearest(
                    s.fs,
                    (35 * s.settings.far_md) as nat,
                )
                &&& next.s.md_waited
                &&& next.s.stage == s.stage
                &&& next.orders == m.orders.push(Order::Idle)
            }
            &&& first && !md ==> {
                &&& next.orders == m.orders.push(Order::Train(Reference::PpThenTrn, far, at))
                &&& next.s.rx_size == Size::Four
                &&& next.s.stage == if s.stage == Stage::CallAwaitS {
                    Stage::CallTraining
                } else {
                    Stage::AnswerTraining
                }
            }
            &&& s.stage == Stage::AnswerAwaitS ==> next.source.pending == Some(Segment::Silence)
                && next.s.deadline is None
            &&& s.stage == Stage::CallAwaitS4 ==> {
                &&& next.orders == m.orders.push(
                    Order::Train(Reference::Trn(m.source.ask), far, at),
                )
                &&& next.s.rx_size == m.source.ask
                &&& next.source.pending == Some(Segment::JPrime)
                &&& next.source.after_s_bar == Segment::Trn
                &&& next.s.far_asked is Some ==> next.source.size == next.s.far_asked->0
                &&& next.s.stage == Stage::CallTraining4
                &&& due(next) == s.now + 1 + if
                s.settings.far_cme {
                    nearest(s.fs, 30000) as int
                } else {
                    nearest(s.fs, 2800) + 3 * s.settings.round_trip
                }
            }
            &&& !first && s.stage != Stage::CallAwaitS4 ==> next == m
        }),
{
    lemma_after(m, 30000, 0);
    lemma_after(m, 2800, 3);
    lemma_after(m, (35 * m.s.settings.far_md) as nat, 0);
    let waiting = m.change(Segment::Silence).wait(None);
    assert(waiting.s.now == m.s.now && waiting.s.fs == m.s.fs && waiting.s.settings
        == m.s.settings);
}

/// The receiver trained: its signal to noise is kept for its phase, J is next in phase 3,
/// and the answer modem waits 2.9 s and two round trips for it.
pub proof fn a_trained_receiver_listens_for_j(m: Standing, snr: i32)
    requires
        m.wf(),
    ensures
        ({
            let next = m.trained(snr);
            let s = m.s;
            &&& s.stage == Stage::CallTraining ==> next.s.stage == Stage::CallAwaitJ
                && next.s.phase3_snr == Some(snr) && next.s.deadline == s.deadline
            &&& s.stage == Stage::AnswerTraining ==> next.s.stage == Stage::AnswerAwaitJ
                && next.s.phase3_snr == Some(snr) && due(next) == s.now + 1 + nearest(s.fs, 2900) + 2
                * s.settings.round_trip
            &&& s.stage == Stage::CallTraining4 ==> next.s.phase4_snr == Some(snr) && next.s.stage
                == s.stage
            &&& next.listening.trn && next.listening.trn_symbols == 0 && next.listening.size
                == s.rx_size
            &&& next.source == m.source && next.orders == m.orders
        }),
{
    lemma_after(m, 2900, 2);
}

/// What the far end's J, J', MP and E do, each in its place.
pub proof fn what_is_heard_is_acted_on(m: Standing, snr: i32, size: Size, mp: Mp)
    requires
        m.wf(),
    ensures
        ({
            let next = m.event(Event::J(size), snr);
            let s = m.s;
            &&& s.stage == Stage::CallAwaitJ ==> {
                &&& next.s.stage == Stage::CallSendTraining
                &&& next.s.far_asked == Some(size) && next.source.size == size
                &&& next.source.pending == Some(Segment::S) && next.source.after_s_bar
                    == Segment::Pp
                &&& next.orders == m.orders.push(Order::Hunt)
                &&& next.s.deadline is None
            }
            &&& s.stage == Stage::AnswerAwaitJ ==> {
                &&& next.s.stage == Stage::AnswerPhase4
                &&& next.s.far_asked == Some(size) && next.source.size == size
                &&& next.source.pending == Some(Segment::S) && next.source.after_s_bar
                    == Segment::Trn
                &&& next.orders == m.orders
                &&& due(next) == s.now + 1 + if
                s.settings.far_cme {
                    nearest(s.fs, 30000) as int
                } else {
                    nearest(s.fs, 2850) + 4 * s.settings.round_trip
                }
            }
            &&& s.stage != Stage::CallAwaitJ && s.stage != Stage::AnswerAwaitJ ==> next == m
        }),
        ({
            let next = m.event(Event::JPrime, snr);
            if m.s.stage == Stage::AnswerPhase4 {
                &&& next.orders == m.orders.push(Order::SetSize(m.source.ask))
                &&& next.listening.trn && next.listening.size == m.source.ask
                &&& next.s.rx_size == m.source.ask
            } else {
                next == m
            }
        }),
        ({
            let next = m.event(Event::Mp(mp), snr);
            &&& next.s.far_mp == Some(mp)
            &&& next.s.far_acknowledged == (m.s.far_acknowledged || mp.acknowledge)
            &&& next.s.stage == m.s.stage && next.source == m.source
            &&& next.s.phase4_snr == if m.s.phase4_snr is None && m.s.far_mp is None {
                Some(snr)
            } else {
                m.s.phase4_snr
            }
        }),
        m.event(Event::E, snr).s.far_e,
        m.event(Event::E, snr).s.stage == m.s.stage,
{
    lemma_after(m, 30000, 0);
    lemma_after(m, 2850, 4);
}

/// The MP that is made says what this end can send and what it could take: its transmitter's
/// ceiling one way, the lesser of its receiver's and what its signal to noise projects the
/// other, one at the least; neither above 28 800 bit/s without the wide constellation.
pub proof fn an_mp_says_what_its_end_can_do(m: Standing, projected: u8)
    requires
        m.wf(),
    ensures
        ({
            let mp = m.made_mp(projected);
            let s = m.s;
            let (sends, takes) = match s.settings.role {
                Role::Call => (mp.call_to_answer, mp.answer_to_call),
                Role::Answer => (mp.answer_to_call, mp.call_to_answer),
            };
            let (ceiling, floor) = (s.limits.receive_ceiling, if projected < 1 {
                1u8
            } else {
                projected
            });
            &&& s.settings.wide ==> sends == s.limits.transmit_ceiling
            &&& !s.settings.wide ==> sends <= 12 && sends <= s.limits.transmit_ceiling && (sends
                == 12 || sends == s.limits.transmit_ceiling)
            &&& takes <= ceiling && takes <= floor && 1 <= takes
            &&& s.settings.wide ==> takes == ceiling || takes == floor
            &&& !s.settings.wide ==> takes <= 12 && (takes == 12 || takes == ceiling || takes
                == floor)
            &&& !mp.acknowledge && mp.asymmetric && mp.precoding is None && !mp.auxiliary
            &&& !mp.non_linear && !mp.expanded_shaping && mp.trellis == Trellis::States16
            &&& mp.rates == 0x3fff
        }),
{
}

/// The training of phase 3 goes out and is followed by J, which gives the far end 900 ms
/// and a round trip for its S.
pub proof fn the_training_ends_in_j(m: Standing, ear: Ear)
    requires
        m.wf(),
        m.s.status == Status::Running,
        m.s.md_until is None,
        m.s.stage == Stage::AnswerSendTraining || m.s.stage == Stage::CallSendTraining,
    ensures
        ({
            let next = m.stage_step(ear);
            let s = m.s;
            let sent = m.source.segment == Segment::Trn && m.source.count >= s.trn_symbols;
            &&& sent ==> next.source.pending == Some(Segment::J)
            &&& m.source.segment != Segment::J ==> next.s.stage == s.stage && next.s.deadline
                == s.deadline
            &&& m.source.segment == Segment::J ==> {
                &&& due(next) == s.now + nearest(s.fs, 900)
                    + s.settings.round_trip
                &&& s.stage == Stage::AnswerSendTraining ==> next.s.stage == Stage::AnswerAwaitS
                    && next.orders == m.orders.push(Order::Hunt)
                &&& s.stage == Stage::CallSendTraining ==> next.s.stage == Stage::CallAwaitS4
                    && next.orders == m.orders
            }
            &&& !sent && m.source.segment != Segment::J ==> next == m
        }),
{
    reveal(Standing::stage_step);
    reveal(Standing::md_passed);
    reveal(Standing::sent_training);
    lemma_after(m, 900, 1);
    assert(1 * m.s.settings.round_trip == m.s.settings.round_trip);
}

/// The far end's MD waited out, its second S is listened for.
pub proof fn md_is_waited_out(m: Standing, ear: Ear)
    requires
        m.wf(),
        m.s.status == Status::Running,
        m.s.stage == Stage::CallAwaitS || m.s.stage == Stage::AnswerAwaitS,
        m.s.md_until is Some,
    ensures
        m.s.now >= m.s.md_until->0 ==> m.stage_step(ear).orders == m.orders.push(Order::Hunt)
            && m.stage_step(ear).s.md_until is None,
        m.s.now < m.s.md_until->0 ==> m.stage_step(ear) == m,
{
    reveal(Standing::stage_step);
    reveal(Standing::md_passed);
}

/// When MP follows TRN in phase 4: not before 512 symbols of it; then once the call modem's
/// receiver is trained and has heard 64 symbols of the far end's, or the answer modem has
/// heard the far end's J' and 512; and after two seconds of it whatever, with a round trip
/// more at the answer modem.
pub proof fn mp_follows_trn(m: Standing, ear: Ear)
    requires
        m.wf(),
        m.s.status == Status::Running,
        m.s.md_until is None,
        m.s.stage == Stage::CallTraining4 || m.s.stage == Stage::AnswerPhase4,
    ensures
        ({
            let next = m.stage_step(ear);
            let s = m.s;
            let sent = if m.source.segment == Segment::Trn {
                m.source.count
            } else {
                0
            };
            let baud = crate::v34::training::sevenths(s.settings.transmit.rate);
            let heard = if s.stage == Stage::CallTraining4 {
                ear.trained && m.listening.trn_symbols >= 64
            } else {
                m.listening.j_prime && m.listening.trn_symbols + m.listening.grace >= 512
            };
            let waits = if s.stage == Stage::CallTraining4 {
                2 * s.fs as int
            } else {
                2 * s.fs + s.settings.round_trip
            };
            if sent >= 512 && (heard || sent * s.fs * 7 >= waits * baud) {
                &&& next.s.stage == if s.stage == Stage::CallTraining4 {
                    Stage::CallMp
                } else {
                    Stage::AnswerMp
                }
                &&& next.s.ours == Some(m.made_mp(ear.projected))
                &&& next.source.mp == m.made_mp(ear.projected)
                &&& next.source.pending == Some(Segment::Mp)
            } else {
                next == m
            }
        }),
{
    reveal(Standing::stage_step);
    reveal(Standing::md_passed);
    reveal(Standing::call_trained);
    reveal(Standing::answer_trained);
    let s = m.s;
    assert(0 * s.settings.round_trip == 0 && 1 * s.settings.round_trip == s.settings.round_trip)
        by (nonlinear_arith);
}

/// How phase 4 ends: the far end's MP read, this end's own goes with its acknowledgement;
/// eight of those gone and one of the far end's acknowledged, or its E here, E follows; and
/// both ends' E gone, and this end's off the line, it is done.
pub proof fn phase_4_ends(m: Standing, ear: Ear)
    requires
        m.wf(),
        m.s.status == Status::Running,
        m.s.md_until is None,
        m.s.stage == Stage::CallMp || m.s.stage == Stage::AnswerMp,
    ensures
        ({
            let next = m.stage_step(ear);
            let s = m.s;
            let closes = !s.sent_e && m.source.acknowledged >= 8 && (s.far_acknowledged || s.far_e);
            let gone = m.source.segment == Segment::Silence && m.source.silent > 2
                * s.limits.lookahead;
            &&& s.far_mp is Some && !m.source.mp.acknowledge ==> next.source.mp == (Mp {
                acknowledge: true,
                ..s.ours->0
            })
            &&& s.far_mp is None || m.source.mp.acknowledge ==> next.source.mp == m.source.mp
            &&& closes ==> next.source.pending == Some(Segment::E)
            &&& !closes ==> next.source.pending == m.source.pending
            &&& next.s.sent_e == (s.sent_e || closes)
            &&& next.s.status == if (s.sent_e || closes) && s.far_e && gone {
                Status::Done
            } else {
                Status::Running
            }
            &&& next.s.ours == s.ours && next.s.far_mp == s.far_mp
        }),
{
    reveal(Standing::stage_step);
    reveal(Standing::md_passed);
    reveal(Standing::acknowledging);
    reveal(Standing::ending);
    reveal(Standing::finishing);
}

/// How long each segment lasts, and what follows it: 128 symbols of S, 16 of S-bar, 288 of
/// PP; J' is followed by TRN and E by silence.
pub proof fn a_segment_lasts_its_length(g: Giving)
    requires
        g.wf(),
    ensures
        ({
            let next = g.moved();
            &&& g.segment == Segment::S ==> next.segment == if g.count == 128 {
                Segment::SBar
            } else {
                Segment::S
            }
            &&& g.segment == Segment::SBar ==> next.segment == if g.count == 16 {
                g.after_s_bar
            } else {
                Segment::SBar
            }
            &&& g.segment == Segment::Pp ==> next.segment == if g.count == 288 {
                Segment::Trn
            } else {
                Segment::Pp
            }
            &&& g.segment == Segment::Trn ==> next.segment == if g.pending is Some {
                g.pending->0
            } else {
                Segment::Trn
            }
            &&& (g.segment == Segment::J || g.segment == Segment::Mp) ==> next.segment == if
            g.pending is Some && g.queue.len() == 0 {
                g.pending->0
            } else {
                g.segment
            }
            &&& g.segment == Segment::JPrime && g.queue.len() == 0 ==> next.segment == Segment::Trn
            &&& g.segment == Segment::E && g.queue.len() == 0 ==> next.segment == Segment::Silence
            &&& g.segment == Segment::Silence ==> next.segment == if g.pending is Some && g.silent
                >= g.hold {
                g.pending->0
            } else {
                Segment::Silence
            }
            &&& next.segment != g.segment && next.segment == Segment::Trn ==> next.restart
            &&& next.segment != g.segment && next.segment == Segment::E ==> next.queue.len() == 20
                && forall|i: int| 0 <= i < 20 ==> next.queue[i]
            &&& next.segment != g.segment ==> next.count == 0 && next.silent == 0
        }),
{
    reveal(Giving::moved);
}

/// What each segment gives: S, S-bar and PP by their place, TRN at four points in phase 3 and
/// at what was asked in phase 4, J and J' at four points two bits to a symbol, MP and E at
/// what was asked; and a J or an MP over and over.
pub proof fn a_segment_gives_its_symbols(g: Giving, mp_bits: Seq<bool>)
    requires
        mp_bits.len() > 0,
    ensures
        ({
            let (symbol, next) = g.give(mp_bits);
            let bits = if g.queue.len() > 0 || g.segment == Segment::JPrime || g.segment
                == Segment::E {
                g.queue
            } else if g.segment == Segment::J {
                g.ask.asked()
            } else {
                mp_bits
            };
            let wide = (g.segment == Segment::Mp || g.segment == Segment::E) && g.size
                == Size::Sixteen;
            let spelt = g.segment == Segment::J || g.segment == Segment::JPrime || g.segment
                == Segment::Mp || g.segment == Segment::E;
            &&& g.segment == Segment::Silence ==> symbol == Symbol::Nothing && next.silent
                == g.silent + 1
            &&& g.segment == Segment::S ==> symbol == Symbol::S(g.count as usize)
            &&& g.segment == Segment::SBar ==> symbol == Symbol::SBar(g.count as usize)
            &&& g.segment == Segment::Pp ==> symbol == Symbol::Pp(g.count as usize)
            &&& g.segment == Segment::Trn ==> symbol == Symbol::Trn(
                if g.after_s_bar == Segment::Pp {
                    Size::Four
                } else {
                    g.size
                },
            )
            &&& g.segment == Segment::S || g.segment == Segment::SBar || g.segment == Segment::Pp
                || g.segment == Segment::Trn ==> next.count == g.count + 1
            &&& spelt && bits.len() >= 4 ==> (symbol matches Symbol::Differential(
                (a, b, c, d),
                size,
            ) && a == bits[0] && b == bits[1] && (wide ==> c == bits[2] && d == bits[3]
                && size == Size::Sixteen) && (!wide ==> !c && !d && size == Size::Four))
            &&& spelt && bits.len() > 4 ==> next.queue == bits.skip(
                if wide {
                    4
                } else {
                    2
                },
            )
            &&& g.segment == Segment::Mp && g.queue.len() == 0 ==> next.sending_acknowledged
                == g.mp.acknowledge && next.acknowledged == g.acknowledged + (if g.count > 0
                && g.sending_acknowledged {
                1int
            } else {
                0
            })
            &&& g.segment != Segment::Mp ==> next.acknowledged == g.acknowledged
        }),
{
}

/// TRN is let go while the descrambler fills, 24 bits of it and a symbol; from there each
/// symbol that descrambles to ones counts, and the first that does not ends it.
pub proof fn trn_lasts_while_it_descrambles_to_ones(
    l: Listened,
    size: Size,
    trn_bits: Seq<bool>,
    reads: Seq<Read>,
)
    ensures
        ({
            let begun = l.begin_trn(size);
            &&& begun.trn && begun.trn_symbols == 0 && begun.bits.len() == 0 && begun.size == size
            &&& begun.grace == if size == Size::Sixteen {
                7nat
            } else {
                13
            }
        }),
        ({
            let next = l.heard(trn_bits, reads).0;
            let ones = forall|i: int| 0 <= i < trn_bits.len() ==> trn_bits[i];
            &&& l.trn && l.grace > 0 ==> next == (Listened { grace: (l.grace - 1) as nat, ..l })
            &&& l.trn && l.grace == 0 && ones ==> next == (Listened {
                trn_symbols: l.trn_symbols + 1,
                ..l
            })
            &&& l.trn && l.grace == 0 && !ones ==> !next.trn && next.trn_symbols == l.trn_symbols
        }),
        l.trn && (l.grace > 0 || (forall|i: int| 0 <= i < trn_bits.len() ==> trn_bits[i]))
            ==> l.heard(trn_bits, reads).1 == Seq::<Event>::empty(),
{
    lemma_bits_kept(Listened { trn: false, ..l }, reads);
}

proof fn lemma_bits_kept(l: Listened, reads: Seq<Read>)
    ensures
        ({
            let after = l.heard_bits(reads).0;
            after.trn == l.trn && after.trn_symbols == l.trn_symbols && after.size == l.size
                && after.grace == l.grace && after.j == l.j && after.j_prime == l.j_prime
        }),
    decreases reads.len(),
{
    if reads.len() > 0 {
        lemma_bits_kept(l, reads.drop_last());
    }
}

/// An MP is taken as it is found, and an E only behind one; and what is found changes
/// nothing else.
pub proof fn what_is_found_is_passed_on(l: Listened, read: Read, mp: Mp)
    ensures
        read.found == Some(Found::Mp(mp)) ==> l.came_to(read) == seq![Event::Mp(mp)] && l.with(
            read,
        ).mp_found,
        read.found == Some(Found::E) ==> l.came_to(read) == if l.mp_found {
            seq![Event::E]
        } else {
            Seq::empty()
        },
        read.found is None ==> l.came_to(read) == Seq::<Event>::empty() && l.with(read).mp_found
            == l.mp_found,
        l.bits.len() == 32 ==> l.with(read).bits == l.bits.skip(1).push(read.bit),
        l.bits.len() < 32 ==> l.with(read).bits == l.bits.push(read.bit),
{
}

/// What one end sends at the other takes: two ends that know each other's MP come to the
/// same two rates, each end's transmitter at the other's receiver's. The call modem's is
/// the first of what the two MPs come to.
pub proof fn one_ends_transmitter_is_the_others_receiver(call: Standing, answer: Standing)
    requires
        call.s.settings.role == Role::Call,
        answer.s.settings.role == Role::Answer,
        call.s.ours is Some,
        call.s.far_mp is Some,
        answer.s.ours == call.s.far_mp,
        answer.s.far_mp == call.s.ours,
    ensures
        call.settled_rates().0 == answer.settled_rates().1,
        call.settled_rates().1 == answer.settled_rates().0,
        call.settled_rates() == agreed(call.s.ours->0, call.s.far_mp->0),
{
}

/// A deadline is kept to the sample: the one after it the training has failed for the
/// reason it was set for, its transmitter goes silent and its receiver stops listening;
/// and up to it what the stage does is done.
pub proof fn a_deadline_is_kept(m: Standing, ear: Ear)
    requires
        m.wf(),
        m.s.status == Status::Running,
        m.s.now < 0x7fff_ffff_ffff_ffff,
    ensures
        ({
            let next = m.step(ear);
            let late = m.s.deadline is Some && m.s.now + 1 > due(m);
            &&& late ==> {
                &&& next.s.status is Failed
                &&& next.s.stage == Stage::Finished
                &&& next.source.segment == Segment::Silence && next.source.pending is None
                &&& next.orders == m.orders.push(Order::Idle)
            }
            &&& !late ==> !(next.s.status is Failed)
            &&& next.s.now == m.s.now + 1
        }),
{
    let on = Standing {
        s: crate::v34::training::Progress { now: (m.s.now + 1) as u64, ..m.s },
        ..m
    };
    lemma_stage_runs(on, ear);
}

proof fn lemma_stage_runs(m: Standing, ear: Ear)
    requires
        m.s.status == Status::Running,
    ensures
        !(m.stage_step(ear).s.status is Failed),
        m.stage_step(ear).s.now == m.s.now,
{
    let g = m.md_passed();
    assert(g.s.status == m.s.status && g.s.now == m.s.now) by {
        reveal(Standing::md_passed);
    }
    let sent = g.sent_training();
    assert(sent.s.status == g.s.status && sent.s.now == g.s.now) by {
        reveal(Standing::sent_training);
    }
    let (call, answer) = (g.call_trained(ear), g.answer_trained(ear));
    assert(call.s.status == g.s.status && call.s.now == g.s.now) by {
        reveal(Standing::call_trained);
    }
    assert(answer.s.status == g.s.status && answer.s.now == g.s.now) by {
        reveal(Standing::answer_trained);
    }
    let (known, ended) = (g.acknowledging(), g.acknowledging().ending());
    assert(known.s == g.s) by {
        reveal(Standing::acknowledging);
    }
    assert(ended.s.status == g.s.status && ended.s.now == g.s.now) by {
        reveal(Standing::ending);
    }
    assert(!(ended.finishing().s.status is Failed) && ended.finishing().s.now == g.s.now) by {
        reveal(Standing::finishing);
    }
    reveal(Standing::stage_step);
}

/// A training that has ended does nothing more but count.
pub proof fn an_ended_training_only_counts(m: Standing, ear: Ear)
    requires
        m.wf(),
        !(m.s.status is Running),
        m.s.now < 0x7fff_ffff_ffff_ffff,
    ensures
        ({
            let next = m.step(ear);
            &&& next.s.status == m.s.status
            &&& next.s.stage == m.s.stage
            &&& next.source == m.source
            &&& next.orders == m.orders
            &&& next.listening == m.listening
        }),
{
}

/// What a symbol came to is acted on in the order it was heard.
pub proof fn what_is_heard_first_is_acted_on_first(m: Standing, a: Event, b: Event, snr: i32)
    ensures
        m.events(seq![a], snr) == m.event(a, snr),
        m.events(seq![a, b], snr) == m.event(a, snr).event(b, snr),
{
    reveal_with_fuel(Standing::events, 3);
    assert(seq![a].drop_last() =~= Seq::<Event>::empty());
    assert(seq![a, b].drop_last() =~= seq![a]);
}

/// A symbol rate is so many symbols in seven seconds: seven times its nominal rate, or,
/// for 2743 and 3429, eight sevenths and ten sevenths of 2400.
pub proof fn seven_seconds_are_whole_symbols(rate: SymbolRate)
    ensures
        rate is S2743 ==> crate::v34::training::sevenths(rate) == 8 * 2400,
        rate is S3429 ==> crate::v34::training::sevenths(rate) == 10 * 2400,
        !(rate is S2743 || rate is S3429) ==> crate::v34::training::sevenths(rate) == 7
            * rate.baud(),
{
}

/// A segment begins from its first symbol: J' with its sixteen bits and E with its twenty
/// queued, the others with none; a change that was waiting has been taken; and the MP that
/// E follows is counted like those before it.
pub proof fn a_segment_begins_from_its_first_symbol(g: Giving)
    requires
        g.wf(),
    ensures
        ({
            let next = g.moved();
            &&& next.segment != g.segment && next.segment == Segment::JPrime ==> next.queue
                == crate::v34::signals::ended()
            &&& next.segment != g.segment && next.segment != Segment::JPrime && next.segment
                != Segment::E ==> next.queue.len() == 0
            &&& next.segment != g.segment && (g.segment == Segment::Silence || g.segment
                == Segment::Trn || g.segment == Segment::J || g.segment == Segment::Mp)
                ==> next.pending is None
            &&& g.segment == Segment::S || g.segment == Segment::SBar || g.segment == Segment::Pp
                ==> next.pending == g.pending
            &&& next.segment != g.segment && g.segment == Segment::Mp ==> next.acknowledged
                == g.acknowledged + (if g.count > 0 && g.sending_acknowledged {
                1int
            } else {
                0
            })
            &&& g.segment != Segment::Mp ==> next.acknowledged == g.acknowledged
            &&& next.size == g.size && next.ask == g.ask && next.mp == g.mp
        }),
{
    reveal(Giving::moved);
}

/// What is heard makes no difference to a training that has ended; and one that is still
/// running fails where its receiver could not be trained.
pub proof fn an_ended_training_hears_nothing(m: Standing, at: u64, snr: i32)
    requires
        m.wf(),
    ensures
        !(m.s.status is Running) ==> m.on_reversal(at) == m && m.on_trained(snr) == m
            && m.on_untrained() == m,
        m.s.status is Running ==> m.on_reversal(at) == m.reversal(at) && m.on_trained(snr)
            == m.trained(snr),
        m.s.status is Running ==> {
            let next = m.on_untrained();
            &&& next.s.status is Failed
            &&& next.s.stage == Stage::Finished
            &&& next.source.segment == Segment::Silence
            &&& next.orders == m.orders.push(Order::Idle)
        },
{
}

} // verus!
