//! What phase 2 comes to, told in what is on the line and in milliseconds of it.
use crate::v34::info::{framed, Info, Info0, Info0d, SymbolRate};
use crate::v34::info1::{Info1a, Info1aPcm, Info1aPcmUp, Info1c};
use crate::v34::phase2::{
    opened, reopened, samples, the_fastest_is_the_fastest, Heard, Line, Pcm, Progress, Role, Speaking, Stage,
    Standing, Status, FASTEST,
};
use vstd::prelude::*;

verus! {

/// The samples nearest to so many milliseconds.
pub open spec fn nearest(fs: u32, ms: nat) -> nat {
    ((ms * fs + 500) / 1000) as nat
}

/// What this end read at a symbol rate, zero where it read nothing.
pub open spec fn read_at(s: Progress, i: int) -> int {
    match s.reading {
        Some(reading) => reading.probed@[i].max_rate as int,
        None => 0,
    }
}

/// How far apart the two ends allow the two directions to be.
pub open spec fn allowed(s: Progress) -> int {
    match s.far {
        Some(far) => if far.asymmetry < s.ours.asymmetry {
            far.asymmetry as int
        } else {
            s.ours.asymmetry as int
        },
        None => 0,
    }
}

/// A time is so many samples, to the nearest.
pub proof fn a_time_is_counted_to_the_nearest_sample(fs: u32, ms: nat)
    ensures
        -500 <= samples(fs, ms) * 1000 - ms * fs <= 500,
        samples(fs, ms) == nearest(fs, ms),
{
    reveal(samples);
    assert(0 <= ms * fs) by (nonlinear_arith);
}

/// The answer modem settles on the fastest both ways. Towards the call modem that is what
/// the call modem found fastest of all; towards the answer modem it is what this end read
/// fastest of those within the asymmetry that both ends allow. Of two as fast it is the
/// slower symbol rate, each time; and the call modem is told what was read at the rate it
/// is to use, or nothing where nothing was.
pub proof fn the_fastest_each_way_is_settled_on(s: Progress, c: Info1c)
    ensures
        ({
            let settled = s.settles(c);
            let down = settled.answer_to_call.numbered() as int;
            let up = settled.call_to_answer.numbered() as int;
            &&& 0 <= down < 6 && 0 <= up < 6
            &&& forall|i: int| 0 <= i < 6 ==> #[trigger] c.probed@[i].max_rate
                <= c.probed@[down].max_rate
            &&& forall|i: int| 0 <= i < down ==> #[trigger] c.probed@[i].max_rate
                < c.probed@[down].max_rate
            &&& -allowed(s) <= up - down <= allowed(s)
            &&& forall|i: int|
                0 <= i < 6 && -allowed(s) <= i - down <= allowed(s) ==> #[trigger] read_at(s, i)
                    <= read_at(s, up)
            &&& read_at(s, up) > 0 ==> forall|i: int|
                0 <= i < up && -allowed(s) <= i - down <= allowed(s) ==> #[trigger] read_at(s, i)
                    < read_at(s, up)
            &&& read_at(s, up) > 0 ==> settled.probed == s.reading->0.probed@[up]
            &&& read_at(s, up) == 0 ==> up == down && settled.probed.max_rate == 0
            &&& settled.frequency_offset == match s.reading {
                Some(reading) => reading.frequency_offset,
                None => None,
            }
            &&& settled.md_length == 0
            &&& settled.min_power_reduction == 0
            &&& settled.additional_power_reduction == 0
        }),
{
    let settled = s.settles(c);
    let rates = crate::v34::phase2::rates_of(c.probed@);
    the_fastest_is_the_fastest(rates);
    let found = s.towards_answer(settled.answer_to_call);
    the_fastest_is_the_fastest(found);
    let down = settled.answer_to_call.numbered() as int;
    let up = settled.call_to_answer.numbered() as int;
    assert forall|i: int| 0 <= i < 6 implies #[trigger] rates[i] == c.probed@[i].max_rate by {}
    assert forall|i: int| 0 <= i < 6 implies #[trigger] c.probed@[i].max_rate
        <= c.probed@[down].max_rate && (i < down ==> c.probed@[i].max_rate
        < c.probed@[down].max_rate) by {
        assert(rates[i] == c.probed@[i].max_rate && rates[down] == c.probed@[down].max_rate);
    }
    assert(s.steps() == allowed(s));
    assert forall|i: int| 0 <= i < 6 && -allowed(s) <= i - down <= allowed(s) implies
        #[trigger] read_at(s, i) == found[i] by {}
}

/// V.90: the upstream the analogue modem asks for is the fastest that the digital modem
/// found of 3000 and 3200, and of 3429 only where both ends allow it; the slower of two as
/// fast, and 3200 where none was found. The codeword asked for is the one it is given.
pub proof fn the_fastest_upstream_is_asked_for(
    s: Progress,
    c: Info1c,
    far: Info0d,
    codeword: u8,
)
    ensures
        ({
            let asked = s.asks_pcm(c, far, codeword);
            let up = asked.upstream.numbered() as int;
            let both = far.upstream_3429 && s.ours.transmit_3429;
            &&& asked.uinfo == codeword
            &&& asked.md_length == 0
            &&& up == 3 || up == 4 || (up == 5 && both)
            &&& c.probed@[3].max_rate <= c.probed@[up].max_rate
            &&& c.probed@[4].max_rate <= c.probed@[up].max_rate
            &&& both ==> c.probed@[5].max_rate <= c.probed@[up].max_rate
            &&& c.probed@[up].max_rate > 0 && up > 3 ==> c.probed@[3].max_rate
                < c.probed@[up].max_rate
            &&& c.probed@[up].max_rate > 0 && up == 5 ==> c.probed@[4].max_rate
                < c.probed@[5].max_rate
            &&& c.probed@[up].max_rate == 0 ==> asked.upstream == SymbolRate::S3200
        }),
{
    let rates = s.upstream_rates(c, far);
    the_fastest_is_the_fastest(rates);
    assert(rates[3] == c.probed@[3].max_rate && rates[4] == c.probed@[4].max_rate);
    assert(rates[0] == 0 && rates[1] == 0 && rates[2] == 0);
    assert(far.upstream_3429 && s.ours.transmit_3429 ==> rates[5] == c.probed@[5].max_rate);
    assert(!(far.upstream_3429 && s.ours.transmit_3429) ==> rates[5] == 0);
}

/// Phase 2 opens with the carrier up and this end's INFO0 going out, nothing heard and
/// nothing settled; the call modem and the answer modem each at their own first stage.
pub proof fn phase_2_opens_with_info0(role: Role, pcm: Option<Pcm>, fs: u32)
    ensures
        ({
            let m = opened(role, pcm, fs);
            &&& m.s.role == role && m.s.pcm == pcm && m.s.fs == fs && m.s.now == 0
            &&& m.s.status == Status::Running
            &&& m.s.stage == match role {
                Role::Call => Stage::CallInfo0,
                Role::Answer => Stage::AnswerInfo0,
            }
            &&& m.s.line() == Line::Carrier
            &&& m.tx.on && m.tx.pending == framed(m.s.info0())
            &&& m.s.far is None && m.s.info1c is None && m.s.info1a is None
            &&& m.s.round_trip is None && m.s.reading is None
            &&& m.s.ours.rate_2743 && m.s.ours.rate_2800 && m.s.ours.rate_3429
            &&& m.s.ours.transmit_3429 && m.s.ours.constellation_1664 && m.s.ours.asymmetry == 5
            &&& !m.s.ours.acknowledge
        }),
{
    assert(Seq::<bool>::empty() + framed(
        opened(role, pcm, fs).s.info0(),
    ) =~= framed(opened(role, pcm, fs).s.info0()));
}

/// The far end's INFO0 is kept and from then on acknowledged; one that comes again while
/// this end is still at INFO0 has this end's sent again, with the acknowledgement in it.
pub proof fn an_info0_is_acknowledged(m: Standing, far: Info0, h: Heard)
    requires
        m.s.far_info0_count < u32::MAX,
        m.s.now <= 0x1_0000_0000,
        m.s.fs <= FASTEST,
    ensures
        ({
            let next = m.heard(Info::Info0(far), h);
            &&& next.s.far == Some(far)
            &&& next.s.ours == (Info0 { acknowledge: true, ..m.s.ours })
            &&& next.s.stage == m.s.stage && next.s.status == m.s.status
            &&& next.s.ignore_reversals_until == m.s.now + nearest(m.s.fs, 40)
            &&& m.s.far_info0_count >= 1 && (m.s.stage == Stage::CallInfo0 || m.s.stage
                == Stage::AnswerInfo0) ==> next.tx.on && next.tx.pending == m.tx.pending
                + framed(next.s.info0())
            &&& m.s.far_info0_count == 0 ==> next.tx == m.tx
            &&& m.s.pcm is None ==> next.s.far_flags == m.s.far_flags
        }),
{
    reveal(Standing::heard);
    a_time_is_counted_to_the_nearest_sample(m.s.fs, 40);
    lemma_short(m.s.fs, 40);
}

proof fn lemma_short(fs: u32, ms: nat)
    requires
        ms <= 30000,
    ensures
        nearest(fs, ms) <= 30 * fs + 1,
        samples(fs, ms) == nearest(fs, ms),
{
    a_time_is_counted_to_the_nearest_sample(fs, ms);
    assert(ms * fs <= 30000 * fs) by (nonlinear_arith)
        requires
            ms <= 30000,
    ;
}

/// INFO1a is what ends phase 2 at the call modem, and only once it has sent its INFO1c. A
/// V.90 one ends it too, in a V.90 role.
pub proof fn an_info1a_ends_it(m: Standing, h: Heard, a: Info1a, p: Info1aPcm)
    ensures
        ({
            let next = m.heard(Info::Info1a(a), h);
            if m.s.role == Role::Call && m.s.stage == Stage::CallInfo1 {
                next.s.status == Status::Done && next.s.stage == Stage::Finished && next.s.info1a
                    == Some(a)
            } else {
                next == m
            }
        }),
        ({
            let next = m.heard(Info::Info1aPcm(p), h);
            if m.s.role == Role::Call && m.s.stage == Stage::CallInfo1 && m.s.pcm is Some {
                next.s.status == Status::Done && next.s.info1a_pcm == Some(p)
                    && next.s.info1a_pcm_up is None
            } else {
                next == m
            }
        }),
{
    reveal(Standing::heard);
}

/// A request for PCM upstream is taken only by a digital V.92 modem whose far end has shown
/// V.92 and whose INFO1d allowed it, and is otherwise counted as not received.
pub proof fn pcm_upstream_is_taken_only_where_allowed(m: Standing, h: Heard, asked: Info1aPcmUp)
    requires
        m.s.role == Role::Call,
        m.s.stage == Stage::CallInfo1,
        m.s.pcm is Some,
    ensures
        ({
            let next = m.heard(Info::Info1aPcmUp(asked), h);
            let capable = m.s.pcm->0.wishes().capable && m.s.far_flags.v92;
            if capable && m.s.sent_pcm_upstream {
                next.s.status == Status::Done && next.s.info1a_pcm_up == Some(asked)
                    && next.s.info1a_pcm is None
            } else {
                next.s.status == m.s.status && next.s.stage == m.s.stage && next.s.info1a_pcm_up
                    == m.s.info1a_pcm_up && next.s.refused_info1a is Some
            }
        }),
{
    reveal(Standing::heard);
}

/// The answer modem answers INFO1c, and only in its place: with what it settles on, sent
/// once and the carrier dropped behind it. Outside a PCM role that is V.34's.
pub proof fn an_info1c_is_answered(m: Standing, h: Heard, c: Info1c)
    requires
        m.s.pcm is None,
    ensures
        ({
            let next = m.heard(Info::Info1c(c), h);
            if m.s.role == Role::Answer && m.s.stage == Stage::AnswerInfo1 {
                let settled = (Progress { info1c: Some(c), ..m.s }).settles(c);
                &&& next.s.info1c == Some(c)
                &&& next.s.info1a == Info1a::of_info(settled.info())
                &&& next.tx.pending == m.tx.pending + framed(settled.info())
                &&& !next.tx.on
                &&& next.s.line() == Line::Carrier
                &&& next.s.status == m.s.status
            } else {
                next == m
            }
        }),
{
    reveal(Standing::heard);
}

/// An analogue modem that has heard an INFO0d asks for PCM upstream where it may, and for
/// V.90 where it has not given that up; and for V.34 otherwise.
pub proof fn an_analogue_modem_asks_for_the_most_it_may(m: Standing, h: Heard, c: Info1c)
    requires
        m.s.role == Role::Answer,
        m.s.stage == Stage::AnswerInfo1,
        m.s.pcm is Some,
        m.s.pcm->0.plays() == Role::Answer,
        m.s.far_info0d is Some,
    ensures
        ({
            let next = m.heard(Info::Info1c(c), h);
            let wish = m.s.pcm->0.wishes();
            let upstream = wish.capable && m.s.far_flags.v92 && c.probed@[5].high_carrier
                && wish.pcm_upstream && !m.s.pcm_up_declined && !m.s.pcm_declined;
            &&& upstream ==> next.s.info1a_pcm is None && (next.s.info1a_pcm_up matches Some(asked)
                && asked.uinfo == h.codeword_v92 && asked.sections == wish.up_caps.sections
                && asked.ltot_code == wish.up_caps.ltot_code && asked.lmax_code
                == wish.up_caps.lmax_code)
            &&& !upstream && !m.s.pcm_declined ==> next.s.info1a_pcm_up is None && next.tx.pending
                == m.tx.pending + framed(
                (Progress { info1c: Some(c), ..m.s }).asks_pcm(
                    c,
                    m.s.far_info0d->0,
                    h.codeword,
                ).info(),
            )
            &&& m.s.pcm_declined ==> next.s.info1a == Info1a::of_info(
                (Progress { info1c: Some(c), ..m.s }).settles(c).info(),
            )
        }),
{
    reveal(Standing::heard);
}

/// When a far reversal is answered: 40 ms after it, or at once where that has gone by.
pub open spec fn answered_at(s: Progress, at: u64) -> int {
    if at + nearest(s.fs, 40) > s.now + 1 {
        at + nearest(s.fs, 40)
    } else {
        s.now + 1
    }
}

/// What a reversal of the far end's tone does. The call modem answers the first in 40 ms
/// and waits two seconds for the second, which gives it the round trip; the answer modem
/// has the round trip from the first answer to its own. What is read of L2 is from 190 ms
/// to 470 ms behind the reversal that L1 follows.
pub proof fn a_reversal_is_answered_in_40_ms(m: Standing, at: u64)
    requires
        m.wf(),
        m.s.status == Status::Running,
        at <= m.s.now,
        m.s.now <= 20 * m.s.fs + 1,
    ensures
        ({
            let next = m.reversal(at);
            let s = m.s;
            let ours = s.reversed_at->0;
            let answers = s.reversed_at is Some && at > ours;
            let trip = if at - ours > nearest(s.fs, 40) {
                at - ours - nearest(s.fs, 40)
            } else {
                0
            };
            &&& s.stage == Stage::CallFirstReversal ==> {
                &&& next.s.stage == Stage::CallRanging
                &&& next.s.first_reversal_at == Some(at)
                &&& next.s.reverse_at is Some && next.s.reverse_at->0 == answered_at(s, at)
                &&& next.s.deadline is Some && next.s.deadline->0 == at + nearest(s.fs, 2000)
            }
            &&& s.stage == Stage::CallRanging && answers ==> {
                &&& next.s.stage == Stage::CallReadProbe
                &&& next.s.round_trip is Some && next.s.round_trip->0 == trip
                &&& next.s.read_from == at + nearest(s.fs, 170) + nearest(s.fs, 20)
                &&& next.s.read_until == at + nearest(s.fs, 170) + nearest(s.fs, 300)
            }
            &&& s.stage == Stage::CallAwaitTone && (s.held > 0 || s.now - s.since > nearest(
                s.fs,
                100,
            )) ==> {
                &&& next.s.stage == Stage::CallSendProbe
                &&& next.s.reverse_at is Some && next.s.reverse_at->0 == answered_at(s, at)
                &&& next.s.probe_at is Some && next.s.probe_at->0 == answered_at(s, at) + nearest(
                    s.fs,
                    10,
                )
            }
            &&& s.stage == Stage::AnswerRanging && answers ==> {
                &&& next.s.stage == Stage::AnswerSendProbe
                &&& next.s.round_trip is Some && next.s.round_trip->0 == trip
                &&& next.s.reverse_at is Some && next.s.reverse_at->0 == answered_at(s, at)
                &&& next.s.probe_at is Some
            }
            &&& s.stage == Stage::AnswerProbeReversal ==> {
                &&& next.s.stage == Stage::AnswerReadProbe
                &&& next.s.read_from == at + nearest(s.fs, 170) + nearest(s.fs, 20)
                &&& next.s.read_until == at + nearest(s.fs, 170) + nearest(s.fs, 300)
            }
            &&& (s.stage == Stage::CallRanging || s.stage == Stage::AnswerRanging) && !answers
                ==> next == m
            &&& s.stage == Stage::CallInfo0 || s.stage == Stage::AnswerInfo0 || s.stage
                == Stage::CallInfo1 || s.stage == Stage::AnswerInfo1 ==> next == m
            &&& next.tx == m.tx && next.s.speaking == s.speaking && next.s.status == s.status
        }),
{
    reveal(Standing::reversal);
    lemma_short(m.s.fs, 40);
    lemma_short(m.s.fs, 10);
    lemma_short(m.s.fs, 20);
    lemma_short(m.s.fs, 100);
    lemma_short(m.s.fs, 170);
    lemma_short(m.s.fs, 300);
    lemma_short(m.s.fs, 2000);
}

/// What is scheduled happens when it is: the tone starts, the tone turns over, and 10 ms
/// after it turns over it stops, into 160 ms of L1 and then L2 where a probe is due and
/// into silence where none is.
pub proof fn what_is_scheduled_happens(m: Standing)
    requires
        m.wf(),
        m.s.status == Status::Running,
        m.s.now <= 20 * m.s.fs + 1,
        m.s.tone_at is None,
    ensures
        ({
            let next = m.timers();
            let turns = m.s.reverse_at == Some(m.s.now);
            &&& turns ==> {
                &&& next.s.reversed_at == Some(m.s.now)
                &&& next.s.reverse_at is None
                &&& nearest(m.s.fs, 10) > 0 ==> next.s.silence_at is Some && next.s.silence_at->0
                    == m.s.now + nearest(m.s.fs, 10) && next.tx.point == -m.tx.point
            }
            &&& !turns ==> next.s.reverse_at == m.s.reverse_at && next.s.reversed_at
                == m.s.reversed_at
            &&& !turns && m.s.silence_at == Some(m.s.now) ==> {
                &&& next.s.silence_at is None && next.s.probe_at is None
                &&& next.tx.pending.len() == 0 && !next.tx.on
                &&& m.s.probe_at is None ==> next.s.line() == Line::Silence
                &&& m.s.probe_at is Some ==> (next.s.speaking matches Speaking::Probe { l1_until }
                    && l1_until == m.s.now + nearest(m.s.fs, 160))
            }
            &&& !turns && m.s.silence_at != Some(m.s.now) ==> next == m
        }),
{
    reveal(Standing::timers);
    lemma_short(m.s.fs, 10);
    lemma_short(m.s.fs, 160);
}

/// What goes on the line: L1 up to where it ends and L2 from there, while the probe is.
pub proof fn l1_comes_before_l2(s: Progress)
    ensures
        s.speaking == Speaking::Silent ==> s.line() == Line::Silence,
        s.speaking == Speaking::Carrier ==> s.line() == Line::Carrier,
        s.speaking matches Speaking::Probe { l1_until } ==> s.line() == if s.now < l1_until {
            Line::L1
        } else {
            Line::L2
        },
{
}

/// The far end's tone is there where it is audible and above a twentieth of what is either
/// side of it, and is counted without a break.
pub proof fn a_tone_is_counted_without_a_break(m: Standing, h: Heard)
    requires
        m.wf(),
        m.s.now < 0x1_0000_0000,
    ensures
        h.tone_there() <==> h.tone > 8000 && 20 * h.tone > h.below && 20 * h.tone > h.above,
        m.hear(h).s.now == m.s.now + 1,
        m.hear(h).s.held == if h.tone_there() {
            m.s.held + 1
        } else {
            0
        },
{
}

/// The call modem, stage by stage. INFO0 gone and the far end's here, it waits for tone A's
/// reversal. Two seconds without an answer to its own and it begins again. L2 read, it
/// sends tone B and waits 900 ms and a round trip for the next reversal, and without it
/// goes on 40 ms later as though it had come.
pub proof fn the_call_modem_goes_on(m: Standing, h: Heard)
    requires
        m.wf(),
        m.s.status == Status::Running,
        m.s.now <= 20 * m.s.fs + 1,
    ensures
        ({
            let next = m.stage_step(h);
            let s = m.s;
            let late = s.deadline is Some && s.now > s.deadline->0;
            &&& s.stage == Stage::CallInfo0 ==> if s.far is Some && m.tx.pending.len() == 0 {
                next.s.stage == Stage::CallFirstReversal
            } else {
                next == m
            }
            &&& s.stage == Stage::CallRanging ==> if late {
                next.s.stage == Stage::CallFirstReversal && next.s.reversed_at is None
                    && next.s.recoveries == s.recoveries + 1
            } else {
                next == m
            }
            &&& s.stage == Stage::CallReadProbe ==> if s.now >= s.read_until {
                &&& next.s.stage == Stage::CallAwaitTone
                &&& next.s.reading == h.reading
                &&& next.s.line() == Line::Carrier && next.tx.on
                &&& next.s.deadline is Some && next.s.deadline->0 == s.now + nearest(s.fs, 900)
                    + s.rtd()
                &&& next.s.ignore_reversals_until == s.now + nearest(s.fs, 50)
            } else {
                next == m
            }
            &&& s.stage == Stage::CallAwaitTone ==> if late && s.reverse_at is None {
                &&& next.s.stage == Stage::CallSendProbe
                &&& next.s.reverse_at is Some && next.s.reverse_at->0 == s.now + nearest(s.fs, 40)
                &&& next.s.probe_at is Some
                &&& next.s.recoveries == s.recoveries + 1
            } else {
                next == m
            }
        }),
{
    reveal(Standing::stage_step);
    lemma_short(m.s.fs, 40);
    lemma_short(m.s.fs, 50);
    lemma_short(m.s.fs, 900);
}

/// And to its end: after its probe, tone A heard for 20 ms past L1 has it send INFO1c; a
/// second after that and a round trip without an INFO1a, or without tone A 950 ms after L2
/// begins and a round trip, it gives up for a retrain.
pub proof fn the_call_modem_sends_its_results(m: Standing, h: Heard)
    requires
        m.wf(),
        m.s.status == Status::Running,
        m.s.now <= 20 * m.s.fs + 1,
    ensures
        ({
            let next = m.stage_step(h);
            let s = m.s;
            &&& s.stage == Stage::CallSendProbe && s.speaking is Probe ==> {
                let l1_until = s.speaking->l1_until;
                let limit = if s.deadline is Some {
                    s.deadline->0 as int
                } else {
                    l1_until + nearest(s.fs, 950) + s.rtd()
                };
                if s.now > l1_until && s.held >= nearest(s.fs, 20) {
                    &&& next.s.stage == Stage::CallInfo1
                    &&& next.s.line() == Line::Carrier
                    &&& next.s.info1c == Some(Info1c::of_info(s.info1c_sent()))
                    &&& next.tx.pending == framed(s.info1c_sent())
                    &&& !next.tx.on
                } else if s.now > limit {
                    next.s.status is Failed && next.s.retrain_instead
                } else {
                    next.s.stage == Stage::CallSendProbe && next.s.status == Status::Running
                }
            }
            &&& s.stage == Stage::CallInfo1 ==> {
                let limit = if s.deadline is Some {
                    s.deadline->0 as int
                } else {
                    s.now + nearest(s.fs, 700) + s.rtd() + nearest(s.fs, 300)
                };
                if s.deadline is Some && s.now > limit {
                    next.s.status is Failed && next.s.retrain_instead
                } else {
                    &&& next.s.stage == Stage::CallInfo1 && next.s.status == Status::Running
                    &&& s.deadline is None && m.tx.pending.len() == 0 ==> next.s.deadline is Some
                        && next.s.deadline->0 == limit
                }
            }
        }),
{
    reveal(Standing::stage_step);
    lemma_short(m.s.fs, 20);
    lemma_short(m.s.fs, 300);
    lemma_short(m.s.fs, 700);
    lemma_short(m.s.fs, 950);
    lemma_short(m.s.fs, 160);
    let sent = framed(m.s.info1c_sent());
    assert(Seq::<bool>::empty() + sent =~= sent);
    if m.s.stage == Stage::CallSendProbe && m.s.speaking is Probe {
        let timed = m.timed_from(m.s.speaking->l1_until, 950);
        assert(timed.s.info1c_sent() == m.s.info1c_sent());
    }
}

/// The answer modem, stage by stage. Tone B heard for 20 ms and tone A sent for 50, it
/// turns tone A over and waits two seconds for an answer. L2 read, it
/// sends tone A and waits two seconds and two round trips for INFO1c; and INFO1a gone, it is done.
pub proof fn the_answer_modem_goes_on(m: Standing, h: Heard)
    requires
        m.wf(),
        m.s.status == Status::Running,
        m.s.now <= 20 * m.s.fs + 1,
    ensures
        ({
            let next = m.stage_step(h);
            let s = m.s;
            let late = s.deadline is Some && s.now > s.deadline->0;
            &&& s.stage == Stage::AnswerInfo0 ==> if s.far is Some && m.tx.pending.len() == 0 {
                next.s.stage == Stage::AnswerAwaitTone
            } else {
                next == m
            }
            &&& s.stage == Stage::AnswerAwaitTone ==> if s.tone_at is None && s.held >= nearest(
                s.fs,
                20,
            ) && s.now - s.since >= nearest(s.fs, 50) {
                &&& next.s.stage == Stage::AnswerRanging
                &&& next.s.reverse_at is Some && next.s.reverse_at->0 == s.now + 1
                &&& next.s.deadline is Some && next.s.deadline->0 == s.now + nearest(s.fs, 2000)
                &&& next.s.ignore_reversals_until == s.now + nearest(s.fs, 40)
            } else {
                next == m
            }
            &&& s.stage == Stage::AnswerRanging ==> if late {
                next.s.stage == Stage::AnswerAwaitTone && next.s.reversed_at is None
                    && next.s.recoveries == s.recoveries + 1
            } else {
                &&& next.s.stage == Stage::AnswerRanging
                &&& s.reversed_at is Some && s.probe_at is None ==> next.s.silence_at is None
            }
            &&& s.stage == Stage::AnswerReadProbe ==> if s.now >= s.read_until {
                &&& next.s.stage == Stage::AnswerInfo1
                &&& next.s.reading == h.reading
                &&& next.s.line() == Line::Carrier && next.tx.on
                &&& next.s.deadline is Some && next.s.deadline->0 == s.now + nearest(s.fs, 2000) + 2
                    * s.rtd()
            } else {
                next == m
            }
            &&& s.stage == Stage::AnswerInfo1 ==> {
                let answered = s.info1a is Some || s.info1a_pcm is Some || s.info1a_pcm_up is Some;
                if answered {
                    next.s.status == if m.tx.sending() {
                        Status::Running
                    } else {
                        Status::Done
                    }
                } else if late {
                    next.s.status is Failed && next.s.retrain_instead
                } else {
                    next == m
                }
            }
        }),
{
    reveal(Standing::stage_step);
    lemma_short(m.s.fs, 20);
    lemma_short(m.s.fs, 40);
    lemma_short(m.s.fs, 50);
    lemma_short(m.s.fs, 900);
    lemma_short(m.s.fs, 2000);
}

/// Past its own probe: tone B heard for 20 ms past L1 has it send tone A for 50 ms and turn
/// it over, and without it for 900 ms and a round trip it goes back to its first tone.
pub proof fn the_answer_modem_ends_its_probe(m: Standing, h: Heard)
    requires
        m.wf(),
        m.s.status == Status::Running,
        m.s.now <= 20 * m.s.fs + 1,
    ensures
        ({
            let next = m.stage_step(h);
            let s = m.s;
            &&& s.stage == Stage::AnswerSendProbe && s.speaking is Probe ==> {
                let l1_until = s.speaking->l1_until;
                let limit = if s.deadline is Some {
                    s.deadline->0 as int
                } else {
                    l1_until + nearest(s.fs, 900) + s.rtd()
                };
                if s.now > l1_until && s.held >= nearest(s.fs, 20) {
                    &&& next.s.stage == Stage::AnswerProbeReversal
                    &&& next.s.line() == Line::Carrier && next.tx.on
                    &&& next.s.reverse_at is Some && next.s.reverse_at->0 == s.now + nearest(
                        s.fs,
                        50,
                    )
                } else if s.now > limit {
                    next.s.stage == Stage::AnswerAwaitTone && next.s.line() == Line::Carrier
                        && next.s.recoveries == s.recoveries + 1
                } else {
                    next.s.stage == Stage::AnswerSendProbe
                }
            }
        }),
{
    reveal(Standing::stage_step);
    lemma_short(m.s.fs, 20);
    lemma_short(m.s.fs, 50);
    lemma_short(m.s.fs, 60);
    lemma_short(m.s.fs, 160);
    lemma_short(m.s.fs, 900);
}

/// While it is deaf a reversal makes no difference, whatever else is heard with it.
pub proof fn a_reversal_is_not_heard_while_deaf(m: Standing, h: Heard)
    requires
        m.wf(),
        m.s.now < 0x1_0000_0000,
        m.s.now + 1 < m.s.ignore_reversals_until,
    ensures
        m.step(h) == m.step((Heard { reversed: false, ..h })),
{
    reveal(Standing::run);
    let other = Heard { reversed: false, ..h };
    let heard = m.hear(h);
    assert(m.hear(other) == heard);
    let timed = heard.timers();
    if let Some(info) = h.info {
        assert(timed.heard(info, h) == timed.heard(info, other)) by {
            reveal(Standing::heard);
        }
    }
    let informed = match h.info {
        Some(info) => timed.heard(info, h),
        None => timed,
    };
    assert(informed.stage_step(h) == informed.stage_step(other)) by {
        reveal(Standing::stage_step);
    }
}

/// A reversal is put where it was on the line, which is as long ago as its detector takes.
pub proof fn a_reversal_is_put_where_it_was(m: Standing, h: Heard)
    requires
        m.wf(),
        m.s.status == Status::Running,
        m.s.now < 20 * m.s.fs - 1,
        h.info is None,
        h.reversed,
        m.s.ignore_reversals_until <= m.s.now + 1,
        h.latency <= m.s.now,
        h.latency <= nearest(m.s.fs, 2000),
        m.s.stage == Stage::CallFirstReversal,
    ensures
        m.step(h).s.first_reversal_at is Some,
        m.step(h).s.first_reversal_at->0 == m.s.now + 1 - h.latency,
        m.step(h).s.stage == Stage::CallRanging,
{
    reveal(Standing::run);
    lemma_short(m.s.fs, 20000);
    lemma_short(m.s.fs, 2000);
    lemma_short(m.s.fs, 40);
    assert(20000 * m.s.fs == 1000 * (20 * m.s.fs)) by (nonlinear_arith);
    let timed = m.hear(h).timers();
    assert(timed.s.stage == m.s.stage && timed.s.now == m.s.now + 1 && timed.s.fs == m.s.fs) by {
        reveal(Standing::timers);
    }
    let at = (m.s.now + 1 - h.latency) as u64;
    let ranged = timed.reversal(at);
    assert(ranged.s.stage == Stage::CallRanging && ranged.s.first_reversal_at == Some(at)
        && ranged.s.now == timed.s.now && ranged.s.deadline == Some(
        (at + samples(m.s.fs, 2000)) as u64,
    )) by {
        reveal(Standing::reversal);
    }
    assert(ranged.stage_step(h) == ranged) by {
        reveal(Standing::stage_step);
    }
}

/// What goes out as INFO0: this end's capabilities as they stand, and from an analogue
/// V.92 modem its two flags in them.
pub proof fn an_info0_says_what_this_end_can_do(s: Progress)
    requires
        s.pcm is None || s.pcm->0 is Analogue || s.pcm->0 is AnalogueV92,
    ensures
        s.pcm is None || s.pcm->0 is Analogue ==> s.info0() == s.ours.info(),
        s.pcm is Some && s.pcm->0 is AnalogueV92 ==> s.info0() == (Info0 {
            clock: two_flags(
                s.pcm->0->AnalogueV92_0.capable,
                s.pcm->0->AnalogueV92_0.short_phase2,
            ),
            ..s.ours
        }).info(),
{
    reveal(Progress::info0);
    if s.pcm is Some && s.pcm->0 is AnalogueV92 {
        let wish = s.pcm->0->AnalogueV92_0;
        let said = Info0 { clock: two_flags(wish.capable, wish.short_phase2), ..s.ours };
        assert(s.ours.with_flags(wish.flagged()) == said);
    }
}

/// Two bits as a number, the first weighing one.
pub open spec fn two_flags(first: bool, second: bool) -> u8 {
    ((if first {
        1int
    } else {
        0
    }) + (if second {
        2int
    } else {
        0
    })) as u8
}

/// A digital modem's is an INFO0d around them, with the two flags from a V.92 one the
/// other way about.
pub proof fn an_info0d_says_what_this_end_can_do(s: Progress)
    requires
        s.pcm is Some,
        s.pcm->0 is Digital || s.pcm->0 is DigitalV92,
        s.ours.clock == 0,
    ensures
        s.pcm->0 is Digital ==> s.info0() == (Info0d { v34: s.ours, ..s.pcm->0->Digital_0 }).info(),
        s.pcm->0 is DigitalV92 ==> s.info0() == (Info0d {
            v34: Info0 {
                clock: (4 * two_flags(
                    s.pcm->0->DigitalV92_1.short_phase2,
                    s.pcm->0->DigitalV92_1.capable,
                )) as u8,
                ..s.ours
            },
            ..s.pcm->0->DigitalV92_0
        }).info(),
{
    reveal(Progress::info0);
    if s.pcm->0 is DigitalV92 {
        let (d, wish) = (s.pcm->0->DigitalV92_0, s.pcm->0->DigitalV92_1);
        let said = Info0d {
            v34: Info0 {
                clock: (4 * two_flags(wish.short_phase2, wish.capable)) as u8,
                ..s.ours
            },
            ..d
        };
        assert((Info0d { v34: s.ours, ..d }).with_flags(wish.flagged()) == said);
    }
}

/// What goes out as INFO1c: what this end read at each symbol rate and the offset it
/// read, with nothing asked of power or of MD; and between two V.92 modems this end's own
/// verdict on PCM upstream in place of the carrier at 3429.
pub proof fn an_info1c_says_what_was_read(s: Progress, c: Info1c, i: int)
    requires
        0 <= i < 6,
        c.probed@ == s.results(),
        c.min_power_reduction == 0,
        c.additional_power_reduction == 0,
        c.md_length == 0,
        c.frequency_offset == s.offset(),
    ensures
        s.info1c_sent() == c.info(),
        s.reading is Some ==> {
            let read = s.reading->0.probed@[i];
            let both = s.pcm is Some && s.pcm->0.wishes().capable && s.far_flags.v92;
            &&& c.probed@[i].max_rate == read.max_rate
            &&& c.probed@[i].pre_emphasis == read.pre_emphasis
            &&& c.probed@[i].high_carrier == (if both && i == 5 {
                s.pcm->0.wishes().pcm_upstream
            } else {
                read.high_carrier
            })
            &&& c.frequency_offset == s.reading->0.frequency_offset
        },
        s.reading is None ==> c.probed@[i].max_rate == 0 && c.frequency_offset is None,
{
    let sent = s.info1c_sent();
    assert(sent =~= c.info());
}

/// A digital modem's INFO0d is kept whole, and stands as the INFO0 inside it; in a PCM role
/// its flags are read where an INFO0d has them, and stay read so.
pub proof fn an_info0d_is_kept(m: Standing, far: Info0d, h: Heard)
    requires
        m.s.far_info0_count < u32::MAX,
    ensures
        ({
            let next = m.heard(Info::Info0d(far), h);
            &&& next.s.far_info0d == Some(far)
            &&& next.s.far == Some(far.v34)
            &&& next.s.ours.acknowledge
            &&& next.s.far_info0_count == m.s.far_info0_count + 1
            &&& m.s.pcm is Some ==> next.s.far_flags.v92 == (far.v34.clock / 8 % 2 == 1)
                && next.s.far_flags.short_phase2 == (far.v34.clock / 4 % 2 == 1)
            &&& m.s.pcm is None ==> next.s.far_flags == m.s.far_flags
        }),
{
    reveal(Standing::heard);
}

/// An analogue modem's flags are read where an INFO0 has them.
pub proof fn an_info0s_flags_are_read(m: Standing, far: Info0, h: Heard)
    requires
        m.s.far_info0_count < u32::MAX,
    ensures
        ({
            let next = m.heard(Info::Info0(far), h);
            &&& m.s.pcm is Some && m.s.far_info0d is None ==> next.s.far_flags.v92 == (far.clock % 2
                == 1) && next.s.far_flags.short_phase2 == (far.clock / 2 % 2 == 1)
            &&& m.s.far_info0d is Some ==> next.s.far_flags == m.s.far_flags
            &&& next.s.far_info0d == m.s.far_info0d
            &&& next.s.far_info0_count == m.s.far_info0_count + 1
        }),
{
    reveal(Standing::heard);
}

/// Whether PCM upstream was allowed is remembered as INFO1c goes out, between two V.92
/// modems and nowhere else.
pub proof fn what_was_allowed_is_remembered(m: Standing)
    ensures
        ({
            let next = m.send_info1c();
            let both = m.s.pcm is Some && m.s.pcm->0.wishes().capable && m.s.far_flags.v92;
            next.s.sent_pcm_upstream == (if both {
                m.s.pcm->0.wishes().pcm_upstream
            } else {
                m.s.sent_pcm_upstream
            })
        }),
{
}

/// A tone that is due starts at its sample, and its time is counted from there.
pub proof fn a_tone_starts_when_it_is_due(m: Standing)
    requires
        m.wf(),
        m.s.status == Status::Running,
        m.s.now <= 20 * m.s.fs + 1,
        m.s.tone_at is Some,
        m.s.reverse_at is None,
        m.s.silence_at is None,
    ensures
        ({
            let next = m.timers();
            if m.s.tone_at->0 == m.s.now {
                &&& next.s.line() == Line::Carrier
                &&& next.tx.on
                &&& next.s.since == m.s.now
                &&& next.s.tone_at is None
            } else {
                next == m
            }
        }),
{
    reveal(Standing::timers);
}

/// A call modem that is silent before its first reversal, with no tone due, starts tone B
/// once it has heard tone A for 20 ms, and waits for the reversal however long.
pub proof fn tone_b_answers_tone_a(m: Standing, h: Heard)
    requires
        m.wf(),
        m.s.status == Status::Running,
        m.s.stage == Stage::CallFirstReversal,
    ensures
        ({
            let next = m.stage_step(h);
            &&& next.s.stage == Stage::CallFirstReversal
            &&& next.s.status == Status::Running
            &&& m.s.speaking == Speaking::Silent && m.s.tone_at is None && m.s.held >= nearest(
                m.s.fs,
                20,
            ) ==> next.s.line() == Line::Carrier && next.tx.on
            &&& m.s.speaking != Speaking::Silent || m.s.tone_at is Some || m.s.held < nearest(
                m.s.fs,
                20,
            ) ==> next == m
        }),
{
    reveal(Standing::stage_step);
    lemma_short(m.s.fs, 20);
}

/// A call modem that has only just read L2, and hears no tone A, does not take a reversal
/// for the next one.
pub proof fn a_reversal_without_a_tone_is_not_taken(m: Standing, at: u64)
    requires
        m.wf(),
        m.s.stage == Stage::CallAwaitTone,
        m.s.held == 0,
        m.s.now - m.s.since <= nearest(m.s.fs, 100),
    ensures
        m.reversal(at) == m,
{
    reveal(Standing::reversal);
    lemma_short(m.s.fs, 100);
}

/// The answer modem's probe follows its reversal by 10 ms, and the call modem's does where
/// it goes on without one; and past its probe the answer modem is deaf for 60 ms.
pub proof fn a_probe_follows_its_reversal(m: Standing, at: u64, h: Heard)
    requires
        m.wf(),
        m.s.status == Status::Running,
        at <= m.s.now,
        m.s.now <= 20 * m.s.fs + 1,
    ensures
        m.s.stage == Stage::AnswerRanging && m.s.reversed_at is Some && at > m.s.reversed_at->0 ==> {
            let next = m.reversal(at);
            next.s.probe_at is Some && next.s.probe_at->0 == next.s.reverse_at->0 + nearest(
                m.s.fs,
                10,
            )
        },
        m.s.stage == Stage::CallAwaitTone && m.s.deadline is Some && m.s.now > m.s.deadline->0
            && m.s.reverse_at is None ==> {
            let next = m.stage_step(h);
            next.s.probe_at is Some && next.s.probe_at->0 == next.s.reverse_at->0 + nearest(
                m.s.fs,
                10,
            )
        },
        m.s.stage == Stage::AnswerSendProbe && m.s.speaking is Probe && m.s.now
            > m.s.speaking->l1_until && m.s.held >= nearest(m.s.fs, 20) ==> m.stage_step(
            h,
        ).s.ignore_reversals_until == m.s.now + nearest(m.s.fs, 60),
{
    reveal(Standing::reversal);
    reveal(Standing::stage_step);
    lemma_short(m.s.fs, 10);
    lemma_short(m.s.fs, 20);
    lemma_short(m.s.fs, 40);
    lemma_short(m.s.fs, 60);
    lemma_short(m.s.fs, 160);
    lemma_short(m.s.fs, 900);
}

/// A stage that is entered counts its time from there, and has no deadline but its own.
pub proof fn a_stage_counts_from_its_start(m: Standing, stage: Stage)
    ensures
        ({
            let next = m.enter(stage);
            &&& next.s.stage == stage
            &&& next.s.since == m.s.now
            &&& next.s.deadline is None
            &&& next.s.now == m.s.now
            &&& next.tx == m.tx
            &&& next.s.speaking == m.s.speaking
        }),
{
}

/// Phase 2 is given twenty seconds: a sample past them it has failed, without asking for a
/// retrain, and up to them it has failed only for want of INFO1c, INFO1a or tone A, which
/// asks for one.
pub proof fn phase_2_is_given_twenty_seconds(m: Standing, h: Heard)
    requires
        m.wf(),
        m.s.status == Status::Running,
        m.s.now < 0x1_0000_0000,
    ensures
        m.s.now + 1 > nearest(m.s.fs, 20000) ==> {
            let next = m.step(h);
            next.s.status is Failed && next.s.retrain_instead == m.s.retrain_instead
                && next.s.line() == Line::Silence
        },
        m.s.now + 1 <= nearest(m.s.fs, 20000) && m.step(h).s.status is Failed ==> m.step(
            h,
        ).s.retrain_instead,
{
    lemma_short(m.s.fs, 20000);
    let heard = m.hear(h);
    assert(samples(m.s.fs, 20000) == nearest(m.s.fs, 20000));
    if m.s.now + 1 <= nearest(m.s.fs, 20000) {
        let timed = heard.timers();
        lemma_timers_run(heard);
        let informed = match h.info {
            Some(info) => {
                lemma_heard_run(timed, info, h);
                timed.heard(info, h)
            },
            None => timed,
        };
        let at = if heard.s.now > h.latency {
            (heard.s.now - h.latency) as u64
        } else {
            0
        };
        lemma_reversal_run(informed, at);
        let ranged = if h.reversed && heard.s.now >= heard.s.ignore_reversals_until {
            informed.reversal(at)
        } else {
            informed
        };
        lemma_stage_run(ranged, h);
        assert(heard.run(h) == ranged.stage_step(h)) by {
            reveal(Standing::run);
        }
    } else {
        assert(heard.run(h) == heard.fail("phase 2 went on for twenty seconds")) by {
            reveal(Standing::run);
        }
    }
}

proof fn lemma_timers_run(m: Standing)
    requires
        m.s.status == Status::Running,
    ensures
        m.timers().s.status == Status::Running,
{
    reveal(Standing::timers);
}

proof fn lemma_heard_run(m: Standing, info: Info, h: Heard)
    requires
        m.s.status == Status::Running,
    ensures
        !(m.heard(info, h).s.status is Failed),
{
    reveal(Standing::heard);
}

proof fn lemma_reversal_run(m: Standing, at: u64)
    ensures
        m.reversal(at).s.status == m.s.status,
{
    reveal(Standing::reversal);
}

proof fn lemma_stage_run(m: Standing, h: Heard)
    requires
        !(m.s.status is Failed),
    ensures
        m.stage_step(h).s.status is Failed ==> m.stage_step(h).s.retrain_instead,
{
    reveal(Standing::stage_step);
}

/// A retrain skips INFO0: silent for 70 ms and deaf for 120, with the far end's INFO0 known
/// and acknowledged, each end at the stage its tone belongs to.
pub proof fn a_retrain_skips_info0(role: Role, pcm: Option<Pcm>, fs: u32, far: Info0)
    requires
        fs <= FASTEST,
    ensures
        ({
            let m = reopened(role, pcm, fs, far);
            &&& m.s.far == Some(far)
            &&& m.s.far_info0_count == 1
            &&& m.s.ours.acknowledge
            &&& m.s.tone_at is Some && m.s.tone_at->0 == nearest(fs, 70)
            &&& m.s.ignore_reversals_until == nearest(fs, 120)
            &&& m.s.stage == (match role {
                Role::Call => Stage::CallFirstReversal,
                Role::Answer => Stage::AnswerAwaitTone,
            })
            &&& m.s.line() == Line::Silence
            &&& !m.tx.on && m.tx.pending.len() == 0
            &&& m.s.status == Status::Running
            &&& m.s.pcm == pcm && m.s.role == role && m.s.fs == fs
        }),
{
    lemma_short(fs, 70);
    lemma_short(fs, 120);
}

/// A short phase 2 is agreed where both ends have V.92 and both asked for it, and never in
/// a retrain.
pub proof fn a_short_phase_2_takes_both_ends(s: Progress)
    ensures
        s.short_agreed() ==> s.pcm is Some && s.pcm->0.wishes().capable
            && s.pcm->0.wishes().short_phase2 && s.far_flags.v92 && s.far_flags.short_phase2,
        s.pcm is Some && s.pcm->0.wishes().capable && s.pcm->0.wishes().short_phase2
            && s.far_flags.v92 && s.far_flags.short_phase2 && !s.full_phase2_only
            ==> s.short_agreed(),
        !s.retrained().short_agreed(),
{
}

/// A retrain keeps who the two ends are and what they have declined, and forgets what was
/// read and settled.
pub proof fn a_retrain_keeps_who_the_ends_are(s: Progress)
    requires
        s.fs <= FASTEST,
    ensures
        ({
            let again = s.retrained();
            &&& again.role == s.role && again.pcm == s.pcm && again.fs == s.fs
            &&& s.far is Some ==> again.far == s.far
            &&& s.pcm is Some ==> again.far_info0d == s.far_info0d
            &&& again.far_flags == s.far_flags
            &&& again.pcm_declined == s.pcm_declined
            &&& again.pcm_up_declined == s.pcm_up_declined
            &&& again.full_phase2_only
            &&& again.now == 0 && again.status == Status::Running
            &&& again.round_trip is None && again.reading is None
            &&& again.info1c is None && again.info1a is None
            &&& again.info1a_pcm is None && again.info1a_pcm_up is None
            &&& again.line() == Line::Silence
        }),
{
}

/// What this end could receive is 2400 bit/s times the most it read at any symbol rate.
pub proof fn the_most_that_was_read_could_be_received(s: Progress, i: int)
    requires
        0 <= i < 6,
        s.reading is Some,
    ensures
        s.far is None ==> s.could_receive() is None,
        s.far is Some ==> s.could_receive() is Some && s.could_receive()->0 >= 2400 * read_at(s, i)
            && exists|k: int|
            0 <= k < 6 && (#[trigger] read_at(s, k)) * 2400 == s.could_receive()->0,
{
    let rates = crate::v34::phase2::rates_of(s.projected());
    lemma_highest(rates);
    assert(rates[i] == read_at(s, i));
    let k = choose|k: int| 0 <= k < 6 && rates[k] == crate::v34::phase2::highest(rates);
    assert(rates[k] == read_at(s, k));
}

proof fn lemma_highest(rates: Seq<u8>)
    ensures
        forall|i: int| 0 <= i < rates.len() ==> rates[i] <= crate::v34::phase2::highest(rates),
        rates.len() > 0 ==> exists|k: int|
            0 <= k < rates.len() && rates[k] == crate::v34::phase2::highest(rates),
    decreases rates.len(),
{
    if rates.len() > 0 {
        let before = rates.drop_last();
        lemma_highest(before);
        let most = crate::v34::phase2::highest(before);
        assert forall|i: int| 0 <= i < rates.len() implies rates[i]
            <= crate::v34::phase2::highest(rates) by {
            if i < before.len() {
                assert(before[i] == rates[i]);
            }
        }
        if rates.last() > most {
            assert(rates[rates.len() - 1] == crate::v34::phase2::highest(rates));
        } else if before.len() > 0 {
            let k = choose|k: int| 0 <= k < before.len() && before[k] == most;
            assert(rates[k] == crate::v34::phase2::highest(rates));
        } else {
            assert(rates[0] == 0);
        }
    }
}

/// Of the far end's L2 what is read is from 20 ms after it begins to 300 ms, L2 beginning
/// 170 ms after the reversal before it.
pub proof fn l2_is_read_for_280_ms(m: Standing, at: u64, sample: u64)
    requires
        m.wf(),
        m.s.status == Status::Running,
        at <= m.s.now,
        m.s.now <= 20 * m.s.fs + 1,
        m.s.stage == Stage::AnswerProbeReversal || (m.s.stage == Stage::CallRanging
            && m.s.reversed_at is Some && at > m.s.reversed_at->0),
    ensures
        ({
            let l2 = at + nearest(m.s.fs, 170);
            m.reversal(at).s.analysed(sample) <==> l2 + nearest(m.s.fs, 20) <= sample < l2 + nearest(
                m.s.fs,
                300,
            )
        }),
{
    a_reversal_is_answered_in_40_ms(m, at);
}

/// V.42's detection is skipped only where both ends have V.92 and both have LAPM.
pub proof fn a_bypass_takes_both_ends(s: Progress)
    ensures
        !s.bypasses(false),
        s.bypasses(true) <==> s.pcm is Some && s.pcm->0.wishes().capable && s.far_flags.v92,
{
}

/// The modulator moves on while the carrier is on the line, and stands still while it is
/// not: through L1 and L2, and in silence.
pub proof fn the_modulator_moves_with_the_carrier(m: Standing, h: Heard)
    ensures
        ({
            let before = if m.s.status is Running {
                m.hear(h).run(h)
            } else {
                m.hear(h)
            };
            let next = m.step(h);
            &&& next.s == before.s
            &&& next.s.line() == Line::Carrier ==> next.tx == before.tx.step()
            &&& next.s.line() != Line::Carrier ==> next.tx == before.tx
        }),
{
}

} // verus!
