//! What a negotiation does, in milliseconds and in messages: how long each end is
//! silent, what it waits for and what it then says.
use super::{channel, far_end, CallFunction, Ear, Heard, Menu, Modem, Modulation, Modulations};
use super::{Order, Role, State, Status};
use vstd::prelude::*;

verus! {

/// A sample of a line on which nothing has been made out.
pub open spec fn nothing_heard() -> Ear {
    Ear { ansam: false, plain: false }
}

/// The calling modem sends a space at 1180 Hz and a mark at 980, the answering modem at
/// 1850 and 1650, and each hears what the other sends.
pub proof fn each_end_has_its_channel(role: Role)
    ensures
        channel(Role::Calling) == (1180u32, 980u32),
        channel(Role::Answering) == (1850u32, 1650u32),
        far_end(Role::Calling) == Role::Answering,
        far_end(Role::Answering) == Role::Calling,
        channel(far_end(far_end(role))) == channel(role),
        channel(far_end(role)) != channel(role),
{
}

/// A set has a modulation once it was put in, and what else it had it still has.
pub proof fn a_modulation_put_in_is_there(set: Modulations, m: Modulation, other: Modulation)
    ensures
        set.with(m).has(m),
        other != m ==> set.with(m).has(other) == set.has(other),
        set.shared(set) == set,
{
}

/// An answer offers just what both ends can do, for the call that was asked for, and is
/// settled as V.34 before V.32 bis before V.22 bis before V.21.
pub proof fn an_answer_offers_what_both_can_do(cm: Menu, ours: Modulations, m: Modulation)
    ensures
        cm.answered(ours).function == cm.function,
        cm.answered(ours).modulations.has(m) == (cm.modulations.has(m) && ours.has(m)),
        ours.fastest() is None <==> !ours.v34 && !ours.v32bis && !ours.v22bis && !ours.v21,
        ours.fastest() == Some(Modulation::V34) <==> ours.v34,
        ours.fastest() == Some(Modulation::V32bis) <==> ours.v32bis && !ours.v34,
        ours.fastest() == Some(Modulation::V22bis) <==> ours.v22bis && !ours.v34 && !ours.v32bis,
        ours.fastest() == Some(Modulation::V21) <==> ours.v21 && !ours.v34 && !ours.v32bis
            && !ours.v22bis,
{
}

/// An end opens silent, with nothing heard and nothing chosen.
pub proof fn an_end_opens_silent(role: Role, function: CallFunction, ours: Modulations, fs: u32)
    ensures
        ({
            let fresh = Modem::fresh(role, function, ours, fs);
            &&& fresh.state == State::Quiet
            &&& fresh.decided() == Status::Negotiating
            &&& fresh.settled() is None
            &&& fresh.chosen is None
            &&& !fresh.cj
            &&& fresh.role == role
            &&& fresh.menu.function == function
            &&& fresh.menu.modulations == ours
            &&& fresh.fs == fs
        }),
{
}

/// The opening silence is a second at the calling end, which then listens, and 200 ms
/// at the answering end, which then sends ANSam from that very sample.
pub proof fn the_opening_silence_lasts_what_it_should(
    modem: Modem,
    heard: Option<Heard>,
    ear: Ear,
    clear: bool,
)
    requires
        modem.wf(),
        modem.state == State::Quiet,
        modem.total < 60 * modem.fs,
    ensures
        ({
            let (next, order, tone) = modem.after(heard, ear, clear);
            let silence = if modem.role == Role::Calling {
                1000int
            } else {
                200
            };
            &&& order == Order::Nothing
            &&& next.state == (if (modem.elapsed + 1) * 1000 < silence * modem.fs {
                State::Quiet
            } else if modem.role == Role::Calling {
                State::Listening
            } else {
                State::Ansam
            })
            &&& next.elapsed == (if next.state == State::Quiet {
                modem.elapsed + 1
            } else {
                0
            })
            &&& next.total == modem.total + 1
            &&& tone is Some <==> next.state == State::Ansam
        }),
{
    reveal(Modem::moved);
}

/// A calling modem that hears ANSam is silent for a second more, and then sends its
/// menu.
pub proof fn ansam_is_answered_in_a_second(
    modem: Modem,
    heard: Option<Heard>,
    ear: Ear,
    clear: bool,
)
    requires
        modem.wf(),
        modem.state == State::Listening || modem.state == State::Waiting,
        modem.total < 60 * modem.fs,
    ensures
        ({
            let (next, order, tone) = modem.after(heard, ear, clear);
            &&& tone is None
            &&& modem.state == State::Listening ==> order == Order::Nothing
            &&& modem.state == State::Listening && ear.ansam ==> next.state == State::Waiting
                && next.elapsed == 0
            &&& modem.state == State::Listening && !ear.ansam ==> next.decided() == (if ear.plain
                && (modem.elapsed + 1) * 1000 > 1000 * modem.fs {
                Status::NoNegotiation
            } else {
                Status::Negotiating
            })
            &&& modem.state == State::Listening && !ear.ansam && next.decided()
                == Status::Negotiating ==> next.state == State::Listening
            &&& modem.state == State::Waiting ==> {
                let over = (modem.elapsed + 1) * 1000 >= 1000 * modem.fs;
                &&& next.state == (if over {
                    State::SendingCm
                } else {
                    State::Waiting
                })
                &&& order == (if over {
                    Order::Cm(modem.menu)
                } else {
                    Order::Nothing
                })
            }
        }),
{
    reveal(Modem::moved);
}

/// A menu is believed once it has come twice running, and not before; another menu
/// between the two begins the count again, and CJ and the rest leave it alone.
pub proof fn a_menu_is_believed_once_it_has_come_twice(modem: Modem, a: Menu, b: Menu)
    requires
        modem.wf(),
        a != b,
    ensures
        modem.last != Some(a) ==> modem.told(Heard::Cm(a)).settled() is None,
        modem.told(Heard::Cm(a)).told(Heard::Cm(a)).settled() == Some(a),
        modem.told(Heard::Cm(a)).told(Heard::Cm(b)).settled() is None,
        modem.told(Heard::Cm(a)).told(Heard::Cm(b)).told(Heard::Cm(a)).settled() is None,
        modem.told(Heard::Cm(a)).told(Heard::Cj).told(Heard::Cm(a)).settled() == Some(a),
        modem.told(Heard::Cj).settled() == modem.settled(),
        modem.told(Heard::Jm(a)) == modem,
        modem.told(Heard::Ci(a.function)) == modem,
        modem.told(Heard::Cj).cj,
        modem.told(Heard::Cm(a)).cj == modem.cj,
        modem.told(Heard::Cm(a)).state == modem.state,
        modem.told(Heard::Cm(a)).chosen == modem.chosen,
{
}

/// A calling modem sends its menu over and over until it believes the answer. Then it
/// chooses the fastest modulation of that answer and sends CJ.
pub proof fn the_menu_is_sent_until_it_is_answered(modem: Modem, ear: Ear, clear: bool)
    requires
        modem.wf(),
        modem.state == State::SendingCm,
        modem.total < 60 * modem.fs,
    ensures
        ({
            let (next, order, tone) = modem.after(None, ear, clear);
            &&& tone is None
            &&& modem.repeats < 2 ==> {
                &&& next.state == State::SendingCm
                &&& next.chosen == modem.chosen
                &&& order == (if clear {
                    Order::Cm(modem.menu)
                } else {
                    Order::Nothing
                })
            }
            &&& modem.repeats >= 2 && modem.last is Some ==> {
                &&& next.state == State::SendingCj
                &&& next.elapsed == 0
                &&& order == Order::Cj
                &&& next.chosen == modem.last->0.modulations.fastest()
            }
        }),
{
    reveal(Modem::moved);
}

/// The sample that brings the second of two like menus is the one it is acted on at.
pub proof fn a_second_menu_is_acted_on_at_once(modem: Modem, menu: Menu, ear: Ear, clear: bool)
    requires
        modem.wf(),
        modem.state == State::SendingCm || modem.state == State::Ansam,
        modem.total < 60 * modem.fs,
        modem.last == Some(menu),
        modem.repeats == 1,
    ensures
        ({
            let (next, order, _) = modem.after(Some(Heard::Cm(menu)), ear, clear);
            &&& modem.state == State::SendingCm ==> next.state == State::SendingCj && order
                == Order::Cj && next.chosen == menu.modulations.fastest()
            &&& modem.state == State::Ansam ==> next.state == State::SendingJm && order
                == Order::Jm(menu.answered(modem.menu.modulations))
        }),
{
    reveal(Modem::moved);
}

/// Once CJ has gone the calling modem drops its carrier; an answering modem drops its
/// own as soon as CJ comes. 75 ms of nothing later each is done.
pub proof fn cj_ends_it_at_both_ends(modem: Modem, ear: Ear, clear: bool)
    requires
        modem.wf(),
        modem.total < 60 * modem.fs,
    ensures
        ({
            let (next, order, tone) = modem.after(None, ear, clear);
            &&& modem.state == State::SendingCj ==> {
                &&& next.state == (if clear {
                    State::Handover
                } else {
                    State::SendingCj
                })
                &&& order == (if clear {
                    Order::Quiet
                } else {
                    Order::Nothing
                })
            }
            &&& modem.state == State::SendingJm ==> {
                let (heard, said, _) = modem.after(Some(Heard::Cj), ear, clear);
                &&& heard.state == State::Handover
                &&& heard.elapsed == 0
                &&& said == Order::Quiet
            }
            &&& modem.state == State::SendingJm && !modem.cj ==> {
                &&& next.state == State::SendingJm
                &&& next.chosen == modem.chosen
                &&& !clear ==> order == Order::Nothing
                &&& clear ==> order is Jm && order->Jm_0.function == modem.menu.function
                    && (forall|m: Modulation| #[trigger]
                    order->Jm_0.modulations.has(m) == (modem.chosen == Some(m)))
            }
            &&& modem.state == State::Handover ==> {
                &&& order == Order::Nothing
                &&& next.decided() == (if (modem.elapsed + 1) * 1000 < 75 * modem.fs {
                    Status::Negotiating
                } else if modem.chosen is Some {
                    Status::Agreed(modem.chosen->0)
                } else {
                    Status::Failed
                })
            }
            &&& modem.state == State::SendingCj || modem.state == State::SendingJm || modem.state
                == State::Handover ==> tone is None
        }),
{
    reveal(Modem::moved);
}

/// An answering modem sends ANSam until it believes a menu. Then it answers with what
/// both can do and has chosen the fastest of that; where five seconds bring no menu the
/// far end does not negotiate.
pub proof fn ansam_lasts_until_a_menu_comes(modem: Modem, ear: Ear, clear: bool)
    requires
        modem.wf(),
        modem.state == State::Ansam,
        modem.total < 60 * modem.fs,
    ensures
        ({
            let (next, order, tone) = modem.after(None, ear, clear);
            let late = (modem.elapsed + 1) * 1000 >= 5000 * modem.fs;
            &&& modem.repeats < 2 ==> {
                &&& order == Order::Nothing
                &&& next.decided() == (if late {
                    Status::NoNegotiation
                } else {
                    Status::Negotiating
                })
                &&& tone is Some <==> !late
                &&& !late ==> next.state == State::Ansam && next.tone == modem.tone + 1
            }
            &&& modem.repeats >= 2 && modem.last is Some ==> {
                let cm = modem.last->0;
                &&& tone is None
                &&& next.state == State::SendingJm
                &&& order is Jm
                &&& order->Jm_0.function == cm.function
                &&& forall|m: Modulation| #[trigger]
                    order->Jm_0.modulations.has(m) == (cm.modulations.has(m)
                        && modem.menu.modulations.has(m))
                &&& next.chosen == order->Jm_0.modulations.fastest()
            }
        }),
{
    reveal(Modem::moved);
}

/// ANSam begins unreversed, and its phase turns over every 450 ms: two moments that far
/// apart have opposite phases, and two inside one such stretch have the same.
pub proof fn ansam_turns_over_every_450_ms(modem: Modem, samples: int, stretch: int)
    requires
        modem.wf(),
        0 <= samples,
        0 <= stretch,
    ensures
        stretch * 450 * modem.fs <= samples * 1000 < (stretch + 1) * 450 * modem.fs ==> modem.reversed(
            samples,
        ) == (stretch % 2 == 1),
{
    let d = 450 * modem.fs as int;
    let at = samples * 1000;
    assert(stretch * 450 * modem.fs == stretch * d && (stretch + 1) * 450 * modem.fs == (stretch
        + 1) * d) by (nonlinear_arith)
        requires
            d == 450 * modem.fs,
    ;
    if stretch * d <= at < (stretch + 1) * d {
        assert(stretch * d + d == (stretch + 1) * d) by (nonlinear_arith);
        assert(stretch * d == d * stretch) by (nonlinear_arith);
        vstd::arithmetic::div_mod::lemma_fundamental_div_mod_converse(
            at,
            d,
            stretch,
            at - stretch * d,
        );
    }
}

/// The phase on the line is that of the sample being sent, counted from ANSam's first.
pub proof fn the_phase_is_that_of_the_sample(
    modem: Modem,
    heard: Option<Heard>,
    ear: Ear,
    clear: bool,
    stretch: int,
)
    requires
        modem.wf(),
        0 <= stretch,
        modem.after(heard, ear, clear).2 is Some,
        stretch * 450 * modem.fs <= (modem.tone + 1) * 1000 < (stretch + 1) * 450 * modem.fs,
    ensures
        modem.after(heard, ear, clear).2 == Some(stretch % 2 == 1),
        modem.after(heard, ear, clear).0.tone == modem.tone + 1,
{
    reveal(Modem::moved);
    let next = modem.timed(heard).moved(ear, clear).0;
    ansam_turns_over_every_450_ms(modem, modem.tone + 1, stretch);
}

/// Whatever is going on, a negotiation that has lasted sixty seconds and a sample has
/// failed, and until it has lasted that it has not failed for want of patience.
pub proof fn sixty_seconds_are_waited(modem: Modem, heard: Option<Heard>, ear: Ear, clear: bool)
    requires
        modem.wf(),
        modem.decided() == Status::Negotiating,
    ensures
        modem.total + 1 > 60 * modem.fs ==> modem.after(heard, ear, clear).0.decided()
            == Status::Failed,
        modem.total + 1 <= 60 * modem.fs && modem.after(heard, ear, clear).0.decided()
            == Status::Failed ==> modem.state == State::Handover && modem.chosen is None,
{
    reveal(Modem::moved);
}

/// What an end is for does not change: its role, its menu and its rate.
pub proof fn an_end_stays_what_it_is(modem: Modem, heard: Option<Heard>, ear: Ear, clear: bool)
    requires
        modem.wf(),
    ensures
        ({
            let next = modem.after(heard, ear, clear).0;
            &&& next.role == modem.role
            &&& next.menu == modem.menu
            &&& next.fs == modem.fs
        }),
{
    reveal(Modem::moved);
}

/// So many samples of a line on which nothing is heard.
pub open spec fn after_nothing(modem: Modem, n: nat) -> Modem
    decreases n,
{
    if n == 0 {
        modem
    } else {
        after_nothing(modem, (n - 1) as nat).after(None, nothing_heard(), true).0
    }
}

/// A calling modem that nobody answers listens from the end of its second of silence
/// until its patience runs out, and then fails.
pub proof fn a_call_nobody_answers_fails(modem: Modem, n: nat)
    requires
        modem.wf(),
        modem.role == Role::Calling,
        modem.state == State::Quiet,
        modem.total == 0,
    ensures
        n <= 60 * modem.fs ==> after_nothing(modem, n).decided() == Status::Negotiating,
        n <= 60 * modem.fs && n * 1000 >= 1000 * modem.fs ==> after_nothing(modem, n).state
            == State::Listening,
        n <= 60 * modem.fs && n * 1000 < 1000 * modem.fs ==> after_nothing(modem, n).state
            == State::Quiet,
        n > 60 * modem.fs ==> after_nothing(modem, n).decided() == Status::Failed,
{
    lemma_nothing(modem, n);
}

proof fn lemma_nothing(modem: Modem, n: nat)
    requires
        modem.wf(),
        modem.role == Role::Calling,
        modem.state == State::Quiet,
        modem.total == 0,
    ensures
        ({
            let now = after_nothing(modem, n);
            &&& now.role == Role::Calling
            &&& now.fs == modem.fs
            &&& n <= 60 * modem.fs ==> now.total == n && now.elapsed <= now.total
            &&& n <= 60 * modem.fs && n < modem.fs ==> now.state == State::Quiet && now.elapsed == n
            &&& n <= 60 * modem.fs && n >= modem.fs ==> now.state == State::Listening
            &&& n > 60 * modem.fs ==> now.state == State::Done(Status::Failed)
        }),
    decreases n,
{
    reveal(Modem::moved);
    if n > 0 {
        lemma_nothing(modem, (n - 1) as nat);
    }
}

/// A state that is entered counts from nothing, and one that is stayed in counts on.
pub proof fn a_new_state_counts_from_nothing(
    modem: Modem,
    heard: Option<Heard>,
    ear: Ear,
    clear: bool,
)
    requires
        modem.wf(),
        modem.decided() == Status::Negotiating,
        modem.total < 60 * modem.fs,
    ensures
        ({
            let next = modem.after(heard, ear, clear).0;
            &&& next.state != modem.state ==> next.elapsed == 0
            &&& next.state == modem.state ==> next.elapsed == modem.elapsed + 1
            &&& next.total == modem.total + 1
        }),
{
    reveal(Modem::moved);
}

} // verus!
