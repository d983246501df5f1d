//! What the extended commands are for, how they are written and what they answer; and
//! what a line does with the commands on it.
use crate::at::parse::{
    belongs, beyond, commands_in, is_name, lemma_run, raised, raised_all, run, Class,
    Op, ParseError, Said,
};
use crate::at::registers::takes;
use crate::at::result::{ascii, Code};
use crate::at::settings::{
    decimal, error_control_in, error_control_text, lemma_carrier_named,
    lemma_more_read, lemma_number_read, list_in, modulation_in, modulation_text, more_in, Carrier,
    ErrorControl, Modulation,
};
use crate::at::{printable, LineState, Ruling, Session};
use vstd::prelude::*;

verus! {

proof fn lemma_names()
    ensures
        ascii("GMI"@) =~= seq![71u8, 77, 73],
        ascii("GMM"@) =~= seq![71u8, 77, 77],
        ascii("GMR"@) =~= seq![71u8, 77, 82],
        ascii("GSN"@) =~= seq![71u8, 83, 78],
        ascii("GCAP"@) =~= seq![71u8, 67, 65, 80],
        ascii("MS"@) =~= seq![77u8, 83],
        ascii("ES"@) =~= seq![69u8, 83],
        ascii("DS"@) =~= seq![68u8, 83],
        ascii("FCLASS"@) =~= seq![70u8, 67, 76, 65, 83, 83],
{
    reveal_strlit("GMI");
    reveal_strlit("GMM");
    reveal_strlit("GMR");
    reveal_strlit("GSN");
    reveal_strlit("GCAP");
    reveal_strlit("MS");
    reveal_strlit("ES");
    reveal_strlit("DS");
    reveal_strlit("FCLASS");
}

/// Each name is answered by what it is for, and a name that is none of them is refused.
pub proof fn each_name_is_for_its_own(session: Session, name: Seq<u8>, op: Op)
    ensures
        session.extended(ascii("MS"@), op) == session.ms(op),
        session.extended(ascii("ES"@), op) == session.es(op),
        session.extended(ascii("DS"@), op) == session.ds(op),
        session.extended(ascii("FCLASS"@), op) == session.fclass(op),
        name != ascii("GMI"@) && name != ascii("GMM"@) && name != ascii("GMR"@) && name != ascii(
            "GSN"@,
        ) && name != ascii("GCAP"@) && name != ascii("MS"@) && name != ascii("ES"@) && name
            != ascii("DS"@) && name != ascii("FCLASS"@) ==> session.extended(name, op) is Refused,
        session.executed(Said::Extended { name, op }) == session.extended(name, op),
{
    reveal(Session::extended);
    lemma_names();
    assert(ascii("MS"@).len() == 2 && ascii("ES"@).len() == 2 && ascii("DS"@).len() == 2);
    assert(ascii("MS"@)[0] == 77 && ascii("ES"@)[0] == 69 && ascii("DS"@)[0] == 68);
    assert(ascii("GMI"@).len() == 3 && ascii("GMM"@).len() == 3 && ascii("GMR"@).len() == 3
        && ascii("GSN"@).len() == 3 && ascii("GCAP"@).len() == 4 && ascii("FCLASS"@).len() == 6);
}

/// What identifies the DCE says so when it is executed or read, says that there is nothing
/// to set when it is tested, and takes no value.
pub proof fn what_identifies_takes_no_value(session: Session, value: Seq<u8>)
    ensures
        ({
            let who = session.identity;
            let name = ascii("GMI"@);
            &&& session.extended(name, Op::Execute) == Ruling::Done(
                session.informed(who.manufacturer),
            )
            &&& session.extended(name, Op::Read) == Ruling::Done(session.informed(who.manufacturer))
            &&& session.extended(name, Op::Test) == Ruling::Done(
                session.informed(ascii("+"@) + name + ascii(": (0)"@)),
            )
            &&& session.extended(name, Op::Assign(value)) is Refused
            &&& session.extended(ascii("GMM"@), Op::Read) == Ruling::Done(
                session.informed(who.model),
            )
            &&& session.extended(ascii("GMR"@), Op::Read) == Ruling::Done(
                session.informed(who.revision),
            )
            &&& session.extended(ascii("GSN"@), Op::Read) == Ruling::Done(
                session.informed(who.serial),
            )
            &&& session.extended(ascii("GMM"@), Op::Assign(value)) is Refused
            &&& session.extended(ascii("GMR"@), Op::Assign(value)) is Refused
            &&& session.extended(ascii("GSN"@), Op::Assign(value)) is Refused
            &&& session.extended(ascii("GCAP"@), Op::Assign(value)) is Refused
        }),
{
    reveal(Session::extended);
    lemma_names();
    assert(ascii("GMI"@).len() == 3 && ascii("GMM"@).len() == 3 && ascii("GMR"@).len() == 3
        && ascii("GSN"@).len() == 3 && ascii("GCAP"@).len() == 4);
    assert(ascii("GMI"@)[2] == 73 && ascii("GMM"@)[2] == 77 && ascii("GMR"@)[2] == 82 && ascii(
        "GSN"@,
    )[2] == 78 && ascii("GSN"@)[1] == 83 && ascii("GMM"@)[1] == 77 && ascii("GMR"@)[1] == 77
        && ascii("GMI"@)[1] == 77);
}

/// What is read of a setting is its value behind its name, and what is tested is what it
/// takes.
pub proof fn a_setting_says_what_it_is_and_takes(session: Session)
    ensures
        session.ms(Op::Read) == Ruling::Done(
            session.informed(ascii("+MS: "@) + modulation_text(session.config.modulation)),
        ),
        session.es(Op::Read) == Ruling::Done(
            session.informed(ascii("+ES: "@) + error_control_text(session.config.error_control)),
        ),
        session.ms(Op::Test) == Ruling::Done(session.informed(ascii("+MS: (V22B,V32),(0,1)"@))),
        session.es(Op::Test) == Ruling::Done(session.informed(ascii("+ES: (0-3),(0-3)"@))),
        session.ds(Op::Test) == Ruling::Done(session.informed(ascii("+DS: (0,3)"@))),
        session.fclass(Op::Test) == Ruling::Done(session.informed(ascii("+FCLASS: (0)"@))),
{
}

/// A modulation by its name alone may be fallen back from, at whatever rates it has; with
/// a flag behind it, 1 lets it and 0 does not, and no other flag is taken.
pub proof fn a_modulation_is_named(carrier: Carrier, flag: u32)
    ensures
        modulation_in(ascii(carrier.named())) == Some(
            Modulation { carrier, automode: true, min_rate: 0, max_rate: 0 },
        ),
        modulation_in(ascii(carrier.named()) + (seq![44u8] + decimal(flag as nat))) == (
        if flag <= 1 {
            Some(Modulation { carrier, automode: flag == 1, min_rate: 0, max_rate: 0 })
        } else {
            None
        }),
        Carrier::V22B.named() == "V22B"@,
        Carrier::V32.named() == "V32"@,
{
    let name = ascii(carrier.named());
    lemma_carrier_named(carrier);
    lemma_run(Seq::<u8>::empty(), Class::Space, 0);
    assert(more_in(Seq::<u8>::empty()) == Some(Seq::<Option<u32>>::empty()));
    lemma_named(name, Seq::empty());
    assert(name + Seq::<u8>::empty() =~= name);
    let rest = seq![44u8] + (decimal(flag as nat) + Seq::empty());
    assert(rest =~= seq![44u8] + decimal(flag as nat));
    lemma_more_read(flag, Seq::empty());
    lemma_named(name, rest);
    let list = more_in(rest)->0;
    assert(list =~= seq![Some(flag)]);
}

proof fn lemma_named(name: Seq<u8>, rest: Seq<u8>)
    requires
        name.len() > 0,
        name[0] != 32,
        forall|i: int| 0 <= i < name.len() ==> is_name(#[trigger] name[i]),
        rest.len() > 0 ==> rest[0] == 44,
    ensures
        ({
            let text = name + rest;
            let from = beyond(text, Class::Space);
            &&& from == text
            &&& run(from, Class::Name) == name.len()
            &&& from.take(name.len() as int) == name
            &&& from.skip(name.len() as int) == rest
        }),
{
    let text = name + rest;
    lemma_run(text, Class::Space, 0);
    assert(text.skip(0) =~= text);
    assert forall|i: int| 0 <= i < name.len() implies belongs(Class::Name, #[trigger] text[i]) by {
        assert(text[i] == name[i]);
    }
    lemma_run(text, Class::Name, name.len() as int);
    assert(text.take(name.len() as int) =~= name);
    assert(text.skip(name.len() as int) =~= rest);
}

/// Error control by one number asks for that, 0 to 3, and goes on without it; and by no
/// number at all asks for V.42 with its detection phase.
pub proof fn error_control_is_asked_for_by_number(n: u32)
    ensures
        error_control_in(decimal(n as nat)) == (if n <= 3 {
            Some(ErrorControl { request: n as u8, fallback: 0 })
        } else {
            None
        }),
        error_control_in(Seq::empty()) == Some(ErrorControl { request: 3, fallback: 0 }),
{
    let text = decimal(n as nat);
    assert(text =~= text + Seq::empty());
    lemma_number_read(n, Seq::empty());
    lemma_run(Seq::<u8>::empty(), Class::Space, 0);
    lemma_run(Seq::<u8>::empty(), Class::Digit, 0);
    assert(Seq::<u8>::empty().skip(0) =~= Seq::empty());
    assert(more_in(Seq::<u8>::empty()) == Some(Seq::<Option<u32>>::empty()));
    assert(list_in(text)->0 =~= seq![Some(n)]);
    assert(list_in(Seq::<u8>::empty())->0 =~= seq![None::<u32>]);
}

/// A name alone executes a command, with a question mark behind it reads it, and a
/// semicolon ends it before the next.
pub proof fn an_extended_command_reads_as_written(name: Seq<u8>, rest: Seq<u8>)
    requires
        name.len() > 0,
        forall|i: int| 0 <= i < name.len() ==> 65 <= #[trigger] name[i] <= 90,
    ensures
        commands_in(seq!['+' as u8] + (name + (seq![';' as u8] + rest))) == (match commands_in(
            rest,
        ) {
            Ok(more) => Ok::<Seq<Said>, ParseError>(
                seq![Said::Extended { name, op: Op::Execute }] + more,
            ),
            Err(e) => Err(e),
        }),
        commands_in(seq!['+' as u8] + (name + (seq!['?' as u8, ';' as u8] + rest)))
            == (match commands_in(rest) {
            Ok(more) => Ok::<Seq<Said>, ParseError>(
                seq![Said::Extended { name, op: Op::Read }] + more,
            ),
            Err(e) => Err(e),
        }),
{
    let end = seq![';' as u8] + rest;
    lemma_name_read(name, end);
    lemma_run(end, Class::Space, 0);
    assert(end.skip(0) =~= end);
    assert(end.skip(1) =~= rest);
    let asked = seq!['?' as u8, ';' as u8] + rest;
    lemma_name_read(name, asked);
    lemma_run(asked, Class::Space, 0);
    assert(asked.skip(0) =~= asked);
    assert(asked.skip(1) =~= end);
}

proof fn lemma_name_read(name: Seq<u8>, rest: Seq<u8>)
    requires
        name.len() > 0,
        forall|i: int| 0 <= i < name.len() ==> 65 <= #[trigger] name[i] <= 90,
        rest.len() > 0,
        !is_name(rest[0]),
    ensures
        ({
            let text = seq!['+' as u8] + (name + rest);
            let from = text.skip(1);
            &&& beyond(text, Class::Space) == text
            &&& run(from, Class::Name) == name.len()
            &&& raised_all(from.take(name.len() as int)) == name
            &&& from.skip(name.len() as int) == rest
        }),
{
    let text = seq!['+' as u8] + (name + rest);
    lemma_run(text, Class::Space, 0);
    assert(text.skip(0) =~= text);
    let from = text.skip(1);
    assert(from =~= name + rest);
    assert forall|i: int| 0 <= i < name.len() implies belongs(Class::Name, #[trigger] from[i]) by {
        assert(from[i] == name[i]);
    }
    lemma_run(from, Class::Name, name.len() as int);
    assert(from.take(name.len() as int) =~= name);
    assert forall|i: int| 0 <= i < name.len() implies raised(#[trigger] name[i]) == name[i] by {}
    assert(raised_all(name) =~= name);
    assert(from.skip(name.len() as int) =~= rest);
}

/// A parameter set to nothing is set to zero, where it takes zero.
pub proof fn a_parameter_set_to_nothing_is_set_to_zero(session: Session, n: u32)
    ensures
        session.executed(Said::SetS(n, None)) == session.executed(Said::SetS(n, Some(0))),
        session.executed(Said::SetS(n, Some(0))) is Done <==> takes(n as nat, 0),
{
}

/// A body of 256 characters takes no more: the next marks the line as too long, and the
/// line after it starts afresh.
pub proof fn a_body_takes_256_characters(session: Session, c: u8)
    requires
        session.state == LineState::Body,
        c != session.regs.s3,
        c != session.regs.s5,
    ensures
        session.body.len() < 256 ==> session.typed(c).body == session.body.push(c)
            && session.typed(c).overflowed == session.overflowed,
        session.body.len() >= 256 ==> session.typed(c).body == session.body
            && session.typed(c).overflowed,
        (Session { state: LineState::GotA, ..session }).fed('T' as u8).overflowed == false,
        (Session { state: LineState::GotA, ..session }).fed('T' as u8).body.len() == 0,
{
}

/// Control characters in a body make no difference to it, and everything else does.
pub proof fn control_characters_make_no_difference(body: Seq<u8>, c: u8)
    ensures
        c < 32 || c == 127 ==> printable(body.push(c)) == printable(body),
        !(c < 32 || c == 127) ==> printable(body.push(c)) == printable(body).push(c),
        printable(Seq::empty()) == Seq::<u8>::empty(),
{
    assert(body.push(c).drop_last() =~= body);
}

/// A line of spaces is acknowledged; one that does not read is an error and does nothing.
pub proof fn a_line_that_does_not_read_is_an_error(session: Session, body: Seq<u8>)
    ensures
        ({
            let text = printable(body);
            let done = session.performed(body);
            &&& beyond(text, Class::Space).len() == 0 ==> done == (Session {
                out: session.out + session.fmt.coded(Code::Okay, session.regs),
                ..session
            })
            &&& beyond(text, Class::Space).len() > 0 && commands_in(text) is Err ==> done == (
            Session { out: session.out + session.fmt.coded(Code::Error, session.regs), ..session })
        }),
{
}

/// A line of one command that is done is acknowledged; one that the line has to carry out
/// asks for it, and is acknowledged now unless its result comes later; one that is refused
/// is an error, and leaves nothing asked for.
pub proof fn a_line_of_one_command_says_how_it_went(session: Session, command: Said)
    ensures
        ({
            let after = session.ran(seq![command], false);
            let okay = |s: Session|
                Session { out: s.out + s.fmt.coded(Code::Okay, s.regs), ..s };
            match session.executed(command) {
                Ruling::Done(next) => after == okay(next),
                Ruling::Asked(next, act) => {
                    let asked = Session { actions: next.actions.push(act), ..next };
                    if act is Dial || act is Answer || act is ReturnOnline {
                        after == asked
                    } else {
                        after == okay(asked)
                    }
                },
                Ruling::Refused => after == (Session {
                    actions: Seq::empty(),
                    out: session.out + session.fmt.coded(Code::Error, session.regs),
                    ..session
                }),
            }
        }),
{
    reveal_with_fuel(Session::ran, 3);
    assert(seq![command].skip(1) =~= Seq::<Said>::empty());
}

/// Of the four values of `+ES`, direct and buffered mode ask for no error control, 2 asks
/// for V.42 without its detection phase and 3 with it; and a fallback of 0 or 1 goes on
/// without it, where 2 and 3 hang up.
pub proof fn error_control_means_what_it_says(e: ErrorControl)
    requires
        e.request <= 3,
        e.fallback <= 3,
    ensures
        !e.asks() <==> e.request == 0 || e.request == 1,
        e.detects() <==> e.request == 3,
        e.detects() ==> e.asks(),
        e.asks() && !e.detects() <==> e.request == 2,
        !e.insists() <==> e.fallback == 0 || e.fallback == 1,
{
}

/// A line begins with A and T, in either case: what comes before A is ignored, another A
/// is a fresh one, and anything else after an A gives the line up. A and T are echoed, and
/// what is ignored is not.
pub proof fn a_line_begins_with_at(session: Session, c: u8)
    requires
        c < 128,
    ensures
        ({
            let next = session.fed(c);
            let (a, t) = (c == 65 || c == 97, c == 84 || c == 116);
            let echo = if session.config.echo {
                session.out.push(c)
            } else {
                session.out
            };
            &&& session.state == LineState::Idle && a ==> next == (Session {
                state: LineState::GotA,
                out: echo,
                ..session
            })
            &&& session.state == LineState::Idle && !a ==> next == session
            &&& session.state == LineState::GotA && a ==> next == (Session { out: echo, ..session })
            &&& session.state == LineState::GotA && t ==> next == (Session {
                state: LineState::Body,
                body: Seq::empty(),
                overflowed: false,
                out: echo,
                ..session
            })
            &&& session.state == LineState::GotA && !a && !t && c != 47 ==> next == (Session {
                state: LineState::Idle,
                ..session
            })
        }),
{
}

/// The terminator ends a line: what it said is kept for repeating, and what is carried out
/// is what was typed, unless that was too long.
pub proof fn a_terminator_ends_the_line(session: Session)
    requires
        session.state == LineState::Body,
    ensures
        ({
            let over = Session {
                state: LineState::Idle,
                body: Seq::empty(),
                last_body: session.body,
                ..session.echoed(session.regs.s3)
            };
            session.typed(session.regs.s3) == (if session.overflowed {
                over.emitted(Code::Error)
            } else {
                over.performed(session.body)
            })
        }),
{
}

} // verus!
