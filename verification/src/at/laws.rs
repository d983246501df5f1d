//! What holds of the command layer as a whole.
use crate::at::parse::{
    asks, belongs, beyond, command_in, commands_in, is_digit, lemma_run, raised, raised_all, value, Class,
    Op, ParseError, Said, EQUALS, PLUS, QUESTION, SEMICOLON,
};
use crate::at::registers::{takes, what_is_set_is_read_back, Registers};
use crate::at::result::{ascii, Code, Formatter};
use crate::at::settings::{
    a_modulation_reads_back, error_control_reads_back, error_control_text, modulation_text,
    only_in, ErrorControl, Modulation, COMMA,
};
use crate::at::{printable, three_digits, Act, Config, LineState, Ruling, Session, MAX_BODY};
use vstd::prelude::*;

verus! {

/// Whether a command of a line is refused before the line is over.
pub open spec fn fails(session: Session, commands: Seq<Said>) -> bool
    decreases commands.len(),
{
    if commands.len() == 0 {
        false
    } else {
        match session.executed(commands[0]) {
            Ruling::Done(next) => fails(next, commands.skip(1)),
            Ruling::Asked(next, act) => !act.terminates() && fails(
                Session { actions: next.actions.push(act), ..next },
                commands.skip(1),
            ),
            Ruling::Refused => true,
        }
    }
}

/// A line that fails is acted on in no part: whatever its commands asked of the modem
/// before the one that failed is discarded, and what is said of it is ERROR.
pub proof fn a_failed_line_asks_for_nothing(
    session: Session,
    commands: Seq<Said>,
    deferred: bool,
)
    requires
        fails(session, commands),
    ensures
        session.ran(commands, deferred).actions == Seq::<Act>::empty(),
        exists|last: Session|
            session.ran(commands, deferred) == #[trigger] last.emitted(Code::Error),
    decreases commands.len(),
{
    match session.executed(commands[0]) {
        Ruling::Done(next) => a_failed_line_asks_for_nothing(next, commands.skip(1), deferred),
        Ruling::Asked(next, act) => a_failed_line_asks_for_nothing(
            Session { actions: next.actions.push(act), ..next },
            commands.skip(1),
            deferred || act.defers(),
        ),
        Ruling::Refused => {
            let last = Session { actions: Seq::empty(), ..session };
            assert(session.ran(commands, deferred) == last.emitted(Code::Error));
        },
    }
}

/// A command that fails stops the line: nothing after it has any effect.
pub proof fn a_failing_command_stops_the_line(
    session: Session,
    command: Said,
    rest: Seq<Said>,
    other: Seq<Said>,
    deferred: bool,
)
    requires
        session.executed(command) is Refused,
    ensures
        session.ran(seq![command] + rest, deferred) == session.ran(
            seq![command] + other,
            deferred,
        ),
{
    assert((seq![command] + rest)[0] == command);
    assert((seq![command] + other)[0] == command);
}

/// A command that leaves the line ends it, as dialling, answering, returning online and
/// a reset do: nothing after it has any effect.
pub proof fn a_terminating_command_ends_the_line(
    session: Session,
    command: Said,
    rest: Seq<Said>,
    other: Seq<Said>,
    deferred: bool,
)
    requires
        session.executed(command) matches Ruling::Asked(_, act) && act.terminates(),
    ensures
        session.ran(seq![command] + rest, deferred) == session.ran(
            seq![command] + other,
            deferred,
        ),
{
    assert((seq![command] + rest)[0] == command);
    assert((seq![command] + other)[0] == command);
}

/// What no command touches.
pub open spec fn same_line(a: Session, b: Session) -> bool {
    &&& a.state == b.state
    &&& a.body == b.body
    &&& a.last_body == b.last_body
    &&& a.overflowed == b.overflowed
    &&& a.identity == b.identity
}

/// Whether a command leaves alone what no command touches.
spec fn ruled_same_line(session: Session, ruling: Ruling) -> bool {
    match ruling {
        Ruling::Done(next) => same_line(session, next),
        Ruling::Asked(next, _) => same_line(session, next),
        Ruling::Refused => true,
    }
}

proof fn lemma_letter_same_line(session: Session, letter: u8, n: u8)
    ensures
        ruled_same_line(session, session.letter(letter, n)),
{
    reveal(Session::letter);
}

proof fn lemma_amp_same_line(session: Session, letter: u8, n: u8)
    ensures
        ruled_same_line(session, session.amp(letter, n)),
{
    reveal(Session::amp);
}

proof fn lemma_selections_same_line(session: Session, op: Op)
    ensures
        ruled_same_line(session, session.ms(op)),
        ruled_same_line(session, session.es(op)),
        ruled_same_line(session, session.ds(op)),
        ruled_same_line(session, session.fclass(op)),
{
}

proof fn lemma_extended_same_line(session: Session, name: Seq<u8>, op: Op)
    ensures
        ruled_same_line(session, session.extended(name, op)),
{
    lemma_selections_same_line(session, op);
    let ruling = session.extended(name, op);
    assert(match session.identification(name) {
        Some(answer) => ruling == session.identifies(name, answer, op),
        None => ruling == session.ms(op) || ruling == session.es(op) || ruling == session.ds(op)
            || ruling == session.fclass(op) || ruling is Refused,
    }) by {
        reveal(Session::extended);
    }
}

proof fn lemma_executed_same_line(session: Session, command: Said)
    ensures
        ruled_same_line(session, session.executed(command)),
{
    match command {
        Said::Basic { amp, letter, number } => {
            let n = match number {
                Some(n) => n as u8,
                None => 0,
            };
            lemma_letter_same_line(session, letter, n);
            lemma_amp_same_line(session, letter, n);
        },
        Said::Extended { name, op } => lemma_extended_same_line(session, name, op),
        _ => {},
    }
}

proof fn lemma_ran_same_line(session: Session, commands: Seq<Said>, deferred: bool)
    ensures
        same_line(session, session.ran(commands, deferred)),
    decreases commands.len(),
{
    if commands.len() > 0 {
        lemma_executed_same_line(session, commands[0]);
        match session.executed(commands[0]) {
            Ruling::Done(next) => lemma_ran_same_line(next, commands.skip(1), deferred),
            Ruling::Asked(next, act) => lemma_ran_same_line(
                Session { actions: next.actions.push(act), ..next },
                commands.skip(1),
                deferred || act.defers(),
            ),
            Ruling::Refused => {},
        }
    }
}

/// Carrying out a line leaves the assembly of lines alone.
pub proof fn a_line_does_not_change_the_next(session: Session, body: Seq<u8>)
    ensures
        same_line(session, session.performed(body)),
{
    if let Ok(commands) = commands_in(printable(body)) {
        lemma_ran_same_line(session, commands, false);
    }
}

impl Session {
    /// A command carried out that neither fails nor ends the line.
    pub open spec fn goes_on(self, command: Said) -> bool {
        match self.executed(command) {
            Ruling::Done(_) => true,
            Ruling::Asked(_, act) => !act.terminates(),
            Ruling::Refused => false,
        }
    }

    /// What such a command leaves.
    pub open spec fn gone_on(self, command: Said) -> Session {
        match self.executed(command) {
            Ruling::Done(next) => next,
            Ruling::Asked(next, act) => Session { actions: next.actions.push(act), ..next },
            Ruling::Refused => self,
        }
    }

    /// The first so many commands of a line neither fail nor end it.
    pub open spec fn reaches(self, commands: Seq<Said>, k: nat) -> bool
        decreases k,
    {
        k > 0 ==> self.goes_on(commands[0]) && self.gone_on(commands[0]).reaches(
            commands.skip(1),
            (k - 1) as nat,
        )
    }

    /// What they leave.
    pub open spec fn reached(self, commands: Seq<Said>, k: nat) -> Session
        decreases k,
    {
        if k == 0 {
            self
        } else {
            self.gone_on(commands[0]).reached(commands.skip(1), (k - 1) as nat)
        }
    }
}

/// Commands up to one that fails, and that one.
proof fn lemma_failing(session: Session, commands: Seq<Said>, k: nat, deferred: bool)
    requires
        k < commands.len(),
        session.reaches(commands, k),
        session.reached(commands, k).executed(commands[k as int]) is Refused,
    ensures
        session.ran(commands, deferred) == (Session {
            actions: Seq::empty(),
            ..session.reached(commands, k)
        }).emitted(Code::Error),
    decreases k,
{
    if k > 0 {
        let rest = commands.skip(1);
        assert(rest[k - 1] == commands[k as int]);
        let deferred = match session.executed(commands[0]) {
            Ruling::Asked(_, act) => deferred || act.defers(),
            _ => deferred,
        };
        lemma_failing(session.gone_on(commands[0]), rest, (k - 1) as nat, deferred);
    }
}

/// A line that fails, whole. Where the first so many commands of a body are carried out
/// and the next one fails, what they set stays, and of all that they asked of the modem
/// nothing is left. The line is answered ERROR and nothing more, and what stands behind
/// the command that failed makes no difference: any other line that is the same up to it
/// comes to the same.
pub proof fn a_line_that_fails_stops_there(
    session: Session,
    body: Seq<u8>,
    commands: Seq<Said>,
    k: nat,
    other: Seq<Said>,
)
    requires
        commands_in(printable(body)) == Ok::<Seq<Said>, ParseError>(commands),
        k < commands.len(),
        session.reaches(commands, k),
        session.reached(commands, k).executed(commands[k as int]) is Refused,
        k < other.len(),
        other.take(k as int + 1) == commands.take(k as int + 1),
    ensures
        ({
            let at = session.reached(commands, k);
            let after = session.performed(body);
            &&& after.actions == Seq::<Act>::empty()
            &&& after.out == at.out + at.fmt.coded(Code::Error, at.regs)
            &&& after.regs == at.regs
            &&& after.fmt == at.fmt
            &&& after.config == at.config
            &&& same_line(session, after)
            &&& session.ran(other, false) == after
        }),
{
    a_line_does_not_change_the_next(session, body);
    lemma_failing(session, commands, k, false);
    lemma_alike(session, commands, other, k);
    assert(other[k as int] == other.take(k as int + 1)[k as int]);
    assert(commands[k as int] == commands.take(k as int + 1)[k as int]);
    lemma_failing(session, other, k, false);
}

proof fn lemma_going_on(session: Session, commands: Seq<Said>)
    requires
        session.reaches(commands, commands.len()),
    ensures
        session.ran(commands, false) == session.reached(commands, commands.len()).emitted(
            Code::Okay,
        ),
    decreases commands.len(),
{
    if commands.len() > 0 {
        lemma_going_on(session.gone_on(commands[0]), commands.skip(1));
    }
}

/// A line that goes through, whole: each command acts on what the one before it left,
/// what they ask of the modem is asked in the order written, and the line is acknowledged
/// once, in the form that the last of them left.
pub proof fn a_line_that_goes_through_is_acknowledged(
    session: Session,
    body: Seq<u8>,
    commands: Seq<Said>,
)
    requires
        commands_in(printable(body)) == Ok::<Seq<Said>, ParseError>(commands),
        session.reaches(commands, commands.len()),
    ensures
        session.performed(body) == session.reached(commands, commands.len()).emitted(Code::Okay),
{
    lemma_going_on(session, commands);
}

/// Two lines that begin alike come to the same so far.
proof fn lemma_alike(session: Session, a: Seq<Said>, b: Seq<Said>, k: nat)
    requires
        k < a.len(),
        k < b.len(),
        a.take(k as int + 1) == b.take(k as int + 1),
    ensures
        session.reaches(a, k) == session.reaches(b, k),
        session.reached(a, k) == session.reached(b, k),
    decreases k,
{
    if k > 0 {
        assert(a[0] == a.take(k as int + 1)[0] && b[0] == b.take(k as int + 1)[0]);
        assert(a.skip(1).take(k as int) =~= a.take(k as int + 1).skip(1));
        assert(b.skip(1).take(k as int) =~= b.take(k as int + 1).skip(1));
        lemma_alike(session.gone_on(a[0]), a.skip(1), b.skip(1), (k - 1) as nat);
    }
}

/// `A/` repeats the previous line, with no termination character: what it does is what
/// that line's body does.
pub proof fn a_slash_repeats_the_previous_line(session: Session, a: u8, slash: u8)
    requires
        session.state == LineState::Body,
        !session.overflowed,
        a == 'A' as u8 || a == 'a' as u8,
        slash == '/' as u8,
    ensures
        ({
            let after = session.typed(session.regs.s3);
            let asked = after.fed(a);
            asked.fed(slash) == Session {
                state: LineState::Idle,
                ..asked.echoed(slash)
            }.performed(session.body)
        }),
{
    let c = session.regs.s3;
    let over = Session {
        state: LineState::Idle,
        body: Seq::empty(),
        last_body: session.body,
        ..session.echoed(c)
    };
    a_line_does_not_change_the_next(over, session.body);
}

/// `A/` before any line acts as an empty one, which simply acknowledges.
pub proof fn a_slash_before_any_line_acknowledges(session: Session)
    requires
        session.state == LineState::GotA,
        session.last_body == Seq::<u8>::empty(),
    ensures
        session.fed('/' as u8) == (Session {
            state: LineState::Idle,
            ..session.echoed('/' as u8)
        }).emitted(Code::Okay),
{
    assert(printable(Seq::empty()) =~= Seq::empty());
    assert(beyond(Seq::<u8>::empty(), Class::Space).len() == 0);
}

/// What is not part of a command line is ignored.
pub proof fn junk_before_the_prefix_is_ignored(session: Session, byte: u8)
    requires
        session.state == LineState::Idle,
        byte % 128 != 'A' as u8,
        byte % 128 != 'a' as u8,
    ensures
        session.fed(byte) == session,
{
}

/// Only the low seven bits of an octet matter.
pub proof fn only_seven_bits_matter(session: Session, byte: u8)
    ensures
        session.fed(byte) == session.fed((byte % 128) as u8),
{
}

/// A body that is being typed never grows past the longest one taken.
pub proof fn a_body_stays_in_bounds(session: Session, byte: u8)
    requires
        session.body.len() <= MAX_BODY,
    ensures
        session.fed(byte).body.len() <= MAX_BODY,
{
    let c = (byte % 128) as u8;
    if session.state == LineState::GotA && c == '/' as u8 {
        a_line_does_not_change_the_next(
            Session { state: LineState::Idle, ..session.echoed(c) },
            session.last_body,
        );
    }
    if session.state == LineState::Body && c == session.regs.s3 {
        a_line_does_not_change_the_next(
            Session {
                state: LineState::Idle,
                body: Seq::empty(),
                last_body: session.body,
                ..session.echoed(c)
            },
            session.body,
        );
    }
}

/// An over-long line is an error once it is terminated, whatever it says.
pub proof fn an_over_long_line_is_an_error(session: Session)
    requires
        session.state == LineState::Body,
        session.overflowed,
    ensures
        session.typed(session.regs.s3).out == session.echoed(session.regs.s3).out
            + session.fmt.coded(Code::Error, session.regs),
        session.typed(session.regs.s3).actions == session.actions,
        session.typed(session.regs.s3).config == session.config,
        session.typed(session.regs.s3).regs == session.regs,
{
}

/// A reset and the factory settings restore every setting, and nothing of who the DCE is.
pub proof fn a_reset_restores_the_defaults(session: Session, n: u8)
    requires
        n <= 1,
    ensures
        session.executed(Said::Basic { amp: false, letter: 'Z' as u8, number: Some(n as u32) })
            == Ruling::Asked(session.restored(), Act::ResetProfile(n)),
        session.executed(Said::Basic { amp: true, letter: 'F' as u8, number: None })
            == Ruling::Asked(session.restored(), Act::FactoryDefaults(0)),
        session.restored().regs == Registers::factory(),
        session.restored().fmt == Formatter::factory(),
        session.restored().config == Config::factory(),
        session.restored().identity == session.identity,
{
    reveal(Session::amp);
    reveal(Session::letter);
}

/// Quiet suppresses result codes and nothing else.
pub proof fn quiet_suppresses_result_codes_only(
    fmt: Formatter,
    code: Code,
    text: Seq<u8>,
    regs: Registers,
)
    ensures
        fmt.quiet ==> fmt.coded(code, regs) == Seq::<u8>::empty(),
        fmt.line(text, regs) == (Formatter { quiet: !fmt.quiet, ..fmt }).line(text, regs),
{
}

/// An S-parameter that a line sets is what a later one reads.
pub proof fn a_parameter_that_is_set_is_read(session: Session, n: u32, value: u32)
    requires
        takes(n as nat, value),
    ensures
        session.executed(Said::SetS(n, Some(value))) matches Ruling::Done(set) && set.executed(
            Said::ReadS(n),
        ) == Ruling::Done(set.informed(three_digits(value as u8))),
{
    what_is_set_is_read_back(session.regs, n as nat, value as u8, n as nat);
}

/// A value that an S-parameter does not take, or a parameter that is not there, is refused.
pub proof fn what_a_parameter_does_not_take_is_refused(
    session: Session,
    n: u32,
    value: Option<u32>,
)
    requires
        !takes(
            n as nat,
            match value {
                Some(value) => value,
                None => 0,
            },
        ),
    ensures
        session.executed(Said::SetS(n, value)) is Refused,
{
}

/// An S-parameter is read in exactly three digits, which spell it.
pub proof fn three_digits_spell_the_number(n: u8)
    ensures
        three_digits(n).len() == 3,
        value(three_digits(n)) == n,
        forall|i: int| 0 <= i < 3 ==> is_digit(#[trigger] three_digits(n)[i]),
{
    let digits = three_digits(n);
    reveal_with_fuel(value, 4);
    assert(digits.drop_last() =~= seq![digits[0], digits[1]]);
    assert(digits.drop_last().drop_last() =~= seq![digits[0]]);
    assert(digits.drop_last().drop_last().drop_last() =~= Seq::empty());
}

/// A modulation that is set is the one read back: what the DCE says of it is a value that
/// would set it again.
pub proof fn a_modulation_that_is_set_is_read_back(session: Session, m: Modulation)
    ensures
        session.ms(Op::Assign(modulation_text(m))) matches Ruling::Asked(set, act) && act
            == Act::SelectModulation(m) && set.ms(Op::Read) == Ruling::Done(
            set.informed(ascii("+MS: "@) + modulation_text(m)),
        ),
{
    a_modulation_reads_back(m);
}

/// And so is error control.
pub proof fn error_control_that_is_set_is_read_back(session: Session, e: ErrorControl)
    requires
        e.request <= 3,
        e.fallback <= 3,
    ensures
        session.es(Op::Assign(error_control_text(e))) matches Ruling::Asked(set, act) && act
            == Act::SelectErrorControl(e) && set.es(Op::Read) == Ruling::Done(
            set.informed(ascii("+ES: "@) + error_control_text(e)),
        ),
{
    error_control_reads_back(e);
}

/// What of some text is echoed: all of it, if echo is on.
pub open spec fn echoing(session: Session, text: Seq<u8>) -> Seq<u8> {
    if session.config.echo {
        text
    } else {
        Seq::empty()
    }
}

/// A command line with its prefix.
pub open spec fn prefixed(body: Seq<u8>) -> Seq<u8> {
    seq!['A' as u8, 'T' as u8] + body
}

/// Text that a line can hold whole: no longer than a body, and with neither the character
/// that ends a line nor the one that edits it.
pub open spec fn typable(session: Session, body: Seq<u8>) -> bool {
    &&& body.len() <= MAX_BODY
    &&& forall|i: int|
        0 <= i < body.len() ==> (#[trigger] body[i]) < 128 && body[i] != session.regs.s3
            && body[i] != session.regs.s5
}

/// The prefix of a line.
proof fn lemma_prefix(session: Session)
    requires
        session.state == LineState::Idle,
    ensures
        session.fed_all(prefixed(Seq::empty())) == (Session {
            state: LineState::Body,
            body: Seq::empty(),
            overflowed: false,
            out: session.out + echoing(session, prefixed(Seq::empty())),
            ..session
        }),
{
    let text = prefixed(Seq::empty());
    assert(text =~= seq!['A' as u8, 'T' as u8]);
    assert(text.drop_last() =~= seq!['A' as u8]);
    assert(text.drop_last().drop_last() =~= Seq::empty());
    reveal_with_fuel(Session::fed_all, 3);
    let begun = session.fed('A' as u8);
    assert(begun == Session { state: LineState::GotA, ..session }.echoed('A' as u8));
    let after = begun.fed('T' as u8);
    assert(session.fed_all(text) == after);
    assert(after.out =~= session.out + echoing(session, text));
}

/// A character of a line.
proof fn lemma_character(session: Session, c: u8)
    requires
        session.state == LineState::Body,
        c < 128,
        c != session.regs.s3,
        c != session.regs.s5,
        session.body.len() < MAX_BODY,
    ensures
        session.fed(c) == (Session {
            body: session.body.push(c),
            out: session.out + echoing(session, seq![c]),
            ..session
        }),
{
    assert(session.echoed(c).out =~= session.out + echoing(session, seq![c]));
}

/// A line on its way in.
proof fn lemma_typing(session: Session, body: Seq<u8>, n: nat)
    requires
        session.state == LineState::Idle,
        typable(session, body),
        n <= body.len(),
    ensures
        session.fed_all(prefixed(body.take(n as int))) == (Session {
            state: LineState::Body,
            body: body.take(n as int),
            overflowed: false,
            out: session.out + echoing(session, prefixed(body.take(n as int))),
            ..session
        }),
    decreases n,
{
    if n == 0 {
        lemma_prefix(session);
        assert(body.take(0) =~= Seq::empty());
    } else {
        let text = prefixed(body.take(n as int));
        let c = body[n - 1];
        lemma_typing(session, body, (n - 1) as nat);
        assert(text.drop_last() =~= prefixed(body.take(n - 1)));
        assert(text.last() == c);
        let before = session.fed_all(text.drop_last());
        lemma_character(before, c);
        assert(before.body.push(c) =~= body.take(n as int));
        assert(before.out + echoing(before, seq![c]) =~= session.out + echoing(session, text));
    }
}

/// A line typed whole is carried out: fed with its prefix and the character that ends it,
/// a body does what carrying it out does, behind what is echoed of the line.
pub proof fn a_typed_line_is_carried_out(session: Session, body: Seq<u8>)
    requires
        session.state == LineState::Idle,
        session.regs.s3 < 128,
        typable(session, body),
    ensures
        session.fed_all(prefixed(body).push(session.regs.s3)) == (Session {
            body: Seq::empty(),
            last_body: body,
            overflowed: false,
            out: session.out + echoing(session, prefixed(body).push(session.regs.s3)),
            ..session
        }).performed(body),
{
    let line = prefixed(body).push(session.regs.s3);
    lemma_typing(session, body, body.len());
    assert(body.take(body.len() as int) =~= body);
    assert(line.drop_last() =~= prefixed(body));
    let before = session.fed_all(prefixed(body));
    assert(before.echoed(session.regs.s3).out =~= session.out + echoing(session, line));
}

/// An extended command with a value, as it is written.
pub open spec fn written(name: Seq<u8>, value: Seq<u8>) -> Seq<u8> {
    seq![PLUS] + name + seq![EQUALS] + value
}

/// An extended command with a value reads as it is written.
proof fn lemma_written(name: Seq<u8>, value: Seq<u8>)
    requires
        name.len() > 0,
        forall|i: int| 0 <= i < name.len() ==> 65 <= #[trigger] name[i] <= 90,
        forall|i: int|
            0 <= i < value.len() ==> 0x20 < #[trigger] value[i] < 0x7f && value[i] != SEMICOLON,
    ensures
        printable(written(name, value)) == written(name, value),
        commands_in(written(name, value)) == Ok::<Seq<Said>, ParseError>(
            seq![
                Said::Extended {
                    name,
                    op: if asks(value) {
                        Op::Test
                    } else {
                        Op::Assign(value)
                    },
                },
            ],
        ),
{
    let text = written(name, value);
    assert forall|i: int| 0 <= i < text.len() implies 0x20 < #[trigger] text[i] < 0x7f by {
        if 1 <= i < 1 + name.len() {
            assert(text[i] == name[i - 1]);
        } else if i >= 2 + name.len() {
            assert(text[i] == value[i - 2 - name.len()]);
        }
    }
    lemma_printable(text);
    lemma_run(text, Class::Space, 0);
    assert(text.skip(0) =~= text);
    let rest = text.skip(1);
    let n = name.len() as int;
    assert forall|i: int| 0 <= i < n implies belongs(Class::Name, #[trigger] rest[i]) by {
        assert(rest[i] == name[i]);
    }
    assert(rest[n] == EQUALS);
    lemma_run(rest, Class::Name, n);
    assert(rest.take(n) =~= name);
    assert forall|i: int| 0 <= i < n implies raised(#[trigger] name[i]) == name[i] by {}
    assert(raised_all(name) =~= name);
    let from = rest.skip(n);
    lemma_run(from, Class::Space, 0);
    assert(from.skip(0) =~= from);
    assert(from.skip(1) =~= value);
    lemma_run(value, Class::Value, value.len() as int);
    assert(value.take(value.len() as int) =~= value);
    assert(beyond(value, Class::Value) =~= Seq::empty());
    lemma_run(Seq::<u8>::empty(), Class::Space, 0);
    let command = Said::Extended {
        name,
        op: if asks(value) {
            Op::Test
        } else {
            Op::Assign(value)
        },
    };
    assert(command_in(text) == Ok::<(Said, Seq<u8>), ParseError>((command, Seq::empty())));
    assert(commands_in(Seq::<u8>::empty()) == Ok::<Seq<Said>, ParseError>(Seq::empty()));
    assert(seq![command] + Seq::<Said>::empty() =~= seq![command]);
}

proof fn lemma_printable(text: Seq<u8>)
    requires
        forall|i: int| 0 <= i < text.len() ==> 0x20 <= #[trigger] text[i] < 0x7f,
    ensures
        printable(text) == text,
    decreases text.len(),
{
    if text.len() > 0 {
        lemma_printable(text.drop_last());
        assert(text.drop_last().push(text.last()) =~= text);
    }
}

/// The commands that `+GCAP` lists.
pub open spec fn capabilities() -> Seq<Seq<u8>> {
    seq![ascii("FCLASS"@), ascii("MS"@), ascii("ES"@), ascii("DS"@)]
}

/// Commands in a list: each behind its `+`, and a comma between two.
pub open spec fn listed(names: Seq<Seq<u8>>) -> Seq<u8>
    decreases names.len(),
{
    if names.len() == 0 {
        Seq::empty()
    } else if names.len() == 1 {
        seq![PLUS] + names[0]
    } else {
        listed(names.drop_last()) + seq![COMMA, PLUS] + names.last()
    }
}

/// What each says of the values it takes.
pub open spec fn offered() -> Seq<Seq<u8>> {
    seq![
        ascii("+FCLASS: (0)"@),
        ascii("+MS: (V22B,V32),(0,1)"@),
        ascii("+ES: (0-3),(0-3)"@),
        ascii("+DS: (0,3)"@),
    ]
}

/// What `+GCAP` answers is the list of its commands.
pub proof fn gcap_lists_its_commands(session: Session)
    ensures
        session.extended(ascii("GCAP"@), Op::Execute) == Ruling::Done(
            session.informed(ascii("+GCAP: "@) + listed(capabilities())),
        ),
{
    reveal(Session::extended);
    reveal_strlit("GMI");
    reveal_strlit("GMM");
    reveal_strlit("GMR");
    reveal_strlit("GSN");
    reveal_strlit("GCAP");
    reveal_strlit("FCLASS");
    reveal_strlit("MS");
    reveal_strlit("ES");
    reveal_strlit("DS");
    reveal_strlit("+GCAP: ");
    reveal_strlit("+GCAP: +FCLASS,+MS,+ES,+DS");
    assert(ascii("GMI"@).len() == 3 && ascii("GMM"@).len() == 3 && ascii("GMR"@).len() == 3);
    assert(ascii("GSN"@).len() == 3 && ascii("GCAP"@).len() == 4);
    let names = capabilities();
    reveal_with_fuel(listed, 4);
    assert(names.drop_last() =~= seq![names[0], names[1], names[2]]);
    assert(names.drop_last().drop_last() =~= seq![names[0], names[1]]);
    assert(names.drop_last().drop_last().drop_last() =~= seq![names[0]]);
    assert(ascii("+GCAP: "@) + listed(names) =~= ascii("+GCAP: +FCLASS,+MS,+ES,+DS"@));
}

/// Every command that `+GCAP` lists is answered, over whole lines: asked what values it
/// takes, each says so and is acknowledged, and nothing else comes of the line.
pub proof fn every_command_gcap_lists_is_answered(session: Session, i: int)
    requires
        session.state == LineState::Idle,
        session.regs.s3 < 128,
        0 <= i < capabilities().len(),
        typable(session, written(capabilities()[i], seq![QUESTION])),
    ensures
        ({
            let body = written(capabilities()[i], seq![QUESTION]);
            let line = prefixed(body).push(session.regs.s3);
            session.fed_all(line) == Session {
                body: Seq::empty(),
                last_body: body,
                overflowed: false,
                out: session.out + echoing(session, line) + session.fmt.line(
                    offered()[i],
                    session.regs,
                ) + session.fmt.coded(Code::Okay, session.regs),
                ..session
            }
        }),
{
    let name = capabilities()[i];
    let body = written(name, seq![QUESTION]);
    lemma_names();
    lemma_run(seq![QUESTION], Class::Space, 0);
    assert(seq![QUESTION].skip(0) =~= seq![QUESTION]);
    assert(seq![QUESTION].skip(1) =~= Seq::empty());
    lemma_run(Seq::<u8>::empty(), Class::Space, 0);
    assert(asks(seq![QUESTION]));
    lemma_written(name, seq![QUESTION]);
    a_typed_line_is_carried_out(session, body);
    let command = Said::Extended { name, op: Op::Test };
    let line = prefixed(body).push(session.regs.s3);
    let typed = Session {
        body: Seq::empty(),
        last_body: body,
        overflowed: false,
        out: session.out + echoing(session, line),
        ..session
    };
    lemma_test_form(typed, i);
    lemma_line_of_one(typed, body, command);
}

/// Fax is not one of them: any class but data's is refused.
pub proof fn a_fax_class_is_refused(session: Session)
    requires
        session.state == LineState::Idle,
        session.regs.s3 < 128,
        typable(session, ascii("+FCLASS=1"@)),
    ensures
        ({
            let line = prefixed(ascii("+FCLASS=1"@)).push(session.regs.s3);
            let after = session.fed_all(line);
            &&& after.actions == Seq::<Act>::empty()
            &&& after.out == session.out + echoing(session, line) + session.fmt.coded(
                Code::Error,
                session.regs,
            )
        }),
{
    let value = seq!['1' as u8];
    let name = ascii("FCLASS"@);
    let body = ascii("+FCLASS=1"@);
    lemma_names();
    reveal_strlit("+FCLASS=1");
    reveal_strlit("FCLASS");
    assert(capabilities()[0] == name);
    assert(written(name, value) =~= body);
    lemma_run(value, Class::Space, 0);
    assert(value.skip(0) =~= value);
    lemma_written(name, value);
    a_typed_line_is_carried_out(session, body);
    let line = prefixed(body).push(session.regs.s3);
    let typed = Session {
        body: Seq::empty(),
        last_body: body,
        overflowed: false,
        out: session.out + echoing(session, line),
        ..session
    };
    lemma_capability(typed, 0, Op::Assign(value));
    lemma_run(value, Class::Digit, 1);
    assert(value.take(1) =~= value);
    reveal_with_fuel(crate::at::parse::value, 2);
    assert(value.drop_last() =~= Seq::empty());
    assert(only_in(value) != Some(0u32));
    lemma_line_of_one(typed, body, Said::Extended { name, op: Op::Assign(value) });
}

/// The names are in capital letters.
proof fn lemma_names()
    ensures
        forall|i: int, j: int|
            0 <= i < 4 && 0 <= j < capabilities()[i].len() ==> 65 <= (
            #[trigger] capabilities()[i][j]) <= 90,
        forall|i: int| 0 <= i < 4 ==> (#[trigger] capabilities()[i]).len() > 0,
{
    reveal_strlit("FCLASS");
    reveal_strlit("MS");
    reveal_strlit("ES");
    reveal_strlit("DS");
}

/// Which command each name is.
proof fn lemma_capability(session: Session, i: int, op: Op)
    requires
        0 <= i < 4,
    ensures
        session.executed(Said::Extended { name: capabilities()[i], op }) == (if i == 0 {
            session.fclass(op)
        } else if i == 1 {
            session.ms(op)
        } else if i == 2 {
            session.es(op)
        } else {
            session.ds(op)
        }),
{
    reveal(Session::extended);
    reveal_strlit("FCLASS");
    reveal_strlit("MS");
    reveal_strlit("ES");
    reveal_strlit("DS");
    reveal_strlit("GMI");
    reveal_strlit("GMM");
    reveal_strlit("GMR");
    reveal_strlit("GSN");
    reveal_strlit("GCAP");
    let names = capabilities();
    assert(names[0].len() == 6 && names[1].len() == 2 && names[2].len() == 2 && names[3].len()
        == 2);
    assert(ascii("GMI"@).len() == 3 && ascii("GMM"@).len() == 3 && ascii("GMR"@).len() == 3);
    assert(ascii("GSN"@).len() == 3 && ascii("GCAP"@).len() == 4);
    assert(names[1][0] == 'M' as u8 && names[2][0] == 'E' as u8 && names[3][0] == 'D' as u8);
}

proof fn lemma_test_form(session: Session, i: int)
    requires
        0 <= i < 4,
    ensures
        session.executed(Said::Extended { name: capabilities()[i], op: Op::Test }) == Ruling::Done(
            session.informed(offered()[i]),
        ),
{
    lemma_capability(session, i, Op::Test);
}

/// A line of one command.
proof fn lemma_line_of_one(session: Session, body: Seq<u8>, command: Said)
    requires
        commands_in(printable(body)) == Ok::<Seq<Said>, ParseError>(seq![command]),
    ensures
        session.performed(body) == match session.executed(command) {
            Ruling::Done(next) => next.emitted(Code::Okay),
            Ruling::Asked(next, act) => Session {
                actions: next.actions.push(act),
                ..next
            }.finished(act.defers()),
            Ruling::Refused => Session { actions: Seq::empty(), ..session }.emitted(Code::Error),
        },
{
    reveal_with_fuel(Session::ran, 2);
    assert(seq![command].skip(1) =~= Seq::empty());
    assert(beyond(printable(body), Class::Space).len() > 0);
}

} // verus!
