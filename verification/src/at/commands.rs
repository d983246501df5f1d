//! What each command is for: how it is written, what it changes, and what it says.
use crate::at::laws::{a_typed_line_is_carried_out, prefixed, typable};
use crate::at::parse::{
    beyond, command_in, commands_in, lemma_run, run, value, Class, Op, ParseError, Said,
};
use crate::at::registers::{takes, Registers};
use crate::at::result::{ascii, Code, Formatter};
use crate::at::settings::{decimal, lemma_number_read, list_in, more_in, only_in};
use crate::at::{Act, Config, LineState, Ruling, Session};
use vstd::prelude::*;

verus! {

/// A command of one letter and a number.
pub open spec fn plain(letter: u8, n: u32) -> Said {
    Said::Basic { amp: false, letter, number: Some(n) }
}

/// A command of an ampersand, a letter and a number.
pub open spec fn marked(letter: u8, n: u32) -> Said {
    Said::Basic { amp: true, letter, number: Some(n) }
}

/// `E` turns echo on and off and changes nothing else: 1 on, 0 off, and no other value is
/// taken.
pub proof fn echo_is_on_after_e1_and_off_after_e0(session: Session, n: u32)
    ensures
        n <= 1 ==> (session.executed(plain('E' as u8, n)) matches Ruling::Done(next)
            && next.config.echo == (n == 1) && next == (Session { config: next.config, ..session })
            && next.config == (Config { echo: next.config.echo, ..session.config })),
        n > 1 ==> session.executed(plain('E' as u8, n)) is Refused,
{
    reveal(Session::letter);
}

/// With echo on every character of a line comes back before anything that the line does,
/// and with it off none of them does.
pub proof fn a_line_is_echoed_whole_or_not_at_all(session: Session, body: Seq<u8>)
    requires
        session.state == LineState::Idle,
        session.regs.s3 < 128,
        typable(session, body),
    ensures
        ({
            let line = seq!['A' as u8, 'T' as u8] + body + seq![session.regs.s3];
            let begun = Session {
                body: Seq::empty(),
                last_body: body,
                overflowed: false,
                out: if session.config.echo {
                    session.out + line
                } else {
                    session.out
                },
                ..session
            };
            session.fed_all(line) == begun.performed(body)
        }),
{
    let line = seq!['A' as u8, 'T' as u8] + body + seq![session.regs.s3];
    assert(line =~= prefixed(body).push(session.regs.s3));
    assert(session.out + Seq::<u8>::empty() =~= session.out);
    a_typed_line_is_carried_out(session, body);
}

/// `Q1` keeps result codes back and `Q0` lets them through; `V1` has them in words and `V0`
/// as digits; and each leaves the other, and everything else, alone.
pub proof fn q_and_v_shape_the_result_codes(session: Session, n: u32)
    ensures
        n <= 1 ==> (session.executed(plain('Q' as u8, n)) matches Ruling::Done(next) && next
            == (Session { fmt: next.fmt, ..session }) && next.fmt.quiet == (n == 1)
            && next.fmt.verbose == session.fmt.verbose),
        n <= 1 ==> (session.executed(plain('V' as u8, n)) matches Ruling::Done(next) && next
            == (Session { fmt: next.fmt, ..session }) && next.fmt.verbose == (n == 1)
            && next.fmt.quiet == session.fmt.quiet),
        n > 1 ==> session.executed(plain('Q' as u8, n)) is Refused && session.executed(
            plain('V' as u8, n),
        ) is Refused,
{
    reveal(Session::letter);
}

/// A result code in words stands between two line ends, and as a digit before a carriage
/// return; information text ends its line either way, and begins one in words.
pub proof fn a_result_code_is_said_in_words_or_digits(
    fmt: Formatter,
    regs: Registers,
    code: Code,
    text: Seq<u8>,
)
    ensures
        fmt.quiet ==> fmt.coded(code, regs).len() == 0,
        !fmt.quiet && fmt.verbose ==> fmt.coded(code, regs) == seq![regs.s3, regs.s4]
            + code.words() + seq![regs.s3, regs.s4],
        !fmt.quiet && !fmt.verbose ==> fmt.coded(code, regs) == seq![code.digit(), regs.s3],
        fmt.verbose ==> fmt.line(text, regs) == seq![regs.s3, regs.s4] + text + seq![
            regs.s3,
            regs.s4,
        ],
        !fmt.verbose ==> fmt.line(text, regs) == text + seq![regs.s3, regs.s4],
{
}

/// Each result code has its own words and its own digit, a CONNECT with text being a
/// CONNECT.
pub proof fn each_result_code_is_its_own(text: Seq<u8>)
    ensures
        Code::Okay.words() == ascii("OK"@) && Code::Okay.digit() == '0' as u8,
        Code::Connect.words() == ascii("CONNECT"@) && Code::Connect.digit() == '1' as u8,
        Code::Ring.words() == ascii("RING"@) && Code::Ring.digit() == '2' as u8,
        Code::NoCarrier.words() == ascii("NO CARRIER"@) && Code::NoCarrier.digit() == '3' as u8,
        Code::Error.words() == ascii("ERROR"@) && Code::Error.digit() == '4' as u8,
        Code::NoDialtone.words() == ascii("NO DIALTONE"@) && Code::NoDialtone.digit() == '6' as u8,
        Code::Busy.words() == ascii("BUSY"@) && Code::Busy.digit() == '7' as u8,
        Code::NoAnswer.words() == ascii("NO ANSWER"@) && Code::NoAnswer.digit() == '8' as u8,
        Code::ConnectText(text).words() == ascii("CONNECT "@) + text,
        Code::ConnectText(text).digit() == Code::Connect.digit(),
{
}

/// Each setting is its own: the command that sets it takes its values and no more, sets it
/// to the value given, and leaves everything else alone.
pub proof fn each_setting_is_its_own(session: Session, n: u32)
    ensures
        ({
            let c = session.config;
            let set = |config: Config| Ruling::Done(Session { config, ..session });
            &&& session.executed(plain('L' as u8, n)) == if n <= 3 {
                set(Config { speaker_volume: n as u8, ..c })
            } else {
                Ruling::Refused
            }
            &&& session.executed(plain('M' as u8, n)) == if n <= 3 {
                set(Config { speaker_mode: n as u8, ..c })
            } else {
                Ruling::Refused
            }
            &&& session.executed(plain('X' as u8, n)) == if n <= 4 {
                set(Config { x: n as u8, ..c })
            } else {
                Ruling::Refused
            }
            &&& session.executed(marked('C' as u8, n)) == if n <= 1 {
                set(Config { dcd: n as u8, ..c })
            } else {
                Ruling::Refused
            }
            &&& session.executed(marked('D' as u8, n)) == if n <= 2 {
                set(Config { dtr: n as u8, ..c })
            } else {
                Ruling::Refused
            }
            &&& n <= 255 ==> session.executed(plain('P' as u8, n)) == set(
                (Config { pulse_dialling: true, ..c }),
            )
            &&& n <= 255 ==> session.executed(plain('T' as u8, n)) == set(
                (Config { pulse_dialling: false, ..c }),
            )
        }),
{
    reveal(Session::letter);
    reveal(Session::amp);
}

/// What the line is told to do: to answer, to hang up or go off hook, to return online, to
/// dial; and what puts the settings back asks for that too.
pub proof fn each_line_command_asks_for_its_action(session: Session, n: u32, number: Seq<u8>)
    ensures
        n <= 255 ==> session.executed(plain('A' as u8, n)) == Ruling::Asked(session, Act::Answer),
        session.executed(plain('H' as u8, 0)) == Ruling::Asked(session, Act::HangUp),
        session.executed(plain('H' as u8, 1)) == Ruling::Asked(session, Act::OffHook),
        n > 1 ==> session.executed(plain('H' as u8, n)) is Refused,
        session.executed(plain('O' as u8, 0)) == Ruling::Asked(session, Act::ReturnOnline),
        n > 0 ==> session.executed(plain('O' as u8, n)) is Refused,
        session.executed(Said::Dial(number)) == Ruling::Asked(session, Act::Dial(number)),
        n > 1 ==> session.executed(plain('Z' as u8, n)) is Refused,
        n > 0 ==> session.executed(marked('F' as u8, n)) is Refused,
        Act::Dial(number).terminates() && Act::Answer.terminates() && Act::ReturnOnline.terminates(),
        Act::ResetProfile(0).terminates() && !Act::FactoryDefaults(0).terminates(),
        !Act::HangUp.terminates() && !Act::OffHook.terminates(),
        Act::Dial(number).defers() && Act::Answer.defers() && Act::ReturnOnline.defers(),
        !Act::ResetProfile(0).defers() && !Act::FactoryDefaults(0).defers(),
        !Act::HangUp.defers() && !Act::OffHook.defers(),
{
    reveal(Session::letter);
    reveal(Session::amp);
}

/// A command without a number is one with a zero, and one that is not there is refused.
pub proof fn no_number_is_zero(session: Session, amp: bool, letter: u8, n: u32)
    ensures
        session.executed(Said::Basic { amp, letter, number: None }) == session.executed(
            Said::Basic { amp, letter, number: Some(0) },
        ),
        n > 255 ==> session.executed(Said::Basic { amp, letter, number: Some(n) }) is Refused,
        letter == 'B' as u8 || letter == 'C' as u8 || letter == 'F' as u8 || letter == 'G' as u8
            || letter == 'J' as u8 || letter == 'K' as u8 || letter == 'N' as u8 || letter
            == 'R' as u8 || letter == 'U' as u8 || letter == 'W' as u8 || letter == 'Y' as u8
            ==> session.executed(plain(letter, n)) is Refused,
{
    reveal(Session::letter);
    reveal(Session::amp);
}

/// What the DCE says of itself.
pub proof fn the_dce_says_who_it_is(session: Session, n: u32)
    ensures
        ({
            let who = session.identity;
            &&& session.executed(plain('I' as u8, 0)) == Ruling::Done(session.informed(who.model))
            &&& session.executed(plain('I' as u8, 1)) == Ruling::Done(
                session.informed(who.revision),
            )
            &&& session.executed(plain('I' as u8, 2)) == Ruling::Done(
                session.informed(who.manufacturer),
            )
            &&& session.executed(plain('I' as u8, 3)) == Ruling::Done(session.informed(who.serial))
            &&& 3 < n <= 255 ==> session.executed(plain('I' as u8, n)) == Ruling::Done(
                session.informed(ascii("0"@)),
            )
            &&& session.identification(ascii("GMI"@)) == Some(who.manufacturer)
            &&& session.identification(ascii("GMM"@)) == Some(who.model)
            &&& session.identification(ascii("GMR"@)) == Some(who.revision)
            &&& session.identification(ascii("GSN"@)) == Some(who.serial)
        }),
        session.informed(ascii("0"@)) == (Session {
            out: session.out + session.fmt.line(ascii("0"@), session.regs),
            ..session
        }),
{
    reveal(Session::letter);
    reveal_strlit("GMI");
    reveal_strlit("GMM");
    reveal_strlit("GMR");
    reveal_strlit("GSN");
    assert(ascii("GMI"@)[1] == 'M' as u8 && ascii("GMM"@)[1] == 'M' as u8 && ascii("GMR"@)[1]
        == 'M' as u8 && ascii("GSN"@)[1] == 'S' as u8);
    assert(ascii("GMI"@)[2] == 'I' as u8 && ascii("GMM"@)[2] == 'M' as u8 && ascii("GMR"@)[2]
        == 'R' as u8);
}

/// The S-parameters there are, what each takes, and how each leaves the factory; reading one
/// reads the one that was set, and only that.
pub proof fn the_parameters_are_what_they_are(regs: Registers, n: nat, v: u32, to: u8)
    ensures
        takes(n, v) <==> (n == 0 && v <= 255) || ((n == 3 || n == 4 || n == 5) && v <= 127) || (n
            == 6 && 2 <= v <= 10) || (n == 7 && 1 <= v <= 255) || (n == 8 && v <= 255) || (n == 10
            && 1 <= v <= 254),
        regs.holds(0) == Some(regs.s0) && regs.holds(3) == Some(regs.s3) && regs.holds(4) == Some(
            regs.s4,
        ) && regs.holds(5) == Some(regs.s5) && regs.holds(6) == Some(regs.s6) && regs.holds(7)
            == Some(regs.s7) && regs.holds(8) == Some(regs.s8) && regs.holds(10) == Some(regs.s10),
        regs.with(3, to).s3 == to && regs.with(4, to).s4 == to && regs.with(5, to).s5 == to,
        Registers::factory().s0 == 0 && Registers::factory().s3 == 13 && Registers::factory().s4
            == 10 && Registers::factory().s5 == 8 && Registers::factory().s6 == 2
            && Registers::factory().s7 == 50 && Registers::factory().s8 == 2
            && Registers::factory().s10 == 14,
{
}

/// How everything leaves the factory.
pub proof fn the_factory_settings_are_what_they_are()
    ensures
        ({
            let c = Config::factory();
            &&& c.echo && c.x == 4 && c.dcd == 1 && c.dtr == 2
            &&& c.speaker_volume == 2 && c.speaker_mode == 1 && !c.pulse_dialling && c.compression
            &&& c.modulation.automode && c.modulation.min_rate == 0 && c.modulation.max_rate == 0
            &&& c.error_control.request == 3 && c.error_control.fallback == 0
            &&& Formatter::factory().verbose && !Formatter::factory().quiet
            &&& Session::fresh().state == LineState::Idle && Session::fresh().config == c
        }),
{
}

/// Digits are decimal, the first worth most.
pub proof fn digits_are_decimal(digits: Seq<u8>, c: u8)
    ensures
        value(digits.push(c)) == 10 * value(digits) + (c - 48) as nat,
        value(Seq::<u8>::empty()) == 0,
{
    assert(digits.push(c).drop_last() =~= digits);
}

proof fn lemma_no_spaces(text: Seq<u8>)
    requires
        text.len() > 0 ==> text[0] != ' ' as u8,
    ensures
        beyond(text, Class::Space) == text,
{
    lemma_run(text, Class::Space, 0);
    assert(text.skip(0) =~= text);
}

/// A basic command is a letter and a number, and what follows it is the rest of the line.
pub proof fn a_basic_command_reads_as_written(letter: u8, n: u32, rest: Seq<u8>)
    requires
        65 <= letter <= 90,
        letter != 'D' as u8,
        letter != 'S' as u8,
        rest.len() > 0 ==> !(48 <= rest[0] <= 57),
    ensures
        commands_in(seq![letter] + (decimal(n as nat) + rest)) == match commands_in(rest) {
            Ok(more) => Ok::<Seq<Said>, ParseError>(seq![plain(letter, n)] + more),
            Err(e) => Err(e),
        },
{
    let text = seq![letter] + (decimal(n as nat) + rest);
    lemma_no_spaces(text);
    assert(text.skip(1) =~= decimal(n as nat) + rest);
    lemma_number_read(n, rest);
}

/// And so is one behind an ampersand.
pub proof fn an_ampersand_command_reads_as_written(letter: u8, n: u32, rest: Seq<u8>)
    requires
        65 <= letter <= 90,
        rest.len() > 0 ==> !(48 <= rest[0] <= 57),
    ensures
        commands_in(seq!['&' as u8, letter] + (decimal(n as nat) + rest)) == match commands_in(
            rest,
        ) {
            Ok(more) => Ok::<Seq<Said>, ParseError>(seq![marked(letter, n)] + more),
            Err(e) => Err(e),
        },
{
    let text = seq!['&' as u8, letter] + (decimal(n as nat) + rest);
    lemma_no_spaces(text);
    let from = text.skip(1);
    lemma_no_spaces(from);
    assert(from.skip(1) =~= decimal(n as nat) + rest);
    lemma_number_read(n, rest);
}

/// `D` takes the rest of the line as it stands.
pub proof fn a_dial_command_takes_the_rest(number: Seq<u8>)
    ensures
        commands_in(seq!['D' as u8] + number) == Ok::<Seq<Said>, ParseError>(
            seq![Said::Dial(number)],
        ),
{
    let text = seq!['D' as u8] + number;
    lemma_no_spaces(text);
    assert(text.skip(1) =~= number);
    lemma_no_spaces(Seq::empty());
    assert(commands_in(Seq::<u8>::empty()) == Ok::<Seq<Said>, ParseError>(Seq::empty()));
    assert(seq![Said::Dial(number)] + Seq::<Said>::empty() =~= seq![Said::Dial(number)]);
}

/// `S` and a number, and then `?` to read it or `=` and a value to set it.
pub proof fn a_parameter_command_reads_as_written(n: u32, v: u32, rest: Seq<u8>)
    requires
        rest.len() > 0 ==> !(48 <= rest[0] <= 57),
    ensures
        commands_in(seq!['S' as u8] + (decimal(n as nat) + (seq!['?' as u8] + rest)))
            == match commands_in(rest) {
            Ok(more) => Ok::<Seq<Said>, ParseError>(seq![Said::ReadS(n)] + more),
            Err(e) => Err(e),
        },
        commands_in(
            seq!['S' as u8] + (decimal(n as nat) + (seq!['=' as u8] + (decimal(v as nat) + rest))),
        ) == match commands_in(rest) {
            Ok(more) => Ok::<Seq<Said>, ParseError>(seq![Said::SetS(n, Some(v))] + more),
            Err(e) => Err(e),
        },
{
    let asked = seq!['?' as u8] + rest;
    let text = seq!['S' as u8] + (decimal(n as nat) + asked);
    lemma_no_spaces(text);
    assert(text.skip(1) =~= decimal(n as nat) + asked);
    lemma_number_read(n, asked);
    lemma_no_spaces(asked);
    assert(asked.skip(1) =~= rest);
    let given = seq!['=' as u8] + (decimal(v as nat) + rest);
    let other = seq!['S' as u8] + (decimal(n as nat) + given);
    lemma_no_spaces(other);
    assert(other.skip(1) =~= decimal(n as nat) + given);
    lemma_number_read(n, given);
    lemma_no_spaces(given);
    assert(given.skip(1) =~= decimal(v as nat) + rest);
    lemma_number_read(v, rest);
}

/// A space between commands makes no difference, nor does the case of a command's letter.
pub proof fn spaces_and_case_make_no_difference(text: Seq<u8>, small: u8)
    requires
        97 <= small <= 122,
    ensures
        commands_in(seq![' ' as u8] + text) == commands_in(text),
        commands_in(seq![small] + text) == commands_in(seq![(small - 32) as u8] + text),
{
    let spaced = seq![' ' as u8] + text;
    assert(spaced.skip(1) =~= text);
    assert(beyond(spaced, Class::Space) =~= beyond(text, Class::Space)) by {
        crate::at::parse::lemma_run_len(text, Class::Space);
        assert(run(spaced, Class::Space) == 1 + run(text, Class::Space));
        assert(spaced.skip((1 + run(text, Class::Space)) as int) =~= text.skip(
            run(text, Class::Space) as int,
        ));
    }
    let (a, b) = (seq![small] + text, seq![(small - 32) as u8] + text);
    lemma_no_spaces(a);
    lemma_no_spaces(b);
    assert(a.skip(1) =~= b.skip(1));
    assert(command_in(a) == command_in(b));
}

/// A character taken back is as though it had not been typed.
pub proof fn a_character_taken_back_leaves_the_body(session: Session, c: u8)
    requires
        session.state == LineState::Body,
        c < 128,
        c != session.regs.s3,
        c != session.regs.s5,
        session.regs.s5 < 128,
        session.regs.s5 != session.regs.s3,
        session.body.len() < 256,
    ensures
        session.fed(c).fed(session.regs.s5).body == session.body,
        session.fed(c).body == session.body.push(c),
        session.fed(c).fed(session.regs.s5).state == LineState::Body,
{
    assert(session.body.push(c).drop_last() =~= session.body);
}

/// A number by itself is the only one of a list.
proof fn lemma_only(n: u32)
    ensures
        only_in(decimal(n as nat)) == Some(n),
{
    let text = decimal(n as nat);
    assert(text =~= text + Seq::empty());
    lemma_number_read(n, Seq::empty());
    lemma_run(Seq::<u8>::empty(), Class::Space, 0);
    assert(more_in(Seq::<u8>::empty()) == Some(Seq::<Option<u32>>::empty()));
    let list = list_in(text)->0;
    assert(list =~= seq![Some(n)]);
}

/// `+DS` takes 3 for compression and 0 for none, reads back what it was given and tells the
/// modem; `+FCLASS` takes 0; and neither takes any other number.
pub proof fn compression_and_class_take_their_values(session: Session, n: u32)
    ensures
        n == 0 || n == 3 ==> (session.ds(Op::Assign(decimal(n as nat))) matches Ruling::Asked(
            set,
            act,
        ) && set == (Session { config: set.config, ..session }) && set.config == (Config {
            compression: n == 3,
            ..session.config
        }) && act == Act::SelectCompression(n == 3) && set.ds(Op::Read) == Ruling::Done(
            set.informed(ascii("+DS: "@) + decimal(n as nat)),
        )),
        n != 0 && n != 3 ==> session.ds(Op::Assign(decimal(n as nat))) is Refused,
        session.fclass(Op::Assign(decimal(n as nat))) == (if n == 0 {
            Ruling::Done(session)
        } else {
            Ruling::Refused
        }),
        session.fclass(Op::Read) == Ruling::Done(session.informed(ascii("0"@))),
{
    lemma_only(n);
}

/// `+MS` and `+ES` set what they are given and tell the modem; a value that is none of
/// theirs changes nothing; and what they set is theirs alone.
pub proof fn a_selection_changes_only_its_own(session: Session, text: Seq<u8>)
    ensures
        session.ms(Op::Assign(text)) matches Ruling::Asked(set, act) ==> act
            == Act::SelectModulation(set.config.modulation) && set == (Session {
            config: Config { modulation: set.config.modulation, ..session.config },
            ..session
        }),
        session.es(Op::Assign(text)) matches Ruling::Asked(set, act) ==> act
            == Act::SelectErrorControl(set.config.error_control) && set == (Session {
            config: Config { error_control: set.config.error_control, ..session.config },
            ..session
        }),
        !(session.ms(Op::Assign(text)) is Done) && !(session.es(Op::Assign(text)) is Done),
        session.ms(Op::Execute) is Refused && session.es(Op::Execute) is Refused && session.ds(
            Op::Execute,
        ) is Refused && session.fclass(Op::Execute) is Refused,
{
}

} // verus!
