//! The body of a command line, taken apart into commands.
//!
//! A body is commands one after another, with spaces ignored between them and inside
//! them. A basic command is a letter, with an ampersand before it or not, and a number
//! or not. `S` names a parameter and reads or sets it. `D` takes the rest of the line.
//! A `+` begins an extended command, which ends at a semicolon or with the line.
use vstd::prelude::*;

verus! {

/// Why a body is not commands.
#[derive(Debug, Clone, Copy, PartialEq, Eq, Structural)]
pub enum ParseError {
    /// A character that begins no command, or an ampersand before no letter.
    Unexpected,
    /// A number too large to hold.
    Number,
    /// An S-parameter that is neither read nor set.
    Operator,
    /// An extended command without a name, or with something after it that is neither a
    /// semicolon nor part of it.
    Extended,
}

/// What is asked of an extended command.
#[derive(Debug, Clone, PartialEq, Eq)]
pub enum ExtOp {
    /// `+NAME`.
    Execute,
    /// `+NAME?`.
    Read,
    /// `+NAME=?`.
    Test,
    /// `+NAME=` and a value.
    Assign(Vec<u8>),
}

/// A command.
#[derive(Debug, Clone, PartialEq, Eq)]
pub enum Command {
    /// `D` and a dial string, verbatim.
    Dial(Vec<u8>),
    /// `Sn?`.
    ReadS(u32),
    /// `Sn=` and a value or nothing.
    SetS(u32, Option<u32>),
    /// A letter, in upper case.
    Basic { amp: bool, letter: u8, number: Option<u32> },
    /// A name, in upper case.
    Extended { name: Vec<u8>, op: ExtOp },
}

/// What is asked of an extended command, as a value.
pub enum Op {
    Execute,
    Read,
    Test,
    Assign(Seq<u8>),
}

/// A command, as a value.
pub enum Said {
    Dial(Seq<u8>),
    ReadS(u32),
    SetS(u32, Option<u32>),
    Basic { amp: bool, letter: u8, number: Option<u32> },
    Extended { name: Seq<u8>, op: Op },
}

impl View for ExtOp {
    type V = Op;

    open spec fn view(&self) -> Op {
        match self {
            ExtOp::Execute => Op::Execute,
            ExtOp::Read => Op::Read,
            ExtOp::Test => Op::Test,
            ExtOp::Assign(value) => Op::Assign(value@),
        }
    }
}

impl View for Command {
    type V = Said;

    open spec fn view(&self) -> Said {
        match self {
            Command::Dial(number) => Said::Dial(number@),
            Command::ReadS(n) => Said::ReadS(*n),
            Command::SetS(n, value) => Said::SetS(*n, *value),
            Command::Basic { amp, letter, number } => Said::Basic {
                amp: *amp,
                letter: *letter,
                number: *number,
            },
            Command::Extended { name, op } => Said::Extended { name: name@, op: op@ },
        }
    }
}

/// A space.
pub const SPACE: u8 = 32;

/// `&`.
pub const AMPERSAND: u8 = 38;

/// `+`.
pub const PLUS: u8 = 43;

/// `;`.
pub const SEMICOLON: u8 = 59;

/// `=`.
pub const EQUALS: u8 = 61;

/// `?`.
pub const QUESTION: u8 = 63;

/// `D`.
pub const DIAL: u8 = 68;

/// `S`.
pub const PARAMETER: u8 = 83;

/// Kinds of character that come in runs.
#[derive(Debug, Clone, Copy, PartialEq, Eq, Structural)]
pub enum Class {
    Space,
    Digit,
    /// What the name of an extended command is made of.
    Name,
    /// What the value of an extended command is made of.
    Value,
}

pub open spec fn is_digit(c: u8) -> bool {
    48 <= c <= 57
}

/// A letter in upper case, and anything else as it is.
pub open spec fn raised(c: u8) -> u8 {
    if 97 <= c <= 122 {
        (c - 32) as u8
    } else {
        c
    }
}

pub open spec fn is_letter(c: u8) -> bool {
    65 <= raised(c) <= 90
}

/// Letters, digits and `! % - . / : _`.
pub open spec fn is_name(c: u8) -> bool {
    is_letter(c) || is_digit(c) || c == 33 || c == 37 || c == 45 || c == 46 || c == 47 || c == 58
        || c == 95
}

pub open spec fn belongs(class: Class, c: u8) -> bool {
    match class {
        Class::Space => c == SPACE,
        Class::Digit => is_digit(c),
        Class::Name => is_name(c),
        Class::Value => c != SEMICOLON,
    }
}

/// How many characters of a kind a text begins with.
pub open spec fn run(text: Seq<u8>, class: Class) -> nat
    decreases text.len(),
{
    if text.len() > 0 && belongs(class, text[0]) {
        1 + run(text.skip(1), class)
    } else {
        0
    }
}

/// The text without the characters of a kind that it begins with.
pub open spec fn beyond(text: Seq<u8>, class: Class) -> Seq<u8> {
    text.skip(run(text, class) as int)
}

/// The number that decimal digits spell.
pub open spec fn value(digits: Seq<u8>) -> nat
    decreases digits.len(),
{
    if digits.len() == 0 {
        0
    } else {
        10 * value(digits.drop_last()) + (digits.last() - 48) as nat
    }
}

/// The number a text begins with, spaces before it aside, or nothing where it begins
/// with none; and what follows.
pub open spec fn number_in(text: Seq<u8>) -> Result<(Option<u32>, Seq<u8>), ParseError> {
    let from = beyond(text, Class::Space);
    let digits = run(from, Class::Digit);
    if digits == 0 {
        Ok((None, from))
    } else if value(from.take(digits as int)) > u32::MAX {
        Err(ParseError::Number)
    } else {
        Ok((Some(value(from.take(digits as int)) as u32), from.skip(digits as int)))
    }
}

/// A run is no longer than the text it begins.
pub proof fn lemma_run_len(text: Seq<u8>, class: Class)
    ensures
        run(text, class) <= text.len(),
    decreases text.len(),
{
    if text.len() > 0 && belongs(class, text[0]) {
        lemma_run_len(text.skip(1), class);
    }
}

/// A run is as many characters of its kind as come before one that is not.
pub proof fn lemma_run(text: Seq<u8>, class: Class, n: int)
    requires
        0 <= n <= text.len(),
        forall|i: int| 0 <= i < n ==> belongs(class, #[trigger] text[i]),
        n < text.len() ==> !belongs(class, text[n]),
    ensures
        run(text, class) == n,
    decreases text.len(),
{
    if n > 0 {
        assert(belongs(class, text[0]));
        let rest = text.skip(1);
        assert forall|i: int| 0 <= i < n - 1 implies belongs(class, #[trigger] rest[i]) by {
            assert(rest[i] == text[i + 1]);
        }
        lemma_run(rest, class, n - 1);
    }
}

fn in_class(class: Class, c: u8) -> (in_class: bool)
    ensures
        in_class == belongs(class, c),
{
    match class {
        Class::Space => c == SPACE,
        Class::Digit => 48 <= c && c <= 57,
        Class::Name => {
            let c: u8 = raise(c);
            (65 <= c && c <= 90) || (48 <= c && c <= 57) || c == 33 || c == 37 || c == 45 || c == 46
                || c == 47 || c == 58 || c == 95
        },
        Class::Value => c != SEMICOLON,
    }
}

fn raise(c: u8) -> (up: u8)
    ensures
        up == raised(c),
{
    if 97 <= c && c <= 122 {
        c - 32
    } else {
        c
    }
}

/// The end of the run that begins at a place.
pub fn past_run(text: &[u8], from: usize, class: Class) -> (to: usize)
    requires
        from <= text.len(),
    ensures
        from <= to <= text.len(),
        to == from + run(text@.skip(from as int), class),
        text@.skip(to as int) == beyond(text@.skip(from as int), class),
{
    let mut to: usize = from;
    while to < text.len() && in_class(class, text[to])
        invariant
            from <= to <= text.len(),
            forall|i: int| from <= i < to ==> belongs(class, #[trigger] text@[i]),
        decreases text.len() - to,
    {
        to = to + 1;
    }
    proof {
        let rest = text@.skip(from as int);
        let n = to - from;
        assert forall|i: int| 0 <= i < n implies belongs(class, #[trigger] rest[i]) by {
            assert(rest[i] == text@[i + from]);
        }
        lemma_run(rest, class, n);
        assert(text@.skip(to as int) =~= rest.skip(n));
    }
    to
}

/// Copy part of a text.
fn part(text: &[u8], from: usize, to: usize) -> (part: Vec<u8>)
    requires
        from <= to <= text.len(),
    ensures
        part@ == text@.subrange(from as int, to as int),
{
    let mut part: Vec<u8> = Vec::new();
    let mut i: usize = from;
    while i < to
        invariant
            from <= i <= to <= text.len(),
            part@ == text@.subrange(from as int, i as int),
        decreases to - i,
    {
        part.push(text[i]);
        i = i + 1;
        assert(part@ =~= text@.subrange(from as int, i as int));
    }
    part
}

/// A number's value only grows with more digits.
proof fn lemma_value_step(digits: Seq<u8>, i: int)
    requires
        0 <= i < digits.len(),
    ensures
        value(digits.take(i + 1)) == 10 * value(digits.take(i)) + (digits[i] - 48) as nat,
{
    assert(digits.take(i + 1).drop_last() =~= digits.take(i));
}

/// The number at a place, if there is one, and where it ends.
pub fn read_number(text: &[u8], from: usize) -> (out: Result<(Option<u32>, usize), ParseError>)
    requires
        from <= text.len(),
    ensures
        match (out, number_in(text@.skip(from as int))) {
            (Ok((number, to)), Ok((spec_number, rest))) => {
                &&& from <= to <= text.len()
                &&& number == spec_number
                &&& text@.skip(to as int) == rest
            },
            (Err(e), Err(spec_e)) => e == spec_e,
            _ => false,
        },
{
    let start: usize = past_run(text, from, Class::Space);
    let to: usize = past_run(text, start, Class::Digit);
    if start == to {
        return Ok((None, start));
    }
    let ghost digits = text@.skip(start as int).take(to - start);
    let mut total: u64 = 0;
    let mut large = false;
    let mut i: usize = start;
    assert(digits.take(0) =~= Seq::empty());
    proof {
        lemma_all_in_run(text@.skip(start as int), Class::Digit);
    }
    while i < to
        invariant
            start <= i <= to <= text.len(),
            digits == text@.skip(start as int).take(to - start),
            forall|k: int| 0 <= k < digits.len() ==> is_digit(#[trigger] digits[k]),
            if large {
                value(digits.take(i - start)) > u32::MAX
            } else {
                total == value(digits.take(i - start)) && total <= u32::MAX
            },
        decreases to - i,
    {
        proof {
            lemma_value_step(digits, i - start);
            assert(digits[i - start] == text@[i as int]);
            assert(is_digit(digits[i - start]));
        }
        if !large {
            total = 10 * total + (text[i] - 48) as u64;
            if total > u32::MAX as u64 {
                large = true;
            }
        }
        i = i + 1;
    }
    assert(digits.take(to - start) =~= digits);
    assert(text@.skip(to as int) =~= text@.skip(start as int).skip(to - start));
    if large {
        Err(ParseError::Number)
    } else {
        Ok((Some(total as u32), to))
    }
}

/// Every character of a run is of its kind.
proof fn lemma_all_in_run(text: Seq<u8>, class: Class)
    ensures
        run(text, class) <= text.len(),
        forall|i: int| 0 <= i < run(text, class) ==> belongs(class, #[trigger] text[i]),
    decreases text.len(),
{
    if text.len() > 0 && belongs(class, text[0]) {
        lemma_all_in_run(text.skip(1), class);
        assert forall|i: int| 0 <= i < run(text, class) implies belongs(
            class,
            #[trigger] text[i],
        ) by {
            if i > 0 {
                assert(text.skip(1)[i - 1] == text[i]);
            }
        }
    }
}

/// Text in upper case.
pub open spec fn raised_all(text: Seq<u8>) -> Seq<u8> {
    text.map_values(|c: u8| raised(c))
}

/// Whether the value of an extended command asks what values there are.
pub open spec fn asks(value: Seq<u8>) -> bool {
    let from = beyond(value, Class::Space);
    from.len() > 0 && from[0] == QUESTION && beyond(from.skip(1), Class::Space).len() == 0
}

/// What is asked of an extended command, by what follows its name; and what follows
/// that.
pub open spec fn op_in(text: Seq<u8>) -> (Op, Seq<u8>) {
    let from = beyond(text, Class::Space);
    if from.len() > 0 && from[0] == EQUALS {
        let rest = from.skip(1);
        let value = rest.take(run(rest, Class::Value) as int);
        (
            if asks(value) {
                Op::Test
            } else {
                Op::Assign(value)
            },
            beyond(rest, Class::Value),
        )
    } else if from.len() > 0 && from[0] == QUESTION {
        (Op::Read, beyond(from.skip(1), Class::Space))
    } else {
        (Op::Execute, from)
    }
}

/// An extended command, by what follows its `+`; and what follows it.
pub open spec fn extended_in(text: Seq<u8>) -> Result<(Said, Seq<u8>), ParseError> {
    let len = run(text, Class::Name);
    let name = raised_all(text.take(len as int));
    let (op, rest) = op_in(text.skip(len as int));
    if len == 0 {
        Err(ParseError::Extended)
    } else if rest.len() == 0 {
        Ok((Said::Extended { name, op }, rest))
    } else if rest[0] == SEMICOLON {
        Ok((Said::Extended { name, op }, rest.skip(1)))
    } else {
        Err(ParseError::Extended)
    }
}

/// A basic command, by what follows its letter; and what follows it.
pub open spec fn basic_in(amp: bool, letter: u8, text: Seq<u8>) -> Result<
    (Said, Seq<u8>),
    ParseError,
> {
    match number_in(text) {
        Ok((number, rest)) => Ok((Said::Basic { amp, letter, number }, rest)),
        Err(e) => Err(e),
    }
}

/// A command on an S-parameter, by what follows its `S`; and what follows it.
pub open spec fn parameter_in(text: Seq<u8>) -> Result<(Said, Seq<u8>), ParseError> {
    match number_in(text) {
        Ok((number, after)) => {
            let n = match number {
                Some(n) => n,
                None => 0,
            };
            let from = beyond(after, Class::Space);
            if from.len() > 0 && from[0] == QUESTION {
                Ok((Said::ReadS(n), from.skip(1)))
            } else if from.len() > 0 && from[0] == EQUALS {
                match number_in(from.skip(1)) {
                    Ok((value, rest)) => Ok((Said::SetS(n, value), rest)),
                    Err(e) => Err(e),
                }
            } else {
                Err(ParseError::Operator)
            }
        },
        Err(e) => Err(e),
    }
}

/// The command a text begins with, and what follows it.
pub open spec fn command_in(text: Seq<u8>) -> Result<(Said, Seq<u8>), ParseError>
    recommends
        text.len() > 0,
{
    let c = raised(text[0]);
    let rest = text.skip(1);
    if c == DIAL {
        Ok((Said::Dial(rest), Seq::empty()))
    } else if c == PARAMETER {
        parameter_in(rest)
    } else if is_letter(c) {
        basic_in(false, c, rest)
    } else if c == AMPERSAND {
        let from = beyond(rest, Class::Space);
        if from.len() > 0 && is_letter(from[0]) {
            basic_in(true, raised(from[0]), from.skip(1))
        } else {
            Err(ParseError::Unexpected)
        }
    } else if c == PLUS {
        extended_in(rest)
    } else {
        Err(ParseError::Unexpected)
    }
}

/// The commands a text is.
pub open spec fn commands_in(text: Seq<u8>) -> Result<Seq<Said>, ParseError>
    decreases text.len(),
{
    let from = beyond(text, Class::Space);
    if from.len() == 0 {
        Ok(Seq::empty())
    } else {
        proof {
            lemma_run_len(text, Class::Space);
            lemma_shorter(from);
        }
        match command_in(from) {
            Ok((command, rest)) => match commands_in(rest) {
                Ok(commands) => Ok(seq![command] + commands),
                Err(e) => Err(e),
            },
            Err(e) => Err(e),
        }
    }
}

proof fn lemma_number_shorter(text: Seq<u8>)
    ensures
        number_in(text) matches Ok((_, rest)) ==> rest.len() <= text.len(),
{
    let from = beyond(text, Class::Space);
    lemma_run_len(text, Class::Space);
    lemma_run_len(from, Class::Digit);
}

/// Each command takes something off the text.
pub proof fn lemma_shorter(text: Seq<u8>)
    requires
        text.len() > 0,
    ensures
        command_in(text) matches Ok((_, rest)) ==> rest.len() < text.len(),
{
    let rest = text.skip(1);
    lemma_run_len(rest, Class::Space);
    let from = beyond(rest, Class::Space);
    lemma_number_shorter(rest);
    if from.len() > 0 {
        lemma_number_shorter(from.skip(1));
    }
    if let Ok((_, after)) = number_in(rest) {
        lemma_run_len(after, Class::Space);
        let from = beyond(after, Class::Space);
        if from.len() > 0 {
            lemma_number_shorter(from.skip(1));
        }
    }
    lemma_run_len(rest, Class::Name);
    let named = rest.skip(run(rest, Class::Name) as int);
    lemma_run_len(named, Class::Space);
    let from = beyond(named, Class::Space);
    if from.len() > 0 {
        lemma_run_len(from.skip(1), Class::Space);
        lemma_run_len(from.skip(1), Class::Value);
    }
}

/// Whether what was taken off a text at a place is what the text begins with there.
spec fn taken(
    text: Seq<u8>,
    out: Result<(Command, usize), ParseError>,
    said: Result<(Said, Seq<u8>), ParseError>,
) -> bool {
    match (out, said) {
        (Ok((command, to)), Ok((what, rest))) => {
            &&& to <= text.len()
            &&& command@ == what
            &&& text.skip(to as int) == rest
        },
        (Err(e), Err(why)) => e == why,
        _ => false,
    }
}

fn basic(text: &[u8], from: usize, amp: bool, letter: u8) -> (out: Result<
    (Command, usize),
    ParseError,
>)
    requires
        from <= text.len(),
    ensures
        taken(text@, out, basic_in(amp, letter, text@.skip(from as int))),
{
    match read_number(text, from) {
        Ok((number, to)) => Ok((Command::Basic { amp, letter, number }, to)),
        Err(e) => Err(e),
    }
}

fn parameter(text: &[u8], from: usize) -> (out: Result<(Command, usize), ParseError>)
    requires
        from <= text.len(),
    ensures
        taken(text@, out, parameter_in(text@.skip(from as int))),
{
    let (named, to) = match read_number(text, from) {
        Ok(read) => read,
        Err(e) => {
            return Err(e);
        },
    };
    let n: u32 = match named {
        Some(n) => n,
        None => 0,
    };
    let at: usize = past_run(text, to, Class::Space);
    if at >= text.len() {
        return Err(ParseError::Operator);
    }
    assert(text@.skip(at as int).skip(1) =~= text@.skip(at + 1));
    if text[at] == QUESTION {
        return Ok((Command::ReadS(n), at + 1));
    }
    if text[at] != EQUALS {
        return Err(ParseError::Operator);
    }
    match read_number(text, at + 1) {
        Ok((value, to)) => Ok((Command::SetS(n, value), to)),
        Err(e) => Err(e),
    }
}

/// Text in upper case.
pub fn raise_all(text: &[u8], from: usize, to: usize) -> (name: Vec<u8>)
    requires
        from <= to <= text.len(),
    ensures
        name@ == raised_all(text@.skip(from as int).take(to - from)),
{
    let mut name: Vec<u8> = Vec::new();
    let mut i: usize = from;
    while i < to
        invariant
            from <= i <= to <= text.len(),
            name@ =~= raised_all(text@.skip(from as int).take(i - from)),
        decreases to - i,
    {
        name.push(raise(text[i]));
        i = i + 1;
    }
    name
}

/// Whether the value at a place asks what values there are.
fn is_asking(text: &[u8], from: usize, to: usize) -> (asking: bool)
    requires
        from <= to <= text.len(),
    ensures
        asking == asks(text@.subrange(from as int, to as int)),
{
    let value = part(text, from, to);
    let value = value.as_slice();
    assert(value@.skip(0) =~= value@);
    let at: usize = past_run(value, 0, Class::Space);
    if at >= value.len() || value[at] != QUESTION {
        return false;
    }
    assert(value@.skip(at as int).skip(1) =~= value@.skip(at + 1));
    past_run(value, at + 1, Class::Space) == value.len()
}

fn operation(text: &[u8], from: usize) -> (out: (ExtOp, usize))
    requires
        from <= text.len(),
    ensures
        out.1 <= text.len(),
        (out.0@, text@.skip(out.1 as int)) == op_in(text@.skip(from as int)),
{
    let at: usize = past_run(text, from, Class::Space);
    if at >= text.len() {
        return (ExtOp::Execute, at);
    }
    assert(text@.skip(at as int).skip(1) =~= text@.skip(at + 1));
    if text[at] == EQUALS {
        let to: usize = past_run(text, at + 1, Class::Value);
        assert(text@.skip(at + 1).take(to - at - 1) =~= text@.subrange(at + 1, to as int));
        if is_asking(text, at + 1, to) {
            (ExtOp::Test, to)
        } else {
            (ExtOp::Assign(part(text, at + 1, to)), to)
        }
    } else if text[at] == QUESTION {
        (ExtOp::Read, past_run(text, at + 1, Class::Space))
    } else {
        (ExtOp::Execute, at)
    }
}

fn extended(text: &[u8], from: usize) -> (out: Result<(Command, usize), ParseError>)
    requires
        from <= text.len(),
    ensures
        taken(text@, out, extended_in(text@.skip(from as int))),
{
    let to: usize = past_run(text, from, Class::Name);
    if to == from {
        return Err(ParseError::Extended);
    }
    let name = raise_all(text, from, to);
    let (op, at) = operation(text, to);
    if at >= text.len() {
        return Ok((Command::Extended { name, op }, at));
    }
    assert(text@.skip(at as int).skip(1) =~= text@.skip(at + 1));
    if text[at] == SEMICOLON {
        Ok((Command::Extended { name, op }, at + 1))
    } else {
        Err(ParseError::Extended)
    }
}

/// The command at a place, and where it ends.
fn command(text: &[u8], from: usize) -> (out: Result<(Command, usize), ParseError>)
    requires
        from < text.len(),
    ensures
        taken(text@, out, command_in(text@.skip(from as int))),
{
    let c: u8 = raise(text[from]);
    assert(text@.skip(from as int).skip(1) =~= text@.skip(from + 1));
    if c == DIAL {
        assert(text@.skip(from + 1) =~= text@.subrange(from + 1, text@.len() as int));
        assert(text@.skip(text@.len() as int) =~= Seq::empty());
        Ok((Command::Dial(part(text, from + 1, text.len())), text.len()))
    } else if c == PARAMETER {
        parameter(text, from + 1)
    } else if 65 <= c && c <= 90 {
        basic(text, from + 1, false, c)
    } else if c == AMPERSAND {
        let at: usize = past_run(text, from + 1, Class::Space);
        if at >= text.len() {
            return Err(ParseError::Unexpected);
        }
        assert(text@.skip(at as int).skip(1) =~= text@.skip(at + 1));
        let letter: u8 = raise(text[at]);
        if 65 <= letter && letter <= 90 {
            basic(text, at + 1, true, letter)
        } else {
            Err(ParseError::Unexpected)
        }
    } else if c == PLUS {
        extended(text, from + 1)
    } else {
        Err(ParseError::Unexpected)
    }
}

/// Commands, as values.
pub open spec fn said(commands: Seq<Command>) -> Seq<Said> {
    commands.map_values(|command: Command| command@)
}

/// The commands of a body.
pub fn parse_body(text: &[u8]) -> (out: Result<Vec<Command>, ParseError>)
    ensures
        match (out, commands_in(text@)) {
            (Ok(commands), Ok(spec_commands)) => said(commands@) == spec_commands,
            (Err(e), Err(spec_e)) => e == spec_e,
            _ => false,
        },
{
    let mut commands: Vec<Command> = Vec::new();
    let mut at: usize = past_run(text, 0, Class::Space);
    assert(text@.skip(0) =~= text@);
    let ghost mut before = text@;
    let ghost start = text@;
    while at < text.len()
        invariant
            at <= text.len(),
            start == text@,
            text@.skip(at as int) == beyond(before, Class::Space),
            match (commands_in(start), commands_in(before)) {
                (Ok(all), Ok(rest)) => all =~= said(commands@) + rest,
                (Err(e), Err(f)) => e == f,
                _ => false,
            },
        decreases text.len() - at,
    {
        let ghost from = text@.skip(at as int);
        proof {
            lemma_shorter(from);
        }
        match command(text, at) {
            Ok((command, to)) => {
                let ghost rest = text@.skip(to as int);
                let ghost earlier = commands@;
                commands.push(command);
                at = past_run(text, to, Class::Space);
                proof {
                    assert(said(commands@) =~= said(earlier).push(command@));
                    before = rest;
                }
            },
            Err(e) => {
                return Err(e);
            },
        }
    }
    proof {
        assert(commands_in(before) == Ok::<Seq<Said>, ParseError>(Seq::empty()));
    }
    Ok(commands)
}

} // verus!
