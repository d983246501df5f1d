//! The values of the extended commands that select how a connection is made.
use crate::at::parse::{
    beyond, is_digit, is_name, lemma_run, lemma_run_len, number_in, past_run, raise_all, raised_all,
    read_number, run, value, Class, ParseError,
};
use crate::at::result::{append_str, ascii, reads};
use vstd::prelude::*;

verus! {

/// `,`.
pub const COMMA: u8 = 44;

/// A modulation that can be asked for.
#[derive(Debug, Clone, Copy, PartialEq, Eq, Structural)]
pub enum Carrier {
    V22B,
    V32,
}

impl Carrier {
    pub open spec fn named(self) -> Seq<char> {
        match self {
            Carrier::V22B => "V22B"@,
            Carrier::V32 => "V32"@,
        }
    }

    /// What it is called.
    pub fn name(self) -> (name: &'static str)
        ensures
            name@ == self.named(),
    {
        match self {
            Carrier::V22B => "V22B",
            Carrier::V32 => "V32",
        }
    }
}

/// What `+MS` selects.
#[derive(Debug, Clone, Copy, PartialEq, Eq, Structural)]
pub struct Modulation {
    pub carrier: Carrier,
    /// Whether another may be fallen back to.
    pub automode: bool,
    /// The slowest and the fastest rate, in bit/s; 0 leaves it to the modulation.
    pub min_rate: u32,
    pub max_rate: u32,
}

impl Modulation {
    pub open spec fn factory() -> Modulation {
        Modulation { carrier: Carrier::V32, automode: true, min_rate: 0, max_rate: 0 }
    }
}

/// What `+ES` selects.
#[derive(Debug, Clone, Copy, PartialEq, Eq, Structural)]
pub struct ErrorControl {
    /// What is asked for: 0 direct mode, 1 buffered mode, 2 V.42 without the detection
    /// phase and 3 with it.
    pub request: u8,
    /// What to do without it: 0 and 1 go on, 2 and more hang up.
    pub fallback: u8,
}

impl ErrorControl {
    pub open spec fn factory() -> ErrorControl {
        ErrorControl { request: 3, fallback: 0 }
    }

    pub open spec fn asks(self) -> bool {
        self.request >= 2
    }

    pub open spec fn detects(self) -> bool {
        self.request == 3
    }

    pub open spec fn insists(self) -> bool {
        self.fallback >= 2
    }

    /// Whether error control is asked for at all.
    pub fn wanted(&self) -> (wanted: bool)
        ensures
            wanted == (self.request >= 2),
            wanted == self.asks(),
    {
        self.request >= 2
    }

    /// Whether the detection phase comes first.
    pub fn detect(&self) -> (detect: bool)
        ensures
            detect == (self.request == 3),
            detect == self.detects(),
    {
        self.request == 3
    }

    /// Whether to hang up without it.
    pub fn required(&self) -> (required: bool)
        ensures
            required == (self.fallback >= 2),
            required == self.insists(),
    {
        self.fallback >= 2
    }
}

/// The numbers of a list after its first part, each after a comma and each of them there
/// or not.
pub open spec fn more_in(text: Seq<u8>) -> Option<Seq<Option<u32>>>
    decreases text.len(),
{
    let from = beyond(text, Class::Space);
    if from.len() == 0 {
        Some(Seq::empty())
    } else if from[0] == COMMA {
        proof {
            lemma_run_len(text, Class::Space);
            lemma_number_rest(from.skip(1));
        }
        match number_in(from.skip(1)) {
            Ok((number, rest)) => match more_in(rest) {
                Some(more) => Some(seq![number] + more),
                None => None,
            },
            Err(_) => None,
        }
    } else {
        None
    }
}

/// What follows a number is no longer than what it was found in.
pub proof fn lemma_number_rest(text: Seq<u8>)
    ensures
        number_in(text) matches Ok((_, rest)) ==> rest.len() <= text.len(),
{
    let from = beyond(text, Class::Space);
    lemma_run_len(text, Class::Space);
    lemma_run_len(from, Class::Digit);
}

/// The numbers of a list of them.
pub open spec fn list_in(text: Seq<u8>) -> Option<Seq<Option<u32>>> {
    match number_in(text) {
        Ok((number, rest)) => match more_in(rest) {
            Some(more) => Some(seq![number] + more),
            None => None,
        },
        Err(_) => None,
    }
}

/// A number of a list, or what stands in for it where it is not there.
pub open spec fn nth(list: Seq<Option<u32>>, i: int, otherwise: u32) -> u32 {
    if i < list.len() {
        match list[i] {
            Some(number) => number,
            None => otherwise,
        }
    } else {
        otherwise
    }
}

/// The modulation that a name is.
pub open spec fn carrier_called(name: Seq<u8>) -> Option<Carrier> {
    if name == ascii("V22B"@) {
        Some(Carrier::V22B)
    } else if name == ascii("V32"@) {
        Some(Carrier::V32)
    } else {
        None
    }
}

/// The modulation that a value of `+MS` selects: its name, and then whether another may
/// be fallen back to, the slowest rate and the fastest, as far as they are given.
pub open spec fn modulation_in(text: Seq<u8>) -> Option<Modulation> {
    let from = beyond(text, Class::Space);
    let len = run(from, Class::Name) as int;
    match (carrier_called(raised_all(from.take(len))), more_in(from.skip(len))) {
        (Some(carrier), Some(list)) => if list.len() <= 3 && nth(list, 0, 1) <= 1 {
            Some(
                Modulation {
                    carrier,
                    automode: nth(list, 0, 1) == 1,
                    min_rate: nth(list, 1, 0),
                    max_rate: nth(list, 2, 0),
                },
            )
        } else {
            None
        },
        _ => None,
    }
}

/// The error control that a value of `+ES` selects. The alternative protocol is not
/// among what there is.
pub open spec fn error_control_in(text: Seq<u8>) -> Option<ErrorControl> {
    match list_in(text) {
        Some(list) => if list.len() <= 2 && nth(list, 0, 3) <= 3 && nth(list, 1, 0) <= 3 {
            Some(
                ErrorControl { request: nth(list, 0, 3) as u8, fallback: nth(list, 1, 0) as u8 },
            )
        } else {
            None
        },
        None => None,
    }
}

/// The one number that a value is.
pub open spec fn only_in(text: Seq<u8>) -> Option<u32> {
    match list_in(text) {
        Some(list) => if list.len() == 1 {
            list[0]
        } else {
            None
        },
        None => None,
    }
}

/// A number in decimal.
pub open spec fn decimal(n: nat) -> Seq<u8>
    decreases n,
{
    if n < 10 {
        seq![(48 + n) as u8]
    } else {
        decimal(n / 10).push((48 + n % 10) as u8)
    }
}

/// A modulation as the value that selects it.
pub open spec fn modulation_text(m: Modulation) -> Seq<u8> {
    ascii(m.carrier.named()) + seq![COMMA, if m.automode {
        49u8
    } else {
        48u8
    }, COMMA] + decimal(m.min_rate as nat) + seq![COMMA] + decimal(m.max_rate as nat)
}

/// Error control as the value that selects it.
pub open spec fn error_control_text(e: ErrorControl) -> Seq<u8> {
    decimal(e.request as nat) + seq![COMMA] + decimal(e.fallback as nat)
}

/// The numbers of a list after its first part.
fn more(text: &[u8], from: usize) -> (out: Option<Vec<Option<u32>>>)
    requires
        from <= text.len(),
    ensures
        match (out, more_in(text@.skip(from as int))) {
            (Some(list), Some(spec_list)) => list@ == spec_list,
            (None, None) => true,
            _ => false,
        },
{
    let mut list: Vec<Option<u32>> = Vec::new();
    let mut at: usize = from;
    let ghost start = text@.skip(from as int);
    loop
        invariant
            at <= text.len(),
            start == text@.skip(from as int),
            match (more_in(start), more_in(text@.skip(at as int))) {
                (Some(all), Some(rest)) => all =~= list@ + rest,
                (None, None) => true,
                _ => false,
            },
        decreases text.len() - at,
    {
        let here: usize = past_run(text, at, Class::Space);
        if here >= text.len() {
            assert(list@ + Seq::<Option<u32>>::empty() =~= list@);
            return Some(list);
        }
        if text[here] != COMMA {
            return None;
        }
        assert(text@.skip(here as int).skip(1) =~= text@.skip(here + 1));
        match read_number(text, here + 1) {
            Ok((number, to)) => {
                let ghost earlier = list@;
                list.push(number);
                assert(list@ =~= earlier + seq![number]);
                at = to;
            },
            Err(_) => {
                return None;
            },
        }
    }
}

/// The numbers of a list of them.
fn list(text: &[u8]) -> (out: Option<Vec<Option<u32>>>)
    ensures
        match (out, list_in(text@)) {
            (Some(list), Some(spec_list)) => list@ == spec_list,
            (None, None) => true,
            _ => false,
        },
{
    assert(text@.skip(0) =~= text@);
    match read_number(text, 0) {
        Ok((number, to)) => match more(text, to) {
            Some(rest) => {
                let mut list: Vec<Option<u32>> = Vec::new();
                list.push(number);
                let mut i: usize = 0;
                assert(list@ =~= seq![number] + rest@.take(0));
                while i < rest.len()
                    invariant
                        i <= rest.len(),
                        list@ =~= seq![number] + rest@.take(i as int),
                    decreases rest.len() - i,
                {
                    list.push(rest[i]);
                    i = i + 1;
                }
                assert(rest@.take(i as int) =~= rest@);
                Some(list)
            },
            None => None,
        },
        Err(_) => None,
    }
}

fn pick(list: &Vec<Option<u32>>, i: usize, otherwise: u32) -> (number: u32)
    ensures
        number == nth(list@, i as int, otherwise),
{
    if i < list.len() {
        match list[i] {
            Some(number) => number,
            None => otherwise,
        }
    } else {
        otherwise
    }
}

/// The modulation that a value of `+MS` selects.
pub fn read_modulation(text: &[u8]) -> (out: Option<Modulation>)
    ensures
        out == modulation_in(text@),
{
    assert(text@.skip(0) =~= text@);
    let from: usize = past_run(text, 0, Class::Space);
    let to: usize = past_run(text, from, Class::Name);
    let name = raise_all(text, from, to);
    let carrier = if reads(name.as_slice(), "V22B") {
        Carrier::V22B
    } else if reads(name.as_slice(), "V32") {
        Carrier::V32
    } else {
        return None;
    };
    match more(text, to) {
        Some(list) => {
            let automode: u32 = pick(&list, 0, 1);
            if list.len() <= 3 && automode <= 1 {
                Some(
                    Modulation {
                        carrier,
                        automode: automode == 1,
                        min_rate: pick(&list, 1, 0),
                        max_rate: pick(&list, 2, 0),
                    },
                )
            } else {
                None
            }
        },
        None => None,
    }
}

/// The error control that a value of `+ES` selects.
pub fn read_error_control(text: &[u8]) -> (out: Option<ErrorControl>)
    ensures
        out == error_control_in(text@),
{
    match list(text) {
        Some(list) => {
            let request: u32 = pick(&list, 0, 3);
            let fallback: u32 = pick(&list, 1, 0);
            if list.len() <= 2 && request <= 3 && fallback <= 3 {
                Some(ErrorControl { request: request as u8, fallback: fallback as u8 })
            } else {
                None
            }
        },
        None => None,
    }
}

/// The one number that a value is.
pub fn read_only(text: &[u8]) -> (out: Option<u32>)
    ensures
        out == only_in(text@),
{
    match list(text) {
        Some(list) => if list.len() == 1 {
            list[0]
        } else {
            None
        },
        None => None,
    }
}

/// A number in decimal, at the end of some octets.
pub fn append_decimal(out: &mut Vec<u8>, n: u32)
    ensures
        final(out)@ == old(out)@ + decimal(n as nat),
    decreases n,
{
    if n >= 10 {
        append_decimal(out, n / 10);
    }
    out.push(48 + (n % 10) as u8);
    assert(out@ =~= old(out)@ + decimal(n as nat));
}

/// A modulation as the value that selects it, at the end of some octets.
pub fn append_modulation(out: &mut Vec<u8>, m: &Modulation)
    ensures
        final(out)@ == old(out)@ + modulation_text(*m),
{
    append_str(out, m.carrier.name());
    out.push(COMMA);
    out.push(
        if m.automode {
            49
        } else {
            48
        },
    );
    out.push(COMMA);
    append_decimal(out, m.min_rate);
    out.push(COMMA);
    append_decimal(out, m.max_rate);
    assert(out@ =~= old(out)@ + modulation_text(*m));
}

/// Error control as the value that selects it, at the end of some octets.
pub fn append_error_control(out: &mut Vec<u8>, e: &ErrorControl)
    ensures
        final(out)@ == old(out)@ + error_control_text(*e),
{
    append_decimal(out, e.request as u32);
    out.push(COMMA);
    append_decimal(out, e.fallback as u32);
    assert(out@ =~= old(out)@ + error_control_text(*e));
}

/// Decimal digits spell the number they are of.
pub proof fn lemma_decimal(n: nat)
    ensures
        decimal(n).len() > 0,
        value(decimal(n)) == n,
        forall|i: int| 0 <= i < decimal(n).len() ==> is_digit(#[trigger] decimal(n)[i]),
    decreases n,
{
    if n < 10 {
        assert(decimal(n).drop_last() =~= Seq::empty());
        assert(value(decimal(n).drop_last()) == 0);
    } else {
        lemma_decimal(n / 10);
        assert(decimal(n).drop_last() =~= decimal(n / 10));
    }
}

/// A number in decimal is read as that number, whatever follows it that is no digit.
pub proof fn lemma_number_read(n: u32, rest: Seq<u8>)
    requires
        rest.len() > 0 ==> !is_digit(rest[0]),
    ensures
        number_in(decimal(n as nat) + rest) == Ok::<(Option<u32>, Seq<u8>), ParseError>(
            (Some(n), rest),
        ),
{
    let digits = decimal(n as nat);
    let text = digits + rest;
    lemma_decimal(n as nat);
    assert(is_digit(digits[0]));
    lemma_run(text, Class::Space, 0);
    assert(text.skip(0) =~= text);
    lemma_run(text, Class::Digit, digits.len() as int);
    assert(text.take(digits.len() as int) =~= digits);
    assert(text.skip(digits.len() as int) =~= rest);
}

/// And so it is in a list.
pub proof fn lemma_more_read(n: u32, rest: Seq<u8>)
    requires
        rest.len() > 0 ==> rest[0] == COMMA,
    ensures
        more_in(seq![COMMA] + (decimal(n as nat) + rest)) == match more_in(rest) {
            Some(more) => Some(seq![Some(n)] + more),
            None => None,
        },
{
    let text = seq![COMMA] + (decimal(n as nat) + rest);
    lemma_run(text, Class::Space, 0);
    assert(text.skip(0) =~= text);
    assert(text.skip(1) =~= decimal(n as nat) + rest);
    lemma_number_read(n, rest);
}

pub proof fn lemma_carrier_named(carrier: Carrier)
    ensures
        ({
            let name = ascii(carrier.named());
            &&& name.len() > 0
            &&& name[0] != 32
            &&& raised_all(name) == name
            &&& carrier_called(name) == Some(carrier)
            &&& forall|i: int| 0 <= i < name.len() ==> is_name(#[trigger] name[i])
        }),
{
    reveal_strlit("V22B");
    reveal_strlit("V32");
    let name = ascii(carrier.named());
    assert(raised_all(name) =~= name);
    assert(ascii("V32"@).len() != ascii("V22B"@).len());
}

/// Reading back a modulation gives what was set: what is said of it is a value that
/// selects it.
pub proof fn a_modulation_reads_back(m: Modulation)
    ensures
        modulation_in(modulation_text(m)) == Some(m),
{
    let name = ascii(m.carrier.named());
    let flag: u32 = if m.automode {
        1
    } else {
        0
    };
    let last = seq![COMMA] + (decimal(m.max_rate as nat) + Seq::empty());
    let middle = seq![COMMA] + (decimal(m.min_rate as nat) + last);
    let rest = seq![COMMA] + (decimal(flag as nat) + middle);
    let text = modulation_text(m);
    lemma_carrier_named(m.carrier);
    assert(decimal(flag as nat) =~= seq![(48 + flag) as u8]);
    assert(text =~= name + rest);
    lemma_run(text, Class::Space, 0);
    assert(text.skip(0) =~= text);
    assert forall|i: int| 0 <= i < name.len() implies is_name(#[trigger] text[i]) by {
        assert(text[i] == name[i]);
    }
    lemma_run(text, Class::Name, name.len() as int);
    assert(text.take(name.len() as int) =~= name);
    assert(text.skip(name.len() as int) =~= rest);
    lemma_run(Seq::<u8>::empty(), Class::Space, 0);
    lemma_more_read(m.max_rate, Seq::empty());
    lemma_more_read(m.min_rate, last);
    lemma_more_read(flag, middle);
    let list = more_in(rest)->0;
    assert(list =~= seq![Some(flag), Some(m.min_rate), Some(m.max_rate)]);
}

/// Reading back error control gives what was set.
pub proof fn error_control_reads_back(e: ErrorControl)
    requires
        e.request <= 3,
        e.fallback <= 3,
    ensures
        error_control_in(error_control_text(e)) == Some(e),
{
    let last = seq![COMMA] + (decimal(e.fallback as nat) + Seq::empty());
    let text = error_control_text(e);
    assert(text =~= decimal(e.request as nat) + last);
    lemma_number_read(e.request as u32, last);
    lemma_run(Seq::<u8>::empty(), Class::Space, 0);
    lemma_more_read(e.fallback as u32, Seq::empty());
    let list = list_in(text)->0;
    assert(list =~= seq![Some(e.request as u32), Some(e.fallback as u32)]);
}

/// What is selected is among what there is: no value selects the alternative protocol.
pub proof fn the_alternative_protocol_is_refused(text: Seq<u8>)
    ensures
        error_control_in(text) matches Some(e) ==> e.request <= 3 && e.fallback <= 3,
{
}

} // verus!
