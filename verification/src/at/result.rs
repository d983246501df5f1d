//! Result codes and information text, and how they are put to the DTE.
use crate::at::registers::Registers;
use vstd::prelude::*;

verus! {

/// A result code.
#[derive(Debug, Clone, PartialEq, Eq)]
pub enum ResultCode {
    /// `OK`.
    Okay,
    Connect,
    Ring,
    NoCarrier,
    Error,
    NoDialtone,
    Busy,
    NoAnswer,
    /// `CONNECT` and what kind of connection it is, in seven-bit characters.
    ConnectText(Vec<u8>),
}

/// A result code, as a value.
pub enum Code {
    /// `OK`.
    Okay,
    Connect,
    Ring,
    NoCarrier,
    Error,
    NoDialtone,
    Busy,
    NoAnswer,
    ConnectText(Seq<u8>),
}

impl View for ResultCode {
    type V = Code;

    open spec fn view(&self) -> Code {
        match self {
            ResultCode::Okay => Code::Okay,
            ResultCode::Connect => Code::Connect,
            ResultCode::Ring => Code::Ring,
            ResultCode::NoCarrier => Code::NoCarrier,
            ResultCode::Error => Code::Error,
            ResultCode::NoDialtone => Code::NoDialtone,
            ResultCode::Busy => Code::Busy,
            ResultCode::NoAnswer => Code::NoAnswer,
            ResultCode::ConnectText(text) => Code::ConnectText(text@),
        }
    }
}

impl Code {
    /// The code in words.
    pub open spec fn words(self) -> Seq<u8> {
        match self {
            Code::Okay => ascii("OK"@),
            Code::Connect => ascii("CONNECT"@),
            Code::Ring => ascii("RING"@),
            Code::NoCarrier => ascii("NO CARRIER"@),
            Code::Error => ascii("ERROR"@),
            Code::NoDialtone => ascii("NO DIALTONE"@),
            Code::Busy => ascii("BUSY"@),
            Code::NoAnswer => ascii("NO ANSWER"@),
            Code::ConnectText(text) => ascii("CONNECT "@) + text,
        }
    }

    /// The code as a digit.
    pub open spec fn digit(self) -> u8 {
        match self {
            Code::Okay => 48,
            Code::Connect => 49,
            Code::Ring => 50,
            Code::NoCarrier => 51,
            Code::Error => 52,
            Code::NoDialtone => 54,
            Code::Busy => 55,
            Code::NoAnswer => 56,
            Code::ConnectText(_) => 49,
        }
    }
}

/// Text as octets. All that is ever said here is in seven-bit characters.
pub open spec fn ascii(text: Seq<char>) -> Seq<u8> {
    text.map_values(|c: char| c as u8)
}

/// Append text to octets.
pub fn append_str(out: &mut Vec<u8>, more: &str)
    ensures
        final(out)@ == old(out)@ + ascii(more@),
{
    let len: usize = more.unicode_len();
    let mut i: usize = 0;
    assert(out@ + ascii(more@).take(0) =~= out@);
    while i < len
        invariant
            i <= len == more@.len(),
            out@ == old(out)@ + ascii(more@).take(i as int),
        decreases len - i,
    {
        out.push(more.get_char(i) as u8);
        i = i + 1;
        assert(out@ =~= old(out)@ + ascii(more@).take(i as int));
    }
    assert(ascii(more@).take(i as int) =~= ascii(more@));
}

/// Whether octets are some text.
pub fn reads(octets: &[u8], text: &str) -> (same: bool)
    ensures
        same == (octets@ == ascii(text@)),
{
    let len: usize = text.unicode_len();
    if octets.len() != len {
        return false;
    }
    let mut i: usize = 0;
    while i < len
        invariant
            i <= len == text@.len() == octets.len(),
            octets@.take(i as int) == ascii(text@).take(i as int),
        decreases len - i,
    {
        if octets[i] != text.get_char(i) as u8 {
            assert(octets@[i as int] != ascii(text@)[i as int]);
            return false;
        }
        i = i + 1;
        assert(octets@.take(i as int) =~= ascii(text@).take(i as int));
    }
    assert(octets@.take(i as int) =~= octets@);
    assert(ascii(text@).take(i as int) =~= ascii(text@));
    true
}

/// Append octets to octets.
pub fn append(out: &mut Vec<u8>, more: &[u8])
    ensures
        final(out)@ == old(out)@ + more@,
{
    let mut i: usize = 0;
    assert(out@ + more@.take(0) =~= out@);
    while i < more.len()
        invariant
            i <= more.len(),
            out@ == old(out)@ + more@.take(i as int),
        decreases more.len() - i,
    {
        out.push(more[i]);
        i = i + 1;
        assert(out@ =~= old(out)@ + more@.take(i as int));
    }
    assert(more@.take(i as int) =~= more@);
}

impl ResultCode {
    /// The code in words.
    pub fn text(&self) -> (text: Vec<u8>)
        ensures
            text@ == self@.words(),
    {
        let mut text: Vec<u8> = Vec::new();
        match self {
            ResultCode::Okay => append_str(&mut text, "OK"),
            ResultCode::Connect => append_str(&mut text, "CONNECT"),
            ResultCode::Ring => append_str(&mut text, "RING"),
            ResultCode::NoCarrier => append_str(&mut text, "NO CARRIER"),
            ResultCode::Error => append_str(&mut text, "ERROR"),
            ResultCode::NoDialtone => append_str(&mut text, "NO DIALTONE"),
            ResultCode::Busy => append_str(&mut text, "BUSY"),
            ResultCode::NoAnswer => append_str(&mut text, "NO ANSWER"),
            ResultCode::ConnectText(what) => {
                append_str(&mut text, "CONNECT ");
                append(&mut text, what.as_slice());
            },
        }
        assert(text@ =~= self@.words());
        text
    }

    /// The code as a digit.
    pub fn number(&self) -> (digit: u8)
        ensures
            digit == self@.digit(),
    {
        match self {
            ResultCode::Okay => 48,
            ResultCode::Connect => 49,
            ResultCode::Ring => 50,
            ResultCode::NoCarrier => 51,
            ResultCode::Error => 52,
            ResultCode::NoDialtone => 54,
            ResultCode::Busy => 55,
            ResultCode::NoAnswer => 56,
            ResultCode::ConnectText(_) => 49,
        }
    }
}

/// How responses are put to the DTE.
#[derive(Debug, Clone, Copy, PartialEq, Eq, Structural)]
pub struct Formatter {
    /// V: words rather than digits.
    pub verbose: bool,
    /// Q: no result codes at all.
    pub quiet: bool,
}

impl Formatter {
    /// As it leaves the factory: result codes, in words.
    pub open spec fn factory() -> Formatter {
        Formatter { verbose: true, quiet: false }
    }

    /// A line of information text. Quiet suppresses result codes only.
    pub open spec fn line(self, text: Seq<u8>, regs: Registers) -> Seq<u8> {
        if self.verbose {
            seq![regs.s3, regs.s4] + text + seq![regs.s3, regs.s4]
        } else {
            text + seq![regs.s3, regs.s4]
        }
    }

    /// A result code.
    pub open spec fn coded(self, code: Code, regs: Registers) -> Seq<u8> {
        if self.quiet {
            Seq::empty()
        } else if self.verbose {
            seq![regs.s3, regs.s4] + code.words() + seq![regs.s3, regs.s4]
        } else {
            seq![code.digit(), regs.s3]
        }
    }

    /// Put information text to the DTE.
    pub fn info(&self, text: &[u8], regs: &Registers, out: &mut Vec<u8>)
        ensures
            final(out)@ == old(out)@ + self.line(text@, *regs),
    {
        if self.verbose {
            out.push(regs.s3);
            out.push(regs.s4);
        }
        append(out, text);
        out.push(regs.s3);
        out.push(regs.s4);
        assert(out@ =~= old(out)@ + self.line(text@, *regs));
    }

    /// Put a result code to the DTE.
    pub fn result(&self, code: &ResultCode, regs: &Registers, out: &mut Vec<u8>)
        ensures
            final(out)@ == old(out)@ + self.coded(code@, *regs),
    {
        if self.quiet {
            assert(out@ =~= old(out)@ + self.coded(code@, *regs));
            return;
        }
        if self.verbose {
            let text = code.text();
            out.push(regs.s3);
            out.push(regs.s4);
            append(out, text.as_slice());
            out.push(regs.s3);
            out.push(regs.s4);
        } else {
            out.push(code.number());
            out.push(regs.s3);
        }
        assert(out@ =~= old(out)@ + self.coded(code@, *regs));
    }
}

impl Default for Formatter {
    fn default() -> (formatter: Self)
        ensures
            formatter == Formatter::factory(),
    {
        Formatter { verbose: true, quiet: false }
    }
}

} // verus!
