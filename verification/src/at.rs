//! The DTE-facing AT command layer (ITU-T V.250).
//!
//! Command-line assembly, parsing, execution and response formatting. No telephony is
//! performed here: commands that need the modem to do something emit an [`Action`] for
//! the caller to carry out. Text is seven-bit characters throughout, as octets.
use crate::at::parse::{
    beyond, commands_in, parse_body, past_run, said, Class, Command, ExtOp, Op, ParseError, Said,
};
use crate::at::registers::{takes, RegError, Registers};
use crate::at::result::{append, append_str, ascii, reads, Code, Formatter, ResultCode};
use crate::at::settings::{
    append_decimal, append_error_control, append_modulation, decimal, error_control_in,
    error_control_text, modulation_in, modulation_text, only_in, read_error_control,
    read_modulation, read_only, Carrier, ErrorControl, Modulation,
};
use vstd::prelude::*;

pub mod commands;
pub mod extensions;
pub mod laws;
pub mod parse;
pub mod registers;
pub mod result;
pub mod settings;

verus! {

/// Something the modem must do that the AT layer cannot do itself.
#[derive(Debug, Clone, PartialEq, Eq)]
pub enum Action {
    /// `ATD`: dial. The string is verbatim, dial modifiers included.
    Dial(Vec<u8>),
    /// `ATA`: answer an incoming call.
    Answer,
    /// `ATH0`: go on hook.
    HangUp,
    /// `ATH1`: go off hook without dialling.
    OffHook,
    /// `ATO`: return from online command state to online data state.
    ReturnOnline,
    /// `ATZ<n>`: reset to stored profile `n`.
    ResetProfile(u8),
    /// `AT&F<n>`: restore factory configuration `n`.
    FactoryDefaults(u8),
    /// `AT+MS=`: use this modulation.
    SelectModulation(Modulation),
    /// `AT+ES=`: use this error control.
    SelectErrorControl(ErrorControl),
    /// `AT+DS=`: compress, or do not.
    SelectCompression(bool),
}

/// Something the modem must do, as a value.
pub enum Act {
    Dial(Seq<u8>),
    Answer,
    HangUp,
    OffHook,
    ReturnOnline,
    ResetProfile(u8),
    FactoryDefaults(u8),
    SelectModulation(Modulation),
    SelectErrorControl(ErrorControl),
    SelectCompression(bool),
}

impl View for Action {
    type V = Act;

    open spec fn view(&self) -> Act {
        match self {
            Action::Dial(number) => Act::Dial(number@),
            Action::Answer => Act::Answer,
            Action::HangUp => Act::HangUp,
            Action::OffHook => Act::OffHook,
            Action::ReturnOnline => Act::ReturnOnline,
            Action::ResetProfile(n) => Act::ResetProfile(*n),
            Action::FactoryDefaults(n) => Act::FactoryDefaults(*n),
            Action::SelectModulation(m) => Act::SelectModulation(*m),
            Action::SelectErrorControl(e) => Act::SelectErrorControl(*e),
            Action::SelectCompression(on) => Act::SelectCompression(*on),
        }
    }
}

impl Act {
    /// Whether the result code arrives later rather than immediately.
    pub open spec fn defers(self) -> bool {
        self is Dial || self is Answer || self is ReturnOnline
    }

    /// Whether the remainder of the command line must not be executed.
    pub open spec fn terminates(self) -> bool {
        self is Dial || self is Answer || self is ReturnOnline || self is ResetProfile
    }
}

impl Action {
    /// True when the result code arrives later rather than immediately.
    ///
    /// Dialling, answering and returning online all move the DCE out of command state,
    /// so their outcome is reported as CONNECT or NO CARRIER once the call resolves.
    /// Everything else completes at once.
    pub fn defers_result(&self) -> (defers: bool)
        ensures
            defers == self@.defers(),
    {
        match self {
            Action::Dial(_) | Action::Answer | Action::ReturnOnline => true,
            _ => false,
        }
    }

    /// True when the remainder of the command line must not be executed.
    ///
    /// `&F` is deliberately absent: `AT&F&C1&D2` is a common initialisation string and
    /// the settings after `&F` must take effect.
    pub fn terminates_line(&self) -> (terminates: bool)
        ensures
            terminates == self@.terminates(),
    {
        match self {
            Action::Dial(_) | Action::Answer | Action::ReturnOnline | Action::ResetProfile(
                _,
            ) => true,
            _ => false,
        }
    }
}

/// Identification strings reported by `ATI` and the `+G` commands.
#[derive(Debug, Clone)]
pub struct Identity {
    pub manufacturer: Vec<u8>,
    pub model: Vec<u8>,
    pub revision: Vec<u8>,
    pub serial: Vec<u8>,
}

/// Identification strings, as values.
#[verifier::ext_equal]
pub struct Identified {
    pub manufacturer: Seq<u8>,
    pub model: Seq<u8>,
    pub revision: Seq<u8>,
    pub serial: Seq<u8>,
}

impl View for Identity {
    type V = Identified;

    open spec fn view(&self) -> Identified {
        Identified {
            manufacturer: self.manufacturer@,
            model: self.model@,
            revision: self.revision@,
            serial: self.serial@,
        }
    }
}

impl Identified {
    pub open spec fn factory() -> Identified {
        Identified {
            manufacturer: ascii("dialupmodem2"@),
            model: ascii("SOFTMODEM"@),
            revision: ascii("0.1.0"@),
            serial: ascii("0"@),
        }
    }
}

/// Text as octets.
fn octets(text: &str) -> (octets: Vec<u8>)
    ensures
        octets@ == ascii(text@),
{
    let mut octets: Vec<u8> = Vec::new();
    append_str(&mut octets, text);
    assert(octets@ =~= ascii(text@));
    octets
}

/// A copy of some octets.
fn copy(from: &[u8]) -> (copy: Vec<u8>)
    ensures
        copy@ == from@,
{
    let mut copy: Vec<u8> = Vec::new();
    append(&mut copy, from);
    assert(copy@ =~= from@);
    copy
}

impl Default for Identity {
    fn default() -> (identity: Self)
        ensures
            identity@ == Identified::factory(),
    {
        Identity {
            manufacturer: octets("dialupmodem2"),
            model: octets("SOFTMODEM"),
            revision: octets("0.1.0"),
            serial: octets("0"),
        }
    }
}

/// Settings that survive within a session but are not S-parameters.
#[derive(Debug, Clone, Copy, PartialEq, Eq, Structural)]
pub struct Config {
    /// E: echo command characters back to the DTE.
    pub echo: bool,
    /// X: result code selection and call progress monitoring.
    pub x: u8,
    /// &C: circuit 109 (DCD) behaviour.
    pub dcd: u8,
    /// &D: circuit 108 (DTR) behaviour.
    pub dtr: u8,
    /// Speaker loudness, L. Stored; this DCE has no speaker.
    pub speaker_volume: u8,
    /// Speaker mode, M.
    pub speaker_mode: u8,
    /// Whether P or T last selected the default dialling method.
    pub pulse_dialling: bool,
    /// +MS.
    pub modulation: Modulation,
    /// +ES.
    pub error_control: ErrorControl,
    /// +DS.
    pub compression: bool,
}

impl Config {
    pub open spec fn factory() -> Config {
        Config {
            echo: true,
            x: 4,
            dcd: 1,
            dtr: 2,
            speaker_volume: 2,
            speaker_mode: 1,
            pulse_dialling: false,
            modulation: Modulation::factory(),
            error_control: ErrorControl::factory(),
            compression: true,
        }
    }
}

impl Default for Config {
    fn default() -> (config: Self)
        ensures
            config == Config::factory(),
    {
        Config {
            echo: true,
            x: 4,
            dcd: 1,
            dtr: 2,
            speaker_volume: 2,
            speaker_mode: 1,
            pulse_dialling: false,
            modulation: Modulation {
                carrier: Carrier::V32,
                automode: true,
                min_rate: 0,
                max_rate: 0,
            },
            error_control: ErrorControl { request: 3, fallback: 0 },
            compression: true,
        }
    }
}

/// Where in a command line the DTE is.
#[derive(Debug, Clone, Copy, PartialEq, Eq, Structural)]
pub enum LineState {
    /// Waiting for the `A` of a command line prefix.
    Idle,
    /// Seen `A`; expecting `T` or `/`.
    GotA,
    /// Inside the command line body.
    Body,
}

/// The longest body taken. One that is longer is reported as ERROR once the line is
/// terminated.
pub const MAX_BODY: usize = 256;

/// An interpreter, as a value.
#[verifier::ext_equal]
pub struct Session {
    pub regs: Registers,
    pub fmt: Formatter,
    pub config: Config,
    pub identity: Identified,
    pub state: LineState,
    pub body: Seq<u8>,
    pub last_body: Seq<u8>,
    pub overflowed: bool,
    pub out: Seq<u8>,
    pub actions: Seq<Act>,
}

/// What comes of a command.
pub enum Ruling {
    /// It is carried out.
    Done(Session),
    /// It is carried out, and the modem has something to do.
    Asked(Session, Act),
    /// It is not one that there is. Nothing has changed.
    Refused,
}

/// The characters of a body that are not control characters.
pub open spec fn printable(body: Seq<u8>) -> Seq<u8>
    decreases body.len(),
{
    if body.len() == 0 {
        Seq::empty()
    } else {
        let before = printable(body.drop_last());
        let c = body.last();
        if c < 0x20 || c == 0x7f {
            before
        } else {
            before.push(c)
        }
    }
}

/// A number in three digits.
pub open spec fn three_digits(n: u8) -> Seq<u8> {
    seq![(48 + n / 100) as u8, (48 + n / 10 % 10) as u8, (48 + n % 10) as u8]
}

impl Session {
    pub open spec fn fresh() -> Session {
        Session {
            regs: Registers::factory(),
            fmt: Formatter::factory(),
            config: Config::factory(),
            identity: Identified::factory(),
            state: LineState::Idle,
            body: Seq::empty(),
            last_body: Seq::empty(),
            overflowed: false,
            out: Seq::empty(),
            actions: Seq::empty(),
        }
    }

    /// A result code put to the DTE.
    pub open spec fn emitted(self, code: Code) -> Session {
        Session { out: self.out + self.fmt.coded(code, self.regs), ..self }
    }

    /// Information text put to the DTE.
    pub open spec fn informed(self, text: Seq<u8>) -> Session {
        Session { out: self.out + self.fmt.line(text, self.regs), ..self }
    }

    /// A character echoed, if echo is on.
    pub open spec fn echoed(self, c: u8) -> Session {
        if self.config.echo {
            Session { out: self.out.push(c), ..self }
        } else {
            self
        }
    }

    /// The factory configuration restored.
    pub open spec fn restored(self) -> Session {
        Session {
            regs: Registers::factory(),
            fmt: Formatter::factory(),
            config: Config::factory(),
            ..self
        }
    }

    /// What `ATI` answers. The content of each value is the manufacturer's to choose.
    pub open spec fn identified(self, n: u8) -> Seq<u8> {
        if n == 0 {
            self.identity.model
        } else if n == 1 {
            self.identity.revision
        } else if n == 2 {
            self.identity.manufacturer
        } else if n == 3 {
            self.identity.serial
        } else {
            ascii("0"@)
        }
    }

    /// A setting changed.
    pub open spec fn configured(self, config: Config) -> Ruling {
        Ruling::Done(Session { config, ..self })
    }
}

impl Session {
    /// An ampersand command.
    #[verifier::opaque]
    pub open spec fn amp(self, letter: u8, n: u8) -> Ruling {
        let c = self.config;
        if letter == 'C' as u8 && n <= 1 {
            self.configured(Config { dcd: n, ..c })
        } else if letter == 'D' as u8 && n <= 2 {
            self.configured(Config { dtr: n, ..c })
        } else if letter == 'F' as u8 && n == 0 {
            // The reset applies here, so that later commands on the same line act on the
            // fresh state.
            Ruling::Asked(self.restored(), Act::FactoryDefaults(0))
        } else {
            Ruling::Refused
        }
    }

    /// A command of one letter.
    #[verifier::opaque]
    pub open spec fn letter(self, letter: u8, n: u8) -> Ruling {
        let c = self.config;
        if letter == 'A' as u8 {
            Ruling::Asked(self, Act::Answer)
        } else if letter == 'E' as u8 && n <= 1 {
            self.configured(Config { echo: n == 1, ..c })
        } else if letter == 'H' as u8 && n == 0 {
            Ruling::Asked(self, Act::HangUp)
        } else if letter == 'H' as u8 && n == 1 {
            Ruling::Asked(self, Act::OffHook)
        } else if letter == 'I' as u8 {
            Ruling::Done(self.informed(self.identified(n)))
        } else if letter == 'L' as u8 && n <= 3 {
            self.configured(Config { speaker_volume: n, ..c })
        } else if letter == 'M' as u8 && n <= 3 {
            self.configured(Config { speaker_mode: n, ..c })
        } else if letter == 'O' as u8 && n == 0 {
            Ruling::Asked(self, Act::ReturnOnline)
        } else if letter == 'P' as u8 {
            self.configured(Config { pulse_dialling: true, ..c })
        } else if letter == 'T' as u8 {
            self.configured(Config { pulse_dialling: false, ..c })
        } else if letter == 'Q' as u8 && n <= 1 {
            Ruling::Done(Session { fmt: Formatter { quiet: n == 1, ..self.fmt }, ..self })
        } else if letter == 'V' as u8 && n <= 1 {
            Ruling::Done(Session { fmt: Formatter { verbose: n == 1, ..self.fmt }, ..self })
        } else if letter == 'X' as u8 && n <= 4 {
            self.configured(Config { x: n, ..c })
        } else if letter == 'Z' as u8 && n <= 1 {
            Ruling::Asked(self.restored(), Act::ResetProfile(n))
        } else {
            Ruling::Refused
        }
    }

    /// A basic command. A missing number means zero.
    pub open spec fn basic(self, amp: bool, letter: u8, number: Option<u32>) -> Ruling {
        let n = match number {
            Some(n) => n,
            None => 0,
        };
        if n > 255 {
            Ruling::Refused
        } else if amp {
            self.amp(letter, n as u8)
        } else {
            self.letter(letter, n as u8)
        }
    }

    /// What a command that only identifies the DCE answers.
    pub open spec fn identification(self, name: Seq<u8>) -> Option<Seq<u8>> {
        if name == ascii("GMI"@) {
            Some(self.identity.manufacturer)
        } else if name == ascii("GMM"@) {
            Some(self.identity.model)
        } else if name == ascii("GMR"@) {
            Some(self.identity.revision)
        } else if name == ascii("GSN"@) {
            Some(self.identity.serial)
        } else if name == ascii("GCAP"@) {
            Some(ascii("+GCAP: +FCLASS,+MS,+ES,+DS"@))
        } else {
            None
        }
    }

    /// A command that only identifies the DCE: Execute and Read behave alike, and Test
    /// reports support.
    pub open spec fn identifies(self, name: Seq<u8>, answer: Seq<u8>, op: Op) -> Ruling {
        match op {
            Op::Execute | Op::Read => Ruling::Done(self.informed(answer)),
            Op::Test => Ruling::Done(
                self.informed(ascii("+"@) + name + ascii(": (0)"@)),
            ),
            Op::Assign(_) => Ruling::Refused,
        }
    }

    /// `+MS`: the modulation.
    pub open spec fn ms(self, op: Op) -> Ruling {
        match op {
            Op::Execute => Ruling::Refused,
            Op::Read => Ruling::Done(
                self.informed(ascii("+MS: "@) + modulation_text(self.config.modulation)),
            ),
            Op::Test => Ruling::Done(self.informed(ascii("+MS: (V22B,V32),(0,1)"@))),
            Op::Assign(value) => match modulation_in(value) {
                Some(modulation) => Ruling::Asked(
                    Session { config: Config { modulation, ..self.config }, ..self },
                    Act::SelectModulation(modulation),
                ),
                None => Ruling::Refused,
            },
        }
    }

    /// `+ES`: error control.
    pub open spec fn es(self, op: Op) -> Ruling {
        match op {
            Op::Execute => Ruling::Refused,
            Op::Read => Ruling::Done(
                self.informed(ascii("+ES: "@) + error_control_text(self.config.error_control)),
            ),
            Op::Test => Ruling::Done(self.informed(ascii("+ES: (0-3),(0-3)"@))),
            Op::Assign(value) => match error_control_in(value) {
                Some(error_control) => Ruling::Asked(
                    Session { config: Config { error_control, ..self.config }, ..self },
                    Act::SelectErrorControl(error_control),
                ),
                None => Ruling::Refused,
            },
        }
    }

    /// `+DS`: compression, in both directions or neither.
    pub open spec fn ds(self, op: Op) -> Ruling {
        match op {
            Op::Execute => Ruling::Refused,
            Op::Read => Ruling::Done(
                self.informed(
                    ascii("+DS: "@) + decimal(
                        if self.config.compression {
                            3
                        } else {
                            0
                        },
                    ),
                ),
            ),
            Op::Test => Ruling::Done(self.informed(ascii("+DS: (0,3)"@))),
            Op::Assign(value) => if only_in(value) == Some(0u32) || only_in(value) == Some(3u32) {
                let compression = only_in(value) == Some(3u32);
                Ruling::Asked(
                    Session { config: Config { compression, ..self.config }, ..self },
                    Act::SelectCompression(compression),
                )
            } else {
                Ruling::Refused
            },
        }
    }

    /// `+FCLASS`: data, and only data.
    pub open spec fn fclass(self, op: Op) -> Ruling {
        match op {
            Op::Execute => Ruling::Refused,
            Op::Read => Ruling::Done(self.informed(ascii("0"@))),
            Op::Test => Ruling::Done(self.informed(ascii("+FCLASS: (0)"@))),
            Op::Assign(value) => if only_in(value) == Some(0u32) {
                Ruling::Done(self)
            } else {
                Ruling::Refused
            },
        }
    }

    /// An extended command.
    #[verifier::opaque]
    pub open spec fn extended(self, name: Seq<u8>, op: Op) -> Ruling {
        match self.identification(name) {
            Some(answer) => self.identifies(name, answer, op),
            None => if name == ascii("MS"@) {
                self.ms(op)
            } else if name == ascii("ES"@) {
                self.es(op)
            } else if name == ascii("DS"@) {
                self.ds(op)
            } else if name == ascii("FCLASS"@) {
                self.fclass(op)
            } else {
                Ruling::Refused
            },
        }
    }

    /// A command carried out.
    pub open spec fn executed(self, command: Said) -> Ruling {
        match command {
            Said::Dial(number) => Ruling::Asked(self, Act::Dial(number)),
            Said::ReadS(n) => match self.regs.holds(n as nat) {
                // Exactly three characters, in decimal with leading zeroes.
                Some(value) => Ruling::Done(self.informed(three_digits(value))),
                None => Ruling::Refused,
            },
            Said::SetS(n, value) => {
                // A missing value is 0, and the range decides.
                let value = match value {
                    Some(value) => value,
                    None => 0,
                };
                if takes(n as nat, value) {
                    Ruling::Done(
                        Session { regs: self.regs.with(n as nat, value as u8), ..self },
                    )
                } else {
                    Ruling::Refused
                }
            },
            Said::Basic { amp, letter, number } => self.basic(amp, letter, number),
            Said::Extended { name, op } => self.extended(name, op),
        }
    }

    /// The end of a line. Commands that leave command state report CONNECT or NO CARRIER
    /// when the call resolves; everything else acknowledges now.
    pub open spec fn finished(self, deferred: bool) -> Session {
        if deferred {
            self
        } else {
            self.emitted(Code::Okay)
        }
    }

    /// The commands of a line carried out, in turn. A failed command abandons the rest of
    /// the line, and any actions already queued are discarded with it.
    pub open spec fn ran(self, commands: Seq<Said>, deferred: bool) -> Session
        decreases commands.len(),
    {
        if commands.len() == 0 {
            self.finished(deferred)
        } else {
            match self.executed(commands[0]) {
                Ruling::Done(next) => next.ran(commands.skip(1), deferred),
                Ruling::Asked(next, act) => {
                    let next = Session { actions: next.actions.push(act), ..next };
                    if act.terminates() {
                        next.finished(deferred || act.defers())
                    } else {
                        next.ran(commands.skip(1), deferred || act.defers())
                    }
                },
                Ruling::Refused => Session { actions: Seq::empty(), ..self }.emitted(Code::Error),
            }
        }
    }

    /// The body of a line carried out. Control characters are ignored, and a body of
    /// nothing but spaces simply acknowledges.
    pub open spec fn performed(self, body: Seq<u8>) -> Session {
        let text = printable(body);
        if beyond(text, Class::Space).len() == 0 {
            self.emitted(Code::Okay)
        } else {
            match commands_in(text) {
                Ok(commands) => self.ran(commands, false),
                Err(_) => self.emitted(Code::Error),
            }
        }
    }

    /// A character of the body of a line. The terminator is checked before the editor, so
    /// if they are the same the character terminates the line.
    pub open spec fn typed(self, c: u8) -> Session {
        let now = self.echoed(c);
        if c == self.regs.s3 {
            let over = Session {
                state: LineState::Idle,
                body: Seq::empty(),
                last_body: self.body,
                ..now
            };
            if self.overflowed {
                over.emitted(Code::Error)
            } else {
                over.performed(self.body)
            }
        } else if c == self.regs.s5 {
            Session {
                body: if self.body.len() > 0 {
                    self.body.drop_last()
                } else {
                    self.body
                },
                ..now
            }
        } else if self.body.len() < MAX_BODY {
            Session { body: self.body.push(c), ..now }
        } else {
            Session { overflowed: true, ..now }
        }
    }

    /// An octet from the DTE, in command state. Only the low seven bits matter.
    pub open spec fn fed(self, byte: u8) -> Session {
        let c = (byte % 128) as u8;
        let a = c == 'A' as u8 || c == 'a' as u8;
        let t = c == 'T' as u8 || c == 't' as u8;
        match self.state {
            LineState::Idle => if a {
                Session { state: LineState::GotA, ..self }.echoed(c)
            } else {
                // Characters that are not part of a command line are ignored.
                self
            },
            LineState::GotA => if t {
                Session {
                    state: LineState::Body,
                    body: Seq::empty(),
                    overflowed: false,
                    ..self
                }.echoed(c)
            } else if c == '/' as u8 {
                // The previous line at once, with no termination character.
                Session { state: LineState::Idle, ..self.echoed(c) }.performed(self.last_body)
            } else if a {
                self.echoed(c)
            } else {
                Session { state: LineState::Idle, ..self }
            },
            LineState::Body => self.typed(c),
        }
    }

    /// Octets from the DTE, one after another.
    pub open spec fn fed_all(self, bytes: Seq<u8>) -> Session
        decreases bytes.len(),
    {
        if bytes.len() == 0 {
            self
        } else {
            self.fed_all(bytes.drop_last()).fed(bytes.last())
        }
    }
}

/// The AT command interpreter.
#[derive(Debug)]
pub struct Interpreter {
    pub regs: Registers,
    pub fmt: Formatter,
    pub config: Config,
    pub identity: Identity,
    pub state: LineState,
    pub body: Vec<u8>,
    pub last_body: Vec<u8>,
    pub overflowed: bool,
    pub out: Vec<u8>,
    pub actions: Vec<Action>,
}

/// Actions, as values.
pub open spec fn acts(actions: Seq<Action>) -> Seq<Act> {
    actions.map_values(|action: Action| action@)
}

impl View for Interpreter {
    type V = Session;

    open spec fn view(&self) -> Session {
        Session {
            regs: self.regs,
            fmt: self.fmt,
            config: self.config,
            identity: self.identity@,
            state: self.state,
            body: self.body@,
            last_body: self.last_body@,
            overflowed: self.overflowed,
            out: self.out@,
            actions: acts(self.actions@),
        }
    }
}

/// Whether what an interpreter did about a command is what was to come of it.
pub open spec fn ruled(
    before: Session,
    after: Session,
    out: Result<Option<Action>, ResultCode>,
    ruling: Ruling,
) -> bool {
    match ruling {
        Ruling::Done(next) => after =~= next && (out matches Ok(None)),
        Ruling::Asked(next, act) => after =~= next && (out matches Ok(Some(action)) && action@
            == act),
        Ruling::Refused => after =~= before && (out matches Err(code) && code@ == Code::Error),
    }
}

impl Default for Interpreter {
    fn default() -> (interpreter: Self)
        ensures
            interpreter@ == Session::fresh(),
    {
        Self::new()
    }
}

impl Interpreter {
    pub fn new() -> (interpreter: Self)
        ensures
            interpreter@ == Session::fresh(),
    {
        let interpreter = Interpreter {
            regs: Registers::default(),
            fmt: Formatter::default(),
            config: Config::default(),
            identity: Identity::default(),
            state: LineState::Idle,
            body: Vec::new(),
            last_body: Vec::new(),
            overflowed: false,
            out: Vec::new(),
            actions: Vec::new(),
        };
        assert(interpreter@ =~= Session::fresh());
        interpreter
    }

    /// Bytes queued for the DTE. Draining leaves the queue empty.
    pub fn take_output(&mut self) -> (out: Vec<u8>)
        ensures
            out@ == old(self)@.out,
            final(self)@ == (Session { out: Seq::empty(), ..old(self)@ }),
    {
        let mut out: Vec<u8> = Vec::new();
        std::mem::swap(&mut out, &mut self.out);
        assert(self@ =~= (Session { out: Seq::empty(), ..old(self)@ }));
        out
    }

    /// Actions the completed command line asked for, in the order written.
    ///
    /// Usually empty or a single entry, but a line such as `AT&FH0` legitimately produces
    /// two, so this is a queue rather than a single value.
    pub fn take_actions(&mut self) -> (actions: Vec<Action>)
        ensures
            acts(actions@) == old(self)@.actions,
            final(self)@ == (Session { actions: Seq::empty(), ..old(self)@ }),
    {
        let mut actions: Vec<Action> = Vec::new();
        std::mem::swap(&mut actions, &mut self.actions);
        assert(self@ =~= (Session { actions: Seq::empty(), ..old(self)@ }));
        actions
    }

    /// Restore the factory configuration.
    fn restore_defaults(&mut self)
        ensures
            final(self)@ == old(self)@.restored(),
    {
        self.regs = Registers::default();
        self.fmt = Formatter::default();
        self.config = Config::default();
    }

    /// Queue an unsolicited or deferred result code, such as `RING` or the `CONNECT` that
    /// follows a successful dial.
    pub fn emit(&mut self, code: ResultCode)
        ensures
            final(self)@ == old(self)@.emitted(code@),
    {
        self.fmt.result(&code, &self.regs, &mut self.out);
    }

    fn inform(&mut self, text: &[u8])
        ensures
            final(self)@ == old(self)@.informed(text@),
    {
        self.fmt.info(text, &self.regs, &mut self.out);
    }

    fn inform_str(&mut self, text: &str)
        ensures
            final(self)@ == old(self)@.informed(ascii(text@)),
    {
        let text = octets(text);
        self.inform(text.as_slice());
    }

    /// Feed one byte received from the DTE in command state.
    ///
    /// Responses are queued for [`take_output`](Self::take_output) and any requested
    /// actions for [`take_actions`](Self::take_actions).
    pub fn feed(&mut self, byte: u8)
        ensures
            final(self)@ == old(self)@.fed(byte),
    {
        let c: u8 = byte % 128;
        let a = c == 'A' as u8 || c == 'a' as u8;
        let t = c == 'T' as u8 || c == 't' as u8;
        match self.state {
            LineState::Idle => {
                if a {
                    self.state = LineState::GotA;
                    self.echo(c);
                }
            },
            LineState::GotA => {
                if t {
                    self.state = LineState::Body;
                    self.body.clear();
                    self.overflowed = false;
                    assert(self@ =~= (Session {
                        state: LineState::Body,
                        body: Seq::empty(),
                        overflowed: false,
                        ..old(self)@
                    }));
                    self.echo(c);
                } else if c == '/' as u8 {
                    self.echo(c);
                    self.state = LineState::Idle;
                    let body = copy(self.last_body.as_slice());
                    self.execute_line(body.as_slice());
                } else if a {
                    self.echo(c);
                } else {
                    self.state = LineState::Idle;
                }
            },
            LineState::Body => self.feed_body(c),
        }
    }

    fn feed_body(&mut self, c: u8)
        ensures
            final(self)@ == old(self)@.typed(c),
    {
        let ghost before = self@;
        if c == self.regs.terminator() {
            self.echo(c);
            self.state = LineState::Idle;
            let mut body: Vec<u8> = Vec::new();
            std::mem::swap(&mut body, &mut self.body);
            self.last_body = copy(body.as_slice());
            assert(self@ =~= (Session {
                state: LineState::Idle,
                body: Seq::empty(),
                last_body: before.body,
                ..before.echoed(c)
            }));
            if self.overflowed {
                self.emit(ResultCode::Error);
                return;
            }
            self.execute_line(body.as_slice());
            return;
        }
        if c == self.regs.editor() {
            self.echo(c);
            let _ = self.body.pop();
            assert(self@ =~= before.typed(c));
            return;
        }
        self.echo(c);
        if self.body.len() < MAX_BODY {
            self.body.push(c);
        } else {
            self.overflowed = true;
        }
    }

    fn echo(&mut self, c: u8)
        ensures
            final(self)@ == old(self)@.echoed(c),
    {
        if self.config.echo {
            self.out.push(c);
        }
    }

    /// Carry out the body of a line.
    pub fn execute_line(&mut self, body: &[u8])
        ensures
            final(self)@ == old(self)@.performed(body@),
    {
        let mut text: Vec<u8> = Vec::new();
        let mut i: usize = 0;
        assert(body@.take(0) =~= Seq::empty());
        while i < body.len()
            invariant
                i <= body.len(),
                text@ == printable(body@.take(i as int)),
            decreases body.len() - i,
        {
            let c: u8 = body[i];
            if !(c < 0x20 || c == 0x7f) {
                text.push(c);
            }
            i = i + 1;
            assert(body@.take(i as int).drop_last() =~= body@.take(i - 1));
        }
        assert(body@.take(i as int) =~= body@);
        let text = text.as_slice();
        assert(text@.skip(0) =~= text@);
        if past_run(text, 0, Class::Space) == text.len() {
            self.emit(ResultCode::Okay);
            return;
        }
        match parse_body(text) {
            Ok(commands) => self.run(commands.as_slice()),
            Err(_) => self.emit(ResultCode::Error),
        }
    }

    /// Carry out the commands of a line.
    fn run(&mut self, commands: &[Command])
        ensures
            final(self)@ == old(self)@.ran(said(commands@), false),
    {
        let mut deferred = false;
        let mut i: usize = 0;
        let ghost start = self@;
        assert(said(commands@).skip(0) =~= said(commands@));
        while i < commands.len()
            invariant
                i <= commands.len(),
                start == old(self)@,
                start.ran(said(commands@), false) == self@.ran(
                    said(commands@).skip(i as int),
                    deferred,
                ),
            decreases commands.len() - i,
        {
            let ghost here = self@;
            let ghost rest = said(commands@).skip(i as int);
            assert(rest[0] == commands@[i as int]@);
            assert(rest.skip(1) =~= said(commands@).skip(i + 1));
            match self.execute(&commands[i]) {
                Ok(None) => {},
                Ok(Some(action)) => {
                    let stop = action.terminates_line();
                    deferred = deferred || action.defers_result();
                    let ghost queued = self.actions@;
                    self.actions.push(action);
                    assert(acts(self.actions@) =~= acts(queued).push(action@));
                    if stop {
                        if !deferred {
                            self.emit(ResultCode::Okay);
                        }
                        return;
                    }
                },
                Err(code) => {
                    self.actions.clear();
                    assert(self@ =~= (Session { actions: Seq::empty(), ..here }));
                    self.emit(code);
                    return;
                },
            }
            i = i + 1;
        }
        if !deferred {
            self.emit(ResultCode::Okay);
        }
    }

    /// Execute one command. `Err` carries the result code to report.
    fn execute(&mut self, command: &Command) -> (out: Result<Option<Action>, ResultCode>)
        ensures
            ruled(old(self)@, final(self)@, out, old(self)@.executed(command@)),
    {
        match command {
            Command::Dial(number) => Ok(Some(Action::Dial(copy(number.as_slice())))),
            Command::ReadS(n) => match self.regs.get(*n) {
                Ok(v) => {
                    let text: [u8; 3] = [48 + v / 100, 48 + v / 10 % 10, 48 + v % 10];
                    assert(text@ =~= three_digits(v));
                    self.inform(&text);
                    Ok(None)
                },
                Err(e) => Err(reg_error(e)),
            },
            Command::SetS(n, value) => {
                let value: u32 = match value {
                    Some(value) => *value,
                    None => 0,
                };
                match self.regs.set(*n, value) {
                    Ok(_) => Ok(None),
                    Err(e) => Err(reg_error(e)),
                }
            },
            Command::Basic { amp, letter, number } => self.basic(*amp, *letter, *number),
            Command::Extended { name, op } => self.extended(name.as_slice(), op),
        }
    }
}

/// Why an S-parameter could not be read or set, as a result code.
fn reg_error(_e: RegError) -> (code: ResultCode)
    ensures
        code@ == Code::Error,
{
    ResultCode::Error
}

/// A body taken apart, for callers that want to know why it cannot be.
pub fn parse_line(body: &[u8]) -> (out: Result<Vec<Command>, ParseError>)
    ensures
        match (out, commands_in(body@)) {
            (Ok(commands), Ok(spec_commands)) => said(commands@) == spec_commands,
            (Err(e), Err(spec_e)) => e == spec_e,
            _ => false,
        },
{
    parse_body(body)
}

impl Interpreter {
    fn basic(&mut self, amp: bool, letter: u8, number: Option<u32>) -> (out: Result<
        Option<Action>,
        ResultCode,
    >)
        ensures
            ruled(old(self)@, final(self)@, out, old(self)@.basic(amp, letter, number)),
    {
        let n: u32 = match number {
            Some(n) => n,
            None => 0,
        };
        if n > 255 {
            return Err(ResultCode::Error);
        }
        if amp {
            self.ampersand(letter, n as u8)
        } else {
            self.one_letter(letter, n as u8)
        }
    }

    fn ampersand(&mut self, letter: u8, n: u8) -> (out: Result<Option<Action>, ResultCode>)
        ensures
            ruled(old(self)@, final(self)@, out, old(self)@.amp(letter, n)),
    {
        proof {
            reveal(Session::amp);
        }
        if letter == 'C' as u8 && n <= 1 {
            self.config.dcd = n;
        } else if letter == 'D' as u8 && n <= 2 {
            self.config.dtr = n;
        } else if letter == 'F' as u8 && n == 0 {
            self.restore_defaults();
            return Ok(Some(Action::FactoryDefaults(0)));
        } else {
            return Err(ResultCode::Error);
        }
        Ok(None)
    }

    fn one_letter(&mut self, letter: u8, n: u8) -> (out: Result<Option<Action>, ResultCode>)
        ensures
            ruled(old(self)@, final(self)@, out, old(self)@.letter(letter, n)),
    {
        proof {
            reveal(Session::letter);
        }
        if letter == 'A' as u8 {
            return Ok(Some(Action::Answer));
        } else if letter == 'E' as u8 && n <= 1 {
            self.config.echo = n == 1;
        } else if letter == 'H' as u8 && n == 0 {
            return Ok(Some(Action::HangUp));
        } else if letter == 'H' as u8 && n == 1 {
            return Ok(Some(Action::OffHook));
        } else if letter == 'I' as u8 {
            let text = self.identify(n);
            self.inform(text.as_slice());
        } else if letter == 'L' as u8 && n <= 3 {
            self.config.speaker_volume = n;
        } else if letter == 'M' as u8 && n <= 3 {
            self.config.speaker_mode = n;
        } else if letter == 'O' as u8 && n == 0 {
            return Ok(Some(Action::ReturnOnline));
        } else if letter == 'P' as u8 {
            self.config.pulse_dialling = true;
        } else if letter == 'T' as u8 {
            self.config.pulse_dialling = false;
        } else if letter == 'Q' as u8 && n <= 1 {
            self.fmt.quiet = n == 1;
        } else if letter == 'V' as u8 && n <= 1 {
            self.fmt.verbose = n == 1;
        } else if letter == 'X' as u8 && n <= 4 {
            self.config.x = n;
        } else if letter == 'Z' as u8 && n <= 1 {
            // The result code that follows uses what the reset restored, because it is
            // formatted afterwards.
            self.restore_defaults();
            return Ok(Some(Action::ResetProfile(n)));
        } else {
            return Err(ResultCode::Error);
        }
        Ok(None)
    }

    /// An extended command, by its name in upper case. `Err` carries the result code to
    /// report.
    pub fn extended(&mut self, name: &[u8], op: &ExtOp) -> (out: Result<Option<Action>, ResultCode>)
        ensures
            ruled(old(self)@, final(self)@, out, old(self)@.extended(name@, op@)),
    {
        proof {
            reveal(Session::extended);
        }
        if reads(name, "GMI") {
            let answer = copy(self.identity.manufacturer.as_slice());
            return self.answer_identity(name, answer.as_slice(), op);
        }
        if reads(name, "GMM") {
            let answer = copy(self.identity.model.as_slice());
            return self.answer_identity(name, answer.as_slice(), op);
        }
        if reads(name, "GMR") {
            let answer = copy(self.identity.revision.as_slice());
            return self.answer_identity(name, answer.as_slice(), op);
        }
        if reads(name, "GSN") {
            let answer = copy(self.identity.serial.as_slice());
            return self.answer_identity(name, answer.as_slice(), op);
        }
        if reads(name, "GCAP") {
            // The capability commands this DCE supports.
            let answer = octets("+GCAP: +FCLASS,+MS,+ES,+DS");
            return self.answer_identity(name, answer.as_slice(), op);
        }
        if reads(name, "MS") {
            self.select_modulation(op)
        } else if reads(name, "ES") {
            self.select_error_control(op)
        } else if reads(name, "DS") {
            self.select_compression(op)
        } else if reads(name, "FCLASS") {
            self.select_class(op)
        } else {
            Err(ResultCode::Error)
        }
    }

    fn answer_identity(&mut self, name: &[u8], answer: &[u8], op: &ExtOp) -> (out: Result<
        Option<Action>,
        ResultCode,
    >)
        ensures
            ruled(old(self)@, final(self)@, out, old(self)@.identifies(name@, answer@, op@)),
    {
        match op {
            ExtOp::Execute | ExtOp::Read => {
                self.inform(answer);
                Ok(None)
            },
            ExtOp::Test => {
                let mut text = octets("+");
                append(&mut text, name);
                append_str(&mut text, ": (0)");
                self.inform(text.as_slice());
                Ok(None)
            },
            ExtOp::Assign(_) => Err(ResultCode::Error),
        }
    }

    fn select_modulation(&mut self, op: &ExtOp) -> (out: Result<Option<Action>, ResultCode>)
        ensures
            ruled(old(self)@, final(self)@, out, old(self)@.ms(op@)),
    {
        match op {
            ExtOp::Execute => Err(ResultCode::Error),
            ExtOp::Read => {
                let mut text = octets("+MS: ");
                append_modulation(&mut text, &self.config.modulation);
                self.inform(text.as_slice());
                Ok(None)
            },
            ExtOp::Test => {
                self.inform_str("+MS: (V22B,V32),(0,1)");
                Ok(None)
            },
            ExtOp::Assign(value) => match read_modulation(value.as_slice()) {
                Some(modulation) => {
                    self.config.modulation = modulation;
                    Ok(Some(Action::SelectModulation(modulation)))
                },
                None => Err(ResultCode::Error),
            },
        }
    }

    fn select_error_control(&mut self, op: &ExtOp) -> (out: Result<Option<Action>, ResultCode>)
        ensures
            ruled(old(self)@, final(self)@, out, old(self)@.es(op@)),
    {
        match op {
            ExtOp::Execute => Err(ResultCode::Error),
            ExtOp::Read => {
                let mut text = octets("+ES: ");
                append_error_control(&mut text, &self.config.error_control);
                self.inform(text.as_slice());
                Ok(None)
            },
            ExtOp::Test => {
                self.inform_str("+ES: (0-3),(0-3)");
                Ok(None)
            },
            ExtOp::Assign(value) => match read_error_control(value.as_slice()) {
                Some(error_control) => {
                    self.config.error_control = error_control;
                    Ok(Some(Action::SelectErrorControl(error_control)))
                },
                None => Err(ResultCode::Error),
            },
        }
    }

    fn select_compression(&mut self, op: &ExtOp) -> (out: Result<Option<Action>, ResultCode>)
        ensures
            ruled(old(self)@, final(self)@, out, old(self)@.ds(op@)),
    {
        match op {
            ExtOp::Execute => Err(ResultCode::Error),
            ExtOp::Read => {
                let mut text = octets("+DS: ");
                append_decimal(
                    &mut text,
                    if self.config.compression {
                        3
                    } else {
                        0
                    },
                );
                self.inform(text.as_slice());
                Ok(None)
            },
            ExtOp::Test => {
                self.inform_str("+DS: (0,3)");
                Ok(None)
            },
            ExtOp::Assign(value) => match read_only(value.as_slice()) {
                Some(0) => {
                    self.config.compression = false;
                    Ok(Some(Action::SelectCompression(false)))
                },
                Some(3) => {
                    self.config.compression = true;
                    Ok(Some(Action::SelectCompression(true)))
                },
                _ => Err(ResultCode::Error),
            },
        }
    }

    fn select_class(&mut self, op: &ExtOp) -> (out: Result<Option<Action>, ResultCode>)
        ensures
            ruled(old(self)@, final(self)@, out, old(self)@.fclass(op@)),
    {
        match op {
            ExtOp::Execute => Err(ResultCode::Error),
            ExtOp::Read => {
                self.inform_str("0");
                Ok(None)
            },
            ExtOp::Test => {
                self.inform_str("+FCLASS: (0)");
                Ok(None)
            },
            ExtOp::Assign(value) => match read_only(value.as_slice()) {
                Some(0) => Ok(None),
                _ => Err(ResultCode::Error),
            },
        }
    }

    /// `ATI<n>`. The content of each value is manufacturer-specific.
    fn identify(&self, n: u8) -> (text: Vec<u8>)
        ensures
            text@ == self@.identified(n),
    {
        match n {
            0 => copy(self.identity.model.as_slice()),
            1 => copy(self.identity.revision.as_slice()),
            2 => copy(self.identity.manufacturer.as_slice()),
            3 => copy(self.identity.serial.as_slice()),
            _ => octets("0"),
        }
    }
}

} // verus!
