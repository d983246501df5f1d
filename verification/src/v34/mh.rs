//! The MH sequences of V.92: forty bits on the phase 2 modulation, by which
//! one modem asks the other to hold the call while its owner takes a telephone
//! call.
use crate::bits::{
    get_pattern, lemma_append, lemma_patterns, pattern, pattern_number, put_pattern,
};
use crate::v34::info::{frame, framed, framing_is_undone, unframe, unframed, MH_BITS};
use vstd::prelude::*;

verus! {

/// What an MH sequence says, in bits 12:15. Six of the sixteen patterns are
/// defined; a sequence with any other is to be ignored.
#[derive(Debug, Clone, Copy, PartialEq, Eq, Structural)]
pub enum MhIndication {
    /// `0011`: a request for the remote modem to go on hold.
    Req,
    /// `0101`: agreement to go on hold, and the timeout.
    Ack,
    /// `0111`: on-hold denied; cleardown or fast reconnect requested.
    Nack,
    /// `1001`: cleardown requested.
    Clrd,
    /// `1011`: cleardown acknowledged.
    Cda,
    /// `1101`: fast reconnect requested.
    Frr,
}

impl MhIndication {
    pub const ALL: [MhIndication; 6] = [
        MhIndication::Req,
        MhIndication::Ack,
        MhIndication::Nack,
        MhIndication::Clrd,
        MhIndication::Cda,
        MhIndication::Frr,
    ];

    /// The pattern, as a nibble whose bit 3 goes first.
    pub open spec fn coded(self) -> nat {
        match self {
            MhIndication::Req => 3,
            MhIndication::Ack => 5,
            MhIndication::Nack => 7,
            MhIndication::Clrd => 9,
            MhIndication::Cda => 11,
            MhIndication::Frr => 13,
        }
    }

    /// The indication a pattern stands for, if it is one of the six.
    pub open spec fn decoded(code: nat) -> Option<MhIndication> {
        if code == 3 {
            Some(MhIndication::Req)
        } else if code == 5 {
            Some(MhIndication::Ack)
        } else if code == 7 {
            Some(MhIndication::Nack)
        } else if code == 9 {
            Some(MhIndication::Clrd)
        } else if code == 11 {
            Some(MhIndication::Cda)
        } else if code == 13 {
            Some(MhIndication::Frr)
        } else {
            None
        }
    }

    pub fn code(self) -> (code: u8)
        ensures
            code == self.coded(),
            code < 16,
    {
        match self {
            MhIndication::Req => 3,
            MhIndication::Ack => 5,
            MhIndication::Nack => 7,
            MhIndication::Clrd => 9,
            MhIndication::Cda => 11,
            MhIndication::Frr => 13,
        }
    }

    pub fn from_code(code: u8) -> (indication: Option<MhIndication>)
        ensures
            indication == MhIndication::decoded(code as nat),
    {
        match code {
            3 => Some(MhIndication::Req),
            5 => Some(MhIndication::Ack),
            7 => Some(MhIndication::Nack),
            9 => Some(MhIndication::Clrd),
            11 => Some(MhIndication::Cda),
            13 => Some(MhIndication::Frr),
            _ => None,
        }
    }
}

/// The timeout period an MHack grants, in bits 16:19.
///
/// Thirteen of the sixteen codes name a period and three are reserved. A
/// reserved code must not be read as a period or as "no limit".
#[derive(Debug, Clone, Copy, PartialEq, Eq, Structural)]
pub enum T1 {
    /// `0001` to `1100`: 10, 20, 30 or 40 seconds, or 1, 2, 3, 4, 6, 8, 12 or
    /// 16 minutes, in seconds.
    Limit(u32),
    /// `1101`.
    NoLimit,
    /// `0000`, `1110` or `1111`, kept as it arrived.
    Reserved(u8),
}

/// The period in seconds that a code from 1 to 12 names.
pub open spec fn period(code: nat) -> nat
    recommends
        1 <= code <= 12,
{
    seq![10nat, 20, 30, 40, 60, 120, 180, 240, 360, 480, 720, 960][code - 1]
}

/// The code of the longest period no longer than `seconds`, or zero where there
/// is none.
pub open spec fn limit_code(seconds: nat, most: nat) -> nat
    decreases most,
{
    if most == 0 || period(most) <= seconds {
        most
    } else {
        limit_code(seconds, (most - 1) as nat)
    }
}

impl T1 {
    /// The twelve bounded periods in seconds, in the order they are coded.
    pub const PERIODS: [u32; 12] = [10, 20, 30, 40, 60, 120, 180, 240, 360, 480, 720, 960];

    /// The pattern this is sent as. A limit that is none of the twelve goes out
    /// as the longest that does not exceed it.
    pub open spec fn coded(self) -> nat {
        match self {
            T1::Limit(seconds) => limit_code(seconds as nat, 12),
            T1::NoLimit => 13,
            T1::Reserved(code) => code as nat,
        }
    }

    /// What a pattern says.
    pub open spec fn decoded(code: nat) -> T1 {
        if 1 <= code <= 12 {
            T1::Limit(period(code) as u32)
        } else if code == 13 {
            T1::NoLimit
        } else {
            T1::Reserved(code as u8)
        }
    }

    pub fn from_code(code: u8) -> (t1: T1)
        ensures
            t1 == T1::decoded(code as nat),
    {
        if 1 <= code && code <= 12 {
            T1::Limit(T1::PERIODS[code as usize - 1])
        } else if code == 13 {
            T1::NoLimit
        } else {
            T1::Reserved(code)
        }
    }

    /// The pattern this T1 is sent as.
    ///
    /// A grant is never longer than the one intended. Below ten seconds there
    /// is no period to name and `0000` is what goes out.
    pub fn code(self) -> (code: u8)
        ensures
            code == self.coded(),
    {
        match self {
            T1::Limit(seconds) => {
                let mut code: u8 = 12;
                while code > 0 && T1::PERIODS[code as usize - 1] > seconds
                    invariant
                        code <= 12,
                        limit_code(seconds as nat, 12) == limit_code(seconds as nat, code as nat),
                    decreases code,
                {
                    code = code - 1;
                }
                code
            },
            T1::NoLimit => 13,
            T1::Reserved(code) => code,
        }
    }

    /// How long the hold may last, when the code named a length at all: read
    /// from the pattern that will actually be sent.
    pub fn seconds(self) -> (seconds: Option<u32>)
        ensures
            seconds == match T1::decoded(self.coded()) {
                T1::Limit(seconds) => Some(seconds),
                _ => None,
            },
    {
        match T1::from_code(self.code()) {
            T1::Limit(seconds) => Some(seconds),
            _ => None,
        }
    }
}

/// Every code means what it is sent for; a limit that is granted is never
/// longer than the one asked for, and it is the longest such; a reserved code
/// grants nothing.
pub proof fn a_grant_is_never_longer_than_asked(seconds: u32, code: nat)
    requires
        code < 16,
    ensures
        T1::decoded(code).coded() == code,
        T1::decoded(T1::Limit(seconds).coded()) matches T1::Limit(granted) ==> granted <= seconds
            && forall|other: nat|
            1 <= other <= 12 && #[trigger] period(other) <= seconds ==> period(other) <= granted,
        T1::decoded(T1::Limit(seconds).coded()) is Limit <==> seconds >= 10,
        code == 0 || code >= 14 ==> T1::decoded(code) is Reserved,
{
    reveal_with_fuel(limit_code, 14);
}

/// Why an MHclrd asks for the call to be cleared, in bits 16:19.
#[derive(Debug, Clone, Copy, PartialEq, Eq, Structural)]
pub enum Cleardown {
    /// `0101`: an incoming call.
    IncomingCall,
    /// `0110`: an outgoing call.
    OutgoingCall,
    /// `1010`: another reason.
    Other,
    /// Anything else: still a good MHclrd, whose reason is unknown.
    Unknown(u8),
}

impl Cleardown {
    /// The pattern this is sent as.
    pub open spec fn coded(self) -> nat {
        match self {
            Cleardown::IncomingCall => 5,
            Cleardown::OutgoingCall => 6,
            Cleardown::Other => 10,
            Cleardown::Unknown(code) => code as nat,
        }
    }

    /// What a pattern says.
    pub open spec fn decoded(code: nat) -> Cleardown {
        if code == 5 {
            Cleardown::IncomingCall
        } else if code == 6 {
            Cleardown::OutgoingCall
        } else if code == 10 {
            Cleardown::Other
        } else {
            Cleardown::Unknown(code as u8)
        }
    }

    pub fn code(self) -> (code: u8)
        ensures
            code == self.coded(),
    {
        match self {
            Cleardown::IncomingCall => 5,
            Cleardown::OutgoingCall => 6,
            Cleardown::Other => 10,
            Cleardown::Unknown(code) => code,
        }
    }

    pub fn from_code(code: u8) -> (reason: Cleardown)
        ensures
            reason == Cleardown::decoded(code as nat),
    {
        match code {
            5 => Cleardown::IncomingCall,
            6 => Cleardown::OutgoingCall,
            10 => Cleardown::Other,
            other => Cleardown::Unknown(other),
        }
    }
}

/// Bits 16:19 of an MH sequence, read as the indication in front of them asks.
#[derive(Debug, Clone, Copy, PartialEq, Eq, Structural)]
pub enum MhInformation {
    /// MHreq, MHnack, MHcda and MHfrr repeat the indication. The nibble as it
    /// arrived, so that a far end which did not can be told from one which did.
    Repeat(u8),
    /// MHack: the timeout period for on-hold.
    Timeout(T1),
    /// MHclrd: why the far end wants the call cleared.
    Reason(Cleardown),
}

impl MhInformation {
    /// The pattern this is sent as.
    pub open spec fn coded(self) -> nat {
        match self {
            MhInformation::Repeat(code) => code as nat,
            MhInformation::Timeout(t1) => t1.coded(),
            MhInformation::Reason(reason) => reason.coded(),
        }
    }

    /// What a pattern says after `indication`.
    pub open spec fn decoded(indication: MhIndication, code: nat) -> MhInformation {
        match indication {
            MhIndication::Ack => MhInformation::Timeout(T1::decoded(code)),
            MhIndication::Clrd => MhInformation::Reason(Cleardown::decoded(code)),
            _ => MhInformation::Repeat(code as u8),
        }
    }
}

/// An MH sequence: the same frame as an INFO sequence with an eight-bit
/// information field, and the same CRC over it.
#[derive(Debug, Clone, Copy, PartialEq, Eq, Structural)]
pub struct Mh {
    /// Bits 12:15.
    pub indication: MhIndication,
    /// Bits 16:19.
    pub information: MhInformation,
}

impl Mh {
    /// The information bits, 12 to 19.
    pub open spec fn info(self) -> Seq<bool> {
        pattern(self.indication.coded()) + pattern(self.information.coded())
    }

    /// What the information bits say, where the indication is a defined one.
    pub open spec fn of_info(info: Seq<bool>) -> Option<Mh> {
        match MhIndication::decoded(pattern_number(info.subrange(0, 4))) {
            Some(indication) => Some(
                Mh {
                    indication,
                    information: MhInformation::decoded(
                        indication,
                        pattern_number(info.subrange(4, 8)),
                    ),
                },
            ),
            None => None,
        }
    }

    /// A sequence that says its indication twice.
    pub open spec fn repeated(indication: MhIndication) -> Mh {
        Mh { indication, information: MhInformation::Repeat(indication.coded() as u8) }
    }

    pub fn req() -> (mh: Mh)
        ensures
            mh == Mh::repeated(MhIndication::Req),
    {
        Mh::repeating(MhIndication::Req)
    }

    pub fn ack(t1: T1) -> (mh: Mh)
        ensures
            mh == (Mh { indication: MhIndication::Ack, information: MhInformation::Timeout(t1) }),
    {
        Mh { indication: MhIndication::Ack, information: MhInformation::Timeout(t1) }
    }

    pub fn nack() -> (mh: Mh)
        ensures
            mh == Mh::repeated(MhIndication::Nack),
    {
        Mh::repeating(MhIndication::Nack)
    }

    pub fn clrd(reason: Cleardown) -> (mh: Mh)
        ensures
            mh == (Mh {
                indication: MhIndication::Clrd,
                information: MhInformation::Reason(reason),
            }),
    {
        Mh { indication: MhIndication::Clrd, information: MhInformation::Reason(reason) }
    }

    pub fn cda() -> (mh: Mh)
        ensures
            mh == Mh::repeated(MhIndication::Cda),
    {
        Mh::repeating(MhIndication::Cda)
    }

    pub fn frr() -> (mh: Mh)
        ensures
            mh == Mh::repeated(MhIndication::Frr),
    {
        Mh::repeating(MhIndication::Frr)
    }

    fn repeating(indication: MhIndication) -> (mh: Mh)
        ensures
            mh == Mh::repeated(indication),
    {
        Mh { indication, information: MhInformation::Repeat(indication.code()) }
    }

    pub fn to_bits(&self) -> (bits: Vec<bool>)
        requires
            self.information.coded() < 16,
        ensures
            bits@ == framed(self.info()),
    {
        let mut info: Vec<bool> = Vec::new();
        put_pattern(&mut info, self.indication.code());
        let code: u8 = match self.information {
            MhInformation::Repeat(code) => code,
            MhInformation::Timeout(t1) => t1.code(),
            MhInformation::Reason(reason) => reason.code(),
        };
        put_pattern(&mut info, code);
        assert(Seq::<bool>::empty() + pattern(self.indication.coded()) =~= pattern(
            self.indication.coded(),
        ));
        frame(info.as_slice())
    }

    pub fn from_bits(bits: &[bool]) -> (mh: Option<Mh>)
        ensures
            mh == match unframed(bits@, 40) {
                Some(said) => Mh::of_info(said),
                None => None,
            },
    {
        let info = match unframe(bits, MH_BITS) {
            Some(info) => info,
            None => return None,
        };
        let code: u8 = get_pattern(info, 4);
        match MhIndication::from_code(get_pattern(info, 0)) {
            Some(indication) => {
                let information = match indication {
                    MhIndication::Ack => MhInformation::Timeout(T1::from_code(code)),
                    MhIndication::Clrd => MhInformation::Reason(Cleardown::from_code(code)),
                    _ => MhInformation::Repeat(code),
                };
                Some(Mh { indication, information })
            },
            None => None,
        }
    }
}

/// An MH sequence gives back what was put in it: any indication, with what a
/// four-bit pattern can say after it.
pub proof fn mh_comes_back(indication: MhIndication, code: nat)
    requires
        code < 16,
    ensures
        ({
            let sent = Mh { indication, information: MhInformation::decoded(indication, code) };
            &&& sent.information.coded() == code
            &&& unframed(framed(sent.info()), 40) == Some(sent.info())
            &&& Mh::of_info(sent.info()) == Some(sent)
        }),
{
    let sent = Mh { indication, information: MhInformation::decoded(indication, code) };
    a_grant_is_never_longer_than_asked(0, code);
    let (first, second) = (pattern(indication.coded()), pattern(code));
    lemma_patterns(indication.coded(), seq![false, false, false, false]);
    lemma_patterns(code, seq![false, false, false, false]);
    lemma_append(first, second);
    assert(sent.info().subrange(0, 4) == first.subrange(0, 4));
    assert(first.subrange(0, 4) =~= first);
    framing_is_undone(sent.info());
}

} // verus!
