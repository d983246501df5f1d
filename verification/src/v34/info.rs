//! The INFO sequences of phase 2: what each modem can do, what the line
//! probing found, and what the two of them will use.
//!
//! A sequence is only ever one of two things: a capabilities frame, INFO0,
//! which both ends send, or a results frame, INFO1, which the call modem sends
//! as INFO1c after probing the line and the answer modem answers with INFO1a.
//! All share a shape -- four fill ones, eight bits of frame sync, the
//! information, sixteen bits of CRC and four more fill ones -- and differ only
//! in what the information is.
//!
//! Every multi-bit field is written least significant bit first, and bit 0
//! goes first in time.
//!
//! V.92 leaves that shape alone and changes three things inside it. Two bits
//! of each INFO0 say "I can do V.92" and "let us skip the probing" -- and
//! INFO0d and INFO0a put those two the other way round from each other. Bit 70
//! of INFO1d says whether the channel will carry PCM upstream at all. And the
//! answer modem has two more layouts to choose between: one that asks for PCM
//! upstream by naming 8000 symbols a second in both directions, and one that
//! asks for V.90 data mode after a short phase 2 and names its own upstream
//! carrier.
//!
//! One more sequence rides on the same modulation and the same frame: the MH
//! sequence, forty bits of it, by which one modem asks the other to hold the
//! call.
use crate::bits::{
    get, lemma_append, lemma_append_number, lemma_lsb_len, lemma_lsb_of_number,
    lemma_number_bound, lemma_number_of_lsb, lsb, number, put,
};
pub use crate::v34::info1::{
    Info1a, Info1aPcm, Info1aPcmUp, Info1aV34Up, Info1c, Probed, Probed3429,
};
pub use crate::v34::mh::{Cleardown, Mh, MhIndication, MhInformation, T1};
use vstd::arithmetic::power2::{lemma2_to64, pow2};
use vstd::prelude::*;

verus! {

/// Bits 0:3 and the last four of every INFO sequence.
pub const FILL: [bool; 4] = [true, true, true, true];

/// Bits 4:11, leftmost first in time.
pub const SYNC: [bool; 8] = [false, true, true, true, false, false, true, false];

/// Bits in each sequence, fill to fill.
pub const INFO0_BITS: usize = 49;

pub const INFO1C_BITS: usize = 109;

pub const INFO1A_BITS: usize = 70;

/// Bits in V.90's INFO0d.
pub const INFO0D_BITS: usize = 62;

/// Bits in an MH sequence: the INFO frame with an eight-bit information field.
pub const MH_BITS: usize = 40;

/// Bits 37:39 of an INFO1a that asks for V.90. Six is not one of V.34's symbol
/// rates, which is what tells the two INFO1a apart. V.92 puts the same integer
/// in bits 34:36 as well to ask for PCM upstream.
pub const PCM_SYMBOL_RATE: u32 = 6;

/// The lowest U_INFO an INFO1a may name.
pub const UINFO_LOWEST: u8 = 67;

/// The highest U_INFO an INFO1a may name: the digital modem trains on the
/// codeword whose Ucode is 16 more, and there are only 128 Ucodes.
pub const UINFO_HIGHEST: u8 = 111;

/// Where the information starts: after the fill and the frame sync.
pub const INFORMATION: usize = 12;

/// What is fed back into the register: x^16 + x^12 + x^5 + 1 read from the low
/// end.
pub const POLYNOMIAL: u16 = 0x8408;

/// One bit into the CRC register.
pub open spec fn shifted(register: u16, bit: bool) -> u16 {
    if ((register & 1u16) == 1u16) != bit {
        (register >> 1u16) ^ 0x8408u16
    } else {
        register >> 1u16
    }
}

/// A run of bits into the CRC register, first bit first.
pub open spec fn shifted_all(register: u16, bits: Seq<bool>) -> u16
    decreases bits.len(),
{
    if bits.len() == 0 {
        register
    } else {
        shifted(shifted_all(register, bits.drop_last()), bits.last())
    }
}

/// The CRC of some information: what a register of all ones holds once every
/// bit has been shifted in.
pub open spec fn crc_of(info: Seq<bool>) -> u16 {
    shifted_all(0xffff, info)
}

/// One bit into the CRC register.
pub fn shift(register: u16, bit: bool) -> (next: u16)
    ensures
        next == shifted(register, bit),
{
    let feedback = (register & 1 == 1) != bit;
    let moved: u16 = register >> 1;
    if feedback {
        moved ^ POLYNOMIAL
    } else {
        moved
    }
}

/// The CRC of a sequence's information.
///
/// Sixteen cells, shifting right. The bit coming in is added to cell 0 on its
/// way out, and that sum is fed back into cells 15, 10 and 3. The register
/// starts as all ones, and the CRC is what it holds at the end; nothing is
/// inverted on the way out.
pub fn crc(bits: &[bool]) -> (register: u16)
    ensures
        register == crc_of(bits@),
{
    let mut register: u16 = 0xffff;
    let mut i: usize = 0;
    while i < bits.len()
        invariant
            i <= bits@.len(),
            register == shifted_all(0xffff, bits@.take(i as int)),
        decreases bits@.len() - i,
    {
        register = shift(register, bits[i]);
        i = i + 1;
        assert(bits@.take(i as int).drop_last() =~= bits@.take(i - 1));
    }
    assert(bits@.take(i as int) =~= bits@);
    register
}

/// What every sequence opens with: the fill, and the frame sync.
pub open spec fn opening() -> Seq<bool> {
    seq![true, true, true, true] + seq![false, true, true, true, false, false, true, false]
}

/// A whole sequence around its information.
#[verifier::opaque]
pub open spec fn framed(info: Seq<bool>) -> Seq<bool> {
    opening() + info + lsb(crc_of(info) as nat, 16) + seq![true, true, true, true]
}

/// The information of a sequence `length` bits long, if it opens as it should
/// and its CRC checks. The fill after the CRC may be missing.
#[verifier::opaque]
pub open spec fn unframed(bits: Seq<bool>, length: nat) -> Option<Seq<bool>> {
    if length < 32 || bits.len() + 4 < length || bits.take(12) != opening() {
        None
    } else {
        let info = bits.subrange(12, length - 20);
        if crc_of(info) as nat == number(bits.subrange(length - 20, length - 4)) {
            Some(info)
        } else {
            None
        }
    }
}

/// Fill, sync, information, CRC and fill: a whole sequence around `info`.
pub fn frame(info: &[bool]) -> (bits: Vec<bool>)
    ensures
        bits@ == framed(info@),
{
    let mut bits: Vec<bool> = Vec::new();
    bits.extend_from_slice(&FILL);
    bits.extend_from_slice(&SYNC);
    assert(bits@ =~= opening());
    bits.extend_from_slice(info);
    assert(bits@ =~= opening() + info@);
    put(&mut bits, crc(info) as u32, 16);
    bits.extend_from_slice(&FILL);
    proof {
        reveal(framed);
    }
    assert(bits@ =~= framed(info@));
    bits
}

/// The information of a sequence that is `length` bits long, if its frame sync
/// is where it should be and its CRC checks.
///
/// The fill ones in front are required, since they are what makes the sync
/// findable in a stream of anything; the ones after are not, since a receiver
/// has already read all it needs by then.
pub fn unframe(bits: &[bool], length: usize) -> (info: Option<&[bool]>)
    ensures
        match unframed(bits@, length as nat) {
            Some(wanted) => info matches Some(found) && found@ == wanted && found@.len() == length
                - 32,
            None => info is None,
        },
{
    proof {
        reveal(unframed);
    }
    if length < INFORMATION + 16 + 4 || bits.len() < length - 4 {
        return None;
    }
    let mut i: usize = 0;
    while i < 12
        invariant
            i <= 12 <= bits@.len(),
            bits@.take(i as int) == opening().take(i as int),
        decreases 12 - i,
    {
        let wanted = if i < 4 {
            FILL[i]
        } else {
            SYNC[i - 4]
        };
        assert(wanted == opening()[i as int]);
        if bits[i] != wanted {
            proof {
                reveal(unframed);
            }
            assert(bits@.take(12)[i as int] != opening()[i as int]);
            return None;
        }
        i = i + 1;
        assert(bits@.take(i as int) =~= opening().take(i as int)) by {
            assert(bits@.take(i as int) =~= bits@.take(i - 1).push(bits@[i - 1]));
            assert(opening().take(i as int) =~= opening().take(i - 1).push(opening()[i - 1]));
        }
    }
    assert(opening().take(12) =~= opening());
    let info = vstd::slice::slice_subrange(bits, INFORMATION, length - 20);
    let sent: u32 = get(bits, length - 20, 16);
    proof {
        lemma2_to64();
        assert(length - 20 + 16 == length - 4);
    }
    if crc(info) as u32 == sent {
        Some(info)
    } else {
        None
    }
}

/// A sequence gives back the information it was put around.
pub proof fn framing_is_undone(info: Seq<bool>)
    ensures
        framed(info).len() == info.len() + 32,
        unframed(framed(info), info.len() + 32) == Some(info),
{
    reveal(framed);
    reveal(unframed);
    let bits = framed(info);
    let sum = lsb(crc_of(info) as nat, 16);
    lemma_lsb_len(crc_of(info) as nat, 16);
    lemma2_to64();
    lemma_number_of_lsb(crc_of(info) as nat, 16);
    assert(bits.take(12) =~= opening());
    assert(bits.subrange(12, info.len() as int + 12) =~= info);
    assert(bits.subrange(info.len() as int + 12, info.len() as int + 28) =~= sum);
}

/// Where two runs of bits differ.
pub open spec fn difference(a: Seq<bool>, b: Seq<bool>) -> Seq<bool> {
    Seq::new(a.len(), |i: int| a[i] != b[i])
}

proof fn lemma_shift_is_linear(a: u16, b: u16, x: bool, y: bool)
    by (bit_vector)
    ensures
        shifted(a ^ b, x != y) == shifted(a, x) ^ shifted(b, y),
{
}

proof fn lemma_shift_low(register: u16, bit: bool)
    by (bit_vector)
    ensures
        shifted(register, bit) < 0x8000 ==> shifted(register, bit) == register / 2 && bit == (
        register % 2 == 1),
        bit == (register % 2 == 1) ==> shifted(register, bit) == register / 2,
        shifted(register, false) == 0 ==> register == 0,
{
}

proof fn lemma_shifted_all_linear(x: u16, y: u16, a: Seq<bool>, b: Seq<bool>)
    requires
        a.len() == b.len(),
    ensures
        shifted_all(x ^ y, difference(a, b)) == shifted_all(x, a) ^ shifted_all(y, b),
    decreases a.len(),
{
    if a.len() > 0 {
        lemma_shifted_all_linear(x, y, a.drop_last(), b.drop_last());
        assert(difference(a, b).drop_last() =~= difference(a.drop_last(), b.drop_last()));
        lemma_shift_is_linear(
            shifted_all(x, a.drop_last()),
            shifted_all(y, b.drop_last()),
            a.last(),
            b.last(),
        );
    }
}

proof fn lemma_shifted_all_in_two(register: u16, a: Seq<bool>, b: Seq<bool>)
    ensures
        shifted_all(register, a + b) == shifted_all(shifted_all(register, a), b),
    decreases b.len(),
{
    if b.len() == 0 {
        assert(a + b =~= a);
    } else {
        lemma_shifted_all_in_two(register, a, b.drop_last());
        assert((a + b).drop_last() =~= a + b.drop_last());
    }
}

/// At most sixteen bits empty the register exactly when they spell what it
/// held.
proof fn lemma_emptied(register: u16, bits: Seq<bool>)
    requires
        bits.len() <= 16,
    ensures
        shifted_all(register, bits) == 0 <==> register as nat == number(bits),
    decreases bits.len(),
{
    reveal(number);
    if bits.len() > 0 {
        let rest = bits.skip(1);
        let next = shifted(register, bits[0]);
        lemma_emptied(next, rest);
        lemma_shifted_all_in_two(register, seq![bits[0]], rest);
        assert(seq![bits[0]] + rest =~= bits);
        reveal_with_fuel(shifted_all, 2);
        assert(seq![bits[0]].drop_last() =~= Seq::empty());
        assert(shifted_all(register, seq![bits[0]]) == next);
        lemma_number_bound(rest);
        lemma2_to64();
        if rest.len() < 15 {
            vstd::arithmetic::power2::lemma_pow2_strictly_increases(rest.len(), 15);
        }
        lemma_shift_low(register, bits[0]);
    }
}

proof fn lemma_quiet(bits: Seq<bool>)
    requires
        forall|i: int| 0 <= i < bits.len() ==> !bits[i],
    ensures
        shifted_all(0, bits) == 0,
        number(bits) == 0,
    decreases bits.len(),
{
    reveal(number);
    if bits.len() > 0 {
        lemma_quiet(bits.drop_last());
        lemma_quiet(bits.skip(1));
        lemma_shift_low(0, false);
    }
}

proof fn lemma_not_quiet(bits: Seq<bool>, at: int)
    requires
        0 <= at < bits.len(),
        bits[at],
    ensures
        number(bits) > 0,
    decreases bits.len(),
{
    reveal(number);
    if at > 0 {
        lemma_not_quiet(bits.skip(1), at - 1);
    }
}

/// A register that is not empty stays so while zeros go in.
proof fn lemma_zeros_keep(register: u16, bits: Seq<bool>)
    requires
        register != 0,
        forall|i: int| 0 <= i < bits.len() ==> !bits[i],
    ensures
        shifted_all(register, bits) != 0,
    decreases bits.len(),
{
    if bits.len() > 0 {
        lemma_zeros_keep(register, bits.drop_last());
        lemma_shift_low(shifted_all(register, bits.drop_last()), false);
    }
}

/// A CRC sent after the bits it was made from leaves nothing in the register.
pub proof fn a_crc_after_its_bits_leaves_nothing(info: Seq<bool>)
    ensures
        shifted_all(0xffff, info + lsb(crc_of(info) as nat, 16)) == 0,
{
    let sum = lsb(crc_of(info) as nat, 16);
    lemma_lsb_len(crc_of(info) as nat, 16);
    lemma2_to64();
    lemma_number_of_lsb(crc_of(info) as nat, 16);
    lemma_emptied(crc_of(info), sum);
    lemma_shifted_all_in_two(0xffff, info, sum);
}

/// Errors confined to sixteen bits in a row, anywhere in the information and
/// the CRC after it, are always caught: the sequence is not taken.
pub proof fn a_burst_of_errors_is_caught(
    sent: Seq<bool>,
    heard: Seq<bool>,
    length: nat,
    from: int,
    at: int,
)
    requires
        unframed(sent, length) is Some,
        heard.len() == sent.len(),
        12 <= from <= at < from + 16,
        at < length - 4,
        heard[at] != sent[at],
        forall|i: int|
            0 <= i < sent.len() && !(from <= i < from + 16) ==> heard[i] == sent[i],
    ensures
        unframed(heard, length) is None,
{
    reveal(unframed);
    let (a, b) = (sent.subrange(12, length - 4), heard.subrange(12, length - 4));
    assert(a.take(length - 32) =~= sent.subrange(12, length - 20));
    assert(a.skip(length - 32) =~= sent.subrange(length - 20, length - 4));
    assert(b.take(length - 32) =~= heard.subrange(12, length - 20));
    assert(b.skip(length - 32) =~= heard.subrange(length - 20, length - 4));
    assert(a =~= a.take(length - 32) + a.skip(length - 32));
    assert(b =~= b.take(length - 32) + b.skip(length - 32));
    lemma_shifted_all_in_two(0xffff, a.take(length - 32), a.skip(length - 32));
    lemma_emptied(crc_of(a.take(length - 32)), a.skip(length - 32));
    lemma_shifted_all_in_two(0xffff, b.take(length - 32), b.skip(length - 32));
    lemma_emptied(crc_of(b.take(length - 32)), b.skip(length - 32));
    // What the two leave behind differs by what their difference leaves.
    let e = difference(b, a);
    lemma_shifted_all_linear(0xffff, 0xffff, b, a);
    assert(0xffffu16 ^ 0xffffu16 == 0) by (bit_vector);
    let end = if from + 4 < length - 16 {
        from + 4
    } else {
        length - 16
    };
    let (before, burst, after) = (e.take(from - 12), e.subrange(from - 12, end), e.skip(end));
    assert(e =~= before + burst + after);
    lemma_quiet(before);
    assert(burst[at - from]);
    lemma_not_quiet(burst, at - from);
    lemma_emptied(0, burst);
    lemma_shifted_all_in_two(0, before, burst);
    lemma_shifted_all_in_two(0, before + burst, after);
    lemma_zeros_keep(shifted_all(0, before + burst), after);
    assert(shifted_all(0xffff, b) != 0) by {
        let (x, y) = (shifted_all(0xffff, b), shifted_all(0xffff, a));
        assert(y == 0);
        assert(x ^ 0u16 == x) by (bit_vector);
    }
}

/// The symbol rates, in the order INFO1a numbers them.
#[derive(Debug, Clone, Copy, PartialEq, Eq, Structural)]
pub enum SymbolRate {
    S2400,
    S2743,
    S2800,
    S3000,
    S3200,
    S3429,
}

/// The symbol rate an INFO1a means by a number. Six and seven name none.
pub open spec fn rate_numbered(index: nat) -> Option<SymbolRate> {
    if index == 0 {
        Some(SymbolRate::S2400)
    } else if index == 1 {
        Some(SymbolRate::S2743)
    } else if index == 2 {
        Some(SymbolRate::S2800)
    } else if index == 3 {
        Some(SymbolRate::S3000)
    } else if index == 4 {
        Some(SymbolRate::S3200)
    } else if index == 5 {
        Some(SymbolRate::S3429)
    } else {
        None
    }
}

impl SymbolRate {
    pub const ALL: [SymbolRate; 6] = [
        SymbolRate::S2400,
        SymbolRate::S2743,
        SymbolRate::S2800,
        SymbolRate::S3000,
        SymbolRate::S3200,
        SymbolRate::S3429,
    ];

    /// The number of this rate.
    pub open spec fn numbered(self) -> nat {
        match self {
            SymbolRate::S2400 => 0,
            SymbolRate::S2743 => 1,
            SymbolRate::S2800 => 2,
            SymbolRate::S3000 => 3,
            SymbolRate::S3200 => 4,
            SymbolRate::S3429 => 5,
        }
    }

    /// Symbols per second, to the nearest.
    pub open spec fn baud(self) -> nat {
        match self {
            SymbolRate::S2400 => 2400,
            SymbolRate::S2743 => 2743,
            SymbolRate::S2800 => 2800,
            SymbolRate::S3000 => 3000,
            SymbolRate::S3200 => 3200,
            SymbolRate::S3429 => 3429,
        }
    }

    pub fn from_index(index: u32) -> (rate: Option<SymbolRate>)
        ensures
            rate == rate_numbered(index as nat),
    {
        if index < 6 {
            Some(SymbolRate::ALL[index as usize])
        } else {
            None
        }
    }

    pub fn index(self) -> (index: u32)
        ensures
            index == self.numbered(),
            index < 6,
    {
        match self {
            SymbolRate::S2400 => 0,
            SymbolRate::S2743 => 1,
            SymbolRate::S2800 => 2,
            SymbolRate::S3000 => 3,
            SymbolRate::S3200 => 4,
            SymbolRate::S3429 => 5,
        }
    }

    /// Symbols per second, to the nearest: 2743 and 3429 are 8/7 and 10/7 of
    /// 2400, and are named by their round figures.
    pub fn nominal(self) -> (baud: u32)
        ensures
            baud == self.baud(),
    {
        match self {
            SymbolRate::S2400 => 2400,
            SymbolRate::S2743 => 2743,
            SymbolRate::S2800 => 2800,
            SymbolRate::S3000 => 3000,
            SymbolRate::S3200 => 3200,
            SymbolRate::S3429 => 3429,
        }
    }
}

/// Every rate is the one its number names.
pub proof fn rates_and_numbers_agree(rate: SymbolRate, index: nat)
    ensures
        rate_numbered(rate.numbered()) == Some(rate),
        rate_numbered(index) matches Some(named) ==> named.numbered() == index,
{
}

/// One modem's capabilities, as INFO0a and INFO0c lay them out.
#[derive(Debug, Clone, Copy, PartialEq, Eq, Structural)]
pub struct Info0 {
    /// Bits 12, 13 and 14: symbol rates 2743, 2800 and 3429 supported.
    pub rate_2743: bool,
    pub rate_2800: bool,
    pub rate_3429: bool,
    /// Bits 15 to 18: which carriers this transmitter can use at 3000 and at
    /// 3200 symbols per second.
    pub low_carrier_3000: bool,
    pub high_carrier_3000: bool,
    pub low_carrier_3200: bool,
    pub high_carrier_3200: bool,
    /// Bit 19: clear when transmission with a symbol rate of 3429 is
    /// disallowed.
    pub transmit_3429: bool,
    /// Bit 20: the transmitter can go below the nominal power.
    pub can_reduce_power: bool,
    /// Bits 21:23: how many symbol rate steps apart the two directions may be.
    pub asymmetry: u8,
    /// Bit 24: sent by a CME modem.
    pub cme: bool,
    /// Bit 25: signal constellations of up to 1664 points.
    pub constellation_1664: bool,
    /// Bits 26:27: the transmit clock, or in V.92's INFO0a the two flags of
    /// `pcm_flags`. An INFO0d's pair travels in bits 2 and 3 of this field
    /// instead, so that a transmit clock can never go out inside an INFO0d as
    /// a V.92 flag.
    pub clock: u8,
    /// Bit 28: an INFO0 from the far end has been received correctly.
    pub acknowledge: bool,
}

/// Bits 26 and 27 of an INFO0, as V.92 reads them. Neither set, which is what
/// a V.90 modem sends, means "not V.92, no short phase 2" in either layout.
#[derive(Debug, Clone, Copy, PartialEq, Eq, Structural)]
pub struct PcmFlags {
    /// V.92 capability. INFO0a bit 26; INFO0d bit 27.
    pub v92: bool,
    /// A request for a short phase 2. INFO0a bit 27; INFO0d bit 26.
    pub short_phase2: bool,
}

impl Default for PcmFlags {
    fn default() -> (flags: PcmFlags)
        ensures
            !flags.v92,
            !flags.short_phase2,
    {
        PcmFlags { v92: false, short_phase2: false }
    }
}

impl Default for Info0 {
    fn default() -> (info: Info0)
        ensures
            info == Info0::nothing(),
    {
        Info0 {
            rate_2743: false,
            rate_2800: false,
            rate_3429: false,
            low_carrier_3000: false,
            high_carrier_3000: false,
            low_carrier_3200: false,
            high_carrier_3200: false,
            transmit_3429: false,
            can_reduce_power: false,
            asymmetry: 0,
            cme: false,
            constellation_1664: false,
            clock: 0,
            acknowledge: false,
        }
    }
}

impl Info0 {
    /// A modem that claims nothing.
    pub open spec fn nothing() -> Info0 {
        Info0 {
            rate_2743: false,
            rate_2800: false,
            rate_3429: false,
            low_carrier_3000: false,
            high_carrier_3000: false,
            low_carrier_3200: false,
            high_carrier_3200: false,
            transmit_3429: false,
            can_reduce_power: false,
            asymmetry: 0,
            cme: false,
            constellation_1664: false,
            clock: 0,
            acknowledge: false,
        }
    }

    /// Every field fits the bits it is sent in.
    pub open spec fn fits(self) -> bool {
        self.asymmetry < 8 && self.clock < 4
    }

    /// Bits 12 to 20, each of which stands alone.
    pub open spec fn flags(self) -> Seq<bool> {
        seq![
            self.rate_2743,
            self.rate_2800,
            self.rate_3429,
            self.low_carrier_3000,
            self.high_carrier_3000,
            self.low_carrier_3200,
            self.high_carrier_3200,
            self.transmit_3429,
            self.can_reduce_power,
        ]
    }

    /// The information bits, 12 to 28.
    #[verifier::opaque]
    pub open spec fn info(self) -> Seq<bool> {
        self.flags() + lsb(self.asymmetry as nat, 3) + seq![self.cme, self.constellation_1664] + lsb(
            self.clock as nat,
            2,
        ) + seq![self.acknowledge]
    }

    /// What the information bits say.
    pub open spec fn of_info(info: Seq<bool>) -> Info0 {
        Info0 {
            rate_2743: info[0],
            rate_2800: info[1],
            rate_3429: info[2],
            low_carrier_3000: info[3],
            high_carrier_3000: info[4],
            low_carrier_3200: info[5],
            high_carrier_3200: info[6],
            transmit_3429: info[7],
            can_reduce_power: info[8],
            asymmetry: number(info.subrange(9, 12)) as u8,
            cme: info[12],
            constellation_1664: info[13],
            clock: number(info.subrange(14, 16)) as u8,
            acknowledge: info[16],
        }
    }

    /// Bits 26:27 as INFO0a lays them out: bit 26 is the V.92 capability and
    /// bit 27 the short phase 2 request.
    pub fn pcm_flags(&self) -> (flags: PcmFlags)
        ensures
            flags.v92 == (self.clock % 2 == 1),
            flags.short_phase2 == (self.clock / 2 % 2 == 1),
    {
        PcmFlags { v92: self.clock % 2 == 1, short_phase2: self.clock / 2 % 2 == 1 }
    }

    /// Write bits 26:27 as INFO0a lays them out.
    pub fn set_pcm_flags(&mut self, flags: PcmFlags)
        ensures
            *final(self) == old(self).with_flags(flags),
    {
        self.clock = (if flags.v92 { 1 } else { 0 }) + (if flags.short_phase2 { 2 } else { 0 });
    }

    /// The flags written where INFO0a has them, over the clock.
    pub open spec fn with_flags(self, flags: PcmFlags) -> Info0 {
        Info0 {
            clock: ((if flags.v92 { 1int } else { 0 }) + (if flags.short_phase2 { 2int } else { 0 })) as u8,
            ..self
        }
    }

    pub fn to_bits(&self) -> (bits: Vec<bool>)
        ensures
            bits@ == framed(self.info()),
    {
        let info = self.information();
        frame(info.as_slice())
    }

    /// Bits 12 to 28.
    fn information(&self) -> (info: Vec<bool>)
        ensures
            info@ == self.info(),
    {
        let mut info: Vec<bool> = vec![
            self.rate_2743,
            self.rate_2800,
            self.rate_3429,
            self.low_carrier_3000,
            self.high_carrier_3000,
            self.low_carrier_3200,
            self.high_carrier_3200,
            self.transmit_3429,
            self.can_reduce_power,
        ];
        let ghost flags = info@;
        put(&mut info, self.asymmetry as u32, 3);
        info.push(self.cme);
        info.push(self.constellation_1664);
        assert(info@ =~= flags + lsb(self.asymmetry as nat, 3) + seq![
            self.cme,
            self.constellation_1664,
        ]);
        put(&mut info, self.clock as u32, 2);
        info.push(self.acknowledge);
        proof {
            reveal(Info0::info);
        }
        assert(info@ =~= self.info());
        info
    }

    pub fn from_bits(bits: &[bool]) -> (info: Option<Info0>)
        ensures
            info == match unframed(bits@, 49) {
                Some(said) => Some(Info0::of_info(said)),
                None => None,
            },
    {
        match unframe(bits, INFO0_BITS) {
            Some(info) => Some(Info0::read(info)),
            None => None,
        }
    }

    fn read(info: &[bool]) -> (said: Info0)
        requires
            info@.len() >= 17,
        ensures
            said == Info0::of_info(info@),
    {
        let asymmetry: u32 = get(info, 9, 3);
        let clock: u32 = get(info, 14, 2);
        proof {
            lemma2_to64();
        }
        Info0 {
            rate_2743: info[0],
            rate_2800: info[1],
            rate_3429: info[2],
            low_carrier_3000: info[3],
            high_carrier_3000: info[4],
            low_carrier_3200: info[5],
            high_carrier_3200: info[6],
            transmit_3429: info[7],
            can_reduce_power: info[8],
            asymmetry: asymmetry as u8,
            cme: info[12],
            constellation_1664: info[13],
            clock: clock as u8,
            acknowledge: info[16],
        }
    }
}

/// An INFO0 gives back what was put in it.
pub proof fn info0_comes_back(sent: Info0)
    requires
        sent.fits(),
    ensures
        unframed(framed(sent.info()), 49) == Some(sent.info()),
        Info0::of_info(sent.info()) == sent,
{
    lemma_info0(sent);
    framing_is_undone(sent.info());
}

proof fn lemma_info0(sent: Info0)
    requires
        sent.fits(),
    ensures
        sent.info().len() == 17,
        Info0::of_info(sent.info()) == sent,
{
    lemma_width(2);
    lemma_width(3);
    let flags = sent.flags();
    let rates = flags + lsb(sent.asymmetry as nat, 3);
    let points = rates + seq![sent.cme, sent.constellation_1664];
    let clock = points + lsb(sent.clock as nat, 2);
    lemma_append_number(flags, sent.asymmetry as nat, 3);
    lemma_append(rates, seq![sent.cme, sent.constellation_1664]);
    lemma_append_number(points, sent.clock as nat, 2);
    lemma_append(clock, seq![sent.acknowledge]);
    reveal(Info0::info);
}

/// Seventeen bits read as an INFO0 are the bits it is sent as.
pub proof fn info0_keeps_what_it_heard(heard: Seq<bool>)
    requires
        heard.len() == 17,
    ensures
        Info0::of_info(heard).fits(),
        Info0::of_info(heard).info() == heard,
{
    lemma_width(2);
    lemma_width(3);
    lemma_read_field(heard, 9, 3);
    lemma_read_field(heard, 14, 2);
    let read = Info0::of_info(heard);
    reveal(Info0::info);
    assert(read.info() =~= heard);
}

pub proof fn lemma_width(width: nat)
    requires
        width <= 10,
    ensures
        width == 2 ==> pow2(width) == 4,
        width == 3 ==> pow2(width) == 8,
        width == 4 ==> pow2(width) == 16,
        width == 5 ==> pow2(width) == 32,
        width == 7 ==> pow2(width) == 128,
        width == 10 ==> pow2(width) == 1024,
{
    lemma2_to64();
}

/// What a field can hold, and that it is sent as it was read.
pub proof fn lemma_read_field(info: Seq<bool>, from: int, width: nat)
    requires
        0 <= from,
        from + width <= info.len(),
    ensures
        number(info.subrange(from, from + width)) < pow2(width),
        lsb(number(info.subrange(from, from + width)), width) == info.subrange(from, from + width),
{
    lemma_number_bound(info.subrange(from, from + width));
    lemma_lsb_of_number(info.subrange(from, from + width));
}

/// A V.90 digital modem's capabilities.
///
/// Bits 12 to 28 are INFO0a's. What follows is what only a modem on a digital
/// network can say: how loud it will be, where that is measured, and which
/// companding law its network uses.
#[derive(Debug, Clone, Copy, PartialEq, Eq, Structural)]
pub struct Info0d {
    /// Bits 12:28, laid out as INFO0a's.
    ///
    /// Bits 26:27 are V.92's two flags, in the opposite order to INFO0a. They
    /// travel above V.34's own two bits inside `Info0::clock` and are read and
    /// written through `pcm_flags` and `set_pcm_flags`, never as a clock. A
    /// transmit clock left in this `Info0` goes nowhere.
    pub v34: Info0,
    /// Bits 29:32: nominal transmit power for phase 2, in -1 dBm0 steps from
    /// -6 dBm0.
    pub nominal_power: u8,
    /// Bits 33:37: maximum transmit power, in -0.5 dBm0 steps from -0.5 dBm0.
    pub max_power: u8,
    /// Bit 38: the power is measured at the output of the codec rather than at
    /// the digital modem's terminals.
    pub power_at_codec: bool,
    /// Bit 39: A-law rather than mu-law.
    pub a_law: bool,
    /// Bit 40: V.90 with an upstream symbol rate of 3429.
    pub upstream_3429: bool,
}

impl Default for Info0d {
    fn default() -> (info: Info0d)
        ensures
            info == (Info0d {
                v34: Info0::nothing(),
                nominal_power: 0,
                max_power: 0,
                power_at_codec: false,
                a_law: false,
                upstream_3429: false,
            }),
    {
        Info0d {
            v34: Info0::default(),
            nominal_power: 0,
            max_power: 0,
            power_at_codec: false,
            a_law: false,
            upstream_3429: false,
        }
    }
}

impl Info0d {
    /// Every field fits the bits it is sent in, and there is no clock where
    /// this layout has none.
    pub open spec fn fits(self) -> bool {
        &&& self.v34.asymmetry < 8
        &&& self.v34.clock < 16
        &&& self.v34.clock % 4 == 0
        &&& self.nominal_power < 16
        &&& self.max_power < 32
    }

    /// Bits 12:28: INFO0a's, but for the two bits this layout does not share.
    pub open spec fn shared(self) -> Info0 {
        Info0 { clock: self.v34.clock / 4, ..self.v34 }
    }

    /// The information bits, 12 to 41. The last is reserved.
    pub open spec fn info(self) -> Seq<bool> {
        self.shared().info() + lsb(self.nominal_power as nat, 4) + lsb(self.max_power as nat, 5)
            + seq![self.power_at_codec, self.a_law, self.upstream_3429, false]
    }

    /// What the information bits say.
    pub open spec fn of_info(info: Seq<bool>) -> Info0d {
        let shared = Info0::of_info(info);
        Info0d {
            v34: Info0 { clock: (4 * shared.clock) as u8, ..shared },
            nominal_power: number(info.subrange(17, 21)) as u8,
            max_power: number(info.subrange(21, 26)) as u8,
            power_at_codec: info[26],
            a_law: info[27],
            upstream_3429: info[28],
        }
    }

    /// The two flags, as this layout carries them.
    pub open spec fn flags(self) -> PcmFlags {
        PcmFlags {
            short_phase2: self.v34.clock / 4 % 2 == 1,
            v92: self.v34.clock / 8 % 2 == 1,
        }
    }

    /// The flags written where this layout carries them.
    pub open spec fn with_flags(self, flags: PcmFlags) -> Info0d {
        Info0d {
            v34: Info0 {
                clock: (self.v34.clock % 4 + (if flags.short_phase2 { 4int } else { 0 }) + (
                if flags.v92 { 8int } else { 0 })) as u8,
                ..self.v34
            },
            ..self
        }
    }

    /// Bits 26:27 as INFO0d lays them out: bit 26 is the short phase 2 request
    /// and bit 27 the V.92 capability, the other way round from INFO0a.
    pub fn pcm_flags(&self) -> (flags: PcmFlags)
        ensures
            flags == self.flags(),
    {
        PcmFlags {
            short_phase2: self.v34.clock / 4 % 2 == 1,
            v92: self.v34.clock / 8 % 2 == 1,
        }
    }

    /// Write bits 26:27 as INFO0d lays them out.
    pub fn set_pcm_flags(&mut self, flags: PcmFlags)
        ensures
            *final(self) == old(self).with_flags(flags),
    {
        let v34: u8 = self.v34.clock % 4;
        self.v34.clock = v34 + (if flags.short_phase2 { 4 } else { 0 }) + (if flags.v92 {
            8
        } else {
            0
        });
    }

    /// Bits 29:32 as a level, in tenths of a dBm0.
    pub fn nominal_dbm0(&self) -> (tenths: i32)
        ensures
            tenths == -60 - 10 * self.nominal_power,
    {
        -60 - 10 * (self.nominal_power as i32)
    }

    /// Bits 33:37 as a level, in tenths of a dBm0.
    pub fn max_dbm0(&self) -> (tenths: i32)
        ensures
            tenths == -5 * (self.max_power + 1),
    {
        -5 * (self.max_power as i32 + 1)
    }

    pub fn to_bits(&self) -> (bits: Vec<bool>)
        ensures
            bits@ == framed(self.info()),
    {
        let info = self.information();
        frame(info.as_slice())
    }

    /// Bits 12 to 41. The first seventeen are INFO0a's own encoding, so the two
    /// layouts cannot drift apart -- all but the clock, which is left behind
    /// here.
    fn information(&self) -> (info: Vec<bool>)
        ensures
            info@ == self.info(),
    {
        let shared = Info0 { clock: self.v34.clock / 4, ..self.v34 };
        assert(shared == self.shared());
        let mut info = shared.information();
        put(&mut info, self.nominal_power as u32, 4);
        put(&mut info, self.max_power as u32, 5);
        let tail = [self.power_at_codec, self.a_law, self.upstream_3429, false];
        info.extend_from_slice(&tail);
        assert(tail@ =~= seq![self.power_at_codec, self.a_law, self.upstream_3429, false]);
        info
    }

    pub fn from_bits(bits: &[bool]) -> (info: Option<Info0d>)
        ensures
            info == match unframed(bits@, 62) {
                Some(said) => Some(Info0d::of_info(said)),
                None => None,
            },
    {
        let info = match unframe(bits, INFO0D_BITS) {
            Some(info) => info,
            None => return None,
        };
        let shared = Info0::read(info);
        let nominal_power: u32 = get(info, 17, 4);
        let max_power: u32 = get(info, 21, 5);
        proof {
            lemma_width(2);
            lemma_width(4);
            lemma_width(5);
            lemma_read_field(info@, 14, 2);
        }
        Some(
            Info0d {
                v34: Info0 { clock: 4 * shared.clock, ..shared },
                nominal_power: nominal_power as u8,
                max_power: max_power as u8,
                power_at_codec: info[26],
                a_law: info[27],
                upstream_3429: info[28],
            },
        )
    }
}

/// An INFO0d gives back what was put in it.
pub proof fn info0d_comes_back(sent: Info0d)
    requires
        sent.fits(),
    ensures
        unframed(framed(sent.info()), 62) == Some(sent.info()),
        Info0d::of_info(sent.info()) == sent,
{
    lemma_info0d(sent);
    framing_is_undone(sent.info());
}

proof fn lemma_info0d(sent: Info0d)
    requires
        sent.fits(),
    ensures
        sent.info().len() == 30,
        Info0d::of_info(sent.info()) == sent,
{
    lemma_width(4);
    lemma_width(5);
    lemma_info0(sent.shared());
    let s1 = sent.shared().info();
    let s2 = s1 + lsb(sent.nominal_power as nat, 4);
    let s3 = s2 + lsb(sent.max_power as nat, 5);
    let tail = seq![sent.power_at_codec, sent.a_law, sent.upstream_3429, false];
    lemma_append_number(s1, sent.nominal_power as nat, 4);
    lemma_append_number(s2, sent.max_power as nat, 5);
    lemma_append(s3, tail);
    let info = sent.info();
    assert(info == s3 + tail);
    assert(info.subrange(9, 12) == s1.subrange(9, 12));
    assert(info.subrange(14, 16) == s1.subrange(14, 16));
    assert(info.subrange(17, 21) == s2.subrange(17, 21));
    assert(info.subrange(21, 26) == s3.subrange(21, 26));
    assert(forall|i: int| 0 <= i < 17 ==> info[i] == s1[i]);
}

/// A transmit clock never reaches an INFO0d: whatever V.34's two bits of the
/// clock field hold, the bits that go out are the same, and without V.92's
/// flags the two positions go out as zeros.
pub proof fn a_clock_never_reaches_an_info0d(sent: Info0d, clock: u8)
    requires
        clock < 4,
    ensures
        (Info0d {
            v34: Info0 { clock: (sent.v34.clock / 4 * 4 + clock) as u8, ..sent.v34 },
            ..sent
        }).info() == sent.info(),
        sent.v34.clock < 4 ==> !sent.flags().v92 && !sent.flags().short_phase2,
{
    let other = Info0d {
        v34: Info0 { clock: (sent.v34.clock / 4 * 4 + clock) as u8, ..sent.v34 },
        ..sent
    };
    assert(other.shared() == sent.shared());
}

/// The flags written into a sequence are the flags read from it, in either
/// layout, and nothing else is disturbed.
pub proof fn flags_come_back(a: Info0, d: Info0d, flags: PcmFlags)
    ensures
        a.with_flags(flags).clock % 2 == 1 <==> flags.v92,
        a.with_flags(flags).clock / 2 % 2 == 1 <==> flags.short_phase2,
        a.with_flags(flags).clock < 4,
        d.with_flags(flags).flags() == flags,
        d.with_flags(flags).v34.clock < 16,
        d.with_flags(flags).v34.clock % 4 == d.v34.clock % 4,
{
}

/// Any of them, as a receiver hands it over.
#[derive(Debug, Clone, Copy, PartialEq, Eq)]
pub enum Info {
    Info0(Info0),
    /// INFO1c, and V.90's INFO1d, which is the same sequence.
    Info1c(Info1c),
    Info1a(Info1a),
    /// V.90's digital modem's INFO0.
    Info0d(Info0d),
    /// V.90's INFO1a, asking for phase 3 of V.90.
    Info1aPcm(Info1aPcm),
    /// V.92's INFO1a asking for PCM upstream.
    Info1aPcmUp(Info1aPcmUp),
    /// V.92's INFO1a asking for V.90 data mode on a named upstream carrier.
    /// Heard only by a receiver in a short phase 2.
    Info1aV34Up(Info1aV34Up),
    /// A modem-on-hold sequence, heard only by a receiver asked for them.
    Mh(Mh),
}

} // verus!
