//! INFO1c and the layouts of INFO1a: what the probing found, and what the two
//! ends will use.
use crate::bits::{get, lemma_append, lemma_append_number, lemma_lsb_len, lsb, number, put};
use crate::v34::info::{
    frame, framed, framing_is_undone, lemma_width, rate_numbered, rates_and_numbers_agree, unframe,
    unframed, SymbolRate, INFO1A_BITS, INFO1C_BITS, PCM_SYMBOL_RATE, UINFO_HIGHEST, UINFO_LOWEST,
};
use vstd::prelude::*;

verus! {

/// The frequency offset a ten-bit field holds, in steps of 0.02 Hz. The field
/// is two's complement, and -512 means that it is to be ignored.
pub open spec fn offset_of(raw: nat) -> Option<i16> {
    if raw == 512 {
        None
    } else if raw >= 512 {
        Some((raw - 1024) as i16)
    } else {
        Some(raw as i16)
    }
}

/// How a frequency offset is sent: the nearest one the field can hold.
pub open spec fn offset_field(steps: Option<i16>) -> nat {
    match steps {
        None => 512,
        Some(steps) => if steps < -511 {
            513
        } else if steps < 0 {
            (1024 + steps) as nat
        } else if steps <= 511 {
            steps as nat
        } else {
            511
        },
    }
}

/// A frequency offset out of its field.
pub fn offset_from(raw: u32) -> (steps: Option<i16>)
    requires
        raw < 1024,
    ensures
        steps == offset_of(raw as nat),
{
    if raw == 512 {
        None
    } else if raw > 512 {
        Some(raw as i16 - 1024)
    } else {
        Some(raw as i16)
    }
}

/// A frequency offset into its field.
pub fn offset_to(steps: Option<i16>) -> (raw: u32)
    ensures
        raw == offset_field(steps),
        raw < 1024,
{
    match steps {
        None => 512,
        Some(steps) => if steps < -511 {
            513
        } else if steps < 0 {
            (1024 + steps) as u32
        } else if steps <= 511 {
            steps as u32
        } else {
            511
        },
    }
}

/// An offset the field can hold comes back from it.
pub proof fn offsets_come_back(steps: Option<i16>, raw: nat)
    requires
        steps matches Some(s) ==> -511 <= s <= 511,
        raw < 1024,
    ensures
        offset_of(offset_field(steps)) == steps,
        offset_field(offset_of(raw)) == raw,
        offset_of(raw) matches Some(s) ==> -511 <= s <= 511,
{
}

/// What the call modem found for one symbol rate.
#[derive(Debug, Clone, Copy, PartialEq, Eq, Structural)]
pub struct Probed {
    /// The high carrier, from the answer modem to the call modem.
    pub high_carrier: bool,
    /// Pre-emphasis filter index, 0 to 10.
    pub pre_emphasis: u8,
    /// Projected maximum data rate as a multiple of 2400 bit/s, 0 to 14. Zero
    /// says the symbol rate cannot be used.
    pub max_rate: u8,
}

impl Default for Probed {
    fn default() -> (probed: Probed)
        ensures
            probed == Probed::nothing(),
    {
        Probed { high_carrier: false, pre_emphasis: 0, max_rate: 0 }
    }
}

impl Probed {
    /// A symbol rate that cannot be used.
    pub open spec fn nothing() -> Probed {
        Probed { high_carrier: false, pre_emphasis: 0, max_rate: 0 }
    }

    /// Both numbers fit the four bits each is sent in.
    pub open spec fn fits(self) -> bool {
        self.pre_emphasis < 16 && self.max_rate < 16
    }

    /// Nine bits: the carrier, the filter and the rate.
    pub open spec fn info(self) -> Seq<bool> {
        seq![self.high_carrier] + lsb(self.pre_emphasis as nat, 4) + lsb(self.max_rate as nat, 4)
    }

    /// What nine bits say.
    pub open spec fn of_info(info: Seq<bool>) -> Probed {
        Probed {
            high_carrier: info[0],
            pre_emphasis: number(info.subrange(1, 5)) as u8,
            max_rate: number(info.subrange(5, 9)) as u8,
        }
    }

    fn put(&self, info: &mut Vec<bool>)
        ensures
            final(info)@ == old(info)@ + self.info(),
    {
        let ghost before = info@;
        info.push(self.high_carrier);
        put(info, self.pre_emphasis as u32, 4);
        put(info, self.max_rate as u32, 4);
        assert(info@ =~= before + self.info());
    }

    fn get(info: &[bool], from: usize) -> (probed: Probed)
        requires
            from + 9 <= info@.len(),
        ensures
            probed == Probed::of_info(info@.subrange(from as int, from + 9)),
    {
        assert(from + 9 <= info.len());
        let pre_emphasis: u32 = get(info, from + 1, 4);
        let max_rate: u32 = get(info, from + 5, 4);
        proof {
            lemma_width(4);
            let nine = info@.subrange(from as int, from + 9);
            assert(nine.subrange(1, 5) =~= info@.subrange(from + 1, from + 5));
            assert(nine.subrange(5, 9) =~= info@.subrange(from + 5, from + 9));
        }
        Probed {
            high_carrier: info[from],
            pre_emphasis: pre_emphasis as u8,
            max_rate: max_rate as u8,
        }
    }
}

proof fn lemma_probed(sent: Probed)
    requires
        sent.fits(),
    ensures
        sent.info().len() == 9,
        Probed::of_info(sent.info()) == sent,
{
    lemma_width(4);
    let first = seq![sent.high_carrier];
    lemma_append_number(first, sent.pre_emphasis as nat, 4);
    lemma_append_number(first + lsb(sent.pre_emphasis as nat, 4), sent.max_rate as nat, 4);
}

/// The call modem's results of probing the line from the answer modem.
#[derive(Debug, Clone, Copy, PartialEq, Eq)]
pub struct Info1c {
    /// Bits 12:14: power reduction the answer modem's transmitter is to make,
    /// in dB.
    pub min_power_reduction: u8,
    /// Bits 15:17: further reduction the call modem's receiver can tolerate.
    pub additional_power_reduction: u8,
    /// Bits 18:24: length of the call modem's MD in phase 3, in 35 ms steps.
    pub md_length: u8,
    /// Bits 25:78: for each symbol rate, 2400 to 3429.
    pub probed: [Probed; 6],
    /// Bits 79:88: the 1050 Hz probing tone's offset as received, in steps of
    /// 0.02 Hz, or none.
    pub frequency_offset: Option<i16>,
}

/// What the digital modem's probe found at 3429, as V.92 reads bits 71:78 of
/// an INFO1d: no carrier bit, which is the PCM upstream flag there.
#[derive(Debug, Clone, Copy, PartialEq, Eq, Structural)]
pub struct Probed3429 {
    /// Bits 71:74: pre-emphasis filter index, 0 to 10.
    pub pre_emphasis: u8,
    /// Bits 75:78: projected maximum data rate as a multiple of 2400 bit/s.
    pub max_rate: u8,
}

/// The results for each symbol rate, one after another.
pub open spec fn probed_info(probed: Seq<Probed>) -> Seq<bool>
    decreases probed.len(),
{
    if probed.len() == 0 {
        Seq::empty()
    } else {
        probed_info(probed.drop_last()) + probed.last().info()
    }
}

proof fn lemma_probed_info(probed: Seq<Probed>)
    requires
        forall|i: int| 0 <= i < probed.len() ==> (#[trigger] probed[i]).fits(),
    ensures
        probed_info(probed).len() == 9 * probed.len(),
        forall|i: int|
            0 <= i < probed.len() ==> Probed::of_info(
                #[trigger] probed_info(probed).subrange(9 * i, 9 * i + 9),
            ) == probed[i],
    decreases probed.len(),
{
    if probed.len() > 0 {
        let before = probed.drop_last();
        lemma_probed_info(before);
        lemma_probed(probed.last());
        lemma_append(probed_info(before), probed.last().info());
        assert forall|i: int| 0 <= i < probed.len() implies Probed::of_info(
            #[trigger] probed_info(probed).subrange(9 * i, 9 * i + 9),
        ) == probed[i] by {
            if i < before.len() {
                assert(probed_info(probed).subrange(9 * i, 9 * i + 9) == probed_info(
                    before,
                ).subrange(9 * i, 9 * i + 9));
            }
        }
    }
}

impl Default for Info1c {
    fn default() -> (info: Info1c)
        ensures
            info.min_power_reduction == 0,
            info.additional_power_reduction == 0,
            info.md_length == 0,
            forall|i: int| 0 <= i < 6 ==> #[trigger] info.probed[i] == Probed::nothing(),
            info.frequency_offset is None,
    {
        let none = Probed { high_carrier: false, pre_emphasis: 0, max_rate: 0 };
        Info1c {
            min_power_reduction: 0,
            additional_power_reduction: 0,
            md_length: 0,
            probed: [none, none, none, none, none, none],
            frequency_offset: None,
        }
    }
}

impl Info1c {
    /// Every field fits the bits it is sent in.
    pub open spec fn fits(self) -> bool {
        &&& self.min_power_reduction < 8
        &&& self.additional_power_reduction < 8
        &&& self.md_length < 128
        &&& forall|i: int| 0 <= i < 6 ==> (#[trigger] self.probed[i]).fits()
        &&& self.frequency_offset matches Some(steps) ==> -511 <= steps <= 511
    }

    /// Bits 12:24, before the results.
    pub open spec fn head(self) -> Seq<bool> {
        lsb(self.min_power_reduction as nat, 3) + lsb(self.additional_power_reduction as nat, 3)
            + lsb(self.md_length as nat, 7)
    }

    /// The information bits, 12 to 88.
    pub open spec fn info(self) -> Seq<bool> {
        self.head() + probed_info(self.probed@) + lsb(offset_field(self.frequency_offset), 10)
    }

    /// Whether this is what the information bits say.
    pub open spec fn reads(self, info: Seq<bool>) -> bool {
        &&& self.min_power_reduction as nat == number(info.subrange(0, 3))
        &&& self.additional_power_reduction as nat == number(info.subrange(3, 6))
        &&& self.md_length as nat == number(info.subrange(6, 13))
        &&& forall|i: int|
            0 <= i < 6 ==> #[trigger] self.probed[i] == Probed::of_info(
                info.subrange(13 + 9 * i, 22 + 9 * i),
            )
        &&& self.frequency_offset == offset_of(number(info.subrange(67, 77)))
    }

    /// What the information bits say.
    pub open spec fn of_info(info: Seq<bool>) -> Info1c {
        choose|said: Info1c| said.reads(info)
    }

    /// Bit 70 of an INFO1d as V.92 reads it: whether the channel supports PCM
    /// upstream. Only worth reading when both modems have shown V.92
    /// capability; in V.90 the same bit is the 3429 high-carrier flag.
    pub fn pcm_upstream(&self) -> (supported: bool)
        ensures
            supported == self.probed[5].high_carrier,
    {
        self.probed[5].high_carrier
    }

    /// Write bit 70 as V.92's digital modem writes it.
    pub fn set_pcm_upstream(&mut self, supported: bool)
        ensures
            final(self).probed@ == old(self).probed@.update(
                5,
                (Probed { high_carrier: supported, ..old(self).probed[5] }),
            ),
            *final(self) == (Info1c { probed: final(self).probed, ..*old(self) }),
    {
        let slot = self.probed[5];
        self.probed[5] = Probed {
            high_carrier: supported,
            pre_emphasis: slot.pre_emphasis,
            max_rate: slot.max_rate,
        };
    }

    /// Bits 71:78: the 3429 probing result, with no carrier bit in front of
    /// it, which is how V.92 reads that field.
    pub fn probed_3429(&self) -> (probed: Probed3429)
        ensures
            probed.pre_emphasis == self.probed[5].pre_emphasis,
            probed.max_rate == self.probed[5].max_rate,
    {
        Probed3429 {
            pre_emphasis: self.probed[5].pre_emphasis,
            max_rate: self.probed[5].max_rate,
        }
    }

    pub fn to_bits(&self) -> (bits: Vec<bool>)
        ensures
            bits@ == framed(self.info()),
    {
        let mut info: Vec<bool> = Vec::new();
        put(&mut info, self.min_power_reduction as u32, 3);
        put(&mut info, self.additional_power_reduction as u32, 3);
        put(&mut info, self.md_length as u32, 7);
        assert(info@ =~= self.head());
        let mut i: usize = 0;
        assert(info@ =~= self.head() + probed_info(self.probed@.take(0)));
        while i < 6
            invariant
                i <= 6,
                info@ == self.head() + probed_info(self.probed@.take(i as int)),
            decreases 6 - i,
        {
            self.probed[i].put(&mut info);
            i = i + 1;
            proof {
                let done = self.probed@.take(i as int);
                assert(done.drop_last() =~= self.probed@.take(i - 1));
                assert(info@ =~= self.head() + probed_info(done));
            }
        }
        assert(self.probed@.take(6) =~= self.probed@);
        put(&mut info, offset_to(self.frequency_offset), 10);
        frame(info.as_slice())
    }

    pub fn from_bits(bits: &[bool]) -> (info: Option<Info1c>)
        ensures
            info == match unframed(bits@, 109) {
                Some(said) => Some(Info1c::of_info(said)),
                None => None,
            },
    {
        let info = match unframe(bits, INFO1C_BITS) {
            Some(info) => info,
            None => return None,
        };
        let min_power_reduction: u32 = get(info, 0, 3);
        let additional_power_reduction: u32 = get(info, 3, 3);
        let md_length: u32 = get(info, 6, 7);
        let raw: u32 = get(info, 67, 10);
        proof {
            lemma_width(3);
            lemma_width(7);
            lemma_width(10);
        }
        let read = Info1c {
            min_power_reduction: min_power_reduction as u8,
            additional_power_reduction: additional_power_reduction as u8,
            md_length: md_length as u8,
            probed: [
                Probed::get(info, 13),
                Probed::get(info, 22),
                Probed::get(info, 31),
                Probed::get(info, 40),
                Probed::get(info, 49),
                Probed::get(info, 58),
            ],
            frequency_offset: offset_from(raw),
        };
        proof {
            lemma_reads(read, info@);
        }
        Some(read)
    }
}

/// The information bits say one thing only.
pub proof fn lemma_reads(said: Info1c, info: Seq<bool>)
    requires
        said.reads(info),
    ensures
        Info1c::of_info(info) == said,
{
    let read = Info1c::of_info(info);
    assert(read.reads(info));
    assert forall|i: int| 0 <= i < 6 implies read.probed@[i] == said.probed@[i] by {
        assert(read.probed[i] == said.probed[i]);
    }
    assert(read.probed =~= said.probed);
}

/// An INFO1c gives back what was put in it.
pub proof fn info1c_comes_back(sent: Info1c)
    requires
        sent.fits(),
    ensures
        unframed(framed(sent.info()), 109) == Some(sent.info()),
        Info1c::of_info(sent.info()) == sent,
{
    lemma_info1c(sent);
    lemma_reads(sent, sent.info());
    framing_is_undone(sent.info());
}

pub proof fn lemma_info1c(sent: Info1c)
    requires
        sent.fits(),
    ensures
        sent.info().len() == 77,
        sent.reads(sent.info()),
{
    lemma_width(3);
    lemma_width(7);
    lemma_width(10);
    let first = lsb(sent.min_power_reduction as nat, 3);
    let second = first + lsb(sent.additional_power_reduction as nat, 3);
    let head = second + lsb(sent.md_length as nat, 7);
    let results = probed_info(sent.probed@);
    let raw = offset_field(sent.frequency_offset);
    assert(Seq::<bool>::empty() + first =~= first);
    lemma_append_number(Seq::empty(), sent.min_power_reduction as nat, 3);
    lemma_append_number(first, sent.additional_power_reduction as nat, 3);
    lemma_append_number(second, sent.md_length as nat, 7);
    lemma_probed_info(sent.probed@);
    lemma_append(head, results);
    lemma_append_number(head + results, raw, 10);
    offsets_come_back(sent.frequency_offset, raw);
    let info = sent.info();
    assert(info.subrange(0, 3) == first.subrange(0, 3));
    assert(info.subrange(3, 6) == second.subrange(3, 6));
    assert(info.subrange(6, 13) == head.subrange(6, 13));
    assert forall|i: int| 0 <= i < 6 implies #[trigger] sent.probed[i] == Probed::of_info(
        info.subrange(13 + 9 * i, 22 + 9 * i),
    ) by {
        assert(info.subrange(13 + 9 * i, 22 + 9 * i) == (head + results).subrange(
            13 + 9 * i,
            22 + 9 * i,
        ));
        assert((head + results).subrange(13 + 9 * i, 22 + 9 * i) =~= results.subrange(
            9 * i,
            9 * i + 9,
        ));
        assert(sent.probed@[i] == sent.probed[i]);
    }
}

/// What the answer modem has settled for both directions.
#[derive(Debug, Clone, Copy, PartialEq, Eq, Structural)]
pub struct Info1a {
    /// Bits 12:14 and 15:17: the call modem's transmit power reduction, and
    /// what the answer modem's receiver could stand on top of it.
    pub min_power_reduction: u8,
    pub additional_power_reduction: u8,
    /// Bits 18:24: length of the answer modem's MD in phase 3, in 35 ms steps.
    pub md_length: u8,
    /// Bits 25, 26:29 and 30:33: carrier, pre-emphasis and projected rate from
    /// the call modem to the answer modem.
    pub probed: Probed,
    /// Bits 34:36: the symbol rate from the answer modem to the call modem.
    pub answer_to_call: SymbolRate,
    /// Bits 37:39: the symbol rate from the call modem to the answer modem.
    pub call_to_answer: SymbolRate,
    /// Bits 40:49: the 1050 Hz probing tone's offset as received, in steps of
    /// 0.02 Hz, or none.
    pub frequency_offset: Option<i16>,
}

impl Info1a {
    /// Every field fits the bits it is sent in.
    pub open spec fn fits(self) -> bool {
        &&& self.min_power_reduction < 8
        &&& self.additional_power_reduction < 8
        &&& self.md_length < 128
        &&& self.probed.fits()
        &&& self.frequency_offset matches Some(steps) ==> -511 <= steps <= 511
    }

    /// The information bits, 12 to 49.
    pub open spec fn info(self) -> Seq<bool> {
        lsb(self.min_power_reduction as nat, 3) + lsb(self.additional_power_reduction as nat, 3)
            + lsb(self.md_length as nat, 7) + self.probed.info() + lsb(
            self.answer_to_call.numbered(),
            3,
        ) + lsb(self.call_to_answer.numbered(), 3) + lsb(offset_field(self.frequency_offset), 10)
    }

    /// What the information bits say, where both their numbers name a symbol
    /// rate of V.34's.
    pub open spec fn of_info(info: Seq<bool>) -> Option<Info1a> {
        match (
            rate_numbered(number(info.subrange(22, 25))),
            rate_numbered(number(info.subrange(25, 28))),
        ) {
            (Some(answer_to_call), Some(call_to_answer)) => Some(
                Info1a {
                    min_power_reduction: number(info.subrange(0, 3)) as u8,
                    additional_power_reduction: number(info.subrange(3, 6)) as u8,
                    md_length: number(info.subrange(6, 13)) as u8,
                    probed: Probed::of_info(info.subrange(13, 22)),
                    answer_to_call,
                    call_to_answer,
                    frequency_offset: offset_of(number(info.subrange(28, 38))),
                },
            ),
            _ => None,
        }
    }

    pub fn to_bits(&self) -> (bits: Vec<bool>)
        ensures
            bits@ == framed(self.info()),
    {
        let mut info: Vec<bool> = Vec::new();
        put(&mut info, self.min_power_reduction as u32, 3);
        put(&mut info, self.additional_power_reduction as u32, 3);
        put(&mut info, self.md_length as u32, 7);
        self.probed.put(&mut info);
        put(&mut info, self.answer_to_call.index(), 3);
        put(&mut info, self.call_to_answer.index(), 3);
        put(&mut info, offset_to(self.frequency_offset), 10);
        assert(info@ =~= self.info()) by {
            assert(Seq::<bool>::empty() + lsb(self.min_power_reduction as nat, 3) =~= lsb(
                self.min_power_reduction as nat,
                3,
            ));
        }
        frame(info.as_slice())
    }

    pub fn from_bits(bits: &[bool]) -> (info: Option<Info1a>)
        ensures
            info == match unframed(bits@, 70) {
                Some(said) => Info1a::of_info(said),
                None => None,
            },
    {
        let info = match unframe(bits, INFO1A_BITS) {
            Some(info) => info,
            None => return None,
        };
        let min_power_reduction: u32 = get(info, 0, 3);
        let additional_power_reduction: u32 = get(info, 3, 3);
        let md_length: u32 = get(info, 6, 7);
        let raw: u32 = get(info, 28, 10);
        proof {
            lemma_width(3);
            lemma_width(7);
            lemma_width(10);
        }
        // Six and seven are not symbol rates. A sequence that checks and names
        // one is not one this can act on.
        match (SymbolRate::from_index(get(info, 22, 3)), SymbolRate::from_index(get(info, 25, 3))) {
            (Some(answer_to_call), Some(call_to_answer)) => Some(
                Info1a {
                    min_power_reduction: min_power_reduction as u8,
                    additional_power_reduction: additional_power_reduction as u8,
                    md_length: md_length as u8,
                    probed: Probed::get(info, 13),
                    answer_to_call,
                    call_to_answer,
                    frequency_offset: offset_from(raw),
                },
            ),
            _ => None,
        }
    }
}

/// An INFO1a gives back what was put in it.
pub proof fn info1a_comes_back(sent: Info1a)
    requires
        sent.fits(),
    ensures
        unframed(framed(sent.info()), 70) == Some(sent.info()),
        Info1a::of_info(sent.info()) == Some(sent),
{
    lemma_info1a(sent);
    framing_is_undone(sent.info());
}

proof fn lemma_info1a(sent: Info1a)
    requires
        sent.fits(),
    ensures
        sent.info().len() == 38,
        Info1a::of_info(sent.info()) == Some(sent),
{
    lemma_width(3);
    lemma_width(7);
    lemma_width(10);
    let s1 = lsb(sent.min_power_reduction as nat, 3);
    let s2 = s1 + lsb(sent.additional_power_reduction as nat, 3);
    let s3 = s2 + lsb(sent.md_length as nat, 7);
    let s4 = s3 + sent.probed.info();
    let s5 = s4 + lsb(sent.answer_to_call.numbered(), 3);
    let s6 = s5 + lsb(sent.call_to_answer.numbered(), 3);
    let raw = offset_field(sent.frequency_offset);
    assert(Seq::<bool>::empty() + s1 =~= s1);
    lemma_append_number(Seq::empty(), sent.min_power_reduction as nat, 3);
    lemma_append_number(s1, sent.additional_power_reduction as nat, 3);
    lemma_append_number(s2, sent.md_length as nat, 7);
    lemma_probed(sent.probed);
    lemma_append(s3, sent.probed.info());
    lemma_append_number(s4, sent.answer_to_call.numbered(), 3);
    lemma_append_number(s5, sent.call_to_answer.numbered(), 3);
    lemma_append_number(s6, raw, 10);
    offsets_come_back(sent.frequency_offset, raw);
    rates_and_numbers_agree(sent.answer_to_call, 0);
    rates_and_numbers_agree(sent.call_to_answer, 0);
    let info = sent.info();
    assert(info == s6 + lsb(raw, 10));
    assert(info.subrange(0, 3) == s1.subrange(0, 3));
    assert(info.subrange(3, 6) == s2.subrange(3, 6));
    assert(info.subrange(6, 13) == s3.subrange(6, 13));
    assert(info.subrange(13, 22) == s4.subrange(13, 22));
    assert(info.subrange(22, 25) == s5.subrange(22, 25));
    assert(info.subrange(25, 28) == s6.subrange(25, 28));
}

/// An INFO1a is as long as it should be, whatever its fields hold.
pub proof fn lemma_info1a_len(sent: Info1a)
    ensures
        sent.info().len() == 38,
{
    lemma_lsb_len(sent.min_power_reduction as nat, 3);
    lemma_lsb_len(sent.additional_power_reduction as nat, 3);
    lemma_lsb_len(sent.md_length as nat, 7);
    lemma_lsb_len(sent.probed.pre_emphasis as nat, 4);
    lemma_lsb_len(sent.probed.max_rate as nat, 4);
    lemma_lsb_len(sent.answer_to_call.numbered(), 3);
    lemma_lsb_len(sent.call_to_answer.numbered(), 3);
    lemma_lsb_len(offset_field(sent.frequency_offset), 10);
}

/// An INFO1c is as long as it should be, whatever its fields hold.
pub proof fn lemma_info1c_len(sent: Info1c)
    ensures
        sent.info().len() == 77,
{
    lemma_lsb_len(sent.min_power_reduction as nat, 3);
    lemma_lsb_len(sent.additional_power_reduction as nat, 3);
    lemma_lsb_len(sent.md_length as nat, 7);
    lemma_probed_info_len(sent.probed@);
    lemma_lsb_len(offset_field(sent.frequency_offset), 10);
}

proof fn lemma_probed_info_len(probed: Seq<Probed>)
    ensures
        probed_info(probed).len() == 9 * probed.len(),
    decreases probed.len(),
{
    if probed.len() > 0 {
        lemma_probed_info_len(probed.drop_last());
        lemma_lsb_len(probed.last().pre_emphasis as nat, 4);
        lemma_lsb_len(probed.last().max_rate as nat, 4);
    }
}

/// What the analogue modem asks the digital modem for before phase 3 of V.90.
///
/// Less than V.34's INFO1a, because there is less to settle. The digital
/// modem's symbol rate is 8000, fixed by the network, so what goes downstream
/// in its place is the one codeword the digital modem is to train with.
#[derive(Debug, Clone, Copy, PartialEq, Eq, Structural)]
pub struct Info1aPcm {
    /// Bits 18:24: the analogue modem's MD in phase 3, in 35 ms steps.
    pub md_length: u8,
    /// Bits 25:31: U_INFO, the Ucode of the codeword for the 2 point train.
    pub uinfo: u8,
    /// Bits 34:36: the upstream symbol rate, 3000 to 3429.
    pub upstream: SymbolRate,
    /// Bits 40:49: the 1050 Hz probing tone's offset as received, in steps of
    /// 0.02 Hz, or none.
    pub frequency_offset: Option<i16>,
}

impl Info1aPcm {
    /// Every field fits the bits it is sent in, and the upstream rate is one
    /// V.90 allows.
    pub open spec fn fits(self) -> bool {
        &&& self.md_length < 128
        &&& self.uinfo < 128
        &&& self.upstream.numbered() >= 3
        &&& self.frequency_offset matches Some(steps) ==> -511 <= steps <= 511
    }

    /// The information bits, 12 to 49. Bits 12:17 and 32:33 are reserved.
    pub open spec fn info(self) -> Seq<bool> {
        lsb(0, 6) + lsb(self.md_length as nat, 7) + lsb(self.uinfo as nat, 7) + lsb(0, 2) + lsb(
            self.upstream.numbered(),
            3,
        ) + lsb(6, 3) + lsb(offset_field(self.frequency_offset), 10)
    }

    /// What the information bits say, where they name 8000 downstream and 3000,
    /// 3200 or 3429 upstream.
    pub open spec fn of_info(info: Seq<bool>) -> Option<Info1aPcm> {
        let upstream = number(info.subrange(22, 25));
        if number(info.subrange(25, 28)) == 6 && 3 <= upstream <= 5 {
            Some(
                Info1aPcm {
                    md_length: number(info.subrange(6, 13)) as u8,
                    uinfo: number(info.subrange(13, 20)) as u8,
                    upstream: rate_numbered(upstream)->0,
                    frequency_offset: offset_of(number(info.subrange(28, 38))),
                },
            )
        } else {
            None
        }
    }

    pub fn to_bits(&self) -> (bits: Vec<bool>)
        ensures
            bits@ == framed(self.info()),
    {
        let info = self.information();
        frame(info.as_slice())
    }

    fn information(&self) -> (info: Vec<bool>)
        ensures
            info@ == self.info(),
    {
        let mut info: Vec<bool> = Vec::new();
        put(&mut info, 0, 6);
        put(&mut info, self.md_length as u32, 7);
        put(&mut info, self.uinfo as u32, 7);
        put(&mut info, 0, 2);
        put(&mut info, self.upstream.index(), 3);
        put(&mut info, PCM_SYMBOL_RATE, 3);
        put(&mut info, offset_to(self.frequency_offset), 10);
        assert(Seq::<bool>::empty() + lsb(0, 6) =~= lsb(0, 6));
        info
    }

    pub fn from_bits(bits: &[bool]) -> (info: Option<Info1aPcm>)
        ensures
            info == match unframed(bits@, 70) {
                Some(said) => Info1aPcm::of_info(said),
                None => None,
            },
    {
        match unframe(bits, INFO1A_BITS) {
            Some(info) => Info1aPcm::read(info),
            None => None,
        }
    }

    fn read(info: &[bool]) -> (said: Option<Info1aPcm>)
        requires
            info@.len() == 38,
        ensures
            said == Info1aPcm::of_info(info@),
    {
        if get(info, 25, 3) != PCM_SYMBOL_RATE {
            return None;
        }
        let index: u32 = get(info, 22, 3);
        let md_length: u32 = get(info, 6, 7);
        let uinfo: u32 = get(info, 13, 7);
        let raw: u32 = get(info, 28, 10);
        proof {
            lemma_width(7);
            lemma_width(10);
        }
        // 3000, 3200 and 3429 are the only upstream rates V.90 allows.
        if index < 3 {
            return None;
        }
        match SymbolRate::from_index(index) {
            Some(upstream) => Some(
                Info1aPcm {
                    md_length: md_length as u8,
                    uinfo: uinfo as u8,
                    upstream,
                    frequency_offset: offset_from(raw),
                },
            ),
            None => None,
        }
    }
}

/// A V.90 INFO1a gives back what was put in it.
pub proof fn info1a_pcm_comes_back(sent: Info1aPcm)
    requires
        sent.fits(),
    ensures
        unframed(framed(sent.info()), 70) == Some(sent.info()),
        Info1aPcm::of_info(sent.info()) == Some(sent),
{
    lemma_info1a_pcm(sent);
    framing_is_undone(sent.info());
}

proof fn lemma_info1a_pcm(sent: Info1aPcm)
    requires
        sent.fits(),
    ensures
        sent.info().len() == 38,
        Info1aPcm::of_info(sent.info()) == Some(sent),
{
    lemma_width(3);
    lemma_width(7);
    lemma_width(10);
    let s1 = lsb(0, 6);
    let s2 = s1 + lsb(sent.md_length as nat, 7);
    let s3 = s2 + lsb(sent.uinfo as nat, 7);
    let s4 = s3 + lsb(0, 2);
    let s5 = s4 + lsb(sent.upstream.numbered(), 3);
    let s6 = s5 + lsb(6, 3);
    let raw = offset_field(sent.frequency_offset);
    lemma_lsb_len(0, 6);
    lemma_append_number(s1, sent.md_length as nat, 7);
    lemma_append_number(s2, sent.uinfo as nat, 7);
    lemma_append_number(s3, 0, 2);
    lemma_append_number(s4, sent.upstream.numbered(), 3);
    lemma_append_number(s5, 6, 3);
    lemma_append_number(s6, raw, 10);
    offsets_come_back(sent.frequency_offset, raw);
    rates_and_numbers_agree(sent.upstream, 0);
    let info = sent.info();
    assert(info == s6 + lsb(raw, 10));
    assert(info.subrange(6, 13) == s2.subrange(6, 13));
    assert(info.subrange(13, 20) == s3.subrange(13, 20));
    assert(info.subrange(22, 25) == s5.subrange(22, 25));
    assert(info.subrange(25, 28) == s6.subrange(25, 28));
}

/// The analogue modem asking to send PCM as well as receive it.
///
/// Told from every other INFO1a by its two symbol rates: 8000 symbols a second
/// in both directions. What it carries besides is the shape of the precoder
/// and prefilter the digital modem may design.
#[derive(Debug, Clone, Copy, PartialEq, Eq, Structural)]
pub struct Info1aPcmUp {
    /// Bits 12:13: filter sections in precoder and prefilter. Bit 12 says z1 is
    /// supported and bit 13 says p2 is.
    pub sections: u8,
    /// Bits 14:15: the most coefficients in all sections together, in
    /// multiples of 64 starting at 192.
    pub ltot_code: u8,
    /// Bits 16:17: the most in any one section, in multiples of 64 starting at
    /// 128.
    pub lmax_code: u8,
    /// Bits 18:24: the analogue modem's MD in phase 3, in 276 symbol steps.
    pub md_length: u8,
    /// Bits 25:31: U_INFO, the Ucode of the codeword for the 2 point train,
    /// `UINFO_LOWEST` to `UINFO_HIGHEST`.
    pub uinfo: u8,
}

/// Nothing asked for, except the one field that has no harmless value: the
/// quietest codeword that may be named.
impl Default for Info1aPcmUp {
    fn default() -> (info: Info1aPcmUp)
        ensures
            info == (Info1aPcmUp {
                sections: 0,
                ltot_code: 0,
                lmax_code: 0,
                md_length: 0,
                uinfo: 67,
            }),
    {
        Info1aPcmUp { sections: 0, ltot_code: 0, lmax_code: 0, md_length: 0, uinfo: UINFO_LOWEST }
    }
}

impl Info1aPcmUp {
    /// Every field fits the bits it is sent in, and the codeword is one that
    /// may be sent.
    pub open spec fn fits(self) -> bool {
        &&& self.sections < 4
        &&& self.ltot_code < 4
        &&& self.lmax_code < 4
        &&& self.md_length < 128
        &&& 67 <= self.uinfo <= 111
    }

    /// The information bits, 12 to 49. Bits 32:33 are reserved as zeros, and
    /// bits 40:49 as ones, since ten zeros would be a tone.
    pub open spec fn info(self) -> Seq<bool> {
        lsb(self.sections as nat, 2) + lsb(self.ltot_code as nat, 2) + lsb(
            self.lmax_code as nat,
            2,
        ) + lsb(self.md_length as nat, 7) + lsb(self.uinfo as nat, 7) + lsb(0, 2) + lsb(6, 3)
            + lsb(6, 3) + lsb(0x3ff, 10)
    }

    /// What the information bits say, where they name 8000 both ways. The
    /// reserved bits are not looked at.
    pub open spec fn of_info(info: Seq<bool>) -> Option<Info1aPcmUp> {
        if number(info.subrange(22, 25)) == 6 && number(info.subrange(25, 28)) == 6 {
            Some(
                Info1aPcmUp {
                    sections: number(info.subrange(0, 2)) as u8,
                    ltot_code: number(info.subrange(2, 4)) as u8,
                    lmax_code: number(info.subrange(4, 6)) as u8,
                    md_length: number(info.subrange(6, 13)) as u8,
                    uinfo: number(info.subrange(13, 20)) as u8,
                },
            )
        } else {
            None
        }
    }

    /// Whether the U_INFO this names is one we may send.
    ///
    /// Only the end that chooses U_INFO is held to this. `from_bits` takes any
    /// value, because refusing a far end over a number we could merely not use
    /// would cost the whole call.
    pub fn uinfo_is_sendable(&self) -> (sendable: bool)
        ensures
            sendable == (67 <= self.uinfo <= 111),
    {
        UINFO_LOWEST <= self.uinfo && self.uinfo <= UINFO_HIGHEST
    }

    pub fn to_bits(&self) -> (bits: Vec<bool>)
        requires
            67 <= self.uinfo <= 111,
        ensures
            bits@ == framed(self.info()),
    {
        let mut info: Vec<bool> = Vec::new();
        put(&mut info, self.sections as u32, 2);
        put(&mut info, self.ltot_code as u32, 2);
        put(&mut info, self.lmax_code as u32, 2);
        put(&mut info, self.md_length as u32, 7);
        put(&mut info, self.uinfo as u32, 7);
        put(&mut info, 0, 2);
        put(&mut info, PCM_SYMBOL_RATE, 3);
        put(&mut info, PCM_SYMBOL_RATE, 3);
        put(&mut info, 0x3ff, 10);
        assert(Seq::<bool>::empty() + lsb(self.sections as nat, 2) =~= lsb(
            self.sections as nat,
            2,
        ));
        frame(info.as_slice())
    }

    pub fn from_bits(bits: &[bool]) -> (info: Option<Info1aPcmUp>)
        ensures
            info == match unframed(bits@, 70) {
                Some(said) => Info1aPcmUp::of_info(said),
                None => None,
            },
    {
        let info = match unframe(bits, INFO1A_BITS) {
            Some(info) => info,
            None => return None,
        };
        if get(info, 22, 3) != PCM_SYMBOL_RATE || get(info, 25, 3) != PCM_SYMBOL_RATE {
            return None;
        }
        let sections: u32 = get(info, 0, 2);
        let ltot_code: u32 = get(info, 2, 2);
        let lmax_code: u32 = get(info, 4, 2);
        let md_length: u32 = get(info, 6, 7);
        let uinfo: u32 = get(info, 13, 7);
        proof {
            lemma_width(2);
            lemma_width(7);
        }
        Some(
            Info1aPcmUp {
                sections: sections as u8,
                ltot_code: ltot_code as u8,
                lmax_code: lmax_code as u8,
                md_length: md_length as u8,
                uinfo: uinfo as u8,
            },
        )
    }
}

/// An INFO1a asking for PCM upstream gives back what was put in it.
pub proof fn info1a_pcm_up_comes_back(sent: Info1aPcmUp)
    requires
        sent.fits(),
    ensures
        unframed(framed(sent.info()), 70) == Some(sent.info()),
        Info1aPcmUp::of_info(sent.info()) == Some(sent),
{
    lemma_info1a_pcm_up(sent);
    framing_is_undone(sent.info());
}

proof fn lemma_info1a_pcm_up(sent: Info1aPcmUp)
    requires
        sent.fits(),
    ensures
        sent.info().len() == 38,
        Info1aPcmUp::of_info(sent.info()) == Some(sent),
{
    lemma_width(2);
    lemma_width(3);
    lemma_width(7);
    let s1 = lsb(sent.sections as nat, 2);
    let s2 = s1 + lsb(sent.ltot_code as nat, 2);
    let s3 = s2 + lsb(sent.lmax_code as nat, 2);
    let s4 = s3 + lsb(sent.md_length as nat, 7);
    let s5 = s4 + lsb(sent.uinfo as nat, 7);
    let s6 = s5 + lsb(0, 2);
    let s7 = s6 + lsb(6, 3);
    let s8 = s7 + lsb(6, 3);
    assert(Seq::<bool>::empty() + s1 =~= s1);
    lemma_append_number(Seq::empty(), sent.sections as nat, 2);
    lemma_append_number(s1, sent.ltot_code as nat, 2);
    lemma_append_number(s2, sent.lmax_code as nat, 2);
    lemma_append_number(s3, sent.md_length as nat, 7);
    lemma_append_number(s4, sent.uinfo as nat, 7);
    lemma_append_number(s5, 0, 2);
    lemma_append_number(s6, 6, 3);
    lemma_append_number(s7, 6, 3);
    lemma_append_number(s8, 0x3ff, 10);
    let info = sent.info();
    assert(info == s8 + lsb(0x3ff, 10));
    assert(info.subrange(0, 2) == s1.subrange(0, 2));
    assert(info.subrange(2, 4) == s2.subrange(2, 4));
    assert(info.subrange(4, 6) == s3.subrange(4, 6));
    assert(info.subrange(6, 13) == s4.subrange(6, 13));
    assert(info.subrange(13, 20) == s5.subrange(13, 20));
    assert(info.subrange(22, 25) == s7.subrange(22, 25));
    assert(info.subrange(25, 28) == s8.subrange(25, 28));
}

/// V.90 data mode asked for without any probing having happened: V.90's
/// INFO1a, with bit 33 naming the upstream carrier.
///
/// Nothing in the bits says which of the two layouts they are; only the phase
/// decides, and this one is used during a short phase 2 alone.
#[derive(Debug, Clone, Copy, PartialEq, Eq, Structural)]
pub struct Info1aV34Up {
    /// Bits 18:24, 25:31, 34:36 and 40:49, exactly as V.90 has them.
    pub v90: Info1aPcm,
    /// Bit 33: the high carrier frequency upstream.
    pub high_carrier: bool,
}

impl Info1aV34Up {
    /// Information bit 21, which is absolute bit 33.
    pub const HIGH_CARRIER: usize = 21;

    /// The information bits: V.90's, with the carrier written over a reserved
    /// zero.
    pub open spec fn info(self) -> Seq<bool> {
        self.v90.info().update(21, self.high_carrier)
    }

    /// What the information bits say, where they are V.90's.
    pub open spec fn of_info(info: Seq<bool>) -> Option<Info1aV34Up> {
        match Info1aPcm::of_info(info) {
            Some(v90) => Some(Info1aV34Up { v90, high_carrier: info[21] }),
            None => None,
        }
    }

    pub fn to_bits(&self) -> (bits: Vec<bool>)
        ensures
            bits@ == framed(self.info()),
    {
        let mut info = self.v90.information();
        proof {
            lemma_info1a_pcm_len(self.v90);
        }
        info.set(Info1aV34Up::HIGH_CARRIER, self.high_carrier);
        frame(info.as_slice())
    }

    pub fn from_bits(bits: &[bool]) -> (info: Option<Info1aV34Up>)
        ensures
            info == match unframed(bits@, 70) {
                Some(said) => Info1aV34Up::of_info(said),
                None => None,
            },
    {
        let info = match unframe(bits, INFO1A_BITS) {
            Some(info) => info,
            None => return None,
        };
        match Info1aPcm::read(info) {
            Some(v90) => Some(
                Info1aV34Up { v90, high_carrier: info[Info1aV34Up::HIGH_CARRIER] },
            ),
            None => None,
        }
    }
}

/// A V.90 INFO1a is as long as it should be, whatever its fields hold.
pub proof fn lemma_info1a_pcm_len(sent: Info1aPcm)
    ensures
        sent.info().len() == 38,
{
    lemma_lsb_len(0, 6);
    lemma_lsb_len(sent.md_length as nat, 7);
    lemma_lsb_len(sent.uinfo as nat, 7);
    lemma_lsb_len(0, 2);
    lemma_lsb_len(sent.upstream.numbered(), 3);
    lemma_lsb_len(6, 3);
    lemma_lsb_len(offset_field(sent.frequency_offset), 10);
}

/// An INFO1a of a short phase 2 gives back what was put in it, and a V.90
/// digital modem reads the same request from it.
pub proof fn info1a_v34_up_comes_back(sent: Info1aV34Up)
    requires
        sent.v90.fits(),
    ensures
        unframed(framed(sent.info()), 70) == Some(sent.info()),
        Info1aV34Up::of_info(sent.info()) == Some(sent),
        Info1aPcm::of_info(sent.info()) == Some(sent.v90),
{
    lemma_info1a_pcm(sent.v90);
    let (info, v90) = (sent.info(), sent.v90.info());
    assert(info.subrange(6, 13) =~= v90.subrange(6, 13));
    assert(info.subrange(13, 20) =~= v90.subrange(13, 20));
    assert(info.subrange(22, 25) =~= v90.subrange(22, 25));
    assert(info.subrange(25, 28) =~= v90.subrange(25, 28));
    assert(info.subrange(28, 38) =~= v90.subrange(28, 38));
    framing_is_undone(info);
}

/// No INFO1a can be taken for one of another layout: of V.34's, V.90's and the
/// one asking for PCM upstream, the two symbol rate fields leave at most one.
pub proof fn the_layouts_of_info1a_are_told_apart(info: Seq<bool>)
    ensures
        Info1a::of_info(info) is Some ==> Info1aPcm::of_info(info) is None
            && Info1aPcmUp::of_info(info) is None,
        Info1aPcm::of_info(info) is Some ==> Info1aPcmUp::of_info(info) is None,
{
}

} // verus!
