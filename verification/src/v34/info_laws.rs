//! Where each field of the sequences of phase 2 is, by the bits of the sequence as it
//! goes down the line.
use crate::bits::{lemma_number_bound, number};
use crate::v34::info::{
    crc_of, framed, framing_is_undone, info0_comes_back, info0d_comes_back, opening,
    rate_numbered, shifted, unframed, Info0, Info0d, SymbolRate,
};
use crate::v34::info1::{
    info1a_comes_back, info1a_pcm_comes_back, info1a_pcm_up_comes_back, info1c_comes_back,
    lemma_info1a_len, lemma_info1a_pcm_len, lemma_info1c_len, offset_field, offset_of, Info1a,
    Info1aPcm, Info1aPcmUp, Info1aV34Up, Info1c,
};
use crate::v34::mh::{mh_comes_back, Cleardown, Mh, MhIndication, MhInformation, T1};
use vstd::prelude::*;

verus! {

/// The number in some bits of a sequence, the first of them weighing one.
pub open spec fn field(bits: Seq<bool>, first: int, last: int) -> int
    decreases last - first + 1,
{
    if last < first {
        0
    } else {
        2 * field(bits, first + 1, last) + if bits[first] {
            1int
        } else {
            0
        }
    }
}

proof fn lemma_field(bits: Seq<bool>, first: int, last: int)
    requires
        0 <= first <= last + 1 <= bits.len(),
    ensures
        field(bits, first, last) == number(bits.subrange(first, last + 1)),
    decreases last - first + 1,
{
    reveal(number);
    if first <= last {
        lemma_field(bits, first + 1, last);
        assert(bits.subrange(first, last + 1).skip(1) =~= bits.subrange(first + 1, last + 1));
    }
}

proof fn lemma_placed(info: Seq<bool>, first: int, last: int)
    requires
        0 <= first <= last + 1 <= info.len(),
        last < first + 10,
    ensures
        framed(info).len() == info.len() + 32,
        field(framed(info), first + 12, last + 12) == number(info.subrange(first, last + 1)),
        0 <= field(framed(info), first + 12, last + 12) < 1024,
        last < first + 7 ==> field(framed(info), first + 12, last + 12) < 128,
        last < first + 3 ==> field(framed(info), first + 12, last + 12) < 8,
{
    the_frame_is_what_it_is(info);
    let bits = framed(info);
    assert(bits.subrange(first + 12, last + 13) =~= info.subrange(first, last + 1));
    lemma_field(bits, first + 12, last + 12);
    let part = info.subrange(first, last + 1);
    lemma_number_bound(part);
    vstd::arithmetic::power2::lemma2_to64();
    if part.len() < 10 {
        vstd::arithmetic::power2::lemma_pow2_strictly_increases(part.len(), 10);
    }
    if part.len() < 7 {
        vstd::arithmetic::power2::lemma_pow2_strictly_increases(part.len(), 7);
    }
    if part.len() < 3 {
        vstd::arithmetic::power2::lemma_pow2_strictly_increases(part.len(), 3);
    }
}

/// Every sequence opens with four ones and 0111 0010, holds its information from bit 12
/// on, then sixteen bits of CRC with the lowest first, and four ones.
pub proof fn the_frame_is_what_it_is(info: Seq<bool>)
    ensures
        ({
            let bits = framed(info);
            let n = info.len() as int;
            &&& bits.len() == n + 32
            &&& bits[0] && bits[1] && bits[2] && bits[3]
            &&& !bits[4] && bits[5] && bits[6] && bits[7]
            &&& !bits[8] && !bits[9] && bits[10] && !bits[11]
            &&& forall|j: int| 12 <= j < 12 + n ==> #[trigger] bits[j] == info[j - 12]
            &&& field(bits, 12 + n, 27 + n) == crc_of(info)
            &&& bits[28 + n] && bits[29 + n] && bits[30 + n] && bits[31 + n]
        }),
{
    reveal(framed);
    framing_is_undone(info);
    let bits = framed(info);
    let n = info.len() as int;
    let sum = crate::bits::lsb(crc_of(info) as nat, 16);
    crate::bits::lemma_lsb_len(crc_of(info) as nat, 16);
    crate::bits::lemma_number_of_lsb(crc_of(info) as nat, 16);
    vstd::arithmetic::power2::lemma2_to64();
    assert(bits.subrange(12 + n, 28 + n) =~= sum);
    lemma_field(bits, 12 + n, 27 + n);
}

/// A sequence of so many bits is taken where it opens as it should and its CRC is that of
/// what it holds, and for no other reason; the four ones after it may be missing.
pub proof fn a_sequence_is_taken_by_its_opening_and_crc(bits: Seq<bool>, length: nat)
    requires
        length >= 32,
        bits.len() + 4 >= length,
    ensures
        unframed(bits, length) is Some <==> {
            &&& bits[0] && bits[1] && bits[2] && bits[3]
            &&& !bits[4] && bits[5] && bits[6] && bits[7]
            &&& !bits[8] && !bits[9] && bits[10] && !bits[11]
            &&& field(bits, length - 20, length - 5) == crc_of(bits.subrange(12, length - 20))
        },
        unframed(bits, length) is Some ==> unframed(bits, length)->0 == bits.subrange(
            12,
            length - 20,
        ),
{
    reveal(unframed);
    lemma_field(bits, length - 20, length - 5);
    let open = bits.take(12);
    if open == opening() {
        assert(forall|i: int| 0 <= i < 12 ==> bits[i] == open[i]);
    }
    if bits[0] && bits[1] && bits[2] && bits[3] && !bits[4] && bits[5] && bits[6] && bits[7]
        && !bits[8] && !bits[9] && bits[10] && !bits[11] {
        assert(open =~= opening());
    }
}

/// The CRC register starts as all ones and moves down a cell at each bit. The sum of the
/// bit and what moves out goes into cell 15 and is added into cells 10 and 3.
pub proof fn the_crc_is_divided_out(register: u16, bit: bool)
    ensures
        crc_of(Seq::<bool>::empty()) == 0xffff,
        ({
            let next = shifted(register, bit);
            let sum = (register % 2 == 1) != bit;
            let fed = if sum {
                1u16
            } else {
                0u16
            };
            &&& next >> 15u16 == fed
            &&& (next >> 10u16) & 1 == ((register >> 11u16) & 1) ^ fed
            &&& (next >> 3u16) & 1 == ((register >> 4u16) & 1) ^ fed
            &&& next & 0x7bf7 == (register >> 1u16) & 0x7bf7
        }),
{
    let next = shifted(register, bit);
    let fed = if (register % 2 == 1) != bit {
        1u16
    } else {
        0u16
    };
    assert((register & 1u16 == 1u16) == (register % 2 == 1)) by (bit_vector);
    let moved = register >> 1u16;
    assert(next == moved ^ (if fed == 1 {
        0x8408u16
    } else {
        0u16
    })) by {
        assert(moved ^ 0u16 == moved) by (bit_vector);
    }
    assert(next >> 15u16 == fed && (next >> 10u16) & 1 == ((register >> 11u16) & 1) ^ fed && (next
        >> 3u16) & 1 == ((register >> 4u16) & 1) ^ fed && next & 0x7bf7 == (register >> 1u16)
        & 0x7bf7) by (bit_vector)
        requires
            next == (register >> 1u16) ^ (if fed == 1 {
                0x8408u16
            } else {
                0u16
            }),
            fed == 0 || fed == 1,
    ;
}

/// The symbol rates are numbered from 2400 up, and each number above 5 names none.
pub proof fn the_symbol_rates_are_numbered(index: nat)
    ensures
        rate_numbered(0) == Some(SymbolRate::S2400),
        rate_numbered(1) == Some(SymbolRate::S2743),
        rate_numbered(2) == Some(SymbolRate::S2800),
        rate_numbered(3) == Some(SymbolRate::S3000),
        rate_numbered(4) == Some(SymbolRate::S3200),
        rate_numbered(5) == Some(SymbolRate::S3429),
        rate_numbered(index) is Some <==> index < 6,
        SymbolRate::S2400.baud() == 2400,
        SymbolRate::S2743.baud() == 2743,
        SymbolRate::S2800.baud() == 2800,
        SymbolRate::S3000.baud() == 3000,
        SymbolRate::S3200.baud() == 3200,
        SymbolRate::S3429.baud() == 3429,
{
}

/// An INFO0, bit by bit.
#[verifier::rlimit(60)]
pub proof fn info0_is_laid_out(sent: Info0)
    requires
        sent.fits(),
    ensures
        ({
            let bits = framed(sent.info());
            &&& bits.len() == 49
            &&& bits[12] == sent.rate_2743
            &&& bits[13] == sent.rate_2800
            &&& bits[14] == sent.rate_3429
            &&& bits[15] == sent.low_carrier_3000
            &&& bits[16] == sent.high_carrier_3000
            &&& bits[17] == sent.low_carrier_3200
            &&& bits[18] == sent.high_carrier_3200
            &&& bits[19] == sent.transmit_3429
            &&& bits[20] == sent.can_reduce_power
            &&& field(bits, 21, 23) == sent.asymmetry
            &&& bits[24] == sent.cme
            &&& bits[25] == sent.constellation_1664
            &&& field(bits, 26, 27) == sent.clock
            &&& bits[28] == sent.acknowledge
        }),
{
    let info = sent.info();
    info0_comes_back(sent);
    reveal(Info0::info);
    crate::bits::lemma_lsb_len(sent.asymmetry as nat, 3);
    crate::bits::lemma_lsb_len(sent.clock as nat, 2);
    the_frame_is_what_it_is(info);
    lemma_placed(info, 9, 11);
    lemma_placed(info, 14, 15);
    let bits = framed(info);
}

/// An INFO0d: what an INFO0 has where it has it, but for bits 26 and 27, which are the
/// request for a short phase 2 and the V.92 capability; then powers, where they are
/// measured, the law and the upstream rate.
#[verifier::rlimit(60)]
pub proof fn info0d_is_laid_out(sent: Info0d)
    requires
        sent.fits(),
    ensures
        ({
            let bits = framed(sent.info());
            &&& bits.len() == 62
            &&& bits[12] == sent.v34.rate_2743
            &&& bits[13] == sent.v34.rate_2800
            &&& bits[14] == sent.v34.rate_3429
            &&& bits[15] == sent.v34.low_carrier_3000
            &&& bits[16] == sent.v34.high_carrier_3000
            &&& bits[17] == sent.v34.low_carrier_3200
            &&& bits[18] == sent.v34.high_carrier_3200
            &&& bits[19] == sent.v34.transmit_3429
            &&& bits[20] == sent.v34.can_reduce_power
            &&& field(bits, 21, 23) == sent.v34.asymmetry
            &&& bits[24] == sent.v34.cme
            &&& bits[25] == sent.v34.constellation_1664
            &&& field(bits, 26, 27) == (if sent.flags().short_phase2 {
                1int
            } else {
                0
            }) + (if sent.flags().v92 {
                2int
            } else {
                0
            })
            &&& bits[28] == sent.v34.acknowledge
            &&& field(bits, 29, 32) == sent.nominal_power
            &&& field(bits, 33, 37) == sent.max_power
            &&& bits[38] == sent.power_at_codec
            &&& bits[39] == sent.a_law
            &&& bits[40] == sent.upstream_3429
            &&& !bits[41]
        }),
{
    let info = sent.info();
    info0d_comes_back(sent);
    crate::bits::lemma_lsb_len(sent.nominal_power as nat, 4);
    crate::bits::lemma_lsb_len(sent.max_power as nat, 5);
    assert(sent.shared().info().len() == 17) by {
        reveal(Info0::info);
        crate::bits::lemma_lsb_len(sent.v34.asymmetry as nat, 3);
        crate::bits::lemma_lsb_len((sent.v34.clock / 4) as nat, 2);
    }
    the_frame_is_what_it_is(info);
    lemma_placed(info, 9, 11);
    lemma_placed(info, 14, 15);
    lemma_placed(info, 17, 20);
    lemma_placed(info, 21, 25);
    let bits = framed(info);
    assert(Info0d::of_info(info).v34.clock == sent.v34.clock);
    lemma_two_flags(sent.v34.clock, field(bits, 26, 27));
}

proof fn lemma_two_flags(clock: u8, pair: int)
    requires
        clock < 16,
        clock % 4 == 0,
        0 <= pair < 8,
        (4 * (pair as u8)) as u8 == clock,
    ensures
        pair == (if clock / 4 % 2 == 1 {
            1int
        } else {
            0
        }) + (if clock / 8 % 2 == 1 {
            2int
        } else {
            0
        }),
{
}

/// The two flags of V.92 in an INFO0: bit 26 the capability and bit 27 the request, the
/// other way about from an INFO0d.
pub proof fn info0_carries_its_flags(sent: Info0, flags: crate::v34::info::PcmFlags)
    requires
        sent.fits(),
    ensures
        field(framed(sent.with_flags(flags).info()), 26, 27) == (if flags.v92 {
            1int
        } else {
            0
        }) + (if flags.short_phase2 {
            2int
        } else {
            0
        }),
{
    info0_is_laid_out(sent.with_flags(flags));
}

/// An INFO1c, field by field: for each symbol rate in turn the carrier, the filter and
/// the rate.
#[verifier::rlimit(60)]
pub proof fn info1c_is_laid_out(sent: Info1c, rate: int)
    requires
        sent.fits(),
        0 <= rate < 6,
    ensures
        ({
            let bits = framed(sent.info());
            &&& bits.len() == 109
            &&& field(bits, 12, 14) == sent.min_power_reduction
            &&& field(bits, 15, 17) == sent.additional_power_reduction
            &&& field(bits, 18, 24) == sent.md_length
            &&& bits[25 + 9 * rate] == sent.probed[rate].high_carrier
            &&& field(bits, 26 + 9 * rate, 29 + 9 * rate) == sent.probed[rate].pre_emphasis
            &&& field(bits, 30 + 9 * rate, 33 + 9 * rate) == sent.probed[rate].max_rate
            &&& sent.frequency_offset is None ==> field(bits, 79, 88) == 512
            &&& sent.frequency_offset is Some ==> field(bits, 79, 88) == (
            if sent.frequency_offset->0 < 0 {
                1024 + sent.frequency_offset->0
            } else {
                sent.frequency_offset->0 as int
            })
        }),
{
    let info = sent.info();
    info1c_comes_back(sent);
    lemma_info1c_len(sent);
    assert(exists|said: Info1c| said.reads(info)) by {
        crate::v34::info1::lemma_info1c(sent);
    }
    assert(sent.reads(info));
    the_frame_is_what_it_is(info);
    lemma_placed(info, 0, 2);
    lemma_placed(info, 3, 5);
    lemma_placed(info, 6, 12);
    lemma_placed(info, 14 + 9 * rate, 17 + 9 * rate);
    lemma_placed(info, 18 + 9 * rate, 21 + 9 * rate);
    lemma_placed(info, 67, 76);
    let part = info.subrange(13 + 9 * rate, 22 + 9 * rate);
    assert(part.subrange(1, 5) =~= info.subrange(14 + 9 * rate, 18 + 9 * rate));
    assert(part.subrange(5, 9) =~= info.subrange(18 + 9 * rate, 22 + 9 * rate));
    assert(framed(info)[12 + (13 + 9 * rate)] == info[13 + 9 * rate]);
    assert(part[0] == info[13 + 9 * rate]);
    assert(sent.probed[rate] == crate::v34::info1::Probed::of_info(part));
    lemma_offset(number(info.subrange(67, 77)), sent.frequency_offset);
}

proof fn lemma_offset(raw: nat, steps: Option<i16>)
    requires
        raw < 1024,
        offset_of(raw) == steps,
    ensures
        steps is None ==> raw == 512,
        steps is Some ==> raw == (if steps->0 < 0 {
            1024 + steps->0
        } else {
            steps->0 as int
        }),
{
}

/// An INFO1a, field by field.
#[verifier::rlimit(60)]
pub proof fn info1a_is_laid_out(sent: Info1a)
    requires
        sent.fits(),
    ensures
        ({
            let bits = framed(sent.info());
            &&& bits.len() == 70
            &&& field(bits, 12, 14) == sent.min_power_reduction
            &&& field(bits, 15, 17) == sent.additional_power_reduction
            &&& field(bits, 18, 24) == sent.md_length
            &&& bits[25] == sent.probed.high_carrier
            &&& field(bits, 26, 29) == sent.probed.pre_emphasis
            &&& field(bits, 30, 33) == sent.probed.max_rate
            &&& rate_numbered(field(bits, 34, 36) as nat) == Some(sent.answer_to_call)
            &&& rate_numbered(field(bits, 37, 39) as nat) == Some(sent.call_to_answer)
            &&& sent.frequency_offset is None ==> field(bits, 40, 49) == 512
            &&& sent.frequency_offset is Some ==> field(bits, 40, 49) == (
            if sent.frequency_offset->0 < 0 {
                1024 + sent.frequency_offset->0
            } else {
                sent.frequency_offset->0 as int
            })
        }),
{
    let info = sent.info();
    info1a_comes_back(sent);
    lemma_info1a_len(sent);
    the_frame_is_what_it_is(info);
    lemma_placed(info, 0, 2);
    lemma_placed(info, 3, 5);
    lemma_placed(info, 6, 12);
    lemma_placed(info, 14, 17);
    lemma_placed(info, 18, 21);
    lemma_placed(info, 22, 24);
    lemma_placed(info, 25, 27);
    lemma_placed(info, 28, 37);
    let part = info.subrange(13, 22);
    assert(part.subrange(1, 5) =~= info.subrange(14, 18));
    assert(part.subrange(5, 9) =~= info.subrange(18, 22));
    assert(part[0] == info[13]);
    lemma_offset(number(info.subrange(28, 38)), sent.frequency_offset);
}

/// An INFO1a for V.90: the codeword in bits 25 to 31, the upstream rate in bits 34 to 36,
/// and six for 8000 downstream in bits 37 to 39.
pub proof fn info1a_pcm_is_laid_out(sent: Info1aPcm)
    requires
        sent.fits(),
    ensures
        ({
            let bits = framed(sent.info());
            &&& bits.len() == 70
            &&& field(bits, 18, 24) == sent.md_length
            &&& field(bits, 25, 31) == sent.uinfo
            &&& rate_numbered(field(bits, 34, 36) as nat) == Some(sent.upstream)
            &&& field(bits, 34, 36) >= 3
            &&& field(bits, 37, 39) == 6
            &&& sent.frequency_offset is None ==> field(bits, 40, 49) == 512
            &&& sent.frequency_offset is Some ==> field(bits, 40, 49) == (
            if sent.frequency_offset->0 < 0 {
                1024 + sent.frequency_offset->0
            } else {
                sent.frequency_offset->0 as int
            })
        }),
{
    let info = sent.info();
    info1a_pcm_comes_back(sent);
    lemma_info1a_pcm_len(sent);
    lemma_placed(info, 6, 12);
    lemma_placed(info, 13, 19);
    lemma_placed(info, 22, 24);
    lemma_placed(info, 25, 27);
    lemma_placed(info, 28, 37);
    lemma_offset(number(info.subrange(28, 38)), sent.frequency_offset);
}

/// An INFO1a that asks for PCM upstream as well: the sections, the two lengths, MD and
/// the codeword, and six in both symbol rate fields.
pub proof fn info1a_pcm_up_is_laid_out(sent: Info1aPcmUp)
    requires
        sent.fits(),
    ensures
        ({
            let bits = framed(sent.info());
            &&& bits.len() == 70
            &&& field(bits, 12, 13) == sent.sections
            &&& field(bits, 14, 15) == sent.ltot_code
            &&& field(bits, 16, 17) == sent.lmax_code
            &&& field(bits, 18, 24) == sent.md_length
            &&& field(bits, 25, 31) == sent.uinfo
            &&& field(bits, 34, 36) == 6
            &&& field(bits, 37, 39) == 6
        }),
{
    let info = sent.info();
    info1a_pcm_up_comes_back(sent);
    assert(info.len() == 38) by {
        crate::bits::lemma_lsb_len(sent.sections as nat, 2);
        crate::bits::lemma_lsb_len(sent.ltot_code as nat, 2);
        crate::bits::lemma_lsb_len(sent.lmax_code as nat, 2);
        crate::bits::lemma_lsb_len(sent.md_length as nat, 7);
        crate::bits::lemma_lsb_len(sent.uinfo as nat, 7);
        crate::bits::lemma_lsb_len(0, 2);
        crate::bits::lemma_lsb_len(6, 3);
        crate::bits::lemma_lsb_len(0x3ff, 10);
    }
    lemma_placed(info, 0, 1);
    lemma_placed(info, 2, 3);
    lemma_placed(info, 4, 5);
    lemma_placed(info, 6, 12);
    lemma_placed(info, 13, 19);
    lemma_placed(info, 22, 24);
    lemma_placed(info, 25, 27);
}

/// The INFO1a of a short phase 2 has the upstream carrier in bit 33, and is otherwise the
/// one of V.90.
pub proof fn info1a_v34_up_is_laid_out(sent: Info1aV34Up, i: int)
    requires
        sent.v90.fits(),
        0 <= i < 38,
    ensures
        framed(sent.info()).len() == 70,
        framed(sent.info())[33] == sent.high_carrier,
        i != 21 ==> framed(sent.info())[12 + i] == framed(sent.v90.info())[12 + i],
{
    lemma_info1a_pcm_len(sent.v90);
    the_frame_is_what_it_is(sent.info());
    the_frame_is_what_it_is(sent.v90.info());
    assert(framed(sent.info())[33] == sent.info()[21]);
    assert(framed(sent.info())[12 + i] == sent.info()[i]);
    assert(framed(sent.v90.info())[12 + i] == sent.v90.info()[i]);
}

/// An MH sequence: four bits for what it says, the first of them weighing eight, and four
/// for what goes with that.
pub proof fn mh_is_laid_out(indication: MhIndication, code: nat)
    requires
        code < 16,
    ensures
        ({
            let bits = framed(
                (Mh { indication, information: MhInformation::decoded(indication, code) }).info(),
            );
            &&& bits.len() == 40
            &&& bits[12] == (indication is Clrd || indication is Cda || indication is Frr)
            &&& bits[13] == (indication is Ack || indication is Nack || indication is Frr)
            &&& bits[14] == (indication is Req || indication is Nack || indication is Cda)
            &&& bits[15]
            &&& bits[16] == (code / 8 % 2 == 1)
            &&& bits[17] == (code / 4 % 2 == 1)
            &&& bits[18] == (code / 2 % 2 == 1)
            &&& bits[19] == (code % 2 == 1)
        }),
{
    let sent = Mh { indication, information: MhInformation::decoded(indication, code) };
    mh_comes_back(indication, code);
    let info = sent.info();
    lemma_nibble(indication.coded());
    lemma_nibble(code);
    the_frame_is_what_it_is(info);
    let bits = framed(info);
}

proof fn lemma_nibble(n: nat)
    requires
        n < 16,
    ensures
        ({
            let bits = crate::bits::pattern(n);
            &&& bits.len() == 4
            &&& bits[0] == (n / 8 % 2 == 1)
            &&& bits[1] == (n / 4 % 2 == 1)
            &&& bits[2] == (n / 2 % 2 == 1)
            &&& bits[3] == (n % 2 == 1)
        }),
{
    vstd::arithmetic::power2::lemma2_to64();
    crate::bits::lemma_lsb_index(n, 4, 0);
    crate::bits::lemma_lsb_index(n, 4, 1);
    crate::bits::lemma_lsb_index(n, 4, 2);
    crate::bits::lemma_lsb_index(n, 4, 3);
}

/// The periods a hold may be granted for, and the reasons a call may be cleared for.
pub proof fn the_hold_codes_mean_what_they_mean(code: nat)
    ensures
        T1::decoded(1) == T1::Limit(10),
        T1::decoded(2) == T1::Limit(20),
        T1::decoded(3) == T1::Limit(30),
        T1::decoded(4) == T1::Limit(40),
        T1::decoded(5) == T1::Limit(60),
        T1::decoded(6) == T1::Limit(120),
        T1::decoded(7) == T1::Limit(180),
        T1::decoded(8) == T1::Limit(240),
        T1::decoded(9) == T1::Limit(360),
        T1::decoded(10) == T1::Limit(480),
        T1::decoded(11) == T1::Limit(720),
        T1::decoded(12) == T1::Limit(960),
        T1::decoded(13) == T1::NoLimit,
        Cleardown::decoded(5) == Cleardown::IncomingCall,
        Cleardown::decoded(6) == Cleardown::OutgoingCall,
        Cleardown::decoded(10) == Cleardown::Other,
        code < 16 && code != 5 && code != 6 && code != 10 ==> Cleardown::decoded(code)
            == Cleardown::Unknown(code as u8),
        MhInformation::decoded(MhIndication::Ack, code) == MhInformation::Timeout(T1::decoded(code)),
        MhInformation::decoded(MhIndication::Clrd, code) == MhInformation::Reason(
            Cleardown::decoded(code),
        ),
        MhInformation::decoded(MhIndication::Req, code) == MhInformation::Repeat(code as u8),
        MhInformation::decoded(MhIndication::Nack, code) == MhInformation::Repeat(code as u8),
        MhInformation::decoded(MhIndication::Cda, code) == MhInformation::Repeat(code as u8),
        MhInformation::decoded(MhIndication::Frr, code) == MhInformation::Repeat(code as u8),
{
}

/// A frequency offset too far for its field goes out as the nearest that fits.
pub proof fn an_offset_goes_as_the_nearest(steps: i16)
    ensures
        ({
            let sent = offset_of(offset_field(Some(steps)));
            &&& sent is Some
            &&& -511 <= steps <= 511 ==> sent->0 == steps
            &&& steps > 511 ==> sent->0 == 511
            &&& steps < -511 ==> sent->0 == -511
        }),
        offset_of(offset_field(None)) is None,
{
}

} // verus!
