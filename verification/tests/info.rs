//! The INFO and MH sequences of phase 2, bit by bit.

use softmodem::bits::{get, get_pattern, put, put_pattern};
use softmodem::v34::info::{
    crc, frame, shift, unframe, Info0, Info0d, PcmFlags, SymbolRate, FILL, INFO0D_BITS, INFO0_BITS, INFO1A_BITS,
    INFO1C_BITS, MH_BITS, PCM_SYMBOL_RATE, SYNC, UINFO_HIGHEST, UINFO_LOWEST,
};
use softmodem::v34::info1::{
    offset_from, offset_to, Info1a, Info1aPcm, Info1aPcmUp, Info1aV34Up, Info1c, Probed, Probed3429,
};
use softmodem::v34::mh::{Cleardown, Mh, MhIndication, MhInformation, T1};

#[test]
fn every_sequence_is_the_length_its_table_says() {
    assert_eq!(Info0::default().to_bits().len(), INFO0_BITS);
    assert_eq!(Info1c::default().to_bits().len(), INFO1C_BITS);
    let info1a = Info1a {
        min_power_reduction: 0,
        additional_power_reduction: 0,
        md_length: 0,
        probed: Probed::default(),
        answer_to_call: SymbolRate::S3429,
        call_to_answer: SymbolRate::S3200,
        frequency_offset: None,
    };
    assert_eq!(info1a.to_bits().len(), INFO1A_BITS);
}

#[test]
fn the_fill_and_sync_are_where_the_tables_put_them() {
    let bits = Info0::default().to_bits();
    let printed = |b: &[bool]| b.iter().map(|&x| if x { '1' } else { '0' }).collect::<String>();
    assert_eq!(printed(&bits[0..4]), "1111");
    assert_eq!(printed(&bits[4..12]), "01110010");
    assert_eq!(printed(&bits[45..49]), "1111");
}

#[test]
fn a_crc_sent_after_its_bits_leaves_nothing_in_the_register() {
    // The property that makes Figure 14 a CRC: shift the register's own
    // contents in after the information, bit 0 first, and it comes back to
    // zero -- whatever the information was.
    for seed in 0..200u32 {
        let info: Vec<bool> = (0..77).map(|i| (seed.wrapping_mul(2_654_435_761) >> (i % 32)) & 1 == 1).collect();
        let mut with_crc = info.clone();
        put(&mut with_crc, u32::from(crc(&info)), 16);
        assert_eq!(crc(&with_crc), 0, "seed {seed}");
    }
}

#[test]
fn the_crc_polynomial_is_x16_x12_x5_1() {
    // A single one shifted into a register of zeros comes out as the
    // polynomial itself, read from the low end: taps 15, 10 and 3 in a
    // register numbered as Figure 14 numbers it.
    assert_eq!(shift(0, true), 0x8408);
    // And the CRC of nothing is the ones it was loaded with.
    assert_eq!(crc(&[]), 0xffff);
}

#[test]
fn every_field_comes_back_as_it_went() {
    let info0 = Info0 {
        rate_2743: true,
        rate_2800: false,
        rate_3429: true,
        low_carrier_3000: true,
        high_carrier_3000: false,
        low_carrier_3200: true,
        high_carrier_3200: true,
        transmit_3429: true,
        can_reduce_power: true,
        asymmetry: 5,
        cme: false,
        constellation_1664: true,
        clock: 2,
        acknowledge: true,
    };
    assert_eq!(Info0::from_bits(&info0.to_bits()), Some(info0));

    let mut info1c = Info1c {
        min_power_reduction: 3,
        additional_power_reduction: 7,
        md_length: 127,
        probed: [Probed::default(); 6],
        frequency_offset: Some(-162),
    };
    for (i, p) in info1c.probed.iter_mut().enumerate() {
        *p = Probed { high_carrier: i % 2 == 1, pre_emphasis: i as u8 + 4, max_rate: 14 - i as u8 };
    }
    let back = Info1c::from_bits(&info1c.to_bits()).expect("it did not check");
    assert_eq!(back.probed, info1c.probed);
    assert_eq!(back.md_length, 127);
    assert_eq!(back.frequency_offset, Some(-162));

    let info1a = Info1a {
        min_power_reduction: 1,
        additional_power_reduction: 2,
        md_length: 9,
        probed: Probed { high_carrier: true, pre_emphasis: 10, max_rate: 13 },
        answer_to_call: SymbolRate::S3429,
        call_to_answer: SymbolRate::S2743,
        frequency_offset: None,
    };
    assert_eq!(Info1a::from_bits(&info1a.to_bits()), Some(info1a));
}

#[test]
fn one_wrong_bit_anywhere_is_caught() {
    let bits = Info1c::default().to_bits();
    for i in 0..INFO1C_BITS - FILL.len() {
        let mut spoiled = bits.clone();
        spoiled[i] = !spoiled[i];
        assert_eq!(Info1c::from_bits(&spoiled), None, "bit {i}");
    }
}

#[test]
fn the_frequency_offset_is_two_s_complement_and_minus_512_is_nothing() {
    assert_eq!(offset_from(0x200), None);
    assert_eq!(offset_from(0x1ff), Some(511));
    assert_eq!(offset_from(0x3ff), Some(-1));
    assert_eq!(offset_to(None), 0x200);
    assert_eq!(offset_to(Some(-1)), 0x3ff);
}

#[test]
fn info0d_is_info0a_with_the_digital_modem_s_levels_after_it() {
    let info0d = Info0d {
        v34: Info0 { rate_3429: true, low_carrier_3200: true, asymmetry: 5, acknowledge: true, ..Info0::default() },
        nominal_power: 3,
        max_power: 31,
        power_at_codec: false,
        a_law: true,
        upstream_3429: true,
    };
    let bits = info0d.to_bits();
    assert_eq!(bits.len(), INFO0D_BITS);
    assert_eq!(Info0d::from_bits(&bits), Some(info0d));
    // Absolute bit numbers, as the table prints them.
    assert!(bits[14], "bit 14 is 3429 in V.34 mode");
    assert!(bits[28], "bit 28 is the acknowledgement");
    assert!(bits[39], "bit 39 is the law");
    assert!(bits[40], "bit 40 is 3429 upstream");
    assert!(!bits[41], "bit 41 is reserved");
    assert_eq!(get(&bits, 33, 5), 31);
    assert_eq!(&bits[58..62], &FILL);
    assert_eq!(info0d.nominal_dbm0(), -90);
    assert_eq!(info0d.max_dbm0(), -160);
    // It is not an INFO0, and an INFO0 is not one of these.
    assert_eq!(Info0::from_bits(&bits), None);
    assert_eq!(Info0d::from_bits(&Info0::default().to_bits()), None);
}

#[test]
fn a_v90_info1a_carries_uinfo_and_names_8000() {
    let asked = Info1aPcm { md_length: 0, uinfo: 73, upstream: SymbolRate::S3200, frequency_offset: Some(-25) };
    let bits = asked.to_bits();
    assert_eq!(bits.len(), INFO1A_BITS);
    assert_eq!(Info1aPcm::from_bits(&bits), Some(asked));
    assert_eq!(get(&bits, 25, 7), 73);
    assert_eq!(get(&bits, 34, 3), 4);
    assert_eq!(get(&bits, 37, 3), 6);
    assert_eq!(Info1a::from_bits(&bits), None, "V.34 took a V.90 INFO1a for its own");
    // And the other way round.
    let v34 = Info1a {
        min_power_reduction: 0,
        additional_power_reduction: 0,
        md_length: 0,
        probed: Probed::default(),
        answer_to_call: SymbolRate::S3429,
        call_to_answer: SymbolRate::S3200,
        frequency_offset: None,
    };
    assert_eq!(Info1aPcm::from_bits(&v34.to_bits()), None);
}

fn sent_crc(bits: &[bool]) -> u16 {
    get(bits, bits.len() - 16 - FILL.len(), 16) as u16
}

fn every_v34_capability() -> Info0 {
    Info0 {
        rate_2743: true,
        rate_2800: true,
        rate_3429: true,
        low_carrier_3000: true,
        high_carrier_3000: true,
        low_carrier_3200: true,
        high_carrier_3200: true,
        transmit_3429: true,
        asymmetry: 5,
        constellation_1664: true,
        ..Info0::default()
    }
}

#[test]
fn a_v92_info0d_says_so_in_bit_27_and_asks_for_short_phase_2_in_bit_26() {
    let both = PcmFlags { v92: true, short_phase2: true };
    let mut p2s = Info0d {
        v34: every_v34_capability(),
        nominal_power: 3,
        max_power: 23,
        power_at_codec: true,
        a_law: false,
        upstream_3429: true,
    };
    p2s.set_pcm_flags(both);
    let bits = p2s.to_bits();
    assert_eq!(bits.len(), INFO0D_BITS);
    assert_eq!(sent_crc(&bits), 0xDB49);
    assert!(bits[26], "bit 26 asks for short phase 2");
    assert!(bits[27], "bit 27 says V.92");
    assert_eq!(Info0d::from_bits(&bits), Some(p2s));
    assert_eq!(Info0d::from_bits(&bits).unwrap().pcm_flags(), both);

    let mut p2p = Info0d { power_at_codec: false, ..p2s };
    p2p.v34.can_reduce_power = true;
    p2p.set_pcm_flags(both);
    assert_eq!(sent_crc(&p2p.to_bits()), 0xA8A9);

    // One without the other, and each in its own bit.
    let mut capable = p2s;
    capable.set_pcm_flags(PcmFlags { v92: true, short_phase2: false });
    let bits = capable.to_bits();
    assert!(!bits[26] && bits[27]);
    assert_eq!(capable.pcm_flags(), PcmFlags { v92: true, short_phase2: false });
    let mut asking = p2s;
    asking.set_pcm_flags(PcmFlags { v92: false, short_phase2: true });
    let bits = asking.to_bits();
    assert!(bits[26] && !bits[27]);
}

#[test]
fn a_v92_info0a_has_the_two_bits_the_other_way_round() {
    let both = PcmFlags { v92: true, short_phase2: true };
    let mut info0a = Info0 { can_reduce_power: true, ..every_v34_capability() };
    info0a.set_pcm_flags(both);
    let bits = info0a.to_bits();
    assert_eq!(bits.len(), INFO0_BITS);
    assert_eq!(sent_crc(&bits), 0xAF5A);
    assert!(bits[26], "bit 26 says V.92");
    assert!(bits[27], "bit 27 asks for short phase 2");
    assert_eq!(Info0::from_bits(&bits).unwrap().pcm_flags(), both);

    let acknowledging = Info0 { acknowledge: true, ..info0a };
    assert_eq!(sent_crc(&acknowledging.to_bits()), 0x2B52);

    // The two orders are genuinely opposite: the same pair of flags gives
    // different bits in the two layouts, and one layout's pair read as the
    // other's would be its own mirror image.
    let mut info0d = Info0d::default();
    info0d.set_pcm_flags(PcmFlags { v92: true, short_phase2: false });
    let mut only_v92 = Info0::default();
    only_v92.set_pcm_flags(PcmFlags { v92: true, short_phase2: false });
    let (d, a) = (info0d.to_bits(), only_v92.to_bits());
    assert!(d[27] && !d[26]);
    assert!(a[26] && !a[27]);
    assert_eq!((d[26], d[27]), (a[27], a[26]), "one layout's pair is the other's, swapped");
    // Which is why INFO0d's pair is kept out of the two bits INFO0a reads:
    // there is no reading of `clock` that is right for both.
    assert_eq!(info0d.v34.pcm_flags(), PcmFlags::default(), "INFO0d's pair is not V.34's");
}

#[test]
fn an_info0d_never_claims_v92_because_of_a_v34_transmit_clock() {
    for clock in 0..4u8 {
        let v90 = Info0d {
            v34: Info0 { clock, ..every_v34_capability() },
            nominal_power: 4,
            max_power: 23,
            power_at_codec: true,
            a_law: false,
            upstream_3429: false,
        };
        let bits = v90.to_bits();
        assert!(!bits[26] && !bits[27], "clock {clock} reached bits 26:27");
        assert_eq!(v90.pcm_flags(), PcmFlags::default(), "clock {clock} read as V.92");
        // Every V.90 INFO0d is the same sixty-two bits whatever clock it
        // was built around, which is the encoding V.90 tests are pinned to.
        assert_eq!(bits, Info0d { v34: Info0 { clock: 0, ..v90.v34 }, ..v90 }.to_bits());

        // And the V.92 flags still go out, above whatever clock is beneath
        // them, without disturbing it.
        let mut v92 = v90;
        v92.set_pcm_flags(PcmFlags { v92: true, short_phase2: false });
        let bits = v92.to_bits();
        assert!(!bits[26] && bits[27], "clock {clock} swallowed the V.92 bit");
        assert_eq!(v92.v34.clock & 3, clock, "the V.34 clock was overwritten");
    }
}

#[test]
fn a_v90_info0d_still_sends_zeros_in_bits_26_and_27() {
    let v90 = Info0d {
        v34: Info0 { constellation_1664: true, ..Info0::default() },
        nominal_power: 4,
        max_power: 23,
        power_at_codec: true,
        a_law: false,
        upstream_3429: false,
    };
    assert_eq!(v90.pcm_flags(), PcmFlags::default());
    let bits = v90.to_bits();
    assert_eq!(bits.len(), INFO0D_BITS);
    assert_eq!(sent_crc(&bits), 0x01C5);
    assert!(!bits[26] && !bits[27], "V.90 reserves both");
    assert_eq!(Info0d::from_bits(&bits), Some(v90));
    // And so does every other V.90 INFO0d, whatever else it carries.
    for nominal in 0..16 {
        for max_power in [0, 15, 31] {
            let other = Info0d { nominal_power: nominal, max_power, ..v90 };
            let bits = other.to_bits();
            assert!(!bits[26] && !bits[27], "{nominal} {max_power}");
        }
    }
}

#[test]
fn a_v90_peer_reads_a_v92_info0_as_v90() {
    let mut v92 = every_v34_capability();
    v92.set_pcm_flags(PcmFlags { v92: true, short_phase2: true });
    let read = Info0::from_bits(&v92.to_bits()).expect("the CRC checks");
    assert_eq!(Info0 { clock: 0, ..read }, every_v34_capability());

    let mut digital = Info0d {
        v34: every_v34_capability(),
        nominal_power: 3,
        max_power: 23,
        power_at_codec: true,
        a_law: true,
        upstream_3429: true,
    };
    digital.set_pcm_flags(PcmFlags { v92: true, short_phase2: true });
    let read = Info0d::from_bits(&digital.to_bits()).expect("the CRC checks");
    assert_eq!(read.nominal_dbm0(), -90);
    assert_eq!(read.max_dbm0(), -120);
    assert!(read.a_law && read.upstream_3429 && read.power_at_codec);
    assert_eq!(Info0 { clock: 0, ..read.v34 }, every_v34_capability());
}

#[test]
fn info1d_bit_70_reads_as_pcm_upstream_and_the_3429_field_keeps_its_place() {
    let mut info1d = Info1c {
        min_power_reduction: 2,
        additional_power_reduction: 1,
        md_length: 0,
        probed: [Probed::default(); 6],
        frequency_offset: Some(-3),
    };
    for (slot, (carrier, pre, rate)) in info1d.probed.iter_mut().zip([
        (true, 3, 10),
        (false, 2, 11),
        (false, 2, 11),
        (true, 4, 13),
        (true, 5, 14),
        (true, 6, 13),
    ]) {
        *slot = Probed { high_carrier: carrier, pre_emphasis: pre, max_rate: rate };
    }
    let bits = info1d.to_bits();
    assert_eq!(bits.len(), INFO1C_BITS);
    assert_eq!(sent_crc(&bits), 0x086C);
    assert!(bits[70], "bit 70 says the channel carries PCM upstream");
    assert_eq!(get(&bits, 71, 4), 6, "bits 71:74 are still the pre-emphasis");
    assert_eq!(get(&bits, 75, 4), 13, "bits 75:78 are still the projected rate");

    let read = Info1c::from_bits(&bits).expect("the CRC checks");
    assert!(read.pcm_upstream());
    assert_eq!(read.probed_3429(), Probed3429 { pre_emphasis: 6, max_rate: 13 });
    // The bit is written on purpose, and clearing it moves nothing else.
    let mut refusing = read;
    refusing.set_pcm_upstream(false);
    assert!(!refusing.pcm_upstream());
    assert!(!refusing.to_bits()[70]);
    assert_eq!(refusing.probed_3429(), read.probed_3429());
    assert_eq!(refusing.probed[..5], read.probed[..5]);
}

#[test]
fn a_table_18_info1a_round_trips_and_is_not_thrown_away() {
    let asked =
        Info1aPcmUp { sections: 3, ltot_code: 1, lmax_code: 0, md_length: 4, uinfo: 90 };
    let bits = asked.to_bits();
    assert_eq!(bits.len(), INFO1A_BITS);
    assert_eq!(sent_crc(&bits), 0xA858);
    assert_eq!(get(&bits, 34, 3), PCM_SYMBOL_RATE, "8000 from the analogue modem");
    assert_eq!(get(&bits, 37, 3), PCM_SYMBOL_RATE, "8000 from the digital modem");
    assert_eq!(get(&bits, 32, 2), 0, "bits 32:33 are set to 0");
    assert_eq!(get(&bits, 40, 10), 0x3ff, "bits 40:49 are set to 1");
    assert_eq!(Info1aPcmUp::from_bits(&bits), Some(asked));

    let other =
        Info1aPcmUp { sections: 3, ltot_code: 3, lmax_code: 3, md_length: 0, uinfo: 77 };
    assert_eq!(sent_crc(&other.to_bits()), 0xF59A);

    // Every filter code, and the ends of both seven-bit fields.
    for sections in 0..4 {
        for ltot_code in 0..4 {
            for lmax_code in 0..4 {
                for (md_length, uinfo) in [(0, UINFO_LOWEST), (127, UINFO_HIGHEST)] {
                    let asked =
                        Info1aPcmUp { sections, ltot_code, lmax_code, md_length, uinfo };
                    assert_eq!(Info1aPcmUp::from_bits(&asked.to_bits()), Some(asked));
                }
            }
        }
    }

}

#[test]
fn the_u_info_we_choose_is_one_table_18_allows() {
    assert_eq!(UINFO_LOWEST, 67);
    assert_eq!(UINFO_HIGHEST, 111);
    assert!(u32::from(UINFO_HIGHEST) + 16 < 128, "Sd would train past Ucode 127");
    for uinfo in 0..=127u8 {
        let asked = Info1aPcmUp { uinfo, ..Info1aPcmUp::default() };
        assert_eq!(asked.uinfo_is_sendable(), (67..=111).contains(&uinfo), "U_INFO {uinfo}");
    }
    // A sequence built up from the default is sendable before anyone has
    // chosen anything, which a zero -- the one value Table 18 names as
    // forbidden -- would not have been.
    assert_eq!(Info1aPcmUp::default().uinfo, UINFO_LOWEST);
    assert!(Info1aPcmUp::default().uinfo_is_sendable());

    // A Table 18 frame with any U_INFO in it, built without `to_bits`,
    // which is the side the rule binds.
    let raw = |uinfo: u32| {
        let mut info = Vec::with_capacity(38);
        put(&mut info, 0, 13);
        put(&mut info, uinfo, 7);
        put(&mut info, 0, 2);
        put(&mut info, PCM_SYMBOL_RATE, 3);
        put(&mut info, PCM_SYMBOL_RATE, 3);
        put(&mut info, 0x3ff, 10);
        frame(&info)
    };
    for uinfo in [0, 66, 112, 127] {
        let heard = Info1aPcmUp::from_bits(&raw(uinfo)).expect("the CRC checks");
        assert_eq!(heard.uinfo, uinfo as u8, "a far end's U_INFO was refused");
        assert!(!heard.uinfo_is_sendable(), "and it is not one we would send");
    }
}

#[test]
fn a_table_19_info1a_carries_the_high_carrier_in_bit_33() {
    let high = Info1aV34Up {
        v90: Info1aPcm {
            md_length: 0,
            uinfo: 90,
            upstream: SymbolRate::S3200,
            frequency_offset: None,
        },
        high_carrier: true,
    };
    let bits = high.to_bits();
    assert_eq!(bits.len(), INFO1A_BITS);
    assert_eq!(sent_crc(&bits), 0x6742);
    assert!(bits[33], "bit 33 asks for the high carrier");
    assert!(!bits[32], "bit 32 is still reserved");
    assert_eq!(Info1aV34Up::from_bits(&bits), Some(high));

    let other = Info1aV34Up {
        v90: Info1aPcm { uinfo: 77, upstream: SymbolRate::S3429, ..high.v90 },
        high_carrier: true,
    };
    assert_eq!(sent_crc(&other.to_bits()), 0x7A52);

    // Clear bit 33 and the seventy bits are V.90's Table 10 exactly, which
    // is why neither layout can be told from the other by its bits, and
    // why the phase and not the frame decides which reading applies.
    let low = Info1aV34Up { high_carrier: false, ..high };
    assert_eq!(low.to_bits(), high.v90.to_bits());
    assert_eq!(Info1aPcm::from_bits(&high.to_bits()), Some(high.v90));
    assert_eq!(Info1aV34Up::from_bits(&high.v90.to_bits()), Some(low));
}

#[test]
fn the_receiver_tells_the_info1a_layouts_apart_by_bits_34_to_39() {
    // A 70-bit INFO1a with whatever is asked for in 34:36 and 37:39, and
    // everything else zero.
    let raw = |lower: u32, upper: u32| {
        let mut info = Vec::with_capacity(38);
        put(&mut info, 0, 22);
        put(&mut info, lower, 3);
        put(&mut info, upper, 3);
        put(&mut info, 0, 10);
        frame(&info)
    };
    let reads = |bits: &[bool]| {
        (
            Info1a::from_bits(bits).is_some(),
            Info1aPcm::from_bits(bits).is_some(),
            Info1aPcmUp::from_bits(bits).is_some(),
        )
    };
    // V.90's Table 11, which is V.34's own: both fields a symbol rate.
    for upper in 0..6 {
        for lower in 0..6 {
            assert_eq!(reads(&raw(lower, upper)), (true, false, false), "{lower} {upper}");
        }
    }
    // V.90's Table 10 and V.92's Table 19: 8000 down, one of V.34's three
    // fastest up.
    for lower in 3..6 {
        assert_eq!(reads(&raw(lower, PCM_SYMBOL_RATE)), (false, true, false), "{lower}");
    }
    // V.92's Table 18: 8000 both ways.
    assert_eq!(reads(&raw(PCM_SYMBOL_RATE, PCM_SYMBOL_RATE)), (false, false, true));
    // Six above with 0, 1, 2 or 7 below is no layout at all, and seven
    // above is no layout whatever is below it.
    for lower in [0, 1, 2, 7] {
        assert_eq!(reads(&raw(lower, PCM_SYMBOL_RATE)), (false, false, false), "{lower}");
    }
    for lower in 0..8 {
        assert_eq!(reads(&raw(lower, 7)), (false, false, false), "{lower}");
    }
}

#[test]
fn a_table_18_frame_is_never_read_as_a_frequency_offset() {
    let asked = Info1aPcmUp { sections: 0, ltot_code: 0, lmax_code: 0, md_length: 0, uinfo: 67 };
    let bits = asked.to_bits();
    assert_eq!(get(&bits, 40, 10), 0x3ff);
    // What the trap looks like: those ten bits as a V.34 offset field.
    assert_eq!(offset_from(0x3ff), Some(-1));
    // And what actually happens to them: nothing. No layout that carries a
    // frequency offset will parse the frame at all.
    assert_eq!(Info1a::from_bits(&bits), None);
    assert_eq!(Info1aPcm::from_bits(&bits), None);
    assert_eq!(Info1aV34Up::from_bits(&bits), None);
    assert_eq!(Info1aPcmUp::from_bits(&bits), Some(asked));
}

#[test]
fn every_mh_sequence_matches_its_worked_vector() {
    let vectors = [
        (Mh::req(), 0x03E7u16),
        (Mh::ack(T1::from_code(1)), 0x24D5),
        (Mh::ack(T1::from_code(5)), 0x05D7),
        (Mh::ack(T1::NoLimit), 0x1556),
        (Mh::nack(), 0x01F7),
        (Mh::clrd(Cleardown::IncomingCall), 0x374C),
        (Mh::clrd(Cleardown::OutgoingCall), 0xF140),
        (Mh::clrd(Cleardown::Other), 0xC0C3),
        (Mh::cda(), 0x02EF),
        (Mh::frr(), 0x04DF),
    ];
    for (mh, want) in vectors {
        let bits = mh.to_bits();
        assert_eq!(bits.len(), MH_BITS, "{mh:?}");
        assert_eq!(sent_crc(&bits), want, "{mh:?}");
        assert_eq!(&bits[..4], &FILL);
        assert_eq!(&bits[4..12], &SYNC);
        assert_eq!(&bits[36..], &FILL);
        // The receiver's cheap check: the CRC run on after its own bits
        // leaves the register at nothing.
        assert_eq!(crc(&bits[12..MH_BITS - FILL.len()]), 0, "{mh:?}");
        assert_eq!(Mh::from_bits(&bits), Some(mh), "{mh:?}");
    }

    // Every T1 code an MHack can carry, and the patterns leftmost first.
    let acks = [
        0xA0DDu16, 0x24D5, 0xE2D9, 0x66D1, 0x81DF, 0x05D7, 0xC3DB, 0x47D3, 0xB05C, 0x3454,
        0xF258, 0x7650, 0x915E, 0x1556, 0xD35A, 0x5752,
    ];
    for (code, want) in (0..16u8).zip(acks) {
        let mh = Mh::ack(T1::from_code(code));
        let bits = mh.to_bits();
        assert_eq!(sent_crc(&bits), want, "code {code:04b}");
        assert_eq!(get_pattern(&bits, 12), MhIndication::Ack.code());
        assert_eq!(get_pattern(&bits, 16), code, "bit 16 carries the code's MSB");
        assert_eq!(Mh::from_bits(&bits), Some(mh));
    }

    // Every defined indication ends in a one, and the four that repeat
    // their indication really do.
    for indication in MhIndication::ALL {
        assert_eq!(indication.code() & 1, 1, "{indication:?}");
        assert_eq!(MhIndication::from_code(indication.code()), Some(indication));
    }
    for mh in [Mh::req(), Mh::nack(), Mh::cda(), Mh::frr()] {
        assert_eq!(mh.information, MhInformation::Repeat(mh.indication.code()));
    }
}

#[test]
fn an_undefined_mh_indication_is_ignored_and_a_reserved_cleardown_reason_is_kept() {
    let with = |indication: u8, information: u8| {
        let mut info = Vec::with_capacity(8);
        put_pattern(&mut info, indication);
        put_pattern(&mut info, information);
        frame(&info)
    };
    for indication in 0..16u8 {
        let heard = Mh::from_bits(&with(indication, indication));
        match MhIndication::from_code(indication) {
            Some(defined) => assert_eq!(heard.map(|mh| mh.indication), Some(defined)),
            None => assert_eq!(heard, None, "indication {indication:04b} is reserved"),
        }
    }
    for reason in 0..16u8 {
        let heard = Mh::from_bits(&with(MhIndication::Clrd.code(), reason))
            .expect("MHclrd is a defined indication");
        assert_eq!(heard.indication, MhIndication::Clrd);
        let kept = Cleardown::from_code(reason);
        assert_eq!(heard.information, MhInformation::Reason(kept));
        assert_eq!(kept.code(), reason, "the reason goes back out as it came in");
        match reason {
            0b0101 => assert_eq!(kept, Cleardown::IncomingCall),
            0b0110 => assert_eq!(kept, Cleardown::OutgoingCall),
            0b1010 => assert_eq!(kept, Cleardown::Other),
            other => assert_eq!(kept, Cleardown::Unknown(other)),
        }
    }
}

#[test]
fn a_reserved_t1_code_in_an_mhack_is_not_taken_as_a_grant() {
    let printed = [
        (1, 10),
        (2, 20),
        (3, 30),
        (4, 40),
        (5, 60),
        (6, 120),
        (7, 180),
        (8, 240),
        (9, 360),
        (10, 480),
        (11, 720),
        (12, 960),
    ];
    for (code, seconds) in printed {
        let t1 = T1::from_code(code);
        assert_eq!(t1, T1::Limit(seconds), "code {code:04b}");
        assert_eq!(t1.seconds(), Some(seconds));
        assert_eq!(t1.code(), code);
    }
    assert_eq!(T1::from_code(13), T1::NoLimit);
    assert_eq!(T1::NoLimit.seconds(), None);
    assert_eq!(T1::NoLimit.code(), 13);

    for code in [0b0000, 0b1110, 0b1111] {
        let t1 = T1::from_code(code);
        assert_eq!(t1, T1::Reserved(code), "code {code:04b}");
        assert_eq!(t1.seconds(), None, "a reserved code is not a period");
        assert_ne!(t1, T1::NoLimit, "nor is it an unbounded hold");
        assert_eq!(t1.code(), code, "and it goes back out as it came in");
        // Through the wire as well as through the enum.
        let heard = Mh::from_bits(&Mh::ack(t1).to_bits()).expect("a good MHack");
        assert_eq!(heard.information, MhInformation::Timeout(T1::Reserved(code)));
    }
    // Thirteen codes name a period and three do not; no code does both.
    let granted = (0..16u8).filter(|&c| T1::from_code(c) != T1::Reserved(c)).count();
    assert_eq!(granted, 13);
}

#[test]
fn a_timeout_table_33_cannot_name_is_granted_short_rather_than_reserved() {
    for (asked, sent, granted) in [
        (10, 1, Some(10)),
        (59, 4, Some(40)),
        (300, 8, Some(240)),
        (1000, 12, Some(960)),
        // Shorter than anything Table 33 names: there is no period to send.
        (9, 0, None),
        (0, 0, None),
    ] {
        let t1 = T1::Limit(asked);
        assert_eq!(t1.code(), sent, "{asked} s went out as {:04b}", t1.code());
        assert_eq!(t1.seconds(), granted, "{asked} s");
        // And what the far end will make of it, which is what settles it.
        let heard = Mh::from_bits(&Mh::ack(t1).to_bits()).expect("a good MHack");
        assert_eq!(heard.information, MhInformation::Timeout(T1::from_code(sent)), "{asked} s");
    }
    // Every pattern the wire can carry goes back out as itself, so nothing
    // is turned into something else on the way through.
    for code in 0..16u8 {
        assert_eq!(T1::from_code(code).code(), code, "code {code:04b}");
    }
}

#[test]
fn what_is_framed_comes_out_of_its_frame() {
    for len in [0usize, 8, 17, 77] {
        let info: Vec<bool> = (0..len).map(|i| i % 3 == 1).collect();
        let bits = frame(&info);
        assert_eq!(bits.len(), len + 32);
        assert_eq!(unframe(&bits, len + 32), Some(&info[..]));
        assert_eq!(unframe(&bits[..bits.len() - FILL.len()], len + 32), Some(&info[..]), "the last fill says nothing");
    }
}

#[test]
fn every_symbol_rate_has_its_number() {
    for (index, rate) in SymbolRate::ALL.into_iter().enumerate() {
        assert_eq!(rate.index(), index as u32);
        assert_eq!(SymbolRate::from_index(index as u32), Some(rate));
    }
    assert_eq!(SymbolRate::from_index(6), None);
    assert_eq!(SymbolRate::S3429.nominal(), 3429);
    assert_eq!(SymbolRate::S2400.nominal(), 2400);
}
