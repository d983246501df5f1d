//! Start-stop framing, and the 300 bit/s receiver on it.

use softmodem::bell103::{Bell103Rx, Role, BAUD};
use softmodem::framing::{AsyncBits, AsyncFramer};

/// Render bytes as an idealised 8N1 level waveform.
fn wave(bytes: &[u8], sps: usize) -> Vec<i32> {
    let mut v = vec![1; sps * 4]; // idle mark
    for &b in bytes {
        v.extend(std::iter::repeat_n(-1, sps)); // start
        for i in 0..8 {
            let bit = (b >> i) & 1;
            v.extend(std::iter::repeat_n(if bit == 1 { 1 } else { -1 }, sps));
        }
        v.extend(std::iter::repeat_n(1, sps * 2)); // stop + idle
    }
    v
}

#[test]
fn round_trips_ascii() {
    let msg = b"login:CACTUS\r\n";
    let sps = 53usize; // 16000 / 300, truncated as a real receiver would
    let mut f = AsyncFramer::new(300, 300 * sps as u32, 8);
    let got: Vec<u8> = wave(msg, sps)
        .into_iter()
        .filter_map(|l| f.feed(l, true))
        .collect();
    assert_eq!(got, msg, "got {:?}", String::from_utf8_lossy(&got));
    assert_eq!(f.framing_errors, 0);
}

#[test]
fn rejects_a_half_bit_glitch() {
    let sps = 53usize;
    let mut f = AsyncFramer::new(300, 300 * sps as u32, 8);
    let mut v = vec![1; sps * 4];
    v.extend(std::iter::repeat_n(-1, sps / 8)); // far too short to be a start bit
    v.extend(std::iter::repeat_n(1, sps * 4));
    let got: Vec<u8> = v.into_iter().filter_map(|l| f.feed(l, true)).collect();
    assert!(got.is_empty(), "glitch produced {got:?}");
}

#[test]
fn loss_of_carrier_aborts_a_partial_character() {
    let sps = 53usize;
    let mut f = AsyncFramer::new(300, 300 * sps as u32, 8);
    let v = wave(b"A", sps);
    let half = v.len() / 2;
    for &l in &v[..half] {
        f.feed(l, true);
    }
    assert!(f.feed(0, false).is_none());
    for &l in &v[half..] {
        assert!(f.feed(l, true).is_none(), "resumed a torn character");
    }
}

#[test]
fn what_is_framed_is_what_is_read_at_every_width() {
    for data_bits in 5..=8usize {
        let framing = AsyncBits::new(data_bits);
        for sps in [2u32, 3, 7, 53] {
            let mut f = AsyncFramer::new(300, 300 * sps, data_bits as u32);
            let mut got = Vec::new();
            for value in 0..=255u8 {
                for bit in framing.encode(value) {
                    for _ in 0..sps {
                        got.extend(f.feed(if bit { 5 } else { -5 }, true));
                    }
                }
            }
            let kept: Vec<u8> = (0..=255u16).map(|v| (v % (1 << data_bits)) as u8).collect();
            assert_eq!(got, kept);
            assert_eq!(f.framing_errors, 0);
        }
    }
}

#[test]
fn a_character_is_framed_with_its_least_bit_first() {
    assert_eq!(
        AsyncBits::new(8).encode(0x41),
        [false, true, false, false, false, false, false, true, false, true]
    );
}

#[test]
fn a_missing_stop_bit_is_counted_and_nothing_comes_of_it() {
    let mut f = AsyncFramer::new(300, 3000, 8);
    f.feed(1, true);
    for _ in 0..110 {
        assert!(f.feed(-1, true).is_none());
    }
    assert_eq!(f.framing_errors, 1);
}

#[test]
fn one_level_is_sampled_for_each_bit() {
    let mut f = AsyncFramer::new(300, 3000, 8);
    let mut sampled = Vec::new();
    for l in wave(&[0x55], 10) {
        f.feed(l * 7, true);
        sampled.extend(f.take_sampled());
    }
    assert_eq!(sampled, [7, -7, 7, -7, 7, -7, 7, -7]);
    f.feed(1, true);
    f.reset();
    assert_eq!(f.take_sampled(), None);
}

#[test]
fn roles_listen_to_the_opposite_band() {
    assert_eq!(Role::Originate.receive_tones(), (2025, 2225));
    assert_eq!(Role::Answer.receive_tones(), (1070, 1270));
}

#[test]
fn a_receiver_reads_what_the_discriminator_hears() {
    let mut rx = Bell103Rx::new(Role::Originate, BAUD * 10);
    assert_eq!((rx.space, rx.mark), (2025, 2225));
    let mut got = Vec::new();
    let mut symbols = 0;
    for l in wave(b"hi", 10) {
        got.extend(rx.feed(l, true));
        symbols += usize::from(rx.take_symbol().is_some());
        assert_eq!(rx.level(), l);
        assert!(rx.carrier());
    }
    assert_eq!(got, b"hi");
    assert_eq!(symbols, 16);
    assert_eq!(rx.framing_errors(), 0);
    let tapped = Bell103Rx::with_tones(980, 1180, 8000);
    assert_eq!((tapped.space, tapped.mark, tapped.carrier()), (980, 1180, false));
}

/// Bits on the line as they are sampled: each sample carries the bit that is on the line
/// when it is taken.
fn sampled(bits: &[bool], baud: usize, fs: usize) -> Vec<i32> {
    (0..).take_while(|i| i * baud < bits.len() * fs).map(|i| if bits[i * baud / fs] { 7 } else { -7 }).collect()
}

#[test]
fn a_bit_need_not_be_a_whole_number_of_samples() {
    // The receiver's own rate, one just above four samples to a bit, and two to a bit.
    for (baud, fs) in [(300, 16_000), (300, 8000), (3, 13), (7, 29), (1, 2)] {
        for data_bits in 5..=8 {
            let values: Vec<u8> = (0..=255).collect();
            let framing = AsyncBits::new(data_bits);
            let bits: Vec<bool> = values.iter().flat_map(|&v| framing.encode(v)).collect();
            let mut f = AsyncFramer::new(baud as u32, fs as u32, data_bits as u32);
            let got: Vec<u8> = sampled(&bits, baud, fs).into_iter().filter_map(|l| f.feed(l, true)).collect();
            let kept: Vec<u8> = values.iter().map(|&v| (u32::from(v) % (1 << data_bits)) as u8).collect();
            assert_eq!(got, kept, "{fs} samples to {baud} bits of {data_bits}");
            assert_eq!(f.framing_errors, 0);
        }
    }
}

#[test]
fn two_samples_to_a_bit_are_enough_for_a_character_that_begins_with_one() {
    for (baud, fs) in [(2, 5), (3, 7), (4, 9), (5, 10), (7, 15)] {
        for value in 0..=255u8 {
            let bits = AsyncBits::new(8).encode(value);
            let mut f = AsyncFramer::new(baud as u32, fs as u32, 8);
            let got: Vec<u8> = sampled(&bits, baud, fs).into_iter().filter_map(|l| f.feed(l, true)).collect();
            assert_eq!(got, [value], "{fs} samples to {baud} bits");
        }
    }
    // A run of them can drift until a bit is sampled after its end.
    let bits: Vec<bool> = [0x15u8, 0x15].iter().flat_map(|&v| AsyncBits::new(5).encode(v)).collect();
    let mut f = AsyncFramer::new(2, 5, 5);
    let got: Vec<u8> = sampled(&bits, 2, 5).into_iter().filter_map(|l| f.feed(l, true)).collect();
    assert_ne!(got, [0x15, 0x15]);
}
