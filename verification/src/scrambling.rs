//! Shift registers of past bits, as the scramblers of every modulation keep
//! them, and what a pair of them does to a stream.
//!
//! The transmitter divides by a polynomial and the receiver multiplies back:
//! the transmitter's register holds what it sent and the receiver's what it
//! heard, so the receiver needs no agreement on where the sequence began, only
//! the last few bits of what actually arrived.
use vstd::prelude::*;

verus! {

/// The bit so many bits back: one is the newest.
pub open spec fn tap(register: u32, back: u32) -> bool {
    (register >> ((back - 1) as u32)) & 1u32 == 1u32
}

/// A register once another bit has gone in.
pub open spec fn shifted_in(register: u32, bit: bool) -> u32 {
    (register << 1u32) | (if bit {
        1u32
    } else {
        0u32
    })
}

/// A bit in is the newest, and every bit before it is one further back.
pub proof fn lemma_shifted_in(register: u32, bit: bool, back: u32)
    requires
        1 <= back <= 31,
    ensures
        tap(shifted_in(register, bit), 1) == bit,
        tap(shifted_in(register, bit), (back + 1) as u32) == tap(register, back),
{
    let one = if bit {
        1u32
    } else {
        0u32
    };
    let before = (back - 1) as u32;
    assert((((register << 1u32) | one) >> 0u32) & 1u32 == one && (((register << 1u32) | one)
        >> ((before + 1) as u32)) & 1u32 == (register >> before) & 1u32) by (bit_vector)
        requires
            before < 31,
            one == 0u32 || one == 1u32,
    ;
}

/// The bit so many bits back.
pub fn tapped(register: u32, back: u32) -> (bit: bool)
    requires
        1 <= back <= 32,
    ensures
        bit == tap(register, back),
{
    (register >> (back - 1)) & 1 == 1
}

/// Another bit into a register.
pub fn shift_in(register: u32, bit: bool) -> (next: u32)
    ensures
        next == shifted_in(register, bit),
{
    (register << 1) | if bit {
        1
    } else {
        0
    }
}

/// A register after a run of bits has gone in.
pub open spec fn shifted_in_all(register: u32, bits: Seq<bool>) -> u32
    decreases bits.len(),
{
    if bits.len() == 0 {
        register
    } else {
        shifted_in(shifted_in_all(register, bits.drop_last()), bits.last())
    }
}

/// Two registers that have taken in the same bits agree as far back as those
/// bits go.
pub proof fn lemma_registers_agree(a: u32, b: u32, bits: Seq<bool>, back: u32)
    requires
        1 <= back <= 32,
        back <= bits.len(),
    ensures
        tap(shifted_in_all(a, bits), back) == bits[bits.len() - back],
        tap(shifted_in_all(a, bits), back) == tap(shifted_in_all(b, bits), back),
    decreases bits.len(),
{
    let (x, y) = (shifted_in_all(a, bits.drop_last()), shifted_in_all(b, bits.drop_last()));
    lemma_shifted_in(x, bits.last(), 1);
    lemma_shifted_in(y, bits.last(), 1);
    if back > 1 {
        lemma_registers_agree(a, b, bits.drop_last(), (back - 1) as u32);
        lemma_shifted_in(x, bits.last(), (back - 1) as u32);
        lemma_shifted_in(y, bits.last(), (back - 1) as u32);
        assert(bits.drop_last()[bits.len() - 1 - (back - 1)] == bits[bits.len() - back]);
    }
}

/// The sum of the bits at a polynomial's two taps.
pub open spec fn fed_back(register: u32, taps: (u32, u32)) -> bool {
    tap(register, taps.0) != tap(register, taps.1)
}

/// A stream divided by a polynomial.
pub open spec fn scrambled(register: u32, taps: (u32, u32), bits: Seq<bool>) -> Seq<bool>
    decreases bits.len(),
{
    if bits.len() == 0 {
        Seq::empty()
    } else {
        let before = scrambled(register, taps, bits.drop_last());
        before.push(bits.last() != fed_back(shifted_in_all(register, before), taps))
    }
}

/// A stream multiplied by a polynomial.
pub open spec fn descrambled(register: u32, taps: (u32, u32), bits: Seq<bool>) -> Seq<bool> {
    Seq::new(
        bits.len(),
        |i: int| bits[i] != fed_back(shifted_in_all(register, bits.take(i)), taps),
    )
}

/// Scrambling is undone by descrambling: from the first bit where the two
/// registers start alike, and otherwise from the bit at which the longer tap
/// reaches only bits that were sent.
pub proof fn descrambling_undoes_scrambling(
    sender: u32,
    receiver: u32,
    taps: (u32, u32),
    bits: Seq<bool>,
    i: int,
)
    requires
        1 <= taps.0 <= taps.1 <= 32,
        0 <= i < bits.len(),
        sender == receiver || i >= taps.1,
    ensures
        scrambled(sender, taps, bits).len() == bits.len(),
        descrambled(receiver, taps, scrambled(sender, taps, bits))[i] == bits[i],
{
    let sent = scrambled(sender, taps, bits);
    lemma_scrambled_prefix(sender, taps, bits, i);
    let before = sent.take(i);
    if sender != receiver {
        lemma_registers_agree(sender, receiver, before, taps.0);
        lemma_registers_agree(sender, receiver, before, taps.1);
    }
}

/// What has been sent so far does not depend on what is sent next.
pub proof fn lemma_scrambled_prefix(register: u32, taps: (u32, u32), bits: Seq<bool>, i: int)
    requires
        0 <= i <= bits.len(),
    ensures
        scrambled(register, taps, bits).len() == bits.len(),
        scrambled(register, taps, bits).take(i) == scrambled(register, taps, bits.take(i)),
        i < bits.len() ==> scrambled(register, taps, bits)[i] == (bits[i] != fed_back(
            shifted_in_all(register, scrambled(register, taps, bits).take(i)),
            taps,
        )),
    decreases bits.len(),
{
    if bits.len() == 0 {
        assert(scrambled(register, taps, bits).take(0) =~= scrambled(register, taps, bits));
        assert(bits.take(0) =~= bits);
    } else if i == bits.len() {
        lemma_scrambled_prefix(register, taps, bits.drop_last(), i - 1);
        assert(bits.take(i) =~= bits);
        assert(scrambled(register, taps, bits).take(i) =~= scrambled(register, taps, bits));
    } else {
        let before = scrambled(register, taps, bits.drop_last());
        lemma_scrambled_prefix(register, taps, bits.drop_last(), i);
        assert(bits.take(i) =~= bits.drop_last().take(i));
        assert(scrambled(register, taps, bits).take(i) =~= before.take(i));
        if i == bits.len() - 1 {
            assert(before.take(i) =~= before);
        }
    }
}

} // verus!
