//! Numbers as bits, least significant first, which is how every multi-bit
//! field of an INFO sequence is written.
use vstd::arithmetic::power2::{lemma2_to64, lemma_pow2_strictly_increases, lemma_pow2_unfold, pow2};
use vstd::prelude::*;

verus! {

/// The low `width` bits of `value`, least significant first.
#[verifier::opaque]
pub open spec fn lsb(value: nat, width: nat) -> Seq<bool>
    decreases width,
{
    if width == 0 {
        Seq::empty()
    } else {
        seq![value % 2 == 1] + lsb(value / 2, (width - 1) as nat)
    }
}

/// The number that `bits` spell, least significant first.
#[verifier::opaque]
pub open spec fn number(bits: Seq<bool>) -> nat
    decreases bits.len(),
{
    if bits.len() == 0 {
        0
    } else {
        (if bits[0] { 1nat } else { 0nat }) + 2 * number(bits.skip(1))
    }
}

/// A field is as wide as it was asked to be.
pub proof fn lemma_lsb_len(value: nat, width: nat)
    ensures
        lsb(value, width).len() == width,
    decreases width,
{
    reveal(lsb);
    if width > 0 {
        lemma_lsb_len(value / 2, (width - 1) as nat);
    }
}

/// Each bit of a field is the bit of the number with that weight.
pub proof fn lemma_lsb_index(value: nat, width: nat, i: nat)
    requires
        i < width,
    ensures
        lsb(value, width).len() == width,
        lsb(value, width)[i as int] == (value / pow2(i) % 2 == 1),
    decreases width,
{
    reveal(lsb);
    lemma_lsb_len(value, width);
    lemma2_to64();
    if i > 0 {
        lemma_lsb_index(value / 2, (width - 1) as nat, (i - 1) as nat);
        lemma_pow2_unfold(i);
        vstd::arithmetic::power2::lemma_pow2_pos((i - 1) as nat);
        vstd::arithmetic::div_mod::lemma_div_denominator(
            value as int,
            2,
            pow2((i - 1) as nat) as int,
        );
        assert(lsb(value, width)[i as int] == lsb(value / 2, (width - 1) as nat)[i - 1]);
    } else {
        assert(value / 1 == value);
    }
}

/// A field read back is the low bits of what was written.
pub proof fn lemma_number_of_lsb(value: nat, width: nat)
    ensures
        number(lsb(value, width)) == value % pow2(width),
        value < pow2(width) ==> number(lsb(value, width)) == value,
    decreases width,
{
    reveal(lsb);
    reveal(number);
    if width == 0 {
        lemma2_to64();
        assert(value % 1 == 0);
    } else {
        let rest = lsb(value / 2, (width - 1) as nat);
        lemma_number_of_lsb(value / 2, (width - 1) as nat);
        lemma_pow2_unfold(width);
        assert(lsb(value, width).skip(1) =~= rest);
        let p = pow2((width - 1) as nat);
        vstd::arithmetic::power2::lemma_pow2_pos((width - 1) as nat);
        vstd::arithmetic::div_mod::lemma_mod_breakdown(value as int, 2, p as int);
        assert(value % (2 * p) == 2 * ((value / 2) % p) + value % 2);
        if value < pow2(width) {
            vstd::arithmetic::div_mod::lemma_small_mod(value, pow2(width));
        }
    }
}

/// Bits written back from the number they spell are the same bits.
pub proof fn lemma_lsb_of_number(bits: Seq<bool>)
    ensures
        lsb(number(bits), bits.len()) == bits,
    decreases bits.len(),
{
    reveal(lsb);
    reveal(number);
    if bits.len() > 0 {
        lemma_lsb_of_number(bits.skip(1));
        assert(number(bits) / 2 == number(bits.skip(1)));
        assert(bits =~= seq![bits[0]] + bits.skip(1));
    }
}

/// So many bits spell less than that power of two.
pub proof fn lemma_number_bound(bits: Seq<bool>)
    ensures
        number(bits) < pow2(bits.len()),
    decreases bits.len(),
{
    reveal(number);
    if bits.len() == 0 {
        lemma2_to64();
    } else {
        lemma_number_bound(bits.skip(1));
        lemma_pow2_unfold(bits.len());
    }
}

/// Adding a field to the end of a run of bits leaves the fields before it where
/// they were.
pub proof fn lemma_append(bits: Seq<bool>, field: Seq<bool>)
    ensures
        (bits + field).len() == bits.len() + field.len(),
        (bits + field).subrange(bits.len() as int, (bits.len() + field.len()) as int) == field,
        forall|i: int, j: int|
            0 <= i <= j <= bits.len() ==> #[trigger] (bits + field).subrange(i, j)
                == bits.subrange(i, j),
{
    assert((bits + field).subrange(bits.len() as int, (bits.len() + field.len()) as int) =~= field);
    assert forall|i: int, j: int| 0 <= i <= j <= bits.len() implies #[trigger] (bits
        + field).subrange(i, j) == bits.subrange(i, j) by {
        assert((bits + field).subrange(i, j) =~= bits.subrange(i, j));
    }
}

/// Adding a number to the end of a run of bits: it is read back from there,
/// and what was there before stays where it was.
pub proof fn lemma_append_number(bits: Seq<bool>, value: nat, width: nat)
    ensures
        lsb(value, width).len() == width,
        (bits + lsb(value, width)).len() == bits.len() + width,
        value < pow2(width) ==> number(
            (bits + lsb(value, width)).subrange(bits.len() as int, (bits.len() + width) as int),
        ) == value,
        forall|i: int, j: int|
            0 <= i <= j <= bits.len() ==> #[trigger] (bits + lsb(value, width)).subrange(i, j)
                == bits.subrange(i, j),
{
    lemma_lsb_len(value, width);
    lemma_number_of_lsb(value, width);
    lemma_append(bits, lsb(value, width));
}

/// Bits into a sequence, least significant first.
pub fn put(bits: &mut Vec<bool>, value: u32, width: usize)
    ensures
        final(bits)@ == old(bits)@ + lsb(value as nat, width as nat),
{
    proof {
        reveal(lsb);
    }
    let ghost before = bits@;
    let mut left: u32 = value;
    let mut i: usize = 0;
    assert(bits@ + lsb(left as nat, width as nat) =~= before + lsb(value as nat, width as nat));
    while i < width
        invariant
            i <= width,
            bits@ + lsb(left as nat, (width - i) as nat) == before + lsb(
                value as nat,
                width as nat,
            ),
        decreases width - i,
    {
        proof {
            reveal(lsb);
        }
        let ghost held = bits@;
        bits.push(left % 2 == 1);
        proof {
            let rest = lsb((left / 2) as nat, (width - i - 1) as nat);
            assert(held + (seq![left % 2 == 1] + rest) =~= bits@ + rest);
        }
        left = left / 2;
        i = i + 1;
    }
    assert(bits@ =~= bits@ + lsb(left as nat, 0));
}

/// A field out of a sequence, least significant first.
pub fn get(bits: &[bool], from: usize, width: usize) -> (value: u32)
    requires
        from + width <= bits@.len(),
        width <= 32,
    ensures
        value == number(bits@.subrange(from as int, from + width)),
        value < pow2(width as nat),
{
    proof {
        reveal(number);
    }
    let end: usize = bits.len();
    let mut value: u32 = 0;
    let mut left: usize = width;
    assert(bits@.subrange(from + width, from + width) =~= Seq::empty());
    while left > 0
        invariant
            left <= width <= 32,
            from + width <= end == bits@.len(),
            value == number(bits@.subrange(from + left, from + width)),
        decreases left,
    {
        proof {
            reveal(number);
        }
        left = left - 1;
        proof {
            let rest = bits@.subrange(from + left + 1, from + width);
            assert(bits@.subrange(from + left, from + width).skip(1) =~= rest);
            lemma_number_bound(rest);
            lemma2_to64();
            if rest.len() < 31 {
                lemma_pow2_strictly_increases(rest.len(), 31);
            }
        }
        value = value * 2 + if bits[from + left] { 1 } else { 0 };
    }
    proof {
        lemma_number_bound(bits@.subrange(from as int, from + width));
    }
    value
}

/// The number a four-bit pattern is carried as: its leftmost bit, the first in
/// time, weighs eight.
pub open spec fn pattern_number(bits: Seq<bool>) -> nat {
    number(bits.reverse())
}

/// A four-bit pattern, leftmost bit first in time.
pub open spec fn pattern(nibble: nat) -> Seq<bool> {
    lsb(nibble, 4).reverse()
}

/// A pattern read back is the pattern that was written, and the other way
/// about.
pub proof fn lemma_patterns(nibble: nat, bits: Seq<bool>)
    requires
        nibble < 16,
        bits.len() == 4,
    ensures
        pattern(nibble).len() == 4,
        pattern_number(pattern(nibble)) == nibble,
        pattern(pattern_number(bits)) == bits,
        pattern_number(bits) < 16,
{
    lemma2_to64();
    lemma_lsb_len(nibble, 4);
    lemma_number_of_lsb(nibble, 4);
    assert(lsb(nibble, 4).reverse().reverse() =~= lsb(nibble, 4));
    lemma_lsb_of_number(bits.reverse());
    lemma_number_bound(bits.reverse());
    assert(bits.reverse().reverse() =~= bits);
}

/// A four-bit pattern into a sequence, leftmost bit first in time.
///
/// Values given as bit patterns go leftmost bit first, where values given as
/// integers go least significant bit first. The nibble is carried with its
/// leftmost bit in bit 3, so that `0011` is 3. A pattern is four bits and no
/// more.
pub fn put_pattern(bits: &mut Vec<bool>, nibble: u8)
    requires
        nibble < 16,
    ensures
        final(bits)@ == old(bits)@ + pattern(nibble as nat),
{
    let ghost before = bits@;
    bits.push(nibble / 8 % 2 == 1);
    bits.push(nibble / 4 % 2 == 1);
    bits.push(nibble / 2 % 2 == 1);
    bits.push(nibble % 2 == 1);
    proof {
        reveal_with_fuel(lsb, 5);
        assert(bits@ =~= before + pattern(nibble as nat));
    }
}

/// A four-bit pattern out of a sequence, leftmost bit first in time.
pub fn get_pattern(bits: &[bool], from: usize) -> (nibble: u8)
    requires
        from + 4 <= bits@.len(),
    ensures
        nibble == pattern_number(bits@.subrange(from as int, from + 4)),
        nibble < 16,
{
    assert(from + 4 <= bits.len());
    let mut nibble: u8 = 0;
    if bits[from] {
        nibble = nibble + 8;
    }
    if bits[from + 1] {
        nibble = nibble + 4;
    }
    if bits[from + 2] {
        nibble = nibble + 2;
    }
    if bits[from + 3] {
        nibble = nibble + 1;
    }
    proof {
        let turned = bits@.subrange(from as int, from + 4).reverse();
        reveal_with_fuel(number, 5);
        assert(turned.skip(1)[0] == turned[1]);
        assert(turned.skip(1).skip(1)[0] == turned[2]);
        assert(turned.skip(1).skip(1).skip(1)[0] == turned[3]);
    }
    nibble
}

} // verus!
