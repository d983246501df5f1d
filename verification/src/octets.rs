//! Octets as bits, most significant first, which is how every data pump is
//! handed them and hands them back.
use crate::bits::{
    lemma_lsb_index, lemma_lsb_len, lemma_lsb_of_number, lemma_number_bound, lemma_number_of_lsb,
    lsb, number,
};
use std::collections::VecDeque;
use vstd::arithmetic::power2::{lemma2_to64, lemma_pow2_pos, lemma_pow2_unfold, pow2};
use vstd::prelude::*;

verus! {

/// An octet, most significant bit first.
pub open spec fn octet(byte: u8) -> Seq<bool> {
    lsb(byte as nat, 8).reverse()
}

/// Octets one after another.
pub open spec fn octets(bytes: Seq<u8>) -> Seq<bool>
    decreases bytes.len(),
{
    if bytes.len() == 0 {
        Seq::empty()
    } else {
        octets(bytes.drop_last()) + octet(bytes.last())
    }
}

/// Eight bits are one octet and no other.
pub proof fn octets_are_told_apart(a: u8, b: u8)
    ensures
        octet(a).len() == 8,
        octet(a) == octet(b) ==> a == b,
{
    lemma2_to64();
    lemma_lsb_len(a as nat, 8);
    lemma_lsb_len(b as nat, 8);
    lemma_number_of_lsb(a as nat, 8);
    lemma_number_of_lsb(b as nat, 8);
    assert(octet(a).reverse() =~= lsb(a as nat, 8));
    assert(octet(b).reverse() =~= lsb(b as nat, 8));
}

/// Eight bits to an octet.
pub proof fn lemma_octets_len(bytes: Seq<u8>)
    ensures
        octets(bytes).len() == 8 * bytes.len(),
    decreases bytes.len(),
{
    if bytes.len() > 0 {
        lemma_octets_len(bytes.drop_last());
        octets_are_told_apart(bytes.last(), bytes.last());
    }
}

/// Octets come back from their bits: two runs of them that are the same bits
/// are the same octets.
pub proof fn octets_come_back(a: Seq<u8>, b: Seq<u8>)
    ensures
        octets(a).len() == 8 * a.len(),
        octets(a) == octets(b) ==> a == b,
    decreases a.len(),
{
    lemma_octets_len(a);
    lemma_octets_len(b);
    if octets(a) == octets(b) && a.len() > 0 {
        assert(a.len() == b.len());
        lemma_octets_len(a.drop_last());
        lemma_octets_len(b.drop_last());
        let (x, y) = (octets(a), octets(b));
        assert(x.take(8 * (a.len() - 1)) =~= octets(a.drop_last()));
        assert(y.take(8 * (a.len() - 1)) =~= octets(b.drop_last()));
        assert(x.skip(8 * (a.len() - 1)) =~= octet(a.last()));
        assert(y.skip(8 * (a.len() - 1)) =~= octet(b.last()));
        octets_come_back(a.drop_last(), b.drop_last());
        octets_are_told_apart(a.last(), b.last());
        assert(a =~= a.drop_last().push(a.last()));
        assert(b =~= b.drop_last().push(b.last()));
    }
}

/// One octet behind what is queued.
fn push_octet(queue: &mut VecDeque<bool>, byte: u8)
    ensures
        final(queue)@ == old(queue)@ + octet(byte),
{
    let ghost before = queue@;
    let mut weight: u8 = 128;
    let mut left: usize = 8;
    proof {
        lemma2_to64();
        octets_are_told_apart(byte, byte);
    }
    while left > 0
        invariant
            left <= 8,
            octet(byte).len() == 8,
            left > 0 ==> weight == pow2((left - 1) as nat),
            queue@ == before + octet(byte).take(8 - left),
        decreases left,
    {
        proof {
            lemma_pow2_pos((left - 1) as nat);
        }
        queue.push_back(byte / weight % 2 == 1);
        left = left - 1;
        weight = weight / 2;
        proof {
            lemma_lsb_index(byte as nat, 8, left as nat);
            if left > 0 {
                lemma_pow2_unfold(left as nat);
            }
            assert(octet(byte)[7 - left] == lsb(byte as nat, 8)[left as int]);
            assert(octet(byte).take(8 - left) =~= octet(byte).take(7 - left).push(
                octet(byte)[7 - left],
            ));
        }
    }
    assert(octet(byte).take(8) =~= octet(byte));
}

/// Octets behind what is queued.
pub fn push_octets(queue: &mut VecDeque<bool>, bytes: &[u8])
    ensures
        final(queue)@ == old(queue)@ + octets(bytes@),
{
    let ghost before = queue@;
    let mut i: usize = 0;
    assert(queue@ =~= before + octets(bytes@.take(0)));
    while i < bytes.len()
        invariant
            i <= bytes@.len(),
            queue@ == before + octets(bytes@.take(i as int)),
        decreases bytes@.len() - i,
    {
        push_octet(queue, bytes[i]);
        i = i + 1;
        proof {
            let done = bytes@.take(i as int);
            assert(done.drop_last() =~= bytes@.take(i - 1));
            assert(queue@ =~= before + octets(done));
        }
    }
    assert(bytes@.take(i as int) =~= bytes@);
}

/// The octet that eight bits are.
fn octet_at(bits: &Vec<bool>, from: usize) -> (byte: u8)
    requires
        from + 8 <= bits@.len(),
    ensures
        octet(byte) == bits@.subrange(from as int, from + 8),
{
    let mut byte: u8 = 0;
    let mut i: usize = 0;
    let ghost eight = bits@.subrange(from as int, from + 8);
    proof {
        reveal(number);
    }
    assert(eight.take(0).reverse() =~= Seq::empty());
    while i < 8
        invariant
            i <= 8,
            from + 8 <= bits.len(),
            eight == bits@.subrange(from as int, from + 8),
            byte == number(eight.take(i as int).reverse()),
        decreases 8 - i,
    {
        proof {
            let turned = eight.take(i as int).reverse();
            let next = eight.take(i + 1).reverse();
            lemma2_to64();
            lemma_number_bound(turned);
            if turned.len() < 7 {
                vstd::arithmetic::power2::lemma_pow2_strictly_increases(turned.len(), 7);
            }
            reveal(number);
            assert(next.skip(1) =~= turned);
            assert(next[0] == eight[i as int]);
        }
        byte = byte * 2 + if bits[from + i] {
            1
        } else {
            0
        };
        i = i + 1;
    }
    proof {
        assert(eight.take(8) =~= eight);
        lemma_lsb_of_number(eight.reverse());
        assert(eight.reverse().reverse() =~= eight);
    }
    byte
}

/// Take whole octets, leaving any remainder.
pub fn take_octets(bits: &mut Vec<bool>) -> (bytes: Vec<u8>)
    ensures
        octets(bytes@) == old(bits)@.take(old(bits)@.len() as int / 8 * 8),
        bytes@.len() == old(bits)@.len() / 8,
        final(bits)@ == old(bits)@.skip(old(bits)@.len() as int / 8 * 8),
{
    let whole: usize = bits.len() / 8;
    let ghost before = bits@;
    let mut bytes: Vec<u8> = Vec::new();
    let mut i: usize = 0;
    assert(octets(bytes@) =~= before.take(0));
    while i < whole
        invariant
            i <= whole,
            whole == before.len() / 8,
            8 * whole <= bits.len(),
            bits@ == before,
            bytes@.len() == i,
            octets(bytes@) == before.take(8 * i),
        decreases whole - i,
    {
        let ghost done = bytes@;
        let byte: u8 = octet_at(bits, 8 * i);
        bytes.push(byte);
        i = i + 1;
        proof {
            assert(bytes@.drop_last() =~= done);
            assert(octets(bytes@) =~= before.take(8 * i));
        }
    }
    let rest = bits.split_off(8 * whole);
    *bits = rest;
    assert(bits@ =~= before.skip(8 * whole as int));
    bytes
}

/// The bits of an octet in the order they go: the first weighs 128, and each after it
/// half as much.
pub proof fn an_octet_goes_highest_bit_first(byte: u8)
    ensures
        octet(byte).len() == 8,
        octet(byte)[0] == (byte / 128 % 2 == 1),
        octet(byte)[1] == (byte / 64 % 2 == 1),
        octet(byte)[2] == (byte / 32 % 2 == 1),
        octet(byte)[3] == (byte / 16 % 2 == 1),
        octet(byte)[4] == (byte / 8 % 2 == 1),
        octet(byte)[5] == (byte / 4 % 2 == 1),
        octet(byte)[6] == (byte / 2 % 2 == 1),
        octet(byte)[7] == (byte % 2 == 1),
{
    lemma2_to64();
    lemma_lsb_len(byte as nat, 8);
    lemma_lsb_index(byte as nat, 8, 0);
    lemma_lsb_index(byte as nat, 8, 1);
    lemma_lsb_index(byte as nat, 8, 2);
    lemma_lsb_index(byte as nat, 8, 3);
    lemma_lsb_index(byte as nat, 8, 4);
    lemma_lsb_index(byte as nat, 8, 5);
    lemma_lsb_index(byte as nat, 8, 6);
    lemma_lsb_index(byte as nat, 8, 7);
}

/// Octets go one after another, the first of them first.
pub proof fn octets_go_in_order(a: Seq<u8>, byte: u8)
    ensures
        octets(seq![byte]) == octet(byte),
        octets(a.push(byte)) == octets(a) + octet(byte),
{
    assert(a.push(byte).drop_last() =~= a);
    assert(seq![byte].drop_last() =~= Seq::<u8>::empty());
    assert(octets(seq![byte].drop_last()) =~= Seq::empty());
    assert(octets(seq![byte]) =~= octet(byte));
}

} // verus!
