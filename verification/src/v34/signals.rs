//! The fixed signals of phases 3 and 4: how long each runs, and the sixteen-bit
//! sequences by which each end asks the other for a constellation.
use vstd::prelude::*;

verus! {

/// Symbols of S, and of S-bar after it.
pub const S_SYMBOLS: usize = 128;

pub const S_BAR_SYMBOLS: usize = 16;

/// Symbols of PP: six periods of forty-eight.
pub const PP_SYMBOLS: usize = 288;

/// Ones in E.
pub const E_BITS: usize = 20;

/// J asking for four points.
pub const J_FOUR: [bool; 16] = [
    false, false, false, false, true, false, false, true, true, false, false, true, false, false,
    false, true,
];

/// J asking for sixteen points.
pub const J_SIXTEEN: [bool; 16] = [
    false, false, false, false, true, true, false, true, true, false, false, true, false, false,
    false, true,
];

/// J', which ends J.
pub const J_PRIME: [bool; 16] = [
    true, true, true, true, true, false, false, true, true, false, false, true, false, false,
    false, true,
];

/// J asking for four points, as bits.
pub open spec fn four_asked() -> Seq<bool> {
    seq![
        false, false, false, false, true, false, false, true, true, false, false, true, false,
        false, false, true,
    ]
}

/// J asking for sixteen points, as bits.
pub open spec fn sixteen_asked() -> Seq<bool> {
    seq![
        false, false, false, false, true, true, false, true, true, false, false, true, false,
        false, false, true,
    ]
}

/// J', as bits.
pub open spec fn ended() -> Seq<bool> {
    seq![
        true, true, true, true, true, false, false, true, true, false, false, true, false, false,
        false, true,
    ]
}

/// The constellations training is sent with.
#[derive(Debug, Clone, Copy, PartialEq, Eq, Structural)]
pub enum Size {
    Four,
    Sixteen,
}

impl Size {
    pub open spec fn width(self) -> nat {
        match self {
            Size::Four => 2,
            Size::Sixteen => 4,
        }
    }

    pub open spec fn asked(self) -> Seq<bool> {
        match self {
            Size::Four => four_asked(),
            Size::Sixteen => sixteen_asked(),
        }
    }

    /// Bits a symbol carries.
    pub fn bits(self) -> (bits: usize)
        ensures
            bits == self.width(),
    {
        match self {
            Size::Four => 2,
            Size::Sixteen => 4,
        }
    }

    /// The J that asks for this size.
    pub fn j(self) -> (j: [bool; 16])
        ensures
            j@ == self.asked(),
    {
        let j = match self {
            Size::Four => J_FOUR,
            Size::Sixteen => J_SIXTEEN,
        };
        assert(j@ =~= self.asked());
        j
    }
}

/// No J can be taken for another, nor for the J' that ends it.
pub proof fn the_sequences_are_told_apart()
    ensures
        four_asked() != sixteen_asked(),
        four_asked() != ended(),
        sixteen_asked() != ended(),
        four_asked().len() == 16,
        sixteen_asked().len() == 16,
        ended().len() == 16,
{
    assert(four_asked()[5] != sixteen_asked()[5]);
    assert(four_asked()[0] != ended()[0]);
    assert(sixteen_asked()[0] != ended()[0]);
}

} // verus!
