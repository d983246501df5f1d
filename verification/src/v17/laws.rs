//! What V.17's training and rates come to.
use super::{numbered, quarters_for, state_for, state_of, width, State, BRIDGE_PATTERN};
use crate::v32::state_point;
use vstd::prelude::*;

verus! {

/// A symbol carries 6 bits at 14 400 bit/s, 5 at 12 000, 4 at 9600 and 3 at 7200, and
/// there is no other rate.
pub proof fn each_rate_has_its_bits(rate: u32)
    ensures
        width(rate) is Some <==> rate == 14_400 || rate == 12_000 || rate == 9600 || rate == 7200,
        width(rate) is Some ==> 2400 * width(rate)->0 == rate,
{
}

/// Segment 2 sends C for 00, D for 01, A for 11 and B for 10: the point for a dibit is
/// opposite the one for the dibit turned over.
pub proof fn a_dibit_is_a_state(first: bool, second: bool)
    ensures
        state_point(numbered(state_for(false, false))) == (3int, 1int),
        state_point(numbered(state_for(false, true))) == (-1int, 3int),
        state_point(numbered(state_for(true, true))) == (-3int, -1int),
        state_point(numbered(state_for(true, false))) == (1int, -3int),
        ({
            let here = state_point(numbered(state_for(first, second)));
            state_point(numbered(state_for(!first, !second))) == (-here.0, -here.1)
        }),
{
}

/// Segment 3 turns the state by a quarter for 00, by nothing for 01, by a half for 10 and
/// by three quarters for 11.
pub proof fn a_dibit_turns_the_state()
    ensures
        90 * quarters_for(false, false) == 90,
        90 * quarters_for(false, true) == 0,
        90 * quarters_for(true, false) == 180,
        90 * quarters_for(true, true) == 270,
{
}

/// A state turned by quarters is at its point turned by as many.
pub proof fn a_turned_state_is_at_its_point_turned(state: State, quarters: int)
    requires
        0 <= quarters < 4,
    ensures
        ({
            let (x, y) = state_point(numbered(state));
            let to = state_point(numbered(state_of((numbered(state) + quarters) % 4)));
            &&& quarters == 0 ==> to == (x, y)
            &&& quarters == 1 ==> to == (-y, x)
            &&& quarters == 2 ==> to == (-x, -y)
            &&& quarters == 3 ==> to == (y, -x)
        }),
{
}

/// The states are points of the constellation of 7200 bit/s and of no other: the label
/// of a state, read with its least significant bit first, is 0110, 0101, 0010 or 0001.
pub proof fn a_state_has_its_label(state: State, rate: u32)
    ensures
        state.label(rate) is Some <==> rate == 7200,
        State::A.label(7200) == Some(6nat),
        State::B.label(7200) == Some(10nat),
        State::C.label(7200) == Some(4nat),
        State::D.label(7200) == Some(8nat),
{
}

/// The bridge pattern is 0000 0001 0001 0001, its ones four apart and the last bit one.
pub proof fn the_bridge_pattern_is_what_it_is(i: int)
    requires
        0 <= i < 16,
    ensures
        BRIDGE_PATTERN@[i] <==> i == 7 || i == 11 || i == 15,
{
}

} // verus!
