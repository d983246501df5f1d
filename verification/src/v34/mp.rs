//! The MP sequences of phase 4: what each end can take and give in data mode,
//! and the rates the two come to.
use vstd::prelude::*;

verus! {

/// The trellis codes.
#[derive(Debug, Clone, Copy, PartialEq, Eq, Structural)]
pub enum Trellis {
    States16,
    States32,
    States64,
}

/// What one end says of data mode.
#[derive(Debug, Clone, Copy, PartialEq, Eq)]
pub struct Mp {
    /// Maximum data rates each way, as multiples of 2400 bit/s.
    pub call_to_answer: u8,
    pub answer_to_call: u8,
    pub auxiliary: bool,
    pub trellis: Trellis,
    pub non_linear: bool,
    pub expanded_shaping: bool,
    /// Whether the far end's MP has been received.
    pub acknowledge: bool,
    /// The rates enabled: bit 0 for 2400 bit/s, and so on up.
    pub rates: u16,
    /// Whether the two directions may run at different rates.
    pub asymmetric: bool,
    /// The precoding coefficients, where this is a sequence that carries them.
    pub precoding: Option<[(i16, i16); 3]>,
}

impl Default for Mp {
    fn default() -> (mp: Mp)
        ensures
            mp == Mp::nothing(),
    {
        Mp {
            call_to_answer: 0,
            answer_to_call: 0,
            auxiliary: false,
            trellis: Trellis::States16,
            non_linear: false,
            expanded_shaping: false,
            acknowledge: false,
            rates: 0,
            asymmetric: false,
            precoding: None,
        }
    }
}

/// Whether a rate is among those enabled.
pub open spec fn enabled(rates: u16, rate: int) -> bool {
    1 <= rate <= 16 && (rates >> ((rate - 1) as u16)) & 1u16 == 1u16
}

/// The fastest rate enabled that is no faster than `limit`, or zero.
pub open spec fn fastest_enabled(rates: u16, limit: nat) -> nat
    decreases limit,
{
    if limit == 0 || enabled(rates, limit as int) {
        limit
    } else {
        fastest_enabled(rates, (limit - 1) as nat)
    }
}

/// The fastest enabled is enabled, and nothing between it and the limit is.
pub proof fn the_fastest_enabled_is_the_fastest(rates: u16, limit: nat)
    ensures
        fastest_enabled(rates, limit) <= limit,
        fastest_enabled(rates, limit) > 0 ==> enabled(
            rates,
            fastest_enabled(rates, limit) as int,
        ),
        forall|rate: int|
            fastest_enabled(rates, limit) < rate <= limit ==> !#[trigger] enabled(rates, rate),
    decreases limit,
{
    if limit > 0 && !enabled(rates, limit as int) {
        the_fastest_enabled_is_the_fastest(rates, (limit - 1) as nat);
    }
}

pub open spec fn lower(a: u8, b: u8) -> u8 {
    if a < b {
        a
    } else {
        b
    }
}

/// The rate within a limit, of which no modem can do more than fourteen times
/// 2400.
pub open spec fn within(rates: u16, limit: u8) -> nat {
    fastest_enabled(rates, lower(limit, 14) as nat)
}

impl Mp {
    /// Nothing said.
    pub open spec fn nothing() -> Mp {
        Mp {
            call_to_answer: 0,
            answer_to_call: 0,
            auxiliary: false,
            trellis: Trellis::States16,
            non_linear: false,
            expanded_shaping: false,
            acknowledge: false,
            rates: 0,
            asymmetric: false,
            precoding: None,
        }
    }

    /// Every rate up to one of them enabled.
    pub fn rates_up_to(highest: u8) -> (rates: u16)
        requires
            highest <= 15,
        ensures
            forall|rate: int|
                1 <= rate <= 16 ==> (#[trigger] enabled(rates, rate) <==> rate <= highest),
    {
        let rates: u16 = 0x7fffu16 >> (15 - highest);
        proof {
            let h = highest as u16;
            assert(rates == 0x7fffu16 >> ((15 - h) as u16));
            assert forall|rate: int| 1 <= rate <= 16 implies (#[trigger] enabled(rates, rate)
                <==> rate <= highest) by {
                let at = (rate - 1) as u16;
                assert(((0x7fffu16 >> ((15 - h) as u16)) >> at) & 1u16 == 1u16 <==> at < h)
                    by (bit_vector)
                    requires
                        h < 16,
                        at < 16,
                ;
            }
        }
        rates
    }

    /// The same, saying that the far end's has arrived.
    pub fn acknowledged(self) -> (mp: Mp)
        ensures
            mp == (Mp { acknowledge: true, ..self }),
    {
        Mp { acknowledge: true, ..self }
    }
}

fn fastest(rates: u16, limit: u8) -> (rate: u8)
    ensures
        rate == within(rates, limit),
        rate <= 14,
{
    let mut rate: u8 = if limit < 14 {
        limit
    } else {
        14
    };
    while rate > 0 && (rates >> ((rate - 1) as u16)) & 1 != 1
        invariant
            rate <= 14,
            within(rates, limit) == fastest_enabled(rates, rate as nat),
        decreases rate,
    {
        rate = rate - 1;
    }
    rate
}

/// The data rates both ways, as multiples of 2400 -- call to answer, then
/// answer to call -- from the call modem's MP and the answer modem's.
///
/// Each is the fastest rate both ends enable that is no faster than either
/// end's limit for that direction; unless either end wants symmetric rates, in
/// which case both are the fastest no faster than any of the four limits.
pub fn negotiate(call: &Mp, answer: &Mp) -> (rates: (u8, u8))
    ensures
        (rates.0 as nat, rates.1 as nat) == agreed(*call, *answer),
{
    let both: u16 = call.rates & answer.rates;
    let up: u8 = if call.call_to_answer < answer.call_to_answer {
        call.call_to_answer
    } else {
        answer.call_to_answer
    };
    let down: u8 = if call.answer_to_call < answer.answer_to_call {
        call.answer_to_call
    } else {
        answer.answer_to_call
    };
    if call.asymmetric && answer.asymmetric {
        (fastest(both, up), fastest(both, down))
    } else {
        let rate: u8 = fastest(both, if up < down {
            up
        } else {
            down
        });
        (rate, rate)
    }
}

/// The rates two MPs come to: call to answer, then answer to call.
pub open spec fn agreed(call: Mp, answer: Mp) -> (nat, nat) {
    let both = call.rates & answer.rates;
    let up = lower(call.call_to_answer, answer.call_to_answer);
    let down = lower(call.answer_to_call, answer.answer_to_call);
    if call.asymmetric && answer.asymmetric {
        (within(both, up), within(both, down))
    } else {
        (within(both, lower(up, down)), within(both, lower(up, down)))
    }
}

/// What is agreed is within both ends' limits in each direction and enabled at
/// both ends, and is the same both ways where either end asked for that.
pub proof fn the_rates_agreed_follow_both_limits(call: Mp, answer: Mp)
    ensures
        ({
            let (up, down) = agreed(call, answer);
            &&& up <= call.call_to_answer && up <= answer.call_to_answer
            &&& down <= call.answer_to_call && down <= answer.answer_to_call
            &&& up > 0 ==> enabled(call.rates, up as int) && enabled(answer.rates, up as int)
            &&& down > 0 ==> enabled(call.rates, down as int) && enabled(answer.rates, down as int)
            &&& !(call.asymmetric && answer.asymmetric) ==> up == down
            &&& agreed(answer, call) == agreed(call, answer)
        }),
{
    let both = call.rates & answer.rates;
    let (a, b) = (call.rates, answer.rates);
    let (up, down) = agreed(call, answer);
    assert(a & b == b & a) by (bit_vector);
    let up_limit = lower(call.call_to_answer, answer.call_to_answer);
    let down_limit = lower(call.answer_to_call, answer.answer_to_call);
    the_fastest_enabled_is_the_fastest(both, lower(up_limit, 14) as nat);
    the_fastest_enabled_is_the_fastest(both, lower(down_limit, 14) as nat);
    the_fastest_enabled_is_the_fastest(both, lower(lower(up_limit, down_limit), 14) as nat);
    assert forall|rate: int| enabled(both, rate) implies enabled(a, rate) && enabled(b, rate) by {
        let at = (rate - 1) as u16;
        assert((((a & b) >> at) & 1u16 == 1u16) ==> ((a >> at) & 1u16 == 1u16) && ((b >> at) & 1u16
            == 1u16)) by (bit_vector)
            requires
                at < 16,
        ;
    }
}

} // verus!
