//! What V.32's start-up comes to, told in what is on the line and in symbols of it.
use crate::v32::startup::{
    end_like, offering, rate_in, rate_like, Ear, Listener, RateDetector, Role, Startup, State, Status,
};
use crate::v32::Signal;
use vstd::prelude::*;

verus! {

/// A quiet line and a loud one are read alike: amplitudes all so many times as large are
/// heard as the same signal.
pub proof fn the_scale_makes_no_difference(quiet: Listener, loud: Listener, times: int)
    requires
        quiet.level >= 20000,
        times >= 1,
        loud.answer == quiet.answer * times,
        loud.carrier == quiet.carrier * times,
        loud.low == quiet.low * times,
        loud.high == quiet.high * times,
        loud.level == quiet.level * times,
    ensures
        loud.classified() == quiet.classified(),
{
    let (level, answer, carrier, low, high) = (
        quiet.level as int,
        quiet.answer as int,
        quiet.carrier as int,
        quiet.low as int,
        quiet.high as int,
    );
    assert(level * times >= 20000 && (10 * (answer * times) > 7 * (level * times) <==> 10 * answer
        > 7 * level) && (10 * (carrier * times) > 7 * (level * times) <==> 10 * carrier > 7 * level)
        && (2 * (low * times) > level * times <==> 2 * low > level) && (2 * (high * times) > level
        * times <==> 2 * high > level)) by (nonlinear_arith)
        requires
            times >= 1,
            level >= 20000,
    ;
}

/// What is heard: nothing on a quiet line; on any other the answering tone wherever it
/// stands above seven tenths of the whole, and failing that the carrier by the same
/// measure and the two sidebands by half, each alone or both together.
pub proof fn a_signal_is_told_by_its_lines(l: Listener)
    ensures
        l.classified() is Nothing <==> l.level < 20000,
        l.level >= 20000 ==> (l.classified() is AnswerTone <==> l.answer * 10 > l.level * 7),
        l.level >= 20000 && l.answer * 10 <= l.level * 7 ==> {
            let carrier = l.carrier * 10 > l.level * 7;
            let sidebands = l.low * 2 > l.level && l.high * 2 > l.level;
            &&& l.classified() is Conditioning <==> carrier && sidebands
            &&& l.classified() is Carrier <==> carrier && !sidebands
            &&& l.classified() is Alternation <==> !carrier && sidebands
            &&& l.classified() is Spread <==> !carrier && !sidebands
        },
        l.level >= 20000 && l.answer >= l.level ==> l.classified() is AnswerTone,
        l.level >= 20000 && l.answer == 0 && l.low == 0 && l.carrier >= l.level
            ==> l.classified() is Carrier,
{
}

/// Whether a bit of a sequence is set, B0 being the first sent.
pub open spec fn b(s: u16, n: u16) -> bool {
    (s >> ((15 - n) as u16)) & 1u16 == 1u16
}

/// A rate signal has B0 to B3 zero, an E has them one, and both have B7, B11 and B15 one.
/// B6 offers 9600, B5 4800 and B4 2400, and the highest of them counts.
pub proof fn a_sequence_is_told_by_its_bits(s: u16)
    ensures
        rate_like(s) <==> !b(s, 0) && !b(s, 1) && !b(s, 2) && !b(s, 3) && b(s, 7) && b(s, 11) && b(
            s,
            15,
        ),
        end_like(s) <==> b(s, 0) && b(s, 1) && b(s, 2) && b(s, 3) && b(s, 7) && b(s, 11) && b(
            s,
            15,
        ),
        rate_in(s) == (if b(s, 6) {
            9600u32
        } else if b(s, 5) {
            4800
        } else if b(s, 4) {
            2400
        } else {
            0
        }),
{
    assert((s & 0xf000u16 == 0u16 <==> (s >> 15u16) & 1u16 == 0u16 && (s >> 14u16) & 1u16 == 0u16
        && (s >> 13u16) & 1u16 == 0u16 && (s >> 12u16) & 1u16 == 0u16) && (s & 0xf000u16 == 0xf000u16
        <==> (s >> 15u16) & 1u16 == 1u16 && (s >> 14u16) & 1u16 == 1u16 && (s >> 13u16) & 1u16
        == 1u16 && (s >> 12u16) & 1u16 == 1u16) && (s & 0x0111u16 == 0x0111u16 <==> (s >> 8u16)
        & 1u16 == 1u16 && (s >> 4u16) & 1u16 == 1u16 && (s >> 0u16) & 1u16 == 1u16) && (s
        & 0x0200u16 != 0u16 <==> (s >> 9u16) & 1u16 == 1u16) && (s & 0x0400u16 != 0u16 <==> (s
        >> 10u16) & 1u16 == 1u16) && (s & 0x0800u16 != 0u16 <==> (s >> 11u16) & 1u16 == 1u16) && (
    forall|n: u16| #![trigger (s >> n) & 1u16] (s >> n) & 1u16 == 0u16 || (s >> n) & 1u16 == 1u16))
        by (bit_vector);
}

/// The calling modem, a symbol on: silent until it has heard the answering tone for a
/// second without a break, or the alternation; then state A until that turns over, which
/// starts its clock; 64 symbols more, and state C until its own reversal is answered,
/// which stops the clock.
pub proof fn the_calling_modem_answers_a_reversal_in_64_symbols(
    s: Startup,
    reversal: bool,
    sequence: Option<u16>,
    latency: u32,
)
    requires
        s.wf(),
        s.held < s.total,
    ensures
        ({
            let next = s.advanced(reversal, sequence, latency);
            let heard = s.listener.classified();
            &&& s.state == State::Listening ==> {
                &&& next.signal == Signal::Silent
                &&& next.state == State::Aa <==> heard is Alternation || (heard is AnswerTone
                    && s.held + 1 >= 2400)
                &&& next.state == State::Aa || (next.state == State::Listening && next.held == if
                heard is AnswerTone {
                    s.held + 1
                } else {
                    0
                })
            }
            &&& s.state == State::Aa ==> {
                &&& next.signal == Signal::StateA
                &&& reversal ==> next.state == State::AaToCc && next.timer == Some(0u64)
                    && next.symbols == 0
                &&& !reversal ==> next.state == State::Aa && next.timer == s.timer
            }
            &&& s.state == State::AaToCc ==> if s.symbols >= 64 {
                next.state == State::Cc && next.signal == Signal::StateC && next.timer == s.timer
            } else {
                next == s
            }
            &&& s.state == State::Cc ==> if reversal {
                next.state == State::AwaitingR1 && next.signal == Signal::Silent && next.timer
                    is None
            } else {
                next == s
            }
        }),
{
    reveal(Startup::advanced);
}

/// The answering modem, a symbol on: its tone for 7920 symbols, then states A and C by
/// turns, until it has sent 128 and an even number of them and heard the carrier for 64
/// without a break. It turns them over and starts its clock; the far end's reversal stops
/// it, and is answered in 64 symbols. When the carrier has dropped to a quarter for 16
/// symbols, it is silent for 16 more and begins its training.
pub proof fn the_answering_modem_ranges(
    s: Startup,
    reversal: bool,
    sequence: Option<u16>,
    latency: u32,
)
    requires
        s.wf(),
        s.held < s.total,
    ensures
        ({
            let next = s.advanced(reversal, sequence, latency);
            let carrier = s.listener.classified() is Carrier;
            &&& s.state == State::AnswerTone ==> if s.symbols >= 7920 {
                next.state == State::Ac && next.signal == Signal::AlternateAC
            } else {
                next.state == State::AnswerTone && next.signal == Signal::AnswerTone
            }
            &&& s.state == State::Ac ==> if s.symbols >= 128 && s.symbols % 2 == 0 && carrier
                && s.held + 1 >= 64 {
                next.state == State::Ca && next.signal == Signal::AlternateCA && next.timer == Some(
                    0u64,
                ) && next.symbols == 0
            } else {
                next.state == State::Ac && next.signal == s.signal && next.timer == s.timer
                    && next.held == (if carrier {
                    s.held + 1
                } else {
                    0
                })
            }
            &&& s.state == State::Ca ==> if reversal {
                next.state == State::CaToAc && next.timer is None && next.symbols == 0
            } else {
                next.state == State::Ca && next.timer == s.timer
            }
            &&& s.state == State::CaToAc ==> if s.symbols >= 64 {
                next.state == State::AcAgain && next.signal == Signal::AlternateAC
            } else {
                next.state == State::CaToAc && next.signal == s.signal
            }
            &&& s.state == State::Ca || s.state == State::CaToAc || (s.state == State::Ac
                && carrier) ==> next.carrier_peak >= s.carrier_peak && next.carrier_peak
                >= s.listener.carrier && (next.carrier_peak == s.carrier_peak || next.carrier_peak
                == s.listener.carrier)
            &&& s.state == State::AcAgain ==> {
                let dropped = s.listener.carrier * 4 < s.carrier_peak;
                if dropped && s.held + 1 >= 16 {
                    next.state == State::Gap && next.signal == Signal::Silent && next.symbols == 0
                } else {
                    next.state == State::AcAgain && next.held == if dropped {
                        s.held + 1
                    } else {
                        0
                    }
                }
            }
            &&& s.state == State::Gap ==> next.state == if s.symbols >= 16 {
                State::SendS
            } else {
                State::Gap
            }
        }),
{
    reveal(Startup::advanced);
}

/// The clock of either end reads the line: what it ran for, less the 64 symbols that the
/// far end waits and, at the calling modem, its own 64; less what its reversal detector
/// and the pulse shapers add, each twice over.
pub proof fn the_clock_reads_the_line(s: Startup, sequence: Option<u16>, latency: u32, line: u64)
    requires
        s.wf(),
        s.held < s.total,
        s.state == State::Cc && s.role == Role::Calling || s.state == State::Ca && s.role
            == Role::Answering,
        s.timer matches Some(timer) && timer == line + (if s.state == State::Cc {
            128int
        } else {
            64
        }) + (2 * 2400 * 2 * latency + s.fs) / (2 * s.fs as int) + 2 * s.shaping_delay,
    ensures
        s.advanced(true, sequence, latency).round_trip == line,
{
    reveal(Startup::advanced);
}

/// Training: 256 symbols of S, 16 of S-bar, 1280 of TRN, and then this end's offer.
pub proof fn the_training_lasts_what_it_should(
    s: Startup,
    reversal: bool,
    sequence: Option<u16>,
    latency: u32,
)
    requires
        s.wf(),
        s.held < s.total,
    ensures
        ({
            let next = s.advanced(reversal, sequence, latency);
            &&& s.state == State::SendS ==> if s.symbols >= 256 {
                next.state == State::SendSBar && next.signal == Signal::ConditioningSbar
                    && next.symbols == 0
            } else {
                next.state == State::SendS && next.signal == Signal::ConditioningS
            }
            &&& s.state == State::SendSBar ==> if s.symbols >= 16 {
                next.state == State::SendTrn && next.signal == Signal::Trn && next.symbols == 0
            } else {
                next == s
            }
            &&& s.state == State::SendTrn ==> if s.symbols >= 1280 {
                next.state == State::SendRate && next.signal == Signal::Rate(s.offer)
                    && next.rates == RateDetector::empty()
            } else {
                next == s
            }
            &&& s.state == State::SendEnd ==> if s.symbols >= 8 {
                next.state == State::Settling && next.signal == Signal::ScrambledOnes
                    && next.symbols == 0
            } else {
                next == s
            }
        }),
{
    reveal(Startup::advanced);
}

/// The end of it: 128 symbols of scrambled ones, and a connection at the rate agreed, or
/// at the rate of an E that came late, or at 4800.
pub proof fn a_startup_connects_at_what_was_agreed(
    s: Startup,
    reversal: bool,
    sequence: Option<u16>,
    latency: u32,
)
    requires
        s.wf(),
        s.held < s.total,
        s.state == State::Settling,
    ensures
        ({
            let next = s.advanced(reversal, sequence, latency);
            let late = if s.agreed == 0 && sequence is Some && end_like(sequence->0) {
                rate_in(sequence->0)
            } else {
                s.agreed
            };
            if s.symbols >= 128 {
                next.stands() == Status::Connected(
                    if late == 0 {
                        4800
                    } else {
                        late
                    },
                )
            } else {
                next.stands() == Status::Negotiating && next.agreed == late
            }
        }),
{
    reveal(Startup::advanced);
}

/// The rate waited for: a modem that hears the far end's offer agrees on the lesser of the
/// two and trains at it, the calling modem a round trip later; and one that has nothing in
/// common gives the call up.
pub proof fn an_offer_is_met(s: Startup, reversal: bool, offer: u16, latency: u32)
    requires
        s.wf(),
        s.held < s.total,
        s.state == State::AwaitingR1 || s.state == State::AwaitingR2,
    ensures
        ({
            let next = s.advanced(reversal, Some(offer), latency);
            let (theirs, ours) = (rate_in(offer), rate_in(s.offer));
            if !rate_like(offer) {
                next.state == s.state && next.signal == Signal::Silent && next.agreed == s.agreed
            } else if theirs == 0 || ours == 0 {
                next.stands() == Status::Failed
            } else {
                &&& next.agreed <= theirs && next.agreed <= ours && (next.agreed == theirs
                    || next.agreed == ours)
                &&& next.signal == Signal::ConditioningS
                &&& next.symbols == 0
                &&& next.state == if s.state == State::AwaitingR1 {
                    State::PreRoll
                } else {
                    State::SendS
                }
            }
        }),
        s.advanced(reversal, None, latency).state == s.state,
        s.advanced(reversal, None, latency).signal == Signal::Silent,
{
    reveal(Startup::advanced);
}

/// What is waited out for the round trip lasts it: the calling modem's S before its own,
/// and the answering modem's silence after R1.
pub proof fn a_round_trip_is_waited_out(
    s: Startup,
    reversal: bool,
    sequence: Option<u16>,
    latency: u32,
)
    requires
        s.wf(),
        s.held < s.total,
    ensures
        ({
            let next = s.advanced(reversal, sequence, latency);
            &&& s.state == State::PreRoll ==> if s.symbols >= s.round_trip {
                next.state == State::SendS && next.symbols == 0
            } else {
                next == s
            }
            &&& s.state == State::AfterR1 ==> if s.symbols >= s.round_trip {
                next.state == State::AwaitingR2 && next.signal == Signal::Silent && next.rates
                    == RateDetector::empty()
            } else {
                next.state == State::AfterR1 && next.signal == Signal::Silent
            }
        }),
{
    reveal(Startup::advanced);
}

/// A modem sending its rate. The answering modem, before a rate is agreed, stops when it
/// has heard the far end's training for 64 symbols without a break. Otherwise an E or a
/// rate signal is answered with this end's own offer closed, after which what is agreed is
/// the least of what has been offered; and no rate at all gives the call up.
pub proof fn a_rate_is_closed_out(s: Startup, reversal: bool, sequence: Option<u16>, latency: u32)
    requires
        s.wf(),
        s.held < s.total,
        s.state == State::SendRate,
    ensures
        ({
            let next = s.advanced(reversal, sequence, latency);
            let first = s.role == Role::Answering && s.agreed == 0;
            let trained = s.listener.classified() is Conditioning;
            if first && trained && s.held + 1 >= 64 {
                next.state == State::AfterR1 && next.signal == Signal::Silent && next.symbols == 0
            } else {
                &&& first ==> next.state != State::SendRate || next.held == if trained {
                    s.held + 1
                } else {
                    0
                }
                &&& sequence is None || !rate_like(sequence->0) && !end_like(sequence->0)
                    ==> next.state == State::SendRate && next.signal == s.signal && next.agreed
                    == s.agreed
                &&& sequence is Some && end_like(sequence->0) ==> {
                    let e = sequence->0;
                    &&& next.state == State::SendEnd
                    &&& next.signal == Signal::Rate(s.offer | 0xf000u16)
                    &&& next.agreed == if s.agreed == 0 {
                        rate_in(e)
                    } else {
                        s.agreed
                    }
                }
                &&& sequence is Some && rate_like(sequence->0) ==> {
                    let r = sequence->0;
                    let bound = if s.agreed == 0 {
                        rate_in(s.offer)
                    } else {
                        s.agreed
                    };
                    if rate_in(r) == 0 {
                        next.stands() == Status::Failed
                    } else {
                        &&& next.state == State::SendEnd
                        &&& next.signal == Signal::Rate(s.offer | 0xf000u16)
                        &&& next.agreed <= rate_in(r) && next.agreed <= bound && (next.agreed
                            == rate_in(r) || next.agreed == bound)
                    }
                }
            }
        }),
{
    reveal(Startup::advanced);
    a_sequence_is_told_by_its_bits(
        match sequence {
            Some(s) => s,
            None => 0,
        },
    );
}

/// Symbols come at 2400 a second, whatever the sampling rate: a sample takes 2400 off what
/// is left of the current symbol, and a symbol is as many of those parts as there are
/// samples in a second.
pub proof fn symbols_come_at_2400_a_second(s: Startup, ear: Ear, bits: Seq<bool>)
    requires
        s.wf(),
        s.total < 0x7fff_ffff,
        i64::MIN + 0x1_0000_0000 <= s.countdown,
        !s.ended(),
    ensures
        ({
            let next = s.stepped(ear, bits);
            &&& next.total == s.total || next.total == s.total + 1
            &&& next.total == s.total + 1 <==> s.countdown <= 2400
            &&& next.countdown == s.countdown - 2400 + (next.total - s.total) * s.fs
        }),
{
    reveal(Startup::advanced);
    lemma_bits_kept(s.heard_line(ear), bits);
    assert(0 * s.fs == 0 && 1 * s.fs == s.fs) by (nonlinear_arith);
}

proof fn lemma_bits_kept(s: Startup, bits: Seq<bool>)
    ensures
        s.heard_bits(bits) == (Startup {
            rates: s.heard_bits(bits).rates,
            pending_sequence: s.heard_bits(bits).pending_sequence,
            ..s
        }),
    decreases bits.len(),
{
    if bits.len() > 0 {
        lemma_bits_kept(s, bits.drop_last());
    }
}

/// A reversal seen between two symbols is acted on at the next; and the same one seen again
/// within 16 symbols is not another.
pub proof fn a_reversal_counts_once(s: Startup, ear: Ear, bits: Seq<bool>)
    requires
        s.wf(),
        i64::MIN + 2400 <= s.countdown,
        s.countdown > 2400,
        !s.ended(),
    ensures
        ({
            let next = s.stepped(ear, bits);
            &&& s.pending_reversal ==> next.pending_reversal
            &&& s.reversal_quiet == 0 && ear.reversed ==> next.pending_reversal
                && next.reversal_quiet == 16 * s.fs as int / 2400
            &&& s.reversal_quiet > 0 ==> next.pending_reversal == s.pending_reversal
                && next.reversal_quiet == s.reversal_quiet - 1
            &&& !ear.reversed ==> next.pending_reversal == s.pending_reversal
        }),
{
    lemma_bits_kept(s.heard_line(ear), bits);
}

/// A state that is entered counts from nothing, and one that is stayed in keeps its count
/// for the next symbol to add to.
pub proof fn a_new_state_counts_from_nothing(
    s: Startup,
    reversal: bool,
    sequence: Option<u16>,
    latency: u32,
)
    requires
        s.wf(),
        s.held < s.total,
    ensures
        ({
            let next = s.advanced(reversal, sequence, latency);
            &&& next.state != s.state && !next.ended() ==> next.symbols == 0 && next.held == 0
            &&& next.state == s.state ==> next.symbols == s.symbols
            &&& next.total == s.total
            &&& s.ended() ==> next == s
            &&& next.role == s.role
            &&& next.offer == s.offer
            &&& next.fs == s.fs
        }),
{
    reveal(Startup::advanced);
}

/// A symbol boundary: one more symbol is counted, everywhere that one is, and what was
/// held for it is gone; and once 144 000 have gone by, a minute of them, nothing is waited
/// for any longer.
pub proof fn a_symbol_is_counted_everywhere(s: Startup, latency: u32)
    requires
        s.wf(),
        s.total < 0x7fff_ffff,
        i64::MIN + 0x1_0000_0000 <= s.countdown <= 0,
        !s.ended(),
    ensures
        ({
            let next = s.symbol(latency);
            &&& next.total == s.total + 1
            &&& next.state == s.state ==> next.symbols == s.symbols + 1
            &&& !next.pending_reversal
            &&& next.pending_sequence is None
            &&& s.total + 1 >= 144_000 ==> next.ended()
            &&& s.total + 1 < 144_000 && next.stands() == Status::Failed ==> s.pending_sequence
                is Some && (s.state == State::AwaitingR1 || s.state == State::AwaitingR2 || s.state
                == State::SendRate)
            &&& s.timer is Some && (s.state == State::AaToCc || s.state == State::Cc
                && !s.pending_reversal || s.state == State::Ca && !s.pending_reversal)
                ==> next.timer == Some((s.timer->0 + 1) as u64)
        }),
{
    reveal(Startup::advanced);
}

/// A clock that ran for less than the ends themselves take says that the line takes
/// nothing.
pub proof fn a_line_takes_no_less_than_nothing(s: Startup, sequence: Option<u16>, latency: u32)
    requires
        s.wf(),
        s.held < s.total,
        s.state == State::Cc && s.role == Role::Calling || s.state == State::Ca && s.role
            == Role::Answering,
        s.timer is Some,
        s.timer->0 <= (if s.state == State::Cc {
            128int
        } else {
            64
        }) + 2 * s.shaping_delay,
    ensures
        s.advanced(true, sequence, latency).round_trip == 0,
{
    reveal(Startup::advanced);
    assert((9600 * latency + s.fs) / (2 * s.fs as int) >= 0) by (nonlinear_arith)
        requires
            s.fs > 0,
            latency >= 0,
    ;
}

/// A sequence is found once thirty-two bits have come and the older sixteen of them are
/// the newer sixteen, where those are a rate signal or an E; bits found are held for the
/// next symbol.
pub proof fn a_sequence_is_found_when_it_has_come_twice(d: RateDetector, bit: bool)
    requires
        d.wf(),
    ensures
        ({
            let (old, new) = ((d.window >> 16u32) as u16, (d.window & 0xffffu32) as u16);
            &&& d.found() is Some <==> d.filled == 32 && old == new && (rate_like(old) || end_like(
                old,
            ))
            &&& d.found() is Some ==> d.found()->0 == new
        }),
        d.filled < 32 ==> d.with(bit).filled == d.filled + 1,
        d.filled == 32 ==> d.with(bit).filled == 32,
        RateDetector::empty().filled == 0,
{
}

/// A start-up opens with a symbol to go, nothing on the line and nothing agreed: the
/// calling modem listening, the answering modem at its tone.
pub proof fn a_start_up_opens_with_nothing_heard(role: Role, offer: u16, fs: u32, delay: u32)
    ensures
        ({
            let s = Startup::opened(role, offer, fs, delay);
            &&& s.state == (match role {
                Role::Calling => State::Listening,
                Role::Answering => State::AnswerTone,
            })
            &&& s.signal == Signal::Silent
            &&& s.stands() == Status::Negotiating
            &&& s.offer == offer && s.agreed == 0
            &&& s.countdown == fs
            &&& s.symbols == 0 && s.total == 0 && s.held == 0
            &&& s.timer is None && s.round_trip == 0
            &&& !s.pending_reversal && s.pending_sequence is None && s.reversal_quiet == 0
            &&& s.rates == RateDetector::empty()
            &&& s.listener.classified() is Nothing
            &&& s.carrier_peak == 0
            &&& s.shaping_delay == delay
        }),
{
}

/// An offer is a rate signal that offers what it is asked to and nothing else.
pub proof fn an_offer_offers_what_it_is_asked_to(bits_4800: bool, bits_9600: bool)
    ensures
        ({
            let s = offering(bits_4800, bits_9600);
            &&& rate_like(s)
            &&& b(s, 5) == bits_4800
            &&& b(s, 6) == bits_9600
            &&& !b(s, 4) && !b(s, 8) && !b(s, 9) && !b(s, 10)
            &&& rate_in(s) == (if bits_9600 {
                9600u32
            } else if bits_4800 {
                4800
            } else {
                0
            })
        }),
{
    let s = offering(bits_4800, bits_9600);
    let slow = if bits_4800 {
        0x0400u16
    } else {
        0u16
    };
    let fast = if bits_9600 {
        0x0200u16
    } else {
        0u16
    };
    assert(s & 0xf000u16 == 0u16 && s & 0x0111u16 == 0x0111u16 && ((s >> 10u16) & 1u16 == 1u16 <==> slow
        == 0x0400u16) && ((s >> 9u16) & 1u16 == 1u16 <==> fast == 0x0200u16) && (s >> 11u16) & 1u16
        != 1u16 && (s >> 7u16) & 1u16 != 1u16 && (s >> 6u16) & 1u16 != 1u16 && (s >> 5u16) & 1u16
        != 1u16 && (s & 0x0200u16 != 0u16 <==> fast == 0x0200u16) && (s & 0x0400u16 != 0u16 <==> slow
        == 0x0400u16) && s & 0x0800u16 == 0u16) by (bit_vector)
        requires
            s == 0x0111u16 | slow | fast,
            slow == 0u16 || slow == 0x0400u16,
            fast == 0u16 || fast == 0x0200u16,
    ;
}

/// Of the sequences found between two symbols the last is held for the next of them, and
/// once a start-up has ended nothing is looked for.
pub proof fn the_last_sequence_found_is_held(s: Startup, bits: Seq<bool>, bit: bool)
    requires
        !s.ended(),
    ensures
        ({
            let (before, next) = (s.heard_bits(bits), s.heard_bits(bits.push(bit)));
            &&& next.rates == before.rates.with(bit)
            &&& next.rates.found() is Some ==> next.pending_sequence == next.rates.found()
            &&& next.rates.found() is None ==> next.pending_sequence == before.pending_sequence
        }),
        s.heard_bits(Seq::empty()) == s,
{
    assert(bits.push(bit).drop_last() =~= bits);
}

/// Nothing is looked for in the bits of a start-up that has ended.
pub proof fn an_ended_startup_looks_for_nothing(s: Startup, bits: Seq<bool>)
    requires
        s.ended(),
    ensures
        s.heard_bits(bits) == s,
{
}

} // verus!
