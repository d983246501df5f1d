//! What the V.22bis handshake comes to, told in milliseconds of what is heard.
use crate::v22bis::handshake::{Handshake, Pattern, Rate, Role, Signal, State, Status};
use vstd::prelude::*;

verus! {

/// A handshake that has heard some samples, one after another.
pub open spec fn after_hearing(h: Handshake, heard: Seq<Pattern>) -> Handshake
    decreases heard.len(),
{
    if heard.len() == 0 {
        h
    } else {
        after_hearing(h, heard.drop_last()).stepped(heard.last()).0
    }
}

/// The same pattern for so many samples.
pub open spec fn steady(heard: Pattern, samples: nat) -> Seq<Pattern> {
    Seq::new(samples, |i: int| heard)
}

/// The fewest samples that last so many milliseconds.
pub open spec fn lasting(fs: u32, ms: int) -> nat {
    ((ms * fs + 999) / 1000) as nat
}

proof fn lemma_lasting(fs: u32, ms: int, n: int)
    requires
        0 <= ms,
    ensures
        n >= lasting(fs, ms) <==> n * 1000 >= ms * fs,
        ms > 0 && fs > 0 ==> lasting(fs, ms) > 0,
        lasting(fs, ms) * 1000 < ms * fs + 1000,
{
    assert(0 <= ms * fs && (ms > 0 && fs > 0 ==> ms * fs > 0)) by (nonlinear_arith)
        requires
            0 <= ms,
            0 <= fs,
    ;
}

proof fn lemma_one_more(h: Handshake, heard: Pattern, n: nat)
    ensures
        after_hearing(h, steady(heard, n + 1)) == after_hearing(h, steady(heard, n)).stepped(
            heard,
        ).0,
        after_hearing(h, steady(heard, 0)) == h,
{
    assert(steady(heard, n + 1).drop_last() =~= steady(heard, n));
}

proof fn lemma_both(h: Handshake, a: Seq<Pattern>, b: Seq<Pattern>)
    ensures
        after_hearing(h, a + b) == after_hearing(after_hearing(h, a), b),
    decreases b.len(),
{
    if b.len() == 0 {
        assert(a + b =~= a);
    } else {
        lemma_both(h, a, b.drop_last());
        assert((a + b).drop_last() =~= a + b.drop_last());
    }
}

/// Whether so many samples more stay within the minute a handshake is given.
pub open spec fn in_patience(h: Handshake, samples: int) -> bool {
    (h.total + samples) * 1000 < 60000 * h.fs
}

/// What is sent: each state puts its own signal on the line, and until the rate is
/// agreed only at 1200.
pub proof fn each_state_sends_its_signal(h: Handshake, heard: Pattern)
    requires
        h.wf(),
    ensures
        ({
            let told = h.stepped(heard).1;
            &&& h.state == State::AnswerTone ==> told.signal == Some(Signal::AnswerTone)
            &&& h.state == State::OfferingOnes ==> told.signal == Some(Signal::UnscrambledOnes)
                && told.transmit_rate == Some(Rate::Bps1200)
            &&& h.state == State::Listening || h.state == State::Pausing ==> told.signal == Some(
                Signal::Silent,
            )
            &&& h.state == State::OfferingDoubleDibit ==> told.signal == Some(Signal::DoubleDibit)
                && told.transmit_rate == Some(Rate::Bps1200)
            &&& h.state == State::Scrambled1200 ==> told.signal == Some(Signal::ScrambledOnes)
                && told.transmit_rate == Some(Rate::Bps1200)
            &&& h.state == State::Settling2400 ==> told.signal == Some(Signal::ScrambledOnes)
            &&& told.transmit_rate == Some(Rate::Bps2400) ==> h.state == State::Rising2400
                && told.receive_rate == Some(Rate::Bps2400)
        }),
{
}

/// The rate a connection is at is the one the receiver was last told.
pub proof fn a_connection_tells_its_rate(h: Handshake, heard: Pattern)
    requires
        h.wf(),
        h.says() is Negotiating,
    ensures
        h.stepped(heard).0.says() matches Status::Connected(rate) ==> h.stepped(
            heard,
        ).1.receive_rate == Some(rate),
        h.stepped(heard).1.receive_rate == Some(Rate::Bps1200) ==> h.stepped(heard).0.says()
            == Status::Connected(Rate::Bps1200),
{
}

/// Scrambled ones heard without a break for 270 ms, and no double dibit before them, agree
/// on 1200 at either end: not a sample sooner, and the receiver is told.
pub proof fn scrambled_ones_agree_on_1200(h: Handshake, n: nat)
    requires
        h.wf(),
        h.state == State::Scrambled1200 || h.state == State::OfferingOnes,
        !h.offered_2400,
        h.held == 0,
        in_patience(h, n as int + 1),
        n + 1 < 0x1_0000_0000_0000 - h.total,
    ensures
        ({
            let after = after_hearing(h, steady(Pattern::ScrambledOnes, n));
            if n * 1000 >= 270 * h.fs {
                after.says() == Status::Connected(Rate::Bps1200)
            } else {
                &&& after.state == h.state
                &&& after.says() == Status::Negotiating
                &&& (n + 1) * 1000 >= 270 * h.fs ==> after.stepped(
                    Pattern::ScrambledOnes,
                ).1.receive_rate == Some(Rate::Bps1200)
            }
        }),
{
    lemma_scrambled(h, n);
    lemma_scrambled(h, n + 1);
    lemma_one_more(h, Pattern::ScrambledOnes, n);
}

proof fn lemma_scrambled(h: Handshake, n: nat)
    requires
        h.wf(),
        h.state == State::Scrambled1200 || h.state == State::OfferingOnes,
        !h.offered_2400,
        h.held == 0,
        in_patience(h, n as int),
        n < 0x1_0000_0000_0000 - h.total,
    ensures
        ({
            let after = after_hearing(h, steady(Pattern::ScrambledOnes, n));
            &&& after.fs == h.fs
            &&& after.total == h.total + n || after.says() == Status::Connected(Rate::Bps1200)
            &&& if n * 1000 >= 270 * h.fs {
                after.says() == Status::Connected(Rate::Bps1200)
            } else {
                after.state == h.state && after.held == n && !after.offered_2400
            }
        }),
    decreases n,
{
    lemma_one_more(h, Pattern::ScrambledOnes, 0);
    if n > 0 {
        lemma_scrambled(h, (n - 1) as nat);
        lemma_one_more(h, Pattern::ScrambledOnes, (n - 1) as nat);
    }
}

/// A calling modem's opening, told by how long unscrambled ones have been heard: silent for
/// 155 ms of them and 456 ms more, then 100 ms of the double dibit, then scrambled ones.
proof fn lemma_calling(fs: u32, t: nat)
    requires
        0 < fs,
        t * 1000 < 60000 * fs,
    ensures
        ({
            let h = Handshake::opened(Role::Calling, fs);
            let after = after_hearing(h, steady(Pattern::UnscrambledOnes, t));
            let (a, b, c) = (lasting(fs, 155), lasting(fs, 456), lasting(fs, 100));
            &&& after.fs == fs
            &&& after.total == t
            &&& after.elapsed <= t
            &&& after.held <= t
            &&& !after.offered_2400
            &&& if t < a {
                after.state == State::Listening && after.held == t
            } else if t < a + b {
                after.state == State::Pausing && after.elapsed == t - a
            } else if t < a + b + c {
                after.state == State::OfferingDoubleDibit && after.elapsed == t - a - b
            } else {
                after.state == State::Scrambled1200 && after.held == 0
            }
        }),
    decreases t,
{
    let h = Handshake::opened(Role::Calling, fs);
    let (a, b, c) = (lasting(fs, 155), lasting(fs, 456), lasting(fs, 100));
    lemma_one_more(h, Pattern::UnscrambledOnes, 0);
    lemma_lasting(fs, 155, t as int);
    lemma_lasting(fs, 456, t - a);
    lemma_lasting(fs, 100, t - a - b);
    if t > 0 {
        lemma_calling(fs, (t - 1) as nat);
        lemma_one_more(h, Pattern::UnscrambledOnes, (t - 1) as nat);
        lemma_lasting(fs, 155, t - 1);
        lemma_lasting(fs, 456, t - 1 - a);
        lemma_lasting(fs, 100, t - 1 - a - b);
    }
}

/// A call to a modem that does 1200 only connects at 1200: unscrambled ones for as long as
/// the calling modem's own opening takes, or longer, and then scrambled ones for 270 ms.
pub proof fn a_call_to_a_slower_modem_connects_at_1200(fs: u32, ones: nat, scrambled: nat)
    requires
        0 < fs,
        ones * 1000 >= 711 * fs + 3000,
        scrambled * 1000 >= 270 * fs,
        (ones + scrambled) * 1000 < 60000 * fs,
    ensures
        after_hearing(
            Handshake::opened(Role::Calling, fs),
            steady(Pattern::UnscrambledOnes, ones) + steady(Pattern::ScrambledOnes, scrambled),
        ).says() == Status::Connected(Rate::Bps1200),
{
    let h = Handshake::opened(Role::Calling, fs);
    let (a, b) = (
        steady(Pattern::UnscrambledOnes, ones),
        steady(Pattern::ScrambledOnes, scrambled),
    );
    lemma_both(h, a, b);
    lemma_calling(fs, ones);
    lemma_lasting(fs, 155, 0);
    lemma_lasting(fs, 456, 0);
    lemma_lasting(fs, 100, 0);
    lemma_scrambled(after_hearing(h, a), scrambled);
}

/// And says nothing for the first 611 ms of them, nor anything but the double dibit for
/// 100 ms after that.
pub proof fn the_calling_modem_opens_as_it_should(fs: u32, ones: nat)
    requires
        0 < fs,
        (ones + 1) * 1000 < 60000 * fs,
    ensures
        ({
            let told = after_hearing(
                Handshake::opened(Role::Calling, fs),
                steady(Pattern::UnscrambledOnes, ones),
            ).stepped(Pattern::UnscrambledOnes).1;
            &&& ones * 1000 < 611 * fs ==> told.signal == Some(Signal::Silent)
            &&& 611 * fs + 2000 <= ones * 1000 < 711 * fs ==> told.signal == Some(
                Signal::DoubleDibit,
            )
            &&& 711 * fs + 3000 <= ones * 1000 ==> told.signal == Some(Signal::ScrambledOnes)
        }),
{
    lemma_calling(fs, ones);
    lemma_lasting(fs, 155, 0);
    lemma_lasting(fs, 456, 0);
    lemma_lasting(fs, 100, 0);
}

/// Once the far end has offered 2400 what is heard makes no difference: 600 ms at 1200,
/// then both ends' rate is 2400, and 200 ms later there is a connection at it.
pub proof fn an_offer_of_2400_is_taken(h: Handshake, heard: Seq<Pattern>)
    requires
        h.wf(),
        h.state == State::Scrambled1200,
        heard.len() > 0,
        h.offered_2400 || heard[0] == Pattern::DoubleDibit,
        in_patience(h, heard.len() as int),
        heard.len() < 0x1_0000_0000_0000 - h.total,
    ensures
        ({
            let after = after_hearing(h, heard);
            let n = heard.len() - 1;
            &&& n * 1000 < 800 * h.fs ==> after.says() == Status::Negotiating
            &&& n * 1000 >= 800 * h.fs + 2000 ==> after.says() == Status::Connected(Rate::Bps2400)
        }),
{
    let first = heard.take(1);
    let rest = heard.skip(1);
    assert(first + rest =~= heard);
    assert(first.drop_last() =~= Seq::empty());
    lemma_both(h, first, rest);
    let risen = after_hearing(h, first);
    assert(first.last() == heard[0]);
    assert(after_hearing(h, Seq::empty()) == h);
    assert(risen == h.stepped(heard[0]).0);
    lemma_rising(risen, rest);
    lemma_lasting(h.fs, 600, 0);
    lemma_lasting(h.fs, 200, 0);
}

proof fn lemma_rising(h: Handshake, heard: Seq<Pattern>)
    requires
        h.wf(),
        h.state == State::Rising2400,
        h.elapsed == 0,
        in_patience(h, heard.len() as int),
        heard.len() < 0x1_0000_0000_0000 - h.total,
    ensures
        ({
            let after = after_hearing(h, heard);
            let n = heard.len();
            let (a, b) = (lasting(h.fs, 600), lasting(h.fs, 200));
            &&& after.fs == h.fs
            &&& if n < a {
                after.state == State::Rising2400 && after.elapsed == n && after.total == h.total + n
            } else if n < a + b {
                after.state == State::Settling2400 && after.elapsed == n - a && after.total
                    == h.total + n
            } else {
                after.says() == Status::Connected(Rate::Bps2400)
            }
        }),
    decreases heard.len(),
{
    let (a, b) = (lasting(h.fs, 600), lasting(h.fs, 200));
    let n = heard.len() as int;
    lemma_lasting(h.fs, 600, n);
    lemma_lasting(h.fs, 200, n - a);
    if n > 0 {
        lemma_rising(h, heard.drop_last());
        lemma_lasting(h.fs, 600, n - 1);
        lemma_lasting(h.fs, 200, n - 1 - a);
    }
}

/// An answering modem sends its tone for 3300 ms whatever it hears, and unscrambled ones
/// after it.
pub proof fn the_answering_tone_lasts_3300_ms(fs: u32, heard: Seq<Pattern>)
    requires
        0 < fs,
        heard.len() * 1000 < 60000 * fs,
        heard.len() * 1000 < 3300 * fs + 1000,
    ensures
        ({
            let after = after_hearing(Handshake::opened(Role::Answering, fs), heard);
            &&& after.total == heard.len()
            &&& after.fs == fs
            &&& !after.offered_2400
            &&& if heard.len() * 1000 < 3300 * fs {
                after.state == State::AnswerTone && after.elapsed == heard.len()
            } else {
                after.state == State::OfferingOnes && after.held == 0
            }
        }),
    decreases heard.len(),
{
    if heard.len() > 0 {
        the_answering_tone_lasts_3300_ms(fs, heard.drop_last());
    }
}

/// A double dibit heard while it offers ones is answered in kind for 100 ms, and 2400 is
/// taken straight after.
pub proof fn a_double_dibit_is_answered_in_kind(h: Handshake, heard: Seq<Pattern>)
    requires
        h.wf(),
        h.state == State::OfferingOnes,
        heard.len() > 0,
        heard[0] == Pattern::DoubleDibit,
        (heard.len() - 2) * 1000 < 100 * h.fs,
        in_patience(h, heard.len() as int),
        heard.len() < 0x1_0000_0000_0000 - h.total,
    ensures
        ({
            let after = after_hearing(h, heard);
            let n = heard.len() - 1;
            &&& after.offered_2400
            &&& after.total == h.total + heard.len()
            &&& after.fs == h.fs
            &&& if n * 1000 < 100 * h.fs {
                after.state == State::OfferingDoubleDibit && after.elapsed == n
            } else {
                after.state == State::Scrambled1200
            }
        }),
    decreases heard.len(),
{
    if heard.len() == 1 {
        assert(heard.drop_last() =~= Seq::empty());
    } else {
        a_double_dibit_is_answered_in_kind(h, heard.drop_last());
    }
}

/// A break starts a wait again: in each state that waits for a signal, a sample of another
/// leaves nothing counted, and a sample of the one waited for counts one more.
pub proof fn a_break_starts_the_count_again(h: Handshake, heard: Pattern)
    requires
        h.wf(),
        in_patience(h, 1),
        h.stepped(heard).0.state == h.state,
        h.state == State::Listening || h.state == State::OfferingOnes || h.state
            == State::Scrambled1200,
    ensures
        ({
            let waited = if h.state == State::Listening {
                Pattern::UnscrambledOnes
            } else {
                Pattern::ScrambledOnes
            };
            h.stepped(heard).0.held == (if heard == waited {
                h.held + 1
            } else {
                0
            })
        }),
{
}

/// A wait that is not over leaves the state as it is: the calling modem listens until it
/// has heard unscrambled ones, and neither end leaves 1200 for less than 270 ms of
/// scrambled ones or a double dibit.
pub proof fn nothing_else_moves_a_wait(h: Handshake, heard: Pattern)
    requires
        h.wf(),
        in_patience(h, 1),
    ensures
        ({
            let next = h.stepped(heard).0.state;
            &&& h.state == State::Listening ==> (next == State::Pausing || next
                == State::Listening) && (next == State::Pausing <==> heard
                == Pattern::UnscrambledOnes && (h.held + 1) * 1000 >= 155 * h.fs)
            &&& h.state == State::OfferingOnes && heard == Pattern::DoubleDibit ==> next
                == State::OfferingDoubleDibit
            &&& h.state == State::OfferingOnes && heard != Pattern::DoubleDibit ==> next == (
            if heard == Pattern::ScrambledOnes && (h.held + 1) * 1000 >= 270 * h.fs {
                State::Connected(Rate::Bps1200)
            } else {
                State::OfferingOnes
            })
            &&& h.state == State::Scrambled1200 && (h.offered_2400 || heard
                == Pattern::DoubleDibit) ==> next == State::Rising2400
            &&& h.state == State::Scrambled1200 && !h.offered_2400 && heard
                != Pattern::DoubleDibit ==> next == (if heard == Pattern::ScrambledOnes && (h.held
                + 1) * 1000 >= 270 * h.fs {
                State::Connected(Rate::Bps1200)
            } else {
                State::Scrambled1200
            })
        }),
{
}

/// An offer of 2400 is a double dibit, heard while the offer can be taken, and is not
/// forgotten.
pub proof fn an_offer_is_remembered(h: Handshake, heard: Pattern)
    requires
        h.wf(),
    ensures
        h.offered_2400 ==> h.stepped(heard).0.offered_2400,
        heard != Pattern::DoubleDibit ==> h.stepped(heard).0.offered_2400 == h.offered_2400,
        heard == Pattern::DoubleDibit && (h.state == State::OfferingOnes || h.state
            == State::OfferingDoubleDibit || h.state == State::Scrambled1200) ==> h.stepped(
            heard,
        ).0.offered_2400,
        !(h.state == State::OfferingOnes || h.state == State::OfferingDoubleDibit || h.state
            == State::Scrambled1200) ==> h.stepped(heard).0.offered_2400 == h.offered_2400,
{
}

/// Rates are told where they change and nowhere else: the transmitter's in the states that
/// send at 1200 and on rising to 2400, the receiver's on rising and on connecting.
pub proof fn a_rate_is_told_where_it_changes(h: Handshake, heard: Pattern)
    requires
        h.wf(),
        in_patience(h, 1),
    ensures
        ({
            let (next, told) = h.stepped(heard);
            let rising = h.state == State::Rising2400 && next.state != State::Rising2400;
            &&& told.transmit_rate == (if rising {
                Some(Rate::Bps2400)
            } else if h.state == State::OfferingOnes || h.state == State::OfferingDoubleDibit
                || h.state == State::Scrambled1200 {
                Some(Rate::Bps1200)
            } else {
                None
            })
            &&& told.receive_rate == (if rising {
                Some(Rate::Bps2400)
            } else if h.says() is Negotiating && next.says() is Connected {
                Some(next.says()->Connected_0)
            } else {
                None
            })
            &&& told.signal is None <==> h.state == State::Rising2400 || !(h.says() is Negotiating)
        }),
{
}

/// A minute is waited and no more, and what has ended stays as it ended.
pub proof fn a_minute_is_waited(h: Handshake, heard: Pattern)
    requires
        h.wf(),
    ensures
        h.says() is Negotiating && !in_patience(h, 1) ==> !(h.stepped(heard).0.says() is Negotiating),
        h.says() is Negotiating && in_patience(h, 1) ==> !(h.stepped(heard).0.says() is Failed),
        !(h.says() is Negotiating) ==> h.stepped(heard).0.state == h.state && h.stepped(heard).0.says()
            == h.says(),
        h.stepped(heard).0.total == h.total + 1,
        h.stepped(heard).0.role == h.role,
        h.stepped(heard).0.fs == h.fs,
{
}

/// A state that is entered counts from nothing, and one that is stayed in counts on.
pub proof fn a_new_state_counts_from_nothing(h: Handshake, heard: Pattern)
    requires
        h.wf(),
        in_patience(h, 1),
    ensures
        ({
            let next = h.stepped(heard).0;
            &&& next.state != h.state ==> next.elapsed == 0 && next.held == 0
            &&& next.state == h.state ==> next.elapsed == h.elapsed + 1
        }),
{
}

} // verus!
