//! What the tones, the sequences and the symbols of phases 2, 3 and 4 come to as they
//! are sent and heard.
use crate::v32::Mode;
use crate::v34::dpsk::{
    completed, info1a_of, lemma_catch_up_forgets_the_clock, mh_of, quiet, recognised, remembered,
    Expecting, Sending, Side,
};
use crate::v34::listening::{Event, Listened};
use crate::v34::receiver::{
    due, not_due, numbers, oldest, Asked, Doing, Fit, Hearing, Heard, Hunt, Reading, Reference,
    Template,
};
use crate::v34::signals::Size;
use vstd::prelude::*;

verus! {

/// A transmitter so many samples on.
pub open spec fn samples_on(tx: Sending, n: nat) -> Sending
    decreases n,
{
    if n == 0 {
        tx
    } else {
        samples_on(tx, (n - 1) as nat).step()
    }
}

proof fn lemma_after_and_after(tx: Sending, a: nat, b: nat)
    ensures
        tx.after(a).after(b) == tx.after(a + b),
    decreases b,
{
    if b > 0 {
        lemma_after_and_after(tx, a, (b - 1) as nat);
    }
}

proof fn lemma_after_keeps(tx: Sending, n: nat, clock: nat)
    ensures
        tx.after(n).fs == tx.fs,
        tx.after(n).clock == tx.clock,
        (Sending { clock, ..tx }).after(n) == (Sending { clock, ..tx.after(n) }),
    decreases n,
{
    if n > 0 {
        lemma_after_keeps(tx, (n - 1) as nat, clock);
        let (a, b) = ((Sending { clock, ..tx }).after((n - 1) as nat), tx.after((n - 1) as nat));
        assert(a.shift() == (Sending { clock, ..b.shift() }));
    }
}

proof fn lemma_caught_up(tx: Sending, clock: nat)
    requires
        tx.fs > 0,
    ensures
        tx.catch_up(clock) == (Sending { clock: clock % tx.fs, ..tx.after(clock / tx.fs) }),
    decreases clock,
{
    if clock < tx.fs {
        vstd::arithmetic::div_mod::lemma_basic_div(clock as int, tx.fs as int);
        vstd::arithmetic::div_mod::lemma_small_mod(clock, tx.fs);
    } else {
        let left = (clock - tx.fs) as nat;
        lemma_after_keeps(tx, 1, 0);
        lemma_caught_up(tx.shift(), left);
        assert(left / tx.fs + 1 == clock / tx.fs && left % tx.fs == clock % tx.fs) by {
            vstd::arithmetic::div_mod::lemma_fundamental_div_mod(left as int, tx.fs as int);
            let (q, r) = (left as int / tx.fs as int, left as int % tx.fs as int);
            assert(clock == (q + 1) * tx.fs + r) by (nonlinear_arith)
                requires
                    left == tx.fs * q + r,
                    clock == left + tx.fs,
            ;
            vstd::arithmetic::div_mod::lemma_fundamental_div_mod_converse(
                clock as int,
                tx.fs as int,
                q + 1,
                r,
            );
        }
        assert(tx.after(1) == tx.after(0).shift());
        lemma_after_and_after(tx, 1, left / tx.fs);
    }
}

/// Symbols go at 600 a second: so many samples on, as many symbols have gone as there are
/// six-hundredths of a second in them, and the clock holds what is over.
pub proof fn symbols_go_at_600_a_second(tx: Sending, n: nat)
    requires
        tx.wf(),
    ensures
        samples_on(tx, n) == (Sending {
            clock: (tx.clock + 600 * n) as nat % tx.fs,
            ..tx.after((tx.clock + 600 * n) as nat / tx.fs)
        }),
    decreases n,
{
    let fs = tx.fs as int;
    if n == 0 {
        vstd::arithmetic::div_mod::lemma_basic_div(tx.clock as int, fs);
        vstd::arithmetic::div_mod::lemma_small_mod(tx.clock, tx.fs);
    } else {
        symbols_go_at_600_a_second(tx, (n - 1) as nat);
        let run = (tx.clock + 600 * (n - 1)) as nat;
        let (q, r) = (run / tx.fs, run % tx.fs);
        let before = Sending { clock: r, ..tx.after(q) };
        lemma_after_keeps(tx, q, r);
        lemma_caught_up(tx.after(q), r + 600);
        lemma_catch_up_forgets_the_clock(tx.after(q), r, r + 600);
        let more = (r + 600) as nat / tx.fs;
        vstd::arithmetic::div_mod::lemma_fundamental_div_mod(run as int, fs);
        vstd::arithmetic::div_mod::lemma_fundamental_div_mod((r + 600) as int, fs);
        assert(run + 600 == (q + more) * fs + (r + 600) as nat % tx.fs) by (nonlinear_arith)
            requires
                run == fs * q + r,
                r + 600 == fs * more + (r + 600) as nat % tx.fs,
        ;
        vstd::arithmetic::div_mod::lemma_fundamental_div_mod_converse(
            run as int + 600,
            fs,
            (q + more) as int,
            ((r + 600) as nat % tx.fs) as int,
        );
        lemma_after_and_after(tx, q, more);
    }
}

/// The next symbol: from silence the point the carrier is on, while the bits wait; then a
/// one turns the point round and a zero leaves it; with no bits left the carrier stays on
/// its point until it is taken off.
pub proof fn a_symbol_is_turned_by_a_one(tx: Sending)
    requires
        tx.wf(),
    ensures
        ({
            let next = tx.shift();
            let silent = quiet(tx.history.skip(1));
            &&& next.history.len() == 13
            &&& forall|i: int| 0 <= i < 12 ==> #[trigger] next.history[i] == tx.history[i + 1]
            &&& tx.pending.len() > 0 && silent ==> next.history[12] == tx.point && next.pending
                == tx.pending && next.point == tx.point
            &&& tx.pending.len() > 0 && !silent ==> {
                &&& next.point == (if tx.pending[0] {
                    -tx.point as int
                } else {
                    tx.point as int
                })
                &&& next.history[12] == next.point
                &&& next.pending == tx.pending.skip(1)
            }
            &&& tx.pending.len() == 0 ==> next.point == tx.point && next.history[12] == (if tx.on {
                tx.point as int
            } else {
                0
            })
            &&& next.on == tx.on
        }),
{
}

/// Turning the line round turns every symbol on it and the point it goes on from, and
/// nothing else; what is queued goes behind what was; the carrier falls only once the
/// queue has gone.
pub proof fn the_line_is_turned_round_whole(tx: Sending, bits: Seq<bool>, i: int)
    requires
        tx.wf(),
        0 <= i < 13,
    ensures
        tx.reverse().point == -tx.point,
        tx.reverse().history[i] == -tx.history[i],
        tx.reverse().pending == tx.pending,
        tx.reverse().on == tx.on,
        tx.reverse().clock == tx.clock,
        tx.send(bits).on,
        tx.send(bits).pending == tx.pending + bits,
        tx.send(bits).point == tx.point,
        tx.silence().pending == tx.pending,
        !tx.silence().on,
        tx.sending() <==> tx.on || tx.pending.len() > 0 || exists|k: int|
            0 <= k < 13 && tx.history[k] != 0,
{
    if !tx.on && tx.pending.len() == 0 {
        assert(quiet(tx.history) <==> !exists|k: int| 0 <= k < 13 && tx.history[k] != 0);
    }
}

/// A carrier taken off with nothing queued is gone from the line in thirteen symbols.
pub proof fn a_carrier_dies_away_in_13_symbols(tx: Sending)
    requires
        tx.wf(),
        !tx.on,
        tx.pending.len() == 0,
    ensures
        !tx.after(13).sending(),
{
    lemma_dying(tx, 13);
}

proof fn lemma_dying(tx: Sending, n: nat)
    requires
        tx.wf(),
        !tx.on,
        tx.pending.len() == 0,
        n <= 13,
    ensures
        ({
            let now = tx.after(n);
            &&& now.wf()
            &&& !now.on
            &&& now.pending.len() == 0
            &&& forall|i: int| 13 - n <= i < 13 ==> now.history[i] == 0
        }),
    decreases n,
{
    if n > 0 {
        lemma_dying(tx, (n - 1) as nat);
        let before = tx.after((n - 1) as nat);
        let now = before.shift();
        assert forall|i: int| 13 - n <= i < 13 implies now.history[i] == 0 by {
            if i < 12 {
                assert(now.history[i] == before.history[i + 1]);
            }
        }
        assert forall|i: int| 0 <= i < 13 implies -1 <= #[trigger] now.history[i] <= 1 by {
            if i < 12 {
                assert(now.history[i] == before.history[i + 1]);
            }
        }
    }
}

/// A branch remembers the last 109 bits it heard.
pub proof fn a_branch_remembers_109_bits(bits: Seq<bool>, bit: bool)
    requires
        bits.len() <= 109,
    ensures
        remembered(bits, bit).len() == (if bits.len() < 109 {
            bits.len() + 1
        } else {
            109
        }),
        remembered(bits, bit).last() == bit,
        bits.len() == 109 ==> remembered(bits, bit).drop_last() == bits.skip(1),
        bits.len() < 109 ==> remembered(bits, bit).drop_last() == bits,
{
    if bits.len() == 109 {
        assert(remembered(bits, bit).drop_last() =~= bits.skip(1));
    } else {
        assert(remembered(bits, bit).drop_last() =~= bits);
    }
}

/// What is recognised comes from the side that sends it: an INFO0 from either, an INFO0d
/// or an INFO1c from the call modem alone, an INFO1a of any kind from the answer modem
/// alone, and an MH only where one was asked for.
pub proof fn each_side_is_heard_to_send_its_own(bits: Seq<bool>, side: Side, expecting: Expecting)
    ensures
        ({
            let heard = recognised(bits, side, expecting);
            &&& heard is Some && (heard->0 is Info0d || heard->0 is Info1c) ==> side is Call
            &&& heard is Some && (heard->0 is Info1a || heard->0 is Info1aPcm || heard->0
                is Info1aPcmUp || heard->0 is Info1aV34Up) ==> side is Answer
            &&& heard is Some && heard->0 is Mh ==> expecting.mh
            &&& heard is Some && heard->0 is Info1aV34Up ==> expecting.short_phase2
            &&& heard is Some && heard->0 is Info1aPcm ==> !expecting.short_phase2
            &&& heard is Some && heard->0 is Info0 ==> completed(bits, 49) is Some
            &&& heard is Some && heard->0 is Info0d ==> completed(bits, 62) is Some
            &&& heard is Some && heard->0 is Info1c ==> completed(bits, 109) is Some
            &&& completed(bits, 49) is Some ==> heard is Some && (heard->0 is Info0 || heard->0
                is Mh)
            &&& completed(bits, 49) is None && side is Call ==> (heard is Some <==> completed(
                bits,
                62,
            ) is Some || completed(bits, 109) is Some || expecting.mh && mh_of(bits) is Some)
            &&& completed(bits, 49) is None && side is Answer && completed(bits, 70) is None ==> (
            heard is Some <==> expecting.mh && mh_of(bits) is Some)
        }),
{
}

/// Seventy bits are V.34's INFO1a where both symbol rates are V.34's, and otherwise what
/// the two sixes in their place ask for.
pub proof fn an_info1a_is_told_by_its_rates(info: Seq<bool>, expecting: Expecting)
    ensures
        ({
            let up = crate::bits::number(info.subrange(22, 25));
            let down = crate::bits::number(info.subrange(25, 28));
            let heard = info1a_of(info, expecting);
            &&& up < 6 && down < 6 ==> heard is Some && heard->0 is Info1a
            &&& up == 6 && down == 6 ==> heard is Some && heard->0 is Info1aPcmUp
            &&& 3 <= up < 6 && down == 6 && expecting.short_phase2 ==> heard is Some && heard->0
                is Info1aV34Up
            &&& 3 <= up < 6 && down == 6 && !expecting.short_phase2 ==> heard is Some && heard->0
                is Info1aPcm
            &&& up < 3 && down == 6 ==> heard is None
            &&& up == 7 || down == 7 ==> heard is None
            &&& up == 6 && down < 6 ==> heard is None
        }),
{
}

/// A J as it goes down the line: 0000 1001 1001 0001 for four points, 0000 1101 1001 0001
/// for sixteen, and 1111 1001 1001 0001 for the one that ends them.
pub proof fn the_sequences_are_what_they_are(size: Size)
    ensures
        ({
            let (j, end) = (size.asked(), crate::v34::signals::ended());
            &&& j.len() == 16
            &&& end.len() == 16
            &&& forall|i: int| 0 <= i < 16 ==> #[trigger] j[i] == (i == 4 || i == 7 || i == 8 || i
                == 11 || i == 15 || i == 5 && size is Sixteen)
            &&& forall|i: int| 0 <= i < 16 ==> #[trigger] end[i] == (i < 5 || i == 7 || i == 8 || i
                == 11 || i == 15)
        }),
        Size::Four.width() == 2,
        Size::Sixteen.width() == 4,
{
    let (j, end) = (size.asked(), crate::v34::signals::ended());
    assert forall|i: int| 0 <= i < 16 implies #[trigger] j[i] == (i == 4 || i == 7 || i == 8 || i
        == 11 || i == 15 || i == 5 && size is Sixteen) by {
        assert(i == 0 || i == 1 || i == 2 || i == 3 || i == 4 || i == 5 || i == 6 || i == 7 || i
            == 8 || i == 9 || i == 10 || i == 11 || i == 12 || i == 13 || i == 14 || i == 15);
    }
    assert forall|i: int| 0 <= i < 16 implies #[trigger] end[i] == (i < 5 || i == 7 || i == 8 || i
        == 11 || i == 15) by {
        assert(i == 0 || i == 1 || i == 2 || i == 3 || i == 4 || i == 5 || i == 6 || i == 7 || i
            == 8 || i == 9 || i == 10 || i == 11 || i == 12 || i == 13 || i == 14 || i == 15);
    }
}

/// A J is heard at four points once its sixteen bits have come twice running, and once
/// only; a J' after that, straight behind a J, and once only.
pub proof fn a_j_is_heard_twice_running(l: Listened)
    requires
        l.wf(),
    ensures
        ({
            let (next, events) = l.asked();
            let twice = forall|k: int|
                0 <= k < 16 ==> #[trigger] l.bits[k] == (k == 4 || k == 7 || k == 8 || k == 11 || k
                    == 15 || k == 5 && l.bits[5]) && l.bits[k + 16] == l.bits[k];
            let ready = l.size is Four && l.bits.len() == 32;
            &&& ready && l.j is None && twice ==> events == seq![
                Event::J(
                    if l.bits[5] {
                        Size::Sixteen
                    } else {
                        Size::Four
                    },
                ),
            ]
            &&& ready && l.j is None && !twice ==> events.len() == 0
            &&& !ready ==> events.len() == 0
            &&& l.j is Some && l.j_prime ==> events.len() == 0
            &&& l.j is Some ==> next.j == l.j
            &&& events.len() > 0 && l.j is None ==> events.len() == 1 && next.j is Some
                && events[0] == Event::J(next.j->0)
            &&& events.len() > 0 && l.j is Some ==> events == seq![Event::JPrime] && next.j_prime
            &&& events.len() == 0 ==> next == l
        }),
{
    let ready = l.size is Four && l.bits.len() == 32;
    if ready && l.j is None {
        let (older, newer) = (l.bits.take(16), l.bits.skip(16));
        the_sequences_are_what_they_are(Size::Four);
        the_sequences_are_what_they_are(Size::Sixteen);
        let (four, sixteen) = (Size::Four.asked(), Size::Sixteen.asked());
        let twice = forall|k: int|
            0 <= k < 16 ==> #[trigger] l.bits[k] == (k == 4 || k == 7 || k == 8 || k == 11 || k
                == 15 || k == 5 && l.bits[5]) && l.bits[k + 16] == l.bits[k];
        assert(forall|k: int| 0 <= k < 16 ==> older[k] == l.bits[k]);
        assert(forall|k: int| 0 <= k < 16 ==> newer[k] == l.bits[k + 16]);
        if twice {
            if l.bits[5] {
                assert(older =~= sixteen);
                assert(newer =~= sixteen);
                assert(older[5] != four[5]);
            } else {
                assert(older =~= four);
                assert(newer =~= four);
            }
        } else if older == four && newer == four {
            assert(older[5] == l.bits[5]);
            assert forall|k: int| 0 <= k < 16 implies #[trigger] l.bits[k] == (k == 4 || k == 7 || k
                == 8 || k == 11 || k == 15 || k == 5 && l.bits[5]) && l.bits[k + 16]
                == l.bits[k] by {
                assert(older[k] == four[k] && newer[k] == four[k]);
            }
        } else if older == sixteen && newer == sixteen {
            assert(older[5] == l.bits[5]);
            assert forall|k: int| 0 <= k < 16 implies #[trigger] l.bits[k] == (k == 4 || k == 7 || k
                == 8 || k == 11 || k == 15 || k == 5 && l.bits[5]) && l.bits[k + 16]
                == l.bits[k] by {
                assert(older[k] == sixteen[k] && newer[k] == sixteen[k]);
            }
        }
    }
}

/// A hunt that has had some readings, one sample each.
pub open spec fn hunted(hunt: Hunt, readings: Seq<Reading>) -> Hunt
    decreases readings.len(),
{
    if readings.len() == 0 {
        hunt
    } else {
        hunted(hunt, readings.drop_last()).fed(readings.last(), 0).0
    }
}

/// A hunt is sure of S once four samples are there and forty after them have each matched
/// the one two symbols before, and not sooner.
pub proof fn s_is_sure_after_40_halves(readings: Seq<Reading>)
    requires
        readings.len() <= 44,
    ensures
        readings.len() < 44 ==> !hunted(Hunt::fresh(), readings).armed,
        readings.len() == 44 ==> (hunted(Hunt::fresh(), readings).armed <==> forall|i: int|
            4 <= i < 44 ==> (#[trigger] readings[i]).alike),
{
    lemma_hunted(readings);
}

proof fn lemma_hunted(readings: Seq<Reading>)
    requires
        readings.len() <= 44,
    ensures
        ({
            let n = readings.len() as int;
            let hunt = hunted(Hunt::fresh(), readings);
            let all = forall|i: int| 4 <= i < n ==> (#[trigger] readings[i]).alike;
            &&& hunt.wf()
            &&& hunt.recent == (if n < 4 {
                n
            } else {
                4
            })
            &&& n <= 4 ==> hunt.held == 0
            &&& n >= 4 ==> hunt.held <= n - 4
            &&& n >= 4 ==> (hunt.held == n - 4 <==> all)
        }),
    decreases readings.len(),
{
    let n = readings.len() as int;
    if n > 0 {
        let before = readings.drop_last();
        lemma_hunted(before);
        let was = hunted(Hunt::fresh(), before);
        assert(forall|i: int| 0 <= i < n - 1 ==> before[i] == readings[i]);
        if n > 4 {
            let all = forall|i: int| 4 <= i < n ==> (#[trigger] readings[i]).alike;
            let all_before = forall|i: int| 4 <= i < n - 1 ==> (#[trigger] before[i]).alike;
            if all {
                assert(readings[n - 1].alike);
                assert forall|i: int| 4 <= i < n - 1 implies (#[trigger] before[i]).alike by {
                    assert(readings[i].alike);
                }
            }
            if all_before && readings[n - 1].alike {
                assert forall|i: int| 4 <= i < n implies (#[trigger] readings[i]).alike by {
                    if i < n - 1 {
                        assert(before[i].alike);
                    }
                }
            }
        }
    }
}

/// Once S is sure, its reversal is heard at the fourth sample or later that lies against
/// the template, and is put three samples back, at the first of the four.
pub proof fn a_reversal_is_put_at_the_first_of_four(hunt: Hunt, reading: Reading, index: u64)
    requires
        hunt.wf(),
    ensures
        ({
            let (next, template, found) = hunt.fed(reading, index);
            &&& found is Some <==> hunt.armed && hunt.matched >= 3 && reading.turned
            &&& found is Some && index >= 3 ==> found->0 == index - 3
            &&& found is Some && index < 3 ==> found->0 == 0
            &&& hunt.armed && found is None && reading.alike ==> next.armed && next.lapsed == 0
                && template is Followed
            &&& hunt.armed && found is None && !reading.alike ==> (if hunt.lapsed < 24 {
                next.armed && next.lapsed == hunt.lapsed + 1 && template is Kept
            } else {
                !next.armed && next.held == 0 && template is Forgotten
            })
            &&& !hunt.armed && hunt.recent < 4 ==> template is Kept
            &&& !hunt.armed && hunt.recent == 4 ==> (template is Learned <==> reading.alike)
            &&& !hunt.armed && hunt.recent == 4 && !reading.alike ==> template is Forgotten
                && next.held == 0
        }),
{
}

/// The training sequence is looked for from symbol 48 of PP, or 16 of TRN, and asked for
/// once there are samples up to symbol 352, or 384, with eight halves of search and
/// fifteen of reach to spare.
pub proof fn the_sequence_is_fitted_once_it_is_there(
    rx: Hearing,
    reading: Reading,
    asked: Asked,
    size: Size,
)
    requires
        rx.wf(),
        rx.asks(reading, asked),
    ensures
        crate::v34::receiver::search_window(Reference::PpThenTrn) == (48int, 288int),
        crate::v34::receiver::search_window(Reference::Trn(size)) == (16int, 256int),
        crate::v34::receiver::training_window(Reference::PpThenTrn) == (48int, 352int),
        crate::v34::receiver::training_window(Reference::Trn(size)) == (16int, 384int),
        rx.doing is Collecting ==> {
            let start = rx.doing->start;
            let symbols = if rx.doing->reference is PpThenTrn {
                352int
            } else {
                384
            };
            &&& asked is Fit <==> rx.made + 1 > start + 2 * symbols + 23
            &&& asked is Fit || asked is Nothing
            &&& asked is Fit ==> asked->Fit_start == start
        },
        rx.doing is Idle ==> asked is Nothing,
        rx.doing is Hunting ==> asked is Template,
        rx.doing is Trained ==> asked is Symbols,
{
}

/// A fit that leaves six decibels or more trains the receiver, and one that leaves less,
/// or no fit, does not; the first symbol is where the alignment puts the end of the
/// window.
pub proof fn six_decibels_train_a_receiver(rx: Hearing, fit: Option<Fit>)
    requires
        rx.wf(),
        rx.doing is Collecting,
    ensures
        ({
            let next = rx.fitted(fit);
            let symbols = if rx.doing->reference is PpThenTrn {
                352int
            } else {
                384
            };
            let trained = fit is Some && fit->0.snr >= 600;
            &&& next.doing is Trained <==> trained
            &&& !trained ==> next.doing is Idle && next.heard == rx.heard.push(Heard::Untrained)
            &&& trained ==> next.heard == rx.heard.push(Heard::Trained { snr: fit->0.snr })
            &&& trained && rx.doing->start + fit->0.delta >= 0 ==> next.next_symbol == not_due(
                (rx.doing->start + fit->0.delta + 2 * symbols) as nat,
                rx.made,
            )
            &&& next.made == rx.made
        }),
{
}

/// A symbol is due every other sample from the next one on: just those that have
/// seventeen samples made from their centre on, and sixteen kept before it.
pub proof fn a_symbol_is_due_every_other_sample(next: nat, made: nat, centre: nat)
    ensures
        due(next, made).contains(centre) <==> {
            &&& centre >= next
            &&& (centre - next) % 2 == 0
            &&& centre + 17 <= made
            &&& centre >= oldest(made) + 16
        },
        oldest(made) == (if made > 4096 {
            made - 4096
        } else {
            0
        }),
        not_due(next, made) >= next,
        (not_due(next, made) - next) % 2 == 0,
        not_due(next, made) + 17 > made,
        not_due(next, made) > next ==> not_due(next, made) + 15 <= made,
    decreases made + 1 - next,
{
    if next + 17 <= made {
        a_symbol_is_due_every_other_sample(next + 2, made, centre);
        let rest = due(next + 2, made);
        if next >= oldest(made) + 16 {
            let all = due(next, made);
            assert(all == seq![next] + rest);
            if rest.contains(centre) {
                let i = choose|i: int| 0 <= i < rest.len() && rest[i] == centre;
                assert(all[i + 1] == centre);
            }
            if centre == next {
                assert(all[0] == centre);
            }
            if all.contains(centre) && centre != next {
                let i = choose|i: int| 0 <= i < all.len() && all[i] == centre;
                assert(rest[i - 1] == centre);
            }
        }
    } else {
        assert(due(next, made).len() == 0);
    }
}

/// The call modem's carrier and its tone B are at 1200 Hz, the answer modem's and its tone
/// A at 2400, with its guard tone half way between.
pub proof fn each_side_has_its_tone(side: Side)
    ensures
        side is Call <==> side.tone() == 1200,
        side is Answer <==> side.tone() == 2400,
        2 * crate::v34::dpsk::GUARD_TONE == Side::Call.tone() + Side::Answer.tone(),
{
}

/// Training begins sixteen symbols after S-bar does, at two samples to a symbol, on the
/// points the reference is sent with; and what was heard before stays heard.
pub proof fn training_begins_where_s_bar_ends(rx: Hearing, reference: Reference, far: Mode, s_bar: u64)
    requires
        rx.wf(),
        s_bar < 0x7fff_ffff_fffd_0000,
    ensures
        ({
            let next = rx.trains(reference, far, s_bar);
            &&& next.doing is Collecting
            &&& next.doing->start == s_bar + 2 * 16
            &&& next.doing->reference == reference
            &&& next.doing->far == far
            &&& next.size == (match reference {
                Reference::PpThenTrn => Size::Four,
                Reference::Trn(size) => size,
            })
            &&& next.made == rx.made
            &&& next.heard == rx.heard
        }),
{
}

/// A J' is heard at four points straight behind a J, once J has been, and not again.
pub proof fn a_j_prime_is_heard_behind_a_j(l: Listened)
    requires
        l.wf(),
        l.size is Four,
        l.bits.len() == 32,
        l.j is Some,
        !l.j_prime,
    ensures
        ({
            let (next, events) = l.asked();
            let behind = forall|k: int|
                0 <= k < 16 ==> #[trigger] l.bits[k] == (k == 4 || k == 7 || k == 8 || k == 11 || k
                    == 15 || k == 5 && l.bits[5]);
            let ends = forall|k: int|
                0 <= k < 16 ==> l.bits[#[trigger] (k + 16)] == (k < 5 || k == 7 || k == 8 || k == 11
                    || k == 15);
            &&& behind && ends <==> events.len() > 0
            &&& events.len() > 0 ==> events == seq![Event::JPrime] && next.j_prime
            &&& next.j == l.j
        }),
{
    let (older, newer) = (l.bits.take(16), l.bits.skip(16));
    the_sequences_are_what_they_are(Size::Four);
    the_sequences_are_what_they_are(Size::Sixteen);
    let (four, sixteen, end) = (
        Size::Four.asked(),
        Size::Sixteen.asked(),
        crate::v34::signals::ended(),
    );
    assert(forall|k: int| 0 <= k < 16 ==> older[k] == l.bits[k]);
    assert(forall|k: int| 0 <= k < 16 ==> newer[k] == l.bits[k + 16]);
    let behind = forall|k: int|
        0 <= k < 16 ==> #[trigger] l.bits[k] == (k == 4 || k == 7 || k == 8 || k == 11 || k == 15
            || k == 5 && l.bits[5]);
    let ends = forall|k: int|
        0 <= k < 16 ==> l.bits[#[trigger] (k + 16)] == (k < 5 || k == 7 || k == 8 || k == 11 || k
            == 15);
    if behind && ends {
        assert(newer =~= end) by {
            assert forall|k: int| 0 <= k < 16 implies newer[k] == end[k] by {
                assert(newer[k] == l.bits[k + 16]);
            }
        }
        if l.bits[5] {
            assert(older =~= sixteen);
        } else {
            assert(older =~= four);
        }
    }
    if l.closed() {
        assert forall|k: int| 0 <= k < 16 implies l.bits[#[trigger] (k + 16)] == (k < 5 || k == 7
            || k == 8 || k == 11 || k == 15) by {
            assert(newer[k] == end[k]);
        }
        assert(older[5] == l.bits[5]);
        assert forall|k: int| 0 <= k < 16 implies #[trigger] l.bits[k] == (k == 4 || k == 7 || k
            == 8 || k == 11 || k == 15 || k == 5 && l.bits[5]) by {
            assert(older[k] == l.bits[k]);
            if older == four {
                assert(older[k] == four[k] && older[5] == four[5]);
            } else {
                assert(older[k] == sixteen[k] && older[5] == sixteen[5]);
            }
        }
    }
}

/// Each half-symbol sample is counted. A hunt that hears the reversal reports where it was
/// and is over; one that does not goes on; and a receiver that is trained asks for the
/// symbols that are due and waits for the next that is not.
pub proof fn a_sample_does_what_the_receiver_is_at(rx: Hearing, reading: Reading, asked: Asked)
    requires
        rx.wf(),
        rx.asks(reading, asked),
    ensures
        ({
            let next = rx.on_half(reading);
            &&& next.made == rx.made + 1
            &&& rx.doing is Idle || rx.doing is Collecting ==> next.doing == rx.doing && next.heard
                == rx.heard && next.next_symbol == rx.next_symbol
            &&& rx.doing is Hunting ==> {
                let (after, _, found) = rx.doing->Hunting_0.fed(reading, rx.made as u64);
                &&& found is Some ==> next.doing is Idle && next.heard == rx.heard.push(
                    Heard::Reversal { at: found->0 },
                )
                &&& found is None ==> next.doing == Doing::Hunting(after) && next.heard == rx.heard
            }
            &&& rx.doing is Trained ==> {
                &&& next.doing is Trained
                &&& next.heard == rx.heard
                &&& next.next_symbol == not_due(rx.next_symbol, rx.made + 1)
                &&& asked is Symbols
                &&& numbers(asked->Symbols_0@) == due(rx.next_symbol, rx.made + 1)
            }
        }),
{
}

} // verus!
