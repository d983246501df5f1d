//! The receiver of V.34's phases 3 and 4: finding S, collecting the training
//! sequence, and telling where its symbols are.

use softmodem::v32::Mode;
use softmodem::v34::receiver::{
    best_alignment, windows, Asked, Fit, Heard, Hunt, Reading, Receiver, Reference, Template,
};
use softmodem::v34::signals::Size;

const ALIKE: Reading = Reading { alike: true, turned: false };
const TURNED: Reading = Reading { alike: false, turned: true };
const NEITHER: Reading = Reading { alike: false, turned: false };

#[test]
fn a_reversal_is_put_at_the_first_sample_that_turned() {
    let mut hunt = Hunt::new();
    for index in 0..44 {
        let expected = if index < 4 { Template::Kept } else { Template::Learned };
        assert_eq!(hunt.feed(ALIKE, index), (expected, None));
    }
    assert!(hunt.armed);
    for index in 44..60 {
        assert_eq!(hunt.feed(ALIKE, index), (Template::Followed, None));
    }
    assert_eq!(hunt.feed(TURNED, 60), (Template::Kept, Some(57)));
}

#[test]
fn s_is_not_trusted_before_twenty_symbols_of_it() {
    let mut hunt = Hunt::new();
    for index in 0..43 {
        hunt.feed(ALIKE, index);
    }
    assert!(!hunt.armed);
    assert_eq!(hunt.feed(TURNED, 43), (Template::Forgotten, None));
    assert_eq!(hunt.held, 0);
}

#[test]
fn a_template_that_nothing_matches_is_forgotten() {
    let mut hunt = Hunt::new();
    for index in 0..44 {
        hunt.feed(ALIKE, index);
    }
    for index in 44..68 {
        assert_eq!(hunt.feed(NEITHER, index), (Template::Kept, None));
    }
    assert_eq!(hunt.feed(NEITHER, 68), (Template::Forgotten, None));
    assert!(!hunt.armed);
}

#[test]
fn a_receiver_hunts_trains_and_gives_its_symbols() {
    let mut rx = Receiver::new();
    assert_eq!(rx.on_half(ALIKE), Asked::Nothing);
    rx.hunt();
    for _ in 0..44 {
        assert!(matches!(rx.on_half(ALIKE), Asked::Template(_)));
    }
    for _ in 0..4 {
        rx.on_half(TURNED);
    }
    assert_eq!(rx.heard(), Some(Heard::Reversal { at: 45 }));
    assert_eq!(rx.heard(), None);
    assert_eq!(rx.on_half(TURNED), Asked::Nothing, "idle once it has heard S-bar");

    // S-bar is sixteen symbols, and the fit wants the whole window and the search.
    rx.train(Reference::PpThenTrn, Mode::Answer, 45);
    let start = 45 + 32;
    let ((_, _), (_, end)) = windows(Reference::PpThenTrn);
    while rx.halves() < start + 8 + 2 * end + 15 {
        assert_eq!(rx.on_half(NEITHER), Asked::Nothing);
    }
    let wanted = Asked::Fit { reference: Reference::PpThenTrn, far: Mode::Answer, start };
    assert_eq!(rx.on_half(NEITHER), wanted);
    assert!(!rx.is_trained());
    let centres = rx.finish_training(Some(Fit { delta: -3, snr: 3210 }));
    assert!(rx.is_trained());
    assert_eq!(rx.heard(), Some(Heard::Trained { snr: 3210 }));
    // Every symbol past the window that has its samples either side.
    let first = start - 3 + 2 * end;
    let expected: Vec<u64> = (0..).map(|i| first + 2 * i).take_while(|c| c + 17 <= rx.halves()).collect();
    assert!(!expected.is_empty());
    assert_eq!(centres, expected);
    let next = expected.last().unwrap() + 2;
    let mut got = Vec::new();
    for _ in 0..4 {
        if let Asked::Symbols(more) = rx.on_half(NEITHER) {
            got.extend(more);
        }
    }
    assert_eq!(got, vec![next, next + 2]);
    assert_eq!(rx.samples(next, 15), Some((next - 15, next + 16)));
    assert_eq!(rx.samples(rx.halves(), 15), None);
    rx.set_size(Size::Sixteen);
    assert_eq!(rx.size(), Size::Sixteen);
    rx.idle();
    assert_eq!(rx.on_half(ALIKE), Asked::Nothing);
}

#[test]
fn a_poor_fit_or_none_is_not_trained() {
    for fit in [None, Some(Fit { delta: 2, snr: 599 })] {
        let mut rx = Receiver::new();
        rx.train(Reference::Trn(Size::Four), Mode::Call, 0);
        while matches!(rx.on_half(NEITHER), Asked::Nothing) {}
        assert_eq!(rx.finish_training(fit), Vec::new());
        assert_eq!(rx.heard(), Some(Heard::Untrained));
        assert!(!rx.is_trained());
    }
}

#[test]
fn the_first_of_the_best_alignments_is_taken() {
    assert_eq!(best_alignment(&[None, Some(9), Some(4), Some(4), Some(7)]), Some(2));
    assert_eq!(best_alignment(&[None, None]), None);
    assert_eq!(best_alignment(&[]), None);
}
