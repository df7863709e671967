use keyevolve::score::{score_corpus, score_file, THRESHOLD_CAP};
use keyevolve::{Key, Keyboard};

fn chars(s: &str) -> Vec<char> {
    s.chars().collect()
}

/// A layout with `a` on a home-row anchor slot: the canonical layout with
/// the key pairs of slots 26 and 32 exchanged in place.
fn layout_with_a_on_anchor() -> Keyboard {
    let base = Keyboard::new_47();
    let mut keys = Vec::new();
    for i in 0..47 {
        if i == 26 {
            keys.push(Key::StaticLetter('j', 'J'));
        } else if i == 32 {
            keys.push(Key::StaticLetter('a', 'A'));
        } else {
            keys.push(base.key_at(i));
        }
    }
    Keyboard::from_keys(keys)
}

#[test]
fn double_letter_on_anchor_slot_costs_its_weighted_effort() {
    // "aa" with `a` on the anchor slot 32, whose effort weight is zero:
    // the opening key press costs the slot's effort and the repeat is a
    // same-slot move, so the whole file costs the slot's effort times the
    // same-hand same-row weighting — zero on this slot.
    let kb = layout_with_a_on_anchor();
    assert_eq!(kb.char_to_index('a'), Some(32));
    assert_eq!(score_file(&kb, &chars("aa")), 0);
}

#[test]
fn double_letter_costs_fresh_press_plus_zero_repeat() {
    // "hh" on the canonical layout: `h` sits on slot 31 with effort
    // 4 quarters. The space cursor is off the keyboard, so the first `h`
    // costs the plain effort (16 sixteenths) and the repeat costs zero.
    let kb = Keyboard::new_47();
    assert_eq!(score_file(&kb, &chars("hh")), 16);
}

#[test]
fn bigram_cost_charges_the_arriving_slot() {
    // "as" on the canonical layout: `a` on slot 26 (effort 1 quarter),
    // `s` on slot 21 (effort 4 quarters, other hand). Fresh press of `a`
    // is 4 sixteenths; the cross-hand move to `s` is 4 x 5 = 20.
    let kb = Keyboard::new_47();
    assert_eq!(score_file(&kb, &chars("as")), 24);
}

#[test]
fn unmapped_character_costs_nothing_and_resets_the_chain() {
    let kb = Keyboard::new_47();
    // A newline is not on the keyboard: it costs nothing, and the `a`
    // after it is charged as a fresh press (4 sixteenths for slot 26).
    assert_eq!(score_file(&kb, &chars("\na")), 4);
    // The chain then points at `a`: the repeat costs nothing more.
    assert_eq!(score_file(&kb, &chars("\naa")), 4);
    // A file of only unmapped characters costs nothing.
    assert_eq!(score_file(&kb, &chars("\n\t \r")), 0);
    assert_eq!(score_file(&kb, &chars("")), 0);
}

#[test]
fn corpus_score_sums_its_files() {
    let kb = Keyboard::new_47();
    let files = vec![chars("aa"), chars("as")];
    let full = score_file(&kb, &files[0]) + score_file(&kb, &files[1]);
    assert_eq!(full, 4 + 24);
    assert_eq!(score_corpus(&kb, &files, THRESHOLD_CAP), full);
}

#[test]
fn pruning_is_exact_at_or_below_the_threshold() {
    let kb = Keyboard::new_47();
    let files = vec![chars("aa"), chars("as")];
    // The full score equals the threshold: still exact.
    assert_eq!(score_corpus(&kb, &files, 28), 28);
    assert_eq!(score_corpus(&kb, &files, 29), 28);
}

#[test]
fn pruning_above_the_threshold_returns_a_lower_bound() {
    let kb = Keyboard::new_47();
    let files = vec![chars("aa"), chars("as"), chars("as")];
    let full = 4 + 24 + 24;
    // With a tiny threshold the first file is scored, the running sum
    // exceeds the threshold, and the rest is skipped: the result is a
    // lower bound of the full score that itself exceeds the threshold.
    let pruned = score_corpus(&kb, &files, 3);
    assert_eq!(pruned, 4);
    assert!(pruned <= full);
    assert!(pruned > 3);
    // A threshold of zero prunes after the first costly file as well.
    assert_eq!(score_corpus(&kb, &files, 0), 4);
    // A threshold between the two prefix sums stops after the second file.
    assert_eq!(score_corpus(&kb, &files, 20), 28);
}
