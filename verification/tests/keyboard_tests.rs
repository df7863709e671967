use keyevolve::{Key, KeyCategory, Keyboard};

#[test]
fn keys_match_their_shifted_and_unshifted_characters() {
    let k = Key::Letter('a', 'A');
    assert!(k.match_char('a'));
    assert!(k.match_char('A'));
    assert!(!k.match_char('b'));
    assert_eq!(k.key_val(), 'a');
    assert_eq!(k.category(), KeyCategory::Letter);
    let p = Key::Punctuation(',', '<');
    assert!(p.match_char('<'));
    assert_eq!(p.key_val(), ',');
}

#[test]
fn canonical_layout_holds_the_hardcoded_keys() {
    let kb = Keyboard::new_47();
    assert_eq!(kb.key_at(0), Key::Punctuation('`', '~'));
    assert_eq!(kb.key_at(1), Key::Number('1', '!'));
    assert_eq!(kb.key_at(26), Key::Letter('a', 'A'));
    assert_eq!(kb.key_at(31), Key::StaticLetter('h', 'H'));
    assert_eq!(kb.key_at(34), Key::StaticLetter('l', 'L'));
    assert_eq!(kb.key_at(46), Key::Punctuation('/', '?'));
    assert!(kb.is_well_formed());
}

#[test]
fn char_to_index_finds_the_first_matching_slot() {
    let kb = Keyboard::new_47();
    assert_eq!(kb.char_to_index('a'), Some(26));
    assert_eq!(kb.char_to_index('A'), Some(26));
    assert_eq!(kb.char_to_index('!'), Some(1));
    assert_eq!(kb.char_to_index(' '), None);
    assert_eq!(kb.char_to_index('\n'), None);
    assert_eq!(kb.get_key('a'), Some(&Key::Letter('a', 'A')));
    assert!(kb.get_key('\t').is_none());
}

#[test]
fn layout_equality_is_by_key_assignment() {
    let a = Keyboard::new_47();
    let b = Keyboard::new_47();
    assert!(a == b);
    let c = a.duplicate();
    assert!(a == c);
    let d = a.reproduce(0);
    assert!(a == d);
}

#[test]
fn zero_mutations_return_an_identical_copy() {
    let kb = Keyboard::new_47();
    let child = kb.reproduce(0);
    for i in 0..47 {
        assert_eq!(kb.key_at(i), child.key_at(i));
    }
}

const MUTABLE: [usize; 15] = [19, 20, 21, 22, 23, 24, 35, 36, 39, 40, 41, 42, 43, 44, 45];

fn category_counts(kb: &Keyboard) -> [usize; 4] {
    let mut counts = [0usize; 4];
    for i in 0..47 {
        match kb.key_at(i).category() {
            KeyCategory::Letter => counts[0] += 1,
            KeyCategory::StaticLetter => counts[1] += 1,
            KeyCategory::Number => counts[2] += 1,
            KeyCategory::Punctuation => counts[3] += 1,
        }
    }
    counts
}

#[test]
fn mutation_preserves_categories_and_anchors() {
    let parent = Keyboard::new_47();
    for round in 0..20 {
        let child = parent.reproduce(1 + round % 8);
        // The multiset of category labels is unchanged.
        assert_eq!(category_counts(&parent), category_counts(&child));
        // Home-row anchors are byte-for-byte unchanged.
        for i in [31, 32, 33, 34] {
            assert_eq!(parent.key_at(i), child.key_at(i));
        }
        // Every slot outside the mutable set is unchanged.
        for i in 0..47 {
            if !MUTABLE.contains(&i) {
                assert_eq!(parent.key_at(i), child.key_at(i));
            }
        }
        assert!(child.is_well_formed());
    }
}

#[test]
fn mutation_changes_at_most_two_slots_per_swap() {
    let parent = Keyboard::new_47();
    for &m in &[1usize, 2, 4, 8] {
        for _ in 0..10 {
            let child = parent.reproduce(m);
            let changed = (0..47).filter(|&i| parent.key_at(i) != child.key_at(i)).count();
            assert!(changed <= 2 * m, "{} slots changed under {} swaps", changed, m);
        }
    }
}

#[test]
fn one_swap_changes_two_mutable_slots_or_none() {
    let parent = Keyboard::new_47();
    let mut saw_a_change = false;
    for _ in 0..40 {
        let child = parent.reproduce(1);
        let changed: Vec<usize> =
            (0..47).filter(|&i| parent.key_at(i) != child.key_at(i)).collect();
        assert!(changed.len() == 0 || changed.len() == 2, "changed: {:?}", changed);
        for i in &changed {
            assert!(MUTABLE.contains(i));
        }
        if changed.len() == 2 {
            saw_a_change = true;
            // The two keys were exchanged, not rewritten.
            assert_eq!(parent.key_at(changed[0]), child.key_at(changed[1]));
            assert_eq!(parent.key_at(changed[1]), child.key_at(changed[0]));
        }
    }
    assert!(saw_a_change, "forty single swaps never moved a key");
}
