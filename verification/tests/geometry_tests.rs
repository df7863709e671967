use keyevolve::{Finger, Hand, Keyboard};

#[test]
fn self_distance_is_zero_for_every_slot() {
    let kb = Keyboard::new_47();
    for a in 0..47 {
        assert_eq!(kb.distance(a, a), 0);
    }
}

#[test]
fn distance_is_asymmetric_for_an_up_down_pair() {
    let kb = Keyboard::new_47();
    // Slots 13 and 26 sit on the same finger (left pinky), one row apart.
    // Moving down arrives on a light slot, moving up arrives on a heavy
    // slot with the upward multiplier: the two directions differ.
    let down = kb.distance(13, 26);
    let up = kb.distance(26, 13);
    assert_eq!(down, 1 * 4); // effort 1 quarter, same-hand downward x4
    assert_eq!(up, 5 * 6); // effort 5 quarters, same-hand upward x6
    assert_ne!(down, up);
}

#[test]
fn same_row_and_other_hand_multipliers() {
    let kb = Keyboard::new_47();
    // 26 -> 27: left pinky to left ring, both row 2: effort 2 x 3.
    assert_eq!(kb.distance(26, 27), 2 * 3);
    // 26 -> 33: left hand to right hand: effort 0 x 5.
    assert_eq!(kb.distance(26, 33), 0);
    // 26 -> 34: left hand to right hand: effort 2 x 5.
    assert_eq!(kb.distance(26, 34), 2 * 5);
}

#[test]
fn every_slot_has_exactly_one_finger_and_one_row() {
    let kb = Keyboard::new_47();
    for i in 0..47 {
        let mut covering = 0;
        for f in 0..8 {
            let finger = Finger::at_position(f);
            if let Some(row) = finger.is_inside(i) {
                covering += 1;
                assert_eq!(Some(row), kb.index_to_row(i));
            }
        }
        assert_eq!(covering, 1, "slot {} must have exactly one finger", i);
        assert!(kb.index_to_row(i).is_some());
    }
}

#[test]
fn rows_follow_the_fixed_index_ranges() {
    let kb = Keyboard::new_47();
    assert_eq!(kb.index_to_row(0), Some(0));
    assert_eq!(kb.index_to_row(12), Some(0));
    assert_eq!(kb.index_to_row(13), Some(1));
    assert_eq!(kb.index_to_row(25), Some(1));
    assert_eq!(kb.index_to_row(26), Some(2));
    assert_eq!(kb.index_to_row(36), Some(2));
    assert_eq!(kb.index_to_row(37), Some(3));
    assert_eq!(kb.index_to_row(46), Some(3));
    assert_eq!(kb.index_to_row(47), None);
}

#[test]
fn hands_split_at_the_index_fingers() {
    let kb = Keyboard::new_47();
    assert_eq!(kb.which_hand(0), Some(Hand::Left));
    assert_eq!(kb.which_hand(5), Some(Hand::Left));
    assert_eq!(kb.which_hand(6), Some(Hand::Right));
    assert_eq!(kb.which_hand(46), Some(Hand::Right));
    assert_eq!(kb.which_hand(47), None);
}

#[test]
fn left_pinky_covers_its_column() {
    let pinky = Finger::at_position(0);
    assert_eq!(pinky.is_inside(0), Some(0));
    assert_eq!(pinky.is_inside(1), Some(0));
    assert_eq!(pinky.is_inside(13), Some(1));
    assert_eq!(pinky.is_inside(26), Some(2));
    assert_eq!(pinky.is_inside(37), Some(3));
    assert_eq!(pinky.is_inside(2), None);
}
