//! Fixed keyboard geometry: 47 slots, 4 rows, 8 fingers on 2 hands.
//!
//! The geometry is immutable: each slot index in `[0, 47)` has a fixed row,
//! a fixed finger, and a fixed effort weight. Effort weights are stored in
//! quarter units (the weight 0.75 becomes 3, the weight 4.0 becomes 16).

use vstd::prelude::*;

verus! {

/// One of the two hands.
#[derive(Clone, Copy, PartialEq, Eq, Structural, Debug)]
pub enum Hand {
    Left,
    Right,
}

/// One of the eight fingers used for typing, left to right.
#[derive(Clone, Copy, PartialEq, Eq, Structural, Debug)]
pub enum Finger {
    LPinky,
    LRing,
    LMid,
    LIndex,
    RIndex,
    RMid,
    RRing,
    RPinky,
}

/// The row of a slot index: `[0,13)` is row 0, `[13,26)` row 1,
/// `[26,37)` row 2 and `[37,47)` row 3. Meaningful only below 47.
pub open spec fn spec_row_of(i: int) -> int {
    if i < 13 {
        0
    } else if i < 26 {
        1
    } else if i < 37 {
        2
    } else {
        3
    }
}

/// Whether slot `i` lies in row `r`.
pub open spec fn in_row(i: int, r: int) -> bool {
    0 <= i < 47 && 0 <= r < 4 && spec_row_of(i) == r
}

/// Effort weight of a slot in quarter units; 0 outside `[0, 47)`.
pub open spec fn spec_effort_q(i: int) -> int {
    if i == 0 { 12 }
    else if i == 1 { 8 }
    else if i == 2 { 8 }
    else if i == 3 { 8 }
    else if i == 4 { 8 }
    else if i == 5 { 12 }
    else if i == 6 { 12 }
    else if i == 7 { 8 }
    else if i == 8 { 8 }
    else if i == 9 { 8 }
    else if i == 10 { 8 }
    else if i == 11 { 12 }
    else if i == 12 { 16 }
    else if i == 13 { 5 }
    else if i == 14 { 6 }
    else if i == 15 { 3 }
    else if i == 16 { 3 }
    else if i == 17 { 8 }
    else if i == 18 { 10 }
    else if i == 19 { 3 }
    else if i == 20 { 3 }
    else if i == 21 { 4 }
    else if i == 22 { 4 }
    else if i == 23 { 12 }
    else if i == 24 { 14 }
    else if i == 25 { 16 }
    else if i == 26 { 1 }
    else if i == 27 { 2 }
    else if i == 28 { 0 }
    else if i == 29 { 0 }
    else if i == 30 { 4 }
    else if i == 31 { 4 }
    else if i == 32 { 0 }
    else if i == 33 { 0 }
    else if i == 34 { 2 }
    else if i == 35 { 1 }
    else if i == 36 { 4 }
    else if i == 37 { 5 }
    else if i == 38 { 6 }
    else if i == 39 { 4 }
    else if i == 40 { 4 }
    else if i == 41 { 8 }
    else if i == 42 { 4 }
    else if i == 43 { 4 }
    else if i == 44 { 4 }
    else if i == 45 { 6 }
    else if i == 46 { 5 }
    else { 0 }
}

/// The effort weight of every slot lies between 0 and 16 quarter units.
pub proof fn lemma_effort_q_bounds(i: int)
    ensures
        0 <= spec_effort_q(i) <= 16,
{
}

/// The slots covered by each finger, as fixed index membership.
pub open spec fn in_finger(f: Finger, i: int) -> bool {
    match f {
        Finger::LPinky => i == 0 || i == 1 || i == 13 || i == 26 || i == 37,
        Finger::LRing => i == 2 || i == 14 || i == 27 || i == 38,
        Finger::LMid => i == 3 || i == 15 || i == 28 || i == 39,
        Finger::LIndex => i == 4 || i == 5 || i == 16 || i == 17 || i == 29 || i == 30 || i == 40
            || i == 41,
        Finger::RIndex => i == 6 || i == 7 || i == 18 || i == 19 || i == 31 || i == 32 || i == 42
            || i == 43,
        Finger::RMid => i == 8 || i == 20 || i == 33 || i == 44,
        Finger::RRing => i == 9 || i == 21 || i == 34 || i == 45,
        Finger::RPinky => i == 10 || i == 11 || i == 12 || i == 22 || i == 23 || i == 24 || i == 25
            || i == 35 || i == 36 || i == 46,
    }
}

/// The finger at position `f` in left-to-right order.
pub open spec fn spec_finger_at(f: int) -> Finger {
    if f == 0 { Finger::LPinky }
    else if f == 1 { Finger::LRing }
    else if f == 2 { Finger::LMid }
    else if f == 3 { Finger::LIndex }
    else if f == 4 { Finger::RIndex }
    else if f == 5 { Finger::RMid }
    else if f == 6 { Finger::RRing }
    else { Finger::RPinky }
}

/// The position (0 through 7) of the unique finger covering slot `i`.
pub open spec fn spec_finger_index_of(i: int) -> int {
    if in_finger(Finger::LPinky, i) { 0 }
    else if in_finger(Finger::LRing, i) { 1 }
    else if in_finger(Finger::LMid, i) { 2 }
    else if in_finger(Finger::LIndex, i) { 3 }
    else if in_finger(Finger::RIndex, i) { 4 }
    else if in_finger(Finger::RMid, i) { 5 }
    else if in_finger(Finger::RRing, i) { 6 }
    else { 7 }
}

/// The hand of the finger covering slot `i`: the four leftmost fingers
/// belong to the left hand.
pub open spec fn spec_hand_of(i: int) -> Hand {
    if spec_finger_index_of(i) < 4 {
        Hand::Left
    } else {
        Hand::Right
    }
}

/// The finger partition is total and disjoint over the 47 slots, and so is
/// the row partition: every slot index belongs to exactly one finger and
/// exactly one row.
pub proof fn lemma_partition_total(i: int)
    requires
        0 <= i < 47,
    ensures
        in_finger(spec_finger_at(spec_finger_index_of(i)), i),
        0 <= spec_finger_index_of(i) < 8,
        forall|f: int|
            0 <= f < 8 && f != spec_finger_index_of(i) ==> !in_finger(spec_finger_at(f), i),
        in_row(i, spec_row_of(i)),
        forall|r: int| r != spec_row_of(i) ==> !in_row(i, r),
{
}

/// Cost of moving from slot `a` to slot `b`, in sixteenth units: zero for
/// a repeat of the same slot; otherwise the effort weight of the arriving
/// slot times a transition multiplier (in quarter units: 3 for a same-hand
/// same-row move, 6 for a same-hand move to a lower-numbered row, 4 for
/// any other same-hand move, 5 for a hand alternation).
pub open spec fn spec_distance(a: int, b: int) -> int {
    if a == b {
        0
    } else if spec_hand_of(a) == spec_hand_of(b) {
        if spec_row_of(a) == spec_row_of(b) {
            spec_effort_q(b) * 3
        } else if spec_row_of(b) < spec_row_of(a) {
            spec_effort_q(b) * 6
        } else {
            spec_effort_q(b) * 4
        }
    } else {
        spec_effort_q(b) * 5
    }
}

/// Every move costs at most 96 sixteenth units, and no move costs less
/// than nothing.
pub proof fn lemma_distance_bounds(a: int, b: int)
    ensures
        0 <= spec_distance(a, b) <= 96,
{
    lemma_effort_q_bounds(b);
}

impl Finger {
    /// Whether this finger covers slot `key`; on a covered slot the row of
    /// that slot is returned.
    pub fn is_inside(&self, key: usize) -> (r: Option<usize>)
        ensures
            in_finger(*self, key as int) ==> r == Some(spec_row_of(key as int) as usize),
            !in_finger(*self, key as int) ==> r is None,
    {
        let covered: bool = match self {
            Finger::LPinky => key == 0 || key == 1 || key == 13 || key == 26 || key == 37,
            Finger::LRing => key == 2 || key == 14 || key == 27 || key == 38,
            Finger::LMid => key == 3 || key == 15 || key == 28 || key == 39,
            Finger::LIndex => key == 4 || key == 5 || key == 16 || key == 17 || key == 29 || key
                == 30 || key == 40 || key == 41,
            Finger::RIndex => key == 6 || key == 7 || key == 18 || key == 19 || key == 31 || key
                == 32 || key == 42 || key == 43,
            Finger::RMid => key == 8 || key == 20 || key == 33 || key == 44,
            Finger::RRing => key == 9 || key == 21 || key == 34 || key == 45,
            Finger::RPinky => key == 10 || key == 11 || key == 12 || key == 22 || key == 23 || key
                == 24 || key == 25 || key == 35 || key == 36 || key == 46,
        };
        if covered {
            if key < 13 {
                Some(0)
            } else if key < 26 {
                Some(1)
            } else if key < 37 {
                Some(2)
            } else {
                Some(3)
            }
        } else {
            None
        }
    }

    /// The finger at position `f` in left-to-right order.
    pub fn at_position(f: usize) -> (r: Finger)
        requires
            f < 8,
        ensures
            r == spec_finger_at(f as int),
    {
        if f == 0 { Finger::LPinky }
        else if f == 1 { Finger::LRing }
        else if f == 2 { Finger::LMid }
        else if f == 3 { Finger::LIndex }
        else if f == 4 { Finger::RIndex }
        else if f == 5 { Finger::RMid }
        else if f == 6 { Finger::RRing }
        else { Finger::RPinky }
    }
}

/// Effort weight of a slot in quarter units.
pub fn effort_quarters(i: usize) -> (r: u64)
    requires
        i < 47,
    ensures
        r == spec_effort_q(i as int),
        r <= 16,
{
    if i == 0 { 12 }
    else if i == 1 { 8 }
    else if i == 2 { 8 }
    else if i == 3 { 8 }
    else if i == 4 { 8 }
    else if i == 5 { 12 }
    else if i == 6 { 12 }
    else if i == 7 { 8 }
    else if i == 8 { 8 }
    else if i == 9 { 8 }
    else if i == 10 { 8 }
    else if i == 11 { 12 }
    else if i == 12 { 16 }
    else if i == 13 { 5 }
    else if i == 14 { 6 }
    else if i == 15 { 3 }
    else if i == 16 { 3 }
    else if i == 17 { 8 }
    else if i == 18 { 10 }
    else if i == 19 { 3 }
    else if i == 20 { 3 }
    else if i == 21 { 4 }
    else if i == 22 { 4 }
    else if i == 23 { 12 }
    else if i == 24 { 14 }
    else if i == 25 { 16 }
    else if i == 26 { 1 }
    else if i == 27 { 2 }
    else if i == 28 { 0 }
    else if i == 29 { 0 }
    else if i == 30 { 4 }
    else if i == 31 { 4 }
    else if i == 32 { 0 }
    else if i == 33 { 0 }
    else if i == 34 { 2 }
    else if i == 35 { 1 }
    else if i == 36 { 4 }
    else if i == 37 { 5 }
    else if i == 38 { 6 }
    else if i == 39 { 4 }
    else if i == 40 { 4 }
    else if i == 41 { 8 }
    else if i == 42 { 4 }
    else if i == 43 { 4 }
    else if i == 44 { 4 }
    else if i == 45 { 6 }
    else { 5 }
}

} // verus!
