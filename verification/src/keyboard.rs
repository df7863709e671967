//! A layout: an assignment of 47 keys to the fixed slot geometry.

use vstd::prelude::*;
use vstd::assert_seqs_equal;

use crate::geometry::{
    spec_distance, spec_effort_q, spec_finger_at, spec_hand_of, spec_row_of, in_finger,
    lemma_partition_total, lemma_distance_bounds, effort_quarters, Finger, Hand,
};
use crate::key::{categories_of, Key};
use crate::rng::rand_below;

verus! {

/// A keyboard layout: exactly 47 keys, one per slot of the fixed geometry.
/// Two layouts are equal exactly when every slot carries the same key; the
/// geometry (rows, fingers, effort weights) is shared by all layouts.
#[derive(Clone, Debug)]
pub struct Keyboard {
    keys: Vec<Key>,
}

impl View for Keyboard {
    type V = Seq<Key>;

    closed spec fn view(&self) -> Seq<Key> {
        self.keys@
    }
}

impl PartialEq for Keyboard {
    fn eq(&self, other: &Keyboard) -> (r: bool) {
        if self.keys.len() != other.keys.len() {
            return false;
        }
        let n = self.keys.len();
        let mut i: usize = 0;
        while i < n
            invariant
                n == self.keys@.len() == other.keys@.len(),
                i <= n,
                forall|j: int| 0 <= j < i ==> self.keys@[j] == other.keys@[j],
            decreases n - i,
        {
            if self.keys[i] != other.keys[i] {
                assert(self@ != other@);
                return false;
            }
            i += 1;
        }
        proof {
            assert_seqs_equal!(self@ == other@);
        }
        true
    }
}

impl vstd::std_specs::cmp::PartialEqSpecImpl for Keyboard {
    open spec fn obeys_eq_spec() -> bool {
        true
    }

    open spec fn eq_spec(&self, other: &Keyboard) -> bool {
        self@ == other@
    }
}

/// The mutable slots: the fixed subset of the 47 slots that mutation may
/// touch. Home-row anchors and the leftmost/topmost always-static slots
/// lie outside it.
pub open spec fn in_mutable(i: int) -> bool {
    i == 19 || i == 20 || i == 21 || i == 22 || i == 23 || i == 24 || i == 35 || i == 36 || i == 39
        || i == 40 || i == 41 || i == 42 || i == 43 || i == 44 || i == 45
}

/// The mutable slots as an ordered list.
pub open spec fn mutable_slot_list() -> Seq<int> {
    seq![19, 20, 21, 22, 23, 24, 35, 36, 39, 40, 41, 42, 43, 44, 45]
}

/// The letter-restricted mutable slots: a key drawn here may only swap
/// with a slot currently holding a `Letter` key.
pub open spec fn letter_restricted(i: int) -> bool {
    i == 19 || i == 20 || i == 39 || i == 40 || i == 43 || i == 44
}

/// Membership in the mutable set agrees with the ordered list.
proof fn lemma_mutable_list_complete(i: int)
    requires
        in_mutable(i),
    ensures
        exists|t: int| 0 <= t < 15 && mutable_slot_list()[t] == i,
{
    if i == 19 { assert(mutable_slot_list()[0] == i); }
    else if i == 20 { assert(mutable_slot_list()[1] == i); }
    else if i == 21 { assert(mutable_slot_list()[2] == i); }
    else if i == 22 { assert(mutable_slot_list()[3] == i); }
    else if i == 23 { assert(mutable_slot_list()[4] == i); }
    else if i == 24 { assert(mutable_slot_list()[5] == i); }
    else if i == 35 { assert(mutable_slot_list()[6] == i); }
    else if i == 36 { assert(mutable_slot_list()[7] == i); }
    else if i == 39 { assert(mutable_slot_list()[8] == i); }
    else if i == 40 { assert(mutable_slot_list()[9] == i); }
    else if i == 41 { assert(mutable_slot_list()[10] == i); }
    else if i == 42 { assert(mutable_slot_list()[11] == i); }
    else if i == 43 { assert(mutable_slot_list()[12] == i); }
    else if i == 44 { assert(mutable_slot_list()[13] == i); }
    else { assert(mutable_slot_list()[14] == i); }
}

/// The ordered list of mutable slots.
fn mutable_slots() -> (r: Vec<usize>)
    ensures
        r@.len() == 15,
        forall|t: int| 0 <= t < 15 ==> r@[t] as int == mutable_slot_list()[t],
        forall|t: int| 0 <= t < 15 ==> in_mutable(#[trigger] r@[t] as int) && r@[t] < 47,
{
    let mut v: Vec<usize> = Vec::new();
    v.push(19);
    v.push(20);
    v.push(21);
    v.push(22);
    v.push(23);
    v.push(24);
    v.push(35);
    v.push(36);
    v.push(39);
    v.push(40);
    v.push(41);
    v.push(42);
    v.push(43);
    v.push(44);
    v.push(45);
    v
}

/// The mutable slots that are not letter-restricted: the draw pool for the
/// partner of a punctuation key.
fn non_letter_restricted_slots() -> (r: Vec<usize>)
    ensures
        r@.len() == 9,
        forall|t: int| 0 <= t < 9 ==> in_mutable(#[trigger] r@[t] as int) && r@[t] < 47,
{
    let mut v: Vec<usize> = Vec::new();
    v.push(21);
    v.push(22);
    v.push(23);
    v.push(24);
    v.push(35);
    v.push(36);
    v.push(41);
    v.push(42);
    v.push(45);
    v
}

/// The mutable slots currently holding a `Letter` key: the draw pool for
/// the partner of a letter-restricted slot.
fn letter_slots(keys: &Vec<Key>) -> (r: Vec<usize>)
    requires
        keys@.len() == 47,
        exists|i: int| in_mutable(i) && (#[trigger] keys@[i]) is Letter,
    ensures
        r@.len() > 0,
        forall|t: int|
            0 <= t < r@.len() ==> in_mutable(#[trigger] r@[t] as int) && r@[t] < 47
                && keys@[r@[t] as int] is Letter,
{
    let pool = mutable_slots();
    let mut v: Vec<usize> = Vec::new();
    let mut t: usize = 0;
    while t < 15
        invariant
            t <= 15,
            pool@.len() == 15,
            keys@.len() == 47,
            forall|s: int| 0 <= s < 15 ==> pool@[s] as int == mutable_slot_list()[s],
            forall|s: int| 0 <= s < 15 ==> in_mutable(#[trigger] pool@[s] as int) && pool@[s] < 47,
            forall|u: int|
                0 <= u < v@.len() ==> in_mutable(#[trigger] v@[u] as int) && v@[u] < 47
                    && keys@[v@[u] as int] is Letter,
            forall|s: int|
                0 <= s < t && keys@[pool@[s] as int] is Letter ==> v@.contains(#[trigger] pool@[s]),
        decreases 15 - t,
    {
        let slot = pool[t];
        if matches!(keys[slot], Key::Letter(_, _)) {
            let ghost v0 = v@;
            v.push(slot);
            proof {
                assert forall|s: int|
                    0 <= s < t + 1 && keys@[pool@[s] as int] is Letter implies v@.contains(
                    #[trigger] pool@[s],
                ) by {
                    if s < t {
                        let u = choose|u: int| 0 <= u < v0.len() && v0[u] == pool@[s];
                        assert(v@[u] == pool@[s]);
                    } else {
                        assert(v@[v@.len() - 1] == pool@[s]);
                    }
                }
            }
        }
        t += 1;
    }
    proof {
        let w = choose|i: int| in_mutable(i) && (#[trigger] keys@[i]) is Letter;
        lemma_mutable_list_complete(w);
        let s = choose|s: int| 0 <= s < 15 && mutable_slot_list()[s] == w;
        assert(v@.contains(pool@[s]));
    }
    v
}

/// The number of slots below `n` whose keys differ between two layouts.
pub open spec fn changed_below(a: Seq<Key>, b: Seq<Key>, n: int) -> int
    decreases n,
{
    if n <= 0 {
        0
    } else {
        changed_below(a, b, n - 1) + (if a[n - 1] == b[n - 1] {
            0int
        } else {
            1int
        })
    }
}

/// A layout differs from itself nowhere.
proof fn lemma_changed_below_self(a: Seq<Key>, n: int)
    ensures
        changed_below(a, a, n) == 0,
    decreases n,
{
    if n > 0 {
        lemma_changed_below_self(a, n - 1);
    }
}

/// A sequence that agrees with `b` everywhere but possibly at positions
/// `i` and `j` differs from `a` in at most two more places than `b` does.
proof fn lemma_changed_below_two_points(a: Seq<Key>, b: Seq<Key>, c: Seq<Key>, i: int, j: int, n: int)
    requires
        forall|k: int| 0 <= k < n && k != i && k != j ==> b[k] == c[k],
    ensures
        changed_below(a, c, n) <= changed_below(a, b, n) + (if 0 <= i < n {
            1int
        } else {
            0int
        }) + (if 0 <= j < n && j != i {
            1int
        } else {
            0int
        }),
    decreases n,
{
    if n > 0 {
        lemma_changed_below_two_points(a, b, c, i, j, n - 1);
    }
}

/// A double update of a sequence that exchanges the values at two
/// positions keeps the multiset of elements.
proof fn lemma_swap_keeps_multiset<T>(s: Seq<T>, i: int, j: int)
    requires
        0 <= i < s.len(),
        0 <= j < s.len(),
    ensures
        s.update(i, s[j]).update(j, s[i]).to_multiset() == s.to_multiset(),
{
    broadcast use vstd::seq_lib::group_to_multiset_ensures;
    broadcast use vstd::multiset::group_multiset_axioms;

    let s1 = s.update(i, s[j]);
    let s2 = s1.update(j, s[i]);
    assert(s1[j] == s[j]);
    assert(s.to_multiset().contains(s[i]));
    assert(s1.to_multiset() == s.to_multiset().insert(s[j]).remove(s[i]));
    assert(s2.to_multiset() == s1.to_multiset().insert(s[i]).remove(s1[j]));
    assert(s2.to_multiset() =~= s.to_multiset());
}

/// The index of the first key of `keys` that types `c`, starting the scan
/// at position `i`.
pub open spec fn first_slot_from(keys: Seq<Key>, c: char, i: int) -> Option<int>
    decreases keys.len() - i,
{
    if i < 0 || i >= keys.len() {
        None
    } else if keys[i].spec_matches(c) {
        Some(i)
    } else {
        first_slot_from(keys, c, i + 1)
    }
}

/// The index of the first key of `keys` that types `c`, if any.
pub open spec fn slot_for(keys: Seq<Key>, c: char) -> Option<int> {
    first_slot_from(keys, c, 0)
}

/// A scan that has passed position `i` without a hit finds the same slot
/// as a scan from the start.
proof fn lemma_first_slot_skip(keys: Seq<Key>, c: char, i: int)
    requires
        0 <= i <= keys.len(),
        forall|j: int| 0 <= j < i ==> !keys[j].spec_matches(c),
    ensures
        first_slot_from(keys, c, 0) == first_slot_from(keys, c, i),
    decreases i,
{
    if i > 0 {
        lemma_first_slot_skip(keys, c, i - 1);
    }
}

/// The fixed base layout every search starts from.
pub open spec fn spec_canonical() -> Seq<Key> {
    seq![
        Key::Punctuation('`', '~'),
        Key::Number('1', '!'),
        Key::Number('2', '@'),
        Key::Number('3', '#'),
        Key::Number('4', '$'),
        Key::Number('5', '%'),
        Key::Number('6', '^'),
        Key::Number('7', '&'),
        Key::Number('8', '*'),
        Key::Number('9', '('),
        Key::Number('0', ')'),
        Key::Punctuation(',', '<'),
        Key::Punctuation('.', '>'),
        Key::Punctuation('[', '{'),
        Key::Punctuation(']', '}'),
        Key::Letter('i', 'I'),
        Key::Letter('o', 'O'),
        Key::Punctuation('-', '_'),
        Key::Punctuation('=', '+'),
        Key::Letter('u', 'U'),
        Key::Letter('f', 'F'),
        Key::Letter('s', 'S'),
        Key::Letter('p', 'P'),
        Key::Letter('d', 'D'),
        Key::Letter('y', 'Y'),
        Key::Punctuation('\\', '|'),
        Key::Letter('a', 'A'),
        Key::Letter('r', 'R'),
        Key::Letter('t', 'T'),
        Key::Letter('e', 'E'),
        Key::Letter('c', 'c'),
        Key::StaticLetter('h', 'H'),
        Key::StaticLetter('j', 'J'),
        Key::StaticLetter('k', 'K'),
        Key::StaticLetter('l', 'L'),
        Key::Letter('z', 'Z'),
        Key::Letter('x', 'X'),
        Key::Punctuation(';', ':'),
        Key::Punctuation('\'', '"'),
        Key::Letter('g', 'G'),
        Key::Letter('v', 'V'),
        Key::Letter('b', 'B'),
        Key::Letter('n', 'N'),
        Key::Letter('m', 'M'),
        Key::Letter('q', 'Q'),
        Key::Letter('w', 'W'),
        Key::Punctuation('/', '?'),
    ]
}

impl Keyboard {
    /// A layout always carries exactly one key per slot.
    pub open spec fn wf(self) -> bool {
        self@.len() == 47
    }

    /// A layout from an explicit key assignment.
    pub fn from_keys(keys: Vec<Key>) -> (r: Keyboard)
        requires
            keys@.len() == 47,
        ensures
            r@ == keys@,
            r.wf(),
    {
        Keyboard { keys }
    }

    /// The key at slot `i`.
    pub fn key_at(&self, i: usize) -> (r: Key)
        requires
            i < self@.len(),
        ensures
            r == self@[i as int],
    {
        self.keys[i]
    }

    /// A copy of this layout with the same key assignment.
    pub fn duplicate(&self) -> (r: Keyboard)
        ensures
            r@ == self@,
    {
        let mut keys: Vec<Key> = Vec::new();
        let n = self.keys.len();
        let mut i: usize = 0;
        while i < n
            invariant
                n == self.keys@.len(),
                i <= n,
                keys@ == self.keys@.subrange(0, i as int),
            decreases n - i,
        {
            keys.push(self.keys[i]);
            proof {
                assert_seqs_equal!(keys@ == self.keys@.subrange(0, i + 1));
            }
            i += 1;
        }
        proof {
            assert_seqs_equal!(keys@ == self.keys@);
        }
        Keyboard { keys }
    }

    /// The fixed base 47-slot layout with its hardcoded key assignment.
    pub fn new_47() -> (r: Keyboard)
        ensures
            r@ == spec_canonical(),
            r.wf(),
    {
        let mut keys: Vec<Key> = Vec::new();
        keys.push(Key::Punctuation('`', '~'));
        keys.push(Key::Number('1', '!'));
        keys.push(Key::Number('2', '@'));
        keys.push(Key::Number('3', '#'));
        keys.push(Key::Number('4', '$'));
        keys.push(Key::Number('5', '%'));
        keys.push(Key::Number('6', '^'));
        keys.push(Key::Number('7', '&'));
        keys.push(Key::Number('8', '*'));
        keys.push(Key::Number('9', '('));
        keys.push(Key::Number('0', ')'));
        keys.push(Key::Punctuation(',', '<'));
        keys.push(Key::Punctuation('.', '>'));
        keys.push(Key::Punctuation('[', '{'));
        keys.push(Key::Punctuation(']', '}'));
        keys.push(Key::Letter('i', 'I'));
        keys.push(Key::Letter('o', 'O'));
        keys.push(Key::Punctuation('-', '_'));
        keys.push(Key::Punctuation('=', '+'));
        keys.push(Key::Letter('u', 'U'));
        keys.push(Key::Letter('f', 'F'));
        keys.push(Key::Letter('s', 'S'));
        keys.push(Key::Letter('p', 'P'));
        keys.push(Key::Letter('d', 'D'));
        keys.push(Key::Letter('y', 'Y'));
        keys.push(Key::Punctuation('\\', '|'));
        keys.push(Key::Letter('a', 'A'));
        keys.push(Key::Letter('r', 'R'));
        keys.push(Key::Letter('t', 'T'));
        keys.push(Key::Letter('e', 'E'));
        keys.push(Key::Letter('c', 'c'));
        keys.push(Key::StaticLetter('h', 'H'));
        keys.push(Key::StaticLetter('j', 'J'));
        keys.push(Key::StaticLetter('k', 'K'));
        keys.push(Key::StaticLetter('l', 'L'));
        keys.push(Key::Letter('z', 'Z'));
        keys.push(Key::Letter('x', 'X'));
        keys.push(Key::Punctuation(';', ':'));
        keys.push(Key::Punctuation('\'', '"'));
        keys.push(Key::Letter('g', 'G'));
        keys.push(Key::Letter('v', 'V'));
        keys.push(Key::Letter('b', 'B'));
        keys.push(Key::Letter('n', 'N'));
        keys.push(Key::Letter('m', 'M'));
        keys.push(Key::Letter('q', 'Q'));
        keys.push(Key::Letter('w', 'W'));
        keys.push(Key::Punctuation('/', '?'));
        proof {
            assert_seqs_equal!(keys@ == spec_canonical());
        }
        Keyboard { keys }
    }

    /// The slot of the first key that types `c`, if any.
    pub fn char_to_index(&self, c: char) -> (r: Option<usize>)
        requires
            self.wf(),
        ensures
            match r {
                Some(i) => i < self@.len() && slot_for(self@, c) == Some(i as int),
                None => slot_for(self@, c) is None,
            },
    {
        let n = self.keys.len();
        let mut i: usize = 0;
        while i < n
            invariant
                n == self.keys@.len(),
                i <= n,
                forall|j: int| 0 <= j < i ==> !self.keys@[j].spec_matches(c),
            decreases n - i,
        {
            if self.keys[i].match_char(c) {
                proof {
                    lemma_first_slot_skip(self@, c, i as int);
                }
                return Some(i);
            }
            i += 1;
        }
        proof {
            lemma_first_slot_skip(self@, c, n as int);
        }
        None
    }

    /// The first key that types `c`, if any.
    pub fn get_key(&self, c: char) -> (r: Option<&Key>)
        requires
            self.wf(),
        ensures
            match slot_for(self@, c) {
                Some(i) => match r {
                    Some(k) => *k == self@[i],
                    None => false,
                },
                None => r is None,
            },
    {
        match self.char_to_index(c) {
            Some(i) => Some(&self.keys[i]),
            None => None,
        }
    }

    /// The row of a slot index: 0 through 3 for a valid slot, nothing
    /// outside `[0, 47)`.
    pub fn index_to_row(&self, index: usize) -> (r: Option<usize>)
        ensures
            index < 47 ==> r == Some(spec_row_of(index as int) as usize),
            index >= 47 ==> r is None,
    {
        if index < 13 {
            Some(0)
        } else if index < 26 {
            Some(1)
        } else if index < 37 {
            Some(2)
        } else if index < 47 {
            Some(3)
        } else {
            None
        }
    }

    /// The hand whose finger covers a slot index, resolved through the
    /// finger partition; nothing outside `[0, 47)`.
    pub fn which_hand(&self, index: usize) -> (r: Option<Hand>)
        ensures
            index < 47 ==> r == Some(spec_hand_of(index as int)),
            index >= 47 ==> r is None,
    {
        let mut f: usize = 0;
        while f < 8
            invariant
                f <= 8,
                forall|j: int| 0 <= j < f ==> !in_finger(spec_finger_at(j), index as int),
            decreases 8 - f,
        {
            let finger = Finger::at_position(f);
            if finger.is_inside(index).is_some() {
                proof {
                    lemma_partition_total(index as int);
                }
                if f < 4 {
                    return Some(Hand::Left);
                } else {
                    return Some(Hand::Right);
                }
            }
            f += 1;
        }
        proof {
            if index < 47 {
                lemma_partition_total(index as int);
            }
        }
        None
    }

    /// Cost of moving from slot `a` to slot `b`, in sixteenth units.
    /// A repeated slot costs nothing; otherwise the cost is the arriving
    /// slot's effort weight scaled by the transition multiplier.
    pub fn distance(&self, a: usize, b: usize) -> (r: u64)
        requires
            a < 47,
            b < 47,
        ensures
            r == spec_distance(a as int, b as int),
            r <= 96,
            a == b ==> r == 0,
    {
        proof {
            lemma_distance_bounds(a as int, b as int);
        }
        if a == b {
            return 0;
        }
        let a_hand = self.which_hand(a).unwrap();
        let b_hand = self.which_hand(b).unwrap();
        let a_row = self.index_to_row(a).unwrap();
        let b_row = self.index_to_row(b).unwrap();
        let e = effort_quarters(b);
        if a_hand == b_hand {
            if a_row == b_row {
                e * 3
            } else if b_row < a_row {
                e * 6
            } else {
                e * 4
            }
        } else {
            e * 5
        }
    }

    /// A layout that mutation can work on: no home-row anchor sits in the
    /// mutable set, and at least one mutable slot holds a `Letter` key, so
    /// a letter-restricted swap always finds a partner.
    pub open spec fn mutable_ok(self) -> bool {
        &&& forall|i: int| in_mutable(i) ==> !((#[trigger] self@[i]) is StaticLetter)
        &&& exists|i: int| in_mutable(i) && (#[trigger] self@[i]) is Letter
    }

    /// Whether this layout is well formed and open to mutation: one key
    /// per slot, no home-row anchor inside the mutable set, and at least
    /// one `Letter` key inside it. An unverified caller can test this
    /// before handing the layout to functions that require it.
    pub fn is_well_formed(&self) -> (r: bool)
        ensures
            r == (self.wf() && self.mutable_ok()),
    {
        if self.keys.len() != 47 {
            return false;
        }
        let pool = mutable_slots();
        let mut has_letter = false;
        let mut t: usize = 0;
        while t < 15
            invariant
                t <= 15,
                self.wf(),
                pool@.len() == 15,
                forall|s: int| 0 <= s < 15 ==> pool@[s] as int == mutable_slot_list()[s],
                forall|s: int| 0 <= s < 15 ==> in_mutable(#[trigger] pool@[s] as int) && pool@[s] < 47,
                forall|s: int| 0 <= s < t ==> !((#[trigger] self@[pool@[s] as int]) is StaticLetter),
                has_letter ==> exists|i: int| in_mutable(i) && (#[trigger] self@[i]) is Letter,
                !has_letter ==> forall|s: int|
                    0 <= s < t ==> !((#[trigger] self@[pool@[s] as int]) is Letter),
            decreases 15 - t,
        {
            let slot = pool[t];
            match self.keys[slot] {
                Key::StaticLetter(_, _) => {
                    proof {
                        assert(in_mutable(pool@[t as int] as int)
                            && self@[pool@[t as int] as int] is StaticLetter);
                    }
                    return false;
                },
                Key::Letter(_, _) => {
                    has_letter = true;
                },
                _ => {},
            }
            t += 1;
        }
        proof {
            assert forall|i: int| in_mutable(i) implies !((#[trigger] self@[i]) is StaticLetter) by {
                lemma_mutable_list_complete(i);
                let s = choose|s: int| 0 <= s < 15 && mutable_slot_list()[s] == i;
                assert(!(self@[pool@[s] as int] is StaticLetter));
            }
            if !has_letter {
                assert forall|i: int| in_mutable(i) implies !((#[trigger] self@[i]) is Letter) by {
                    lemma_mutable_list_complete(i);
                    let s = choose|s: int| 0 <= s < 15 && mutable_slot_list()[s] == i;
                    assert(!(self@[pool@[s] as int] is Letter));
                }
            }
        }
        has_letter
    }

    /// A new candidate derived from this layout by `mutations` randomized
    /// pairwise key swaps inside the mutable slot set. Swaps exchange
    /// whole keys, so the multiset of keys — and of category labels — is
    /// unchanged, every slot outside the mutable set (the home-row
    /// anchors among them) keeps its key, at most two slots change per
    /// swap, and zero mutations give an identical copy.
    pub fn reproduce(&self, mutations: usize) -> (r: Keyboard)
        requires
            self.wf(),
            self.mutable_ok(),
        ensures
            r.wf(),
            r.mutable_ok(),
            r@.to_multiset() == self@.to_multiset(),
            categories_of(r@).to_multiset() == categories_of(self@).to_multiset(),
            forall|i: int| 0 <= i < 47 && !in_mutable(i) ==> r@[i] == self@[i],
            forall|i: int| 0 <= i < 47 && (#[trigger] self@[i]) is StaticLetter ==> r@[i] == self@[i],
            changed_below(self@, r@, 47) <= 2 * (mutations as int),
            mutations == 0 ==> r@ == self@,
    {
        let child = self.duplicate();
        let mut keys = child.keys;
        let pool = mutable_slots();
        proof {
            lemma_changed_below_self(self@, 47);
        }
        let mut n: usize = 0;
        while n < mutations
            invariant
                n <= mutations,
                keys@.len() == 47,
                pool@.len() == 15,
                forall|s: int| 0 <= s < 15 ==> pool@[s] as int == mutable_slot_list()[s],
                forall|s: int| 0 <= s < 15 ==> in_mutable(#[trigger] pool@[s] as int) && pool@[s] < 47,
                self.wf(),
                self.mutable_ok(),
                forall|i: int| in_mutable(i) ==> !((#[trigger] keys@[i]) is StaticLetter),
                exists|i: int| in_mutable(i) && (#[trigger] keys@[i]) is Letter,
                keys@.to_multiset() == self@.to_multiset(),
                categories_of(keys@).to_multiset() == categories_of(self@).to_multiset(),
                forall|i: int| 0 <= i < 47 && !in_mutable(i) ==> keys@[i] == self@[i],
                changed_below(self@, keys@, 47) <= 2 * (n as int),
                n == 0 ==> keys@ == self@,
            decreases mutations - n,
        {
            let i = pool[rand_below(15)];
            let letter_only = i == 19 || i == 20 || i == 39 || i == 40 || i == 43 || i == 44;
            let j: usize;
            if letter_only {
                let letters = letter_slots(&keys);
                j = letters[rand_below(letters.len())];
            } else if matches!(keys[i], Key::Punctuation(_, _)) {
                let others = non_letter_restricted_slots();
                j = others[rand_below(9)];
            } else {
                j = pool[rand_below(15)];
            }
            let ghost s0 = keys@;
            let ki = keys[i];
            let kj = keys[j];
            keys[i] = kj;
            keys[j] = ki;
            proof {
                assert(keys@ == s0.update(i as int, kj).update(j as int, ki));
                lemma_changed_below_two_points(self@, s0, keys@, i as int, j as int, 47);
                lemma_swap_keeps_multiset(s0, i as int, j as int);
                assert(categories_of(keys@) =~= categories_of(s0).update(
                    i as int,
                    kj.spec_category(),
                ).update(j as int, ki.spec_category()));
                lemma_swap_keeps_multiset(categories_of(s0), i as int, j as int);
                let w = choose|w: int| in_mutable(w) && (#[trigger] s0[w]) is Letter;
                if w == i as int {
                    assert(in_mutable(j as int) && keys@[j as int] is Letter);
                } else if w == j as int {
                    assert(in_mutable(i as int) && keys@[i as int] is Letter);
                } else {
                    assert(in_mutable(w) && keys@[w] is Letter);
                }
            }
            n += 1;
        }
        Keyboard { keys }
    }
}

} // verus!
