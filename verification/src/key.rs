//! One key of a layout: a category together with its unshifted and
//! shifted character.

use vstd::prelude::*;

verus! {

/// One key of the layout: the category decides how mutation may move it,
/// and the two characters are the unshifted and shifted value typed on it.
/// `StaticLetter` keys are the home-row anchors and are never mutated.
#[derive(Clone, Copy, PartialEq, Eq, Structural, Debug)]
pub enum Key {
    Letter(char, char),
    StaticLetter(char, char),
    Number(char, char),
    Punctuation(char, char),
}

/// The category label of a key, without its characters.
#[derive(Clone, Copy, PartialEq, Eq, Structural, Debug)]
pub enum KeyCategory {
    Letter,
    StaticLetter,
    Number,
    Punctuation,
}

impl Key {
    /// The category label of this key.
    pub open spec fn spec_category(self) -> KeyCategory {
        match self {
            Key::Letter(_, _) => KeyCategory::Letter,
            Key::StaticLetter(_, _) => KeyCategory::StaticLetter,
            Key::Number(_, _) => KeyCategory::Number,
            Key::Punctuation(_, _) => KeyCategory::Punctuation,
        }
    }

    /// The character typed without shift.
    pub open spec fn spec_unshifted(self) -> char {
        match self {
            Key::Letter(x, _) => x,
            Key::StaticLetter(x, _) => x,
            Key::Number(x, _) => x,
            Key::Punctuation(x, _) => x,
        }
    }

    /// The character typed with shift.
    pub open spec fn spec_shifted(self) -> char {
        match self {
            Key::Letter(_, y) => y,
            Key::StaticLetter(_, y) => y,
            Key::Number(_, y) => y,
            Key::Punctuation(_, y) => y,
        }
    }

    /// Whether this key types `c`, shifted or not.
    pub open spec fn spec_matches(self, c: char) -> bool {
        self.spec_unshifted() == c || self.spec_shifted() == c
    }

    /// Whether this key types `c`, shifted or not.
    pub fn match_char(&self, c: char) -> (r: bool)
        ensures
            r == self.spec_matches(c),
    {
        match self {
            Key::Letter(k1, k2) => *k1 == c || *k2 == c,
            Key::StaticLetter(k1, k2) => *k1 == c || *k2 == c,
            Key::Number(k1, k2) => *k1 == c || *k2 == c,
            Key::Punctuation(k1, k2) => *k1 == c || *k2 == c,
        }
    }

    /// The unshifted character of this key, used when rendering a layout.
    pub fn key_val(&self) -> (r: char)
        ensures
            r == self.spec_unshifted(),
    {
        match self {
            Key::Letter(x, _) => *x,
            Key::StaticLetter(x, _) => *x,
            Key::Number(x, _) => *x,
            Key::Punctuation(x, _) => *x,
        }
    }

    /// The category label of this key.
    pub fn category(&self) -> (r: KeyCategory)
        ensures
            r == self.spec_category(),
    {
        match self {
            Key::Letter(_, _) => KeyCategory::Letter,
            Key::StaticLetter(_, _) => KeyCategory::StaticLetter,
            Key::Number(_, _) => KeyCategory::Number,
            Key::Punctuation(_, _) => KeyCategory::Punctuation,
        }
    }
}

/// The sequence of category labels of a key sequence.
pub open spec fn categories_of(s: Seq<Key>) -> Seq<KeyCategory> {
    s.map_values(|k: Key| k.spec_category())
}

} // verus!
