//! Search for a keyboard key layout that minimizes estimated typing effort.
//!
//! The library models a fixed 47-slot keyboard geometry, scores a layout
//! against a corpus of text with a bigram-distance cost model, mutates
//! layouts by category-aware randomized key swaps, and drives a
//! generational evolutionary search with elite retention.
//!
//! All effort weights of the geometry are multiples of a quarter unit, and
//! all transition multipliers are multiples of a quarter as well, so every
//! cost in this crate is held exactly as an unsigned integer count of
//! sixteenths of the base effort unit.

pub mod geometry;
pub mod key;
pub mod keyboard;
pub mod evolve;
mod rng;
pub mod score;

pub use evolve::SearchState;
pub use geometry::Finger;
pub use geometry::Hand;
pub use key::Key;
pub use key::KeyCategory;
pub use keyboard::Keyboard;
