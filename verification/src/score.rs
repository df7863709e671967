//! The fitness evaluator: the cumulative typing effort of a corpus of
//! text under a layout, in sixteenth units, with branch-and-bound pruning.

use vstd::prelude::*;

use crate::geometry::{spec_distance, spec_effort_q, lemma_distance_bounds, lemma_effort_q_bounds,
    effort_quarters};
use crate::key::Key;
use crate::keyboard::{slot_for, Keyboard};

verus! {

/// Longest file the evaluator accepts, in characters; keeps every sum far
/// below the integer limit.
pub const MAX_FILE_LEN: usize = 0x4000_0000;

/// Largest pruning threshold the evaluator accepts; keeps the running
/// score far below the integer limit.
pub const THRESHOLD_CAP: u64 = 0x1000_0000_0000_0000;

/// Cost charged for one character `c` arriving after `prev`: the movement
/// cost between their slots when both are on the keyboard, the arriving
/// slot's plain effort when `prev` is not on the keyboard (a fresh key
/// press), and nothing when `c` itself is not on the keyboard.
pub open spec fn step_cost(keys: Seq<Key>, prev: char, c: char) -> int {
    match (slot_for(keys, prev), slot_for(keys, c)) {
        (Some(a), Some(b)) => spec_distance(a, b),
        (None, Some(b)) => spec_effort_q(b) * 4,
        (_, None) => 0,
    }
}

/// Total cost of typing `s` when the previously typed character was
/// `last`. Every character becomes the new cursor, on the keyboard or
/// not: an unmapped character still resets the bigram chain.
pub open spec fn text_score(keys: Seq<Key>, s: Seq<char>, last: char) -> int
    decreases s.len(),
{
    if s.len() == 0 {
        0
    } else {
        step_cost(keys, last, s[0]) + text_score(keys, s.drop_first(), s[0])
    }
}

/// Total cost of typing one file: the cursor starts on a space character.
pub open spec fn file_score(keys: Seq<Key>, s: Seq<char>) -> int {
    text_score(keys, s, ' ')
}

/// Total cost of a corpus: the sum of its files' costs.
pub open spec fn corpus_score(keys: Seq<Key>, files: Seq<Vec<char>>) -> int
    decreases files.len(),
{
    if files.len() == 0 {
        0
    } else {
        file_score(keys, files[0]@) + corpus_score(keys, files.drop_first())
    }
}

/// One character never costs more than the largest effort weight times
/// the largest transition multiplier.
pub proof fn lemma_step_cost_bounds(keys: Seq<Key>, prev: char, c: char)
    ensures
        0 <= step_cost(keys, prev, c) <= 96,
{
    match (slot_for(keys, prev), slot_for(keys, c)) {
        (Some(a), Some(b)) => lemma_distance_bounds(a, b),
        (None, Some(b)) => lemma_effort_q_bounds(b),
        (_, None) => {},
    }
}

/// A text's cost is non-negative and at most 96 per character.
pub proof fn lemma_text_score_bounds(keys: Seq<Key>, s: Seq<char>, last: char)
    ensures
        0 <= text_score(keys, s, last) <= 96 * s.len(),
    decreases s.len(),
{
    if s.len() > 0 {
        lemma_step_cost_bounds(keys, last, s[0]);
        lemma_text_score_bounds(keys, s.drop_first(), s[0]);
    }
}

/// A corpus' cost is non-negative.
pub proof fn lemma_corpus_score_nonneg(keys: Seq<Key>, files: Seq<Vec<char>>)
    ensures
        corpus_score(keys, files) >= 0,
    decreases files.len(),
{
    if files.len() > 0 {
        lemma_text_score_bounds(keys, files[0]@, ' ');
        lemma_corpus_score_nonneg(keys, files.drop_first());
    }
}

/// Cost charged for one character `c` arriving after `prev`.
fn step_cost_exec(kb: &Keyboard, prev: char, c: char) -> (r: u64)
    requires
        kb.wf(),
    ensures
        r == step_cost(kb@, prev, c),
        r <= 96,
{
    proof {
        lemma_step_cost_bounds(kb@, prev, c);
    }
    let slot_prev = kb.char_to_index(prev);
    let slot_c = kb.char_to_index(c);
    match (slot_prev, slot_c) {
        (Some(a), Some(b)) => kb.distance(a, b),
        (None, Some(b)) => {
            let e = effort_quarters(b);
            e * 4
        },
        (_, None) => 0,
    }
}

/// The exact cost of typing one file under `kb`, starting from a space
/// cursor.
pub fn score_file(kb: &Keyboard, text: &Vec<char>) -> (r: u64)
    requires
        kb.wf(),
        text@.len() <= MAX_FILE_LEN,
    ensures
        r == file_score(kb@, text@),
        r <= 96 * MAX_FILE_LEN,
{
    let n = text.len();
    let mut score: u64 = 0;
    let mut last: char = ' ';
    let mut i: usize = 0;
    proof {
        assert(text@.skip(0) =~= text@);
    }
    while i < n
        invariant
            kb.wf(),
            n == text@.len(),
            n <= MAX_FILE_LEN,
            i <= n,
            last == (if i == 0 { ' ' } else { text@[i - 1] }),
            score <= 96 * i,
            score + text_score(kb@, text@.skip(i as int), last) == file_score(kb@, text@),
        decreases n - i,
    {
        let c = text[i];
        let cost = step_cost_exec(kb, last, c);
        proof {
            assert(text@.skip(i as int)[0] == c);
            assert(text@.skip(i as int).drop_first() =~= text@.skip(i + 1));
        }
        score = score + cost;
        last = c;
        i += 1;
    }
    proof {
        assert(text@.skip(n as int) =~= Seq::<char>::empty());
    }
    score
}

/// The pruned cost of a corpus under `kb`. Before each file the running
/// sum is held against `threshold`: once it exceeds the threshold the
/// remaining files are skipped. A corpus whose full cost is within the
/// threshold is therefore scored exactly, and an early exit still returns
/// a lower bound of the full cost that itself exceeds the threshold.
pub fn score_corpus(kb: &Keyboard, files: &Vec<Vec<char>>, threshold: u64) -> (r: u64)
    requires
        kb.wf(),
        threshold <= THRESHOLD_CAP,
        forall|f: int| 0 <= f < files@.len() ==> (#[trigger] files@[f])@.len() <= MAX_FILE_LEN,
    ensures
        r <= corpus_score(kb@, files@),
        corpus_score(kb@, files@) <= threshold ==> r == corpus_score(kb@, files@),
        r == corpus_score(kb@, files@) || r > threshold,
{
    let ghost total = corpus_score(kb@, files@);
    let n = files.len();
    let mut score: u64 = 0;
    let mut f: usize = 0;
    proof {
        assert(files@.skip(0) =~= files@);
    }
    while f < n
        invariant
            kb.wf(),
            threshold <= THRESHOLD_CAP,
            n == files@.len(),
            f <= n,
            forall|g: int| 0 <= g < files@.len() ==> (#[trigger] files@[g])@.len() <= MAX_FILE_LEN,
            total == corpus_score(kb@, files@),
            score + corpus_score(kb@, files@.skip(f as int)) == total,
        ensures
            score <= total,
            score == total || score > threshold,
        decreases n - f,
    {
        if score > threshold {
            proof {
                lemma_corpus_score_nonneg(kb@, files@.skip(f as int));
            }
            break;
        }
        let fs = score_file(kb, &files[f]);
        proof {
            assert(files@.skip(f as int)[0] == files@[f as int]);
            assert(files@.skip(f as int).drop_first() =~= files@.skip(f + 1));
            lemma_corpus_score_nonneg(kb@, files@.skip(f + 1));
        }
        score = score + fs;
        f += 1;
    }
    score
}

} // verus!
