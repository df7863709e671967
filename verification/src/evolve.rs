//! The evolutionary loop: a population of candidate layouts, scored each
//! generation, truncated to an elite set, and refilled by mutation.

use vstd::multiset::Multiset;
use vstd::prelude::*;

use crate::keyboard::Keyboard;
use crate::score::{corpus_score, score_corpus, lemma_text_score_bounds, MAX_FILE_LEN,
    THRESHOLD_CAP};

verus! {

/// Number of candidate layouts alive in each generation.
pub const POPULATION_SIZE: usize = 100;

/// Number of best-scoring layouts retained from one generation to the
/// next.
pub const ELITE_SIZE: usize = 50;

/// Number of generations one full run performs.
pub const GENERATION_COUNT: usize = 200;

/// Score given to the placeholder elites before the first generation, in
/// sixteenth units, large enough that the first generation's pruning
/// threshold is effectively unbounded.
pub const SENTINEL_SCORE: u64 = 1_600_000_000_000;

/// Most files one corpus may hold; keeps every corpus score below the
/// pruning threshold cap.
pub const MAX_FILES: usize = 0x10_0000;

/// A scored candidate: the corpus score of the layout, in sixteenth
/// units, paired with the layout.
pub type Scored = (u64, Keyboard);

/// Scores ascending: the best candidate first.
pub open spec fn sorted_by_score(s: Seq<Scored>) -> bool {
    forall|i: int, j: int| 0 <= i <= j < s.len() ==> (#[trigger] s[i]).0 <= (#[trigger] s[j]).0
}

/// The cached score of the first entry holding a layout with the same key
/// assignment as `kb`, scanning from position `i`.
pub open spec fn cache_lookup_from(elites: Seq<Scored>, kb: Keyboard, i: int) -> Option<u64>
    decreases elites.len() - i,
{
    if i < 0 || i >= elites.len() {
        None
    } else if elites[i].1@ == kb@ {
        Some(elites[i].0)
    } else {
        cache_lookup_from(elites, kb, i + 1)
    }
}

/// The cached score of the first entry holding a layout with the same key
/// assignment as `kb`, if any.
pub open spec fn cache_lookup(elites: Seq<Scored>, kb: Keyboard) -> Option<u64> {
    cache_lookup_from(elites, kb, 0)
}

/// Sum of the scores of a scored sequence.
pub open spec fn score_sum(s: Seq<Scored>) -> int
    decreases s.len(),
{
    if s.len() == 0 {
        0
    } else {
        s[0].0 + score_sum(s.drop_first())
    }
}

/// A well-formed elite set: exactly the elite count of entries, sorted
/// ascending by score, every score within the threshold cap, and every
/// layout well formed and open to mutation.
pub open spec fn elites_wf(s: Seq<Scored>) -> bool {
    &&& s.len() == ELITE_SIZE
    &&& sorted_by_score(s)
    &&& forall|i: int| 0 <= i < s.len() ==> (#[trigger] s[i]).0 <= THRESHOLD_CAP
    &&& forall|i: int| 0 <= i < s.len() ==> (#[trigger] s[i]).1.wf() && s[i].1.mutable_ok()
}

/// A well-formed population: exactly the population count of layouts,
/// every one well formed and open to mutation.
pub open spec fn population_wf(s: Seq<Keyboard>) -> bool {
    &&& s.len() == POPULATION_SIZE
    &&& forall|i: int| 0 <= i < s.len() ==> (#[trigger] s[i]).wf() && s[i].mutable_ok()
}

/// A corpus the evaluator accepts: not too many files, none too long.
pub open spec fn corpus_ok(files: Seq<Vec<char>>) -> bool {
    &&& files.len() <= MAX_FILES
    &&& forall|f: int| 0 <= f < files.len() ==> (#[trigger] files[f])@.len() <= MAX_FILE_LEN
}

/// A scan that has passed position `i` without a hit finds the same entry
/// as a scan from the start.
proof fn lemma_cache_lookup_skip(elites: Seq<Scored>, kb: Keyboard, i: int)
    requires
        0 <= i <= elites.len(),
        forall|j: int| 0 <= j < i ==> (#[trigger] elites[j]).1@ != kb@,
    ensures
        cache_lookup(elites, kb) == cache_lookup_from(elites, kb, i),
    decreases i,
{
    if i > 0 {
        lemma_cache_lookup_skip(elites, kb, i - 1);
    }
}

/// On a sorted elite set, a lookup of a layout that equals the entry at
/// position `i` hits, and the hit's score is at most that entry's score:
/// the scan returns the first structural match, and earlier entries score
/// no worse.
pub proof fn lemma_cache_hit_bounded(elites: Seq<Scored>, kb: Keyboard, j: int, i: int)
    requires
        sorted_by_score(elites),
        0 <= j <= i < elites.len(),
        elites[i].1@ == kb@,
    ensures
        cache_lookup_from(elites, kb, j) matches Some(s) && s <= elites[i].0,
    decreases i - j,
{
    if elites[j].1@ != kb@ {
        lemma_cache_hit_bounded(elites, kb, j + 1, i);
    }
}

/// Every element of a sequence also stands somewhere in any sequence with
/// the same element multiset.
proof fn lemma_multiset_elem_source(a: Seq<Scored>, b: Seq<Scored>, j: int)
    requires
        a.to_multiset() == b.to_multiset(),
        0 <= j < b.len(),
    ensures
        exists|i: int| 0 <= i < a.len() && a[i] == b[j],
{
    assert(b.contains(b[j]));
    vstd::seq_lib::to_multiset_contains(b, b[j]);
    vstd::seq_lib::to_multiset_contains(a, b[j]);
    assert(a.contains(b[j]));
    let i = choose|i: int| 0 <= i < a.len() && a[i] == b[j];
    assert(a[i] == b[j]);
}

/// A corpus that the evaluator accepts never scores beyond the threshold
/// cap, under any layout.
pub proof fn lemma_corpus_score_capped(keys: Seq<crate::key::Key>, files: Seq<Vec<char>>)
    requires
        corpus_ok(files),
    ensures
        corpus_score(keys, files) <= files.len() * (96 * MAX_FILE_LEN as int),
        corpus_score(keys, files) <= THRESHOLD_CAP,
    decreases files.len(),
{
    if files.len() == 0 {
    } else {
        lemma_text_score_bounds(keys, files[0]@, ' ');
        assert(corpus_ok(files.drop_first())) by {
            assert(forall|f: int|
                0 <= f < files.drop_first().len() ==> (#[trigger] files.drop_first()[f])@.len()
                    <= MAX_FILE_LEN);
        }
        lemma_corpus_score_capped(keys, files.drop_first());
        assert(files.len() * (96 * MAX_FILE_LEN as int) == (files.len() - 1) * (96
            * MAX_FILE_LEN as int) + 96 * MAX_FILE_LEN as int) by (nonlinear_arith);
        assert(MAX_FILES as int * (96 * MAX_FILE_LEN as int) <= THRESHOLD_CAP);
        assert(files.len() * (96 * MAX_FILE_LEN as int) <= MAX_FILES as int * (96
            * MAX_FILE_LEN as int)) by (nonlinear_arith)
            requires
                0 <= files.len() <= MAX_FILES as int,
        ;
    }
}

/// The swap count a candidate at population rank `i` is mutated with:
/// high ranks take small local steps, low ranks take broad ones.
pub open spec fn spec_mutation_tier(i: int) -> int {
    if i % 4 == 0 {
        1
    } else if i % 4 == 1 {
        2
    } else if i % 4 == 2 {
        4
    } else {
        8
    }
}

/// The swap count a candidate at population rank `i` is mutated with.
pub fn mutation_tier(i: usize) -> (r: usize)
    ensures
        r == spec_mutation_tier(i as int),
        1 <= r <= 8,
{
    let m = i % 4;
    if m == 0 {
        1
    } else if m == 1 {
        2
    } else if m == 2 {
        4
    } else {
        8
    }
}

/// The cached score of the first elite whose layout equals `kb`, if any.
pub fn cached_score(elites: &Vec<Scored>, kb: &Keyboard) -> (r: Option<u64>)
    ensures
        r == cache_lookup(elites@, *kb),
{
    let n = elites.len();
    let mut i: usize = 0;
    while i < n
        invariant
            n == elites@.len(),
            i <= n,
            forall|j: int| 0 <= j < i ==> (#[trigger] elites@[j]).1@ != kb@,
        decreases n - i,
    {
        if elites[i].1 == *kb {
            proof {
                lemma_cache_lookup_skip(elites@, *kb, i as int);
            }
            return Some(elites[i].0);
        }
        i += 1;
    }
    proof {
        lemma_cache_lookup_skip(elites@, *kb, n as int);
    }
    None
}

/// The pruning threshold for one generation: the worst (largest) score in
/// the sorted elite set.
pub fn threshold_of(elites: &Vec<Scored>) -> (r: u64)
    requires
        elites@.len() > 0,
        sorted_by_score(elites@),
    ensures
        r == elites@.last().0,
        forall|i: int| 0 <= i < elites@.len() ==> (#[trigger] elites@[i]).0 <= r,
{
    elites[elites.len() - 1].0
}

/// The score of one candidate for this generation: the cached elite score
/// when the candidate's layout equals an elite's, the pruned corpus score
/// otherwise.
pub fn evaluate_candidate(
    kb: &Keyboard,
    elites: &Vec<Scored>,
    corpus: &Vec<Vec<char>>,
    threshold: u64,
) -> (r: u64)
    requires
        kb.wf(),
        threshold <= THRESHOLD_CAP,
        corpus_ok(corpus@),
    ensures
        match cache_lookup(elites@, *kb) {
            Some(s) => r == s,
            None => {
                &&& r <= corpus_score(kb@, corpus@)
                &&& corpus_score(kb@, corpus@) <= threshold ==> r == corpus_score(kb@, corpus@)
                &&& r == corpus_score(kb@, corpus@) || r > threshold
            },
        },
{
    match cached_score(elites, kb) {
        Some(s) => s,
        None => score_corpus(kb, corpus, threshold),
    }
}

/// Whether `results` scores one generation's population: one entry per
/// candidate, carrying that candidate's layout; the score is the cached
/// elite score when the layout equals an elite's, and otherwise a lower
/// bound of the candidate's corpus score that is exact whenever that
/// score is within `threshold` and that exceeds `threshold` when it is
/// not exact.
pub open spec fn results_of_generation(
    results: Seq<Scored>,
    population: Seq<Keyboard>,
    elites: Seq<Scored>,
    corpus: Seq<Vec<char>>,
    threshold: u64,
) -> bool {
    &&& results.len() == population.len()
    &&& forall|j: int| 0 <= j < results.len() ==> (#[trigger] results[j]).1@ == population[j]@
    &&& forall|j: int|
        0 <= j < results.len() ==> match cache_lookup(elites, population[j]) {
            Some(s) => (#[trigger] results[j]).0 == s,
            None => {
                &&& results[j].0 <= corpus_score(population[j]@, corpus)
                &&& corpus_score(population[j]@, corpus) <= threshold ==> results[j].0
                    == corpus_score(population[j]@, corpus)
                &&& results[j].0 == corpus_score(population[j]@, corpus) || results[j].0
                    > threshold
            },
        }
}

/// Whether `elites` is the head of some ascending ordering of `results`:
/// entry by entry the scores agree and the layouts carry the same key
/// assignment.
pub open spec fn elites_from_results(elites: Seq<Scored>, results: Seq<Scored>) -> bool {
    exists|s: Seq<Scored>|
        {
            &&& #[trigger] s.to_multiset() == results.to_multiset()
            &&& s.len() == results.len()
            &&& sorted_by_score(s)
            &&& elites.len() <= s.len()
            &&& forall|j: int|
                0 <= j < elites.len() ==> (#[trigger] elites[j]).0 == s[j].0 && elites[j].1@
                    == s[j].1@
        }
}

/// Whether the entry at position `j` of `r` also stands somewhere in `v`.
pub open spec fn drawn_from(v: Seq<Scored>, r: Seq<Scored>, j: int) -> bool {
    exists|i: int| 0 <= i < v.len() && v[i] == r[j]
}

/// The scored candidates in ascending score order: a permutation of the
/// input, sorted, with every entry drawn from the input.
pub fn sort_candidates(v: Vec<Scored>) -> (r: Vec<Scored>)
    ensures
        r@.len() == v@.len(),
        r@.to_multiset() == v@.to_multiset(),
        sorted_by_score(r@),
        forall|j: int| 0 <= j < r@.len() ==> #[trigger] drawn_from(v@, r@, j),
{
    broadcast use vstd::seq_lib::group_to_multiset_ensures;

    let ghost orig = v@;
    let mut rest = v;
    let mut out: Vec<Scored> = Vec::new();
    while rest.len() > 0
        invariant
            out@.len() + rest@.len() == orig.len(),
            out@.to_multiset().add(rest@.to_multiset()) == orig.to_multiset(),
            sorted_by_score(out@),
            forall|a: int, b: int|
                0 <= a < out@.len() && 0 <= b < rest@.len() ==> (#[trigger] out@[a]).0
                    <= (#[trigger] rest@[b]).0,
        decreases rest@.len(),
    {
        let mut m: usize = 0;
        let mut t: usize = 1;
        while t < rest.len()
            invariant
                rest@.len() > 0,
                m < t <= rest@.len(),
                forall|s: int| 0 <= s < t ==> rest@[m as int].0 <= (#[trigger] rest@[s]).0,
            decreases rest@.len() - t,
        {
            if rest[t].0 < rest[m].0 {
                m = t;
            }
            t += 1;
        }
        let ghost rest0 = rest@;
        let x = rest.remove(m);
        proof {
            assert(rest0[m as int] == x);
            assert(rest0.contains(x));
            vstd::seq_lib::to_multiset_contains(rest0, x);
            vstd::seq_lib::to_multiset_remove(rest0, m as int);
            vstd::seq_lib::to_multiset_build(out@, x);
            assert(rest@ == rest0.remove(m as int));
            assert(out@.push(x).to_multiset().add(rest@.to_multiset()) =~= out@.to_multiset().add(
                rest0.to_multiset(),
            ));
        }
        out.push(x);
    }
    proof {
        assert(out@.to_multiset() =~= orig.to_multiset()) by {
            assert(rest@.to_multiset().len() == 0);
            assert(rest@.to_multiset() =~= Multiset::<Scored>::empty());
        }
        assert forall|j: int| 0 <= j < out@.len() implies #[trigger] drawn_from(orig, out@, j) by {
            lemma_multiset_elem_source(orig, out@, j);
        }
    }
    out
}

/// The search state: the current population and the current elite set.
pub struct SearchState {
    /// The candidate layouts of the coming generation, best first once a
    /// generation has run.
    pub population: Vec<Keyboard>,
    /// The best-scoring layouts seen in the last generation, ascending by
    /// score, with their scores.
    pub elites: Vec<Scored>,
}

impl SearchState {
    /// Population and elite set are both well formed.
    pub open spec fn wf(self) -> bool {
        &&& population_wf(self.population@)
        &&& elites_wf(self.elites@)
    }

    /// The elites' layouts lead the population: the coming generation
    /// carries every elite forward verbatim.
    pub open spec fn elites_lead(self) -> bool {
        forall|i: int|
            0 <= i < ELITE_SIZE ==> (#[trigger] self.population@[i])@ == self.elites@[i].1@
    }

    /// The starting state: a population of mutated copies of the base
    /// layout, with swap counts assigned by rank tier, and an elite set of
    /// placeholder entries carrying the sentinel score.
    pub fn initial() -> (r: SearchState)
        ensures
            r.wf(),
            forall|i: int|
                0 <= i < ELITE_SIZE ==> (#[trigger] r.elites@[i]).0 == SENTINEL_SCORE
                    && r.elites@[i].1@ == crate::keyboard::spec_canonical(),
            forall|i: int|
                0 <= i < POPULATION_SIZE ==> (#[trigger] r.population@[i])@.to_multiset()
                    == crate::keyboard::spec_canonical().to_multiset(),
            forall|i: int, s: int|
                0 <= i < POPULATION_SIZE && 0 <= s < 47 && !crate::keyboard::in_mutable(s)
                    ==> #[trigger] r.population@[i]@[s] == crate::keyboard::spec_canonical()[s],
    {
        let base = Keyboard::new_47();
        proof {
            assert(crate::keyboard::spec_canonical()[19] is Letter);
            assert(base.mutable_ok());
        }
        let mut population: Vec<Keyboard> = Vec::new();
        let mut i: usize = 0;
        while i < POPULATION_SIZE
            invariant
                i <= POPULATION_SIZE,
                base.wf(),
                base.mutable_ok(),
                base@ == crate::keyboard::spec_canonical(),
                population@.len() == i,
                forall|j: int|
                    0 <= j < i ==> (#[trigger] population@[j]).wf() && population@[j].mutable_ok(),
                forall|j: int|
                    0 <= j < i ==> (#[trigger] population@[j])@.to_multiset()
                        == crate::keyboard::spec_canonical().to_multiset(),
                forall|j: int, s: int|
                    0 <= j < i && 0 <= s < 47 && !crate::keyboard::in_mutable(s)
                        ==> #[trigger] population@[j]@[s]
                        == crate::keyboard::spec_canonical()[s],
            decreases POPULATION_SIZE - i,
        {
            let tier = mutation_tier(i);
            population.push(base.reproduce(tier));
            i += 1;
        }
        let mut elites: Vec<Scored> = Vec::new();
        let mut e: usize = 0;
        while e < ELITE_SIZE
            invariant
                e <= ELITE_SIZE,
                base.wf(),
                base.mutable_ok(),
                base@ == crate::keyboard::spec_canonical(),
                elites@.len() == e,
                forall|j: int|
                    0 <= j < e ==> (#[trigger] elites@[j]).0 == SENTINEL_SCORE && elites@[j].1@
                        == crate::keyboard::spec_canonical(),
                forall|j: int|
                    0 <= j < e ==> (#[trigger] elites@[j]).1.wf() && elites@[j].1.mutable_ok(),
            decreases ELITE_SIZE - e,
        {
            elites.push((SENTINEL_SCORE, base.duplicate()));
            e += 1;
        }
        SearchState { population, elites }
    }

    /// One generation: score every candidate (reusing the cached score of
    /// a candidate that equals an elite, pruning fresh evaluations at the
    /// worst elite score), sort ascending, keep the best half as both the
    /// new elite set and the head of the next population, and refill the
    /// tail of the population with rank-tiered mutations of the new
    /// elites.
    ///
    /// The third clause pins the step down: some scoring of the old
    /// population — cache hits on the old elites, pruned corpus scores at
    /// the old worst-elite threshold for the rest — exists whose ascending
    /// ordering the new elites head, and whose minimum the new best elite
    /// attains.
    ///
    /// Elitism: when the elites lead the population going in — as this
    /// function itself guarantees coming out — the best elite score never
    /// increases.
    pub fn run_generation(&mut self, corpus: &Vec<Vec<char>>)
        requires
            old(self).wf(),
            corpus_ok(corpus@),
        ensures
            final(self).wf(),
            final(self).elites_lead(),
            exists|results: Seq<Scored>|
                {
                    &&& #[trigger] results_of_generation(
                        results,
                        old(self).population@,
                        old(self).elites@,
                        corpus@,
                        old(self).elites@.last().0,
                    )
                    &&& elites_from_results(final(self).elites@, results)
                    &&& forall|j: int|
                        0 <= j < results.len() ==> final(self).elites@[0].0 <= (
                        #[trigger] results[j]).0
                },
            forall|i: int|
                0 <= i < ELITE_SIZE ==> (#[trigger] final(self).population@[ELITE_SIZE + i])@
                    .to_multiset() == final(self).elites@[i].1@.to_multiset(),
            old(self).elites_lead() ==> final(self).elites@[0].0 <= old(self).elites@[0].0,
    {
        let threshold = threshold_of(&self.elites);
        let ghost old_elites = self.elites@;
        let ghost old_pop = self.population@;

        // Score the whole population.
        let mut results: Vec<Scored> = Vec::new();
        let mut i: usize = 0;
        while i < POPULATION_SIZE
            invariant
                self.wf(),
                corpus_ok(corpus@),
                threshold <= THRESHOLD_CAP,
                forall|j: int|
                    0 <= j < old_elites.len() ==> (#[trigger] old_elites[j]).0 <= threshold,
                old_elites == self.elites@,
                old_pop == self.population@,
                i <= POPULATION_SIZE,
                results@.len() == i,
                forall|j: int|
                    0 <= j < i ==> (#[trigger] results@[j]).1@ == self.population@[j]@,
                forall|j: int|
                    0 <= j < i ==> (#[trigger] results@[j]).1.wf() && results@[j].1.mutable_ok(),
                forall|j: int| 0 <= j < i ==> (#[trigger] results@[j]).0 <= THRESHOLD_CAP,
                forall|j: int|
                    0 <= j < i ==> (match cache_lookup(old_elites, self.population@[j]) {
                        Some(s) => (#[trigger] results@[j]).0 == s,
                        None => {
                            &&& results@[j].0 <= corpus_score(self.population@[j]@, corpus@)
                            &&& corpus_score(self.population@[j]@, corpus@) <= threshold
                                ==> results@[j].0 == corpus_score(self.population@[j]@, corpus@)
                            &&& results@[j].0 == corpus_score(self.population@[j]@, corpus@)
                                || results@[j].0 > threshold
                        },
                    }),
            decreases POPULATION_SIZE - i,
        {
            let kb = &self.population[i];
            let score = evaluate_candidate(kb, &self.elites, corpus, threshold);
            proof {
                lemma_corpus_score_capped(kb@, corpus@);
                match cache_lookup(old_elites, *kb) {
                    Some(s) => lemma_cache_hit_from_elites(old_elites, *kb, s),
                    None => {},
                }
            }
            results.push((score, kb.duplicate()));
            i += 1;
        }

        let ghost results_view = results@;
        proof {
            assert(results_of_generation(results_view, old_pop, old_elites, corpus@, threshold));
            if old(self).elites_lead() {
                // The old best elite was carried through the cache: its
                // score stands at position 0 of the results, and the new
                // elite head can only improve on it.
                assert(old_pop[0]@ == old_elites[0].1@);
                lemma_cache_hit_bounded(old_elites, old_pop[0], 0, 0);
                assert(results_view[0].0 <= old_elites[0].0);
            }
        }
        self.advance(results);
    }

    /// Install one generation's scored results: sort ascending, keep the
    /// best half as the new elite set and as the head of the next
    /// population, and refill the tail of the population with rank-tiered
    /// mutations of the new elites. The new best elite score is the
    /// minimum of the results' scores.
    pub fn advance(&mut self, results: Vec<Scored>)
        requires
            old(self).wf(),
            results@.len() == POPULATION_SIZE,
            forall|j: int|
                0 <= j < results@.len() ==> (#[trigger] results@[j]).0 <= THRESHOLD_CAP
                    && results@[j].1.wf() && results@[j].1.mutable_ok(),
        ensures
            final(self).wf(),
            final(self).elites_lead(),
            elites_from_results(final(self).elites@, results@),
            forall|j: int|
                0 <= j < results@.len() ==> final(self).elites@[0].0 <= (#[trigger] results@[j]).0,
            forall|i: int|
                0 <= i < ELITE_SIZE ==> (#[trigger] final(self).population@[ELITE_SIZE + i])@
                    .to_multiset() == final(self).elites@[i].1@.to_multiset(),
    {
        // Sort ascending and keep the best half as the new elite set.
        let ghost results_view = results@;
        let sorted = sort_candidates(results);
        let ghost sorted_view = sorted@;

        proof {
            assert forall|j: int|
                0 <= j < results_view.len() implies sorted_view[0].0
                <= (#[trigger] results_view[j]).0 by {
                lemma_multiset_elem_source(sorted_view, results_view, j);
                let i0 = choose|i0: int|
                    0 <= i0 < sorted_view.len() && sorted_view[i0] == results_view[j];
                assert(sorted_view[0].0 <= sorted_view[i0].0);
            }
            assert forall|j: int|
                0 <= j < sorted_view.len() implies (#[trigger] sorted_view[j]).0 <= THRESHOLD_CAP
                && sorted_view[j].1.wf() && sorted_view[j].1.mutable_ok() by {
                assert(drawn_from(results_view, sorted_view, j));
                let i0 = choose|i0: int|
                    0 <= i0 < results_view.len() && results_view[i0] == sorted_view[j];
                assert(results_view[i0] == sorted_view[j]);
            }
        }

        let mut new_elites: Vec<Scored> = Vec::new();
        let mut e: usize = 0;
        while e < ELITE_SIZE
            invariant
                e <= ELITE_SIZE,
                sorted@ == sorted_view,
                sorted_view.len() == POPULATION_SIZE,
                sorted_by_score(sorted_view),
                forall|j: int|
                    0 <= j < sorted_view.len() ==> (#[trigger] sorted_view[j]).0 <= THRESHOLD_CAP
                        && sorted_view[j].1.wf() && sorted_view[j].1.mutable_ok(),
                new_elites@.len() == e,
                forall|j: int| 0 <= j < e ==> (#[trigger] new_elites@[j]).0 == sorted_view[j].0,
                forall|j: int|
                    0 <= j < e ==> (#[trigger] new_elites@[j]).1@ == sorted_view[j].1@,
                forall|j: int|
                    0 <= j < e ==> (#[trigger] new_elites@[j]).1.wf()
                        && new_elites@[j].1.mutable_ok(),
            decreases ELITE_SIZE - e,
        {
            let s = sorted[e].0;
            let kbd = sorted[e].1.duplicate();
            new_elites.push((s, kbd));
            e += 1;
        }

        // The next population: the sorted layouts, best first, with the
        // tail refilled by rank-tiered mutations of the new elites.
        let mut new_pop: Vec<Keyboard> = Vec::new();
        let mut p: usize = 0;
        while p < ELITE_SIZE
            invariant
                p <= ELITE_SIZE,
                new_elites@.len() == ELITE_SIZE,
                forall|j: int|
                    0 <= j < ELITE_SIZE ==> (#[trigger] new_elites@[j]).1.wf()
                        && new_elites@[j].1.mutable_ok(),
                new_pop@.len() == p,
                forall|j: int| 0 <= j < p ==> (#[trigger] new_pop@[j])@ == new_elites@[j].1@,
                forall|j: int|
                    0 <= j < p ==> (#[trigger] new_pop@[j]).wf() && new_pop@[j].mutable_ok(),
            decreases ELITE_SIZE - p,
        {
            new_pop.push(new_elites[p].1.duplicate());
            p += 1;
        }
        let mut q: usize = 0;
        while q < ELITE_SIZE
            invariant
                q <= ELITE_SIZE,
                new_elites@.len() == ELITE_SIZE,
                forall|j: int|
                    0 <= j < ELITE_SIZE ==> (#[trigger] new_elites@[j]).1.wf()
                        && new_elites@[j].1.mutable_ok(),
                new_pop@.len() == ELITE_SIZE + q,
                forall|j: int|
                    0 <= j < ELITE_SIZE ==> (#[trigger] new_pop@[j])@ == new_elites@[j].1@,
                forall|j: int|
                    0 <= j < new_pop@.len() ==> (#[trigger] new_pop@[j]).wf()
                        && new_pop@[j].mutable_ok(),
                forall|j: int|
                    0 <= j < q ==> (#[trigger] new_pop@[ELITE_SIZE + j])@.to_multiset()
                        == new_elites@[j].1@.to_multiset(),
            decreases ELITE_SIZE - q,
        {
            let tier = mutation_tier(q);
            let child = new_elites[q].1.reproduce(tier);
            new_pop.push(child);
            q += 1;
        }

        proof {
            assert(elites_from_results(new_elites@, results_view)) by {
                assert(sorted_view.to_multiset() == results_view.to_multiset());
            }
        }

        self.elites = new_elites;
        self.population = new_pop;
    }


    /// The summary statistics of the current elite set: best score, worst
    /// score, sum of all scores, and the median (the entry at the middle
    /// rank of the ascending order).
    pub fn elite_stats(&self) -> (r: (u64, u64, u128, u64))
        requires
            elites_wf(self.elites@),
        ensures
            r.0 == self.elites@[0].0,
            r.1 == self.elites@[ELITE_SIZE - 1].0,
            r.2 == score_sum(self.elites@),
            r.3 == self.elites@[25].0,
    {
        let best = self.elites[0].0;
        let worst = self.elites[ELITE_SIZE - 1].0;
        let median = self.elites[25].0;
        let n = self.elites.len();
        let mut sum: u128 = 0;
        let mut i: usize = 0;
        proof {
            assert(self.elites@.skip(0) =~= self.elites@);
        }
        while i < n
            invariant
                n == self.elites@.len(),
                n == ELITE_SIZE,
                i <= n,
                forall|j: int|
                    0 <= j < self.elites@.len() ==> (#[trigger] self.elites@[j]).0
                        <= THRESHOLD_CAP,
                sum <= i * (THRESHOLD_CAP as int),
                sum + score_sum(self.elites@.skip(i as int)) == score_sum(self.elites@),
            decreases n - i,
        {
            proof {
                assert(self.elites@.skip(i as int)[0] == self.elites@[i as int]);
                assert(self.elites@.skip(i as int).drop_first() =~= self.elites@.skip(i + 1));
            }
            sum = sum + self.elites[i].0 as u128;
            i += 1;
        }
        (best, worst, sum, median)
    }
}

/// A cache hit on a well-formed elite set never exceeds the threshold
/// cap.
proof fn lemma_cache_hit_from_elites(elites: Seq<Scored>, kb: Keyboard, s: u64)
    requires
        forall|j: int| 0 <= j < elites.len() ==> (#[trigger] elites[j]).0 <= THRESHOLD_CAP,
        cache_lookup(elites, kb) == Some(s),
    ensures
        s <= THRESHOLD_CAP,
{
    lemma_cache_value_from(elites, kb, 0, s);
}

/// Any hit of the scan from position `i` returns a stored score.
proof fn lemma_cache_value_from(elites: Seq<Scored>, kb: Keyboard, i: int, s: u64)
    requires
        forall|j: int| 0 <= j < elites.len() ==> (#[trigger] elites[j]).0 <= THRESHOLD_CAP,
        cache_lookup_from(elites, kb, i) == Some(s),
        0 <= i,
    ensures
        s <= THRESHOLD_CAP,
    decreases elites.len() - i,
{
    if i < elites.len() && elites[i].1@ != kb@ {
        lemma_cache_value_from(elites, kb, i + 1, s);
    }
}

} // verus!
