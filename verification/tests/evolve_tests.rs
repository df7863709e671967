use keyevolve::evolve::{
    cached_score, evaluate_candidate, mutation_tier, sort_candidates, threshold_of, ELITE_SIZE,
    POPULATION_SIZE, SENTINEL_SCORE,
};
use keyevolve::score::{score_corpus, THRESHOLD_CAP};
use keyevolve::{Keyboard, SearchState};

fn chars(s: &str) -> Vec<char> {
    s.chars().collect()
}

#[test]
fn mutation_tiers_cycle_one_two_four_eight() {
    assert_eq!(mutation_tier(0), 1);
    assert_eq!(mutation_tier(1), 2);
    assert_eq!(mutation_tier(2), 4);
    assert_eq!(mutation_tier(3), 8);
    assert_eq!(mutation_tier(4), 1);
    assert_eq!(mutation_tier(7), 8);
    assert_eq!(mutation_tier(53), 2);
}

#[test]
fn cache_returns_the_first_structural_match() {
    let kb = Keyboard::new_47();
    let other = kb.reproduce(4);
    let elites = vec![(7u64, kb.duplicate()), (9u64, kb.duplicate())];
    assert_eq!(cached_score(&elites, &kb), Some(7));
    if other != kb {
        assert_eq!(cached_score(&elites, &other), None);
    }
    assert_eq!(threshold_of(&elites), 9);
}

#[test]
fn evaluation_reuses_cached_scores_and_scores_fresh_candidates() {
    let kb = Keyboard::new_47();
    let corpus = vec![chars("aa"), chars("as")];
    let elites = vec![(7u64, kb.duplicate())];
    // A candidate equal to an elite takes the cached score, whatever the
    // corpus says.
    assert_eq!(evaluate_candidate(&kb, &elites, &corpus, THRESHOLD_CAP), 7);
    // A fresh candidate is scored against the corpus.
    let empty: Vec<(u64, Keyboard)> = Vec::new();
    let fresh = evaluate_candidate(&kb, &empty, &corpus, THRESHOLD_CAP);
    assert_eq!(fresh, score_corpus(&kb, &corpus, THRESHOLD_CAP));
    assert_eq!(fresh, 28);
}

#[test]
fn sorting_orders_scores_ascending_and_keeps_entries() {
    let kb = Keyboard::new_47();
    let v = vec![
        (5u64, kb.duplicate()),
        (3u64, kb.duplicate()),
        (9u64, kb.duplicate()),
        (3u64, kb.duplicate()),
    ];
    let sorted = sort_candidates(v);
    let scores: Vec<u64> = sorted.iter().map(|e| e.0).collect();
    assert_eq!(scores, vec![3, 3, 5, 9]);
}

#[test]
fn initial_state_has_sentinel_elites_and_a_full_population() {
    let st = SearchState::initial();
    assert_eq!(st.population.len(), POPULATION_SIZE);
    assert_eq!(st.elites.len(), ELITE_SIZE);
    for e in &st.elites {
        assert_eq!(e.0, SENTINEL_SCORE);
        assert!(e.1 == Keyboard::new_47());
    }
    for kb in &st.population {
        assert!(kb.is_well_formed());
    }
}

#[test]
fn best_elite_score_never_increases_across_generations() {
    let corpus = vec![chars("the quick brown fox jumps over the lazy dog"), chars("aa as")];
    let mut st = SearchState::initial();
    st.run_generation(&corpus);
    let mut best = st.elites[0].0;
    assert!(best <= SENTINEL_SCORE);
    for _ in 0..3 {
        st.run_generation(&corpus);
        let now = st.elites[0].0;
        assert!(now <= best, "best elite score increased: {} -> {}", best, now);
        best = now;
    }
}

#[test]
fn a_generation_sorts_its_elites_and_carries_them_into_the_population() {
    let corpus = vec![chars("hello world")];
    let mut st = SearchState::initial();
    st.run_generation(&corpus);
    st.run_generation(&corpus);
    assert_eq!(st.elites.len(), ELITE_SIZE);
    assert_eq!(st.population.len(), POPULATION_SIZE);
    for w in st.elites.windows(2) {
        assert!(w[0].0 <= w[1].0);
    }
    for i in 0..ELITE_SIZE {
        assert!(st.population[i] == st.elites[i].1);
    }
}

#[test]
fn elite_stats_report_best_worst_sum_and_median() {
    let kb = Keyboard::new_47();
    let mut elites = Vec::new();
    for i in 0..ELITE_SIZE {
        elites.push(((i as u64 + 1) * 2, kb.duplicate()));
    }
    let population = (0..POPULATION_SIZE).map(|_| kb.duplicate()).collect();
    let st = SearchState { population, elites };
    let (best, worst, sum, median) = st.elite_stats();
    assert_eq!(best, 2);
    assert_eq!(worst, 100);
    assert_eq!(sum, (2..=100).step_by(2).sum::<u64>() as u128);
    assert_eq!(median, 52);
}
