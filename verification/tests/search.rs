use dnf_search::clause::Clause;
use dnf_search::dnf::DNF;
use dnf_search::neighbourhood::NeighbourhoodGenerator;
use dnf_search::regularizer::Regularizer;
use dnf_search::runner::{Algorithm, AlgorithmRunner};
use dnf_search::sample::Sample;
use dnf_search::state::State;

/// A clause over three features that reproduces the given assignment.
fn exact_clause(features: [bool; 3]) -> Clause {
    let mut c = Clause::empty(3);
    for (id, &parity) in features.iter().enumerate() {
        c.insert_literal(id, parity);
    }
    c
}

/// The initial state of the three-feature scenario: one exact-match clause
/// per sample on either side.
fn scenario() -> (State, Vec<Sample>, Vec<Sample>) {
    let positive = vec![Sample::new(true, vec![true, false, false])];
    let negative = vec![Sample::new(false, vec![false, false, false])];
    let positive_dnf = DNF::new(3, vec![exact_clause([true, false, false])]);
    let negative_dnf = DNF::new(3, vec![exact_clause([false, false, false])]);
    (State::new(positive_dnf, negative_dnf), positive, negative)
}

#[test]
fn initial_scenario_state_is_feasible() {
    let (state, positive, negative) = scenario();
    assert!(state.is_feasible(&positive, &negative));
}

#[test]
fn feasibility_requires_the_cross_exclusion() {
    let positive = vec![Sample::new(true, vec![true, false, false])];
    let negative = vec![Sample::new(false, vec![false, false, false])];
    // A positive DNF that also matches the negative sample is infeasible,
    // although both samples are accepted by their own DNF.
    let mut loose = Clause::empty(3);
    loose.insert_literal(1, false);
    loose.insert_literal(2, false);
    let positive_dnf = DNF::new(3, vec![loose]);
    let negative_dnf = DNF::new(3, vec![exact_clause([false, false, false])]);
    let state = State::new(positive_dnf, negative_dnf);
    assert!(!state.is_feasible(&positive, &negative));
}

#[test]
fn state_accessors_tag_the_roles() {
    let (state, _, _) = scenario();
    let dnfs = state.dnfs();
    assert_eq!(2, dnfs.len());
    assert!(dnfs[0].1);
    assert!(!dnfs[1].1);
    assert!(state.positive_eq(dnfs[0].0));
    assert!(state.negative_eq(dnfs[1].0));
    assert!(!state.positive_eq(dnfs[1].0));
}

#[test]
fn regularizer_scores() {
    let (state, _, _) = scenario();
    // Both DNFs hold one clause of three literals.
    assert_eq!(3 + 3, Regularizer::Length.regularize(&state));
    assert_eq!(3 + 3, Regularizer::Depth.regularize(&state));
    assert_eq!(6 + 6, Regularizer::DepthAndLength.regularize(&state));
}

#[test]
fn remove_one_literal_generates_every_single_removal() {
    let (state, _, _) = scenario();
    let generator = NeighbourhoodGenerator::RemoveOneLiteral {
        neighbourhood_limit: None,
        shuffle: false,
    };
    let neighbours = generator.generate_neighbourhood(&state);
    // Three literals in each of the two clauses: six candidates.
    assert_eq!(6, neighbours.len());
    for n in &neighbours {
        // Each neighbour lost exactly one literal from one DNF.
        let total = n.positive().length() + n.negative().length();
        assert_eq!(5, total);
    }
}

#[test]
fn remove_one_literal_respects_the_limit() {
    let (state, _, _) = scenario();
    let generator = NeighbourhoodGenerator::RemoveOneLiteral {
        neighbourhood_limit: Some(2),
        shuffle: true,
    };
    let neighbours = generator.generate_neighbourhood(&state);
    assert_eq!(2, neighbours.len());
}

#[test]
fn unimplemented_generators_yield_no_candidates() {
    let (state, _, _) = scenario();
    assert_eq!(
        0,
        NeighbourhoodGenerator::InsertOneRemoveElsewhere
            .generate_neighbourhood(&state)
            .len()
    );
    assert_eq!(
        0,
        NeighbourhoodGenerator::InsertOneLiteral { neighbourhood_limit: None, shuffle: false }
            .generate_neighbourhood(&state)
            .len()
    );
}

#[test]
fn remove_from_all_clauses_removes_one_feature_everywhere() {
    // Two clauses sharing feature 0 with the same polarity; features 1 and
    // 2 are not shared by both.
    let mut c1 = Clause::empty(3);
    c1.insert_literal(0, true);
    c1.insert_literal(1, true);
    let mut c2 = Clause::empty(3);
    c2.insert_literal(0, true);
    c2.insert_literal(2, false);
    let dnf = DNF::new(3, vec![c1, c2]);
    let state = State::new(dnf, DNF::new_empty(3));

    let generator = NeighbourhoodGenerator::RemoveFromAllClauses { only_same_polarities: true };
    let neighbours = generator.generate_neighbourhood(&state);
    // Only feature 0 appears in every clause of the positive DNF, and the
    // empty negative DNF qualifies every feature vacuously (three more).
    let mut positive_edits = 0;
    for n in &neighbours {
        if n.negative().clause_count() == 0 && n.positive().length() == 2 {
            // Feature 0 left both clauses at once.
            positive_edits += 1;
            assert_eq!(2, n.positive().clause_count());
            for clause in n.positive().clauses() {
                assert_eq!(None, clause.literal_at(0));
            }
        }
    }
    assert_eq!(1, positive_edits);
}

#[test]
fn remove_from_all_clauses_polarity_restriction() {
    // Feature 0 appears everywhere but with opposite polarities.
    let mut c1 = Clause::empty(2);
    c1.insert_literal(0, true);
    c1.insert_literal(1, true);
    let mut c2 = Clause::empty(2);
    c2.insert_literal(0, false);
    c2.insert_literal(1, true);
    let dnf = DNF::new(2, vec![c1, c2]);
    let state = State::new(dnf, DNF::new(2, vec![]));

    let restricted = NeighbourhoodGenerator::RemoveFromAllClauses { only_same_polarities: true };
    for n in restricted.generate_neighbourhood(&state) {
        // Feature 0 must never be the removed one; feature 1 may be.
        if n.positive().clause_count() > 0 {
            for clause in n.positive().clauses() {
                assert!(clause.literal_at(0).is_some());
            }
        }
    }

    let free = NeighbourhoodGenerator::RemoveFromAllClauses { only_same_polarities: false };
    let candidates = free.generate_neighbourhood(&state);
    // Both features qualify for the positive DNF without the restriction,
    // and the empty negative DNF qualifies both features vacuously.
    assert_eq!(4, candidates.len());
}

#[test]
fn basic_hill_climber_accepts_a_strictly_better_feasible_move() {
    let (state, positive, negative) = scenario();
    let mut runner = AlgorithmRunner::new(
        Algorithm::BasicHillClimber { max_iterations: 10 },
        state,
        positive,
        negative,
        vec![NeighbourhoodGenerator::RemoveOneLiteral { neighbourhood_limit: None, shuffle: false }],
        Regularizer::Length,
    );
    let initial_score = Regularizer::Length.regularize(runner.current());
    assert_eq!(6, initial_score);

    let stepped = runner.step();
    assert!(stepped.is_some());
    let next = stepped.unwrap();
    let next_score = Regularizer::Length.regularize(&next);
    // The accepted move removed one literal: five remain.
    assert_eq!(5, next_score);
    assert_eq!(1, runner.iteration());
}

#[test]
fn basic_hill_climber_scores_never_increase_and_none_is_stable() {
    let (state, positive, negative) = scenario();
    let mut runner = AlgorithmRunner::new(
        Algorithm::BasicHillClimber { max_iterations: 100 },
        state,
        positive,
        negative,
        vec![NeighbourhoodGenerator::RemoveOneLiteral { neighbourhood_limit: None, shuffle: true }],
        Regularizer::Length,
    );
    let mut last_score = Regularizer::Length.regularize(runner.current());
    while let Some(state) = runner.step() {
        let score = Regularizer::Length.regularize(&state);
        assert!(score <= last_score);
        last_score = score;
    }
    // The terminal state is stable: further calls keep returning nothing.
    assert!(runner.is_terminated());
    assert!(runner.step().is_none());
    assert!(runner.step().is_none());
}

#[test]
fn basic_hill_climber_stops_at_the_iteration_budget() {
    let (state, positive, negative) = scenario();
    let mut runner = AlgorithmRunner::new(
        Algorithm::BasicHillClimber { max_iterations: 0 },
        state,
        positive,
        negative,
        vec![NeighbourhoodGenerator::RemoveOneLiteral { neighbourhood_limit: None, shuffle: false }],
        Regularizer::Length,
    );
    assert!(runner.step().is_none());
    assert_eq!(0, runner.iteration());
}

#[test]
fn stochastic_candidates_are_feasible_and_resolve_counts_the_iteration() {
    let (state, positive, negative) = scenario();
    let mut runner = AlgorithmRunner::new(
        Algorithm::StochasticHillClimber { max_iterations: 10 },
        state,
        positive,
        negative,
        vec![NeighbourhoodGenerator::RemoveOneLiteral { neighbourhood_limit: None, shuffle: false }],
        Regularizer::Length,
    );
    let candidates = runner.stochastic_candidates().unwrap();
    for c in &candidates {
        assert!(c.is_feasible(runner.positive_samples(), runner.negative_samples()));
    }
    // Accept the first candidate, as a greedy caller would.
    let accepted = candidates.into_iter().next();
    let had_accepted = accepted.is_some();
    let next = runner.stochastic_resolve(accepted);
    assert_eq!(1, runner.iteration());
    if had_accepted {
        assert_eq!(5, Regularizer::Length.regularize(&next));
    }
}

#[test]
fn zero_dimension_formulae() {
    let clause = Clause::empty(0);
    let sample = Sample::new(true, vec![]);
    // A clause over no features is empty and vacuously true.
    assert!(clause.is_empty());
    assert!(clause.evaluate(&sample));
    // A DNF holding only the empty clause is true; an empty DNF is false.
    let dnf = DNF::new(0, vec![Clause::empty(0)]);
    assert!(dnf.evaluate(&sample));
    assert!(!DNF::new_empty(0).evaluate(&sample));
}

#[test]
fn step_terminates_when_no_neighbour_is_feasible() {
    // Two positive samples that differ force the exact-match clause of one
    // to reject the other, so the one-clause-per-sample initial state is
    // infeasible, and so is every neighbour of a single-literal clause.
    let positive = vec![Sample::new(true, vec![true])];
    let negative = vec![Sample::new(false, vec![false])];
    let mut pos_clause = Clause::empty(1);
    pos_clause.insert_literal(0, true);
    let mut neg_clause = Clause::empty(1);
    neg_clause.insert_literal(0, false);
    let state = State::new(DNF::new(1, vec![pos_clause]), DNF::new(1, vec![neg_clause]));
    assert!(state.is_feasible(&positive, &negative));

    // Removing the only literal of either clause makes that clause empty,
    // hence true on both samples: the cross-exclusion fails on every
    // neighbour, and the step terminates at the local optimum.
    let mut runner = AlgorithmRunner::new(
        Algorithm::BasicHillClimber { max_iterations: 10 },
        state,
        positive,
        negative,
        vec![NeighbourhoodGenerator::RemoveOneLiteral { neighbourhood_limit: None, shuffle: false }],
        Regularizer::Length,
    );
    assert!(runner.step().is_none());
    assert!(runner.is_terminated());
}

#[test]
fn stochastic_candidates_end_when_the_budget_is_spent() {
    let (state, positive, negative) = scenario();
    let mut runner = AlgorithmRunner::new(
        Algorithm::StochasticHillClimber { max_iterations: 0 },
        state,
        positive,
        negative,
        vec![NeighbourhoodGenerator::RemoveOneLiteral { neighbourhood_limit: None, shuffle: false }],
        Regularizer::Length,
    );
    // The stochastic climber allows iteration counts up to and including
    // the budget before terminating.
    assert!(runner.stochastic_candidates().is_some());
    let _ = runner.stochastic_resolve(None);
    assert!(runner.stochastic_candidates().is_none());
    assert!(runner.is_terminated());
}

#[test]
fn shuffled_neighbourhood_holds_the_same_candidates() {
    let (state, _, _) = scenario();
    let shuffled = NeighbourhoodGenerator::RemoveOneLiteral {
        neighbourhood_limit: None,
        shuffle: true,
    };
    let neighbours = shuffled.generate_neighbourhood(&state);
    // Shuffling permutes the candidates but drops and changes none: all
    // six single-literal removals are still there.
    assert_eq!(6, neighbours.len());
    for n in &neighbours {
        assert_eq!(5, n.positive().length() + n.negative().length());
    }
    // Every unshuffled candidate appears among the shuffled ones.
    let plain = NeighbourhoodGenerator::RemoveOneLiteral {
        neighbourhood_limit: None,
        shuffle: false,
    };
    for p in plain.generate_neighbourhood(&state) {
        assert!(neighbours.iter().any(|n| {
            n.positive_eq(p.positive()) && n.negative_eq(p.negative())
        }));
    }
}
