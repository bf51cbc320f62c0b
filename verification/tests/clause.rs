use dnf_search::clause::Clause;
use dnf_search::error_kind::ErrorKind;
use dnf_search::literal::Literal;
use dnf_search::sample::Sample;

#[test]
fn clause_length() {
    let clause_all_atomic = Clause::new(
        (0..3)
            .map(|x| Some(Literal::new(x as usize, true)))
            .collect::<Vec<Option<Literal>>>(),
    );
    let clause_all_negated = Clause::new(
        (0..3)
            .map(|x| Some(Literal::new(x as usize, false)))
            .collect::<Vec<Option<Literal>>>(),
    );
    assert_eq!(3, clause_all_atomic.length());
    assert_eq!(3, clause_all_negated.length());
}

#[test]
fn clause_evaluation() {
    let sample1 = Sample::new(true, vec![true, false, false]);
    let sample2 = Sample::new(false, vec![false, false, false]);

    let clause_all_atomic = Clause::new(
        (0..3)
            .map(|x| Some(Literal::new(x as usize, true)))
            .collect::<Vec<Option<Literal>>>(),
    );
    let clause_all_negated = Clause::new(
        (0..3)
            .map(|x| Some(Literal::new(x as usize, false)))
            .collect::<Vec<Option<Literal>>>(),
    );

    assert_eq!(Ok(false), clause_all_negated.checked_evaluate(&sample1));
    assert_eq!(Ok(true), clause_all_negated.checked_evaluate(&sample2));
    assert_eq!(Ok(false), clause_all_atomic.checked_evaluate(&sample1));
    assert_eq!(Ok(false), clause_all_atomic.checked_evaluate(&sample2));
}

#[test]
fn insufficient_data() {
    let clause = Clause::new(
        (0..3)
            .map(|x| Some(Literal::new(x as usize, true)))
            .collect::<Vec<Option<Literal>>>(),
    );

    let insufficient_sample = Sample::new(true, vec![true, false]);

    assert_eq!(
        Err(ErrorKind::InsufficientData(2)),
        clause.checked_evaluate(&insufficient_sample)
    );
}

#[test]
fn empty_clause_is_vacuously_true() {
    let clause = Clause::empty(4);
    assert!(clause.is_empty());
    assert_eq!(0, clause.length());
    let sample_a = Sample::new(true, vec![true, false, true, false]);
    let sample_b = Sample::new(false, vec![false, false, false, false]);
    assert!(clause.evaluate(&sample_a));
    assert!(clause.evaluate(&sample_b));
}

#[test]
fn from_sample_reproduces_the_sample() {
    let sample = Sample::new(true, vec![true, false, true]);
    let clause = Clause::from_sample(&sample);
    assert_eq!(3, clause.length());
    assert!(clause.evaluate(&sample));
    // Any other assignment differs in some feature and fails the clause.
    let other = Sample::new(true, vec![true, true, true]);
    assert!(!clause.evaluate(&other));
    assert_eq!(Some(true), clause.literal_at(0));
    assert_eq!(Some(false), clause.literal_at(1));
    assert_eq!(Some(true), clause.literal_at(2));
}

#[test]
fn insert_then_remove_restores_the_clause() {
    let mut clause = Clause::empty(5);
    clause.insert_literal(1, true);
    clause.insert_literal(3, false);

    // The round trip: feature 4 is absent, gets inserted, then removed.
    assert_eq!(None, clause.literal_at(4));
    assert_eq!(None, clause.insert_literal(4, true));
    assert_eq!(Some(true), clause.literal_at(4));
    assert!(clause.remove_literal(4));

    // The clause is back to its original value.
    assert_eq!(2, clause.length());
    assert_eq!(None, clause.literal_at(4));
    assert_eq!(Some(true), clause.literal_at(1));
    assert_eq!(Some(false), clause.literal_at(3));
    assert_eq!(vec![1, 3], clause.literal_indices());

    let original = {
        let mut c = Clause::empty(5);
        c.insert_literal(1, true);
        c.insert_literal(3, false);
        c
    };
    assert!(clause.equals(&original));
}

#[test]
fn insert_literal_replaces_and_reports_previous_parity() {
    let mut clause = Clause::empty(3);
    assert_eq!(None, clause.insert_literal(0, true));
    assert_eq!(Some(true), clause.insert_literal(0, false));
    assert_eq!(Some(false), clause.literal_at(0));
    assert_eq!(1, clause.length());
}

#[test]
fn remove_literal_reports_presence() {
    let mut clause = Clause::empty(3);
    clause.insert_literal(2, true);
    assert!(!clause.remove_literal(0));
    assert!(clause.remove_literal(2));
    assert!(!clause.remove_literal(2));
    assert!(clause.is_empty());
}

#[test]
fn try_literal_at_reports_missing_features() {
    let mut clause = Clause::empty(3);
    clause.insert_literal(1, false);
    assert_eq!(Ok(false), clause.try_literal_at(1));
    assert_eq!(Err(ErrorKind::FeatureIdNotPresent(0)), clause.try_literal_at(0));
    assert_eq!(Err(ErrorKind::FeatureIdNotPresent(7)), clause.try_literal_at(7));
}
