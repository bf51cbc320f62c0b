use dnf_search::clause::Clause;
use dnf_search::dnf::DNF;
use dnf_search::literal::Literal;
use dnf_search::sample::Sample;

fn all_atomic(n: usize) -> Clause {
    Clause::new(
        (0..n)
            .map(|x| Some(Literal::new(x, true)))
            .collect::<Vec<Option<Literal>>>(),
    )
}

fn all_negated(n: usize) -> Clause {
    Clause::new(
        (0..n)
            .map(|x| Some(Literal::new(x, false)))
            .collect::<Vec<Option<Literal>>>(),
    )
}

#[test]
pub fn evaluate() {
    let sample = Sample::new(true, vec![true; 5]);

    let clause_all_atomic = all_atomic(3);
    let clause_all_negated = all_negated(3);

    let dnf = DNF::new(3, vec![clause_all_atomic, clause_all_negated]);

    assert_eq!(Ok(true), dnf.checked_evaluate(&sample));
}

#[test]
fn empty_dnf_is_false() {
    let dnf = DNF::new_empty(3);
    let sample = Sample::new(true, vec![true, true, true]);
    assert!(!dnf.evaluate(&sample));
    assert_eq!(0, dnf.length());
    assert_eq!(0, dnf.depth());
}

#[test]
fn length_is_sum_and_depth_is_max() {
    let mut short = Clause::empty(4);
    short.insert_literal(0, true);
    let mut mid = Clause::empty(4);
    mid.insert_literal(1, true);
    mid.insert_literal(2, false);
    let long = all_atomic(4);

    let dnf = DNF::new(4, vec![short, mid, long]);
    assert_eq!(3, dnf.clause_count());
    assert_eq!(1 + 2 + 4, dnf.length());
    assert_eq!(4, dnf.depth());
}

#[test]
fn insert_clause_collapses_duplicates() {
    let mut dnf = DNF::new_empty(3);
    assert!(dnf.insert_clause(all_atomic(3)));
    assert!(!dnf.insert_clause(all_atomic(3)));
    assert!(dnf.insert_clause(all_negated(3)));
    assert_eq!(2, dnf.clause_count());

    // Constructing from a vector with duplicates collapses them too.
    let from_vec = DNF::new(3, vec![all_atomic(3), all_atomic(3), all_negated(3)]);
    assert_eq!(2, from_vec.clause_count());
    assert!(from_vec.equals(&dnf));
}

#[test]
fn remove_clause_reports_presence() {
    let mut dnf = DNF::new(3, vec![all_atomic(3), all_negated(3)]);
    assert!(dnf.contains_clause(&all_atomic(3)));
    assert!(dnf.remove_clause(&all_atomic(3)));
    assert!(!dnf.remove_clause(&all_atomic(3)));
    assert_eq!(1, dnf.clause_count());
    assert!(dnf.contains_clause(&all_negated(3)));
}

#[test]
fn equals_ignores_the_enumeration_order() {
    let a = DNF::new(3, vec![all_atomic(3), all_negated(3)]);
    let b = DNF::new(3, vec![all_negated(3), all_atomic(3)]);
    assert!(a.equals(&b));
    let c = DNF::new(3, vec![all_atomic(3)]);
    assert!(!a.equals(&c));
}

#[test]
fn evaluate_is_the_disjunction_of_the_clauses() {
    let dnf = DNF::new(2, vec![all_atomic(2), all_negated(2)]);
    assert!(dnf.evaluate(&Sample::new(true, vec![true, true])));
    assert!(dnf.evaluate(&Sample::new(false, vec![false, false])));
    assert!(!dnf.evaluate(&Sample::new(true, vec![true, false])));
    assert!(!dnf.evaluate(&Sample::new(false, vec![false, true])));
}
