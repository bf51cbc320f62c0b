use dnf_search::error_kind::ErrorKind;
use dnf_search::literal::Literal;
use dnf_search::sample::Sample;

#[test]
fn literal_accessors() {
    let lit = Literal::new(4, true);
    assert_eq!(4, lit.feature_id());
    assert!(lit.parity());
}

#[test]
fn to_negated_flips_the_parity_of_a_copy() {
    let lit = Literal::new(2, true);
    let neg = lit.to_negated();
    assert_eq!(2, neg.feature_id());
    assert!(!neg.parity());
    // The original is unchanged.
    assert!(lit.parity());
}

#[test]
fn negate_flips_the_parity_in_place() {
    let mut lit = Literal::new(1, false);
    lit.negate();
    assert!(lit.parity());
    lit.negate();
    assert!(!lit.parity());
}

#[test]
fn literal_evaluation_follows_the_feature_and_parity() {
    let sample = Sample::new(true, vec![true, false]);
    assert_eq!(Ok(true), Literal::new(0, true).evaluate(&sample));
    assert_eq!(Ok(false), Literal::new(0, false).evaluate(&sample));
    assert_eq!(Ok(false), Literal::new(1, true).evaluate(&sample));
    assert_eq!(Ok(true), Literal::new(1, false).evaluate(&sample));
}

#[test]
fn literal_evaluation_reports_missing_data() {
    let sample = Sample::new(true, vec![true, false]);
    assert_eq!(
        Err(ErrorKind::InsufficientData(2)),
        Literal::new(2, true).evaluate(&sample)
    );
}

#[test]
fn sample_accessors() {
    let sample = Sample::new(false, vec![true, false, true]);
    assert!(!sample.label());
    assert_eq!(3, sample.dimension());
    assert!(sample.feature_at(0));
    assert!(!sample.feature_at(1));
    assert!(sample.feature_at(2));
    assert_eq!(&vec![true, false, true], sample.features());
    let copy = sample.clone();
    assert_eq!(copy.label(), sample.label());
    assert_eq!(copy.features(), sample.features());
}

#[test]
fn literal_equality_compares_the_feature_id_alone() {
    // Parity is deliberately ignored: a collection keyed by literals can
    // hold at most one literal per feature.
    assert!(Literal::new(0, true) == Literal::new(0, false));
    assert!(Literal::new(2, true) == Literal::new(2, true));
    assert!(Literal::new(0, true) != Literal::new(1, true));
    let lit = Literal::new(4, false);
    assert!(lit == lit.to_negated());
}
