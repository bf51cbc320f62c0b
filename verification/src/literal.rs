//! Boolean literals: an atomic feature variable or its negation.

use vstd::prelude::*;
use crate::error_kind::ErrorKind;
use crate::sample::Sample;

verus! {

/// A logical literal: a feature variable, identified by its feature id,
/// together with a parity. Parity `true` stands for the variable itself,
/// parity `false` for its negation.
///
/// Two literals compare equal when they name the same feature, whatever
/// their parities: a collection keyed by literals can then hold at most
/// one literal per feature, which is the invariant a clause maintains.
#[derive(Debug, Clone, Copy)]
pub struct Literal {
    /// The feature variable from which the literal is built.
    feature_id: usize,
    /// `true` if the literal is the plain variable, `false` if it is the
    /// negation of the variable.
    parity: bool,
}

impl Literal {
    /// The feature id of the literal, at the specification level.
    pub closed spec fn id_spec(self) -> usize {
        self.feature_id
    }

    /// The parity of the literal, at the specification level.
    pub closed spec fn parity_spec(self) -> bool {
        self.parity
    }

    /// Returns a new literal of the provided feature with the given parity.
    pub fn new(feature_id: usize, parity: bool) -> (r: Self)
        ensures
            r.id_spec() == feature_id,
            r.parity_spec() == parity,
    {
        Literal { feature_id, parity }
    }

    /// Returns the literal's feature id.
    pub fn feature_id(&self) -> (r: usize)
        ensures
            r == self.id_spec(),
    {
        self.feature_id
    }

    /// Returns the literal's parity.
    pub fn parity(&self) -> (r: bool)
        ensures
            r == self.parity_spec(),
    {
        self.parity
    }

    /// Returns a negated variation of the literal.
    pub fn to_negated(&self) -> (r: Self)
        ensures
            r.id_spec() == self.id_spec(),
            r.parity_spec() == !self.parity_spec(),
    {
        Literal { feature_id: self.feature_id, parity: !self.parity }
    }

    /// Negates the literal, i.e. flips its parity.
    pub fn negate(&mut self)
        ensures
            final(self).id_spec() == old(self).id_spec(),
            final(self).parity_spec() == !old(self).parity_spec(),
    {
        self.parity = !self.parity;
    }

    /// Evaluates the literal on a variable assignment.
    ///
    /// A positive literal takes the value of its feature, a negative literal
    /// the complement. When the assignment holds no value for the literal's
    /// feature, evaluation reports which feature is missing.
    pub fn evaluate(&self, data: &Sample) -> (r: Result<bool, ErrorKind>)
        ensures
            self.id_spec() < data.dim() ==> r == Ok::<bool, ErrorKind>(
                data@[self.id_spec() as int] == self.parity_spec(),
            ),
            self.id_spec() >= data.dim() ==> r == Err::<bool, ErrorKind>(
                ErrorKind::InsufficientData(self.id_spec()),
            ),
    {
        if self.feature_id < data.dimension() {
            Ok(data.feature_at(self.feature_id) == self.parity)
        } else {
            Err(ErrorKind::InsufficientData(self.feature_id))
        }
    }
}

impl PartialEq for Literal {
    /// Two literals are equal when they name the same feature; the parity
    /// is deliberately ignored.
    fn eq(&self, other: &Self) -> (r: bool) {
        self.feature_id == other.feature_id
    }
}

impl vstd::std_specs::cmp::PartialEqSpecImpl for Literal {
    open spec fn obeys_eq_spec() -> bool {
        true
    }

    open spec fn eq_spec(&self, other: &Self) -> bool {
        self.id_spec() == other.id_spec()
    }
}

} // verus!
