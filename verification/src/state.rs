//! A point in the search space: one candidate pair of DNFs.

use vstd::prelude::*;
use crate::clause::ClauseModel;
use crate::dnf::{DNF, DnfModel, dnf_sat};
use crate::sample::Sample;

verus! {

/// Whether two clause sequences hold the same clauses, regardless of order
/// and multiplicity.
pub open spec fn same_clause_set(a: DnfModel, b: DnfModel) -> bool {
    forall|c: ClauseModel| a.contains(c) <==> b.contains(c)
}

/// The current state of the search: a candidate solution made of a DNF
/// that should classify the positive samples and a DNF that should
/// classify the negative samples.
pub struct State {
    /// Classifying DNF of the positive samples.
    positive_dnf: DNF,
    /// Classifying DNF of the negative samples.
    negative_dnf: DNF,
}

impl View for State {
    type V = (DnfModel, DnfModel);

    closed spec fn view(&self) -> (DnfModel, DnfModel) {
        (self.positive_dnf@, self.negative_dnf@)
    }
}

/// Whether the state with positive DNF `pos` and negative DNF `neg` is
/// feasible under the given samples: every positive sample is accepted by
/// the positive DNF and rejected by the negative one, and every negative
/// sample is accepted by the negative DNF and rejected by the positive one.
pub open spec fn feasible_dnfs(
    pos: DnfModel,
    neg: DnfModel,
    positive_samples: Seq<Sample>,
    negative_samples: Seq<Sample>,
) -> bool {
    &&& forall|i: int|
        0 <= i < positive_samples.len() ==> dnf_sat(pos, #[trigger] positive_samples[i]@)
            && !dnf_sat(neg, positive_samples[i]@)
    &&& forall|i: int|
        0 <= i < negative_samples.len() ==> dnf_sat(neg, #[trigger] negative_samples[i]@)
            && !dnf_sat(pos, negative_samples[i]@)
}

impl State {
    /// The dimension of the feature space both DNFs range over.
    pub closed spec fn dim(self) -> nat {
        self.positive_dnf.dim()
    }

    /// The representation invariant: both DNFs are well-formed over the
    /// same feature space.
    pub closed spec fn wf(self) -> bool {
        &&& self.positive_dnf.wf()
        &&& self.negative_dnf.wf()
        &&& self.negative_dnf.dim() == self.positive_dnf.dim()
    }

    /// Whether the state is feasible under the given samples, at the
    /// specification level.
    pub open spec fn feasible(
        self,
        positive_samples: Seq<Sample>,
        negative_samples: Seq<Sample>,
    ) -> bool {
        feasible_dnfs(self@.0, self@.1, positive_samples, negative_samples)
    }

    /// Builds a state from its two DNFs.
    pub fn new(positive_dnf: DNF, negative_dnf: DNF) -> (r: Self)
        requires
            positive_dnf.wf(),
            negative_dnf.wf(),
            negative_dnf.dim() == positive_dnf.dim(),
        ensures
            r.wf(),
            r.dim() == positive_dnf.dim(),
            r@ == (positive_dnf@, negative_dnf@),
    {
        State { positive_dnf, negative_dnf }
    }

    /// The dimension of the feature space both DNFs range over.
    pub fn dimension(&self) -> (r: usize)
        requires
            self.wf(),
        ensures
            r == self.dim(),
    {
        self.positive_dnf.dimension()
    }

    /// Whether the state is feasible under the data: the positive and
    /// negative DNF exactly and exclusively classify the positive and
    /// negative samples, respectively.
    pub fn is_feasible(
        &self,
        positive_samples: &Vec<Sample>,
        negative_samples: &Vec<Sample>,
    ) -> (r: bool)
        requires
            self.wf(),
            forall|i: int|
                0 <= i < positive_samples@.len() ==> (#[trigger] positive_samples@[i]).dim()
                    == self.dim(),
            forall|i: int|
                0 <= i < negative_samples@.len() ==> (#[trigger] negative_samples@[i]).dim()
                    == self.dim(),
        ensures
            r == self.feasible(positive_samples@, negative_samples@),
    {
        let np = positive_samples.len();
        let mut i: usize = 0;
        while i < np
            invariant
                i <= np,
                np == positive_samples@.len(),
                self.wf(),
                forall|j: int|
                    0 <= j < positive_samples@.len() ==> (#[trigger] positive_samples@[j]).dim()
                        == self.dim(),
                forall|j: int|
                    0 <= j < i ==> dnf_sat(self@.0, #[trigger] positive_samples@[j]@) && !dnf_sat(
                        self@.1,
                        positive_samples@[j]@,
                    ),
            decreases np - i,
        {
            let s = &positive_samples[i];
            if !self.positive_dnf.evaluate(s) || self.negative_dnf.evaluate(s) {
                return false;
            }
            i += 1;
        }
        let nn = negative_samples.len();
        let mut j: usize = 0;
        while j < nn
            invariant
                j <= nn,
                nn == negative_samples@.len(),
                self.wf(),
                forall|k: int|
                    0 <= k < negative_samples@.len() ==> (#[trigger] negative_samples@[k]).dim()
                        == self.dim(),
                forall|k: int|
                    0 <= k < positive_samples@.len() ==> dnf_sat(
                        self@.0,
                        #[trigger] positive_samples@[k]@,
                    ) && !dnf_sat(self@.1, positive_samples@[k]@),
                forall|k: int|
                    0 <= k < j ==> dnf_sat(self@.1, #[trigger] negative_samples@[k]@) && !dnf_sat(
                        self@.0,
                        negative_samples@[k]@,
                    ),
            decreases nn - j,
        {
            let s = &negative_samples[j];
            if !self.negative_dnf.evaluate(s) || self.positive_dnf.evaluate(s) {
                return false;
            }
            j += 1;
        }
        true
    }

    /// References to this state's DNFs, each tagged with whether it is the
    /// positive one.
    pub fn dnfs(&self) -> (r: Vec<(&DNF, bool)>)
        ensures
            r@.len() == 2,
            r@[0].0@ == self@.0 && r@[0].1,
            r@[1].0@ == self@.1 && !r@[1].1,
            self.wf() ==> r@[0].0.wf() && r@[1].0.wf() && r@[0].0.dim() == self.dim() && r@[1].0.dim()
                == self.dim(),
    {
        let mut r: Vec<(&DNF, bool)> = Vec::new();
        r.push((&self.positive_dnf, true));
        r.push((&self.negative_dnf, false));
        r
    }

    /// A reference to the positive DNF of the state.
    pub fn positive(&self) -> (r: &DNF)
        ensures
            r@ == self@.0,
            self.wf() ==> r.wf() && r.dim() == self.dim(),
    {
        &self.positive_dnf
    }

    /// A reference to the negative DNF of the state.
    pub fn negative(&self) -> (r: &DNF)
        ensures
            r@ == self@.1,
            self.wf() ==> r.wf() && r.dim() == self.dim(),
    {
        &self.negative_dnf
    }

    /// Whether the state's positive DNF holds the same clauses as the
    /// provided one.
    pub fn positive_eq(&self, other: &DNF) -> (r: bool)
        requires
            self.wf(),
            other.wf(),
            other.dim() == self.dim(),
        ensures
            r == same_clause_set(self@.0, other@),
    {
        self.positive_dnf.equals(other)
    }

    /// Whether the state's negative DNF holds the same clauses as the
    /// provided one.
    pub fn negative_eq(&self, other: &DNF) -> (r: bool)
        requires
            self.wf(),
            other.wf(),
            other.dim() == self.dim(),
        ensures
            r == same_clause_set(self@.1, other@),
    {
        self.negative_dnf.equals(other)
    }
}

impl Clone for State {
    /// Returns a copy of the state.
    fn clone(&self) -> (r: Self)
        ensures
            r@ == self@,
            r.dim() == self.dim(),
            self.wf() ==> r.wf(),
    {
        State {
            positive_dnf: self.positive_dnf.clone(),
            negative_dnf: self.negative_dnf.clone(),
        }
    }
}

} // verus!
