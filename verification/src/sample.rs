//! Labelled assignments of the boolean feature space.

use vstd::prelude::*;

verus! {

/// One labelled data point: a bit-vector assignment to all features of a
/// fixed-dimension feature space, together with a class label.
///
/// A sample is immutable after construction. Its view is the sequence of
/// feature values; the label is exposed through [`Sample::label_spec`].
pub struct Sample {
    /// The label of the sample.
    label: bool,
    /// The value of each feature, indexed by feature id.
    features: Vec<bool>,
}

impl View for Sample {
    type V = Seq<bool>;

    closed spec fn view(&self) -> Seq<bool> {
        self.features@
    }
}

impl Sample {
    /// The number of features of the sample's feature space.
    pub open spec fn dim(self) -> nat {
        self@.len()
    }

    /// The label of the sample, at the specification level.
    pub closed spec fn label_spec(self) -> bool {
        self.label
    }

    /// Creates a sample from a label and an assignment of the feature space.
    pub fn new(label: bool, features: Vec<bool>) -> (r: Self)
        ensures
            r@ == features@,
            r.label_spec() == label,
    {
        Sample { label, features }
    }

    /// Returns the label of the sample.
    pub fn label(&self) -> (r: bool)
        ensures
            r == self.label_spec(),
    {
        self.label
    }

    /// Returns the features of the sample.
    pub fn features(&self) -> (r: &Vec<bool>)
        ensures
            r@ == self@,
    {
        &self.features
    }

    /// The number of features of the sample's feature space.
    pub fn dimension(&self) -> (r: usize)
        ensures
            r == self.dim(),
    {
        self.features.len()
    }

    /// Returns the value of the feature with the given id.
    ///
    /// A feature id at or beyond the dimension of the feature space is a
    /// caller bug, ruled out by precondition.
    pub fn feature_at(&self, id: usize) -> (r: bool)
        requires
            id < self.dim(),
        ensures
            r == self@[id as int],
    {
        self.features[id]
    }

}

impl Clone for Sample {
    /// Returns a copy of the sample.
    fn clone(&self) -> (r: Self)
        ensures
            r@ == self@,
            r.label_spec() == self.label_spec(),
    {
        let mut features: Vec<bool> = Vec::new();
        let mut i: usize = 0;
        while i < self.features.len()
            invariant
                i <= self.features.len(),
                features@ =~= self.features@.take(i as int),
            decreases self.features.len() - i,
        {
            features.push(self.features[i]);
            i += 1;
        }
        proof {
            assert(features@ =~= self.features@);
        }
        Sample { label: self.label, features }
    }
}

} // verus!
