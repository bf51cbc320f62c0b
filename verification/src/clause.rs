//! Clauses of disjunctive normal forms: conjunctions of boolean literals,
//! encoded as two parallel bit-vectors.

use vstd::prelude::*;
use crate::error_kind::ErrorKind;
use crate::literal::Literal;
use crate::sample::Sample;

verus! {

/// The mathematical model of a clause: for each feature id, either `None`
/// (the feature does not appear) or `Some(parity)` (the feature appears and
/// must take the value `parity`).
pub type ClauseModel = Seq<Option<bool>>;

/// Whether the assignment `a` satisfies the clause `c`: every literal of the
/// clause must agree with the assignment. A clause without literals is
/// vacuously satisfied.
pub open spec fn clause_sat(c: ClauseModel, a: Seq<bool>) -> bool {
    forall|i: int| 0 <= i < c.len() ==> (#[trigger] c[i] matches Some(p) ==> a[i] == p)
}

/// The number of literals of the clause model `c`.
pub open spec fn lit_count(c: ClauseModel) -> nat
    decreases c.len(),
{
    if c.len() == 0 {
        0
    } else {
        lit_count(c.drop_last()) + if c.last() is Some { 1nat } else { 0nat }
    }
}

/// Taking one more entry of `c` adds that entry's literal count.
pub proof fn lemma_lit_count_take_step(c: ClauseModel, i: int)
    requires
        0 <= i < c.len(),
    ensures
        lit_count(c.take(i + 1)) == lit_count(c.take(i)) + if c[i] is Some { 1nat } else { 0nat },
{
    let t = c.take(i + 1);
    assert(t.drop_last() =~= c.take(i));
    assert(t.last() == c[i]);
}

/// Taking all entries of `c` leaves `lit_count` unchanged.
pub proof fn lemma_lit_count_take_all(c: ClauseModel)
    ensures
        lit_count(c.take(c.len() as int)) == lit_count(c),
{
    assert(c.take(c.len() as int) =~= c);
}

/// Updating one entry of `c` changes `lit_count` by the difference of the
/// two entries' contributions.
pub proof fn lemma_lit_count_update(c: ClauseModel, i: int, v: Option<bool>)
    requires
        0 <= i < c.len(),
    ensures
        lit_count(c.update(i, v)) + (if c[i] is Some { 1nat } else { 0nat }) == lit_count(c) + (
        if v is Some {
            1nat
        } else {
            0nat
        }),
    decreases c.len(),
{
    let u = c.update(i, v);
    if i == c.len() - 1 {
        assert(u.drop_last() =~= c.drop_last());
    } else {
        assert(u.drop_last() =~= c.drop_last().update(i, v));
        assert(u.last() == c.last());
        lemma_lit_count_update(c.drop_last(), i, v);
    }
}

/// The representation of a DNF clause, i.e. a conjunction of literals over
/// a fixed-dimension feature space.
///
/// Two parallel bit-vectors encode the clause: `appearances[i]` says whether
/// feature `i` occurs in the clause, and, where it does, `polarities[i]`
/// gives the required value of the feature. Where a feature does not occur,
/// its polarity bit is kept cleared, so that structurally equal clauses have
/// equal planes.
pub struct Clause {
    /// Whether each feature is present in the clause.
    appearances: Vec<bool>,
    /// For each present feature, the value it must take. Cleared where the
    /// feature is absent.
    polarities: Vec<bool>,
}

impl View for Clause {
    type V = ClauseModel;

    closed spec fn view(&self) -> ClauseModel {
        Seq::new(
            self.appearances@.len(),
            |i: int|
                if self.appearances@[i] {
                    Some(self.polarities@[i])
                } else {
                    None
                },
        )
    }
}

impl Clause {
    /// The dimension of the clause's feature space.
    pub open spec fn dim(self) -> nat {
        self@.len()
    }

    /// The representation invariant: the two planes have the same length
    /// and the polarity plane is cleared wherever the feature is absent.
    pub closed spec fn wf(self) -> bool {
        &&& self.polarities@.len() == self.appearances@.len()
        &&& forall|i: int|
            0 <= i < self.appearances@.len() && !self.appearances@[i]
                ==> !#[trigger] self.polarities@[i]
    }

    /// A clause without any literal, over a feature space of the given
    /// dimension.
    pub fn empty(dim: usize) -> (r: Self)
        ensures
            r.wf(),
            r.dim() == dim,
            forall|i: int| 0 <= i < dim ==> r@[i] is None,
    {
        let mut appearances: Vec<bool> = Vec::new();
        let mut polarities: Vec<bool> = Vec::new();
        let mut i: usize = 0;
        while i < dim
            invariant
                i <= dim,
                appearances@.len() == i,
                polarities@.len() == i,
                forall|j: int| 0 <= j < i ==> !appearances@[j] && !polarities@[j],
            decreases dim - i,
        {
            appearances.push(false);
            polarities.push(false);
            i += 1;
        }
        Clause { appearances, polarities }
    }

    /// A clause that reproduces the given sample exactly: every feature of
    /// the space appears, with the sample's own value as polarity.
    pub fn from_sample(sample: &Sample) -> (r: Self)
        ensures
            r.wf(),
            r.dim() == sample.dim(),
            forall|i: int| 0 <= i < sample.dim() ==> r@[i] == Some(sample@[i]),
    {
        let mut appearances: Vec<bool> = Vec::new();
        let mut polarities: Vec<bool> = Vec::new();
        let dim = sample.dimension();
        let mut i: usize = 0;
        while i < dim
            invariant
                i <= dim,
                dim == sample.dim(),
                appearances@.len() == i,
                polarities@.len() == i,
                forall|j: int| 0 <= j < i ==> appearances@[j],
                forall|j: int| 0 <= j < i ==> polarities@[j] == sample@[j],
            decreases dim - i,
        {
            appearances.push(true);
            polarities.push(sample.feature_at(i));
            i += 1;
        }
        Clause { appearances, polarities }
    }

    /// Builds a clause from an optional literal per slot. The dimension is
    /// the number of slots; each present literal must name a feature inside
    /// the space, no two present literals the same one.
    pub fn new(literals: Vec<Option<Literal>>) -> (r: Self)
        requires
            forall|i: int|
                0 <= i < literals@.len() ==> (#[trigger] literals@[i] matches Some(l)
                    ==> l.id_spec() < literals@.len()),
            forall|i: int, j: int|
                0 <= i < j < literals@.len() ==> ((#[trigger] literals@[i]) is Some && (
                #[trigger] literals@[j]) is Some ==> literals@[i]->0.id_spec()
                    != literals@[j]->0.id_spec()),
        ensures
            r.wf(),
            r.dim() == literals@.len(),
            forall|i: int|
                0 <= i < literals@.len() ==> (#[trigger] literals@[i] matches Some(l) ==> r@[
                l.id_spec() as int] == Some(l.parity_spec())),
            forall|f: int|
                0 <= f < r.dim() && r@[f] is Some ==> exists|i: int|
                    0 <= i < literals@.len() && (#[trigger] literals@[i] matches Some(l)
                        && l.id_spec() == f),
    {
        let dim = literals.len();
        let mut clause = Self::empty(dim);
        let mut i: usize = 0;
        while i < dim
            invariant
                i <= dim,
                dim == literals@.len(),
                clause.wf(),
                clause.dim() == dim,
                forall|i2: int|
                    0 <= i2 < literals@.len() ==> (#[trigger] literals@[i2] matches Some(l)
                        ==> l.id_spec() < literals@.len()),
                forall|i2: int, j2: int|
                    0 <= i2 < j2 < literals@.len() ==> ((#[trigger] literals@[i2]) is Some && (
                    #[trigger] literals@[j2]) is Some ==> literals@[i2]->0.id_spec()
                        != literals@[j2]->0.id_spec()),
                forall|i2: int|
                    0 <= i2 < i ==> (#[trigger] literals@[i2] matches Some(l) ==> clause@[
                    l.id_spec() as int] == Some(l.parity_spec())),
                forall|f: int|
                    0 <= f < dim && clause@[f] is Some ==> exists|i2: int|
                        0 <= i2 < i && (#[trigger] literals@[i2] matches Some(l) && l.id_spec()
                            == f),
            decreases dim - i,
        {
            if let Some(lit) = &literals[i] {
                clause.insert_literal(lit.feature_id(), lit.parity());
            }
            i += 1;
        }
        clause
    }

    /// Whether the clause is empty, i.e. contains no literal.
    pub fn is_empty(&self) -> (r: bool)
        requires
            self.wf(),
        ensures
            r == (lit_count(self@) == 0),
    {
        self.length() == 0
    }

    /// Returns the length of the clause, i.e. the number of literals it
    /// contains.
    pub fn length(&self) -> (r: usize)
        requires
            self.wf(),
        ensures
            r == lit_count(self@),
    {
        let mut count: usize = 0;
        let mut i: usize = 0;
        let dim = self.appearances.len();
        while i < dim
            invariant
                i <= dim,
                self.wf(),
                dim == self.dim(),
                count == lit_count(self@.take(i as int)),
                count <= i,
            decreases dim - i,
        {
            proof {
                lemma_lit_count_take_step(self@, i as int);
            }
            if self.appearances[i] {
                count += 1;
            }
            i += 1;
        }
        proof {
            lemma_lit_count_take_all(self@);
        }
        count
    }

    /// Returns, in ascending order, every feature id for which a literal is
    /// present in the clause.
    pub fn literal_indices(&self) -> (r: Vec<usize>)
        requires
            self.wf(),
        ensures
            r@.len() == lit_count(self@),
            forall|k: int|
                0 <= k < r@.len() ==> #[trigger] r@[k] < self.dim() && self@[r@[k] as int] is Some,
            forall|f: int| 0 <= f < self.dim() && self@[f] is Some ==> r@.contains(f as usize),
            forall|k1: int, k2: int| 0 <= k1 < k2 < r@.len() ==> r@[k1] < r@[k2],
    {
        let mut r: Vec<usize> = Vec::new();
        let mut i: usize = 0;
        let dim = self.appearances.len();
        while i < dim
            invariant
                i <= dim,
                self.wf(),
                dim == self.dim(),
                r@.len() == lit_count(self@.take(i as int)),
                forall|k: int|
                    0 <= k < r@.len() ==> #[trigger] r@[k] < i && self@[r@[k] as int] is Some,
                forall|f: int|
                    0 <= f < i && self@[f] is Some ==> exists|k: int|
                        0 <= k < r@.len() && #[trigger] r@[k] == f as usize,
                forall|k1: int, k2: int| 0 <= k1 < k2 < r@.len() ==> r@[k1] < r@[k2],
            decreases dim - i,
        {
            let ghost r_prev = r@;
            proof {
                lemma_lit_count_take_step(self@, i as int);
            }
            if self.appearances[i] {
                r.push(i);
                proof {
                    assert(r@[r@.len() - 1] == i);
                    assert(forall|k: int| 0 <= k < r_prev.len() ==> r@[k] == r_prev[k]);
                }
            }
            i += 1;
        }
        proof {
            lemma_lit_count_take_all(self@);
        }
        proof {
            assert forall|f: int| 0 <= f < self.dim() && self@[f] is Some implies r@.contains(
                f as usize,
            ) by {
                let k = choose|k: int| 0 <= k < r@.len() && r@[k] == f as usize;
                assert(r@[k] == f as usize);
            }
        }
        r
    }

    /// Returns the parity of the literal with the given feature id, or
    /// `None` when the literal is not present or the id lies outside the
    /// feature space.
    pub fn literal_at(&self, feature_id: usize) -> (r: Option<bool>)
        requires
            self.wf(),
        ensures
            r == if feature_id < self.dim() {
                self@[feature_id as int]
            } else {
                None::<bool>
            },
    {
        if feature_id >= self.appearances.len() || !self.appearances[feature_id] {
            None
        } else {
            Some(self.polarities[feature_id])
        }
    }

    /// Returns the parity of the literal with the given feature id, or
    /// reports the feature id whose literal could not be accessed: one at
    /// or beyond the dimension of the feature space, or one not contained
    /// in the clause.
    pub fn try_literal_at(&self, feature_id: usize) -> (r: Result<bool, ErrorKind>)
        requires
            self.wf(),
        ensures
            r == if feature_id < self.dim() && self@[feature_id as int] is Some {
                Ok::<bool, ErrorKind>(self@[feature_id as int]->0)
            } else {
                Err::<bool, ErrorKind>(ErrorKind::FeatureIdNotPresent(feature_id))
            },
    {
        match self.literal_at(feature_id) {
            Some(parity) => Ok(parity),
            None => Err(ErrorKind::FeatureIdNotPresent(feature_id)),
        }
    }

    /// Adds a literal to the clause, potentially replacing a previously
    /// contained literal with the same feature id and a different polarity.
    /// Returns the replaced parity, or `None` when the feature was absent.
    ///
    /// A feature id at or beyond the dimension of the feature space is a
    /// caller bug, ruled out by precondition.
    pub fn insert_literal(&mut self, feature_id: usize, parity: bool) -> (r: Option<bool>)
        requires
            old(self).wf(),
            feature_id < old(self).dim(),
        ensures
            final(self).wf(),
            final(self)@ == old(self)@.update(feature_id as int, Some(parity)),
            r == old(self)@[feature_id as int],
    {
        let r = if self.appearances[feature_id] {
            Some(self.polarities[feature_id])
        } else {
            self.appearances.set(feature_id, true);
            None
        };
        self.polarities.set(feature_id, parity);
        proof {
            assert(self@ =~= old(self)@.update(feature_id as int, Some(parity)));
        }
        r
    }

    /// Removes the literal with the given feature id from the clause and
    /// returns whether it had been present.
    ///
    /// A feature id at or beyond the dimension of the feature space is a
    /// caller bug, ruled out by precondition.
    pub fn remove_literal(&mut self, feature_id: usize) -> (r: bool)
        requires
            old(self).wf(),
            feature_id < old(self).dim(),
        ensures
            final(self).wf(),
            final(self)@ == old(self)@.update(feature_id as int, None),
            r == (old(self)@[feature_id as int] is Some),
    {
        let r = self.appearances[feature_id];
        self.appearances.set(feature_id, false);
        self.polarities.set(feature_id, false);
        proof {
            assert(self@ =~= old(self)@.update(feature_id as int, None));
        }
        r
    }

    /// The dimension of the clause's feature space.
    pub fn dimension(&self) -> (r: usize)
        ensures
            r == self.dim(),
    {
        self.appearances.len()
    }

    /// Whether two clauses are structurally equal: the same features
    /// appear, and every shared feature carries the same polarity.
    pub fn equals(&self, other: &Clause) -> (r: bool)
        requires
            self.wf(),
            other.wf(),
        ensures
            r == (self@ == other@),
    {
        let n = self.appearances.len();
        if n != other.appearances.len() {
            return false;
        }
        let mut i: usize = 0;
        while i < n
            invariant
                i <= n,
                self.wf(),
                other.wf(),
                n == self.dim(),
                n == other.dim(),
                forall|j: int| 0 <= j < i ==> self@[j] == other@[j],
            decreases n - i,
        {
            if self.appearances[i] != other.appearances[i] {
                proof {
                    assert(self@[i as int] != other@[i as int]);
                }
                return false;
            }
            if self.appearances[i] && self.polarities[i] != other.polarities[i] {
                proof {
                    assert(self@[i as int] != other@[i as int]);
                }
                return false;
            }
            i += 1;
        }
        proof {
            assert(self@ =~= other@);
        }
        true
    }

    /// Evaluates the clause under the given variable assignment: the
    /// conjunction, over every present literal, of "the sample's feature
    /// value equals the literal's polarity". A clause without literals is
    /// vacuously true.
    pub fn evaluate(&self, data: &Sample) -> (r: bool)
        requires
            self.wf(),
            data.dim() == self.dim(),
        ensures
            r == clause_sat(self@, data@),
    {
        let dim = self.appearances.len();
        let mut i: usize = 0;
        while i < dim
            invariant
                i <= dim,
                self.wf(),
                data.dim() == self.dim(),
                dim == self.dim(),
                forall|j: int| 0 <= j < i ==> (#[trigger] self@[j] matches Some(p) ==> data@[j] == p),
            decreases dim - i,
        {
            if self.appearances[i] && data.feature_at(i) != self.polarities[i] {
                proof {
                    assert(self@[i as int] matches Some(p) && data@[i as int] != p);
                }
                return false;
            }
            i += 1;
        }
        true
    }

    /// Evaluates the clause under an assignment of arbitrary dimension.
    ///
    /// When the assignment covers every present literal the result is the
    /// plain evaluation; otherwise the smallest uncovered feature id is
    /// reported as missing data.
    pub fn checked_evaluate(&self, data: &Sample) -> (r: Result<bool, ErrorKind>)
        requires
            self.wf(),
        ensures
            match r {
                Ok(b) => (forall|i: int| data.dim() <= i < self.dim() ==> self@[i] is None) && b
                    == clause_sat(self@, data@),
                Err(e) => exists|f: int|
                    data.dim() <= f < self.dim() && self@[f] is Some && e
                        == ErrorKind::InsufficientData(f as usize) && (forall|j: int|
                        data.dim() <= j < f ==> self@[j] is None),
            },
    {
        let dim = self.appearances.len();
        let data_dim = data.dimension();
        if dim > data_dim {
            let mut i: usize = data_dim;
            while i < dim
                invariant
                    data_dim <= i <= dim,
                    self.wf(),
                    dim == self.dim(),
                    data_dim == data.dim(),
                    forall|j: int| data_dim <= j < i ==> self@[j] is None,
                decreases dim - i,
            {
                if self.appearances[i] {
                    proof {
                        assert(self@[i as int] is Some);
                    }
                    return Err(ErrorKind::InsufficientData(i));
                }
                i += 1;
            }
        }
        // Every present literal now lies below the assignment's dimension.
        let bound = if dim < data_dim {
            dim
        } else {
            data_dim
        };
        let mut i: usize = 0;
        let mut result = true;
        while i < bound
            invariant
                i <= bound,
                self.wf(),
                dim == self.dim(),
                data_dim == data.dim(),
                bound == if dim < data_dim {
                    dim as int
                } else {
                    data_dim as int
                },
                forall|j: int| data_dim <= j < dim ==> self@[j] is None,
                result == (forall|j: int|
                    0 <= j < i ==> (#[trigger] self@[j] matches Some(p) ==> data@[j] == p)),
            decreases bound - i,
        {
            if self.appearances[i] && data.feature_at(i) != self.polarities[i] {
                proof {
                    assert(self@[i as int] matches Some(p) && data@[i as int] != p);
                }
                result = false;
            }
            i += 1;
        }
        proof {
            assert(result == clause_sat(self@, data@));
        }
        Ok(result)
    }
}

impl Clone for Clause {
    /// Returns a copy of the clause.
    fn clone(&self) -> (r: Self)
        ensures
            r@ == self@,
            r.wf() == self.wf(),
            r.dim() == self.dim(),
    {
        let mut appearances: Vec<bool> = Vec::new();
        let mut polarities: Vec<bool> = Vec::new();
        let mut i: usize = 0;
        let n = self.appearances.len();
        let np = self.polarities.len();
        while i < n
            invariant
                i <= n,
                n == self.appearances@.len(),
                appearances@ =~= self.appearances@.take(i as int),
            decreases n - i,
        {
            appearances.push(self.appearances[i]);
            i += 1;
        }
        let mut j: usize = 0;
        while j < np
            invariant
                j <= np,
                np == self.polarities@.len(),
                polarities@ =~= self.polarities@.take(j as int),
            decreases np - j,
        {
            polarities.push(self.polarities[j]);
            j += 1;
        }
        proof {
            assert(appearances@ =~= self.appearances@);
            assert(polarities@ =~= self.polarities@);
        }
        let r = Clause { appearances, polarities };
        proof {
            assert(r@ =~= self@);
        }
        r
    }
}

} // verus!
