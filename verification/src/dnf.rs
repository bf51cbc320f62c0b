//! Disjunctive normal form boolean formulae: sets of distinct clauses.

use vstd::prelude::*;
use crate::clause::{Clause, ClauseModel, clause_sat, lit_count};
use crate::error_kind::ErrorKind;
use crate::sample::Sample;

verus! {

/// The mathematical model of a DNF: the sequence of its clause models, in
/// enumeration order, without duplicates.
pub type DnfModel = Seq<ClauseModel>;

/// Whether the assignment `a` satisfies the DNF `d`: some clause of the DNF
/// must be satisfied. A DNF without clauses is never satisfied.
pub open spec fn dnf_sat(d: DnfModel, a: Seq<bool>) -> bool {
    exists|i: int| 0 <= i < d.len() && clause_sat(#[trigger] d[i], a)
}

/// The length of a DNF: the sum of its clauses' literal counts.
pub open spec fn dnf_len(d: DnfModel) -> nat
    decreases d.len(),
{
    if d.len() == 0 {
        0
    } else {
        dnf_len(d.drop_last()) + lit_count(d.last())
    }
}

/// The depth of a DNF: the largest literal count of any of its clauses, or
/// zero when there is no clause.
pub open spec fn dnf_depth(d: DnfModel) -> nat
    decreases d.len(),
{
    if d.len() == 0 {
        0
    } else if lit_count(d.last()) >= dnf_depth(d.drop_last()) {
        lit_count(d.last())
    } else {
        dnf_depth(d.drop_last())
    }
}

/// Whether every clause of `d` ranges over a feature space of dimension `n`.
pub open spec fn uniform_dim(d: DnfModel, n: nat) -> bool {
    forall|i: int| 0 <= i < d.len() ==> (#[trigger] d[i]).len() == n
}

/// Whether no two clauses of `d` are equal.
pub open spec fn distinct_clauses(d: DnfModel) -> bool {
    forall|i: int, j: int| 0 <= i < j < d.len() ==> d[i] != d[j]
}

/// Set-insertion on a duplicate-free clause sequence: appends the clause
/// unless an equal one is already there.
pub open spec fn set_insert(d: DnfModel, c: ClauseModel) -> DnfModel {
    if d.contains(c) {
        d
    } else {
        d.push(c)
    }
}

/// Collapses duplicate clauses of `d`, keeping the first occurrence of each
/// and the order of first occurrences.
pub open spec fn dedup(d: DnfModel) -> DnfModel
    decreases d.len(),
{
    if d.len() == 0 {
        d
    } else {
        set_insert(dedup(d.drop_last()), d.last())
    }
}

/// Caps a mathematical count at the largest value a `u32` can carry.
pub open spec fn cap32(n: nat) -> nat {
    if n > u32::MAX as nat {
        u32::MAX as nat
    } else {
        n
    }
}

/// Taking one more clause adds that clause's literal count to `dnf_len`.
pub proof fn lemma_dnf_len_take_step(d: DnfModel, i: int)
    requires
        0 <= i < d.len(),
    ensures
        dnf_len(d.take(i + 1)) == dnf_len(d.take(i)) + lit_count(d[i]),
{
    let t = d.take(i + 1);
    assert(t.drop_last() =~= d.take(i));
    assert(t.last() == d[i]);
}

/// Taking one more clause folds that clause's literal count into the depth.
pub proof fn lemma_dnf_depth_take_step(d: DnfModel, i: int)
    requires
        0 <= i < d.len(),
    ensures
        dnf_depth(d.take(i + 1)) == if lit_count(d[i]) >= dnf_depth(d.take(i)) {
            lit_count(d[i])
        } else {
            dnf_depth(d.take(i))
        },
{
    let t = d.take(i + 1);
    assert(t.drop_last() =~= d.take(i));
    assert(t.last() == d[i]);
}

/// Taking all clauses of `d` changes neither `dnf_len` nor `dnf_depth` nor
/// `dedup`.
pub proof fn lemma_dnf_take_all(d: DnfModel)
    ensures
        dnf_len(d.take(d.len() as int)) == dnf_len(d),
        dnf_depth(d.take(d.len() as int)) == dnf_depth(d),
        dedup(d.take(d.len() as int)) == dedup(d),
{
    assert(d.take(d.len() as int) =~= d);
}

/// Extending the input of `dedup` by one clause set-inserts that clause.
pub proof fn lemma_dedup_take_step(d: DnfModel, i: int)
    requires
        0 <= i < d.len(),
    ensures
        dedup(d.take(i + 1)) == set_insert(dedup(d.take(i)), d[i]),
{
    let t = d.take(i + 1);
    assert(t.drop_last() =~= d.take(i));
    assert(t.last() == d[i]);
}

/// The representation of a DNF formula over a fixed-dimension feature
/// space: a set of distinct clauses, stored in a stable enumeration order.
pub struct DNF {
    /// The dimension of the feature space every clause ranges over.
    dim: usize,
    /// The disjunction of clauses. No two entries are equal.
    clauses: Vec<Clause>,
}

impl View for DNF {
    type V = DnfModel;

    closed spec fn view(&self) -> DnfModel {
        self.clauses@.map_values(|c: Clause| c@)
    }
}

impl DNF {
    /// The dimension of the DNF's feature space.
    pub closed spec fn dim(self) -> nat {
        self.dim as nat
    }

    /// The representation invariant: every clause is well-formed over the
    /// shared feature space, and no two clauses are equal.
    pub closed spec fn wf(self) -> bool {
        &&& forall|i: int|
            0 <= i < self.clauses@.len() ==> (#[trigger] self.clauses@[i]).wf()
                && self.clauses@[i].dim() == self.dim as nat
        &&& distinct_clauses(self@)
    }

    /// A well-formed DNF has distinct clauses of the shared dimension, and
    /// its dimension fits a `usize`.
    pub proof fn lemma_wf(self)
        requires
            self.wf(),
        ensures
            distinct_clauses(self@),
            uniform_dim(self@, self.dim()),
            self.dim() <= usize::MAX as nat,
    {
        assert forall|i: int| 0 <= i < self@.len() implies (#[trigger] self@[i]).len()
            == self.dim() by {
            assert(self@[i] == self.clauses@[i]@);
        }
    }

    /// A DNF without any clause, over a feature space of the given
    /// dimension.
    pub fn new_empty(dim: usize) -> (r: Self)
        ensures
            r.wf(),
            r.dim() == dim,
            r@ =~= Seq::<ClauseModel>::empty(),
    {
        DNF { dim, clauses: Vec::new() }
    }

    /// Constructs a DNF from a vector of clauses over the given feature
    /// space. Duplicate clauses collapse to one; the first occurrence of
    /// each clause keeps its place in the enumeration order.
    pub fn new(dim: usize, clauses: Vec<Clause>) -> (r: Self)
        requires
            forall|i: int|
                0 <= i < clauses@.len() ==> (#[trigger] clauses@[i]).wf() && clauses@[i].dim()
                    == dim,
        ensures
            r.wf(),
            r.dim() == dim,
            r@ == dedup(clauses@.map_values(|c: Clause| c@)),
    {
        let ghost models = clauses@.map_values(|c: Clause| c@);
        let mut r = Self::new_empty(dim);
        let n = clauses.len();
        let mut i: usize = 0;
        while i < n
            invariant
                i <= n,
                n == clauses@.len(),
                forall|j: int|
                    0 <= j < clauses@.len() ==> (#[trigger] clauses@[j]).wf() && clauses@[j].dim()
                        == dim,
                models == clauses@.map_values(|c: Clause| c@),
                r.wf(),
                r.dim() == dim,
                r@ == dedup(models.take(i as int)),
            decreases n - i,
        {
            let c = clauses[i].clone();
            proof {
                lemma_dedup_take_step(models, i as int);
                assert(models[i as int] == c@);
            }
            r.insert_clause(c);
            i += 1;
        }
        proof {
            lemma_dnf_take_all(models);
        }
        r
    }

    /// The number of clauses of the DNF.
    pub fn clause_count(&self) -> (r: usize)
        ensures
            r == self@.len(),
    {
        self.clauses.len()
    }

    /// The dimension of the DNF's feature space.
    pub fn dimension(&self) -> (r: usize)
        ensures
            r == self.dim(),
    {
        self.dim
    }

    /// Returns a reference to the clauses of the DNF.
    pub fn clauses(&self) -> (r: &Vec<Clause>)
        requires
            self.wf(),
        ensures
            r@.len() == self@.len(),
            forall|i: int| 0 <= i < r@.len() ==> (#[trigger] r@[i])@ == self@[i],
            forall|i: int| 0 <= i < r@.len() ==> (#[trigger] r@[i]).wf() && r@[i].dim() == self.dim(),
    {
        &self.clauses
    }

    /// Whether a clause structurally equal to the given one is a member of
    /// the DNF.
    pub fn contains_clause(&self, clause: &Clause) -> (r: bool)
        requires
            self.wf(),
            clause.wf(),
            clause.dim() == self.dim(),
        ensures
            r == self@.contains(clause@),
    {
        let n = self.clauses.len();
        let mut i: usize = 0;
        while i < n
            invariant
                i <= n,
                n == self@.len(),
                self.wf(),
                clause.wf(),
                clause.dim() == self.dim(),
                forall|j: int| 0 <= j < i ==> self@[j] != clause@,
            decreases n - i,
        {
            if self.clauses[i].equals(clause) {
                proof {
                    assert(self@[i as int] == clause@);
                }
                return true;
            }
            i += 1;
        }
        proof {
            assert(forall|j: int| 0 <= j < self@.len() ==> self@[j] != clause@);
        }
        false
    }

    /// Whether this DNF holds the same clauses as the other one,
    /// regardless of the enumeration order.
    pub fn equals(&self, other: &DNF) -> (r: bool)
        requires
            self.wf(),
            other.wf(),
            other.dim() == self.dim(),
        ensures
            r == (forall|c: ClauseModel| self@.contains(c) <==> other@.contains(c)),
    {
        let n = self.clauses.len();
        let mut i: usize = 0;
        while i < n
            invariant
                i <= n,
                n == self@.len(),
                self.wf(),
                other.wf(),
                other.dim() == self.dim(),
                forall|j: int| 0 <= j < i ==> other@.contains(#[trigger] self@[j]),
            decreases n - i,
        {
            if !other.contains_clause(&self.clauses[i]) {
                proof {
                    assert(self@[i as int] == self.clauses@[i as int]@);
                    assert(self@.contains(self@[i as int]));
                }
                return false;
            }
            proof {
                assert(self@[i as int] == self.clauses@[i as int]@);
            }
            i += 1;
        }
        let m = other.clauses.len();
        let mut j: usize = 0;
        while j < m
            invariant
                j <= m,
                m == other@.len(),
                self.wf(),
                other.wf(),
                other.dim() == self.dim(),
                forall|k: int| 0 <= k < self@.len() ==> other@.contains(#[trigger] self@[k]),
                forall|k: int| 0 <= k < j ==> self@.contains(#[trigger] other@[k]),
            decreases m - j,
        {
            if !self.contains_clause(&other.clauses[j]) {
                proof {
                    assert(other@[j as int] == other.clauses@[j as int]@);
                    assert(other@.contains(other@[j as int]));
                }
                return false;
            }
            proof {
                assert(other@[j as int] == other.clauses@[j as int]@);
            }
            j += 1;
        }
        proof {
            assert forall|c: ClauseModel| self@.contains(c) <==> other@.contains(c) by {
                if self@.contains(c) {
                    let k = choose|k: int| 0 <= k < self@.len() && self@[k] == c;
                    assert(other@.contains(self@[k]));
                }
                if other@.contains(c) {
                    let k = choose|k: int| 0 <= k < other@.len() && other@[k] == c;
                    assert(self@.contains(other@[k]));
                }
            }
        }
        true
    }

    /// Set-inserts a clause: appends it unless an equal clause is already a
    /// member. Returns whether the clause was newly added.
    pub fn insert_clause(&mut self, clause: Clause) -> (r: bool)
        requires
            old(self).wf(),
            clause.wf(),
            clause.dim() == old(self).dim(),
        ensures
            final(self).wf(),
            final(self).dim() == old(self).dim(),
            final(self)@ == set_insert(old(self)@, clause@),
            r == !old(self)@.contains(clause@),
    {
        if self.contains_clause(&clause) {
            false
        } else {
            self.clauses.push(clause);
            proof {
                assert(self@ =~= old(self)@.push(clause@));
                assert forall|i: int, j: int| 0 <= i < j < self@.len() implies self@[i]
                    != self@[j] by {
                    if j == self@.len() - 1 {
                        assert(!old(self)@.contains(clause@));
                        assert(old(self)@[i] != clause@);
                    }
                }
            }
            true
        }
    }

    /// Removes the clause structurally equal to the given one from the DNF
    /// and returns whether it was present.
    pub fn remove_clause(&mut self, clause: &Clause) -> (r: bool)
        requires
            old(self).wf(),
            clause.wf(),
            clause.dim() == old(self).dim(),
        ensures
            final(self).wf(),
            final(self).dim() == old(self).dim(),
            r == old(self)@.contains(clause@),
            !r ==> final(self)@ == old(self)@,
            r ==> exists|i: int|
                0 <= i < old(self)@.len() && old(self)@[i] == clause@ && final(self)@ == old(
                    self,
                )@.remove(i),
    {
        let n = self.clauses.len();
        let mut pos: usize = n;
        let mut i: usize = 0;
        while i < n
            invariant
                i <= n,
                n == self@.len(),
                self.wf(),
                clause.wf(),
                clause.dim() == self.dim(),
                pos <= n,
                pos == n ==> forall|j: int| 0 <= j < i ==> self@[j] != clause@,
                pos < n ==> self@[pos as int] == clause@,
            decreases n - i,
        {
            if pos == n && self.clauses[i].equals(clause) {
                proof {
                    assert(self@[i as int] == clause@);
                }
                pos = i;
            }
            i += 1;
        }
        if pos < n {
            let ghost prev = self@;
            proof {
                assert(prev.contains(clause@));
            }
            self.clauses.remove(pos);
            proof {
                assert(self@ =~= prev.remove(pos as int));
                assert forall|a: int, b: int| 0 <= a < b < self@.len() implies self@[a]
                    != self@[b] by {
                    let oa = if a < pos as int {
                        a
                    } else {
                        a + 1
                    };
                    let ob = if b < pos as int {
                        b
                    } else {
                        b + 1
                    };
                    assert(self@[a] == prev[oa]);
                    assert(self@[b] == prev[ob]);
                }
            }
            true
        } else {
            proof {
                assert(forall|j: int| 0 <= j < self@.len() ==> self@[j] != clause@);
            }
            false
        }
    }

    /// Returns the length of the DNF: the sum of all its clauses' lengths,
    /// capped at the largest `u32` value. Below the cap the sum is exact;
    /// a DNF without clauses has length zero.
    pub fn length(&self) -> (r: u32)
        requires
            self.wf(),
        ensures
            r as nat == cap32(dnf_len(self@)),
            dnf_len(self@) <= u32::MAX as nat ==> r as nat == dnf_len(self@),
    {
        let n = self.clauses.len();
        let mut sum: u32 = 0;
        let mut i: usize = 0;
        while i < n
            invariant
                i <= n,
                n == self@.len(),
                self.wf(),
                sum as nat == cap32(dnf_len(self@.take(i as int))),
            decreases n - i,
        {
            proof {
                lemma_dnf_len_take_step(self@, i as int);
                assert(self@[i as int] == self.clauses@[i as int]@);
            }
            let cl = self.clauses[i].length();
            let cl32: u32 = if cl > u32::MAX as usize {
                u32::MAX
            } else {
                cl as u32
            };
            sum = if sum as u64 + cl32 as u64 > u32::MAX as u64 {
                u32::MAX
            } else {
                sum + cl32
            };
            i += 1;
        }
        proof {
            lemma_dnf_take_all(self@);
        }
        sum
    }

    /// Returns the depth of the DNF: the maximum of all its clauses'
    /// lengths, capped at the largest `u32` value, or zero when there is no
    /// clause. Below the cap the maximum is exact.
    pub fn depth(&self) -> (r: u32)
        requires
            self.wf(),
        ensures
            r as nat == cap32(dnf_depth(self@)),
            dnf_depth(self@) <= u32::MAX as nat ==> r as nat == dnf_depth(self@),
            self@.len() == 0 ==> r == 0,
    {
        let n = self.clauses.len();
        let mut best: u32 = 0;
        let mut i: usize = 0;
        while i < n
            invariant
                i <= n,
                n == self@.len(),
                self.wf(),
                best as nat == cap32(dnf_depth(self@.take(i as int))),
            decreases n - i,
        {
            proof {
                lemma_dnf_depth_take_step(self@, i as int);
                assert(self@[i as int] == self.clauses@[i as int]@);
            }
            let cl = self.clauses[i].length();
            let cl32: u32 = if cl > u32::MAX as usize {
                u32::MAX
            } else {
                cl as u32
            };
            if cl32 > best {
                best = cl32;
            }
            i += 1;
        }
        proof {
            lemma_dnf_take_all(self@);
        }
        best
    }

    /// Evaluates the DNF under the given variable assignment: the
    /// disjunction of its clauses' evaluations. A DNF without clauses is
    /// false.
    pub fn evaluate(&self, data: &Sample) -> (r: bool)
        requires
            self.wf(),
            data.dim() == self.dim(),
        ensures
            r == dnf_sat(self@, data@),
    {
        let n = self.clauses.len();
        let mut i: usize = 0;
        while i < n
            invariant
                i <= n,
                n == self@.len(),
                self.wf(),
                data.dim() == self.dim(),
                forall|j: int| 0 <= j < i ==> !clause_sat(self@[j], data@),
            decreases n - i,
        {
            if self.clauses[i].evaluate(data) {
                proof {
                    assert(clause_sat(self@[i as int], data@));
                }
                return true;
            }
            i += 1;
        }
        false
    }

    /// Evaluates the DNF under an assignment of arbitrary dimension.
    ///
    /// When the assignment covers every literal of every clause the result
    /// is the plain evaluation; otherwise the first clause with uncovered
    /// literals reports its smallest missing feature id.
    pub fn checked_evaluate(&self, data: &Sample) -> (r: Result<bool, ErrorKind>)
        requires
            self.wf(),
        ensures
            match r {
                Ok(b) => {
                    &&& forall|i: int, f: int|
                        0 <= i < self@.len() && data.dim() <= f < self@[i].len() ==> (#[trigger] self@[i][f]) is None
                    &&& b == dnf_sat(self@, data@)
                },
                Err(e) => exists|i: int, f: int|
                    0 <= i < self@.len() && data.dim() <= f < self@[i].len() && self@[i][f] is Some
                        && e == ErrorKind::InsufficientData(f as usize),
            },
    {
        let n = self.clauses.len();
        let mut found = false;
        let mut i: usize = 0;
        while i < n
            invariant
                i <= n,
                n == self@.len(),
                self.wf(),
                forall|j: int, f: int|
                    0 <= j < i && data.dim() <= f < self@[j].len() ==> (#[trigger] self@[j][f]) is None,
                found == exists|j: int| 0 <= j < i && clause_sat(#[trigger] self@[j], data@),
            decreases n - i,
        {
            match self.clauses[i].checked_evaluate(data) {
                Ok(b) => {
                    proof {
                        assert(self@[i as int] == self.clauses@[i as int]@);
                    }
                    if b {
                        proof {
                            assert(clause_sat(self@[i as int], data@));
                        }
                        found = true;
                    }
                },
                Err(e) => {
                    proof {
                        assert(self@[i as int] == self.clauses@[i as int]@);
                    }
                    return Err(e);
                },
            }
            i += 1;
        }
        Ok(found)
    }
}

impl Clone for DNF {
    /// Returns a copy of the DNF.
    fn clone(&self) -> (r: Self)
        ensures
            r@ == self@,
            r.dim() == self.dim(),
            self.wf() ==> r.wf(),
    {
        let mut clauses: Vec<Clause> = Vec::new();
        let n = self.clauses.len();
        let mut i: usize = 0;
        while i < n
            invariant
                i <= n,
                n == self.clauses@.len(),
                clauses@.len() == i,
                forall|j: int| 0 <= j < i ==> (#[trigger] clauses@[j])@ == self.clauses@[j]@,
                forall|j: int|
                    0 <= j < i ==> (#[trigger] clauses@[j]).wf() == self.clauses@[j].wf()
                        && clauses@[j].dim() == self.clauses@[j].dim(),
            decreases n - i,
        {
            clauses.push(self.clauses[i].clone());
            i += 1;
        }
        let r = DNF { dim: self.dim, clauses };
        proof {
            assert(r@ =~= self@);
            if self.wf() {
                assert forall|j: int| 0 <= j < r.clauses@.len() implies (
                #[trigger] r.clauses@[j]).wf() && r.clauses@[j].dim() == r.dim as nat by {
                    assert(self.clauses@[j].wf());
                }
            }
        }
        r
    }
}

} // verus!
