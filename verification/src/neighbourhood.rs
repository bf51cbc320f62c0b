//! Neighbourhood generation: the strategies that produce the candidate
//! successor states of a state, each by one local edit.

use vstd::prelude::*;
use crate::clause::{Clause, ClauseModel, lit_count};
use crate::dnf::{DNF, DnfModel, dedup, distinct_clauses, dnf_len, set_insert};
use crate::shuffle::{lemma_permutation_preserves_all, lemma_permutation_preserves_membership, shuffle_vec};
use crate::state::State;

verus! {

/// The clause sequence that results from removing the literal of feature
/// `f` from the clause at position `i` and set-inserting the shrunk clause
/// back.
pub open spec fn rol_child(d: DnfModel, i: int, f: int) -> DnfModel {
    set_insert(d.remove(i), d[i].update(f, None))
}

/// Whether `child` arises from `parent` by removing exactly one present
/// literal from exactly one clause.
pub open spec fn is_rol_child(parent: DnfModel, child: DnfModel) -> bool {
    exists|i: int, f: int|
        0 <= i < parent.len() && 0 <= f < parent[i].len() && parent[i][f] is Some && child
            == #[trigger] rol_child(parent, i, f)
}

/// Whether the feature `f` appears in every clause of `d`.
pub open spec fn present_in_all(d: DnfModel, f: int) -> bool {
    forall|i: int| 0 <= i < d.len() ==> (#[trigger] d[i])[f] is Some
}

/// Whether the feature `f` carries the same literal in every clause of `d`.
pub open spec fn same_polarity_in_all(d: DnfModel, f: int) -> bool {
    forall|i: int, j: int| 0 <= i < d.len() && 0 <= j < d.len() ==> d[i][f] == d[j][f]
}

/// The clause sequence that results from removing the literal of feature
/// `f` from every clause of `d` at once, duplicates collapsed.
pub open spec fn rfac_child(d: DnfModel, f: int) -> DnfModel {
    dedup(d.map_values(|c: ClauseModel| c.update(f, None)))
}

/// Whether `child` arises from `parent` by removing one qualifying feature
/// from every clause at once: the feature must appear in every clause and,
/// where `only_same` is set, carry the same polarity in every clause.
pub open spec fn is_rfac_child(
    parent: DnfModel,
    child: DnfModel,
    dim: nat,
    only_same: bool,
) -> bool {
    exists|f: int|
        0 <= f < dim && present_in_all(parent, f) && (only_same ==> same_polarity_in_all(
            parent,
            f,
        )) && child == rfac_child(parent, f)
}

/// Whether some DNF of the sequence has exactly the model `child`.
pub open spec fn covers_dnf(r: Seq<DNF>, child: DnfModel) -> bool {
    exists|k: int| 0 <= k < r.len() && (#[trigger] r[k])@ == child
}

/// How many features of `0..dim` qualify for a remove-from-all-clauses
/// edit of `d`: present in every clause and, where `only_same` is set, of
/// one polarity throughout.
pub open spec fn qualifying_count(d: DnfModel, dim: nat, only_same: bool) -> nat
    decreases dim,
{
    if dim == 0 {
        0
    } else {
        qualifying_count(d, (dim - 1) as nat, only_same) + if present_in_all(d, dim - 1) && (
        only_same ==> same_polarity_in_all(d, dim - 1)) {
            1nat
        } else {
            0nat
        }
    }
}

/// Distinguishes different methods for generating the neighbourhood of a
/// state.
#[derive(Debug, Clone, Copy)]
pub enum NeighbourhoodGenerator {
    /// Remove one literal from one clause of one DNF.
    RemoveOneLiteral {
        /// Truncates the generated neighbourhood to the provided size.
        neighbourhood_limit: Option<usize>,
        /// Randomly permutes the generated neighbourhood, introducing
        /// search diversity.
        shuffle: bool,
    },
    /// Remove the literals of one feature from all clauses of one DNF.
    RemoveFromAllClauses {
        /// If set, only features whose literal has the same polarity in
        /// every clause of the DNF qualify.
        only_same_polarities: bool,
    },
    /// Insert a literal into one clause and remove it from all others.
    /// A declared extension point: it generates no candidates.
    InsertOneRemoveElsewhere,
    /// Insert one literal into a clause.
    /// A declared extension point: it generates no candidates.
    InsertOneLiteral {
        /// Truncates the generated neighbourhood to the provided size.
        neighbourhood_limit: Option<usize>,
        /// Randomly permutes the generated neighbourhood, introducing
        /// search diversity.
        shuffle: bool,
    },
}

/// Whether `child` is one of the states the generator `g` can produce from
/// `parent`, both taken as pairs of a positive and a negative clause
/// sequence over a feature space of dimension `dim`. Every generated state
/// differs from its parent in exactly one of the two DNFs.
pub open spec fn is_child_state(
    g: NeighbourhoodGenerator,
    parent: (DnfModel, DnfModel),
    child: (DnfModel, DnfModel),
    dim: nat,
) -> bool {
    match g {
        NeighbourhoodGenerator::RemoveOneLiteral { .. } => (is_rol_child(parent.0, child.0)
            && child.1 == parent.1) || (child.0 == parent.0 && is_rol_child(parent.1, child.1)),
        NeighbourhoodGenerator::RemoveFromAllClauses { only_same_polarities } => (is_rfac_child(
            parent.0,
            child.0,
            dim,
            only_same_polarities,
        ) && child.1 == parent.1) || (child.0 == parent.0 && is_rfac_child(
            parent.1,
            child.1,
            dim,
            only_same_polarities,
        )),
        NeighbourhoodGenerator::InsertOneRemoveElsewhere => false,
        NeighbourhoodGenerator::InsertOneLiteral { .. } => false,
    }
}

/// Every DNF a remove-one-literal edit of the given DNF can produce.
fn rol_for_dnf(dnf: &DNF) -> (r: Vec<DNF>)
    requires
        dnf.wf(),
    ensures
        r@.len() == dnf_len(dnf@),
        forall|k: int|
            0 <= k < r@.len() ==> (#[trigger] r@[k]).wf() && r@[k].dim() == dnf.dim() && is_rol_child(
                dnf@,
                r@[k]@,
            ),
        forall|i: int, f: int|
            0 <= i < dnf@.len() && 0 <= f < dnf@[i].len() && dnf@[i][f] is Some ==> covers_dnf(
                r@,
                #[trigger] rol_child(dnf@, i, f),
            ),
{
    let mut r: Vec<DNF> = Vec::new();
    let clauses = dnf.clauses();
    let n = clauses.len();
    let mut ci: usize = 0;
    while ci < n
        invariant
            ci <= n,
            dnf.wf(),
            n == dnf@.len(),
            clauses@.len() == dnf@.len(),
            forall|ii: int| 0 <= ii < clauses@.len() ==> (#[trigger] clauses@[ii])@ == dnf@[ii],
            forall|ii: int|
                0 <= ii < clauses@.len() ==> (#[trigger] clauses@[ii]).wf() && clauses@[ii].dim()
                    == dnf.dim(),
            forall|k: int|
                0 <= k < r@.len() ==> (#[trigger] r@[k]).wf() && r@[k].dim() == dnf.dim()
                    && is_rol_child(dnf@, r@[k]@),
            forall|i: int, f: int|
                0 <= i < ci && 0 <= f < dnf@[i].len() && dnf@[i][f] is Some ==> covers_dnf(
                    r@,
                    #[trigger] rol_child(dnf@, i, f),
                ),
            r@.len() == dnf_len(dnf@.take(ci as int)),
        decreases n - ci,
    {
        proof {
            crate::dnf::lemma_dnf_len_take_step(dnf@, ci as int);
        }
        let clause = clauses[ci].clone();
        let indices = clause.literal_indices();
        let m = indices.len();
        let mut k: usize = 0;
        while k < m
            invariant
                k <= m,
                ci < n,
                m == indices@.len(),
                dnf.wf(),
                n == dnf@.len(),
                clause.wf(),
                clause.dim() == dnf.dim(),
                clause@ == dnf@[ci as int],
                forall|k2: int|
                    0 <= k2 < indices@.len() ==> #[trigger] indices@[k2] < clause.dim() && clause@[
                    indices@[k2] as int] is Some,
                forall|f: int|
                    0 <= f < clause.dim() && clause@[f] is Some ==> indices@.contains(f as usize),
                forall|k2: int|
                    0 <= k2 < r@.len() ==> (#[trigger] r@[k2]).wf() && r@[k2].dim() == dnf.dim()
                        && is_rol_child(dnf@, r@[k2]@),
                forall|i: int, f: int|
                    0 <= i < ci && 0 <= f < dnf@[i].len() && dnf@[i][f] is Some ==> covers_dnf(
                        r@,
                        #[trigger] rol_child(dnf@, i, f),
                    ),
                forall|k2: int|
                    0 <= k2 < k ==> covers_dnf(
                        r@,
                        rol_child(dnf@, ci as int, #[trigger] indices@[k2] as int),
                    ),
                m == lit_count(dnf@[ci as int]),
                r@.len() == dnf_len(dnf@.take(ci as int)) + k,
            decreases m - k,
        {
            let f = indices[k];
            let mut cloned = dnf.clone();
            let removed = cloned.remove_clause(&clause);
            proof {
                assert(removed);
                dnf.lemma_wf();
                let i = choose|i: int|
                    0 <= i < dnf@.len() && dnf@[i] == clause@ && cloned@ == dnf@.remove(i);
                assert(dnf@[i] == dnf@[ci as int]);
                if i != ci as int {
                    assert(distinct_clauses(dnf@));
                    assert(false);
                }
                assert(cloned@ == dnf@.remove(ci as int));
            }
            let mut shrunk = clause.clone();
            shrunk.remove_literal(f);
            cloned.insert_clause(shrunk);
            proof {
                assert(cloned@ == set_insert(
                    dnf@.remove(ci as int),
                    dnf@[ci as int].update(f as int, None),
                ));
                assert(cloned@ == rol_child(dnf@, ci as int, f as int));
                assert(0 <= ci < dnf@.len() && 0 <= f < dnf@[ci as int].len() && dnf@[ci as int][f as int] is Some);
                assert(is_rol_child(dnf@, cloned@));
            }
            let ghost r_prev = r@;
            r.push(cloned);
            proof {
                assert(r@[r@.len() - 1]@ == rol_child(dnf@, ci as int, f as int));
                assert forall|i: int, f2: int|
                    0 <= i < ci && 0 <= f2 < dnf@[i].len() && dnf@[i][f2] is Some implies covers_dnf(
                    r@,
                    #[trigger] rol_child(dnf@, i, f2),
                ) by {
                    let k3 = choose|k3: int|
                        0 <= k3 < r_prev.len() && r_prev[k3]@ == rol_child(dnf@, i, f2);
                    assert(r@[k3]@ == rol_child(dnf@, i, f2));
                }
                assert forall|k2: int| 0 <= k2 < k + 1 implies covers_dnf(
                    r@,
                    rol_child(dnf@, ci as int, #[trigger] indices@[k2] as int),
                ) by {
                    if k2 < k {
                        let k3 = choose|k3: int|
                            0 <= k3 < r_prev.len() && r_prev[k3]@ == rol_child(
                                dnf@,
                                ci as int,
                                indices@[k2] as int,
                            );
                        assert(r@[k3]@ == rol_child(dnf@, ci as int, indices@[k2] as int));
                    } else {
                        assert(r@[r@.len() - 1]@ == rol_child(
                            dnf@,
                            ci as int,
                            indices@[k2] as int,
                        ));
                    }
                }
            }
            k += 1;
        }
        proof {
            crate::dnf::lemma_dnf_len_take_step(dnf@, ci as int);
            assert forall|f: int|
                0 <= f < dnf@[ci as int].len() && dnf@[ci as int][f] is Some implies covers_dnf(
                r@,
                #[trigger] rol_child(dnf@, ci as int, f),
            ) by {
                dnf.lemma_wf();
                assert(clause@[f] is Some);
                assert(indices@.contains(f as usize));
                let k2 = choose|k2: int| 0 <= k2 < indices@.len() && indices@[k2] == f as usize;
                assert(indices@[k2] as int == f);
                assert(covers_dnf(r@, rol_child(dnf@, ci as int, indices@[k2] as int)));
            }
        }
        ci += 1;
    }
    proof {
        crate::dnf::lemma_dnf_take_all(dnf@);
    }
    r
}

/// Every DNF a remove-from-all-clauses edit of the given DNF can produce.
fn rfac_for_dnf(dnf: &DNF, only_same: bool) -> (r: Vec<DNF>)
    requires
        dnf.wf(),
    ensures
        r@.len() == qualifying_count(dnf@, dnf.dim(), only_same),
        forall|k: int|
            0 <= k < r@.len() ==> (#[trigger] r@[k]).wf() && r@[k].dim() == dnf.dim()
                && is_rfac_child(dnf@, r@[k]@, dnf.dim(), only_same),
        forall|f: int|
            0 <= f < dnf.dim() && present_in_all(dnf@, f) && (only_same ==> same_polarity_in_all(
                dnf@,
                f,
            )) ==> covers_dnf(r@, #[trigger] rfac_child(dnf@, f)),
{
    let dim = dnf.dimension();
    let clauses = dnf.clauses();
    let n = clauses.len();

    // For each feature: whether it appears in every clause seen so far,
    // whether its literal is positive in every clause seen so far, and
    // whether it is positive in some clause seen so far.
    let mut inter: Vec<bool> = Vec::new();
    let mut pos_all: Vec<bool> = Vec::new();
    let mut pos_any: Vec<bool> = Vec::new();
    let mut x: usize = 0;
    while x < dim
        invariant
            x <= dim,
            inter@.len() == x,
            pos_all@.len() == x,
            pos_any@.len() == x,
            forall|y: int| 0 <= y < x ==> inter@[y] && pos_all@[y] && !pos_any@[y],
        decreases dim - x,
    {
        inter.push(true);
        pos_all.push(true);
        pos_any.push(false);
        x += 1;
    }

    let mut ci: usize = 0;
    while ci < n
        invariant
            ci <= n,
            dnf.wf(),
            dim == dnf.dim(),
            n == dnf@.len(),
            clauses@.len() == dnf@.len(),
            forall|ii: int| 0 <= ii < clauses@.len() ==> (#[trigger] clauses@[ii])@ == dnf@[ii],
            forall|ii: int|
                0 <= ii < clauses@.len() ==> (#[trigger] clauses@[ii]).wf() && clauses@[ii].dim()
                    == dnf.dim(),
            inter@.len() == dim,
            pos_all@.len() == dim,
            pos_any@.len() == dim,
            forall|y: int|
                0 <= y < dim ==> (#[trigger] inter@[y] == forall|j: int|
                    0 <= j < ci ==> (#[trigger] dnf@[j])[y] is Some),
            forall|y: int|
                0 <= y < dim ==> (#[trigger] pos_all@[y] == forall|j: int|
                    0 <= j < ci ==> (#[trigger] dnf@[j])[y] == Some(true)),
            forall|y: int|
                0 <= y < dim ==> (#[trigger] pos_any@[y] == exists|j: int|
                    0 <= j < ci && (#[trigger] dnf@[j])[y] == Some(true)),
        decreases n - ci,
    {
        let clause = &clauses[ci];
        let mut y: usize = 0;
        while y < dim
            invariant
                y <= dim,
                ci < n,
                dnf.wf(),
                dim == dnf.dim(),
                n == dnf@.len(),
                clause.wf(),
                clause.dim() == dim,
                clause@ == dnf@[ci as int],
                inter@.len() == dim,
                pos_all@.len() == dim,
                pos_any@.len() == dim,
                forall|z: int|
                    y <= z < dim ==> (#[trigger] inter@[z] == forall|j: int|
                        0 <= j < ci ==> (#[trigger] dnf@[j])[z] is Some),
                forall|z: int|
                    y <= z < dim ==> (#[trigger] pos_all@[z] == forall|j: int|
                        0 <= j < ci ==> (#[trigger] dnf@[j])[z] == Some(true)),
                forall|z: int|
                    y <= z < dim ==> (#[trigger] pos_any@[z] == exists|j: int|
                        0 <= j < ci && (#[trigger] dnf@[j])[z] == Some(true)),
                forall|z: int|
                    0 <= z < y ==> (#[trigger] inter@[z] == forall|j: int|
                        0 <= j < ci + 1 ==> (#[trigger] dnf@[j])[z] is Some),
                forall|z: int|
                    0 <= z < y ==> (#[trigger] pos_all@[z] == forall|j: int|
                        0 <= j < ci + 1 ==> (#[trigger] dnf@[j])[z] == Some(true)),
                forall|z: int|
                    0 <= z < y ==> (#[trigger] pos_any@[z] == exists|j: int|
                        0 <= j < ci + 1 && (#[trigger] dnf@[j])[z] == Some(true)),
            decreases dim - y,
        {
            let lit = clause.literal_at(y);
            let here_present = lit.is_some();
            let here_positive = match lit {
                Some(p) => p,
                None => false,
            };
            proof {
                assert(here_present == (dnf@[ci as int][y as int] is Some));
                assert(here_positive == (dnf@[ci as int][y as int] == Some(true)));
            }
            let iv = inter[y] && here_present;
            inter.set(y, iv);
            let pv = pos_all[y] && here_positive;
            pos_all.set(y, pv);
            let av = pos_any[y] || here_positive;
            pos_any.set(y, av);
            y += 1;
        }
        ci += 1;
    }

    // A feature qualifies when it appears in every clause and, where asked,
    // carries the same polarity everywhere: all positive or all negative.
    let mut r: Vec<DNF> = Vec::new();
    let mut f: usize = 0;
    while f < dim
        invariant
            f <= dim,
            dnf.wf(),
            dim == dnf.dim(),
            n == dnf@.len(),
            clauses@.len() == dnf@.len(),
            forall|ii: int| 0 <= ii < clauses@.len() ==> (#[trigger] clauses@[ii])@ == dnf@[ii],
            forall|ii: int|
                0 <= ii < clauses@.len() ==> (#[trigger] clauses@[ii]).wf() && clauses@[ii].dim()
                    == dnf.dim(),
            inter@.len() == dim,
            pos_all@.len() == dim,
            pos_any@.len() == dim,
            forall|y: int|
                0 <= y < dim ==> (#[trigger] inter@[y] == forall|j: int|
                    0 <= j < dnf@.len() ==> (#[trigger] dnf@[j])[y] is Some),
            forall|y: int|
                0 <= y < dim ==> (#[trigger] pos_all@[y] == forall|j: int|
                    0 <= j < dnf@.len() ==> (#[trigger] dnf@[j])[y] == Some(true)),
            forall|y: int|
                0 <= y < dim ==> (#[trigger] pos_any@[y] == exists|j: int|
                    0 <= j < dnf@.len() && (#[trigger] dnf@[j])[y] == Some(true)),
            forall|k: int|
                0 <= k < r@.len() ==> (#[trigger] r@[k]).wf() && r@[k].dim() == dnf.dim()
                    && is_rfac_child(dnf@, r@[k]@, dnf.dim(), only_same),
            forall|f2: int|
                0 <= f2 < f && present_in_all(dnf@, f2) && (only_same ==> same_polarity_in_all(
                    dnf@,
                    f2,
                )) ==> covers_dnf(r@, #[trigger] rfac_child(dnf@, f2)),
            r@.len() == qualifying_count(dnf@, f as nat, only_same),
        decreases dim - f,
    {
        proof {
            assert(qualifying_count(dnf@, (f + 1) as nat, only_same) == qualifying_count(
                dnf@,
                f as nat,
                only_same,
            ) + if present_in_all(dnf@, f as int) && (only_same ==> same_polarity_in_all(
                dnf@,
                f as int,
            )) {
                1nat
            } else {
                0nat
            });
        }
        let qualifies = inter[f] && (!only_same || pos_all[f] || !pos_any[f]);
        if qualifies {
            proof {
                assert(present_in_all(dnf@, f as int));
                if only_same {
                    assert forall|i: int, j: int|
                        0 <= i < dnf@.len() && 0 <= j < dnf@.len() implies dnf@[i][f as int]
                        == dnf@[j][f as int] by {
                        if pos_all@[f as int] {
                            assert(dnf@[i][f as int] == Some(true));
                            assert(dnf@[j][f as int] == Some(true));
                        } else {
                            assert(dnf@[i][f as int] is Some && dnf@[i][f as int] != Some(true));
                            assert(dnf@[i][f as int] == Some(false));
                            assert(dnf@[j][f as int] == Some(false));
                        }
                    }
                    assert(same_polarity_in_all(dnf@, f as int));
                }
            }
            let mut shrunk_clauses: Vec<Clause> = Vec::new();
            let mut ci2: usize = 0;
            while ci2 < n
                invariant
                    ci2 <= n,
                    dnf.wf(),
                    dim == dnf.dim(),
                    n == dnf@.len(),
                    clauses@.len() == dnf@.len(),
            forall|ii: int| 0 <= ii < clauses@.len() ==> (#[trigger] clauses@[ii])@ == dnf@[ii],
            forall|ii: int|
                0 <= ii < clauses@.len() ==> (#[trigger] clauses@[ii]).wf() && clauses@[ii].dim()
                    == dnf.dim(),
                    f < dim,
                    shrunk_clauses@.len() == ci2,
                    forall|j: int|
                        0 <= j < ci2 ==> (#[trigger] shrunk_clauses@[j]).wf()
                            && shrunk_clauses@[j].dim() == dim && shrunk_clauses@[j]@ == dnf@[j].update(
                            f as int,
                            None,
                        ),
                decreases n - ci2,
            {
                let mut c = clauses[ci2].clone();
                c.remove_literal(f);
                shrunk_clauses.push(c);
                ci2 += 1;
            }
            let child = DNF::new(dim, shrunk_clauses);
            proof {
                let mapped = dnf@.map_values(|c: ClauseModel| c.update(f as int, None));
                assert(shrunk_clauses@.map_values(|c: Clause| c@) =~= mapped);
                assert(child@ == rfac_child(dnf@, f as int));
                assert(is_rfac_child(dnf@, child@, dnf.dim(), only_same));
            }
            let ghost r_prev = r@;
            r.push(child);
            proof {
                assert(r@[r@.len() - 1]@ == rfac_child(dnf@, f as int));
                assert forall|f2: int|
                    0 <= f2 < f + 1 && present_in_all(dnf@, f2) && (only_same
                        ==> same_polarity_in_all(dnf@, f2)) implies covers_dnf(
                    r@,
                    #[trigger] rfac_child(dnf@, f2),
                ) by {
                    if f2 < f {
                        let k3 = choose|k3: int|
                            0 <= k3 < r_prev.len() && r_prev[k3]@ == rfac_child(dnf@, f2);
                        assert(r@[k3]@ == rfac_child(dnf@, f2));
                    } else {
                        assert(r@[r@.len() - 1]@ == rfac_child(dnf@, f2));
                    }
                }
            }
        } else {
            proof {
                // A feature that fails the test does not qualify: it is
                // either missing from some clause or carries both
                // polarities although one polarity was asked for.
                if present_in_all(dnf@, f as int) {
                    assert(inter@[f as int]);
                    if only_same && same_polarity_in_all(dnf@, f as int) {
                        if dnf@.len() == 0 {
                            assert(!pos_any@[f as int]);
                        } else if dnf@[0][f as int] == Some(true) {
                            assert(forall|j: int|
                                0 <= j < dnf@.len() ==> (#[trigger] dnf@[j])[f as int] == Some(
                                    true,
                                ));
                            assert(pos_all@[f as int]);
                        } else {
                            assert forall|j: int|
                                0 <= j < dnf@.len() implies (#[trigger] dnf@[j])[f as int] != Some(
                                true,
                            ) by {
                                assert(dnf@[j][f as int] == dnf@[0][f as int]);
                            }
                            assert(!pos_any@[f as int]);
                        }
                        assert(false);
                    }
                }
            }
        }
        f += 1;
    }
    r
}

/// How many candidates the generator `g` produces from a parent with the
/// given clause sequences: one per (role, clause, present feature) triple
/// for remove-one-literal, cut to the configured limit; one per (role,
/// qualifying feature) for remove-from-all-clauses; none for the declared
/// extension points.
pub open spec fn candidate_count(
    g: NeighbourhoodGenerator,
    parent: (DnfModel, DnfModel),
    dim: nat,
) -> nat {
    match g {
        NeighbourhoodGenerator::RemoveOneLiteral { neighbourhood_limit, .. } => {
            let total = dnf_len(parent.0) + dnf_len(parent.1);
            match neighbourhood_limit {
                None => total,
                Some(k) => if k as nat <= total {
                    k as nat
                } else {
                    total
                },
            }
        },
        NeighbourhoodGenerator::RemoveFromAllClauses { only_same_polarities } => qualifying_count(
            parent.0,
            dim,
            only_same_polarities,
        ) + qualifying_count(parent.1, dim, only_same_polarities),
        NeighbourhoodGenerator::InsertOneRemoveElsewhere => 0,
        NeighbourhoodGenerator::InsertOneLiteral { .. } => 0,
    }
}

/// Whether some state of the sequence has exactly the model `child`.
pub open spec fn covers_state(r: Seq<State>, child: (DnfModel, DnfModel)) -> bool {
    exists|k: int| 0 <= k < r.len() && (#[trigger] r[k])@ == child
}

/// A sequence that extends another, element for element, keeps covering
/// whatever the shorter one covers.
pub proof fn lemma_covers_state_extend(a: Seq<State>, b: Seq<State>, child: (DnfModel, DnfModel))
    requires
        covers_state(a, child),
        a.len() <= b.len(),
        forall|i: int| 0 <= i < a.len() ==> a[i] == b[i],
    ensures
        covers_state(b, child),
{
    let k = choose|k: int| 0 <= k < a.len() && a[k]@ == child;
    assert(b[k]@ == child);
}

/// Whether the generator `g` is certain to produce `child` from `parent`:
/// the edit is one of the generator's kind and the generator keeps its
/// whole neighbourhood, i.e. it carries no size limit that could drop
/// candidates at random.
pub open spec fn surely_generates(
    g: NeighbourhoodGenerator,
    parent: (DnfModel, DnfModel),
    child: (DnfModel, DnfModel),
    dim: nat,
) -> bool {
    match g {
        NeighbourhoodGenerator::RemoveOneLiteral { neighbourhood_limit: None, .. } => (
        is_rol_child(parent.0, child.0) && child.1 == parent.1) || (child.0 == parent.0
            && is_rol_child(parent.1, child.1)),
        NeighbourhoodGenerator::RemoveFromAllClauses { only_same_polarities } => (is_rfac_child(
            parent.0,
            child.0,
            dim,
            only_same_polarities,
        ) && child.1 == parent.1) || (child.0 == parent.0 && is_rfac_child(
            parent.1,
            child.1,
            dim,
            only_same_polarities,
        )),
        NeighbourhoodGenerator::RemoveOneLiteral { neighbourhood_limit: Some(_), .. } => false,
        NeighbourhoodGenerator::InsertOneRemoveElsewhere => false,
        NeighbourhoodGenerator::InsertOneLiteral { .. } => false,
    }
}

/// Whether `s` is an acceptable generated neighbour of `parent` under the
/// generator `g`: well-formed, over the same feature space, and one of the
/// generator's edits.
spec fn child_ok(g: NeighbourhoodGenerator, parent: State, s: State) -> bool {
    s.wf() && s.dim() == parent.dim() && is_child_state(g, parent@, s@, parent.dim())
}

impl NeighbourhoodGenerator {
    /// Generates the neighbourhood of the state according to the generator
    /// strategy. Every returned state is well-formed over the state's
    /// feature space and arises from the state by one edit of the
    /// generator's kind; the state itself is not changed.
    pub fn generate_neighbourhood(&self, state: &State) -> (r: Vec<State>)
        requires
            state.wf(),
        ensures
            forall|k: int|
                0 <= k < r@.len() ==> (#[trigger] r@[k]).wf() && r@[k].dim() == state.dim()
                    && is_child_state(*self, state@, r@[k]@, state.dim()),
            forall|child: (DnfModel, DnfModel)|
                #[trigger] surely_generates(*self, state@, child, state.dim()) ==> covers_state(
                    r@,
                    child,
                ),
            r@.len() == candidate_count(*self, state@, state.dim()),
    {
        let mut result: Vec<State> = Vec::new();
        match self {
            NeighbourhoodGenerator::RemoveOneLiteral { neighbourhood_limit, shuffle } => {
                let pos_children = rol_for_dnf(state.positive());
                let mut i: usize = 0;
                let np = pos_children.len();
                while i < np
                    invariant
                        i <= np,
                        state.wf(),
                        np == pos_children@.len(),
                        self is RemoveOneLiteral,
                        forall|k: int|
                            0 <= k < pos_children@.len() ==> (#[trigger] pos_children@[k]).wf()
                                && pos_children@[k].dim() == state.dim() && is_rol_child(
                                state@.0,
                                pos_children@[k]@,
                            ),
                        forall|k: int| 0 <= k < result@.len() ==> child_ok(*self, *state, #[trigger] result@[k]),
                        result@.len() == i,
                        forall|k: int|
                            0 <= k < i ==> (#[trigger] result@[k])@ == (pos_children@[k]@, state@.1),
                    decreases np - i,
                {
                    let child = State::new(pos_children[i].clone(), state.negative().clone());
                    result.push(child);
                    i += 1;
                }
                let neg_children = rol_for_dnf(state.negative());
                let mut j: usize = 0;
                let nn = neg_children.len();
                while j < nn
                    invariant
                        j <= nn,
                        state.wf(),
                        nn == neg_children@.len(),
                        np == pos_children@.len(),
                        self is RemoveOneLiteral,
                        forall|k: int|
                            0 <= k < neg_children@.len() ==> (#[trigger] neg_children@[k]).wf()
                                && neg_children@[k].dim() == state.dim() && is_rol_child(
                                state@.1,
                                neg_children@[k]@,
                            ),
                        forall|k: int| 0 <= k < result@.len() ==> child_ok(*self, *state, #[trigger] result@[k]),
                        result@.len() == np + j,
                        forall|k: int|
                            0 <= k < np ==> (#[trigger] result@[k])@ == (pos_children@[k]@, state@.1),
                        forall|k: int|
                            0 <= k < j ==> (#[trigger] result@[np + k])@ == (
                                state@.0,
                                neg_children@[k]@,
                            ),
                    decreases nn - j,
                {
                    let child = State::new(state.positive().clone(), neg_children[j].clone());
                    result.push(child);
                    j += 1;
                }
                proof {
                    assert forall|child: (DnfModel, DnfModel)| #![trigger surely_generates(*self, state@, child, state.dim())]
                        surely_generates(*self, state@, child, state.dim()) implies covers_state(
                        result@,
                        child,
                    ) by {
                        if is_rol_child(state@.0, child.0) && child.1 == state@.1 {
                            let (ii, ff) = choose|ii: int, ff: int|
                                0 <= ii < state@.0.len() && 0 <= ff < state@.0[ii].len()
                                    && state@.0[ii][ff] is Some && child.0 == rol_child(
                                    state@.0,
                                    ii,
                                    ff,
                                );
                            assert(covers_dnf(pos_children@, rol_child(state@.0, ii, ff)));
                            let k = choose|k: int|
                                0 <= k < pos_children@.len() && pos_children@[k]@ == child.0;
                            assert(result@[k]@ == child);
                        } else {
                            let (ii, ff) = choose|ii: int, ff: int|
                                0 <= ii < state@.1.len() && 0 <= ff < state@.1[ii].len()
                                    && state@.1[ii][ff] is Some && child.1 == rol_child(
                                    state@.1,
                                    ii,
                                    ff,
                                );
                            assert(covers_dnf(neg_children@, rol_child(state@.1, ii, ff)));
                            let k = choose|k: int|
                                0 <= k < neg_children@.len() && neg_children@[k]@ == child.1;
                            assert(result@[np + k]@ == child);
                        }
                    }
                }
                if *shuffle {
                    let ghost before = result@;
                    shuffle_vec(&mut result);
                    proof {
                        lemma_permutation_preserves_all(
                            before,
                            result@,
                            |s: State| child_ok(*self, *state, s),
                        );
                        assert forall|child: (DnfModel, DnfModel)|
                            surely_generates(*self, state@, child, state.dim()) implies covers_state(
                            result@,
                            child,
                        ) by {
                            assert(covers_state(before, child));
                            let k = choose|k: int|
                                0 <= k < before.len() && (#[trigger] before[k])@ == child;
                            lemma_permutation_preserves_membership(before, result@, before[k]);
                            let k2 = choose|k2: int|
                                0 <= k2 < result@.len() && result@[k2] == before[k];
                            assert(result@[k2]@ == child);
                        }
                    }
                }
                proof {
                    assert(result@.len() == dnf_len(state@.0) + dnf_len(state@.1));
                }
                if let Some(limit) = neighbourhood_limit {
                    let ghost before = result@;
                    result.truncate(*limit);
                    proof {
                        assert(forall|k: int|
                            0 <= k < result@.len() ==> result@[k] == before[k]);
                        assert(result@.len() == if *limit as nat <= before.len() {
                            *limit as nat
                        } else {
                            before.len()
                        });
                    }
                }
            },
            NeighbourhoodGenerator::RemoveFromAllClauses { only_same_polarities } => {
                let pos_children = rfac_for_dnf(state.positive(), *only_same_polarities);
                let mut i: usize = 0;
                let np = pos_children.len();
                while i < np
                    invariant
                        i <= np,
                        state.wf(),
                        np == pos_children@.len(),
                        *self == (NeighbourhoodGenerator::RemoveFromAllClauses {
                            only_same_polarities: *only_same_polarities,
                        }),
                        forall|k: int|
                            0 <= k < pos_children@.len() ==> (#[trigger] pos_children@[k]).wf()
                                && pos_children@[k].dim() == state.dim() && is_rfac_child(
                                state@.0,
                                pos_children@[k]@,
                                state.dim(),
                                *only_same_polarities,
                            ),
                        forall|k: int| 0 <= k < result@.len() ==> child_ok(*self, *state, #[trigger] result@[k]),
                        result@.len() == i,
                        forall|k: int|
                            0 <= k < i ==> (#[trigger] result@[k])@ == (pos_children@[k]@, state@.1),
                    decreases np - i,
                {
                    let child = State::new(pos_children[i].clone(), state.negative().clone());
                    result.push(child);
                    i += 1;
                }
                let neg_children = rfac_for_dnf(state.negative(), *only_same_polarities);
                let mut j: usize = 0;
                let nn = neg_children.len();
                while j < nn
                    invariant
                        j <= nn,
                        state.wf(),
                        nn == neg_children@.len(),
                        np == pos_children@.len(),
                        *self == (NeighbourhoodGenerator::RemoveFromAllClauses {
                            only_same_polarities: *only_same_polarities,
                        }),
                        forall|k: int|
                            0 <= k < neg_children@.len() ==> (#[trigger] neg_children@[k]).wf()
                                && neg_children@[k].dim() == state.dim() && is_rfac_child(
                                state@.1,
                                neg_children@[k]@,
                                state.dim(),
                                *only_same_polarities,
                            ),
                        forall|k: int| 0 <= k < result@.len() ==> child_ok(*self, *state, #[trigger] result@[k]),
                        result@.len() == np + j,
                        forall|k: int|
                            0 <= k < np ==> (#[trigger] result@[k])@ == (pos_children@[k]@, state@.1),
                        forall|k: int|
                            0 <= k < j ==> (#[trigger] result@[np + k])@ == (
                                state@.0,
                                neg_children@[k]@,
                            ),
                    decreases nn - j,
                {
                    let child = State::new(state.positive().clone(), neg_children[j].clone());
                    result.push(child);
                    j += 1;
                }
                proof {
                    assert forall|child: (DnfModel, DnfModel)| #![trigger surely_generates(*self, state@, child, state.dim())]
                        surely_generates(*self, state@, child, state.dim()) implies covers_state(
                        result@,
                        child,
                    ) by {
                        if is_rfac_child(state@.0, child.0, state.dim(), *only_same_polarities)
                            && child.1 == state@.1 {
                            let ff = choose|ff: int|
                                0 <= ff < state.dim() && present_in_all(state@.0, ff) && (
                                *only_same_polarities ==> same_polarity_in_all(state@.0, ff))
                                    && child.0 == rfac_child(state@.0, ff);
                            assert(covers_dnf(pos_children@, rfac_child(state@.0, ff)));
                            let k = choose|k: int|
                                0 <= k < pos_children@.len() && pos_children@[k]@ == child.0;
                            assert(result@[k]@ == child);
                        } else {
                            let ff = choose|ff: int|
                                0 <= ff < state.dim() && present_in_all(state@.1, ff) && (
                                *only_same_polarities ==> same_polarity_in_all(state@.1, ff))
                                    && child.1 == rfac_child(state@.1, ff);
                            assert(covers_dnf(neg_children@, rfac_child(state@.1, ff)));
                            let k = choose|k: int|
                                0 <= k < neg_children@.len() && neg_children@[k]@ == child.1;
                            assert(result@[np + k]@ == child);
                        }
                    }
                }
                let ghost before = result@;
                shuffle_vec(&mut result);
                proof {
                    lemma_permutation_preserves_all(
                        before,
                        result@,
                        |s: State| child_ok(*self, *state, s),
                    );
                    assert forall|child: (DnfModel, DnfModel)|
                        surely_generates(*self, state@, child, state.dim()) implies covers_state(
                        result@,
                        child,
                    ) by {
                        assert(covers_state(before, child));
                        let k = choose|k: int|
                            0 <= k < before.len() && (#[trigger] before[k])@ == child;
                        lemma_permutation_preserves_membership(before, result@, before[k]);
                        let k2 = choose|k2: int|
                            0 <= k2 < result@.len() && result@[k2] == before[k];
                        assert(result@[k2]@ == child);
                    }
                }
            },
            NeighbourhoodGenerator::InsertOneRemoveElsewhere => {},
            NeighbourhoodGenerator::InsertOneLiteral { .. } => {},
        }
        result
    }
}

} // verus!
