//! General laws of the formula engine, stated once and proved for every
//! input. The exec functions' contracts speak of the same models these
//! laws do, so each law carries over to the running code.

use vstd::prelude::*;
use crate::clause::{ClauseModel, clause_sat, lit_count};
use crate::dnf::{DnfModel, dnf_depth, dnf_len};

verus! {

/// A clause without literals holds no entry at all.
proof fn lemma_lit_count_zero(c: ClauseModel)
    requires
        lit_count(c) == 0,
    ensures
        forall|i: int| 0 <= i < c.len() ==> c[i] is None,
    decreases c.len(),
{
    if c.len() > 0 {
        lemma_lit_count_zero(c.drop_last());
        assert forall|i: int| 0 <= i < c.len() implies c[i] is None by {
            if i < c.len() - 1 {
                assert(c.drop_last()[i] == c[i]);
            }
        }
    }
}

/// An empty clause evaluates true for every sample: a conjunction over no
/// literals is vacuously satisfied, whatever the assignment.
pub proof fn lemma_empty_clause_vacuously_true(c: ClauseModel, a: Seq<bool>)
    requires
        lit_count(c) == 0,
    ensures
        clause_sat(c, a),
{
    lemma_lit_count_zero(c);
}

/// Round trip: inserting a literal of a feature a clause does not contain
/// and then removing that feature restores the clause to its original
/// value.
pub proof fn lemma_insert_remove_round_trip(c: ClauseModel, f: int, p: bool)
    requires
        0 <= f < c.len(),
        c[f] is None,
    ensures
        c.update(f, Some(p)).update(f, None) == c,
{
    assert(c.update(f, Some(p)).update(f, None) =~= c);
}

/// The depth of a DNF is the maximum of its clauses' lengths: no clause is
/// longer, some clause reaches it, and a DNF without clauses has depth
/// zero.
pub proof fn lemma_depth_is_max_clause_length(d: DnfModel)
    ensures
        forall|i: int| 0 <= i < d.len() ==> lit_count(#[trigger] d[i]) <= dnf_depth(d),
        d.len() > 0 ==> exists|i: int| 0 <= i < d.len() && lit_count(#[trigger] d[i]) == dnf_depth(
            d,
        ),
        d.len() == 0 ==> dnf_depth(d) == 0,
    decreases d.len(),
{
    if d.len() > 0 {
        let pre = d.drop_last();
        lemma_depth_is_max_clause_length(pre);
        assert forall|i: int| 0 <= i < d.len() implies lit_count(#[trigger] d[i]) <= dnf_depth(
            d,
        ) by {
            if i < d.len() - 1 {
                assert(pre[i] == d[i]);
            }
        }
        if pre.len() > 0 && dnf_depth(pre) > lit_count(d.last()) {
            let i = choose|i: int| 0 <= i < pre.len() && lit_count(#[trigger] pre[i]) == dnf_depth(
                pre,
            );
            assert(lit_count(d[i]) == dnf_depth(d));
        } else {
            assert(lit_count(d[d.len() - 1]) == dnf_depth(d));
        }
    }
}

/// The length of a DNF is the sum of its clauses' lengths; in particular
/// it bounds each clause's length and is zero for a DNF without clauses.
pub proof fn lemma_length_bounds_clause_length(d: DnfModel)
    ensures
        forall|i: int| 0 <= i < d.len() ==> lit_count(#[trigger] d[i]) <= dnf_len(d),
        d.len() == 0 ==> dnf_len(d) == 0,
    decreases d.len(),
{
    if d.len() > 0 {
        let pre = d.drop_last();
        lemma_length_bounds_clause_length(pre);
        assert forall|i: int| 0 <= i < d.len() implies lit_count(#[trigger] d[i]) <= dnf_len(
            d,
        ) by {
            if i < d.len() - 1 {
                assert(pre[i] == d[i]);
            }
        }
    }
}

} // verus!
