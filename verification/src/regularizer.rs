//! Regularizers: stateless scoring strategies that rank candidate states.
//! Lower scores are preferred.

use vstd::prelude::*;
use crate::dnf::{DnfModel, cap32, dnf_depth, dnf_len};
use crate::state::State;

verus! {

/// Distinguishes different strategies to score a state. Every variant sums
/// a measure of the positive DNF and the same measure of the negative DNF.
#[derive(Debug, Clone, Copy, PartialEq, Eq, Structural)]
pub enum Regularizer {
    /// Only penalize the depth of the DNFs.
    Depth,
    /// Only penalize the length of the DNFs.
    Length,
    /// Penalize the sum of depth and length of the DNFs.
    DepthAndLength,
}

/// The score the given regularizer assigns to a state with positive DNF
/// `pos` and negative DNF `neg`, capped at the largest `u32` value.
pub open spec fn score_of(reg: Regularizer, pos: DnfModel, neg: DnfModel) -> nat {
    match reg {
        Regularizer::Depth => cap32(dnf_depth(pos) + dnf_depth(neg)),
        Regularizer::Length => cap32(dnf_len(pos) + dnf_len(neg)),
        Regularizer::DepthAndLength => cap32(
            dnf_len(pos) + dnf_depth(pos) + dnf_len(neg) + dnf_depth(neg),
        ),
    }
}

/// Adds two capped counts, saturating at the largest `u32` value.
fn sat_add(a: u32, b: u32) -> (r: u32)
    ensures
        r as nat == cap32(a as nat + b as nat),
{
    if a as u64 + b as u64 > u32::MAX as u64 {
        u32::MAX
    } else {
        a + b
    }
}

impl Regularizer {
    /// Returns the regularization value of the state according to the
    /// chosen strategy: the chosen measure of the positive DNF plus the
    /// same measure of the negative DNF, saturating at the largest `u32`
    /// value.
    pub fn regularize(&self, state: &State) -> (r: u32)
        requires
            state.wf(),
        ensures
            r as nat == score_of(*self, state@.0, state@.1),
    {
        let pos = state.positive();
        let neg = state.negative();
        match self {
            Regularizer::Depth => sat_add(pos.depth(), neg.depth()),
            Regularizer::Length => sat_add(pos.length(), neg.length()),
            Regularizer::DepthAndLength => {
                let p = sat_add(pos.length(), pos.depth());
                let n = sat_add(neg.length(), neg.depth());
                sat_add(p, n)
            },
        }
    }
}

} // verus!
