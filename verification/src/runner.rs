//! The search state machine: holds one state plus the strategy
//! configuration, advances one step at a time, and enforces feasibility and
//! the acceptance policy.

use vstd::prelude::*;
use crate::dnf::DnfModel;
use crate::neighbourhood::{
    NeighbourhoodGenerator,
    covers_state,
    is_child_state,
    lemma_covers_state_extend,
    surely_generates,
};
use crate::state::feasible_dnfs;
use crate::regularizer::{Regularizer, score_of};
use crate::sample::Sample;
use crate::state::State;

verus! {

/// Differentiates local search algorithms.
///
/// The stochastic variant accepts moves by a Bernoulli draw whose
/// probability comes from a floating-point logistic of the score
/// difference; that draw lives with the caller, which drives the scan
/// through [`AlgorithmRunner::stochastic_candidates`] and
/// [`AlgorithmRunner::stochastic_resolve`].
#[derive(Debug, Clone, Copy, PartialEq, Eq, Structural)]
pub enum Algorithm {
    /// Most basic hill climbing: accept the best feasible neighbour when
    /// it improves on the current state, else terminate.
    BasicHillClimber {
        /// Abort the algorithm after a maximum number of iterations.
        max_iterations: u32,
    },
    /// Stochastic hill climbing: scan the feasible neighbours and accept
    /// each with a probability driven by its score difference.
    StochasticHillClimber {
        /// Abort the algorithm after a maximum number of iterations.
        max_iterations: u32,
    },
}

/// Whether some configured generator can produce `child` from `parent`.
pub open spec fn neighbour_of(
    gens: Seq<NeighbourhoodGenerator>,
    parent: (DnfModel, DnfModel),
    child: (DnfModel, DnfModel),
    dim: nat,
) -> bool {
    exists|gi: int| 0 <= gi < gens.len() && is_child_state(#[trigger] gens[gi], parent, child, dim)
}

/// Whether some configured generator is certain to produce `child` from
/// `parent`: one of its edits, under a configuration that keeps the whole
/// neighbourhood rather than a random part of it.
pub open spec fn surely_generated_by(
    gens: Seq<NeighbourhoodGenerator>,
    parent: (DnfModel, DnfModel),
    child: (DnfModel, DnfModel),
    dim: nat,
) -> bool {
    exists|gi: int|
        0 <= gi < gens.len() && surely_generates(#[trigger] gens[gi], parent, child, dim)
}

/// The score the regularizer assigns to a state.
pub open spec fn state_score(reg: Regularizer, s: State) -> nat {
    score_of(reg, s@.0, s@.1)
}

/// Applies the configured algorithm to a state, with respect to the
/// samples, the neighbourhood generators and the regularizer.
///
/// The runner is a two-phase machine: it is running until a step finds no
/// acceptable move or exhausts the iteration budget, and terminated from
/// then on. A terminated runner never produces another state.
pub struct AlgorithmRunner {
    /// The algorithm to use.
    algorithm: Algorithm,
    /// The current state of the search.
    current_state: State,
    /// All samples for which the positive DNF must be exact.
    positive_samples: Vec<Sample>,
    /// All samples for which the negative DNF must be exact.
    negative_samples: Vec<Sample>,
    /// By which strategy (or strategies) to generate new neighbours.
    neighbourhood_generators: Vec<NeighbourhoodGenerator>,
    /// By which strategy to judge feasible solutions.
    regularizer: Regularizer,
    /// How many iterations of the algorithm have already elapsed.
    iterations: u32,
    /// Whether the search has reached its terminal state.
    terminated: bool,
}

impl AlgorithmRunner {
    /// The configured algorithm.
    pub closed spec fn algorithm_spec(self) -> Algorithm {
        self.algorithm
    }

    /// The current state of the search.
    pub closed spec fn current_spec(self) -> State {
        self.current_state
    }

    /// The positive samples the runner was built with.
    pub closed spec fn positive_samples_spec(self) -> Seq<Sample> {
        self.positive_samples@
    }

    /// The negative samples the runner was built with.
    pub closed spec fn negative_samples_spec(self) -> Seq<Sample> {
        self.negative_samples@
    }

    /// The configured neighbourhood generators.
    pub closed spec fn generators_spec(self) -> Seq<NeighbourhoodGenerator> {
        self.neighbourhood_generators@
    }

    /// The configured regularizer.
    pub closed spec fn regularizer_spec(self) -> Regularizer {
        self.regularizer
    }

    /// How many iterations have elapsed.
    pub closed spec fn iterations_spec(self) -> u32 {
        self.iterations
    }

    /// Whether the search has reached its terminal state.
    pub closed spec fn terminated_spec(self) -> bool {
        self.terminated
    }

    /// The dimension of the feature space the search runs over.
    pub open spec fn dim(self) -> nat {
        self.current_spec().dim()
    }

    /// The score of the current state under the configured regularizer.
    pub open spec fn current_score(self) -> nat {
        state_score(self.regularizer_spec(), self.current_spec())
    }

    /// The iteration budget the configured algorithm carries.
    pub open spec fn max_iterations_spec(self) -> u32 {
        match self.algorithm_spec() {
            Algorithm::BasicHillClimber { max_iterations } => max_iterations,
            Algorithm::StochasticHillClimber { max_iterations } => max_iterations,
        }
    }

    /// The representation invariant: the current state is well-formed and
    /// every sample ranges over its feature space.
    pub closed spec fn wf(self) -> bool {
        &&& self.current_state.wf()
        &&& forall|i: int|
            0 <= i < self.positive_samples@.len() ==> (#[trigger] self.positive_samples@[i]).dim()
                == self.current_state.dim()
        &&& forall|i: int|
            0 <= i < self.negative_samples@.len() ==> (#[trigger] self.negative_samples@[i]).dim()
                == self.current_state.dim()
    }

    /// Whether two runners carry the same configuration: the same
    /// algorithm, samples, generators and regularizer.
    pub open spec fn same_config(self, other: AlgorithmRunner) -> bool {
        &&& self.algorithm_spec() == other.algorithm_spec()
        &&& self.positive_samples_spec() == other.positive_samples_spec()
        &&& self.negative_samples_spec() == other.negative_samples_spec()
        &&& self.generators_spec() == other.generators_spec()
        &&& self.regularizer_spec() == other.regularizer_spec()
    }

    /// Creates a new algorithm runner in the running state, at iteration
    /// zero.
    pub fn new(
        algorithm: Algorithm,
        initial_state: State,
        positive_samples: Vec<Sample>,
        negative_samples: Vec<Sample>,
        neighbourhood_generators: Vec<NeighbourhoodGenerator>,
        regularizer: Regularizer,
    ) -> (r: Self)
        requires
            initial_state.wf(),
            forall|i: int|
                0 <= i < positive_samples@.len() ==> (#[trigger] positive_samples@[i]).dim()
                    == initial_state.dim(),
            forall|i: int|
                0 <= i < negative_samples@.len() ==> (#[trigger] negative_samples@[i]).dim()
                    == initial_state.dim(),
        ensures
            r.wf(),
            r.algorithm_spec() == algorithm,
            r.current_spec() == initial_state,
            r.positive_samples_spec() == positive_samples@,
            r.negative_samples_spec() == negative_samples@,
            r.generators_spec() == neighbourhood_generators@,
            r.regularizer_spec() == regularizer,
            r.iterations_spec() == 0,
            !r.terminated_spec(),
    {
        AlgorithmRunner {
            algorithm,
            current_state: initial_state,
            positive_samples,
            negative_samples,
            neighbourhood_generators,
            regularizer,
            iterations: 0,
            terminated: false,
        }
    }

    /// Returns the current iteration count of the algorithm.
    pub fn iteration(&self) -> (r: u32)
        ensures
            r == self.iterations_spec(),
    {
        self.iterations
    }

    /// Whether the search has reached its terminal state.
    pub fn is_terminated(&self) -> (r: bool)
        ensures
            r == self.terminated_spec(),
    {
        self.terminated
    }

    /// A reference to the current state of the search.
    pub fn current(&self) -> (r: &State)
        ensures
            r == self.current_spec(),
    {
        &self.current_state
    }

    /// A reference to the positive samples the runner was built with.
    pub fn positive_samples(&self) -> (r: &Vec<Sample>)
        ensures
            r@ == self.positive_samples_spec(),
    {
        &self.positive_samples
    }

    /// A reference to the negative samples the runner was built with.
    pub fn negative_samples(&self) -> (r: &Vec<Sample>)
        ensures
            r@ == self.negative_samples_spec(),
    {
        &self.negative_samples
    }

    /// The union of the candidate states from all configured generators
    /// applied to the current state.
    fn all_candidates(&self) -> (r: Vec<State>)
        requires
            self.wf(),
        ensures
            forall|k: int|
                0 <= k < r@.len() ==> (#[trigger] r@[k]).wf() && r@[k].dim() == self.dim()
                    && neighbour_of(
                    self.generators_spec(),
                    self.current_spec()@,
                    r@[k]@,
                    self.dim(),
                ),
            forall|child: (DnfModel, DnfModel)|
                #[trigger] surely_generated_by(
                    self.generators_spec(),
                    self.current_spec()@,
                    child,
                    self.dim(),
                ) ==> covers_state(r@, child),
    {
        let mut r: Vec<State> = Vec::new();
        let n = self.neighbourhood_generators.len();
        let mut gi: usize = 0;
        while gi < n
            invariant
                gi <= n,
                self.wf(),
                n == self.generators_spec().len(),
                forall|k: int|
                    0 <= k < r@.len() ==> (#[trigger] r@[k]).wf() && r@[k].dim() == self.dim()
                        && neighbour_of(
                        self.generators_spec(),
                        self.current_spec()@,
                        r@[k]@,
                        self.dim(),
                    ),
                forall|child: (DnfModel, DnfModel), gi2: int|
                    #![trigger surely_generates(self.generators_spec()[gi2], self.current_spec()@, child, self.dim())]
                    0 <= gi2 < gi && surely_generates(
                        self.generators_spec()[gi2],
                        self.current_spec()@,
                        child,
                        self.dim(),
                    ) ==> covers_state(r@, child),
            decreases n - gi,
        {
            let batch = self.neighbourhood_generators[gi].generate_neighbourhood(
                &self.current_state,
            );
            let m = batch.len();
            let ghost r_base = r@.len() as int;
            let mut bi: usize = 0;
            while bi < m
                invariant
                    bi <= m,
                    gi < n,
                    self.wf(),
                    n == self.generators_spec().len(),
                    m == batch@.len(),
                    forall|k: int|
                        0 <= k < batch@.len() ==> (#[trigger] batch@[k]).wf() && batch@[k].dim()
                            == self.dim() && is_child_state(
                            self.generators_spec()[gi as int],
                            self.current_spec()@,
                            batch@[k]@,
                            self.dim(),
                        ),
                    forall|k: int|
                        0 <= k < r@.len() ==> (#[trigger] r@[k]).wf() && r@[k].dim() == self.dim()
                            && neighbour_of(
                            self.generators_spec(),
                            self.current_spec()@,
                            r@[k]@,
                            self.dim(),
                        ),
                    forall|child: (DnfModel, DnfModel), gi2: int|
                        #![trigger surely_generates(self.generators_spec()[gi2], self.current_spec()@, child, self.dim())]
                        0 <= gi2 < gi && surely_generates(
                            self.generators_spec()[gi2],
                            self.current_spec()@,
                            child,
                            self.dim(),
                        ) ==> covers_state(r@, child),
                    forall|child: (DnfModel, DnfModel)|
                        #[trigger] surely_generates(
                            self.generators_spec()[gi as int],
                            self.current_spec()@,
                            child,
                            self.dim(),
                        ) ==> covers_state(batch@, child),
                    0 <= r_base,
                    r@.len() == r_base + bi,
                    forall|k: int| 0 <= k < bi ==> (#[trigger] r@[r_base + k])@ == batch@[k]@,
                decreases m - bi,
            {
                let ghost r_prev = r@;
                let c = batch[bi].clone();
                proof {
                    assert(is_child_state(
                        self.generators_spec()[gi as int],
                        self.current_spec()@,
                        c@,
                        self.dim(),
                    ));
                }
                r.push(c);
                proof {
                    assert(r@[r_base + bi as int] == c);
                    assert forall|k: int| 0 <= k < bi + 1 implies (#[trigger] r@[r_base + k])@
                        == batch@[k]@ by {
                        if k < bi {
                            assert(r@ == r_prev.push(c));
                            assert(0 <= r_base + k < r_prev.len());
                            assert(r_prev.push(c)[r_base + k] == r_prev[r_base + k]);
                        }
                    }
                    assert forall|child: (DnfModel, DnfModel), gi2: int|
                        #![trigger surely_generates(self.generators_spec()[gi2], self.current_spec()@, child, self.dim())]
                        0 <= gi2 < gi && surely_generates(
                            self.generators_spec()[gi2],
                            self.current_spec()@,
                            child,
                            self.dim(),
                        ) implies covers_state(r@, child) by {
                        lemma_covers_state_extend(r_prev, r@, child);
                    }
                }
                bi += 1;
            }
            proof {
                assert forall|child: (DnfModel, DnfModel), gi2: int|
                    #![trigger surely_generates(self.generators_spec()[gi2], self.current_spec()@, child, self.dim())]
                    0 <= gi2 < gi + 1 && surely_generates(
                        self.generators_spec()[gi2],
                        self.current_spec()@,
                        child,
                        self.dim(),
                    ) implies covers_state(r@, child) by {
                    if gi2 == gi as int {
                        assert(covers_state(batch@, child));
                        let k = choose|k: int| 0 <= k < batch@.len() && batch@[k]@ == child;
                        assert(r@[r_base + k]@ == child);
                    }
                }
            }
            gi += 1;
        }
        r
    }

    /// Performs one step of the basic hill climber and returns the state
    /// afterwards, or nothing when the algorithm has terminated.
    ///
    /// While a state comes back, its score never exceeds the previous
    /// state's score: an accepted move is a feasible neighbour that
    /// strictly improves the score. Once nothing comes back, the runner is
    /// terminated and every further call returns nothing.
    ///
    /// Candidates are scanned in enumeration order (positive DNF first,
    /// then negative, clauses in order, features ascending); among equally
    /// minimal feasible candidates the first one scanned wins, so the
    /// tie-break is deterministic unless a generator shuffles.
    pub fn step(&mut self) -> (r: Option<State>)
        requires
            old(self).wf(),
            old(self).algorithm_spec() is BasicHillClimber,
        ensures
            final(self).wf(),
            final(self).same_config(*old(self)),
            final(self).dim() == old(self).dim(),
            (r is None) == final(self).terminated_spec(),
            old(self).terminated_spec() ==> r is None,
            old(self).iterations_spec() >= old(self).max_iterations_spec() ==> r is None,
            r is None ==> final(self).current_spec() == old(self).current_spec()
                && final(self).iterations_spec() == old(self).iterations_spec(),
            r matches Some(s) ==> {
                &&& s@ == final(self).current_spec()@
                &&& s.wf()
                &&& final(self).iterations_spec() == old(self).iterations_spec() + 1
                &&& state_score(old(self).regularizer_spec(), s) < old(self).current_score()
                &&& s.feasible(
                    old(self).positive_samples_spec(),
                    old(self).negative_samples_spec(),
                )
                &&& neighbour_of(
                    old(self).generators_spec(),
                    old(self).current_spec()@,
                    s@,
                    old(self).dim(),
                )
            },
            // An accepted move is minimal: no certainly-generated feasible
            // neighbour scores below it.
            r matches Some(s) ==> forall|child: (DnfModel, DnfModel)|
                #[trigger] surely_generated_by(
                    old(self).generators_spec(),
                    old(self).current_spec()@,
                    child,
                    old(self).dim(),
                ) && feasible_dnfs(
                    child.0,
                    child.1,
                    old(self).positive_samples_spec(),
                    old(self).negative_samples_spec(),
                ) ==> score_of(old(self).regularizer_spec(), child.0, child.1) >= state_score(
                    old(self).regularizer_spec(),
                    s,
                ),
            // Success is owed: inside the iteration budget, the step only
            // refuses a move when no certainly-generated feasible
            // neighbour improves on the current score.
            (r is None && !old(self).terminated_spec() && old(self).iterations_spec() < old(
                self,
            ).max_iterations_spec()) ==> forall|child: (DnfModel, DnfModel)|
                #[trigger] surely_generated_by(
                    old(self).generators_spec(),
                    old(self).current_spec()@,
                    child,
                    old(self).dim(),
                ) && feasible_dnfs(
                    child.0,
                    child.1,
                    old(self).positive_samples_spec(),
                    old(self).negative_samples_spec(),
                ) ==> score_of(old(self).regularizer_spec(), child.0, child.1) >= old(
                    self,
                ).current_score(),
    {
        if self.terminated {
            return None;
        }
        let max_iterations = match self.algorithm {
            Algorithm::BasicHillClimber { max_iterations } => max_iterations,
            Algorithm::StochasticHillClimber { max_iterations } => max_iterations,
        };
        if self.iterations >= max_iterations {
            self.terminated = true;
            return None;
        }
        let candidates = self.all_candidates();
        let nc = candidates.len();
        let mut best: Option<State> = None;
        let mut i: usize = 0;
        while i < nc
            invariant
                i <= nc,
                *self == *old(self),
                self.wf(),
                nc == candidates@.len(),
                forall|k: int|
                    0 <= k < candidates@.len() ==> (#[trigger] candidates@[k]).wf()
                        && candidates@[k].dim() == self.dim() && neighbour_of(
                        self.generators_spec(),
                        self.current_spec()@,
                        candidates@[k]@,
                        self.dim(),
                    ),
                best matches Some(b) ==> b.wf() && b.dim() == self.dim() && b.feasible(
                    self.positive_samples_spec(),
                    self.negative_samples_spec(),
                ) && neighbour_of(
                    self.generators_spec(),
                    self.current_spec()@,
                    b@,
                    self.dim(),
                ),
                best is None ==> forall|k: int|
                    0 <= k < i ==> !(#[trigger] candidates@[k]).feasible(
                        self.positive_samples_spec(),
                        self.negative_samples_spec(),
                    ),
                best matches Some(b) ==> forall|k: int|
                    0 <= k < i ==> ((#[trigger] candidates@[k]).feasible(
                        self.positive_samples_spec(),
                        self.negative_samples_spec(),
                    ) ==> state_score(self.regularizer_spec(), candidates@[k]) >= state_score(
                        self.regularizer_spec(),
                        b,
                    )),
            decreases nc - i,
        {
            let c = &candidates[i];
            if c.is_feasible(&self.positive_samples, &self.negative_samples) {
                let replace = match &best {
                    None => true,
                    Some(b) => self.regularizer.regularize(c) < self.regularizer.regularize(b),
                };
                if replace {
                    best = Some(c.clone());
                }
            }
            i += 1;
        }
        match best {
            Some(b) => {
                let improved = self.regularizer.regularize(&b) < self.regularizer.regularize(
                    &self.current_state,
                );
                if improved {
                    proof {
                        assert forall|child: (DnfModel, DnfModel)|
                            #[trigger] surely_generated_by(
                                self.generators_spec(),
                                self.current_spec()@,
                                child,
                                self.dim(),
                            ) && feasible_dnfs(
                                child.0,
                                child.1,
                                self.positive_samples_spec(),
                                self.negative_samples_spec(),
                            ) implies score_of(self.regularizer_spec(), child.0, child.1)
                            >= state_score(self.regularizer_spec(), b) by {
                            assert(covers_state(candidates@, child));
                            let k = choose|k: int|
                                0 <= k < candidates@.len() && (#[trigger] candidates@[k])@
                                    == child;
                            assert(candidates@[k].feasible(
                                self.positive_samples_spec(),
                                self.negative_samples_spec(),
                            ));
                            assert(state_score(self.regularizer_spec(), candidates@[k])
                                >= state_score(self.regularizer_spec(), b));
                            assert(state_score(self.regularizer_spec(), candidates@[k])
                                == score_of(self.regularizer_spec(), child.0, child.1));
                        }
                    }
                    self.current_state = b;
                    self.iterations = self.iterations + 1;
                    Some(self.current_state.clone())
                } else {
                    proof {
                        assert forall|child: (DnfModel, DnfModel)|
                            #[trigger] surely_generated_by(
                                self.generators_spec(),
                                self.current_spec()@,
                                child,
                                self.dim(),
                            ) && feasible_dnfs(
                                child.0,
                                child.1,
                                self.positive_samples_spec(),
                                self.negative_samples_spec(),
                            ) implies score_of(self.regularizer_spec(), child.0, child.1)
                            >= self.current_score() by {
                            assert(covers_state(candidates@, child));
                            let k = choose|k: int|
                                0 <= k < candidates@.len() && (#[trigger] candidates@[k])@
                                    == child;
                            assert(candidates@[k].feasible(
                                self.positive_samples_spec(),
                                self.negative_samples_spec(),
                            ));
                            assert(state_score(self.regularizer_spec(), candidates@[k])
                                >= state_score(self.regularizer_spec(), b));
                            assert(state_score(self.regularizer_spec(), candidates@[k])
                                == score_of(self.regularizer_spec(), child.0, child.1));
                        }
                    }
                    self.terminated = true;
                    None
                }
            },
            None => {
                proof {
                    assert forall|child: (DnfModel, DnfModel)|
                        #[trigger] surely_generated_by(
                            self.generators_spec(),
                            self.current_spec()@,
                            child,
                            self.dim(),
                        ) && feasible_dnfs(
                            child.0,
                            child.1,
                            self.positive_samples_spec(),
                            self.negative_samples_spec(),
                        ) implies score_of(self.regularizer_spec(), child.0, child.1)
                        >= self.current_score() by {
                        assert(covers_state(candidates@, child));
                        let k = choose|k: int|
                            0 <= k < candidates@.len() && (#[trigger] candidates@[k])@ == child;
                        assert(!candidates@[k].feasible(
                            self.positive_samples_spec(),
                            self.negative_samples_spec(),
                        ));
                        assert(false);
                    }
                }
                self.terminated = true;
                None
            },
        }
    }

    /// Begins one step of the stochastic hill climber: checks the
    /// iteration budget and returns the feasible neighbourhood of the
    /// current state, or nothing when the algorithm has terminated.
    ///
    /// The caller scans the candidates in order, draws the acceptance of
    /// each, and finishes the step through
    /// [`AlgorithmRunner::stochastic_resolve`].
    pub fn stochastic_candidates(&mut self) -> (r: Option<Vec<State>>)
        requires
            old(self).wf(),
            old(self).algorithm_spec() is StochasticHillClimber,
        ensures
            final(self).wf(),
            final(self).same_config(*old(self)),
            final(self).current_spec() == old(self).current_spec(),
            final(self).iterations_spec() == old(self).iterations_spec(),
            (r is None) == final(self).terminated_spec(),
            final(self).terminated_spec() == (old(self).terminated_spec() || old(
                self,
            ).iterations_spec() > old(self).max_iterations_spec()),
            r matches Some(cands) ==> forall|k: int|
                0 <= k < cands@.len() ==> (#[trigger] cands@[k]).wf() && cands@[k].dim()
                    == old(self).dim() && cands@[k].feasible(
                    old(self).positive_samples_spec(),
                    old(self).negative_samples_spec(),
                ) && neighbour_of(
                    old(self).generators_spec(),
                    old(self).current_spec()@,
                    cands@[k]@,
                    old(self).dim(),
                ),
            // The scan is complete: every certainly-generated feasible
            // neighbour is among the returned candidates.
            r matches Some(cands) ==> forall|child: (DnfModel, DnfModel)|
                #[trigger] surely_generated_by(
                    old(self).generators_spec(),
                    old(self).current_spec()@,
                    child,
                    old(self).dim(),
                ) && feasible_dnfs(
                    child.0,
                    child.1,
                    old(self).positive_samples_spec(),
                    old(self).negative_samples_spec(),
                ) ==> covers_state(cands@, child),
    {
        if self.terminated {
            return None;
        }
        let max_iterations = match self.algorithm {
            Algorithm::BasicHillClimber { max_iterations } => max_iterations,
            Algorithm::StochasticHillClimber { max_iterations } => max_iterations,
        };
        if self.iterations > max_iterations {
            self.terminated = true;
            return None;
        }
        let candidates = self.all_candidates();
        let nc = candidates.len();
        let mut feasible: Vec<State> = Vec::new();
        let mut i: usize = 0;
        while i < nc
            invariant
                i <= nc,
                *self == *old(self),
                self.wf(),
                nc == candidates@.len(),
                forall|k: int|
                    0 <= k < candidates@.len() ==> (#[trigger] candidates@[k]).wf()
                        && candidates@[k].dim() == self.dim() && neighbour_of(
                        self.generators_spec(),
                        self.current_spec()@,
                        candidates@[k]@,
                        self.dim(),
                    ),
                forall|k: int|
                    0 <= k < feasible@.len() ==> (#[trigger] feasible@[k]).wf()
                        && feasible@[k].dim() == self.dim() && feasible@[k].feasible(
                        self.positive_samples_spec(),
                        self.negative_samples_spec(),
                    ) && neighbour_of(
                        self.generators_spec(),
                        self.current_spec()@,
                        feasible@[k]@,
                        self.dim(),
                    ),
                forall|k: int|
                    0 <= k < i ==> ((#[trigger] candidates@[k]).feasible(
                        self.positive_samples_spec(),
                        self.negative_samples_spec(),
                    ) ==> covers_state(feasible@, candidates@[k]@)),
            decreases nc - i,
        {
            let ghost feasible_prev = feasible@;
            let c = &candidates[i];
            if c.is_feasible(&self.positive_samples, &self.negative_samples) {
                feasible.push(c.clone());
            }
            proof {
                assert forall|k: int|
                    0 <= k < i + 1 && (#[trigger] candidates@[k]).feasible(
                        self.positive_samples_spec(),
                        self.negative_samples_spec(),
                    ) implies covers_state(feasible@, candidates@[k]@) by {
                    if k < i {
                        lemma_covers_state_extend(feasible_prev, feasible@, candidates@[k]@);
                    } else {
                        assert(feasible@[feasible@.len() - 1]@ == candidates@[k]@);
                    }
                }
            }
            i += 1;
        }
        proof {
            assert forall|child: (DnfModel, DnfModel)|
                #[trigger] surely_generated_by(
                    self.generators_spec(),
                    self.current_spec()@,
                    child,
                    self.dim(),
                ) && feasible_dnfs(
                    child.0,
                    child.1,
                    self.positive_samples_spec(),
                    self.negative_samples_spec(),
                ) implies covers_state(feasible@, child) by {
                assert(covers_state(candidates@, child));
                let k = choose|k: int|
                    0 <= k < candidates@.len() && (#[trigger] candidates@[k])@ == child;
                assert(candidates@[k].feasible(
                    self.positive_samples_spec(),
                    self.negative_samples_spec(),
                ));
                assert(covers_state(feasible@, candidates@[k]@));
            }
        }
        Some(feasible)
    }

    /// Finishes one step of the stochastic hill climber: installs the
    /// accepted candidate, if any, counts the iteration, and returns the
    /// (possibly unchanged) current state. Non-acceptance within one step
    /// is normal continuation, not an error.
    pub fn stochastic_resolve(&mut self, accepted: Option<State>) -> (r: State)
        requires
            old(self).wf(),
            !old(self).terminated_spec(),
            old(self).algorithm_spec() is StochasticHillClimber,
            accepted matches Some(s) ==> s.wf() && s.dim() == old(self).dim() && s.feasible(
                old(self).positive_samples_spec(),
                old(self).negative_samples_spec(),
            ) && neighbour_of(
                old(self).generators_spec(),
                old(self).current_spec()@,
                s@,
                old(self).dim(),
            ),
        ensures
            final(self).wf(),
            final(self).same_config(*old(self)),
            !final(self).terminated_spec(),
            final(self).iterations_spec() as int == if old(self).iterations_spec() < u32::MAX {
                old(self).iterations_spec() + 1
            } else {
                u32::MAX as int
            },
            accepted matches Some(s) ==> final(self).current_spec() == s,
            accepted is None ==> final(self).current_spec() == old(self).current_spec(),
            r@ == final(self).current_spec()@,
            r.wf(),
    {
        match accepted {
            Some(s) => {
                self.current_state = s;
            },
            None => {},
        }
        if self.iterations < u32::MAX {
            self.iterations = self.iterations + 1;
        }
        self.current_state.clone()
    }
}

} // verus!
