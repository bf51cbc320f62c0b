//! A verified local-search engine that learns a pair of complementary
//! boolean classifiers in disjunctive normal form (DNF): one formula that
//! should hold exactly on positively labelled samples and one that should
//! hold exactly on negatively labelled samples.
//!
//! The engine represents clauses as two parallel bit-vectors (presence and
//! polarity of each feature), collects them into clause-sets, and walks the
//! space of candidate formula pairs by removing literals, one step at a
//! time, under a feasibility predicate and a regularizer score.

pub mod sample;
pub mod literal;
pub mod error_kind;
pub mod clause;
pub mod dnf;
pub mod state;
pub mod regularizer;
pub mod neighbourhood;
pub mod runner;
pub mod laws;
mod shuffle;
