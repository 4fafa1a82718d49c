//! First-order logic: a semantic graph of predicates that can be composed with
//! logical connectives, receive assertions, and answer three-valued queries.
//!
//! Nodes live in a [`PredicateGraph`] arena and refer to each other by
//! position. Every query carries a [`GraphTraversalSignature`], the tokens of
//! the connectives it has crossed, so that the cycles between a connective
//! and its operands are traversed at most once per token.

mod arena;
mod arguments;
pub mod assertions;
mod connectives;
mod elements;
mod evidence;
mod graph;
mod laws;
pub mod syntax;
mod truth;

pub use arena::{extends, lemma_fits_grow};
pub use arguments::{ArgumentMap, Arguments};
pub use assertions::{
    has_counterexample, implication_built, known_everywhere, true_for_outcome, undetermined_among,
    universal_outcome,
};
pub use connectives::{connective_requires, negation_built, operands_linked};
pub use elements::{lemma_set_algebra, member, ElementQuantifier, ElementSet, ElementSetModel};
pub use evidence::{all_width, cross, lift_all, project_all};
pub use graph::{
    Conjunction, Disjunction, GraphTraversalSignature, IsConjunctionPart, IsDisjunctionPart,
    IsNegated, LinkedPredicate, Negation, Predicate, PredicateGraph, PredicateNode,
    TrueForArguments, Undetermined, UniversallyObeyed,
};
pub use laws::{
    is_identity, law_assertion_adds_only_new_tuples, law_conjunction_answers_and,
    law_disjunction_answers_or,
    law_negation_answers_opposite, law_repeated_assertion,
};
pub use truth::{and_spec, not_spec, or_spec, AssertionResponse, TruthValue};
