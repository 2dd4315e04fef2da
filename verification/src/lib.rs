//! A poker decision aid: a hand-strength evaluator for five-to-seven card
//! hands, and a resolver that walks a solved game-tree document to find the
//! strategy a solver recommends for a given two-card hand on each street.

pub mod cards;
pub mod evaluator;
pub mod normalize;
pub mod range;
pub mod tree;
