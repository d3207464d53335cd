//! The translation of Cypher to SPARQL.
pub mod ambiguity;
pub mod analysis;
pub mod compare;
pub mod constant;
pub mod count;
pub mod expr;
pub mod finish;
pub mod fold;
pub mod fold_quantifier;
pub mod formula;
pub mod ground;
pub mod isomorphism;
pub mod known;
pub mod laws;
pub mod quantifier;
pub mod query;
pub mod refusal;
pub mod resolve;
pub mod scope;
pub mod sort_key;
pub mod state;
pub mod subst;
pub mod temporal;
pub mod unwind;
pub mod unwind_keys;
pub mod variable;
