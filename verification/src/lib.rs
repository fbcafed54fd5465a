//! An interactive natural-deduction proof document: a tree of premises and
//! justified inference steps organized into nested sub-proofs, addressed by
//! stable references, edited through structural mutations that keep the
//! document well formed, and re-checked line by line against a rule catalogue.

pub mod actions;
pub mod checker;
pub mod document;
pub mod edits;
pub mod expr;
pub mod index;
pub mod laws;
pub mod mutate;
pub mod refs;
pub mod removal;
pub mod rules;
pub mod scope;
pub mod seq_facts;
