//! The translation of expressions.
pub mod collect;
pub mod forms;
pub mod lists;
pub mod logic;
pub mod meaning;
pub mod numbers;
pub mod parts;
pub mod relate;
pub mod walk;
