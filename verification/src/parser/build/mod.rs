//! From parse trees to syntax.
pub mod atom;
pub mod clause;
pub mod compare;
pub mod compound;
pub mod expr;
pub mod names;
pub mod postfix;
pub mod views;
