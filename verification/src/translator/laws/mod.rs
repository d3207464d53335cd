//! What holds of every translation.
pub mod calendar;
pub mod constants;
pub mod dates;
pub mod depth;
pub mod filters;
pub mod fresh;
pub mod growth;
pub mod lists;
pub mod order;
pub mod properties;
pub mod quantifiers;
pub mod rows;
pub mod solutions;
pub mod sort_keys;
pub mod union;
pub mod values;
