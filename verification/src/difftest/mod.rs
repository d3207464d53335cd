//! Runs of queries against a store, and what is reported of them.
pub mod laws;
pub mod report;
pub mod run;
pub mod store;
pub mod value;
