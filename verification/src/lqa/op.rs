//! Operators of the logical query algebra.
use vstd::prelude::*;

use crate::lqa::expr::Expr;

verus! {

#[derive(Clone, Copy, Debug, PartialEq, Eq, Structural)]
pub enum Direction {
    Outgoing,
    Incoming,
    Undirected,
}

/// The number of hops of a variable-length relationship.
#[derive(Clone, Copy, Debug, PartialEq, Eq, Structural)]
pub struct PathRange {
    pub lower: u64,
    pub upper: Option<u64>,
}

/// An expression and the name it is projected under.
#[derive(Debug)]
pub struct ProjItem {
    pub expr: Expr,
    pub alias: String,
}

#[derive(Debug)]
pub struct SortKey {
    pub expr: Expr,
    pub descending: bool,
}

/// A node that a CREATE makes.
#[derive(Debug)]
pub struct CreateNode {
    pub variable: Option<String>,
    pub labels: Vec<String>,
    pub properties: Vec<(String, Expr)>,
}

/// A relationship that a CREATE makes.
#[derive(Debug)]
pub struct CreateEdge {
    pub from: String,
    pub to: String,
    pub rel_type: String,
    pub direction: Direction,
    pub properties: Vec<(String, Expr)>,
}

#[derive(Debug)]
pub enum SetItem {
    /// `SET n.key = value`
    Property { variable: String, key: String, value: Expr },
    /// `SET n:A:B`
    Label { variable: String, labels: Vec<String> },
    /// `SET n += map`
    MergeMap { variable: String, map: Expr },
    /// `SET n = value`
    Replace { variable: String, value: Expr },
}

#[derive(Debug)]
pub enum RemoveItem {
    /// `REMOVE n.key`
    Property { variable: String, key: String },
    /// `REMOVE n:A:B`
    Label { variable: String, labels: Vec<String> },
}

/// `MERGE pattern ON MATCH SET … ON CREATE SET …`
#[derive(Debug)]
pub struct MergeClause {
    pub pattern: Box<Op>,
    pub on_match: Vec<SetItem>,
    pub on_create: Vec<SetItem>,
}

#[allow(inconsistent_fields)]
#[derive(Debug)]
pub enum Op {
    Unit,
    Scan { variable: String, label: Option<String>, extra_labels: Vec<String> },
    Values { bindings: Vec<(String, Expr)> },
    Selection { inner: Box<Op>, predicate: Expr },
    Expand {
        inner: Box<Op>,
        from: String,
        rel_var: Option<String>,
        to: String,
        rel_types: Vec<String>,
        direction: Direction,
        range: Option<PathRange>,
        path_var: Option<String>,
    },
    CartesianProduct { left: Box<Op>, right: Box<Op> },
    Union { left: Box<Op>, right: Box<Op> },
    UnionAll { left: Box<Op>, right: Box<Op> },
    LeftOuterJoin { left: Box<Op>, right: Box<Op>, condition: Option<Expr> },
    Subquery { outer: Box<Op>, inner: Box<Op> },
    OrderBy { inner: Box<Op>, keys: Vec<SortKey> },
    Distinct { inner: Box<Op> },
    GroupBy { inner: Box<Op>, group_keys: Vec<ProjItem>, agg_items: Vec<ProjItem> },
    Projection { inner: Box<Op>, items: Vec<ProjItem>, distinct: bool },
    Limit { inner: Box<Op>, count: Expr },
    Skip { inner: Box<Op>, count: Expr },
    Unwind { inner: Box<Op>, variable: String, list: Expr },
    Create { inner: Box<Op>, nodes: Vec<CreateNode>, edges: Vec<CreateEdge> },
    SetItems { inner: Box<Op>, items: Vec<SetItem> },
    Delete { inner: Box<Op>, detach: bool, exprs: Vec<Expr> },
    Remove { inner: Box<Op>, items: Vec<RemoveItem> },
    Merge { inner: Box<Op>, clause: MergeClause },
    Call { inner: Box<Op>, procedure: String, args: Vec<Expr> },
    Foreach { inner: Box<Op>, variable: String, list: Expr },
}

} // verus!
