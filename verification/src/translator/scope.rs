//! What the translation of an expression reads, and what it leaves to do.
use vstd::prelude::*;

use crate::ast::cypher::{AggregateExpr, Expression, Pattern};
#[allow(unused_imports)]
use crate::ast::model as m;
use crate::names::NameMap;
use crate::sparql::algebra as sparql;
#[allow(unused_imports)]
use crate::sparql::model as g;
use crate::text::digits_u64;
#[allow(unused_imports)]
use crate::text::{dec, texts};

verus! {

/// A relationship that is bound to a variable: its ends, its type, and the
/// variables that stand for the type and for the statement where there are any.
#[derive(Debug)]
pub struct Edge {
    pub src: sparql::Term,
    pub pred: String,
    pub pred_var: Option<String>,
    pub dst: sparql::Term,
    pub reif_var: Option<String>,
    pub null_check_var: Option<String>,
}

impl View for Edge {
    type V = Edge;

    open spec fn view(&self) -> Edge {
        *self
    }
}

/// The variables of the entries of a map, by key.
#[derive(Debug)]
pub struct Entries {
    pub pairs: Vec<(String, String)>,
}

/// The model of a list of pairs of texts.
pub open spec fn pairs_of(s: Seq<(String, String)>) -> Seq<(Seq<char>, Seq<char>)> {
    Seq::new(s.len(), |i: int| (s[i].0@, s[i].1@))
}

impl View for Entries {
    type V = Seq<(Seq<char>, Seq<char>)>;

    open spec fn view(&self) -> Seq<(Seq<char>, Seq<char>)> {
        pairs_of(self.pairs@)
    }
}

/// An expression with its translation.
#[derive(Debug)]
pub struct Given {
    pub expression: Expression,
    pub result: sparql::Expr,
}

/// A path pattern with its triples, and the patterns of its longer parts.
#[derive(Debug)]
pub struct GivenPath {
    pub pattern: Pattern,
    pub triples: Vec<sparql::TriplePattern>,
    pub paths: Vec<sparql::GraphPattern>,
}

/// An aggregate with the variable that already holds it.
#[derive(Debug)]
pub struct GivenAggregate {
    pub aggregate: AggregateExpr,
    pub variable: String,
}

/// An expression with the number that is left of its value without the
/// fraction.
#[derive(Debug)]
pub struct GivenWhole {
    pub expression: Expression,
    pub value: usize,
}

/// What the variables of a query stand for.
#[derive(Debug)]
pub struct Scope {
    pub base_iri: String,
    pub rdf_star: bool,
    /// Whether the writes of the query have been carried out before it
    pub skip_write_clauses: bool,
    /// The relationships, by their variables
    pub edge_map: NameMap<Edge>,
    /// The variables of optional patterns
    pub nullable_vars: Vec<String>,
    /// The variables that are null
    pub null_vars: Vec<String>,
    pub node_vars: Vec<String>,
    /// The paths, by their variables, with the number of their steps
    pub path_hops: NameMap<u64>,
    /// The lists that `WITH` has bound, by their variables
    pub with_list_vars: NameMap<Expression>,
    /// The texts of the literals that `WITH` has bound, by their variables
    pub with_lit_vars: NameMap<String>,
    /// The variables that hold properties which `WITH` has projected, by the
    /// variable of the node and the key
    pub with_prop_subst: NameMap<NameMap<String>>,
    /// The variables that the aliases of `RETURN` stand for
    pub return_alias_subst: NameMap<String>,
    /// The variables of the entries of a map, by the variable of the map
    pub map_vars: NameMap<Entries>,
    /// The variables with a known integer value
    pub const_int_vars: NameMap<i64>,
    /// The properties of created nodes, by their variables
    pub node_props_from_create: NameMap<NameMap<Expression>>,
    /// The variables and keys of the properties that have been set
    pub set_tracked_vars: Vec<(String, String)>,
    /// The variables that hold the sort keys of lists
    pub list_sort_key_vars: NameMap<String>,
    /// The aggregates that have been computed
    pub agg_orderby_subst: Vec<GivenAggregate>,
    /// The translations of calls, and of arithmetic on dates, times and doubles
    pub given: Vec<Given>,
    /// The translations of paths
    pub given_paths: Vec<GivenPath>,
    /// The arguments of `toInteger` whose values are known, and not negative
    pub given_wholes: Vec<GivenWhole>,
}

/// Whether a scope knows of no variable, and nothing is given in it.
pub open spec fn knows_nothing(s: Scope) -> bool {
    &&& s.edge_map@ == Map::<Seq<char>, Edge>::empty()
    &&& s.nullable_vars@.len() == 0
    &&& s.null_vars@.len() == 0
    &&& s.node_vars@.len() == 0
    &&& s.path_hops@ == Map::<Seq<char>, u64>::empty()
    &&& s.with_list_vars@ == Map::<Seq<char>, m::Expression>::empty()
    &&& s.with_lit_vars@ == Map::<Seq<char>, Seq<char>>::empty()
    &&& s.with_prop_subst@ == Map::<Seq<char>, Map<Seq<char>, Seq<char>>>::empty()
    &&& s.return_alias_subst@ == Map::<Seq<char>, Seq<char>>::empty()
    &&& s.map_vars@ == Map::<Seq<char>, Seq<(Seq<char>, Seq<char>)>>::empty()
    &&& s.const_int_vars@ == Map::<Seq<char>, i64>::empty()
    &&& s.node_props_from_create@ == Map::<Seq<char>, Map<Seq<char>, m::Expression>>::empty()
    &&& s.set_tracked_vars@.len() == 0
    &&& s.list_sort_key_vars@ == Map::<Seq<char>, Seq<char>>::empty()
    &&& s.agg_orderby_subst@.len() == 0
    &&& s.given@.len() == 0
    &&& s.given_paths@.len() == 0
    &&& s.given_wholes@.len() == 0
}

impl Scope {
    /// A scope without variables.
    pub fn new(base_iri: String, rdf_star: bool) -> (s: Self)
        ensures
            s.base_iri@ == base_iri@,
            s.rdf_star == rdf_star,
            !s.skip_write_clauses,
            knows_nothing(s),
    {
        Scope {
            base_iri,
            rdf_star,
            skip_write_clauses: false,
            edge_map: NameMap::new(),
            nullable_vars: Vec::new(),
            null_vars: Vec::new(),
            node_vars: Vec::new(),
            path_hops: NameMap::new(),
            with_list_vars: NameMap::new(),
            with_lit_vars: NameMap::new(),
            with_prop_subst: NameMap::new(),
            return_alias_subst: NameMap::new(),
            map_vars: NameMap::new(),
            const_int_vars: NameMap::new(),
            node_props_from_create: NameMap::new(),
            set_tracked_vars: Vec::new(),
            list_sort_key_vars: NameMap::new(),
            agg_orderby_subst: Vec::new(),
            given: Vec::new(),
            given_paths: Vec::new(),
            given_wholes: Vec::new(),
        }
    }

    /// The IRI of a local name.
    pub fn iri(&self, local: &str) -> (r: String)
        ensures
            r@ == self.base_iri@ + local@,
    {
        self.base_iri.clone().concat(local)
    }
}

/// What has been left to do: bindings, aggregates and subqueries that the
/// pattern around an expression must make.
#[derive(Debug)]
pub struct Output {
    /// The number of the next fresh variable
    pub counter: u64,
    /// Values to bind before the next filter
    pub pending_bind_checks: Vec<sparql::Expr>,
    /// The variables that they are bound to
    pub pending_bind_targets: Vec<String>,
    pub pending_aggs: Vec<sparql::NamedAggregate>,
    /// Correlated subqueries, with the variables of their results
    pub pending_subqueries: Vec<(String, sparql::GraphPattern)>,
    /// Variables that must be bound before the pattern is used, with their values
    pub pending_pre_extends: Vec<(String, sparql::Expr)>,
}

/// The model of pending bindings.
pub open spec fn extends_of(s: Seq<(String, sparql::Expr)>) -> Seq<(Seq<char>, g::Expr)> {
    Seq::new(s.len(), |i: int| (s[i].0@, g::expr_of(s[i].1)))
}

/// The model of pending subqueries.
pub open spec fn subqueries_of(s: Seq<(String, sparql::GraphPattern)>) -> Seq<
    (Seq<char>, g::GraphPattern),
> {
    Seq::new(s.len(), |i: int| (s[i].0@, g::graph_pattern_of(s[i].1)))
}

/// The model of an [`Output`], with the triples of the pattern.
pub ghost struct Out {
    pub counter: int,
    pub checks: Seq<g::Expr>,
    pub targets: Seq<Seq<char>>,
    pub aggs: Seq<g::NamedAggregate>,
    pub subqueries: Seq<(Seq<char>, g::GraphPattern)>,
    pub extends: Seq<(Seq<char>, g::Expr)>,
    pub extra: Seq<g::TriplePattern>,
}

pub open spec fn out_of(o: Output, extra: Seq<sparql::TriplePattern>) -> Out {
    Out {
        counter: o.counter as int,
        checks: g::exprs_of(o.pending_bind_checks@),
        targets: texts(o.pending_bind_targets@),
        aggs: g::aggregates_of(o.pending_aggs@),
        subqueries: subqueries_of(o.pending_subqueries@),
        extends: extends_of(o.pending_pre_extends@),
        extra: g::triples_of(extra),
    }
}

/// The name of the fresh variable with the number.
pub open spec fn fresh_name(hint: Seq<char>, n: int) -> Seq<char> {
    "__"@ + hint + "_"@ + dec(n)
}

/// The number after a number; the last one stays.
pub open spec fn next_number(n: int) -> int {
    if n < u64::MAX {
        n + 1
    } else {
        n
    }
}

/// With the next number.
pub open spec fn bumped(o: Out) -> Out {
    Out { counter: next_number(o.counter), ..o }
}

/// With a triple more in the pattern.
pub open spec fn with_triple(o: Out, t: g::TriplePattern) -> Out {
    Out { extra: o.extra.push(t), ..o }
}

/// Whether no fresh variable has been made, and nothing is left to do.
pub open spec fn nothing_left(o: Output) -> bool {
    &&& o.counter == 0
    &&& o.pending_bind_checks@.len() == 0
    &&& o.pending_bind_targets@.len() == 0
    &&& o.pending_aggs@.len() == 0
    &&& o.pending_subqueries@.len() == 0
    &&& o.pending_pre_extends@.len() == 0
}

impl Output {
    pub fn new() -> (o: Self)
        ensures
            nothing_left(o),
    {
        Output {
            counter: 0,
            pending_bind_checks: Vec::new(),
            pending_bind_targets: Vec::new(),
            pending_aggs: Vec::new(),
            pending_subqueries: Vec::new(),
            pending_pre_extends: Vec::new(),
        }
    }

    /// A variable that no other has the name of, until the numbers run out.
    pub fn fresh_var(&mut self, hint: &str) -> (r: String)
        ensures
            r@ == fresh_name(hint@, old(self).counter as int),
            *final(self) == (Output {
                counter: next_number(old(self).counter as int) as u64,
                ..*old(self)
            }),
    {
        let n = self.counter;
        if n < u64::MAX {
            self.counter = n + 1;
        }
        "__".to_owned().concat(hint).concat("_").concat(digits_u64(n).as_str())
    }
}

pub fn push_triple(v: &mut Vec<sparql::TriplePattern>, t: sparql::TriplePattern)
    ensures
        g::triples_of(final(v)@) == g::triples_of(old(v)@).push(g::triple_pattern_of(t)),
{
    proof {
        g::lemma_push_triples(v@, t);
    }
    v.push(t);
}

} // verus!
