//! What the translator keeps while it walks through a query.
use vstd::prelude::*;

use crate::ast::cypher::{Expression, ReturnItem};
#[allow(unused_imports)]
use crate::ast::model as m;
use crate::names::NameMap;
use crate::sparql::algebra as sparql;
#[allow(unused_imports)]
use crate::text::{lists, texts};
use crate::text::list_has;
#[allow(unused_imports)]
use crate::translator::scope::{knows_nothing, nothing_left};
use crate::translator::scope::{Edge, Output, Scope};

verus! {

/// What a column of the result holds.
#[allow(inconsistent_fields)]
#[derive(Debug, PartialEq)]
pub enum ColumnKind {
    Node { iri_var: String },
    Relationship { src_var: String, dst_var: String, type_info: String },
    Scalar { var: String },
}

/// A column of the result.
#[derive(Debug, PartialEq)]
pub struct ProjectedColumn {
    pub name: String,
    pub kind: ColumnKind,
}

/// The columns of the result, and how they were asked for.
#[derive(Debug, PartialEq)]
pub struct ProjectionSchema {
    pub columns: Vec<ProjectedColumn>,
    pub distinct: bool,
    pub base_iri: String,
    pub rdf_star: bool,
}

/// The model of a [`ColumnKind`].
pub ghost enum Kind {
    Node(Seq<char>),
    Relationship(Seq<char>, Seq<char>, Seq<char>),
    Scalar(Seq<char>),
}

pub open spec fn kind_of(k: ColumnKind) -> Kind {
    match k {
        ColumnKind::Node { iri_var } => Kind::Node(iri_var@),
        ColumnKind::Relationship { src_var, dst_var, type_info } => Kind::Relationship(
            src_var@,
            dst_var@,
            type_info@,
        ),
        ColumnKind::Scalar { var } => Kind::Scalar(var@),
    }
}

/// The model of a list of columns: their names and kinds.
pub open spec fn columns_of(s: Seq<ProjectedColumn>) -> Seq<(Seq<char>, Kind)> {
    Seq::new(s.len(), |i: int| (s[i].name@, kind_of(s[i].kind)))
}

pub proof fn lemma_push_columns(s: Seq<ProjectedColumn>, c: ProjectedColumn)
    ensures
        columns_of(s.push(c)) == columns_of(s).push((c.name@, kind_of(c.kind))),
{
    assert(columns_of(s.push(c)) =~= columns_of(s).push((c.name@, kind_of(c.kind))));
}

/// A column that holds the values of the variable of its name.
pub open spec fn scalar_column(name: Seq<char>) -> (Seq<char>, Kind) {
    (name, Kind::Scalar(name))
}

pub fn push_scalar_column(columns: &mut Vec<ProjectedColumn>, name: &String)
    ensures
        columns_of(final(columns)@) == columns_of(old(columns)@).push(scalar_column(name@)),
{
    let c = ProjectedColumn {
        name: name.clone(),
        kind: ColumnKind::Scalar { var: name.clone() },
    };
    proof {
        lemma_push_columns(columns@, c);
    }
    columns.push(c);
}

/// The state of a translation.
#[derive(Debug)]
pub struct TranslationState {
    pub scope: Scope,
    pub out: Output,
    pub projected_columns: Vec<ProjectedColumn>,
    pub return_distinct: bool,
    /// Variables that are unwound from lists with null among the elements
    pub unwind_null_vars: Vec<String>,
    /// Those of them with other elements too
    pub unwind_mixed_null_vars: Vec<String>,
    /// The list that a variable was unwound from
    pub unwind_list_source: NameMap<Expression>,
    /// For each relationship of the pattern, the triples that it may stand for
    pub iso_hops: Vec<Vec<(sparql::Term, sparql::Predicate, sparql::Term)>>,
}

/// Whether a state has no columns, and has noted nothing of a variable.
pub open spec fn nothing_noted(s: TranslationState) -> bool {
    &&& !s.return_distinct
    &&& s.projected_columns@.len() == 0
    &&& s.unwind_null_vars@.len() == 0
    &&& s.unwind_mixed_null_vars@.len() == 0
    &&& s.unwind_list_source@ == Map::<Seq<char>, m::Expression>::empty()
    &&& s.iso_hops@.len() == 0
}

impl TranslationState {
    pub fn new(base_iri: String, rdf_star: bool) -> (s: Self)
        ensures
            s.scope.base_iri@ == base_iri@,
            s.scope.rdf_star == rdf_star,
            !s.scope.skip_write_clauses,
            knows_nothing(s.scope),
            nothing_left(s.out),
            nothing_noted(s),
    {
        TranslationState {
            scope: Scope::new(base_iri, rdf_star),
            out: Output::new(),
            projected_columns: Vec::new(),
            return_distinct: false,
            unwind_null_vars: Vec::new(),
            unwind_mixed_null_vars: Vec::new(),
            unwind_list_source: NameMap::new(),
            iso_hops: Vec::new(),
        }
    }
}

/// What a returned item gives: a node, a relationship, or a value.
pub open spec fn item_kind(
    e: Expression,
    var: Seq<char>,
    nodes: Seq<Seq<char>>,
    edges: Map<Seq<char>, Edge>,
) -> Kind {
    match e {
        Expression::Variable(name) => if lists(nodes, name@) {
            Kind::Node(name@)
        } else if edges.contains_key(name@) {
            Kind::Relationship(
                end_name(edges[name@].src),
                end_name(edges[name@].dst),
                edges[name@].pred@,
            )
        } else {
            Kind::Scalar(var)
        },
        _ => Kind::Scalar(var),
    }
}

/// The variable at an end of a relationship; empty where there is none.
pub open spec fn end_name(t: sparql::Term) -> Seq<char> {
    match t {
        sparql::Term::Variable(v) => v@,
        _ => seq![],
    }
}

fn variable_at(t: &sparql::Term) -> (r: String)
    ensures
        r@ == end_name(*t),
{
    match t {
        sparql::Term::Variable(v) => v.clone(),
        _ => String::new(),
    }
}

fn clone_column(c: &ProjectedColumn) -> (r: ProjectedColumn)
    ensures
        r.name@ == c.name@,
        kind_of(r.kind) == kind_of(c.kind),
{
    let kind = match &c.kind {
        ColumnKind::Node { iri_var } => ColumnKind::Node { iri_var: iri_var.clone() },
        ColumnKind::Relationship { src_var, dst_var, type_info } => ColumnKind::Relationship {
            src_var: src_var.clone(),
            dst_var: dst_var.clone(),
            type_info: type_info.clone(),
        },
        ColumnKind::Scalar { var } => ColumnKind::Scalar { var: var.clone() },
    };
    ProjectedColumn { name: c.name.clone(), kind }
}

impl TranslationState {
    /// Whether a returned item is a node, a relationship or a value.
    pub fn classify_return_item(&self, item: &ReturnItem, sparql_var: &String) -> (r: ColumnKind)
        ensures
            kind_of(r) == item_kind(
                item.expression,
                sparql_var@,
                texts(self.scope.node_vars@),
                self.scope.edge_map@,
            ),
    {
        if let Expression::Variable(name) = &item.expression {
            if list_has(&self.scope.node_vars, name.as_str()) {
                return ColumnKind::Node { iri_var: name.clone() };
            }
            if let Some(edge) = self.scope.edge_map.get(name.as_str()) {
                return ColumnKind::Relationship {
                    src_var: variable_at(&edge.src),
                    dst_var: variable_at(&edge.dst),
                    type_info: edge.pred.clone(),
                };
            }
        }
        ColumnKind::Scalar { var: sparql_var.clone() }
    }

    /// The schema of the columns that `RETURN` has left.
    pub fn build_schema(&self, base_iri: String, rdf_star: bool) -> (r: ProjectionSchema)
        ensures
            columns_of(r.columns@) == columns_of(self.projected_columns@),
            r.distinct == self.return_distinct,
            r.base_iri@ == base_iri@,
            r.rdf_star == rdf_star,
    {
        let mut columns: Vec<ProjectedColumn> = Vec::new();
        #[verifier::loop_isolation(false)]
        for i in 0..self.projected_columns.len()
            invariant
                columns@.len() == i,
                forall|k: int|
                    0 <= k < i ==> (#[trigger] columns@[k]).name@
                        == self.projected_columns@[k].name@ && kind_of(columns@[k].kind)
                        == kind_of(self.projected_columns@[k].kind),
        {
            let c = clone_column(&self.projected_columns[i]);
            columns.push(c);
        }
        assert(columns_of(columns@) =~= columns_of(self.projected_columns@));
        ProjectionSchema { columns, distinct: self.return_distinct, base_iri, rdf_star }
    }
}

} // verus!
