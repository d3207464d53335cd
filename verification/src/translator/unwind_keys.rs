//! `UNWIND keys(x)`: one row for each property of a node or a relationship.
use vstd::prelude::*;

use crate::lqa::write::literals::{RDF_TYPE, XSD_INTEGER};
use crate::sparql::algebra as sparql;
use crate::sparql::algebra::Function;
use crate::sparql::copy::clone_term;
#[allow(unused_imports)]
use crate::sparql::model as g;
use crate::text::{digits_u128, list_has, utf8_len};
#[allow(unused_imports)]
use crate::text::{byte_len, dec, lists, texts};
use crate::translator::formula::{make_call1, make_call2, make_quoted};
#[allow(unused_imports)]
use crate::translator::formula::{call1, call2, quoted};
use crate::translator::ground::typed_literal;
#[allow(unused_imports)]
use crate::translator::ground::typed;
use crate::translator::scope::{push_triple, Edge, Output};
#[allow(unused_imports)]
use crate::translator::scope::fresh_name;
use crate::translator::state::TranslationState;

verus! {

pub const RDF_REIFIES: &'static str = "http://www.w3.org/1999/02/22-rdf-syntax-ns#reifies";

pub const RDF_SUBJECT: &'static str = "http://www.w3.org/1999/02/22-rdf-syntax-ns#subject";

pub const RDF_PREDICATE: &'static str = "http://www.w3.org/1999/02/22-rdf-syntax-ns#predicate";

pub const RDF_OBJECT: &'static str = "http://www.w3.org/1999/02/22-rdf-syntax-ns#object";

pub open spec fn triple(s: g::Term, p: g::Predicate, o: g::Term) -> g::TriplePattern {
    g::TriplePattern { subject: s, predicate: p, object: o }
}

pub open spec fn var_expr(name: Seq<char>) -> g::Expr {
    g::Expr::Variable(name)
}

pub open spec fn both(a: g::Expr, b: g::Expr) -> g::Expr {
    g::Expr::And(Box::new(a), Box::new(b))
}

pub open spec fn differs(a: g::Expr, b: g::Expr) -> g::Expr {
    g::Expr::Not(Box::new(g::Expr::Equal(Box::new(a), Box::new(b))))
}

/// `STR(?p)`
pub open spec fn predicate_text(p: Seq<char>) -> g::Expr {
    call1(Function::Str, var_expr(p))
}

/// That a predicate is in the namespace.
pub open spec fn in_namespace(p: Seq<char>, base: Seq<char>) -> g::Expr {
    call2(Function::StrStarts, predicate_text(p), quoted(base))
}

/// The local name of a predicate: its text behind the bytes of the namespace.
pub open spec fn local_name(p: Seq<char>, base: Seq<char>) -> g::Expr {
    call2(
        Function::SubStr,
        predicate_text(p),
        g::Expr::Literal(
            typed(dec(byte_len(base, base.len() as int) + 1), XSD_INTEGER@),
        ),
    )
}

/// The pattern with the local name of the predicate bound to the variable.
pub open spec fn named_keys(
    triples: Seq<g::TriplePattern>,
    filter: g::Expr,
    p: Seq<char>,
    base: Seq<char>,
    variable: Seq<char>,
) -> g::GraphPattern {
    g::GraphPattern::Extend {
        inner: Box::new(
            g::GraphPattern::Filter {
                expr: filter,
                inner: Box::new(g::GraphPattern::Bgp { patterns: triples }),
            },
        ),
        variable: variable,
        expression: local_name(p, base),
    }
}

/// A row for each property of a node: each predicate in the namespace but the
/// type and the mark of nodes. `p` and `v` name the predicate and the value.
pub open spec fn node_keys(
    node: Seq<char>,
    variable: Seq<char>,
    nullable: bool,
    base: Seq<char>,
    p: Seq<char>,
    v: Seq<char>,
) -> g::GraphPattern {
    let triples = seq![
        triple(g::Term::Variable(node), g::Predicate::Variable(p), g::Term::Variable(v)),
    ];
    let filter = both(
        in_namespace(p, base),
        both(
            differs(predicate_text(p), quoted(base + "__node"@)),
            differs(predicate_text(p), quoted(RDF_TYPE@)),
        ),
    );
    let guarded = if nullable {
        both(g::Expr::Bound(node), filter)
    } else {
        filter
    };
    named_keys(triples, guarded, p, base, variable)
}

/// What stands for the type of a relationship in a triple.
pub open spec fn edge_predicate(e: Edge) -> g::Predicate {
    match e.pred_var {
        Some(v) => g::Predicate::Variable(v@),
        None => g::Predicate::NamedNode(e.pred@),
    }
}

pub open spec fn edge_type_term(e: Edge) -> g::Term {
    match e.pred_var {
        Some(v) => g::Term::Variable(v@),
        None => g::Term::NamedNode(e.pred@),
    }
}

pub open spec fn iri_predicate(iri: Seq<char>) -> g::Predicate {
    g::Predicate::NamedNode(iri)
}

/// The triples that tie the statement `r` to a relationship and to a property.
pub open spec fn edge_triples(
    e: Edge,
    rdf_star: bool,
    r: Seq<char>,
    p: Seq<char>,
    v: Seq<char>,
) -> Seq<g::TriplePattern> {
    let subject = g::Term::Variable(r);
    let property = triple(subject, g::Predicate::Variable(p), g::Term::Variable(v));
    if rdf_star {
        seq![
            triple(
                subject,
                iri_predicate(RDF_REIFIES@),
                g::Term::Triple(
                    Box::new(triple(g::term_of(e.src), edge_predicate(e), g::term_of(e.dst))),
                ),
            ),
            property,
        ]
    } else {
        seq![
            triple(subject, iri_predicate(RDF_SUBJECT@), g::term_of(e.src)),
            triple(subject, iri_predicate(RDF_PREDICATE@), edge_type_term(e)),
            triple(subject, iri_predicate(RDF_OBJECT@), g::term_of(e.dst)),
            property,
        ]
    }
}

/// The variable that is bound where a relationship of an optional pattern is.
pub open spec fn edge_marker(e: Edge) -> Option<Seq<char>> {
    match e.null_check_var {
        Some(v) => Some(v@),
        None => match e.pred_var {
            Some(v) => Some(v@),
            None => None,
        },
    }
}

/// A row for each property of a relationship.
pub open spec fn edge_keys(
    e: Edge,
    variable: Seq<char>,
    nullable: bool,
    base: Seq<char>,
    rdf_star: bool,
    p: Seq<char>,
    v: Seq<char>,
    r: Seq<char>,
) -> g::GraphPattern {
    let guarded = match edge_marker(e) {
        Some(mark) => if nullable {
            both(g::Expr::Bound(mark), in_namespace(p, base))
        } else {
            in_namespace(p, base)
        },
        None => in_namespace(p, base),
    };
    named_keys(edge_triples(e, rdf_star, r, p, v), guarded, p, base, variable)
}

pub fn make_triple(s: sparql::Term, p: sparql::Predicate, o: sparql::Term) -> (r:
    sparql::TriplePattern)
    ensures
        g::triple_pattern_of(r) == triple(g::term_of(s), g::predicate_of(p), g::term_of(o)),
{
    sparql::TriplePattern { subject: s, predicate: p, object: o }
}

fn make_both(a: sparql::Expr, b: sparql::Expr) -> (r: sparql::Expr)
    ensures
        g::expr_of(r) == both(g::expr_of(a), g::expr_of(b)),
{
    sparql::Expr::And(Box::new(a), Box::new(b))
}

fn make_differs(a: sparql::Expr, b: sparql::Expr) -> (r: sparql::Expr)
    ensures
        g::expr_of(r) == differs(g::expr_of(a), g::expr_of(b)),
{
    let e = sparql::Expr::Equal(Box::new(a), Box::new(b));
    assert(g::expr_of(e) == g::Expr::Equal(Box::new(g::expr_of(a)), Box::new(g::expr_of(b))));
    sparql::Expr::Not(Box::new(e))
}

fn make_predicate_text(p: &String) -> (r: sparql::Expr)
    ensures
        g::expr_of(r) == predicate_text(p@),
{
    make_call1(Function::Str, sparql::Expr::Variable(p.clone()))
}

fn make_in_namespace(p: &String, base: &String) -> (r: sparql::Expr)
    ensures
        g::expr_of(r) == in_namespace(p@, base@),
{
    make_call2(Function::StrStarts, make_predicate_text(p), make_quoted(base.as_str()))
}

fn make_local_name(p: &String, base: &String) -> (r: sparql::Expr)
    ensures
        g::expr_of(r) == local_name(p@, base@),
{
    let n = utf8_len(base.as_str());
    make_call2(
        Function::SubStr,
        make_predicate_text(p),
        sparql::Expr::Literal(typed_literal(digits_u128(n + 1), XSD_INTEGER)),
    )
}

fn make_named_keys(
    triples: Vec<sparql::TriplePattern>,
    filter: sparql::Expr,
    p: &String,
    base: &String,
    variable: &String,
) -> (r: sparql::GraphPattern)
    ensures
        g::graph_pattern_of(r) == named_keys(
            g::triples_of(triples@),
            g::expr_of(filter),
            p@,
            base@,
            variable@,
        ),
{
    let bgp = sparql::GraphPattern::Bgp { patterns: triples };
    assert(g::graph_pattern_of(bgp) == (g::GraphPattern::Bgp {
        patterns: g::triples_of(triples@),
    }));
    let inner = sparql::GraphPattern::Filter { expr: filter, inner: Box::new(bgp) };
    assert(g::graph_pattern_of(inner) == (g::GraphPattern::Filter {
        expr: g::expr_of(filter),
        inner: Box::new(g::graph_pattern_of(bgp)),
    }));
    sparql::GraphPattern::Extend {
        inner: Box::new(inner),
        variable: variable.clone(),
        expression: make_local_name(p, base),
    }
}

pub fn make_node_keys(
    node: &String,
    variable: &String,
    nullable: bool,
    base: &String,
    p: &String,
    v: &String,
) -> (r: sparql::GraphPattern)
    ensures
        g::graph_pattern_of(r) == node_keys(node@, variable@, nullable, base@, p@, v@),
{
    let mut triples: Vec<sparql::TriplePattern> = Vec::new();
    push_triple(
        &mut triples,
        make_triple(
            sparql::Term::Variable(node.clone()),
            sparql::Predicate::Variable(p.clone()),
            sparql::Term::Variable(v.clone()),
        ),
    );
    assert(g::triples_of(triples@) =~= seq![
        triple(g::Term::Variable(node@), g::Predicate::Variable(p@), g::Term::Variable(v@)),
    ]);
    let sentinel = base.clone().concat("__node");
    let filter = make_both(
        make_in_namespace(p, base),
        make_both(
            make_differs(make_predicate_text(p), make_quoted(sentinel.as_str())),
            make_differs(make_predicate_text(p), make_quoted(RDF_TYPE)),
        ),
    );
    let guarded = if nullable {
        make_both(sparql::Expr::Bound(node.clone()), filter)
    } else {
        filter
    };
    make_named_keys(triples, guarded, p, base, variable)
}

pub fn make_edge_predicate(e: &Edge) -> (r: sparql::Predicate)
    ensures
        g::predicate_of(r) == edge_predicate(*e),
{
    match &e.pred_var {
        Some(v) => sparql::Predicate::Variable(v.clone()),
        None => sparql::Predicate::NamedNode(e.pred.clone()),
    }
}

fn make_edge_type_term(e: &Edge) -> (r: sparql::Term)
    ensures
        g::term_of(r) == edge_type_term(*e),
{
    match &e.pred_var {
        Some(v) => sparql::Term::Variable(v.clone()),
        None => sparql::Term::NamedNode(e.pred.clone()),
    }
}

fn make_iri_predicate(iri: &str) -> (r: sparql::Predicate)
    ensures
        g::predicate_of(r) == iri_predicate(iri@),
{
    sparql::Predicate::NamedNode(iri.to_owned())
}

fn make_var_term(name: &String) -> (r: sparql::Term)
    ensures
        g::term_of(r) == g::Term::Variable(name@),
{
    sparql::Term::Variable(name.clone())
}

fn make_edge_triples(e: &Edge, rdf_star: bool, r: &String, p: &String, v: &String) -> (out: Vec<
    sparql::TriplePattern,
>)
    ensures
        g::triples_of(out@) == edge_triples(*e, rdf_star, r@, p@, v@),
{
    let mut out: Vec<sparql::TriplePattern> = Vec::new();
    assert(g::triples_of(out@) =~= Seq::<g::TriplePattern>::empty());
    if rdf_star {
        let quoted_triple = make_triple(
            clone_term(&e.src),
            make_edge_predicate(e),
            clone_term(&e.dst),
        );
        let object = sparql::Term::Triple(Box::new(quoted_triple));
        assert(g::term_of(object) == g::Term::Triple(
            Box::new(g::triple_pattern_of(quoted_triple)),
        ));
        push_triple(
            &mut out,
            make_triple(make_var_term(r), make_iri_predicate(RDF_REIFIES), object),
        );
    } else {
        push_triple(
            &mut out,
            make_triple(make_var_term(r), make_iri_predicate(RDF_SUBJECT), clone_term(&e.src)),
        );
        push_triple(
            &mut out,
            make_triple(make_var_term(r), make_iri_predicate(RDF_PREDICATE), make_edge_type_term(e)),
        );
        push_triple(
            &mut out,
            make_triple(make_var_term(r), make_iri_predicate(RDF_OBJECT), clone_term(&e.dst)),
        );
    }
    push_triple(
        &mut out,
        make_triple(make_var_term(r), sparql::Predicate::Variable(p.clone()), make_var_term(v)),
    );
    assert(g::triples_of(out@) =~= edge_triples(*e, rdf_star, r@, p@, v@));
    out
}

pub fn make_edge_keys(
    e: &Edge,
    variable: &String,
    nullable: bool,
    base: &String,
    rdf_star: bool,
    p: &String,
    v: &String,
    r: &String,
) -> (out: sparql::GraphPattern)
    ensures
        g::graph_pattern_of(out) == edge_keys(
            *e,
            variable@,
            nullable,
            base@,
            rdf_star,
            p@,
            v@,
            r@,
        ),
{
    let marker = match &e.null_check_var {
        Some(m) => Some(m.clone()),
        None => match &e.pred_var {
            Some(m) => Some(m.clone()),
            None => None,
        },
    };
    let guarded = match marker {
        Some(m) => if nullable {
            make_both(sparql::Expr::Bound(m), make_in_namespace(p, base))
        } else {
            make_in_namespace(p, base)
        },
        None => make_in_namespace(p, base),
    };
    make_named_keys(make_edge_triples(e, rdf_star, r, p, v), guarded, p, base, variable)
}

// ── The keys of a variable ───────────────────────────────────────────────────

/// How many fresh variables the keys take.
pub open spec fn keys_fresh(edges: Map<Seq<char>, Edge>, x: Seq<char>) -> int {
    if edges.contains_key(x) {
        3
    } else {
        2
    }
}

/// A row for each property of what the variable `x` is bound to; fresh names are
/// counted from the number on.
pub open spec fn keys_pattern(s: TranslationState, x: Seq<char>, variable: Seq<char>) -> g::GraphPattern {
    let nullable = lists(texts(s.scope.nullable_vars@), x) || lists(texts(s.scope.null_vars@), x);
    let p = fresh_name("__keys_pred"@, s.out.counter as int);
    let v = fresh_name("__keys_val"@, s.out.counter + 1);
    let r = fresh_name("__keys_reif"@, s.out.counter + 2);
    if s.scope.edge_map@.contains_key(x) {
        edge_keys(
            s.scope.edge_map@[x],
            variable,
            nullable,
            s.scope.base_iri@,
            s.scope.rdf_star,
            p,
            v,
            r,
        )
    } else {
        node_keys(x, variable, nullable, s.scope.base_iri@, p, v)
    }
}

impl TranslationState {
    /// Unwinds the keys of what a variable is bound to.
    pub fn unwind_keys(&mut self, x: &String, variable: &String) -> (r: sparql::GraphPattern)
        requires
            old(self).out.counter + 3 < u64::MAX,
        ensures
            g::graph_pattern_of(r) == keys_pattern(*old(self), x@, variable@),
            *final(self) == (TranslationState {
                out: Output {
                    counter: (old(self).out.counter + keys_fresh(
                        old(self).scope.edge_map@,
                        x@,
                    )) as u64,
                    ..old(self).out
                },
                ..*old(self)
            }),
    {
        let p = self.out.fresh_var("__keys_pred");
        let v = self.out.fresh_var("__keys_val");
        let nullable = list_has(&self.scope.nullable_vars, x.as_str()) || list_has(
            &self.scope.null_vars,
            x.as_str(),
        );
        if self.scope.edge_map.contains(x.as_str()) {
            let r = self.out.fresh_var("__keys_reif");
            if let Some(edge) = self.scope.edge_map.get(x.as_str()) {
                return make_edge_keys(
                    edge,
                    variable,
                    nullable,
                    &self.scope.base_iri,
                    self.scope.rdf_star,
                    &p,
                    &v,
                    &r,
                );
            }
        }
        make_node_keys(x, variable, nullable, &self.scope.base_iri, &p, &v)
    }
}

} // verus!
