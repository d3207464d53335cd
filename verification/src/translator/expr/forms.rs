//! What is looked up in the scope of an expression, and expressions that need
//! no operands translated.
use vstd::prelude::*;

use crate::ast::cypher::{AggregateExpr, Expression, Pattern, QuantifierKind};
#[allow(unused_imports)]
use crate::ast::model as m;
use crate::ast::same::{same_aggregate_expr, same_expression, same_pattern};
use crate::lqa::write::literals::RDF_TYPE;
use crate::sparql::algebra as sparql;
use crate::sparql::copy::{clone_expr, clone_graph_pattern, clone_term, clone_triples};
#[allow(unused_imports)]
use crate::sparql::model as g;
use crate::text::{list_has, same_text, starts_with, starts_with_char, to_ascii_lowercase};
#[allow(unused_imports)]
use crate::text::{lists, lower_text, starts_with_char_spec, starts_with_spec, texts};
use crate::translator::expr::parts::{make_and, make_truth, make_var, make_cond};
#[allow(unused_imports)]
use crate::translator::expr::parts::{and, truth, var, cond};
use crate::translator::known::look_at_temporal;
#[allow(unused_imports)]
use crate::translator::known::temporal_text;
use crate::translator::resolve::{find_element, resolve_literal_list};
#[allow(unused_imports)]
use crate::translator::resolve::{element_at, resolved_list};
use crate::translator::scope::{push_triple, Output, Scope};
#[allow(unused_imports)]
use crate::translator::scope::{bumped, fresh_name, out_of, with_triple, Out};
use crate::translator::unwind::join_patterns;
#[allow(unused_imports)]
use crate::translator::unwind::joined;
use crate::translator::unwind_keys::{make_edge_predicate, make_triple, RDF_REIFIES};
#[allow(unused_imports)]
use crate::translator::unwind_keys::{edge_predicate, triple};

verus! {

// ── Lookups ──────────────────────────────────────────────────────────────────

/// The translation that an expression was given, from the place on.
pub open spec fn given_from(e: m::Expression, s: Scope, i: int) -> Option<g::Expr>
    decreases s.given@.len() - i,
{
    if i < 0 || i >= s.given@.len() {
        None
    } else if m::expression_of(s.given@[i].expression) == e {
        Some(g::expr_of(s.given@[i].result))
    } else {
        given_from(e, s, i + 1)
    }
}

pub open spec fn given_for(e: m::Expression, s: Scope) -> Option<g::Expr> {
    given_from(e, s, 0)
}

pub fn find_given(e: &Expression, s: &Scope) -> (r: Option<sparql::Expr>)
    ensures
        g::opt_expr(r) == given_for(m::expression_of(*e), *s),
{
    #[verifier::loop_isolation(false)]
    for i in 0..s.given.len()
        invariant
            given_for(m::expression_of(*e), *s) == given_from(
                m::expression_of(*e),
                *s,
                i as int,
            ),
    {
        if same_expression(&s.given[i].expression, e) {
            return Some(clone_expr(&s.given[i].result));
        }
    }
    None
}

pub open spec fn paths_of(s: Seq<sparql::GraphPattern>) -> Seq<g::GraphPattern> {
    Seq::new(s.len(), |i: int| g::graph_pattern_of(s[i]))
}

/// The triples of a path, and the patterns of its longer parts.
pub ghost struct Path {
    pub triples: Seq<g::TriplePattern>,
    pub paths: Seq<g::GraphPattern>,
}

pub open spec fn path_from(p: m::Pattern, s: Scope, i: int) -> Option<Path>
    decreases s.given_paths@.len() - i,
{
    if i < 0 || i >= s.given_paths@.len() {
        None
    } else if m::pattern_of(s.given_paths@[i].pattern) == p {
        Some(
            Path {
                triples: g::triples_of(s.given_paths@[i].triples@),
                paths: paths_of(s.given_paths@[i].paths@),
            },
        )
    } else {
        path_from(p, s, i + 1)
    }
}

/// The translation that a path was given.
pub open spec fn path_for(p: m::Pattern, s: Scope) -> Option<Path> {
    path_from(p, s, 0)
}

/// The translation of a path, as found.
pub struct FoundPath {
    pub triples: Vec<sparql::TriplePattern>,
    pub paths: Vec<sparql::GraphPattern>,
}

pub open spec fn found_path(o: Option<FoundPath>) -> Option<Path> {
    match o {
        Some(f) => Some(
            Path { triples: g::triples_of(f.triples@), paths: paths_of(f.paths@) },
        ),
        None => None,
    }
}

fn clone_paths(v: &Vec<sparql::GraphPattern>) -> (r: Vec<sparql::GraphPattern>)
    ensures
        paths_of(r@) == paths_of(v@),
{
    let mut r: Vec<sparql::GraphPattern> = Vec::new();
    #[verifier::loop_isolation(false)]
    for i in 0..v.len()
        invariant
            r@.len() == i,
            forall|k: int|
                0 <= k < i ==> g::graph_pattern_of(#[trigger] r@[k]) == g::graph_pattern_of(v@[k]),
    {
        let p = clone_graph_pattern(&v[i]);
        r.push(p);
    }
    assert(paths_of(r@) =~= paths_of(v@));
    r
}

pub fn find_path(p: &Pattern, s: &Scope) -> (r: Option<FoundPath>)
    ensures
        found_path(r) == path_for(m::pattern_of(*p), *s),
{
    #[verifier::loop_isolation(false)]
    for i in 0..s.given_paths.len()
        invariant
            path_for(m::pattern_of(*p), *s) == path_from(m::pattern_of(*p), *s, i as int),
    {
        if same_pattern(&s.given_paths[i].pattern, p) {
            return Some(
                FoundPath {
                    triples: clone_triples(&s.given_paths[i].triples),
                    paths: clone_paths(&s.given_paths[i].paths),
                },
            );
        }
    }
    None
}

/// A pattern with the first `k` others joined to it.
pub open spec fn joined_paths(p: g::GraphPattern, paths: Seq<g::GraphPattern>, k: int) -> g::GraphPattern
    decreases k,
{
    if k <= 0 || k > paths.len() {
        p
    } else {
        joined(joined_paths(p, paths, k - 1), paths[k - 1])
    }
}

/// The pattern of a path.
pub open spec fn path_pattern(p: Path) -> g::GraphPattern {
    joined_paths(
        g::GraphPattern::Bgp { patterns: p.triples },
        p.paths,
        p.paths.len() as int,
    )
}

pub fn make_path_pattern(f: FoundPath) -> (r: sparql::GraphPattern)
    ensures
        g::graph_pattern_of(r) == path_pattern(found_path(Some(f)).unwrap()),
{
    let ghost whole = found_path(Some(f)).unwrap();
    let FoundPath { triples, paths } = f;
    let mut r = sparql::GraphPattern::Bgp { patterns: triples };
    let ghost first = g::graph_pattern_of(r);
    assert(first == (g::GraphPattern::Bgp { patterns: whole.triples }));
    #[verifier::loop_isolation(false)]
    for i in 0..paths.len()
        invariant
            g::graph_pattern_of(r) == joined_paths(first, whole.paths, i as int),
    {
        r = join_patterns(r, clone_graph_pattern(&paths[i]));
    }
    r
}

pub open spec fn aggregate_from(a: m::AggregateExpr, s: Scope, i: int) -> Option<Seq<char>>
    decreases s.agg_orderby_subst@.len() - i,
{
    if i < 0 || i >= s.agg_orderby_subst@.len() {
        None
    } else if m::aggregate_expr_of(s.agg_orderby_subst@[i].aggregate) == a {
        Some(s.agg_orderby_subst@[i].variable@)
    } else {
        aggregate_from(a, s, i + 1)
    }
}

/// The variable that already holds an aggregate.
pub open spec fn aggregate_for(a: m::AggregateExpr, s: Scope) -> Option<Seq<char>> {
    aggregate_from(a, s, 0)
}

pub fn find_aggregate(a: &AggregateExpr, s: &Scope) -> (r: Option<String>)
    ensures
        m::opt_text(r) == aggregate_for(m::aggregate_expr_of(*a), *s),
{
    #[verifier::loop_isolation(false)]
    for i in 0..s.agg_orderby_subst.len()
        invariant
            aggregate_for(m::aggregate_expr_of(*a), *s) == aggregate_from(
                m::aggregate_expr_of(*a),
                *s,
                i as int,
            ),
    {
        if same_aggregate_expr(&s.agg_orderby_subst[i].aggregate, a) {
            return Some(s.agg_orderby_subst[i].variable.clone());
        }
    }
    None
}

// ── Variables ────────────────────────────────────────────────────────────────

/// The variable that stands for a variable: that which marks a relationship as
/// bound, that of an alias, or the one of the same name.
pub open spec fn variable_for(name: Seq<char>, s: Scope) -> Seq<char> {
    if s.edge_map@.contains_key(name) && s.edge_map@[name].null_check_var is Some {
        s.edge_map@[name].null_check_var.unwrap()@
    } else if s.edge_map@.contains_key(name) && s.edge_map@[name].pred_var is Some {
        s.edge_map@[name].pred_var.unwrap()@
    } else if s.return_alias_subst@.contains_key(name) {
        s.return_alias_subst@[name]
    } else {
        name
    }
}

pub fn find_variable(name: &String, s: &Scope) -> (r: String)
    ensures
        r@ == variable_for(name@, *s),
{
    if let Some(edge) = s.edge_map.get(name.as_str()) {
        if let Some(v) = &edge.null_check_var {
            return v.clone();
        }
        if let Some(v) = &edge.pred_var {
            return v.clone();
        }
    }
    match s.return_alias_subst.get(name.as_str()) {
        Some(v) => v.clone(),
        None => name.clone(),
    }
}

/// The node at an end of a relationship, for `startNode(r)` and `endNode(r)`.
pub open spec fn edge_end(e: m::Expression, s: Scope) -> Option<Seq<char>> {
    match e {
        m::Expression::FunctionCall { name, distinct, args } => {
            let f = lower_text(name);
            if (f == "startnode"@ || f == "endnode"@) && args.len() == 1 {
                match args[0] {
                    m::Expression::Variable(r) => if s.edge_map@.contains_key(r) {
                        let t = if f == "startnode"@ {
                            s.edge_map@[r].src
                        } else {
                            s.edge_map@[r].dst
                        };
                        match t {
                            sparql::Term::Variable(v) => Some(v@),
                            _ => None,
                        }
                    } else {
                        None
                    },
                    _ => None,
                }
            } else {
                None
            }
        },
        _ => None,
    }
}

pub fn find_edge_end(e: &Expression, s: &Scope) -> (r: Option<String>)
    ensures
        m::opt_text(r) == edge_end(m::expression_of(*e), *s),
{
    match e {
        Expression::FunctionCall { name, distinct: _, args } => {
            let f = to_ascii_lowercase(name.as_str());
            let start = same_text(f.as_str(), "startnode");
            if !start && !same_text(f.as_str(), "endnode") {
                return None;
            }
            proof {
                m::lemma_exprs_of(args@);
            }
            if args.len() != 1 {
                return None;
            }
            assert(m::expression_of(args@[0]) is Variable == (args@[0] is Variable));
            if let Expression::Variable(r) = &args[0] {
                if let Some(edge) = s.edge_map.get(r.as_str()) {
                    let t = if start {
                        &edge.src
                    } else {
                        &edge.dst
                    };
                    if let sparql::Term::Variable(v) = t {
                        return Some(v.clone());
                    }
                }
            }
            None
        },
        _ => None,
    }
}

/// The variable among the elements of a list that an index stands for.
pub open spec fn listed_variable(e: m::Expression, s: Scope, hops: nat) -> Option<Seq<char>> {
    match e {
        m::Expression::Subscript(list, index) => match resolved_list(*list, s, hops) {
            Some(items) => match element_at(items, *index) {
                Some(m::Expression::Variable(v)) => Some(v),
                _ => None,
            },
            None => None,
        },
        _ => None,
    }
}

pub fn find_listed_variable(e: &Expression, s: &Scope, hops: usize) -> (r: Option<String>)
    ensures
        m::opt_text(r) == listed_variable(m::expression_of(*e), *s, hops as nat),
{
    match e {
        Expression::Subscript(list, index) => match resolve_literal_list(list, s, hops) {
            Some(items) => match find_element(&items, index) {
                Some(element) => {
                    assert(m::expression_of(element) is Variable == (element is Variable));
                    match element {
                        Expression::Variable(v) => Some(v),
                        _ => None,
                    }
                },
                None => None,
            },
            None => None,
        },
        _ => None,
    }
}

/// Whether a variable holds the text of a duration.
pub open spec fn is_duration(v: Seq<char>, s: Scope) -> bool {
    s.with_lit_vars@.contains_key(v) && (starts_with_char_spec(s.with_lit_vars@[v], 'P')
        || starts_with_spec(s.with_lit_vars@[v], "-P"@))
}

pub fn holds_duration(v: &str, s: &Scope) -> (r: bool)
    ensures
        r == is_duration(v@, *s),
{
    match s.with_lit_vars.get(v) {
        Some(t) => starts_with_char(t.as_str(), 'P') || starts_with(t.as_str(), "-P"),
        None => false,
    }
}

/// The variable that holds a property which has been projected.
pub open spec fn projected(v: Seq<char>, key: Seq<char>, s: Scope) -> Option<Seq<char>> {
    if s.with_prop_subst@.contains_key(v) && s.with_prop_subst@[v].contains_key(key) {
        Some(s.with_prop_subst@[v][key])
    } else {
        None
    }
}

pub fn find_projected(v: &str, key: &str, s: &Scope) -> (r: Option<String>)
    ensures
        m::opt_text(r) == projected(v@, key@, *s),
{
    match s.with_prop_subst.get(v) {
        Some(keys) => match keys.get(key) {
            Some(w) => Some(w.clone()),
            None => None,
        },
        None => None,
    }
}

/// Whether a property has been set, from the place on.
pub open spec fn is_tracked(
    pairs: Seq<(String, String)>,
    v: Seq<char>,
    key: Seq<char>,
    i: int,
) -> bool
    decreases pairs.len() - i,
{
    if i < 0 || i >= pairs.len() {
        false
    } else {
        (pairs[i].0@ == v && pairs[i].1@ == key) || is_tracked(pairs, v, key, i + 1)
    }
}

pub fn was_set(s: &Scope, v: &str, key: &str) -> (r: bool)
    ensures
        r == is_tracked(s.set_tracked_vars@, v@, key@, 0),
{
    #[verifier::loop_isolation(false)]
    for i in 0..s.set_tracked_vars.len()
        invariant
            is_tracked(s.set_tracked_vars@, v@, key@, 0) == is_tracked(
                s.set_tracked_vars@,
                v@,
                key@,
                i as int,
            ),
    {
        if same_text(s.set_tracked_vars[i].0.as_str(), v) && same_text(
            s.set_tracked_vars[i].1.as_str(),
            key,
        ) {
            return true;
        }
    }
    false
}

/// Whether the left operand of a sum is a date or a time: and whether it is a
/// date alone.
pub open spec fn temporal_operand(e: m::Expression, s: Scope) -> Option<bool> {
    match e {
        m::Expression::Variable(v) => if s.with_lit_vars@.contains_key(v) {
            temporal_text(s.with_lit_vars@[v])
        } else {
            None
        },
        m::Expression::FunctionCall { name, distinct, args } => {
            let f = lower_text(name);
            if f == "date"@ {
                Some(true)
            } else if f == "time"@ || f == "localtime"@ || f == "datetime"@ || f
                == "localdatetime"@ {
                Some(false)
            } else {
                None
            }
        },
        _ => None,
    }
}

pub fn look_at_operand(e: &Expression, s: &Scope) -> (r: Option<bool>)
    ensures
        r == temporal_operand(m::expression_of(*e), *s),
{
    match e {
        Expression::Variable(v) => match s.with_lit_vars.get(v.as_str()) {
            Some(t) => look_at_temporal(t.as_str()),
            None => None,
        },
        Expression::FunctionCall { name, distinct: _, args: _ } => {
            let f = to_ascii_lowercase(name.as_str());
            let f = f.as_str();
            if same_text(f, "date") {
                Some(true)
            } else if same_text(f, "time") || same_text(f, "localtime") || same_text(f, "datetime")
                || same_text(f, "localdatetime") {
                Some(false)
            } else {
                None
            }
        },
        _ => None,
    }
}

// ── Properties ───────────────────────────────────────────────────────────────

pub open spec fn property_hint(v: Seq<char>, key: Seq<char>) -> Seq<char> {
    v + "_"@ + key
}

pub fn make_property_hint(v: &str, key: &str) -> (r: String)
    ensures
        r@ == property_hint(v@, key@),
{
    v.to_owned().concat("_").concat(key)
}

/// A property of a variable: a fresh variable, and the triples that bind it.
pub open spec fn new_property(v: Seq<char>, key: Seq<char>, s: Scope, o: Out) -> Out {
    let fresh = fresh_name(property_hint(v, key), o.counter);
    let o1 = bumped(o);
    let property = g::Predicate::NamedNode(s.base_iri@ + key);
    if s.edge_map@.contains_key(v) {
        let e = s.edge_map@[v];
        if s.rdf_star {
            let reif = fresh_name("__rdf12_reif_"@ + property_hint(v, key), o1.counter);
            with_triple(
                with_triple(
                    bumped(o1),
                    triple(
                        g::Term::Variable(reif),
                        g::Predicate::NamedNode(RDF_REIFIES@),
                        g::Term::Triple(
                            Box::new(
                                triple(g::term_of(e.src), edge_predicate(e), g::term_of(e.dst)),
                            ),
                        ),
                    ),
                ),
                triple(g::Term::Variable(reif), property, g::Term::Variable(fresh)),
            )
        } else {
            match e.reif_var {
                Some(r) => with_triple(
                    o1,
                    triple(g::Term::Variable(r@), property, g::Term::Variable(fresh)),
                ),
                None => with_triple(
                    bumped(o1),
                    triple(
                        g::Term::Variable(fresh_name("reif_"@ + v, o1.counter)),
                        property,
                        g::Term::Variable(fresh),
                    ),
                ),
            }
        }
    } else {
        with_triple(o1, triple(g::Term::Variable(v), property, g::Term::Variable(fresh)))
    }
}

fn var_term(name: &String) -> (r: sparql::Term)
    ensures
        g::term_of(r) == g::Term::Variable(name@),
{
    sparql::Term::Variable(name.clone())
}

fn iri_predicate(iri: String) -> (r: sparql::Predicate)
    ensures
        g::predicate_of(r) == g::Predicate::NamedNode(iri@),
{
    sparql::Predicate::NamedNode(iri)
}

pub fn make_property(
    v: &String,
    key: &str,
    s: &Scope,
    out: &mut Output,
    extra: &mut Vec<sparql::TriplePattern>,
) -> (r: String)
    ensures
        out_of(*final(out), final(extra)@) == new_property(
            v@,
            key@,
            *s,
            out_of(*old(out), old(extra)@),
        ),
        r@ == fresh_name(property_hint(v@, key@), old(out).counter as int),
{
    let hint = make_property_hint(v.as_str(), key);
    let fresh = out.fresh_var(hint.as_str());
    match s.edge_map.get(v.as_str()) {
        Some(e) => {
            if s.rdf_star {
                let reif = out.fresh_var("__rdf12_reif_".to_owned().concat(hint.as_str()).as_str());
                let inner = make_triple(
                    clone_term(&e.src),
                    make_edge_predicate(e),
                    clone_term(&e.dst),
                );
                let object = sparql::Term::Triple(Box::new(inner));
                assert(g::term_of(object) == g::Term::Triple(
                    Box::new(g::triple_pattern_of(inner)),
                ));
                push_triple(
                    extra,
                    make_triple(var_term(&reif), iri_predicate(RDF_REIFIES.to_owned()), object),
                );
                push_triple(
                    extra,
                    make_triple(var_term(&reif), iri_predicate(s.iri(key)), var_term(&fresh)),
                );
            } else {
                let reif = match &e.reif_var {
                    Some(r) => r.clone(),
                    None => out.fresh_var("reif_".to_owned().concat(v.as_str()).as_str()),
                };
                push_triple(
                    extra,
                    make_triple(var_term(&reif), iri_predicate(s.iri(key)), var_term(&fresh)),
                );
            }
        },
        None => {
            push_triple(
                extra,
                make_triple(var_term(v), iri_predicate(s.iri(key)), var_term(&fresh)),
            );
        },
    }
    fresh
}

/// A property of a node that has been set: looked up in the graph.
pub open spec fn node_property(v: Seq<char>, key: Seq<char>, s: Scope, o: Out) -> Out {
    with_triple(
        bumped(o),
        triple(
            g::Term::Variable(v),
            g::Predicate::NamedNode(s.base_iri@ + key),
            g::Term::Variable(fresh_name(property_hint(v, key), o.counter)),
        ),
    )
}

pub fn make_node_property(
    v: &String,
    key: &str,
    s: &Scope,
    out: &mut Output,
    extra: &mut Vec<sparql::TriplePattern>,
) -> (r: String)
    ensures
        out_of(*final(out), final(extra)@) == node_property(
            v@,
            key@,
            *s,
            out_of(*old(out), old(extra)@),
        ),
        r@ == fresh_name(property_hint(v@, key@), old(out).counter as int),
{
    let fresh = out.fresh_var(make_property_hint(v.as_str(), key).as_str());
    push_triple(extra, make_triple(var_term(v), iri_predicate(s.iri(key)), var_term(&fresh)));
    fresh
}

// ── Existence ────────────────────────────────────────────────────────────────

/// That a triple exists.
pub open spec fn triple_exists(t: g::TriplePattern) -> g::Expr {
    g::Expr::Exists(Box::new(g::GraphPattern::Bgp { patterns: seq![t] }))
}

pub fn make_triple_exists(t: sparql::TriplePattern) -> (r: sparql::Expr)
    ensures
        g::expr_of(r) == triple_exists(g::triple_pattern_of(t)),
{
    let ghost one = g::triple_pattern_of(t);
    let mut patterns: Vec<sparql::TriplePattern> = Vec::new();
    push_triple(&mut patterns, t);
    assert(g::triples_of(patterns@) =~= seq![one]);
    let p = sparql::GraphPattern::Bgp { patterns };
    assert(g::graph_pattern_of(p) == (g::GraphPattern::Bgp { patterns: seq![one] }));
    sparql::Expr::Exists(Box::new(p))
}

pub fn make_exists(p: sparql::GraphPattern) -> (r: sparql::Expr)
    ensures
        g::expr_of(r) == g::Expr::Exists(Box::new(g::graph_pattern_of(p))),
{
    sparql::Expr::Exists(Box::new(p))
}

/// That a node has a label.
pub open spec fn has_label(v: Seq<char>, label: Seq<char>, s: Scope) -> g::Expr {
    triple_exists(
        triple(
            g::Term::Variable(v),
            g::Predicate::NamedNode(RDF_TYPE@),
            g::Term::NamedNode(s.base_iri@ + label),
        ),
    )
}

/// That a node has the first `k` labels.
pub open spec fn has_labels(v: Seq<char>, labels: Seq<Seq<char>>, k: int, s: Scope) -> g::Expr
    decreases k,
{
    if k <= 0 || k > labels.len() {
        truth(true)
    } else if k == 1 {
        has_label(v, labels[0], s)
    } else {
        and(has_labels(v, labels, k - 1, s), has_label(v, labels[k - 1], s))
    }
}

fn make_has_label(v: &String, label: &String, s: &Scope) -> (r: sparql::Expr)
    ensures
        g::expr_of(r) == has_label(v@, label@, *s),
{
    make_triple_exists(
        make_triple(
            var_term(v),
            iri_predicate(RDF_TYPE.to_owned()),
            sparql::Term::NamedNode(s.iri(label.as_str())),
        ),
    )
}

fn make_has_labels(v: &String, labels: &Vec<String>, k: usize, s: &Scope) -> (r: sparql::Expr)
    requires
        k <= labels@.len(),
    ensures
        g::expr_of(r) == has_labels(v@, texts(labels@), k as int, *s),
    decreases k,
{
    if k == 0 {
        make_truth(true)
    } else if k == 1 {
        make_has_label(v, &labels[0], s)
    } else {
        make_and(make_has_labels(v, labels, k - 1, s), make_has_label(v, &labels[k - 1], s))
    }
}

/// A label test: null, an unbound variable, where an optional node is missing.
pub open spec fn label_check(v: Seq<char>, labels: Seq<Seq<char>>, s: Scope, o: Out) -> (
    Out,
    g::Expr,
) {
    let test = has_labels(v, labels, labels.len() as int, s);
    if lists(texts(s.nullable_vars@), v) {
        (
            bumped(o),
            cond(g::Expr::Bound(v), test, var(fresh_name("null"@, o.counter))),
        )
    } else {
        (o, test)
    }
}

pub fn make_label_check(v: &String, labels: &Vec<String>, s: &Scope, out: &mut Output) -> (r:
    sparql::Expr)
    ensures
        forall|x: Seq<sparql::TriplePattern>|
            #![trigger out_of(*final(out), x)]
            (out_of(*final(out), x), g::expr_of(r)) == label_check(
                v@,
                texts(labels@),
                *s,
                out_of(*old(out), x),
            ),
{
    let test = make_has_labels(v, labels, labels.len(), s);
    if list_has(&s.nullable_vars, v.as_str()) {
        let null = out.fresh_var("null");
        make_cond(sparql::Expr::Bound(v.clone()), test, make_var(null))
    } else {
        test
    }
}

// ── Lists of conditions ──────────────────────────────────────────────────────

/// The first `k` conditions with `&&` between them.
pub open spec fn all_of(c: Seq<g::Expr>, k: int) -> g::Expr
    decreases k,
{
    if k <= 1 || k > c.len() {
        c[0]
    } else {
        and(all_of(c, k - 1), c[k - 1])
    }
}

/// The first `k` conditions with `||` between them.
pub open spec fn any_of(c: Seq<g::Expr>, k: int) -> g::Expr
    decreases k,
{
    if k <= 1 || k > c.len() {
        c[0]
    } else {
        g::Expr::Or(Box::new(any_of(c, k - 1)), Box::new(c[k - 1]))
    }
}

/// How many of the first `k` conditions hold.
pub open spec fn sum_of(c: Seq<g::Expr>, k: int) -> g::Expr
    decreases k,
{
    if k <= 1 || k > c.len() {
        counted(c[0])
    } else {
        g::Expr::Add(Box::new(sum_of(c, k - 1)), Box::new(counted(c[k - 1])))
    }
}

pub open spec fn counted(e: g::Expr) -> g::Expr {
    crate::translator::formula::cast(crate::lqa::write::literals::XSD_INTEGER@, e)
}

pub fn make_all_of(c: &Vec<sparql::Expr>, k: usize) -> (r: sparql::Expr)
    requires
        1 <= k <= c@.len(),
    ensures
        g::expr_of(r) == all_of(g::exprs_of(c@), k as int),
    decreases k,
{
    if k == 1 {
        clone_expr(&c[0])
    } else {
        make_and(make_all_of(c, k - 1), clone_expr(&c[k - 1]))
    }
}

pub fn make_any_of(c: &Vec<sparql::Expr>, k: usize) -> (r: sparql::Expr)
    requires
        1 <= k <= c@.len(),
    ensures
        g::expr_of(r) == any_of(g::exprs_of(c@), k as int),
    decreases k,
{
    if k == 1 {
        clone_expr(&c[0])
    } else {
        sparql::Expr::Or(
            Box::new(make_any_of(c, k - 1)),
            Box::new(clone_expr(&c[k - 1])),
        )
    }
}

fn make_counted(e: sparql::Expr) -> (r: sparql::Expr)
    ensures
        g::expr_of(r) == counted(g::expr_of(e)),
{
    crate::translator::formula::make_cast(crate::lqa::write::literals::XSD_INTEGER, e)
}

pub fn make_sum_of(c: &Vec<sparql::Expr>, k: usize) -> (r: sparql::Expr)
    requires
        1 <= k <= c@.len(),
    ensures
        g::expr_of(r) == sum_of(g::exprs_of(c@), k as int),
    decreases k,
{
    if k == 1 {
        make_counted(clone_expr(&c[0]))
    } else {
        sparql::Expr::Add(
            Box::new(make_sum_of(c, k - 1)),
            Box::new(make_counted(clone_expr(&c[k - 1]))),
        )
    }
}

/// How the kind of a quantifier is written in messages.
pub open spec fn kind_text(k: QuantifierKind) -> Seq<char> {
    match k {
        QuantifierKind::All => "All"@,
        QuantifierKind::Any => "Any"@,
        QuantifierKind::NoneOf => "None"@,
        QuantifierKind::Single => "Single"@,
    }
}

pub fn write_kind(k: QuantifierKind) -> (r: &'static str)
    ensures
        r@ == kind_text(k),
{
    match k {
        QuantifierKind::All => "All",
        QuantifierKind::Any => "Any",
        QuantifierKind::NoneOf => "None",
        QuantifierKind::Single => "Single",
    }
}

} // verus!
