//! What compiled writes do to a graph.
use vstd::prelude::*;

#[allow(unused_imports)]
use crate::lqa::expr::{CmpOp, Expr, Literal, UnaryOp};
#[allow(unused_imports)]
use crate::lqa::op::{CreateEdge, CreateNode, Direction, MergeClause, Op, RemoveItem, SetItem};
#[allow(unused_imports)]
use crate::lqa::write::create::{create_edge, property_triples, quoted_triple};
#[allow(unused_imports)]
use crate::lqa::write::literals::expr_to_sparql_lit_spec;
#[allow(unused_imports)]
use crate::lqa::write::merge::{
    condition_tail, merge_clause, merge_known, merge_known_type, merge_matched_type, merge_rel,
    on_create_rel, rel_absent, required_triples, ConditionView,
};
#[allow(unused_imports)]
use crate::lqa::write::steps::{collect, run_all, Outcome};
#[allow(unused_imports)]
use crate::lqa::write::tree::RelVarBindView;
#[allow(unused_imports)]
use crate::lqa::write::updates::{
    delete_node, delete_rel, property_of_var, property_reads, remove_item, set_item, set_items,
    set_property, update_expr,
};
#[allow(unused_imports)]
use crate::lqa::write::where_parts::{cmp_sign, expand_parts, filter_of, scan_parts, where_parts};
#[allow(unused_imports)]
use crate::text::{
    any_contains_spec, contains_spec, dec, join_spec, lists,
    starts_with_char_spec, starts_with_spec, texts,
};

verus! {

// ── Updates and their effects ────────────────────────────────────────────────

/// A triple, by the texts of its terms: subject, predicate, object.
pub struct Triple {
    pub s: Seq<char>,
    pub p: Seq<char>,
    pub o: Seq<char>,
}

/// A triple as SPARQL writes it: the subject, the predicate and the object, in this
/// order.
pub open spec fn said(t: Triple) -> Seq<char> {
    t.s + " "@ + t.p + " "@ + t.o
}

/// Triples as SPARQL writes them, with dots between them.
pub open spec fn said_all(ts: Seq<Triple>) -> Seq<char>
    decreases ts.len(),
{
    if ts.len() == 0 {
        Seq::empty()
    } else if ts.len() == 1 {
        said(ts[0])
    } else {
        said_all(ts.drop_last()) + " . "@ + said(ts.last())
    }
}

/// A fact of a graph.
pub struct Fact {
    pub s: int,
    pub p: int,
    pub o: int,
}

/// What the terms of a statement stand for on a row that its condition gives.
pub type Row = spec_fn(Seq<char>) -> int;

pub open spec fn fact(t: Triple, row: Row) -> Fact {
    Fact { s: row(t.s), p: row(t.p), o: row(t.o) }
}

/// An update: on each row that the condition gives, some triples go and others come.
pub struct Update {
    pub gone: Seq<Triple>,
    pub made: Seq<Triple>,
    pub cond: Seq<char>,
}

/// An update as SPARQL writes it.
pub open spec fn written(u: Update) -> Seq<char> {
    if u.gone.len() == 0 {
        "INSERT { "@ + said_all(u.made) + " } WHERE { "@ + u.cond + " }"@
    } else if u.made.len() == 0 {
        "DELETE { "@ + said_all(u.gone) + " } WHERE { "@ + u.cond + " }"@
    } else {
        "DELETE { "@ + said_all(u.gone) + " } INSERT { "@ + said_all(u.made) + " } WHERE { "@
            + u.cond + " }"@
    }
}

/// Whether a fact holds after an update on a row.
pub open spec fn holds_after(u: Update, graph: Set<Fact>, row: Row, f: Fact) -> bool {
    ||| exists|i: int| 0 <= i < u.made.len() && f == fact(#[trigger] u.made[i], row)
    ||| graph.contains(f) && !exists|i: int|
        0 <= i < u.gone.len() && f == fact(#[trigger] u.gone[i], row)
}

// ── Terms ────────────────────────────────────────────────────────────────────

/// A variable, as SPARQL writes it.
pub open spec fn variable(name: Seq<char>) -> Seq<char> {
    "?"@ + name
}

/// An IRI under the base, as SPARQL writes it.
pub open spec fn named(base: Seq<char>, local: Seq<char>) -> Seq<char> {
    "<"@ + base + local + ">"@
}

/// The predicate that gives a node its label.
pub open spec fn label_predicate() -> Seq<char> {
    "<"@ + "http://www.w3.org/1999/02/22-rdf-syntax-ns#type"@ + ">"@
}

/// The triple that says that a node has a label.
pub open spec fn labelled(s: Seq<char>, base: Seq<char>, label: Seq<char>) -> Triple {
    Triple { s, p: label_predicate(), o: named(base, label) }
}

/// The triple that a relationship from `from` to `to` is; one that comes in points
/// the other way.
pub open spec fn relation(
    from: Seq<char>,
    predicate: Seq<char>,
    to: Seq<char>,
    direction: Direction,
) -> Triple {
    if direction is Incoming {
        Triple { s: to, p: predicate, o: from }
    } else {
        Triple { s: from, p: predicate, o: to }
    }
}

proof fn lemma_labelled(s: Seq<char>, base: Seq<char>, label: Seq<char>)
    ensures
        crate::lqa::write::where_parts::type_triple(s, base, label) == said(
            labelled(s, base, label),
        ),
{
    reveal_strlit(" <");
    reveal_strlit(" ");
    reveal_strlit("<");
    reveal_strlit(">");
    reveal_strlit("> <");
    assert(crate::lqa::write::where_parts::type_triple(s, base, label) =~= said(
        labelled(s, base, label),
    ));
}

proof fn lemma_one(t: Triple)
    ensures
        said_all(seq![t]) == said(t),
{
}

// ── Arithmetic ───────────────────────────────────────────────────────────────

/// An arithmetic expression of SPARQL.
pub enum Sum {
    /// A variable or a literal
    Leaf(Seq<char>),
    Minus(Box<Sum>),
    Plus(Box<Sum>, Box<Sum>),
    Less(Box<Sum>, Box<Sum>),
    Times(Box<Sum>, Box<Sum>),
    Over(Box<Sum>, Box<Sum>),
}

/// An arithmetic expression as SPARQL writes it, in brackets.
pub open spec fn sum_text(x: Sum) -> Seq<char>
    decreases x,
{
    match x {
        Sum::Leaf(t) => t,
        Sum::Minus(a) => "(-"@ + sum_text(*a) + ")"@,
        Sum::Plus(a, b) => "("@ + sum_text(*a) + " + "@ + sum_text(*b) + ")"@,
        Sum::Less(a, b) => "("@ + sum_text(*a) + " - "@ + sum_text(*b) + ")"@,
        Sum::Times(a, b) => "("@ + sum_text(*a) + " * "@ + sum_text(*b) + ")"@,
        Sum::Over(a, b) => "("@ + sum_text(*a) + " / "@ + sum_text(*b) + ")"@,
    }
}

/// The numbers that variables and literals stand for, the properties of what the
/// variables are bound to, and what a quotient is.
pub struct World {
    pub number: spec_fn(Seq<char>) -> int,
    pub property: spec_fn(Seq<char>, Seq<char>) -> int,
    pub quotient: spec_fn(int, int) -> int,
}

/// Whether integer literals stand for their numbers, and the variables for current
/// values for those.
pub open spec fn is_world(w: World) -> bool {
    &&& forall|n: i64|
        (w.number)(
            "\""@ + #[trigger] dec(n as int) + "\"^^<"@
                + "http://www.w3.org/2001/XMLSchema#integer"@ + ">"@,
        ) == n
    &&& forall|name: Seq<char>, key: Seq<char>|
        (w.number)("?__"@ + name + "_"@ + key + "_cur"@) == #[trigger] (w.property)(name, key)
}

/// The number that an arithmetic expression of SPARQL is.
pub open spec fn sum_value(x: Sum, w: World) -> int
    decreases x,
{
    match x {
        Sum::Leaf(t) => (w.number)(t),
        Sum::Minus(a) => -sum_value(*a, w),
        Sum::Plus(a, b) => sum_value(*a, w) + sum_value(*b, w),
        Sum::Less(a, b) => sum_value(*a, w) - sum_value(*b, w),
        Sum::Times(a, b) => sum_value(*a, w) * sum_value(*b, w),
        Sum::Over(a, b) => (w.quotient)(sum_value(*a, w), sum_value(*b, w)),
    }
}

/// The number that an expression of a query is: of integers, variables, properties
/// and arithmetic on these.
pub open spec fn number(e: Expr, w: World) -> Option<int>
    decreases e,
{
    match e {
        Expr::Literal(Literal::Integer(n)) => Some(n as int),
        Expr::Variable { name } => Some((w.number)(variable(name@))),
        Expr::Property(node, key) => match *node {
            Expr::Variable { name } => Some((w.property)(name@, key@)),
            _ => None,
        },
        Expr::Unary(UnaryOp::Neg, a) => match number(*a, w) {
            Some(x) => Some(-x),
            None => None,
        },
        Expr::Add(a, b) => match (number(*a, w), number(*b, w)) {
            (Some(x), Some(y)) => Some(x + y),
            _ => None,
        },
        Expr::Sub(a, b) => match (number(*a, w), number(*b, w)) {
            (Some(x), Some(y)) => Some(x - y),
            _ => None,
        },
        Expr::Mul(a, b) => match (number(*a, w), number(*b, w)) {
            (Some(x), Some(y)) => Some(x * y),
            _ => None,
        },
        Expr::Div(a, b) => match (number(*a, w), number(*b, w)) {
            (Some(x), Some(y)) => Some((w.quotient)(x, y)),
            _ => None,
        },
        _ => None,
    }
}

proof fn lemma_infix(a: Seq<char>, op: Seq<char>, b: Seq<char>, spaced: Seq<char>)
    requires
        spaced == " "@ + op + " "@,
    ensures
        crate::lqa::write::updates::infix(Some(a), op, Some(b)) == Some(
            "("@ + a + spaced + b + ")"@,
        ),
{
    assert("("@ + a + " "@ + op + " "@ + b + ")"@ =~= "("@ + a + spaced + b + ")"@);
}

proof fn lemma_signs()
    ensures
        " + "@ == " "@ + "+"@ + " "@,
        " - "@ == " "@ + "-"@ + " "@,
        " * "@ == " "@ + "*"@ + " "@,
        " / "@ == " "@ + "/"@ + " "@,
{
    reveal_strlit(" ");
    reveal_strlit("+");
    reveal_strlit("-");
    reveal_strlit("*");
    reveal_strlit("/");
    reveal_strlit(" + ");
    reveal_strlit(" - ");
    reveal_strlit(" * ");
    reveal_strlit(" / ");
    assert(" + "@ =~= " "@ + "+"@ + " "@);
    assert(" - "@ =~= " "@ + "-"@ + " "@);
    assert(" * "@ =~= " "@ + "*"@ + " "@);
    assert(" / "@ =~= " "@ + "/"@ + " "@);
}

/// The value that an update computes is the one that the expression is: sums are
/// written as sums, differences as differences, products as products and quotients as
/// quotients.
pub proof fn law_update_computes(e: Expr, w: World) -> (x: Sum)
    requires
        is_world(w),
        number(e, w) is Some,
    ensures
        update_expr(e) == Some(sum_text(x)),
        sum_value(x, w) == number(e, w)->0,
    decreases e,
{
    lemma_signs();
    match e {
        Expr::Literal(lit) => {
            let n = lit->Integer_0;
            let t = "\""@ + dec(n as int) + "\"^^<"@ + "http://www.w3.org/2001/XMLSchema#integer"@
                + ">"@;
            assert(update_expr(e) == Some(t));
            Sum::Leaf(t)
        },
        Expr::Variable { name } => Sum::Leaf(variable(name@)),
        Expr::Property(node, key) => {
            let name = node->Variable_name@;
            assert((w.property)(name, key@) == number(e, w)->0);
            Sum::Leaf("?__"@ + name + "_"@ + key@ + "_cur"@)
        },
        Expr::Unary(_, a) => Sum::Minus(Box::new(law_update_computes(*a, w))),
        Expr::Add(a, b) => {
            let x = law_update_computes(*a, w);
            let y = law_update_computes(*b, w);
            lemma_infix(sum_text(x), "+"@, sum_text(y), " + "@);
            assert(!(*a is List) && !(*b is List));
            Sum::Plus(Box::new(x), Box::new(y))
        },
        Expr::Sub(a, b) => {
            let x = law_update_computes(*a, w);
            let y = law_update_computes(*b, w);
            lemma_infix(sum_text(x), "-"@, sum_text(y), " - "@);
            Sum::Less(Box::new(x), Box::new(y))
        },
        Expr::Mul(a, b) => {
            let x = law_update_computes(*a, w);
            let y = law_update_computes(*b, w);
            lemma_infix(sum_text(x), "*"@, sum_text(y), " * "@);
            Sum::Times(Box::new(x), Box::new(y))
        },
        Expr::Div(a, b) => {
            let x = law_update_computes(*a, w);
            let y = law_update_computes(*b, w);
            lemma_infix(sum_text(x), "/"@, sum_text(y), " / "@);
            Sum::Over(Box::new(x), Box::new(y))
        },
        _ => Sum::Leaf(seq![]),
    }
}

// ── SET ──────────────────────────────────────────────────────────────────────

/// The triple that a property of a variable is.
pub open spec fn property(
    name: Seq<char>,
    key: Seq<char>,
    value: Seq<char>,
    base: Seq<char>,
) -> Triple {
    Triple { s: variable(name), p: named(base, key), o: value }
}

/// The variable for a property's value before, in or after an update.
pub open spec fn value_variable(name: Seq<char>, key: Seq<char>, when: Seq<char>) -> Seq<char> {
    "?__"@ + name + "_"@ + key + when
}

/// The condition of an update on a variable: the patterns, or that it is a node where
/// there are none.
pub open spec fn on_nodes(patterns: Seq<char>, name: Seq<char>, base: Seq<char>) -> Seq<char> {
    if patterns.len() == 0 {
        said(
            Triple { s: variable(name), p: named(base, "__node"@), o: named(base, "__node"@) },
        )
    } else {
        patterns
    }
}

proof fn lemma_node(name: Seq<char>, base: Seq<char>)
    ensures
        crate::lqa::write::where_parts::node_triple(variable(name), base) == said(
            Triple { s: variable(name), p: named(base, "__node"@), o: named(base, "__node"@) },
        ),
{
    reveal_strlit(" ");
    reveal_strlit(" <");
    reveal_strlit("<");
    reveal_strlit(">");
    reveal_strlit("__node> <");
    reveal_strlit("__node>");
    reveal_strlit("__node");
    assert(crate::lqa::write::where_parts::node_triple(variable(name), base) =~= said(
        Triple { s: variable(name), p: named(base, "__node"@), o: named(base, "__node"@) },
    ));
}

/// `SET n.key = constant` takes the old value of the property away and gives it the
/// constant; every other fact stays.
pub proof fn law_set_replaces(
    name: Seq<char>,
    key: Seq<char>,
    value: Expr,
    patterns: Seq<char>,
    base: Seq<char>,
) -> (u: Update)
    requires
        expr_to_sparql_lit_spec(value) is Some,
    ensures
        set_property(name, key, value, patterns, base) == Outcome::Ok(seq![written(u)]),
        u.cond == on_nodes(patterns, name, base) + " . OPTIONAL { "@ + said(
            property(name, key, value_variable(name, key, "_old"@), base),
        ) + " }"@,
        forall|graph: Set<Fact>, row: Row, f: Fact|
            #![trigger holds_after(u, graph, row, f)]
            {
                let now = fact(
                    property(name, key, expr_to_sparql_lit_spec(value)->0, base),
                    row,
                );
                let was = fact(
                    property(name, key, value_variable(name, key, "_old"@), base),
                    row,
                );
                holds_after(u, graph, row, f) == (f == now || (f != was && graph.contains(f)))
            },
{
    lemma_node(name, base);
    let lit = expr_to_sparql_lit_spec(value)->0;
    let was = property(name, key, value_variable(name, key, "_old"@), base);
    let now = property(name, key, lit, base);
    let cond = on_nodes(patterns, name, base) + " . OPTIONAL { "@ + said(was) + " }"@;
    let u = Update { gone: seq![was], made: seq![now], cond };
    lemma_one(was);
    lemma_one(now);
    reveal_strlit(" . OPTIONAL { ");
    reveal_strlit(" . ");
    reveal_strlit("OPTIONAL { ");
    assert(cond =~= on_nodes(patterns, name, base) + " . "@ + ("OPTIONAL { "@ + said(was) + " }"@));
    assert forall|graph: Set<Fact>, row: Row, f: Fact|
        #![trigger holds_after(u, graph, row, f)]
        holds_after(u, graph, row, f) == (f == fact(now, row) || (f != fact(was, row)
            && graph.contains(f))) by {
        assert(u.made[0] == now);
        assert(u.gone[0] == was);
    }
    u
}

/// `SET n.key = e` with an expression takes the old value away and gives the property
/// the value of the expression, which is bound under a name of its own; every other
/// fact stays.
pub proof fn law_set_computes(
    name: Seq<char>,
    key: Seq<char>,
    value: Expr,
    patterns: Seq<char>,
    base: Seq<char>,
    w: World,
) -> (r: (Update, Sum))
    requires
        expr_to_sparql_lit_spec(value) is None,
        is_world(w),
        number(value, w) is Some,
    ensures
        set_property(name, key, value, patterns, base) == Outcome::Ok(seq![written(r.0)]),
        sum_value(r.1, w) == number(value, w)->0,
        contains_spec(
            r.0.cond,
            "BIND("@ + sum_text(r.1) + " AS "@ + value_variable(name, key, "_new"@) + ")"@,
        ),
        forall|graph: Set<Fact>, row: Row, f: Fact|
            #![trigger holds_after(r.0, graph, row, f)]
            {
                let now = fact(
                    property(name, key, value_variable(name, key, "_new"@), base),
                    row,
                );
                let was = fact(
                    property(name, key, value_variable(name, key, "_old"@), base),
                    row,
                );
                holds_after(r.0, graph, row, f) == (f == now || (f != was && graph.contains(f)))
            },
{
    lemma_node(name, base);
    let x = law_update_computes(value, w);
    let was = property(name, key, value_variable(name, key, "_old"@), base);
    let fresh = value_variable(name, key, "_new"@);
    let now = property(name, key, fresh, base);
    let found = on_nodes(patterns, name, base) + " . "@ + ("OPTIONAL { "@ + said(was) + " }"@);
    let bind = "BIND("@ + sum_text(x) + " AS "@ + fresh + ")"@;
    let reads = crate::lqa::write::updates::property_bindings(value, base);
    let binds = if reads.len() == 0 {
        bind
    } else {
        reads + " . "@ + bind
    };
    let tail = " . "@ + ("FILTER(BOUND("@ + fresh + "))"@);
    let cond = found + " . "@ + binds + " . "@ + ("FILTER(BOUND("@ + fresh + "))"@);
    let u = Update { gone: seq![was], made: seq![now], cond };
    lemma_one(was);
    lemma_one(now);
    let head = if reads.len() == 0 {
        found + " . "@
    } else {
        found + " . "@ + reads + " . "@
    };
    assert(cond =~= head + bind + tail);
    assert(crate::text::occurs_at(cond, bind, head.len() as int)) by {
        assert(cond.subrange(head.len() as int, (head.len() + bind.len()) as int) =~= bind);
    }
    assert forall|graph: Set<Fact>, row: Row, f: Fact|
        #![trigger holds_after(u, graph, row, f)]
        holds_after(u, graph, row, f) == (f == fact(now, row) || (f != fact(was, row)
            && graph.contains(f))) by {
        assert(u.made[0] == now);
        assert(u.gone[0] == was);
    }
    (u, x)
}

/// The properties that an expression reads.
pub open spec fn reads(e: Expr, name: Seq<char>, key: Seq<char>) -> bool
    decreases e,
{
    match e {
        Expr::Property(node, k) => k@ == key && (*node matches Expr::Variable { name: n } && n@
            == name),
        Expr::Add(a, b) => reads(*a, name, key) || reads(*b, name, key),
        Expr::Sub(a, b) => reads(*a, name, key) || reads(*b, name, key),
        Expr::Mul(a, b) => reads(*a, name, key) || reads(*b, name, key),
        Expr::Div(a, b) => reads(*a, name, key) || reads(*b, name, key),
        Expr::Unary(_, a) => reads(*a, name, key),
        _ => false,
    }
}

proof fn lemma_reads_kept(e: Expr, base: Seq<char>, seen: Seq<Seq<char>>, t: Seq<char>)
    requires
        lists(seen, t),
    ensures
        lists(property_reads(e, base, seen), t),
    decreases e,
{
    match e {
        Expr::Property(_, _) => {
            if let Some(p) = property_of_var(e) {
                let read = crate::lqa::write::where_parts::optional(
                    crate::lqa::write::where_parts::triple(
                        crate::lqa::write::literals::var(p.name),
                        crate::lqa::write::where_parts::iri(base, p.key),
                        crate::lqa::write::updates::current(p),
                    ),
                );
                let k = choose|k: int| 0 <= k < seen.len() && seen[k] == t;
                assert(seen.push(read)[k] == t);
            }
        },
        Expr::Add(a, b) => {
            lemma_reads_kept(*a, base, seen, t);
            lemma_reads_kept(*b, base, property_reads(*a, base, seen), t);
        },
        Expr::Sub(a, b) => {
            lemma_reads_kept(*a, base, seen, t);
            lemma_reads_kept(*b, base, property_reads(*a, base, seen), t);
        },
        Expr::Mul(a, b) => {
            lemma_reads_kept(*a, base, seen, t);
            lemma_reads_kept(*b, base, property_reads(*a, base, seen), t);
        },
        Expr::Div(a, b) => {
            lemma_reads_kept(*a, base, seen, t);
            lemma_reads_kept(*b, base, property_reads(*a, base, seen), t);
        },
        Expr::Unary(_, a) => {
            lemma_reads_kept(*a, base, seen, t);
        },
        _ => {},
    }
}

/// The condition of an update reads every property that the expression has: under the
/// property of that variable and no other.
pub proof fn law_properties_are_read(
    e: Expr,
    base: Seq<char>,
    seen: Seq<Seq<char>>,
    name: Seq<char>,
    key: Seq<char>,
)
    requires
        reads(e, name, key),
    ensures
        lists(
            property_reads(e, base, seen),
            "OPTIONAL { "@ + said(
                property(name, key, value_variable(name, key, "_cur"@), base),
            ) + " }"@,
        ),
    decreases e,
{
    let t = "OPTIONAL { "@ + said(
        property(name, key, value_variable(name, key, "_cur"@), base),
    ) + " }"@;
    match e {
        Expr::Property(_, _) => {
            if !lists(seen, t) {
                assert(seen.push(t)[seen.len() as int] == t);
            }
        },
        Expr::Add(a, b) => {
            if reads(*a, name, key) {
                law_properties_are_read(*a, base, seen, name, key);
                lemma_reads_kept(*b, base, property_reads(*a, base, seen), t);
            } else {
                law_properties_are_read(*b, base, property_reads(*a, base, seen), name, key);
            }
        },
        Expr::Sub(a, b) => {
            if reads(*a, name, key) {
                law_properties_are_read(*a, base, seen, name, key);
                lemma_reads_kept(*b, base, property_reads(*a, base, seen), t);
            } else {
                law_properties_are_read(*b, base, property_reads(*a, base, seen), name, key);
            }
        },
        Expr::Mul(a, b) => {
            if reads(*a, name, key) {
                law_properties_are_read(*a, base, seen, name, key);
                lemma_reads_kept(*b, base, property_reads(*a, base, seen), t);
            } else {
                law_properties_are_read(*b, base, property_reads(*a, base, seen), name, key);
            }
        },
        Expr::Div(a, b) => {
            if reads(*a, name, key) {
                law_properties_are_read(*a, base, seen, name, key);
                lemma_reads_kept(*b, base, property_reads(*a, base, seen), t);
            } else {
                law_properties_are_read(*b, base, property_reads(*a, base, seen), name, key);
            }
        },
        Expr::Unary(_, a) => {
            law_properties_are_read(*a, base, seen, name, key);
        },
        _ => {},
    }
}

/// `SET n.key = null` takes the property away; every other fact stays.
pub proof fn law_set_null_removes(
    name: Seq<char>,
    key: Seq<char>,
    patterns: Seq<char>,
    base: Seq<char>,
) -> (u: Update)
    ensures
        set_property(name, key, Expr::Literal(Literal::Null), patterns, base) == Outcome::Ok(
            seq![written(u)],
        ),
        forall|graph: Set<Fact>, row: Row, f: Fact|
            #![trigger holds_after(u, graph, row, f)]
            holds_after(u, graph, row, f) == (graph.contains(f) && f != fact(
                property(name, key, value_variable(name, key, "_old"@), base),
                row,
            )),
{
    lemma_node(name, base);
    let was = property(name, key, value_variable(name, key, "_old"@), base);
    let found = on_nodes(patterns, name, base) + " . "@ + ("OPTIONAL { "@ + said(was) + " }"@);
    let u = Update { gone: seq![was], made: seq![], cond: found };
    lemma_one(was);
    assert forall|graph: Set<Fact>, row: Row, f: Fact|
        #![trigger holds_after(u, graph, row, f)]
        holds_after(u, graph, row, f) == (graph.contains(f) && f != fact(was, row)) by {
        assert(u.gone[0] == was);
    }
    u
}

/// `SET n:A:B` gives the node each label in turn and changes nothing else; the
/// condition is the same for all.
pub proof fn law_set_labels(item: SetItem, parts: Seq<Seq<char>>, base: Seq<char>, k: int) -> (u:
    Update)
    requires
        item is Label,
        0 <= k < item->Label_labels@.len(),
    ensures
        set_item(item, parts, base) matches Ok(lines) && lines.len()
            == item->Label_labels@.len() && lines[k] == written(u),
        forall|graph: Set<Fact>, row: Row, f: Fact|
            #![trigger holds_after(u, graph, row, f)]
            holds_after(u, graph, row, f) == (graph.contains(f) || f == fact(
                labelled(
                    variable(item->Label_variable@),
                    base,
                    item->Label_labels@[k]@,
                ),
                row,
            )),
{
    let name = item->Label_variable@;
    let labels = item->Label_labels@;
    let made = labelled(variable(name), base, labels[k]@);
    lemma_labelled(variable(name), base, labels[k]@);
    lemma_node(name, base);
    lemma_one(made);
    let u = Update {
        gone: seq![],
        made: seq![made],
        cond: on_nodes(join_spec(parts, " . "@), name, base),
    };
    assert(texts(labels)[k] == labels[k]@);
    assert forall|graph: Set<Fact>, row: Row, f: Fact|
        #![trigger holds_after(u, graph, row, f)]
        holds_after(u, graph, row, f) == (graph.contains(f) || f == fact(made, row)) by {
        assert(u.made[0] == made);
    }
    u
}

// ── REMOVE ───────────────────────────────────────────────────────────────────

/// `REMOVE n.key` takes the property away; every other fact stays.
pub proof fn law_remove_property(item: RemoveItem, patterns: Seq<char>, base: Seq<char>) -> (u:
    Update)
    requires
        item is Property,
    ensures
        remove_item(item, patterns, base) == seq![written(u)],
        forall|graph: Set<Fact>, row: Row, f: Fact|
            #![trigger holds_after(u, graph, row, f)]
            holds_after(u, graph, row, f) == (graph.contains(f) && f != fact(
                property(
                    item->Property_variable@,
                    item->Property_key@,
                    value_variable(
                        item->Property_variable@,
                        item->Property_key@,
                        "_del"@,
                    ),
                    base,
                ),
                row,
            )),
{
    let name = item->Property_variable@;
    let key = item->Property_key@;
    lemma_node(name, base);
    let was = property(name, key, value_variable(name, key, "_del"@), base);
    let found = on_nodes(patterns, name, base) + " . "@ + ("OPTIONAL { "@ + said(was) + " }"@);
    let u = Update { gone: seq![was], made: seq![], cond: found };
    lemma_one(was);
    assert forall|graph: Set<Fact>, row: Row, f: Fact|
        #![trigger holds_after(u, graph, row, f)]
        holds_after(u, graph, row, f) == (graph.contains(f) && f != fact(was, row)) by {
        assert(u.gone[0] == was);
    }
    u
}

/// `REMOVE n:A:B` takes each label away in turn; every other fact stays.
pub proof fn law_remove_labels(item: RemoveItem, patterns: Seq<char>, base: Seq<char>, k: int) -> (u:
    Update)
    requires
        item is Label,
        0 <= k < item->Label_labels@.len(),
    ensures
        remove_item(item, patterns, base).len() == item->Label_labels@.len(),
        remove_item(item, patterns, base)[k] == written(u),
        forall|graph: Set<Fact>, row: Row, f: Fact|
            #![trigger holds_after(u, graph, row, f)]
            holds_after(u, graph, row, f) == (graph.contains(f) && f != fact(
                labelled(
                    variable(item->Label_variable@),
                    base,
                    item->Label_labels@[k]@,
                ),
                row,
            )),
{
    let name = item->Label_variable@;
    let labels = item->Label_labels@;
    let was = labelled(variable(name), base, labels[k]@);
    lemma_labelled(variable(name), base, labels[k]@);
    lemma_one(was);
    let u = Update {
        gone: seq![was],
        made: seq![],
        cond: if patterns.len() == 0 {
            said(was)
        } else {
            patterns + " . "@ + said(was)
        },
    };
    assert(texts(labels)[k] == labels[k]@);
    assert forall|graph: Set<Fact>, row: Row, f: Fact|
        #![trigger holds_after(u, graph, row, f)]
        holds_after(u, graph, row, f) == (graph.contains(f) && f != fact(was, row)) by {
        assert(u.gone[0] == was);
    }
    u
}

// ── DELETE ───────────────────────────────────────────────────────────────────

pub open spec fn deleted_end(name: Seq<char>, end: Seq<char>) -> Seq<char> {
    "?__del_"@ + name + end
}

/// `DELETE n` takes away what the node is the subject of, and `DETACH DELETE n` what it
/// is the object of too, in a second statement; nothing is added.
pub proof fn law_delete_node(
    name: Seq<char>,
    detach: bool,
    patterns: Seq<char>,
    base: Seq<char>,
) -> (r: (Update, Update))
    ensures
        delete_node(name, detach, patterns, base) == (if detach {
            seq![written(r.0), written(r.1)]
        } else {
            seq![written(r.0)]
        }),
        r.0.made.len() == 0 && r.1.made.len() == 0,
        r.0.gone == seq![
            Triple {
                s: variable(name),
                p: deleted_end(name, "_p"@),
                o: deleted_end(name, "_o"@),
            },
        ],
        r.1.gone == seq![
            Triple {
                s: deleted_end(name, "_s"@),
                p: deleted_end(name, "_p"@),
                o: variable(name),
            },
        ],
        r.0.cond == on_nodes(patterns, name, base) + " . "@ + said(r.0.gone[0]),
        starts_with_spec(
            r.1.cond,
            on_nodes(patterns, name, base) + " . "@ + said(r.1.gone[0]),
        ),
{
    lemma_node(name, base);
    let out = Triple {
        s: variable(name),
        p: deleted_end(name, "_p"@),
        o: deleted_end(name, "_o"@),
    };
    let into = Triple {
        s: deleted_end(name, "_s"@),
        p: deleted_end(name, "_p"@),
        o: variable(name),
    };
    lemma_one(out);
    lemma_one(into);
    let cond = on_nodes(patterns, name, base);
    let head = cond + " . "@ + said(into);
    let tail = " . "@ + ("FILTER("@ + deleted_end(name, "_s"@) + " != "@ + variable(name) + ")"@);
    let last = cond + " . "@ + said(into) + " . "@ + ("FILTER("@ + deleted_end(name, "_s"@)
        + " != "@ + variable(name) + ")"@);
    assert(last =~= head + tail);
    assert(last.take(head.len() as int) =~= head);
    (
        Update { gone: seq![out], made: seq![], cond: cond + " . "@ + said(out) },
        Update { gone: seq![into], made: seq![], cond: last },
    )
}

/// Deleting a relationship takes away, for each of its types, the triple that the
/// relationship is, from its start to its end; nothing else goes and nothing is added.
pub proof fn law_delete_relationship(
    bind: RelVarBindView,
    patterns: Seq<char>,
    base: Seq<char>,
    k: int,
) -> (u: Update)
    requires
        0 <= k < bind.rel_types.len(),
        !(bind.direction is Undirected),
    ensures
        delete_rel(bind, patterns, base).len() == bind.rel_types.len(),
        delete_rel(bind, patterns, base)[k] == written(u),
        u.cond == patterns,
        forall|graph: Set<Fact>, row: Row, f: Fact|
            #![trigger holds_after(u, graph, row, f)]
            holds_after(u, graph, row, f) == (graph.contains(f) && f != fact(
                relation(
                    variable(bind.from),
                    named(base, bind.rel_types[k]),
                    variable(bind.to),
                    bind.direction,
                ),
                row,
            )),
{
    let was = relation(
        variable(bind.from),
        named(base, bind.rel_types[k]),
        variable(bind.to),
        bind.direction,
    );
    lemma_one(was);
    let u = Update { gone: seq![was], made: seq![], cond: patterns };
    assert forall|graph: Set<Fact>, row: Row, f: Fact|
        #![trigger holds_after(u, graph, row, f)]
        holds_after(u, graph, row, f) == (graph.contains(f) && f != fact(was, row)) by {
        assert(u.gone[0] == was);
    }
    u
}

// ── CREATE ───────────────────────────────────────────────────────────────────

/// What a variable stands for: the node that was made for it, or itself.
pub open spec fn stands_for(name: Seq<char>, nodes: Map<Seq<char>, Seq<char>>) -> Seq<char> {
    if nodes.contains_key(name) {
        nodes[name]
    } else {
        variable(name)
    }
}

proof fn lemma_collected<A>(items: Seq<A>, f: spec_fn(A) -> Seq<Seq<char>>, k: int, t: Seq<char>)
    requires
        0 <= k < items.len(),
        f(items[k]).contains(t),
    ensures
        collect(items, f).contains(t),
    decreases items.len(),
{
    let before = collect(items.drop_last(), f);
    let last = f(items.last());
    if k == items.len() - 1 {
        let j = last.index_of(t);
        assert(last[j] == t);
        assert((before + last)[before.len() + j] == t);
    } else {
        assert(items.drop_last()[k] == items[k]);
        lemma_collected(items.drop_last(), f, k, t);
        let j = before.index_of(t);
        assert(before[j] == t);
        assert((before + last)[j] == t);
    }
}

proof fn lemma_properties_made(
    s: Seq<char>,
    properties: Seq<(String, Expr)>,
    base: Seq<char>,
    k: int,
)
    requires
        0 <= k < properties.len(),
        expr_to_sparql_lit_spec(properties[k].1) is Some,
    ensures
        property_triples(s, properties, base).contains(
            said(
                Triple {
                    s,
                    p: named(base, properties[k].0@),
                    o: expr_to_sparql_lit_spec(properties[k].1)->0,
                },
            ),
        ),
{
    let t = said(
        Triple {
            s,
            p: named(base, properties[k].0@),
            o: expr_to_sparql_lit_spec(properties[k].1)->0,
        },
    );
    let f = |p: (String, Expr)| match expr_to_sparql_lit_spec(p.1) {
        Some(lit) => seq![
            crate::lqa::write::where_parts::triple(
                s,
                crate::lqa::write::where_parts::iri(base, p.0@),
                lit,
            ),
        ],
        None => seq![],
    };
    assert(f(properties[k])[0] == t);
    lemma_collected(properties, f, k, t);
}

/// A created relationship is the triple from what its start stands for to what its end
/// stands for, the other way round where it comes in; and each constant property is one
/// of that triple.
pub proof fn law_create_relationship(
    edge: CreateEdge,
    base: Seq<char>,
    nodes: Map<Seq<char>, Seq<char>>,
) -> (t: Triple)
    ensures
        create_edge(edge, base, nodes).len() > 0,
        create_edge(edge, base, nodes)[0] == said(t),
        t.p == named(base, edge.rel_type@),
        !(edge.direction is Incoming) ==> t.s == stands_for(edge.from@, nodes) && t.o == stands_for(
            edge.to@,
            nodes,
        ),
        edge.direction is Incoming ==> t.s == stands_for(edge.to@, nodes) && t.o == stands_for(
            edge.from@,
            nodes,
        ),
        forall|k: int|
            0 <= k < edge.properties@.len() && expr_to_sparql_lit_spec(
                (#[trigger] edge.properties@[k]).1,
            ) is Some ==> create_edge(edge, base, nodes).contains(
                said(
                    Triple {
                        s: "<< "@ + said(t) + " >>"@,
                        p: named(base, edge.properties@[k].0@),
                        o: expr_to_sparql_lit_spec(edge.properties@[k].1)->0,
                    },
                ),
            ),
{
    let t = relation(
        stands_for(edge.from@, nodes),
        named(base, edge.rel_type@),
        stands_for(edge.to@, nodes),
        edge.direction,
    );
    let all = create_edge(edge, base, nodes);
    let about = "<< "@ + said(t) + " >>"@;
    let more = property_triples(about, edge.properties@, base);
    assert(all == seq![said(t)] + more);
    assert forall|k: int|
        0 <= k < edge.properties@.len() && expr_to_sparql_lit_spec(
            (#[trigger] edge.properties@[k]).1,
        ) is Some implies all.contains(
        said(
            Triple {
                s: about,
                p: named(base, edge.properties@[k].0@),
                o: expr_to_sparql_lit_spec(edge.properties@[k].1)->0,
            },
        ),
    ) by {
        let made = said(
            Triple {
                s: about,
                p: named(base, edge.properties@[k].0@),
                o: expr_to_sparql_lit_spec(edge.properties@[k].1)->0,
            },
        );
        lemma_properties_made(about, edge.properties@, base, k);
        let j = more.index_of(made);
        assert(more[j] == made);
        assert(all[j + 1] == made);
    }
    t
}

/// A created node is marked as a node, has each of its labels, and each of its constant
/// properties.
pub proof fn law_create_node(s: Seq<char>, node: CreateNode, base: Seq<char>)
    ensures
        ({
            let all = crate::lqa::write::create::node_triples(s, node, base);
            &&& all.len() > 0
            &&& all[0] == said(
                Triple { s, p: named(base, "__node"@), o: named(base, "__node"@) },
            )
            &&& forall|k: int|
                0 <= k < node.labels@.len() ==> all.contains(
                    said(labelled(s, base, (#[trigger] node.labels@[k])@)),
                )
            &&& forall|k: int|
                0 <= k < node.properties@.len() && expr_to_sparql_lit_spec(
                    (#[trigger] node.properties@[k]).1,
                ) is Some ==> all.contains(
                    said(
                        Triple {
                            s,
                            p: named(base, node.properties@[k].0@),
                            o: expr_to_sparql_lit_spec(node.properties@[k].1)->0,
                        },
                    ),
                )
        }),
{
    reveal_strlit(" ");
    reveal_strlit(" <");
    reveal_strlit("<");
    reveal_strlit(">");
    reveal_strlit("__node> <");
    reveal_strlit("__node>");
    reveal_strlit("__node");
    let all = crate::lqa::write::create::node_triples(s, node, base);
    let first = Triple { s, p: named(base, "__node"@), o: named(base, "__node"@) };
    assert(crate::lqa::write::where_parts::node_triple(s, base) =~= said(first));
    let kinds = texts(node.labels@).map_values(
        |l: Seq<char>| crate::lqa::write::where_parts::type_triple(s, base, l),
    );
    let more = property_triples(s, node.properties@, base);
    assert(all == seq![said(first)] + kinds + more);
    assert forall|k: int| 0 <= k < node.labels@.len() implies all.contains(
        said(labelled(s, base, (#[trigger] node.labels@[k])@)),
    ) by {
        lemma_labelled(s, base, node.labels@[k]@);
        assert(texts(node.labels@)[k] == node.labels@[k]@);
        assert(kinds[k] == said(labelled(s, base, node.labels@[k]@)));
        assert(all[k + 1] == kinds[k]);
    }
    assert forall|k: int|
        0 <= k < node.properties@.len() && expr_to_sparql_lit_spec(
            (#[trigger] node.properties@[k]).1,
        ) is Some implies all.contains(
        said(
            Triple {
                s,
                p: named(base, node.properties@[k].0@),
                o: expr_to_sparql_lit_spec(node.properties@[k].1)->0,
            },
        ),
    ) by {
        let made = said(
            Triple {
                s,
                p: named(base, node.properties@[k].0@),
                o: expr_to_sparql_lit_spec(node.properties@[k].1)->0,
            },
        );
        lemma_properties_made(s, node.properties@, base, k);
        let j = more.index_of(made);
        assert(more[j] == made);
        assert(all[1 + kinds.len() + j] == made);
    }
}

// ── MATCH ────────────────────────────────────────────────────────────────────

/// A match of a relationship asks, behind what it is matched in, for one triple per
/// type: from its start to its end, or the other way round where it comes in; where it
/// has no direction, for either.
pub proof fn law_match_asks_for_relationship(op: Op, base: Seq<char>, k: int)
    requires
        op is Expand,
        op->Expand_range is None,
        where_parts(*op->Expand_inner, base) is Ok,
        0 <= k < op->Expand_rel_types@.len(),
    ensures
        ({
            let before = where_parts(*op->Expand_inner, base)->Ok_0;
            let p = named(base, op->Expand_rel_types@[k]@);
            let from = variable(op->Expand_from@);
            let to = variable(op->Expand_to@);
            let there = Triple { s: from, p, o: to };
            let back = Triple { s: to, p, o: from };
            &&& where_parts(op, base) matches Ok(parts)
            &&& parts.len() == before.len() + op->Expand_rel_types@.len()
            &&& parts.take(before.len() as int) == before
            &&& parts[before.len() + k] == match op->Expand_direction {
                Direction::Outgoing => said(there),
                Direction::Incoming => said(back),
                Direction::Undirected => "{ "@ + said(there) + " } UNION { "@ + said(back) + " }"@,
            }
        }),
{
    let before = where_parts(*op->Expand_inner, base)->Ok_0;
    let types = texts(op->Expand_rel_types@);
    assert(types[k] == op->Expand_rel_types@[k]@);
    let more = expand_parts(
        op->Expand_from@,
        op->Expand_to@,
        types,
        op->Expand_direction,
        base,
    );
    assert((before + more).take(before.len() as int) =~= before);
    assert((before + more)[before.len() + k] == more[k]);
}

/// A scan asks for a node with the labels that are given, and for nothing else.
pub proof fn law_scan_asks_for_labels(op: Op, base: Seq<char>)
    requires
        op is Scan,
    ensures
        ({
            let v = variable(op->Scan_variable@);
            let n: int = if op->Scan_label is Some {
                1
            } else {
                0
            };
            &&& where_parts(op, base) matches Ok(parts)
            &&& parts.len() == 1 + n + op->Scan_extra_labels@.len()
            &&& parts[0] == said(
                Triple { s: v, p: named(base, "__node"@), o: named(base, "__node"@) },
            )
            &&& op->Scan_label matches Some(l) ==> parts[1] == said(labelled(v, base, l@))
            &&& forall|k: int|
                0 <= k < op->Scan_extra_labels@.len() ==> parts[1 + n + k] == said(
                    labelled(v, base, (#[trigger] op->Scan_extra_labels@[k])@),
                )
        }),
{
    let name = op->Scan_variable@;
    let v = variable(name);
    lemma_node(name, base);
    if let Some(l) = op->Scan_label {
        lemma_labelled(v, base, l@);
    }
    let extra = texts(op->Scan_extra_labels@);
    let parts = scan_parts(name, op->Scan_label, extra, base);
    let n: int = if op->Scan_label is Some {
        1
    } else {
        0
    };
    reveal_strlit("");
    assert forall|k: int| 0 <= k < op->Scan_extra_labels@.len() implies parts[1 + n + k] == said(
        labelled(v, base, (#[trigger] op->Scan_extra_labels@[k])@),
    ) by {
        assert(extra[k] == op->Scan_extra_labels@[k]@);
        lemma_labelled(v, base, extra[k]);
        assert(said(labelled(v, base, extra[k])) + ""@ =~= said(labelled(v, base, extra[k])));
        assert(parts[1 + n + k] == crate::lqa::write::where_parts::type_triples(
            v,
            base,
            extra,
            ""@,
        )[k]);
    }
}

/// Whether a comparison sign of SPARQL holds between two numbers.
pub open spec fn sign_holds(sign: Seq<char>, x: int, y: int) -> bool {
    if sign == " < "@ {
        x < y
    } else if sign == " > "@ {
        x > y
    } else if sign == " <= "@ {
        x <= y
    } else if sign == " >= "@ {
        x >= y
    } else if sign == " = "@ {
        x == y
    } else {
        x != y
    }
}

/// Whether a comparison of a query holds between two numbers.
pub open spec fn comparison_holds(op: CmpOp, x: int, y: int) -> bool {
    match op {
        CmpOp::Eq => x == y,
        CmpOp::Ne => x != y,
        CmpOp::Lt => x < y,
        CmpOp::Le => x <= y,
        CmpOp::Gt => x > y,
        CmpOp::Ge => x >= y,
        _ => false,
    }
}

/// A comparison becomes a filter with the left side on the left and the right side on
/// the right, and a sign that holds between just the numbers between which the comparison
/// does.
pub proof fn law_filter_compares(op: CmpOp, lhs: Expr, rhs: Expr, base: Seq<char>) -> (sign: Seq<char>)
    requires
        op is Eq || op is Ne || op is Lt || op is Le || op is Gt || op is Ge,
        crate::lqa::write::where_parts::filter_expr(lhs, base).text is Some,
        crate::lqa::write::where_parts::filter_expr(rhs, base).text is Some,
    ensures
        filter_of(op, lhs, rhs, base).text == Some(
            "FILTER("@ + crate::lqa::write::where_parts::filter_expr(lhs, base).text->0 + sign
                + crate::lqa::write::where_parts::filter_expr(rhs, base).text->0 + ")"@,
        ),
        filter_of(op, lhs, rhs, base).added
            == crate::lqa::write::where_parts::filter_expr(lhs, base).added
            + crate::lqa::write::where_parts::filter_expr(rhs, base).added,
        forall|x: int, y: int| #[trigger]
            sign_holds(sign, x, y) == comparison_holds(op, x, y),
{
    reveal_strlit(" ");
    reveal_strlit("<");
    reveal_strlit(">");
    reveal_strlit("<=");
    reveal_strlit(">=");
    reveal_strlit("=");
    reveal_strlit("!=");
    reveal_strlit(" < ");
    reveal_strlit(" > ");
    reveal_strlit(" <= ");
    reveal_strlit(" >= ");
    reveal_strlit(" = ");
    reveal_strlit(" != ");
    let sign = match op {
        CmpOp::Eq => " = "@,
        CmpOp::Ne => " != "@,
        CmpOp::Lt => " < "@,
        CmpOp::Le => " <= "@,
        CmpOp::Gt => " > "@,
        _ => " >= "@,
    };
    assert(" < "@[1] == '<' && " > "@[1] == '>' && " <= "@[1] == '<' && " >= "@[1] == '>'
        && " = "@[1] == '=' && " != "@[1] == '!');
    assert(" < "@.len() == 3 && " > "@.len() == 3 && " <= "@.len() == 4 && " >= "@.len() == 4
        && " = "@.len() == 3 && " != "@.len() == 4);
    assert(sign =~= " "@ + cmp_sign(op)->0 + " "@);
    let a = crate::lqa::write::where_parts::filter_expr(lhs, base).text->0;
    let b = crate::lqa::write::where_parts::filter_expr(rhs, base).text->0;
    assert("FILTER("@ + a + " "@ + cmp_sign(op)->0 + " "@ + b + ")"@ =~= "FILTER("@ + a + sign + b
        + ")"@);
    sign
}

/// A property in a filter is read, under a variable of its own, from the node that it is
/// one of.
pub proof fn law_filter_reads_property(e: Expr, base: Seq<char>)
    requires
        e matches Expr::Property(node, _) && *node is Variable,
    ensures
        ({
            let name = (*e->Property_0)->Variable_name@;
            let key = e->Property_1@;
            let v = value_variable(name, key, "_flt"@);
            let f = crate::lqa::write::where_parts::filter_expr(e, base);
            f.text == Some(v) && f.added == seq![
                "OPTIONAL { "@ + said(property(name, key, v, base)) + " }"@,
            ]
        }),
{
}

/// `n.key = constant`, either way round, asks for the triple that says so.
pub proof fn law_equality_is_a_triple(e: Expr, value: Expr, base: Seq<char>)
    requires
        e matches Expr::Property(node, _) && *node is Variable,
        expr_to_sparql_lit_spec(value) is Some,
        !(value is Property),
    ensures
        ({
            let t = said(
                property(
                    (*e->Property_0)->Variable_name@,
                    e->Property_1@,
                    expr_to_sparql_lit_spec(value)->0,
                    base,
                ),
            );
            &&& crate::lqa::write::where_parts::predicate_parts(
                Expr::Comparison(CmpOp::Eq, Box::new(e), Box::new(value)),
                base,
            ) == seq![t]
            &&& crate::lqa::write::where_parts::predicate_parts(
                Expr::Comparison(CmpOp::Eq, Box::new(value), Box::new(e)),
                base,
            ) == seq![t]
        }),
{
}

/// What both sides of a conjunction ask for is asked for.
pub proof fn law_conjunction_asks_for_both(a: Expr, b: Expr, base: Seq<char>)
    ensures
        crate::lqa::write::where_parts::predicate_parts(
            Expr::And(Box::new(a), Box::new(b)),
            base,
        ) == crate::lqa::write::where_parts::predicate_parts(a, base)
            + crate::lqa::write::where_parts::predicate_parts(b, base),
{
}

// ── MERGE ────────────────────────────────────────────────────────────────────

/// The pattern of a MERGE: a relationship of one type between two nodes, with nothing
/// asked of it.
pub open spec fn merges_relationship(clause: MergeClause) -> bool {
    &&& *clause.pattern is Expand
    &&& (*clause.pattern)->Expand_range is None
    &&& (*clause.pattern)->Expand_rel_types@.len() == 1
}

/// The triple that the merged relationship is, with the ends as they are given.
pub open spec fn merged(
    clause: MergeClause,
    from: Seq<char>,
    to: Seq<char>,
    base: Seq<char>,
) -> Triple {
    relation(
        from,
        named(base, (*clause.pattern)->Expand_rel_types@[0]@),
        to,
        (*clause.pattern)->Expand_direction,
    )
}

/// Whether both ends of the merged relationship are matched before.
pub open spec fn ends_are_matched(clause: MergeClause, parts: Seq<Seq<char>>) -> bool {
    let op = *clause.pattern;
    any_contains_spec(parts, variable(op->Expand_from@)) && any_contains_spec(
        parts,
        variable(op->Expand_to@),
    )
}

/// The triples that `ON CREATE SET` adds to a new relationship are about the
/// relationship that is made.
pub open spec fn is_about(more: Seq<Seq<char>>, t: Triple) -> bool {
    forall|i: int|
        0 <= i < more.len() ==> starts_with_spec(
            #[trigger] more[i],
            "<< "@ + said(t) + " >> "@,
        )
}

proof fn lemma_join_more(t: Seq<char>, more: Seq<Seq<char>>)
    ensures
        more.len() == 0 ==> join_spec(seq![t] + more, " . "@) == t,
        more.len() > 0 ==> join_spec(seq![t] + more, " . "@) == t + " . "@ + join_spec(
            more,
            " . "@,
        ),
    decreases more.len(),
{
    let all = seq![t] + more;
    if more.len() > 0 {
        lemma_join_more(t, more.drop_last());
        assert(all.drop_last() =~= seq![t] + more.drop_last());
        assert(all.last() == more.last());
        if more.len() == 1 {
            assert(all.drop_last() =~= seq![t]);
            assert(join_spec(all, " . "@) =~= t + " . "@ + more[0]);
        } else {
            assert(join_spec(all, " . "@) =~= t + " . "@ + join_spec(more, " . "@));
        }
    }
}

proof fn lemma_no_conditions(s: Seq<char>, p: Seq<char>, o: Seq<char>)
    ensures
        required_triples(s, p, o, Seq::<ConditionView>::empty()) == seq![
            said(Triple { s, p, o }),
        ],
        condition_tail(s, p, o, Seq::<ConditionView>::empty()) == Seq::<char>::empty(),
{
    assert(required_triples(s, p, o, Seq::<ConditionView>::empty()) =~= seq![
        said(Triple { s, p, o }),
    ]);
}

proof fn lemma_about(
    items: Seq<SetItem>,
    s: Seq<char>,
    p: Seq<char>,
    o: Seq<char>,
    base: Seq<char>,
)
    ensures
        is_about(on_create_rel(items, s, p, o, base), Triple { s, p, o }),
    decreases items.len(),
{
    let t = Triple { s, p, o };
    let f = |it: SetItem| match it {
        SetItem::Property { key, value, .. } => match expr_to_sparql_lit_spec(value) {
            Some(lit) => seq![
                crate::lqa::write::where_parts::triple(
                    quoted_triple(s, p, o),
                    crate::lqa::write::where_parts::iri(base, key@),
                    lit,
                ),
            ],
            None => seq![],
        },
        _ => seq![],
    };
    assert(on_create_rel(items, s, p, o, base) == collect(items, f));
    if items.len() > 0 {
        lemma_about(items.drop_last(), s, p, o, base);
        let before = collect(items.drop_last(), f);
        let last = f(items.last());
        assert forall|i: int| 0 <= i < last.len() implies starts_with_spec(
            #[trigger] last[i],
            "<< "@ + said(t) + " >> "@,
        ) by {
            reveal_strlit(" >>");
            reveal_strlit(" ");
            reveal_strlit(" >> ");
            let head = "<< "@ + said(t) + " >> "@;
            assert(head =~= "<< "@ + said(t) + " >>"@ + " "@);
            assert(last[i].take(head.len() as int) =~= head);
        }
        assert forall|i: int| 0 <= i < (before + last).len() implies starts_with_spec(
            #[trigger] (before + last)[i],
            "<< "@ + said(t) + " >> "@,
        ) by {
            if i < before.len() {
                assert((before + last)[i] == before[i]);
            } else {
                assert((before + last)[i] == last[i - before.len()]);
            }
        }
    }
}

/// What a statement of a MERGE makes: a triple, and what `ON CREATE SET` says of it.
pub open spec fn made_with(t: Triple, more: Seq<Seq<char>>) -> Seq<char> {
    if more.len() == 0 {
        said(t)
    } else {
        said(t) + " . "@ + join_spec(more, " . "@)
    }
}

/// A MERGE of a relationship with a direction between two matched nodes makes, where it is
/// not there, the triple from the start to the end of the relationship, the other way round
/// where it comes in; it is the triple that a MATCH of the same pattern asks for. With
/// nothing to do for a match there is no other statement.
pub proof fn law_merge_makes_what_match_asks_for(
    clause: MergeClause,
    outer: Seq<Seq<char>>,
    base: Seq<char>,
    counter: nat,
    nodes: Map<Seq<char>, Seq<char>>,
)
    requires
        merges_relationship(clause),
        !((*clause.pattern)->Expand_direction is Undirected),
        where_parts(*(*clause.pattern)->Expand_inner, base) is Ok,
        ends_are_matched(
            clause,
            outer + where_parts(*(*clause.pattern)->Expand_inner, base)->Ok_0,
        ),
        set_items(
            clause.on_match@,
            (outer + where_parts(*(*clause.pattern)->Expand_inner, base)->Ok_0).push(
                said(
                    merged(
                        clause,
                        variable((*clause.pattern)->Expand_from@),
                        variable((*clause.pattern)->Expand_to@),
                        base,
                    ),
                ),
            ),
            base,
        ) is Ok,
    ensures
        ({
            let op = *clause.pattern;
            let t = merged(clause, variable(op->Expand_from@), variable(op->Expand_to@), base);
            let before = outer + where_parts(*op->Expand_inner, base)->Ok_0;
            let patterns = join_spec(before, " . "@);
            let absent = "FILTER NOT EXISTS { "@ + said(t) + " }"@;
            &&& where_parts(op, base) matches Ok(asked) && asked.last() == said(t)
            &&& merge_clause(clause, outer, base, counter, nodes).lines matches Ok(lines)
            &&& exists|more: Seq<Seq<char>>|
                #![trigger is_about(more, t)]
                {
                    &&& is_about(more, t)
                    &&& clause.on_create@.len() == 0 ==> more.len() == 0
                    &&& lines.len() > 0 && lines[0] == "INSERT { "@ + made_with(t, more)
                        + " } WHERE { "@ + (if patterns.len() == 0 {
                        absent
                    } else {
                        patterns + " . "@ + absent
                    }) + " }"@
                }
            &&& clause.on_match@.len() == 0 ==> lines.len() == 1
            &&& lines.skip(1) == (if clause.on_match@.len() == 0 {
                seq![]
            } else {
                set_items(clause.on_match@, before.push(said(t)), base)->Ok_0
            })
        }),
{
    let op = *clause.pattern;
    let from = op->Expand_from@;
    let to = op->Expand_to@;
    let direction = op->Expand_direction;
    let types = texts(op->Expand_rel_types@);
    let rt = types[0];
    assert(rt == op->Expand_rel_types@[0]@);
    law_match_asks_for_relationship(op, base, 0);
    let t = merged(clause, variable(from), variable(to), base);
    let before = outer + where_parts(*op->Expand_inner, base)->Ok_0;
    let none = Seq::<ConditionView>::empty();
    let made = on_create_rel(clause.on_create@, t.s, t.p, t.o, base);
    lemma_about(clause.on_create@, t.s, t.p, t.o, base);
    lemma_no_conditions(t.s, t.p, t.o);
    lemma_join_more(said(t), made);
    let step = |r: Seq<char>|
        merge_matched_type(
            r,
            from,
            to,
            direction,
            clause.on_match@,
            clause.on_create@,
            none,
            before,
            base,
        );
    let one = merge_matched_type(
        rt,
        from,
        to,
        direction,
        clause.on_match@,
        clause.on_create@,
        none,
        before,
        base,
    );
    assert(types.drop_last() =~= Seq::<Seq<char>>::empty());
    assert(types.last() == rt);
    assert(step(rt) == one);
    assert(run_all(Seq::<Seq<char>>::empty(), step) == Outcome::Ok(seq![]));
    assert(one is Ok);
    let lines = one->Ok_0;
    assert(Seq::<Seq<char>>::empty() + lines =~= lines);
    assert(run_all(types, step) == Outcome::Ok(lines));
    assert(merge_clause(clause, outer, base, counter, nodes).lines == merge_rel(
        *op->Expand_inner,
        from,
        to,
        types,
        direction,
        clause.on_match@,
        clause.on_create@,
        outer,
        base,
        nodes,
        none,
    ));
    assert(said(t) + Seq::<char>::empty() =~= said(t));
    assert(rel_absent(t.s, t.p, t.o, direction, none) == said(t));
    if clause.on_create@.len() == 0 {
        assert(made.len() == 0);
    }
    assert(is_about(made, t));
    if clause.on_match@.len() == 0 {
        assert(lines.skip(1) =~= Seq::<Seq<char>>::empty());
    } else {
        assert(lines.skip(1) =~= set_items(clause.on_match@, before.push(said(t)), base)->Ok_0);
    }
}

/// As for matched nodes, where the two nodes are known by their IRIs from the CREATE that
/// made them.
pub proof fn law_merge_between_known_nodes(
    clause: MergeClause,
    outer: Seq<Seq<char>>,
    base: Seq<char>,
    counter: nat,
    nodes: Map<Seq<char>, Seq<char>>,
)
    requires
        merges_relationship(clause),
        where_parts(*(*clause.pattern)->Expand_inner, base) is Ok,
        !ends_are_matched(
            clause,
            outer + where_parts(*(*clause.pattern)->Expand_inner, base)->Ok_0,
        ),
        nodes.contains_key((*clause.pattern)->Expand_from@),
        nodes.contains_key((*clause.pattern)->Expand_to@),
        starts_with_char_spec(nodes[(*clause.pattern)->Expand_from@], '<'),
        starts_with_char_spec(nodes[(*clause.pattern)->Expand_to@], '<'),
    ensures
        ({
            let op = *clause.pattern;
            let t = merged(clause, nodes[op->Expand_from@], nodes[op->Expand_to@], base);
            &&& merge_clause(clause, outer, base, counter, nodes).lines matches Ok(lines)
            &&& exists|more: Seq<Seq<char>>|
                #![trigger is_about(more, t)]
                {
                    &&& is_about(more, t)
                    &&& clause.on_create@.len() == 0 ==> more.len() == 0
                    &&& lines.len() > 0 && lines[0] == "INSERT { "@ + made_with(t, more)
                        + " } WHERE { "@ + ("FILTER NOT EXISTS { "@ + said(t) + " }"@) + " }"@
                }
            &&& clause.on_match@.len() == 0 ==> lines.len() == 1
        }),
{
    let op = *clause.pattern;
    let types = texts(op->Expand_rel_types@);
    let rt = types[0];
    assert(rt == op->Expand_rel_types@[0]@);
    law_match_asks_for_relationship(op, base, 0);
    let t = merged(clause, nodes[op->Expand_from@], nodes[op->Expand_to@], base);
    let none = Seq::<ConditionView>::empty();
    let made = on_create_rel(clause.on_create@, t.s, t.p, t.o, base);
    lemma_about(clause.on_create@, t.s, t.p, t.o, base);
    lemma_no_conditions(t.s, t.p, t.o);
    lemma_join_more(said(t), made);
    let step = |r: Seq<char>|
        merge_known_type(r, (t.s, t.o), clause.on_match@, clause.on_create@, none, base);
    let one = merge_known_type(rt, (t.s, t.o), clause.on_match@, clause.on_create@, none, base);
    assert(types.drop_last() =~= Seq::<Seq<char>>::empty());
    assert(types.last() == rt);
    assert(step(rt) == one);
    assert(collect(Seq::<Seq<char>>::empty(), step) =~= Seq::<Seq<char>>::empty());
    assert(Seq::<Seq<char>>::empty() + one =~= one);
    assert(collect(types, step) == one);
    assert(merge_known(types, (t.s, t.o), clause.on_match@, clause.on_create@, none, base) == one);
    assert(merge_clause(clause, outer, base, counter, nodes).lines == Outcome::Ok(one));
    assert(join_spec(seq![said(t)], " . "@) == said(t));
    if clause.on_create@.len() == 0 {
        assert(made.len() == 0);
    }
    assert(is_about(made, t));
}

/// A property that `ON MATCH SET` gives to a relationship between known nodes replaces the
/// old value, where the relationship is there.
pub proof fn law_on_match_replaces(item: SetItem, t: Triple, base: Seq<char>) -> (u: Update)
    requires
        item is Property,
        expr_to_sparql_lit_spec(item->Property_value) is Some,
    ensures
        crate::lqa::write::merge::on_match_known(seq![item], t.s, t.p, t.o, base) == seq![
            written(u),
        ],
        starts_with_spec(u.cond, said(t) + " . "@),
        forall|graph: Set<Fact>, row: Row, f: Fact|
            #![trigger holds_after(u, graph, row, f)]
            {
                let about = "<< "@ + said(t) + " >>"@;
                let now = Triple {
                    s: about,
                    p: named(base, item->Property_key@),
                    o: expr_to_sparql_lit_spec(item->Property_value)->0,
                };
                let was = Triple {
                    s: about,
                    p: named(base, item->Property_key@),
                    o: "?__on_match_old"@,
                };
                holds_after(u, graph, row, f) == (f == fact(now, row) || (f != fact(was, row)
                    && graph.contains(f)))
            },
{
    let about = "<< "@ + said(t) + " >>"@;
    let key = item->Property_key@;
    let lit = expr_to_sparql_lit_spec(item->Property_value)->0;
    let now = Triple { s: about, p: named(base, key), o: lit };
    let was = Triple { s: about, p: named(base, key), o: "?__on_match_old"@ };
    let cond = said(t) + " . "@ + ("OPTIONAL { "@ + said(was) + " }"@);
    let u = Update { gone: seq![was], made: seq![now], cond };
    lemma_one(was);
    lemma_one(now);
    let head = said(t) + " . "@;
    assert(cond.take(head.len() as int) =~= head);
    let items = seq![item];
    let f = |it: SetItem| match it {
        SetItem::Property { key, value, .. } => match expr_to_sparql_lit_spec(value) {
            Some(lit) => {
                let was = crate::lqa::write::where_parts::triple(
                    quoted_triple(t.s, t.p, t.o),
                    crate::lqa::write::where_parts::iri(base, key@),
                    "?__on_match_old"@,
                );
                let now = crate::lqa::write::where_parts::triple(
                    quoted_triple(t.s, t.p, t.o),
                    crate::lqa::write::where_parts::iri(base, key@),
                    lit,
                );
                seq![
                    crate::lqa::write::updates::delete_insert(
                        was,
                        now,
                        crate::lqa::write::updates::and_then(
                            crate::lqa::write::where_parts::triple(t.s, t.p, t.o),
                            crate::lqa::write::where_parts::optional(was),
                        ),
                    ),
                ]
            },
            None => seq![],
        },
        _ => seq![],
    };
    assert(items.drop_last() =~= Seq::<SetItem>::empty());
    assert(collect(Seq::<SetItem>::empty(), f) =~= Seq::<Seq<char>>::empty());
    assert(collect(items, f) =~= f(item));
    assert(f(item) =~= seq![written(u)]);
    assert forall|graph: Set<Fact>, row: Row, x: Fact|
        #![trigger holds_after(u, graph, row, x)]
        holds_after(u, graph, row, x) == (x == fact(now, row) || (x != fact(was, row)
            && graph.contains(x))) by {
        assert(u.made[0] == now);
        assert(u.gone[0] == was);
    }
    u
}

/// A MERGE of a relationship without a direction makes it from the start to the end, where
/// it is there in neither direction.
pub proof fn law_merge_without_direction(
    rel_type: Seq<char>,
    from: Seq<char>,
    to: Seq<char>,
    parts: Seq<Seq<char>>,
    base: Seq<char>,
)
    ensures
        ({
            let p = named(base, rel_type);
            let there = Triple { s: variable(from), p, o: variable(to) };
            let back = Triple { s: variable(to), p, o: variable(from) };
            let patterns = join_spec(parts, " . "@);
            let absent = "FILTER NOT EXISTS { "@ + ("{ "@ + said(there) + " } UNION { "@ + said(
                back,
            ) + " }"@) + " }"@;
            merge_matched_type(
                rel_type,
                from,
                to,
                Direction::Undirected,
                seq![],
                seq![],
                seq![],
                parts,
                base,
            ) == Outcome::Ok(
                seq![
                    "INSERT { "@ + said(there) + " } WHERE { "@ + (if patterns.len() == 0 {
                        absent
                    } else {
                        patterns + " . "@ + absent
                    }) + " }"@,
                ],
            )
        }),
{
    let p = named(base, rel_type);
    let there = Triple { s: variable(from), p, o: variable(to) };
    let back = Triple { s: variable(to), p, o: variable(from) };
    let none = Seq::<ConditionView>::empty();
    let items = Seq::<SetItem>::empty();
    lemma_no_conditions(there.s, there.p, there.o);
    let made = on_create_rel(items, there.s, there.p, there.o, base);
    assert(made =~= Seq::<Seq<char>>::empty());
    lemma_join_more(said(there), made);
    let tail = Seq::<char>::empty();
    assert("{ "@ + said(there) + tail + " } UNION { "@ + said(back) + tail + " }"@ =~= "{ "@ + said(
        there,
    ) + " } UNION { "@ + said(back) + " }"@);
}

proof fn lemma_marked(s: Seq<char>, base: Seq<char>)
    ensures
        crate::lqa::write::where_parts::node_triple(s, base) == said(
            Triple { s, p: named(base, "__node"@), o: named(base, "__node"@) },
        ),
{
    reveal_strlit(" ");
    reveal_strlit(" <");
    reveal_strlit("<");
    reveal_strlit(">");
    reveal_strlit("__node> <");
    reveal_strlit("__node>");
    reveal_strlit("__node");
    assert(crate::lqa::write::where_parts::node_triple(s, base) =~= said(
        Triple { s, p: named(base, "__node"@), o: named(base, "__node"@) },
    ));
}

proof fn lemma_insert_text(first: Seq<char>, more: Seq<Seq<char>>, asked: Seq<char>)
    ensures
        ({
            let whole = "INSERT { "@ + join_spec(seq![first] + more, " . "@) + " } WHERE { "@ + (
            "FILTER NOT EXISTS { "@ + asked + " }"@) + " }"@;
            &&& starts_with_spec(whole, "INSERT { "@ + first)
            &&& crate::sparql::value::ends_with(
                whole,
                " } WHERE { FILTER NOT EXISTS { "@ + asked + " } }"@,
            )
        }),
{
    lemma_join_more(first, more);
    let body = join_spec(seq![first] + more, " . "@);
    let cond = "FILTER NOT EXISTS { "@ + asked + " }"@;
    let whole = "INSERT { "@ + body + " } WHERE { "@ + cond + " }"@;
    let head = "INSERT { "@ + first;
    assert(body.take(first.len() as int) =~= first);
    assert(whole.take(head.len() as int) =~= head) by {
        assert forall|i: int| 0 <= i < head.len() implies whole[i] == head[i] by {
            if i >= "INSERT { "@.len() {
                let j = i - "INSERT { "@.len();
                assert(body.take(first.len() as int)[j] == body[j]);
            }
        }
    }
    reveal_strlit(" } WHERE { ");
    reveal_strlit("FILTER NOT EXISTS { ");
    reveal_strlit(" } WHERE { FILTER NOT EXISTS { ");
    reveal_strlit(" }");
    reveal_strlit(" } }");
    let tail = " } WHERE { FILTER NOT EXISTS { "@ + asked + " } }"@;
    let rest = " } WHERE { "@ + cond + " }"@;
    assert(rest =~= tail);
    assert(whole =~= ("INSERT { "@ + body) + rest);
    assert(whole.skip(whole.len() - tail.len()) =~= tail);
}

/// A MERGE of a node makes one where there is none of what a MATCH of the same pattern asks
/// for; `ON MATCH SET` is for what the match finds.
pub proof fn law_merge_node(
    clause: MergeClause,
    base: Seq<char>,
    counter: nat,
    nodes: Map<Seq<char>, Seq<char>>,
)
    requires
        *clause.pattern is Scan,
        set_items(
            clause.on_match@,
            where_parts(*clause.pattern, base)->Ok_0,
            base,
        ) is Ok,
    ensures
        ({
            let asked = where_parts(*clause.pattern, base)->Ok_0;
            let node = "_:__mn"@ + dec(counter as int);
            &&& where_parts(*clause.pattern, base) is Ok
            &&& merge_clause(clause, seq![], base, counter, nodes).lines matches Ok(lines)
            &&& lines.len() > 0
            &&& starts_with_spec(
                lines[0],
                "INSERT { "@ + said(
                    Triple { s: node, p: named(base, "__node"@), o: named(base, "__node"@) },
                ),
            )
            &&& crate::sparql::value::ends_with(
                lines[0],
                " } WHERE { FILTER NOT EXISTS { "@ + join_spec(asked, " . "@) + " } }"@,
            )
            &&& lines.skip(1) == (if clause.on_match@.len() == 0 {
                seq![]
            } else {
                set_items(clause.on_match@, asked, base)->Ok_0
            })
        }),
{
    let op = *clause.pattern;
    law_scan_asks_for_labels(op, base);
    let asked = where_parts(op, base)->Ok_0;
    let node = "_:__mn"@ + dec(counter as int);
    let first = Triple { s: node, p: named(base, "__node"@), o: named(base, "__node"@) };
    lemma_marked(node, base);
    let lines = merge_clause(clause, seq![], base, counter, nodes).lines->Ok_0;
    let name = op->Scan_variable@;
    let more = crate::lqa::write::merge::merged_triples(asked, name, node, base)
        + crate::lqa::write::merge::on_create_triples(clause.on_create@, node, base);
    lemma_join_more(said(first), more);
    let ins = seq![said(first)] + crate::lqa::write::merge::merged_triples(asked, name, node, base)
        + crate::lqa::write::merge::on_create_triples(clause.on_create@, node, base);
    assert(ins =~= seq![said(first)] + more);
    lemma_insert_text(said(first), more, join_spec(asked, " . "@));
    if clause.on_match@.len() == 0 {
        assert(lines.skip(1) =~= Seq::<Seq<char>>::empty());
    } else {
        assert(lines.skip(1) =~= set_items(clause.on_match@, asked, base)->Ok_0);
    }
}

} // verus!
