//! `UNWIND`: a row for each element of a list.
use vstd::prelude::*;

use crate::ast::copy::{clone_expression, clone_exprs};
use crate::ast::cypher::{Expression, Literal, UnwindClause};
#[allow(unused_imports)]
use crate::ast::model as m;
use crate::error::PolygraphError;
use crate::lqa::write::literals::XSD_INTEGER;
use crate::sparql::algebra as sparql;
use crate::sparql::copy::clone_ground_term;
#[allow(unused_imports)]
use crate::sparql::model as g;
use crate::text::{chars_of, dec_i64, eq_ignore_ascii_case, push_text, split};
#[allow(unused_imports)]
use crate::text::{dec, same_ignoring_case, split_spec, texts};
use crate::translator::analysis::add_name;
#[allow(unused_imports)]
use crate::translator::analysis::with_name;
use crate::translator::constant::{get_literal_int, is_null_literal};
#[allow(unused_imports)]
use crate::translator::constant::{as_int, is_null, literal_int};
use crate::translator::ground::{
    expr_to_ground_term, plain_literal, serialize_list_element, typed_literal,
};
#[allow(unused_imports)]
use crate::translator::ground::{element_text, ground_term, plain, typed};
use crate::translator::refusal::unsupported_feature;
#[allow(unused_imports)]
use crate::translator::refusal::{refusal_of, Refusal};
use crate::translator::sort_key::sort_key_for_expr;
#[allow(unused_imports)]
use crate::translator::sort_key::sort_key;
#[allow(unused_imports)]
use crate::translator::scope::{Output, Scope};
use crate::translator::state::TranslationState;
#[allow(unused_imports)]
use crate::translator::unwind_keys::{keys_fresh, keys_pattern};
use crate::translator::variable::accepts_variable;
#[allow(unused_imports)]
use crate::translator::variable::is_variable_name;

verus! {

/// What unwinding an expression gives: the pattern with the rows, and what is
/// noted of the variable.
pub ghost struct Unwound {
    pub pattern: Result<g::GraphPattern, Refusal>,
    /// Null is among the elements
    pub has_null: bool,
    /// So is another value
    pub mixed: bool,
    /// A second variable holds sort keys
    pub keyed: bool,
    /// The list of lists that the variable is unwound from
    pub source: Option<m::Expression>,
    /// How many fresh variables were taken
    pub fresh: int,
}

pub open spec fn plainly(pattern: Result<g::GraphPattern, Refusal>) -> Unwound {
    Unwound { pattern, has_null: false, mixed: false, keyed: false, source: None, fresh: 0 }
}

pub open spec fn refused(feature: Seq<char>) -> Unwound {
    plainly(Err(Refusal::Unsupported(feature)))
}

// ── Rows ─────────────────────────────────────────────────────────────────────

/// What an element is bound to: null to nothing, a constant to itself.
pub open spec fn element_term(e: m::Expression) -> Result<Option<g::GroundTerm>, Refusal> {
    if is_null(e) {
        Ok(None)
    } else {
        match ground_term(e) {
            Ok(g::Term::Literal(l)) => Ok(Some(g::GroundTerm::Literal(l))),
            Ok(_) => Err(Refusal::Unsupported("variable in UNWIND list"@)),
            Err(x) => Err(x),
        }
    }
}

/// As [`element_term`], with lists and maps as text.
pub open spec fn row_term(e: m::Expression) -> Result<Option<g::GroundTerm>, Refusal> {
    if e is List || e is MapLit {
        Ok(Some(g::GroundTerm::Literal(plain(element_text(e)))))
    } else {
        element_term(e)
    }
}

pub open spec fn key_term(e: m::Expression) -> Option<g::GroundTerm> {
    Some(g::GroundTerm::Literal(plain(sort_key(e))))
}

/// The row of an element.
pub open spec fn row_of(t: Option<g::GroundTerm>, e: m::Expression, keyed: bool) -> Seq<
    Option<g::GroundTerm>,
> {
    if keyed {
        seq![t, key_term(e)]
    } else {
        seq![t]
    }
}

/// The rows of the first `k` elements; what the first of them that has no row
/// is refused for.
pub open spec fn list_rows(
    items: Seq<m::Expression>,
    k: int,
    keyed: bool,
) -> Result<Seq<Seq<Option<g::GroundTerm>>>, Refusal>
    decreases k,
{
    if k <= 0 || k > items.len() {
        Ok(seq![])
    } else {
        match list_rows(items, k - 1, keyed) {
            Err(x) => Err(x),
            Ok(rows) => match row_term(items[k - 1]) {
                Err(x) => Err(x),
                Ok(t) => Ok(rows.push(row_of(t, items[k - 1], keyed))),
            },
        }
    }
}

pub open spec fn any_null(items: Seq<m::Expression>) -> bool {
    exists|i: int| 0 <= i < items.len() && is_null(#[trigger] items[i])
}

pub open spec fn any_value(items: Seq<m::Expression>) -> bool {
    exists|i: int| 0 <= i < items.len() && !is_null(#[trigger] items[i])
}

/// Whether SPARQL would not order the elements as Cypher does.
pub open spec fn needs_key(items: Seq<m::Expression>) -> bool {
    exists|i: int|
        0 <= i < items.len() && (is_null(#[trigger] items[i]) || items[i] is List || items[i] is MapLit)
}

pub open spec fn any_list(items: Seq<m::Expression>) -> bool {
    exists|i: int| 0 <= i < items.len() && (#[trigger] items[i]) is List
}

pub open spec fn key_name(variable: Seq<char>) -> Seq<char> {
    "__sk_"@ + variable
}

/// The rows of a list, with sort keys where they are needed.
pub open spec fn unwound_list(
    items: Seq<m::Expression>,
    variable: Seq<char>,
) -> Unwound {
    let keyed = needs_key(items);
    let rows = list_rows(items, items.len() as int, keyed);
    Unwound {
        pattern: match rows {
            Ok(bindings) => Ok(
                g::GraphPattern::Values {
                    variables: if keyed {
                        seq![variable, key_name(variable)]
                    } else {
                        seq![variable]
                    },
                    bindings,
                },
            ),
            Err(x) => Err(x),
        },
        has_null: any_null(items),
        mixed: any_null(items) && any_value(items),
        keyed: keyed && rows is Ok,
        source: None,
        fresh: 0,
    }
}

/// How many numbers there are from `i` to the end.
pub open spec fn left(i: int, end: int, step: int) -> int {
    if step > 0 && i <= end {
        end - i + 1
    } else if step < 0 && i >= end {
        i - end + 1
    } else {
        0
    }
}

/// The numbers from `i` on, step by step, that do not go past the end.
pub open spec fn range_rows(i: int, end: int, step: int) -> Seq<Seq<Option<g::GroundTerm>>>
    decreases left(i, end, step),
{
    if (step > 0 && i <= end) || (step < 0 && i >= end) {
        seq![seq![Some(g::GroundTerm::Literal(typed(dec(i), XSD_INTEGER@)))]] + range_rows(
            i + step,
            end,
            step,
        )
    } else {
        seq![]
    }
}

pub open spec fn int_at(args: Seq<m::Expression>, i: int) -> Option<int> {
    if 0 <= i < args.len() {
        literal_int(args[i])
    } else {
        None
    }
}

/// `range(start, end)` or `range(start, end, step)`
pub open spec fn unwound_range(args: Seq<m::Expression>, variable: Seq<char>) -> Unwound {
    let step = match int_at(args, 2) {
        Some(n) => n,
        None => 1,
    };
    match (int_at(args, 0), int_at(args, 1)) {
        (Some(s), Some(e)) => if step == 0 {
            refused("range() with step=0"@)
        } else {
            plainly(
                Ok(
                    g::GraphPattern::Values {
                        variables: seq![variable],
                        bindings: range_rows(s, e, step),
                    },
                ),
            )
        },
        _ => refused("range() with non-literal arguments"@),
    }
}

// ── Lists of lists ───────────────────────────────────────────────────────────

/// The rows of the first `k` elements of a list, each with the text of the list.
pub open spec fn inner_rows(
    list: g::GroundTerm,
    elements: Seq<m::Expression>,
    k: int,
) -> Result<Seq<Seq<Option<g::GroundTerm>>>, Refusal>
    decreases k,
{
    if k <= 0 || k > elements.len() {
        Ok(seq![])
    } else {
        match inner_rows(list, elements, k - 1) {
            Err(x) => Err(x),
            Ok(rows) => match element_term(elements[k - 1]) {
                Err(x) => Err(x),
                Ok(t) => Ok(rows.push(seq![Some(list), t])),
            },
        }
    }
}

/// The rows of the first `k` lists; what is no list has none.
pub open spec fn outer_rows(lists: Seq<m::Expression>, k: int) -> Result<
    Seq<Seq<Option<g::GroundTerm>>>,
    Refusal,
>
    decreases k,
{
    if k <= 0 || k > lists.len() {
        Ok(seq![])
    } else {
        match outer_rows(lists, k - 1) {
            Err(x) => Err(x),
            Ok(rows) => match lists[k - 1] {
                m::Expression::List(elements) => match inner_rows(
                    list_term(lists[k - 1]),
                    elements,
                    elements.len() as int,
                ) {
                    Err(x) => Err(x),
                    Ok(more) => Ok(rows + more),
                },
                _ => Ok(rows),
            },
        }
    }
}

pub open spec fn list_term(e: m::Expression) -> g::GroundTerm {
    g::GroundTerm::Literal(plain(element_text(e)))
}

/// The rows of a variable that was itself unwound from a list of lists: each
/// list with each of its elements.
pub open spec fn unwound_inner(
    lists: Seq<m::Expression>,
    list_var: Seq<char>,
    variable: Seq<char>,
) -> Unwound {
    if !is_variable_name(variable) {
        refused("invalid variable name in UNWIND"@)
    } else {
        plainly(
            match outer_rows(lists, lists.len() as int) {
                Ok(bindings) => Ok(
                    g::GraphPattern::Values { variables: seq![list_var, variable], bindings },
                ),
                Err(x) => Err(x),
            },
        )
    }
}

// ── All of it ────────────────────────────────────────────────────────────────

/// A list, or the list that a variable is bound to.
pub open spec fn plain_list(e: m::Expression, lists: Map<Seq<char>, m::Expression>) -> Option<
    Seq<m::Expression>,
> {
    match e {
        m::Expression::List(items) => Some(items),
        m::Expression::Variable(v) => if lists.contains_key(v) {
            match lists[v] {
                m::Expression::List(items) => Some(items),
                _ => None,
            }
        } else {
            None
        },
        _ => None,
    }
}

pub open spec fn string_exprs(s: Seq<Seq<char>>) -> Seq<m::Expression> {
    Seq::new(s.len(), |i: int| m::Expression::Literal(m::Literal::String(s[i])))
}

/// The pieces of a text; its characters where there is nothing between them.
pub open spec fn pieces(s: Seq<char>, d: Seq<char>) -> Seq<Seq<char>> {
    if d.len() == 0 {
        Seq::new(s.len(), |i: int| seq![s[i]])
    } else {
        split_spec(s, d, 0, 0)
    }
}

pub open spec fn is_call(name: Seq<char>, of: Seq<char>) -> bool {
    same_ignoring_case(name, of)
}

/// A call of a function that gives a list.
pub open spec fn unwound_call(
    name: Seq<char>,
    args: Seq<m::Expression>,
    variable: Seq<char>,
    s: TranslationState,
) -> Unwound {
    if is_call(name, "range"@) {
        unwound_range(args, variable)
    } else if is_call(name, "split"@) && args.len() >= 2 && is_text(args[0]) && is_text(args[1]) {
        unwound_list(
            string_exprs(pieces(text_in(args[0]), text_in(args[1]))),
            variable,
        )
    } else if is_call(name, "keys"@) && args.len() == 1 && args[0] is Variable {
        Unwound {
            fresh: keys_fresh(s.scope.edge_map@, args[0]->Variable_0),
            ..plainly(Ok(keys_pattern(s, args[0]->Variable_0, variable)))
        }
    } else {
        refused("UNWIND of non-literal expression"@)
    }
}

pub open spec fn is_text(e: m::Expression) -> bool {
    e matches m::Expression::Literal(l) && l is String
}

pub open spec fn text_in(e: m::Expression) -> Seq<char> {
    e->Literal_0->String_0
}

/// What unwinding an expression gives, where so many variables, each bound to
/// the next, may be followed.
pub open spec fn unwound(
    e: m::Expression,
    variable: Seq<char>,
    s: TranslationState,
    hops: nat,
) -> Unwound
    decreases hops,
{
    match e {
        m::Expression::Literal(m::Literal::Null) => plainly(
            Ok(g::GraphPattern::Values { variables: seq![variable], bindings: seq![] }),
        ),
        m::Expression::FunctionCall { name, distinct, args } => unwound_call(
            name,
            args,
            variable,
            s,
        ),
        m::Expression::List(items) => unwound_list(items, variable),
        m::Expression::Variable(v) => if s.scope.with_list_vars@.contains_key(v) && hops > 0 {
            let list = s.scope.with_list_vars@[v];
            let u = unwound(list, variable, s, (hops - 1) as nat);
            Unwound {
                source: match u.source {
                    Some(l) => Some(l),
                    None => if list matches m::Expression::List(items) && any_list(items) {
                        Some(list)
                    } else {
                        None
                    },
                },
                ..u
            }
        } else if !s.scope.with_list_vars@.contains_key(v) && s.unwind_list_source@.contains_key(v)
            && s.unwind_list_source@[v] is List {
            unwound_inner(s.unwind_list_source@[v]->List_0, v, variable)
        } else {
            refused(
                "UNWIND of variable ?"@ + v + " (non-literal list): requires engine extension"@,
            )
        },
        m::Expression::Add(a, b) => match (
            plain_list(*a, s.scope.with_list_vars@),
            plain_list(*b, s.scope.with_list_vars@),
        ) {
            (Some(x), Some(y)) => unwound_list(x + y, variable),
            _ => refused("UNWIND of non-literal expression"@),
        },
        _ => refused("UNWIND of non-literal expression"@),
    }
}

/// What a state becomes when a variable has been unwound.
pub open spec fn noted(
    old: TranslationState,
    new: TranslationState,
    variable: Seq<char>,
    u: Unwound,
) -> bool {
    &&& new == (TranslationState {
        scope: Scope { list_sort_key_vars: new.scope.list_sort_key_vars, ..old.scope },
        out: Output { counter: (old.out.counter + u.fresh) as u64, ..old.out },
        unwind_null_vars: new.unwind_null_vars,
        unwind_mixed_null_vars: new.unwind_mixed_null_vars,
        unwind_list_source: new.unwind_list_source,
        ..old
    })
    &&& texts(new.unwind_null_vars@) == (if u.has_null {
        with_name(texts(old.unwind_null_vars@), variable)
    } else {
        texts(old.unwind_null_vars@)
    })
    &&& texts(new.unwind_mixed_null_vars@) == (if u.mixed {
        with_name(texts(old.unwind_mixed_null_vars@), variable)
    } else {
        texts(old.unwind_mixed_null_vars@)
    })
    &&& new.scope.list_sort_key_vars@ == (if u.keyed {
        old.scope.list_sort_key_vars@.insert(variable, key_name(variable))
    } else {
        old.scope.list_sort_key_vars@
    })
    &&& new.unwind_list_source@ == (match u.source {
        Some(l) => old.unwind_list_source@.insert(variable, l),
        None => old.unwind_list_source@,
    })
}

pub open spec fn pattern_result(r: Result<sparql::GraphPattern, PolygraphError>) -> Result<
    g::GraphPattern,
    Refusal,
> {
    match r {
        Ok(p) => Ok(g::graph_pattern_of(p)),
        Err(e) => Err(refusal_of(e)),
    }
}

// ── How it is done ───────────────────────────────────────────────────────────

pub open spec fn ground_result(r: Result<Option<sparql::GroundTerm>, PolygraphError>) -> Result<
    Option<g::GroundTerm>,
    Refusal,
> {
    match r {
        Ok(t) => Ok(g::opt_ground(t)),
        Err(e) => Err(refusal_of(e)),
    }
}

fn make_element_term(e: &Expression) -> (r: Result<Option<sparql::GroundTerm>, PolygraphError>)
    ensures
        ground_result(r) == element_term(m::expression_of(*e)),
{
    if is_null_literal(e) {
        return Ok(None);
    }
    match expr_to_ground_term(e) {
        Ok(sparql::Term::Literal(l)) => Ok(Some(sparql::GroundTerm::Literal(l))),
        Ok(_) => Err(unsupported_feature("variable in UNWIND list")),
        Err(x) => Err(x),
    }
}

fn make_row_term(e: &Expression) -> (r: Result<Option<sparql::GroundTerm>, PolygraphError>)
    ensures
        ground_result(r) == row_term(m::expression_of(*e)),
{
    match e {
        Expression::List(_) | Expression::MapLit(_) => Ok(
            Some(sparql::GroundTerm::Literal(plain_literal(serialize_list_element(e)))),
        ),
        _ => make_element_term(e),
    }
}

pub fn push_row(rows: &mut Vec<Vec<Option<sparql::GroundTerm>>>, row: Vec<
    Option<sparql::GroundTerm>,
>)
    ensures
        g::rows_of(final(rows)@) == g::rows_of(old(rows)@).push(g::row_of(row@)),
{
    proof {
        g::lemma_push_rows(rows@, row);
    }
    rows.push(row);
}

fn one_term(t: Option<sparql::GroundTerm>) -> (r: Vec<Option<sparql::GroundTerm>>)
    ensures
        g::row_of(r@) == seq![g::opt_ground(t)],
{
    let mut r: Vec<Option<sparql::GroundTerm>> = Vec::new();
    proof {
        g::lemma_push_row(r@, t);
    }
    r.push(t);
    assert(g::row_of(r@) =~= seq![g::opt_ground(t)]);
    r
}

fn two_terms(t: Option<sparql::GroundTerm>, u: Option<sparql::GroundTerm>) -> (r: Vec<
    Option<sparql::GroundTerm>,
>)
    ensures
        g::row_of(r@) == seq![g::opt_ground(t), g::opt_ground(u)],
{
    let mut r = one_term(t);
    proof {
        g::lemma_push_row(r@, u);
    }
    r.push(u);
    assert(g::row_of(r@) =~= seq![g::opt_ground(t), g::opt_ground(u)]);
    r
}

/// An element without a row makes all that follow fail alike.
proof fn lemma_rows_fail(
    items: Seq<m::Expression>,
    k: int,
    n: int,
    keyed: bool,
)
    requires
        0 < k <= n <= items.len(),
        list_rows(items, k, keyed) is Err,
    ensures
        list_rows(items, n, keyed) == list_rows(items, k, keyed),
    decreases n - k,
{
    if k < n {
        lemma_rows_fail(items, k, n - 1, keyed);
    }
}

pub open spec fn rows_result(r: Result<
    Vec<Vec<Option<sparql::GroundTerm>>>,
    PolygraphError,
>) -> Result<Seq<Seq<Option<g::GroundTerm>>>, Refusal> {
    match r {
        Ok(v) => Ok(g::rows_of(v@)),
        Err(e) => Err(refusal_of(e)),
    }
}

fn make_list_rows(items: &Vec<Expression>, keyed: bool) -> (r: Result<
    Vec<Vec<Option<sparql::GroundTerm>>>,
    PolygraphError,
>)
    ensures
        rows_result(r) == list_rows(m::exprs_of(items@), m::exprs_of(items@).len() as int, keyed),
{
    let mut rows: Vec<Vec<Option<sparql::GroundTerm>>> = Vec::new();
    let ghost es = m::exprs_of(items@);
    proof {
        m::lemma_exprs_of(items@);
    }
    assert(g::rows_of(rows@) =~= seq![]);
    #[verifier::loop_isolation(false)]
    for i in 0..items.len()
        invariant
            Ok::<Seq<Seq<Option<g::GroundTerm>>>, Refusal>(g::rows_of(rows@)) == list_rows(
                es,
                i as int,
                keyed,
            ),
    {
        match make_row_term(&items[i]) {
            Err(x) => {
                proof {
                    lemma_rows_fail(es, i + 1, es.len() as int, keyed);
                }
                return Err(x);
            },
            Ok(t) => {
                if keyed {
                    let key = sort_key_for_expr(&items[i]);
                    push_row(
                        &mut rows,
                        two_terms(t, Some(sparql::GroundTerm::Literal(plain_literal(key)))),
                    );
                } else {
                    push_row(&mut rows, one_term(t));
                }
            },
        }
    }
    Ok(rows)
}

/// What is noted of the elements of a list.
struct Elements {
    null: bool,
    value: bool,
    key: bool,
    list: bool,
}

fn look_through(items: &Vec<Expression>) -> (r: Elements)
    ensures
        r.null == any_null(m::exprs_of(items@)),
        r.value == any_value(m::exprs_of(items@)),
        r.key == needs_key(m::exprs_of(items@)),
        r.list == any_list(m::exprs_of(items@)),
{
    let mut r = Elements { null: false, value: false, key: false, list: false };
    let ghost es = m::exprs_of(items@);
    proof {
        m::lemma_exprs_of(items@);
    }
    #[verifier::loop_isolation(false)]
    for i in 0..items.len()
        invariant
            r.null == exists|k: int| 0 <= k < i && is_null(#[trigger] es[k]),
            r.value == exists|k: int| 0 <= k < i && !is_null(#[trigger] es[k]),
            r.key == exists|k: int|
                0 <= k < i && (is_null(#[trigger] es[k]) || es[k] is List || es[k] is MapLit),
            r.list == exists|k: int| 0 <= k < i && (#[trigger] es[k]) is List,
    {
        let ghost here = es[i as int];
        let ghost was = r;
        let null = is_null_literal(&items[i]);
        let (list, nested) = match &items[i] {
            Expression::List(_) => (true, true),
            Expression::MapLit(_) => (false, true),
            _ => (false, false),
        };
        assert(here == m::expression_of(items@[i as int]));
        assert(list == (here is List) && nested == (here is List || here is MapLit));
        r = Elements {
            null: r.null || null,
            value: r.value || !null,
            key: r.key || null || nested,
            list: r.list || list,
        };
        assert(es[i as int] == here);
    }
    r
}

fn one_name(a: &String) -> (r: Vec<String>)
    ensures
        texts(r@) == seq![a@],
{
    let mut r: Vec<String> = Vec::new();
    push_text(&mut r, a.clone());
    assert(texts(r@) =~= seq![a@]);
    r
}

fn two_names(a: &String, b: &String) -> (r: Vec<String>)
    ensures
        texts(r@) == seq![a@, b@],
{
    let mut r = one_name(a);
    push_text(&mut r, b.clone());
    assert(texts(r@) =~= seq![a@, b@]);
    r
}

fn make_range_rows(start: i64, end: i64, step: i64) -> (r: Vec<Vec<Option<sparql::GroundTerm>>>)
    requires
        step != 0,
    ensures
        g::rows_of(r@) == range_rows(start as int, end as int, step as int),
{
    let mut rows: Vec<Vec<Option<sparql::GroundTerm>>> = Vec::new();
    let mut i: i64 = start;
    assert(g::rows_of(rows@) + range_rows(start as int, end as int, step as int) =~= range_rows(
        start as int,
        end as int,
        step as int,
    ));
    #[verifier::loop_isolation(false)]
    while (step > 0 && i <= end) || (step < 0 && i >= end)
        invariant
            g::rows_of(rows@) + range_rows(i as int, end as int, step as int) == range_rows(
                start as int,
                end as int,
                step as int,
            ),
        decreases left(i as int, end as int, step as int),
    {
        let t = Some(sparql::GroundTerm::Literal(typed_literal(dec_i64(i), XSD_INTEGER)));
        let ghost before = g::rows_of(rows@);
        let row = one_term(t);
        push_row(&mut rows, row);
        proof {
            assert(g::rows_of(rows@) + range_rows(i + step, end as int, step as int) =~= before + (
            seq![seq![g::opt_ground(t)]] + range_rows(i + step, end as int, step as int)));
        }
        match i.checked_add(step) {
            Some(next) => {
                i = next;
            },
            None => {
                assert(range_rows(i + step, end as int, step as int) =~= seq![]);
                assert(g::rows_of(rows@) + seq![] =~= g::rows_of(rows@));
                return rows;
            },
        }
    }
    assert(g::rows_of(rows@) + seq![] =~= g::rows_of(rows@));
    rows
}

fn arg_int(args: &Vec<Expression>, i: usize) -> (r: Option<i64>)
    ensures
        as_int(r) == int_at(m::exprs_of(args@), i as int),
{
    proof {
        m::lemma_exprs_of(args@);
    }
    if i < args.len() {
        get_literal_int(&args[i])
    } else {
        None
    }
}

fn make_range(args: &Vec<Expression>, variable: &String) -> (r: Result<
    sparql::GraphPattern,
    PolygraphError,
>)
    ensures
        plainly(pattern_result(r)) == unwound_range(m::exprs_of(args@), variable@),
{
    let step = match arg_int(args, 2) {
        Some(n) => n,
        None => 1,
    };
    match (arg_int(args, 0), arg_int(args, 1)) {
        (Some(s), Some(e)) => {
            if step == 0 {
                return Err(unsupported_feature("range() with step=0"));
            }
            Ok(
                sparql::GraphPattern::Values {
                    variables: one_name(variable),
                    bindings: make_range_rows(s, e, step),
                },
            )
        },
        _ => Err(unsupported_feature("range() with non-literal arguments")),
    }
}

proof fn lemma_inner_fail(list: g::GroundTerm, elements: Seq<m::Expression>, k: int, n: int)
    requires
        0 < k <= n <= elements.len(),
        inner_rows(list, elements, k) is Err,
    ensures
        inner_rows(list, elements, n) == inner_rows(list, elements, k),
    decreases n - k,
{
    if k < n {
        lemma_inner_fail(list, elements, k, n - 1);
    }
}

proof fn lemma_outer_fail(lists: Seq<m::Expression>, k: int, n: int)
    requires
        0 < k <= n <= lists.len(),
        outer_rows(lists, k) is Err,
    ensures
        outer_rows(lists, n) == outer_rows(lists, k),
    decreases n - k,
{
    if k < n {
        lemma_outer_fail(lists, k, n - 1);
    }
}

fn make_inner_rows(list: &sparql::GroundTerm, elements: &Vec<Expression>) -> (r: Result<
    Vec<Vec<Option<sparql::GroundTerm>>>,
    PolygraphError,
>)
    ensures
        rows_result(r) == inner_rows(
            g::ground_term_of(*list),
            m::exprs_of(elements@),
            m::exprs_of(elements@).len() as int,
        ),
{
    let mut rows: Vec<Vec<Option<sparql::GroundTerm>>> = Vec::new();
    let ghost es = m::exprs_of(elements@);
    let ghost l = g::ground_term_of(*list);
    proof {
        m::lemma_exprs_of(elements@);
    }
    assert(g::rows_of(rows@) =~= seq![]);
    for i in 0..elements.len()
        invariant
            es == m::exprs_of(elements@),
            l == g::ground_term_of(*list),
            es.len() == elements@.len(),
            forall|k: int| 0 <= k < es.len() ==> es[k] == m::expression_of(#[trigger] elements@[k]),
            Ok::<Seq<Seq<Option<g::GroundTerm>>>, Refusal>(g::rows_of(rows@)) == inner_rows(
                l,
                es,
                i as int,
            ),
    {
        let ghost before = g::rows_of(rows@);
        match make_element_term(&elements[i]) {
            Err(x) => {
                proof {
                    lemma_inner_fail(l, es, i + 1, es.len() as int);
                }
                return Err(x);
            },
            Ok(t) => {
                let row = two_terms(Some(clone_ground_term(list)), t);
                assert(g::row_of(row@) == seq![Some(l), g::opt_ground(t)]);
                push_row(&mut rows, row);
                assert(g::rows_of(rows@) == before.push(seq![Some(l), g::opt_ground(t)]));
            },
        }
    }
    Ok(rows)
}

fn make_outer_rows(lists: &Vec<Expression>) -> (r: Result<
    Vec<Vec<Option<sparql::GroundTerm>>>,
    PolygraphError,
>)
    ensures
        rows_result(r) == outer_rows(m::exprs_of(lists@), m::exprs_of(lists@).len() as int),
{
    let mut rows: Vec<Vec<Option<sparql::GroundTerm>>> = Vec::new();
    let ghost es = m::exprs_of(lists@);
    proof {
        m::lemma_exprs_of(lists@);
    }
    assert(g::rows_of(rows@) =~= seq![]);
    #[verifier::loop_isolation(false)]
    for i in 0..lists.len()
        invariant
            Ok::<Seq<Seq<Option<g::GroundTerm>>>, Refusal>(g::rows_of(rows@)) == outer_rows(
                es,
                i as int,
            ),
    {
        let ghost here = es[i as int];
        assert(here == m::expression_of(lists@[i as int]));
        if let Expression::List(elements) = &lists[i] {
            let list = sparql::GroundTerm::Literal(plain_literal(serialize_list_element(&lists[i])));
            match make_inner_rows(&list, elements) {
                Err(x) => {
                    proof {
                        lemma_outer_fail(es, i + 1, es.len() as int);
                    }
                    return Err(x);
                },
                Ok(more) => {
                    let ghost added = more@;
                    let ghost before = rows@;
                    let mut more = more;
                    rows.append(&mut more);
                    proof {
                        g::lemma_add_rows(before, added);
                    }
                    assert(rows@ =~= before + added);
                },
            }
        }
    }
    Ok(rows)
}

fn make_unwound_inner(lists: &Vec<Expression>, list_var: &String, variable: &String) -> (r: Result<
    sparql::GraphPattern,
    PolygraphError,
>)
    ensures
        plainly(pattern_result(r)) == unwound_inner(m::exprs_of(lists@), list_var@, variable@),
{
    if !accepts_variable(variable.as_str()) {
        return Err(unsupported_feature("invalid variable name in UNWIND"));
    }
    match make_outer_rows(lists) {
        Ok(bindings) => Ok(
            sparql::GraphPattern::Values { variables: two_names(list_var, variable), bindings },
        ),
        Err(x) => Err(x),
    }
}

fn string_items(parts: &Vec<String>) -> (r: Vec<Expression>)
    ensures
        m::exprs_of(r@) == string_exprs(texts(parts@)),
{
    let mut r: Vec<Expression> = Vec::new();
    #[verifier::loop_isolation(false)]
    for i in 0..parts.len()
        invariant
            r@.len() == i,
            forall|k: int|
                0 <= k < i ==> m::expression_of(#[trigger] r@[k]) == m::Expression::Literal(
                    m::Literal::String(parts@[k]@),
                ),
    {
        let e = Expression::Literal(Literal::String(parts[i].clone()));
        assert(m::expression_of(e) == m::Expression::Literal(m::Literal::String(parts@[i as int]@)));
        r.push(e);
    }
    proof {
        m::lemma_exprs_of(r@);
    }
    assert(m::exprs_of(r@) =~= string_exprs(texts(parts@)));
    r
}

fn make_pieces(s: &String, d: &String) -> (r: Vec<String>)
    ensures
        texts(r@) == pieces(s@, d@),
{
    if d.as_str().unicode_len() == 0 {
        let v = chars_of(s.as_str());
        let mut r: Vec<String> = Vec::new();
        #[verifier::loop_isolation(false)]
        for i in 0..v.len()
            invariant
                r@.len() == i,
                forall|k: int| 0 <= k < i ==> (#[trigger] r@[k])@ == seq![v@[k]],
        {
            let mut t = String::new();
            t.push(v[i]);
            assert(t@ =~= seq![v@[i as int]]);
            r.push(t);
        }
        assert(texts(r@) =~= pieces(s@, d@));
        r
    } else {
        split(s.as_str(), d.as_str())
    }
}

impl TranslationState {
    fn unwind_list(&mut self, items: &Vec<Expression>, variable: &String) -> (r: Result<
        sparql::GraphPattern,
        PolygraphError,
    >)
        ensures
            ({
                let u = unwound_list(m::exprs_of(items@), variable@);
                pattern_result(r) == u.pattern && noted(*old(self), *final(self), variable@, u)
            }),
    {
        let found = look_through(items);
        let rows = make_list_rows(items, found.key);
        if found.null {
            add_name(&mut self.unwind_null_vars, variable);
            if found.value {
                add_name(&mut self.unwind_mixed_null_vars, variable);
            }
        }
        let bindings = match rows {
            Ok(b) => b,
            Err(x) => {
                return Err(x);
            },
        };
        if found.key {
            let name = "__sk_".to_owned().concat(variable.as_str());
            let variables = two_names(variable, &name);
            self.scope.list_sort_key_vars.insert(variable.clone(), name);
            return Ok(sparql::GraphPattern::Values { variables, bindings });
        }
        Ok(sparql::GraphPattern::Values { variables: one_name(variable), bindings })
    }

    fn unwind_call(&mut self, name: &String, args: &Vec<Expression>, variable: &String) -> (r: Result<
        sparql::GraphPattern,
        PolygraphError,
    >)
        requires
            old(self).out.counter + 3 < u64::MAX,
        ensures
            ({
                let u = unwound_call(name@, m::exprs_of(args@), variable@, *old(self));
                pattern_result(r) == u.pattern && noted(*old(self), *final(self), variable@, u)
            }),
    {
        proof {
            m::lemma_exprs_of(args@);
        }
        if eq_ignore_ascii_case(name.as_str(), "range") {
            return make_range(args, variable);
        }
        if eq_ignore_ascii_case(name.as_str(), "split") && args.len() >= 2 {
            assert(m::expression_of(args@[0]) is Literal == (args@[0] is Literal));
            assert(m::expression_of(args@[1]) is Literal == (args@[1] is Literal));
            if let (
                Expression::Literal(Literal::String(s)),
                Expression::Literal(Literal::String(d)),
            ) = (&args[0], &args[1]) {
                let parts = make_pieces(s, d);
                let items = string_items(&parts);
                return self.unwind_list(&items, variable);
            }
        }
        if eq_ignore_ascii_case(name.as_str(), "keys") && args.len() == 1 {
            assert(m::expression_of(args@[0]) is Variable == (args@[0] is Variable));
            if let Expression::Variable(x) = &args[0] {
                return Ok(self.unwind_keys(x, variable));
            }
        }
        Err(unsupported_feature("UNWIND of non-literal expression"))
    }

    fn unwind_expression(&mut self, e: &Expression, variable: &String, hops: usize) -> (r: Result<
        sparql::GraphPattern,
        PolygraphError,
    >)
        requires
            old(self).out.counter + 3 < u64::MAX,
        ensures
            ({
                let u = unwound(m::expression_of(*e), variable@, *old(self), hops as nat);
                pattern_result(r) == u.pattern && noted(*old(self), *final(self), variable@, u)
            }),
        decreases hops, 1int,
    {
        match e {
            Expression::Literal(Literal::Null) => {
                let bindings: Vec<Vec<Option<sparql::GroundTerm>>> = Vec::new();
                assert(g::rows_of(bindings@) =~= seq![]);
                Ok(sparql::GraphPattern::Values { variables: one_name(variable), bindings })
            },
            Expression::FunctionCall { name, distinct: _, args } => self.unwind_call(
                name,
                args,
                variable,
            ),
            Expression::List(items) => self.unwind_list(items, variable),
            Expression::Variable(v) => self.unwind_variable(v, variable, hops),
            Expression::Add(a, b) => {
                match (self.find_plain_list(a), self.find_plain_list(b)) {
                    (Some(mut x), Some(y)) => {
                        let ghost xs = x@;
                        let ghost ys = y@;
                        let mut y = y;
                        x.append(&mut y);
                        proof {
                            m::lemma_add_exprs_of(xs, ys);
                        }
                        assert(x@ =~= xs + ys);
                        self.unwind_list(&x, variable)
                    },
                    _ => Err(unsupported_feature("UNWIND of non-literal expression")),
                }
            },
            _ => Err(unsupported_feature("UNWIND of non-literal expression")),
        }
    }

    fn unwind_variable(&mut self, v: &String, variable: &String, hops: usize) -> (r: Result<
        sparql::GraphPattern,
        PolygraphError,
    >)
        requires
            old(self).out.counter + 3 < u64::MAX,
        ensures
            ({
                let u = unwound(
                    m::Expression::Variable(v@),
                    variable@,
                    *old(self),
                    hops as nat,
                );
                pattern_result(r) == u.pattern && noted(*old(self), *final(self), variable@, u)
            }),
        decreases hops, 0int,
    {
        match self.scope.with_list_vars.get(v.as_str()) {
            Some(list) => {
                if hops > 0 {
                    let list = clone_expression(list);
                    assert(m::expression_of(list) is List == (list is List));
                    let nested = match &list {
                        Expression::List(items) => look_through(items).list,
                        _ => false,
                    };
                    let r = self.unwind_expression(&list, variable, hops - 1);
                    if nested {
                        self.unwind_list_source.insert(variable.clone(), list);
                    }
                    return r;
                }
            },
            None => {
                if let Some(outer) = self.unwind_list_source.get(v.as_str()) {
                    assert(m::expression_of(*outer) is List == (*outer is List));
                    if let Expression::List(lists) = outer {
                        return make_unwound_inner(lists, v, variable);
                    }
                }
            },
        }
        Err(
            unsupported_feature(
                "UNWIND of variable ?".to_owned().concat(v.as_str()).concat(
                    " (non-literal list): requires engine extension",
                ).as_str(),
            ),
        )
    }

    fn find_plain_list(&self, e: &Expression) -> (r: Option<Vec<Expression>>)
        ensures
            (match r {
                Some(v) => Some(m::exprs_of(v@)),
                None => None,
            }) == plain_list(m::expression_of(*e), self.scope.with_list_vars@),
    {
        match e {
            Expression::List(items) => Some(clone_exprs(items)),
            Expression::Variable(v) => match self.scope.with_list_vars.get(v.as_str()) {
                Some(list) => {
                    assert(m::expression_of(*list) is List == (*list is List));
                    match list {
                        Expression::List(items) => Some(clone_exprs(items)),
                        _ => None,
                    }
                },
                None => None,
            },
            _ => None,
        }
    }
}

// ── The clause ───────────────────────────────────────────────────────────────

/// Two patterns as one: a pattern without triples adds nothing.
pub open spec fn joined(a: g::GraphPattern, b: g::GraphPattern) -> g::GraphPattern {
    if a matches g::GraphPattern::Bgp { patterns } && patterns.len() == 0 {
        b
    } else if b matches g::GraphPattern::Bgp { patterns } && patterns.len() == 0 {
        a
    } else {
        g::GraphPattern::Join { left: Box::new(a), right: Box::new(b) }
    }
}

fn is_unit(p: &sparql::GraphPattern) -> (r: bool)
    ensures
        r == (g::graph_pattern_of(*p) matches g::GraphPattern::Bgp { patterns } && patterns.len()
            == 0),
{
    match p {
        sparql::GraphPattern::Bgp { patterns } => patterns.len() == 0,
        _ => false,
    }
}

pub fn join_patterns(a: sparql::GraphPattern, b: sparql::GraphPattern) -> (r: sparql::GraphPattern)
    ensures
        g::graph_pattern_of(r) == joined(g::graph_pattern_of(a), g::graph_pattern_of(b)),
{
    if is_unit(&a) {
        b
    } else if is_unit(&b) {
        a
    } else {
        sparql::GraphPattern::Join { left: Box::new(a), right: Box::new(b) }
    }
}

/// The pattern before a clause, joined with what the clause gives.
pub open spec fn joined_result(
    current: g::GraphPattern,
    r: Result<g::GraphPattern, Refusal>,
) -> Result<g::GraphPattern, Refusal> {
    match r {
        Ok(p) => Ok(joined(current, p)),
        Err(x) => Err(x),
    }
}

impl TranslationState {
    /// Translates `UNWIND`: joins the pattern so far with a row for each element.
    /// As many variables may be followed as are bound: a chain of more of them
    /// never ends.
    pub fn translate_unwind_clause(&mut self, u: &UnwindClause, current: sparql::GraphPattern) -> (r:
        Result<sparql::GraphPattern, PolygraphError>)
        requires
            old(self).out.counter + 3 < u64::MAX,
        ensures
            ({
                let w = unwound(
                    m::expression_of(u.expression),
                    u.variable@,
                    *old(self),
                    old(self).scope.with_list_vars.bindings().len(),
                );
                pattern_result(r) == joined_result(g::graph_pattern_of(current), w.pattern)
                    && noted(*old(self), *final(self), u.variable@, w)
            }),
    {
        let hops: usize = self.scope.with_list_vars.len();
        match self.unwind_expression(&u.expression, &u.variable, hops) {
            Ok(p) => Ok(join_patterns(current, p)),
            Err(x) => Err(x),
        }
    }
}

} // verus!
