//! How maps, quantifiers, subscripts, slices and comprehensions are translated.
use vstd::prelude::*;

use crate::ast::copy::{clone_expression, clone_exprs};
use crate::ast::cypher::{Expression, Literal, QuantifierKind};
#[allow(unused_imports)]
use crate::ast::model as m;
use crate::error::PolygraphError;
use crate::sparql::algebra as sparql;
use crate::sparql::algebra::Function;
#[allow(unused_imports)]
use crate::sparql::model as g;
use crate::text::{join, push_text, same_text};
#[allow(unused_imports)]
use crate::text::texts;
use crate::translator::constant::{get_literal_int, try_eval_bool_const};
#[allow(unused_imports)]
use crate::translator::expr::forms::{make_all_of, make_any_of, make_sum_of, write_kind};
#[allow(unused_imports)]
use crate::translator::expr::meaning as w;
use crate::translator::expr::parts::{make_equal, make_not, make_truth};
#[allow(unused_imports)]
use crate::translator::expr::walk::is_done;
use crate::translator::expr::walk::{
    is_nothing_here, make_null, refuse_depth, translate_at, translate_several,
};
use crate::translator::formula::{make_call1, make_call2, make_integer, make_quoted};
#[allow(unused_imports)]
use crate::translator::formula::quoted;
use crate::translator::ground::{serialize_list_element, serialize_list_literal};
#[allow(unused_imports)]
use crate::translator::known::{predicate_uses_numeric_arithmetic, try_eval_to_str_literal};
use crate::translator::refusal::{invalid, unsupported_feature};
#[allow(unused_imports)]
use crate::translator::refusal::Refusal;
use crate::translator::resolve::{
    copy_range, find_hops, find_place, find_slice, resolve_literal_list, FoundSlice,
};
#[allow(unused_imports)]
use crate::translator::resolve::{opt_exprs, hops_in, resolved_list};
use crate::translator::scope::{Output, Scope};
#[allow(unused_imports)]
use crate::translator::scope::{out_of, Out};
use crate::translator::subst::substitute_var_in_expr;

verus! {

// ── Maps ─────────────────────────────────────────────────────────────────────

fn translate_map_value(
    e: &Expression,
    s: &Scope,
    out: &mut Output,
    extra: &mut Vec<sparql::TriplePattern>,
    depth: usize,
) -> (r: Result<sparql::Expr, PolygraphError>)
    ensures
        is_done(
            w::map_value(
                m::expression_of(*e),
                *s,
                out_of(*old(out), old(extra)@),
                depth as nat,
            ),
            *final(out),
            final(extra)@,
            r,
        ),
    decreases depth, 1int, 0int,
{
    if depth == 0 {
        return Err(refuse_depth());
    }
    match e {
        Expression::Literal(_) => Ok(make_quoted(serialize_list_element(e).as_str())),
        _ => match translate_at(e, s, out, extra, depth - 1) {
            Err(x) => Err(x),
            Ok(v) => {
                let text = make_call1(Function::Str, v);
                let empty = make_quoted("");
                let mut args: Vec<sparql::Expr> = Vec::new();
                proof {
                    g::lemma_push_exprs(args@, text);
                    g::lemma_push_exprs(args@.push(text), empty);
                }
                args.push(text);
                args.push(empty);
                assert(g::exprs_of(args@) =~= seq![g::expr_of(text), g::expr_of(empty)]);
                Ok(sparql::Expr::Coalesce(args))
            },
        },
    }
}

proof fn lemma_pieces_fail(
    pairs: Seq<(Seq<char>, m::Expression)>,
    k: int,
    n: int,
    s: Scope,
    o: Out,
    depth: nat,
)
    requires
        0 < k <= n <= pairs.len(),
        w::map_pieces(pairs, k, s, o, depth).result is Err,
    ensures
        w::map_pieces(pairs, n, s, o, depth) == w::map_pieces(pairs, k, s, o, depth),
    decreases n - k,
{
    if k < n {
        lemma_pieces_fail(pairs, k, n - 1, s, o, depth);
    }
}

fn push_piece(v: &mut Vec<sparql::Expr>, e: sparql::Expr)
    ensures
        g::exprs_of(final(v)@) == g::exprs_of(old(v)@).push(g::expr_of(e)),
{
    proof {
        g::lemma_push_exprs(v@, e);
    }
    v.push(e);
}

pub fn translate_map(
    pairs: &Vec<(String, Expression)>,
    s: &Scope,
    out: &mut Output,
    extra: &mut Vec<sparql::TriplePattern>,
    depth: usize,
) -> (r: Result<sparql::Expr, PolygraphError>)
    ensures
        is_done(
            w::map_text(
                m::entries_of(pairs@),
                *s,
                out_of(*old(out), old(extra)@),
                depth as nat,
            ),
            *final(out),
            final(extra)@,
            r,
        ),
    decreases depth, 1int, 1int,
{
    let ghost es = m::entries_of(pairs@);
    let ghost o = out_of(*out, extra@);
    proof {
        m::lemma_entries_of(pairs@);
    }
    let mut pieces: Vec<sparql::Expr> = Vec::new();
    push_piece(&mut pieces, make_quoted("{"));
    assert(g::exprs_of(pieces@) =~= seq![quoted("{"@)]);
    for i in 0..pairs.len()
        invariant
            es == m::entries_of(pairs@),
            es.len() == pairs@.len(),
            forall|k: int|
                0 <= k < pairs@.len() ==> #[trigger] es[k] == (
                    pairs@[k].0@,
                    m::expression_of(pairs@[k].1),
                ),
            o == out_of(*old(out), old(extra)@),
            w::map_pieces(es, i as int, *s, o, depth as nat).out == out_of(*out, extra@),
            w::map_pieces(es, i as int, *s, o, depth as nat).result == Ok::<
                Seq<g::Expr>,
                Refusal,
            >(g::exprs_of(pieces@)),
    {
        let ghost here = es[i as int];
        if i > 0 {
            push_piece(&mut pieces, make_quoted(", "));
        }
        match translate_map_value(&pairs[i].1, s, out, extra, depth) {
            Ok(e) => {
                push_piece(&mut pieces, make_quoted(pairs[i].0.clone().concat(": ").as_str()));
                push_piece(&mut pieces, e);
            },
            Err(x) => {
                proof {
                    lemma_pieces_fail(es, i + 1, es.len() as int, *s, o, depth as nat);
                }
                return Err(x);
            },
        }
    }
    push_piece(&mut pieces, make_quoted("}"));
    Ok(sparql::Expr::Call(Function::Concat, pieces))
}

// ── Quantifiers ──────────────────────────────────────────────────────────────

fn names_itself(p: &Option<Box<Expression>>, variable: &String) -> (r: bool)
    ensures
        r == w::is_own_variable(m::opt_boxed(*p), variable@),
{
    match p {
        Some(e) => match &**e {
            Expression::Variable(v) => same_text(v.as_str(), variable.as_str()),
            _ => false,
        },
        None => false,
    }
}

fn make_truths_in(kind: QuantifierKind, list: sparql::Expr) -> (r: sparql::Expr)
    ensures
        g::expr_of(r) == w::truths_in(kind, g::expr_of(list)),
{
    match kind {
        QuantifierKind::All => make_not(
            make_call2(Function::Contains, list, make_quoted("false")),
        ),
        QuantifierKind::Any => make_call2(Function::Contains, list, make_quoted("true")),
        _ => make_not(make_call2(Function::Contains, list, make_quoted("true"))),
    }
}

pub fn translate_quantifier(
    kind: QuantifierKind,
    variable: &String,
    list: &Expression,
    predicate: &Option<Box<Expression>>,
    s: &Scope,
    out: &mut Output,
    extra: &mut Vec<sparql::TriplePattern>,
    depth: usize,
) -> (r: Result<sparql::Expr, PolygraphError>)
    ensures
        is_done(
            w::quantifier_value(
                kind,
                variable@,
                m::expression_of(*list),
                m::opt_boxed(*predicate),
                *s,
                out_of(*old(out), old(extra)@),
                depth as nat,
            ),
            *final(out),
            final(extra)@,
            r,
        ),
    decreases depth, 1int, 2int,
{
    if depth == 0 {
        return Err(refuse_depth());
    }
    if names_itself(predicate, variable) {
        let l = match translate_at(list, s, out, extra, depth - 1) {
            Ok(l) => l,
            Err(x) => {
                return Err(x);
            },
        };
        match kind {
            QuantifierKind::Single => {},
            _ => {
                return Ok(make_truths_in(kind, l));
            },
        }
    }
    match resolve_literal_list(list, s, find_hops(s)) {
        Some(items) => translate_quantifier_over_literal(
            kind,
            variable,
            &items,
            predicate,
            s,
            out,
            extra,
            depth,
        ),
        None => Err(
            unsupported_feature(
                "quantifier expression `".to_owned().concat(write_kind(kind)).concat(
                    "(x IN ...)` on runtime collection (Phase C)",
                ).as_str(),
            ),
        ),
    }
}

fn make_instance(predicate: &Option<Box<Expression>>, variable: &String, item: &Expression) -> (r:
    Expression)
    ensures
        m::expression_of(r) == w::instance(
            m::opt_boxed(*predicate),
            variable@,
            m::expression_of(*item),
        ),
{
    match predicate {
        Some(p) => substitute_var_in_expr(p, variable.as_str(), item),
        None => clone_expression(item),
    }
}

fn make_instances(predicate: &Option<Box<Expression>>, variable: &String, items: &Vec<Expression>) -> (r:
    Vec<Expression>)
    ensures
        m::exprs_of(r@) == w::instances(
            m::opt_boxed(*predicate),
            variable@,
            m::exprs_of(items@),
        ),
{
    let mut r: Vec<Expression> = Vec::new();
    proof {
        m::lemma_exprs_of(items@);
    }
    #[verifier::loop_isolation(false)]
    for i in 0..items.len()
        invariant
            r@.len() == i,
            forall|k: int|
                0 <= k < i ==> m::expression_of(#[trigger] r@[k]) == w::instance(
                    m::opt_boxed(*predicate),
                    variable@,
                    m::expression_of(items@[k]),
                ),
    {
        let e = make_instance(predicate, variable, &items[i]);
        r.push(e);
    }
    proof {
        m::lemma_exprs_of(r@);
    }
    assert(m::exprs_of(r@) =~= w::instances(
        m::opt_boxed(*predicate),
        variable@,
        m::exprs_of(items@),
    ));
    r
}

fn is_ill(predicate: &Option<Box<Expression>>, variable: &String, items: &Vec<Expression>) -> (r:
    bool)
    ensures
        r == w::is_ill_typed(m::opt_boxed(*predicate), variable@, m::exprs_of(items@)),
{
    let ghost es = m::exprs_of(items@);
    proof {
        m::lemma_exprs_of(items@);
    }
    if items.len() == 0 {
        return false;
    }
    let uses = match predicate {
        Some(p) => predicate_uses_numeric_arithmetic(p, variable.as_str()),
        None => false,
    };
    if !uses {
        return false;
    }
    #[verifier::loop_isolation(false)]
    for i in 0..items.len()
        invariant
            forall|k: int|
                0 <= k < i ==> ((#[trigger] es[k]) matches m::Expression::Literal(l) && (
                l is String || l is Boolean)),
    {
        let ghost here = es[i as int];
        let fits = match &items[i] {
            Expression::Literal(l) => match l {
                Literal::String(_) | Literal::Boolean(_) => true,
                _ => false,
            },
            _ => false,
        };
        assert(here == m::expression_of(items@[i as int]));
        if !fits {
            return false;
        }
    }
    true
}

proof fn lemma_no_counts(v: Seq<m::Expression>, k: int, n: int)
    requires
        0 < k <= n <= v.len(),
        w::truth_counts(v, k) is None,
    ensures
        w::truth_counts(v, n) is None,
    decreases n - k,
{
    if k < n {
        lemma_no_counts(v, k, n - 1);
    }
}

/// Whether more than one is true, exactly one, and whether one is null.
fn count_truths(v: &Vec<Expression>) -> (r: Option<(usize, usize)>)
    ensures
        (match r {
            Some((t, n)) => Some((t as int, n as int)),
            None => None,
        }) == w::truth_counts(m::exprs_of(v@), m::exprs_of(v@).len() as int),
{
    let ghost es = m::exprs_of(v@);
    proof {
        m::lemma_exprs_of(v@);
    }
    let mut t: usize = 0;
    let mut n: usize = 0;
    #[verifier::loop_isolation(false)]
    for i in 0..v.len()
        invariant
            t + n <= i,
            w::truth_counts(es, i as int) == Some((t as int, n as int)),
    {
        match try_eval_bool_const(&v[i]) {
            Some(Some(b)) => {
                if b {
                    t = t + 1;
                }
            },
            Some(None) => {
                n = n + 1;
            },
            None => {
                proof {
                    lemma_no_counts(es, i + 1, es.len() as int);
                }
                return None;
            },
        }
    }
    Some((t, n))
}

pub fn translate_quantifier_over_literal(
    kind: QuantifierKind,
    variable: &String,
    items: &Vec<Expression>,
    predicate: &Option<Box<Expression>>,
    s: &Scope,
    out: &mut Output,
    extra: &mut Vec<sparql::TriplePattern>,
    depth: usize,
) -> (r: Result<sparql::Expr, PolygraphError>)
    ensures
        is_done(
            w::quantifier_over_items(
                kind,
                variable@,
                m::exprs_of(items@),
                m::opt_boxed(*predicate),
                *s,
                out_of(*old(out), old(extra)@),
                depth as nat,
            ),
            *final(out),
            final(extra)@,
            r,
        ),
    decreases depth, 1int, 0int,
{
    if depth == 0 {
        return Err(refuse_depth());
    }
    if is_ill(predicate, variable, items) {
        return Err(
            invalid("InvalidArgumentType: arithmetic operator applied to non-numeric value"),
        );
    }
    let v = make_instances(predicate, variable, items);
    let conds = match translate_several(&v, s, out, extra, depth - 1) {
        Ok(c) => c,
        Err(x) => {
            return Err(x);
        },
    };
    if conds.len() == 0 {
        return Ok(
            make_truth(
                match kind {
                    QuantifierKind::All | QuantifierKind::NoneOf => true,
                    _ => false,
                },
            ),
        );
    }
    match kind {
        QuantifierKind::All => Ok(make_all_of(&conds, conds.len())),
        QuantifierKind::Any => Ok(make_any_of(&conds, conds.len())),
        QuantifierKind::NoneOf => Ok(make_not(make_any_of(&conds, conds.len()))),
        QuantifierKind::Single => Ok(make_single(&v, &conds, out)),
    }
}

fn make_single(v: &Vec<Expression>, conds: &Vec<sparql::Expr>, out: &mut Output) -> (r: sparql::Expr)
    requires
        conds@.len() > 0,
    ensures
        forall|x: Seq<sparql::TriplePattern>|
            #![trigger out_of(*final(out), x)]
            w::single_value(m::exprs_of(v@), g::exprs_of(conds@), out_of(*old(out), x)) == w::done(
                out_of(*final(out), x),
                g::expr_of(r),
            ),
{
    match count_truths(v) {
        Some((t, n)) => if t > 1 {
            make_truth(false)
        } else if n == 0 {
            make_truth(t == 1)
        } else {
            make_null(out)
        },
        None => make_equal(make_sum_of(conds, conds.len()), make_integer(1)),
    }
}

// ── Subscripts and slices ────────────────────────────────────────────────────

pub fn translate_subscript(
    list: &Expression,
    index: &Expression,
    s: &Scope,
    out: &mut Output,
    extra: &mut Vec<sparql::TriplePattern>,
    depth: usize,
) -> (r: Result<sparql::Expr, PolygraphError>)
    ensures
        is_done(
            w::subscript(
                m::expression_of(*list),
                m::expression_of(*index),
                *s,
                out_of(*old(out), old(extra)@),
                depth as nat,
            ),
            *final(out),
            final(extra)@,
            r,
        ),
    decreases depth, 1int, 0int,
{
    if depth == 0 {
        return Err(refuse_depth());
    }
    let ghost o = out_of(*out, extra@);
    if is_nothing_here(list, s) || is_nothing_here(index, s) {
        let null = make_null(out);
        assert(w::null_value(o) == w::done(out_of(*out, extra@), g::expr_of(null)));
        return Ok(null);
    }
    if let Some(key) = try_eval_to_str_literal(index) {
        let ghost k = key@;
        let e = Expression::Property(Box::new(clone_expression(list)), key);
        assert(m::expression_of(e) == m::Expression::Property(
            Box::new(m::expression_of(*list)),
            k,
        ));
        return translate_at(&e, s, out, extra, depth - 1);
    }
    let n = match get_literal_int(index) {
        Some(n) => n,
        None => {
            return Err(
                unsupported_feature("dynamic subscript access with non-literal key (Phase C)"),
            );
        },
    };
    let items = match resolve_literal_list(list, s, find_hops(s)) {
        Some(items) => items,
        None => {
            return Err(unsupported_feature("subscript access on non-literal list (Phase C)"));
        },
    };
    proof {
        m::lemma_exprs_of(items@);
    }
    assert(resolved_list(m::expression_of(*list), *s, hops_in(*s)) == Some(
        m::exprs_of(items@),
    ));
    match find_place(n, items.len()) {
        Some(i) => translate_at(&items[i], s, out, extra, depth - 1),
        None => {
            let null = make_null(out);
            assert(w::null_value(o) == w::done(out_of(*out, extra@), g::expr_of(null)));
            Ok(null)
        },
    }
}

pub fn translate_slice(
    list: &Expression,
    start: &Option<Box<Expression>>,
    end: &Option<Box<Expression>>,
    s: &Scope,
    out: &mut Output,
    extra: &Vec<sparql::TriplePattern>,
) -> (r: Result<sparql::Expr, PolygraphError>)
    ensures
        is_done(
            w::slice_value(
                m::expression_of(*list),
                m::opt_boxed(*start),
                m::opt_boxed(*end),
                *s,
                out_of(*old(out), extra@),
            ),
            *final(out),
            extra@,
            r,
        ),
{
    match resolve_literal_list(list, s, find_hops(s)) {
        Some(items) => {
            proof {
                m::lemma_exprs_of(items@);
            }
            match find_slice(start, end, items.len()) {
                FoundSlice::Null => Ok(make_null(out)),
                FoundSlice::NoStart => Err(
                    unsupported_feature("list slice with non-literal start (Phase C)"),
                ),
                FoundSlice::NoEnd => Err(
                    unsupported_feature("list slice with non-literal end (Phase C)"),
                ),
                FoundSlice::Range(from, to) => {
                    let part = copy_range(&items, from, to);
                    Ok(make_quoted(serialize_list_literal(&part).as_str()))
                },
            }
        },
        None => Err(unsupported_feature("list slice expr[n..m] (Phase C)")),
    }
}

// ── Comprehensions ───────────────────────────────────────────────────────────

pub fn item_passes(predicate: &Option<Box<Expression>>, variable: &String, item: &Expression) -> (r:
    Option<bool>)
    ensures
        r == w::passes(m::opt_boxed(*predicate), variable@, m::expression_of(*item)),
{
    match predicate {
        None => Some(true),
        Some(p) => {
            let e = substitute_var_in_expr(p, variable.as_str(), item);
            match try_eval_bool_const(&e) {
                Some(Some(b)) => Some(b),
                Some(None) => Some(false),
                None => None,
            }
        },
    }
}

fn project_item(projection: &Option<Box<Expression>>, variable: &String, item: &Expression) -> (r:
    Option<String>)
    ensures
        m::opt_text(r) == w::projected_text(
            m::opt_boxed(*projection),
            variable@,
            m::expression_of(*item),
        ),
{
    match projection {
        None => Some(serialize_list_element(item)),
        Some(p) => {
            let e = substitute_var_in_expr(p, variable.as_str(), item);
            let t = serialize_list_element(&e);
            if same_text(t.as_str(), "?") {
                None
            } else {
                Some(t)
            }
        },
    }
}

proof fn lemma_not_comprehended(
    items: Seq<m::Expression>,
    k: int,
    n: int,
    variable: Seq<char>,
    predicate: Option<Box<m::Expression>>,
    projection: Option<Box<m::Expression>>,
)
    requires
        0 < k <= n <= items.len(),
        w::comprehended(items, k, variable, predicate, projection) is None,
    ensures
        w::comprehended(items, n, variable, predicate, projection) is None,
    decreases n - k,
{
    if k < n {
        lemma_not_comprehended(items, k, n - 1, variable, predicate, projection);
    }
}

fn comprehend(
    items: &Vec<Expression>,
    variable: &String,
    predicate: &Option<Box<Expression>>,
    projection: &Option<Box<Expression>>,
) -> (r: Option<Vec<String>>)
    ensures
        (match r {
            Some(v) => Some(texts(v@)),
            None => None,
        }) == w::comprehended(
            m::exprs_of(items@),
            m::exprs_of(items@).len() as int,
            variable@,
            m::opt_boxed(*predicate),
            m::opt_boxed(*projection),
        ),
{
    let ghost es = m::exprs_of(items@);
    let ghost p = m::opt_boxed(*predicate);
    let ghost q = m::opt_boxed(*projection);
    proof {
        m::lemma_exprs_of(items@);
    }
    let mut r: Vec<String> = Vec::new();
    assert(texts(r@) =~= seq![]);
    #[verifier::loop_isolation(false)]
    for i in 0..items.len()
        invariant
            w::comprehended(es, i as int, variable@, p, q) == Some(texts(r@)),
    {
        match item_passes(predicate, variable, &items[i]) {
            None => {
                proof {
                    lemma_not_comprehended(es, i + 1, es.len() as int, variable@, p, q);
                }
                return None;
            },
            Some(pass) => {
                if pass {
                    match project_item(projection, variable, &items[i]) {
                        Some(t) => {
                            push_text(&mut r, t);
                        },
                        None => {
                            proof {
                                lemma_not_comprehended(
                                    es,
                                    i + 1,
                                    es.len() as int,
                                    variable@,
                                    p,
                                    q,
                                );
                            }
                            return None;
                        },
                    }
                }
            },
        }
    }
    Some(r)
}

fn find_source(list: &Expression, s: &Scope) -> (r: Option<Vec<Expression>>)
    ensures
        opt_exprs(r) == w::comprehension_source(m::expression_of(*list), *s),
{
    match list {
        Expression::List(items) => Some(clone_exprs(items)),
        Expression::Variable(v) => crate::translator::resolve::find_bound_list(v.as_str(), s),
        _ => None,
    }
}

pub fn translate_comprehension(
    variable: &String,
    list: &Expression,
    predicate: &Option<Box<Expression>>,
    projection: &Option<Box<Expression>>,
    s: &Scope,
    out: &Output,
    extra: &Vec<sparql::TriplePattern>,
) -> (r: Result<sparql::Expr, PolygraphError>)
    ensures
        is_done(
            w::comprehension_value(
                variable@,
                m::expression_of(*list),
                m::opt_boxed(*predicate),
                m::opt_boxed(*projection),
                *s,
                out_of(*out, extra@),
            ),
            *out,
            extra@,
            r,
        ),
{
    if let Some(items) = find_source(list, s) {
        if let Some(t) = comprehend(&items, variable, predicate, projection) {
            let text = "[".to_owned().concat(join(&t, ", ").as_str()).concat("]");
            return Ok(make_quoted(text.as_str()));
        }
    }
    Err(
        unsupported_feature("list comprehension [x IN list WHERE pred | expr] (Phase C)"),
    )
}

} // verus!
