//! Quantifiers over lists that are not known before the query runs: which of
//! them are equivalent, and which have the same value whatever the list holds.
use vstd::prelude::*;

use crate::ast::copy::clone_expression;
use crate::ast::cypher::{CompOp, Expression, Literal, QuantifierKind};
#[allow(unused_imports)]
use crate::ast::model as m;
use crate::ast::same::same_expression;
use crate::text::{eq_ignore_ascii_case, list_has, same_text};
#[allow(unused_imports)]
use crate::text::{lists, same_ignoring_case, texts};
use crate::translator::constant::{get_literal_int, try_eval_bool_const};
#[allow(unused_imports)]
use crate::translator::constant::{const_bool, literal_int};

verus! {

/// An expression without the `NOT`s before it, and whether their number is odd.
pub open spec fn stripped(e: m::Expression) -> (bool, m::Expression)
    decreases e,
{
    match e {
        m::Expression::Not(a) => (!stripped(*a).0, stripped(*a).1),
        _ => (false, e),
    }
}

pub fn strip_not_chain(expr: Expression) -> (r: (bool, Expression))
    ensures
        (r.0, m::expression_of(r.1)) == stripped(m::expression_of(expr)),
{
    let ghost whole = m::expression_of(expr);
    let mut cur = expr;
    let mut negated = false;
    loop
        invariant
            whole == m::expression_of(expr),
            stripped(whole) == (
                negated != stripped(m::expression_of(cur)).0,
                stripped(m::expression_of(cur)).1,
            ),
        decreases cur,
    {
        match cur {
            Expression::Not(inner) => {
                negated = !negated;
                cur = *inner;
            },
            other => {
                return (negated, other);
            },
        }
    }
}

/// The normal form of a quantifier over a list variable. Two expressions with
/// the same normal form are equal whatever the list holds.
pub struct Canonical {
    pub list: String,
    /// 0 where no element satisfies the predicate, 1 where some does, 2 where
    /// exactly one does
    pub kind: u8,
    pub predicate: Expression,
    /// Whether it is the negation of the predicate that counts
    pub negated: bool,
}

/// The model of a [`Canonical`].
pub ghost struct Form {
    pub list: Seq<char>,
    pub kind: u8,
    pub predicate: m::Expression,
    pub negated: bool,
}

pub open spec fn form_of(c: Canonical) -> Form {
    Form {
        list: c.list@,
        kind: c.kind,
        predicate: m::expression_of(c.predicate),
        negated: c.negated,
    }
}

pub open spec fn opt_form(c: Option<Canonical>) -> Option<Form> {
    match c {
        Some(c) => Some(form_of(c)),
        None => None,
    }
}

/// The predicate of a quantifier; `true` where there is none.
pub open spec fn predicate_or_true(p: Option<Box<m::Expression>>) -> m::Expression {
    match p {
        Some(p) => *p,
        None => m::Expression::Literal(m::Literal::Boolean(true)),
    }
}

/// The form of the kind over a list variable that is one of the names.
pub open spec fn form_over(
    list: m::Expression,
    predicate: Option<Box<m::Expression>>,
    kind: u8,
    negate: bool,
    names: Seq<Seq<char>>,
) -> Option<Form> {
    match list {
        m::Expression::Variable(v) => if lists(names, v) {
            let p = stripped(predicate_or_true(predicate));
            Some(Form { list: v, kind: kind, predicate: p.1, negated: p.0 != negate })
        } else {
            None
        },
        _ => None,
    }
}

/// The form of `size([x IN list WHERE predicate]) op rhs`.
pub open spec fn size_form(
    list: m::Expression,
    predicate: Option<Box<m::Expression>>,
    op: CompOp,
    rhs: m::Expression,
    names: Seq<Seq<char>>,
) -> Option<Form> {
    match op {
        CompOp::Eq => match literal_int(rhs) {
            Some(n) => if n == 0 {
                form_over(list, predicate, 0, false, names)
            } else if n == 1 {
                form_over(list, predicate, 2, false, names)
            } else {
                None
            },
            None => match rhs {
                m::Expression::FunctionCall { name, distinct, args } => if same_ignoring_case(
                    name,
                    "size"@,
                ) && args.len() > 0 && args[0] is Variable && args[0] == list {
                    form_over(list, predicate, 0, true, names)
                } else {
                    None
                },
                _ => None,
            },
        },
        CompOp::Gt => if literal_int(rhs) == Some(0int) {
            form_over(list, predicate, 1, false, names)
        } else {
            None
        },
        _ => None,
    }
}

/// The normal form of an expression that is equivalent to a quantifier over
/// one of the named lists.
pub open spec fn canonical(e: m::Expression, names: Seq<Seq<char>>) -> Option<Form>
    decreases e,
{
    match e {
        m::Expression::QuantifierExpr { kind, variable, list, predicate } => match kind {
            QuantifierKind::NoneOf => form_over(*list, predicate, 0, false, names),
            QuantifierKind::Any => form_over(*list, predicate, 1, false, names),
            QuantifierKind::All => form_over(*list, predicate, 0, true, names),
            QuantifierKind::Single => form_over(*list, predicate, 2, false, names),
        },
        m::Expression::Not(a) => match canonical(*a, names) {
            Some(f) => if f.kind == 0 {
                Some(Form { kind: 1, ..f })
            } else if f.kind == 1 {
                Some(Form { kind: 0, ..f })
            } else {
                None
            },
            None => None,
        },
        m::Expression::Comparison(lhs, op, rhs) => match *lhs {
            m::Expression::FunctionCall { name, distinct, args } => if same_ignoring_case(
                name,
                "size"@,
            ) && args.len() > 0 {
                match args[0] {
                    m::Expression::ListComprehension { variable, list, predicate, projection } =>
                        size_form(*list, predicate, op, *rhs, names),
                    _ => None,
                }
            } else {
                None
            },
            _ => None,
        },
        _ => None,
    }
}

fn make_form(
    list: &Expression,
    predicate: &Option<Box<Expression>>,
    kind: u8,
    negate: bool,
    names: &Vec<String>,
) -> (r: Option<Canonical>)
    ensures
        opt_form(r) == form_over(
            m::expression_of(*list),
            m::opt_boxed(*predicate),
            kind,
            negate,
            texts(names@),
        ),
{
    match list {
        Expression::Variable(v) => {
            if !list_has(names, v.as_str()) {
                return None;
            }
            let raw = match predicate {
                Some(p) => clone_expression(p),
                None => Expression::Literal(Literal::Boolean(true)),
            };
            assert(m::expression_of(raw) == predicate_or_true(m::opt_boxed(*predicate)));
            let (neg, base) = strip_not_chain(raw);
            Some(Canonical { list: v.clone(), kind, predicate: base, negated: neg != negate })
        },
        _ => None,
    }
}

fn make_size_form(
    list: &Expression,
    predicate: &Option<Box<Expression>>,
    op: CompOp,
    rhs: &Expression,
    names: &Vec<String>,
) -> (r: Option<Canonical>)
    ensures
        opt_form(r) == size_form(
            m::expression_of(*list),
            m::opt_boxed(*predicate),
            op,
            m::expression_of(*rhs),
            texts(names@),
        ),
{
    match op {
        CompOp::Eq => match get_literal_int(rhs) {
            Some(n) => if n == 0 {
                make_form(list, predicate, 0, false, names)
            } else if n == 1 {
                make_form(list, predicate, 2, false, names)
            } else {
                None
            },
            None => match rhs {
                Expression::FunctionCall { name, distinct: _, args } => {
                    proof {
                        m::lemma_exprs_of(args@);
                    }
                    if eq_ignore_ascii_case(name.as_str(), "size") && args.len() > 0 {
                        assert(m::expression_of(args@[0]) is Variable == (args@[0] is Variable));
                        if let (Expression::Variable(v), Expression::Variable(w)) = (
                            &args[0],
                            list,
                        ) {
                            if same_text(v.as_str(), w.as_str()) {
                                return make_form(list, predicate, 0, true, names);
                            }
                        }
                    }
                    None
                },
                _ => None,
            },
        },
        CompOp::Gt => match get_literal_int(rhs) {
            Some(n) => if n == 0 {
                make_form(list, predicate, 1, false, names)
            } else {
                None
            },
            None => None,
        },
        _ => None,
    }
}

pub fn quantifier_canonical(expr: &Expression, opaque_vars: &Vec<String>) -> (r: Option<Canonical>)
    ensures
        opt_form(r) == canonical(m::expression_of(*expr), texts(opaque_vars@)),
    decreases expr,
{
    match expr {
        Expression::QuantifierExpr { kind, variable: _, list, predicate } => match kind {
            QuantifierKind::NoneOf => make_form(list, predicate, 0, false, opaque_vars),
            QuantifierKind::Any => make_form(list, predicate, 1, false, opaque_vars),
            QuantifierKind::All => make_form(list, predicate, 0, true, opaque_vars),
            QuantifierKind::Single => make_form(list, predicate, 2, false, opaque_vars),
        },
        Expression::Not(inner) => match quantifier_canonical(inner, opaque_vars) {
            Some(c) => if c.kind == 0 {
                Some(Canonical { kind: 1, ..c })
            } else if c.kind == 1 {
                Some(Canonical { kind: 0, ..c })
            } else {
                None
            },
            None => None,
        },
        Expression::Comparison(lhs, op, rhs) => {
            assert(m::expression_of(**lhs) is FunctionCall == (**lhs is FunctionCall));
            match &**lhs {
                Expression::FunctionCall { name, distinct: _, args } => {
                    proof {
                        m::lemma_exprs_of(args@);
                    }
                    if !eq_ignore_ascii_case(name.as_str(), "size") || args.len() == 0 {
                        return None;
                    }
                    assert(m::expression_of(args@[0]) is ListComprehension == (
                    args@[0] is ListComprehension));
                    match &args[0] {
                        Expression::ListComprehension {
                            variable: _,
                            list,
                            predicate,
                            projection: _,
                        } => make_size_form(list, predicate, *op, rhs, opaque_vars),
                        _ => None,
                    }
                },
                _ => None,
            }
        },
        _ => None,
    }
}

// ── Tautologies ──────────────────────────────────────────────────────────────

/// The value of a quantifier whose predicate has the same truth value for every
/// element, where the list does not decide it.
pub open spec fn settled(kind: QuantifierKind, truth: Option<Option<bool>>, nonempty: bool) -> Option<
    bool,
> {
    if truth == Some(Some(false)) {
        match kind {
            QuantifierKind::NoneOf => Some(true),
            QuantifierKind::Any => Some(false),
            QuantifierKind::Single => Some(false),
            QuantifierKind::All => if nonempty {
                Some(false)
            } else {
                None
            },
        }
    } else if truth == Some(Some(true)) {
        match kind {
            QuantifierKind::All => Some(true),
            QuantifierKind::NoneOf => if nonempty {
                Some(false)
            } else {
                None
            },
            QuantifierKind::Any => if nonempty {
                Some(true)
            } else {
                None
            },
            QuantifierKind::Single => None,
        }
    } else {
        None
    }
}

/// The value of an expression that does not depend on what the lists hold;
/// nothing where it may.
pub open spec fn tautology(
    e: m::Expression,
    opaque: Seq<Seq<char>>,
    nonempty: Seq<Seq<char>>,
) -> Option<bool>
    decreases e,
{
    match e {
        m::Expression::QuantifierExpr { kind, variable, list, predicate } => match (
            *list,
            predicate,
        ) {
            (m::Expression::Variable(v), Some(p)) => if lists(opaque, v) {
                settled(kind, const_bool(*p), lists(nonempty, v))
            } else {
                None
            },
            _ => None,
        },
        m::Expression::Comparison(lhs, op, rhs) => if op is Eq && canonical(*lhs, opaque) is Some
            && canonical(*lhs, opaque) == canonical(*rhs, opaque) {
            Some(true)
        } else {
            None
        },
        m::Expression::Not(a) => match tautology(*a, opaque, nonempty) {
            Some(b) => Some(!b),
            None => None,
        },
        m::Expression::And(a, b) => {
            let x = tautology(*a, opaque, nonempty);
            let y = tautology(*b, opaque, nonempty);
            if x == Some(true) && y == Some(true) {
                Some(true)
            } else if x == Some(false) || y == Some(false) {
                Some(false)
            } else {
                None
            }
        },
        m::Expression::Or(a, b) => {
            let x = tautology(*a, opaque, nonempty);
            let y = tautology(*b, opaque, nonempty);
            if x == Some(true) || y == Some(true) {
                Some(true)
            } else if x == Some(false) && y == Some(false) {
                Some(false)
            } else {
                None
            }
        },
        _ => None,
    }
}

fn settle(kind: QuantifierKind, truth: Option<Option<bool>>, nonempty: bool) -> (r: Option<bool>)
    ensures
        r == settled(kind, truth, nonempty),
{
    match truth {
        Some(Some(false)) => match kind {
            QuantifierKind::NoneOf => Some(true),
            QuantifierKind::Any => Some(false),
            QuantifierKind::Single => Some(false),
            QuantifierKind::All => if nonempty {
                Some(false)
            } else {
                None
            },
        },
        Some(Some(true)) => match kind {
            QuantifierKind::All => Some(true),
            QuantifierKind::NoneOf => if nonempty {
                Some(false)
            } else {
                None
            },
            QuantifierKind::Any => if nonempty {
                Some(true)
            } else {
                None
            },
            QuantifierKind::Single => None,
        },
        _ => None,
    }
}

fn same_form(a: &Canonical, b: &Canonical) -> (r: bool)
    ensures
        r == (form_of(*a) == form_of(*b)),
{
    same_text(a.list.as_str(), b.list.as_str()) && a.kind == b.kind && same_expression(
        &a.predicate,
        &b.predicate,
    ) && a.negated == b.negated
}

pub fn eval_quantifier_tautology(
    expr: &Expression,
    opaque_vars: &Vec<String>,
    nonempty_vars: &Vec<String>,
) -> (r: Option<bool>)
    ensures
        r == tautology(m::expression_of(*expr), texts(opaque_vars@), texts(nonempty_vars@)),
    decreases expr,
{
    match expr {
        Expression::QuantifierExpr { kind, variable: _, list, predicate } => {
            assert(m::expression_of(**list) is Variable == (**list is Variable));
            assert(m::opt_boxed(*predicate) is Some == (*predicate is Some));
            match (&**list, predicate) {
                (Expression::Variable(v), Some(p)) => {
                    if list_has(opaque_vars, v.as_str()) {
                        settle(*kind, try_eval_bool_const(p), list_has(nonempty_vars, v.as_str()))
                    } else {
                        None
                    }
                },
                _ => None,
            }
        },
        Expression::Comparison(lhs, op, rhs) => {
            match op {
                CompOp::Eq => {},
                _ => {
                    return None;
                },
            }
            match (quantifier_canonical(lhs, opaque_vars), quantifier_canonical(rhs, opaque_vars)) {
                (Some(a), Some(b)) => if same_form(&a, &b) {
                    Some(true)
                } else {
                    None
                },
                _ => None,
            }
        },
        Expression::Not(inner) => match eval_quantifier_tautology(
            inner,
            opaque_vars,
            nonempty_vars,
        ) {
            Some(b) => Some(!b),
            None => None,
        },
        Expression::And(a, b) => {
            match (
                eval_quantifier_tautology(a, opaque_vars, nonempty_vars),
                eval_quantifier_tautology(b, opaque_vars, nonempty_vars),
            ) {
                (Some(true), Some(true)) => Some(true),
                (Some(false), _) => Some(false),
                (_, Some(false)) => Some(false),
                _ => None,
            }
        },
        Expression::Or(a, b) => {
            match (
                eval_quantifier_tautology(a, opaque_vars, nonempty_vars),
                eval_quantifier_tautology(b, opaque_vars, nonempty_vars),
            ) {
                (Some(true), _) => Some(true),
                (_, Some(true)) => Some(true),
                (Some(false), Some(false)) => Some(false),
                _ => None,
            }
        },
        _ => None,
    }
}

} // verus!
