//! Counts that are known before a query runs.
use vstd::prelude::*;

use crate::ast::cypher::{Expression, Literal};
#[allow(unused_imports)]
use crate::ast::model as m;
use crate::ast::same::same_expression;
use crate::text::eq_ignore_ascii_case;
#[allow(unused_imports)]
use crate::text::same_ignoring_case;
use crate::translator::expr::lists::item_passes;
#[allow(unused_imports)]
use crate::translator::expr::meaning::passes;
use crate::translator::scope::GivenWhole;

verus! {

// ── Numbers of rows ──────────────────────────────────────────────────────────

/// A number, where there is room for it.
pub open spec fn in_range(n: int) -> Option<int> {
    if 0 <= n <= usize::MAX {
        Some(n)
    } else {
        None
    }
}

/// The first of the given numbers from the `k`th on that is of the expression.
pub open spec fn whole_from(e: m::Expression, given: Seq<GivenWhole>, k: int) -> Option<int>
    decreases given.len() - k,
{
    if k < 0 || k >= given.len() {
        None
    } else if m::expression_of(given[k].expression) == e {
        Some(given[k].value as int)
    } else {
        whole_from(e, given, k + 1)
    }
}

pub open spec fn is_to_integer(name: Seq<char>) -> bool {
    same_ignoring_case(name, "tointeger"@) || same_ignoring_case(name, "toint"@)
}

/// The number that `SKIP` or `LIMIT` asks for: a literal, a calculation with
/// such numbers, or `toInteger` of what has a known value.
pub open spec fn row_count(e: m::Expression, given: Seq<GivenWhole>) -> Option<int>
    decreases e,
{
    match e {
        m::Expression::Literal(m::Literal::Integer(n)) => if n >= 0 {
            Some((n as usize) as int)
        } else {
            None
        },
        m::Expression::Add(a, b) => match (row_count(*a, given), row_count(*b, given)) {
            (Some(x), Some(y)) => in_range(x + y),
            _ => None,
        },
        m::Expression::Subtract(a, b) => match (row_count(*a, given), row_count(*b, given)) {
            (Some(x), Some(y)) => in_range(x - y),
            _ => None,
        },
        m::Expression::Multiply(a, b) => match (row_count(*a, given), row_count(*b, given)) {
            (Some(x), Some(y)) => in_range(x * y),
            _ => None,
        },
        m::Expression::Divide(a, b) => match (row_count(*a, given), row_count(*b, given)) {
            (Some(x), Some(y)) => if y == 0 {
                None
            } else {
                Some(x / y)
            },
            _ => None,
        },
        m::Expression::FunctionCall { name, distinct, args } => if is_to_integer(name)
            && args.len() == 1 {
            whole_from(args[0], given, 0)
        } else {
            None
        },
        _ => None,
    }
}

pub open spec fn opt_size(o: Option<usize>) -> Option<int> {
    match o {
        Some(n) => Some(n as int),
        None => None,
    }
}

fn find_whole(e: &Expression, given: &Vec<GivenWhole>) -> (r: Option<usize>)
    ensures
        opt_size(r) == whole_from(m::expression_of(*e), given@, 0),
{
    #[verifier::loop_isolation(false)]
    for i in 0..given.len()
        invariant
            whole_from(m::expression_of(*e), given@, 0) == whole_from(
                m::expression_of(*e),
                given@,
                i as int,
            ),
    {
        if same_expression(&given[i].expression, e) {
            return Some(given[i].value);
        }
    }
    None
}

/// The number that `SKIP` or `LIMIT` asks for, where it is known.
pub fn try_eval_to_usize(expr: &Expression, given: &Vec<GivenWhole>) -> (r: Option<usize>)
    ensures
        opt_size(r) == row_count(m::expression_of(*expr), given@),
    decreases expr,
{
    match expr {
        Expression::Literal(Literal::Integer(n)) => if *n >= 0 {
            Some(
                #[verifier::truncate]
                (*n as usize),
            )
        } else {
            None
        },
        Expression::Add(a, b) => match (try_eval_to_usize(a, given), try_eval_to_usize(b, given)) {
            (Some(x), Some(y)) => x.checked_add(y),
            _ => None,
        },
        Expression::Subtract(a, b) => match (
            try_eval_to_usize(a, given),
            try_eval_to_usize(b, given),
        ) {
            (Some(x), Some(y)) => x.checked_sub(y),
            _ => None,
        },
        Expression::Multiply(a, b) => match (
            try_eval_to_usize(a, given),
            try_eval_to_usize(b, given),
        ) {
            (Some(x), Some(y)) => {
                assert(0 <= x * y) by (nonlinear_arith)
                    requires
                        0 <= x,
                        0 <= y,
                ;
                x.checked_mul(y)
            },
            _ => None,
        },
        Expression::Divide(a, b) => match (try_eval_to_usize(a, given), try_eval_to_usize(b, given)) {
            (Some(x), Some(y)) => if y == 0 {
                None
            } else {
                Some(x / y)
            },
            _ => None,
        },
        Expression::FunctionCall { name, distinct: _, args } => {
            proof {
                m::lemma_exprs_of(args@);
            }
            if (eq_ignore_ascii_case(name.as_str(), "tointeger") || eq_ignore_ascii_case(
                name.as_str(),
                "toint",
            )) && args.len() == 1 {
                find_whole(&args[0], given)
            } else {
                None
            }
        },
        _ => None,
    }
}

// ── Numbers of elements ──────────────────────────────────────────────────────

/// How many of the first `k` elements pass, where that is known of each.
pub open spec fn passing(
    items: Seq<m::Expression>,
    k: int,
    variable: Seq<char>,
    predicate: Option<Box<m::Expression>>,
) -> Option<int>
    decreases k,
{
    if k <= 0 {
        Some(0)
    } else {
        match (passing(items, k - 1, variable, predicate), passes(predicate, variable, items[k - 1])) {
            (Some(n), Some(b)) => Some(
                if b {
                    n + 1
                } else {
                    n
                },
            ),
            _ => None,
        }
    }
}

/// The number of the elements of a list that is written out, of two such lists
/// together, or of a filter of one.
pub open spec fn element_count(e: m::Expression) -> Option<int>
    decreases e,
{
    match e {
        m::Expression::List(items) => Some(items.len() as int),
        m::Expression::Add(a, b) => match (element_count(*a), element_count(*b)) {
            (Some(x), Some(y)) => in_range(x + y),
            _ => None,
        },
        m::Expression::ListComprehension { variable, list, predicate, projection } => match *list {
            m::Expression::List(items) => passing(items, items.len() as int, variable, predicate),
            _ => None,
        },
        _ => None,
    }
}

proof fn lemma_not_passing(
    items: Seq<m::Expression>,
    k: int,
    n: int,
    variable: Seq<char>,
    predicate: Option<Box<m::Expression>>,
)
    requires
        0 < k <= n <= items.len(),
        passing(items, k, variable, predicate) is None,
    ensures
        passing(items, n, variable, predicate) is None,
    decreases n - k,
{
    if k < n {
        lemma_not_passing(items, k, n - 1, variable, predicate);
    }
}

fn count_passing(items: &Vec<Expression>, variable: &String, predicate: &Option<Box<Expression>>) -> (r:
    Option<usize>)
    ensures
        opt_size(r) == passing(
            m::exprs_of(items@),
            items@.len() as int,
            variable@,
            m::opt_boxed(*predicate),
        ),
{
    let ghost es = m::exprs_of(items@);
    let ghost p = m::opt_boxed(*predicate);
    proof {
        m::lemma_exprs_of(items@);
    }
    let mut n: usize = 0;
    #[verifier::loop_isolation(false)]
    for i in 0..items.len()
        invariant
            n <= i,
            passing(es, i as int, variable@, p) == Some(n as int),
    {
        match item_passes(predicate, variable, &items[i]) {
            Some(b) => {
                if b {
                    n = n + 1;
                }
            },
            None => {
                proof {
                    lemma_not_passing(es, i + 1, es.len() as int, variable@, p);
                }
                return None;
            },
        }
    }
    Some(n)
}

/// The number of the elements of a list, where it is known.
pub fn count_list_elements(expr: &Expression) -> (r: Option<usize>)
    ensures
        opt_size(r) == element_count(m::expression_of(*expr)),
    decreases expr,
{
    match expr {
        Expression::List(items) => {
            proof {
                m::lemma_exprs_of(items@);
            }
            Some(items.len())
        },
        Expression::Add(a, b) => match (count_list_elements(a), count_list_elements(b)) {
            (Some(x), Some(y)) => x.checked_add(y),
            _ => None,
        },
        Expression::ListComprehension { variable, list, predicate, projection: _ } => {
            assert(m::expression_of(**list) is List == (**list is List));
            match &**list {
                Expression::List(items) => {
                    proof {
                        m::lemma_exprs_of(items@);
                    }
                    count_passing(items, variable, predicate)
                },
                _ => None,
            }
        },
        _ => None,
    }
}

} // verus!
