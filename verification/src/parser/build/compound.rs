//! `CASE`, quantifiers, comprehensions and `EXISTS`.
use vstd::prelude::*;

use crate::ast::cypher as ast;
#[allow(unused_imports)]
use crate::ast::model as m;
use crate::parser::build::expr::{build_expression, build_expressions, build_optional_expression};
use crate::parser::build::postfix::in_box;
use crate::parser::build::clause::{
    build_clauses, build_clause_expression, build_pattern_list, build_relationships_pattern,
};
use crate::parser::build::names::{
    build_bound_variable, build_quantifier_kind, build_variable, count_children, find_clause,
    has_write_clause, keeps_clauses,
};
#[allow(unused_imports)]
use crate::parser::build::views::built_expression;
use crate::parser::error::{malformed_tree, unsupported_feature, ParseError};
#[allow(unused_imports)]
use crate::parser::error::{Built, Fault};
#[allow(unused_imports)]
use crate::parser::meaning::{
    case_done, case_from, case_in, child_filter_in, exists_in, exists_pattern_in, exists_query_in,
    expressions_from, list_comprehension_in, pattern_comprehension_in, quantified_in, Case,
    Filter,
};
use crate::parser::tree::{child, has_child, nth, width, Node, Rule};
#[allow(unused_imports)]
use crate::parser::tree::tree_of;

verus! {

pub fn build_case_expression(n: &Node, gql: bool) -> (r: Result<ast::Expression, ParseError>)
    ensures
        built_expression(r) == case_in(tree_of(*n), gql),
    decreases n, 0nat,
{
    let ghost ch = tree_of(*n).children;
    let ghost none = Case { operand: None, whens: seq![], otherwise: None, after_else: false };
    let len: usize = width(n);
    let mut operand: Option<ast::Expression> = None;
    let mut whens: Vec<(ast::Expression, ast::Expression)> = Vec::new();
    let mut otherwise: Option<ast::Expression> = None;
    let mut after_else = false;
    let mut i: usize = 0;
    while i < len
        invariant
            ch == tree_of(*n).children,
            len == ch.len(),
            m::whens_of(whens@).len() == whens@.len(),
            case_in(tree_of(*n), gql) == case_done(case_from(ch, 0, none, gql)),
            case_from(ch, 0, none, gql) == case_from(
                ch,
                i as int,
                Case {
                    operand: m::opt_expr(operand),
                    whens: m::whens_of(whens@),
                    otherwise: m::opt_expr(otherwise),
                    after_else,
                },
                gql,
            ),
        decreases len - i,
    {
        let c = nth(n, i);
        match c.rule {
            Rule::kw_CASE => {},
            Rule::kw_END => {},
            Rule::kw_ELSE => {
                after_else = true;
            },
            Rule::case_when => {
                let mut s = build_expressions(c, 0, gql)?;
                proof {
                    m::lemma_exprs_of(s@);
                }
                let ghost parts = m::exprs_of(s@);
                assert(expressions_from(ch[i as int].children, 0, gql) == Ok::<
                    Seq<m::Expression>,
                    Fault,
                >(parts));
                if s.len() == 2 {
                    let first = s.remove(0);
                    let second = s.remove(0);
                    assert(m::expression_of(first) == parts[0]);
                    assert(m::expression_of(second) == parts[1]);
                    proof {
                        m::lemma_push_whens_of(whens@, (first, second));
                    }
                    whens.push((first, second));
                }
            },
            Rule::expression => {
                if after_else {
                    let e = build_expression(c, gql)?;
                    otherwise = Some(e);
                    after_else = false;
                    assert(m::opt_expr(otherwise) == Some(m::expression_of(e)));
                } else if whens.len() == 0 {
                    let e = build_expression(c, gql)?;
                    operand = Some(e);
                    assert(m::opt_expr(operand) == Some(m::expression_of(e)));
                }
            },
            _ => {
                after_else = false;
            },
        }
        i = i + 1;
    }
    Ok(
        ast::Expression::CaseExpression {
            operand: in_box(operand),
            whens,
            else_expr: in_box(otherwise),
        },
    )
}

/// The variable, the list and the predicate of a `filter_expression`.
struct FilterParts {
    variable: String,
    list: ast::Expression,
    predicate: Option<ast::Expression>,
}

spec fn built_filter(r: Result<FilterParts, ParseError>) -> Built<Filter> {
    match r {
        Ok(x) => Ok(
            Filter {
                variable: x.variable@,
                list: m::expression_of(x.list),
                predicate: m::opt_expr(x.predicate),
            },
        ),
        Err(e) => Err(e@),
    }
}

fn build_filter(n: &Node, gql: bool) -> (r: Result<FilterParts, ParseError>)
    ensures
        built_filter(r) == child_filter_in(tree_of(*n), gql),
    decreases n, 0nat,
{
    match child(n, Rule::filter_expression) {
        None => Err(malformed_tree()),
        Some(c) => {
            let variable = build_bound_variable(c)?;
            let mut s = build_expressions(c, 0, gql)?;
            proof {
                m::lemma_exprs_of(s@);
            }
            if s.len() == 0 {
                return Err(malformed_tree());
            }
            let list = s.remove(0);
            let predicate = if s.len() > 0 {
                Some(s.remove(0))
            } else {
                None
            };
            Ok(FilterParts { variable, list, predicate })
        },
    }
}

pub fn build_quantifier_expr(n: &Node, gql: bool) -> (r: Result<ast::Expression, ParseError>)
    ensures
        built_expression(r) == quantified_in(tree_of(*n), gql),
    decreases n, 1nat,
{
    let f = build_filter(n, gql)?;
    match build_quantifier_kind(n) {
        None => Err(malformed_tree()),
        Some(kind) => Ok(
            ast::Expression::QuantifierExpr {
                kind,
                variable: f.variable,
                list: Box::new(f.list),
                predicate: in_box(f.predicate),
            },
        ),
    }
}

pub fn build_list_comprehension(n: &Node, gql: bool) -> (r: Result<ast::Expression, ParseError>)
    ensures
        built_expression(r) == list_comprehension_in(tree_of(*n), gql),
    decreases n, 1nat,
{
    let f = build_filter(n, gql)?;
    let projection = build_optional_expression(n, gql)?;
    Ok(
        ast::Expression::ListComprehension {
            variable: f.variable,
            list: Box::new(f.list),
            predicate: in_box(f.predicate),
            projection: in_box(projection),
        },
    )
}

pub fn build_pattern_comprehension(n: &Node, gql: bool) -> (r: Result<ast::Expression, ParseError>)
    ensures
        built_expression(r) == pattern_comprehension_in(tree_of(*n), gql),
    decreases n, 1nat,
{
    let alias = build_variable(n)?;
    let elements = build_relationships_pattern(n, gql)?;
    let mut s = build_expressions(n, 0, gql)?;
    proof {
        m::lemma_exprs_of(s@);
    }
    let ghost all = m::exprs_of(s@);
    let variable = match &alias {
        Some(a) => Some(a.clone()),
        None => None,
    };
    match s.pop() {
        None => Err(malformed_tree()),
        Some(projection) => {
            assert(m::expression_of(projection) == all.last());
            let predicate = if s.len() > 0 {
                let e = s.remove(0);
                assert(m::expression_of(e) == all[0]);
                Some(e)
            } else {
                None
            };
            let pattern = ast::Pattern { variable, elements };
            assert(m::pattern_of(pattern) == (m::Pattern {
                variable: m::opt_text(variable),
                elements: m::elements_of(elements@),
            }));
            Ok(
                ast::Expression::PatternComprehension {
                    alias,
                    pattern,
                    predicate: in_box(predicate),
                    projection: Box::new(projection),
                },
            )
        },
    }
}

pub fn build_exists(n: &Node, gql: bool) -> (r: Result<ast::Expression, ParseError>)
    ensures
        built_expression(r) == exists_in(tree_of(*n), gql),
    decreases n, 2nat,
{
    match child(n, Rule::statement) {
        Some(s) => match child(s, Rule::single_query) {
            Some(q) => if count_children(s, Rule::single_query) == 1 {
                build_exists_query(q, gql)
            } else {
                Err(unsupported_feature("EXISTS subquery with UNION (Phase 4+)"))
            },
            None => Err(unsupported_feature("EXISTS subquery with UNION (Phase 4+)")),
        },
        None => if has_child(n, Rule::pattern_list) {
            build_exists_pattern(n, gql)
        } else {
            Err(unsupported_feature("EXISTS subquery with no pattern"))
        },
    }
}

pub fn build_exists_query(n: &Node, gql: bool) -> (r: Result<ast::Expression, ParseError>)
    ensures
        built_expression(r) == exists_query_in(tree_of(*n), gql),
    decreases n, 1nat,
{
    if has_write_clause(n) {
        return Err(
            unsupported_feature("EXISTS subquery with non-MATCH/RETURN clauses (Phase 4+)"),
        );
    }
    if keeps_clauses(n) {
        let clauses = build_clauses(n, gql)?;
        return Ok(ast::Expression::ExistsFullSubquery { clauses });
    }
    match find_clause(n, Rule::match_clause) {
        None => Err(unsupported_feature("EXISTS subquery without MATCH")),
        Some(k) => {
            let c = nth(n, k);
            let inner = nth(c, 0);
            build_exists_pattern(inner, gql)
        },
    }
}

pub fn build_exists_pattern(n: &Node, gql: bool) -> (r: Result<ast::Expression, ParseError>)
    ensures
        built_expression(r) == exists_pattern_in(tree_of(*n), gql),
    decreases n, 1nat,
{
    let patterns = build_pattern_list(n, gql)?;
    let e = build_clause_expression(n, Rule::where_clause, gql)?;
    Ok(ast::Expression::ExistsSubquery { patterns, where_: in_box(e) })
}

} // verus!
