//! Patterns and clauses.
use vstd::prelude::*;

use crate::ast::cypher as ast;
#[allow(unused_imports)]
use crate::ast::model as m;
use crate::parser::build::atom::{build_map_literal, build_properties};
use crate::parser::build::expr::{build_child_expression, build_expressions};
use crate::parser::build::names::{
    build_access, build_alias, build_call_yields, build_child_labels, build_direction,
    build_is_labels, build_procedure, build_range_literal, build_rel_types, build_variable,
    ident_text, is_descending,
};
#[allow(unused_imports)]
use crate::parser::build::views::{
    after, built_clause, built_clauses, built_element, built_elements, built_expressions,
    built_items, built_merge_actions, built_option_expression, built_option_order_by,
    built_pattern, built_pattern_list, built_patterns, built_remove_item, built_remove_items,
    built_return_item, built_return_items, built_set_item, built_set_items, built_sort_item, built_sort_items,
    lemma_after_add, lemma_after_end, lemma_after_push, lemma_after_start,
};
use crate::parser::error::{malformed_tree, unsupported_feature, ParseError};
#[allow(unused_imports)]
use crate::parser::error::{Built, Fault};
#[allow(unused_imports)]
use crate::parser::meaning::{
    call_args_in, call_in, child_pattern_in, child_projection_in, child_set_items_in,
    clause_expression_in, clause_in, clauses_from, elements_from, items_from, match_in,
    merge_actions_from, merge_in, next_in, node_pattern_in, order_by_in, path_in, pattern_in,
    pattern_list_in, patterns_from, plain_with, projection_in, query_in, rel_pattern_in,
    relationships_in, remove_item_in, remove_items_from, return_in, return_item_in, return_items_in,
    set_item_in, set_items_from, sort_item_in, sort_items_from, statement_from, unwind_in, where_in, where_of,
    with_in, Projection,
};
use crate::parser::tree::{child, has_child, nth, width, Node, Rule};
#[allow(unused_imports)]
use crate::parser::tree::{tree_of, Tree};
use crate::text::concat_texts;
#[allow(unused_imports)]
use crate::text::texts;

verus! {

// ── Patterns ─────────────────────────────────────────────────────────────────

fn build_node_pattern(n: &Node, gql: bool) -> (r: Result<ast::PatternElement, ParseError>)
    ensures
        built_element(r) == node_pattern_in(tree_of(*n), gql),
    decreases n, 1nat,
{
    let variable = build_variable(n)?;
    let properties = build_properties(n, gql)?;
    let named = build_child_labels(n, gql);
    let labels = if gql {
        let more = build_is_labels(n);
        concat_texts(&named, &more)
    } else {
        named
    };
    Ok(ast::PatternElement::Node(ast::NodePattern { variable, labels, properties }))
}

fn build_rel_pattern(n: &Node, gql: bool) -> (r: Result<ast::PatternElement, ParseError>)
    ensures
        built_element(r) == rel_pattern_in(tree_of(*n), gql),
    decreases n, 1nat,
{
    let direction = build_direction(n);
    match child(n, Rule::rel_body) {
        Some(b) => {
            let variable = build_variable(b)?;
            let properties = build_properties(b, gql)?;
            let rel_types = build_rel_types(b, gql);
            let range = build_range_literal(b);
            Ok(
                ast::PatternElement::Relationship(
                    ast::RelationshipPattern { variable, direction, rel_types, properties, range },
                ),
            )
        },
        None => {
            let rel_types: Vec<String> = Vec::new();
            assert(texts(rel_types@) =~= seq![]);
            Ok(
                ast::PatternElement::Relationship(
                    ast::RelationshipPattern {
                        variable: None,
                        direction,
                        rel_types,
                        properties: None,
                        range: None,
                    },
                ),
            )
        },
    }
}

/// The nodes and relationships below a node, in order.
fn build_pattern_element(n: &Node, gql: bool) -> (r: Result<Vec<ast::PatternElement>, ParseError>)
    ensures
        built_elements(r) == elements_from(tree_of(*n).children, 0, gql),
    decreases n, 0nat,
{
    let ghost ch = tree_of(*n).children;
    let len: usize = width(n);
    let mut v: Vec<ast::PatternElement> = Vec::new();
    let mut i: usize = 0;
    proof {
        lemma_after_start(m::elements_of(v@), elements_from(ch, 0, gql));
    }
    while i < len
        invariant
            ch == tree_of(*n).children,
            len == ch.len(),
            elements_from(ch, 0, gql) == after(
                m::elements_of(v@),
                elements_from(ch, i as int, gql),
            ),
        decreases len - i,
    {
        let c = nth(n, i);
        let mut more: Vec<ast::PatternElement> = Vec::new();
        match c.rule {
            Rule::node_pattern => {
                let x = build_node_pattern(c, gql)?;
                proof {
                    m::lemma_push_elements_of(more@, x);
                    assert(m::elements_of(more@.push(x)) =~= seq![m::pattern_element_of(x)]);
                }
                more.push(x);
            },
            Rule::rel_pattern => {
                let x = build_rel_pattern(c, gql)?;
                proof {
                    m::lemma_push_elements_of(more@, x);
                    assert(m::elements_of(more@.push(x)) =~= seq![m::pattern_element_of(x)]);
                }
                more.push(x);
            },
            Rule::pattern_element_chain => {
                more = build_pattern_element(c, gql)?;
            },
            Rule::chain_link => {
                more = build_pattern_element(c, gql)?;
            },
            Rule::pattern_element => {
                more = build_pattern_element(c, gql)?;
            },
            _ => {},
        }
        proof {
            lemma_after_add(m::elements_of(v@), m::elements_of(more@), elements_from(ch, i + 1, gql));
            m::lemma_add_elements_of(v@, more@);
        }
        v.append(&mut more);
        i = i + 1;
    }
    proof {
        lemma_after_end(m::elements_of(v@));
    }
    Ok(v)
}

/// The path of the first `relationships_pattern` child.
pub fn build_relationships_pattern(n: &Node, gql: bool) -> (r: Result<
    Vec<ast::PatternElement>,
    ParseError,
>)
    ensures
        built_elements(r) == relationships_in(tree_of(*n), gql),
    decreases n, 0nat,
{
    match child(n, Rule::relationships_pattern) {
        Some(c) => build_pattern_element(c, gql),
        None => Err(malformed_tree()),
    }
}

fn build_path(n: &Node, gql: bool) -> (r: Result<Vec<ast::PatternElement>, ParseError>)
    ensures
        built_elements(r) == path_in(tree_of(*n), gql),
    decreases n, 0nat,
{
    if gql {
        match child(n, Rule::node_pattern_chain) {
            Some(c) => build_pattern_element(c, gql),
            None => Err(malformed_tree()),
        }
    } else {
        match child(n, Rule::anonymous_pattern_part) {
            None => Err(malformed_tree()),
            Some(a) => {
                if width(a) == 0 {
                    return Err(malformed_tree());
                }
                let p = nth(a, 0);
                if p.rule == Rule::pattern_element {
                    build_pattern_element(p, gql)
                } else if p.rule == Rule::shortest_path_pattern {
                    match child(p, Rule::pattern_element) {
                        Some(c) => build_pattern_element(c, gql),
                        None => Err(malformed_tree()),
                    }
                } else {
                    Err(malformed_tree())
                }
            },
        }
    }
}

fn build_pattern(n: &Node, gql: bool) -> (r: Result<ast::Pattern, ParseError>)
    ensures
        built_pattern(r) == pattern_in(tree_of(*n), gql),
    decreases n, 1nat,
{
    let variable = build_variable(n)?;
    let elements = build_path(n, gql)?;
    Ok(ast::Pattern { variable, elements })
}

/// The patterns below a `pattern_list`.
pub fn build_patterns(n: &Node, gql: bool) -> (r: Result<Vec<ast::Pattern>, ParseError>)
    ensures
        built_patterns(r) == patterns_from(tree_of(*n).children, 0, gql),
    decreases n, 0nat,
{
    let ghost ch = tree_of(*n).children;
    let len: usize = width(n);
    let mut v: Vec<ast::Pattern> = Vec::new();
    let mut i: usize = 0;
    proof {
        lemma_after_start(m::patterns_of(v@), patterns_from(ch, i as int, gql));
    }
    while i < len
        invariant
            ch == tree_of(*n).children,
            len == ch.len(),
            patterns_from(ch, 0, gql) == after(
                m::patterns_of(v@),
                patterns_from(ch, i as int, gql),
            ),
        decreases len - i,
    {
        let c = nth(n, i);
        if c.rule == Rule::pattern {
            let x = build_pattern(c, gql)?;
            proof {
                lemma_after_push(m::patterns_of(v@), m::pattern_of(x), patterns_from(ch, i + 1, gql));
                m::lemma_push_patterns_of(v@, x);
            }
            v.push(x);
        }
        i = i + 1;
    }
    proof {
        lemma_after_end(m::patterns_of(v@));
    }
    Ok(v)
}

/// The patterns of the first `pattern_list` child.
pub fn build_pattern_list(n: &Node, gql: bool) -> (r: Result<ast::PatternList, ParseError>)
    ensures
        built_pattern_list(r) == pattern_list_in(tree_of(*n), gql),
    decreases n, 0nat,
{
    match child(n, Rule::pattern_list) {
        Some(c) => {
            let p = build_patterns(c, gql)?;
            Ok(ast::PatternList(p))
        },
        None => Err(malformed_tree()),
    }
}

// ── Clauses ──────────────────────────────────────────────────────────────────

/// The expression of the first child with the rule, where there is one.
pub fn build_clause_expression(n: &Node, rule: Rule, gql: bool) -> (r: Result<
    Option<ast::Expression>,
    ParseError,
>)
    ensures
        built_option_expression(r) == clause_expression_in(tree_of(*n), rule, gql),
    decreases n, 0nat,
{
    match child(n, rule) {
        Some(c) => {
            let e = build_child_expression(c, gql)?;
            Ok(Some(e))
        },
        None => Ok(None),
    }
}

/// The clauses of a single query.
pub fn build_clauses(n: &Node, gql: bool) -> (r: Result<Vec<ast::Clause>, ParseError>)
    ensures
        built_clauses(r) == clauses_from(tree_of(*n).children, 0, gql),
    decreases n, 0nat,
{
    let ghost ch = tree_of(*n).children;
    let len: usize = width(n);
    let mut v: Vec<ast::Clause> = Vec::new();
    let mut i: usize = 0;
    proof {
        lemma_after_start(m::clauses_of(v@), clauses_from(ch, 0, gql));
    }
    while i < len
        invariant
            ch == tree_of(*n).children,
            len == ch.len(),
            clauses_from(ch, 0, gql) == after(m::clauses_of(v@), clauses_from(ch, i as int, gql)),
        decreases len - i,
    {
        let c = nth(n, i);
        if c.rule == Rule::clause {
            if width(c) == 0 {
                return Err(malformed_tree());
            }
            let inner = nth(c, 0);
            let x = build_clause(inner, gql)?;
            proof {
                lemma_after_push(m::clauses_of(v@), m::clause_of(x), clauses_from(ch, i + 1, gql));
                m::lemma_push_clauses_of(v@, x);
            }
            v.push(x);
        }
        i = i + 1;
    }
    proof {
        lemma_after_end(m::clauses_of(v@));
    }
    Ok(v)
}

fn in_where(e: Option<ast::Expression>) -> (r: Option<ast::WhereClause>)
    ensures
        m::opt_where(r) == where_of(m::opt_expr(e)),
{
    match e {
        Some(expression) => Some(ast::WhereClause { expression }),
        None => None,
    }
}

fn build_where_clause(n: &Node, gql: bool) -> (r: Result<Option<ast::Expression>, ParseError>)
    ensures
        built_option_expression(r) == where_in(tree_of(*n), gql),
    decreases n, 1nat,
{
    if gql {
        build_clause_expression(n, Rule::match_where, gql)
    } else {
        build_clause_expression(n, Rule::where_clause, gql)
    }
}

fn build_return_item(n: &Node, gql: bool) -> (r: Result<ast::ReturnItem, ParseError>)
    ensures
        built_return_item(r) == return_item_in(tree_of(*n), gql),
    decreases n, 1nat,
{
    let expression = build_child_expression(n, gql)?;
    let alias = build_alias(n)?;
    Ok(ast::ReturnItem { expression, alias })
}

/// The items below `explicit_items`.
pub fn build_explicit_items(n: &Node, gql: bool) -> (r: Result<Vec<ast::ReturnItem>, ParseError>)
    ensures
        built_items(r) == items_from(tree_of(*n).children, 0, gql),
    decreases n, 0nat,
{
    let ghost ch = tree_of(*n).children;
    let len: usize = width(n);
    let mut v: Vec<ast::ReturnItem> = Vec::new();
    let mut i: usize = 0;
    proof {
        lemma_after_start(m::items_of(v@), items_from(ch, i as int, gql));
    }
    while i < len
        invariant
            ch == tree_of(*n).children,
            len == ch.len(),
            items_from(ch, 0, gql) == after(
                m::items_of(v@),
                items_from(ch, i as int, gql),
            ),
        decreases len - i,
    {
        let c = nth(n, i);
        if c.rule == Rule::return_item {
            let x = build_return_item(c, gql)?;
            proof {
                lemma_after_push(m::items_of(v@), m::return_item_of(x), items_from(ch, i + 1, gql));
                m::lemma_push_items_of(v@, x);
            }
            v.push(x);
        }
        i = i + 1;
    }
    proof {
        lemma_after_end(m::items_of(v@));
    }
    Ok(v)
}

/// The items of the first `return_items` child; all of them where there is none.
fn build_return_items(n: &Node, gql: bool) -> (r: Result<ast::ReturnItems, ParseError>)
    ensures
        built_return_items(r) == return_items_in(tree_of(*n), gql),
    decreases n, 0nat,
{
    match child(n, Rule::return_items) {
        None => Ok(ast::ReturnItems::All),
        Some(p) => {
            if width(p) == 0 {
                return Err(malformed_tree());
            }
            let c = nth(p, 0);
            if c.rule == Rule::star_projection {
                Ok(ast::ReturnItems::All)
            } else if c.rule == Rule::explicit_items {
                let x = build_explicit_items(c, gql)?;
                Ok(ast::ReturnItems::Explicit(x))
            } else {
                Err(malformed_tree())
            }
        },
    }
}

fn build_sort_item(n: &Node, gql: bool) -> (r: Result<ast::SortItem, ParseError>)
    ensures
        built_sort_item(r) == sort_item_in(tree_of(*n), gql),
    decreases n, 1nat,
{
    let expression = build_child_expression(n, gql)?;
    let descending = is_descending(n, gql);
    Ok(ast::SortItem { expression, descending })
}

proof fn lemma_sort_items_step(
    ch: Seq<Tree>,
    i: int,
    gql: bool,
    done: Seq<m::SortItem>,
    x: m::SortItem,
)
    requires
        0 <= i < ch.len(),
        ch[i].rule == Rule::sort_item,
        sort_item_in(ch[i], gql) == Ok::<m::SortItem, Fault>(x),
    ensures
        after(done, sort_items_from(ch, i, gql)) == after(
            done.push(x),
            sort_items_from(ch, i + 1, gql),
        ),
{
    lemma_after_push(done, x, sort_items_from(ch, i + 1, gql));
}

/// The sort keys below `ORDER BY`.
pub fn build_sort_items(n: &Node, gql: bool) -> (r: Result<Vec<ast::SortItem>, ParseError>)
    ensures
        built_sort_items(r) == sort_items_from(tree_of(*n).children, 0, gql),
    decreases n, 0nat,
{
    let ghost ch = tree_of(*n).children;
    let len: usize = width(n);
    let mut v: Vec<ast::SortItem> = Vec::new();
    let mut i: usize = 0;
    proof {
        lemma_after_start(m::sort_items_of(v@), sort_items_from(ch, i as int, gql));
    }
    while i < len
        invariant
            ch == tree_of(*n).children,
            len == ch.len(),
            sort_items_from(ch, 0, gql) == after(
                m::sort_items_of(v@),
                sort_items_from(ch, i as int, gql),
            ),
        decreases len - i,
    {
        let c = nth(n, i);
        if c.rule == Rule::sort_item {
            let x = build_sort_item(c, gql)?;
            proof {
                lemma_sort_items_step(ch, i as int, gql, m::sort_items_of(v@), m::sort_item_of(x));
                m::lemma_push_sort_items_of(v@, x);
            }
            v.push(x);
        }
        i = i + 1;
    }
    proof {
        lemma_after_end(m::sort_items_of(v@));
    }
    Ok(v)
}

fn build_order_by_clause(n: &Node, gql: bool) -> (r: Result<
    Option<ast::OrderByClause>,
    ParseError,
>)
    ensures
        built_option_order_by(r) == order_by_in(tree_of(*n), gql),
    decreases n, 0nat,
{
    match child(n, Rule::order_by_clause) {
        Some(c) => {
            let items = build_sort_items(c, gql)?;
            Ok(Some(ast::OrderByClause { items }))
        },
        None => Ok(None),
    }
}

/// The parts of a projection.
struct ProjectionParts {
    distinct: bool,
    items: ast::ReturnItems,
    order_by: Option<ast::OrderByClause>,
    skip: Option<ast::Expression>,
    limit: Option<ast::Expression>,
}

spec fn built_projection(r: Result<ProjectionParts, ParseError>) -> Built<Projection> {
    match r {
        Ok(x) => Ok(
            Projection {
                distinct: x.distinct,
                items: m::return_items_of(x.items),
                order_by: m::opt_order_by(x.order_by),
                skip: m::opt_expr(x.skip),
                limit: m::opt_expr(x.limit),
            },
        ),
        Err(e) => Err(e@),
    }
}

fn build_projection_body(n: &Node, gql: bool) -> (r: Result<ProjectionParts, ParseError>)
    ensures
        built_projection(r) == projection_in(tree_of(*n), gql),
    decreases n, 1nat,
{
    let items = build_return_items(n, gql)?;
    let order_by = build_order_by_clause(n, gql)?;
    let skip = build_clause_expression(n, Rule::skip_clause, gql)?;
    let limit = build_clause_expression(n, Rule::limit_clause, gql)?;
    let distinct = has_child(n, Rule::distinct_marker);
    Ok(ProjectionParts { distinct, items, order_by, skip, limit })
}

fn build_child_projection(n: &Node, rule: Rule, gql: bool) -> (r: Result<
    ProjectionParts,
    ParseError,
>)
    ensures
        built_projection(r) == child_projection_in(tree_of(*n), rule, gql),
    decreases n, 0nat,
{
    match child(n, rule) {
        Some(c) => build_projection_body(c, gql),
        None => Err(malformed_tree()),
    }
}

fn build_return_clause(n: &Node, gql: bool) -> (r: Result<ast::Clause, ParseError>)
    ensures
        built_clause(r) == return_in(tree_of(*n), gql),
    decreases n, 1nat,
{
    if gql {
        let order_by = build_order_by_clause(n, gql)?;
        let skip = build_clause_expression(n, Rule::skip_clause, gql)?;
        let limit = build_clause_expression(n, Rule::limit_clause, gql)?;
        let p = build_child_projection(n, Rule::return_body, gql)?;
        Ok(
            ast::Clause::Return(
                ast::ReturnClause {
                    distinct: p.distinct,
                    items: p.items,
                    order_by,
                    skip,
                    limit,
                },
            ),
        )
    } else {
        let p = build_child_projection(n, Rule::projection_body, gql)?;
        Ok(
            ast::Clause::Return(
                ast::ReturnClause {
                    distinct: p.distinct,
                    items: p.items,
                    order_by: p.order_by,
                    skip: p.skip,
                    limit: p.limit,
                },
            ),
        )
    }
}

fn build_with_clause(n: &Node, gql: bool) -> (r: Result<ast::Clause, ParseError>)
    ensures
        built_clause(r) == with_in(tree_of(*n), gql),
    decreases n, 1nat,
{
    let e = build_clause_expression(n, Rule::where_clause, gql)?;
    let p = build_child_projection(n, Rule::projection_body, gql)?;
    Ok(
        ast::Clause::With(
            ast::WithClause {
                distinct: p.distinct,
                items: p.items,
                where_: in_where(e),
                order_by: p.order_by,
                skip: p.skip,
                limit: p.limit,
            },
        ),
    )
}

fn make_plain_with(
    distinct: bool,
    items: ast::ReturnItems,
    e: Option<ast::Expression>,
) -> (r: ast::Clause)
    ensures
        m::clause_of(r) == plain_with(distinct, m::return_items_of(items), m::opt_expr(e)),
{
    ast::Clause::With(
        ast::WithClause {
            distinct,
            items,
            where_: in_where(e),
            order_by: None,
            skip: None,
            limit: None,
        },
    )
}

fn build_next_clause(n: &Node, gql: bool) -> (r: Result<ast::Clause, ParseError>)
    ensures
        built_clause(r) == next_in(tree_of(*n), gql),
    decreases n, 1nat,
{
    match child(n, Rule::return_body) {
        Some(c) => {
            let items = build_return_items(c, gql)?;
            Ok(make_plain_with(has_child(c, Rule::distinct_marker), items, None))
        },
        None => Ok(make_plain_with(false, ast::ReturnItems::All, None)),
    }
}

fn build_match_clause(n: &Node, gql: bool) -> (r: Result<ast::Clause, ParseError>)
    ensures
        built_clause(r) == match_in(tree_of(*n), gql),
    decreases n, 2nat,
{
    let pattern = build_pattern_list(n, gql)?;
    let e = build_where_clause(n, gql)?;
    Ok(
        ast::Clause::Match(
            ast::MatchClause {
                optional: has_child(n, Rule::optional_marker),
                pattern,
                where_: in_where(e),
            },
        ),
    )
}

fn build_unwind_clause(n: &Node, gql: bool) -> (r: Result<ast::Clause, ParseError>)
    ensures
        built_clause(r) == unwind_in(tree_of(*n), gql),
    decreases n, 1nat,
{
    let expression = build_child_expression(n, gql)?;
    let alias = build_alias(n)?;
    match alias {
        None => Err(malformed_tree()),
        Some(variable) => Ok(ast::Clause::Unwind(ast::UnwindClause { expression, variable })),
    }
}

fn build_child_pattern(n: &Node, gql: bool) -> (r: Result<ast::Pattern, ParseError>)
    ensures
        built_pattern(r) == child_pattern_in(tree_of(*n), gql),
    decreases n, 0nat,
{
    match child(n, Rule::pattern) {
        Some(c) => build_pattern(c, gql),
        None => Err(malformed_tree()),
    }
}

/// The actions of a `MERGE`.
pub fn build_merge_actions(n: &Node, gql: bool) -> (r: Result<Vec<ast::MergeAction>, ParseError>)
    ensures
        built_merge_actions(r) == merge_actions_from(tree_of(*n).children, 0, gql),
    decreases n, 0nat,
{
    let ghost ch = tree_of(*n).children;
    let len: usize = width(n);
    let mut v: Vec<ast::MergeAction> = Vec::new();
    let mut i: usize = 0;
    proof {
        lemma_after_start(m::merge_actions_of(v@), merge_actions_from(ch, i as int, gql));
    }
    while i < len
        invariant
            ch == tree_of(*n).children,
            len == ch.len(),
            merge_actions_from(ch, 0, gql) == after(
                m::merge_actions_of(v@),
                merge_actions_from(ch, i as int, gql),
            ),
        decreases len - i,
    {
        let c = nth(n, i);
        if c.rule == Rule::merge_action {
            let items = build_child_set_items(c, gql)?;
            let on_create = has_child(c, Rule::kw_CREATE);
            let x = ast::MergeAction { on_create, items };
            proof {
                lemma_after_push(m::merge_actions_of(v@), m::merge_action_of(x), merge_actions_from(ch, i + 1, gql));
                m::lemma_push_merge_actions_of(v@, x);
            }
            v.push(x);
        }
        i = i + 1;
    }
    proof {
        lemma_after_end(m::merge_actions_of(v@));
    }
    Ok(v)
}

fn build_merge_clause(n: &Node, gql: bool) -> (r: Result<ast::Clause, ParseError>)
    ensures
        built_clause(r) == merge_in(tree_of(*n), gql),
    decreases n, 1nat,
{
    let pattern = build_child_pattern(n, gql)?;
    if gql {
        let actions: Vec<ast::MergeAction> = Vec::new();
        Ok(ast::Clause::Merge(ast::MergeClause { pattern, actions }))
    } else {
        let actions = build_merge_actions(n, gql)?;
        Ok(ast::Clause::Merge(ast::MergeClause { pattern, actions }))
    }
}

fn build_child_set_items(n: &Node, gql: bool) -> (r: Result<Vec<ast::SetItem>, ParseError>)
    ensures
        built_set_items(r) == child_set_items_in(tree_of(*n), gql),
    decreases n, 0nat,
{
    match child(n, Rule::set_clause) {
        Some(c) => build_set_items(c, gql),
        None => {
            let items: Vec<ast::SetItem> = Vec::new();
            Ok(items)
        },
    }
}

/// The assignments below a `SET`.
pub fn build_set_items(n: &Node, gql: bool) -> (r: Result<Vec<ast::SetItem>, ParseError>)
    ensures
        built_set_items(r) == set_items_from(tree_of(*n).children, 0, gql),
    decreases n, 0nat,
{
    let ghost ch = tree_of(*n).children;
    let len: usize = width(n);
    let mut v: Vec<ast::SetItem> = Vec::new();
    let mut i: usize = 0;
    proof {
        lemma_after_start(m::set_items_of(v@), set_items_from(ch, i as int, gql));
    }
    while i < len
        invariant
            ch == tree_of(*n).children,
            len == ch.len(),
            set_items_from(ch, 0, gql) == after(
                m::set_items_of(v@),
                set_items_from(ch, i as int, gql),
            ),
        decreases len - i,
    {
        let c = nth(n, i);
        if c.rule == Rule::set_item {
            let x = build_set_item(c, gql)?;
            proof {
                lemma_after_push(m::set_items_of(v@), m::set_item_of(x), set_items_from(ch, i + 1, gql));
                m::lemma_push_set_items_of(v@, x);
            }
            v.push(x);
        }
        i = i + 1;
    }
    proof {
        lemma_after_end(m::set_items_of(v@));
    }
    Ok(v)
}

fn build_set_item(n: &Node, gql: bool) -> (r: Result<ast::SetItem, ParseError>)
    ensures
        built_set_item(r) == set_item_in(tree_of(*n), gql),
    decreases n, 1nat,
{
    if width(n) == 0 {
        return Err(malformed_tree());
    }
    let first = nth(n, 0);
    if first.rule == Rule::prop_access_expr {
        let (variable, key) = build_access(first)?;
        let value = build_child_expression(n, gql)?;
        Ok(ast::SetItem::Property { variable, key, value })
    } else if first.rule == Rule::variable {
        let variable = ident_text(first)?;
        match child(n, Rule::map_literal) {
            Some(c) => {
                let map = build_map_literal(c, gql)?;
                Ok(ast::SetItem::MergeMap { variable, map })
            },
            None => if !gql && has_child(n, Rule::node_labels) {
                let labels = build_child_labels(n, gql);
                Ok(ast::SetItem::SetLabel { variable, labels })
            } else {
                let value = build_child_expression(n, gql)?;
                Ok(ast::SetItem::NodeReplace { variable, value })
            },
        }
    } else {
        Err(malformed_tree())
    }
}

fn build_remove_item(n: &Node, gql: bool) -> (r: Result<ast::RemoveItem, ParseError>)
    ensures
        built_remove_item(r) == remove_item_in(tree_of(*n), gql),
{
    if width(n) == 0 {
        return Err(malformed_tree());
    }
    let first = nth(n, 0);
    if first.rule == Rule::prop_access_expr {
        let (variable, key) = build_access(first)?;
        Ok(ast::RemoveItem::Property { variable, key })
    } else if first.rule == Rule::variable {
        let variable = ident_text(first)?;
        let labels = build_child_labels(n, gql);
        Ok(ast::RemoveItem::Label { variable, labels })
    } else {
        Err(malformed_tree())
    }
}

/// The items below a `REMOVE`.
pub fn build_remove_items(n: &Node, gql: bool) -> (r: Result<Vec<ast::RemoveItem>, ParseError>)
    ensures
        built_remove_items(r) == remove_items_from(tree_of(*n).children, 0, gql),
{
    let ghost ch = tree_of(*n).children;
    let len: usize = width(n);
    let mut v: Vec<ast::RemoveItem> = Vec::new();
    let mut i: usize = 0;
    proof {
        lemma_after_start(m::remove_items_of(v@), remove_items_from(ch, i as int, gql));
    }
    while i < len
        invariant
            ch == tree_of(*n).children,
            len == ch.len(),
            remove_items_from(ch, 0, gql) == after(
                m::remove_items_of(v@),
                remove_items_from(ch, i as int, gql),
            ),
        decreases len - i,
    {
        let c = nth(n, i);
        if c.rule == Rule::remove_item {
            let x = build_remove_item(c, gql)?;
            proof {
                lemma_after_push(m::remove_items_of(v@), m::remove_item_of(x), remove_items_from(ch, i + 1, gql));
                m::lemma_push_remove_items_of(v@, x);
            }
            v.push(x);
        }
        i = i + 1;
    }
    proof {
        lemma_after_end(m::remove_items_of(v@));
    }
    Ok(v)
}

fn build_call_args(n: &Node, gql: bool) -> (r: Result<Vec<ast::Expression>, ParseError>)
    ensures
        built_expressions(r) == call_args_in(tree_of(*n), gql),
    decreases n, 1nat,
{
    if gql {
        build_expressions(n, 0, gql)
    } else {
        match child(n, Rule::call_args) {
            Some(c) => build_expressions(c, 0, gql),
            None => {
                let args: Vec<ast::Expression> = Vec::new();
                Ok(args)
            },
        }
    }
}

fn build_call_clause(n: &Node, gql: bool) -> (r: Result<ast::Clause, ParseError>)
    ensures
        built_clause(r) == call_in(tree_of(*n), gql),
    decreases n, 2nat,
{
    let args = build_call_args(n, gql)?;
    let yields = build_call_yields(n, gql)?;
    let procedure = build_procedure(n);
    Ok(ast::Clause::Call(ast::CallClause { procedure, args, yields }))
}

fn build_clause(n: &Node, gql: bool) -> (r: Result<ast::Clause, ParseError>)
    ensures
        built_clause(r) == clause_in(tree_of(*n), gql),
    decreases n, 3nat,
{
    match n.rule {
        Rule::match_clause => build_match_clause(n, gql),
        Rule::with_clause => build_with_clause(n, gql),
        Rule::return_clause => build_return_clause(n, gql),
        Rule::unwind_clause => build_unwind_clause(n, gql),
        Rule::create_clause => {
            let pattern = build_pattern_list(n, gql)?;
            Ok(ast::Clause::Create(ast::CreateClause { pattern }))
        },
        Rule::merge_clause => build_merge_clause(n, gql),
        Rule::set_clause => {
            let items = build_set_items(n, gql)?;
            Ok(ast::Clause::SetItems(ast::SetClause { items }))
        },
        Rule::delete_clause => {
            let expressions = build_expressions(n, 0, gql)?;
            let detach = has_child(n, Rule::detach_marker);
            Ok(ast::Clause::Delete(ast::DeleteClause { detach, expressions }))
        },
        Rule::remove_clause => {
            let items = build_remove_items(n, gql)?;
            Ok(ast::Clause::Remove(ast::RemoveClause { items }))
        },
        Rule::call_clause => build_call_clause(n, gql),
        Rule::call_subquery => Err(unsupported_feature("CALL { } subquery")),
        Rule::foreach_clause => Err(unsupported_feature("FOREACH clause")),
        Rule::filter_clause => {
            let e = build_child_expression(n, gql)?;
            Ok(make_plain_with(false, ast::ReturnItems::All, Some(e)))
        },
        Rule::next_clause => build_next_clause(n, gql),
        _ => Err(malformed_tree()),
    }
}

/// The clauses of a Cypher statement.
fn build_statement(n: &Node) -> (r: Result<Vec<ast::Clause>, ParseError>)
    ensures
        built_clauses(r) == statement_from(tree_of(*n).children, 0),
{
    let ghost ch = tree_of(*n).children;
    let len: usize = width(n);
    let mut v: Vec<ast::Clause> = Vec::new();
    let mut i: usize = 0;
    proof {
        lemma_after_start(m::clauses_of(v@), statement_from(ch, 0));
    }
    while i < len
        invariant
            ch == tree_of(*n).children,
            len == ch.len(),
            statement_from(ch, 0) == after(m::clauses_of(v@), statement_from(ch, i as int)),
        decreases len - i,
    {
        let c = nth(n, i);
        let mut more: Vec<ast::Clause> = Vec::new();
        match c.rule {
            Rule::single_query => {
                more = build_clauses(c, false)?;
            },
            Rule::union_marker => {
                let x = ast::Clause::Union { all: has_child(c, Rule::kw_ALL) };
                proof {
                    m::lemma_push_clauses_of(more@, x);
                    assert(m::clauses_of(more@.push(x)) =~= seq![m::clause_of(x)]);
                }
                more.push(x);
            },
            _ => {},
        }
        proof {
            lemma_after_add(m::clauses_of(v@), m::clauses_of(more@), statement_from(ch, i + 1));
            m::lemma_add_clauses_of(v@, more@);
        }
        v.append(&mut more);
        i = i + 1;
    }
    proof {
        lemma_after_end(m::clauses_of(v@));
    }
    Ok(v)
}

/// The clauses of a whole query.
pub fn build_query(n: &Node, gql: bool) -> (r: Result<Vec<ast::Clause>, ParseError>)
    ensures
        built_clauses(r) == query_in(tree_of(*n), gql),
{
    match child(n, Rule::statement) {
        None => Err(malformed_tree()),
        Some(c) => if gql {
            build_clauses(c, gql)
        } else {
            build_statement(c)
        },
    }
}

} // verus!
