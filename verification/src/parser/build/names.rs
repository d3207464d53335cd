//! Names, labels and literals.
use vstd::prelude::*;

use crate::ast::cypher as ast;
use crate::ast::cypher::{CompOp, Direction, QuantifierKind, RangeQuantifier};
#[allow(unused_imports)]
use crate::ast::model as m;
use crate::number::decimal::{read_magnitude, Magnitude};
use crate::number::forms::{number_text, Form, Number};
use crate::number::Float;
use crate::parser::build::views::{
    built_aggregate, built_literal, built_option_text, built_text, built_texts,
};
#[allow(unused_imports)]
use crate::parser::build::views::{
    after, lemma_after_add, lemma_after_end, lemma_after_push, lemma_after_start,
};
use crate::parser::error::{malformed_tree, syntax_error, unsupported_feature, ParseError};
use crate::parser::lexical::{parse_i64, parse_range, unescape_string, unquote};
#[allow(unused_imports)]
use crate::parser::meaning::{
    access_in, aggregate, aggregate_name_in, alias_in, bound_variable_in, call_yields_in, chains,
    clause_at, clause_rule, clauses_with, comp_op_in, count_from, descends, direction_in,
    is_labels_in, is_write_rule, key_in, label_in, labels_from, labels_in, listed_types, literal_in,
    name_in, needs_clauses, procedure_in, quantifier_in, range_of_body, rel_types_in, texts_from,
    variable_in, writes, yield_items_from, yields_from,
};
use crate::parser::tree::{child, has_child, nth, width, Node, Rule};
#[allow(unused_imports)]
use crate::parser::tree::{holds, tree_of};
use crate::text::{
    chars_of, concat_texts, eq_ignore_ascii_case, push_text, same_text, slice_text,
    to_ascii_lowercase,
};
#[allow(unused_imports)]
use crate::text::texts;

verus! {

pub fn ident_text(n: &Node) -> (r: Result<String, ParseError>)
    ensures
        built_text(r) == name_in(tree_of(*n)),
{
    if width(n) > 0 {
        let c = nth(n, 0);
        Ok(unquote(c.text.as_str()))
    } else {
        Err(malformed_tree())
    }
}

pub fn build_variable(n: &Node) -> (r: Result<Option<String>, ParseError>)
    ensures
        built_option_text(r) == variable_in(tree_of(*n)),
{
    match child(n, Rule::variable) {
        Some(c) => {
            let name = ident_text(c)?;
            Ok(Some(name))
        },
        None => Ok(None),
    }
}

pub fn build_bound_variable(n: &Node) -> (r: Result<String, ParseError>)
    ensures
        built_text(r) == bound_variable_in(tree_of(*n)),
{
    match child(n, Rule::variable) {
        Some(c) => ident_text(c),
        None => Err(malformed_tree()),
    }
}

pub fn build_alias(n: &Node) -> (r: Result<Option<String>, ParseError>)
    ensures
        built_option_text(r) == alias_in(tree_of(*n)),
{
    if has_child(n, Rule::kw_AS) {
        build_variable(n)
    } else {
        Ok(None)
    }
}

pub fn build_key(n: &Node) -> (r: Result<String, ParseError>)
    ensures
        built_text(r) == key_in(tree_of(*n)),
{
    match child(n, Rule::prop_name) {
        Some(c) => Ok(unquote(c.text.as_str())),
        None => Err(malformed_tree()),
    }
}

pub fn build_access(n: &Node) -> (r: Result<(String, String), ParseError>)
    ensures
        match access_in(tree_of(*n)) {
            Ok(a) => r matches Ok(x) && x.0@ == a.variable && x.1@ == a.key,
            Err(f) => r matches Err(e) && e@ == f,
        },
{
    let variable = build_bound_variable(n)?;
    let key = build_key(n)?;
    Ok((variable, key))
}

/// The texts of the children with a rule, without backticks.
pub fn child_texts(n: &Node, rule: Rule) -> (v: Vec<String>)
    ensures
        texts(v@) == texts_from(tree_of(*n).children, 0, rule),
{
    let ghost ch = tree_of(*n).children;
    let len: usize = width(n);
    let mut v: Vec<String> = Vec::new();
    let mut i: usize = 0;
    assert(texts(v@) + texts_from(ch, 0, rule) =~= texts_from(ch, 0, rule));
    while i < len
        invariant
            ch == tree_of(*n).children,
            len == ch.len(),
            texts_from(ch, 0, rule) == texts(v@) + texts_from(ch, i as int, rule),
        decreases len - i,
    {
        let c = nth(n, i);
        if c.rule == rule {
            let t = unquote(c.text.as_str());
            assert(texts(v@) + (seq![t@] + texts_from(ch, i + 1, rule)) =~= texts(v@).push(t@)
                + texts_from(ch, i + 1, rule));
            push_text(&mut v, t);
        }
        i = i + 1;
    }
    assert(texts(v@) + Seq::<Seq<char>>::empty() =~= texts(v@));
    v
}

fn build_label(n: &Node, gql: bool) -> (r: Option<String>)
    ensures
        m::opt_text(r) == label_in(tree_of(*n), gql),
{
    if gql {
        if n.rule == Rule::node_label && width(n) > 0 {
            let c = nth(n, 0);
            Some(unquote(c.text.as_str()))
        } else {
            None
        }
    } else if n.rule == Rule::node_label || n.rule == Rule::gql_label_more {
        match child(n, Rule::schema_name) {
            Some(c) => Some(unquote(c.text.as_str())),
            None => None,
        }
    } else {
        None
    }
}

/// The labels that a `node_labels` node lists.
pub fn build_node_labels(n: &Node, gql: bool) -> (v: Vec<String>)
    ensures
        texts(v@) == labels_from(tree_of(*n).children, 0, gql),
{
    let ghost ch = tree_of(*n).children;
    let len: usize = width(n);
    let mut v: Vec<String> = Vec::new();
    let mut i: usize = 0;
    assert(texts(v@) + labels_from(ch, 0, gql) =~= labels_from(ch, 0, gql));
    while i < len
        invariant
            ch == tree_of(*n).children,
            len == ch.len(),
            labels_from(ch, 0, gql) == texts(v@) + labels_from(ch, i as int, gql),
        decreases len - i,
    {
        let c = nth(n, i);
        if let Some(t) = build_label(c, gql) {
            assert(texts(v@) + (seq![t@] + labels_from(ch, i + 1, gql)) =~= texts(v@).push(t@)
                + labels_from(ch, i + 1, gql));
            push_text(&mut v, t);
        }
        i = i + 1;
    }
    assert(texts(v@) + Seq::<Seq<char>>::empty() =~= texts(v@));
    v
}

/// The labels of the first `node_labels` child.
pub fn build_child_labels(n: &Node, gql: bool) -> (v: Vec<String>)
    ensures
        texts(v@) == labels_in(tree_of(*n), gql),
{
    match child(n, Rule::node_labels) {
        Some(c) => build_node_labels(c, gql),
        None => {
            let v: Vec<String> = Vec::new();
            assert(texts(v@) =~= seq![]);
            v
        },
    }
}

pub fn build_is_labels(n: &Node) -> (v: Vec<String>)
    ensures
        texts(v@) == is_labels_in(tree_of(*n)),
{
    match child(n, Rule::gql_is_labels) {
        Some(c) => child_texts(c, Rule::gql_label_name),
        None => {
            let v: Vec<String> = Vec::new();
            assert(texts(v@) =~= seq![]);
            v
        },
    }
}

fn build_listed_types(n: &Node, rule: Rule) -> (v: Vec<String>)
    ensures
        texts(v@) == listed_types(tree_of(*n), rule),
{
    match child(n, rule) {
        Some(c) => child_texts(c, Rule::rel_type_elem),
        None => {
            let v: Vec<String> = Vec::new();
            assert(texts(v@) =~= seq![]);
            v
        },
    }
}

pub fn build_rel_types(n: &Node, gql: bool) -> (v: Vec<String>)
    ensures
        texts(v@) == rel_types_in(tree_of(*n), gql),
{
    if gql {
        match child(n, Rule::rel_type_spec) {
            Some(c) => {
                let a = build_listed_types(c, Rule::colon_type_list);
                let b = build_listed_types(c, Rule::is_type_list);
                concat_texts(&a, &b)
            },
            None => {
                let v: Vec<String> = Vec::new();
                assert(texts(v@) =~= seq![]);
                v
            },
        }
    } else {
        build_listed_types(n, Rule::rel_type_list)
    }
}

pub fn build_direction(n: &Node) -> (d: Direction)
    ensures
        d == direction_in(tree_of(*n)),
{
    let left = has_child(n, Rule::left_arrow);
    let right = has_child(n, Rule::right_arrow);
    if left && !right {
        Direction::Left
    } else if right && !left {
        Direction::Right
    } else {
        Direction::Both
    }
}

pub fn build_range_literal(n: &Node) -> (r: Option<RangeQuantifier>)
    ensures
        r == range_of_body(tree_of(*n)),
{
    match child(n, Rule::range_literal) {
        Some(c) => Some(parse_range(c.text.as_str())),
        None => None,
    }
}

fn build_yield_variables(n: &Node) -> (r: Result<Vec<String>, ParseError>)
    ensures
        built_texts(r) == yields_from(tree_of(*n).children, 0),
{
    let ghost ch = tree_of(*n).children;
    let len: usize = width(n);
    let mut v: Vec<String> = Vec::new();
    let mut i: usize = 0;
    proof {
        assert(texts(v@) =~= seq![]);
        lemma_after_start(texts(v@), yields_from(ch, 0));
    }
    while i < len
        invariant
            ch == tree_of(*n).children,
            len == ch.len(),
            yields_from(ch, 0) == after(texts(v@), yields_from(ch, i as int)),
        decreases len - i,
    {
        let c = nth(n, i);
        if c.rule == Rule::variable {
            let x = ident_text(c)?;
            proof {
                lemma_after_push(texts(v@), x@, yields_from(ch, i + 1));
            }
            push_text(&mut v, x);
        }
        i = i + 1;
    }
    proof {
        lemma_after_end(texts(v@));
    }
    Ok(v)
}

fn build_yield_items(n: &Node) -> (r: Result<Vec<String>, ParseError>)
    ensures
        built_texts(r) == yield_items_from(tree_of(*n).children, 0),
{
    let ghost ch = tree_of(*n).children;
    let len: usize = width(n);
    let mut v: Vec<String> = Vec::new();
    let mut i: usize = 0;
    proof {
        assert(texts(v@) =~= seq![]);
        lemma_after_start(texts(v@), yield_items_from(ch, 0));
    }
    while i < len
        invariant
            ch == tree_of(*n).children,
            len == ch.len(),
            yield_items_from(ch, 0) == after(texts(v@), yield_items_from(ch, i as int)),
        decreases len - i,
    {
        let c = nth(n, i);
        if c.rule == Rule::yield_item {
            let x = build_yield_variables(c)?;
            proof {
                lemma_after_add(texts(v@), texts(x@), yield_items_from(ch, i + 1));
            }
            v = concat_texts(&v, &x);
        }
        i = i + 1;
    }
    proof {
        lemma_after_end(texts(v@));
    }
    Ok(v)
}

pub fn build_call_yields(n: &Node, gql: bool) -> (r: Result<Vec<String>, ParseError>)
    ensures
        built_texts(r) == call_yields_in(tree_of(*n), gql),
{
    let none: Vec<String> = Vec::new();
    assert(texts(none@) =~= seq![]);
    if gql {
        match child(n, Rule::yield_items) {
            Some(c) => build_yield_variables(c),
            None => Ok(none),
        }
    } else {
        match child(n, Rule::yield_clause) {
            Some(y) => match child(y, Rule::yield_items) {
                Some(c) => build_yield_items(c),
                None => Ok(none),
            },
            None => Ok(none),
        }
    }
}

pub fn build_procedure(n: &Node) -> (r: String)
    ensures
        r@ == procedure_in(tree_of(*n)),
{
    match child(n, Rule::proc_name) {
        Some(c) => c.text.clone(),
        None => "".to_owned(),
    }
}

/// The text behind the two characters that mark the base of a number.
fn behind_prefix(text: &str) -> (r: Option<String>)
    ensures
        match r {
            Some(s) => text@.len() >= 2 && s@ == text@.skip(2),
            None => text@.len() < 2,
        },
{
    let v = chars_of(text);
    if v.len() < 2 {
        return None;
    }
    let s = slice_text(&v, 2, v.len());
    assert(s@ =~= text@.skip(2));
    Some(s)
}

pub fn build_literal(n: &Node, gql: bool) -> (r: Result<ast::Literal, ParseError>)
    ensures
        built_literal(r) == literal_in(tree_of(*n), gql),
{
    let text = n.text.as_str();
    match n.rule {
        Rule::integer_literal => match parse_i64(text, 10) {
            Some(k) => Ok(ast::Literal::Integer(k)),
            None => Err(syntax_error(text, "integer literal out of range")),
        },
        Rule::hex_integer_literal => match behind_prefix(text) {
            None => Err(malformed_tree()),
            Some(s) => match parse_i64(s.as_str(), 16) {
                Some(k) => Ok(ast::Literal::Integer(k)),
                None => Err(syntax_error(text, "hexadecimal integer literal out of range")),
            },
        },
        Rule::octal_integer_literal => match behind_prefix(text) {
            None => Err(malformed_tree()),
            Some(s) => match parse_i64(s.as_str(), 8) {
                Some(k) => Ok(ast::Literal::Integer(k)),
                None => Err(syntax_error(text, "octal integer literal out of range")),
            },
        },
        Rule::float_literal => match read_magnitude(text) {
            Magnitude::NotANumber => Err(syntax_error(text, "float literal out of range")),
            Magnitude::Finite(size) => Ok(
                ast::Literal::Float(
                    Float {
                        text: number_text(Number::Finite { negative: false, size }, Form::Display),
                    },
                ),
            ),
            Magnitude::TooLarge => if gql {
                Ok(ast::Literal::Float(Float { text: "inf".to_owned() }))
            } else {
                Err(
                    unsupported_feature(
                        "FloatingPointOverflow: float literal value is too large",
                    ),
                )
            },
        },
        Rule::string_literal => {
            let v = chars_of(text);
            if v.len() < 2 {
                return Err(malformed_tree());
            }
            let content = slice_text(&v, 1, v.len() - 1);
            Ok(ast::Literal::String(unescape_string(content.as_str())))
        },
        Rule::boolean_literal => Ok(ast::Literal::Boolean(eq_ignore_ascii_case(text, "true"))),
        Rule::null_literal => Ok(ast::Literal::Null),
        _ => Err(malformed_tree()),
    }
}

pub fn build_comp_op(text: &str) -> (r: Option<CompOp>)
    ensures
        r == comp_op_in(text@),
{
    if same_text(text, "=") {
        Some(CompOp::Eq)
    } else if same_text(text, "<>") {
        Some(CompOp::Ne)
    } else if same_text(text, "<=") {
        Some(CompOp::Le)
    } else if same_text(text, ">=") {
        Some(CompOp::Ge)
    } else if same_text(text, "<") {
        Some(CompOp::Lt)
    } else if same_text(text, ">") {
        Some(CompOp::Gt)
    } else {
        None
    }
}

/// Whether a comparison is itself followed by a binary comparison.
pub fn is_chained(n: &Node) -> (r: bool)
    ensures
        r == chains(tree_of(*n)),
{
    let ghost ch = tree_of(*n).children;
    let len: usize = width(n);
    let mut i: usize = 0;
    while i < len
        invariant
            ch == tree_of(*n).children,
            len == ch.len(),
            i <= len,
            forall|k: int|
                0 <= k < i ==> !(#[trigger] ch[k].rule == Rule::comparison_suffix && holds(ch[k], 0)
                    && ch[k].children[0].rule == Rule::comp_op),
        decreases len - i,
    {
        let c = nth(n, i);
        if c.rule == Rule::comparison_suffix && width(c) > 0 {
            let first = nth(c, 0);
            if first.rule == Rule::comp_op {
                assert(ch[i as int].rule == Rule::comparison_suffix);
                return true;
            }
        }
        i = i + 1;
    }
    false
}

pub fn build_quantifier_kind(n: &Node) -> (r: Option<QuantifierKind>)
    ensures
        r == quantifier_in(tree_of(*n)),
{
    if has_child(n, Rule::kw_ALL) {
        Some(QuantifierKind::All)
    } else if has_child(n, Rule::kw_ANY) {
        Some(QuantifierKind::Any)
    } else if has_child(n, Rule::kw_NONE) {
        Some(QuantifierKind::NoneOf)
    } else if has_child(n, Rule::kw_SINGLE) {
        Some(QuantifierKind::Single)
    } else {
        None
    }
}

/// The name of the aggregate function that a node calls, in lower case.
pub fn build_aggregate_name(n: &Node) -> (r: String)
    ensures
        r@ == aggregate_name_in(tree_of(*n)),
{
    match child(n, Rule::agg_func_name) {
        Some(c) => to_ascii_lowercase(c.text.as_str()),
        None => "".to_owned(),
    }
}

pub fn make_aggregate(name: &str, distinct: bool, e: ast::Expression) -> (r: Result<
    ast::AggregateExpr,
    ParseError,
>)
    ensures
        built_aggregate(r) == aggregate(name@, distinct, m::expression_of(e)),
{
    let expr = Box::new(e);
    if same_text(name, "sum") {
        Ok(ast::AggregateExpr::Sum { distinct, expr })
    } else if same_text(name, "avg") {
        Ok(ast::AggregateExpr::Avg { distinct, expr })
    } else if same_text(name, "min") {
        Ok(ast::AggregateExpr::Min { distinct, expr })
    } else if same_text(name, "max") {
        Ok(ast::AggregateExpr::Max { distinct, expr })
    } else if same_text(name, "collect") {
        Ok(ast::AggregateExpr::Collect { distinct, expr })
    } else {
        let message = "unknown aggregate function: ".to_owned().concat(name);
        Err(syntax_error(name, message.as_str()))
    }
}

/// How many children have the rule.
pub fn count_children(n: &Node, rule: Rule) -> (r: usize)
    ensures
        r == count_from(tree_of(*n).children, 0, rule),
{
    let ghost ch = tree_of(*n).children;
    let len: usize = width(n);
    let mut i: usize = 0;
    let mut k: usize = 0;
    while i < len
        invariant
            ch == tree_of(*n).children,
            len == ch.len(),
            k <= i <= len,
            count_from(ch, 0, rule) == k + count_from(ch, i as int, rule),
        decreases len - i,
    {
        let c = nth(n, i);
        if c.rule == rule {
            k = k + 1;
        }
        i = i + 1;
    }
    k
}

fn build_clause_rule(n: &Node) -> (r: Option<Rule>)
    ensures
        r == clause_rule(tree_of(*n)),
{
    if n.rule == Rule::clause && width(n) > 0 {
        let c = nth(n, 0);
        Some(c.rule)
    } else {
        None
    }
}

/// Whether a clause below a `single_query` writes.
pub fn has_write_clause(n: &Node) -> (r: bool)
    ensures
        r == writes(tree_of(*n).children),
{
    let ghost ch = tree_of(*n).children;
    let len: usize = width(n);
    let mut i: usize = 0;
    while i < len
        invariant
            ch == tree_of(*n).children,
            len == ch.len(),
            i <= len,
            forall|k: int|
                0 <= k < i ==> !(#[trigger] clause_rule(ch[k]) matches Some(r) && is_write_rule(r)),
        decreases len - i,
    {
        let c = nth(n, i);
        if let Some(r) = build_clause_rule(c) {
            if r == Rule::create_clause || r == Rule::set_clause || r == Rule::delete_clause || r
                == Rule::merge_clause || r == Rule::remove_clause {
                assert(clause_rule(ch[i as int]) == Some(r));
                return true;
            }
        }
        i = i + 1;
    }
    false
}

fn count_clauses(n: &Node, rule: Rule) -> (r: usize)
    ensures
        r == clauses_with(tree_of(*n).children, 0, rule),
{
    let ghost ch = tree_of(*n).children;
    let len: usize = width(n);
    let mut i: usize = 0;
    let mut k: usize = 0;
    while i < len
        invariant
            ch == tree_of(*n).children,
            len == ch.len(),
            k <= i <= len,
            clauses_with(ch, 0, rule) == k + clauses_with(ch, i as int, rule),
        decreases len - i,
    {
        let c = nth(n, i);
        if let Some(r) = build_clause_rule(c) {
            if r == rule {
                k = k + 1;
            }
        }
        i = i + 1;
    }
    k
}

pub fn keeps_clauses(n: &Node) -> (r: bool)
    ensures
        r == needs_clauses(tree_of(*n).children),
{
    count_clauses(n, Rule::with_clause) > 0 || count_clauses(n, Rule::match_clause) > 1
}

/// The position of the first clause with the rule.
pub fn find_clause(n: &Node, rule: Rule) -> (r: Option<usize>)
    ensures
        match r {
            Some(i) => clause_at(tree_of(*n).children, 0, rule) == i && i < tree_of(
                *n,
            ).children.len() && holds(tree_of(*n).children[i as int], 0),
            None => clause_at(tree_of(*n).children, 0, rule) == -1,
        },
{
    let ghost ch = tree_of(*n).children;
    let len: usize = width(n);
    let mut i: usize = 0;
    while i < len
        invariant
            ch == tree_of(*n).children,
            len == ch.len(),
            i <= len,
            clause_at(ch, 0, rule) == clause_at(ch, i as int, rule),
        decreases len - i,
    {
        let c = nth(n, i);
        if let Some(r) = build_clause_rule(c) {
            if r == rule {
                return Some(i);
            }
        }
        i = i + 1;
    }
    None
}

pub fn is_descending(n: &Node, gql: bool) -> (r: bool)
    ensures
        r == descends(tree_of(*n), gql),
{
    match child(n, Rule::sort_direction) {
        Some(c) => {
            if width(c) == 0 {
                return false;
            }
            let d = nth(c, 0);
            d.rule == Rule::kw_DESC || (!gql && d.rule == Rule::kw_DESCENDING)
        },
        None => false,
    }
}

} // verus!
