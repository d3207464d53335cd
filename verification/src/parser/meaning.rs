//! The syntax that a parse tree stands for.
//!
//! Both dialects are read by the same functions; `gql` tells them apart where
//! their grammars differ.
use vstd::prelude::*;

#[allow(unused_imports)]
use crate::ast::cypher::{CompOp, Direction, QuantifierKind, RangeQuantifier};
#[allow(unused_imports)]
use crate::ast::model as m;
#[allow(unused_imports)]
use crate::number::decimal::{decimal_in, double_of};
#[allow(unused_imports)]
use crate::number::forms::{real_text, Form, Real};
#[allow(unused_imports)]
use crate::parser::error::{malformed, unsupported, Built, Fault};
#[allow(unused_imports)]
use crate::parser::lexical::{
    dots_from, i64_in, is_least_magnitude, range_in, unescaped, unquoted,
};
#[allow(unused_imports)]
use crate::parser::tree::{at, holds, index_from, Rule, Tree};
#[allow(unused_imports)]
use crate::text::{lower_text, same_ignoring_case, trim_spec};

verus! {

// ── Names ────────────────────────────────────────────────────────────────────

/// The name that a `variable` node holds.
pub open spec fn name_in(t: Tree) -> Built<Seq<char>> {
    if holds(t, 0) {
        Ok(unquoted(t.children[0].text))
    } else {
        Err(malformed())
    }
}

/// The name of the first `variable` child, where there is one.
pub open spec fn variable_in(t: Tree) -> Built<Option<Seq<char>>> {
    let i = at(t, Rule::variable);
    if holds(t, i) {
        match name_in(t.children[i]) {
            Ok(n) => Ok(Some(n)),
            Err(f) => Err(f),
        }
    } else {
        Ok(None)
    }
}

/// The name of the first `variable` child, which has to be there.
pub open spec fn bound_variable_in(t: Tree) -> Built<Seq<char>> {
    let i = at(t, Rule::variable);
    if holds(t, i) {
        name_in(t.children[i])
    } else {
        Err(malformed())
    }
}

/// The name behind `AS`.
pub open spec fn alias_in(t: Tree) -> Built<Option<Seq<char>>> {
    if holds(t, at(t, Rule::kw_AS)) {
        variable_in(t)
    } else {
        Ok(None)
    }
}

/// The property name among the children.
pub open spec fn key_in(t: Tree) -> Built<Seq<char>> {
    let i = at(t, Rule::prop_name);
    if holds(t, i) {
        Ok(unquoted(t.children[i].text))
    } else {
        Err(malformed())
    }
}

/// The texts of the nodes with a rule, without backticks.
pub open spec fn texts_from(ch: Seq<Tree>, i: int, r: Rule) -> Seq<Seq<char>>
    decreases ch.len() - i,
{
    if i < 0 || i >= ch.len() {
        seq![]
    } else if ch[i].rule == r {
        seq![unquoted(ch[i].text)] + texts_from(ch, i + 1, r)
    } else {
        texts_from(ch, i + 1, r)
    }
}

/// The name of one label, where the node is one.
pub open spec fn label_in(t: Tree, gql: bool) -> Option<Seq<char>> {
    if gql {
        if t.rule == Rule::node_label && holds(t, 0) {
            Some(unquoted(t.children[0].text))
        } else {
            None
        }
    } else if t.rule == Rule::node_label || t.rule == Rule::gql_label_more {
        let i = at(t, Rule::schema_name);
        if holds(t, i) {
            Some(unquoted(t.children[i].text))
        } else {
            None
        }
    } else {
        None
    }
}

pub open spec fn labels_from(ch: Seq<Tree>, i: int, gql: bool) -> Seq<Seq<char>>
    decreases ch.len() - i,
{
    if i < 0 || i >= ch.len() {
        seq![]
    } else {
        match label_in(ch[i], gql) {
            Some(l) => seq![l] + labels_from(ch, i + 1, gql),
            None => labels_from(ch, i + 1, gql),
        }
    }
}

/// The labels of the first `node_labels` child.
pub open spec fn labels_in(t: Tree, gql: bool) -> Seq<Seq<char>> {
    let i = at(t, Rule::node_labels);
    if holds(t, i) {
        labels_from(t.children[i].children, 0, gql)
    } else {
        seq![]
    }
}

/// The labels that follow `IS`.
pub open spec fn is_labels_in(t: Tree) -> Seq<Seq<char>> {
    let i = at(t, Rule::gql_is_labels);
    if holds(t, i) {
        texts_from(t.children[i].children, 0, Rule::gql_label_name)
    } else {
        seq![]
    }
}

/// The relationship types listed below a node.
pub open spec fn listed_types(t: Tree, r: Rule) -> Seq<Seq<char>> {
    let i = at(t, r);
    if holds(t, i) {
        texts_from(t.children[i].children, 0, Rule::rel_type_elem)
    } else {
        seq![]
    }
}

/// The relationship types of a relationship's body.
pub open spec fn rel_types_in(t: Tree, gql: bool) -> Seq<Seq<char>> {
    if gql {
        let i = at(t, Rule::rel_type_spec);
        if holds(t, i) {
            let s = t.children[i];
            listed_types(s, Rule::colon_type_list) + listed_types(s, Rule::is_type_list)
        } else {
            seq![]
        }
    } else {
        listed_types(t, Rule::rel_type_list)
    }
}

pub open spec fn direction_in(t: Tree) -> Direction {
    let left = holds(t, at(t, Rule::left_arrow));
    let right = holds(t, at(t, Rule::right_arrow));
    if left && !right {
        Direction::Left
    } else if right && !left {
        Direction::Right
    } else {
        Direction::Both
    }
}

pub open spec fn range_of_body(t: Tree) -> Option<RangeQuantifier> {
    let i = at(t, Rule::range_literal);
    if holds(t, i) {
        Some(range_in(t.children[i].text))
    } else {
        None
    }
}

/// A `variable.key`, with or without round brackets.
pub struct Access {
    pub variable: Seq<char>,
    pub key: Seq<char>,
}

pub open spec fn access_in(t: Tree) -> Built<Access> {
    match bound_variable_in(t) {
        Err(f) => Err(f),
        Ok(variable) => match key_in(t) {
            Err(f) => Err(f),
            Ok(key) => Ok(Access { variable, key }),
        },
    }
}

pub open spec fn yields_from(ch: Seq<Tree>, i: int) -> Built<Seq<Seq<char>>>
    decreases ch.len() - i,
{
    if i < 0 || i >= ch.len() {
        Ok(seq![])
    } else if ch[i].rule == Rule::variable {
        match name_in(ch[i]) {
            Err(f) => Err(f),
            Ok(n) => match yields_from(ch, i + 1) {
                Err(f) => Err(f),
                Ok(rest) => Ok(seq![n] + rest),
            },
        }
    } else {
        yields_from(ch, i + 1)
    }
}

pub open spec fn yield_items_from(ch: Seq<Tree>, i: int) -> Built<Seq<Seq<char>>>
    decreases ch.len() - i,
{
    if i < 0 || i >= ch.len() {
        Ok(seq![])
    } else if ch[i].rule == Rule::yield_item {
        match yields_from(ch[i].children, 0) {
            Err(f) => Err(f),
            Ok(n) => match yield_items_from(ch, i + 1) {
                Err(f) => Err(f),
                Ok(rest) => Ok(n + rest),
            },
        }
    } else {
        yield_items_from(ch, i + 1)
    }
}

/// The names that a `CALL` yields; none for `YIELD *`.
pub open spec fn call_yields_in(t: Tree, gql: bool) -> Built<Seq<Seq<char>>> {
    if gql {
        let i = at(t, Rule::yield_items);
        if holds(t, i) {
            yields_from(t.children[i].children, 0)
        } else {
            Ok(seq![])
        }
    } else {
        let i = at(t, Rule::yield_clause);
        if holds(t, i) {
            let y = t.children[i];
            let k = at(y, Rule::yield_items);
            if holds(y, k) {
                yield_items_from(y.children[k].children, 0)
            } else {
                Ok(seq![])
            }
        } else {
            Ok(seq![])
        }
    }
}

// ── Literals and operators ───────────────────────────────────────────────────

pub open spec fn out_of_range(span: Seq<char>, message: Seq<char>) -> Fault {
    Fault::Syntax { span, message }
}

/// The literal that a token writes.
pub open spec fn literal_in(t: Tree, gql: bool) -> Built<m::Literal> {
    match t.rule {
        Rule::integer_literal => match i64_in(t.text, 10) {
            Some(n) => Ok(m::Literal::Integer(n)),
            None => Err(out_of_range(t.text, "integer literal out of range"@)),
        },
        Rule::hex_integer_literal => if t.text.len() < 2 {
            Err(malformed())
        } else {
            match i64_in(t.text.skip(2), 16) {
                Some(n) => Ok(m::Literal::Integer(n)),
                None => Err(out_of_range(t.text, "hexadecimal integer literal out of range"@)),
            }
        },
        Rule::octal_integer_literal => if t.text.len() < 2 {
            Err(malformed())
        } else {
            match i64_in(t.text.skip(2), 8) {
                Some(n) => Ok(m::Literal::Integer(n)),
                None => Err(out_of_range(t.text, "octal integer literal out of range"@)),
            }
        },
        Rule::float_literal => match decimal_in(t.text) {
            None => Err(out_of_range(t.text, "float literal out of range"@)),
            Some(d) => match double_of(d) {
                Some(v) => Ok(
                    m::Literal::Float(
                        real_text(Real::Finite { negative: false, size: v }, Form::Display),
                    ),
                ),
                None => if gql {
                    Ok(m::Literal::Float("inf"@))
                } else {
                    Err(unsupported("FloatingPointOverflow: float literal value is too large"@))
                },
            },
        },
        Rule::string_literal => if t.text.len() < 2 {
            Err(malformed())
        } else {
            Ok(m::Literal::String(unescaped(t.text.subrange(1, t.text.len() - 1))))
        },
        Rule::boolean_literal => Ok(m::Literal::Boolean(same_ignoring_case(t.text, "true"@))),
        Rule::null_literal => Ok(m::Literal::Null),
        _ => Err(malformed()),
    }
}

pub open spec fn comp_op_in(text: Seq<char>) -> Option<CompOp> {
    if text == "="@ {
        Some(CompOp::Eq)
    } else if text == "<>"@ {
        Some(CompOp::Ne)
    } else if text == "<="@ {
        Some(CompOp::Le)
    } else if text == ">="@ {
        Some(CompOp::Ge)
    } else if text == "<"@ {
        Some(CompOp::Lt)
    } else if text == ">"@ {
        Some(CompOp::Gt)
    } else {
        None
    }
}

/// The connectives, loosest first.
#[derive(Clone, Copy, Debug, PartialEq, Eq, Structural)]
pub enum Connective {
    Or,
    Xor,
    And,
}

/// The rule of a connective's operands.
pub open spec fn operand_rule(c: Connective) -> Rule {
    match c {
        Connective::Or => Rule::xor_expr,
        Connective::Xor => Rule::and_expr,
        Connective::And => Rule::not_expr,
    }
}

/// The operands so far, joined with the next one to the right.
pub open spec fn joined(
    acc: Option<m::Expression>,
    c: Connective,
    e: m::Expression,
) -> m::Expression {
    match acc {
        None => e,
        Some(a) => match c {
            Connective::Or => m::Expression::Or(Box::new(a), Box::new(e)),
            Connective::Xor => m::Expression::Xor(Box::new(a), Box::new(e)),
            Connective::And => m::Expression::And(Box::new(a), Box::new(e)),
        },
    }
}

/// The two levels of left-associative arithmetic.
#[derive(Clone, Copy, Debug, PartialEq, Eq, Structural)]
pub enum Arithmetic {
    Sum,
    Product,
}

pub open spec fn applied(
    level: Arithmetic,
    op: Seq<char>,
    a: m::Expression,
    b: m::Expression,
) -> Option<m::Expression> {
    match level {
        Arithmetic::Sum => if op == "+"@ {
            Some(m::Expression::Add(Box::new(a), Box::new(b)))
        } else if op == "-"@ {
            Some(m::Expression::Subtract(Box::new(a), Box::new(b)))
        } else {
            None
        },
        Arithmetic::Product => if op == "*"@ {
            Some(m::Expression::Multiply(Box::new(a), Box::new(b)))
        } else if op == "/"@ {
            Some(m::Expression::Divide(Box::new(a), Box::new(b)))
        } else if op == "%"@ {
            Some(m::Expression::Modulo(Box::new(a), Box::new(b)))
        } else {
            None
        },
    }
}

/// Whether a comparison is itself followed by a binary comparison: `b < c`.
pub open spec fn chains(t: Tree) -> bool {
    exists|i: int|
        0 <= i < t.children.len() && #[trigger] t.children[i].rule == Rule::comparison_suffix && holds(
            t.children[i],
            0,
        ) && t.children[i].children[0].rule == Rule::comp_op
}

/// A label check where the expression is a variable; else the expression.
pub open spec fn labelled(e: m::Expression, labels: Seq<Seq<char>>) -> m::Expression {
    match e {
        m::Expression::Variable(variable) => m::Expression::LabelCheck { variable, labels },
        _ => e,
    }
}

pub open spec fn quantifier_in(t: Tree) -> Option<QuantifierKind> {
    if holds(t, at(t, Rule::kw_ALL)) {
        Some(QuantifierKind::All)
    } else if holds(t, at(t, Rule::kw_ANY)) {
        Some(QuantifierKind::Any)
    } else if holds(t, at(t, Rule::kw_NONE)) {
        Some(QuantifierKind::NoneOf)
    } else if holds(t, at(t, Rule::kw_SINGLE)) {
        Some(QuantifierKind::Single)
    } else {
        None
    }
}

pub open spec fn aggregate(
    name: Seq<char>,
    distinct: bool,
    e: m::Expression,
) -> Built<m::AggregateExpr> {
    let expr = Box::new(e);
    if name == "sum"@ {
        Ok(m::AggregateExpr::Sum { distinct, expr })
    } else if name == "avg"@ {
        Ok(m::AggregateExpr::Avg { distinct, expr })
    } else if name == "min"@ {
        Ok(m::AggregateExpr::Min { distinct, expr })
    } else if name == "max"@ {
        Ok(m::AggregateExpr::Max { distinct, expr })
    } else if name == "collect"@ {
        Ok(m::AggregateExpr::Collect { distinct, expr })
    } else {
        Err(Fault::Syntax { span: name, message: "unknown aggregate function: "@ + name })
    }
}

/// The name of the aggregate function, in lower case.
pub open spec fn aggregate_name_in(t: Tree) -> Seq<char> {
    let i = at(t, Rule::agg_func_name);
    if holds(t, i) {
        lower_text(t.children[i].text)
    } else {
        ""@
    }
}

/// How many nodes of a rule there are, from position `i` on.
pub open spec fn count_from(ch: Seq<Tree>, i: int, r: Rule) -> nat
    decreases ch.len() - i,
{
    if i < 0 || i >= ch.len() {
        0
    } else if ch[i].rule == r {
        1 + count_from(ch, i + 1, r)
    } else {
        count_from(ch, i + 1, r)
    }
}

/// The rule of the clause that a `clause` node wraps.
pub open spec fn clause_rule(t: Tree) -> Option<Rule> {
    if t.rule == Rule::clause && holds(t, 0) {
        Some(t.children[0].rule)
    } else {
        None
    }
}

pub open spec fn is_write_rule(r: Rule) -> bool {
    r == Rule::create_clause || r == Rule::set_clause || r == Rule::delete_clause || r
        == Rule::merge_clause || r == Rule::remove_clause
}

/// Whether a clause of a single query writes.
pub open spec fn writes(ch: Seq<Tree>) -> bool {
    exists|i: int|
        0 <= i < ch.len() && (#[trigger] clause_rule(ch[i]) matches Some(r) && is_write_rule(r))
}

/// How many clauses of a single query have the rule.
pub open spec fn clauses_with(ch: Seq<Tree>, i: int, r: Rule) -> nat
    decreases ch.len() - i,
{
    if i < 0 || i >= ch.len() {
        0
    } else if clause_rule(ch[i]) == Some(r) {
        1 + clauses_with(ch, i + 1, r)
    } else {
        clauses_with(ch, i + 1, r)
    }
}

/// The position of the first clause with the rule; -1 where there is none.
pub open spec fn clause_at(ch: Seq<Tree>, i: int, r: Rule) -> int
    decreases ch.len() - i,
{
    if i < 0 || i >= ch.len() {
        -1
    } else if clause_rule(ch[i]) == Some(r) {
        i
    } else {
        clause_at(ch, i + 1, r)
    }
}

/// Whether the body of `EXISTS` needs its clauses kept: it projects with `WITH`,
/// or matches more than once.
pub open spec fn needs_clauses(ch: Seq<Tree>) -> bool {
    clauses_with(ch, 0, Rule::with_clause) > 0 || clauses_with(ch, 0, Rule::match_clause) > 1
}

/// `variable IN list WHERE predicate`.
pub struct Filter {
    pub variable: Seq<char>,
    pub list: m::Expression,
    pub predicate: Option<m::Expression>,
}

/// The body of a projection.
pub struct Projection {
    pub distinct: bool,
    pub items: m::ReturnItems,
    pub order_by: Option<m::OrderByClause>,
    pub skip: Option<m::Expression>,
    pub limit: Option<m::Expression>,
}

/// The bounds of a list slice.
pub struct Slice {
    pub start: Option<m::Expression>,
    pub end: Option<m::Expression>,
}

/// What has been read of a `CASE`.
pub struct Case {
    pub operand: Option<m::Expression>,
    pub whens: Seq<(m::Expression, m::Expression)>,
    pub otherwise: Option<m::Expression>,
    pub after_else: bool,
}

pub open spec fn case_done(c: Built<Case>) -> Built<m::Expression> {
    match c {
        Err(f) => Err(f),
        Ok(c) => Ok(
            m::Expression::CaseExpression {
                operand: boxed(c.operand),
                whens: c.whens,
                else_expr: boxed(c.otherwise),
            },
        ),
    }
}

pub open spec fn boxed(e: Option<m::Expression>) -> Option<Box<m::Expression>> {
    match e {
        Some(e) => Some(Box::new(e)),
        None => None,
    }
}

// ── Expressions ──────────────────────────────────────────────────────────────

pub open spec fn expression_in(t: Tree, gql: bool) -> Built<m::Expression>
    decreases t, 0int,
{
    if holds(t, 0) {
        connected_in(t.children[0].children, 0, None, Connective::Or, gql)
    } else {
        Err(malformed())
    }
}

/// The first `expression` child, which has to be there.
pub open spec fn child_expression_in(t: Tree, gql: bool) -> Built<m::Expression>
    decreases t, 0int,
{
    let i = at(t, Rule::expression);
    if holds(t, i) {
        expression_in(t.children[i], gql)
    } else {
        Err(malformed())
    }
}

/// The first `expression` child from a position on, where there is one.
pub open spec fn optional_expression_in(t: Tree, from: int, gql: bool) -> Built<
    Option<m::Expression>,
>
    decreases t, 0int,
{
    let i = index_from(t.children, Rule::expression, from);
    if holds(t, i) {
        match expression_in(t.children[i], gql) {
            Ok(e) => Ok(Some(e)),
            Err(f) => Err(f),
        }
    } else {
        Ok(None)
    }
}

pub open spec fn expressions_from(ch: Seq<Tree>, i: int, gql: bool) -> Built<Seq<m::Expression>>
    decreases ch, ch.len() - i,
{
    if i < 0 || i >= ch.len() {
        Ok(seq![])
    } else if ch[i].rule == Rule::expression {
        match expression_in(ch[i], gql) {
            Err(f) => Err(f),
            Ok(e) => match expressions_from(ch, i + 1, gql) {
                Err(f) => Err(f),
                Ok(rest) => Ok(seq![e] + rest),
            },
        }
    } else {
        expressions_from(ch, i + 1, gql)
    }
}

pub open spec fn connected_in(
    ch: Seq<Tree>,
    i: int,
    acc: Option<m::Expression>,
    c: Connective,
    gql: bool,
) -> Built<m::Expression>
    decreases ch, ch.len() - i,
{
    if i < 0 || i >= ch.len() {
        match acc {
            Some(e) => Ok(e),
            None => Err(malformed()),
        }
    } else if ch[i].rule == operand_rule(c) {
        match operand_in(ch[i], c, gql) {
            Err(f) => Err(f),
            Ok(e) => connected_in(ch, i + 1, Some(joined(acc, c, e)), c, gql),
        }
    } else {
        connected_in(ch, i + 1, acc, c, gql)
    }
}

pub open spec fn operand_in(t: Tree, c: Connective, gql: bool) -> Built<m::Expression>
    decreases t, 1int,
{
    match c {
        Connective::Or => connected_in(t.children, 0, None, Connective::Xor, gql),
        Connective::Xor => connected_in(t.children, 0, None, Connective::And, gql),
        Connective::And => not_in(t, gql),
    }
}

pub open spec fn not_in(t: Tree, gql: bool) -> Built<m::Expression>
    decreases t, 0int,
{
    if !holds(t, 0) {
        Err(malformed())
    } else if t.children[0].rule == Rule::kw_NOT {
        if holds(t, 1) {
            match not_in(t.children[1], gql) {
                Err(f) => Err(f),
                Ok(e) => Ok(m::Expression::Not(Box::new(e))),
            }
        } else {
            Err(malformed())
        }
    } else if t.children[0].rule == Rule::comparison_expr {
        comparison_in(t.children[0], gql)
    } else {
        Err(malformed())
    }
}

pub open spec fn comparison_in(t: Tree, gql: bool) -> Built<m::Expression>
    decreases t, 0int,
{
    if !holds(t, 0) {
        Err(malformed())
    } else {
        match arithmetic_in(t.children[0], Arithmetic::Sum, gql) {
            Err(f) => Err(f),
            Ok(e) => if gql {
                if holds(t, 1) {
                    suffix_in(e, t.children[1], gql)
                } else {
                    Ok(e)
                }
            } else {
                suffixes_in(e, t.children, 1, gql)
            },
        }
    }
}

/// The comparison suffixes from a position on, applied from left to right.
pub open spec fn suffixes_in(acc: m::Expression, ch: Seq<Tree>, i: int, gql: bool) -> Built<
    m::Expression,
>
    decreases ch, ch.len() - i,
{
    if i < 0 || i >= ch.len() {
        Ok(acc)
    } else {
        match suffix_in(acc, ch[i], gql) {
            Err(f) => Err(f),
            Ok(e) => suffixes_in(e, ch, i + 1, gql),
        }
    }
}

/// A comparison whose right side is the operand at a position.
pub open spec fn compared_in(lhs: m::Expression, op: CompOp, t: Tree, i: int, gql: bool) -> Built<
    m::Expression,
>
    decreases t, 0int,
{
    if holds(t, i) {
        match arithmetic_in(t.children[i], Arithmetic::Sum, gql) {
            Err(f) => Err(f),
            Ok(rhs) => Ok(m::Expression::Comparison(Box::new(lhs), op, Box::new(rhs))),
        }
    } else {
        Err(malformed())
    }
}

/// `lhs op rhs`, where `rhs` may be a comparison: `a < b < c` is `a < b AND b < c`,
/// and `a < b IS NULL` compares with `b IS NULL`.
pub open spec fn binary_in(lhs: m::Expression, op: CompOp, t: Tree) -> Built<m::Expression>
    decreases t, 1int,
{
    if !chains(t) {
        match comparison_in(t, false) {
            Err(f) => Err(f),
            Ok(rhs) => Ok(m::Expression::Comparison(Box::new(lhs), op, Box::new(rhs))),
        }
    } else if holds(t, 0) {
        match arithmetic_in(t.children[0], Arithmetic::Sum, false) {
            Err(f) => Err(f),
            Ok(mid) => match suffixes_in(mid, t.children, 1, false) {
                Err(f) => Err(f),
                Ok(rest) => Ok(
                    m::Expression::And(
                        Box::new(
                            m::Expression::Comparison(Box::new(lhs), op, Box::new(mid)),
                        ),
                        Box::new(rest),
                    ),
                ),
            },
        }
    } else {
        Err(malformed())
    }
}

pub open spec fn suffix_in(lhs: m::Expression, t: Tree, gql: bool) -> Built<m::Expression>
    decreases t, 1int,
{
    if !holds(t, 0) {
        Err(malformed())
    } else {
        match t.children[0].rule {
            Rule::comp_op => match comp_op_in(t.children[0].text) {
                None => Err(
                    Fault::Syntax {
                        span: ""@,
                        message: "unknown comparison operator: "@ + t.children[0].text,
                    },
                ),
                Some(op) => if gql {
                    compared_in(lhs, op, t, 1, gql)
                } else if holds(t, 1) {
                    binary_in(lhs, op, t.children[1])
                } else {
                    Err(malformed())
                },
            },
            Rule::regex_op => compared_in(lhs, CompOp::RegexMatch, t, 1, gql),
            Rule::kw_IS => if !holds(t, 1) {
                Err(malformed())
            } else if t.children[1].rule == Rule::kw_NOT {
                Ok(m::Expression::IsNotNull(Box::new(lhs)))
            } else {
                Ok(m::Expression::IsNull(Box::new(lhs)))
            },
            Rule::kw_IN => compared_in(lhs, CompOp::In, t, 1, gql),
            Rule::kw_NOT => match compared_in(lhs, CompOp::In, t, 2, gql) {
                Err(f) => Err(f),
                Ok(e) => Ok(m::Expression::Not(Box::new(e))),
            },
            Rule::kw_STARTS => compared_in(lhs, CompOp::StartsWith, t, 2, gql),
            Rule::kw_ENDS => compared_in(lhs, CompOp::EndsWith, t, 2, gql),
            Rule::kw_CONTAINS => compared_in(lhs, CompOp::Contains, t, 1, gql),
            _ => Err(malformed()),
        }
    }
}

pub open spec fn arithmetic_in(t: Tree, level: Arithmetic, gql: bool) -> Built<m::Expression>
    decreases t, 1int,
{
    if holds(t, 0) {
        match term_in(t.children[0], level, gql) {
            Err(f) => Err(f),
            Ok(e) => terms_in(e, t.children, 1, level, gql),
        }
    } else {
        Err(malformed())
    }
}

/// An operand of a sum or of a product.
pub open spec fn term_in(t: Tree, level: Arithmetic, gql: bool) -> Built<m::Expression>
    decreases t, 2int,
{
    match level {
        Arithmetic::Sum => arithmetic_in(t, Arithmetic::Product, gql),
        Arithmetic::Product => if gql {
            unary_in(t, gql)
        } else {
            power_in(t, gql)
        },
    }
}

pub open spec fn terms_in(
    acc: m::Expression,
    ch: Seq<Tree>,
    i: int,
    level: Arithmetic,
    gql: bool,
) -> Built<m::Expression>
    decreases ch, ch.len() - i,
{
    if i < 0 || i >= ch.len() {
        Ok(acc)
    } else if i + 1 >= ch.len() {
        Err(malformed())
    } else {
        match term_in(ch[i + 1], level, gql) {
            Err(f) => Err(f),
            Ok(rhs) => match applied(level, ch[i].text, acc, rhs) {
                None => Err(malformed()),
                Some(e) => terms_in(e, ch, i + 2, level, gql),
            },
        }
    }
}

pub open spec fn unary_in(t: Tree, gql: bool) -> Built<m::Expression>
    decreases t, 0int,
{
    if !holds(t, 0) {
        Err(malformed())
    } else {
        let c = t.children[0];
        match c.rule {
            Rule::unary_minus => if !holds(c, 0) {
                Err(malformed())
            } else if !gql && is_least_magnitude(trim_spec(c.children[0].text)) {
                Ok(m::Expression::Literal(m::Literal::Integer(i64::MIN)))
            } else {
                match unary_in(c.children[0], gql) {
                    Err(f) => Err(f),
                    Ok(e) => Ok(m::Expression::Negate(Box::new(e))),
                }
            },
            Rule::unary_plus => if holds(c, 0) {
                unary_in(c.children[0], gql)
            } else {
                Err(malformed())
            },
            Rule::non_arith_expr => postfixed_in(c, gql),
            Rule::power_expr => power_in(c, gql),
            _ => Err(malformed()),
        }
    }
}

/// In Cypher a chain of powers, from left to right; in GQL one power at most.
pub open spec fn power_in(t: Tree, gql: bool) -> Built<m::Expression>
    decreases t, 0int,
{
    if !holds(t, 0) {
        Err(malformed())
    } else if gql {
        match postfixed_in(t.children[0], gql) {
            Err(f) => Err(f),
            Ok(base) => if holds(t, 1) {
                match unary_in(t.children[1], gql) {
                    Err(f) => Err(f),
                    Ok(e) => Ok(m::Expression::Power(Box::new(base), Box::new(e))),
                }
            } else {
                Ok(base)
            },
        }
    } else {
        match unary_in(t.children[0], gql) {
            Err(f) => Err(f),
            Ok(e) => powers_in(e, t.children, 1, gql),
        }
    }
}

pub open spec fn powers_in(acc: m::Expression, ch: Seq<Tree>, i: int, gql: bool) -> Built<
    m::Expression,
>
    decreases ch, ch.len() - i,
{
    if i < 0 || i >= ch.len() {
        Ok(acc)
    } else {
        match unary_in(ch[i], gql) {
            Err(f) => Err(f),
            Ok(e) => powers_in(
                m::Expression::Power(Box::new(acc), Box::new(e)),
                ch,
                i + 1,
                gql,
            ),
        }
    }
}

/// An atom with the lookups behind it.
pub open spec fn postfixed_in(t: Tree, gql: bool) -> Built<m::Expression>
    decreases t, 0int,
{
    if holds(t, 0) {
        match atom_in(t.children[0], gql) {
            Err(f) => Err(f),
            Ok(e) => postfixes_in(e, t.children, 1, gql),
        }
    } else {
        Err(malformed())
    }
}

pub open spec fn postfixes_in(acc: m::Expression, ch: Seq<Tree>, i: int, gql: bool) -> Built<
    m::Expression,
>
    decreases ch, ch.len() - i,
{
    if i < 0 || i >= ch.len() {
        Ok(acc)
    } else {
        match postfix_in(acc, ch[i], gql) {
            Err(f) => Err(f),
            Ok(e) => postfixes_in(e, ch, i + 1, gql),
        }
    }
}

pub open spec fn postfix_in(acc: m::Expression, t: Tree, gql: bool) -> Built<m::Expression>
    decreases t, 1int,
{
    match t.rule {
        Rule::property_lookup => match key_in(t) {
            Err(f) => Err(f),
            Ok(key) => Ok(m::Expression::Property(Box::new(acc), key)),
        },
        Rule::slice_access => match slice_from(
            t.children,
            0,
            dots_position(t),
            Slice { start: None, end: None },
            gql,
        ) {
            Err(f) => Err(f),
            Ok(s) => Ok(
                m::Expression::ListSlice {
                    list: Box::new(acc),
                    start: boxed(s.start),
                    end: boxed(s.end),
                },
            ),
        },
        Rule::subscript_access => match child_expression_in(t, gql) {
            Err(f) => Err(f),
            Ok(e) => Ok(m::Expression::Subscript(Box::new(acc), Box::new(e))),
        },
        Rule::node_labels => Ok(labelled(acc, labels_from(t.children, 0, gql))),
        _ => Ok(acc),
    }
}

/// The position of the dots in a slice.
pub open spec fn dots_position(t: Tree) -> int {
    let d = dots_from(t.text, 0);
    if d >= 0 {
        d
    } else {
        0
    }
}

/// The bounds of a slice: an expression before the dots is the start, one
/// behind them the end.
pub open spec fn slice_from(ch: Seq<Tree>, i: int, dots: int, acc: Slice, gql: bool) -> Built<Slice>
    decreases ch, ch.len() - i,
{
    if i < 0 || i >= ch.len() {
        Ok(acc)
    } else if ch[i].rule == Rule::expression {
        match expression_in(ch[i], gql) {
            Err(f) => Err(f),
            Ok(e) => slice_from(
                ch,
                i + 1,
                dots,
                if ch[i].start < dots {
                    Slice { start: Some(e), ..acc }
                } else {
                    Slice { end: Some(e), ..acc }
                },
                gql,
            ),
        }
    } else {
        slice_from(ch, i + 1, dots, acc, gql)
    }
}

pub open spec fn atom_in(t: Tree, gql: bool) -> Built<m::Expression>
    decreases t, 0int,
{
    if !holds(t, 0) {
        Err(malformed())
    } else {
        let c = t.children[0];
        match c.rule {
            Rule::parameter => Err(unsupported("query parameter: "@ + c.text)),
            Rule::legacy_parameter => Err(unsupported("legacy parameter: "@ + c.text)),
            Rule::aggregate_expr => aggregate_in(c, gql),
            Rule::case_expression => case_in(c, gql),
            Rule::reduce_expr => Err(unsupported("REDUCE expression"@)),
            Rule::exists_subquery => exists_in(c, gql),
            Rule::shortest_path_atom => Err(
                unsupported("shortestPath / allShortestPaths expression"@),
            ),
            Rule::quantifier_expr => quantified_in(c, gql),
            Rule::function_call => function_call_in(c, gql),
            Rule::label_check => match bound_variable_in(c) {
                Err(f) => Err(f),
                Ok(variable) => Ok(
                    m::Expression::LabelCheck { variable, labels: labels_in(c, gql) },
                ),
            },
            Rule::list_comprehension => list_comprehension_in(c, gql),
            Rule::pattern_comprehension => pattern_comprehension_in(c, gql),
            Rule::pattern_predicate => match relationships_in(c, gql) {
                Err(f) => Err(f),
                Ok(elements) => Ok(
                    m::Expression::PatternPredicate(m::Pattern { variable: None, elements }),
                ),
            },
            Rule::list_literal => match expressions_from(c.children, 0, gql) {
                Err(f) => Err(f),
                Ok(items) => Ok(m::Expression::List(items)),
            },
            Rule::map_literal => match entries_from(c.children, 0, gql) {
                Err(f) => Err(f),
                Ok(entries) => Ok(m::Expression::MapLit(entries)),
            },
            Rule::expression => expression_in(c, gql),
            Rule::variable => match name_in(c) {
                Err(f) => Err(f),
                Ok(name) => Ok(m::Expression::Variable(name)),
            },
            _ => match literal_in(c, gql) {
                Err(f) => Err(f),
                Ok(l) => Ok(m::Expression::Literal(l)),
            },
        }
    }
}

pub open spec fn aggregate_in(t: Tree, gql: bool) -> Built<m::Expression>
    decreases t, 0int,
{
    if !holds(t, 0) {
        Err(malformed())
    } else {
        let c = t.children[0];
        let distinct = holds(c, at(c, Rule::kw_DISTINCT));
        match c.rule {
            Rule::count_expr => match optional_expression_in(c, 0, gql) {
                Err(f) => Err(f),
                Ok(e) => Ok(
                    m::Expression::Aggregate(
                        m::AggregateExpr::Count { distinct, expr: boxed(e) },
                    ),
                ),
            },
            Rule::agg_call_expr => match child_expression_in(c, gql) {
                Err(f) => Err(f),
                Ok(e) => match aggregate(aggregate_name_in(c), distinct, e) {
                    Err(f) => Err(f),
                    Ok(a) => Ok(m::Expression::Aggregate(a)),
                },
            },
            _ => Err(malformed()),
        }
    }
}

pub open spec fn case_in(t: Tree, gql: bool) -> Built<m::Expression>
    decreases t, 0int,
{
    case_done(
        case_from(
            t.children,
            0,
            Case { operand: None, whens: seq![], otherwise: None, after_else: false },
            gql,
        ),
    )
}

/// The parts of a `CASE`: an expression before the first `WHEN` is the operand,
/// one directly behind `ELSE` the alternative.
pub open spec fn case_from(ch: Seq<Tree>, i: int, acc: Case, gql: bool) -> Built<Case>
    decreases ch, ch.len() - i,
{
    if i < 0 || i >= ch.len() {
        Ok(acc)
    } else {
        match ch[i].rule {
            Rule::kw_CASE => case_from(ch, i + 1, acc, gql),
            Rule::kw_END => case_from(ch, i + 1, acc, gql),
            Rule::kw_ELSE => case_from(ch, i + 1, Case { after_else: true, ..acc }, gql),
            Rule::case_when => match expressions_from(ch[i].children, 0, gql) {
                Err(f) => Err(f),
                Ok(s) => case_from(
                    ch,
                    i + 1,
                    if s.len() == 2 {
                        Case { whens: acc.whens.push((s[0], s[1])), ..acc }
                    } else {
                        acc
                    },
                    gql,
                ),
            },
            Rule::expression => if acc.after_else {
                match expression_in(ch[i], gql) {
                    Err(f) => Err(f),
                    Ok(e) => case_from(
                        ch,
                        i + 1,
                        Case { otherwise: Some(e), after_else: false, ..acc },
                        gql,
                    ),
                }
            } else if acc.whens.len() == 0 {
                match expression_in(ch[i], gql) {
                    Err(f) => Err(f),
                    Ok(e) => case_from(ch, i + 1, Case { operand: Some(e), ..acc }, gql),
                }
            } else {
                case_from(ch, i + 1, acc, gql)
            },
            _ => case_from(ch, i + 1, Case { after_else: false, ..acc }, gql),
        }
    }
}

pub open spec fn filter_in(t: Tree, gql: bool) -> Built<Filter>
    decreases t, 0int,
{
    match bound_variable_in(t) {
        Err(f) => Err(f),
        Ok(variable) => match expressions_from(t.children, 0, gql) {
            Err(f) => Err(f),
            Ok(s) => if s.len() == 0 {
                Err(malformed())
            } else {
                Ok(
                    Filter {
                        variable,
                        list: s[0],
                        predicate: if s.len() > 1 {
                            Some(s[1])
                        } else {
                            None
                        },
                    },
                )
            },
        },
    }
}

pub open spec fn child_filter_in(t: Tree, gql: bool) -> Built<Filter>
    decreases t, 0int,
{
    let i = at(t, Rule::filter_expression);
    if holds(t, i) {
        filter_in(t.children[i], gql)
    } else {
        Err(malformed())
    }
}

pub open spec fn quantified_in(t: Tree, gql: bool) -> Built<m::Expression>
    decreases t, 1int,
{
    match child_filter_in(t, gql) {
        Err(f) => Err(f),
        Ok(x) => match quantifier_in(t) {
            None => Err(malformed()),
            Some(kind) => Ok(
                m::Expression::QuantifierExpr {
                    kind,
                    variable: x.variable,
                    list: Box::new(x.list),
                    predicate: boxed(x.predicate),
                },
            ),
        },
    }
}

pub open spec fn list_comprehension_in(t: Tree, gql: bool) -> Built<m::Expression>
    decreases t, 1int,
{
    match child_filter_in(t, gql) {
        Err(f) => Err(f),
        Ok(x) => match optional_expression_in(t, 0, gql) {
            Err(f) => Err(f),
            Ok(p) => Ok(
                m::Expression::ListComprehension {
                    variable: x.variable,
                    list: Box::new(x.list),
                    predicate: boxed(x.predicate),
                    projection: boxed(p),
                },
            ),
        },
    }
}

/// With one expression that is what is projected; with more the first is the
/// predicate and the last what is projected.
pub open spec fn pattern_comprehension_in(t: Tree, gql: bool) -> Built<m::Expression>
    decreases t, 1int,
{
    match variable_in(t) {
        Err(f) => Err(f),
        Ok(alias) => match relationships_in(t, gql) {
            Err(f) => Err(f),
            Ok(elements) => match expressions_from(t.children, 0, gql) {
                Err(f) => Err(f),
                Ok(s) => if s.len() == 0 {
                    Err(malformed())
                } else {
                    Ok(
                        m::Expression::PatternComprehension {
                            alias,
                            pattern: m::Pattern { variable: alias, elements },
                            predicate: if s.len() > 1 {
                                Some(Box::new(s[0]))
                            } else {
                                None
                            },
                            projection: Box::new(s.last()),
                        },
                    )
                },
            },
        },
    }
}

pub open spec fn function_call_in(t: Tree, gql: bool) -> Built<m::Expression>
    decreases t, 0int,
{
    if !holds(t, 0) {
        Err(malformed())
    } else {
        match expressions_from(t.children, 1, gql) {
            Err(f) => Err(f),
            Ok(args) => Ok(
                m::Expression::FunctionCall {
                    name: t.children[0].text,
                    distinct: holds(t, at(t, Rule::kw_DISTINCT)),
                    args,
                },
            ),
        }
    }
}

pub open spec fn entries_from(ch: Seq<Tree>, i: int, gql: bool) -> Built<
    Seq<(Seq<char>, m::Expression)>,
>
    decreases ch, ch.len() - i,
{
    if i < 0 || i >= ch.len() {
        Ok(seq![])
    } else if ch[i].rule == Rule::map_entry {
        match key_in(ch[i]) {
            Err(f) => Err(f),
            Ok(key) => match child_expression_in(ch[i], gql) {
                Err(f) => Err(f),
                Ok(e) => match entries_from(ch, i + 1, gql) {
                    Err(f) => Err(f),
                    Ok(rest) => Ok(seq![(key, e)] + rest),
                },
            },
        }
    } else {
        entries_from(ch, i + 1, gql)
    }
}

/// The entries of the first child with the rule, where there is one.
pub open spec fn properties_in(t: Tree, gql: bool) -> Built<Option<Seq<(Seq<char>, m::Expression)>>>
    decreases t, 0int,
{
    let i = at(t, Rule::properties);
    if holds(t, i) {
        let p = t.children[i];
        let k = at(p, Rule::map_literal);
        if holds(p, k) {
            match entries_from(p.children[k].children, 0, gql) {
                Err(f) => Err(f),
                Ok(e) => Ok(Some(e)),
            }
        } else {
            Err(malformed())
        }
    } else {
        Ok(None)
    }
}

// ── Patterns ─────────────────────────────────────────────────────────────────

pub open spec fn node_pattern_in(t: Tree, gql: bool) -> Built<m::PatternElement>
    decreases t, 1int,
{
    match variable_in(t) {
        Err(f) => Err(f),
        Ok(variable) => match properties_in(t, gql) {
            Err(f) => Err(f),
            Ok(properties) => Ok(
                m::PatternElement::Node(
                    m::NodePattern {
                        variable,
                        labels: if gql {
                            labels_in(t, gql) + is_labels_in(t)
                        } else {
                            labels_in(t, gql)
                        },
                        properties,
                    },
                ),
            ),
        },
    }
}

pub open spec fn rel_pattern_in(t: Tree, gql: bool) -> Built<m::PatternElement>
    decreases t, 1int,
{
    let i = at(t, Rule::rel_body);
    if holds(t, i) {
        let b = t.children[i];
        match variable_in(b) {
            Err(f) => Err(f),
            Ok(variable) => match properties_in(b, gql) {
                Err(f) => Err(f),
                Ok(properties) => Ok(
                    m::PatternElement::Relationship(
                        m::RelationshipPattern {
                            variable,
                            direction: direction_in(t),
                            rel_types: rel_types_in(b, gql),
                            properties,
                            range: range_of_body(b),
                        },
                    ),
                ),
            },
        }
    } else {
        Ok(
            m::PatternElement::Relationship(
                m::RelationshipPattern {
                    variable: None,
                    direction: direction_in(t),
                    rel_types: seq![],
                    properties: None,
                    range: None,
                },
            ),
        )
    }
}

/// The nodes and relationships of a path, those in round brackets included.
pub open spec fn elements_from(ch: Seq<Tree>, i: int, gql: bool) -> Built<Seq<m::PatternElement>>
    decreases ch, ch.len() - i,
{
    if i < 0 || i >= ch.len() {
        Ok(seq![])
    } else {
        let first = match ch[i].rule {
            Rule::node_pattern => match node_pattern_in(ch[i], gql) {
                Err(f) => Err(f),
                Ok(e) => Ok(seq![e]),
            },
            Rule::rel_pattern => match rel_pattern_in(ch[i], gql) {
                Err(f) => Err(f),
                Ok(e) => Ok(seq![e]),
            },
            Rule::pattern_element_chain => elements_from(ch[i].children, 0, gql),
            Rule::chain_link => elements_from(ch[i].children, 0, gql),
            Rule::pattern_element => elements_from(ch[i].children, 0, gql),
            _ => Ok(seq![]),
        };
        match first {
            Err(f) => Err(f),
            Ok(e) => match elements_from(ch, i + 1, gql) {
                Err(f) => Err(f),
                Ok(rest) => Ok(e + rest),
            },
        }
    }
}

/// The path of the first `relationships_pattern` child.
pub open spec fn relationships_in(t: Tree, gql: bool) -> Built<Seq<m::PatternElement>>
    decreases t, 0int,
{
    let i = at(t, Rule::relationships_pattern);
    if holds(t, i) {
        elements_from(t.children[i].children, 0, gql)
    } else {
        Err(malformed())
    }
}

/// The elements of the path that a pattern names.
pub open spec fn path_in(t: Tree, gql: bool) -> Built<Seq<m::PatternElement>>
    decreases t, 0int,
{
    if gql {
        let i = at(t, Rule::node_pattern_chain);
        if holds(t, i) {
            elements_from(t.children[i].children, 0, gql)
        } else {
            Err(malformed())
        }
    } else {
        let i = at(t, Rule::anonymous_pattern_part);
        if holds(t, i) && holds(t.children[i], 0) {
            let p = t.children[i].children[0];
            if p.rule == Rule::pattern_element {
                elements_from(p.children, 0, gql)
            } else if p.rule == Rule::shortest_path_pattern {
                let k = at(p, Rule::pattern_element);
                if holds(p, k) {
                    elements_from(p.children[k].children, 0, gql)
                } else {
                    Err(malformed())
                }
            } else {
                Err(malformed())
            }
        } else {
            Err(malformed())
        }
    }
}

pub open spec fn pattern_in(t: Tree, gql: bool) -> Built<m::Pattern>
    decreases t, 1int,
{
    match variable_in(t) {
        Err(f) => Err(f),
        Ok(variable) => match path_in(t, gql) {
            Err(f) => Err(f),
            Ok(elements) => Ok(m::Pattern { variable, elements }),
        },
    }
}

pub open spec fn patterns_from(ch: Seq<Tree>, i: int, gql: bool) -> Built<Seq<m::Pattern>>
    decreases ch, ch.len() - i,
{
    if i < 0 || i >= ch.len() {
        Ok(seq![])
    } else if ch[i].rule == Rule::pattern {
        match pattern_in(ch[i], gql) {
            Err(f) => Err(f),
            Ok(p) => match patterns_from(ch, i + 1, gql) {
                Err(f) => Err(f),
                Ok(rest) => Ok(seq![p] + rest),
            },
        }
    } else {
        patterns_from(ch, i + 1, gql)
    }
}

/// The patterns of the first `pattern_list` child.
pub open spec fn pattern_list_in(t: Tree, gql: bool) -> Built<m::PatternList>
    decreases t, 0int,
{
    let i = at(t, Rule::pattern_list);
    if holds(t, i) {
        match patterns_from(t.children[i].children, 0, gql) {
            Err(f) => Err(f),
            Ok(p) => Ok(m::PatternList(p)),
        }
    } else {
        Err(malformed())
    }
}

/// The expression of the first child with the rule, where there is one.
pub open spec fn clause_expression_in(t: Tree, r: Rule, gql: bool) -> Built<Option<m::Expression>>
    decreases t, 0int,
{
    let i = at(t, r);
    if holds(t, i) {
        match child_expression_in(t.children[i], gql) {
            Err(f) => Err(f),
            Ok(e) => Ok(Some(e)),
        }
    } else {
        Ok(None)
    }
}

/// The clauses of a single query.
pub open spec fn clauses_from(ch: Seq<Tree>, i: int, gql: bool) -> Built<Seq<m::Clause>>
    decreases ch, ch.len() - i,
{
    if i < 0 || i >= ch.len() {
        Ok(seq![])
    } else if ch[i].rule == Rule::clause {
        if holds(ch[i], 0) {
            match clause_in(ch[i].children[0], gql) {
                Err(f) => Err(f),
                Ok(c) => match clauses_from(ch, i + 1, gql) {
                    Err(f) => Err(f),
                    Ok(rest) => Ok(seq![c] + rest),
                },
            }
        } else {
            Err(malformed())
        }
    } else {
        clauses_from(ch, i + 1, gql)
    }
}

/// The body of `EXISTS`: a query of its own, or a pattern with its predicate.
pub open spec fn exists_in(t: Tree, gql: bool) -> Built<m::Expression>
    decreases t, 2int,
{
    let i = at(t, Rule::statement);
    if holds(t, i) {
        let s = t.children[i];
        let k = at(s, Rule::single_query);
        if count_from(s.children, 0, Rule::single_query) != 1 || !holds(s, k) {
            Err(unsupported("EXISTS subquery with UNION (Phase 4+)"@))
        } else {
            exists_query_in(s.children[k], gql)
        }
    } else if holds(t, at(t, Rule::pattern_list)) {
        exists_pattern_in(t, gql)
    } else {
        Err(unsupported("EXISTS subquery with no pattern"@))
    }
}

pub open spec fn exists_query_in(t: Tree, gql: bool) -> Built<m::Expression>
    decreases t, 0int,
{
    let ch = t.children;
    let k = clause_at(ch, 0, Rule::match_clause);
    if writes(ch) {
        Err(unsupported("EXISTS subquery with non-MATCH/RETURN clauses (Phase 4+)"@))
    } else if needs_clauses(ch) {
        match clauses_from(ch, 0, gql) {
            Err(f) => Err(f),
            Ok(clauses) => Ok(m::Expression::ExistsFullSubquery { clauses }),
        }
    } else if holds(t, k) && holds(ch[k], 0) {
        exists_pattern_in(ch[k].children[0], gql)
    } else {
        Err(unsupported("EXISTS subquery without MATCH"@))
    }
}

pub open spec fn exists_pattern_in(t: Tree, gql: bool) -> Built<m::Expression>
    decreases t, 1int,
{
    match pattern_list_in(t, gql) {
        Err(f) => Err(f),
        Ok(patterns) => match clause_expression_in(t, Rule::where_clause, gql) {
            Err(f) => Err(f),
            Ok(e) => Ok(m::Expression::ExistsSubquery { patterns, where_: boxed(e) }),
        },
    }
}

// ── Clauses ──────────────────────────────────────────────────────────────────

pub open spec fn where_of(e: Option<m::Expression>) -> Option<m::WhereClause> {
    match e {
        Some(expression) => Some(m::WhereClause { expression }),
        None => None,
    }
}

/// The predicate of a `MATCH` or a `WITH`.
pub open spec fn where_in(t: Tree, gql: bool) -> Built<Option<m::Expression>>
    decreases t, 1int,
{
    clause_expression_in(
        t,
        if gql {
            Rule::match_where
        } else {
            Rule::where_clause
        },
        gql,
    )
}

pub open spec fn return_item_in(t: Tree, gql: bool) -> Built<m::ReturnItem>
    decreases t, 1int,
{
    match child_expression_in(t, gql) {
        Err(f) => Err(f),
        Ok(expression) => match alias_in(t) {
            Err(f) => Err(f),
            Ok(alias) => Ok(m::ReturnItem { expression, alias }),
        },
    }
}

pub open spec fn items_from(ch: Seq<Tree>, i: int, gql: bool) -> Built<Seq<m::ReturnItem>>
    decreases ch, ch.len() - i,
{
    if i < 0 || i >= ch.len() {
        Ok(seq![])
    } else if ch[i].rule == Rule::return_item {
        match return_item_in(ch[i], gql) {
            Err(f) => Err(f),
            Ok(x) => match items_from(ch, i + 1, gql) {
                Err(f) => Err(f),
                Ok(rest) => Ok(seq![x] + rest),
            },
        }
    } else {
        items_from(ch, i + 1, gql)
    }
}

/// The items of the first `return_items` child; all of them where there is none.
pub open spec fn return_items_in(t: Tree, gql: bool) -> Built<m::ReturnItems>
    decreases t, 0int,
{
    let i = at(t, Rule::return_items);
    if !holds(t, i) {
        Ok(m::ReturnItems::All)
    } else if !holds(t.children[i], 0) {
        Err(malformed())
    } else {
        let c = t.children[i].children[0];
        if c.rule == Rule::star_projection {
            Ok(m::ReturnItems::All)
        } else if c.rule == Rule::explicit_items {
            match items_from(c.children, 0, gql) {
                Err(f) => Err(f),
                Ok(x) => Ok(m::ReturnItems::Explicit(x)),
            }
        } else {
            Err(malformed())
        }
    }
}

pub open spec fn descends(t: Tree, gql: bool) -> bool {
    let i = at(t, Rule::sort_direction);
    holds(t, i) && holds(t.children[i], 0) && (t.children[i].children[0].rule == Rule::kw_DESC || (!gql
        && t.children[i].children[0].rule == Rule::kw_DESCENDING))
}

pub open spec fn sort_item_in(t: Tree, gql: bool) -> Built<m::SortItem>
    decreases t, 1int,
{
    match child_expression_in(t, gql) {
        Err(f) => Err(f),
        Ok(expression) => Ok(m::SortItem { expression, descending: descends(t, gql) }),
    }
}

pub open spec fn sort_items_from(ch: Seq<Tree>, i: int, gql: bool) -> Built<Seq<m::SortItem>>
    decreases ch, ch.len() - i,
{
    if i < 0 || i >= ch.len() {
        Ok(seq![])
    } else if ch[i].rule == Rule::sort_item {
        match sort_item_in(ch[i], gql) {
            Err(f) => Err(f),
            Ok(x) => match sort_items_from(ch, i + 1, gql) {
                Err(f) => Err(f),
                Ok(rest) => Ok(seq![x] + rest),
            },
        }
    } else {
        sort_items_from(ch, i + 1, gql)
    }
}

pub open spec fn order_by_in(t: Tree, gql: bool) -> Built<Option<m::OrderByClause>>
    decreases t, 0int,
{
    let i = at(t, Rule::order_by_clause);
    if holds(t, i) {
        match sort_items_from(t.children[i].children, 0, gql) {
            Err(f) => Err(f),
            Ok(items) => Ok(Some(m::OrderByClause { items })),
        }
    } else {
        Ok(None)
    }
}

/// What a projection projects, and how it is ordered and cut.
pub open spec fn projection_in(t: Tree, gql: bool) -> Built<Projection>
    decreases t, 1int,
{
    match return_items_in(t, gql) {
        Err(f) => Err(f),
        Ok(items) => match order_by_in(t, gql) {
            Err(f) => Err(f),
            Ok(order_by) => match clause_expression_in(t, Rule::skip_clause, gql) {
                Err(f) => Err(f),
                Ok(skip) => match clause_expression_in(t, Rule::limit_clause, gql) {
                    Err(f) => Err(f),
                    Ok(limit) => Ok(
                        Projection {
                            distinct: holds(t, at(t, Rule::distinct_marker)),
                            items,
                            order_by,
                            skip,
                            limit,
                        },
                    ),
                },
            },
        },
    }
}

/// The projection of the first child with the rule.
pub open spec fn child_projection_in(t: Tree, r: Rule, gql: bool) -> Built<Projection>
    decreases t, 0int,
{
    let i = at(t, r);
    if holds(t, i) {
        projection_in(t.children[i], gql)
    } else {
        Err(malformed())
    }
}

pub open spec fn return_in(t: Tree, gql: bool) -> Built<m::Clause>
    decreases t, 1int,
{
    if gql {
        match order_by_in(t, gql) {
            Err(f) => Err(f),
            Ok(order_by) => match clause_expression_in(t, Rule::skip_clause, gql) {
                Err(f) => Err(f),
                Ok(skip) => match clause_expression_in(t, Rule::limit_clause, gql) {
                    Err(f) => Err(f),
                    Ok(limit) => match child_projection_in(t, Rule::return_body, gql) {
                        Err(f) => Err(f),
                        Ok(p) => Ok(
                            m::Clause::Return(
                                m::ReturnClause {
                                    distinct: p.distinct,
                                    items: p.items,
                                    order_by,
                                    skip,
                                    limit,
                                },
                            ),
                        ),
                    },
                },
            },
        }
    } else {
        match child_projection_in(t, Rule::projection_body, gql) {
            Err(f) => Err(f),
            Ok(p) => Ok(
                m::Clause::Return(
                    m::ReturnClause {
                        distinct: p.distinct,
                        items: p.items,
                        order_by: p.order_by,
                        skip: p.skip,
                        limit: p.limit,
                    },
                ),
            ),
        }
    }
}

pub open spec fn with_in(t: Tree, gql: bool) -> Built<m::Clause>
    decreases t, 1int,
{
    match clause_expression_in(t, Rule::where_clause, gql) {
        Err(f) => Err(f),
        Ok(e) => match child_projection_in(t, Rule::projection_body, gql) {
            Err(f) => Err(f),
            Ok(p) => Ok(
                m::Clause::With(
                    m::WithClause {
                        distinct: p.distinct,
                        items: p.items,
                        where_: where_of(e),
                        order_by: p.order_by,
                        skip: p.skip,
                        limit: p.limit,
                    },
                ),
            ),
        },
    }
}

/// A `WITH` that passes on what it names, all of it or what the predicate keeps.
pub open spec fn plain_with(
    distinct: bool,
    items: m::ReturnItems,
    e: Option<m::Expression>,
) -> m::Clause {
    m::Clause::With(
        m::WithClause {
            distinct,
            items,
            where_: where_of(e),
            order_by: None,
            skip: None,
            limit: None,
        },
    )
}

/// `NEXT`: a projection of its body, or of everything.
pub open spec fn next_in(t: Tree, gql: bool) -> Built<m::Clause>
    decreases t, 0int,
{
    let i = at(t, Rule::return_body);
    if holds(t, i) {
        match return_items_in(t.children[i], gql) {
            Err(f) => Err(f),
            Ok(items) => Ok(
                plain_with(
                    holds(t.children[i], at(t.children[i], Rule::distinct_marker)),
                    items,
                    None,
                ),
            ),
        }
    } else {
        Ok(plain_with(false, m::ReturnItems::All, None))
    }
}

pub open spec fn match_in(t: Tree, gql: bool) -> Built<m::Clause>
    decreases t, 2int,
{
    match pattern_list_in(t, gql) {
        Err(f) => Err(f),
        Ok(pattern) => match where_in(t, gql) {
            Err(f) => Err(f),
            Ok(e) => Ok(
                m::Clause::Match(
                    m::MatchClause {
                        optional: holds(t, at(t, Rule::optional_marker)),
                        pattern,
                        where_: where_of(e),
                    },
                ),
            ),
        },
    }
}

pub open spec fn unwind_in(t: Tree, gql: bool) -> Built<m::Clause>
    decreases t, 1int,
{
    match child_expression_in(t, gql) {
        Err(f) => Err(f),
        Ok(expression) => match alias_in(t) {
            Err(f) => Err(f),
            Ok(None) => Err(malformed()),
            Ok(Some(variable)) => Ok(
                m::Clause::Unwind(m::UnwindClause { expression, variable }),
            ),
        },
    }
}

/// The pattern of the first `pattern` child.
pub open spec fn child_pattern_in(t: Tree, gql: bool) -> Built<m::Pattern>
    decreases t, 0int,
{
    let i = at(t, Rule::pattern);
    if holds(t, i) {
        pattern_in(t.children[i], gql)
    } else {
        Err(malformed())
    }
}

pub open spec fn merge_actions_from(ch: Seq<Tree>, i: int, gql: bool) -> Built<Seq<m::MergeAction>>
    decreases ch, ch.len() - i,
{
    if i < 0 || i >= ch.len() {
        Ok(seq![])
    } else if ch[i].rule == Rule::merge_action {
        match child_set_items_in(ch[i], gql) {
            Err(f) => Err(f),
            Ok(items) => match merge_actions_from(ch, i + 1, gql) {
                Err(f) => Err(f),
                Ok(rest) => Ok(
                    seq![
                        m::MergeAction { on_create: holds(ch[i], at(ch[i], Rule::kw_CREATE)), items },
                    ] + rest,
                ),
            },
        }
    } else {
        merge_actions_from(ch, i + 1, gql)
    }
}

pub open spec fn merge_in(t: Tree, gql: bool) -> Built<m::Clause>
    decreases t, 1int,
{
    match child_pattern_in(t, gql) {
        Err(f) => Err(f),
        Ok(pattern) => if gql {
            Ok(m::Clause::Merge(m::MergeClause { pattern, actions: seq![] }))
        } else {
            match merge_actions_from(t.children, 0, gql) {
                Err(f) => Err(f),
                Ok(actions) => Ok(m::Clause::Merge(m::MergeClause { pattern, actions })),
            }
        },
    }
}

/// The assignments of the first `set_clause` child; none where there is none.
pub open spec fn child_set_items_in(t: Tree, gql: bool) -> Built<Seq<m::SetItem>>
    decreases t, 0int,
{
    let i = at(t, Rule::set_clause);
    if holds(t, i) {
        set_items_from(t.children[i].children, 0, gql)
    } else {
        Ok(seq![])
    }
}

pub open spec fn set_items_from(ch: Seq<Tree>, i: int, gql: bool) -> Built<Seq<m::SetItem>>
    decreases ch, ch.len() - i,
{
    if i < 0 || i >= ch.len() {
        Ok(seq![])
    } else if ch[i].rule == Rule::set_item {
        match set_item_in(ch[i], gql) {
            Err(f) => Err(f),
            Ok(x) => match set_items_from(ch, i + 1, gql) {
                Err(f) => Err(f),
                Ok(rest) => Ok(seq![x] + rest),
            },
        }
    } else {
        set_items_from(ch, i + 1, gql)
    }
}

pub open spec fn set_item_in(t: Tree, gql: bool) -> Built<m::SetItem>
    decreases t, 1int,
{
    if !holds(t, 0) {
        Err(malformed())
    } else if t.children[0].rule == Rule::prop_access_expr {
        match access_in(t.children[0]) {
            Err(f) => Err(f),
            Ok(a) => match child_expression_in(t, gql) {
                Err(f) => Err(f),
                Ok(value) => Ok(
                    m::SetItem::Property { variable: a.variable, key: a.key, value },
                ),
            },
        }
    } else if t.children[0].rule == Rule::variable {
        match name_in(t.children[0]) {
            Err(f) => Err(f),
            Ok(variable) => {
                let k = at(t, Rule::map_literal);
                if holds(t, k) {
                    match entries_from(t.children[k].children, 0, gql) {
                        Err(f) => Err(f),
                        Ok(map) => Ok(m::SetItem::MergeMap { variable, map }),
                    }
                } else if !gql && holds(t, at(t, Rule::node_labels)) {
                    Ok(m::SetItem::SetLabel { variable, labels: labels_in(t, gql) })
                } else {
                    match child_expression_in(t, gql) {
                        Err(f) => Err(f),
                        Ok(value) => Ok(m::SetItem::NodeReplace { variable, value }),
                    }
                }
            },
        }
    } else {
        Err(malformed())
    }
}

pub open spec fn remove_item_in(t: Tree, gql: bool) -> Built<m::RemoveItem> {
    if !holds(t, 0) {
        Err(malformed())
    } else if t.children[0].rule == Rule::prop_access_expr {
        match access_in(t.children[0]) {
            Err(f) => Err(f),
            Ok(a) => Ok(m::RemoveItem::Property { variable: a.variable, key: a.key }),
        }
    } else if t.children[0].rule == Rule::variable {
        match name_in(t.children[0]) {
            Err(f) => Err(f),
            Ok(variable) => Ok(m::RemoveItem::Label { variable, labels: labels_in(t, gql) }),
        }
    } else {
        Err(malformed())
    }
}

pub open spec fn remove_items_from(ch: Seq<Tree>, i: int, gql: bool) -> Built<Seq<m::RemoveItem>>
    decreases ch.len() - i,
{
    if i < 0 || i >= ch.len() {
        Ok(seq![])
    } else if ch[i].rule == Rule::remove_item {
        match remove_item_in(ch[i], gql) {
            Err(f) => Err(f),
            Ok(x) => match remove_items_from(ch, i + 1, gql) {
                Err(f) => Err(f),
                Ok(rest) => Ok(seq![x] + rest),
            },
        }
    } else {
        remove_items_from(ch, i + 1, gql)
    }
}

/// The arguments of a `CALL`.
pub open spec fn call_args_in(t: Tree, gql: bool) -> Built<Seq<m::Expression>>
    decreases t, 0int,
{
    if gql {
        expressions_from(t.children, 0, gql)
    } else {
        let i = at(t, Rule::call_args);
        if holds(t, i) {
            expressions_from(t.children[i].children, 0, gql)
        } else {
            Ok(seq![])
        }
    }
}

/// The procedure that a `CALL` names.
pub open spec fn procedure_in(t: Tree) -> Seq<char> {
    let i = at(t, Rule::proc_name);
    if holds(t, i) {
        t.children[i].text
    } else {
        ""@
    }
}

pub open spec fn call_in(t: Tree, gql: bool) -> Built<m::Clause>
    decreases t, 1int,
{
    match call_args_in(t, gql) {
        Err(f) => Err(f),
        Ok(args) => match call_yields_in(t, gql) {
            Err(f) => Err(f),
            Ok(yields) => Ok(
                m::Clause::Call(m::CallClause { procedure: procedure_in(t), args, yields }),
            ),
        },
    }
}

pub open spec fn clause_in(t: Tree, gql: bool) -> Built<m::Clause>
    decreases t, 3int,
{
    match t.rule {
        Rule::match_clause => match_in(t, gql),
        Rule::with_clause => with_in(t, gql),
        Rule::return_clause => return_in(t, gql),
        Rule::unwind_clause => unwind_in(t, gql),
        Rule::create_clause => match pattern_list_in(t, gql) {
            Err(f) => Err(f),
            Ok(pattern) => Ok(m::Clause::Create(m::CreateClause { pattern })),
        },
        Rule::merge_clause => merge_in(t, gql),
        Rule::set_clause => match set_items_from(t.children, 0, gql) {
            Err(f) => Err(f),
            Ok(items) => Ok(m::Clause::SetItems(m::SetClause { items })),
        },
        Rule::delete_clause => match expressions_from(t.children, 0, gql) {
            Err(f) => Err(f),
            Ok(expressions) => Ok(
                m::Clause::Delete(
                    m::DeleteClause { detach: holds(t, at(t, Rule::detach_marker)), expressions },
                ),
            ),
        },
        Rule::remove_clause => match remove_items_from(t.children, 0, gql) {
            Err(f) => Err(f),
            Ok(items) => Ok(m::Clause::Remove(m::RemoveClause { items })),
        },
        Rule::call_clause => call_in(t, gql),
        Rule::call_subquery => Err(unsupported("CALL { } subquery"@)),
        Rule::foreach_clause => Err(unsupported("FOREACH clause"@)),
        Rule::filter_clause => match child_expression_in(t, gql) {
            Err(f) => Err(f),
            Ok(e) => Ok(plain_with(false, m::ReturnItems::All, Some(e))),
        },
        Rule::next_clause => next_in(t, gql),
        _ => Err(malformed()),
    }
}

/// The clauses of a Cypher statement: those of its single queries, with a
/// `UNION` between each two.
pub open spec fn statement_from(ch: Seq<Tree>, i: int) -> Built<Seq<m::Clause>>
    decreases ch.len() - i,
{
    if i < 0 || i >= ch.len() {
        Ok(seq![])
    } else {
        let first = match ch[i].rule {
            Rule::single_query => clauses_from(ch[i].children, 0, false),
            Rule::union_marker => Ok(
                seq![m::Clause::Union { all: holds(ch[i], at(ch[i], Rule::kw_ALL)) }],
            ),
            _ => Ok(seq![]),
        };
        match first {
            Err(f) => Err(f),
            Ok(c) => match statement_from(ch, i + 1) {
                Err(f) => Err(f),
                Ok(rest) => Ok(c + rest),
            },
        }
    }
}

/// The clauses of the query that a whole parse tree stands for.
pub open spec fn query_in(t: Tree, gql: bool) -> Built<Seq<m::Clause>> {
    let i = at(t, Rule::statement);
    if !holds(t, i) {
        Err(malformed())
    } else if gql {
        clauses_from(t.children[i].children, 0, gql)
    } else {
        statement_from(t.children[i].children, 0)
    }
}

} // verus!
