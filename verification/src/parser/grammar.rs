//! The grammars of Cypher and of GQL.
//!
//! `body_of` says of each rule what it describes. A token is a rule between
//! whose parts no blanks stand, and which keeps no nodes below it.
use vstd::prelude::*;

use crate::parser::peg::{Class, Peg};
use crate::parser::tree::Rule;

verus! {

// ── Parsing expressions ──────────────────────────────────────────────────────

#[verifier::allow_in_spec]
pub fn word(t: &'static str) -> Peg
    returns
        Peg::Word(t),
{
    Peg::Word(t)
}

#[verifier::allow_in_spec]
pub fn one(k: Class) -> Peg
    returns
        Peg::One(k),
{
    Peg::One(k)
}

#[verifier::allow_in_spec]
pub fn call(r: Rule) -> Peg
    returns
        Peg::Call(r),
{
    Peg::Call(r)
}

#[verifier::allow_in_spec]
pub fn both(a: Peg, b: Peg) -> Peg
    returns
        Peg::Then(Box::new(a), Box::new(b)),
{
    Peg::Then(Box::new(a), Box::new(b))
}

#[verifier::allow_in_spec]
pub fn either(a: Peg, b: Peg) -> Peg
    returns
        Peg::Or(Box::new(a), Box::new(b)),
{
    Peg::Or(Box::new(a), Box::new(b))
}

#[verifier::allow_in_spec]
pub fn many(a: Peg) -> Peg
    returns
        Peg::Many(Box::new(a)),
{
    Peg::Many(Box::new(a))
}

#[verifier::allow_in_spec]
pub fn maybe(a: Peg) -> Peg
    returns
        Peg::Maybe(Box::new(a)),
{
    Peg::Maybe(Box::new(a))
}

#[verifier::allow_in_spec]
pub fn unless(a: Peg) -> Peg
    returns
        Peg::Not(Box::new(a)),
{
    Peg::Not(Box::new(a))
}

#[verifier::allow_in_spec]
pub fn nothing() -> Peg
    returns
        Peg::Nothing,
{
    Peg::Nothing
}

#[verifier::allow_in_spec]
pub fn end() -> Peg
    returns
        Peg::End,
{
    Peg::End
}

#[verifier::allow_in_spec]
pub fn all3(a: Peg, b: Peg, c: Peg) -> Peg
    returns
        both(a, both(b, c)),
{
    both(a, both(b, c))
}

#[verifier::allow_in_spec]
pub fn all4(a: Peg, b: Peg, c: Peg, d: Peg) -> Peg
    returns
        both(a, both(b, both(c, d))),
{
    both(a, both(b, both(c, d)))
}

#[verifier::allow_in_spec]
pub fn all5(a: Peg, b: Peg, c: Peg, d: Peg, e: Peg) -> Peg
    returns
        both(a, both(b, both(c, both(d, e)))),
{
    both(a, both(b, both(c, both(d, e))))
}

#[verifier::allow_in_spec]
pub fn all6(a: Peg, b: Peg, c: Peg, d: Peg, e: Peg, f: Peg) -> Peg
    returns
        both(a, both(b, both(c, both(d, both(e, f))))),
{
    both(a, both(b, both(c, both(d, both(e, f)))))
}

#[verifier::allow_in_spec]
pub fn any3(a: Peg, b: Peg, c: Peg) -> Peg
    returns
        either(a, either(b, c)),
{
    either(a, either(b, c))
}

#[verifier::allow_in_spec]
pub fn any4(a: Peg, b: Peg, c: Peg, d: Peg) -> Peg
    returns
        either(a, either(b, either(c, d))),
{
    either(a, either(b, either(c, d)))
}

#[verifier::allow_in_spec]
pub fn any5(a: Peg, b: Peg, c: Peg, d: Peg, e: Peg) -> Peg
    returns
        either(a, either(b, either(c, either(d, e)))),
{
    either(a, either(b, either(c, either(d, e))))
}

#[verifier::allow_in_spec]
pub fn any6(a: Peg, b: Peg, c: Peg, d: Peg, e: Peg, f: Peg) -> Peg
    returns
        either(a, either(b, either(c, either(d, either(e, f))))),
{
    either(a, either(b, either(c, either(d, either(e, f)))))
}

/// A word that no character of a name follows.
#[verifier::allow_in_spec]
pub fn keyword(w: &'static str) -> Peg
    returns
        both(word(w), unless(one(Class::NamePart))),
{
    both(word(w), unless(one(Class::NamePart)))
}

/// What a rule describes, once or more often, with commas between.
#[verifier::allow_in_spec]
pub fn commas(r: Rule) -> Peg
    returns
        both(call(r), many(both(word(","), call(r)))),
{
    both(call(r), many(both(word(","), call(r))))
}

// ── Rules ────────────────────────────────────────────────────────────────────

/// The words that no variable can be named by.
pub open spec fn reserved_words() -> Peg {
    any6(
        keyword("AND"),
        keyword("AS"),
        keyword("ASC"),
        keyword("ASCENDING"),
        keyword("BY"),
        any6(
            keyword("CASE"),
            keyword("CONTAINS"),
            keyword("CREATE"),
            keyword("DELETE"),
            keyword("DESC"),
            any6(
                keyword("DESCENDING"),
                keyword("DETACH"),
                keyword("DISTINCT"),
                keyword("ELSE"),
                keyword("END"),
                any6(
                    keyword("ENDS"),
                    keyword("FALSE"),
                    keyword("IN"),
                    keyword("IS"),
                    keyword("LIMIT"),
                    any6(
                        keyword("MATCH"),
                        keyword("MERGE"),
                        keyword("NOT"),
                        keyword("NULL"),
                        keyword("ON"),
                        any6(
                            keyword("OPTIONAL"),
                            keyword("OR"),
                            keyword("ORDER"),
                            keyword("REMOVE"),
                            keyword("RETURN"),
                            any6(
                                keyword("SET"),
                                keyword("SKIP"),
                                keyword("STARTS"),
                                keyword("THEN"),
                                keyword("TRUE"),
                                any6(
                                    keyword("UNION"),
                                    keyword("UNWIND"),
                                    keyword("WHEN"),
                                    keyword("WHERE"),
                                    keyword("WITH"),
                                    keyword("XOR"),
                                ),
                            ),
                        ),
                    ),
                ),
            ),
        ),
    )
}

pub fn reserved() -> (p: Peg)
    ensures
        p == reserved_words(),
{
    any6(
        keyword("AND"),
        keyword("AS"),
        keyword("ASC"),
        keyword("ASCENDING"),
        keyword("BY"),
        any6(
            keyword("CASE"),
            keyword("CONTAINS"),
            keyword("CREATE"),
            keyword("DELETE"),
            keyword("DESC"),
            any6(
                keyword("DESCENDING"),
                keyword("DETACH"),
                keyword("DISTINCT"),
                keyword("ELSE"),
                keyword("END"),
                any6(
                    keyword("ENDS"),
                    keyword("FALSE"),
                    keyword("IN"),
                    keyword("IS"),
                    keyword("LIMIT"),
                    any6(
                        keyword("MATCH"),
                        keyword("MERGE"),
                        keyword("NOT"),
                        keyword("NULL"),
                        keyword("ON"),
                        any6(
                            keyword("OPTIONAL"),
                            keyword("OR"),
                            keyword("ORDER"),
                            keyword("REMOVE"),
                            keyword("RETURN"),
                            any6(
                                keyword("SET"),
                                keyword("SKIP"),
                                keyword("STARTS"),
                                keyword("THEN"),
                                keyword("TRUE"),
                                any6(
                                    keyword("UNION"),
                                    keyword("UNWIND"),
                                    keyword("WHEN"),
                                    keyword("WHERE"),
                                    keyword("WITH"),
                                    keyword("XOR"),
                                ),
                            ),
                        ),
                    ),
                ),
            ),
        ),
    )
}

/// Whether the case of letters matters in what the rule matches: names, and
/// literals that are taken as they are written.
pub open spec fn keeps_case(r: Rule) -> bool {
    match r {
        Rule::float_literal => true,
        Rule::func_name => true,
        Rule::gql_label_name => true,
        Rule::hex_integer_literal => true,
        Rule::ident => true,
        Rule::ident_escaped => true,
        Rule::integer_literal => true,
        Rule::legacy_parameter => true,
        Rule::octal_integer_literal => true,
        Rule::parameter => true,
        Rule::proc_name => true,
        Rule::prop_name => true,
        Rule::rel_type_elem => true,
        Rule::schema_name => true,
        Rule::string_literal => true,
        _ => false,
    }
}

pub fn is_case_kept(r: Rule) -> (b: bool)
    ensures
        b == keeps_case(r),
{
    match r {
        Rule::float_literal => true,
        Rule::func_name => true,
        Rule::gql_label_name => true,
        Rule::hex_integer_literal => true,
        Rule::ident => true,
        Rule::ident_escaped => true,
        Rule::integer_literal => true,
        Rule::legacy_parameter => true,
        Rule::octal_integer_literal => true,
        Rule::parameter => true,
        Rule::proc_name => true,
        Rule::prop_name => true,
        Rule::rel_type_elem => true,
        Rule::schema_name => true,
        Rule::string_literal => true,
        _ => false,
    }
}

/// Whether the rule is a token.
pub open spec fn is_token(r: Rule) -> bool {
    match r {
        Rule::add_sub_op => true,
        Rule::agg_func_name => true,
        Rule::boolean_literal => true,
        Rule::comp_op => true,
        Rule::count_star => true,
        Rule::float_literal => true,
        Rule::full_arrow => true,
        Rule::func_name => true,
        Rule::gql_label_name => true,
        Rule::hex_integer_literal => true,
        Rule::ident => true,
        Rule::ident_escaped => true,
        Rule::integer_literal => true,
        Rule::kw_ALL => true,
        Rule::kw_AND => true,
        Rule::kw_ANY => true,
        Rule::kw_AS => true,
        Rule::kw_ASC => true,
        Rule::kw_ASCENDING => true,
        Rule::kw_BY => true,
        Rule::kw_CALL => true,
        Rule::kw_CASE => true,
        Rule::kw_CONTAINS => true,
        Rule::kw_COUNT => true,
        Rule::kw_CREATE => true,
        Rule::kw_DELETE => true,
        Rule::kw_DESC => true,
        Rule::kw_DESCENDING => true,
        Rule::kw_DETACH => true,
        Rule::kw_DISTINCT => true,
        Rule::kw_ELSE => true,
        Rule::kw_END => true,
        Rule::kw_ENDS => true,
        Rule::kw_EXISTS => true,
        Rule::kw_FILTER => true,
        Rule::kw_FOREACH => true,
        Rule::kw_IN => true,
        Rule::kw_IS => true,
        Rule::kw_LIMIT => true,
        Rule::kw_MATCH => true,
        Rule::kw_MERGE => true,
        Rule::kw_NEXT => true,
        Rule::kw_NONE => true,
        Rule::kw_NOT => true,
        Rule::kw_NULL => true,
        Rule::kw_ON => true,
        Rule::kw_OPTIONAL => true,
        Rule::kw_OR => true,
        Rule::kw_ORDER => true,
        Rule::kw_REMOVE => true,
        Rule::kw_RETURN => true,
        Rule::kw_SET => true,
        Rule::kw_SINGLE => true,
        Rule::kw_SKIP => true,
        Rule::kw_STARTS => true,
        Rule::kw_THEN => true,
        Rule::kw_UNION => true,
        Rule::kw_UNWIND => true,
        Rule::kw_WHEN => true,
        Rule::kw_WHERE => true,
        Rule::kw_WITH => true,
        Rule::kw_WITH_kw => true,
        Rule::kw_XOR => true,
        Rule::kw_YIELD => true,
        Rule::left_arrow => true,
        Rule::mul_div_op => true,
        Rule::null_literal => true,
        Rule::octal_integer_literal => true,
        Rule::parameter => true,
        Rule::proc_name => true,
        Rule::prop_name => true,
        Rule::regex_op => true,
        Rule::rel_dash => true,
        Rule::rel_type_elem => true,
        Rule::reserved_word => true,
        Rule::right_arrow => true,
        Rule::schema_name => true,
        Rule::star_projection => true,
        Rule::string_literal => true,
        Rule::yield_star => true,
        _ => false,
    }
}

pub fn is_token_rule(r: Rule) -> (b: bool)
    ensures
        b == is_token(r),
{
    match r {
        Rule::add_sub_op => true,
        Rule::agg_func_name => true,
        Rule::boolean_literal => true,
        Rule::comp_op => true,
        Rule::count_star => true,
        Rule::float_literal => true,
        Rule::full_arrow => true,
        Rule::func_name => true,
        Rule::gql_label_name => true,
        Rule::hex_integer_literal => true,
        Rule::ident => true,
        Rule::ident_escaped => true,
        Rule::integer_literal => true,
        Rule::kw_ALL => true,
        Rule::kw_AND => true,
        Rule::kw_ANY => true,
        Rule::kw_AS => true,
        Rule::kw_ASC => true,
        Rule::kw_ASCENDING => true,
        Rule::kw_BY => true,
        Rule::kw_CALL => true,
        Rule::kw_CASE => true,
        Rule::kw_CONTAINS => true,
        Rule::kw_COUNT => true,
        Rule::kw_CREATE => true,
        Rule::kw_DELETE => true,
        Rule::kw_DESC => true,
        Rule::kw_DESCENDING => true,
        Rule::kw_DETACH => true,
        Rule::kw_DISTINCT => true,
        Rule::kw_ELSE => true,
        Rule::kw_END => true,
        Rule::kw_ENDS => true,
        Rule::kw_EXISTS => true,
        Rule::kw_FILTER => true,
        Rule::kw_FOREACH => true,
        Rule::kw_IN => true,
        Rule::kw_IS => true,
        Rule::kw_LIMIT => true,
        Rule::kw_MATCH => true,
        Rule::kw_MERGE => true,
        Rule::kw_NEXT => true,
        Rule::kw_NONE => true,
        Rule::kw_NOT => true,
        Rule::kw_NULL => true,
        Rule::kw_ON => true,
        Rule::kw_OPTIONAL => true,
        Rule::kw_OR => true,
        Rule::kw_ORDER => true,
        Rule::kw_REMOVE => true,
        Rule::kw_RETURN => true,
        Rule::kw_SET => true,
        Rule::kw_SINGLE => true,
        Rule::kw_SKIP => true,
        Rule::kw_STARTS => true,
        Rule::kw_THEN => true,
        Rule::kw_UNION => true,
        Rule::kw_UNWIND => true,
        Rule::kw_WHEN => true,
        Rule::kw_WHERE => true,
        Rule::kw_WITH => true,
        Rule::kw_WITH_kw => true,
        Rule::kw_XOR => true,
        Rule::kw_YIELD => true,
        Rule::left_arrow => true,
        Rule::mul_div_op => true,
        Rule::null_literal => true,
        Rule::octal_integer_literal => true,
        Rule::parameter => true,
        Rule::proc_name => true,
        Rule::prop_name => true,
        Rule::regex_op => true,
        Rule::rel_dash => true,
        Rule::rel_type_elem => true,
        Rule::reserved_word => true,
        Rule::right_arrow => true,
        Rule::schema_name => true,
        Rule::star_projection => true,
        Rule::string_literal => true,
        Rule::yield_star => true,
        _ => false,
    }
}

/// What a rule describes in a dialect.
pub open spec fn body_of(r: Rule, gql: bool) -> Peg {
    match r {
        Rule::add_sub_expr => both(
            call(Rule::mul_div_expr),
            many(both(call(Rule::add_sub_op), call(Rule::mul_div_expr))),
        ),
        Rule::add_sub_op => either(word("+"), word("-")),
        Rule::agg_call_expr => all5(
            call(Rule::agg_func_name),
            word("("),
            maybe(call(Rule::kw_DISTINCT)),
            call(Rule::expression),
            word(")"),
        ),
        Rule::agg_func_name => any5(
            keyword("SUM"),
            keyword("AVG"),
            keyword("MIN"),
            keyword("MAX"),
            keyword("COLLECT"),
        ),
        Rule::aggregate_expr => either(call(Rule::count_expr), call(Rule::agg_call_expr)),
        Rule::and_expr => both(call(Rule::not_expr), many(both(call(Rule::kw_AND), call(Rule::not_expr)))),
        Rule::anonymous_pattern_part => either(call(Rule::shortest_path_pattern), call(Rule::pattern_element)),
        Rule::atom => if gql {
            any6(
                call(Rule::float_literal),
                call(Rule::integer_literal),
                call(Rule::string_literal),
                call(Rule::boolean_literal),
                call(Rule::null_literal),
                any5(
                    call(Rule::aggregate_expr),
                    call(Rule::list_literal),
                    call(Rule::map_literal),
                    all3(word("("), call(Rule::expression), word(")")),
                    call(Rule::variable),
                ),
            )
        } else {
            any6(
                call(Rule::float_literal),
                call(Rule::hex_integer_literal),
                call(Rule::octal_integer_literal),
                call(Rule::integer_literal),
                call(Rule::string_literal),
                any6(
                    call(Rule::boolean_literal),
                    call(Rule::null_literal),
                    call(Rule::parameter),
                    call(Rule::legacy_parameter),
                    call(Rule::aggregate_expr),
                    any6(
                        call(Rule::case_expression),
                        call(Rule::reduce_expr),
                        call(Rule::exists_subquery),
                        call(Rule::shortest_path_atom),
                        call(Rule::quantifier_expr),
                        any6(
                            call(Rule::list_comprehension),
                            call(Rule::pattern_comprehension),
                            call(Rule::list_literal),
                            call(Rule::map_literal),
                            call(Rule::pattern_predicate),
                            any4(
                                all3(word("("), call(Rule::expression), word(")")),
                                call(Rule::function_call),
                                call(Rule::label_check),
                                call(Rule::variable),
                            ),
                        ),
                    ),
                ),
            )
        },
        Rule::boolean_literal => either(keyword("TRUE"), keyword("FALSE")),
        Rule::call_args => commas(Rule::expression),
        Rule::call_clause => if gql {
            all4(
                call(Rule::kw_CALL),
                call(Rule::proc_name),
                maybe(all3(word("("), maybe(commas(Rule::expression)), word(")"))),
                maybe(both(call(Rule::kw_YIELD), call(Rule::yield_items))),
            )
        } else {
            all4(
                call(Rule::kw_CALL),
                call(Rule::proc_name),
                maybe(all3(word("("), maybe(call(Rule::call_args)), word(")"))),
                maybe(call(Rule::yield_clause)),
            )
        },
        Rule::call_subquery => all4(call(Rule::kw_CALL), word("{"), call(Rule::statement), word("}")),
        Rule::case_expression => all5(
            call(Rule::kw_CASE),
            maybe(call(Rule::expression)),
            both(call(Rule::case_when), many(call(Rule::case_when))),
            maybe(both(call(Rule::kw_ELSE), call(Rule::expression))),
            call(Rule::kw_END),
        ),
        Rule::case_when => all4(
            call(Rule::kw_WHEN),
            call(Rule::expression),
            call(Rule::kw_THEN),
            call(Rule::expression),
        ),
        Rule::chain_link => both(call(Rule::rel_pattern), call(Rule::node_pattern)),
        Rule::clause => if gql {
            any6(
                call(Rule::match_clause),
                call(Rule::filter_clause),
                call(Rule::return_clause),
                call(Rule::next_clause),
                call(Rule::unwind_clause),
                any6(
                    call(Rule::create_clause),
                    call(Rule::merge_clause),
                    call(Rule::set_clause),
                    call(Rule::delete_clause),
                    call(Rule::remove_clause),
                    call(Rule::call_clause),
                ),
            )
        } else {
            any6(
                call(Rule::match_clause),
                call(Rule::with_clause),
                call(Rule::return_clause),
                call(Rule::unwind_clause),
                call(Rule::create_clause),
                any6(
                    call(Rule::merge_clause),
                    call(Rule::set_clause),
                    call(Rule::delete_clause),
                    call(Rule::remove_clause),
                    call(Rule::call_subquery),
                    either(call(Rule::call_clause), call(Rule::foreach_clause)),
                ),
            )
        },
        Rule::colon_type_list => all3(
            word(":"),
            call(Rule::rel_type_elem),
            many(all3(word("|"), maybe(word(":")), call(Rule::rel_type_elem))),
        ),
        Rule::comp_op => any6(word("<>"), word("<="), word(">="), word("="), word("<"), word(">")),
        Rule::comparison_expr => if gql {
            both(call(Rule::add_sub_expr), maybe(call(Rule::comparison_suffix)))
        } else {
            both(call(Rule::add_sub_expr), many(call(Rule::comparison_suffix)))
        },
        Rule::comparison_suffix => if gql {
            any6(
                both(call(Rule::comp_op), call(Rule::add_sub_expr)),
                all3(call(Rule::kw_IS), call(Rule::kw_NOT), call(Rule::kw_NULL)),
                both(call(Rule::kw_IS), call(Rule::kw_NULL)),
                both(call(Rule::kw_IN), call(Rule::add_sub_expr)),
                all3(
                    call(Rule::kw_STARTS),
                    call(Rule::kw_WITH_kw),
                    call(Rule::add_sub_expr),
                ),
                either(
                    all3(
                        call(Rule::kw_ENDS),
                        call(Rule::kw_WITH_kw),
                        call(Rule::add_sub_expr),
                    ),
                    both(call(Rule::kw_CONTAINS), call(Rule::add_sub_expr)),
                ),
            )
        } else {
            any6(
                both(call(Rule::regex_op), call(Rule::add_sub_expr)),
                both(call(Rule::comp_op), call(Rule::comparison_expr)),
                all3(call(Rule::kw_IS), call(Rule::kw_NOT), call(Rule::kw_NULL)),
                both(call(Rule::kw_IS), call(Rule::kw_NULL)),
                both(call(Rule::kw_IN), call(Rule::add_sub_expr)),
                any4(
                    all3(call(Rule::kw_NOT), call(Rule::kw_IN), call(Rule::add_sub_expr)),
                    all3(
                        call(Rule::kw_STARTS),
                        call(Rule::kw_WITH),
                        call(Rule::add_sub_expr),
                    ),
                    all3(call(Rule::kw_ENDS), call(Rule::kw_WITH), call(Rule::add_sub_expr)),
                    both(call(Rule::kw_CONTAINS), call(Rule::add_sub_expr)),
                ),
            )
        },
        Rule::count_expr => all4(
            call(Rule::kw_COUNT),
            word("("),
            either(
                call(Rule::count_star),
                both(maybe(call(Rule::kw_DISTINCT)), call(Rule::expression)),
            ),
            word(")"),
        ),
        Rule::count_star => word("*"),
        Rule::create_clause => both(call(Rule::kw_CREATE), call(Rule::pattern_list)),
        Rule::delete_clause => all3(
            maybe(call(Rule::detach_marker)),
            call(Rule::kw_DELETE),
            commas(Rule::expression),
        ),
        Rule::detach_marker => call(Rule::kw_DETACH),
        Rule::distinct_marker => call(Rule::kw_DISTINCT),
        Rule::exists_subquery => all4(
            call(Rule::kw_EXISTS),
            word("{"),
            either(
                call(Rule::statement),
                both(call(Rule::pattern_list), maybe(call(Rule::where_clause))),
            ),
            word("}"),
        ),
        Rule::explicit_items => commas(Rule::return_item),
        Rule::expression => call(Rule::or_expr),
        Rule::filter_clause => both(either(call(Rule::kw_WHERE), call(Rule::kw_FILTER)), call(Rule::expression)),
        Rule::filter_expression => all4(
            call(Rule::variable),
            call(Rule::kw_IN),
            call(Rule::expression),
            maybe(both(call(Rule::kw_WHERE), call(Rule::expression))),
        ),
        Rule::float_literal => either(
            all4(
                maybe(both(one(Class::Digit), many(one(Class::Digit)))),
                word("."),
                both(one(Class::Digit), many(one(Class::Digit))),
                maybe(
                    all3(
                        word("e"),
                        maybe(either(word("+"), word("-"))),
                        both(one(Class::Digit), many(one(Class::Digit))),
                    ),
                ),
            ),
            both(
                both(one(Class::Digit), many(one(Class::Digit))),
                all3(
                    word("e"),
                    maybe(either(word("+"), word("-"))),
                    both(one(Class::Digit), many(one(Class::Digit))),
                ),
            ),
        ),
        Rule::foreach_clause => all6(
            call(Rule::kw_FOREACH),
            word("("),
            call(Rule::variable),
            call(Rule::kw_IN),
            call(Rule::expression),
            all3(word("|"), both(call(Rule::clause), many(call(Rule::clause))), word(")")),
        ),
        Rule::full_arrow => word("<-->"),
        Rule::func_name => both(
            unless(call(Rule::reserved_word)),
            both(
                many(both(either(call(Rule::ident_escaped), call(Rule::ident)), word("."))),
                either(call(Rule::ident_escaped), call(Rule::ident)),
            ),
        ),
        Rule::function_call => all4(
            call(Rule::func_name),
            word("("),
            maybe(both(maybe(call(Rule::kw_DISTINCT)), commas(Rule::expression))),
            word(")"),
        ),
        Rule::gql_is_labels => all3(
            call(Rule::kw_IS),
            call(Rule::gql_label_name),
            many(both(word("&"), call(Rule::gql_label_name))),
        ),
        Rule::gql_label_more => all3(
            any3(word(":"), word("|"), word("&")),
            maybe(word("!")),
            call(Rule::schema_name),
        ),
        Rule::gql_label_name => either(call(Rule::ident_escaped), call(Rule::ident)),
        Rule::hex_integer_literal => both(
            word("0x"),
            both(one(Class::HexDigit), many(one(Class::HexDigit))),
        ),
        Rule::ident => both(one(Class::NameStart), many(one(Class::NamePart))),
        Rule::ident_escaped => all4(word("`"), one(Class::InTicks), many(one(Class::InTicks)), word("`")),
        Rule::integer_literal => both(one(Class::Digit), many(one(Class::Digit))),
        Rule::is_type_list => all3(
            call(Rule::kw_IS),
            call(Rule::rel_type_elem),
            many(both(either(word("|"), word("&")), call(Rule::rel_type_elem))),
        ),
        Rule::kw_ALL => keyword("ALL"),
        Rule::kw_ANY => keyword("ANY"),
        Rule::kw_AS => keyword("AS"),
        Rule::kw_ASC => keyword("ASC"),
        Rule::kw_ASCENDING => keyword("ASCENDING"),
        Rule::kw_BY => keyword("BY"),
        Rule::kw_CALL => keyword("CALL"),
        Rule::kw_CASE => keyword("CASE"),
        Rule::kw_CONTAINS => keyword("CONTAINS"),
        Rule::kw_COUNT => keyword("COUNT"),
        Rule::kw_CREATE => keyword("CREATE"),
        Rule::kw_DELETE => keyword("DELETE"),
        Rule::kw_DESC => keyword("DESC"),
        Rule::kw_DESCENDING => keyword("DESCENDING"),
        Rule::kw_DETACH => keyword("DETACH"),
        Rule::kw_DISTINCT => keyword("DISTINCT"),
        Rule::kw_ELSE => keyword("ELSE"),
        Rule::kw_END => keyword("END"),
        Rule::kw_ENDS => keyword("ENDS"),
        Rule::kw_EXISTS => keyword("EXISTS"),
        Rule::kw_FILTER => keyword("FILTER"),
        Rule::kw_FOREACH => keyword("FOREACH"),
        Rule::kw_IN => keyword("IN"),
        Rule::kw_IS => keyword("IS"),
        Rule::kw_LIMIT => keyword("LIMIT"),
        Rule::kw_MATCH => keyword("MATCH"),
        Rule::kw_MERGE => keyword("MERGE"),
        Rule::kw_NEXT => keyword("NEXT"),
        Rule::kw_NONE => keyword("NONE"),
        Rule::kw_NOT => keyword("NOT"),
        Rule::kw_NULL => keyword("NULL"),
        Rule::kw_ON => keyword("ON"),
        Rule::kw_OPTIONAL => keyword("OPTIONAL"),
        Rule::kw_OR => keyword("OR"),
        Rule::kw_AND => keyword("AND"),
        Rule::kw_XOR => keyword("XOR"),
        Rule::kw_ORDER => keyword("ORDER"),
        Rule::kw_REMOVE => keyword("REMOVE"),
        Rule::kw_RETURN => keyword("RETURN"),
        Rule::kw_SET => keyword("SET"),
        Rule::kw_SINGLE => keyword("SINGLE"),
        Rule::kw_SKIP => keyword("SKIP"),
        Rule::kw_STARTS => keyword("STARTS"),
        Rule::kw_THEN => keyword("THEN"),
        Rule::kw_UNION => keyword("UNION"),
        Rule::kw_UNWIND => keyword("UNWIND"),
        Rule::kw_WHEN => keyword("WHEN"),
        Rule::kw_WHERE => keyword("WHERE"),
        Rule::kw_WITH => keyword("WITH"),
        Rule::kw_WITH_kw => keyword("WITH"),
        Rule::kw_YIELD => keyword("YIELD"),
        Rule::label_check => both(call(Rule::variable), call(Rule::node_labels)),
        Rule::left_arrow => word("<-"),
        Rule::legacy_parameter => all3(
            word("{"),
            either(
                either(call(Rule::ident_escaped), call(Rule::ident)),
                both(one(Class::Digit), many(one(Class::Digit))),
            ),
            word("}"),
        ),
        Rule::limit_clause => both(call(Rule::kw_LIMIT), call(Rule::expression)),
        Rule::list_comprehension => all4(
            word("["),
            call(Rule::filter_expression),
            maybe(both(word("|"), call(Rule::expression))),
            word("]"),
        ),
        Rule::list_literal => all3(word("["), maybe(commas(Rule::expression)), word("]")),
        Rule::map_entry => all3(call(Rule::prop_name), word(":"), call(Rule::expression)),
        Rule::map_literal => all3(word("{"), maybe(commas(Rule::map_entry)), word("}")),
        Rule::match_clause => if gql {
            all4(
                maybe(call(Rule::optional_marker)),
                call(Rule::kw_MATCH),
                call(Rule::pattern_list),
                maybe(call(Rule::match_where)),
            )
        } else {
            all4(
                maybe(call(Rule::optional_marker)),
                call(Rule::kw_MATCH),
                call(Rule::pattern_list),
                maybe(call(Rule::where_clause)),
            )
        },
        Rule::match_where => both(call(Rule::kw_WHERE), call(Rule::expression)),
        Rule::merge_action => all3(
            call(Rule::kw_ON),
            either(call(Rule::kw_MATCH), call(Rule::kw_CREATE)),
            call(Rule::set_clause),
        ),
        Rule::merge_clause => if gql {
            both(call(Rule::kw_MERGE), call(Rule::pattern))
        } else {
            all3(call(Rule::kw_MERGE), call(Rule::pattern), many(call(Rule::merge_action)))
        },
        Rule::mul_div_expr => if gql {
            both(
                call(Rule::unary_expr),
                many(both(call(Rule::mul_div_op), call(Rule::unary_expr))),
            )
        } else {
            both(
                call(Rule::power_expr),
                many(both(call(Rule::mul_div_op), call(Rule::power_expr))),
            )
        },
        Rule::mul_div_op => any3(word("*"), word("/"), word("%")),
        Rule::next_clause => both(
            call(Rule::kw_NEXT),
            maybe(both(call(Rule::kw_WITH_kw), call(Rule::return_body))),
        ),
        Rule::node_label => if gql {
            both(word(":"), either(call(Rule::ident_escaped), call(Rule::ident)))
        } else {
            all3(word(":"), maybe(word("!")), call(Rule::schema_name))
        },
        Rule::node_labels => if gql {
            both(call(Rule::node_label), many(call(Rule::node_label)))
        } else {
            both(call(Rule::node_label), many(call(Rule::gql_label_more)))
        },
        Rule::node_pattern => if gql {
            all6(
                word("("),
                maybe(call(Rule::variable)),
                maybe(call(Rule::node_labels)),
                maybe(call(Rule::gql_is_labels)),
                maybe(call(Rule::properties)),
                word(")"),
            )
        } else {
            all6(
                word("("),
                maybe(call(Rule::variable)),
                maybe(call(Rule::node_labels)),
                maybe(call(Rule::properties)),
                maybe(call(Rule::where_clause)),
                word(")"),
            )
        },
        Rule::node_pattern_chain => both(call(Rule::node_pattern), many(call(Rule::chain_link))),
        Rule::non_arith_expr => all3(
            call(Rule::atom),
            many(
                any3(
                    call(Rule::property_lookup),
                    call(Rule::slice_access),
                    call(Rule::subscript_access),
                ),
            ),
            maybe(call(Rule::node_labels)),
        ),
        Rule::not_expr => either(both(call(Rule::kw_NOT), call(Rule::not_expr)), call(Rule::comparison_expr)),
        Rule::null_literal => keyword("NULL"),
        Rule::octal_integer_literal => both(
            word("0o"),
            both(one(Class::OctalDigit), many(one(Class::OctalDigit))),
        ),
        Rule::optional_marker => call(Rule::kw_OPTIONAL),
        Rule::or_expr => both(call(Rule::xor_expr), many(both(call(Rule::kw_OR), call(Rule::xor_expr)))),
        Rule::order_by_clause => all3(call(Rule::kw_ORDER), call(Rule::kw_BY), commas(Rule::sort_item)),
        Rule::parameter => both(
            word("$"),
            either(
                either(call(Rule::ident_escaped), call(Rule::ident)),
                both(one(Class::Digit), many(one(Class::Digit))),
            ),
        ),
        Rule::pattern => if gql {
            both(
                maybe(both(call(Rule::variable), word("="))),
                call(Rule::node_pattern_chain),
            )
        } else {
            both(
                maybe(both(call(Rule::variable), word("="))),
                call(Rule::anonymous_pattern_part),
            )
        },
        Rule::pattern_comprehension => all6(
            word("["),
            maybe(both(call(Rule::variable), word("="))),
            call(Rule::relationships_pattern),
            maybe(both(call(Rule::kw_WHERE), call(Rule::expression))),
            word("|"),
            both(call(Rule::expression), word("]")),
        ),
        Rule::pattern_element => either(
            both(call(Rule::node_pattern), many(call(Rule::pattern_element_chain))),
            all3(word("("), call(Rule::pattern_element), word(")")),
        ),
        Rule::pattern_element_chain => both(call(Rule::rel_pattern), call(Rule::node_pattern)),
        Rule::pattern_list => commas(Rule::pattern),
        Rule::pattern_predicate => call(Rule::relationships_pattern),
        Rule::power_expr => if gql {
            both(call(Rule::prop_expr), maybe(both(word("^"), call(Rule::unary_expr))))
        } else {
            both(call(Rule::unary_expr), many(both(word("^"), call(Rule::unary_expr))))
        },
        Rule::proc_name => both(
            many(both(either(call(Rule::ident_escaped), call(Rule::ident)), word("."))),
            either(call(Rule::ident_escaped), call(Rule::ident)),
        ),
        Rule::projection_body => all5(
            maybe(call(Rule::distinct_marker)),
            call(Rule::return_items),
            maybe(call(Rule::order_by_clause)),
            maybe(call(Rule::skip_clause)),
            maybe(call(Rule::limit_clause)),
        ),
        Rule::prop_access_expr => if gql {
            all3(call(Rule::variable), word("."), call(Rule::prop_name))
        } else {
            all3(
                either(
                    call(Rule::variable),
                    all3(word("("), call(Rule::variable), word(")")),
                ),
                word("."),
                call(Rule::prop_name),
            )
        },
        Rule::prop_expr => both(call(Rule::atom), many(call(Rule::property_lookup))),
        Rule::prop_name => either(call(Rule::ident_escaped), call(Rule::ident)),
        Rule::properties => call(Rule::map_literal),
        Rule::property_lookup => both(word("."), call(Rule::prop_name)),
        Rule::quantifier_expr => all4(
            any4(
                call(Rule::kw_ALL),
                call(Rule::kw_ANY),
                call(Rule::kw_NONE),
                call(Rule::kw_SINGLE),
            ),
            word("("),
            call(Rule::filter_expression),
            word(")"),
        ),
        Rule::query => all4(nothing(), call(Rule::statement), maybe(word(";")), end()),
        Rule::range_literal => all3(
            word("*"),
            maybe(call(Rule::integer_literal)),
            maybe(both(word(".."), maybe(call(Rule::integer_literal)))),
        ),
        Rule::reduce_expr => all6(
            word("reduce"),
            word("("),
            call(Rule::variable),
            word("="),
            call(Rule::expression),
            all6(
                word(","),
                call(Rule::variable),
                call(Rule::kw_IN),
                call(Rule::expression),
                word("|"),
                both(call(Rule::expression), word(")")),
            ),
        ),
        Rule::regex_op => word("=~"),
        Rule::rel_body => if gql {
            maybe(
                all6(
                    word("["),
                    maybe(call(Rule::variable)),
                    maybe(call(Rule::rel_type_spec)),
                    maybe(call(Rule::range_literal)),
                    maybe(call(Rule::properties)),
                    word("]"),
                ),
            )
        } else {
            maybe(
                all6(
                    word("["),
                    maybe(call(Rule::variable)),
                    maybe(call(Rule::rel_type_list)),
                    maybe(call(Rule::range_literal)),
                    maybe(call(Rule::properties)),
                    both(maybe(call(Rule::where_clause)), word("]")),
                ),
            )
        },
        Rule::rel_dash => word("-"),
        Rule::rel_pattern => if gql {
            any3(
                all3(call(Rule::left_arrow), call(Rule::rel_body), call(Rule::rel_dash)),
                all3(call(Rule::rel_dash), call(Rule::rel_body), call(Rule::right_arrow)),
                all3(call(Rule::rel_dash), call(Rule::rel_body), call(Rule::rel_dash)),
            )
        } else {
            any5(
                call(Rule::full_arrow),
                all3(call(Rule::left_arrow), call(Rule::rel_body), call(Rule::right_arrow)),
                all3(call(Rule::left_arrow), call(Rule::rel_body), call(Rule::rel_dash)),
                all3(call(Rule::rel_dash), call(Rule::rel_body), call(Rule::right_arrow)),
                all3(call(Rule::rel_dash), call(Rule::rel_body), call(Rule::rel_dash)),
            )
        },
        Rule::rel_type_elem => either(call(Rule::ident_escaped), call(Rule::ident)),
        Rule::rel_type_list => all3(
            word(":"),
            call(Rule::rel_type_elem),
            many(all3(word("|"), maybe(word(":")), call(Rule::rel_type_elem))),
        ),
        Rule::rel_type_spec => either(call(Rule::colon_type_list), call(Rule::is_type_list)),
        Rule::relationships_pattern => both(
            call(Rule::node_pattern),
            both(call(Rule::pattern_element_chain), many(call(Rule::pattern_element_chain))),
        ),
        Rule::remove_clause => both(call(Rule::kw_REMOVE), commas(Rule::remove_item)),
        Rule::remove_item => either(
            call(Rule::prop_access_expr),
            both(call(Rule::variable), call(Rule::node_labels)),
        ),
        Rule::return_body => both(maybe(call(Rule::distinct_marker)), call(Rule::return_items)),
        Rule::reserved_word => reserved_words(),
        Rule::return_clause => if gql {
            all5(
                call(Rule::kw_RETURN),
                call(Rule::return_body),
                maybe(call(Rule::order_by_clause)),
                maybe(call(Rule::skip_clause)),
                maybe(call(Rule::limit_clause)),
            )
        } else {
            both(call(Rule::kw_RETURN), call(Rule::projection_body))
        },
        Rule::return_item => both(call(Rule::expression), maybe(both(call(Rule::kw_AS), call(Rule::variable)))),
        Rule::return_items => either(call(Rule::star_projection), call(Rule::explicit_items)),
        Rule::right_arrow => word("->"),
        Rule::schema_name => either(call(Rule::ident_escaped), call(Rule::ident)),
        Rule::set_clause => both(call(Rule::kw_SET), commas(Rule::set_item)),
        Rule::set_item => if gql {
            any3(
                all3(call(Rule::prop_access_expr), word("="), call(Rule::expression)),
                all3(call(Rule::variable), word("+="), call(Rule::map_literal)),
                all3(call(Rule::variable), word("="), call(Rule::expression)),
            )
        } else {
            any4(
                all3(call(Rule::prop_access_expr), word("="), call(Rule::expression)),
                all3(call(Rule::variable), word("+="), call(Rule::map_literal)),
                both(call(Rule::variable), call(Rule::node_labels)),
                all3(call(Rule::variable), word("="), call(Rule::expression)),
            )
        },
        Rule::shortest_path_atom => call(Rule::shortest_path_pattern),
        Rule::shortest_path_pattern => all4(
            either(word("shortestPath"), word("allShortestPaths")),
            word("("),
            call(Rule::pattern_element),
            word(")"),
        ),
        Rule::single_query => both(call(Rule::clause), many(call(Rule::clause))),
        Rule::skip_clause => both(call(Rule::kw_SKIP), call(Rule::expression)),
        Rule::slice_access => all5(
            word("["),
            maybe(call(Rule::expression)),
            word(".."),
            maybe(call(Rule::expression)),
            word("]"),
        ),
        Rule::sort_direction => if gql {
            either(call(Rule::kw_ASC), call(Rule::kw_DESC))
        } else {
            any4(
                call(Rule::kw_ASCENDING),
                call(Rule::kw_DESCENDING),
                call(Rule::kw_ASC),
                call(Rule::kw_DESC),
            )
        },
        Rule::sort_item => both(call(Rule::expression), maybe(call(Rule::sort_direction))),
        Rule::star_projection => word("*"),
        Rule::statement => if gql {
            both(call(Rule::clause), many(call(Rule::clause)))
        } else {
            both(
                call(Rule::single_query),
                many(both(call(Rule::union_marker), call(Rule::single_query))),
            )
        },
        Rule::string_literal => either(
            all3(
                word("'"),
                many(either(one(Class::InSingleQuotes), both(word("\\"), one(Class::Any)))),
                word("'"),
            ),
            all3(
                word("\""),
                many(either(one(Class::InDoubleQuotes), both(word("\\"), one(Class::Any)))),
                word("\""),
            ),
        ),
        Rule::subscript_access => all3(word("["), call(Rule::expression), word("]")),
        Rule::unary_expr => if gql {
            either(call(Rule::unary_minus), call(Rule::power_expr))
        } else {
            any3(
                call(Rule::unary_minus),
                call(Rule::unary_plus),
                call(Rule::non_arith_expr),
            )
        },
        Rule::unary_minus => both(word("-"), call(Rule::unary_expr)),
        Rule::unary_plus => both(word("+"), call(Rule::unary_expr)),
        Rule::union_marker => both(call(Rule::kw_UNION), maybe(call(Rule::kw_ALL))),
        Rule::unwind_clause => all4(
            call(Rule::kw_UNWIND),
            call(Rule::expression),
            call(Rule::kw_AS),
            call(Rule::variable),
        ),
        Rule::variable => both(unless(call(Rule::reserved_word)), either(call(Rule::ident_escaped), call(Rule::ident))),
        Rule::where_clause => both(call(Rule::kw_WHERE), call(Rule::expression)),
        Rule::with_clause => all3(
            call(Rule::kw_WITH),
            call(Rule::projection_body),
            maybe(call(Rule::where_clause)),
        ),
        Rule::xor_expr => both(call(Rule::and_expr), many(both(call(Rule::kw_XOR), call(Rule::and_expr)))),
        Rule::yield_clause => all3(
            call(Rule::kw_YIELD),
            either(call(Rule::yield_star), call(Rule::yield_items)),
            maybe(call(Rule::where_clause)),
        ),
        Rule::yield_item => both(maybe(both(call(Rule::schema_name), call(Rule::kw_AS))), call(Rule::variable)),
        Rule::yield_items => if gql {
            commas(Rule::variable)
        } else {
            commas(Rule::yield_item)
        },
        Rule::yield_star => word("*"),
    }
}

pub fn rule_body(r: Rule, gql: bool) -> (p: Peg)
    ensures
        p == body_of(r, gql),
{
    match r {
        Rule::add_sub_expr => both(
            call(Rule::mul_div_expr),
            many(both(call(Rule::add_sub_op), call(Rule::mul_div_expr))),
        ),
        Rule::add_sub_op => either(word("+"), word("-")),
        Rule::agg_call_expr => all5(
            call(Rule::agg_func_name),
            word("("),
            maybe(call(Rule::kw_DISTINCT)),
            call(Rule::expression),
            word(")"),
        ),
        Rule::agg_func_name => any5(
            keyword("SUM"),
            keyword("AVG"),
            keyword("MIN"),
            keyword("MAX"),
            keyword("COLLECT"),
        ),
        Rule::aggregate_expr => either(call(Rule::count_expr), call(Rule::agg_call_expr)),
        Rule::and_expr => both(call(Rule::not_expr), many(both(call(Rule::kw_AND), call(Rule::not_expr)))),
        Rule::anonymous_pattern_part => either(call(Rule::shortest_path_pattern), call(Rule::pattern_element)),
        Rule::atom => if gql {
            any6(
                call(Rule::float_literal),
                call(Rule::integer_literal),
                call(Rule::string_literal),
                call(Rule::boolean_literal),
                call(Rule::null_literal),
                any5(
                    call(Rule::aggregate_expr),
                    call(Rule::list_literal),
                    call(Rule::map_literal),
                    all3(word("("), call(Rule::expression), word(")")),
                    call(Rule::variable),
                ),
            )
        } else {
            any6(
                call(Rule::float_literal),
                call(Rule::hex_integer_literal),
                call(Rule::octal_integer_literal),
                call(Rule::integer_literal),
                call(Rule::string_literal),
                any6(
                    call(Rule::boolean_literal),
                    call(Rule::null_literal),
                    call(Rule::parameter),
                    call(Rule::legacy_parameter),
                    call(Rule::aggregate_expr),
                    any6(
                        call(Rule::case_expression),
                        call(Rule::reduce_expr),
                        call(Rule::exists_subquery),
                        call(Rule::shortest_path_atom),
                        call(Rule::quantifier_expr),
                        any6(
                            call(Rule::list_comprehension),
                            call(Rule::pattern_comprehension),
                            call(Rule::list_literal),
                            call(Rule::map_literal),
                            call(Rule::pattern_predicate),
                            any4(
                                all3(word("("), call(Rule::expression), word(")")),
                                call(Rule::function_call),
                                call(Rule::label_check),
                                call(Rule::variable),
                            ),
                        ),
                    ),
                ),
            )
        },
        Rule::boolean_literal => either(keyword("TRUE"), keyword("FALSE")),
        Rule::call_args => commas(Rule::expression),
        Rule::call_clause => if gql {
            all4(
                call(Rule::kw_CALL),
                call(Rule::proc_name),
                maybe(all3(word("("), maybe(commas(Rule::expression)), word(")"))),
                maybe(both(call(Rule::kw_YIELD), call(Rule::yield_items))),
            )
        } else {
            all4(
                call(Rule::kw_CALL),
                call(Rule::proc_name),
                maybe(all3(word("("), maybe(call(Rule::call_args)), word(")"))),
                maybe(call(Rule::yield_clause)),
            )
        },
        Rule::call_subquery => all4(call(Rule::kw_CALL), word("{"), call(Rule::statement), word("}")),
        Rule::case_expression => all5(
            call(Rule::kw_CASE),
            maybe(call(Rule::expression)),
            both(call(Rule::case_when), many(call(Rule::case_when))),
            maybe(both(call(Rule::kw_ELSE), call(Rule::expression))),
            call(Rule::kw_END),
        ),
        Rule::case_when => all4(
            call(Rule::kw_WHEN),
            call(Rule::expression),
            call(Rule::kw_THEN),
            call(Rule::expression),
        ),
        Rule::chain_link => both(call(Rule::rel_pattern), call(Rule::node_pattern)),
        Rule::clause => if gql {
            any6(
                call(Rule::match_clause),
                call(Rule::filter_clause),
                call(Rule::return_clause),
                call(Rule::next_clause),
                call(Rule::unwind_clause),
                any6(
                    call(Rule::create_clause),
                    call(Rule::merge_clause),
                    call(Rule::set_clause),
                    call(Rule::delete_clause),
                    call(Rule::remove_clause),
                    call(Rule::call_clause),
                ),
            )
        } else {
            any6(
                call(Rule::match_clause),
                call(Rule::with_clause),
                call(Rule::return_clause),
                call(Rule::unwind_clause),
                call(Rule::create_clause),
                any6(
                    call(Rule::merge_clause),
                    call(Rule::set_clause),
                    call(Rule::delete_clause),
                    call(Rule::remove_clause),
                    call(Rule::call_subquery),
                    either(call(Rule::call_clause), call(Rule::foreach_clause)),
                ),
            )
        },
        Rule::colon_type_list => all3(
            word(":"),
            call(Rule::rel_type_elem),
            many(all3(word("|"), maybe(word(":")), call(Rule::rel_type_elem))),
        ),
        Rule::comp_op => any6(word("<>"), word("<="), word(">="), word("="), word("<"), word(">")),
        Rule::comparison_expr => if gql {
            both(call(Rule::add_sub_expr), maybe(call(Rule::comparison_suffix)))
        } else {
            both(call(Rule::add_sub_expr), many(call(Rule::comparison_suffix)))
        },
        Rule::comparison_suffix => if gql {
            any6(
                both(call(Rule::comp_op), call(Rule::add_sub_expr)),
                all3(call(Rule::kw_IS), call(Rule::kw_NOT), call(Rule::kw_NULL)),
                both(call(Rule::kw_IS), call(Rule::kw_NULL)),
                both(call(Rule::kw_IN), call(Rule::add_sub_expr)),
                all3(
                    call(Rule::kw_STARTS),
                    call(Rule::kw_WITH_kw),
                    call(Rule::add_sub_expr),
                ),
                either(
                    all3(
                        call(Rule::kw_ENDS),
                        call(Rule::kw_WITH_kw),
                        call(Rule::add_sub_expr),
                    ),
                    both(call(Rule::kw_CONTAINS), call(Rule::add_sub_expr)),
                ),
            )
        } else {
            any6(
                both(call(Rule::regex_op), call(Rule::add_sub_expr)),
                both(call(Rule::comp_op), call(Rule::comparison_expr)),
                all3(call(Rule::kw_IS), call(Rule::kw_NOT), call(Rule::kw_NULL)),
                both(call(Rule::kw_IS), call(Rule::kw_NULL)),
                both(call(Rule::kw_IN), call(Rule::add_sub_expr)),
                any4(
                    all3(call(Rule::kw_NOT), call(Rule::kw_IN), call(Rule::add_sub_expr)),
                    all3(
                        call(Rule::kw_STARTS),
                        call(Rule::kw_WITH),
                        call(Rule::add_sub_expr),
                    ),
                    all3(call(Rule::kw_ENDS), call(Rule::kw_WITH), call(Rule::add_sub_expr)),
                    both(call(Rule::kw_CONTAINS), call(Rule::add_sub_expr)),
                ),
            )
        },
        Rule::count_expr => all4(
            call(Rule::kw_COUNT),
            word("("),
            either(
                call(Rule::count_star),
                both(maybe(call(Rule::kw_DISTINCT)), call(Rule::expression)),
            ),
            word(")"),
        ),
        Rule::count_star => word("*"),
        Rule::create_clause => both(call(Rule::kw_CREATE), call(Rule::pattern_list)),
        Rule::delete_clause => all3(
            maybe(call(Rule::detach_marker)),
            call(Rule::kw_DELETE),
            commas(Rule::expression),
        ),
        Rule::detach_marker => call(Rule::kw_DETACH),
        Rule::distinct_marker => call(Rule::kw_DISTINCT),
        Rule::exists_subquery => all4(
            call(Rule::kw_EXISTS),
            word("{"),
            either(
                call(Rule::statement),
                both(call(Rule::pattern_list), maybe(call(Rule::where_clause))),
            ),
            word("}"),
        ),
        Rule::explicit_items => commas(Rule::return_item),
        Rule::expression => call(Rule::or_expr),
        Rule::filter_clause => both(either(call(Rule::kw_WHERE), call(Rule::kw_FILTER)), call(Rule::expression)),
        Rule::filter_expression => all4(
            call(Rule::variable),
            call(Rule::kw_IN),
            call(Rule::expression),
            maybe(both(call(Rule::kw_WHERE), call(Rule::expression))),
        ),
        Rule::float_literal => either(
            all4(
                maybe(both(one(Class::Digit), many(one(Class::Digit)))),
                word("."),
                both(one(Class::Digit), many(one(Class::Digit))),
                maybe(
                    all3(
                        word("e"),
                        maybe(either(word("+"), word("-"))),
                        both(one(Class::Digit), many(one(Class::Digit))),
                    ),
                ),
            ),
            both(
                both(one(Class::Digit), many(one(Class::Digit))),
                all3(
                    word("e"),
                    maybe(either(word("+"), word("-"))),
                    both(one(Class::Digit), many(one(Class::Digit))),
                ),
            ),
        ),
        Rule::foreach_clause => all6(
            call(Rule::kw_FOREACH),
            word("("),
            call(Rule::variable),
            call(Rule::kw_IN),
            call(Rule::expression),
            all3(word("|"), both(call(Rule::clause), many(call(Rule::clause))), word(")")),
        ),
        Rule::full_arrow => word("<-->"),
        Rule::func_name => both(
            unless(call(Rule::reserved_word)),
            both(
                many(both(either(call(Rule::ident_escaped), call(Rule::ident)), word("."))),
                either(call(Rule::ident_escaped), call(Rule::ident)),
            ),
        ),
        Rule::function_call => all4(
            call(Rule::func_name),
            word("("),
            maybe(both(maybe(call(Rule::kw_DISTINCT)), commas(Rule::expression))),
            word(")"),
        ),
        Rule::gql_is_labels => all3(
            call(Rule::kw_IS),
            call(Rule::gql_label_name),
            many(both(word("&"), call(Rule::gql_label_name))),
        ),
        Rule::gql_label_more => all3(
            any3(word(":"), word("|"), word("&")),
            maybe(word("!")),
            call(Rule::schema_name),
        ),
        Rule::gql_label_name => either(call(Rule::ident_escaped), call(Rule::ident)),
        Rule::hex_integer_literal => both(
            word("0x"),
            both(one(Class::HexDigit), many(one(Class::HexDigit))),
        ),
        Rule::ident => both(one(Class::NameStart), many(one(Class::NamePart))),
        Rule::ident_escaped => all4(word("`"), one(Class::InTicks), many(one(Class::InTicks)), word("`")),
        Rule::integer_literal => both(one(Class::Digit), many(one(Class::Digit))),
        Rule::is_type_list => all3(
            call(Rule::kw_IS),
            call(Rule::rel_type_elem),
            many(both(either(word("|"), word("&")), call(Rule::rel_type_elem))),
        ),
        Rule::kw_ALL => keyword("ALL"),
        Rule::kw_ANY => keyword("ANY"),
        Rule::kw_AS => keyword("AS"),
        Rule::kw_ASC => keyword("ASC"),
        Rule::kw_ASCENDING => keyword("ASCENDING"),
        Rule::kw_BY => keyword("BY"),
        Rule::kw_CALL => keyword("CALL"),
        Rule::kw_CASE => keyword("CASE"),
        Rule::kw_CONTAINS => keyword("CONTAINS"),
        Rule::kw_COUNT => keyword("COUNT"),
        Rule::kw_CREATE => keyword("CREATE"),
        Rule::kw_DELETE => keyword("DELETE"),
        Rule::kw_DESC => keyword("DESC"),
        Rule::kw_DESCENDING => keyword("DESCENDING"),
        Rule::kw_DETACH => keyword("DETACH"),
        Rule::kw_DISTINCT => keyword("DISTINCT"),
        Rule::kw_ELSE => keyword("ELSE"),
        Rule::kw_END => keyword("END"),
        Rule::kw_ENDS => keyword("ENDS"),
        Rule::kw_EXISTS => keyword("EXISTS"),
        Rule::kw_FILTER => keyword("FILTER"),
        Rule::kw_FOREACH => keyword("FOREACH"),
        Rule::kw_IN => keyword("IN"),
        Rule::kw_IS => keyword("IS"),
        Rule::kw_LIMIT => keyword("LIMIT"),
        Rule::kw_MATCH => keyword("MATCH"),
        Rule::kw_MERGE => keyword("MERGE"),
        Rule::kw_NEXT => keyword("NEXT"),
        Rule::kw_NONE => keyword("NONE"),
        Rule::kw_NOT => keyword("NOT"),
        Rule::kw_NULL => keyword("NULL"),
        Rule::kw_ON => keyword("ON"),
        Rule::kw_OPTIONAL => keyword("OPTIONAL"),
        Rule::kw_OR => keyword("OR"),
        Rule::kw_AND => keyword("AND"),
        Rule::kw_XOR => keyword("XOR"),
        Rule::kw_ORDER => keyword("ORDER"),
        Rule::kw_REMOVE => keyword("REMOVE"),
        Rule::kw_RETURN => keyword("RETURN"),
        Rule::kw_SET => keyword("SET"),
        Rule::kw_SINGLE => keyword("SINGLE"),
        Rule::kw_SKIP => keyword("SKIP"),
        Rule::kw_STARTS => keyword("STARTS"),
        Rule::kw_THEN => keyword("THEN"),
        Rule::kw_UNION => keyword("UNION"),
        Rule::kw_UNWIND => keyword("UNWIND"),
        Rule::kw_WHEN => keyword("WHEN"),
        Rule::kw_WHERE => keyword("WHERE"),
        Rule::kw_WITH => keyword("WITH"),
        Rule::kw_WITH_kw => keyword("WITH"),
        Rule::kw_YIELD => keyword("YIELD"),
        Rule::label_check => both(call(Rule::variable), call(Rule::node_labels)),
        Rule::left_arrow => word("<-"),
        Rule::legacy_parameter => all3(
            word("{"),
            either(
                either(call(Rule::ident_escaped), call(Rule::ident)),
                both(one(Class::Digit), many(one(Class::Digit))),
            ),
            word("}"),
        ),
        Rule::limit_clause => both(call(Rule::kw_LIMIT), call(Rule::expression)),
        Rule::list_comprehension => all4(
            word("["),
            call(Rule::filter_expression),
            maybe(both(word("|"), call(Rule::expression))),
            word("]"),
        ),
        Rule::list_literal => all3(word("["), maybe(commas(Rule::expression)), word("]")),
        Rule::map_entry => all3(call(Rule::prop_name), word(":"), call(Rule::expression)),
        Rule::map_literal => all3(word("{"), maybe(commas(Rule::map_entry)), word("}")),
        Rule::match_clause => if gql {
            all4(
                maybe(call(Rule::optional_marker)),
                call(Rule::kw_MATCH),
                call(Rule::pattern_list),
                maybe(call(Rule::match_where)),
            )
        } else {
            all4(
                maybe(call(Rule::optional_marker)),
                call(Rule::kw_MATCH),
                call(Rule::pattern_list),
                maybe(call(Rule::where_clause)),
            )
        },
        Rule::match_where => both(call(Rule::kw_WHERE), call(Rule::expression)),
        Rule::merge_action => all3(
            call(Rule::kw_ON),
            either(call(Rule::kw_MATCH), call(Rule::kw_CREATE)),
            call(Rule::set_clause),
        ),
        Rule::merge_clause => if gql {
            both(call(Rule::kw_MERGE), call(Rule::pattern))
        } else {
            all3(call(Rule::kw_MERGE), call(Rule::pattern), many(call(Rule::merge_action)))
        },
        Rule::mul_div_expr => if gql {
            both(
                call(Rule::unary_expr),
                many(both(call(Rule::mul_div_op), call(Rule::unary_expr))),
            )
        } else {
            both(
                call(Rule::power_expr),
                many(both(call(Rule::mul_div_op), call(Rule::power_expr))),
            )
        },
        Rule::mul_div_op => any3(word("*"), word("/"), word("%")),
        Rule::next_clause => both(
            call(Rule::kw_NEXT),
            maybe(both(call(Rule::kw_WITH_kw), call(Rule::return_body))),
        ),
        Rule::node_label => if gql {
            both(word(":"), either(call(Rule::ident_escaped), call(Rule::ident)))
        } else {
            all3(word(":"), maybe(word("!")), call(Rule::schema_name))
        },
        Rule::node_labels => if gql {
            both(call(Rule::node_label), many(call(Rule::node_label)))
        } else {
            both(call(Rule::node_label), many(call(Rule::gql_label_more)))
        },
        Rule::node_pattern => if gql {
            all6(
                word("("),
                maybe(call(Rule::variable)),
                maybe(call(Rule::node_labels)),
                maybe(call(Rule::gql_is_labels)),
                maybe(call(Rule::properties)),
                word(")"),
            )
        } else {
            all6(
                word("("),
                maybe(call(Rule::variable)),
                maybe(call(Rule::node_labels)),
                maybe(call(Rule::properties)),
                maybe(call(Rule::where_clause)),
                word(")"),
            )
        },
        Rule::node_pattern_chain => both(call(Rule::node_pattern), many(call(Rule::chain_link))),
        Rule::non_arith_expr => all3(
            call(Rule::atom),
            many(
                any3(
                    call(Rule::property_lookup),
                    call(Rule::slice_access),
                    call(Rule::subscript_access),
                ),
            ),
            maybe(call(Rule::node_labels)),
        ),
        Rule::not_expr => either(both(call(Rule::kw_NOT), call(Rule::not_expr)), call(Rule::comparison_expr)),
        Rule::null_literal => keyword("NULL"),
        Rule::octal_integer_literal => both(
            word("0o"),
            both(one(Class::OctalDigit), many(one(Class::OctalDigit))),
        ),
        Rule::optional_marker => call(Rule::kw_OPTIONAL),
        Rule::or_expr => both(call(Rule::xor_expr), many(both(call(Rule::kw_OR), call(Rule::xor_expr)))),
        Rule::order_by_clause => all3(call(Rule::kw_ORDER), call(Rule::kw_BY), commas(Rule::sort_item)),
        Rule::parameter => both(
            word("$"),
            either(
                either(call(Rule::ident_escaped), call(Rule::ident)),
                both(one(Class::Digit), many(one(Class::Digit))),
            ),
        ),
        Rule::pattern => if gql {
            both(
                maybe(both(call(Rule::variable), word("="))),
                call(Rule::node_pattern_chain),
            )
        } else {
            both(
                maybe(both(call(Rule::variable), word("="))),
                call(Rule::anonymous_pattern_part),
            )
        },
        Rule::pattern_comprehension => all6(
            word("["),
            maybe(both(call(Rule::variable), word("="))),
            call(Rule::relationships_pattern),
            maybe(both(call(Rule::kw_WHERE), call(Rule::expression))),
            word("|"),
            both(call(Rule::expression), word("]")),
        ),
        Rule::pattern_element => either(
            both(call(Rule::node_pattern), many(call(Rule::pattern_element_chain))),
            all3(word("("), call(Rule::pattern_element), word(")")),
        ),
        Rule::pattern_element_chain => both(call(Rule::rel_pattern), call(Rule::node_pattern)),
        Rule::pattern_list => commas(Rule::pattern),
        Rule::pattern_predicate => call(Rule::relationships_pattern),
        Rule::power_expr => if gql {
            both(call(Rule::prop_expr), maybe(both(word("^"), call(Rule::unary_expr))))
        } else {
            both(call(Rule::unary_expr), many(both(word("^"), call(Rule::unary_expr))))
        },
        Rule::proc_name => both(
            many(both(either(call(Rule::ident_escaped), call(Rule::ident)), word("."))),
            either(call(Rule::ident_escaped), call(Rule::ident)),
        ),
        Rule::projection_body => all5(
            maybe(call(Rule::distinct_marker)),
            call(Rule::return_items),
            maybe(call(Rule::order_by_clause)),
            maybe(call(Rule::skip_clause)),
            maybe(call(Rule::limit_clause)),
        ),
        Rule::prop_access_expr => if gql {
            all3(call(Rule::variable), word("."), call(Rule::prop_name))
        } else {
            all3(
                either(
                    call(Rule::variable),
                    all3(word("("), call(Rule::variable), word(")")),
                ),
                word("."),
                call(Rule::prop_name),
            )
        },
        Rule::prop_expr => both(call(Rule::atom), many(call(Rule::property_lookup))),
        Rule::prop_name => either(call(Rule::ident_escaped), call(Rule::ident)),
        Rule::properties => call(Rule::map_literal),
        Rule::property_lookup => both(word("."), call(Rule::prop_name)),
        Rule::quantifier_expr => all4(
            any4(
                call(Rule::kw_ALL),
                call(Rule::kw_ANY),
                call(Rule::kw_NONE),
                call(Rule::kw_SINGLE),
            ),
            word("("),
            call(Rule::filter_expression),
            word(")"),
        ),
        Rule::query => all4(nothing(), call(Rule::statement), maybe(word(";")), end()),
        Rule::range_literal => all3(
            word("*"),
            maybe(call(Rule::integer_literal)),
            maybe(both(word(".."), maybe(call(Rule::integer_literal)))),
        ),
        Rule::reduce_expr => all6(
            word("reduce"),
            word("("),
            call(Rule::variable),
            word("="),
            call(Rule::expression),
            all6(
                word(","),
                call(Rule::variable),
                call(Rule::kw_IN),
                call(Rule::expression),
                word("|"),
                both(call(Rule::expression), word(")")),
            ),
        ),
        Rule::regex_op => word("=~"),
        Rule::rel_body => if gql {
            maybe(
                all6(
                    word("["),
                    maybe(call(Rule::variable)),
                    maybe(call(Rule::rel_type_spec)),
                    maybe(call(Rule::range_literal)),
                    maybe(call(Rule::properties)),
                    word("]"),
                ),
            )
        } else {
            maybe(
                all6(
                    word("["),
                    maybe(call(Rule::variable)),
                    maybe(call(Rule::rel_type_list)),
                    maybe(call(Rule::range_literal)),
                    maybe(call(Rule::properties)),
                    both(maybe(call(Rule::where_clause)), word("]")),
                ),
            )
        },
        Rule::rel_dash => word("-"),
        Rule::rel_pattern => if gql {
            any3(
                all3(call(Rule::left_arrow), call(Rule::rel_body), call(Rule::rel_dash)),
                all3(call(Rule::rel_dash), call(Rule::rel_body), call(Rule::right_arrow)),
                all3(call(Rule::rel_dash), call(Rule::rel_body), call(Rule::rel_dash)),
            )
        } else {
            any5(
                call(Rule::full_arrow),
                all3(call(Rule::left_arrow), call(Rule::rel_body), call(Rule::right_arrow)),
                all3(call(Rule::left_arrow), call(Rule::rel_body), call(Rule::rel_dash)),
                all3(call(Rule::rel_dash), call(Rule::rel_body), call(Rule::right_arrow)),
                all3(call(Rule::rel_dash), call(Rule::rel_body), call(Rule::rel_dash)),
            )
        },
        Rule::rel_type_elem => either(call(Rule::ident_escaped), call(Rule::ident)),
        Rule::rel_type_list => all3(
            word(":"),
            call(Rule::rel_type_elem),
            many(all3(word("|"), maybe(word(":")), call(Rule::rel_type_elem))),
        ),
        Rule::rel_type_spec => either(call(Rule::colon_type_list), call(Rule::is_type_list)),
        Rule::relationships_pattern => both(
            call(Rule::node_pattern),
            both(call(Rule::pattern_element_chain), many(call(Rule::pattern_element_chain))),
        ),
        Rule::remove_clause => both(call(Rule::kw_REMOVE), commas(Rule::remove_item)),
        Rule::remove_item => either(
            call(Rule::prop_access_expr),
            both(call(Rule::variable), call(Rule::node_labels)),
        ),
        Rule::return_body => both(maybe(call(Rule::distinct_marker)), call(Rule::return_items)),
        Rule::reserved_word => reserved(),
        Rule::return_clause => if gql {
            all5(
                call(Rule::kw_RETURN),
                call(Rule::return_body),
                maybe(call(Rule::order_by_clause)),
                maybe(call(Rule::skip_clause)),
                maybe(call(Rule::limit_clause)),
            )
        } else {
            both(call(Rule::kw_RETURN), call(Rule::projection_body))
        },
        Rule::return_item => both(call(Rule::expression), maybe(both(call(Rule::kw_AS), call(Rule::variable)))),
        Rule::return_items => either(call(Rule::star_projection), call(Rule::explicit_items)),
        Rule::right_arrow => word("->"),
        Rule::schema_name => either(call(Rule::ident_escaped), call(Rule::ident)),
        Rule::set_clause => both(call(Rule::kw_SET), commas(Rule::set_item)),
        Rule::set_item => if gql {
            any3(
                all3(call(Rule::prop_access_expr), word("="), call(Rule::expression)),
                all3(call(Rule::variable), word("+="), call(Rule::map_literal)),
                all3(call(Rule::variable), word("="), call(Rule::expression)),
            )
        } else {
            any4(
                all3(call(Rule::prop_access_expr), word("="), call(Rule::expression)),
                all3(call(Rule::variable), word("+="), call(Rule::map_literal)),
                both(call(Rule::variable), call(Rule::node_labels)),
                all3(call(Rule::variable), word("="), call(Rule::expression)),
            )
        },
        Rule::shortest_path_atom => call(Rule::shortest_path_pattern),
        Rule::shortest_path_pattern => all4(
            either(word("shortestPath"), word("allShortestPaths")),
            word("("),
            call(Rule::pattern_element),
            word(")"),
        ),
        Rule::single_query => both(call(Rule::clause), many(call(Rule::clause))),
        Rule::skip_clause => both(call(Rule::kw_SKIP), call(Rule::expression)),
        Rule::slice_access => all5(
            word("["),
            maybe(call(Rule::expression)),
            word(".."),
            maybe(call(Rule::expression)),
            word("]"),
        ),
        Rule::sort_direction => if gql {
            either(call(Rule::kw_ASC), call(Rule::kw_DESC))
        } else {
            any4(
                call(Rule::kw_ASCENDING),
                call(Rule::kw_DESCENDING),
                call(Rule::kw_ASC),
                call(Rule::kw_DESC),
            )
        },
        Rule::sort_item => both(call(Rule::expression), maybe(call(Rule::sort_direction))),
        Rule::star_projection => word("*"),
        Rule::statement => if gql {
            both(call(Rule::clause), many(call(Rule::clause)))
        } else {
            both(
                call(Rule::single_query),
                many(both(call(Rule::union_marker), call(Rule::single_query))),
            )
        },
        Rule::string_literal => either(
            all3(
                word("'"),
                many(either(one(Class::InSingleQuotes), both(word("\\"), one(Class::Any)))),
                word("'"),
            ),
            all3(
                word("\""),
                many(either(one(Class::InDoubleQuotes), both(word("\\"), one(Class::Any)))),
                word("\""),
            ),
        ),
        Rule::subscript_access => all3(word("["), call(Rule::expression), word("]")),
        Rule::unary_expr => if gql {
            either(call(Rule::unary_minus), call(Rule::power_expr))
        } else {
            any3(
                call(Rule::unary_minus),
                call(Rule::unary_plus),
                call(Rule::non_arith_expr),
            )
        },
        Rule::unary_minus => both(word("-"), call(Rule::unary_expr)),
        Rule::unary_plus => both(word("+"), call(Rule::unary_expr)),
        Rule::union_marker => both(call(Rule::kw_UNION), maybe(call(Rule::kw_ALL))),
        Rule::unwind_clause => all4(
            call(Rule::kw_UNWIND),
            call(Rule::expression),
            call(Rule::kw_AS),
            call(Rule::variable),
        ),
        Rule::variable => both(unless(call(Rule::reserved_word)), either(call(Rule::ident_escaped), call(Rule::ident))),
        Rule::where_clause => both(call(Rule::kw_WHERE), call(Rule::expression)),
        Rule::with_clause => all3(
            call(Rule::kw_WITH),
            call(Rule::projection_body),
            maybe(call(Rule::where_clause)),
        ),
        Rule::xor_expr => both(call(Rule::and_expr), many(both(call(Rule::kw_XOR), call(Rule::and_expr)))),
        Rule::yield_clause => all3(
            call(Rule::kw_YIELD),
            either(call(Rule::yield_star), call(Rule::yield_items)),
            maybe(call(Rule::where_clause)),
        ),
        Rule::yield_item => both(maybe(both(call(Rule::schema_name), call(Rule::kw_AS))), call(Rule::variable)),
        Rule::yield_items => if gql {
            commas(Rule::variable)
        } else {
            commas(Rule::yield_item)
        },
        Rule::yield_star => word("*"),
    }
}

} // verus!
