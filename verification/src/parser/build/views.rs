//! The models of what the builders give.
use vstd::prelude::*;

#[allow(unused_imports)]
use crate::ast::cypher as ast;
#[allow(unused_imports)]
use crate::ast::model as m;
#[allow(unused_imports)]
use crate::parser::error::{Built, ParseError};
#[allow(unused_imports)]
use crate::text::texts;

verus! {

pub open spec fn built_expression(r: Result<ast::Expression, ParseError>) -> Built<m::Expression> {
    match r {
        Ok(x) => Ok(m::expression_of(x)),
        Err(e) => Err(e@),
    }
}

pub open spec fn built_option_expression(r: Result<Option<ast::Expression>, ParseError>) -> Built<Option<m::Expression>> {
    match r {
        Ok(x) => Ok(m::opt_expr(x)),
        Err(e) => Err(e@),
    }
}

pub open spec fn built_expressions(r: Result<Vec<ast::Expression>, ParseError>) -> Built<Seq<m::Expression>> {
    match r {
        Ok(x) => Ok(m::exprs_of(x@)),
        Err(e) => Err(e@),
    }
}

pub open spec fn built_entries(r: Result<Vec<(String, ast::Expression)>, ParseError>) -> Built<Seq<(Seq<char>, m::Expression)>> {
    match r {
        Ok(x) => Ok(m::entries_of(x@)),
        Err(e) => Err(e@),
    }
}

pub open spec fn built_option_entries(r: Result<Option<Vec<(String, ast::Expression)>>, ParseError>) -> Built<Option<Seq<(Seq<char>, m::Expression)>>> {
    match r {
        Ok(x) => Ok(m::opt_entries(x)),
        Err(e) => Err(e@),
    }
}

pub open spec fn built_text(r: Result<String, ParseError>) -> Built<Seq<char>> {
    match r {
        Ok(x) => Ok(x@),
        Err(e) => Err(e@),
    }
}

pub open spec fn built_option_text(r: Result<Option<String>, ParseError>) -> Built<Option<Seq<char>>> {
    match r {
        Ok(x) => Ok(m::opt_text(x)),
        Err(e) => Err(e@),
    }
}

pub open spec fn built_texts(r: Result<Vec<String>, ParseError>) -> Built<Seq<Seq<char>>> {
    match r {
        Ok(x) => Ok(texts(x@)),
        Err(e) => Err(e@),
    }
}

pub open spec fn built_literal(r: Result<ast::Literal, ParseError>) -> Built<m::Literal> {
    match r {
        Ok(x) => Ok(m::literal_of(x)),
        Err(e) => Err(e@),
    }
}

pub open spec fn built_aggregate(r: Result<ast::AggregateExpr, ParseError>) -> Built<m::AggregateExpr> {
    match r {
        Ok(x) => Ok(m::aggregate_expr_of(x)),
        Err(e) => Err(e@),
    }
}

pub open spec fn built_element(r: Result<ast::PatternElement, ParseError>) -> Built<m::PatternElement> {
    match r {
        Ok(x) => Ok(m::pattern_element_of(x)),
        Err(e) => Err(e@),
    }
}

pub open spec fn built_elements(r: Result<Vec<ast::PatternElement>, ParseError>) -> Built<Seq<m::PatternElement>> {
    match r {
        Ok(x) => Ok(m::elements_of(x@)),
        Err(e) => Err(e@),
    }
}

pub open spec fn built_pattern(r: Result<ast::Pattern, ParseError>) -> Built<m::Pattern> {
    match r {
        Ok(x) => Ok(m::pattern_of(x)),
        Err(e) => Err(e@),
    }
}

pub open spec fn built_patterns(r: Result<Vec<ast::Pattern>, ParseError>) -> Built<Seq<m::Pattern>> {
    match r {
        Ok(x) => Ok(m::patterns_of(x@)),
        Err(e) => Err(e@),
    }
}

pub open spec fn built_pattern_list(r: Result<ast::PatternList, ParseError>) -> Built<m::PatternList> {
    match r {
        Ok(x) => Ok(m::pattern_list_of(x)),
        Err(e) => Err(e@),
    }
}

pub open spec fn built_return_item(r: Result<ast::ReturnItem, ParseError>) -> Built<m::ReturnItem> {
    match r {
        Ok(x) => Ok(m::return_item_of(x)),
        Err(e) => Err(e@),
    }
}

pub open spec fn built_items(r: Result<Vec<ast::ReturnItem>, ParseError>) -> Built<Seq<m::ReturnItem>> {
    match r {
        Ok(x) => Ok(m::items_of(x@)),
        Err(e) => Err(e@),
    }
}

pub open spec fn built_return_items(r: Result<ast::ReturnItems, ParseError>) -> Built<m::ReturnItems> {
    match r {
        Ok(x) => Ok(m::return_items_of(x)),
        Err(e) => Err(e@),
    }
}

pub open spec fn built_sort_item(r: Result<ast::SortItem, ParseError>) -> Built<m::SortItem> {
    match r {
        Ok(x) => Ok(m::sort_item_of(x)),
        Err(e) => Err(e@),
    }
}

pub open spec fn built_sort_items(r: Result<Vec<ast::SortItem>, ParseError>) -> Built<Seq<m::SortItem>> {
    match r {
        Ok(x) => Ok(m::sort_items_of(x@)),
        Err(e) => Err(e@),
    }
}

pub open spec fn built_option_order_by(r: Result<Option<ast::OrderByClause>, ParseError>) -> Built<Option<m::OrderByClause>> {
    match r {
        Ok(x) => Ok(m::opt_order_by(x)),
        Err(e) => Err(e@),
    }
}

pub open spec fn built_set_item(r: Result<ast::SetItem, ParseError>) -> Built<m::SetItem> {
    match r {
        Ok(x) => Ok(m::set_item_of(x)),
        Err(e) => Err(e@),
    }
}

pub open spec fn built_set_items(r: Result<Vec<ast::SetItem>, ParseError>) -> Built<Seq<m::SetItem>> {
    match r {
        Ok(x) => Ok(m::set_items_of(x@)),
        Err(e) => Err(e@),
    }
}

pub open spec fn built_remove_item(r: Result<ast::RemoveItem, ParseError>) -> Built<m::RemoveItem> {
    match r {
        Ok(x) => Ok(m::remove_item_of(x)),
        Err(e) => Err(e@),
    }
}

pub open spec fn built_remove_items(r: Result<Vec<ast::RemoveItem>, ParseError>) -> Built<Seq<m::RemoveItem>> {
    match r {
        Ok(x) => Ok(m::remove_items_of(x@)),
        Err(e) => Err(e@),
    }
}

pub open spec fn built_merge_actions(r: Result<Vec<ast::MergeAction>, ParseError>) -> Built<Seq<m::MergeAction>> {
    match r {
        Ok(x) => Ok(m::merge_actions_of(x@)),
        Err(e) => Err(e@),
    }
}

pub open spec fn built_clause(r: Result<ast::Clause, ParseError>) -> Built<m::Clause> {
    match r {
        Ok(x) => Ok(m::clause_of(x)),
        Err(e) => Err(e@),
    }
}

pub open spec fn built_clauses(r: Result<Vec<ast::Clause>, ParseError>) -> Built<Seq<m::Clause>> {
    match r {
        Ok(x) => Ok(m::clauses_of(x@)),
        Err(e) => Err(e@),
    }
}

/// What has been built so far, followed by the rest.
pub open spec fn after<T>(done: Seq<T>, rest: Built<Seq<T>>) -> Built<Seq<T>> {
    match rest {
        Ok(r) => Ok(done + r),
        Err(f) => Err(f),
    }
}

pub proof fn lemma_after_push<T>(done: Seq<T>, x: T, rest: Built<Seq<T>>)
    ensures
        after(
            done,
            match rest {
                Ok(r) => Ok(seq![x] + r),
                Err(f) => Err(f),
            },
        ) == after(done.push(x), rest),
{
    if let Ok(r) = rest {
        assert(done + (seq![x] + r) =~= done.push(x) + r);
    }
}

pub proof fn lemma_after_add<T>(done: Seq<T>, x: Seq<T>, rest: Built<Seq<T>>)
    ensures
        after(
            done,
            match rest {
                Ok(r) => Ok(x + r),
                Err(f) => Err(f),
            },
        ) == after(done + x, rest),
{
    if let Ok(r) = rest {
        assert(done + (x + r) =~= done + x + r);
    }
}

pub proof fn lemma_after_start<T>(done: Seq<T>, rest: Built<Seq<T>>)
    requires
        done.len() == 0,
    ensures
        after(done, rest) == rest,
{
    if let Ok(r) = rest {
        assert(done + r =~= r);
    }
}

pub proof fn lemma_after_end<T>(done: Seq<T>)
    ensures
        after(done, Ok(seq![])) == Ok::<Seq<T>, crate::parser::error::Fault>(done),
{
    assert(done + Seq::<T>::empty() =~= done);
}

} // verus!
