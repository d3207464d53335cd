//! Queries whose result is known before they run.
use vstd::prelude::*;

use crate::ast::cypher::{
    AggregateExpr, Clause, Expression, Literal, ReturnClause, ReturnItem, ReturnItems,
};
#[allow(unused_imports)]
use crate::ast::model as m;
use crate::sparql::algebra as sparql;
#[allow(unused_imports)]
use crate::sparql::model as g;
use crate::text::{dec_usize, push_text, same_text};
#[allow(unused_imports)]
use crate::text::{dec, texts};
use crate::translator::compare::{cypher_compare, Order};
#[allow(unused_imports)]
use crate::translator::compare::cypher_order;
use crate::translator::ground::literal_expr_to_ground_term;
#[allow(unused_imports)]
use crate::translator::ground::ground_of_literal;
use crate::translator::state::{push_scalar_column, TranslationState};
#[allow(unused_imports)]
use crate::translator::state::{columns_of, scalar_column, Kind};

verus! {

// ── The least and the greatest of a list ─────────────────────────────────────

/// The values that SPARQL would order by their text.
pub open spec fn needs_fold(e: Expression) -> bool {
    match e {
        Expression::List(_) => true,
        Expression::MapLit(_) => true,
        Expression::Literal(l) => l is String || l is Boolean || l is Float,
        _ => false,
    }
}

pub open spec fn is_null_value(e: Expression) -> bool {
    e matches Expression::Literal(l) && l is Null
}

/// `UNWIND [items] AS variable RETURN returned`, with nothing else asked for.
pub ghost struct MinMaxQuery {
    pub variable: Seq<char>,
    pub items: Seq<Expression>,
    pub returned: Seq<ReturnItem>,
}

/// The items of a `RETURN` without order, limits or `DISTINCT`.
pub open spec fn plain_return(r: ReturnClause) -> Option<Seq<ReturnItem>> {
    if r.order_by is Some || r.skip is Some || r.limit is Some || r.distinct {
        None
    } else {
        match r.items {
            ReturnItems::Explicit(items) => Some(items@),
            ReturnItems::All => None,
        }
    }
}

pub open spec fn minmax_query(clauses: Seq<Clause>) -> Option<MinMaxQuery> {
    if clauses.len() != 2 {
        None
    } else {
        match (clauses[0], clauses[1]) {
            (Clause::Unwind(u), Clause::Return(r)) => match (u.expression, plain_return(r)) {
                (Expression::List(items), Some(returned)) => if returned.len() > 0 && (exists|
                    i: int,
                |
                    0 <= i < items@.len() && needs_fold(#[trigger] items@[i])) {
                    Some(
                        MinMaxQuery { variable: u.variable@, items: items@, returned: returned },
                    )
                } else {
                    None
                },
                _ => None,
            },
            _ => None,
        }
    }
}

/// Whether an item is `max(variable)`, or else `min(variable)`.
pub open spec fn asks_for(item: ReturnItem, variable: Seq<char>) -> Option<bool> {
    match item.expression {
        Expression::Aggregate(a) => match a {
            AggregateExpr::Max { distinct, expr } => if *expr matches Expression::Variable(v) && v@
                == variable {
                Some(true)
            } else {
                None
            },
            AggregateExpr::Min { distinct, expr } => if *expr matches Expression::Variable(v) && v@
                == variable {
                Some(false)
            } else {
                None
            },
            _ => None,
        },
        _ => None,
    }
}

/// The place of the greatest or the least of the first `k` values that are not
/// null: of equal ones the last greatest, the first least.
pub open spec fn extremum(items: Seq<Expression>, k: int, greatest: bool) -> Option<int>
    decreases k,
{
    if k <= 0 || k > items.len() {
        None
    } else {
        let best = extremum(items, k - 1, greatest);
        if is_null_value(items[k - 1]) {
            best
        } else {
            match best {
                None => Some(k - 1),
                Some(j) => if (cypher_order(items[j], items[k - 1]) is Greater) == greatest {
                    Some(j)
                } else {
                    Some(k - 1)
                },
            }
        }
    }
}

/// What an item is bound to.
pub open spec fn extremum_term(items: Seq<Expression>, greatest: bool) -> Option<g::GroundTerm> {
    match extremum(items, items.len() as int, greatest) {
        Some(j) => ground_of_literal(m::expression_of(items[j])),
        None => None,
    }
}

/// How many items, from the first on, ask for the least or the greatest.
pub open spec fn foldable(returned: Seq<ReturnItem>, variable: Seq<char>, k: int) -> int
    decreases returned.len() - k,
{
    if k < 0 || k >= returned.len() || asks_for(returned[k], variable) is None {
        k
    } else {
        foldable(returned, variable, k + 1)
    }
}

pub open spec fn fold_name(k: int) -> Seq<char> {
    "__fold_"@ + dec(k)
}

pub open spec fn fold_names(n: int) -> Seq<Seq<char>> {
    Seq::new(n as nat, |k: int| fold_name(k))
}

pub open spec fn fold_columns(n: int) -> Seq<(Seq<char>, Kind)> {
    Seq::new(n as nat, |k: int| scalar_column(fold_name(k)))
}

pub open spec fn fold_row(q: MinMaxQuery, n: int) -> Seq<Option<g::GroundTerm>> {
    Seq::new(
        n as nat,
        |k: int| extremum_term(q.items, asks_for(q.returned[k], q.variable).unwrap()),
    )
}

/// The one row that a query for the least and the greatest of a list gives.
pub open spec fn minmax_fold(clauses: Seq<Clause>) -> Option<g::GraphPattern> {
    match minmax_query(clauses) {
        Some(q) => {
            let n = foldable(q.returned, q.variable, 0);
            if n == q.returned.len() {
                Some(
                    g::GraphPattern::Values {
                        variables: fold_names(n),
                        bindings: seq![fold_row(q, n)],
                    },
                )
            } else {
                None
            }
        },
        None => None,
    }
}

/// The columns that it leaves, also where the query is not folded in the end.
pub open spec fn minmax_columns(clauses: Seq<Clause>) -> Seq<(Seq<char>, Kind)> {
    match minmax_query(clauses) {
        Some(q) => fold_columns(foldable(q.returned, q.variable, 0)),
        None => seq![],
    }
}

fn has_needs_fold(items: &Vec<Expression>) -> (r: bool)
    ensures
        r == exists|i: int| 0 <= i < items@.len() && needs_fold(#[trigger] items@[i]),
{
    #[verifier::loop_isolation(false)]
    for i in 0..items.len()
        invariant
            forall|k: int| 0 <= k < i ==> !needs_fold(#[trigger] items@[k]),
    {
        let needs = match &items[i] {
            Expression::List(_) | Expression::MapLit(_) => true,
            Expression::Literal(l) => match l {
                Literal::String(_) | Literal::Boolean(_) | Literal::Float(_) => true,
                _ => false,
            },
            _ => false,
        };
        if needs {
            assert(needs_fold(items@[i as int]));
            return true;
        }
    }
    false
}

pub fn returned_items<'a>(r: &'a ReturnClause) -> (o: Option<&'a Vec<ReturnItem>>)
    ensures
        (match o {
            Some(v) => Some(v@),
            None => None,
        }) == plain_return(*r),
{
    if r.order_by.is_some() || r.skip.is_some() || r.limit.is_some() || r.distinct {
        return None;
    }
    match &r.items {
        ReturnItems::Explicit(items) => Some(items),
        ReturnItems::All => None,
    }
}

fn asked(item: &ReturnItem, variable: &str) -> (r: Option<bool>)
    ensures
        r == asks_for(*item, variable@),
{
    match &item.expression {
        Expression::Aggregate(a) => match a {
            AggregateExpr::Max { distinct: _, expr } => match &**expr {
                Expression::Variable(v) => if same_text(v.as_str(), variable) {
                    Some(true)
                } else {
                    None
                },
                _ => None,
            },
            AggregateExpr::Min { distinct: _, expr } => match &**expr {
                Expression::Variable(v) => if same_text(v.as_str(), variable) {
                    Some(false)
                } else {
                    None
                },
                _ => None,
            },
            _ => None,
        },
        _ => None,
    }
}

fn is_null_item(e: &Expression) -> (r: bool)
    ensures
        r == is_null_value(*e),
{
    match e {
        Expression::Literal(Literal::Null) => true,
        _ => false,
    }
}

fn find_extremum(items: &Vec<Expression>, greatest: bool) -> (r: Option<usize>)
    ensures
        (match r {
            Some(j) => Some(j as int),
            None => None,
        }) == extremum(items@, items@.len() as int, greatest),
        r matches Some(j) ==> j < items@.len(),
{
    let mut best: Option<usize> = None;
    #[verifier::loop_isolation(false)]
    for i in 0..items.len()
        invariant
            (match best {
                Some(j) => Some(j as int),
                None => None,
            }) == extremum(items@, i as int, greatest),
            best matches Some(j) ==> j < i,
    {
        if !is_null_item(&items[i]) {
            best = match best {
                None => Some(i),
                Some(j) => {
                    let above = match cypher_compare(&items[j], &items[i]) {
                        Order::Greater => true,
                        _ => false,
                    };
                    if above == greatest {
                        Some(j)
                    } else {
                        Some(i)
                    }
                },
            };
        }
    }
    best
}

fn find_term(items: &Vec<Expression>, greatest: bool) -> (r: Option<sparql::GroundTerm>)
    ensures
        g::opt_ground(r) == extremum_term(items@, greatest),
{
    match find_extremum(items, greatest) {
        Some(j) => literal_expr_to_ground_term(&items[j]),
        None => None,
    }
}

impl TranslationState {
    /// Answers a query for the least and the greatest elements of a list of
    /// literals, by the order of Cypher. Where the query asks for anything else
    /// there is no answer.
    pub fn try_fold_minmax_aggregate(&mut self, clauses: &Vec<Clause>) -> (r: Option<
        sparql::GraphPattern,
    >)
        ensures
            (match r {
                Some(p) => Some(g::graph_pattern_of(p)),
                None => None,
            }) == minmax_fold(clauses@),
            *final(self) == (TranslationState {
                projected_columns: final(self).projected_columns,
                ..*old(self)
            }),
            columns_of(final(self).projected_columns@) == columns_of(
                old(self).projected_columns@,
            ) + minmax_columns(clauses@),
    {
        assert(columns_of(self.projected_columns@) + Seq::<(Seq<char>, Kind)>::empty()
            =~= columns_of(self.projected_columns@));
        if clauses.len() != 2 {
            return None;
        }
        let (unwind, ret) = match (&clauses[0], &clauses[1]) {
            (Clause::Unwind(u), Clause::Return(r)) => (u, r),
            _ => {
                return None;
            },
        };
        let items = match &unwind.expression {
            Expression::List(items) => items,
            _ => {
                return None;
            },
        };
        let returned = match returned_items(ret) {
            Some(v) => v,
            None => {
                return None;
            },
        };
        if returned.len() == 0 || !has_needs_fold(items) {
            return None;
        }
        let ghost q = minmax_query(clauses@).unwrap();
        let ghost before = columns_of(self.projected_columns@);
        let ghost state = *self;
        let mut variables: Vec<String> = Vec::new();
        let mut row: Vec<Option<sparql::GroundTerm>> = Vec::new();
        assert(before + fold_columns(0) =~= before);
        #[verifier::loop_isolation(false)]
        for i in 0..returned.len()
            invariant
                foldable(q.returned, q.variable, 0) == foldable(q.returned, q.variable, i as int),
                *self == (TranslationState {
                    projected_columns: self.projected_columns,
                    ..state
                }),
                columns_of(self.projected_columns@) == before + fold_columns(i as int),
                texts(variables@) == fold_names(i as int),
                g::row_of(row@) == fold_row(q, i as int),
        {
            match asked(&returned[i], unwind.variable.as_str()) {
                None => {
                    return None;
                },
                Some(greatest) => {
                    let term = find_term(items, greatest);
                    let name = "__fold_".to_owned().concat(dec_usize(variables.len()).as_str());
                    push_scalar_column(&mut self.projected_columns, &name);
                    proof {
                        g::lemma_push_row(row@, term);
                        assert(texts(variables@).len() == variables@.len());
                    }
                    push_text(&mut variables, name);
                    row.push(term);
                    assert(columns_of(self.projected_columns@) =~= before + fold_columns(i + 1));
                    assert(texts(variables@) =~= fold_names(i + 1));
                    assert(g::row_of(row@) =~= fold_row(q, i + 1));
                },
            }
        }
        let ghost the_row = row;
        let mut bindings: Vec<Vec<Option<sparql::GroundTerm>>> = Vec::new();
        proof {
            g::lemma_push_rows(bindings@, row);
        }
        bindings.push(row);
        assert(g::rows_of(bindings@) =~= seq![g::row_of(the_row@)]);
        Some(sparql::GraphPattern::Values { variables, bindings })
    }
}

} // verus!
