//! Queries that ask whether a law of the quantifiers holds of a list that is
//! made with `rand()`. The law holds of every list, so the answer is known.
use vstd::prelude::*;

use crate::ast::cypher::{Clause, Expression, ReturnClause, ReturnItem, ReturnItems, WithClause};
#[allow(unused_imports)]
use crate::ast::model as m;
use crate::names::NameMap;
use crate::sparql::algebra as sparql;
#[allow(unused_imports)]
use crate::sparql::model as g;
use crate::text::{list_has, push_text};
#[allow(unused_imports)]
use crate::text::{lists, texts};
use crate::translator::analysis::{add_name, clause_expr_is_opaque, collect_nonempty_vars};
#[allow(unused_imports)]
use crate::translator::analysis::{is_opaque, with_name, with_nonempty};
use crate::translator::fold::returned_items;
#[allow(unused_imports)]
use crate::translator::fold::plain_return;
use crate::translator::ground::boolean_literal;
#[allow(unused_imports)]
use crate::translator::ground::boolean;
use crate::translator::quantifier::eval_quantifier_tautology;
#[allow(unused_imports)]
use crate::translator::quantifier::tautology;
use crate::translator::state::{push_scalar_column, ProjectedColumn, TranslationState};
#[allow(unused_imports)]
use crate::translator::state::{columns_of, scalar_column, Kind};

verus! {

/// The names with those of the first `k` items that are opaque.
pub open spec fn with_opaque_items(
    items: Seq<ReturnItem>,
    k: int,
    names: Seq<Seq<char>>,
) -> Seq<Seq<char>>
    decreases k,
{
    if k <= 0 || k > items.len() {
        names
    } else {
        let before = with_opaque_items(items, k - 1, names);
        match items[k - 1].alias {
            Some(a) => if is_opaque(items[k - 1].expression, before) {
                with_name(before, a@)
            } else {
                before
            },
            None => before,
        }
    }
}

/// The opaque lists that the first `k` clauses name.
pub open spec fn opaque_lists(clauses: Seq<Clause>, k: int) -> Seq<Seq<char>>
    decreases k,
{
    if k <= 0 || k > clauses.len() {
        seq![]
    } else {
        let before = opaque_lists(clauses, k - 1);
        match clauses[k - 1] {
            Clause::With(w) => match w.items {
                ReturnItems::Explicit(items) => with_opaque_items(
                    items@,
                    items@.len() as int,
                    before,
                ),
                ReturnItems::All => before,
            },
            _ => before,
        }
    }
}

/// The lists that the first `k` clauses say are not empty.
pub open spec fn nonempty_lists(clauses: Seq<Clause>, k: int) -> Seq<Seq<char>>
    decreases k,
{
    if k <= 0 || k > clauses.len() {
        seq![]
    } else {
        let before = nonempty_lists(clauses, k - 1);
        match clauses[k - 1] {
            Clause::With(w) => if w.items is Explicit && w.where_ is Some {
                with_nonempty(w.where_.unwrap().expression, before)
            } else {
                before
            },
            _ => before,
        }
    }
}

/// The last `RETURN` among the first `k` clauses.
pub open spec fn last_return(clauses: Seq<Clause>, k: int) -> Option<ReturnClause>
    decreases k,
{
    if k <= 0 || k > clauses.len() {
        None
    } else {
        match clauses[k - 1] {
            Clause::Return(r) => Some(r),
            _ => last_return(clauses, k - 1),
        }
    }
}

/// The last `WITH` among the first `k` clauses.
pub open spec fn last_with(clauses: Seq<Clause>, k: int) -> Option<WithClause>
    decreases k,
{
    if k <= 0 || k > clauses.len() {
        None
    } else {
        match clauses[k - 1] {
            Clause::With(w) => Some(w),
            _ => last_with(clauses, k - 1),
        }
    }
}

pub open spec fn name_of(item: ReturnItem) -> Seq<char> {
    match item.alias {
        Some(a) => a@,
        None => "ret"@,
    }
}

/// The values of the first `k` items that are no aggregates; nothing where one
/// of them is not known.
pub open spec fn constants(
    items: Seq<ReturnItem>,
    k: int,
    opaque: Seq<Seq<char>>,
    nonempty: Seq<Seq<char>>,
) -> Option<Map<Seq<char>, bool>>
    decreases k,
{
    if k <= 0 || k > items.len() {
        Some(Map::empty())
    } else {
        match constants(items, k - 1, opaque, nonempty) {
            None => None,
            Some(before) => if items[k - 1].expression is Aggregate {
                Some(before)
            } else {
                match tautology(m::expression_of(items[k - 1].expression), opaque, nonempty) {
                    Some(b) => Some(before.insert(name_of(items[k - 1]), b)),
                    None => None,
                }
            },
        }
    }
}

/// The value of a returned item.
pub open spec fn returned_value(
    item: ReturnItem,
    known: Map<Seq<char>, bool>,
    opaque: Seq<Seq<char>>,
    nonempty: Seq<Seq<char>>,
) -> Option<bool> {
    match item.expression {
        Expression::Variable(v) => if known.contains_key(v@) {
            Some(known[v@])
        } else {
            None
        },
        _ => tautology(m::expression_of(item.expression), opaque, nonempty),
    }
}

/// Whether a clause shows that the query gives a row: it unwinds a list that is
/// not opaque, or names one that is not empty.
pub open spec fn gives_rows(
    c: Clause,
    opaque: Seq<Seq<char>>,
    nonempty: Seq<Seq<char>>,
) -> bool {
    match c {
        Clause::Unwind(u) => !(u.expression matches Expression::Variable(v) && lists(opaque, v@)),
        Clause::With(w) => match w.items {
            ReturnItems::Explicit(items) => exists|i: int|
                0 <= i < items@.len() && names_rows(#[trigger] items@[i], nonempty),
            ReturnItems::All => false,
        },
        _ => false,
    }
}

pub open spec fn names_rows(item: ReturnItem, nonempty: Seq<Seq<char>>) -> bool {
    (item.expression matches Expression::List(l) && l@.len() > 0) || (item.alias matches Some(a)
        && lists(nonempty, a@))
}

/// The names and the values of the row that a query for laws of the quantifiers
/// gives; nothing where it asks for anything else.
pub open spec fn law_row(clauses: Seq<Clause>) -> Option<Seq<(Seq<char>, bool)>> {
    let opaque = opaque_lists(clauses, clauses.len() as int);
    let nonempty = nonempty_lists(clauses, clauses.len() as int);
    match (last_return(clauses, clauses.len() as int), last_with(clauses, clauses.len() as int)) {
        (Some(r), Some(w)) => match (w.items, plain_return(r)) {
            (ReturnItems::Explicit(items), Some(returned)) => match constants(
                items@,
                items@.len() as int,
                opaque,
                nonempty,
            ) {
                Some(known) => if opaque.len() > 0 && (exists|i: int|
                    0 <= i < items@.len() && (#[trigger] items@[i]).expression is Aggregate) && (
                exists|i: int|
                    0 <= i < items@.len() && !((#[trigger] items@[i]).expression is Aggregate))
                    && returned.len() > 0 && (forall|i: int|
                    0 <= i < returned.len() ==> returned_value(
                        #[trigger] returned[i],
                        known,
                        opaque,
                        nonempty,
                    ) is Some) && (exists|i: int|
                    0 <= i < clauses.len() && gives_rows(
                        #[trigger] clauses[i],
                        opaque,
                        nonempty,
                    )) {
                    Some(
                        Seq::new(
                            returned.len(),
                            |i: int|
                                (
                                    name_of(returned[i]),
                                    returned_value(returned[i], known, opaque, nonempty).unwrap(),
                                ),
                        ),
                    )
                } else {
                    None
                },
                None => None,
            },
            _ => None,
        },
        _ => None,
    }
}

pub open spec fn row_names(row: Seq<(Seq<char>, bool)>) -> Seq<Seq<char>> {
    Seq::new(row.len(), |i: int| row[i].0)
}

pub open spec fn row_terms(row: Seq<(Seq<char>, bool)>) -> Seq<Option<g::GroundTerm>> {
    Seq::new(row.len(), |i: int| Some(g::GroundTerm::Literal(boolean(row[i].1))))
}

pub open spec fn row_columns(row: Seq<(Seq<char>, bool)>) -> Seq<(Seq<char>, Kind)> {
    Seq::new(row.len(), |i: int| scalar_column(row[i].0))
}

/// The pattern with the one row.
pub open spec fn law_fold(clauses: Seq<Clause>) -> Option<g::GraphPattern> {
    match law_row(clauses) {
        Some(row) => Some(
            g::GraphPattern::Values {
                variables: row_names(row),
                bindings: seq![row_terms(row)],
            },
        ),
        None => None,
    }
}

fn add_opaque_items(items: &Vec<ReturnItem>, names: &mut Vec<String>)
    ensures
        texts(final(names)@) == with_opaque_items(
            items@,
            items@.len() as int,
            texts(old(names)@),
        ),
{
    let ghost before = texts(names@);
    #[verifier::loop_isolation(false)]
    for i in 0..items.len()
        invariant
            texts(names@) == with_opaque_items(items@, i as int, before),
    {
        if let Some(alias) = &items[i].alias {
            if clause_expr_is_opaque(&items[i].expression, names) {
                add_name(names, alias);
            }
        }
    }
}

fn find_opaque_lists(clauses: &Vec<Clause>) -> (r: Vec<String>)
    ensures
        texts(r@) == opaque_lists(clauses@, clauses@.len() as int),
{
    let mut names: Vec<String> = Vec::new();
    assert(texts(names@) =~= opaque_lists(clauses@, 0));
    #[verifier::loop_isolation(false)]
    for i in 0..clauses.len()
        invariant
            texts(names@) == opaque_lists(clauses@, i as int),
    {
        if let Clause::With(w) = &clauses[i] {
            if let ReturnItems::Explicit(items) = &w.items {
                add_opaque_items(items, &mut names);
            }
        }
    }
    names
}

fn find_nonempty_lists(clauses: &Vec<Clause>) -> (r: Vec<String>)
    ensures
        texts(r@) == nonempty_lists(clauses@, clauses@.len() as int),
{
    let mut names: Vec<String> = Vec::new();
    assert(texts(names@) =~= nonempty_lists(clauses@, 0));
    #[verifier::loop_isolation(false)]
    for i in 0..clauses.len()
        invariant
            texts(names@) == nonempty_lists(clauses@, i as int),
    {
        if let Clause::With(w) = &clauses[i] {
            if let ReturnItems::Explicit(_) = &w.items {
                if let Some(filter) = &w.where_ {
                    collect_nonempty_vars(&filter.expression, &mut names);
                }
            }
        }
    }
    names
}

fn find_last_return<'a>(clauses: &'a Vec<Clause>) -> (r: Option<&'a ReturnClause>)
    ensures
        (match r {
            Some(x) => Some(*x),
            None => None,
        }) == last_return(clauses@, clauses@.len() as int),
{
    let mut k: usize = clauses.len();
    #[verifier::loop_isolation(false)]
    while k > 0
        invariant
            k <= clauses@.len(),
            last_return(clauses@, clauses@.len() as int) == last_return(clauses@, k as int),
        decreases k,
    {
        if let Clause::Return(r) = &clauses[k - 1] {
            return Some(r);
        }
        k = k - 1;
    }
    None
}

fn find_last_with<'a>(clauses: &'a Vec<Clause>) -> (r: Option<&'a WithClause>)
    ensures
        (match r {
            Some(x) => Some(*x),
            None => None,
        }) == last_with(clauses@, clauses@.len() as int),
{
    let mut k: usize = clauses.len();
    #[verifier::loop_isolation(false)]
    while k > 0
        invariant
            k <= clauses@.len(),
            last_with(clauses@, clauses@.len() as int) == last_with(clauses@, k as int),
        decreases k,
    {
        if let Clause::With(w) = &clauses[k - 1] {
            return Some(w);
        }
        k = k - 1;
    }
    None
}

fn is_aggregate(item: &ReturnItem) -> (r: bool)
    ensures
        r == (item.expression is Aggregate),
{
    match &item.expression {
        Expression::Aggregate(_) => true,
        _ => false,
    }
}

fn item_name(item: &ReturnItem) -> (r: String)
    ensures
        r@ == name_of(*item),
{
    match &item.alias {
        Some(a) => a.clone(),
        None => "ret".to_owned(),
    }
}

/// Whether there is an item with an aggregate, and one without.
fn has_both(items: &Vec<ReturnItem>) -> (r: bool)
    ensures
        r == ((exists|i: int|
            0 <= i < items@.len() && (#[trigger] items@[i]).expression is Aggregate) && (exists|
            i: int,
        |
            0 <= i < items@.len() && !((#[trigger] items@[i]).expression is Aggregate))),
{
    let mut with = false;
    let mut without = false;
    #[verifier::loop_isolation(false)]
    for i in 0..items.len()
        invariant
            with == exists|k: int| 0 <= k < i && (#[trigger] items@[k]).expression is Aggregate,
            without == exists|k: int|
                0 <= k < i && !((#[trigger] items@[k]).expression is Aggregate),
    {
        let ghost here = items@[i as int];
        if is_aggregate(&items[i]) {
            with = true;
        } else {
            without = true;
        }
    }
    with && without
}

fn find_constants(items: &Vec<ReturnItem>, opaque: &Vec<String>, nonempty: &Vec<String>) -> (r:
    Option<NameMap<bool>>)
    ensures
        (match r {
            Some(x) => Some(x@),
            None => None,
        }) == constants(items@, items@.len() as int, texts(opaque@), texts(nonempty@)),
{
    let mut known: NameMap<bool> = NameMap::new();
    #[verifier::loop_isolation(false)]
    for i in 0..items.len()
        invariant
            Some(known@) == constants(items@, i as int, texts(opaque@), texts(nonempty@)),
    {
        if !is_aggregate(&items[i]) {
            match eval_quantifier_tautology(&items[i].expression, opaque, nonempty) {
                Some(b) => {
                    known.insert(item_name(&items[i]), b);
                },
                None => {
                    proof {
                        lemma_no_constants(
                            items@,
                            i + 1,
                            items@.len() as int,
                            texts(opaque@),
                            texts(nonempty@),
                        );
                    }
                    return None;
                },
            }
        }
    }
    Some(known)
}

/// An item whose value is not known makes all that follow unknown.
proof fn lemma_no_constants(
    items: Seq<ReturnItem>,
    k: int,
    n: int,
    opaque: Seq<Seq<char>>,
    nonempty: Seq<Seq<char>>,
)
    requires
        0 < k <= n <= items.len(),
        constants(items, k, opaque, nonempty) is None,
    ensures
        constants(items, n, opaque, nonempty) is None,
    decreases n - k,
{
    if k < n {
        lemma_no_constants(items, k, n - 1, opaque, nonempty);
    }
}

fn find_value(
    item: &ReturnItem,
    known: &NameMap<bool>,
    opaque: &Vec<String>,
    nonempty: &Vec<String>,
) -> (r: Option<bool>)
    ensures
        r == returned_value(*item, known@, texts(opaque@), texts(nonempty@)),
{
    match &item.expression {
        Expression::Variable(v) => match known.get(v.as_str()) {
            Some(b) => Some(*b),
            None => None,
        },
        other => eval_quantifier_tautology(other, opaque, nonempty),
    }
}

fn clause_gives_rows(c: &Clause, opaque: &Vec<String>, nonempty: &Vec<String>) -> (r: bool)
    ensures
        r == gives_rows(*c, texts(opaque@), texts(nonempty@)),
{
    match c {
        Clause::Unwind(u) => match &u.expression {
            Expression::Variable(v) => !list_has(opaque, v.as_str()),
            _ => true,
        },
        Clause::With(w) => match &w.items {
            ReturnItems::Explicit(items) => {
                #[verifier::loop_isolation(false)]
                for i in 0..items.len()
                    invariant
                        forall|k: int|
                            0 <= k < i ==> !names_rows(#[trigger] items@[k], texts(nonempty@)),
                {
                    let list = match &items[i].expression {
                        Expression::List(l) => l.len() > 0,
                        _ => false,
                    };
                    let named = match &items[i].alias {
                        Some(a) => list_has(nonempty, a.as_str()),
                        None => false,
                    };
                    if list || named {
                        assert(names_rows(items@[i as int], texts(nonempty@)));
                        return true;
                    }
                }
                false
            },
            ReturnItems::All => false,
        },
        _ => false,
    }
}

fn any_gives_rows(clauses: &Vec<Clause>, opaque: &Vec<String>, nonempty: &Vec<String>) -> (r: bool)
    ensures
        r == exists|i: int|
            0 <= i < clauses@.len() && gives_rows(
                #[trigger] clauses@[i],
                texts(opaque@),
                texts(nonempty@),
            ),
{
    #[verifier::loop_isolation(false)]
    for i in 0..clauses.len()
        invariant
            forall|k: int|
                0 <= k < i ==> !gives_rows(
                    #[trigger] clauses@[k],
                    texts(opaque@),
                    texts(nonempty@),
                ),
    {
        if clause_gives_rows(&clauses[i], opaque, nonempty) {
            return true;
        }
    }
    false
}

impl TranslationState {
    /// Answers a query that asks for laws of the quantifiers over opaque lists.
    pub fn try_fold_quantifier_invariants(&mut self, clauses: &Vec<Clause>) -> (r: Option<
        sparql::GraphPattern,
    >)
        ensures
            (match r {
                Some(p) => Some(g::graph_pattern_of(p)),
                None => None,
            }) == law_fold(clauses@),
            *final(self) == (TranslationState {
                projected_columns: final(self).projected_columns,
                ..*old(self)
            }),
            match law_row(clauses@) {
                Some(row) => columns_of(final(self).projected_columns@) == row_columns(row),
                None => final(self).projected_columns == old(self).projected_columns,
            },
    {
        let opaque = find_opaque_lists(clauses);
        let nonempty = find_nonempty_lists(clauses);
        if opaque.len() == 0 {
            return None;
        }
        let (ret, with) = match (find_last_return(clauses), find_last_with(clauses)) {
            (Some(r), Some(w)) => (r, w),
            _ => {
                return None;
            },
        };
        let items = match &with.items {
            ReturnItems::Explicit(items) => items,
            ReturnItems::All => {
                return None;
            },
        };
        if !has_both(items) {
            return None;
        }
        let known = match find_constants(items, &opaque, &nonempty) {
            Some(k) => k,
            None => {
                return None;
            },
        };
        let returned = match returned_items(ret) {
            Some(v) => v,
            None => {
                return None;
            },
        };
        let mut variables: Vec<String> = Vec::new();
        let mut row: Vec<Option<sparql::GroundTerm>> = Vec::new();
        let mut columns: Vec<ProjectedColumn> = Vec::new();
        let ghost pairs = Seq::new(
            returned@.len(),
            |i: int|
                (
                    name_of(returned@[i]),
                    returned_value(
                        returned@[i],
                        known@,
                        texts(opaque@),
                        texts(nonempty@),
                    ).unwrap(),
                ),
        );
        #[verifier::loop_isolation(false)]
        for i in 0..returned.len()
            invariant
                forall|k: int|
                    0 <= k < i ==> returned_value(
                        #[trigger] returned@[k],
                        known@,
                        texts(opaque@),
                        texts(nonempty@),
                    ) is Some,
                texts(variables@) == row_names(pairs.take(i as int)),
                g::row_of(row@) == row_terms(pairs.take(i as int)),
                columns_of(columns@) == row_columns(pairs.take(i as int)),
        {
            match find_value(&returned[i], &known, &opaque, &nonempty) {
                None => {
                    assert(returned_value(
                        returned@[i as int],
                        known@,
                        texts(opaque@),
                        texts(nonempty@),
                    ) is None);
                    return None;
                },
                Some(b) => {
                    let name = item_name(&returned[i]);
                    let term = Some(sparql::GroundTerm::Literal(boolean_literal(b)));
                    push_scalar_column(&mut columns, &name);
                    proof {
                        g::lemma_push_row(row@, term);
                    }
                    push_text(&mut variables, name);
                    row.push(term);
                    assert(texts(variables@) =~= row_names(pairs.take(i + 1)));
                    assert(g::row_of(row@) =~= row_terms(pairs.take(i + 1)));
                    assert(columns_of(columns@) =~= row_columns(pairs.take(i + 1)));
                },
            }
        }
        assert(pairs.take(returned@.len() as int) =~= pairs);
        if variables.len() == 0 || !any_gives_rows(clauses, &opaque, &nonempty) {
            return None;
        }
        assert(law_row(clauses@) == Some(pairs));
        self.projected_columns = columns;
        let ghost the_row = row;
        let mut bindings: Vec<Vec<Option<sparql::GroundTerm>>> = Vec::new();
        proof {
            g::lemma_push_rows(bindings@, row);
        }
        bindings.push(row);
        assert(g::rows_of(bindings@) =~= seq![g::row_of(the_row@)]);
        Some(sparql::GraphPattern::Values { variables, bindings })
    }
}

} // verus!
