//! Which items of a projection mix aggregates with values that are not grouped.
use vstd::prelude::*;

use crate::ast::copy::clone_expression;
use crate::ast::cypher::Expression;
#[allow(unused_imports)]
use crate::ast::model as m;
use crate::ast::same::same_expression;

verus! {

/// The variables and properties that an expression reads outside aggregates,
/// from left to right.
pub open spec fn free_terms(e: m::Expression) -> Seq<m::Expression>
    decreases e, 0int,
{
    match e {
        m::Expression::Variable(v) => seq![e],
        m::Expression::Property(b, k) => seq![e],
        m::Expression::Or(a, b) => free_terms(*a) + free_terms(*b),
        m::Expression::And(a, b) => free_terms(*a) + free_terms(*b),
        m::Expression::Add(a, b) => free_terms(*a) + free_terms(*b),
        m::Expression::Subtract(a, b) => free_terms(*a) + free_terms(*b),
        m::Expression::Multiply(a, b) => free_terms(*a) + free_terms(*b),
        m::Expression::Divide(a, b) => free_terms(*a) + free_terms(*b),
        m::Expression::Modulo(a, b) => free_terms(*a) + free_terms(*b),
        m::Expression::Power(a, b) => free_terms(*a) + free_terms(*b),
        m::Expression::Comparison(a, op, b) => free_terms(*a) + free_terms(*b),
        m::Expression::Not(a) => free_terms(*a),
        m::Expression::Negate(a) => free_terms(*a),
        m::Expression::IsNull(a) => free_terms(*a),
        m::Expression::IsNotNull(a) => free_terms(*a),
        m::Expression::FunctionCall { name, distinct, args } => free_terms_of(
            args,
            args.len() as int,
        ),
        _ => seq![],
    }
}

/// Those of the first `k` expressions.
pub open spec fn free_terms_of(args: Seq<m::Expression>, k: int) -> Seq<m::Expression>
    decreases args, k,
{
    if k <= 0 || k > args.len() {
        seq![]
    } else {
        free_terms_of(args, k - 1) + free_terms(args[k - 1])
    }
}

fn append(a: Vec<Expression>, b: Vec<Expression>) -> (r: Vec<Expression>)
    ensures
        m::exprs_of(r@) == m::exprs_of(a@) + m::exprs_of(b@),
{
    let mut r = a;
    let mut b = b;
    proof {
        m::lemma_add_exprs_of(a@, b@);
    }
    r.append(&mut b);
    r
}

/// The variables and properties that an expression reads outside aggregates.
pub fn atomic_free_terms(expr: &Expression) -> (r: Vec<Expression>)
    ensures
        m::exprs_of(r@) == free_terms(m::expression_of(*expr)),
    decreases expr,
{
    match expr {
        Expression::Variable(_) | Expression::Property(_, _) => {
            let mut r: Vec<Expression> = Vec::new();
            let e = clone_expression(expr);
            proof {
                m::lemma_push_exprs_of(r@, e);
            }
            r.push(e);
            assert(m::exprs_of(r@) =~= seq![m::expression_of(*expr)]);
            r
        },
        Expression::Or(a, b)
        | Expression::And(a, b)
        | Expression::Add(a, b)
        | Expression::Subtract(a, b)
        | Expression::Multiply(a, b)
        | Expression::Divide(a, b)
        | Expression::Modulo(a, b)
        | Expression::Power(a, b)
        | Expression::Comparison(a, _, b) => append(atomic_free_terms(a), atomic_free_terms(b)),
        Expression::Not(a)
        | Expression::Negate(a)
        | Expression::IsNull(a)
        | Expression::IsNotNull(a) => atomic_free_terms(a),
        Expression::FunctionCall { name: _, distinct: _, args } => {
            let ghost es = m::exprs_of(args@);
            proof {
                m::lemma_exprs_of(args@);
            }
            let mut r: Vec<Expression> = Vec::new();
            assert(m::exprs_of(r@) =~= seq![]);
            #[verifier::loop_isolation(false)]
            for i in 0..args.len()
                invariant
                    m::exprs_of(r@) == free_terms_of(es, i as int),
            {
                r = append(r, atomic_free_terms(&args[i]));
            }
            r
        },
        _ => {
            let r: Vec<Expression> = Vec::new();
            assert(m::exprs_of(r@) =~= seq![]);
            r
        },
    }
}

/// Whether an item that mixes an aggregate with other values reads something
/// that is not among the items it is grouped by.
pub open spec fn is_ambiguous(item: m::Expression, others: Seq<m::Expression>) -> bool {
    others.len() == 0 || exists|i: int|
        0 <= i < free_terms(item).len() && !others.contains(#[trigger] free_terms(item)[i])
}

fn is_among(e: &Expression, v: &Vec<Expression>) -> (r: bool)
    ensures
        r == m::exprs_of(v@).contains(m::expression_of(*e)),
{
    let ghost es = m::exprs_of(v@);
    proof {
        m::lemma_exprs_of(v@);
    }
    #[verifier::loop_isolation(false)]
    for i in 0..v.len()
        invariant
            forall|k: int| 0 <= k < i ==> #[trigger] es[k] != m::expression_of(*e),
    {
        if same_expression(&v[i], e) {
            assert(es[i as int] == m::expression_of(*e));
            return true;
        }
        assert(es[i as int] == m::expression_of(v@[i as int]));
    }
    false
}

/// Whether an item with an aggregate is ambiguous beside the items without one.
pub fn is_ambiguous_aggregation(item: &Expression, non_agg_items: &Vec<Expression>) -> (r: bool)
    ensures
        r == is_ambiguous(m::expression_of(*item), m::exprs_of(non_agg_items@)),
{
    proof {
        m::lemma_exprs_of(non_agg_items@);
    }
    if non_agg_items.len() == 0 {
        return true;
    }
    let terms = atomic_free_terms(item);
    let ghost ts = m::exprs_of(terms@);
    let ghost others = m::exprs_of(non_agg_items@);
    proof {
        m::lemma_exprs_of(terms@);
    }
    #[verifier::loop_isolation(false)]
    for i in 0..terms.len()
        invariant
            forall|k: int| 0 <= k < i ==> others.contains(#[trigger] ts[k]),
    {
        let ghost here = ts[i as int];
        if !is_among(&terms[i], non_agg_items) {
            assert(!others.contains(free_terms(m::expression_of(*item))[i as int]));
            return true;
        }
    }
    false
}

} // verus!
