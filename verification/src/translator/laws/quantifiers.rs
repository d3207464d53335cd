//! The laws of quantifiers: what is folded to a constant has that value whatever
//! the lists hold.
use vstd::prelude::*;

#[allow(unused_imports)]
use crate::ast::cypher::{CompOp, QuantifierKind};
#[allow(unused_imports)]
use crate::ast::model as m;
#[allow(unused_imports)]
use crate::text::{lists, same_ignoring_case};
#[allow(unused_imports)]
use crate::translator::constant::{const_bool, literal_int};
#[allow(unused_imports)]
use crate::translator::quantifier::{canonical, predicate_or_true, stripped, tautology, Form};

verus! {

/// What the lists hold: how many elements each has, and which of these satisfy
/// which predicates. A predicate reads the element from a variable, which is the
/// first argument; the others are the list, the predicate and the place.
pub ghost struct World {
    pub len: spec_fn(Seq<char>) -> nat,
    pub satisfies: spec_fn(Seq<char>, Seq<char>, m::Expression, int) -> bool,
}

/// Every predicate is true or false of every element, its negation is the
/// opposite, and a constant is what it is.
pub open spec fn is_world(w: World) -> bool {
    &&& forall|x: Seq<char>, v: Seq<char>, p: m::Expression, i: int|
        #![trigger (w.satisfies)(x, v, m::Expression::Not(Box::new(p)), i)]
        (w.satisfies)(x, v, m::Expression::Not(Box::new(p)), i) == !(w.satisfies)(x, v, p, i)
    &&& forall|x: Seq<char>, v: Seq<char>, p: m::Expression, i: int|
        #![trigger (w.satisfies)(x, v, p, i)]
        match const_bool(p) {
            Some(Some(b)) => (w.satisfies)(x, v, p, i) == b,
            _ => true,
        }
}

/// How many of the first `k` elements of a list satisfy a predicate, or where
/// `negated` do not.
pub open spec fn count(
    w: World,
    x: Seq<char>,
    v: Seq<char>,
    p: m::Expression,
    negated: bool,
    k: nat,
) -> nat
    decreases k,
{
    if k == 0 {
        0
    } else {
        let before = count(w, x, v, p, negated, (k - 1) as nat);
        if (w.satisfies)(x, v, p, k - 1) != negated {
            before + 1
        } else {
            before
        }
    }
}

/// How many elements of a list satisfy a predicate.
pub open spec fn satisfying(
    w: World,
    x: Seq<char>,
    v: Seq<char>,
    p: m::Expression,
    negated: bool,
) -> nat {
    count(w, x, v, p, negated, (w.len)(v))
}

/// The value of a quantifier.
pub open spec fn quantified(
    w: World,
    kind: QuantifierKind,
    x: Seq<char>,
    v: Seq<char>,
    p: m::Expression,
) -> bool {
    let n = satisfying(w, x, v, p, false);
    match kind {
        QuantifierKind::NoneOf => n == 0,
        QuantifierKind::Any => n > 0,
        QuantifierKind::All => n == (w.len)(v),
        QuantifierKind::Single => n == 1,
    }
}

/// The variable, the list and the predicate of
/// `size([x IN list WHERE predicate])`.
pub open spec fn sized(e: m::Expression) -> Option<(Seq<char>, Seq<char>, m::Expression)> {
    match e {
        m::Expression::FunctionCall { name, distinct, args } => if same_ignoring_case(
            name,
            "size"@,
        ) && args.len() > 0 {
            match args[0] {
                m::Expression::ListComprehension { variable, list, predicate, projection } => match *list {
                    m::Expression::Variable(v) => Some((variable, v, predicate_or_true(predicate))),
                    _ => None,
                },
                _ => None,
            }
        } else {
            None
        },
        _ => None,
    }
}

/// The number that an expression is: a literal, or the size of a list.
pub open spec fn number(w: World, e: m::Expression) -> Option<int> {
    match literal_int(e) {
        Some(n) => Some(n),
        None => match e {
            m::Expression::FunctionCall { name, distinct, args } => if same_ignoring_case(
                name,
                "size"@,
            ) && args.len() > 0 {
                match args[0] {
                    m::Expression::Variable(v) => Some((w.len)(v) as int),
                    _ => None,
                }
            } else {
                None
            },
            _ => None,
        },
    }
}

pub open spec fn compared(op: CompOp, x: int, y: int) -> Option<bool> {
    match op {
        CompOp::Eq => Some(x == y),
        CompOp::Gt => Some(x > y),
        _ => None,
    }
}

/// The value of a condition on lists; nothing where the lists do not decide it.
pub open spec fn value(w: World, e: m::Expression) -> Option<bool>
    decreases e,
{
    match e {
        m::Expression::QuantifierExpr { kind, variable, list, predicate } => match *list {
            m::Expression::Variable(v) => Some(
                quantified(w, kind, variable, v, predicate_or_true(predicate)),
            ),
            _ => None,
        },
        m::Expression::Not(a) => match value(w, *a) {
            Some(b) => Some(!b),
            None => None,
        },
        m::Expression::And(a, b) => {
            let x = value(w, *a);
            let y = value(w, *b);
            if x == Some(false) || y == Some(false) {
                Some(false)
            } else if x == Some(true) && y == Some(true) {
                Some(true)
            } else {
                None
            }
        },
        m::Expression::Or(a, b) => {
            let x = value(w, *a);
            let y = value(w, *b);
            if x == Some(true) || y == Some(true) {
                Some(true)
            } else if x == Some(false) && y == Some(false) {
                Some(false)
            } else {
                None
            }
        },
        m::Expression::Comparison(a, op, b) => match (sized(*a), number(w, *b)) {
            (Some(s), Some(n)) => compared(op, satisfying(w, s.0, s.1, s.2, false) as int, n),
            _ => match (value(w, *a), value(w, *b)) {
                (Some(x), Some(y)) => if op is Eq {
                    Some(x == y)
                } else {
                    None
                },
                _ => None,
            },
        },
        _ => None,
    }
}

/// Whether the quantifiers of a condition all have the same variable.
pub open spec fn binds_only(e: m::Expression, x: Seq<char>) -> bool
    decreases e,
{
    match e {
        m::Expression::QuantifierExpr { kind, variable, list, predicate } => variable == x,
        m::Expression::Not(a) => binds_only(*a, x),
        m::Expression::And(a, b) => binds_only(*a, x) && binds_only(*b, x),
        m::Expression::Or(a, b) => binds_only(*a, x) && binds_only(*b, x),
        m::Expression::Comparison(a, op, b) => match sized(*a) {
            Some(s) => s.0 == x,
            None => binds_only(*a, x) && binds_only(*b, x),
        },
        _ => true,
    }
}

/// The value of a normal form.
pub open spec fn form_value(w: World, x: Seq<char>, f: Form) -> bool {
    let n = satisfying(w, x, f.list, f.predicate, f.negated);
    if f.kind == 0 {
        n == 0
    } else if f.kind == 1 {
        n > 0
    } else {
        n == 1
    }
}

proof fn lemma_stripped(w: World, x: Seq<char>, v: Seq<char>, p: m::Expression, i: int)
    requires
        is_world(w),
    ensures
        (w.satisfies)(x, v, p, i) == ((w.satisfies)(x, v, stripped(p).1, i) != stripped(p).0),
    decreases p,
{
    if let m::Expression::Not(a) = p {
        lemma_stripped(w, x, v, *a, i);
        assert(p == m::Expression::Not(Box::new(*a)));
        assert((w.satisfies)(x, v, m::Expression::Not(Box::new(*a)), i) == !(w.satisfies)(x, v, *a, i));
    }
}

proof fn lemma_count_stripped(
    w: World,
    x: Seq<char>,
    v: Seq<char>,
    p: m::Expression,
    negated: bool,
    k: nat,
)
    requires
        is_world(w),
    ensures
        count(w, x, v, p, negated, k) == count(w, x, v, stripped(p).1, stripped(p).0 != negated, k),
    decreases k,
{
    if k > 0 {
        lemma_count_stripped(w, x, v, p, negated, (k - 1) as nat);
        lemma_stripped(w, x, v, p, k - 1);
    }
}

proof fn lemma_count_both(w: World, x: Seq<char>, v: Seq<char>, p: m::Expression, k: nat)
    ensures
        count(w, x, v, p, false, k) + count(w, x, v, p, true, k) == k,
    decreases k,
{
    if k > 0 {
        lemma_count_both(w, x, v, p, (k - 1) as nat);
    }
}

proof fn lemma_count_constant(
    w: World,
    x: Seq<char>,
    v: Seq<char>,
    p: m::Expression,
    b: bool,
    k: nat,
)
    requires
        is_world(w),
        const_bool(p) == Some(Some(b)),
    ensures
        count(w, x, v, p, false, k) == (if b {
            k
        } else {
            0
        }),
    decreases k,
{
    if k > 0 {
        lemma_count_constant(w, x, v, p, b, (k - 1) as nat);
        assert((w.satisfies)(x, v, p, k - 1) == b);
    }
}

/// The value of a quantifier, and of what says the same with the size of a list,
/// is that of its normal form.
pub proof fn law_canonical_form_decides(
    w: World,
    x: Seq<char>,
    e: m::Expression,
    names: Seq<Seq<char>>,
)
    requires
        is_world(w),
        binds_only(e, x),
        canonical(e, names) is Some,
    ensures
        value(w, e) == Some(form_value(w, x, canonical(e, names).unwrap())),
    decreases e,
{
    match e {
        m::Expression::QuantifierExpr { kind, variable, list, predicate } => {
            let v = list->Variable_0;
            let p = predicate_or_true(predicate);
            lemma_count_stripped(w, x, v, p, false, (w.len)(v));
            lemma_count_stripped(w, x, v, p, true, (w.len)(v));
            lemma_count_both(w, x, v, p, (w.len)(v));
        },
        m::Expression::Not(a) => {
            law_canonical_form_decides(w, x, *a, names);
        },
        m::Expression::Comparison(lhs, op, rhs) => {
            let (y, v, p) = sized(*lhs).unwrap();
            lemma_count_stripped(w, x, v, p, false, (w.len)(v));
            lemma_count_stripped(w, x, v, p, true, (w.len)(v));
            lemma_count_both(w, x, v, p, (w.len)(v));
        },
        _ => {},
    }
}

/// Two expressions with the same variable and the same normal form are equal,
/// whatever the lists hold.
pub proof fn law_same_form_same_value(
    w: World,
    x: Seq<char>,
    a: m::Expression,
    b: m::Expression,
    names: Seq<Seq<char>>,
)
    requires
        is_world(w),
        binds_only(a, x),
        binds_only(b, x),
        canonical(a, names) is Some,
        canonical(a, names) == canonical(b, names),
    ensures
        value(w, a) is Some,
        value(w, a) == value(w, b),
{
    law_canonical_form_decides(w, x, a, names);
    law_canonical_form_decides(w, x, b, names);
}

/// What is taken for a constant has that value whatever the lists hold, those
/// that are known to have elements having some.
pub proof fn law_tautology_holds(
    w: World,
    x: Seq<char>,
    e: m::Expression,
    opaque: Seq<Seq<char>>,
    nonempty: Seq<Seq<char>>,
)
    requires
        is_world(w),
        binds_only(e, x),
        forall|v: Seq<char>| #[trigger] lists(nonempty, v) ==> (w.len)(v) > 0,
        tautology(e, opaque, nonempty) is Some,
    ensures
        value(w, e) == tautology(e, opaque, nonempty),
    decreases e,
{
    match e {
        m::Expression::QuantifierExpr { kind, variable, list, predicate } => {
            let v = list->Variable_0;
            let p = *predicate.unwrap();
            let b = const_bool(p).unwrap().unwrap();
            lemma_count_constant(w, x, v, p, b, (w.len)(v));
        },
        m::Expression::Comparison(lhs, op, rhs) => {
            law_same_form_same_value(w, x, *lhs, *rhs, opaque);
        },
        m::Expression::Not(a) => {
            law_tautology_holds(w, x, *a, opaque, nonempty);
        },
        m::Expression::And(a, b) => {
            if tautology(*a, opaque, nonempty) is Some {
                law_tautology_holds(w, x, *a, opaque, nonempty);
            }
            if tautology(*b, opaque, nonempty) is Some {
                law_tautology_holds(w, x, *b, opaque, nonempty);
            }
        },
        m::Expression::Or(a, b) => {
            if tautology(*a, opaque, nonempty) is Some {
                law_tautology_holds(w, x, *a, opaque, nonempty);
            }
            if tautology(*b, opaque, nonempty) is Some {
                law_tautology_holds(w, x, *b, opaque, nonempty);
            }
        },
        _ => {},
    }
}

} // verus!
