//! The law of temporal properties: what is written for a property computes it.
use vstd::prelude::*;

#[allow(unused_imports)]
use crate::sparql::model as g;
#[allow(unused_imports)]
use crate::text::{dec, digits};
#[allow(unused_imports)]
use crate::translator::formula::{expand, integer, quoted, Formula};
#[allow(unused_imports)]
use crate::translator::laws::calendar::{
    bound_numbers, first_at, holds_given, lemma_bound_len, lemma_unsigned, number_given, piece,
    property_number, reading, text_given,
};
#[allow(unused_imports)]
use crate::translator::laws::dates::lemma_digits_read;
#[allow(unused_imports)]
use crate::translator::laws::fresh::law_fresh_names_differ;
#[allow(unused_imports)]
use crate::translator::temporal::{
    property_value, result_formula, step_at, step_count, step_names, steps, Property,
};

verus! {

// ── What an expression gives ─────────────────────────────────────────────────

/// The text that SPARQL gives for an expression over a value, whose text is `t`.
pub open spec fn expr_text(e: g::Expr, value: g::Expr, t: Seq<char>) -> Seq<char>
    decreases e,
{
    match e {
        g::Expr::Literal(l) => if l.datatype is None {
            l.value
        } else {
            seq![]
        },
        g::Expr::If(c, a, b) => if expr_holds(*c, value, t) {
            expr_text(*a, value, t)
        } else {
            expr_text(*b, value, t)
        },
        g::Expr::Call(f, args) => if f is Str && args.len() == 1 && args[0] == value {
            t
        } else if f is SubStr && args.len() == 3 {
            piece(expr_text(args[0], value, t), literal_number(args[1]), literal_number(args[2]))
        } else if f is StrAfter && args.len() == 2 {
            match first_at(expr_text(args[0], value, t), expr_text(args[1], value, t), 0) {
                Some(i) => expr_text(args[0], value, t).skip(
                    i + expr_text(args[1], value, t).len(),
                ),
                None => seq![],
            }
        } else if f is StrBefore && args.len() == 2 {
            match first_at(expr_text(args[0], value, t), expr_text(args[1], value, t), 0) {
                Some(i) => expr_text(args[0], value, t).take(i),
                None => seq![],
            }
        } else if f is Concat && args.len() == 2 {
            expr_text(args[0], value, t) + expr_text(args[1], value, t)
        } else {
            seq![]
        },
        _ => seq![],
    }
}

pub open spec fn literal_number(e: g::Expr) -> int {
    match e {
        g::Expr::Literal(l) => reading(l.value),
        _ => 0,
    }
}

/// Whether a condition holds.
pub open spec fn expr_holds(e: g::Expr, value: g::Expr, t: Seq<char>) -> bool
    decreases e,
{
    match e {
        g::Expr::Call(f, args) => f is Contains && args.len() == 2 && first_at(
            expr_text(args[0], value, t),
            expr_text(args[1], value, t),
            0,
        ) is Some,
        g::Expr::Equal(a, b) => expr_text(*a, value, t) == expr_text(*b, value, t),
        _ => false,
    }
}

/// The number that a variable is bound to.
pub open spec fn number_bound(v: Seq<char>, names: Seq<Seq<char>>, bound: Seq<int>) -> int {
    if names.contains(v) {
        bound[names.index_of(v)]
    } else {
        0
    }
}

/// The number that SPARQL gives for an expression over a value, whose text is
/// `t`, and over variables that are bound to numbers. A quotient stands only
/// where it is rounded at once.
pub open spec fn expr_number(
    e: g::Expr,
    value: g::Expr,
    t: Seq<char>,
    names: Seq<Seq<char>>,
    bound: Seq<int>,
) -> int
    decreases e,
{
    match e {
        g::Expr::Literal(l) => reading(l.value),
        g::Expr::Variable(v) => number_bound(v, names, bound),
        g::Expr::CustomCall(_, args) => if args.len() == 1 {
            expr_number(args[0], value, t, names, bound)
        } else {
            0
        },
        g::Expr::Call(f, args) => if f is Floor && args.len() == 1 {
            match args[0] {
                g::Expr::Divide(x, y) => expr_number(*x, value, t, names, bound) / expr_number(
                    *y,
                    value,
                    t,
                    names,
                    bound,
                ),
                _ => expr_number(args[0], value, t, names, bound),
            }
        } else if f is Ceil && args.len() == 1 {
            match args[0] {
                g::Expr::Divide(x, y) => -(-expr_number(*x, value, t, names, bound)
                    / expr_number(*y, value, t, names, bound)),
                _ => expr_number(args[0], value, t, names, bound),
            }
        } else {
            reading(expr_text(e, value, t))
        },
        g::Expr::UnaryMinus(a) => -expr_number(*a, value, t, names, bound),
        g::Expr::Add(a, b) => expr_number(*a, value, t, names, bound) + expr_number(
            *b,
            value,
            t,
            names,
            bound,
        ),
        g::Expr::Subtract(a, b) => expr_number(*a, value, t, names, bound) - expr_number(
            *b,
            value,
            t,
            names,
            bound,
        ),
        g::Expr::Multiply(a, b) => expr_number(*a, value, t, names, bound) * expr_number(
            *b,
            value,
            t,
            names,
            bound,
        ),
        g::Expr::If(c, a, b) => if expr_holds(*c, value, t) {
            expr_number(*a, value, t, names, bound)
        } else {
            expr_number(*b, value, t, names, bound)
        },
        _ => reading(expr_text(e, value, t)),
    }
}

// ── Formulas as expressions ──────────────────────────────────────────────────

proof fn lemma_integer(n: int)
    ensures
        literal_number(integer(n)) == n,
{
    reveal_strlit("-");
    if n >= 0 {
        lemma_digits_read(n as nat);
        lemma_unsigned(digits(n as nat));
    } else {
        lemma_digits_read((-n) as nat);
        assert(dec(n).skip(1) =~= digits((-n) as nat));
    }
}

proof fn lemma_text(f: Formula, value: g::Expr, t: Seq<char>, names: Seq<Seq<char>>)
    ensures
        expr_text(expand(f, value, names), value, t) == text_given(f, t),
    decreases f, 1int,
{
    match f {
        Formula::Cut(a, from, len) => {
            lemma_text(*a, value, t, names);
            lemma_integer(from as int);
            lemma_integer(len as int);
            let e = expand(f, value, names);
            assert(e->Call_1[0] == expand(*a, value, names));
            assert(e->Call_1[1] == integer(from as int));
            assert(e->Call_1[2] == integer(len as int));
        },
        Formula::After(a, s) => {
            lemma_text(*a, value, t, names);
            assert(expr_text(quoted(s@), value, t) == s@);
        },
        Formula::Before(a, s) => {
            lemma_text(*a, value, t, names);
            assert(expr_text(quoted(s@), value, t) == s@);
        },
        Formula::Join(a, b) => {
            lemma_text(*a, value, t, names);
            lemma_text(*b, value, t, names);
        },
        Formula::Branch(c, a, b) => {
            lemma_holds(*c, value, t, names);
            lemma_text(*a, value, t, names);
            lemma_text(*b, value, t, names);
        },
        _ => {},
    }
}

proof fn lemma_holds(f: Formula, value: g::Expr, t: Seq<char>, names: Seq<Seq<char>>)
    ensures
        expr_holds(expand(f, value, names), value, t) == holds_given(f, t),
    decreases f, 0int,
{
    match f {
        Formula::Has(a, s) => {
            lemma_text(*a, value, t, names);
            assert(expr_text(quoted(s@), value, t) == s@);
        },
        Formula::Same(a, b) => {
            lemma_text(*a, value, t, names);
            lemma_text(*b, value, t, names);
        },
        _ => {},
    }
}

/// Whether no two names are the same, and none is empty.
spec fn all_differ(names: Seq<Seq<char>>) -> bool {
    &&& forall|i: int| 0 <= i < names.len() ==> (#[trigger] names[i]).len() > 0
    &&& forall|i: int, j: int|
        0 <= i < j < names.len() ==> #[trigger] names[i] != #[trigger] names[j]
}

proof fn lemma_number(
    f: Formula,
    value: g::Expr,
    t: Seq<char>,
    names: Seq<Seq<char>>,
    bound: Seq<int>,
)
    requires
        all_differ(names),
        names.len() == bound.len(),
    ensures
        expr_number(expand(f, value, names), value, t, names, bound) == number_given(f, t, bound),
    decreases f,
{
    lemma_text(f, value, t, names);
    reveal_with_fuel(number_given, 2);
    match f {
        Formula::Count(n) => lemma_integer(n as int),
        Formula::Bound(k) => {
            if k < names.len() {
                assert(names.contains(names[k as int]));
            }
        },
        Formula::Whole(a) => lemma_number(*a, value, t, names, bound),
        Formula::Decimal(a) => lemma_number(*a, value, t, names, bound),
        Formula::Floor(a) => {
            lemma_number(*a, value, t, names, bound);
            if let Formula::Over(x, y) = *a {
                lemma_number(*x, value, t, names, bound);
                lemma_number(*y, value, t, names, bound);
            }
        },
        Formula::Ceil(a) => {
            lemma_number(*a, value, t, names, bound);
            if let Formula::Over(x, y) = *a {
                lemma_number(*x, value, t, names, bound);
                lemma_number(*y, value, t, names, bound);
            }
        },
        Formula::Negative(a) => lemma_number(*a, value, t, names, bound),
        Formula::Plus(a, b) => {
            lemma_number(*a, value, t, names, bound);
            lemma_number(*b, value, t, names, bound);
        },
        Formula::Minus(a, b) => {
            lemma_number(*a, value, t, names, bound);
            lemma_number(*b, value, t, names, bound);
        },
        Formula::Times(a, b) => {
            lemma_number(*a, value, t, names, bound);
            lemma_number(*b, value, t, names, bound);
        },
        Formula::Branch(c, a, b) => {
            lemma_holds(*c, value, t, names);
            lemma_number(*a, value, t, names, bound);
            lemma_number(*b, value, t, names, bound);
        },
        _ => {},
    }
}

// ── The law ──────────────────────────────────────────────────────────────────

/// The names of the first `n` bindings.
pub open spec fn names_of(bindings: Seq<(Seq<char>, g::Expr)>, n: int) -> Seq<Seq<char>> {
    Seq::new(n as nat, |i: int| bindings[i].0)
}

/// The numbers that the first `n` bindings give, each over those before it.
pub open spec fn numbers_of(
    bindings: Seq<(Seq<char>, g::Expr)>,
    n: int,
    value: g::Expr,
    t: Seq<char>,
) -> Seq<int>
    decreases n,
{
    if n <= 0 {
        seq![]
    } else {
        let before = numbers_of(bindings, n - 1, value, t);
        before.push(
            expr_number(bindings[n - 1].1, value, t, names_of(bindings, n - 1), before),
        )
    }
}

proof fn lemma_names_differ(p: Property, n: int, counter: int)
    requires
        0 <= n,
        0 <= counter,
    ensures
        all_differ(step_names(p, n, counter)),
{
    let names = step_names(p, n, counter);
    reveal_strlit("__");
    assert forall|i: int, j: int| 0 <= i < j < names.len() implies #[trigger] names[i]
        != #[trigger] names[j] by {
        law_fresh_names_differ(
            step_at(p, i as usize).hint@,
            (counter + i) as nat,
            step_at(p, j as usize).hint@,
            (counter + j) as nat,
        );
    }
}

proof fn lemma_bindings(p: Property, n: int, all: int, counter: int, value: g::Expr, t: Seq<char>)
    requires
        0 <= n <= all,
        0 <= counter,
    ensures
        names_of(steps(p, all, counter, value), n) == step_names(p, n, counter),
        numbers_of(steps(p, all, counter, value), n, value, t) == bound_numbers(p, n, t),
    decreases n,
{
    let bindings = steps(p, all, counter, value);
    assert(names_of(bindings, n) =~= step_names(p, n, counter));
    if n > 0 {
        lemma_bindings(p, n - 1, all, counter, value, t);
        lemma_names_differ(p, n - 1, counter);
        lemma_bound_len(p, n - 1, t);
        lemma_number(
            step_at(p, (n - 1) as usize).formula,
            value,
            t,
            step_names(p, n - 1, counter),
            bound_numbers(p, n - 1, t),
        );
    }
}

/// The expression of a property, over the bindings that are left pending for it,
/// gives the number that the property is.
pub proof fn law_property_is_computed(p: Property, counter: int, value: g::Expr, t: Seq<char>)
    requires
        0 <= counter,
        property_value(p, counter, value) is Some,
    ensures
        ({
            let bindings = steps(p, step_count(p) as int, counter, value);
            let n = bindings.len() as int;
            expr_number(
                property_value(p, counter, value).unwrap(),
                value,
                t,
                names_of(bindings, n),
                numbers_of(bindings, n, value, t),
            ) == property_number(p, t)
        }),
{
    let n = step_count(p) as int;
    lemma_bindings(p, n, n, counter, value, t);
    lemma_names_differ(p, n, counter);
    lemma_bound_len(p, n, t);
    lemma_number(
        result_formula(p)->Some_0,
        value,
        t,
        step_names(p, n, counter),
        bound_numbers(p, n, t),
    );
}

} // verus!
