//! The laws of fresh variables: no two have the same name, and each property
//! that is asked for takes one.
use vstd::prelude::*;

#[allow(unused_imports)]
use crate::ast::model as m;
#[allow(unused_imports)]
use crate::sparql::model as g;
#[allow(unused_imports)]
use crate::text::{digits, lists, texts};
#[allow(unused_imports)]
use crate::translator::constant::is_null;
#[allow(unused_imports)]
use crate::translator::expr::forms::property_hint;
#[allow(unused_imports)]
use crate::translator::expr::meaning::{graph_property, property, property_of, translated};
#[allow(unused_imports)]
use crate::translator::refusal::Refusal;
#[allow(unused_imports)]
use crate::translator::resolve::{hops_in, named_variable, resolved_map};
#[allow(unused_imports)]
use crate::translator::scope::{fresh_name, knows_nothing, next_number, Out, Scope};

verus! {

proof fn lemma_digits(n: nat)
    ensures
        digits(n).len() > 0,
        forall|i: int| 0 <= i < digits(n).len() ==> '0' <= #[trigger] digits(n)[i] <= '9',
    decreases n,
{
    if n >= 10 {
        lemma_digits(n / 10);
    }
}

proof fn lemma_digits_differ(x: nat, y: nat)
    requires
        digits(x) == digits(y),
    ensures
        x == y,
    decreases x,
{
    lemma_digits(x / 10);
    lemma_digits(y / 10);
    if x < 10 && y < 10 {
        assert(digits(x)[0] as int == 48 + x);
        assert(digits(y)[0] as int == 48 + y);
    } else if x < 10 {
        assert(digits(y).len() > 1);
        assert(false);
    } else if y < 10 {
        assert(digits(x).len() > 1);
        assert(false);
    } else {
        let p = digits(x / 10);
        let q = digits(y / 10);
        assert(digits(x).last() as int == 48 + x % 10);
        assert(digits(y).last() as int == 48 + y % 10);
        assert(digits(x).drop_last() =~= p);
        assert(digits(y).drop_last() =~= q);
        lemma_digits_differ(x / 10, y / 10);
    }
}

/// Where the digits at the end of a name begin.
proof fn lemma_tail(hint: Seq<char>, n: nat)
    ensures
        ({
            let name = fresh_name(hint, n as int);
            let at = (2 + hint.len()) as int;
            &&& name.len() == at + 1 + digits(n).len()
            &&& name[at] == '_'
            &&& forall|i: int| at < i < name.len() ==> '0' <= #[trigger] name[i] <= '9'
            &&& name.skip(at + 1) == digits(n)
            &&& name.subrange(2, at) == hint
        }),
{
    reveal_strlit("__");
    reveal_strlit("_");
    lemma_digits(n);
    let name = fresh_name(hint, n as int);
    let at = (2 + hint.len()) as int;
    assert(name.skip(at + 1) =~= digits(n));
    assert(name.subrange(2, at) =~= hint);
    assert forall|i: int| at < i < name.len() implies '0' <= #[trigger] name[i] <= '9' by {
        assert(name[i] == digits(n)[i - at - 1]);
    }
}

/// Two fresh variables with different numbers, or made for different purposes,
/// have different names.
pub proof fn law_fresh_names_differ(h: Seq<char>, x: nat, k: Seq<char>, y: nat)
    requires
        x != y || h != k,
    ensures
        fresh_name(h, x as int) != fresh_name(k, y as int),
{
    if fresh_name(h, x as int) == fresh_name(k, y as int) {
        let name = fresh_name(h, x as int);
        lemma_tail(h, x);
        lemma_tail(k, y);
        let a = (2 + h.len()) as int;
        let b = (2 + k.len()) as int;
        lemma_digits(x);
        lemma_digits(y);
        if a < b {
            assert('0' <= name[b] <= '9');
        } else if b < a {
            assert('0' <= name[a] <= '9');
        }
        assert(a == b);
        lemma_digits_differ(x, y);
    }
}

/// What is left to do after properties of variables have been translated one
/// after the other.
pub open spec fn after_properties(
    asked: Seq<(Seq<char>, Seq<char>)>,
    s: Scope,
    o: Out,
    depth: nat,
) -> Out
    decreases asked.len(),
{
    if asked.len() == 0 {
        o
    } else {
        translated(
            property_of(asked.last().0, asked.last().1),
            s,
            after_properties(asked.drop_last(), s, o, depth),
            depth,
        ).out
    }
}

/// The variable that is taken for a property.
pub open spec fn property_variable(v: Seq<char>, key: Seq<char>, n: int) -> Seq<char> {
    fresh_name(property_hint(v, key), n)
}

proof fn lemma_property(v: Seq<char>, key: Seq<char>, s: Scope, o: Out, depth: nat)
    requires
        knows_nothing(s),
        depth > 0,
    ensures
        ({
            let w = property_variable(v, key, o.counter);
            let d = translated(property_of(v, key), s, o, depth);
            &&& d.result == Ok::<g::Expr, Refusal>(g::Expr::Variable(w))
            &&& d.out == (Out {
                counter: next_number(o.counter),
                extra: o.extra.push(
                    g::TriplePattern {
                        subject: g::Term::Variable(v),
                        predicate: g::Predicate::NamedNode(s.base_iri@ + key),
                        object: g::Term::Variable(w),
                    },
                ),
                ..o
            })
        }),
{
    let base = m::Expression::Variable(v);
    assert(!is_null(base));
    assert(texts(s.null_vars@).len() == 0);
    assert(!lists(texts(s.null_vars@), v));
    assert(resolved_map(base, s, hops_in(s)) is None);
    assert(translated(property_of(v, key), s, o, depth) == property(base, key, s, o, depth));
    assert(property(base, key, s, o, depth) == graph_property(base, key, s, o));
    assert(named_variable(base, s) == Ok::<Seq<char>, Refusal>(v));
}

proof fn lemma_after_properties(
    asked: Seq<(Seq<char>, Seq<char>)>,
    s: Scope,
    o: Out,
    depth: nat,
)
    requires
        knows_nothing(s),
        depth > 0,
        0 <= o.counter,
        o.counter + asked.len() <= u64::MAX,
    ensures
        after_properties(asked, s, o, depth).counter == o.counter + asked.len(),
    decreases asked.len(),
{
    if asked.len() > 0 {
        let (v, key) = asked.last();
        lemma_after_properties(asked.drop_last(), s, o, depth);
        lemma_property(v, key, s, after_properties(asked.drop_last(), s, o, depth), depth);
    }
}

/// Where nothing is known of the variables, each property that is asked for, of
/// whatever variable and however often, is a new variable: not the one whose
/// property it is, nor one taken for another asking. Exactly one triple is added
/// for it, from the variable by the property to the new variable.
pub proof fn law_each_property_is_new(
    asked: Seq<(Seq<char>, Seq<char>)>,
    s: Scope,
    o: Out,
    depth: nat,
    i: int,
    j: int,
)
    requires
        knows_nothing(s),
        depth > 0,
        0 <= o.counter,
        o.counter + asked.len() <= u64::MAX,
        0 <= i < asked.len(),
        0 <= j < asked.len(),
    ensures
        ({
            let before = after_properties(asked.take(i), s, o, depth);
            let (v, key) = asked[i];
            let w = property_variable(v, key, o.counter + i);
            let d = translated(property_of(v, key), s, before, depth);
            &&& d.result == Ok::<g::Expr, Refusal>(g::Expr::Variable(w))
            &&& d.out.extra == before.extra.push(
                g::TriplePattern {
                    subject: g::Term::Variable(v),
                    predicate: g::Predicate::NamedNode(s.base_iri@ + key),
                    object: g::Term::Variable(w),
                },
            )
            &&& d.out == after_properties(asked.take(i + 1), s, o, depth)
            &&& w != v
            &&& i != j ==> w != property_variable(asked[j].0, asked[j].1, o.counter + j)
        }),
{
    let (v, key) = asked[i];
    lemma_after_properties(asked.take(i), s, o, depth);
    lemma_property(v, key, s, after_properties(asked.take(i), s, o, depth), depth);
    assert(asked.take(i + 1).drop_last() =~= asked.take(i));
    let w = property_variable(v, key, o.counter + i);
    assert(w.len() > v.len()) by {
        reveal_strlit("__");
    }
    if i != j {
        law_fresh_names_differ(
            property_hint(v, key),
            (o.counter + i) as nat,
            property_hint(asked[j].0, asked[j].1),
            (o.counter + j) as nat,
        );
    }
}

} // verus!
