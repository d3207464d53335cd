//! Lists, maps and variables that an expression is known to stand for.
use vstd::prelude::*;

use crate::ast::copy::{clone_entries, clone_expression, clone_exprs};
use crate::ast::cypher::{Expression, Literal};
#[allow(unused_imports)]
use crate::ast::model as m;
use crate::error::PolygraphError;
use crate::names::NameMap;
use crate::text::same_text;
use crate::translator::constant::{get_literal_int, is_null_literal, try_eval_bool_const};
#[allow(unused_imports)]
use crate::translator::constant::{as_int, const_bool, fits, is_null, literal_int};
use crate::translator::refusal::unsupported_feature;
#[allow(unused_imports)]
use crate::translator::refusal::{refusal_of, Refusal};
use crate::translator::scope::{Entries, Scope};

verus! {

/// How many properties the bindings give to created nodes.
pub open spec fn property_count(nodes: Seq<(String, NameMap<Expression>)>) -> nat
    decreases nodes.len(),
{
    if nodes.len() == 0 {
        0
    } else {
        property_count(nodes.drop_last()) + nodes.last().1.bindings().len()
    }
}

/// How many properties of created nodes are followed to a list, each standing
/// for the next: as many as there are. A chain of more of them never ends.
pub open spec fn hops_in(s: Scope) -> nat {
    let n = property_count(s.node_props_from_create.bindings());
    if n <= usize::MAX {
        n
    } else {
        usize::MAX as nat
    }
}

pub fn find_hops(s: &Scope) -> (r: usize)
    ensures
        r == hops_in(*s),
{
    let ghost nodes = s.node_props_from_create.bindings();
    let mut n: usize = 0;
    #[verifier::loop_isolation(false)]
    for i in 0..s.node_props_from_create.len()
        invariant
            n as nat == (if property_count(nodes.take(i as int)) <= usize::MAX {
                property_count(nodes.take(i as int))
            } else {
                usize::MAX as nat
            }),
    {
        assert(nodes.take(i + 1).drop_last() =~= nodes.take(i as int));
        let more: usize = s.node_props_from_create.value_at(i).len();
        n = if more <= usize::MAX - n {
            n + more
        } else {
            usize::MAX
        };
    }
    assert(nodes.take(nodes.len() as int) =~= nodes);
    n
}

pub open spec fn opt_exprs(o: Option<Vec<Expression>>) -> Option<Seq<m::Expression>> {
    match o {
        Some(v) => Some(m::exprs_of(v@)),
        None => None,
    }
}

// ── Places in lists ──────────────────────────────────────────────────────────

/// The place that an index stands for, a negative one counted from the end.
pub open spec fn place(n: int, len: int) -> Option<int> {
    let i = if n < 0 {
        len + n
    } else {
        n
    };
    if 0 <= i < len {
        Some(i)
    } else {
        None
    }
}

pub fn find_place(n: i64, len: usize) -> (r: Option<usize>)
    ensures
        (match r {
            Some(i) => Some(i as int),
            None => None,
        }) == place(n as int, len as int),
        r matches Some(i) ==> i < len,
{
    let i: i128 = if n < 0 {
        len as i128 + n as i128
    } else {
        n as i128
    };
    if 0 <= i && i < len as i128 {
        Some(i as usize)
    } else {
        None
    }
}

/// The end of a slice that an index stands for: within the list.
pub open spec fn clamped(i: int, len: int) -> int {
    if i < 0 {
        if len + i < 0 {
            0
        } else {
            len + i
        }
    } else if i < len {
        i
    } else {
        len
    }
}

fn clamp_to(i: i64, len: usize) -> (r: usize)
    ensures
        r == clamped(i as int, len as int),
        r <= len,
{
    let n: i128 = len as i128;
    let k: i128 = i as i128;
    let c: i128 = if k < 0 {
        if n + k < 0 {
            0
        } else {
            n + k
        }
    } else if k < n {
        k
    } else {
        n
    };
    c as usize
}

/// What the ends of a slice say.
pub ghost enum Slice {
    /// One of them is null
    Null,
    /// The start is not known
    NoStart,
    /// The end is not known
    NoEnd,
    Range(int, int),
}

pub open spec fn is_null_end(o: Option<Box<m::Expression>>) -> bool {
    o matches Some(e) && is_null(*e)
}

pub open spec fn slice_of(
    start: Option<Box<m::Expression>>,
    end: Option<Box<m::Expression>>,
    len: int,
) -> Slice {
    if is_null_end(start) || is_null_end(end) {
        Slice::Null
    } else {
        match (end_value(start, 0, len), end_value(end, len, len)) {
            (None, _) => Slice::NoStart,
            (_, None) => Slice::NoEnd,
            (Some(s), Some(e)) => Slice::Range(s, e),
        }
    }
}

/// The value of an end of a slice; a default where it is left out.
pub open spec fn end_value(o: Option<Box<m::Expression>>, default: int, len: int) -> Option<int> {
    match o {
        None => Some(default),
        Some(e) => match literal_int(*e) {
            Some(i) => Some(clamped(i, len)),
            None => None,
        },
    }
}

/// The elements from one place up to another.
pub open spec fn cut_out(items: Seq<m::Expression>, s: int, e: int) -> Seq<m::Expression> {
    if e > s {
        items.subrange(s, e)
    } else {
        seq![]
    }
}

/// What the ends of a slice say, as found.
pub enum FoundSlice {
    Null,
    NoStart,
    NoEnd,
    Range(usize, usize),
}

fn null_end(o: &Option<Box<Expression>>) -> (r: bool)
    ensures
        r == is_null_end(m::opt_boxed(*o)),
{
    match o {
        Some(e) => is_null_literal(e),
        None => false,
    }
}

fn find_end(o: &Option<Box<Expression>>, default: usize, len: usize) -> (r: Option<usize>)
    requires
        default <= len,
    ensures
        (match r {
            Some(i) => Some(i as int),
            None => None,
        }) == end_value(m::opt_boxed(*o), default as int, len as int),
        r matches Some(i) ==> i <= len,
{
    match o {
        None => Some(default),
        Some(e) => match get_literal_int(e) {
            Some(i) => Some(clamp_to(i, len)),
            None => None,
        },
    }
}

pub fn find_slice(start: &Option<Box<Expression>>, end: &Option<Box<Expression>>, len: usize) -> (r:
    FoundSlice)
    ensures
        (match r {
            FoundSlice::Null => Slice::Null,
            FoundSlice::NoStart => Slice::NoStart,
            FoundSlice::NoEnd => Slice::NoEnd,
            FoundSlice::Range(s, e) => Slice::Range(s as int, e as int),
        }) == slice_of(m::opt_boxed(*start), m::opt_boxed(*end), len as int),
        r matches FoundSlice::Range(s, e) ==> s <= len && e <= len,
{
    if null_end(start) || null_end(end) {
        return FoundSlice::Null;
    }
    match (find_end(start, 0, len), find_end(end, len, len)) {
        (None, _) => FoundSlice::NoStart,
        (_, None) => FoundSlice::NoEnd,
        (Some(s), Some(e)) => FoundSlice::Range(s, e),
    }
}

pub fn copy_range(items: &Vec<Expression>, s: usize, e: usize) -> (r: Vec<Expression>)
    requires
        s <= items@.len(),
        e <= items@.len(),
    ensures
        m::exprs_of(r@) == cut_out(m::exprs_of(items@), s as int, e as int),
{
    let mut r: Vec<Expression> = Vec::new();
    let mut i: usize = s;
    #[verifier::loop_isolation(false)]
    while i < e
        invariant
            s <= i,
            i == s || i <= e,
            r@.len() == i - s,
            forall|k: int|
                0 <= k < i - s ==> m::expression_of(#[trigger] r@[k]) == m::expression_of(
                    items@[s + k],
                ),
        decreases e - i,
    {
        let c = clone_expression(&items[i]);
        r.push(c);
        i = i + 1;
    }
    proof {
        m::lemma_exprs_of(items@);
        m::lemma_exprs_of(r@);
    }
    assert forall|k: int| 0 <= k < r@.len() implies m::exprs_of(r@)[k] == m::exprs_of(
        items@,
    )[s + k] by {
        assert(m::exprs_of(r@)[k] == m::expression_of(r@[k]));
        assert(m::exprs_of(items@)[s + k] == m::expression_of(items@[s + k]));
    }
    assert(m::exprs_of(r@) =~= cut_out(m::exprs_of(items@), s as int, e as int));
    r
}

// ── Lists ────────────────────────────────────────────────────────────────────

/// The list that a variable is bound to.
pub open spec fn bound_list(v: Seq<char>, s: Scope) -> Option<Seq<m::Expression>> {
    if s.with_list_vars@.contains_key(v) {
        match s.with_list_vars@[v] {
            m::Expression::List(items) => Some(items),
            _ => None,
        }
    } else {
        None
    }
}

/// The value of a property of a created node.
pub open spec fn created_value(v: Seq<char>, key: Seq<char>, s: Scope) -> Option<m::Expression> {
    if s.node_props_from_create@.contains_key(v) && s.node_props_from_create@[v].contains_key(key) {
        Some(s.node_props_from_create@[v][key])
    } else {
        None
    }
}

/// The element of a list that an index expression stands for.
pub open spec fn element_at(items: Seq<m::Expression>, index: m::Expression) -> Option<
    m::Expression,
> {
    match literal_int(index) {
        Some(n) => match place(n, items.len() as int) {
            Some(i) => Some(items[i]),
            None => None,
        },
        None => None,
    }
}

/// The list that an expression stands for, where so many properties may be
/// followed.
pub open spec fn resolved_list(e: m::Expression, s: Scope, hops: nat) -> Option<Seq<m::Expression>>
    decreases hops, e,
{
    match e {
        m::Expression::List(items) => Some(items),
        m::Expression::Variable(v) => bound_list(v, s),
        m::Expression::Property(base, key) => match *base {
            m::Expression::Variable(v) => match created_value(v, key, s) {
                Some(value) => if hops > 0 { resolved_list(value, s, (hops - 1) as nat) } else { None },
                None => None,
            },
            _ => None,
        },
        m::Expression::Subscript(list, index) => match resolved_list(
            *list,
            s,
            hops,
        ) {
            Some(items) => match element_at(items, *index) {
                Some(m::Expression::List(inner)) => Some(inner),
                _ => None,
            },
            None => None,
        },
        m::Expression::Add(a, b) => match (
            resolved_list(*a, s, hops),
            resolved_list(*b, s, hops),
        ) {
            (Some(x), Some(y)) => Some(x + y),
            _ => None,
        },
        _ => None,
    }
}

pub fn find_bound_list(v: &str, s: &Scope) -> (r: Option<Vec<Expression>>)
    ensures
        opt_exprs(r) == bound_list(v@, *s),
{
    match s.with_list_vars.get(v) {
        Some(list) => {
            assert(m::expression_of(*list) is List == (*list is List));
            match list {
                Expression::List(items) => Some(clone_exprs(items)),
                _ => None,
            }
        },
        None => None,
    }
}

pub open spec fn opt_value(o: Option<Expression>) -> Option<m::Expression> {
    match o {
        Some(e) => Some(m::expression_of(e)),
        None => None,
    }
}

pub fn find_created_value(v: &str, key: &str, s: &Scope) -> (r: Option<Expression>)
    ensures
        opt_value(r) == created_value(v@, key@, *s),
{
    match s.node_props_from_create.get(v) {
        Some(props) => match props.get(key) {
            Some(e) => Some(clone_expression(e)),
            None => None,
        },
        None => None,
    }
}

pub fn find_element(items: &Vec<Expression>, index: &Expression) -> (r: Option<Expression>)
    ensures
        opt_value(r) == element_at(m::exprs_of(items@), m::expression_of(*index)),
{
    proof {
        m::lemma_exprs_of(items@);
    }
    match get_literal_int(index) {
        Some(n) => match find_place(n, items.len()) {
            Some(i) => Some(clone_expression(&items[i])),
            None => None,
        },
        None => None,
    }
}

pub fn resolve_literal_list(e: &Expression, s: &Scope, hops: usize) -> (r: Option<Vec<Expression>>)
    ensures
        opt_exprs(r) == resolved_list(m::expression_of(*e), *s, hops as nat),
    decreases hops, e,
{
    match e {
        Expression::List(items) => Some(clone_exprs(items)),
        Expression::Variable(v) => find_bound_list(v.as_str(), s),
        Expression::Property(base, key) => {
            assert(m::expression_of(**base) is Variable == (**base is Variable));
            match &**base {
                Expression::Variable(v) => match find_created_value(v.as_str(), key.as_str(), s) {
                    Some(value) => if hops > 0 { resolve_literal_list(&value, s, hops - 1) } else { None },
                    None => None,
                },
                _ => None,
            }
        },
        Expression::Subscript(list, index) => match resolve_literal_list(list, s, hops) {
            Some(items) => match find_element(&items, index) {
                Some(element) => {
                    assert(m::expression_of(element) is List == (element is List));
                    match element {
                        Expression::List(inner) => Some(inner),
                        _ => None,
                    }
                },
                None => None,
            },
            None => None,
        },
        Expression::Add(a, b) => match (
            resolve_literal_list(a, s, hops),
            resolve_literal_list(b, s, hops),
        ) {
            (Some(x), Some(y)) => Some(join_lists(x, y)),
            _ => None,
        },
        _ => None,
    }
}

pub fn join_lists(x: Vec<Expression>, y: Vec<Expression>) -> (r: Vec<Expression>)
    ensures
        m::exprs_of(r@) == m::exprs_of(x@) + m::exprs_of(y@),
{
    let mut r = x;
    let mut more = y;
    r.append(&mut more);
    proof {
        m::lemma_add_exprs_of(x@, y@);
    }
    assert(r@ =~= x@ + y@);
    r
}

/// The value that is put at an end of a list: a literal, an element of a list,
/// or a constant truth value.
pub open spec fn appended(e: m::Expression, s: Scope, hops: nat) -> Option<m::Expression> {
    match e {
        m::Expression::Subscript(list, index) => match literal_int(*index) {
            Some(n) => match resolved_list(*list, s, hops) {
                Some(items) => match place(n, items.len() as int) {
                    Some(i) => Some(items[i]),
                    None => Some(m::Expression::Literal(m::Literal::Null)),
                },
                None => None,
            },
            None => None,
        },
        _ => prepended(e),
    }
}

pub open spec fn prepended(e: m::Expression) -> Option<m::Expression> {
    match e {
        m::Expression::Literal(_) => Some(e),
        m::Expression::Negate(_) => Some(e),
        _ => match const_bool(e) {
            Some(Some(b)) => Some(m::Expression::Literal(m::Literal::Boolean(b))),
            Some(None) => Some(m::Expression::Literal(m::Literal::Null)),
            None => None,
        },
    }
}

pub fn find_prepended(e: &Expression) -> (r: Option<Expression>)
    ensures
        opt_value(r) == prepended(m::expression_of(*e)),
{
    match e {
        Expression::Literal(_) | Expression::Negate(_) => Some(clone_expression(e)),
        _ => match try_eval_bool_const(e) {
            Some(Some(b)) => Some(Expression::Literal(Literal::Boolean(b))),
            Some(None) => Some(Expression::Literal(Literal::Null)),
            None => None,
        },
    }
}

pub fn find_appended(e: &Expression, s: &Scope, hops: usize) -> (r: Option<Expression>)
    ensures
        opt_value(r) == appended(m::expression_of(*e), *s, hops as nat),
{
    match e {
        Expression::Subscript(list, index) => match get_literal_int(index) {
            Some(n) => match resolve_literal_list(list, s, hops) {
                Some(items) => {
                    proof {
                        m::lemma_exprs_of(items@);
                    }
                    match find_place(n, items.len()) {
                        Some(i) => Some(clone_expression(&items[i])),
                        None => Some(Expression::Literal(Literal::Null)),
                    }
                },
                None => None,
            },
            None => None,
        },
        _ => find_prepended(e),
    }
}

/// The elements that an expression stands for where it is searched or sliced.
pub open spec fn resolved_items(e: m::Expression, s: Scope, hops: nat) -> Option<
    Seq<m::Expression>,
>
    decreases hops, e,
{
    match e {
        m::Expression::List(items) => Some(items),
        m::Expression::Variable(v) => bound_list(v, s),
        m::Expression::Subscript(list, index) => match resolved_list(
            *list,
            s,
            hops,
        ) {
            Some(items) => match element_at(items, *index) {
                Some(m::Expression::List(inner)) => Some(inner),
                _ => None,
            },
            None => None,
        },
        m::Expression::Add(a, b) => match resolved_items(*a, s, hops) {
            Some(x) => match resolved_items(*b, s, hops) {
                Some(y) => Some(x + y),
                None => match appended(*b, s, hops) {
                    Some(v) => Some(x.push(v)),
                    None => None,
                },
            },
            None => None,
        },
        m::Expression::ListSlice { list, start, end } => match resolved_list(
            *list,
            s,
            hops,
        ) {
            Some(items) => match slice_of(start, end, items.len() as int) {
                Slice::Range(from, to) => Some(cut_out(items, from, to)),
                _ => None,
            },
            None => None,
        },
        _ => None,
    }
}

pub fn try_resolve_to_items(e: &Expression, s: &Scope, hops: usize) -> (r: Option<Vec<Expression>>)
    ensures
        opt_exprs(r) == resolved_items(m::expression_of(*e), *s, hops as nat),
    decreases hops, e,
{
    match e {
        Expression::List(items) => Some(clone_exprs(items)),
        Expression::Variable(v) => find_bound_list(v.as_str(), s),
        Expression::Subscript(list, index) => match resolve_literal_list(list, s, hops) {
            Some(items) => match find_element(&items, index) {
                Some(element) => {
                    assert(m::expression_of(element) is List == (element is List));
                    match element {
                        Expression::List(inner) => Some(inner),
                        _ => None,
                    }
                },
                None => None,
            },
            None => None,
        },
        Expression::Add(a, b) => match try_resolve_to_items(a, s, hops) {
            Some(x) => match try_resolve_to_items(b, s, hops) {
                Some(y) => Some(join_lists(x, y)),
                None => match find_appended(b, s, hops) {
                    Some(v) => {
                        let mut x = x;
                        proof {
                            m::lemma_push_exprs_of(x@, v);
                        }
                        x.push(v);
                        Some(x)
                    },
                    None => None,
                },
            },
            None => None,
        },
        Expression::ListSlice { list, start, end } => match resolve_literal_list(
            list,
            s,
            hops,
        ) {
            Some(items) => {
                proof {
                    m::lemma_exprs_of(items@);
                }
                match find_slice(start, end, items.len()) {
                    FoundSlice::Range(from, to) => Some(copy_range(&items, from, to)),
                    _ => None,
                }
            },
            None => None,
        },
        _ => None,
    }
}

// ── Maps ─────────────────────────────────────────────────────────────────────

/// The entries of the map that an expression stands for.
pub open spec fn resolved_map(e: m::Expression, s: Scope, hops: nat) -> Option<
    Seq<(Seq<char>, m::Expression)>,
> {
    match e {
        m::Expression::MapLit(pairs) => Some(pairs),
        m::Expression::Subscript(list, index) => match resolved_list(*list, s, hops) {
            Some(items) => match element_at(items, *index) {
                Some(m::Expression::MapLit(pairs)) => Some(pairs),
                _ => None,
            },
            None => None,
        },
        _ => None,
    }
}

pub fn try_resolve_to_literal_map(e: &Expression, s: &Scope, hops: usize) -> (r: Option<
    Vec<(String, Expression)>,
>)
    ensures
        (match r {
            Some(v) => Some(m::entries_of(v@)),
            None => None,
        }) == resolved_map(m::expression_of(*e), *s, hops as nat),
{
    match e {
        Expression::MapLit(pairs) => Some(clone_entries(pairs)),
        Expression::Subscript(list, index) => match resolve_literal_list(list, s, hops) {
            Some(items) => match find_element(&items, index) {
                Some(element) => {
                    assert(m::expression_of(element) is MapLit == (element is MapLit));
                    match element {
                        Expression::MapLit(pairs) => Some(pairs),
                        _ => None,
                    }
                },
                None => None,
            },
            None => None,
        },
        _ => None,
    }
}

/// The value under a key, from the place on.
pub open spec fn entry_value(pairs: Seq<(Seq<char>, m::Expression)>, key: Seq<char>, i: int) -> Option<
    m::Expression,
>
    decreases pairs.len() - i,
{
    if i < 0 || i >= pairs.len() {
        None
    } else if pairs[i].0 == key {
        Some(pairs[i].1)
    } else {
        entry_value(pairs, key, i + 1)
    }
}

pub fn find_entry(pairs: &Vec<(String, Expression)>, key: &str) -> (r: Option<Expression>)
    ensures
        opt_value(r) == entry_value(m::entries_of(pairs@), key@, 0),
{
    proof {
        m::lemma_entries_of(pairs@);
    }
    #[verifier::loop_isolation(false)]
    for i in 0..pairs.len()
        invariant
            entry_value(m::entries_of(pairs@), key@, 0) == entry_value(
                m::entries_of(pairs@),
                key@,
                i as int,
            ),
    {
        let ghost here = m::entries_of(pairs@)[i as int];
        if same_text(pairs[i].0.as_str(), key) {
            return Some(clone_expression(&pairs[i].1));
        }
    }
    None
}

/// The variable of the entry under a key, from the place on.
pub open spec fn entry_variable(pairs: Seq<(Seq<char>, Seq<char>)>, key: Seq<char>, i: int) -> Option<
    Seq<char>,
>
    decreases pairs.len() - i,
{
    if i < 0 || i >= pairs.len() {
        None
    } else if pairs[i].0 == key {
        Some(pairs[i].1)
    } else {
        entry_variable(pairs, key, i + 1)
    }
}

/// The variable that holds the entry of a map.
pub open spec fn map_entry(v: Seq<char>, key: Seq<char>, s: Scope) -> Option<Seq<char>> {
    if s.map_vars@.contains_key(v) {
        entry_variable(s.map_vars@[v], key, 0)
    } else {
        None
    }
}

fn find_entry_variable(e: &Entries, key: &str) -> (r: Option<String>)
    ensures
        m::opt_text(r) == entry_variable(e@, key@, 0),
{
    #[verifier::loop_isolation(false)]
    for i in 0..e.pairs.len()
        invariant
            entry_variable(e@, key@, 0) == entry_variable(e@, key@, i as int),
    {
        if same_text(e.pairs[i].0.as_str(), key) {
            return Some(e.pairs[i].1.clone());
        }
    }
    None
}

pub fn find_map_entry(v: &str, key: &str, s: &Scope) -> (r: Option<String>)
    ensures
        m::opt_text(r) == map_entry(v@, key@, *s),
{
    match s.map_vars.get(v) {
        Some(e) => find_entry_variable(e, key),
        None => None,
    }
}

// ── Variables ────────────────────────────────────────────────────────────────

pub open spec fn no_base() -> Refusal {
    Refusal::Unsupported("property access on non-variable base expression (Phase 4)"@)
}

/// The variable that an expression names: itself, or that of an entry of a map.
pub open spec fn named_variable(e: m::Expression, s: Scope) -> Result<Seq<char>, Refusal>
    decreases e,
{
    match e {
        m::Expression::Variable(v) => Ok(v),
        m::Expression::Property(base, key) => match named_variable(*base, s) {
            Ok(v) => match map_entry(v, key, s) {
                Some(w) => Ok(w),
                None => Err(no_base()),
            },
            Err(x) => Err(x),
        },
        _ => Err(no_base()),
    }
}

pub open spec fn name_result(r: Result<String, PolygraphError>) -> Result<Seq<char>, Refusal> {
    match r {
        Ok(v) => Ok(v@),
        Err(e) => Err(refusal_of(e)),
    }
}

pub fn extract_variable(e: &Expression, s: &Scope) -> (r: Result<String, PolygraphError>)
    ensures
        name_result(r) == named_variable(m::expression_of(*e), *s),
    decreases e,
{
    match e {
        Expression::Variable(v) => Ok(v.clone()),
        Expression::Property(base, key) => match extract_variable(base, s) {
            Ok(v) => match find_map_entry(v.as_str(), key.as_str(), s) {
                Some(w) => Ok(w),
                None => Err(
                    unsupported_feature(
                        "property access on non-variable base expression (Phase 4)",
                    ),
                ),
            },
            Err(x) => Err(x),
        },
        _ => Err(
            unsupported_feature("property access on non-variable base expression (Phase 4)"),
        ),
    }
}

/// The integer that an expression stands for, where its variables are known.
pub open spec fn known_int(e: m::Expression, ints: Map<Seq<char>, i64>) -> Option<int>
    decreases e,
{
    match e {
        m::Expression::Literal(m::Literal::Integer(n)) => Some(n as int),
        m::Expression::Negate(a) => match known_int(*a, ints) {
            Some(x) => fits(-x),
            None => None,
        },
        m::Expression::Variable(v) => if ints.contains_key(v) {
            Some(ints[v] as int)
        } else {
            None
        },
        m::Expression::Add(a, b) => match (known_int(*a, ints), known_int(*b, ints)) {
            (Some(x), Some(y)) => fits(x + y),
            _ => None,
        },
        m::Expression::Subtract(a, b) => match (known_int(*a, ints), known_int(*b, ints)) {
            (Some(x), Some(y)) => fits(x - y),
            _ => None,
        },
        m::Expression::Multiply(a, b) => match (known_int(*a, ints), known_int(*b, ints)) {
            (Some(x), Some(y)) => fits(x * y),
            _ => None,
        },
        _ => None,
    }
}

pub fn try_eval_to_int(e: &Expression, s: &Scope) -> (r: Option<i64>)
    ensures
        as_int(r) == known_int(m::expression_of(*e), s.const_int_vars@),
    decreases e,
{
    match e {
        Expression::Literal(Literal::Integer(n)) => Some(*n),
        Expression::Negate(a) => match try_eval_to_int(a, s) {
            Some(x) => (0i64).checked_sub(x),
            None => None,
        },
        Expression::Variable(v) => match s.const_int_vars.get(v.as_str()) {
            Some(n) => Some(*n),
            None => None,
        },
        Expression::Add(a, b) => match (try_eval_to_int(a, s), try_eval_to_int(b, s)) {
            (Some(x), Some(y)) => x.checked_add(y),
            _ => None,
        },
        Expression::Subtract(a, b) => match (try_eval_to_int(a, s), try_eval_to_int(b, s)) {
            (Some(x), Some(y)) => x.checked_sub(y),
            _ => None,
        },
        Expression::Multiply(a, b) => match (try_eval_to_int(a, s), try_eval_to_int(b, s)) {
            (Some(x), Some(y)) => x.checked_mul(y),
            _ => None,
        },
        _ => None,
    }
}

} // verus!
