//! Texts that order as the values of Cypher do.
use vstd::prelude::*;

use crate::ast::cypher::{Expression, Literal};
#[allow(unused_imports)]
use crate::ast::model as m;
use crate::text::digits_u64;
#[allow(unused_imports)]
use crate::text::{digits, zeros};
use crate::translator::compare::look_up;
#[allow(unused_imports)]
use crate::translator::compare::{is_nan, known};
use crate::translator::ground::push_zeros;

verus! {

/// Twenty digits.
pub open spec fn twenty(n: nat) -> Seq<char> {
    zeros(20 - digits(n).len()) + digits(n)
}

/// A number that orders the doubles: the negative ones from the greatest size
/// down, then the others from zero up. Negative zero is zero.
pub open spec fn double_rank(bits: u64) -> nat {
    if bits > 0x8000_0000_0000_0000 {
        (u64::MAX - bits) as nat
    } else if bits == 0x8000_0000_0000_0000 {
        bits as nat
    } else {
        (bits + 0x8000_0000_0000_0000) as nat
    }
}

/// The sort key of a value: a character for its type, and what orders it within
/// the type. A double that is not known counts as no number.
pub open spec fn sort_key(e: m::Expression) -> Seq<char>
    decreases e,
{
    match e {
        m::Expression::Literal(l) => match l {
            m::Literal::Null => "Z"@,
            m::Literal::Boolean(b) => if b {
                "7"@
            } else {
                "6"@
            },
            m::Literal::Integer(n) => "8"@ + twenty((n + 0x8000_0000_0000_0000) as nat),
            m::Literal::Float(f) => match known(f) {
                Some(b) => if is_nan(b) {
                    "9"@
                } else {
                    "8"@ + twenty(double_rank(b))
                },
                None => "9"@,
            },
            m::Literal::String(s) => "5"@ + s + seq!['\u{1}'],
        },
        m::Expression::List(items) => "3"@ + sort_keys(items, items.len() as int),
        m::Expression::MapLit(_) => "0"@,
        _ => "3"@,
    }
}

/// The sort keys of the first `k` elements, one after the other.
pub open spec fn sort_keys(s: Seq<m::Expression>, k: int) -> Seq<char>
    decreases s, k,
{
    if k <= 0 || k > s.len() {
        seq![]
    } else {
        sort_keys(s, k - 1) + sort_key(s[k - 1])
    }
}

fn write_twenty(n: u64) -> (r: String)
    ensures
        r@ == twenty(n as nat),
{
    let d = digits_u64(n);
    let len: usize = d.as_str().unicode_len();
    let mut r = String::new();
    if len < 20 {
        push_zeros(&mut r, 20 - len);
    }
    let r = r.concat(d.as_str());
    assert(r@ =~= twenty(n as nat));
    r
}

fn shifted(n: i64) -> (r: u64)
    ensures
        r == n + 0x8000_0000_0000_0000,
{
    (n as i128 + 0x8000_0000_0000_0000) as u64
}

fn write_double(bits: u64) -> (r: String)
    ensures
        r@ == (if is_nan(bits) {
            "9"@
        } else {
            "8"@ + twenty(double_rank(bits))
        }),
{
    if bits % 0x8000_0000_0000_0000 > 0x7ff0_0000_0000_0000 {
        return "9".to_owned();
    }
    let rank: u64 = if bits > 0x8000_0000_0000_0000 {
        u64::MAX - bits
    } else if bits == 0x8000_0000_0000_0000 {
        bits
    } else {
        bits + 0x8000_0000_0000_0000
    };
    "8".to_owned().concat(write_twenty(rank).as_str())
}

pub fn sort_key_for_expr(e: &Expression) -> (r: String)
    ensures
        r@ == sort_key(m::expression_of(*e)),
    decreases e,
{
    match e {
        Expression::Literal(l) => match l {
            Literal::Null => "Z".to_owned(),
            Literal::Boolean(b) => if *b {
                "7".to_owned()
            } else {
                "6".to_owned()
            },
            Literal::Integer(n) => "8".to_owned().concat(write_twenty(shifted(*n)).as_str()),
            Literal::Float(f) => match look_up(f.text.as_str()) {
                Some(b) => write_double(b),
                None => "9".to_owned(),
            },
            Literal::String(s) => {
                let mut r = "5".to_owned().concat(s.as_str());
                r.push('\u{1}');
                assert(r@ =~= "5"@ + s@ + seq!['\u{1}']);
                r
            },
        },
        Expression::List(items) => {
            let mut r = String::new();
            proof {
                m::lemma_exprs_of(items@);
            }
            #[verifier::loop_isolation(false)]
            for i in 0..items.len()
                invariant
                    r@ == sort_keys(m::exprs_of(items@), i as int),
            {
                let k = sort_key_for_expr(&items[i]);
                r.append(k.as_str());
                assert(r@ =~= sort_keys(m::exprs_of(items@), i + 1));
            }
            "3".to_owned().concat(r.as_str())
        },
        Expression::MapLit(_) => "0".to_owned(),
        _ => "3".to_owned(),
    }
}

} // verus!
