//! The names that SPARQL variables can have.
use vstd::prelude::*;

verus! {

/// The characters that a name can begin with, but for the colon and the digits.
pub open spec fn is_name_start(c: char) -> bool {
    ||| c == '_'
    ||| 'A' <= c <= 'Z'
    ||| 'a' <= c <= 'z'
    ||| '\u{c0}' <= c <= '\u{d6}'
    ||| '\u{d8}' <= c <= '\u{f6}'
    ||| '\u{f8}' <= c <= '\u{2ff}'
    ||| '\u{370}' <= c <= '\u{37d}'
    ||| '\u{37f}' <= c <= '\u{1fff}'
    ||| '\u{200c}' <= c <= '\u{200d}'
    ||| '\u{2070}' <= c <= '\u{218f}'
    ||| '\u{2c00}' <= c <= '\u{2fef}'
    ||| '\u{3001}' <= c <= '\u{d7ff}'
    ||| '\u{f900}' <= c <= '\u{fdcf}'
    ||| '\u{fdf0}' <= c <= '\u{fffd}'
    ||| '\u{10000}' <= c <= '\u{effff}'
}

/// The characters that can follow.
pub open spec fn is_name_char(c: char) -> bool {
    ||| is_name_start(c)
    ||| '0' <= c <= '9'
    ||| c == '\u{b7}'
    ||| '\u{300}' <= c <= '\u{36f}'
    ||| '\u{203f}' <= c <= '\u{2040}'
}

/// Whether a text is the name of a SPARQL variable.
pub open spec fn is_variable_name(s: Seq<char>) -> bool {
    &&& s.len() > 0
    &&& is_name_start(s[0]) || s[0] == ':' || '0' <= s[0] <= '9'
    &&& forall|i: int| 1 <= i < s.len() ==> is_name_char(#[trigger] s[i])
}

/// Whether `spargebra::term::Variable::new` accepts the name. It does so where
/// the name begins with a letter, a digit, an underscore or a colon, and goes on
/// with characters that a name can hold; otherwise it returns its error.
#[verifier::external_body]
pub(crate) fn accepts_variable(name: &str) -> (r: bool)
    ensures
        r == is_variable_name(name@),
{
    spargebra::term::Variable::new(name).is_ok()
}

} // verus!
