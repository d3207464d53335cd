//! Floating-point numbers, by their decimal texts.
pub mod big;
pub mod decimal;
pub mod double;
pub mod forms;
pub mod shortest;

use vstd::prelude::*;

use crate::number::forms::{number_text, opposite_of, read_number, Form};
#[allow(unused_imports)]
use crate::number::forms::{opposite, real_in, real_text};
use crate::text::{chars_of, same_text, slice_text, starts_with_char};
#[allow(unused_imports)]
use crate::text::starts_with_char_spec;

verus! {

/// A double, held as the text that it has when it is written with a point and no
/// exponent: `1.5`, `100`, `-0.001`, `NaN`, `inf` or `-inf`.
#[derive(Clone, Debug, PartialEq, Eq)]
pub struct Float {
    pub text: String,
}

impl View for Float {
    type V = Seq<char>;

    open spec fn view(&self) -> Seq<char> {
        self.text@
    }
}

/// Whether the text is that of a number with a finite value.
pub open spec fn finite_text(t: Seq<char>) -> bool {
    t != "NaN"@ && t != "inf"@ && t != "-inf"@
}

/// The text of the number with the opposite sign.
pub open spec fn negated_text(t: Seq<char>) -> Seq<char> {
    if t == "NaN"@ {
        t
    } else if starts_with_char_spec(t, '-') {
        t.skip(1)
    } else {
        "-"@ + t
    }
}

/// The text that a number has in another form.
pub open spec fn text_in_form(t: Seq<char>, form: Form) -> Seq<char> {
    match real_in(t) {
        Some(r) => real_text(r, form),
        None => t,
    }
}

/// The text of the number with the opposite sign, in the form with a point.
pub open spec fn negated_with_point(t: Seq<char>) -> Seq<char> {
    match real_in(t) {
        Some(r) => real_text(opposite(r), Form::Debug),
        None => negated_text(t),
    }
}

impl Float {
    pub fn in_form(&self, form: Form) -> (r: String)
        ensures
            r@ == text_in_form(self@, form),
    {
        match read_number(self.text.as_str()) {
            Some(n) => number_text(n, form),
            None => self.text.clone(),
        }
    }

    pub fn negated_with_point(&self) -> (r: String)
        ensures
            r@ == negated_with_point(self@),
    {
        match read_number(self.text.as_str()) {
            Some(n) => number_text(opposite_of(n), Form::Debug),
            None => self.negated(),
        }
    }

    pub fn is_finite(&self) -> (r: bool)
        ensures
            r == finite_text(self@),
    {
        !same_text(self.text.as_str(), "NaN") && !same_text(self.text.as_str(), "inf")
            && !same_text(self.text.as_str(), "-inf")
    }

    pub fn negated(&self) -> (r: String)
        ensures
            r@ == negated_text(self@),
    {
        if same_text(self.text.as_str(), "NaN") {
            self.text.clone()
        } else if starts_with_char(self.text.as_str(), '-') {
            let v = chars_of(self.text.as_str());
            let n: usize = v.len();
            let r = slice_text(&v, 1, n);
            assert(r@ =~= self.text@.skip(1));
            r
        } else {
            "-".to_owned().concat(self.text.as_str())
        }
    }
}

} // verus!
