//! What the parsers can refuse.
use vstd::prelude::*;

verus! {

#[derive(Clone, Debug)]
pub enum ParseError {
    /// A text, or a part of it, that is no query.
    Syntax { span: String, message: String },
    /// A language feature that the parsers recognise and do not support.
    UnsupportedFeature { feature: String },
}

/// The model of a parse error.
pub enum Fault {
    Syntax { span: Seq<char>, message: Seq<char> },
    Unsupported { feature: Seq<char> },
}

impl View for ParseError {
    type V = Fault;

    open spec fn view(&self) -> Fault {
        match *self {
            ParseError::Syntax { span, message } => Fault::Syntax {
                span: span@,
                message: message@,
            },
            ParseError::UnsupportedFeature { feature } => Fault::Unsupported {
                feature: feature@,
            },
        }
    }
}

/// The text of an error, for a reader.
pub open spec fn fault_text(f: Fault) -> Seq<char> {
    match f {
        Fault::Syntax { span, message } => "Parse error at "@ + span + ": "@ + message,
        Fault::Unsupported { feature } => "Unsupported feature: "@ + feature,
    }
}

impl ParseError {
    pub fn text(&self) -> (r: String)
        ensures
            r@ == fault_text(self@),
    {
        match self {
            ParseError::Syntax { span, message } => "Parse error at ".to_owned().concat(
                span.as_str(),
            ).concat(": ").concat(message.as_str()),
            ParseError::UnsupportedFeature { feature } => "Unsupported feature: ".to_owned().concat(
                feature.as_str(),
            ),
        }
    }
}

/// What a builder gives: a part of the syntax, or an error.
pub type Built<T> = Result<T, Fault>;

/// The error for a tree that no grammar rule gives.
pub open spec fn malformed() -> Fault {
    Fault::Syntax { span: ""@, message: "malformed parse tree"@ }
}

pub open spec fn unsupported(feature: Seq<char>) -> Fault {
    Fault::Unsupported { feature }
}

pub fn malformed_tree() -> (e: ParseError)
    ensures
        e@ == malformed(),
{
    ParseError::Syntax { span: "".to_owned(), message: "malformed parse tree".to_owned() }
}

pub fn unsupported_feature(feature: &str) -> (e: ParseError)
    ensures
        e@ == unsupported(feature@),
{
    ParseError::UnsupportedFeature { feature: feature.to_owned() }
}

pub fn syntax_error(span: &str, message: &str) -> (e: ParseError)
    ensures
        e@ == (Fault::Syntax { span: span@, message: message@ }),
{
    ParseError::Syntax { span: span.to_owned(), message: message.to_owned() }
}

} // verus!
