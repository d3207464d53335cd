//! What the translator refuses, and in which words.
use vstd::prelude::*;

use crate::error::PolygraphError;

verus! {

/// The model of an error of the translator.
pub ghost enum Refusal {
    /// A feature that has no translation
    Unsupported(Seq<char>),
    /// A query that is wrong in itself
    Invalid(Seq<char>),
    /// A construct, where it is described, and why it has no translation
    Construct(Seq<char>, Seq<char>, Seq<char>),
}

pub open spec fn refusal_of(e: PolygraphError) -> Refusal {
    match e {
        PolygraphError::UnsupportedFeature { feature } => Refusal::Unsupported(feature@),
        PolygraphError::Translation { message } => Refusal::Invalid(message@),
        PolygraphError::Unsupported { construct, spec_ref, reason } => Refusal::Construct(
            construct@,
            spec_ref@,
            reason@,
        ),
    }
}

pub fn unsupported_feature(feature: &str) -> (e: PolygraphError)
    ensures
        refusal_of(e) == Refusal::Unsupported(feature@),
{
    PolygraphError::UnsupportedFeature { feature: feature.to_owned() }
}

pub fn invalid(message: &str) -> (e: PolygraphError)
    ensures
        refusal_of(e) == Refusal::Invalid(message@),
{
    PolygraphError::Translation { message: message.to_owned() }
}

pub fn unsupported_construct(construct: &str, spec_ref: &str, reason: &str) -> (e: PolygraphError)
    ensures
        refusal_of(e) == Refusal::Construct(construct@, spec_ref@, reason@),
{
    PolygraphError::Unsupported {
        construct: construct.to_owned(),
        spec_ref: spec_ref.to_owned(),
        reason: reason.to_owned(),
    }
}

} // verus!
