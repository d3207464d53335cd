//! What the translator can refuse.
use vstd::prelude::*;

#[allow(unused_imports)]
use crate::text::texts;

verus! {

#[derive(Clone, Debug)]
pub enum PolygraphError {
    /// A construct that is understood but has no translation.
    Unsupported { construct: String, spec_ref: String, reason: String },
    /// A feature that has no translation.
    UnsupportedFeature { feature: String },
    /// A query that is wrong in itself.
    Translation { message: String },
}

/// The error of the write compiler for the given construct.
pub open spec fn is_write_unsupported(e: PolygraphError, construct: Seq<char>) -> bool {
    e matches PolygraphError::Unsupported { construct: c, spec_ref, reason }
        && c@ == construct
        && spec_ref@ == "openCypher 9 §6"@
        && reason@ == "write construct not yet supported by LQA write compiler"@
}

/// What a fallible step of the write compiler returns: the texts that `want`
/// holds, or the error for the construct that `want` names.
pub open spec fn gives_texts(
    r: Result<Vec<String>, PolygraphError>,
    want: Result<Seq<Seq<char>>, Seq<char>>,
) -> bool {
    match want {
        Ok(v) => r matches Ok(x) && texts(x@) == v,
        Err(c) => r matches Err(e) && is_write_unsupported(e, c),
    }
}

pub fn write_unsupported(construct: &str) -> (e: PolygraphError)
    ensures
        is_write_unsupported(e, construct@),
{
    PolygraphError::Unsupported {
        construct: construct.to_owned(),
        spec_ref: "openCypher 9 §6".to_owned(),
        reason: "write construct not yet supported by LQA write compiler".to_owned(),
    }
}

} // verus!
