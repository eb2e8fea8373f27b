//! The errors the resource model returns.

use vstd::prelude::*;

use crate::base::text::{append_str, string_from_chars};

verus! {

broadcast use vstd::std_specs::vec::group_vec_axioms;

/// A value that does not satisfy the NMOS contract.
///
/// Parsing is where a document from the network becomes a domain value, so it
/// is where every rejection is named: nothing further in the library has to
/// re-check what a `ResourceId` or a `Version` holds.
#[derive(Debug, Clone, PartialEq, Eq)]
pub enum ParseError {
    /// The text is not a resource identifier in the form IS-04 requires.
    ResourceId {
        /// What specifically is wrong, for a message an operator can act on.
        reason: &'static str,
    },
    /// The text is not a TAI version timestamp of the form `<seconds>:<nanoseconds>`.
    Version {
        /// What specifically is wrong.
        reason: &'static str,
    },
    /// The text is not a format URN this specification defines.
    Format,
    /// The text is not a media type of the form `type/subtype`.
    MediaType,
    /// The text is not an API version of the form `v<major>.<minor>`.
    ApiVersion,
}

/// How a rejection reads.
pub open spec fn parse_error_text(e: ParseError) -> Seq<char> {
    match e {
        ParseError::ResourceId { reason } => "not an NMOS resource identifier: "@ + reason@,
        ParseError::Version { reason } => "not a TAI version timestamp: "@ + reason@,
        ParseError::Format => "not an NMOS format URN"@,
        ParseError::MediaType => "not a media type"@,
        ParseError::ApiVersion => "not an NMOS API version"@,
    }
}

impl ParseError {
    /// The rejection as an operator reads it.
    pub fn to_string(&self) -> (r: String)
        ensures
            r@ == parse_error_text(*self),
    {
        let mut v: Vec<char> = Vec::new();
        match self {
            ParseError::ResourceId { reason } => {
                append_str(&mut v, "not an NMOS resource identifier: ");
                append_str(&mut v, reason);
            },
            ParseError::Version { reason } => {
                append_str(&mut v, "not a TAI version timestamp: ");
                append_str(&mut v, reason);
            },
            ParseError::Format => append_str(&mut v, "not an NMOS format URN"),
            ParseError::MediaType => append_str(&mut v, "not a media type"),
            ParseError::ApiVersion => append_str(&mut v, "not an NMOS API version"),
        }
        string_from_chars(&v)
    }
}

} // verus!
