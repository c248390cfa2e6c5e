//! Reading a JSON document from its text.

use crate::codec::{decode, decoded, describe, import};
use crate::json::{JsonModel, JsonValue};
use vstd::prelude::*;

verus! {

/// The text is not a JSON document.
#[derive(Debug, PartialEq, Eq)]
pub struct ParseError {
    /// The decoder's own account of what is wrong, and where.
    pub message: String,
}

/// Reads a JSON document from its text: the document that the decoder makes
/// of the text, or the decoder's message where the text is malformed.
pub fn parse_json(json_content: &str) -> (outcome: Result<JsonValue, ParseError>)
    ensures
        match outcome {
            Ok(document) => decoded(json_content@) == Ok::<JsonModel, Seq<char>>(document@)
                && document@.well_formed(),
            Err(failure) => decoded(json_content@) == Err::<JsonModel, Seq<char>>(
                failure.message@,
            ),
        },
{
    match decode(json_content) {
        Ok(value) => Ok(import(value)),
        Err(error) => Err(ParseError { message: describe(&error) }),
    }
}

} // verus!
