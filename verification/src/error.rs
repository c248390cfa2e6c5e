//! What can go wrong between a JSON text and the text of the answer.

use crate::formatter::EncodeError;
use crate::parser::ParseError;
use crate::query::{QueryError, QueryFault};
use vstd::prelude::*;

verus! {

/// Why a query on a JSON text gave no answer.
#[derive(Debug, PartialEq, Eq)]
pub enum ParsonError {
    /// The text is not a JSON document.
    Parse(ParseError),
    /// The query does not resolve in the document.
    Query(QueryError),
    /// The value found could not be written out.
    Encode(EncodeError),
}

/// The mathematical model of a `ParsonError`.
pub ghost enum Failure {
    /// With the decoder's message.
    Parse(Seq<char>),
    /// With the failure of the first segment that failed.
    Query(QueryFault),
    /// With the encoder's message.
    Encode(Seq<char>),
}

impl View for ParsonError {
    type V = Failure;

    open spec fn view(&self) -> Failure {
        match self {
            ParsonError::Parse(failure) => Failure::Parse(failure.message@),
            ParsonError::Query(error) => Failure::Query(error@),
            ParsonError::Encode(failure) => Failure::Encode(failure.message@),
        }
    }
}

/// The model of an answer: its text, or the model of the failure.
pub open spec fn answer_model(answer: Result<String, ParsonError>) -> Result<Seq<char>, Failure> {
    match answer {
        Ok(text) => Ok(text@),
        Err(error) => Err(error@),
    }
}

} // verus!
