//! Checking that a text parses as a SPARQL 1.1 query.
use vstd::prelude::*;

use crate::text::{push_str, text};

verus! {

/// Error returned when a SPARQL string fails to parse.
#[derive(Debug)]
pub struct SparqlValidationError {
    /// Human-readable parse error from the SPARQL parser.
    pub message: String,
}

impl SparqlValidationError {
    /// `SPARQL parse error: ` followed by the parser's message.
    pub fn to_string(&self) -> (r: String)
        ensures
            r@ == "SPARQL parse error: "@ + self.message@,
    {
        let mut out = text("SPARQL parse error: ");
        push_str(&mut out, self.message.as_str());
        out
    }

    /// The outcome of validation for an outcome of parsing: `Ok` stays `Ok`,
    /// and a parser message becomes the error's message.
    pub fn from_parse_outcome(outcome: Result<(), String>) -> (r: Result<(), SparqlValidationError>)
        ensures
            outcome is Ok <==> r is Ok,
            outcome matches Err(m) ==> (r matches Err(e) && e.message == m),
    {
        match outcome {
            Ok(()) => Ok(()),
            Err(message) => Err(SparqlValidationError { message }),
        }
    }
}

/// What `spargebra` makes of a query text: `Ok` when it parses as a SPARQL
/// query, else the text of its syntax error.
pub uninterp spec fn sparql_parse_result(query: Seq<char>) -> Result<(), Seq<char>>;

/// Calls `spargebra::Query::parse` with no base IRI and keeps only whether it
/// succeeded and, if not, the `Display` text of its `SparqlSyntaxError`. The
/// contract ties that outcome to the name `sparql_parse_result` of the query
/// text; the SPARQL grammar itself is not restated.
#[verifier::external_body]
fn parse_sparql(query: &str) -> (r: Result<(), String>)
    ensures
        match r {
            Ok(()) => sparql_parse_result(query@) is Ok,
            Err(m) => sparql_parse_result(query@) == Err::<(), Seq<char>>(m@),
        },
{
    #[allow(deprecated)]
    match spargebra::Query::parse(query, None) {
        Ok(_) => Ok(()),
        Err(e) => Err(e.to_string()),
    }
}

/// Validates a SPARQL 1.1 query string by parsing it.
///
/// Implemented on `str` and `String`, so the output of
/// `SparqlTranslator::translate` can be checked directly.
pub trait SparqlValidate {
    fn validate_sparql(&self) -> Result<(), SparqlValidationError>;
}

impl SparqlValidate for str {
    fn validate_sparql(&self) -> (r: Result<(), SparqlValidationError>)
        ensures
            match sparql_parse_result(self@) {
                Ok(()) => r is Ok,
                Err(m) => r matches Err(e) && e.message@ == m,
            },
    {
        SparqlValidationError::from_parse_outcome(parse_sparql(self))
    }
}

impl SparqlValidate for String {
    fn validate_sparql(&self) -> (r: Result<(), SparqlValidationError>)
        ensures
            match sparql_parse_result(self@) {
                Ok(()) => r is Ok,
                Err(m) => r matches Err(e) && e.message@ == m,
            },
    {
        self.as_str().validate_sparql()
    }
}

} // verus!
