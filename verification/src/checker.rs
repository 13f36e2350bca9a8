//! Static validation: checks source text without running it, for callers
//! that pre-validate programs before execution.
use vstd::prelude::*;

use crate::lexer::spec_tokenize;
use crate::lexer::TokenizeError;
use crate::parser::parse;
use crate::parser::parse_error_model;
use crate::parser::spec_parse;
use crate::parser::ParseError;

verus! {

/// A failure found without running the program: a lexical or syntactic
/// error, wrapped for callers that branch on error kind.
#[derive(Debug, PartialEq, Eq)]
pub enum StaticError {
    Parse(ParseError),
}

/// Checks that the given source is valid without running it.
///
/// Returns `None` exactly when the source parses — when [`spec_parse`]
/// accepts it — and otherwise the very error that the specification
/// grammar assigns, wrapped for callers that branch on error kind.  In
/// particular a lexical failure is reported exactly when
/// [`spec_tokenize`] rejects the source, and an empty source checks
/// clean.
pub fn check(code: &str) -> (r: Option<StaticError>)
    ensures
        spec_parse(code@) is Ok <==> r is None,
        spec_parse(code@) matches Err(em) ==> (r matches Some(StaticError::Parse(e))
            && parse_error_model(e) == em),
        spec_tokenize(code@) is Err <==> (r matches Some(
            StaticError::Parse(ParseError::Tokenize(_)),
        )),
        r matches Some(StaticError::Parse(ParseError::Tokenize(TokenizeError::UnrecognizedToken(t))))
            ==> t@ == spec_tokenize(code@)->Err_0,
        code@.len() == 0 ==> r is None,
{
    match parse(code) {
        Ok(_) => None,
        Err(e) => Some(StaticError::Parse(e)),
    }
}

} // verus!
