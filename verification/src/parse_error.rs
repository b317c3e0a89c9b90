use vstd::prelude::*;

use crate::source::Source;
use crate::text::string_from_str;

verus! {

/// Errors of the source-annotated parser.
#[derive(Debug, PartialEq)]
pub enum ParseError {
    ExpectedEndOfInput,
    Expected(String),
    ExpectedPairGotKey(String),
    DuplicateKey(String),
    DuplicateHandler(String),
    DuplicateElseHandler,
    InvalidSetBinding,
    InvalidSetInPlace,
    WithSource(Box<ParseError>, Source),
}

pub type Parse<T> = Result<T, ParseError>;

impl ParseError {
    pub fn expected_end_of_input<T>() -> (r: Parse<T>)
        ensures
            r matches Err(e) && e == ParseError::ExpectedEndOfInput,
    {
        Err(ParseError::ExpectedEndOfInput)
    }

    pub fn expected<T>(name: &str) -> (r: Parse<T>)
        ensures
            r matches Err(ParseError::Expected(s)) && s@ == name@,
    {
        Err(ParseError::Expected(string_from_str(name)))
    }

    pub fn expected_pair_got_key<T>(key: &str) -> (r: Parse<T>)
        ensures
            r matches Err(ParseError::ExpectedPairGotKey(s)) && s@ == key@,
    {
        Err(ParseError::ExpectedPairGotKey(string_from_str(key)))
    }

    pub fn duplicate_key<T>(key: &str) -> (r: Parse<T>)
        ensures
            r matches Err(ParseError::DuplicateKey(s)) && s@ == key@,
    {
        Err(ParseError::DuplicateKey(string_from_str(key)))
    }

    pub fn duplicate_handler<T>(selector: &str) -> (r: Parse<T>)
        ensures
            r matches Err(ParseError::DuplicateHandler(s)) && s@ == selector@,
    {
        Err(ParseError::DuplicateHandler(string_from_str(selector)))
    }

    pub fn duplicate_else_handler<T>() -> (r: Parse<T>)
        ensures
            r matches Err(e) && e == ParseError::DuplicateElseHandler,
    {
        Err(ParseError::DuplicateElseHandler)
    }

    pub fn invalid_set_binding<T>() -> (r: Parse<T>)
        ensures
            r matches Err(e) && e == ParseError::InvalidSetBinding,
    {
        Err(ParseError::InvalidSetBinding)
    }

    pub fn invalid_set_in_place<T>() -> (r: Parse<T>)
        ensures
            r matches Err(e) && e == ParseError::InvalidSetInPlace,
    {
        Err(ParseError::InvalidSetInPlace)
    }

    /// The error annotated with the place in the text it was found.
    pub fn with_source(self, source: Source) -> (r: Self)
        ensures
            r == ParseError::WithSource(Box::new(self), source),
    {
        ParseError::WithSource(Box::new(self), source)
    }
}

} // verus!
