//! The errors that reading and writing a record can end in.

use vstd::prelude::*;
use vstd::std_specs::convert::FromSpecImpl;

verus! {

/// `chrono::ParseError` says why a text is no date in a given format.
#[verifier::external_type_specification]
#[verifier::external_body]
pub struct ExParseError(chrono::ParseError);

/// Why an operation of this crate failed.
#[derive(Debug)]
pub enum CefError {
    /// A failure that only a message describes.
    UnknownError(String),
    /// The line does not have the shape of a record.
    NoneError,
    /// The text is a date in none of the formats that are read.
    InvalidDateFormat(chrono::ParseError),
    /// A value lies outside of what the format allows.
    ValidationError(String),
}

/// A `Result` whose error is a `CefError`.
pub type CefResult<T> = Result<T, CefError>;

/// What a `CefError` says, with each message as a sequence of characters.
pub enum ErrorModel {
    UnknownError(Seq<char>),
    NoneError,
    InvalidDateFormat(chrono::ParseError),
    ValidationError(Seq<char>),
}

impl View for CefError {
    type V = ErrorModel;

    open spec fn view(&self) -> ErrorModel {
        match self {
            CefError::UnknownError(text) => ErrorModel::UnknownError(text@),
            CefError::NoneError => ErrorModel::NoneError,
            CefError::InvalidDateFormat(err) => ErrorModel::InvalidDateFormat(*err),
            CefError::ValidationError(text) => ErrorModel::ValidationError(text@),
        }
    }
}

impl From<chrono::ParseError> for CefError {
    /// The error of a text that is no date.
    fn from(err: chrono::ParseError) -> (r: CefError) {
        CefError::InvalidDateFormat(err)
    }
}

impl FromSpecImpl<chrono::ParseError> for CefError {
    open spec fn obeys_from_spec() -> bool {
        true
    }

    open spec fn from_spec(err: chrono::ParseError) -> CefError {
        CefError::InvalidDateFormat(err)
    }
}

impl<'a> From<&'a str> for CefError {
    /// The error that the message `data` describes.
    fn from(data: &'a str) -> (r: CefError)
        ensures
            r@ == ErrorModel::UnknownError(data@),
    {
        CefError::UnknownError(String::from_str(data))
    }
}

/// The error holds a new string, which no specification function can name:
/// what it holds is said by the `ensures` of `from`.
impl<'a> FromSpecImpl<&'a str> for CefError {
    open spec fn obeys_from_spec() -> bool {
        false
    }

    open spec fn from_spec(data: &'a str) -> CefError {
        arbitrary()
    }
}

/// What `chrono::ParseError` says of itself when it is displayed.
pub uninterp spec fn parse_error_message(err: chrono::ParseError) -> Seq<char>;

/// Displays a `chrono::ParseError`. The contract gives the text a name and
/// claims no more.
#[verifier::external_body]
fn parse_error_text(err: &chrono::ParseError) -> (text: String)
    ensures
        text@ == parse_error_message(*err),
{
    format!("{}", err)
}

/// What is said where the line does not have the shape of a record.
pub open spec fn none_message() -> Seq<char> {
    "Empty option!"@
}

/// What an error says of itself.
pub open spec fn error_message(err: ErrorModel) -> Seq<char> {
    match err {
        ErrorModel::UnknownError(text) => text,
        ErrorModel::NoneError => none_message(),
        ErrorModel::InvalidDateFormat(err) => parse_error_message(err),
        ErrorModel::ValidationError(text) => text,
    }
}

impl CefError {
    /// The message of the error.
    pub fn to_string(&self) -> (text: String)
        ensures
            text@ == error_message(self@),
    {
        match self {
            CefError::UnknownError(text) => text.clone(),
            CefError::NoneError => String::from_str("Empty option!"),
            CefError::InvalidDateFormat(err) => parse_error_text(err),
            CefError::ValidationError(text) => text.clone(),
        }
    }
}

} // verus!
