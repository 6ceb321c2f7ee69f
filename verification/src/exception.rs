//! The errors that parsing reports.

use crate::number::{decimal, push_decimal};
use vstd::prelude::*;

verus! {

/// `std::io::Error`, the failure that reading a file reports. Nothing is
/// known of what such a value holds.
#[verifier::external_type_specification]
#[verifier::external_body]
pub struct ExIoError(std::io::Error);

/// Why a text could not be parsed.
#[derive(Debug)]
pub enum ParseError {
    /// The text does not have the expected shape; the message says how.
    InvalidFormat(String),
    /// A timecode has a field that is no number, or values out of range.
    InvalidTimecode(String),
    /// A block has fewer lines than a subtitle needs.
    MissingFields,
    /// The text could not be read at all.
    IoError(std::io::Error),
}

/// A `ParseError` with its messages as sequences of characters.
pub enum ParseErrorView {
    InvalidFormat(Seq<char>),
    InvalidTimecode(Seq<char>),
    MissingFields,
    IoError(std::io::Error),
}

impl View for ParseError {
    type V = ParseErrorView;

    open spec fn view(&self) -> ParseErrorView {
        match self {
            ParseError::InvalidFormat(message) => ParseErrorView::InvalidFormat(message@),
            ParseError::InvalidTimecode(message) => ParseErrorView::InvalidTimecode(message@),
            ParseError::MissingFields => ParseErrorView::MissingFields,
            ParseError::IoError(error) => ParseErrorView::IoError(*error),
        }
    }
}

/// The error for a text that is empty or all white space.
pub open spec fn invalid_input() -> ParseErrorView {
    ParseErrorView::InvalidFormat("Invalid input"@)
}

/// The error for a text that was cut into `found` parts where `expected`
/// were needed.
pub open spec fn wrong_part_count(expected: nat, found: nat) -> ParseErrorView {
    ParseErrorView::InvalidFormat(
        "Expected "@ + decimal(expected) + " parts, found "@
            + decimal(found),
    )
}

/// The outcome of parsing one value, with the value and the error each taken
/// by its view.
pub open spec fn outcome<T: View>(result: Result<T, ParseError>) -> Result<T::V, ParseErrorView> {
    match result {
        Ok(value) => Ok(value@),
        Err(error) => Err(error@),
    }
}

impl ParseError {
    /// Makes the error for a text that is empty or all white space.
    pub fn for_invalid_input() -> (error: ParseError)
        ensures
            error@ == invalid_input(),
    {
        ParseError::InvalidFormat("Invalid input".to_owned())
    }

    /// Makes the error for a text that was cut into `found` parts where
    /// `expected` were needed.
    pub fn for_part_count(expected: usize, found: usize) -> (error: ParseError)
        ensures
            error@ == wrong_part_count(expected as nat, found as nat),
    {
        let mut message = "Expected ".to_owned();
        push_decimal(&mut message, expected as u64);
        message.append(" parts, found ");
        push_decimal(&mut message, found as u64);
        ParseError::InvalidFormat(message)
    }
}

} // verus!
