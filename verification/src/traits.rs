//! What the parsers have in common.

use crate::exception::{outcome, ParseError, ParseErrorView};
use crate::subtitle::{Subtitle, SubtitleView};
use vstd::prelude::*;

verus! {

/// A value that can be read from a text.
pub trait Parseable: Sized + View {
    /// What the grammar makes of `input`: the value it denotes, or the first
    /// error met.
    spec fn parsed(input: Seq<char>) -> Result<Self::V, ParseErrorView>;

    /// Reads a value from `input`.
    fn parse(input: &str) -> (result: Result<Self, ParseError>)
        ensures
            outcome(result) == Self::parsed(input@),
    ;
}

/// The views of `items`, in order.
pub open spec fn views<T: View>(items: Seq<T>) -> Seq<T::V> {
    items.map_values(|item: T| item@)
}

/// The outcome of parsing a document, with the subtitles and the errors each
/// taken by its view.
pub open spec fn document_outcome(result: Result<Vec<Subtitle>, Vec<ParseError>>) -> Result<
    Seq<SubtitleView>,
    Seq<ParseErrorView>,
> {
    match result {
        Ok(subtitles) => Ok(views(subtitles@)),
        Err(errors) => Err(views(errors@)),
    }
}

/// A parser of whole subtitle documents.
pub trait SubtitleParser {
    /// What the format makes of `content`: all its subtitles in order, or
    /// every error found in it.
    spec fn parsed(content: Seq<char>) -> Result<Seq<SubtitleView>, Seq<ParseErrorView>>;

    /// Reads all subtitles of `srt_content`.
    fn parse(srt_content: &str) -> (result: Result<Vec<Subtitle>, Vec<ParseError>>)
        ensures
            document_outcome(result) == Self::parsed(srt_content@),
    ;
}

} // verus!
