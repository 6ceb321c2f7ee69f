//! The interval during which a subtitle is shown, written `start --> end`.

use crate::exception::{invalid_input, wrong_part_count, ParseError, ParseErrorView};
use crate::text::{
    is_blank, lemma_pieces_between_of_one, occurs_at, pieces_between, split_on, trim, trimmed,
};
use crate::timecode::Timecode;
use crate::traits::Parseable;
use crate::validation::is_valid_input;
use vstd::prelude::*;

verus! {

/// A start and an end. Nothing asks that the start come first.
#[derive(Debug)]
pub struct TimeRange {
    pub start: Timecode,
    pub end: Timecode,
}

impl View for TimeRange {
    type V = TimeRange;

    open spec fn view(&self) -> TimeRange {
        *self
    }
}

/// What stands between the two timecodes of a range.
pub open spec fn arrow() -> Seq<char> {
    " --> "@
}

impl TimeRange {
    /// Whether both ends are valid timecodes.
    pub open spec fn is_valid(&self) -> bool {
        self.start.is_valid() && self.end.is_valid()
    }
}

impl Parseable for TimeRange {
    /// A range is read from a text that is not blank. Without the white
    /// space at its ends, the text is cut at every arrow and must fall into
    /// two parts. Each part must be a timecode; an error in the first is
    /// reported before one in the second.
    open spec fn parsed(input: Seq<char>) -> Result<TimeRange, ParseErrorView> {
        let parts = pieces_between(trimmed(input), arrow());
        if is_blank(input) {
            Err(invalid_input())
        } else if parts.len() != 2 {
            Err(wrong_part_count(2, parts.len()))
        } else {
            match (Timecode::parsed(parts[0]), Timecode::parsed(parts[1])) {
                (Err(error), _) => Err(error),
                (Ok(_), Err(error)) => Err(error),
                (Ok(start), Ok(end)) => Ok(TimeRange { start, end }),
            }
        }
    }

    fn parse(input: &str) -> (result: Result<Self, ParseError>)
        ensures
            result matches Ok(range) ==> range.is_valid(),
    {
        if !is_valid_input(input) {
            return Err(ParseError::for_invalid_input());
        }
        let text = trim(input);
        let parts = split_on(text.as_str(), " --> ");
        if parts.len() != 2 {
            return Err(ParseError::for_part_count(2, parts.len()));
        }
        let start = match Timecode::parse(parts[0].as_str()) {
            Ok(timecode) => timecode,
            Err(error) => return Err(error),
        };
        let end = match Timecode::parse(parts[1].as_str()) {
            Ok(timecode) => timecode,
            Err(error) => return Err(error),
        };
        Ok(TimeRange { start, end })
    }
}

/// A line that is not blank and in which the arrow stands nowhere, as when
/// `->` was written for `-->`, is one part where two are needed.
pub proof fn lemma_line_without_arrow_fails(line: Seq<char>)
    requires
        !is_blank(line),
        forall|i: int| !occurs_at(line, arrow(), i),
    ensures
        TimeRange::parsed(line) == Err::<TimeRange, ParseErrorView>(wrong_part_count(2, 1)),
{
    lemma_pieces_between_of_one(line, arrow());
}

} // verus!
