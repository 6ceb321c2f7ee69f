//! One subtitle: its number, when it is shown, and what it says.

use crate::exception::{invalid_input, ParseError, ParseErrorView};
use crate::number::{parse_u32, unsigned_of};
use crate::text::{is_blank, join_from, joined, lines, lines_of};
use crate::time_range::TimeRange;
use crate::traits::Parseable;
use crate::validation::is_valid_input;
use vstd::prelude::*;

verus! {

/// A numbered text with the interval during which it is shown.
#[derive(Debug)]
pub struct Subtitle {
    pub index: u32,
    pub time_range: TimeRange,
    pub text: String,
}

/// A `Subtitle` with its text as a sequence of characters.
pub struct SubtitleView {
    pub index: u32,
    pub time_range: TimeRange,
    pub text: Seq<char>,
}

impl View for Subtitle {
    type V = SubtitleView;

    open spec fn view(&self) -> SubtitleView {
        SubtitleView { index: self.index, time_range: self.time_range, text: self.text@ }
    }
}

impl SubtitleView {
    /// Whether the index is positive and the time range valid.
    pub open spec fn is_valid(&self) -> bool {
        self.index > 0 && self.time_range.is_valid()
    }
}

/// The error for a first line `token` that is no number.
pub open spec fn index_error(token: Seq<char>) -> ParseErrorView {
    ParseErrorView::InvalidFormat("Failed to parse subtitle index: "@ + token)
}

/// The error for a first line `token` that denotes zero.
pub open spec fn zero_index_error(token: Seq<char>) -> ParseErrorView {
    ParseErrorView::InvalidFormat("Subtitle index must be a positive integer, found: "@ + token)
}

/// What stands between two lines of a subtitle's text once they are joined.
pub open spec fn line_joint() -> Seq<char> {
    " "@
}

impl Parseable for Subtitle {
    /// A subtitle is read from a block that is not blank and has three lines
    /// or more. The first line must be a number above zero, the second a time
    /// range. All further lines, joined by one space each, are the text.
    open spec fn parsed(input: Seq<char>) -> Result<SubtitleView, ParseErrorView> {
        let rows = lines_of(input);
        if is_blank(input) {
            Err(invalid_input())
        } else if rows.len() < 3 {
            Err(ParseErrorView::MissingFields)
        } else {
            match unsigned_of(rows[0]) {
                None => Err(index_error(rows[0])),
                Some(index) => if index == 0 {
                    Err(zero_index_error(rows[0]))
                } else {
                    match TimeRange::parsed(rows[1]) {
                        Err(error) => Err(error),
                        Ok(time_range) => Ok(
                            SubtitleView {
                                index,
                                time_range,
                                text: joined(rows.skip(2), line_joint()),
                            },
                        ),
                    }
                },
            }
        }
    }

    fn parse(input: &str) -> (result: Result<Self, ParseError>)
        ensures
            result matches Ok(subtitle) ==> subtitle@.is_valid(),
    {
        if !is_valid_input(input) {
            return Err(ParseError::for_invalid_input());
        }
        let rows = lines(input);
        if rows.len() < 3 {
            return Err(ParseError::MissingFields);
        }
        let index = match parse_u32(rows[0].as_str()) {
            Some(value) => value,
            None => {
                let mut message = "Failed to parse subtitle index: ".to_owned();
                message.append(rows[0].as_str());
                return Err(ParseError::InvalidFormat(message));
            },
        };
        if index == 0 {
            let mut message = "Subtitle index must be a positive integer, found: ".to_owned();
            message.append(rows[0].as_str());
            return Err(ParseError::InvalidFormat(message));
        }
        let time_range = match TimeRange::parse(rows[1].as_str()) {
            Ok(range) => range,
            Err(error) => return Err(error),
        };
        let text = join_from(&rows, 2, " ");
        Ok(Subtitle { index, time_range, text })
    }
}

/// A block that is not blank and has fewer than three lines, as one without
/// a line of text, misses fields.
pub proof fn lemma_short_block_misses_fields(block: Seq<char>)
    requires
        !is_blank(block),
        lines_of(block).len() < 3,
    ensures
        Subtitle::parsed(block) == Err::<SubtitleView, ParseErrorView>(
            ParseErrorView::MissingFields,
        ),
{
}

/// A block of three lines or more whose first line is no number, or the
/// number zero, fails with `InvalidFormat`, whatever its other lines hold.
pub proof fn lemma_bad_index_is_invalid_format(block: Seq<char>)
    requires
        !is_blank(block),
        lines_of(block).len() >= 3,
        unsigned_of(lines_of(block)[0]) is None || unsigned_of(lines_of(block)[0]) == Some(0u32),
    ensures
        Subtitle::parsed(block) matches Err(ParseErrorView::InvalidFormat(_)),
{
}

} // verus!
