//! A point in time, written `HH:MM:SS,mmm`.

use crate::exception::{invalid_input, wrong_part_count, ParseError, ParseErrorView};
use crate::number::{
    all_digits, decimal, digit_char, digits_value, lemma_digit_char, lemma_unsigned_of_digits,
    parse_u32, push_decimal, unsigned_of,
};
use crate::text::{
    is_blank, is_free_of, is_space, lemma_pieces_of_more, lemma_pieces_of_one,
    lemma_trimmed_already, pieces, split_any, trim, trimmed,
};
use crate::traits::Parseable;
use crate::validation::is_valid_input;
use vstd::prelude::*;

verus! {

/// Hours, minutes, seconds and milliseconds.
#[derive(Debug)]
pub struct Timecode {
    pub hours: u32,
    pub minutes: u32,
    pub seconds: u32,
    pub milliseconds: u32,
}

impl View for Timecode {
    type V = Timecode;

    open spec fn view(&self) -> Timecode {
        *self
    }
}

/// The characters that part the fields of a timecode from each other.
pub open spec fn field_separators() -> Seq<char> {
    seq![':', ',', ' ']
}

/// Whether the four values lie within a day, an hour, a minute and a second.
pub open spec fn in_range(hours: u32, minutes: u32, seconds: u32, milliseconds: u32) -> bool {
    hours < 24 && minutes < 60 && seconds < 60 && milliseconds < 1000
}

/// The error for the field called `name` whose text `token` is no number.
pub open spec fn field_error(name: Seq<char>, token: Seq<char>) -> ParseErrorView {
    ParseErrorView::InvalidTimecode("Failed to parse "@ + name + ": "@ + token)
}

/// The error for four numbers of which at least one is out of range.
pub open spec fn range_error(
    hours: u32,
    minutes: u32,
    seconds: u32,
    milliseconds: u32,
) -> ParseErrorView {
    ParseErrorView::InvalidTimecode(
        "Time values out of range: "@ + decimal(hours as nat) + ":"@ + decimal(minutes as nat)
            + ":"@ + decimal(seconds as nat) + ","@ + decimal(milliseconds as nat) + ")"@,
    )
}

impl Timecode {
    /// Whether each field is in its range.
    pub open spec fn is_valid(&self) -> bool {
        in_range(self.hours, self.minutes, self.seconds, self.milliseconds)
    }

    /// Reads the field called `name` from `token`.
    fn field(name: &str, token: &str) -> (result: Result<u32, ParseError>)
        ensures
            unsigned_of(token@) matches Some(value) ==> result == Ok::<u32, ParseError>(value),
            unsigned_of(token@) is None ==> (result matches Err(error) && error@ == field_error(
                name@,
                token@,
            )),
    {
        match parse_u32(token) {
            Some(value) => Ok(value),
            None => {
                let mut message = "Failed to parse ".to_owned();
                message.append(name);
                message.append(": ");
                message.append(token);
                Err(ParseError::InvalidTimecode(message))
            },
        }
    }

    /// Makes the error for four numbers of which at least one is out of range.
    fn out_of_range(hours: u32, minutes: u32, seconds: u32, milliseconds: u32) -> (error:
        ParseError)
        ensures
            error@ == range_error(hours, minutes, seconds, milliseconds),
    {
        let mut message = "Time values out of range: ".to_owned();
        push_decimal(&mut message, hours as u64);
        message.append(":");
        push_decimal(&mut message, minutes as u64);
        message.append(":");
        push_decimal(&mut message, seconds as u64);
        message.append(",");
        push_decimal(&mut message, milliseconds as u64);
        message.append(")");
        ParseError::InvalidTimecode(message)
    }
}

impl Parseable for Timecode {
    /// A timecode is read from a text that is not blank. Without the white
    /// space at its ends, the text is cut at every colon, comma and space,
    /// and must fall into four parts. Each part must be a number, hours
    /// first, and the four numbers must be in range.
    ///
    /// The three separators count alike wherever they stand, so that
    /// `12 34 56 789` and `12,34,56:789` denote the same timecode as
    /// `12:34:56,789`. The first part that is no number is the one reported.
    /// Numbers out of range are reported together, without saying which one
    /// is at fault.
    open spec fn parsed(input: Seq<char>) -> Result<Timecode, ParseErrorView> {
        let parts = pieces(trimmed(input), field_separators());
        if is_blank(input) {
            Err(invalid_input())
        } else if parts.len() != 4 {
            Err(wrong_part_count(4, parts.len()))
        } else if unsigned_of(parts[0]) is None {
            Err(field_error("hours"@, parts[0]))
        } else if unsigned_of(parts[1]) is None {
            Err(field_error("minutes"@, parts[1]))
        } else if unsigned_of(parts[2]) is None {
            Err(field_error("seconds"@, parts[2]))
        } else if unsigned_of(parts[3]) is None {
            Err(field_error("milliseconds"@, parts[3]))
        } else {
            let hours = unsigned_of(parts[0])->0;
            let minutes = unsigned_of(parts[1])->0;
            let seconds = unsigned_of(parts[2])->0;
            let milliseconds = unsigned_of(parts[3])->0;
            if in_range(hours, minutes, seconds, milliseconds) {
                Ok(Timecode { hours, minutes, seconds, milliseconds })
            } else {
                Err(range_error(hours, minutes, seconds, milliseconds))
            }
        }
    }

    fn parse(input: &str) -> (result: Result<Self, ParseError>)
        ensures
            result matches Ok(timecode) ==> timecode.is_valid(),
    {
        if !is_valid_input(input) {
            return Err(ParseError::for_invalid_input());
        }
        let text = trim(input);
        let separators = [':', ',', ' '];
        let parts = split_any(text.as_str(), separators.as_slice());
        if parts.len() != 4 {
            return Err(ParseError::for_part_count(4, parts.len()));
        }
        let hours = match Self::field("hours", parts[0].as_str()) {
            Ok(value) => value,
            Err(error) => return Err(error),
        };
        let minutes = match Self::field("minutes", parts[1].as_str()) {
            Ok(value) => value,
            Err(error) => return Err(error),
        };
        let seconds = match Self::field("seconds", parts[2].as_str()) {
            Ok(value) => value,
            Err(error) => return Err(error),
        };
        let milliseconds = match Self::field("milliseconds", parts[3].as_str()) {
            Ok(value) => value,
            Err(error) => return Err(error),
        };
        if hours >= 24 || minutes >= 60 || seconds >= 60 || milliseconds >= 1000 {
            return Err(Self::out_of_range(hours, minutes, seconds, milliseconds));
        }
        Ok(Timecode { hours, minutes, seconds, milliseconds })
    }
}

/// Four numbers written as a timecode: a colon after the first and after the
/// second, a comma after the third.
pub open spec fn written(
    hours: Seq<char>,
    minutes: Seq<char>,
    seconds: Seq<char>,
    milliseconds: Seq<char>,
) -> Seq<char> {
    hours.push(':') + minutes + seq![':'] + seconds + seq![','] + milliseconds
}

/// `n` in two digits, for `n` below a hundred.
pub open spec fn two_digits(n: nat) -> Seq<char> {
    seq![digit_char(n / 10), digit_char(n % 10)]
}

/// `n` in three digits, for `n` below a thousand.
pub open spec fn three_digits(n: nat) -> Seq<char> {
    seq![digit_char(n / 100), digit_char(n / 10 % 10), digit_char(n % 10)]
}

/// A number in digits holds no white space and no field separator.
pub proof fn lemma_digits_are_plain(s: Seq<char>)
    requires
        all_digits(s),
    ensures
        is_free_of(s, field_separators()),
        forall|i: int| 0 <= i < s.len() ==> !is_space(#[trigger] s[i]),
{
    assert forall|i: int| 0 <= i < s.len() implies !field_separators().contains(#[trigger] s[i])
        && !is_space(s[i]) by {}
}

/// Four numbers in digits, written as a timecode, are cut into just these
/// four, and the text is not blank.
pub proof fn lemma_written_is_cut_in_four(
    hours: Seq<char>,
    minutes: Seq<char>,
    seconds: Seq<char>,
    milliseconds: Seq<char>,
)
    requires
        hours.len() > 0 && all_digits(hours),
        minutes.len() > 0 && all_digits(minutes),
        seconds.len() > 0 && all_digits(seconds),
        milliseconds.len() > 0 && all_digits(milliseconds),
    ensures
        !is_blank(written(hours, minutes, seconds, milliseconds)),
        pieces(trimmed(written(hours, minutes, seconds, milliseconds)), field_separators())
            == seq![hours, minutes, seconds, milliseconds],
{
    let separators = field_separators();
    let text = written(hours, minutes, seconds, milliseconds);
    lemma_digits_are_plain(hours);
    lemma_digits_are_plain(minutes);
    lemma_digits_are_plain(seconds);
    lemma_digits_are_plain(milliseconds);
    lemma_trimmed_already(text);
    lemma_pieces_of_one(hours, separators);
    lemma_pieces_of_more(hours, ':', minutes, separators);
    let two = hours.push(':') + minutes;
    lemma_pieces_of_more(two, ':', seconds, separators);
    let three = two.push(':') + seconds;
    lemma_pieces_of_more(three, ',', milliseconds, separators);
    assert(three.push(',') + milliseconds =~= text);
}

/// Four numbers in digits that are in range, written as a timecode, parse to
/// the timecode of these four numbers.
pub proof fn lemma_numbers_in_range_parse(
    hours: Seq<char>,
    minutes: Seq<char>,
    seconds: Seq<char>,
    milliseconds: Seq<char>,
)
    requires
        hours.len() > 0 && all_digits(hours),
        minutes.len() > 0 && all_digits(minutes),
        seconds.len() > 0 && all_digits(seconds),
        milliseconds.len() > 0 && all_digits(milliseconds),
        digits_value(hours) < 24,
        digits_value(minutes) < 60,
        digits_value(seconds) < 60,
        digits_value(milliseconds) < 1000,
    ensures
        Timecode::parsed(written(hours, minutes, seconds, milliseconds)) matches Ok(timecode)
            && timecode.hours == digits_value(hours) && timecode.minutes == digits_value(minutes)
            && timecode.seconds == digits_value(seconds) && timecode.milliseconds == digits_value(
            milliseconds,
        ),
{
    lemma_written_is_cut_in_four(hours, minutes, seconds, milliseconds);
    lemma_unsigned_of_digits(hours);
    lemma_unsigned_of_digits(minutes);
    lemma_unsigned_of_digits(seconds);
    lemma_unsigned_of_digits(milliseconds);
}

/// Four numbers in digits of which one is out of range, written as a
/// timecode, fail to parse, and the error is `InvalidTimecode`.
pub proof fn lemma_numbers_out_of_range_fail(
    hours: Seq<char>,
    minutes: Seq<char>,
    seconds: Seq<char>,
    milliseconds: Seq<char>,
)
    requires
        hours.len() > 0 && all_digits(hours),
        minutes.len() > 0 && all_digits(minutes),
        seconds.len() > 0 && all_digits(seconds),
        milliseconds.len() > 0 && all_digits(milliseconds),
        digits_value(hours) >= 24 || digits_value(minutes) >= 60 || digits_value(seconds) >= 60
            || digits_value(milliseconds) >= 1000,
    ensures
        Timecode::parsed(written(hours, minutes, seconds, milliseconds)) matches Err(
            ParseErrorView::InvalidTimecode(_),
        ),
{
    lemma_written_is_cut_in_four(hours, minutes, seconds, milliseconds);
    lemma_unsigned_of_digits(hours);
    lemma_unsigned_of_digits(minutes);
    lemma_unsigned_of_digits(seconds);
    lemma_unsigned_of_digits(milliseconds);
}

/// Two digits denote the number they were made from.
pub proof fn lemma_two_digits(n: nat)
    requires
        n < 100,
    ensures
        all_digits(two_digits(n)),
        digits_value(two_digits(n)) == n,
{
    lemma_digit_char(n / 10);
    lemma_digit_char(n % 10);
    reveal_with_fuel(digits_value, 3);
}

/// Three digits denote the number they were made from.
pub proof fn lemma_three_digits(n: nat)
    requires
        n < 1000,
    ensures
        all_digits(three_digits(n)),
        digits_value(three_digits(n)) == n,
{
    lemma_digit_char(n / 100);
    lemma_digit_char(n / 10 % 10);
    lemma_digit_char(n % 10);
    reveal_with_fuel(digits_value, 4);
}

/// Every valid timecode, written `HH:MM:SS,mmm` with two digits for the
/// hours, the minutes and the seconds and three for the milliseconds, parses
/// to itself.
pub proof fn lemma_valid_timecode_round_trips(timecode: Timecode)
    requires
        timecode.is_valid(),
    ensures
        Timecode::parsed(
            written(
                two_digits(timecode.hours as nat),
                two_digits(timecode.minutes as nat),
                two_digits(timecode.seconds as nat),
                three_digits(timecode.milliseconds as nat),
            ),
        ) == Ok::<Timecode, ParseErrorView>(timecode),
{
    lemma_two_digits(timecode.hours as nat);
    lemma_two_digits(timecode.minutes as nat);
    lemma_two_digits(timecode.seconds as nat);
    lemma_three_digits(timecode.milliseconds as nat);
    lemma_numbers_in_range_parse(
        two_digits(timecode.hours as nat),
        two_digits(timecode.minutes as nat),
        two_digits(timecode.seconds as nat),
        three_digits(timecode.milliseconds as nat),
    );
}

} // verus!
