//! The parser of whole documents.

use crate::exception::{ParseError, ParseErrorView};
use crate::subtitle::{Subtitle, SubtitleView};
use crate::text::{
    has_line_feeds_only, lemma_carriage_returns_are_taken_out, lemma_line_feeds_only,
    pieces_between, split_on, to_line_feeds, with_carriage_returns, with_line_feeds,
};
use crate::traits::{document_outcome, views, Parseable, SubtitleParser};
use vstd::prelude::*;

verus! {

/// What parts two blocks of a document: an empty line.
pub open spec fn block_separator() -> Seq<char> {
    "\n\n"@
}

/// The blocks of a document: its text, with line feeds for all line endings,
/// cut at every empty line.
pub open spec fn blocks_of(content: Seq<char>) -> Seq<Seq<char>> {
    pieces_between(with_line_feeds(content), block_separator())
}

/// The values of the results that are `Ok`, in order.
pub open spec fn successes<A, E>(results: Seq<Result<A, E>>) -> Seq<A>
    decreases results.len(),
{
    if results.len() == 0 {
        Seq::empty()
    } else {
        match results.last() {
            Ok(value) => successes(results.drop_last()).push(value),
            Err(_) => successes(results.drop_last()),
        }
    }
}

/// The errors of the results that are `Err`, in order.
pub open spec fn failures<A, E>(results: Seq<Result<A, E>>) -> Seq<E>
    decreases results.len(),
{
    if results.len() == 0 {
        Seq::empty()
    } else {
        match results.last() {
            Ok(_) => failures(results.drop_last()),
            Err(error) => failures(results.drop_last()).push(error),
        }
    }
}

/// Whether each of `subtitles` has a positive index and a valid time range.
pub open spec fn all_valid(subtitles: Seq<Subtitle>) -> bool {
    forall|i: int| 0 <= i < subtitles.len() ==> (#[trigger] subtitles[i])@.is_valid()
}

/// What each block of `content` parses to, in order.
pub open spec fn block_results(content: Seq<char>) -> Seq<Result<SubtitleView, ParseErrorView>> {
    blocks_of(content).map_values(|block: Seq<char>| Subtitle::parsed(block))
}

/// The parser of documents in which each subtitle is a block of lines and an
/// empty line parts two blocks.
pub struct SrtParser;

impl SubtitleParser for SrtParser {
    /// Every block is parsed by itself. If none fails, the document is the
    /// subtitles in order; otherwise it is the errors in order, and no
    /// subtitle is given.
    ///
    /// What follows the last empty line is a block like any other: a
    /// document that ends in an empty line, and the empty document, have a
    /// blank block, and fail for it.
    open spec fn parsed(content: Seq<char>) -> Result<Seq<SubtitleView>, Seq<ParseErrorView>> {
        let results = block_results(content);
        if failures(results).len() == 0 {
            Ok(successes(results))
        } else {
            Err(failures(results))
        }
    }

    fn parse(srt_content: &str) -> (result: Result<Vec<Subtitle>, Vec<ParseError>>)
        ensures
            result matches Ok(subtitles) ==> all_valid(subtitles@),
            result matches Err(errors) ==> errors.len() > 0,
    {
        let content = to_line_feeds(srt_content);
        let blocks = split_on(content.as_str(), "\n\n");
        let ghost results = block_results(srt_content@);
        let mut subtitles: Vec<Subtitle> = Vec::new();
        let mut errors: Vec<ParseError> = Vec::new();
        let mut i: usize = 0;
        while i < blocks.len()
            invariant
                i <= blocks.len(),
                blocks.deep_view() == blocks_of(srt_content@),
                results == block_results(srt_content@),
                views(subtitles@) == successes(results.take(i as int)),
                views(errors@) == failures(results.take(i as int)),
                all_valid(subtitles@),
            decreases blocks.len() - i,
        {
            assert(results.take(i + 1).drop_last() =~= results.take(i as int));
            match Subtitle::parse(blocks[i].as_str()) {
                Ok(subtitle) => {
                    subtitles.push(subtitle);
                },
                Err(error) => {
                    errors.push(error);
                },
            }
            i += 1;
        }
        assert(results.take(i as int) =~= results);
        if errors.is_empty() {
            Ok(subtitles)
        } else {
            Err(errors)
        }
    }
}

impl SrtParser {
    /// Reads all subtitles of `srt_content`. Every block is tried; one that
    /// fails makes the whole call fail, with the errors of all blocks that
    /// failed, in order.
    pub fn parse(srt_content: &str) -> (result: Result<Vec<Subtitle>, Vec<ParseError>>)
        ensures
            document_outcome(result) == SrtParser::parsed(srt_content@),
            result matches Ok(subtitles) ==> all_valid(subtitles@),
            result matches Err(errors) ==> errors.len() > 0,
    {
        <Self as SubtitleParser>::parse(srt_content)
    }
}

/// Parses what was read from a file: the document if reading gave one, and
/// the failure of reading as the only error if it did not.
pub fn parse_srt_file(content: Result<String, std::io::Error>) -> (result: Result<
    Vec<Subtitle>,
    Vec<ParseError>,
>)
    ensures
        content matches Ok(text) ==> document_outcome(result) == SrtParser::parsed(text@),
        content matches Err(error) ==> (result matches Err(errors) && errors@ == seq![
            ParseError::IoError(error),
        ]),
        result matches Ok(subtitles) ==> all_valid(subtitles@),
        result matches Err(errors) ==> errors.len() > 0,
{
    match content {
        Ok(text) => SrtParser::parse(text.as_str()),
        Err(error) => {
            let mut errors: Vec<ParseError> = Vec::new();
            errors.push(ParseError::IoError(error));
            Err(errors)
        },
    }
}

/// Every result is counted once: as a success or as a failure.
pub proof fn lemma_every_result_is_counted<A, E>(results: Seq<Result<A, E>>)
    ensures
        successes(results).len() + failures(results).len() == results.len(),
    decreases results.len(),
{
    if results.len() > 0 {
        lemma_every_result_is_counted(results.drop_last());
    }
}

/// A document parses to as many subtitles as it has blocks, or else to as
/// many errors as it has blocks that fail, of which there is then at least
/// one.
pub proof fn lemma_document_is_all_or_nothing(content: Seq<char>)
    ensures
        SrtParser::parsed(content) matches Ok(subtitles) ==> subtitles.len() == blocks_of(
            content,
        ).len(),
        SrtParser::parsed(content) matches Err(errors) ==> 1 <= errors.len() <= blocks_of(
            content,
        ).len(),
        SrtParser::parsed(content) matches Err(errors) ==> errors.len() + successes(
            block_results(content),
        ).len() == blocks_of(content).len(),
{
    lemma_every_result_is_counted(block_results(content));
}

/// Parsing keeps no state: whatever two calls return for the same text, they
/// return the same subtitles, or the same errors.
pub proof fn lemma_parsing_twice_gives_the_same(
    content: Seq<char>,
    first: Result<Vec<Subtitle>, Vec<ParseError>>,
    second: Result<Vec<Subtitle>, Vec<ParseError>>,
)
    requires
        document_outcome(first) == SrtParser::parsed(content),
        document_outcome(second) == SrtParser::parsed(content),
    ensures
        document_outcome(first) == document_outcome(second),
{
}

/// A document whose lines end in line feeds parses to the same subtitles, or
/// the same errors, when a carriage return is put before each line feed.
pub proof fn lemma_carriage_returns_change_nothing(content: Seq<char>)
    requires
        has_line_feeds_only(content),
    ensures
        SrtParser::parsed(with_carriage_returns(content)) == SrtParser::parsed(content),
{
    lemma_carriage_returns_are_taken_out(content);
    lemma_line_feeds_only(content);
}

/// A document of two blocks of which just one fails has just one error, and
/// gives no subtitle.
pub proof fn lemma_one_failing_block_of_two(content: Seq<char>)
    requires
        blocks_of(content).len() == 2,
        (Subtitle::parsed(blocks_of(content)[0]) is Err) != (Subtitle::parsed(
            blocks_of(content)[1],
        ) is Err),
    ensures
        SrtParser::parsed(content) matches Err(errors) && errors.len() == 1 && (errors[0]
            == Subtitle::parsed(blocks_of(content)[0])->Err_0 || errors[0] == Subtitle::parsed(
            blocks_of(content)[1],
        )->Err_0),
{
    reveal_with_fuel(failures, 3);
}

} // verus!
