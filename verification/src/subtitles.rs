//! Detection on the text of an SRT subtitle file.
//!
//! The SRT format is read by the `srtlib` crate. The library hands it the
//! whole text, takes the text of each subtitle in file order, and runs the
//! detector on those.

use vstd::prelude::*;
use srtlib::{ParsingError, Subtitles};
use crate::duplicates::{find_duplicates, DuplicateResult, MAX_LEN};
use crate::model::{detect, item_views};

verus! {

/// `srtlib`'s error type. Verus carries its values through and looks at
/// nothing inside them.
#[verifier::external_type_specification]
#[verifier::external_body]
pub struct ExParsingError(srtlib::ParsingError);

/// What `srtlib::Subtitles::parse_from_str` makes of the text `input`: the
/// texts of the subtitles that it reads, in file order, or `None` where it
/// reports an error.
pub uninterp spec fn srt_texts(input: Seq<char>) -> Option<Seq<Seq<char>>>;

/// Calls `srtlib::Subtitles::parse_from_str` on `input` and takes the `text`
/// field out of each subtitle that it returns, in order.
///
/// The contract is not proved. It claims what the parser's source shows: the
/// parser works on the text alone, by splitting it and reading the numbers in
/// it, so that what it returns is a function of `input`, which [`srt_texts`]
/// names; and it returns on every text, reporting what it cannot read as an
/// error. It reads the counter of each subtitle as a `usize`, so the function
/// is that of the target the program is built for.
#[verifier::external_body]
fn parse_subtitle_texts(input: String) -> (parsed: Result<Vec<String>, ParsingError>)
    ensures
        match parsed {
            Ok(texts) => srt_texts(input@) == Some(item_views(texts@)),
            Err(_) => srt_texts(input@) is None,
        },
{
    match Subtitles::parse_from_str(input) {
        Ok(subtitles) => Ok(subtitles.into_iter().map(|subtitle| subtitle.text).collect()),
        Err(error) => Err(error),
    }
}

/// Why the text of a subtitle file could not be checked.
#[derive(Debug)]
pub enum SubtitleError {
    /// The text is not in SRT form. The parser's own report is kept.
    Malformed(ParsingError),
}

/// Runs the detector on the subtitles of an SRT file, given as its whole
/// text: the items are the texts of the subtitles, in file order.
///
/// A text that the SRT parser rejects is an error, never an empty result.
pub fn check_subtitles(input: String) -> (checked: Result<DuplicateResult<String>, SubtitleError>)
    ensures
        match checked {
            Ok(result) => srt_texts(input@) matches Some(texts) && result@ == detect(
                texts,
                MAX_LEN as int,
            ),
            Err(_) => srt_texts(input@) is None,
        },
{
    match parse_subtitle_texts(input) {
        Ok(texts) => Ok(find_duplicates(texts)),
        Err(error) => Err(SubtitleError::Malformed(error)),
    }
}

} // verus!
