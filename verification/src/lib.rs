//! Detection of accidental repetition in an ordered sequence of items, such as
//! the texts of the subtitles of a file in which a phrase was written several
//! times in a row.
//!
//! [`duplicates::find_duplicates`] looks for the longest short block of items
//! that is immediately followed by an equal block, and counts how often that
//! block occurs in the whole sequence. What it returns is stated over the
//! mathematical model in [`model`]; [`laws`] proves what holds of that model
//! on every sequence. [`subtitles::check_subtitles`] runs the detector on the
//! text of an SRT file.

pub mod model;
pub mod laws;
pub mod duplicates;
pub mod subtitles;
