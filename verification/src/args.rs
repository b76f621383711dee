//! The arguments of one search, as a command line gives them.
use vstd::prelude::*;
use std::path::PathBuf;
use crate::matcher::{MatchMode, SearchOptions};

verus! {

/// A file path of the standard library. The search never looks inside it:
/// it is carried from the command line to whoever reads the file.
#[verifier::external_type_specification]
#[verifier::external_body]
pub struct ExPathBuf(PathBuf);

/// The arguments of one search: what to look for, where, and how.
pub struct CommandArgs {
    /// Search query
    pub query: String,
    /// File path
    pub path: PathBuf,
    /// Ignores case while searching
    pub ignore_case: bool,
    /// Inverts the search results
    pub invert_match: bool,
    /// Matches exact words only
    pub word: bool,
    /// Matches exact lines only
    pub line: bool,
}

impl CommandArgs {
    /// Creates a new `CommandArgs` that holds the given arguments.
    pub fn new(
        query: String,
        path: PathBuf,
        ignore_case: bool,
        invert_match: bool,
        word: bool,
        line: bool,
    ) -> (args: CommandArgs)
        ensures
            args.query == query,
            args.path == path,
            args.ignore_case == ignore_case,
            args.invert_match == invert_match,
            args.word == word,
            args.line == line,
    {
        CommandArgs { query, path, ignore_case, invert_match, word, line }
    }

    /// The mode that the two flags `line` and `word` select: whole lines
    /// where `line` is set, whatever `word` says; else words where `word`
    /// is set; else substrings.
    pub open spec fn mode_spec(&self) -> MatchMode {
        if self.line {
            MatchMode::Line
        } else if self.word {
            MatchMode::Word
        } else {
            MatchMode::Substring
        }
    }

    /// The options of the search that these arguments ask for.
    pub open spec fn options_spec(&self) -> SearchOptions {
        SearchOptions {
            ignore_case: self.ignore_case,
            invert: self.invert_match,
            mode: self.mode_spec(),
        }
    }

    /// The mode that the two flags `line` and `word` select.
    #[verifier::when_used_as_spec(mode_spec)]
    pub fn mode(&self) -> (mode: MatchMode)
        ensures
            mode == self.mode_spec(),
    {
        if self.line {
            MatchMode::Line
        } else if self.word {
            MatchMode::Word
        } else {
            MatchMode::Substring
        }
    }

    /// The options of the search that these arguments ask for.
    #[verifier::when_used_as_spec(options_spec)]
    pub fn options(&self) -> (options: SearchOptions)
        ensures
            options == self.options_spec(),
    {
        SearchOptions { ignore_case: self.ignore_case, invert: self.invert_match, mode: self.mode() }
    }
}

} // verus!
