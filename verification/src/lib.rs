//! A line-oriented text search.
//!
//! A text is cut into lines at every line feed, and each line is held
//! against a query in one of three ways: the query occurs somewhere in the
//! line, the query is one of the line's words, or the query is the whole
//! line. Letter case can be ignored, and the selection can be inverted so
//! that the lines that do not match are the ones reported.
//!
//! Everything is stated over the UTF-8 bytes of the text and of the query.
//! Lines are numbered from 0.
pub mod args;
pub mod engine;
pub mod fold;
pub mod laws;
pub mod lines;
pub mod matcher;
pub mod search;

pub use args::CommandArgs;
pub use engine::run;
pub use fold::prep_string;
pub use lines::cut_line;
pub use matcher::{
    is_match,
    is_word,
    line_match,
    matches_mode,
    partial_match,
    stands_at,
    word_match,
    MatchMode,
    SearchOptions,
};
pub use search::{IsSearch, Search};
