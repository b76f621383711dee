//! The match predicate: whether one line satisfies a query, before the
//! selection is inverted.
//!
//! The three modes work on bytes that are already folded. A word is a
//! maximal run of ASCII letters and digits; every other byte separates
//! words, so each byte of a character outside ASCII is a separator.
use vstd::prelude::*;
use vstd::string::*;
use crate::fold::{fold_bytes, prep_string};

verus! {

/// How a line is held against the query.
#[derive(Clone, Copy, Debug, PartialEq, Eq, Structural)]
pub enum MatchMode {
    /// The query occurs somewhere in the line.
    Substring,
    /// The query is one of the words of the line.
    Word,
    /// The query is the whole line.
    Line,
}

/// The options of one search.
#[derive(Clone, Copy, Debug, PartialEq, Eq, Structural)]
pub struct SearchOptions {
    /// Compare the lower-case forms of query and line.
    pub ignore_case: bool,
    /// Report the lines that do not match.
    pub invert: bool,
    /// How a line is held against the query.
    pub mode: MatchMode,
}

/// An ASCII letter or digit.
pub open spec fn is_word_byte(b: u8) -> bool {
    ||| 0x30 <= b <= 0x39
    ||| 0x41 <= b <= 0x5a
    ||| 0x61 <= b <= 0x7a
}

/// Every byte of `s` is a letter or a digit.
pub open spec fn all_word_bytes(s: Seq<u8>) -> bool {
    forall|k: int| 0 <= k < s.len() ==> is_word_byte(#[trigger] s[k])
}

/// `needle` stands in `line` at offset `at`.
pub open spec fn occurs_at(line: Seq<u8>, needle: Seq<u8>, at: int) -> bool {
    &&& 0 <= at
    &&& at + needle.len() <= line.len()
    &&& forall|k: int| 0 <= k < needle.len() ==> line[at + k] == #[trigger] needle[k]
}

/// `needle` stands somewhere in `line`. The empty needle stands in every
/// line, and a needle longer than the line in none.
pub open spec fn contains(line: Seq<u8>, needle: Seq<u8>) -> bool {
    exists|at: int| occurs_at(line, needle, at)
}

/// `word` is the word of `line` that starts at offset `at`: it is not
/// empty, it is made of letters and digits, it stands at `at`, and neither
/// the byte before it nor the byte after it is a letter or a digit.
pub open spec fn word_at(line: Seq<u8>, word: Seq<u8>, at: int) -> bool {
    &&& word.len() > 0
    &&& all_word_bytes(word)
    &&& occurs_at(line, word, at)
    &&& (at == 0 || !is_word_byte(line[at - 1]))
    &&& (at + word.len() == line.len() || !is_word_byte(line[at + word.len()]))
}

/// `word` is one of the words of `line`. The empty line counts as one empty
/// word; a line that is not empty has no empty word, whatever separators
/// it begins or ends with.
pub open spec fn has_word(line: Seq<u8>, word: Seq<u8>) -> bool {
    if line.len() == 0 {
        word.len() == 0
    } else {
        exists|at: int| word_at(line, word, at)
    }
}

/// The offset at which the run of letters and digits that begins at `from`
/// ends: that of the first byte at or after `from` that is neither, or the
/// length of `line` where there is none.
pub open spec fn word_end(line: Seq<u8>, from: nat) -> nat
    decreases line.len() - from,
{
    if from >= line.len() {
        line.len()
    } else if !is_word_byte(line[from as int]) {
        from
    } else {
        word_end(line, from + 1)
    }
}

/// A word of `line` starts at offset `at`: the byte there is a letter or a
/// digit, and the byte before it, if there is one, is not.
pub open spec fn is_word_start(line: Seq<u8>, at: int) -> bool {
    &&& 0 <= at < line.len()
    &&& is_word_byte(line[at])
    &&& (at == 0 || !is_word_byte(line[at - 1]))
}

/// The words of `line` that start at or after `from`, in the order of the
/// line.
pub open spec fn words_from(line: Seq<u8>, from: nat) -> Seq<Seq<u8>>
    decreases line.len() - from,
{
    if from >= line.len() {
        Seq::empty()
    } else if is_word_start(line, from as int) {
        seq![line.subrange(from as int, word_end(line, from) as int)] + words_from(line, from + 1)
    } else {
        words_from(line, from + 1)
    }
}

/// The words that `line` splits into where every run of bytes other than
/// letters and digits separates two words. The empty line is one empty
/// word; in no other line is there an empty word.
pub open spec fn words(line: Seq<u8>) -> Seq<Seq<u8>> {
    if line.len() == 0 {
        seq![Seq::empty()]
    } else {
        words_from(line, 0)
    }
}

/// Whether the folded `line` satisfies the folded `query` in the given mode.
pub open spec fn mode_matches(mode: MatchMode, line: Seq<u8>, query: Seq<u8>) -> bool {
    match mode {
        MatchMode::Line => line == query,
        MatchMode::Word => has_word(line, query),
        MatchMode::Substring => contains(line, query),
    }
}

/// Whether a line satisfies a query under the options, the inversion left
/// aside. Line and query are given by their UTF-8 bytes and folded here.
pub open spec fn raw_match(line: Seq<u8>, query: Seq<u8>, options: SearchOptions) -> bool {
    mode_matches(
        options.mode,
        fold_bytes(line, options.ignore_case),
        fold_bytes(query, options.ignore_case),
    )
}

/// Whether a line is reported: it matches and the selection is not
/// inverted, or it does not match and the selection is inverted.
pub open spec fn reported(line: Seq<u8>, query: Seq<u8>, options: SearchOptions) -> bool {
    raw_match(line, query, options) != options.invert
}

/// Tells letters and digits from all other bytes.
pub fn is_word(b: u8) -> (yes: bool)
    ensures
        yes == is_word_byte(b),
{
    (0x30 <= b && b <= 0x39) || (0x41 <= b && b <= 0x5a) || (0x61 <= b && b <= 0x7a)
}

/// Compares the bytes of `line` from offset `at` on with `needle`.
pub fn stands_at(line: &[u8], needle: &[u8], at: usize) -> (yes: bool)
    ensures
        yes == occurs_at(line@, needle@, at as int),
{
    let n: usize = line.len();
    let m: usize = needle.len();
    if at > n || m > n - at {
        return false;
    }
    let mut k: usize = 0;
    while k < m
        invariant
            n == line@.len(),
            m == needle@.len(),
            at + m <= n,
            k <= m,
            forall|j: int| 0 <= j < k ==> line@[at + j] == #[trigger] needle@[j],
        decreases m - k,
    {
        if line[at + k] != needle[k] {
            return false;
        }
        k += 1;
    }
    true
}

/// Line mode: the line is the query, byte for byte.
pub fn line_match(line: &[u8], query: &[u8]) -> (yes: bool)
    ensures
        yes == (line@ == query@),
        yes == mode_matches(MatchMode::Line, line@, query@),
{
    let same: bool = line.len() == query.len() && stands_at(line, query, 0);
    proof {
        if same {
            assert(line@ =~= query@);
        }
    }
    same
}

/// Substring mode: the query stands somewhere in the line.
pub fn partial_match(line: &[u8], query: &[u8]) -> (yes: bool)
    ensures
        yes == contains(line@, query@),
        yes == mode_matches(MatchMode::Substring, line@, query@),
{
    let n: usize = line.len();
    let m: usize = query.len();
    if m > n {
        return false;
    }
    let last: usize = n - m;
    let mut at: usize = 0;
    while at <= last
        invariant
            n == line@.len(),
            m == query@.len(),
            last == n - m,
            at <= last + 1,
            forall|a: int| 0 <= a < at ==> !occurs_at(line@, query@, a),
        decreases last + 1 - at,
    {
        if stands_at(line, query, at) {
            return true;
        }
        at += 1;
    }
    false
}

/// Word mode: the query is one of the words of the line.
pub fn word_match(line: &[u8], query: &[u8]) -> (yes: bool)
    ensures
        yes == has_word(line@, query@),
        yes == mode_matches(MatchMode::Word, line@, query@),
{
    let n: usize = line.len();
    let m: usize = query.len();
    if n == 0 {
        return m == 0;
    }
    let mut start: usize = 0;
    while start < n
        invariant
            n == line@.len(),
            m == query@.len(),
            0 < n,
            start <= n,
            forall|a: int| 0 <= a < start ==> !word_at(line@, query@, a),
            start == 0 || start == n || !is_word_byte(line@[start - 1]),
        decreases n - start,
    {
        if !is_word(line[start]) {
            proof {
                lemma_no_word_at_separator(line@, query@, start as int);
            }
            start += 1;
        } else {
            let mut end: usize = start + 1;
            while end < n && is_word(line[end])
                invariant
                    n == line@.len(),
                    start < end <= n,
                    forall|k: int| start <= k < end ==> is_word_byte(line@[k]),
                decreases n - end,
            {
                end += 1;
            }
            if end - start == m && stands_at(line, query, start) {
                proof {
                    assert forall|k: int| 0 <= k < query@.len() implies is_word_byte(
                        #[trigger] query@[k],
                    ) by {
                        assert(line@[start + k] == query@[k]);
                    }
                    assert(word_at(line@, query@, start as int));
                }
                return true;
            }
            proof {
                lemma_no_word_inside_run(line@, query@, start as int, end as int);
            }
            if end < n {
                start = end + 1;
            } else {
                start = end;
            }
        }
    }
    proof {
        assert forall|a: int| !word_at(line@, query@, a) by {
            if word_at(line@, query@, a) {
                assert(0 <= a < n);
            }
        }
    }
    false
}

/// No word starts at a byte that is a separator.
proof fn lemma_no_word_at_separator(line: Seq<u8>, word: Seq<u8>, at: int)
    requires
        0 <= at < line.len(),
        !is_word_byte(line[at]),
    ensures
        !word_at(line, word, at),
{
    if word_at(line, word, at) {
        assert(line[at + 0] == word[0]);
    }
}

/// Where `from..to` is a maximal run of letters and digits, the only word
/// that starts in `from..=to` is the run itself.
proof fn lemma_no_word_inside_run(line: Seq<u8>, word: Seq<u8>, from: int, to: int)
    requires
        0 <= from < to <= line.len(),
        forall|k: int| from <= k < to ==> is_word_byte(line[k]),
        from == 0 || !is_word_byte(line[from - 1]),
        to == line.len() || !is_word_byte(line[to]),
        !(to - from == word.len() && occurs_at(line, word, from)),
    ensures
        forall|a: int| from <= a <= to && a < line.len() ==> !word_at(line, word, a),
{
    assert forall|a: int| from <= a <= to && a < line.len() implies !word_at(line, word, a) by {
        if word_at(line, word, a) {
            if a == to {
                assert(line[a + 0] == word[0]);
            } else if a > from {
                assert(is_word_byte(line[a - 1]));
            } else {
                let len = word.len() as int;
                if from + len < to {
                    assert(is_word_byte(line[from + len]));
                } else if from + len > to {
                    assert(line[from + (to - from)] == word[to - from]);
                }
            }
        }
    }
}

/// Decides whether a folded line satisfies a folded query in the given mode.
pub fn matches_mode(mode: MatchMode, line: &[u8], query: &[u8]) -> (yes: bool)
    ensures
        yes == mode_matches(mode, line@, query@),
{
    match mode {
        MatchMode::Line => line_match(line, query),
        MatchMode::Word => word_match(line, query),
        MatchMode::Substring => partial_match(line, query),
    }
}

/// The match predicate: decides whether `line` satisfies `query` under the
/// options, the inversion left aside. Both are folded here as the options
/// say, then held against each other in the mode of the options.
pub fn is_match(line: &str, query: &str, options: &SearchOptions) -> (yes: bool)
    ensures
        yes == raw_match(line.spec_bytes(), query.spec_bytes(), *options),
{
    let folded_line = prep_string(line, options.ignore_case);
    let folded_query = prep_string(query, options.ignore_case);
    matches_mode(options.mode, folded_line.as_slice(), folded_query.as_slice())
}

} // verus!
