//! What holds of every search, whatever the text, the query and the
//! options.
use vstd::prelude::*;
use vstd::string::*;
use vstd::utf8::*;
use crate::engine::{found, hits_of, lemma_found_is_selection, lemma_found_numbers, line_numbers, search};
use crate::fold::fold_bytes;
use crate::lines::{
    after_first_line,
    first_line,
    lemma_line_feed_from_is_first,
    line_feed_from,
    split_lines,
    LINE_FEED,
};
use crate::matcher::{
    all_word_bytes,
    has_word,
    is_word_byte,
    is_word_start,
    occurs_at,
    raw_match,
    reported,
    word_at,
    word_end,
    words,
    words_from,
    MatchMode,
    SearchOptions,
};

verus! {

/// The options `options` with the inversion set to `invert`.
pub open spec fn with_invert(options: SearchOptions, invert: bool) -> SearchOptions {
    SearchOptions { ignore_case: options.ignore_case, invert, mode: options.mode }
}

/// The options `options` with the mode set to `mode`.
pub open spec fn with_mode(options: SearchOptions, mode: MatchMode) -> SearchOptions {
    SearchOptions { ignore_case: options.ignore_case, invert: options.invert, mode }
}

/// The options `options` with the case folding set to `ignore_case`.
pub open spec fn with_ignore_case(options: SearchOptions, ignore_case: bool) -> SearchOptions {
    SearchOptions { ignore_case, invert: options.invert, mode: options.mode }
}

/// The lines `lines` written one after the other, each with a line feed
/// after it.
pub open spec fn joined(lines: Seq<Seq<u8>>) -> Seq<u8>
    decreases lines.len(),
{
    if lines.len() == 0 {
        Seq::empty()
    } else {
        lines[0].push(LINE_FEED) + joined(lines.drop_first())
    }
}

/// No line holds a line feed.
pub proof fn lemma_lines_hold_no_line_feed(text: Seq<u8>)
    ensures
        forall|i: int, k: int|
            0 <= i < split_lines(text).len() && 0 <= k < split_lines(text)[i].len()
                ==> split_lines(text)[i][k] != LINE_FEED,
    decreases text.len(),
{
    if text.len() > 0 {
        lemma_line_feed_from_is_first(text, 0);
        lemma_lines_hold_no_line_feed(after_first_line(text));
        let later = split_lines(after_first_line(text));
        assert forall|i: int, k: int|
            0 <= i < split_lines(text).len() && 0 <= k < split_lines(text)[i].len() implies split_lines(
            text,
        )[i][k] != LINE_FEED by {
            if i > 0 {
                assert(split_lines(text)[i] == later[i - 1]);
            }
        }
    }
}

/// The lines of a text, written one after the other with a line feed after
/// each, are the text again, with a line feed added at its end if it has
/// none there. So no byte is lost or changed by the cut (a carriage return
/// stays where it is), and a line feed at the end of the text ends the last
/// line without beginning another.
pub proof fn lemma_lines_rejoin(text: Seq<u8>)
    ensures
        joined(split_lines(text)) == if text.len() == 0 || text.last() == LINE_FEED {
            text
        } else {
            text.push(LINE_FEED)
        },
    decreases text.len(),
{
    if text.len() > 0 {
        let rest = after_first_line(text);
        let lines = split_lines(text);
        lemma_line_feed_from_is_first(text, 0);
        lemma_lines_rejoin(rest);
        assert(lines.drop_first() =~= split_lines(rest));
        assert(lines[0] == first_line(text));
        let end = line_feed_from(text, 0) as int;
        if end == text.len() {
            assert(first_line(text) =~= text);
            assert(text.last() != LINE_FEED);
            assert(joined(lines) =~= text.push(LINE_FEED));
        } else if rest.len() == 0 {
            assert(joined(lines) =~= text);
        } else {
            assert(rest.last() == text.last());
            if text.last() == LINE_FEED {
                assert(joined(lines) =~= text);
            } else {
                assert(joined(lines) =~= text.push(LINE_FEED));
            }
        }
    }
}

/// The run of letters and digits that begins at `from` ends at `end` when
/// every byte of `from..end` is a letter or a digit and `end` is the end of
/// the line or a byte that is neither.
pub proof fn lemma_word_end(line: Seq<u8>, from: nat, end: nat)
    requires
        from <= end <= line.len(),
        forall|k: int| from <= k < end ==> is_word_byte(line[k]),
        end == line.len() || !is_word_byte(line[end as int]),
    ensures
        word_end(line, from) == end,
    decreases end - from,
{
    if from < end {
        lemma_word_end(line, from + 1, end);
    }
}

/// The run of letters and digits that begins at `from` ends between `from`
/// and the end of the line, holds letters and digits only, and cannot be
/// made longer.
pub proof fn lemma_word_end_is_first(line: Seq<u8>, from: nat)
    requires
        from <= line.len(),
    ensures
        from <= word_end(line, from) <= line.len(),
        forall|k: int| from <= k < word_end(line, from) ==> is_word_byte(line[k]),
        word_end(line, from) == line.len() || !is_word_byte(line[word_end(line, from) as int]),
    decreases line.len() - from,
{
    if from < line.len() && is_word_byte(line[from as int]) {
        lemma_word_end_is_first(line, from + 1);
    }
}

/// `word` is the word of `line` at offset `at` exactly if a word starts
/// there and `word` is the run of letters and digits from there on.
pub proof fn lemma_word_at_is_run(line: Seq<u8>, word: Seq<u8>, at: int)
    ensures
        word_at(line, word, at) <==> (is_word_start(line, at) && word == line.subrange(
            at,
            word_end(line, at as nat) as int,
        )),
{
    if word_at(line, word, at) {
        assert(line[at + 0] == word[0]);
        assert forall|k: int| at <= k < at + word.len() implies is_word_byte(line[k]) by {
            assert(line[at + (k - at)] == word[k - at]);
        }
        lemma_word_end(line, at as nat, (at + word.len()) as nat);
        assert(word =~= line.subrange(at, at + word.len())) by {
            assert forall|k: int| 0 <= k < word.len() implies word[k] == line.subrange(
                at,
                at + word.len(),
            )[k] by {
                assert(line[at + k] == word[k]);
            }
        }
    }
    if is_word_start(line, at) && word == line.subrange(at, word_end(line, at as nat) as int) {
        lemma_word_end_is_first(line, at as nat);
        lemma_word_end_is_first(line, (at + 1) as nat);
        assert(word_end(line, at as nat) == word_end(line, (at + 1) as nat));
        assert(occurs_at(line, word, at));
        assert(all_word_bytes(word));
    }
}

/// The words that start at or after `from` are the words found at the
/// offsets from `from` on.
pub proof fn lemma_words_from(line: Seq<u8>, from: nat, word: Seq<u8>)
    ensures
        words_from(line, from).contains(word) <==> exists|at: int|
            from <= at && word_at(line, word, at),
    decreases line.len() - from,
{
    if from >= line.len() {
        assert forall|at: int| from <= at implies !word_at(line, word, at) by {
            lemma_word_at_is_run(line, word, at);
        }
    } else {
        lemma_words_from(line, from + 1, word);
        lemma_word_at_is_run(line, word, from as int);
        let later = words_from(line, from + 1);
        let here = line.subrange(from as int, word_end(line, from) as int);
        if words_from(line, from).contains(word) {
            let j = choose|j: int|
                0 <= j < words_from(line, from).len() && words_from(line, from)[j] == word;
            if is_word_start(line, from as int) {
                if j == 0 {
                    assert(word_at(line, word, from as int));
                } else {
                    assert(later[j - 1] == word);
                    assert(later.contains(word));
                }
            } else {
                assert(later.contains(word));
            }
            if later.contains(word) {
                let at = choose|at: int| from + 1 <= at && word_at(line, word, at);
                assert(from <= at && word_at(line, word, at));
            }
        }
        if exists|at: int| from <= at && word_at(line, word, at) {
            let at = choose|at: int| from <= at && word_at(line, word, at);
            if at == from {
                assert(words_from(line, from)[0] == word);
            } else {
                assert(from + 1 <= at && word_at(line, word, at));
                let j = choose|j: int| 0 <= j < later.len() && later[j] == word;
                if is_word_start(line, from as int) {
                    assert(words_from(line, from)[j + 1] == word);
                } else {
                    assert(words_from(line, from)[j] == word);
                }
            }
        }
    }
}

/// Word mode by splitting: a line has a word exactly if that word is among
/// the words that the line splits into.
pub proof fn lemma_has_word_is_among_words(line: Seq<u8>, word: Seq<u8>)
    ensures
        has_word(line, word) <==> words(line).contains(word),
{
    if line.len() == 0 {
        let only: Seq<Seq<u8>> = seq![Seq::<u8>::empty()];
        if word.len() == 0 {
            assert(word =~= Seq::<u8>::empty());
            assert(only[0] == word);
        }
        if only.contains(word) {
            let j = choose|j: int| 0 <= j < only.len() && only[j] == word;
            assert(word.len() == 0);
        }
    } else {
        lemma_words_from(line, 0, word);
        if has_word(line, word) {
            let at = choose|at: int| word_at(line, word, at);
            assert(0 <= at && word_at(line, word, at));
        }
    }
}

/// The numbers of all lines of `text`.
pub open spec fn all_line_numbers(text: Seq<u8>) -> Set<nat> {
    Set::new(|number: nat| number < split_lines(text).len())
}

/// A line number is reported by a search exactly if it is the number of a
/// line of the text and that line is reported.
pub proof fn lemma_search_numbers(
    text: Seq<u8>,
    query: Seq<u8>,
    options: SearchOptions,
    number: nat,
)
    ensures
        line_numbers(search(text, query, options)).contains(number) <==> (number < split_lines(
            text,
        ).len() && reported(split_lines(text)[number as int], query, options)),
{
    lemma_found_numbers(split_lines(text), query, options, number);
}

/// Determinism: two result vectors that both are the result of searching
/// the same text for the same query under the same options have the same
/// length and hold, entry by entry, the same line number and the same line.
pub proof fn lemma_search_is_deterministic<'a, 'b>(
    first: Seq<(usize, &'a str)>,
    second: Seq<(usize, &'b str)>,
    text: Seq<u8>,
    query: Seq<u8>,
    options: SearchOptions,
)
    requires
        hits_of(first) == search(text, query, options),
        hits_of(second) == search(text, query, options),
    ensures
        first.len() == second.len(),
        forall|j: int|
            0 <= j < first.len() ==> (#[trigger] first[j]).0 == second[j].0 && first[j].1@
                == second[j].1@,
{
    assert(hits_of(first).len() == first.len());
    assert(hits_of(second).len() == second.len());
    assert forall|j: int| 0 <= j < first.len() implies (#[trigger] first[j]).0 == second[j].0
        && first[j].1@ == second[j].1@ by {
        assert(hits_of(first)[j] == (first[j].0 as nat, first[j].1.spec_bytes()));
        assert(hits_of(second)[j] == (second[j].0 as nat, second[j].1.spec_bytes()));
        encode_utf8_decode_utf8(first[j].1@);
        encode_utf8_decode_utf8(second[j].1@);
    }
}

/// Inversion duality: with all else the same, the line numbers reported
/// with the inversion set are exactly the line numbers of the text that are
/// not reported without it.
pub proof fn lemma_inversion_duality(text: Seq<u8>, query: Seq<u8>, options: SearchOptions)
    ensures
        line_numbers(search(text, query, with_invert(options, true))) == all_line_numbers(
            text,
        ).difference(line_numbers(search(text, query, with_invert(options, false)))),
{
    let inverted = line_numbers(search(text, query, with_invert(options, true)));
    let plain = line_numbers(search(text, query, with_invert(options, false)));
    assert forall|number: nat|
        inverted.contains(number) <==> all_line_numbers(text).difference(plain).contains(
            number,
        ) by {
        lemma_search_numbers(text, query, with_invert(options, true), number);
        lemma_search_numbers(text, query, with_invert(options, false), number);
    }
    assert(inverted =~= all_line_numbers(text).difference(plain));
}

/// Mode specificity, for one line: where the folded query is one word (it
/// is not empty and made of letters and digits only), a line that matches
/// as a whole line also matches by word, and a line that matches by word
/// also matches by substring.
pub proof fn lemma_mode_specificity(line: Seq<u8>, query: Seq<u8>, options: SearchOptions)
    requires
        fold_bytes(query, options.ignore_case).len() > 0,
        all_word_bytes(fold_bytes(query, options.ignore_case)),
    ensures
        raw_match(line, query, with_mode(options, MatchMode::Line)) ==> raw_match(
            line,
            query,
            with_mode(options, MatchMode::Word),
        ),
        raw_match(line, query, with_mode(options, MatchMode::Word)) ==> raw_match(
            line,
            query,
            with_mode(options, MatchMode::Substring),
        ),
{
    let folded_line = fold_bytes(line, options.ignore_case);
    let folded_query = fold_bytes(query, options.ignore_case);
    if folded_line == folded_query {
        assert(word_at(folded_line, folded_query, 0));
    }
    if has_word(folded_line, folded_query) {
        let at = choose|at: int| word_at(folded_line, folded_query, at);
        assert(occurs_at(folded_line, folded_query, at));
    }
}

/// Mode specificity, for a text: where the folded query is one word and
/// the selection is not inverted, every line number reported for whole
/// lines is reported for words, and every line number reported for words
/// is reported for substrings.
pub proof fn lemma_search_specificity(text: Seq<u8>, query: Seq<u8>, ignore_case: bool)
    requires
        fold_bytes(query, ignore_case).len() > 0,
        all_word_bytes(fold_bytes(query, ignore_case)),
    ensures
        line_numbers(
            search(
                text,
                query,
                SearchOptions { ignore_case, invert: false, mode: MatchMode::Line },
            ),
        ).subset_of(
            line_numbers(
                search(
                    text,
                    query,
                    SearchOptions { ignore_case, invert: false, mode: MatchMode::Word },
                ),
            ),
        ),
        line_numbers(
            search(
                text,
                query,
                SearchOptions { ignore_case, invert: false, mode: MatchMode::Word },
            ),
        ).subset_of(
            line_numbers(
                search(
                    text,
                    query,
                    SearchOptions { ignore_case, invert: false, mode: MatchMode::Substring },
                ),
            ),
        ),
{
    let by_line = SearchOptions { ignore_case, invert: false, mode: MatchMode::Line };
    let by_word = SearchOptions { ignore_case, invert: false, mode: MatchMode::Word };
    let by_part = SearchOptions { ignore_case, invert: false, mode: MatchMode::Substring };
    assert forall|number: nat|
        (line_numbers(search(text, query, by_line)).contains(number) ==> line_numbers(
            search(text, query, by_word),
        ).contains(number)) && (line_numbers(search(text, query, by_word)).contains(number)
            ==> line_numbers(search(text, query, by_part)).contains(number)) by {
        lemma_search_numbers(text, query, by_line, number);
        lemma_search_numbers(text, query, by_word, number);
        lemma_search_numbers(text, query, by_part, number);
        if number < split_lines(text).len() {
            lemma_mode_specificity(split_lines(text)[number as int], query, by_line);
            assert(with_mode(by_line, MatchMode::Line) == by_line);
            assert(with_mode(by_line, MatchMode::Word) == by_word);
            assert(with_mode(by_line, MatchMode::Substring) == by_part);
        }
    }
}

/// Case-fold symmetry, for one line: a line satisfies a query with the
/// case ignored exactly if the lower-case line satisfies the lower-case
/// query with the case respected.
pub proof fn lemma_case_fold_symmetry(line: Seq<u8>, query: Seq<u8>, options: SearchOptions)
    ensures
        raw_match(line, query, with_ignore_case(options, true)) == raw_match(
            fold_bytes(line, true),
            fold_bytes(query, true),
            with_ignore_case(options, false),
        ),
{
}

/// Case-fold symmetry, for the lines of a text: searching them for a query
/// with the case ignored reports the same line numbers as searching the
/// lower-case lines for the lower-case query with the case respected.
pub proof fn lemma_found_case_fold_symmetry(
    lines: Seq<Seq<u8>>,
    query: Seq<u8>,
    options: SearchOptions,
)
    ensures
        line_numbers(found(lines, query, with_ignore_case(options, true))) == line_numbers(
            found(
                lines.map_values(|line: Seq<u8>| fold_bytes(line, true)),
                fold_bytes(query, true),
                with_ignore_case(options, false),
            ),
        ),
{
    let lowered = lines.map_values(|line: Seq<u8>| fold_bytes(line, true));
    let ignoring = line_numbers(found(lines, query, with_ignore_case(options, true)));
    let respecting = line_numbers(
        found(lowered, fold_bytes(query, true), with_ignore_case(options, false)),
    );
    assert forall|number: nat| ignoring.contains(number) <==> respecting.contains(number) by {
        lemma_found_numbers(lines, query, with_ignore_case(options, true), number);
        lemma_found_numbers(
            lowered,
            fold_bytes(query, true),
            with_ignore_case(options, false),
            number,
        );
        if number < lines.len() {
            lemma_case_fold_symmetry(lines[number as int], query, options);
        }
    }
    assert(ignoring =~= respecting);
}

/// Ordering: the line numbers of a search result rise strictly, each is
/// the number of a line of the text, and the entry holds that line.
pub proof fn lemma_search_is_ordered(text: Seq<u8>, query: Seq<u8>, options: SearchOptions)
    ensures
        forall|j: int, k: int|
            0 <= j < k < search(text, query, options).len() ==> (#[trigger] search(
                text,
                query,
                options,
            )[j]).0 < (#[trigger] search(text, query, options)[k]).0,
        forall|j: int|
            0 <= j < search(text, query, options).len() ==> (#[trigger] search(
                text,
                query,
                options,
            )[j]).0 < split_lines(text).len() && search(text, query, options)[j].1
                == split_lines(text)[search(text, query, options)[j].0 as int],
        search(text, query, options).len() <= split_lines(text).len(),
{
    lemma_found_is_selection(split_lines(text), query, options);
}

} // verus!
