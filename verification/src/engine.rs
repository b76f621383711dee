//! The scan: every line of a text is held against the query, and the lines
//! that are reported are collected with their numbers, in the order of the
//! text. Lines are numbered from 0.
use vstd::prelude::*;
use vstd::string::*;
use crate::fold::{fold_bytes, prep_string};
use crate::lines::{cut_line, lemma_line_feed_from_is_first, split_lines};
use crate::matcher::{matches_mode, reported, SearchOptions};

verus! {

/// The lines among `lines` that are reported for the query, each with its
/// number, in rising order of the numbers.
pub open spec fn found(lines: Seq<Seq<u8>>, query: Seq<u8>, options: SearchOptions) -> Seq<
    (nat, Seq<u8>),
>
    decreases lines.len(),
{
    if lines.len() == 0 {
        Seq::empty()
    } else {
        let before = found(lines.drop_last(), query, options);
        if reported(lines.last(), query, options) {
            before.push(((lines.len() - 1) as nat, lines.last()))
        } else {
            before
        }
    }
}

/// The result of searching `text` for `query`: the reported lines of the
/// text with their numbers. Text and query are given by their UTF-8 bytes.
pub open spec fn search(text: Seq<u8>, query: Seq<u8>, options: SearchOptions) -> Seq<
    (nat, Seq<u8>),
> {
    found(split_lines(text), query, options)
}

/// What a vector of results stands for: the number and the UTF-8 bytes of
/// each line in it.
pub open spec fn hits_of<'a>(results: Seq<(usize, &'a str)>) -> Seq<(nat, Seq<u8>)> {
    results.map_values(|hit: (usize, &'a str)| (hit.0 as nat, hit.1.spec_bytes()))
}

/// Every entry of `hits` is a line of `lines` under its own number, and the
/// numbers rise strictly: no line is there twice, and the order is that of
/// the text.
pub open spec fn is_selection(hits: Seq<(nat, Seq<u8>)>, lines: Seq<Seq<u8>>) -> bool {
    &&& forall|j: int|
        0 <= j < hits.len() ==> (#[trigger] hits[j]).0 < lines.len() && hits[j].1
            == lines[hits[j].0 as int]
    &&& forall|j: int, k: int|
        0 <= j < k < hits.len() ==> (#[trigger] hits[j]).0 < (#[trigger] hits[k]).0
}

/// What is found among some lines is a selection of these lines, and has
/// at most as many entries as there are lines.
pub proof fn lemma_found_is_selection(lines: Seq<Seq<u8>>, query: Seq<u8>, options: SearchOptions)
    ensures
        is_selection(found(lines, query, options), lines),
        found(lines, query, options).len() <= lines.len(),
    decreases lines.len(),
{
    if lines.len() > 0 {
        lemma_found_is_selection(lines.drop_last(), query, options);
    }
}

/// The line numbers that occur in some results.
pub open spec fn line_numbers(hits: Seq<(nat, Seq<u8>)>) -> Set<nat> {
    Set::new(|number: nat| exists|j: int| 0 <= j < hits.len() && (#[trigger] hits[j]).0 == number)
}

/// A line number is among those found exactly if it is the number of a line
/// and that line is reported.
pub proof fn lemma_found_numbers(
    lines: Seq<Seq<u8>>,
    query: Seq<u8>,
    options: SearchOptions,
    number: nat,
)
    ensures
        line_numbers(found(lines, query, options)).contains(number) <==> (number < lines.len()
            && reported(lines[number as int], query, options)),
    decreases lines.len(),
{
    if lines.len() > 0 {
        let before = found(lines.drop_last(), query, options);
        let all = found(lines, query, options);
        lemma_found_numbers(lines.drop_last(), query, options, number);
        lemma_found_is_selection(lines.drop_last(), query, options);
        if number < lines.len() - 1 {
            assert(lines.drop_last()[number as int] == lines[number as int]);
        }
        if line_numbers(all).contains(number) {
            let j = choose|j: int| 0 <= j < all.len() && (#[trigger] all[j]).0 == number;
            if j < before.len() {
                assert(before[j] == all[j]);
            }
        }
        if number < lines.len() && reported(lines[number as int], query, options) {
            if number == lines.len() - 1 {
                assert(all[all.len() - 1].0 == number);
            } else {
                let j = choose|j: int| 0 <= j < before.len() && (#[trigger] before[j]).0 == number;
                assert(all[j] == before[j]);
            }
        }
    }
}

/// Searches `text` for `query`: cuts the text into lines, holds each line
/// against the query as the options say, and returns the reported lines
/// with their numbers, counted from 0. The lines returned are parts of
/// `text`.
pub fn run<'a>(text: &'a str, query: &str, options: &SearchOptions) -> (results: Vec<
    (usize, &'a str),
>)
    ensures
        hits_of(results@) == search(text.spec_bytes(), query.spec_bytes(), *options),
        is_selection(hits_of(results@), split_lines(text.spec_bytes())),
{
    let needle = prep_string(query, options.ignore_case);
    let mut results: Vec<(usize, &'a str)> = Vec::new();
    let mut rest: &'a str = text;
    let mut number: usize = 0;
    let total: usize = text.as_bytes().len();
    let ghost mut done: Seq<Seq<u8>> = Seq::empty();
    assert(done + split_lines(rest.spec_bytes()) =~= split_lines(text.spec_bytes()));
    assert(hits_of(results@) =~= found(done, query.spec_bytes(), *options));
    while rest.as_bytes().len() > 0
        invariant
            needle@ == fold_bytes(query.spec_bytes(), options.ignore_case),
            split_lines(text.spec_bytes()) == done + split_lines(rest.spec_bytes()),
            number == done.len(),
            number + rest.spec_bytes().len() <= total,
            hits_of(results@) == found(done, query.spec_bytes(), *options),
        decreases rest.spec_bytes().len(),
    {
        let (line, tail) = cut_line(rest);
        let raw: bool = if options.ignore_case {
            let folded_line = prep_string(line, true);
            matches_mode(options.mode, folded_line.as_slice(), needle.as_slice())
        } else {
            matches_mode(options.mode, line.as_bytes(), needle.as_slice())
        };
        if raw != options.invert {
            results.push((number, line));
        }
        proof {
            let bytes = rest.spec_bytes();
            let longer = done.push(line.spec_bytes());
            lemma_line_feed_from_is_first(bytes, 0);
            assert(longer.drop_last() =~= done);
            assert(longer + split_lines(tail.spec_bytes()) =~= done + split_lines(bytes));
            assert(hits_of(results@) =~= found(longer, query.spec_bytes(), *options));
            done = longer;
        }
        number += 1;
        rest = tail;
    }
    proof {
        assert(done =~= split_lines(text.spec_bytes()));
        lemma_found_is_selection(done, query.spec_bytes(), *options);
    }
    results
}

} // verus!
