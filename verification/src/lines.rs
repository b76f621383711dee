//! Cutting a text into lines.
//!
//! A line ends at a line feed or at the end of the text. The line feed
//! belongs to no line, a carriage return before it stays in the line, and a
//! text that ends in a line feed has no empty line after it.
use vstd::prelude::*;
use vstd::string::*;
use vstd::utf8::*;

verus! {

/// The byte that ends a line.
pub const LINE_FEED: u8 = 0x0a;

/// The offset of the first line feed of `text` at or after `from`, or the
/// length of `text` where there is none.
pub open spec fn line_feed_from(text: Seq<u8>, from: nat) -> nat
    decreases text.len() - from,
{
    if from >= text.len() {
        text.len()
    } else if text[from as int] == LINE_FEED {
        from
    } else {
        line_feed_from(text, from + 1)
    }
}

/// The first line of `text`: the bytes before its first line feed.
pub open spec fn first_line(text: Seq<u8>) -> Seq<u8> {
    text.subrange(0, line_feed_from(text, 0) as int)
}

/// What is left of `text` once its first line and the line feed that ends
/// it are taken away.
pub open spec fn after_first_line(text: Seq<u8>) -> Seq<u8> {
    let end = line_feed_from(text, 0);
    if end >= text.len() {
        Seq::empty()
    } else {
        text.subrange(end as int + 1, text.len() as int)
    }
}

/// The lines of `text`, in order. The empty text has no line.
pub open spec fn split_lines(text: Seq<u8>) -> Seq<Seq<u8>>
    decreases text.len(),
{
    if text.len() == 0 {
        Seq::empty()
    } else {
        seq![first_line(text)] + split_lines(after_first_line(text))
    }
}

/// The first line feed at or after `from` is at `end` when no byte of
/// `from..end` is a line feed and `end` is a line feed or the end of the text.
pub proof fn lemma_line_feed_from(text: Seq<u8>, from: nat, end: nat)
    requires
        from <= end <= text.len(),
        forall|k: int| from <= k < end ==> text[k] != LINE_FEED,
        end == text.len() || text[end as int] == LINE_FEED,
    ensures
        line_feed_from(text, from) == end,
    decreases end - from,
{
    if from < end {
        lemma_line_feed_from(text, from + 1, end);
    }
}

/// The first line feed at or after `from` lies between `from` and the end
/// of the text, no byte before it is a line feed, and it is one itself
/// unless it is the end of the text.
pub proof fn lemma_line_feed_from_is_first(text: Seq<u8>, from: nat)
    requires
        from <= text.len(),
    ensures
        from <= line_feed_from(text, from) <= text.len(),
        forall|k: int| from <= k < line_feed_from(text, from) ==> text[k] != LINE_FEED,
        line_feed_from(text, from) == text.len() || text[line_feed_from(text, from) as int]
            == LINE_FEED,
    decreases text.len() - from,
{
    if from < text.len() && text[from as int] != LINE_FEED {
        lemma_line_feed_from_is_first(text, from + 1);
    }
}

/// Cuts the first line off a text: returns that line and what follows the
/// line feed that ends it. Both are parts of `text` itself; nothing is
/// copied.
pub fn cut_line<'a>(text: &'a str) -> (cut: (&'a str, &'a str))
    ensures
        cut.0.spec_bytes() == first_line(text.spec_bytes()),
        cut.1.spec_bytes() == after_first_line(text.spec_bytes()),
{
    let bytes = text.as_bytes();
    let n: usize = bytes.len();
    let mut end: usize = 0;
    while end < n && bytes[end] != LINE_FEED
        invariant
            n == bytes@.len(),
            end <= n,
            forall|k: int| 0 <= k < end ==> bytes@[k] != LINE_FEED,
        decreases n - end,
    {
        end += 1;
    }
    proof {
        lemma_line_feed_from(bytes@, 0, end as nat);
        encode_utf8_valid_utf8(text@);
        if end < n {
            is_char_boundary_iff_not_is_continuation_byte(bytes@, end as int);
        } else {
            is_char_boundary_start_end_of_seq(bytes@);
        }
    }
    let (line, tail) = text.split_at(end);
    if end == n {
        (line, tail)
    } else {
        proof {
            encode_utf8_valid_utf8(tail@);
            lemma_boundary_after_ascii(tail.spec_bytes());
        }
        let (_, rest) = tail.split_at(1);
        assert(rest.spec_bytes() =~= after_first_line(text.spec_bytes()));
        (line, rest)
    }
}

/// Where a valid encoding begins with an ASCII byte, the next character
/// begins right after it.
proof fn lemma_boundary_after_ascii(bytes: Seq<u8>)
    requires
        valid_utf8(bytes),
        bytes.len() > 0,
        bytes[0] <= 0x7f,
    ensures
        is_char_boundary(bytes, 1),
{
    reveal_with_fuel(valid_utf8, 2);
    reveal_with_fuel(is_char_boundary, 2);
    assert(length_of_first_scalar(bytes) == 1);
    assert(valid_utf8(pop_first_scalar(bytes)));
    assert(is_char_boundary(pop_first_scalar(bytes), 0));
}

} // verus!
