//! The logical lines of a text and their widths in grapheme clusters.

use crate::gap_buffer::{lemma_total_width_prefix, total_width};
use crate::graphemes::{
    grapheme_count, grapheme_start_offsets, lemma_encode_concat, starts_well_formed,
};
use vstd::prelude::*;
use vstd::utf8::*;

verus! {

/// The position of the first line feed of a text, or its length where it
/// has none.
pub open spec fn first_newline(text: Seq<char>) -> int
    decreases text.len(),
{
    if text.len() == 0 {
        0
    } else if text[0] == '\n' {
        0
    } else {
        1 + first_newline(text.drop_first())
    }
}

/// A line without the carriage return that stood before its line feed.
pub open spec fn without_carriage_return(line: Seq<char>) -> Seq<char> {
    if line.len() > 0 && line.last() == '\r' {
        line.drop_last()
    } else {
        line
    }
}

/// The lines of a text. A line ends with a line feed, or with a carriage
/// return and a line feed; neither belongs to the line. What follows the
/// last line feed is a line too, unless it is empty, and keeps a
/// carriage return at its end.
pub open spec fn text_lines(text: Seq<char>) -> Seq<Seq<char>>
    decreases text.len(),
{
    if text.len() == 0 {
        Seq::empty()
    } else {
        let cut = first_newline(text);
        if 0 <= cut < text.len() {
            seq![without_carriage_return(text.subrange(0, cut))] + text_lines(
                text.subrange(cut + 1, text.len() as int),
            )
        } else {
            seq![text]
        }
    }
}

/// The width of each line of a text: its number of grapheme clusters.
pub open spec fn line_widths(text: Seq<char>) -> Seq<usize> {
    text_lines(text).map_values(|line: Seq<char>| grapheme_count(line) as usize)
}

/// Calls `str::lines` and collects the lines.
///
/// Trusted: the lines are those of [`text_lines`]. `str::lines` splits
/// at `\n` and at `\r\n`, leaves the line ending out, does not yield an
/// empty line after a final line ending, and keeps a `\r` that no `\n`
/// follows.
#[verifier::external_body]
pub(crate) fn split_lines<'a>(content: &'a str) -> (lines: Vec<&'a str>)
    ensures
        lines@.len() == text_lines(content@).len(),
        forall|i: int| 0 <= i < lines@.len() ==> (#[trigger] lines@[i])@ == text_lines(content@)[i],
{
    content.lines().collect()
}

/// The number of bytes that the lines of a list take in UTF-8.
pub open spec fn lines_bytes(lines: Seq<Seq<char>>) -> nat
    decreases lines.len(),
{
    if lines.len() == 0 {
        0
    } else {
        lines_bytes(lines.drop_last()) + encode_utf8(lines.last()).len()
    }
}

/// The bytes of two lists of lines joined are the bytes of each, added.
pub proof fn lemma_lines_bytes_concat(first: Seq<Seq<char>>, second: Seq<Seq<char>>)
    ensures
        lines_bytes(first + second) == lines_bytes(first) + lines_bytes(second),
    decreases second.len(),
{
    if second.len() == 0 {
        assert(first + second =~= first);
    } else {
        assert((first + second).drop_last() =~= first + second.drop_last());
        lemma_lines_bytes_concat(first, second.drop_last());
    }
}

/// The first line feed of a text lies within the text or at its end, and
/// no line feed stands before it.
pub proof fn lemma_first_newline(text: Seq<char>)
    ensures
        0 <= first_newline(text) <= text.len(),
        first_newline(text) < text.len() ==> text[first_newline(text)] == '\n',
    decreases text.len(),
{
    if text.len() > 0 && text[0] != '\n' {
        lemma_first_newline(text.drop_first());
    }
}

/// The lines of a text take no more bytes than the text.
pub proof fn lemma_lines_fit(text: Seq<char>)
    ensures
        lines_bytes(text_lines(text)) <= encode_utf8(text).len(),
    decreases text.len(),
{
    reveal_with_fuel(lines_bytes, 2);
    if text.len() > 0 {
        let cut = first_newline(text);
        lemma_first_newline(text);
        if cut < text.len() {
            let head = text.subrange(0, cut);
            let rest = text.subrange(cut + 1, text.len() as int);
            let line = without_carriage_return(head);
            lemma_lines_fit(rest);
            assert(seq![line].drop_last() =~= Seq::<Seq<char>>::empty());
            lemma_lines_bytes_concat(seq![line], text_lines(rest));
            assert(text =~= head + (seq!['\n'] + rest));
            lemma_encode_concat(head, seq!['\n'] + rest);
            lemma_encode_concat(seq!['\n'], rest);
            if line != head {
                assert(head =~= line + seq!['\r']);
                lemma_encode_concat(line, seq!['\r']);
            }
        } else {
            assert(seq![text].drop_last() =~= Seq::<Seq<char>>::empty());
        }
    }
}

/// A text has no more grapheme clusters than bytes.
pub proof fn lemma_starts_count(bytes: Seq<u8>, starts: Seq<usize>)
    requires
        starts_well_formed(bytes, starts),
    ensures
        starts.len() <= bytes.len(),
{
    if starts.len() > 0 {
        lemma_starts_climb(starts, starts.len() - 1);
    }
}

/// Offsets that strictly increase from 0 on are at least their position.
proof fn lemma_starts_climb(starts: Seq<usize>, at: int)
    requires
        0 <= at < starts.len(),
        forall|i: int, j: int| 0 <= i < j < starts.len() ==> starts[i] < starts[j],
    ensures
        starts[at] >= at,
    decreases at,
{
    if at > 0 {
        lemma_starts_climb(starts, at - 1);
    }
}

/// The width of each line of `content`, in grapheme clusters. Their sum
/// fits a `usize`, since no line has more clusters than bytes.
pub fn measure_lines(content: &str) -> (widths: Vec<usize>)
    ensures
        widths@ == line_widths(content@),
        total_width(widths@) <= usize::MAX,
{
    let lines: Vec<&str> = split_lines(content);
    let bytes: usize = content.as_bytes().len();
    let mut widths: Vec<usize> = Vec::new();
    let mut row: usize = 0;
    let ghost all = text_lines(content@);
    assert(all.subrange(0, 0) =~= Seq::<Seq<char>>::empty());
    while row < lines.len()
        invariant
            row <= lines@.len(),
            all == text_lines(content@),
            lines@.len() == all.len(),
            forall|i: int| 0 <= i < lines@.len() ==> (#[trigger] lines@[i])@ == all[i],
            widths@.len() == row,
            forall|i: int| 0 <= i < row ==> widths@[i] == line_widths(content@)[i],
            total_width(widths@) <= lines_bytes(all.subrange(0, row as int)),
        decreases lines@.len() - row,
    {
        let starts: Vec<usize> = grapheme_start_offsets(lines[row]);
        proof {
            lemma_starts_count(encode_utf8(lines@[row as int]@), starts@);
            assert(widths@.push(starts.len()).drop_last() =~= widths@);
            assert(all.subrange(0, row + 1).drop_last() =~= all.subrange(0, row as int));
        }
        widths.push(starts.len());
        row = row + 1;
    }
    proof {
        assert(all.subrange(0, row as int) =~= all);
        lemma_lines_fit(content@);
        assert(widths@ =~= line_widths(content@));
    }
    widths
}

} // verus!
