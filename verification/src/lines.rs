//! Splitting a text into lines.
//!
//! A line ends at a line feed, or at the end of the text. The line feed is
//! not part of the line, nor is a carriage return that stands directly before
//! it. A text that ends with a line feed has no empty line after it, and the
//! empty text has no line at all.

use vstd::prelude::*;
use crate::text::{copy_range, find_char, find_char_from, lemma_find_char, lemma_find_char_unique};

verus! {

/// `line` without a carriage return at its end.
pub open spec fn strip_cr(line: Seq<char>) -> Seq<char> {
    if line.len() > 0 && line.last() == '\r' {
        line.drop_last()
    } else {
        line
    }
}

/// The lines of `s`.
pub open spec fn split_lines(s: Seq<char>) -> Seq<Seq<char>>
    decreases s.len(),
    via split_lines_decreases
{
    if s.len() == 0 {
        Seq::empty()
    } else {
        let end: int = find_char(s, '\n', 0);
        if end < s.len() {
            seq![strip_cr(s.take(end))] + split_lines(s.skip(end + 1))
        } else {
            seq![s]
        }
    }
}

#[via_fn]
proof fn split_lines_decreases(s: Seq<char>) {
    lemma_find_char(s, '\n', 0);
}

/// The text in which every line of `lines` is followed by a line feed.
pub open spec fn join_lines(lines: Seq<Seq<char>>) -> Seq<char>
    decreases lines.len(),
{
    if lines.len() == 0 {
        Seq::empty()
    } else {
        lines[0] + seq!['\n'] + join_lines(lines.skip(1))
    }
}

/// Whether `line` can be one line of a text: it holds no line feed and does
/// not end with a carriage return.
pub open spec fn is_line(line: Seq<char>) -> bool {
    &&& forall|p: int| 0 <= p < line.len() ==> #[trigger] line[p] != '\n'
    &&& strip_cr(line) == line
}

/// The values of a sequence of lines.
pub open spec fn lines_view(lines: Seq<Vec<char>>) -> Seq<Seq<char>> {
    lines.map_values(|line: Vec<char>| line@)
}

/// A text without a line feed is one line, unless it is empty.
pub proof fn lemma_single_line(s: Seq<char>)
    requires
        s.len() > 0,
        forall|p: int| 0 <= p < s.len() ==> #[trigger] s[p] != '\n',
    ensures
        split_lines(s) == seq![s],
{
    lemma_find_char_unique(s, '\n', 0, s.len() as int);
}

/// Splitting undoes joining: the lines of a text that was joined from lines
/// are those lines.
pub proof fn lemma_split_join(lines: Seq<Seq<char>>)
    requires
        forall|k: int| 0 <= k < lines.len() ==> is_line(#[trigger] lines[k]),
    ensures
        split_lines(join_lines(lines)) == lines,
    decreases lines.len(),
{
    if lines.len() > 0 {
        let first = lines[0];
        let rest = lines.skip(1);
        let text = join_lines(lines);
        assert(is_line(first));
        assert forall|k: int| 0 <= k < rest.len() implies is_line(#[trigger] rest[k]) by {
            assert(rest[k] == lines[k + 1]);
        }
        lemma_split_join(rest);
        lemma_find_char_unique(text, '\n', 0, first.len() as int);
        assert(text.take(first.len() as int) == first);
        assert(text.skip(first.len() as int + 1) == join_lines(rest));
        assert(lines == seq![first] + rest);
    }
}

/// Splits a text into its lines.
pub fn lines_of(chars: &Vec<char>) -> (lines: Vec<Vec<char>>)
    ensures
        lines_view(lines@) == split_lines(chars@),
{
    let n: usize = chars.len();
    let mut lines: Vec<Vec<char>> = Vec::new();
    let mut start: usize = 0;
    assert(chars@.skip(0) == chars@);
    while start < n
        invariant
            n == chars.len(),
            start <= n,
            lines_view(lines@) + split_lines(chars@.skip(start as int)) == split_lines(chars@),
        decreases n - start,
    {
        let end: usize = find_char_from(chars, '\n', start);
        let ghost rest = chars@.skip(start as int);
        proof {
            lemma_find_char(chars@, '\n', start as int);
            lemma_find_char_unique(rest, '\n', 0, end - start);
        }
        let stop: usize = if end < n && end > start && chars[end - 1] == '\r' {
            end - 1
        } else {
            end
        };
        let line = copy_range(chars, start, stop);
        proof {
            if end < n {
                assert(rest.take(end - start) == chars@.subrange(start as int, end as int));
                assert(strip_cr(rest.take(end - start)) == line@);
                assert(rest.skip(end - start + 1) == chars@.skip(end + 1));
            } else {
                assert(line@ == rest);
                assert(split_lines(chars@.skip(n as int)) == Seq::<Seq<char>>::empty());
            }
            assert(lines_view(lines@.push(line)) == lines_view(lines@).push(line@));
        }
        lines.push(line);
        start = if end < n {
            end + 1
        } else {
            n
        };
    }
    lines
}

} // verus!
