//! The inline scanner: one line of text in, a sequence of inline nodes out.
//!
//! The scanner walks the line once from left to right. At every position it
//! looks for a span in a fixed order of priority: inline code (a pair of
//! backticks), strong emphasis (a pair of `**`), emphasis (a pair of `*`) and
//! a link (`[text](url)`). The closing delimiter of a span is the nearest one
//! to the right of the opening delimiter. The text between the delimiters of
//! inline code, strong emphasis and emphasis must not be empty; the text and
//! the address of a link may be. Spans do not nest. A position at which no
//! span starts is literal text, and literal text between two spans is one
//! `Text` node.

use vstd::prelude::*;
use crate::text::{
    chars_of, find_char, find_char_from, find_pair, find_pair_from, lemma_find_char,
    lemma_find_char_unique, lemma_find_pair, string_of,
};

verus! {

/// A span of formatted or plain text.
#[derive(Debug, Clone, PartialEq, Eq)]
pub enum InlineNode {
    /// Literal text.
    Text(String),
    /// Strong emphasis, written `**text**`.
    Bold(String),
    /// Emphasis, written `*text*`.
    Italic(String),
    /// Inline code, written between two backticks.
    InlineCode(String),
    /// A link, written `[text](url)`.
    Link { text: String, url: String },
}

/// The mathematical value of an [`InlineNode`].
pub enum InlineView {
    Text(Seq<char>),
    Bold(Seq<char>),
    Italic(Seq<char>),
    InlineCode(Seq<char>),
    Link { text: Seq<char>, url: Seq<char> },
}

impl View for InlineNode {
    type V = InlineView;

    open spec fn view(&self) -> InlineView {
        match self {
            InlineNode::Text(t) => InlineView::Text(t@),
            InlineNode::Bold(t) => InlineView::Bold(t@),
            InlineNode::Italic(t) => InlineView::Italic(t@),
            InlineNode::InlineCode(t) => InlineView::InlineCode(t@),
            InlineNode::Link { text, url } => InlineView::Link { text: text@, url: url@ },
        }
    }
}

/// The values of a sequence of nodes.
pub open spec fn inlines_view(nodes: Seq<InlineNode>) -> Seq<InlineView> {
    nodes.map_values(|node: InlineNode| node@)
}

/// The inline code span that starts at position `i` of `s`, with the position
/// just after it.
pub open spec fn code_span_at(s: Seq<char>, i: int) -> Option<(InlineView, int)> {
    let close: int = find_char(s, '`', i + 1);
    if 0 <= i < s.len() && s[i] == '`' && i + 1 < close < s.len() {
        Some((InlineView::InlineCode(s.subrange(i + 1, close)), close + 1))
    } else {
        None
    }
}

/// The strong emphasis that starts at position `i` of `s`, with the position
/// just after it.
pub open spec fn strong_span_at(s: Seq<char>, i: int) -> Option<(InlineView, int)> {
    let close: int = find_pair(s, '*', i + 2);
    if 0 <= i && i + 1 < s.len() && s[i] == '*' && s[i + 1] == '*' && i + 2 < close < s.len() {
        Some((InlineView::Bold(s.subrange(i + 2, close)), close + 2))
    } else {
        None
    }
}

/// The emphasis that starts at position `i` of `s`, with the position just
/// after it.
pub open spec fn emphasis_span_at(s: Seq<char>, i: int) -> Option<(InlineView, int)> {
    let close: int = find_char(s, '*', i + 1);
    if 0 <= i < s.len() && s[i] == '*' && i + 1 < close < s.len() {
        Some((InlineView::Italic(s.subrange(i + 1, close)), close + 1))
    } else {
        None
    }
}

/// The link that starts at position `i` of `s`, with the position just after
/// it.
pub open spec fn link_span_at(s: Seq<char>, i: int) -> Option<(InlineView, int)> {
    let mid: int = find_char(s, ']', i + 1);
    let close: int = find_char(s, ')', mid + 2);
    if 0 <= i < mid && s[i] == '[' && mid + 1 < s.len() && s[mid + 1] == '(' && mid + 1 < close
        < s.len() {
        Some(
            (
                InlineView::Link { text: s.subrange(i + 1, mid), url: s.subrange(mid + 2, close) },
                close + 1,
            ),
        )
    } else {
        None
    }
}

/// The span that starts at position `i` of `s`, if any, with the position
/// just after it. Where several kinds would match, the first of inline code,
/// strong emphasis, emphasis and link wins.
pub open spec fn span_at(s: Seq<char>, i: int) -> Option<(InlineView, int)> {
    if code_span_at(s, i) is Some {
        code_span_at(s, i)
    } else if strong_span_at(s, i) is Some {
        strong_span_at(s, i)
    } else if emphasis_span_at(s, i) is Some {
        emphasis_span_at(s, i)
    } else {
        link_span_at(s, i)
    }
}

/// The first position at or after `from` at which a span starts, or
/// `s.len()` when there is none: where a run of literal text ends.
pub open spec fn text_end(s: Seq<char>, from: int) -> int
    decreases s.len() - from,
{
    if from < 0 || from >= s.len() {
        s.len() as int
    } else if span_at(s, from) is Some {
        from
    } else {
        text_end(s, from + 1)
    }
}

/// The nodes that the part of `s` from position `i` on scans to.
pub open spec fn scan_from(s: Seq<char>, i: int) -> Seq<InlineView>
    decreases s.len() - i,
    via scan_from_decreases
{
    if i < 0 || i >= s.len() {
        Seq::empty()
    } else {
        match span_at(s, i) {
            Some((node, next)) => seq![node] + scan_from(s, next),
            None => {
                let end: int = text_end(s, i + 1);
                seq![InlineView::Text(s.subrange(i, end))] + scan_from(s, end)
            },
        }
    }
}

#[via_fn]
proof fn scan_from_decreases(s: Seq<char>, i: int) {
    if 0 <= i < s.len() {
        if span_at(s, i) is Some {
            lemma_span_bounds(s, i);
        } else {
            lemma_text_end(s, i + 1);
        }
    }
}

/// The nodes that a whole line scans to.
pub open spec fn scan_spec(s: Seq<char>) -> Seq<InlineView> {
    scan_from(s, 0)
}

/// `text_end` returns a position in `from..=s.len()`; no span starts before
/// it, and one starts at it unless it is the end of the line.
pub proof fn lemma_text_end(s: Seq<char>, from: int)
    requires
        0 <= from <= s.len(),
    ensures
        from <= text_end(s, from) <= s.len(),
        forall|p: int| from <= p < text_end(s, from) ==> span_at(s, p) is None,
        text_end(s, from) < s.len() ==> span_at(s, text_end(s, from)) is Some,
    decreases s.len() - from,
{
    if from < s.len() && span_at(s, from) is None {
        lemma_text_end(s, from + 1);
    }
}

/// A span lies inside the line and is at least one character long.
pub proof fn lemma_span_bounds(s: Seq<char>, i: int)
    requires
        span_at(s, i) is Some,
    ensures
        span_at(s, i) matches Some((node, next)) && 0 <= i < next <= s.len() && !(node is Text),
{
    if strong_span_at(s, i) is Some {
        lemma_find_pair(s, '*', i + 2);
    }
}

/// Literal text from `from` up to the next span or the end of the line is
/// one `Text` node.
pub proof fn lemma_text_run(s: Seq<char>, from: int, to: int)
    requires
        0 <= from < to <= s.len(),
        forall|p: int| from <= p < to ==> span_at(s, p) is None,
        to < s.len() ==> span_at(s, to) is Some,
    ensures
        scan_from(s, from) == seq![InlineView::Text(s.subrange(from, to))] + scan_from(s, to),
{
    lemma_text_end_unique(s, from + 1, to);
}

proof fn lemma_text_end_unique(s: Seq<char>, from: int, to: int)
    requires
        0 <= from <= to <= s.len(),
        forall|p: int| from <= p < to ==> span_at(s, p) is None,
        to < s.len() ==> span_at(s, to) is Some,
    ensures
        text_end(s, from) == to,
    decreases to - from,
{
    if from < to {
        lemma_text_end_unique(s, from + 1, to);
    }
}

/// The span that starts at position `i` of `line`, if any, with the position
/// just after it.
fn span_starting_at(line: &Vec<char>, i: usize) -> (found: Option<(InlineNode, usize)>)
    requires
        i < line.len(),
    ensures
        found is Some <==> span_at(line@, i as int) is Some,
        found matches Some((node, next)) ==> {
            &&& span_at(line@, i as int) == Some((node@, next as int))
            &&& i < next <= line.len()
        },
{
    let n: usize = line.len();
    let c: char = line[i];
    if c == '`' {
        let close: usize = find_char_from(line, '`', i + 1);
        if i + 1 < close && close < n {
            return Some((InlineNode::InlineCode(string_of(line, i + 1, close)), close + 1));
        }
        None
    } else if c == '*' {
        if i + 1 < n && line[i + 1] == '*' {
            let close: usize = find_pair_from(line, '*', i + 2);
            if i + 2 < close && close < n {
                return Some((InlineNode::Bold(string_of(line, i + 2, close)), close + 2));
            }
        }
        let close: usize = find_char_from(line, '*', i + 1);
        if i + 1 < close && close < n {
            return Some((InlineNode::Italic(string_of(line, i + 1, close)), close + 1));
        }
        None
    } else if c == '[' {
        let mid: usize = find_char_from(line, ']', i + 1);
        if mid < n - 1 && line[mid + 1] == '(' {
            let close: usize = find_char_from(line, ')', mid + 2);
            if close < n {
                let text = string_of(line, i + 1, mid);
                let url = string_of(line, mid + 2, close);
                return Some((InlineNode::Link { text, url }, close + 1));
            }
        }
        None
    } else {
        None
    }
}

/// Scans the characters of one line. The text nodes of the result are as
/// long as they can be, and the nodes, written back in their source forms,
/// give the line.
pub fn scan_chars(line: &Vec<char>) -> (nodes: Vec<InlineNode>)
    ensures
        inlines_view(nodes@) == scan_spec(line@),
        coalesced(inlines_view(nodes@)),
        inlines_source(inlines_view(nodes@)) == line@,
{
    let n: usize = line.len();
    let mut nodes: Vec<InlineNode> = Vec::new();
    let mut text_start: usize = 0;
    let mut i: usize = 0;
    while i < n
        invariant
            n == line.len(),
            text_start <= i <= n,
            forall|p: int| text_start <= p < i ==> span_at(line@, p) is None,
            inlines_view(nodes@) + scan_from(line@, text_start as int) == scan_spec(line@),
        decreases n - i,
    {
        match span_starting_at(line, i) {
            Some((node, next)) => {
                if text_start < i {
                    let text = InlineNode::Text(string_of(line, text_start, i));
                    proof {
                        lemma_text_run(line@, text_start as int, i as int);
                        assert(inlines_view(nodes@.push(text)) == inlines_view(nodes@).push(text@));
                    }
                    nodes.push(text);
                }
                proof {
                    assert(inlines_view(nodes@.push(node)) == inlines_view(nodes@).push(node@));
                }
                nodes.push(node);
                i = next;
                text_start = next;
            },
            None => {
                i += 1;
            },
        }
    }
    if text_start < n {
        let text = InlineNode::Text(string_of(line, text_start, n));
        proof {
            lemma_text_run(line@, text_start as int, n as int);
            assert(inlines_view(nodes@.push(text)) == inlines_view(nodes@).push(text@));
        }
        nodes.push(text);
    }
    proof {
        lemma_scan_coalesced(line@, 0);
        lemma_scan_keeps_source(line@, 0);
        assert(line@.skip(0) == line@);
    }
    nodes
}

/// Scans one line of text into inline nodes. The text nodes of the result
/// are as long as they can be, and the nodes, written back in their source
/// forms, give the line.
pub fn scan(line: &str) -> (nodes: Vec<InlineNode>)
    ensures
        inlines_view(nodes@) == scan_spec(line@),
        coalesced(inlines_view(nodes@)),
        inlines_source(inlines_view(nodes@)) == line@,
{
    let chars = chars_of(line);
    scan_chars(&chars)
}

/// Whether `c` is a character with which a span can begin.
pub open spec fn opens_span(c: char) -> bool {
    c == '`' || c == '*' || c == '['
}

/// The delimiter that has to follow an opening character `c` for a span to
/// be closed: a backtick for a backtick, `*` for `*`, `]` for `[`.
pub open spec fn closer_of(c: char) -> char {
    if c == '[' {
        ']'
    } else {
        c
    }
}

/// Whether the text nodes of `nodes` are as long as they can be: none is
/// empty and no two stand side by side.
pub open spec fn coalesced(nodes: Seq<InlineView>) -> bool {
    &&& forall|k: int|
        0 <= k < nodes.len() ==> (#[trigger] nodes[k] matches InlineView::Text(t) ==> t.len() > 0)
    &&& forall|k: int|
        0 <= k && k + 1 < nodes.len() ==> !(#[trigger] nodes[k] is Text && nodes[k + 1] is Text)
}

/// How a node is written in a line of source text.
pub open spec fn inline_source(node: InlineView) -> Seq<char> {
    match node {
        InlineView::Text(t) => t,
        InlineView::Bold(t) => seq!['*', '*'] + t + seq!['*', '*'],
        InlineView::Italic(t) => seq!['*'] + t + seq!['*'],
        InlineView::InlineCode(t) => seq!['`'] + t + seq!['`'],
        InlineView::Link { text, url } => seq!['['] + text + seq![']', '('] + url + seq![')'],
    }
}

/// The source forms of `nodes`, one after the other.
pub open spec fn inlines_source(nodes: Seq<InlineView>) -> Seq<char>
    decreases nodes.len(),
{
    if nodes.len() == 0 {
        Seq::empty()
    } else {
        inline_source(nodes[0]) + inlines_source(nodes.skip(1))
    }
}

/// No span starts at a character other than a backtick, `*` and `[`.
pub proof fn lemma_span_needs_opener(s: Seq<char>, i: int)
    requires
        0 <= i < s.len(),
        !opens_span(s[i]),
    ensures
        span_at(s, i) is None,
{
}

/// An opening delimiter with no closing delimiter to its right starts no
/// span: it is literal text.
pub proof fn lemma_unclosed_delimiter(s: Seq<char>, i: int)
    requires
        0 <= i < s.len(),
        forall|p: int| i < p < s.len() ==> s[p] != closer_of(s[i]),
    ensures
        span_at(s, i) is None,
{
    lemma_find_char_unique(s, closer_of(s[i]), i + 1, s.len() as int);
}

/// A line in which no span starts is one `Text` node that holds the line.
pub proof fn lemma_scan_all_text(s: Seq<char>)
    requires
        s.len() > 0,
        forall|p: int| 0 <= p < s.len() ==> span_at(s, p) is None,
    ensures
        scan_spec(s) == seq![InlineView::Text(s)],
{
    lemma_text_run(s, 0, s.len() as int);
    assert(s.subrange(0, s.len() as int) == s);
}

/// A line without a backtick, `*` or `[` is scanned as itself: no node for
/// the empty line, one `Text` node otherwise.
pub proof fn lemma_scan_plain(s: Seq<char>)
    requires
        forall|p: int| 0 <= p < s.len() ==> !opens_span(#[trigger] s[p]),
    ensures
        scan_spec(s) == if s.len() == 0 {
            Seq::<InlineView>::empty()
        } else {
            seq![InlineView::Text(s)]
        },
{
    if s.len() > 0 {
        assert forall|p: int| 0 <= p < s.len() implies span_at(s, p) is None by {
            lemma_span_needs_opener(s, p);
        }
        lemma_scan_all_text(s);
    }
}

/// A line whose only delimiter character is a single `*` is scanned as one
/// `Text` node that holds the line, the `*` included.
pub proof fn lemma_scan_lone_star(s: Seq<char>, at: int)
    requires
        0 <= at < s.len(),
        s[at] == '*',
        forall|p: int| 0 <= p < s.len() && p != at ==> !opens_span(#[trigger] s[p]),
    ensures
        scan_spec(s) == seq![InlineView::Text(s)],
{
    assert forall|p: int| 0 <= p < s.len() implies span_at(s, p) is None by {
        if p == at {
            lemma_unclosed_delimiter(s, p);
        } else {
            lemma_span_needs_opener(s, p);
        }
    }
    lemma_scan_all_text(s);
}

/// Scanning yields text nodes that are as long as they can be, from every
/// position of every line.
pub proof fn lemma_scan_coalesced(s: Seq<char>, i: int)
    requires
        0 <= i <= s.len(),
    ensures
        coalesced(scan_from(s, i)),
        i < s.len() && span_at(s, i) is Some ==> !(scan_from(s, i)[0] is Text),
    decreases s.len() - i,
{
    if i < s.len() {
        let nodes = scan_from(s, i);
        if span_at(s, i) is Some {
            lemma_span_bounds(s, i);
            let (node, next) = span_at(s, i)->0;
            lemma_scan_coalesced(s, next);
            let rest = scan_from(s, next);
            assert(forall|k: int| 1 <= k < nodes.len() ==> nodes[k] == rest[k - 1]);
        } else {
            let end: int = text_end(s, i + 1);
            lemma_text_end(s, i + 1);
            lemma_scan_coalesced(s, end);
            let rest = scan_from(s, end);
            assert(forall|k: int| 1 <= k < nodes.len() ==> nodes[k] == rest[k - 1]);
        }
    }
}

/// Scanning loses nothing: the nodes of a line, each written back in its
/// source form, give the line again.
pub proof fn lemma_scan_keeps_source(s: Seq<char>, i: int)
    requires
        0 <= i <= s.len(),
    ensures
        inlines_source(scan_from(s, i)) == s.skip(i),
    decreases s.len() - i,
{
    if i < s.len() {
        let nodes = scan_from(s, i);
        if span_at(s, i) is Some {
            lemma_span_bounds(s, i);
            let (node, next) = span_at(s, i)->0;
            lemma_scan_keeps_source(s, next);
            assert(nodes.skip(1) == scan_from(s, next));
            assert(inline_source(node) == s.subrange(i, next)) by {
                lemma_span_source(s, i);
            }
            assert(s.subrange(i, next) + s.skip(next) == s.skip(i));
        } else {
            let end: int = text_end(s, i + 1);
            lemma_text_end(s, i + 1);
            lemma_scan_keeps_source(s, end);
            assert(nodes.skip(1) == scan_from(s, end));
            assert(s.subrange(i, end) + s.skip(end) == s.skip(i));
        }
    }
}

/// The source form of a span is the stretch of the line that it was read
/// from.
proof fn lemma_span_source(s: Seq<char>, i: int)
    requires
        span_at(s, i) is Some,
    ensures
        span_at(s, i) matches Some((node, next)) && inline_source(node) == s.subrange(i, next),
{
    lemma_span_bounds(s, i);
    if code_span_at(s, i) is Some {
        lemma_find_char(s, '`', i + 1);
    } else if strong_span_at(s, i) is Some {
        lemma_find_pair(s, '*', i + 2);
    } else if emphasis_span_at(s, i) is Some {
        lemma_find_char(s, '*', i + 1);
    } else {
        let mid: int = find_char(s, ']', i + 1);
        lemma_find_char(s, ']', i + 1);
        lemma_find_char(s, ')', mid + 2);
    }
}

} // verus!
