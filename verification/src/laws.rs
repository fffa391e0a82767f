//! Laws of the segmenter and the renderer: what holds of every document of a
//! given shape.

use vstd::prelude::*;
use crate::block::{
    after_fence, after_list, fence_body, fence_language, heading_level, heading_text,
    is_fence_close, is_fence_open, is_list_item, list_items, list_run, segment_lines,
    segment_spec, BlockView,
};
use crate::inline::{lemma_scan_all_text, scan_spec, span_at, InlineView};
use crate::lines::{is_line, join_lines, lemma_single_line, lemma_split_join};
use crate::render::{decimal, render_block, render_blocks, render_inlines};
use crate::text::{is_space, lemma_run_end, lemma_run_end_unique, lemma_trim_clean, run_end};

verus! {

/// The line that consists of `level` `#`s, one space and `text`.
pub open spec fn heading_line(level: nat, text: Seq<char>) -> Seq<char> {
    Seq::new(level, |i: int| '#') + seq![' '] + text
}

/// The empty document has no blocks, and no blocks render as the empty
/// string.
pub proof fn lemma_empty_document()
    ensures
        segment_spec(Seq::empty()) == Seq::<BlockView>::empty(),
        render_blocks(Seq::empty()) == Seq::<char>::empty(),
{
}

/// A document of one block renders as that block.
pub proof fn lemma_render_single(block: BlockView)
    ensures
        render_blocks(seq![block]) == render_block(block),
{
    let one = seq![block];
    assert(one.drop_last() == Seq::<BlockView>::empty());
    assert(render_blocks(one.drop_last()) == Seq::<char>::empty());
    assert(one.last() == block);
}

/// One to six `#`s, a space and a text without a line feed are one heading
/// of that level, whose content is the text, scanned.
pub proof fn lemma_heading_segment(level: nat, text: Seq<char>)
    requires
        1 <= level <= 6,
        forall|p: int| 0 <= p < text.len() ==> #[trigger] text[p] != '\n',
    ensures
        segment_spec(heading_line(level, text)) == seq![
            BlockView::Heading { level, inline_content: scan_spec(text) },
        ],
{
    let line = heading_line(level, text);
    lemma_single_line(line);
    lemma_run_end_unique(line, '#', 0, level as int);
    assert(line[0] == '#');
    assert(line[level as int] == ' ');
    assert(heading_level(line) == Some(level));
    assert(heading_text(line) == text);
    assert(seq![line].skip(1) == Seq::<Seq<char>>::empty());
    assert(segment_lines(seq![line].skip(1)) == Seq::<BlockView>::empty());
}

/// Heading round trip: one to six `#`s, a space and a text in which no span
/// is recognised and which holds no line feed are one heading, and that
/// heading renders as the text between the tags of its level.
pub proof fn lemma_heading_round_trip(level: nat, text: Seq<char>)
    requires
        1 <= level <= 6,
        forall|p: int| 0 <= p < text.len() ==> #[trigger] text[p] != '\n',
        forall|p: int| 0 <= p < text.len() ==> span_at(text, p) is None,
    ensures
        segment_spec(heading_line(level, text)) == seq![
            BlockView::Heading { level, inline_content: scan_spec(text) },
        ],
        render_blocks(segment_spec(heading_line(level, text))) == "<h"@ + decimal(level) + ">"@
            + text + "</h"@ + decimal(level) + ">"@,
{
    lemma_heading_segment(level, text);
    lemma_render_single(BlockView::Heading { level, inline_content: scan_spec(text) });
    if text.len() > 0 {
        lemma_scan_all_text(text);
        let nodes = seq![InlineView::Text(text)];
        assert(nodes.drop_last() == Seq::<InlineView>::empty());
        assert(render_inlines(nodes.drop_last()) == Seq::<char>::empty());
        assert(render_inlines(nodes) == text);
    } else {
        assert(render_inlines(scan_spec(text)) == text);
    }
}

/// A line that begins with more than six `#`s is no heading: it is a
/// paragraph, like any other line of text.
pub proof fn lemma_seven_hashes(line: Seq<char>)
    requires
        run_end(line, '#', 0) > 6,
        forall|p: int| 0 <= p < line.len() ==> #[trigger] line[p] != '\n',
    ensures
        heading_level(line) is None,
        segment_spec(line) == seq![BlockView::Paragraph { inline_content: scan_spec(line) }],
{
    lemma_run_end(line, '#', 0);
    assert(line[0] == '#');
    assert(!is_space(line[0]));
    lemma_single_line(line);
    assert(seq![line].skip(1) == Seq::<Seq<char>>::empty());
    assert(segment_lines(seq![line].skip(1)) == Seq::<BlockView>::empty());
}

/// A run of `#`s that no space follows is no heading.
pub proof fn lemma_hashes_without_space(line: Seq<char>)
    requires
        run_end(line, '#', 0) == line.len() || line[run_end(line, '#', 0)] != ' ',
    ensures
        heading_level(line) is None,
{
}

/// A text that was joined from lines is sorted into the blocks of those
/// lines.
pub proof fn lemma_segment_joined(lines: Seq<Seq<char>>)
    requires
        forall|k: int| 0 <= k < lines.len() ==> is_line(#[trigger] lines[k]),
    ensures
        segment_spec(join_lines(lines)) == segment_lines(lines),
{
    lemma_split_join(lines);
}

/// The line that consists of three backticks and `tag`.
pub open spec fn fence_line(tag: Seq<char>) -> Seq<char> {
    seq!['`', '`', '`'] + tag
}

/// Three backticks and a tag that neither begins nor ends with white space
/// open a code block whose language is the tag.
pub proof fn lemma_fence_language(tag: Seq<char>)
    requires
        tag.len() > 0 ==> !is_space(tag[0]) && !is_space(tag.last()),
    ensures
        is_fence_open(fence_line(tag)),
        fence_language(fence_line(tag)) == tag,
{
    assert(fence_line(tag).skip(3) == tag);
    lemma_trim_clean(tag);
}

/// The body of a code block is the lines up to the first closing fence, and
/// what follows the block is the lines after that fence.
pub proof fn lemma_fence_body_closed(
    body: Seq<Seq<char>>,
    closing: Seq<char>,
    tail: Seq<Seq<char>>,
)
    requires
        forall|k: int| 0 <= k < body.len() ==> !is_fence_close(#[trigger] body[k]),
        is_fence_close(closing),
    ensures
        fence_body(body + seq![closing] + tail) == body,
        after_fence(body + seq![closing] + tail) == tail,
    decreases body.len(),
{
    let lines = body + seq![closing] + tail;
    if body.len() == 0 {
        assert(lines[0] == closing);
        assert(lines.skip(1) == tail);
    } else {
        assert(lines[0] == body[0]);
        assert(lines.skip(1) == body.skip(1) + seq![closing] + tail);
        lemma_fence_body_closed(body.skip(1), closing, tail);
        assert(seq![body[0]] + body.skip(1) == body);
    }
}

/// Without a closing fence the body of a code block is all the lines that
/// are left, and nothing follows the block.
pub proof fn lemma_fence_body_open(body: Seq<Seq<char>>)
    requires
        forall|k: int| 0 <= k < body.len() ==> !is_fence_close(#[trigger] body[k]),
    ensures
        fence_body(body) == body,
        after_fence(body) == Seq::<Seq<char>>::empty(),
    decreases body.len(),
{
    if body.len() > 0 {
        lemma_fence_body_open(body.skip(1));
        assert(seq![body[0]] + body.skip(1) == body);
    }
}

/// A fenced block: an opening fence, lines of which none is a closing fence,
/// and a closing fence are one code block. Its language is what the opening
/// line names, its raw text is every line between the fences, in order, each
/// with a line feed after it, whatever those lines look like. The lines after
/// the closing fence are sorted as if the document began with them.
pub proof fn lemma_fenced_block(
    opening: Seq<char>,
    body: Seq<Seq<char>>,
    closing: Seq<char>,
    tail: Seq<Seq<char>>,
)
    requires
        is_fence_open(opening),
        forall|k: int| 0 <= k < body.len() ==> !is_fence_close(#[trigger] body[k]),
        is_fence_close(closing),
    ensures
        segment_lines(seq![opening] + body + seq![closing] + tail) == seq![
            BlockView::CodeBlock { language: fence_language(opening), raw_text: join_lines(body) },
        ] + segment_lines(tail),
{
    let lines = seq![opening] + body + seq![closing] + tail;
    assert(lines.skip(1) == body + seq![closing] + tail);
    lemma_fence_body_closed(body, closing, tail);
}

/// An unterminated fence: an opening fence and lines of which none is a
/// closing fence are one code block that holds all those lines.
pub proof fn lemma_unterminated_fence(opening: Seq<char>, body: Seq<Seq<char>>)
    requires
        is_fence_open(opening),
        forall|k: int| 0 <= k < body.len() ==> !is_fence_close(#[trigger] body[k]),
    ensures
        segment_lines(seq![opening] + body) == seq![
            BlockView::CodeBlock { language: fence_language(opening), raw_text: join_lines(body) },
        ],
{
    let lines = seq![opening] + body;
    assert(lines.skip(1) == body);
    lemma_fence_body_open(body);
    assert(segment_lines(after_fence(body)) == Seq::<BlockView>::empty());
}

/// A run of list items ends where the first line that is no list item
/// stands.
pub proof fn lemma_list_run(items: Seq<Seq<char>>, tail: Seq<Seq<char>>)
    requires
        forall|k: int| 0 <= k < items.len() ==> is_list_item(#[trigger] items[k]),
        tail.len() == 0 || !is_list_item(tail[0]),
    ensures
        list_run(items + tail) == items,
        after_list(items + tail) == tail,
    decreases items.len(),
{
    let lines = items + tail;
    if items.len() == 0 {
        assert(lines == tail);
    } else {
        assert(lines[0] == items[0]);
        assert(lines.skip(1) == items.skip(1) + tail);
        lemma_list_run(items.skip(1), tail);
        assert(seq![items[0]] + items.skip(1) == items);
    }
}

/// Consecutive list items are one list: it has one item for each line, in
/// the order of the lines, and each item is its line's text scanned on its
/// own. The lines after the list are sorted as if the document began with
/// them.
pub proof fn lemma_list_of_items(items: Seq<Seq<char>>, tail: Seq<Seq<char>>)
    requires
        items.len() > 0,
        forall|k: int| 0 <= k < items.len() ==> is_list_item(#[trigger] items[k]),
        tail.len() == 0 || !is_list_item(tail[0]),
    ensures
        segment_lines(items + tail) == seq![BlockView::List { items: list_items(items) }]
            + segment_lines(tail),
        list_items(items).len() == items.len(),
{
    let lines = items + tail;
    assert(lines[0] == items[0]);
    assert(is_list_item(lines[0]));
    lemma_run_end_unique(lines[0], '#', 0, 0);
    lemma_list_run(items, tail);
    assert(lines.skip(1) == items.skip(1) + tail);
    lemma_list_run(items.skip(1), tail);
}

} // verus!
