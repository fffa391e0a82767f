//! The document tree and the rules that sort lines into blocks.
//!
//! Every line of a document belongs to one block at most, and the kind of a
//! line is decided by its first characters alone:
//!
//! - a line that begins with three backticks opens a fenced code block. The
//!   rest of that line, without the white space around it, is the language.
//!   The lines that follow are the raw text of the block, up to the first line
//!   that is exactly three backticks, or to the end of the document where
//!   there is no such line;
//! - a line that begins with one to six `#` and then a space is a heading,
//!   whose text is the rest of the line;
//! - a line that begins with `- ` is a list item, and list items on
//!   consecutive lines form one list;
//! - a line of nothing but white space belongs to no block and separates the
//!   blocks around it;
//! - every other line is a paragraph of its own.
//!
//! Block quotes and horizontal rules are part of the tree and can be
//! rendered; no line of source text is read as one.

use vstd::prelude::*;
use crate::inline::{inlines_view, scan_spec, InlineNode, InlineView};
use crate::lines::{join_lines, split_lines};
use crate::text::{is_blank, run_end, run_end_from, trim};

verus! {

/// A structural unit of a document.
#[derive(Debug, Clone, PartialEq, Eq)]
pub enum Block {
    /// A heading of level 1 to 6.
    Heading { level: u8, inline_content: Vec<InlineNode> },
    /// One line of running text.
    Paragraph { inline_content: Vec<InlineNode> },
    /// A list; each item is the content of one line.
    List { items: Vec<Vec<InlineNode>> },
    /// A fenced code block. Every line of `raw_text` ends with a line feed.
    CodeBlock { language: String, raw_text: String },
    /// A quotation.
    BlockQuote { text: String },
    /// A horizontal rule.
    HorizontalRule,
}

/// The mathematical value of a [`Block`].
pub enum BlockView {
    Heading { level: nat, inline_content: Seq<InlineView> },
    Paragraph { inline_content: Seq<InlineView> },
    List { items: Seq<Seq<InlineView>> },
    CodeBlock { language: Seq<char>, raw_text: Seq<char> },
    BlockQuote { text: Seq<char> },
    HorizontalRule,
}

/// The values of the items of a list.
pub open spec fn items_view(items: Seq<Vec<InlineNode>>) -> Seq<Seq<InlineView>> {
    items.map_values(|item: Vec<InlineNode>| inlines_view(item@))
}

impl View for Block {
    type V = BlockView;

    open spec fn view(&self) -> BlockView {
        match self {
            Block::Heading { level, inline_content } => BlockView::Heading {
                level: *level as nat,
                inline_content: inlines_view(inline_content@),
            },
            Block::Paragraph { inline_content } => BlockView::Paragraph {
                inline_content: inlines_view(inline_content@),
            },
            Block::List { items } => BlockView::List { items: items_view(items@) },
            Block::CodeBlock { language, raw_text } => BlockView::CodeBlock {
                language: language@,
                raw_text: raw_text@,
            },
            Block::BlockQuote { text } => BlockView::BlockQuote { text: text@ },
            Block::HorizontalRule => BlockView::HorizontalRule,
        }
    }
}

/// The values of a sequence of blocks.
pub open spec fn blocks_view(blocks: Seq<Block>) -> Seq<BlockView> {
    blocks.map_values(|block: Block| block@)
}

/// A document: its blocks in the order of the source text.
#[derive(Debug, Clone, PartialEq, Eq)]
pub struct Document {
    pub blocks: Vec<Block>,
}

impl View for Document {
    type V = Seq<BlockView>;

    open spec fn view(&self) -> Seq<BlockView> {
        blocks_view(self.blocks@)
    }
}

/// Whether a block is one that a document may hold: the level of a heading
/// is 1 to 6.
pub open spec fn block_well_formed(block: BlockView) -> bool {
    block matches BlockView::Heading { level, .. } ==> 1 <= level <= 6
}

/// Whether every block of a document is well formed.
pub open spec fn document_well_formed(blocks: Seq<BlockView>) -> bool {
    forall|k: int| 0 <= k < blocks.len() ==> block_well_formed(#[trigger] blocks[k])
}

/// Whether a line opens a fenced code block: it begins with three backticks.
pub open spec fn is_fence_open(line: Seq<char>) -> bool {
    line.len() >= 3 && line[0] == '`' && line[1] == '`' && line[2] == '`'
}

/// Whether a line closes a fenced code block: it is exactly three backticks.
pub open spec fn is_fence_close(line: Seq<char>) -> bool {
    line.len() == 3 && line[0] == '`' && line[1] == '`' && line[2] == '`'
}

/// The language that a line which opens a fenced code block names.
pub open spec fn fence_language(line: Seq<char>) -> Seq<char> {
    trim(line.skip(3))
}

/// The level of the heading that a line is, if it is one: the number of `#`
/// at its start, where that is 1 to 6 and a space follows.
pub open spec fn heading_level(line: Seq<char>) -> Option<nat> {
    let run: int = run_end(line, '#', 0);
    if 1 <= run <= 6 && run < line.len() && line[run] == ' ' {
        Some(run as nat)
    } else {
        None
    }
}

/// The text of a heading line: what follows the `#`s and the space.
pub open spec fn heading_text(line: Seq<char>) -> Seq<char> {
    line.skip(run_end(line, '#', 0) + 1)
}

/// Whether a line is a list item: it begins with `- `.
pub open spec fn is_list_item(line: Seq<char>) -> bool {
    line.len() >= 2 && line[0] == '-' && line[1] == ' '
}

/// The text of a list item line: what follows the `- `.
pub open spec fn item_text(line: Seq<char>) -> Seq<char> {
    line.skip(2)
}

/// The lines at the front of `lines` that come before the first closing
/// fence: the body of a code block that was opened just before `lines`.
pub open spec fn fence_body(lines: Seq<Seq<char>>) -> Seq<Seq<char>>
    decreases lines.len(),
{
    if lines.len() == 0 || is_fence_close(lines[0]) {
        Seq::empty()
    } else {
        seq![lines[0]] + fence_body(lines.skip(1))
    }
}

/// The lines of `lines` that come after the first closing fence, none where
/// there is no closing fence.
pub open spec fn after_fence(lines: Seq<Seq<char>>) -> Seq<Seq<char>>
    decreases lines.len(),
{
    if lines.len() == 0 {
        lines
    } else if is_fence_close(lines[0]) {
        lines.skip(1)
    } else {
        after_fence(lines.skip(1))
    }
}

/// The list items at the front of `lines`.
pub open spec fn list_run(lines: Seq<Seq<char>>) -> Seq<Seq<char>>
    decreases lines.len(),
{
    if lines.len() == 0 || !is_list_item(lines[0]) {
        Seq::empty()
    } else {
        seq![lines[0]] + list_run(lines.skip(1))
    }
}

/// The lines of `lines` from the first one that is no list item.
pub open spec fn after_list(lines: Seq<Seq<char>>) -> Seq<Seq<char>>
    decreases lines.len(),
{
    if lines.len() == 0 || !is_list_item(lines[0]) {
        lines
    } else {
        after_list(lines.skip(1))
    }
}

/// The items that a run of list item lines holds, each scanned on its own.
pub open spec fn list_items(lines: Seq<Seq<char>>) -> Seq<Seq<InlineView>> {
    lines.map_values(|line: Seq<char>| scan_spec(item_text(line)))
}

/// The blocks of a document, given as its lines.
pub open spec fn segment_lines(lines: Seq<Seq<char>>) -> Seq<BlockView>
    decreases lines.len(),
    via segment_lines_decreases
{
    if lines.len() == 0 {
        Seq::empty()
    } else {
        let line = lines[0];
        let rest = lines.skip(1);
        if is_fence_open(line) {
            seq![
                BlockView::CodeBlock {
                    language: fence_language(line),
                    raw_text: join_lines(fence_body(rest)),
                },
            ] + segment_lines(after_fence(rest))
        } else if heading_level(line) is Some {
            seq![
                BlockView::Heading {
                    level: heading_level(line)->0,
                    inline_content: scan_spec(heading_text(line)),
                },
            ] + segment_lines(rest)
        } else if is_list_item(line) {
            seq![BlockView::List { items: list_items(list_run(lines)) }] + segment_lines(
                after_list(rest),
            )
        } else if is_blank(line) {
            segment_lines(rest)
        } else {
            seq![BlockView::Paragraph { inline_content: scan_spec(line) }] + segment_lines(rest)
        }
    }
}

#[via_fn]
proof fn segment_lines_decreases(lines: Seq<Seq<char>>) {
    if lines.len() > 0 {
        lemma_after_fence_len(lines.skip(1));
        lemma_after_list_len(lines.skip(1));
    }
}

/// The blocks of a document, given as its text.
pub open spec fn segment_spec(source: Seq<char>) -> Seq<BlockView> {
    segment_lines(split_lines(source))
}

/// What follows a code block is no longer than what follows its opening line.
pub proof fn lemma_after_fence_len(lines: Seq<Seq<char>>)
    ensures
        after_fence(lines).len() <= lines.len(),
    decreases lines.len(),
{
    if lines.len() > 0 && !is_fence_close(lines[0]) {
        lemma_after_fence_len(lines.skip(1));
    }
}

/// What follows a list is no longer than the lines that the list began in.
pub proof fn lemma_after_list_len(lines: Seq<Seq<char>>)
    ensures
        after_list(lines).len() <= lines.len(),
    decreases lines.len(),
{
    if lines.len() > 0 && is_list_item(lines[0]) {
        lemma_after_list_len(lines.skip(1));
    }
}

/// Every block that the segmenter yields is well formed: the level of each
/// heading is 1 to 6.
pub proof fn lemma_segment_well_formed(lines: Seq<Seq<char>>)
    ensures
        document_well_formed(segment_lines(lines)),
    decreases lines.len(),
{
    if lines.len() > 0 {
        let rest = lines.skip(1);
        lemma_after_fence_len(rest);
        lemma_after_list_len(rest);
        lemma_segment_well_formed(rest);
        lemma_segment_well_formed(after_fence(rest));
        lemma_segment_well_formed(after_list(rest));
    }
}

/// Executable `is_fence_open`.
pub fn opens_fence(line: &Vec<char>) -> (b: bool)
    ensures
        b == is_fence_open(line@),
{
    line.len() >= 3 && line[0] == '`' && line[1] == '`' && line[2] == '`'
}

/// Executable `is_fence_close`.
pub fn closes_fence(line: &Vec<char>) -> (b: bool)
    ensures
        b == is_fence_close(line@),
{
    line.len() == 3 && line[0] == '`' && line[1] == '`' && line[2] == '`'
}

/// Executable `heading_level`.
pub fn heading_level_of(line: &Vec<char>) -> (level: Option<u8>)
    ensures
        level is Some <==> heading_level(line@) is Some,
        level matches Some(l) ==> heading_level(line@) == Some(l as nat),
{
    let run: usize = run_end_from(line, '#', 0);
    if 1 <= run && run <= 6 && run < line.len() && line[run] == ' ' {
        Some(run as u8)
    } else {
        None
    }
}

/// Executable `is_list_item`.
pub fn starts_list_item(line: &Vec<char>) -> (b: bool)
    ensures
        b == is_list_item(line@),
{
    line.len() >= 2 && line[0] == '-' && line[1] == ' '
}

} // verus!
