//! A textual outline of a document tree, for diagnostics.
//!
//! The outline has one line for each node. A node stands two columns to the
//! right of the node that holds it, below the line `Document`. A node that
//! holds text shows it after its name, quoted and escaped the way `{:?}`
//! writes a string.

use vstd::prelude::*;
use vstd::string::StringExecFns;
use crate::block::{blocks_view, items_view, Block, BlockView, Document};
use crate::inline::{inlines_view, InlineNode, InlineView};
use crate::render::{decimal, write_decimal};

verus! {

/// What `{:?}` writes for a string: the string between double quotes, with
/// the characters that need it escaped.
pub uninterp spec fn debug_text(s: Seq<char>) -> Seq<char>;

/// `format!` with `{:?}` on a string slice, which writes the slice through
/// its `Debug` impl. The result depends on the characters of the slice alone.
#[verifier::external_body]
fn quoted(s: &str) -> (q: String)
    ensures
        q@ == debug_text(s@),
{
    format!("{:?}", s)
}

/// `indent` spaces.
pub open spec fn padding(indent: nat) -> Seq<char> {
    Seq::new(indent, |i: int| ' ')
}

/// The line of a node that holds other nodes: its name after the padding.
pub open spec fn branch_line(indent: nat, label: Seq<char>) -> Seq<char> {
    padding(indent) + label + "\n"@
}

/// The line of a node that holds text: its name, a colon and the text as it
/// is shown, after the padding.
pub open spec fn leaf_line(indent: nat, label: Seq<char>, shown: Seq<char>) -> Seq<char> {
    padding(indent) + label + ": "@ + shown + "\n"@
}

/// The text of an inline node as the outline shows it.
pub open spec fn inline_shown(node: InlineView) -> Seq<char> {
    match node {
        InlineView::Text(t) => debug_text(t),
        InlineView::Bold(t) => debug_text(t),
        InlineView::Italic(t) => debug_text(t),
        InlineView::InlineCode(t) => debug_text(t),
        InlineView::Link { text, url } => debug_text(text) + " "@ + debug_text(url),
    }
}

/// The name of an inline node in the outline.
pub open spec fn inline_label(node: InlineView) -> Seq<char> {
    match node {
        InlineView::Text(_) => "Text"@,
        InlineView::Bold(_) => "Bold"@,
        InlineView::Italic(_) => "Italic"@,
        InlineView::InlineCode(_) => "InlineCode"@,
        InlineView::Link { .. } => "Link"@,
    }
}

/// The outline of a sequence of inline nodes: one line for each.
pub open spec fn inlines_outline(nodes: Seq<InlineView>, indent: nat) -> Seq<char>
    decreases nodes.len(),
{
    if nodes.len() == 0 {
        Seq::empty()
    } else {
        inlines_outline(nodes.drop_last(), indent) + leaf_line(
            indent,
            inline_label(nodes.last()),
            inline_shown(nodes.last()),
        )
    }
}

/// The outline of the items of a list: the line `Item` for each, and below
/// it the nodes of the item.
pub open spec fn items_outline(items: Seq<Seq<InlineView>>, indent: nat) -> Seq<char>
    decreases items.len(),
{
    if items.len() == 0 {
        Seq::empty()
    } else {
        items_outline(items.drop_last(), indent) + branch_line(indent, "Item"@) + inlines_outline(
            items.last(),
            indent + 2,
        )
    }
}

/// The outline of one block.
pub open spec fn block_outline(block: BlockView, indent: nat) -> Seq<char> {
    match block {
        BlockView::Heading { level, inline_content } => branch_line(
            indent,
            "Heading "@ + decimal(level),
        ) + inlines_outline(inline_content, indent + 2),
        BlockView::Paragraph { inline_content } => branch_line(indent, "Paragraph"@)
            + inlines_outline(inline_content, indent + 2),
        BlockView::List { items } => branch_line(indent, "List"@) + items_outline(
            items,
            indent + 2,
        ),
        BlockView::CodeBlock { language, raw_text } => leaf_line(
            indent,
            "CodeBlock"@,
            debug_text(language) + " "@ + debug_text(raw_text),
        ),
        BlockView::BlockQuote { text } => leaf_line(indent, "BlockQuote"@, debug_text(text)),
        BlockView::HorizontalRule => branch_line(indent, "HorizontalRule"@),
    }
}

/// The outline of a sequence of blocks.
pub open spec fn blocks_outline(blocks: Seq<BlockView>, indent: nat) -> Seq<char>
    decreases blocks.len(),
{
    if blocks.len() == 0 {
        Seq::empty()
    } else {
        blocks_outline(blocks.drop_last(), indent) + block_outline(blocks.last(), indent)
    }
}

/// The outline of a document: the line `Document`, and below it the blocks.
pub open spec fn document_outline(blocks: Seq<BlockView>) -> Seq<char> {
    branch_line(0, "Document"@) + blocks_outline(blocks, 2)
}

/// Appends `indent` spaces to `out`.
fn write_padding(out: &mut String, indent: usize)
    ensures
        final(out)@ == old(out)@ + padding(indent as nat),
{
    let mut i: usize = 0;
    while i < indent
        invariant
            i <= indent,
            out@ == old(out)@ + padding(i as nat),
        decreases indent - i,
    {
        out.push(' ');
        assert(padding(i as nat).push(' ') == padding((i + 1) as nat));
        i += 1;
    }
}

/// Appends the line of a node that holds other nodes to `out`.
pub fn write_branch(out: &mut String, indent: usize, label: &str)
    ensures
        final(out)@ == old(out)@ + branch_line(indent as nat, label@),
{
    write_padding(out, indent);
    out.append(label);
    out.append("\n");
}

/// Appends the line of a node that holds text to `out`; `shown` is the text
/// as it is to be shown.
pub fn write_leaf(out: &mut String, indent: usize, label: &str, shown: &str)
    ensures
        final(out)@ == old(out)@ + leaf_line(indent as nat, label@, shown@),
{
    write_padding(out, indent);
    out.append(label);
    out.append(": ");
    out.append(shown);
    out.append("\n");
}

/// Two texts as the outline shows them side by side.
fn quoted_pair(first: &str, second: &str) -> (shown: String)
    ensures
        shown@ == debug_text(first@) + " "@ + debug_text(second@),
{
    let mut shown = quoted(first);
    shown.append(" ");
    let other = quoted(second);
    shown.append(other.as_str());
    shown
}

/// Appends the outline of one inline node to `out`.
fn write_inline_outline(out: &mut String, node: &InlineNode, indent: usize)
    ensures
        final(out)@ == old(out)@ + leaf_line(
            indent as nat,
            inline_label(node@),
            inline_shown(node@),
        ),
{
    match node {
        InlineNode::Text(t) => {
            let shown = quoted(t.as_str());
            write_leaf(out, indent, "Text", shown.as_str());
        },
        InlineNode::Bold(t) => {
            let shown = quoted(t.as_str());
            write_leaf(out, indent, "Bold", shown.as_str());
        },
        InlineNode::Italic(t) => {
            let shown = quoted(t.as_str());
            write_leaf(out, indent, "Italic", shown.as_str());
        },
        InlineNode::InlineCode(t) => {
            let shown = quoted(t.as_str());
            write_leaf(out, indent, "InlineCode", shown.as_str());
        },
        InlineNode::Link { text, url } => {
            let shown = quoted_pair(text.as_str(), url.as_str());
            write_leaf(out, indent, "Link", shown.as_str());
        },
    }
}

/// Appends the outline of a sequence of inline nodes to `out`.
fn write_inlines_outline(out: &mut String, nodes: &Vec<InlineNode>, indent: usize)
    ensures
        final(out)@ == old(out)@ + inlines_outline(inlines_view(nodes@), indent as nat),
{
    let ghost all = inlines_view(nodes@);
    let mut i: usize = 0;
    assert(all.take(0) == Seq::<InlineView>::empty());
    while i < nodes.len()
        invariant
            i <= nodes.len(),
            all == inlines_view(nodes@),
            out@ == old(out)@ + inlines_outline(all.take(i as int), indent as nat),
        decreases nodes.len() - i,
    {
        write_inline_outline(out, &nodes[i], indent);
        proof {
            assert(all.take(i + 1).drop_last() == all.take(i as int));
        }
        i += 1;
    }
    assert(all.take(i as int) == all);
}

/// Appends the outline of the items of a list to `out`.
fn write_items_outline(out: &mut String, items: &Vec<Vec<InlineNode>>, indent: usize)
    requires
        indent + 2 <= usize::MAX,
    ensures
        final(out)@ == old(out)@ + items_outline(items_view(items@), indent as nat),
{
    let ghost all = items_view(items@);
    let mut i: usize = 0;
    assert(all.take(0) == Seq::<Seq<InlineView>>::empty());
    while i < items.len()
        invariant
            i <= items.len(),
            indent + 2 <= usize::MAX,
            all == items_view(items@),
            out@ == old(out)@ + items_outline(all.take(i as int), indent as nat),
        decreases items.len() - i,
    {
        write_branch(out, indent, "Item");
        write_inlines_outline(out, &items[i], indent + 2);
        proof {
            assert(all.take(i + 1).drop_last() == all.take(i as int));
        }
        i += 1;
    }
    assert(all.take(i as int) == all);
}

/// Appends the outline of one block to `out`.
fn write_block_outline(out: &mut String, block: &Block, indent: usize)
    requires
        indent + 4 <= usize::MAX,
    ensures
        final(out)@ == old(out)@ + block_outline(block@, indent as nat),
{
    match block {
        Block::Heading { level, inline_content } => {
            write_padding(out, indent);
            out.append("Heading ");
            write_decimal(out, *level);
            out.append("\n");
            write_inlines_outline(out, inline_content, indent + 2);
        },
        Block::Paragraph { inline_content } => {
            write_branch(out, indent, "Paragraph");
            write_inlines_outline(out, inline_content, indent + 2);
        },
        Block::List { items } => {
            write_branch(out, indent, "List");
            write_items_outline(out, items, indent + 2);
        },
        Block::CodeBlock { language, raw_text } => {
            let shown = quoted_pair(language.as_str(), raw_text.as_str());
            write_leaf(out, indent, "CodeBlock", shown.as_str());
        },
        Block::BlockQuote { text } => {
            let shown = quoted(text.as_str());
            write_leaf(out, indent, "BlockQuote", shown.as_str());
        },
        Block::HorizontalRule => {
            write_branch(out, indent, "HorizontalRule");
        },
    }
}

/// The outline of a document.
pub fn outline(doc: &Document) -> (text: String)
    ensures
        text@ == document_outline(doc@),
{
    let ghost all = doc@;
    let mut text = String::new();
    write_branch(&mut text, 0, "Document");
    let mut i: usize = 0;
    assert(all.take(0) == Seq::<BlockView>::empty());
    while i < doc.blocks.len()
        invariant
            i <= doc.blocks.len(),
            all == blocks_view(doc.blocks@),
            text@ == branch_line(0, "Document"@) + blocks_outline(all.take(i as int), 2),
        decreases doc.blocks.len() - i,
    {
        write_block_outline(&mut text, &doc.blocks[i], 2);
        proof {
            assert(all.take(i + 1).drop_last() == all.take(i as int));
        }
        i += 1;
    }
    assert(all.take(i as int) == all);
    text
}

} // verus!
