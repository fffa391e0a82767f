//! The HTML renderer: one rule for each kind of node.
//!
//! Text is written as it stands: nothing is escaped, neither in running text
//! nor in code. The blocks of a document follow one another with nothing
//! between them. The items of a list are `<li>` elements inside one `<ul>`.

use vstd::prelude::*;
use vstd::string::StringExecFns;
use crate::block::{blocks_view, items_view, Block, BlockView, Document};
use crate::inline::{inlines_view, InlineNode, InlineView};

verus! {

/// The HTML of one inline node.
pub open spec fn render_inline(node: InlineView) -> Seq<char> {
    match node {
        InlineView::Text(t) => t,
        InlineView::Bold(t) => "<strong>"@ + t + "</strong>"@,
        InlineView::Italic(t) => "<em>"@ + t + "</em>"@,
        InlineView::InlineCode(t) => "<code>"@ + t + "</code>"@,
        InlineView::Link { text, url } => "<a href=\""@ + url + "\">"@ + text + "</a>"@,
    }
}

/// The HTML of a sequence of inline nodes: that of each, in order.
pub open spec fn render_inlines(nodes: Seq<InlineView>) -> Seq<char>
    decreases nodes.len(),
{
    if nodes.len() == 0 {
        Seq::empty()
    } else {
        render_inlines(nodes.drop_last()) + render_inline(nodes.last())
    }
}

/// The character for a digit `d` below ten.
pub open spec fn digit(d: nat) -> char {
    (48 + d) as char
}

/// A number in decimal notation.
pub open spec fn decimal(n: nat) -> Seq<char>
    decreases n,
{
    if n < 10 {
        seq![digit(n)]
    } else {
        decimal(n / 10).push(digit(n % 10))
    }
}

/// The HTML of the items of a list: one `<li>` element for each, in order.
pub open spec fn render_items(items: Seq<Seq<InlineView>>) -> Seq<char>
    decreases items.len(),
{
    if items.len() == 0 {
        Seq::empty()
    } else {
        render_items(items.drop_last()) + "<li>"@ + render_inlines(items.last()) + "</li>"@
    }
}

/// The HTML of one block.
pub open spec fn render_block(block: BlockView) -> Seq<char> {
    match block {
        BlockView::Heading { level, inline_content } => "<h"@ + decimal(level) + ">"@
            + render_inlines(inline_content) + "</h"@ + decimal(level) + ">"@,
        BlockView::Paragraph { inline_content } => "<p>"@ + render_inlines(inline_content)
            + "</p>"@,
        BlockView::List { items } => "<ul>"@ + render_items(items) + "</ul>"@,
        BlockView::CodeBlock { language, raw_text } => "<pre><code class=\"language-"@ + language
            + "\">"@ + raw_text + "</code></pre>"@,
        BlockView::BlockQuote { text } => "<blockquote>"@ + text + "</blockquote>"@,
        BlockView::HorizontalRule => "<hr />"@,
    }
}

/// The HTML of a document: that of each block, in order.
pub open spec fn render_blocks(blocks: Seq<BlockView>) -> Seq<char>
    decreases blocks.len(),
{
    if blocks.len() == 0 {
        Seq::empty()
    } else {
        render_blocks(blocks.drop_last()) + render_block(blocks.last())
    }
}

/// Appends the HTML of one inline node to `out`.
fn write_inline(out: &mut String, node: &InlineNode)
    ensures
        final(out)@ == old(out)@ + render_inline(node@),
{
    match node {
        InlineNode::Text(t) => {
            out.append(t.as_str());
        },
        InlineNode::Bold(t) => {
            out.append("<strong>");
            out.append(t.as_str());
            out.append("</strong>");
        },
        InlineNode::Italic(t) => {
            out.append("<em>");
            out.append(t.as_str());
            out.append("</em>");
        },
        InlineNode::InlineCode(t) => {
            out.append("<code>");
            out.append(t.as_str());
            out.append("</code>");
        },
        InlineNode::Link { text, url } => {
            out.append("<a href=\"");
            out.append(url.as_str());
            out.append("\">");
            out.append(text.as_str());
            out.append("</a>");
        },
    }
}

/// Appends the HTML of a sequence of inline nodes to `out`.
fn write_inlines(out: &mut String, nodes: &Vec<InlineNode>)
    ensures
        final(out)@ == old(out)@ + render_inlines(inlines_view(nodes@)),
{
    let ghost all = inlines_view(nodes@);
    let mut i: usize = 0;
    assert(all.take(0) == Seq::<InlineView>::empty());
    while i < nodes.len()
        invariant
            i <= nodes.len(),
            all == inlines_view(nodes@),
            out@ == old(out)@ + render_inlines(all.take(i as int)),
        decreases nodes.len() - i,
    {
        write_inline(out, &nodes[i]);
        proof {
            assert(all.take(i + 1).drop_last() == all.take(i as int));
        }
        i += 1;
    }
    assert(all.take(i as int) == all);
}

/// The character for a digit `d` below ten.
fn digit_char(d: u8) -> (c: char)
    requires
        d < 10,
    ensures
        c == digit(d as nat),
{
    (48u8 + d) as char
}

/// Appends `n` in decimal notation to `out`.
pub(crate) fn write_decimal(out: &mut String, n: u8)
    ensures
        final(out)@ == old(out)@ + decimal(n as nat),
{
    reveal_with_fuel(decimal, 3);
    if n >= 100 {
        out.push(digit_char(n / 100));
    }
    if n >= 10 {
        out.push(digit_char((n / 10) % 10));
    }
    out.push(digit_char(n % 10));
}

/// Appends the HTML of the items of a list to `out`.
fn write_items(out: &mut String, items: &Vec<Vec<InlineNode>>)
    ensures
        final(out)@ == old(out)@ + render_items(items_view(items@)),
{
    let ghost all = items_view(items@);
    let mut i: usize = 0;
    assert(all.take(0) == Seq::<Seq<InlineView>>::empty());
    while i < items.len()
        invariant
            i <= items.len(),
            all == items_view(items@),
            out@ == old(out)@ + render_items(all.take(i as int)),
        decreases items.len() - i,
    {
        out.append("<li>");
        write_inlines(out, &items[i]);
        out.append("</li>");
        proof {
            assert(all.take(i + 1).drop_last() == all.take(i as int));
        }
        i += 1;
    }
    assert(all.take(i as int) == all);
}

/// Appends the HTML of one block to `out`.
fn write_block(out: &mut String, block: &Block)
    ensures
        final(out)@ == old(out)@ + render_block(block@),
{
    match block {
        Block::Heading { level, inline_content } => {
            out.append("<h");
            write_decimal(out, *level);
            out.append(">");
            write_inlines(out, inline_content);
            out.append("</h");
            write_decimal(out, *level);
            out.append(">");
        },
        Block::Paragraph { inline_content } => {
            out.append("<p>");
            write_inlines(out, inline_content);
            out.append("</p>");
        },
        Block::List { items } => {
            out.append("<ul>");
            write_items(out, items);
            out.append("</ul>");
        },
        Block::CodeBlock { language, raw_text } => {
            out.append("<pre><code class=\"language-");
            out.append(language.as_str());
            out.append("\">");
            out.append(raw_text.as_str());
            out.append("</code></pre>");
        },
        Block::BlockQuote { text } => {
            out.append("<blockquote>");
            out.append(text.as_str());
            out.append("</blockquote>");
        },
        Block::HorizontalRule => {
            out.append("<hr />");
        },
    }
}

impl InlineNode {
    /// The HTML of this node.
    pub fn to_html(&self) -> (html: String)
        ensures
            html@ == render_inline(self@),
    {
        let mut html = String::new();
        write_inline(&mut html, self);
        html
    }
}

impl Block {
    /// The HTML of this block.
    pub fn to_html(&self) -> (html: String)
        ensures
            html@ == render_block(self@),
    {
        let mut html = String::new();
        write_block(&mut html, self);
        html
    }
}

/// Renders a document as HTML.
pub fn render(doc: &Document) -> (html: String)
    ensures
        html@ == render_blocks(doc@),
{
    let ghost all = doc@;
    let mut html = String::new();
    let mut i: usize = 0;
    assert(all.take(0) == Seq::<BlockView>::empty());
    while i < doc.blocks.len()
        invariant
            i <= doc.blocks.len(),
            all == blocks_view(doc.blocks@),
            html@ == render_blocks(all.take(i as int)),
        decreases doc.blocks.len() - i,
    {
        write_block(&mut html, &doc.blocks[i]);
        proof {
            assert(all.take(i + 1).drop_last() == all.take(i as int));
        }
        i += 1;
    }
    assert(all.take(i as int) == all);
    html
}

} // verus!
