//! The block segmenter: a parser that takes a document line by line.
//!
//! The parser keeps the blocks that are complete and, beside them, the one
//! block that later lines may still add to: a code block whose closing fence
//! has not come yet, or a list that the next line may extend. What it will
//! return is a function of the lines it has seen and of the lines that are
//! still to come, and that function is what its contracts speak of.

use vstd::prelude::*;
use crate::block::{
    after_fence, after_list, blocks_view, closes_fence, document_well_formed, fence_body,
    heading_level_of, heading_text, is_list_item, item_text, items_view,
    lemma_segment_well_formed, list_items, list_run, opens_fence, segment_lines, segment_spec,
    starts_list_item, Block, BlockView, Document,
};
use crate::inline::{inlines_view, scan_chars, scan_spec, InlineNode};
use crate::lines::{join_lines, lines_of, lines_view};
use crate::text::{chars_of, copy_range, is_blank_line, push_chars, string_of, trim_range};

verus! {

/// The block that the lines to come may still add to.
enum OpenBlock {
    /// No block is open.
    Nothing,
    /// A fenced code block whose closing fence has not been seen.
    Code { language: String, raw_text: String },
    /// A list; the line before was its last item so far.
    List { items: Vec<Vec<InlineNode>> },
}

/// A parser that is fed a document one line at a time.
pub struct MarkdownParser {
    blocks: Vec<Block>,
    open: OpenBlock,
}

/// The blocks that an open block and the lines to come give.
spec fn pending(open: OpenBlock, rest: Seq<Seq<char>>) -> Seq<BlockView> {
    match open {
        OpenBlock::Nothing => segment_lines(rest),
        OpenBlock::Code { language, raw_text } => seq![
            BlockView::CodeBlock {
                language: language@,
                raw_text: raw_text@ + join_lines(fence_body(rest)),
            },
        ] + segment_lines(after_fence(rest)),
        OpenBlock::List { items } => seq![
            BlockView::List { items: items_view(items@) + list_items(list_run(rest)) },
        ] + segment_lines(after_list(rest)),
    }
}

/// The content of a list item line.
fn scan_item(line: &Vec<char>) -> (item: Vec<InlineNode>)
    requires
        is_list_item(line@),
    ensures
        inlines_view(item@) == scan_spec(item_text(line@)),
{
    let text = copy_range(line, 2, line.len());
    scan_chars(&text)
}

impl MarkdownParser {
    /// The document that the parser returns if `rest` are the lines that it
    /// is fed from now on.
    pub closed spec fn document_after(&self, rest: Seq<Seq<char>>) -> Seq<BlockView> {
        blocks_view(self.blocks@) + pending(self.open, rest)
    }

    /// The blocks that are complete: no line to come changes them.
    pub closed spec fn completed(&self) -> Seq<BlockView> {
        blocks_view(self.blocks@)
    }

    /// Whatever lines come, the document begins with the blocks that are
    /// complete by now.
    pub proof fn lemma_completed_stay(&self, rest: Seq<Seq<char>>)
        ensures
            self.completed().is_prefix_of(self.document_after(rest)),
    {
    }

    /// A parser that has seen no line yet.
    pub fn new() -> (parser: MarkdownParser)
        ensures
            parser.completed() == Seq::<BlockView>::empty(),
            forall|rest: Seq<Seq<char>>| #[trigger]
                parser.document_after(rest) == segment_lines(rest),
    {
        MarkdownParser { blocks: Vec::new(), open: OpenBlock::Nothing }
    }

    /// Takes the next line of the document. The blocks that were complete
    /// stay as they are; the line can only add to what follows them.
    pub fn feed_line(&mut self, line: &str)
        ensures
            old(self).completed().is_prefix_of(final(self).completed()),
            forall|rest: Seq<Seq<char>>| #[trigger]
                final(self).document_after(rest) == old(self).document_after(seq![line@] + rest),
    {
        let chars = chars_of(line);
        self.feed_chars(&chars);
    }

    /// Takes the next line of the document, given as its characters. The
    /// blocks that were complete stay as they are; the line can only add to
    /// what follows them.
    pub fn feed_chars(&mut self, line: &Vec<char>)
        ensures
            old(self).completed().is_prefix_of(final(self).completed()),
            forall|rest: Seq<Seq<char>>| #[trigger]
                final(self).document_after(rest) == old(self).document_after(seq![line@] + rest),
    {
        let mut open = OpenBlock::Nothing;
        core::mem::swap(&mut self.open, &mut open);
        match open {
            OpenBlock::Code { language, raw_text } => {
                if closes_fence(line) {
                    let block = Block::CodeBlock { language, raw_text };
                    proof {
                        assert(blocks_view(self.blocks@.push(block)) == blocks_view(
                            self.blocks@,
                        ).push(block@));
                    }
                    self.blocks.push(block);
                    proof {
                        assert forall|rest: Seq<Seq<char>>| #[trigger]
                            self.document_after(rest) == old(self).document_after(
                                seq![line@] + rest,
                            ) by {
                            let lines = seq![line@] + rest;
                            assert(lines.skip(1) == rest);
                            assert(raw_text@ + join_lines(fence_body(lines)) == raw_text@);
                        }
                    }
                } else {
                    let mut grown = raw_text;
                    push_chars(&mut grown, line, 0, line.len());
                    grown.push('\n');
                    self.open = OpenBlock::Code { language, raw_text: grown };
                    proof {
                        assert(line@.subrange(0, line@.len() as int) == line@);
                        assert forall|rest: Seq<Seq<char>>| #[trigger]
                            self.document_after(rest) == old(self).document_after(
                                seq![line@] + rest,
                            ) by {
                            let lines = seq![line@] + rest;
                            assert(lines.skip(1) == rest);
                            let body = fence_body(rest);
                            assert((seq![line@] + body).skip(1) == body);
                            assert(grown@ + join_lines(body) == raw_text@ + join_lines(
                                fence_body(lines),
                            ));
                        }
                    }
                }
            },
            OpenBlock::List { items } => {
                if starts_list_item(line) {
                    let item = scan_item(line);
                    let mut grown = items;
                    grown.push(item);
                    self.open = OpenBlock::List { items: grown };
                    proof {
                        assert(items_view(grown@) == items_view(items@).push(inlines_view(item@)));
                        assert forall|rest: Seq<Seq<char>>| #[trigger]
                            self.document_after(rest) == old(self).document_after(
                                seq![line@] + rest,
                            ) by {
                            let lines = seq![line@] + rest;
                            assert(lines.skip(1) == rest);
                            let run = list_run(rest);
                            assert(list_items(seq![line@] + run) == seq![
                                scan_spec(item_text(line@)),
                            ] + list_items(run));
                            assert(items_view(grown@) + list_items(run) == items_view(items@)
                                + list_items(list_run(lines)));
                        }
                    }
                } else {
                    let block = Block::List { items };
                    proof {
                        assert(blocks_view(self.blocks@.push(block)) == blocks_view(
                            self.blocks@,
                        ).push(block@));
                    }
                    self.blocks.push(block);
                    let ghost closed = self.blocks@;
                    self.start(line);
                    proof {
                        assert forall|rest: Seq<Seq<char>>| #[trigger]
                            self.document_after(rest) == old(self).document_after(
                                seq![line@] + rest,
                            ) by {
                            let lines = seq![line@] + rest;
                            assert(items_view(items@) + list_items(list_run(lines)) == items_view(
                                items@,
                            ));
                            assert(self.document_after(rest) == blocks_view(closed)
                                + segment_lines(lines));
                        }
                    }
                }
            },
            OpenBlock::Nothing => {
                self.start(line);
            },
        }
    }

    /// Takes a line while no block is open.
    fn start(&mut self, line: &Vec<char>)
        requires
            old(self).open is Nothing,
        ensures
            old(self).completed().is_prefix_of(final(self).completed()),
            forall|rest: Seq<Seq<char>>| #[trigger]
                final(self).document_after(rest) == blocks_view(old(self).blocks@) + segment_lines(
                    seq![line@] + rest,
                ),
    {
        if opens_fence(line) {
            let bounds = trim_range(line, 3, line.len());
            let language = string_of(line, bounds.0, bounds.1);
            let raw_text = String::new();
            self.open = OpenBlock::Code { language, raw_text };
            proof {
                assert(line@.skip(3) == line@.subrange(3, line@.len() as int));
                assert forall|rest: Seq<Seq<char>>| #[trigger]
                    self.document_after(rest) == blocks_view(old(self).blocks@) + segment_lines(
                        seq![line@] + rest,
                    ) by {
                    let lines = seq![line@] + rest;
                    assert(lines.skip(1) == rest);
                    assert(raw_text@ + join_lines(fence_body(rest)) == join_lines(
                        fence_body(rest),
                    ));
                }
            }
        } else if let Some(level) = heading_level_of(line) {
            let text = copy_range(line, level as usize + 1, line.len());
            let inline_content = scan_chars(&text);
            let block = Block::Heading { level, inline_content };
            proof {
                assert(blocks_view(self.blocks@.push(block)) == blocks_view(self.blocks@).push(
                    block@,
                ));
                assert(text@ == heading_text(line@));
            }
            self.blocks.push(block);
            proof {
                assert forall|rest: Seq<Seq<char>>| #[trigger]
                    self.document_after(rest) == blocks_view(old(self).blocks@) + segment_lines(
                        seq![line@] + rest,
                    ) by {
                    let lines = seq![line@] + rest;
                    assert(lines.skip(1) == rest);
                }
            }
        } else if starts_list_item(line) {
            let item = scan_item(line);
            let mut items: Vec<Vec<InlineNode>> = Vec::new();
            items.push(item);
            self.open = OpenBlock::List { items };
            proof {
                assert(items_view(items@) == seq![scan_spec(item_text(line@))]);
                assert forall|rest: Seq<Seq<char>>| #[trigger]
                    self.document_after(rest) == blocks_view(old(self).blocks@) + segment_lines(
                        seq![line@] + rest,
                    ) by {
                    let lines = seq![line@] + rest;
                    assert(lines.skip(1) == rest);
                    let run = list_run(rest);
                    assert(list_items(seq![line@] + run) == seq![scan_spec(item_text(line@))]
                        + list_items(run));
                }
            }
        } else if is_blank_line(line) {
            proof {
                assert forall|rest: Seq<Seq<char>>| #[trigger]
                    self.document_after(rest) == blocks_view(old(self).blocks@) + segment_lines(
                        seq![line@] + rest,
                    ) by {
                    let lines = seq![line@] + rest;
                    assert(lines.skip(1) == rest);
                }
            }
        } else {
            let block = Block::Paragraph { inline_content: scan_chars(line) };
            proof {
                assert(blocks_view(self.blocks@.push(block)) == blocks_view(self.blocks@).push(
                    block@,
                ));
            }
            self.blocks.push(block);
            proof {
                assert forall|rest: Seq<Seq<char>>| #[trigger]
                    self.document_after(rest) == blocks_view(old(self).blocks@) + segment_lines(
                        seq![line@] + rest,
                    ) by {
                    let lines = seq![line@] + rest;
                    assert(lines.skip(1) == rest);
                }
            }
        }
    }

    /// Ends the document and returns it. A code block or a list that is
    /// still open is closed as it stands.
    pub fn finish(self) -> (doc: Document)
        ensures
            doc@ == self.document_after(Seq::empty()),
    {
        let MarkdownParser { blocks, open } = self;
        let mut blocks = blocks;
        match open {
            OpenBlock::Nothing => {},
            OpenBlock::Code { language, raw_text } => {
                let block = Block::CodeBlock { language, raw_text };
                proof {
                    assert(blocks_view(blocks@.push(block)) == blocks_view(blocks@).push(block@));
                    assert(raw_text@ + join_lines(fence_body(Seq::empty())) == raw_text@);
                }
                blocks.push(block);
            },
            OpenBlock::List { items } => {
                let block = Block::List { items };
                proof {
                    assert(blocks_view(blocks@.push(block)) == blocks_view(blocks@).push(block@));
                    assert(items_view(items@) + list_items(list_run(Seq::empty())) == items_view(
                        items@,
                    ));
                }
                blocks.push(block);
            },
        }
        Document { blocks }
    }
}

/// Sorts the lines of a document into blocks.
pub fn segment(source: &str) -> (doc: Document)
    ensures
        doc@ == segment_spec(source@),
        document_well_formed(doc@),
{
    let chars = chars_of(source);
    let lines = lines_of(&chars);
    let ghost all = lines_view(lines@);
    let mut parser = MarkdownParser::new();
    let mut i: usize = 0;
    assert(all.take(0) == Seq::<Seq<char>>::empty());
    assert forall|rest: Seq<Seq<char>>| #[trigger]
        parser.document_after(rest) == segment_lines(all.take(0) + rest) by {
        assert(all.take(0) + rest == rest);
    }
    while i < lines.len()
        invariant
            i <= lines.len(),
            all == lines_view(lines@),
            forall|rest: Seq<Seq<char>>| #[trigger]
                parser.document_after(rest) == segment_lines(all.take(i as int) + rest),
        decreases lines.len() - i,
    {
        let ghost before = parser;
        parser.feed_chars(&lines[i]);
        proof {
            assert forall|rest: Seq<Seq<char>>| #[trigger]
                parser.document_after(rest) == segment_lines(all.take(i + 1) + rest) by {
                let next = seq![lines[i as int]@] + rest;
                assert(parser.document_after(rest) == before.document_after(next));
                assert(all.take(i as int) + next == all.take(i + 1) + rest);
            }
        }
        i += 1;
    }
    proof {
        assert(all.take(i as int) + Seq::<Seq<char>>::empty() == all);
        lemma_segment_well_formed(all);
    }
    parser.finish()
}

} // verus!
