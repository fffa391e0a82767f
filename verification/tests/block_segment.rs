use markdown_html::{render, segment, Block, Document, InlineNode, Markdown, MarkdownParser};

fn text(s: &str) -> InlineNode {
    InlineNode::Text(s.to_string())
}

fn heading(level: u8, s: &str) -> Block {
    Block::Heading { level, inline_content: vec![text(s)] }
}

fn paragraph(s: &str) -> Block {
    Block::Paragraph { inline_content: vec![text(s)] }
}

fn code_block(language: &str, raw_text: &str) -> Block {
    Block::CodeBlock { language: language.to_string(), raw_text: raw_text.to_string() }
}

fn doc(blocks: Vec<Block>) -> Document {
    Document { blocks }
}

#[test]
fn empty_input_is_empty_document() {
    assert_eq!(segment(""), doc(vec![]));
    assert_eq!(render(&segment("")), "");
    assert_eq!(Markdown { contents: String::new() }.to_html(), "");
}

#[test]
fn heading_round_trip() {
    for level in 1..=6u8 {
        let line = format!("{} {}", "#".repeat(level as usize), "Some title, here");
        let parsed = segment(&line);
        assert_eq!(parsed, doc(vec![heading(level, "Some title, here")]));
        assert_eq!(render(&parsed), format!("<h{}>Some title, here</h{}>", level, level));
    }
}

#[test]
fn heading_text_may_hold_hashes() {
    assert_eq!(segment("# C# and F#"), doc(vec![heading(1, "C# and F#")]));
    assert_eq!(segment("## #"), doc(vec![heading(2, "#")]));
}

#[test]
fn heading_text_is_scanned() {
    assert_eq!(segment("## a **b**"), doc(vec![Block::Heading {
        level: 2,
        inline_content: vec![text("a "), InlineNode::Bold("b".to_string())],
    }]));
    assert_eq!(render(&segment("# *a*")), "<h1><em>a</em></h1>");
}

#[test]
fn heading_with_empty_text() {
    assert_eq!(segment("# "), doc(vec![Block::Heading { level: 1, inline_content: vec![] }]));
}

#[test]
fn heading_keeps_further_spaces() {
    assert_eq!(segment("#  two"), doc(vec![heading(1, " two")]));
}

#[test]
fn seven_hashes_are_a_paragraph() {
    assert_eq!(segment("####### seven"), doc(vec![paragraph("####### seven")]));
    assert_eq!(render(&segment("####### seven")), "<p>####### seven</p>");
}

#[test]
fn hashes_without_space_are_a_paragraph() {
    assert_eq!(segment("#nospace"), doc(vec![paragraph("#nospace")]));
    assert_eq!(segment("###"), doc(vec![paragraph("###")]));
    assert_eq!(segment("#\tx"), doc(vec![paragraph("#\tx")]));
}

#[test]
fn indented_hash_is_a_paragraph() {
    assert_eq!(segment(" # x"), doc(vec![paragraph(" # x")]));
}

#[test]
fn consecutive_headings_do_not_merge() {
    assert_eq!(segment("# a\n# b"), doc(vec![heading(1, "a"), heading(1, "b")]));
}

#[test]
fn fenced_block_captures_lines() {
    let source = "```rust\n# not a heading\n- not a list\nfn main() {}\n```";
    assert_eq!(
        segment(source),
        doc(vec![code_block("rust", "# not a heading\n- not a list\nfn main() {}\n")])
    );
}

#[test]
fn fenced_block_then_text() {
    let source = "```rust\nlet x = 1;\n```\nafter\n";
    assert_eq!(segment(source), doc(vec![code_block("rust", "let x = 1;\n"), paragraph("after")]));
}

#[test]
fn fenced_block_keeps_blank_lines_and_markup() {
    let source = "```\n\n  *a*\n````\n``` \n```\n";
    assert_eq!(segment(source), doc(vec![code_block("", "\n  *a*\n````\n``` \n")]));
}

#[test]
fn unterminated_fence_holds_the_rest() {
    let source = "```py\na\n# b\n\n- c";
    assert_eq!(segment(source), doc(vec![code_block("py", "a\n# b\n\n- c\n")]));
    assert_eq!(segment("```"), doc(vec![code_block("", "")]));
}

#[test]
fn fence_language_is_trimmed() {
    assert_eq!(segment("```  rust \t\n```"), doc(vec![code_block("rust", "")]));
    assert_eq!(segment("```   \n```"), doc(vec![code_block("", "")]));
    assert_eq!(segment("```c sharp\n```"), doc(vec![code_block("c sharp", "")]));
}

#[test]
fn fence_after_close_opens_again() {
    let source = "```a\nx\n```\n```b\ny\n```";
    assert_eq!(segment(source), doc(vec![code_block("a", "x\n"), code_block("b", "y\n")]));
}

#[test]
fn three_list_lines_are_one_list() {
    let parsed = segment("- one\n- **two**\n- three");
    assert_eq!(parsed, doc(vec![Block::List {
        items: vec![
            vec![text("one")],
            vec![InlineNode::Bold("two".to_string())],
            vec![text("three")],
        ],
    }]));
}

#[test]
fn list_items_are_scanned_on_their_own() {
    let parsed = segment("- a *b\n- c* d");
    assert_eq!(parsed, doc(vec![Block::List { items: vec![vec![text("a *b")], vec![text("c* d")]] }]));
}

#[test]
fn list_ends_at_other_line() {
    let parsed = segment("- a\n- b\ntext\n- c");
    assert_eq!(parsed, doc(vec![
        Block::List { items: vec![vec![text("a")], vec![text("b")]] },
        paragraph("text"),
        Block::List { items: vec![vec![text("c")]] },
    ]));
}

#[test]
fn blank_line_separates_lists() {
    let parsed = segment("- a\n\n- b");
    assert_eq!(parsed, doc(vec![
        Block::List { items: vec![vec![text("a")]] },
        Block::List { items: vec![vec![text("b")]] },
    ]));
}

#[test]
fn list_item_may_be_empty() {
    assert_eq!(segment("- "), doc(vec![Block::List { items: vec![vec![]] }]));
}

#[test]
fn dash_without_space_is_a_paragraph() {
    assert_eq!(segment("-x"), doc(vec![paragraph("-x")]));
    assert_eq!(segment("-"), doc(vec![paragraph("-")]));
    assert_eq!(segment("---"), doc(vec![paragraph("---")]));
}

#[test]
fn list_then_heading_then_fence() {
    let parsed = segment("- a\n# h\n```\nc\n```\n- b");
    assert_eq!(parsed, doc(vec![
        Block::List { items: vec![vec![text("a")]] },
        heading(1, "h"),
        code_block("", "c\n"),
        Block::List { items: vec![vec![text("b")]] },
    ]));
}

#[test]
fn every_text_line_is_a_paragraph() {
    assert_eq!(segment("one\ntwo"), doc(vec![paragraph("one"), paragraph("two")]));
}

#[test]
fn blank_lines_make_no_block() {
    assert_eq!(segment("\n\n"), doc(vec![]));
    assert_eq!(segment("  \t \n"), doc(vec![]));
    assert_eq!(segment("a\n\n \nb"), doc(vec![paragraph("a"), paragraph("b")]));
}

#[test]
fn quote_and_rule_lines_are_paragraphs() {
    assert_eq!(segment("> quoted"), doc(vec![paragraph("> quoted")]));
    assert_eq!(segment("***"), doc(vec![paragraph("***")]));
}

#[test]
fn carriage_returns_before_line_feeds_are_dropped() {
    assert_eq!(segment("# a\r\ntext\r\n"), doc(vec![heading(1, "a"), paragraph("text")]));
    assert_eq!(segment("```x\r\ny\r\n```\r\n"), doc(vec![code_block("x", "y\n")]));
}

#[test]
fn segment_is_the_same_on_every_call() {
    let source = "# t\n- a\n- b\n```x\ncode\n```\ntext *it* **b** `c` [l](u)\n";
    assert_eq!(segment(source), segment(source));
    assert_eq!(render(&segment(source)), render(&segment(source)));
}

#[test]
fn parser_fed_line_by_line_agrees_with_segment() {
    let source = "# t\n- a\n- b\n\n```x\ncode\n# in code\n```\ntext\n- c";
    let mut parser = MarkdownParser::new();
    for line in source.lines() {
        parser.feed_line(line);
    }
    assert_eq!(parser.finish(), segment(source));
}

#[test]
fn parser_without_lines_gives_empty_document() {
    assert_eq!(MarkdownParser::new().finish(), doc(vec![]));
}

#[test]
fn parser_closes_open_blocks_at_the_end() {
    let mut parser = MarkdownParser::new();
    parser.feed_line("- a");
    assert_eq!(parser.finish(), doc(vec![Block::List { items: vec![vec![text("a")]] }]));
    let mut parser = MarkdownParser::new();
    parser.feed_line("```q");
    parser.feed_line("r");
    assert_eq!(parser.finish(), doc(vec![code_block("q", "r\n")]));
}

#[test]
fn parser_chars_and_lines_agree() {
    let mut by_line = MarkdownParser::new();
    let mut by_chars = MarkdownParser::new();
    for line in ["## x", "- *a*", "p"] {
        by_line.feed_line(line);
        by_chars.feed_chars(&line.chars().collect::<Vec<char>>());
    }
    assert_eq!(by_line.finish(), by_chars.finish());
}

#[test]
fn markdown_accepts_md_paths_only() {
    assert!(Markdown::accepts("notes.md"));
    assert!(Markdown::accepts(".md"));
    assert!(Markdown::accepts("dir.d/a.b.md"));
    assert!(!Markdown::accepts("notes.txt"));
    assert!(!Markdown::accepts("md"));
    assert!(!Markdown::accepts("notes.md "));
    assert!(!Markdown::accepts("notes.MD"));
    assert!(!Markdown::accepts(""));
}

#[test]
fn markdown_new_keeps_contents() {
    let markdown = Markdown::new("a.md".to_string(), "# hi\n".to_string());
    assert_eq!(markdown.contents, "# hi\n");
}

#[test]
fn markdown_to_elements_is_segment() {
    let source = "# t\n```rust\nx\n```\n- a\n";
    let markdown = Markdown::new("a.md".to_string(), source.to_string());
    assert_eq!(markdown.to_elements(), segment(source));
}

#[test]
fn markdown_to_html_headers_and_code() {
    let markdown = Markdown { contents: "# Title\n```rust\nfn main() {}\n```\n###### six\n".to_string() };
    assert_eq!(
        markdown.to_html(),
        "<h1>Title</h1><pre><code class=\"language-rust\">fn main() {}\n</code></pre><h6>six</h6>"
    );
}

#[test]
fn markdown_to_html_is_the_same_on_every_call() {
    let markdown = Markdown { contents: "# a\n- b\n*c*\n".to_string() };
    assert_eq!(markdown.to_html(), markdown.to_html());
    assert_eq!(markdown.to_html(), render(&segment("# a\n- b\n*c*\n")));
}
