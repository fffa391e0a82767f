use markdown_html::outline::{write_branch, write_leaf};
use markdown_html::{outline, segment, Block, Document, InlineNode};

#[test]
fn outline_of_empty_document() {
    assert_eq!(outline(&Document { blocks: vec![] }), "Document\n");
}

#[test]
fn outline_of_parsed_document() {
    let doc = segment("# T\n- a *b*\n- c\n```rs\nx \"q\"\n```\n[l](u) **s** `k`\n");
    let expected = "Document\n\
                    \x20 Heading 1\n\
                    \x20   Text: \"T\"\n\
                    \x20 List\n\
                    \x20   Item\n\
                    \x20     Text: \"a \"\n\
                    \x20     Italic: \"b\"\n\
                    \x20   Item\n\
                    \x20     Text: \"c\"\n\
                    \x20 CodeBlock: \"rs\" \"x \\\"q\\\"\\n\"\n\
                    \x20 Paragraph\n\
                    \x20   Link: \"l\" \"u\"\n\
                    \x20   Text: \" \"\n\
                    \x20   Bold: \"s\"\n\
                    \x20   Text: \" \"\n\
                    \x20   InlineCode: \"k\"\n";
    assert_eq!(outline(&doc), expected);
}

#[test]
fn outline_of_quote_and_rule() {
    let doc = Document {
        blocks: vec![
            Block::BlockQuote { text: "a\tb".to_string() },
            Block::HorizontalRule,
            Block::Heading { level: 12, inline_content: vec![] },
        ],
    };
    assert_eq!(
        outline(&doc),
        "Document\n  BlockQuote: \"a\\tb\"\n  HorizontalRule\n  Heading 12\n"
    );
}

#[test]
fn outline_quotes_text_like_debug() {
    let samples = ["", "plain", "with \"quotes\"", "back\\slash", "line\nfeed", "tab\t", "é\u{1F600}"];
    for s in samples {
        let doc = Document {
            blocks: vec![Block::Paragraph { inline_content: vec![InlineNode::Text(s.to_string())] }],
        };
        assert_eq!(outline(&doc), format!("Document\n  Paragraph\n    Text: {:?}\n", s));
    }
}

#[test]
fn write_branch_pads_and_ends_the_line() {
    let mut out = "x\n".to_string();
    write_branch(&mut out, 3, "Node");
    assert_eq!(out, "x\n   Node\n");
    write_branch(&mut out, 0, "");
    assert_eq!(out, "x\n   Node\n\n");
}

#[test]
fn write_leaf_pads_and_shows_the_text() {
    let mut out = String::new();
    write_leaf(&mut out, 2, "Text", "\"a\"");
    assert_eq!(out, "  Text: \"a\"\n");
    write_leaf(&mut out, 0, "K", "");
    assert_eq!(out, "  Text: \"a\"\nK: \n");
}
