//! A Markdown document held as text, and its way to HTML.

use vstd::prelude::*;
use crate::block::{document_well_formed, segment_spec, Document};
use crate::parser::segment;
use crate::render::{render, render_blocks};
use crate::text::chars_of;

verus! {

/// The text of a Markdown document.
pub struct Markdown {
    pub contents: String,
}

/// Whether a path names a Markdown file: it ends with `.md`.
pub open spec fn is_markdown_path(path: Seq<char>) -> bool {
    &&& path.len() >= 3
    &&& path[path.len() - 3] == '.'
    &&& path[path.len() - 2] == 'm'
    &&& path[path.len() - 1] == 'd'
}

impl Markdown {
    /// Whether `path` names a Markdown file.
    pub fn accepts(path: &str) -> (b: bool)
        ensures
            b == is_markdown_path(path@),
    {
        let chars = chars_of(path);
        let n: usize = chars.len();
        n >= 3 && chars[n - 3] == '.' && chars[n - 2] == 'm' && chars[n - 1] == 'd'
    }

    /// The document with the given text, read from the Markdown file that
    /// `path` names.
    #[allow(unused_variables)]
    pub fn new(path: String, contents: String) -> (markdown: Markdown)
        requires
            is_markdown_path(path@),
        ensures
            markdown.contents == contents,
    {
        Markdown { contents }
    }

    /// The blocks of the document.
    pub fn to_elements(&self) -> (doc: Document)
        ensures
            doc@ == segment_spec(self.contents@),
            document_well_formed(doc@),
    {
        segment(self.contents.as_str())
    }

    /// The document as HTML. The result is a function of the text alone: the
    /// same text always gives the same HTML.
    pub fn to_html(&self) -> (html: String)
        ensures
            html@ == render_blocks(segment_spec(self.contents@)),
    {
        let doc = self.to_elements();
        render(&doc)
    }
}

} // verus!
