//! A small Markdown dialect, parsed into a document tree and rendered as HTML.
//!
//! A document goes through two stages. [`segment`] sorts its lines into blocks
//! (headings, paragraphs, lists and fenced code blocks) and calls [`scan`] on
//! the text of each heading, paragraph and list item to find the spans in it
//! (inline code, strong emphasis, emphasis and links). [`render`] then writes
//! the tree as HTML, and [`outline`] writes it as an indented list of its
//! nodes.
//!
//! Nothing here fails: text that is no markup is kept as text.
//!
//! - [`text`]: characters, searching and white space;
//! - [`lines`]: the lines of a text;
//! - [`inline`]: inline nodes and the scanner;
//! - [`block`]: blocks, documents and the rules that sort lines into blocks;
//! - [`parser`]: the parser that takes a document line by line;
//! - [`render`]: the HTML of a tree;
//! - [`outline`]: the outline of a tree;
//! - [`markdown`]: a document held as text;
//! - [`laws`]: what holds of every document of a given shape.

pub mod block;
pub mod inline;
pub mod laws;
pub mod lines;
pub mod markdown;
pub mod outline;
pub mod parser;
pub mod render;
pub mod text;

pub use block::{Block, Document};
pub use inline::{scan, InlineNode};
pub use markdown::Markdown;
pub use outline::outline;
pub use parser::{segment, MarkdownParser};
pub use render::render;
