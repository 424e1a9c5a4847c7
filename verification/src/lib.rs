//! A verified parser for a small Markdown dialect and a renderer of its
//! syntax tree to HTML.
//!
//! The parser recognises headings, plain sentences, nestable inline emphasis
//! (bold, italic, underline, strikethrough) and pipe-delimited tables with
//! alignment markers.  Every grammar rule is a pure function of its input and
//! its behaviour is pinned down by a matching specification function over
//! sequences of characters.

pub mod ast;
pub mod block;
pub mod cursor;
pub mod inline;
pub mod laws;
pub mod render;
pub mod segment;
pub mod table;
pub mod text;

pub use ast::Align;
pub use ast::List;
pub use ast::Md;
pub use ast::ParsedResult;
pub use ast::Record;
pub use ast::Table;
pub use ast::Word;
pub use ast::Words;
