//! An HTML parsing pipeline: a byte cursor feeds a lexical tokenizer, whose
//! tokens drive an insertion-mode tree parser that builds a DOM tree inside
//! an arena of stable integer handles.

pub mod arena;
pub mod ascii;
pub mod dom;
pub mod domtree;
pub mod html;
pub mod parser;
pub mod scanner;
pub mod stream;
pub mod tokenizer;
pub mod tokens;
