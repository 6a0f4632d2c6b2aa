//! A compiler from LOLCODE Markdown to HTML: a lexer that turns source text
//! into annotation and text tokens, and a recursive-descent parser that checks
//! the document structure, resolves variables and emits HTML.
use vstd::prelude::*;

pub mod text;
pub mod lexer;
pub mod compiler;
pub mod laws;
pub mod markup_laws;
pub mod cleanup_laws;
pub mod comment_laws;
pub mod line_laws;

pub use compiler::{Compiler, LolcodeCompiler};
pub use lexer::SimpleLexicalAnalyzer;

verus! {
} // verus!
