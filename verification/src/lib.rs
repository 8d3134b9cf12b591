pub mod span;
pub mod text;
pub mod lexer;
pub mod ast;
pub mod grammar;
pub mod parser;
pub mod sema;
pub mod dcp;
pub mod lsp;
pub mod resolver;
pub mod round_trip;
pub mod classic;

pub use span::Span;
pub use lexer::{Lexer, Token};
