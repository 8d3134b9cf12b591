//! The classic `cp` front end: its grammar, parser and semantic analysis.
pub mod grammar;
pub mod parser;
pub mod sema;
pub mod lsp;
