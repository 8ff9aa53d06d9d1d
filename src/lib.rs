//! A compiler and interpreter for the eight-symbol tape language.
//!
//! Source text goes through the [`lexer`], which collapses runs of repeated
//! symbols, then through the [`parser`], which resolves the jump targets of
//! loops. The resolved operations are either run by the [`interpreter`] or
//! turned into assembly text by the [`compiler`].
pub mod lexer;
pub mod parser;
pub mod interpreter;
pub mod compiler;
