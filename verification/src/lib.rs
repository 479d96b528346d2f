//! A compact, indentation-sensitive markup shorthand that compiles to HTML.

pub mod ancestry;
mod builder;
pub mod document;
pub mod document_type;
pub mod dtd;
pub mod grammar;
pub mod nesting;
pub mod parser;
mod recognizer;
pub mod renderer;
pub mod text;
