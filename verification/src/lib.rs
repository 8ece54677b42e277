//! A verified front end and intermediate representation for the `sao2` language.

pub mod analysis;
pub mod ast;
pub mod diagnostic;
pub mod driver;
pub mod escape;
pub mod grammar;
pub mod host_compiler;
pub mod ir;
pub mod lexer;
pub mod lowering;
pub mod parser;
pub mod program;
pub mod semantic;
pub mod source;
pub mod temporary_parser;
pub mod text;
