//! A compiler for a component templating language: markup with embedded
//! script and style blocks and brace-delimited dynamic expressions, lowered
//! into a module of create / mount / destroy operations.
pub mod chars;
pub mod lex;
pub mod ast;
pub mod markup;
pub mod codegen;
pub mod diag;
pub mod doc;
pub mod compile;
