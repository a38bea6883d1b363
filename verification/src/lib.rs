//! A small JSON engine: a lexer from bytes to tokens and a recursive-descent
//! parser from tokens to a document tree, with contracts over mathematical
//! models of both stages.

pub mod ascii;
pub mod boundaries;
pub mod coercion;
pub mod document;
pub mod generator;
pub mod grammar;
pub mod layout;
pub mod lexer;
pub mod number;
pub mod parser;
pub mod profiler;
pub mod render;
pub mod round_trip;
pub mod text;
pub mod token;
pub mod value;
pub mod writable;
