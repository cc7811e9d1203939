//! A verified front-end pipeline for a toy expression language: source text
//! is scanned into a token stream, the tokens are reduced to parse-tree
//! nodes, and the nodes are lowered to a structurally parallel intermediate
//! representation. Each stage is a pure function with a contract that pins
//! its result to a mathematical model of the stage.

pub mod ast;
pub mod cursor;
pub mod ir;
pub mod lexer;
pub mod parser;
