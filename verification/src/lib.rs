//! A compiler front end for a tiny subset of C: one function `int <name>(){ return <expr>; }`
//! whose expression is an integer literal under a chain of unary operators.
//!
//! Text is turned into tokens by [`lexing::lex`], tokens into a tree by
//! [`parsing::parse`], and a tree into assembly text by
//! [`parsing::node::Node::generate_assembly`].

pub mod language;
pub mod lexing;
pub mod parsing;
pub mod queue;
pub mod text;
