//! What can go wrong between tokens and assembly text.

use crate::lexing::token::TokenKind;
use crate::parsing::node::AstNodeKind;
use vstd::prelude::*;
use vstd::string::StringExecFns;

verus! {

/// Why a grammar symbol did not take the next token.
#[derive(Debug, Clone, Copy, PartialEq, Eq)]
pub enum Cause {
    /// The tokens ran out where one of kind `expected` was due.
    EndOfInput { expected: TokenKind },
    /// A token of kind `expected` was due, and one of kind `found` came.
    UnexpectedToken { expected: TokenKind, found: TokenKind },
    /// An error token met a rule that asks for error tokens. The token is gone.
    ErrorToken,
    /// The rules expand kinds within one another, more deeply than there are kinds,
    /// without reading a token: followed further, they would never stop.
    EndlessExpansion,
}

/// A failed parse: at a node of kind `context`, none of the symbols that the rules allow
/// next took the next token. `cause` is what the last of them met. `parent` is the kind of
/// the node below which that node was being parsed, if there is one.
#[derive(Debug, Clone, Copy, PartialEq, Eq)]
pub struct ParseError {
    pub context: AstNodeKind,
    pub parent: Option<AstNodeKind>,
    pub cause: Cause,
}

/// A tree of a shape that the grammar rules out has reached code generation.
/// This is a defect of the program around the tree, not of the text that was compiled.
#[derive(Debug, Clone, Copy, PartialEq, Eq, Structural)]
pub enum StructuralDefect {
    /// A node of this kind lacks a child that code generation reads, or holds another kind
    /// of child in its place.
    MalformedNode(AstNodeKind),
    /// An operator leaf holds a kind that is no unary operator.
    UnknownOperator(TokenKind),
}

impl Cause {
    /// What a message says of this cause.
    pub open spec fn message_text(self) -> Seq<char> {
        match self {
            Cause::EndOfInput { expected } => "The queue is empty: expected "@
                + expected.name_text(),
            Cause::UnexpectedToken { expected, found } => "Incorrect token received:\n  Expected: "@
                + expected.name_text() + "\n  Found:    "@ + found.name_text(),
            Cause::ErrorToken => "Trying to parse an error token"@,
            Cause::EndlessExpansion => "The rules expand without reading a token"@,
        }
    }

    /// Says in words why a symbol did not take the next token.
    pub fn message(&self) -> (r: String)
        ensures
            r@ == self.message_text(),
    {
        match self {
            Cause::EndOfInput { expected } => {
                let mut out = String::from_str("The queue is empty: expected ");
                out.append(expected.name());
                out
            },
            Cause::UnexpectedToken { expected, found } => {
                let mut out = String::from_str("Incorrect token received:\n  Expected: ");
                out.append(expected.name());
                out.append("\n  Found:    ");
                out.append(found.name());
                out
            },
            Cause::ErrorToken => String::from_str("Trying to parse an error token"),
            Cause::EndlessExpansion => String::from_str(
                "The rules expand without reading a token",
            ),
        }
    }
}

impl ParseError {
    /// What a message says of where the parse failed: the kind of node, and the kind of
    /// node that it was parsed for, if there is one.
    pub open spec fn place_text(self) -> Seq<char> {
        match self.parent {
            Some(parent) => self.context.name_text() + " in "@ + parent.name_text(),
            None => self.context.name_text(),
        }
    }

    /// What a message says of this error: where the parse failed, and below it why.
    pub open spec fn message_text(self) -> Seq<char> {
        "Parsing failed at branch "@ + self.place_text() + "\n"@ + self.cause.message_text()
    }

    /// Says in words where and why the parse failed.
    pub fn message(&self) -> (r: String)
        ensures
            r@ == self.message_text(),
    {
        let mut out = String::from_str("Parsing failed at branch ");
        out.append(self.context.name());
        match self.parent {
            Some(parent) => {
                out.append(" in ");
                out.append(parent.name());
            },
            None => {},
        }
        out.append("\n");
        out.append(self.cause.message().as_str());
        assert(out@ =~= self.message_text());
        out
    }
}

impl StructuralDefect {
    /// What a message says of this defect.
    pub open spec fn message_text(self) -> Seq<char> {
        match self {
            StructuralDefect::MalformedNode(kind) => "Incorrect children in node "@
                + kind.name_text(),
            StructuralDefect::UnknownOperator(kind) => "Incorrect token in Operator field: "@
                + kind.name_text(),
        }
    }

    /// Says in words what is wrong with the tree.
    pub fn message(&self) -> (r: String)
        ensures
            r@ == self.message_text(),
    {
        match self {
            StructuralDefect::MalformedNode(kind) => {
                let mut out = String::from_str("Incorrect children in node ");
                out.append(kind.name());
                out
            },
            StructuralDefect::UnknownOperator(kind) => {
                let mut out = String::from_str("Incorrect token in Operator field: ");
                out.append(kind.name());
                out
            },
        }
    }
}

} // verus!
