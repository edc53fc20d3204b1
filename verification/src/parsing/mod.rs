//! From tokens to a tree, and from a tree to assembly text.
//!
//! The parser is a recursive descent that the grammar table drives. It looks one token
//! ahead and never goes back: of the symbols that may come next it takes the first that
//! accepts the next token, and from then on only the alternatives that begin that way
//! are left.

pub mod assembly;
pub mod descent;
pub mod error;
pub mod language;
pub mod meaning;
pub mod node;
pub mod prefix;
pub mod rule;
pub mod shape;
pub mod show;

use crate::lexing::token::{Token, TokenView};
use crate::parsing::error::ParseError;
use crate::parsing::descent::{outcome, parsed};
use crate::parsing::meaning::{lemma_parsed_is_program_outcome, program_outcome};
use crate::parsing::node::{AstNode, Node, Tree};
use crate::parsing::rule::{ast_rules, Rules};
use crate::queue::token_views;
use queues::Queue;
use vstd::prelude::*;

verus! {

/// Parses the tokens of a program by the grammar of the language: the tree of the program
/// that the tokens begin with, or the first token that no rule allows. The tokens that
/// were read are gone from the queue.
pub fn parse(tokens: &mut Queue<Token>) -> (r: Result<Node, ParseError>)
    ensures
        outcome(r, *final(tokens)) == program_outcome(token_views(*old(tokens))),
{
    let rules = ast_rules();
    let program = Node::new(AstNode::Program);
    proof {
        lemma_parsed_is_program_outcome(token_views(*tokens));
    }
    program.parse(tokens, &rules)
}

/// Parsing has no hidden state: it is a function of the rules, the node and the tokens.
/// Two parses of the same tokens by the same rules end alike: both give a tree, and the
/// same one, node for node and leaf for leaf, or both fail, and with the same error; and
/// both leave the same tokens.
pub proof fn lemma_parse_is_deterministic(
    rules: Rules,
    node: Tree,
    tokens: Seq<TokenView>,
    first: Result<Node, ParseError>,
    first_left: Queue<Token>,
    second: Result<Node, ParseError>,
    second_left: Queue<Token>,
)
    requires
        outcome(first, first_left) == parsed(rules@, node, tokens),
        outcome(second, second_left) == parsed(rules@, node, tokens),
    ensures
        match (first, second) {
            (Ok(one), Ok(other)) => one@ == other@,
            (Err(one), Err(other)) => one == other,
            _ => false,
        },
        token_views(first_left) == token_views(second_left),
{
}

} // verus!
