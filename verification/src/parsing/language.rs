//! The programs of the language: their tokens, their trees and their assembly text.
//!
//! A program is `int <name>(){return <expression>;}`, and an expression is an integer
//! under a chain of unary operators. The parser accepts the tokens of every program and of
//! nothing else, and the code generator writes for every program what it is to compute.

use crate::lexing::token::{TokenKind, TokenView};
use crate::parsing::assembly::{
    assembly, assembly_of_first, function_header, load_constant, operator_code,
};
use crate::parsing::descent::{parsed, Outcome};
use crate::parsing::error::StructuralDefect;
use crate::parsing::meaning::{
    expression_outcome, function_outcome, is_unary, lemma_parsed_is_program_outcome,
    operator_tree, program_outcome, statement_outcome, takes,
};
use crate::parsing::node::{AstNodeKind, Label, Tree};
use crate::parsing::rule::grammar;
use vstd::prelude::*;

verus! {

/// Whether every one of `operators` is a unary operator.
pub open spec fn all_unary(operators: Seq<TokenKind>) -> bool {
    forall|i: int| 0 <= i < operators.len() ==> is_unary(#[trigger] operators[i])
}

/// The tokens of a chain of operators, in the order in which they are written.
pub open spec fn operator_tokens(operators: Seq<TokenKind>) -> Seq<TokenView> {
    operators.map_values(|kind: TokenKind| TokenView::plain(kind))
}

/// The tokens of an expression: the operators in the order in which they are written,
/// outermost first, and then the integer.
pub open spec fn expression_tokens(operators: Seq<TokenKind>, value: usize) -> Seq<TokenView> {
    operator_tokens(operators).push(TokenView::number(value))
}

/// The tokens of a program: `int <name>(){return <expression>;}`.
pub open spec fn program_tokens(
    name: Seq<char>,
    operators: Seq<TokenKind>,
    value: usize,
) -> Seq<TokenView> {
    seq![
        TokenView::plain(TokenKind::Int),
        TokenView::with_text(TokenKind::Identifier, name),
        TokenView::plain(TokenKind::OpenParen),
        TokenView::plain(TokenKind::CloseParen),
        TokenView::plain(TokenKind::OpenBrace),
        TokenView::plain(TokenKind::ReturnKeyword),
    ] + expression_tokens(operators, value) + seq![
        TokenView::plain(TokenKind::Semicolon),
        TokenView::plain(TokenKind::CloseBrace),
    ]
}

/// The tree of an expression: the integer, or the first operator beside the expression
/// that it is applied to, which holds the rest.
pub open spec fn expression_tree(operators: Seq<TokenKind>, value: usize) -> Tree
    decreases operators.len(),
{
    if operators.len() == 0 {
        Tree { label: Label::Exp, children: seq![Tree::leaf(Label::Int(value))] }
    } else {
        Tree {
            label: Label::Exp,
            children: seq![
                operator_tree(operators[0]),
                expression_tree(operators.skip(1), value),
            ],
        }
    }
}

/// The tree of a statement.
pub open spec fn statement_tree(operators: Seq<TokenKind>, value: usize) -> Tree {
    Tree { label: Label::Statement, children: seq![expression_tree(operators, value)] }
}

/// The tree of a function.
pub open spec fn function_tree(name: Seq<char>, operators: Seq<TokenKind>, value: usize) -> Tree {
    Tree {
        label: Label::Function,
        children: seq![Tree::leaf(Label::Name(name)), statement_tree(operators, value)],
    }
}

/// The tree of a program.
pub open spec fn program_tree(name: Seq<char>, operators: Seq<TokenKind>, value: usize) -> Tree {
    Tree { label: Label::Program, children: seq![function_tree(name, operators, value)] }
}

/// The instructions of a chain of unary operators: those of the last operator first,
/// which is the innermost, and those of the first operator last.
pub open spec fn chain_code(operators: Seq<TokenKind>) -> Seq<char>
    decreases operators.len(),
{
    if operators.len() == 0 {
        Seq::empty()
    } else {
        chain_code(operators.skip(1)) + operator_code(operators[0])->Ok_0
    }
}

/// The assembly text of a program.
pub open spec fn program_code(name: Seq<char>, operators: Seq<TokenKind>, value: usize) -> Seq<
    char,
> {
    function_header(name) + load_constant(value) + chain_code(operators) + "ret\n"@
}

/// What is left of a chain of unary operators without its first is a chain of unary
/// operators.
proof fn lemma_rest_unary(operators: Seq<TokenKind>)
    requires
        all_unary(operators),
        operators.len() > 0,
    ensures
        all_unary(operators.skip(1)),
        is_unary(operators[0]),
{
    assert forall|i: int| 0 <= i < operators.skip(1).len() implies is_unary(
        #[trigger] operators.skip(1)[i],
    ) by {
        assert(operators.skip(1)[i] == operators[i + 1]);
    }
}

/// The tokens of an expression parse into its tree: the operators nest from the first,
/// outermost, to the last, around the integer.
proof fn lemma_expression_parses(operators: Seq<TokenKind>, value: usize, rest: Seq<TokenView>)
    requires
        all_unary(operators),
    ensures
        expression_outcome(expression_tokens(operators, value) + rest) == (Outcome {
            result: Ok(expression_tree(operators, value)),
            rest,
        }),
    decreases operators.len(),
{
    let tokens = expression_tokens(operators, value) + rest;
    if operators.len() == 0 {
        assert(tokens[0] == TokenView::number(value));
        assert(tokens.skip(1) =~= rest);
    } else {
        lemma_rest_unary(operators);
        let inner = operators.skip(1);
        assert(tokens[0] == TokenView::plain(operators[0]));
        assert(tokens.skip(1) =~= expression_tokens(inner, value) + rest);
        lemma_expression_parses(inner, value, rest);
    }
}

/// Every program of the language parses, and into the tree of that program: one function
/// that holds its name and one statement, which holds the expression. The parse reads the
/// tokens of the program and leaves what comes after them.
pub proof fn lemma_parse_program(
    name: Seq<char>,
    operators: Seq<TokenKind>,
    value: usize,
    rest: Seq<TokenView>,
)
    requires
        all_unary(operators),
    ensures
        parsed(
            grammar(),
            Tree::leaf(Label::Program),
            program_tokens(name, operators, value) + rest,
        ) == (Outcome { result: Ok(program_tree(name, operators, value)), rest }),
{
    let tokens = program_tokens(name, operators, value) + rest;
    lemma_parsed_is_program_outcome(tokens);
    assert(tokens.skip(1)[0] == tokens[1]);
    assert(tokens.skip(2)[0] == tokens[2]);
    assert(tokens.skip(3)[0] == tokens[3]);
    assert(tokens.skip(4)[0] == tokens[4]);
    let end = seq![TokenView::plain(TokenKind::Semicolon), TokenView::plain(TokenKind::CloseBrace)]
        + rest;
    let body = tokens.skip(5);
    assert(body[0] == TokenView::plain(TokenKind::ReturnKeyword));
    assert(body.skip(1) =~= expression_tokens(operators, value) + end);
    lemma_expression_parses(operators, value, end);
    assert(end.skip(1).skip(1) =~= rest);
    assert(statement_outcome(body, Some(AstNodeKind::Function)) == Outcome {
        result: Ok(statement_tree(operators, value)),
        rest: end.skip(1),
    });
    assert(tokens[1].text() == name);
    assert(function_outcome(tokens, Some(AstNodeKind::Program)) == Outcome {
        result: Ok(function_tree(name, operators, value)),
        rest,
    });
}

/// How many unary operators the tokens begin with.
pub open spec fn leading_operators(tokens: Seq<TokenView>) -> nat
    decreases tokens.len(),
{
    if tokens.len() > 0 && is_unary(tokens[0].kind) {
        1 + leading_operators(tokens.skip(1))
    } else {
        0
    }
}

/// The kinds of the first `n` tokens.
pub open spec fn kinds_of(tokens: Seq<TokenView>, n: nat) -> Seq<TokenKind> {
    Seq::new(n, |i: int| tokens[i].kind)
}

/// Whether every token carries what a token of its kind carries.
pub open spec fn all_well_formed(tokens: Seq<TokenView>) -> bool {
    forall|i: int| 0 <= i < tokens.len() ==> (#[trigger] tokens[i]).well_formed()
}

/// Tokens that parse as an expression are the tokens of an expression: unary operators
/// and then an integer literal, before the tokens that are left.
proof fn lemma_expression_only(tokens: Seq<TokenView>)
    requires
        all_well_formed(tokens),
        expression_outcome(tokens).result is Ok,
    ensures
        ({
            let n = leading_operators(tokens);
            &&& n < tokens.len()
            &&& all_unary(kinds_of(tokens, n))
            &&& tokens == expression_tokens(kinds_of(tokens, n), tokens[n as int].value())
                + expression_outcome(tokens).rest
        }),
    decreases tokens.len(),
{
    let n = leading_operators(tokens);
    let rest = expression_outcome(tokens).rest;
    if takes(TokenKind::IntegerLiteral, tokens) {
        assert(tokens[0].well_formed());
        assert(kinds_of(tokens, 0) =~= Seq::<TokenKind>::empty());
        assert(tokens =~= expression_tokens(kinds_of(tokens, 0), tokens[0].value()) + rest);
    } else {
        let inner = tokens.skip(1);
        assert forall|i: int| 0 <= i < inner.len() implies (#[trigger] inner[i]).well_formed() by {
            assert(inner[i] == tokens[i + 1]);
        }
        lemma_expression_only(inner);
        let m = leading_operators(inner);
        assert(n == m + 1);
        assert(tokens[0].well_formed());
        assert(tokens[0] == TokenView::plain(tokens[0].kind));
        let kinds = kinds_of(tokens, n);
        assert(kinds.skip(1) =~= kinds_of(inner, m));
        assert forall|i: int| 0 <= i < kinds.len() implies is_unary(#[trigger] kinds[i]) by {
            if i > 0 {
                assert(kinds[i] == kinds_of(inner, m)[i - 1]);
            }
        }
        assert(tokens =~= seq![tokens[0]] + inner);
        assert(seq![tokens[0]] + (expression_tokens(kinds_of(inner, m), inner[m as int].value())
            + rest) =~= expression_tokens(kinds, tokens[n as int].value()) + rest);
    }
}

/// The parser accepts nothing but programs. Tokens that parse are the tokens of a
/// program of the language, before the tokens that are left: there are a name, a chain
/// of unary operators and an integer of which they are `int <name>(){return
/// <operators><integer>;}`.
pub proof fn lemma_parsed_only_programs(tokens: Seq<TokenView>)
    requires
        all_well_formed(tokens),
        parsed(grammar(), Tree::leaf(Label::Program), tokens).result is Ok,
    ensures
        exists|name: Seq<char>, operators: Seq<TokenKind>, value: usize|
            all_unary(operators) && tokens == #[trigger] program_tokens(name, operators, value)
                + parsed(grammar(), Tree::leaf(Label::Program), tokens).rest,
{
    lemma_parsed_is_program_outcome(tokens);
    let rest = program_outcome(tokens).rest;
    assert(tokens.skip(1)[0] == tokens[1]);
    assert(tokens.skip(2)[0] == tokens[2]);
    assert(tokens.skip(3)[0] == tokens[3]);
    assert(tokens.skip(4)[0] == tokens[4]);
    let body = tokens.skip(5);
    let expression = body.skip(1);
    assert forall|i: int| 0 <= i < expression.len() implies (#[trigger] expression[i]).well_formed() by {
        assert(expression[i] == tokens[i + 6]);
    }
    lemma_expression_only(expression);
    let count = leading_operators(expression);
    let n = count as int;
    let operators = kinds_of(expression, count);
    let value = expression[n].value();
    let name = tokens[1].text();
    let written = expression_tokens(operators, value);
    let end = expression_outcome(expression).rest;
    assert(expression == written + end);
    assert(written.len() == n + 1);
    assert(rest == end.skip(1).skip(1));
    // Token by token, from the first to those that are left.
    let front = seq![
        TokenView::plain(TokenKind::Int),
        TokenView::with_text(TokenKind::Identifier, name),
        TokenView::plain(TokenKind::OpenParen),
        TokenView::plain(TokenKind::CloseParen),
        TokenView::plain(TokenKind::OpenBrace),
        TokenView::plain(TokenKind::ReturnKeyword),
    ];
    let back = seq![TokenView::plain(TokenKind::Semicolon), TokenView::plain(TokenKind::CloseBrace)];
    assert(tokens[0].well_formed() && tokens[1].well_formed() && tokens[2].well_formed()
        && tokens[3].well_formed() && tokens[4].well_formed() && tokens[5].well_formed());
    assert(body[0] == tokens[5]);
    assert(tokens.take(6) =~= front);
    assert(end[0] == expression[n + 1]);
    assert(end.skip(1)[0] == expression[n + 2]);
    assert(expression[n + 1] == tokens[n + 7]);
    assert(expression[n + 2] == tokens[n + 8]);
    assert(tokens[n + 7].well_formed() && tokens[n + 8].well_formed());
    assert(end.take(2) =~= back);
    assert(end =~= end.take(2) + rest);
    assert(tokens =~= tokens.take(6) + expression);
    assert(tokens =~= front + written + back + rest);
    assert(front + written + back + rest =~= program_tokens(name, operators, value) + rest);
}

/// The assembly text of an expression: the load of its integer, and then the
/// instructions of its operators from the innermost, which is written last, to the
/// outermost, which is written first.
pub proof fn lemma_expression_code(operators: Seq<TokenKind>, value: usize)
    requires
        all_unary(operators),
    ensures
        assembly(expression_tree(operators, value)) == Ok::<Seq<char>, StructuralDefect>(
            load_constant(value) + chain_code(operators),
        ),
    decreases operators.len(),
{
    let tree = expression_tree(operators, value);
    if operators.len() == 0 {
        assert(load_constant(value) + chain_code(operators) =~= load_constant(value));
    } else {
        let kind = operators[0];
        let inner = operators.skip(1);
        lemma_rest_unary(operators);
        lemma_expression_code(inner, value);
        assert(tree.children.last() == expression_tree(inner, value));
        assert(assembly(tree.children[0]) == operator_code(kind));
        assert(assembly_of_first(tree.children, 0) == Ok::<Seq<char>, StructuralDefect>(
            Seq::empty(),
        ));
        assert(assembly_of_first(tree.children, 1) == Ok::<Seq<char>, StructuralDefect>(
            Seq::<char>::empty() + operator_code(kind)->Ok_0,
        ));
        assert(load_constant(value) + chain_code(inner) + (Seq::<char>::empty() + operator_code(
            kind,
        )->Ok_0) =~= load_constant(value) + chain_code(operators));
    }
}

/// The assembly text of a program: the declaration of its name and its label, the load
/// of its integer, the instructions of its operators from the innermost outwards, and
/// a return.
pub proof fn lemma_program_code(name: Seq<char>, operators: Seq<TokenKind>, value: usize)
    requires
        all_unary(operators),
    ensures
        assembly(program_tree(name, operators, value)) == Ok::<Seq<char>, StructuralDefect>(
            program_code(name, operators, value),
        ),
{
    lemma_expression_code(operators, value);
    let expression = load_constant(value) + chain_code(operators);
    let statement = statement_tree(operators, value);
    assert(assembly(statement) == Ok::<Seq<char>, StructuralDefect>(expression + "ret\n"@));
    let function = function_tree(name, operators, value);
    assert(assembly(function) == Ok::<Seq<char>, StructuralDefect>(
        function_header(name) + (expression + "ret\n"@),
    ));
    let program = program_tree(name, operators, value);
    assert(program.children[0] == function);
    assert(assembly_of_first(program.children, 0) == Ok::<Seq<char>, StructuralDefect>(
        Seq::empty(),
    ));
    assert(assembly_of_first(program.children, 1) == Ok::<Seq<char>, StructuralDefect>(
        Seq::<char>::empty() + (function_header(name) + (expression + "ret\n"@)),
    ));
    assert(Seq::<char>::empty() + (function_header(name) + (expression + "ret\n"@))
        =~= program_code(name, operators, value));
}

} // verus!
