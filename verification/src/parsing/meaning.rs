//! What the grammar of the language means: the parse of any tokens, said rule by rule,
//! without the table; and the proof that the descent through the table gives just that.

use crate::lexing::token::{TokenKind, TokenView};
use crate::parsing::descent::{descend, nesting, parsed, walk, Outcome, IDLE_DEPTH};
use crate::parsing::error::{Cause, ParseError};
use crate::parsing::node::{AstNodeKind, Label, Tree};
use crate::parsing::rule::{alternatives, consume, grammar, RuleType, Trie};
use crate::parsing::shape::{
    chain, lemma_expression_rules, lemma_single_rule, lemma_unary_rules,
};
use vstd::prelude::*;

verus! {

/// Whether `kind` is one of the three unary operators.
pub open spec fn is_unary(kind: TokenKind) -> bool {
    kind == TokenKind::Negation || kind == TokenKind::BitwiseComplement || kind
        == TokenKind::LogicalNegation
}

/// Whether the next token is of kind `expected`.
pub open spec fn takes(expected: TokenKind, tokens: Seq<TokenView>) -> bool {
    tokens.len() > 0 && tokens[0].kind == expected
}

/// Why the next token is not of kind `expected`.
pub open spec fn refusal(expected: TokenKind, tokens: Seq<TokenView>) -> Cause {
    if tokens.len() == 0 {
        Cause::EndOfInput { expected }
    } else {
        Cause::UnexpectedToken { expected, found: tokens[0].kind }
    }
}

/// The parse that fails at a node of kind `context` because the next token is not of
/// kind `expected`.
pub open spec fn refused(
    context: AstNodeKind,
    parent: Option<AstNodeKind>,
    expected: TokenKind,
    tokens: Seq<TokenView>,
) -> Outcome {
    Outcome {
        result: Err(ParseError { context, parent, cause: refusal(expected, tokens) }),
        rest: tokens,
    }
}

/// The tree of a unary operator.
pub open spec fn operator_tree(kind: TokenKind) -> Tree {
    Tree { label: Label::UnOp, children: seq![Tree::leaf(Label::Operator(kind))] }
}

/// A unary operator is one token: a negation, a bitwise complement or a logical negation.
/// Any other token is refused, as not being the last of the three.
pub open spec fn operator_outcome(tokens: Seq<TokenView>, parent: Option<AstNodeKind>) -> Outcome {
    if tokens.len() > 0 && is_unary(tokens[0].kind) {
        Outcome { result: Ok(operator_tree(tokens[0].kind)), rest: tokens.skip(1) }
    } else {
        refused(AstNodeKind::UnOp, parent, TokenKind::LogicalNegation, tokens)
    }
}

/// An expression is an integer literal, or a unary operator and then an expression. What
/// is neither is refused where the operator was due: an expression opens a unary operator
/// whenever it does not see an integer, so it is never the expression itself that fails.
pub open spec fn expression_outcome(tokens: Seq<TokenView>) -> Outcome
    decreases tokens.len(),
{
    if takes(TokenKind::IntegerLiteral, tokens) {
        Outcome {
            result: Ok(
                Tree { label: Label::Exp, children: seq![Tree::leaf(Label::Int(tokens[0].value()))] },
            ),
            rest: tokens.skip(1),
        }
    } else if tokens.len() > 0 && is_unary(tokens[0].kind) {
        let inner = expression_outcome(tokens.skip(1));
        match inner.result {
            Ok(operand) => Outcome {
                result: Ok(
                    Tree {
                        label: Label::Exp,
                        children: seq![operator_tree(tokens[0].kind), operand],
                    },
                ),
                rest: inner.rest,
            },
            Err(_) => inner,
        }
    } else {
        refused(AstNodeKind::UnOp, Some(AstNodeKind::Exp), TokenKind::LogicalNegation, tokens)
    }
}

/// A statement is `return`, an expression and a semicolon.
pub open spec fn statement_outcome(tokens: Seq<TokenView>, parent: Option<AstNodeKind>) -> Outcome {
    if !takes(TokenKind::ReturnKeyword, tokens) {
        refused(AstNodeKind::Statement, parent, TokenKind::ReturnKeyword, tokens)
    } else {
        let value = expression_outcome(tokens.skip(1));
        match value.result {
            Err(_) => value,
            Ok(expression) => if !takes(TokenKind::Semicolon, value.rest) {
                refused(AstNodeKind::Statement, parent, TokenKind::Semicolon, value.rest)
            } else {
                Outcome {
                    result: Ok(Tree { label: Label::Statement, children: seq![expression] }),
                    rest: value.rest.skip(1),
                }
            },
        }
    }
}

/// A function is `int`, an identifier, `(`, `)`, `{`, a statement and `}`. Its tree
/// holds the name that the identifier carries and the statement.
pub open spec fn function_outcome(tokens: Seq<TokenView>, parent: Option<AstNodeKind>) -> Outcome {
    let context = AstNodeKind::Function;
    if !takes(TokenKind::Int, tokens) {
        refused(context, parent, TokenKind::Int, tokens)
    } else if !takes(TokenKind::Identifier, tokens.skip(1)) {
        refused(context, parent, TokenKind::Identifier, tokens.skip(1))
    } else if !takes(TokenKind::OpenParen, tokens.skip(2)) {
        refused(context, parent, TokenKind::OpenParen, tokens.skip(2))
    } else if !takes(TokenKind::CloseParen, tokens.skip(3)) {
        refused(context, parent, TokenKind::CloseParen, tokens.skip(3))
    } else if !takes(TokenKind::OpenBrace, tokens.skip(4)) {
        refused(context, parent, TokenKind::OpenBrace, tokens.skip(4))
    } else {
        let body = statement_outcome(tokens.skip(5), Some(context));
        match body.result {
            Err(_) => body,
            Ok(statement) => if !takes(TokenKind::CloseBrace, body.rest) {
                refused(context, parent, TokenKind::CloseBrace, body.rest)
            } else {
                Outcome {
                    result: Ok(
                        Tree {
                            label: Label::Function,
                            children: seq![Tree::leaf(Label::Name(tokens[1].text())), statement],
                        },
                    ),
                    rest: body.rest.skip(1),
                }
            },
        }
    }
}

/// A program is a function. This is the parse of any tokens by the grammar of the
/// language: the tree of the program that they begin with and the tokens after it, or
/// the first token that no rule allows, with what was due in its place and the kind of
/// node that was being parsed.
pub open spec fn program_outcome(tokens: Seq<TokenView>) -> Outcome {
    let function = function_outcome(tokens, Some(AstNodeKind::Program));
    match function.result {
        Err(_) => function,
        Ok(tree) => Outcome {
            result: Ok(Tree { label: Label::Program, children: seq![tree] }),
            rest: function.rest,
        },
    }
}

/// The parse of what a symbol made, within the bounds that the walk gives it.
pub open spec fn nested(
    rules: Map<AstNodeKind, Trie>,
    child: Tree,
    tokens: Seq<TokenView>,
    context: AstNodeKind,
    parent: Option<AstNodeKind>,
    mark: nat,
    budget: nat,
) -> Outcome {
    match nesting(tokens.len(), mark, budget) {
        Some(bounds) => descend(rules, child, tokens, Some(context), bounds.mark, bounds.budget),
        None => Outcome {
            result: Err(ParseError { context, parent, cause: Cause::EndlessExpansion }),
            rest: tokens,
        },
    }
}

/// One step of the walk along a single alternative: the first symbol is tried, and the
/// walk goes on with the rest of the alternative or fails.
proof fn lemma_step(
    rules: Map<AstNodeKind, Trie>,
    node: Tree,
    tokens: Seq<TokenView>,
    path: Seq<RuleType>,
    parent: Option<AstNodeKind>,
    mark: nat,
    budget: nat,
)
    requires
        path.len() > 0,
    ensures
        walk(rules, node, tokens, chain(path), 0, None, parent, mark, budget) == ({
            let context = node.label.kind();
            let step = consume(path[0], tokens);
            match step.result {
                Err(cause) => Outcome {
                    result: Err(ParseError { context, parent, cause }),
                    rest: step.rest,
                },
                Ok(None) => walk(
                    rules,
                    node,
                    step.rest,
                    chain(path.skip(1)),
                    0,
                    None,
                    parent,
                    mark,
                    budget,
                ),
                Ok(Some(child)) => {
                    let below = nested(rules, child, step.rest, context, parent, mark, budget);
                    match below.result {
                        Err(_) => below,
                        Ok(tree) => walk(
                            rules,
                            node.with_child(tree),
                            below.rest,
                            chain(path.skip(1)),
                            0,
                            None,
                            parent,
                            mark,
                            budget,
                        ),
                    }
                },
            }
        }),
{
    let branches = chain(path);
    let step = consume(path[0], tokens);
    assert(branches[0].symbol == path[0]);
    assert(branches[0].children == chain(path.skip(1)));
    match step.result {
        Err(cause) => {
            assert(walk(rules, node, step.rest, branches, 1, Some(cause), parent, mark, budget)
                == Outcome {
                result: Err(ParseError { context: node.label.kind(), parent, cause }),
                rest: step.rest,
            });
        },
        _ => {},
    }
}

/// A walk along nothing is done.
proof fn lemma_end(
    rules: Map<AstNodeKind, Trie>,
    node: Tree,
    tokens: Seq<TokenView>,
    path: Seq<RuleType>,
    parent: Option<AstNodeKind>,
    mark: nat,
    budget: nat,
)
    requires
        path.len() == 0,
    ensures
        walk(rules, node, tokens, chain(path), 0, None, parent, mark, budget) == (Outcome {
            result: Ok(node),
            rest: tokens,
        }),
{
}

/// A leaf is done as it is: the leaf kinds have no rules.
proof fn lemma_leaf(
    label: Label,
    tokens: Seq<TokenView>,
    context: AstNodeKind,
    parent: Option<AstNodeKind>,
    mark: nat,
    budget: nat,
)
    requires
        label is Int || label is Name || label is Operator,
        tokens.len() < mark,
    ensures
        nested(grammar(), Tree::leaf(label), tokens, context, parent, mark, budget) == (Outcome {
            result: Ok(Tree::leaf(label)),
            rest: tokens,
        }),
{
}

/// The descent through the table parses a unary operator as the grammar says.
proof fn lemma_operator(
    tokens: Seq<TokenView>,
    parent: Option<AstNodeKind>,
    mark: nat,
    budget: nat,
)
    requires
        tokens.len() <= mark,
    ensures
        descend(grammar(), Tree::leaf(Label::UnOp), tokens, parent, mark, budget)
            == operator_outcome(tokens, parent),
{
    let rules = grammar();
    let node = Tree::leaf(Label::UnOp);
    lemma_unary_rules();
    let branches = rules[AstNodeKind::UnOp].children;
    let goal = operator_outcome(tokens, parent);
    let first = consume(branches[0].symbol, tokens);
    let second = consume(branches[1].symbol, tokens);
    let third = consume(branches[2].symbol, tokens);
    if tokens.len() > 0 && is_unary(tokens[0].kind) {
        let kind = tokens[0].kind;
        let rest = tokens.skip(1);
        let leaf = Tree::leaf(Label::Operator(kind));
        lemma_leaf(Label::Operator(kind), rest, AstNodeKind::UnOp, parent, mark, budget);
        assert(node.with_child(leaf).children =~= operator_tree(kind).children);
        assert forall|at: nat, last: Option<Cause>|
            at < 3 && branches[at as int].symbol == RuleType::Token(kind) implies #[trigger] walk(
            rules,
            node,
            tokens,
            branches,
            at,
            last,
            parent,
            mark,
            budget,
        ) == goal by {
            let step = consume(branches[at as int].symbol, tokens);
            assert(step.result == Ok::<Option<Tree>, Cause>(Some(leaf)));
            assert(walk(
                rules,
                node.with_child(leaf),
                rest,
                branches[at as int].children,
                0,
                None,
                parent,
                mark,
                budget,
            ) == goal);
        }
        if kind == TokenKind::Negation {
            assert(walk(rules, node, tokens, branches, 0, None, parent, mark, budget) == goal);
        } else if kind == TokenKind::BitwiseComplement {
            assert(walk(rules, node, tokens, branches, 1, Some(first.result->Err_0), parent, mark, budget)
                == goal);
        } else {
            assert(walk(rules, node, tokens, branches, 2, Some(second.result->Err_0), parent, mark, budget)
                == goal);
            assert(walk(rules, node, tokens, branches, 1, Some(first.result->Err_0), parent, mark, budget)
                == goal);
        }
    } else {
        assert(first.result is Err && first.rest == tokens);
        assert(second.result is Err && second.rest == tokens);
        assert(third.result == Err::<Option<Tree>, Cause>(
            refusal(TokenKind::LogicalNegation, tokens),
        ));
        assert(walk(rules, node, tokens, branches, 3, Some(third.result->Err_0), parent, mark, budget)
            == goal);
        assert(walk(rules, node, tokens, branches, 2, Some(second.result->Err_0), parent, mark, budget)
            == goal);
        assert(walk(rules, node, tokens, branches, 1, Some(first.result->Err_0), parent, mark, budget)
            == goal);
    }
}

/// The descent through the table parses an expression as the grammar says.
proof fn lemma_expression(
    tokens: Seq<TokenView>,
    parent: Option<AstNodeKind>,
    mark: nat,
    budget: nat,
)
    requires
        tokens.len() <= mark,
        budget >= 1,
    ensures
        descend(grammar(), Tree::leaf(Label::Exp), tokens, parent, mark, budget)
            == expression_outcome(tokens),
    decreases tokens.len(),
{
    let rules = grammar();
    let node = Tree::leaf(Label::Exp);
    lemma_expression_rules();
    let branches = rules[AstNodeKind::Exp].children;
    let goal = expression_outcome(tokens);
    let first = consume(branches[0].symbol, tokens);
    if takes(TokenKind::IntegerLiteral, tokens) {
        let leaf = Tree::leaf(Label::Int(tokens[0].value()));
        let rest = tokens.skip(1);
        lemma_leaf(Label::Int(tokens[0].value()), rest, AstNodeKind::Exp, parent, mark, budget);
        assert(first.result == Ok::<Option<Tree>, Cause>(Some(leaf)));
        assert(node.with_child(leaf).children =~= seq![leaf]);
        assert(walk(
            rules,
            node.with_child(leaf),
            rest,
            branches[0].children,
            0,
            None,
            parent,
            mark,
            budget,
        ) == goal);
    } else {
        assert(first.result is Err && first.rest == tokens);
        // The second branch opens a unary operator, whatever the next token is.
        let second = consume(branches[1].symbol, tokens);
        assert(second.result == Ok::<Option<Tree>, Cause>(Some(Tree::leaf(Label::UnOp))));
        assert(second.rest == tokens);
        lemma_operator(tokens, Some(AstNodeKind::Exp), mark, (budget - 1) as nat);
        lemma_operator(tokens, Some(AstNodeKind::Exp), tokens.len(), IDLE_DEPTH as nat);
        let operator = nested(
            rules,
            Tree::leaf(Label::UnOp),
            tokens,
            AstNodeKind::Exp,
            parent,
            mark,
            budget,
        );
        assert(operator == operator_outcome(tokens, Some(AstNodeKind::Exp)));
        if tokens.len() > 0 && is_unary(tokens[0].kind) {
            let kind = tokens[0].kind;
            let rest = tokens.skip(1);
            let with_operator = node.with_child(operator_tree(kind));
            let below = branches[1].children;
            let third = consume(below[0].symbol, rest);
            assert(third.result == Ok::<Option<Tree>, Cause>(Some(Tree::leaf(Label::Exp))));
            assert(third.rest == rest);
            lemma_expression(rest, Some(AstNodeKind::Exp), rest.len(), IDLE_DEPTH as nat);
            let inner = expression_outcome(rest);
            match inner.result {
                Ok(operand) => {
                    let whole = with_operator.with_child(operand);
                    assert(whole.children =~= seq![operator_tree(kind), operand]);
                    assert(walk(
                        rules,
                        whole,
                        inner.rest,
                        below[0].children,
                        0,
                        None,
                        parent,
                        mark,
                        budget,
                    ) == goal);
                },
                Err(_) => {},
            }
            assert(walk(rules, with_operator, rest, below, 0, None, parent, mark, budget) == goal);
        }
        assert(walk(rules, node, tokens, branches, 1, Some(first.result->Err_0), parent, mark, budget)
            == goal);
    }
}

/// The descent through the table parses a statement as the grammar says.
proof fn lemma_statement(
    tokens: Seq<TokenView>,
    parent: Option<AstNodeKind>,
    mark: nat,
    budget: nat,
)
    requires
        tokens.len() <= mark,
    ensures
        descend(grammar(), Tree::leaf(Label::Statement), tokens, parent, mark, budget)
            == statement_outcome(tokens, parent),
{
    let rules = grammar();
    let node = Tree::leaf(Label::Statement);
    lemma_single_rule(AstNodeKind::Statement);
    let path = alternatives(AstNodeKind::Statement)[0];
    let path1 = path.skip(1);
    let path2 = path1.skip(1);
    let path3 = path2.skip(1);
    lemma_step(rules, node, tokens, path, parent, mark, budget);
    if takes(TokenKind::ReturnKeyword, tokens) {
        let left1 = tokens.skip(1);
        lemma_step(rules, node, left1, path1, parent, mark, budget);
        lemma_expression(left1, Some(AstNodeKind::Statement), left1.len(), IDLE_DEPTH as nat);
        let value = expression_outcome(left1);
        lemma_expression_shrinks(left1);
        match value.result {
            Ok(expression) => {
                let full = node.with_child(expression);
                assert(full.children =~= seq![expression]);
                lemma_step(rules, full, value.rest, path2, parent, mark, budget);
                if takes(TokenKind::Semicolon, value.rest) {
                    lemma_end(rules, full, value.rest.skip(1), path3, parent, mark, budget);
                }
            },
            Err(_) => {},
        }
    }
}

/// An expression hands back no more tokens than it was given.
proof fn lemma_expression_shrinks(tokens: Seq<TokenView>)
    ensures
        expression_outcome(tokens).rest.len() <= tokens.len(),
        expression_outcome(tokens).result is Ok ==> expression_outcome(tokens).rest.len()
            < tokens.len(),
    decreases tokens.len(),
{
    if !takes(TokenKind::IntegerLiteral, tokens) && tokens.len() > 0 && is_unary(tokens[0].kind) {
        lemma_expression_shrinks(tokens.skip(1));
    }
}

/// A symbol for a token that only holds a program together takes the token, if it is
/// the next, and makes nothing of it.
proof fn lemma_plain_step(
    rules: Map<AstNodeKind, Trie>,
    node: Tree,
    tokens: Seq<TokenView>,
    path: Seq<RuleType>,
    kind: TokenKind,
    parent: Option<AstNodeKind>,
    mark: nat,
    budget: nat,
)
    requires
        path.len() > 0,
        path[0] == RuleType::Token(kind),
        kind == TokenKind::Int || kind == TokenKind::OpenParen || kind == TokenKind::CloseParen
            || kind == TokenKind::OpenBrace || kind == TokenKind::CloseBrace || kind
            == TokenKind::ReturnKeyword || kind == TokenKind::Semicolon,
    ensures
        walk(rules, node, tokens, chain(path), 0, None, parent, mark, budget) == if takes(
            kind,
            tokens,
        ) {
            walk(rules, node, tokens.skip(1), chain(path.skip(1)), 0, None, parent, mark, budget)
        } else {
            refused(node.label.kind(), parent, kind, tokens)
        },
{
    lemma_step(rules, node, tokens, path, parent, mark, budget);
}

/// The descent through the table parses the end of a function as the grammar says: the
/// statement and the closing brace.
proof fn lemma_function_body(
    named: Tree,
    tokens: Seq<TokenView>,
    parent: Option<AstNodeKind>,
    mark: nat,
    budget: nat,
)
    requires
        tokens.len() < mark,
        named.label == Label::Function,
    ensures
        walk(
            grammar(),
            named,
            tokens,
            chain(alternatives(AstNodeKind::Function)[0].skip(5)),
            0,
            None,
            parent,
            mark,
            budget,
        ) == ({
            let body = statement_outcome(tokens, Some(AstNodeKind::Function));
            match body.result {
                Err(_) => body,
                Ok(statement) => if !takes(TokenKind::CloseBrace, body.rest) {
                    refused(AstNodeKind::Function, parent, TokenKind::CloseBrace, body.rest)
                } else {
                    Outcome { result: Ok(named.with_child(statement)), rest: body.rest.skip(1) }
                },
            }
        }),
{
    let rules = grammar();
    let path = alternatives(AstNodeKind::Function)[0];
    let path5 = path.skip(5);
    let path6 = path5.skip(1);
    let path7 = path6.skip(1);
    assert(path5[0] == RuleType::Node(AstNodeKind::Statement));
    assert(path6[0] == RuleType::Token(TokenKind::CloseBrace));
    lemma_step(rules, named, tokens, path5, parent, mark, budget);
    lemma_statement(tokens, Some(AstNodeKind::Function), tokens.len(), IDLE_DEPTH as nat);
    let body = statement_outcome(tokens, Some(AstNodeKind::Function));
    match body.result {
        Ok(statement) => {
            let full = named.with_child(statement);
            lemma_plain_step(
                rules,
                full,
                body.rest,
                path6,
                TokenKind::CloseBrace,
                parent,
                mark,
                budget,
            );
            lemma_end(rules, full, body.rest.skip(1), path7, parent, mark, budget);
        },
        Err(_) => {},
    }
}

/// The descent through the table parses a function as the grammar says.
proof fn lemma_function(
    tokens: Seq<TokenView>,
    parent: Option<AstNodeKind>,
    mark: nat,
    budget: nat,
)
    requires
        tokens.len() <= mark,
    ensures
        descend(grammar(), Tree::leaf(Label::Function), tokens, parent, mark, budget)
            == function_outcome(tokens, parent),
{
    let rules = grammar();
    let node = Tree::leaf(Label::Function);
    lemma_single_rule(AstNodeKind::Function);
    let path = alternatives(AstNodeKind::Function)[0];
    let path1 = path.skip(1);
    let path2 = path1.skip(1);
    let path3 = path2.skip(1);
    let path4 = path3.skip(1);
    let path5 = path4.skip(1);
    assert(path5 =~= path.skip(5));
    let left1 = tokens.skip(1);
    let left2 = left1.skip(1);
    let left3 = left2.skip(1);
    let left4 = left3.skip(1);
    let left5 = left4.skip(1);
    lemma_plain_step(rules, node, tokens, path, TokenKind::Int, parent, mark, budget);
    if takes(TokenKind::Int, tokens) {
        lemma_step(rules, node, left1, path1, parent, mark, budget);
        if takes(TokenKind::Identifier, left1) {
            let name = Label::Name(tokens[1].text());
            let named = node.with_child(Tree::leaf(name));
            assert(named.children =~= seq![Tree::leaf(name)]);
            assert(tokens.skip(2) =~= left2);
            lemma_leaf(name, left2, AstNodeKind::Function, parent, mark, budget);
            lemma_plain_step(rules, named, left2, path2, TokenKind::OpenParen, parent, mark, budget);
            if takes(TokenKind::OpenParen, left2) {
                assert(tokens.skip(3) =~= left3);
                lemma_plain_step(rules, named, left3, path3, TokenKind::CloseParen, parent, mark, budget);
                if takes(TokenKind::CloseParen, left3) {
                    assert(tokens.skip(4) =~= left4);
                    lemma_plain_step(
                        rules,
                        named,
                        left4,
                        path4,
                        TokenKind::OpenBrace,
                        parent,
                        mark,
                        budget,
                    );
                    if takes(TokenKind::OpenBrace, left4) {
                        assert(tokens.skip(5) =~= left5);
                        lemma_function_body(named, left5, parent, mark, budget);
                        let body = statement_outcome(left5, Some(AstNodeKind::Function));
                        if body.result is Ok {
                            assert(named.with_child(body.result->Ok_0).children =~= seq![
                                Tree::leaf(name),
                                body.result->Ok_0,
                            ]);
                        }
                    }
                }
            }
        }
    }
}

/// The descent through the grammar table gives what the grammar means. Whatever the
/// tokens, the parse of a program by the table is the parse that the rules of the
/// language describe one by one: the same tree and the same tokens left, or the same
/// error at the same token. The bound on nesting never comes into it.
pub proof fn lemma_parsed_is_program_outcome(tokens: Seq<TokenView>)
    ensures
        parsed(grammar(), Tree::leaf(Label::Program), tokens) == program_outcome(tokens),
{
    let rules = grammar();
    let node = Tree::leaf(Label::Program);
    let mark = tokens.len();
    let budget = IDLE_DEPTH as nat;
    lemma_single_rule(AstNodeKind::Program);
    let path = alternatives(AstNodeKind::Program)[0];
    lemma_step(rules, node, tokens, path, None, mark, budget);
    lemma_function(tokens, Some(AstNodeKind::Program), mark, (budget - 1) as nat);
    let function = function_outcome(tokens, Some(AstNodeKind::Program));
    match function.result {
        Ok(tree) => {
            let full = node.with_child(tree);
            assert(full.children =~= seq![tree]);
            lemma_end(rules, full, function.rest, path.skip(1), None, mark, budget);
        },
        Err(_) => {},
    }
}

/// An expression fails in one way only: where an integer or a unary operator was due,
/// another token stands, or none. The error names the unary operator as the node that
/// failed, the expression as the node that it was parsed for, and the token that stands
/// there; and that token is the first of the tokens that are left.
pub proof fn lemma_expression_failure(tokens: Seq<TokenView>)
    requires
        expression_outcome(tokens).result is Err,
    ensures
        expression_outcome(tokens) == refused(
            AstNodeKind::UnOp,
            Some(AstNodeKind::Exp),
            TokenKind::LogicalNegation,
            expression_outcome(tokens).rest,
        ),
        !takes(TokenKind::IntegerLiteral, expression_outcome(tokens).rest),
        expression_outcome(tokens).rest.len() > 0 ==> !is_unary(
            expression_outcome(tokens).rest[0].kind,
        ),
    decreases tokens.len(),
{
    if !takes(TokenKind::IntegerLiteral, tokens) && tokens.len() > 0 && is_unary(tokens[0].kind) {
        lemma_expression_failure(tokens.skip(1));
    }
}

} // verus!
