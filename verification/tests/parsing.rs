use minic::lexing::lex;
use minic::lexing::token::{Token, TokenKind};
use minic::parsing::error::{Cause, ParseError};
use minic::parsing::node::{AstNode, AstNodeKind, Node};
use minic::parsing::parse;
use minic::parsing::rule::{ast_rules, build_tree, consume_token, RuleTree, RuleType, Rules};
use queues::{IsQueue, Queue};

fn queue_of(tokens: Vec<Token>) -> Queue<Token> {
    let mut queue = Queue::new();
    for token in tokens {
        queue.add(token).unwrap();
    }
    queue
}

fn node(kind: AstNode, children: Vec<Node>) -> Node {
    Node { kind, children }
}

fn leaf(kind: AstNode) -> Node {
    node(kind, vec![])
}

fn name_leaf(text: &str) -> Node {
    leaf(AstNode::String(text.to_string()))
}

fn constant(value: usize) -> Node {
    node(AstNode::Exp, vec![leaf(AstNode::Int(value))])
}

fn unary(operator: TokenKind, operand: Node) -> Node {
    node(
        AstNode::Exp,
        vec![node(AstNode::UnOp, vec![leaf(AstNode::Operator(operator))]), operand],
    )
}

fn program(name: &str, value: Node) -> Node {
    node(
        AstNode::Program,
        vec![node(
            AstNode::Function,
            vec![name_leaf(name), node(AstNode::Statement, vec![value])],
        )],
    )
}

fn rule_tree(ruletype: RuleType, children: Vec<RuleTree>) -> RuleTree {
    RuleTree { ruletype, children }
}

fn terminal(kind: TokenKind) -> RuleType {
    RuleType::Token(kind)
}

fn nonterminal(kind: AstNodeKind) -> RuleType {
    RuleType::Node(kind)
}

fn chain(symbols: &[RuleType]) -> Vec<RuleTree> {
    match symbols.split_first() {
        None => vec![],
        Some((first, rest)) => vec![rule_tree(*first, chain(rest))],
    }
}

#[test]
fn parses_the_smallest_program() {
    let mut tokens = lex("int main(){return 2;}");
    assert_eq!(parse(&mut tokens), Ok(program("main", constant(2))));
    assert_eq!(tokens.size(), 0);
}

#[test]
fn parses_a_chain_of_unary_operators_into_nested_expressions() {
    let mut tokens = lex("int f(){return !-~5;}");
    let expected = program(
        "f",
        unary(
            TokenKind::LogicalNegation,
            unary(TokenKind::Negation, unary(TokenKind::BitwiseComplement, constant(5))),
        ),
    );
    assert_eq!(parse(&mut tokens), Ok(expected));
}

#[test]
fn parsing_the_same_tokens_twice_gives_the_same_tree() {
    let source = "int main(){return -~!-7;}";
    let mut first = lex(source);
    let mut second = lex(source);
    let one = parse(&mut first);
    let other = parse(&mut second);
    assert!(one.is_ok());
    assert_eq!(one, other);
    assert_eq!(first.size(), second.size());
}

#[test]
fn parsing_the_same_bad_tokens_twice_gives_the_same_error() {
    let source = "int main(){return -~;}";
    let mut first = lex(source);
    let mut second = lex(source);
    let one = parse(&mut first);
    let other = parse(&mut second);
    assert!(one.is_err());
    assert_eq!(one, other);
    assert_eq!(first.size(), second.size());
}

#[test]
fn a_missing_expression_fails_within_the_expression() {
    let mut tokens = lex("int main(){return;}");
    assert_eq!(
        parse(&mut tokens),
        Err(ParseError {
            context: AstNodeKind::UnOp,
            parent: Some(AstNodeKind::Exp),
            cause: Cause::UnexpectedToken {
                expected: TokenKind::LogicalNegation,
                found: TokenKind::Semicolon,
            },
        })
    );
}

#[test]
fn a_missing_expression_is_reported_with_the_expression_it_is_missing_from() {
    let mut tokens = lex("int main(){return;}");
    let error = parse(&mut tokens).unwrap_err();
    assert_eq!(error.parent, Some(AstNodeKind::Exp));
    assert!(error.message().starts_with("Parsing failed at branch UnOp in Exp\n"));
}

#[test]
fn a_failed_parse_keeps_the_tokens_that_it_did_not_read() {
    let mut tokens = lex("int main(){return;}");
    assert!(parse(&mut tokens).is_err());
    assert_eq!(tokens.size(), 2);
    assert_eq!(tokens.remove(), Ok(Token::Semicolon));
    assert_eq!(tokens.remove(), Ok(Token::CloseBrace));
}

#[test]
fn tokens_after_the_program_stay_in_the_queue() {
    let mut tokens = lex("int main(){return 0;} int x");
    assert_eq!(parse(&mut tokens), Ok(program("main", constant(0))));
    assert_eq!(tokens.size(), 2);
    assert_eq!(tokens.peek(), Ok(Token::Int));
}

#[test]
fn no_tokens_fail_at_the_first_symbol_of_a_function() {
    let mut tokens = lex("");
    assert_eq!(
        parse(&mut tokens),
        Err(ParseError {
            context: AstNodeKind::Function,
            parent: Some(AstNodeKind::Program),
            cause: Cause::EndOfInput { expected: TokenKind::Int },
        })
    );
}

#[test]
fn tokens_that_end_early_fail_where_they_end() {
    let mut tokens = lex("int main(){return 1;");
    assert_eq!(
        parse(&mut tokens),
        Err(ParseError {
            context: AstNodeKind::Function,
            parent: Some(AstNodeKind::Program),
            cause: Cause::EndOfInput { expected: TokenKind::CloseBrace },
        })
    );
    let mut tokens = lex("int main(){return -");
    assert_eq!(
        parse(&mut tokens),
        Err(ParseError {
            context: AstNodeKind::UnOp,
            parent: Some(AstNodeKind::Exp),
            cause: Cause::EndOfInput { expected: TokenKind::LogicalNegation },
        })
    );
}

#[test]
fn a_wrong_token_fails_at_the_node_that_asked() {
    let mut tokens = lex("int main(){return 1}");
    assert_eq!(
        parse(&mut tokens),
        Err(ParseError {
            context: AstNodeKind::Statement,
            parent: Some(AstNodeKind::Function),
            cause: Cause::UnexpectedToken {
                expected: TokenKind::Semicolon,
                found: TokenKind::CloseBrace,
            },
        })
    );
    let mut tokens = lex("return 1;");
    assert_eq!(
        parse(&mut tokens),
        Err(ParseError {
            context: AstNodeKind::Function,
            parent: Some(AstNodeKind::Program),
            cause: Cause::UnexpectedToken {
                expected: TokenKind::Int,
                found: TokenKind::ReturnKeyword,
            },
        })
    );
    assert_eq!(tokens.size(), 3);
}

#[test]
fn an_error_token_is_refused_as_a_wrong_token() {
    let mut tokens = lex("int main(){return $;}");
    assert_eq!(
        parse(&mut tokens),
        Err(ParseError {
            context: AstNodeKind::UnOp,
            parent: Some(AstNodeKind::Exp),
            cause: Cause::UnexpectedToken {
                expected: TokenKind::LogicalNegation,
                found: TokenKind::Error,
            },
        })
    );
}

#[test]
fn an_integer_too_large_is_refused_by_the_parser() {
    let mut tokens = lex("int main(){return 340282366920938463463374607431768211456;}");
    let error = parse(&mut tokens).unwrap_err();
    assert_eq!(error.context, AstNodeKind::UnOp);
    assert_eq!(
        error.cause,
        Cause::UnexpectedToken {
            expected: TokenKind::LogicalNegation,
            found: TokenKind::Error,
        }
    );
}

#[test]
fn a_node_of_a_kind_without_rules_is_done_as_it_is() {
    let rules = ast_rules();
    let mut tokens = lex("int x");
    assert_eq!(leaf(AstNode::Int(3)).parse(&mut tokens, &rules), Ok(leaf(AstNode::Int(3))));
    assert_eq!(name_leaf("a").parse(&mut tokens, &rules), Ok(name_leaf("a")));
    assert_eq!(tokens.size(), 2);
    let none = Rules::new();
    assert_eq!(leaf(AstNode::Program).parse(&mut tokens, &none), Ok(leaf(AstNode::Program)));
    assert_eq!(tokens.size(), 2);
}

#[test]
fn parse_expands_any_kind_that_has_rules() {
    let rules = ast_rules();
    let mut tokens = lex("~1;");
    assert_eq!(
        Node::new(AstNode::Exp).parse(&mut tokens, &rules),
        Ok(unary(TokenKind::BitwiseComplement, constant(1)))
    );
    assert_eq!(tokens.size(), 1);
    let mut tokens = lex("return 4 ; }");
    assert_eq!(
        Node::new(AstNode::Statement).parse(&mut tokens, &rules),
        Ok(node(AstNode::Statement, vec![constant(4)]))
    );
    assert_eq!(tokens.size(), 1);
}

#[test]
fn parse_adds_to_the_children_that_a_node_has() {
    let rules = ast_rules();
    let mut tokens = lex("9");
    let start = node(AstNode::Exp, vec![name_leaf("kept")]);
    assert_eq!(
        start.parse(&mut tokens, &rules),
        Ok(node(AstNode::Exp, vec![name_leaf("kept"), leaf(AstNode::Int(9))]))
    );
}

#[test]
fn a_parse_error_at_the_top_has_no_parent() {
    let rules = ast_rules();
    let mut tokens = lex(";");
    assert_eq!(
        Node::new(AstNode::UnOp).parse(&mut tokens, &rules),
        Err(ParseError {
            context: AstNodeKind::UnOp,
            parent: None,
            cause: Cause::UnexpectedToken {
                expected: TokenKind::LogicalNegation,
                found: TokenKind::Semicolon,
            },
        })
    );
}

#[test]
fn the_first_branch_that_takes_is_the_only_one_tried() {
    // An expression may begin with an operator or be an integer; with the operator first
    // in the rules the integer is never reached, because a nonterminal always takes.
    let mut rules = Rules::new();
    rules.insert(
        AstNodeKind::Exp,
        build_tree(&vec![
            vec![nonterminal(AstNodeKind::UnOp), nonterminal(AstNodeKind::Exp)],
            vec![terminal(TokenKind::IntegerLiteral)],
        ]),
    );
    rules.insert(AstNodeKind::UnOp, build_tree(&vec![vec![terminal(TokenKind::Negation)]]));
    let mut tokens = lex("5");
    assert_eq!(
        Node::new(AstNode::Exp).parse(&mut tokens, &rules),
        Err(ParseError {
            context: AstNodeKind::UnOp,
            parent: Some(AstNodeKind::Exp),
            cause: Cause::UnexpectedToken {
                expected: TokenKind::Negation,
                found: TokenKind::IntegerLiteral,
            },
        })
    );
    assert_eq!(tokens.size(), 1);
}

#[test]
fn alternatives_that_share_a_prefix_part_after_it() {
    let mut rules = Rules::new();
    rules.insert(
        AstNodeKind::Statement,
        build_tree(&vec![
            vec![
                terminal(TokenKind::ReturnKeyword),
                terminal(TokenKind::IntegerLiteral),
                terminal(TokenKind::Semicolon),
            ],
            vec![terminal(TokenKind::ReturnKeyword), terminal(TokenKind::Semicolon)],
        ]),
    );
    let mut tokens = lex("return 1;");
    assert_eq!(
        Node::new(AstNode::Statement).parse(&mut tokens, &rules),
        Ok(node(AstNode::Statement, vec![leaf(AstNode::Int(1))]))
    );
    let mut tokens = lex("return;");
    assert_eq!(
        Node::new(AstNode::Statement).parse(&mut tokens, &rules),
        Ok(leaf(AstNode::Statement))
    );
    let mut tokens = lex("return return");
    assert_eq!(
        Node::new(AstNode::Statement).parse(&mut tokens, &rules),
        Err(ParseError {
            context: AstNodeKind::Statement,
            parent: None,
            cause: Cause::UnexpectedToken {
                expected: TokenKind::Semicolon,
                found: TokenKind::ReturnKeyword,
            },
        })
    );
    assert_eq!(tokens.size(), 1);
}

#[test]
fn a_rule_for_error_tokens_takes_the_token_and_fails() {
    let mut rules = Rules::new();
    rules.insert(
        AstNodeKind::Program,
        build_tree(&vec![vec![terminal(TokenKind::Error)], vec![terminal(TokenKind::Int)]]),
    );
    let mut tokens = lex("$ int");
    assert_eq!(
        Node::new(AstNode::Program).parse(&mut tokens, &rules),
        Ok(leaf(AstNode::Program))
    );
    assert_eq!(tokens.size(), 0);
    let mut tokens = lex("$;");
    assert_eq!(
        Node::new(AstNode::Program).parse(&mut tokens, &rules),
        Err(ParseError {
            context: AstNodeKind::Program,
            parent: None,
            cause: Cause::UnexpectedToken {
                expected: TokenKind::Int,
                found: TokenKind::Semicolon,
            },
        })
    );
    assert_eq!(tokens.size(), 1);
    let mut only = Rules::new();
    only.insert(AstNodeKind::Program, build_tree(&vec![vec![terminal(TokenKind::Error)]]));
    let mut tokens = lex("$;");
    assert_eq!(
        Node::new(AstNode::Program).parse(&mut tokens, &only),
        Err(ParseError { context: AstNodeKind::Program, parent: None, cause: Cause::ErrorToken })
    );
    assert_eq!(tokens.size(), 1);
}

#[test]
fn rules_that_expand_without_reading_are_stopped() {
    let mut rules = Rules::new();
    rules.insert(AstNodeKind::Exp, build_tree(&vec![vec![nonterminal(AstNodeKind::Exp)]]));
    let mut tokens = lex("1");
    let error = Node::new(AstNode::Exp).parse(&mut tokens, &rules).unwrap_err();
    assert_eq!(error.cause, Cause::EndlessExpansion);
    assert_eq!(error.context, AstNodeKind::Exp);
    assert_eq!(error.parent, Some(AstNodeKind::Exp));
    assert_eq!(tokens.size(), 1);
}

#[test]
fn rules_that_read_between_expansions_may_nest_as_deep_as_the_tokens_go() {
    let rules = ast_rules();
    let depth = 200;
    let source = format!("int main(){{return {}1;}}", "-".repeat(depth));
    let mut tokens = lex(source.as_str());
    let mut expected = constant(1);
    for _ in 0..depth {
        expected = unary(TokenKind::Negation, expected);
    }
    assert_eq!(
        Node::new(AstNode::Program).parse(&mut tokens, &rules),
        Ok(program("main", expected))
    );
}

#[test]
fn eight_kinds_may_open_within_one_another_before_a_token_is_read() {
    let kinds = [
        AstNodeKind::Program,
        AstNodeKind::Function,
        AstNodeKind::Statement,
        AstNodeKind::Exp,
        AstNodeKind::UnOp,
        AstNodeKind::Int,
        AstNodeKind::String,
        AstNodeKind::Operator,
    ];
    let mut rules = Rules::new();
    for pair in kinds.windows(2).take(4) {
        rules.insert(pair[0], build_tree(&vec![vec![nonterminal(pair[1])]]));
    }
    rules.insert(AstNodeKind::UnOp, build_tree(&vec![vec![terminal(TokenKind::Negation)]]));
    let mut tokens = lex("-");
    let tree = Node::new(AstNode::Program).parse(&mut tokens, &rules).unwrap();
    assert_eq!(
        tree,
        node(
            AstNode::Program,
            vec![node(
                AstNode::Function,
                vec![node(
                    AstNode::Statement,
                    vec![node(
                        AstNode::Exp,
                        vec![node(
                            AstNode::UnOp,
                            vec![leaf(AstNode::Operator(TokenKind::Negation))]
                        )]
                    )]
                )]
            )]
        )
    );
}

#[test]
fn try_consume_takes_a_token_of_the_kind_asked_for() {
    let mut tokens = queue_of(vec![Token::Int, Token::IntegerLiteral(8)]);
    assert_eq!(terminal(TokenKind::Int).try_consume(&mut tokens), Ok(None));
    assert_eq!(tokens.size(), 1);
    assert_eq!(
        terminal(TokenKind::IntegerLiteral).try_consume(&mut tokens),
        Ok(Some(leaf(AstNode::Int(8))))
    );
    assert_eq!(tokens.size(), 0);
}

#[test]
fn try_consume_leaves_a_token_of_another_kind() {
    let mut tokens = queue_of(vec![Token::Int, Token::IntegerLiteral(8)]);
    assert_eq!(
        terminal(TokenKind::IntegerLiteral).try_consume(&mut tokens),
        Err(Cause::UnexpectedToken {
            expected: TokenKind::IntegerLiteral,
            found: TokenKind::Int,
        })
    );
    assert_eq!(tokens.size(), 2);
    assert_eq!(tokens.peek(), Ok(Token::Int));
}

#[test]
fn try_consume_on_no_tokens_says_what_was_due() {
    let mut tokens = queue_of(vec![]);
    assert_eq!(
        terminal(TokenKind::Semicolon).try_consume(&mut tokens),
        Err(Cause::EndOfInput { expected: TokenKind::Semicolon })
    );
    assert_eq!(tokens.size(), 0);
}

#[test]
fn try_consume_of_a_nonterminal_makes_a_fresh_node_and_reads_nothing() {
    let mut tokens = queue_of(vec![Token::Int]);
    assert_eq!(
        nonterminal(AstNodeKind::Exp).try_consume(&mut tokens),
        Ok(Some(leaf(AstNode::Exp)))
    );
    assert_eq!(
        nonterminal(AstNodeKind::Int).try_consume(&mut tokens),
        Ok(Some(name_leaf("err")))
    );
    assert_eq!(RuleType::Root.try_consume(&mut tokens), Ok(None));
    assert_eq!(tokens.size(), 1);
    let mut none = queue_of(vec![]);
    assert_eq!(
        nonterminal(AstNodeKind::Program).try_consume(&mut none),
        Ok(Some(leaf(AstNode::Program)))
    );
}

#[test]
fn try_consume_of_an_error_token_takes_it_and_fails() {
    let mut tokens = queue_of(vec![Token::Error("?".to_string()), Token::Int]);
    assert_eq!(terminal(TokenKind::Error).try_consume(&mut tokens), Err(Cause::ErrorToken));
    assert_eq!(tokens.size(), 1);
    assert_eq!(tokens.peek(), Ok(Token::Int));
}

#[test]
fn try_consume_takes_the_oldest_token_only() {
    let mut tokens = queue_of(vec![
        Token::Identifier("a".to_string()),
        Token::Identifier("b".to_string()),
        Token::Identifier("c".to_string()),
    ]);
    assert_eq!(
        terminal(TokenKind::Identifier).try_consume(&mut tokens),
        Ok(Some(name_leaf("a")))
    );
    assert_eq!(tokens.size(), 2);
    assert_eq!(
        terminal(TokenKind::Identifier).try_consume(&mut tokens),
        Ok(Some(name_leaf("b")))
    );
    assert_eq!(tokens.remove(), Ok(Token::Identifier("c".to_string())));
}

#[test]
fn consume_token_makes_leaves_of_the_tokens_that_carry_something() {
    assert_eq!(consume_token(Token::IntegerLiteral(3)), Ok(Some(leaf(AstNode::Int(3)))));
    assert_eq!(consume_token(Token::Identifier("x".to_string())), Ok(Some(name_leaf("x"))));
    assert_eq!(consume_token(Token::StringLiteral("s".to_string())), Ok(Some(name_leaf("s"))));
    for kind in [TokenKind::Negation, TokenKind::BitwiseComplement, TokenKind::LogicalNegation] {
        let token = Token::get_token(kind.name(), "");
        assert_eq!(consume_token(token), Ok(Some(leaf(AstNode::Operator(kind)))));
    }
    assert_eq!(consume_token(Token::Error("x".to_string())), Err(Cause::ErrorToken));
    for token in [
        Token::If,
        Token::Else,
        Token::Int,
        Token::Plus,
        Token::Assign,
        Token::Semicolon,
        Token::OpenParen,
        Token::CloseParen,
        Token::OpenBrace,
        Token::CloseBrace,
        Token::ReturnKeyword,
        Token::GreaterThan,
        Token::LessThan,
    ] {
        assert_eq!(consume_token(token), Ok(None));
    }
}

#[test]
fn new_trees_have_no_children() {
    assert_eq!(RuleTree::new_root(), rule_tree(RuleType::Root, vec![]));
    assert_eq!(
        RuleTree::new(terminal(TokenKind::Int)),
        rule_tree(terminal(TokenKind::Int), vec![])
    );
    assert_eq!(Node::new(AstNode::Exp), leaf(AstNode::Exp));
    assert_eq!(Node::new(AstNode::Int(7)), leaf(AstNode::Int(7)));
}

#[test]
fn insert_path_hangs_a_new_alternative_below_the_root() {
    let mut tree = RuleTree::new_root();
    let path = [terminal(TokenKind::Int), terminal(TokenKind::Identifier)];
    tree.insert_path(&path);
    assert_eq!(tree, rule_tree(RuleType::Root, chain(&path)));
}

#[test]
fn insert_path_of_nothing_changes_nothing() {
    let mut tree = RuleTree::new_root();
    tree.insert_path(&[]);
    assert_eq!(tree, RuleTree::new_root());
    tree.insert_path(&[terminal(TokenKind::Int)]);
    let before = rule_tree(RuleType::Root, chain(&[terminal(TokenKind::Int)]));
    tree.insert_path(&[]);
    assert_eq!(tree, before);
}

#[test]
fn insert_path_shares_a_common_prefix_and_parts_where_paths_differ() {
    let a = terminal(TokenKind::ReturnKeyword);
    let b = nonterminal(AstNodeKind::Exp);
    let c = terminal(TokenKind::Semicolon);
    let d = terminal(TokenKind::CloseBrace);
    let mut tree = RuleTree::new_root();
    tree.insert_path(&[a, b, c]);
    tree.insert_path(&[a, b, d]);
    tree.insert_path(&[a, c]);
    tree.insert_path(&[d]);
    assert_eq!(
        tree,
        rule_tree(
            RuleType::Root,
            vec![
                rule_tree(
                    a,
                    vec![
                        rule_tree(b, vec![rule_tree(c, vec![]), rule_tree(d, vec![])]),
                        rule_tree(c, vec![]),
                    ]
                ),
                rule_tree(d, vec![]),
            ]
        )
    );
}

#[test]
fn insert_path_of_a_path_that_is_there_changes_nothing() {
    let a = terminal(TokenKind::Int);
    let b = terminal(TokenKind::Identifier);
    let mut tree = RuleTree::new_root();
    tree.insert_path(&[a, b]);
    tree.insert_path(&[a, b]);
    tree.insert_path(&[a]);
    assert_eq!(tree, rule_tree(RuleType::Root, chain(&[a, b])));
}

#[test]
fn insert_path_goes_into_the_first_child_of_that_symbol() {
    let a = terminal(TokenKind::Int);
    let b = terminal(TokenKind::Identifier);
    let mut tree = rule_tree(RuleType::Root, vec![rule_tree(a, vec![]), rule_tree(a, vec![])]);
    tree.insert_path(&[a, b]);
    assert_eq!(
        tree,
        rule_tree(RuleType::Root, vec![rule_tree(a, chain(&[b])), rule_tree(a, vec![])])
    );
}

#[test]
fn build_tree_puts_the_alternatives_in_one_after_the_other() {
    let a = terminal(TokenKind::Negation);
    let b = terminal(TokenKind::BitwiseComplement);
    assert_eq!(build_tree(&vec![]), RuleTree::new_root());
    assert_eq!(
        build_tree(&vec![vec![a], vec![b], vec![a, b]]),
        rule_tree(RuleType::Root, vec![rule_tree(a, chain(&[b])), rule_tree(b, vec![])])
    );
}

#[test]
fn the_grammar_has_rules_for_the_five_kinds_that_are_no_leaves() {
    let rules = ast_rules();
    assert_eq!(
        rules.get(AstNodeKind::UnOp),
        Some(&rule_tree(
            RuleType::Root,
            vec![
                rule_tree(terminal(TokenKind::Negation), vec![]),
                rule_tree(terminal(TokenKind::BitwiseComplement), vec![]),
                rule_tree(terminal(TokenKind::LogicalNegation), vec![]),
            ]
        ))
    );
    assert_eq!(
        rules.get(AstNodeKind::Exp),
        Some(&rule_tree(
            RuleType::Root,
            vec![
                rule_tree(terminal(TokenKind::IntegerLiteral), vec![]),
                rule_tree(
                    nonterminal(AstNodeKind::UnOp),
                    chain(&[nonterminal(AstNodeKind::Exp)])
                ),
            ]
        ))
    );
    assert_eq!(
        rules.get(AstNodeKind::Statement),
        Some(&rule_tree(
            RuleType::Root,
            chain(&[
                terminal(TokenKind::ReturnKeyword),
                nonterminal(AstNodeKind::Exp),
                terminal(TokenKind::Semicolon),
            ])
        ))
    );
    assert_eq!(
        rules.get(AstNodeKind::Function),
        Some(&rule_tree(
            RuleType::Root,
            chain(&[
                terminal(TokenKind::Int),
                terminal(TokenKind::Identifier),
                terminal(TokenKind::OpenParen),
                terminal(TokenKind::CloseParen),
                terminal(TokenKind::OpenBrace),
                nonterminal(AstNodeKind::Statement),
                terminal(TokenKind::CloseBrace),
            ])
        ))
    );
    assert_eq!(
        rules.get(AstNodeKind::Program),
        Some(&rule_tree(RuleType::Root, chain(&[nonterminal(AstNodeKind::Function)])))
    );
    for kind in [AstNodeKind::Int, AstNodeKind::String, AstNodeKind::Operator] {
        assert_eq!(rules.get(kind), None);
    }
}

#[test]
fn rules_are_built_the_same_each_time() {
    assert_eq!(ast_rules(), ast_rules());
}

#[test]
fn insert_gives_a_kind_new_rules_in_place_of_the_old() {
    let mut rules = Rules::new();
    assert_eq!(rules.get(AstNodeKind::Exp), None);
    let first = build_tree(&vec![vec![terminal(TokenKind::Int)]]);
    let second = build_tree(&vec![vec![terminal(TokenKind::If)]]);
    rules.insert(AstNodeKind::Exp, build_tree(&vec![vec![terminal(TokenKind::Int)]]));
    rules.insert(AstNodeKind::UnOp, build_tree(&vec![]));
    assert_eq!(rules.get(AstNodeKind::Exp), Some(&first));
    rules.insert(AstNodeKind::Exp, build_tree(&vec![vec![terminal(TokenKind::If)]]));
    assert_eq!(rules.get(AstNodeKind::Exp), Some(&second));
    assert_eq!(rules.get(AstNodeKind::UnOp), Some(&RuleTree::new_root()));
    assert_eq!(rules.get(AstNodeKind::Program), None);
}

#[test]
fn get_type_and_get_kind_agree_on_the_kinds_with_rules() {
    for (kind, node) in [
        (AstNodeKind::Program, AstNode::Program),
        (AstNodeKind::Function, AstNode::Function),
        (AstNodeKind::Statement, AstNode::Statement),
        (AstNodeKind::Exp, AstNode::Exp),
        (AstNodeKind::UnOp, AstNode::UnOp),
    ] {
        assert_eq!(kind.get_type(), node);
        assert_eq!(node.get_kind(), kind);
    }
}

#[test]
fn get_type_of_a_leaf_kind_is_a_name() {
    for kind in [AstNodeKind::Int, AstNodeKind::String, AstNodeKind::Operator] {
        assert_eq!(kind.get_type(), AstNode::String("err".to_string()));
    }
}

#[test]
fn get_kind_of_a_leaf_is_its_kind() {
    assert_eq!(AstNode::Int(1).get_kind(), AstNodeKind::Int);
    assert_eq!(AstNode::String("a".to_string()).get_kind(), AstNodeKind::String);
    assert_eq!(AstNode::Operator(TokenKind::Plus).get_kind(), AstNodeKind::Operator);
}

#[test]
fn parse_errors_say_where_and_why() {
    let error = ParseError {
        context: AstNodeKind::UnOp,
        parent: Some(AstNodeKind::Exp),
        cause: Cause::UnexpectedToken {
            expected: TokenKind::LogicalNegation,
            found: TokenKind::Semicolon,
        },
    };
    assert_eq!(
        error.message(),
        "Parsing failed at branch UnOp in Exp\nIncorrect token received:\n  Expected: LogicalNegation\n  Found:    Semicolon"
    );
    let error = ParseError {
        context: AstNodeKind::Function,
        parent: None,
        cause: Cause::EndOfInput { expected: TokenKind::OpenBrace },
    };
    assert_eq!(
        error.message(),
        "Parsing failed at branch Function\nThe queue is empty: expected OpenBrace"
    );
    assert_eq!(Cause::ErrorToken.message(), "Trying to parse an error token");
    assert_eq!(Cause::EndlessExpansion.message(), "The rules expand without reading a token");
}

#[test]
fn kinds_are_named_as_they_are_written() {
    assert_eq!(TokenKind::If.name(), "If");
    assert_eq!(TokenKind::Error.name(), "Error");
    assert_eq!(TokenKind::ReturnKeyword.name(), "ReturnKeyword");
    assert_eq!(TokenKind::IntegerLiteral.name(), "IntegerLiteral");
    assert_eq!(AstNodeKind::Program.name(), "Program");
    assert_eq!(AstNodeKind::String.name(), "String");
    assert_eq!(AstNodeKind::UnOp.name(), "UnOp");
    for name in Token::get_options() {
        assert_eq!(Token::get_token(name, "1").kind().name(), name);
    }
}

#[test]
fn pretty_print_writes_a_tree_one_node_to_a_line() {
    let tree = program("main", unary(TokenKind::Negation, constant(12)));
    assert_eq!(
        tree.pretty_print(0),
        "Program\n  Function\n    String(\"main\")\n    Statement\n      Exp\n        UnOp\n          Operator(Negation)\n        Exp\n          Int(12)\n"
    );
    assert_eq!(leaf(AstNode::Exp).pretty_print(2), "    Exp\n");
    assert_eq!(name_leaf("a\"b\n").pretty_print(1), "  String(\"a\\\"b\\n\")\n");
}

#[test]
fn pretty_print_writes_rules_with_a_dash() {
    let tree = build_tree(&vec![
        vec![terminal(TokenKind::IntegerLiteral)],
        vec![nonterminal(AstNodeKind::UnOp), nonterminal(AstNodeKind::Exp)],
    ]);
    assert_eq!(
        tree.pretty_print(0),
        "- Root\n  - Token(IntegerLiteral)\n  - Node(UnOp)\n    - Node(Exp)\n"
    );
    assert_eq!(RuleTree::new_root().pretty_print(1), "  - Root\n");
}
