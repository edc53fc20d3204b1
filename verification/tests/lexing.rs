use minic::lexing::lex;
use minic::lexing::scan::{get_pattern, is_word_char, match_at, word_char_given, Pattern};
use minic::lexing::token::{Token, TokenKind};
use minic::text::{read_number, same_text, text_between, to_chars, write_number};
use queues::{IsQueue, Queue};

fn drain(mut tokens: Queue<Token>) -> Vec<Token> {
    let mut out = Vec::new();
    while let Ok(token) = tokens.remove() {
        out.push(token);
    }
    out
}

fn tokens_of(source: &str) -> Vec<Token> {
    drain(lex(source))
}

fn kinds_of(source: &str) -> Vec<TokenKind> {
    tokens_of(source).iter().map(|token| token.kind()).collect()
}

fn name(text: &str) -> Token {
    Token::Identifier(text.to_string())
}

fn error(text: &str) -> Token {
    Token::Error(text.to_string())
}

#[test]
fn lexes_the_kinds_of_a_small_program() {
    assert_eq!(
        kinds_of("int main(){return 2;}"),
        vec![
            TokenKind::Int,
            TokenKind::Identifier,
            TokenKind::OpenParen,
            TokenKind::CloseParen,
            TokenKind::OpenBrace,
            TokenKind::ReturnKeyword,
            TokenKind::IntegerLiteral,
            TokenKind::Semicolon,
            TokenKind::CloseBrace,
        ]
    );
}

#[test]
fn lexes_the_tokens_of_a_small_program() {
    assert_eq!(
        tokens_of("int main(){return 2;}"),
        vec![
            Token::Int,
            name("main"),
            Token::OpenParen,
            Token::CloseParen,
            Token::OpenBrace,
            Token::ReturnKeyword,
            Token::IntegerLiteral(2),
            Token::Semicolon,
            Token::CloseBrace,
        ]
    );
}

#[test]
fn lexes_the_unary_operators() {
    assert_eq!(
        tokens_of("!-~5"),
        vec![
            Token::LogicalNegation,
            Token::Negation,
            Token::BitwiseComplement,
            Token::IntegerLiteral(5),
        ]
    );
}

#[test]
fn empty_text_has_no_tokens() {
    assert_eq!(tokens_of(""), vec![]);
    assert_eq!(lex("").size(), 0);
}

#[test]
fn white_space_alone_has_no_tokens() {
    assert_eq!(tokens_of(" \n\r \r\n  "), vec![]);
}

#[test]
fn white_space_between_tokens_changes_nothing() {
    let plain = tokens_of("int main(){return 2;}");
    assert_eq!(tokens_of("int  main ( ) {\n\treturn\r\n 2 ; }\n".replace('\t', " ").as_str()), plain);
    assert_eq!(tokens_of("\n\n int\rmain(\n)\n{ return 2 ;}   "), plain);
    assert_eq!(tokens_of("intmain(){return2;}"), plain);
}

#[test]
fn white_space_between_tokens_keeps_the_kinds() {
    let plain = kinds_of("int main(){return !-~5;}");
    assert_eq!(kinds_of("int main ( ) { return ! - ~ 5 ; }"), plain);
    assert_eq!(kinds_of("int\nmain\n(\n)\n{\nreturn\n!\n-\n~\n5\n;\n}\n"), plain);
    assert_eq!(kinds_of("int\r\nmain()\r\n{\r\n    return !-~5;\r\n}\r\n"), plain);
}

#[test]
fn white_space_within_a_token_splits_it() {
    assert_eq!(tokens_of("ma in"), vec![name("ma"), name("in")]);
    assert_eq!(tokens_of("1 2"), vec![Token::IntegerLiteral(1), Token::IntegerLiteral(2)]);
}

#[test]
fn the_first_kind_wins_not_the_longest_match() {
    assert_eq!(tokens_of("integer"), vec![Token::Int, name("eger")]);
    assert_eq!(tokens_of("returned"), vec![Token::ReturnKeyword, name("ed")]);
    assert_eq!(tokens_of("int"), vec![Token::Int]);
    assert_eq!(tokens_of("in"), vec![name("in")]);
    assert_eq!(tokens_of("xint"), vec![name("xint")]);
}

#[test]
fn identifiers_go_on_through_word_characters() {
    assert_eq!(tokens_of("a_1b("), vec![name("a_1b"), Token::OpenParen]);
    assert_eq!(tokens_of("Zz9"), vec![name("Zz9")]);
    assert_eq!(tokens_of("x-y"), vec![name("x"), Token::Negation, name("y")]);
}

#[test]
fn identifiers_begin_with_a_letter() {
    assert_eq!(tokens_of("_a"), vec![error("_"), name("a")]);
    assert_eq!(tokens_of("1a"), vec![Token::IntegerLiteral(1), name("a")]);
}

#[test]
fn word_characters_beyond_the_first_128_are_those_of_the_word_class() {
    assert_eq!(tokens_of("a\u{e9}b"), vec![name("a\u{e9}b")]);
    assert_eq!(tokens_of("\u{e9}"), vec![error("\u{e9}")]);
    assert_eq!(tokens_of("a\u{b2}"), vec![name("a"), error("\u{b2}")]);
    assert_eq!(tokens_of("a\u{3b1}1"), vec![name("a\u{3b1}1")]);
    assert_eq!(tokens_of("a\u{a0}b"), vec![name("a"), error("\u{a0}"), name("b")]);
}

#[test]
fn is_word_char_tells_word_characters() {
    for c in ['a', 'Z', '0', '9', '_', '\u{e9}', '\u{3b1}', '\u{0663}'] {
        assert!(is_word_char(c), "{:?}", c);
    }
    for c in [' ', '\n', '\r', '-', '{', '$', '\u{7f}', '\u{b2}', '\u{a0}', '\u{2014}'] {
        assert!(!is_word_char(c), "{:?}", c);
    }
}

#[test]
fn word_char_given_reads_the_answer_only_beyond_the_first_128() {
    assert!(word_char_given('a', None));
    assert!(word_char_given('a', Some(false)));
    assert!(!word_char_given('-', Some(true)));
    assert!(word_char_given('\u{e9}', Some(true)));
    assert!(!word_char_given('\u{e9}', Some(false)));
    assert!(!word_char_given('\u{e9}', None));
}

#[test]
fn characters_of_no_kind_become_error_tokens() {
    assert_eq!(
        tokens_of("int main(){return $;}"),
        vec![
            Token::Int,
            name("main"),
            Token::OpenParen,
            Token::CloseParen,
            Token::OpenBrace,
            Token::ReturnKeyword,
            error("$"),
            Token::Semicolon,
            Token::CloseBrace,
        ]
    );
    assert_eq!(tokens_of("\t"), vec![error("\t")]);
    assert_eq!(tokens_of("+"), vec![error("+")]);
    assert_eq!(tokens_of("@#"), vec![error("@"), error("#")]);
}

#[test]
fn integer_literals_carry_their_number() {
    assert_eq!(tokens_of("0"), vec![Token::IntegerLiteral(0)]);
    assert_eq!(tokens_of("007"), vec![Token::IntegerLiteral(7)]);
    assert_eq!(tokens_of("1234567890"), vec![Token::IntegerLiteral(1234567890)]);
    assert_eq!(
        tokens_of(usize::MAX.to_string().as_str()),
        vec![Token::IntegerLiteral(usize::MAX)]
    );
}

#[test]
fn an_integer_literal_beyond_the_machine_word_is_an_error_token() {
    let text = "340282366920938463463374607431768211456";
    assert_eq!(tokens_of(text), vec![error(text)]);
    let just_over = format!("{}0", usize::MAX);
    assert_eq!(tokens_of(just_over.as_str()), vec![error(just_over.as_str())]);
}

#[test]
fn kind_is_the_tag_of_each_token() {
    let text = || "x".to_string();
    let cases = vec![
        (Token::If, TokenKind::If),
        (Token::Else, TokenKind::Else),
        (Token::Int, TokenKind::Int),
        (Token::IntegerLiteral(3), TokenKind::IntegerLiteral),
        (Token::StringLiteral(text()), TokenKind::StringLiteral),
        (Token::Identifier(text()), TokenKind::Identifier),
        (Token::Plus, TokenKind::Plus),
        (Token::Assign, TokenKind::Assign),
        (Token::Negation, TokenKind::Negation),
        (Token::BitwiseComplement, TokenKind::BitwiseComplement),
        (Token::LogicalNegation, TokenKind::LogicalNegation),
        (Token::Semicolon, TokenKind::Semicolon),
        (Token::OpenParen, TokenKind::OpenParen),
        (Token::CloseParen, TokenKind::CloseParen),
        (Token::OpenBrace, TokenKind::OpenBrace),
        (Token::CloseBrace, TokenKind::CloseBrace),
        (Token::ReturnKeyword, TokenKind::ReturnKeyword),
        (Token::GreaterThan, TokenKind::GreaterThan),
        (Token::LessThan, TokenKind::LessThan),
        (Token::Error(text()), TokenKind::Error),
    ];
    for (token, kind) in cases {
        assert_eq!(token.kind(), kind);
    }
}

#[test]
fn get_token_makes_the_token_that_a_name_names() {
    let cases = vec![
        ("If", Token::If),
        ("Else", Token::Else),
        ("Int", Token::Int),
        ("ReturnKeyword", Token::ReturnKeyword),
        ("Plus", Token::Plus),
        ("Assign", Token::Assign),
        ("Negation", Token::Negation),
        ("BitwiseComplement", Token::BitwiseComplement),
        ("LogicalNegation", Token::LogicalNegation),
        ("Semicolon", Token::Semicolon),
        ("OpenParen", Token::OpenParen),
        ("CloseParen", Token::CloseParen),
        ("OpenBrace", Token::OpenBrace),
        ("CloseBrace", Token::CloseBrace),
        ("GreaterThan", Token::GreaterThan),
        ("LessThan", Token::LessThan),
        ("IntegerLiteral", Token::IntegerLiteral(42)),
        ("StringLiteral", Token::StringLiteral("42".to_string())),
        ("Identifier", Token::Identifier("42".to_string())),
    ];
    for (name, token) in cases {
        assert_eq!(Token::get_token(name, "42"), token, "{}", name);
    }
}

#[test]
fn get_token_of_no_kind_is_an_error_token() {
    assert_eq!(Token::get_token("", "$"), error("$"));
    assert_eq!(Token::get_token("Nothing", "abc"), error("abc"));
    assert_eq!(Token::get_token("int", "int"), error("int"));
    assert_eq!(Token::get_token("Identifie", "x"), error("x"));
    assert_eq!(Token::get_token("Identifierx", "x"), error("x"));
}

#[test]
fn get_token_reads_numerals() {
    assert_eq!(Token::get_token("IntegerLiteral", "0"), Token::IntegerLiteral(0));
    assert_eq!(Token::get_token("IntegerLiteral", "+5"), Token::IntegerLiteral(5));
    assert_eq!(Token::get_token("IntegerLiteral", "abc"), error("abc"));
    assert_eq!(Token::get_token("IntegerLiteral", ""), error(""));
    assert_eq!(Token::get_token("IntegerLiteral", "+"), error("+"));
    assert_eq!(Token::get_token("IntegerLiteral", "-5"), error("-5"));
    assert_eq!(Token::get_token("IntegerLiteral", "5 "), error("5 "));
    assert_eq!(Token::get_token("IntegerLiteral", "++5"), error("++5"));
}

#[test]
fn get_options_lists_the_kinds_in_priority_order() {
    assert_eq!(
        Token::get_options(),
        vec![
            "OpenBrace",
            "CloseBrace",
            "OpenParen",
            "CloseParen",
            "Semicolon",
            "Int",
            "ReturnKeyword",
            "Identifier",
            "IntegerLiteral",
            "Negation",
            "BitwiseComplement",
            "LogicalNegation",
        ]
    );
}

#[test]
fn every_option_has_a_pattern_and_a_token() {
    for name in Token::get_options() {
        assert!(get_pattern(name).is_some(), "{}", name);
        assert_ne!(Token::get_token(name, "1").kind(), TokenKind::Error, "{}", name);
    }
    assert_eq!(get_pattern("If"), None);
    assert_eq!(get_pattern(""), None);
    assert_eq!(get_pattern("Int"), Some(Pattern::Literal("int")));
    assert_eq!(get_pattern("OpenBrace"), Some(Pattern::Literal("{")));
    assert_eq!(get_pattern("Identifier"), Some(Pattern::Identifier));
    assert_eq!(get_pattern("IntegerLiteral"), Some(Pattern::IntegerLiteral));
}

#[test]
fn match_at_gives_the_end_of_the_match() {
    let chars = to_chars("xx return12;ab_9 ");
    assert_eq!(match_at(Pattern::Literal("return"), &chars, 3), Some(9));
    assert_eq!(match_at(Pattern::Literal("return"), &chars, 2), None);
    assert_eq!(match_at(Pattern::Literal("return"), &chars, 4), None);
    assert_eq!(match_at(Pattern::Literal(""), &chars, 0), None);
    assert_eq!(match_at(Pattern::IntegerLiteral, &chars, 9), Some(11));
    assert_eq!(match_at(Pattern::IntegerLiteral, &chars, 10), Some(11));
    assert_eq!(match_at(Pattern::IntegerLiteral, &chars, 11), None);
    assert_eq!(match_at(Pattern::Identifier, &chars, 12), Some(16));
    assert_eq!(match_at(Pattern::Identifier, &chars, 0), Some(2));
    assert_eq!(match_at(Pattern::Identifier, &chars, 9), None);
    assert_eq!(match_at(Pattern::Identifier, &chars, 17), None);
    assert_eq!(match_at(Pattern::Literal(";"), &chars, 17), None);
    let whole = to_chars("return");
    assert_eq!(match_at(Pattern::Literal("return"), &whole, 0), Some(6));
    assert_eq!(match_at(Pattern::Literal("returns"), &whole, 0), None);
    assert_eq!(match_at(Pattern::Identifier, &whole, 0), Some(6));
}

#[test]
fn to_chars_gives_the_characters_in_order() {
    assert_eq!(to_chars(""), vec![]);
    assert_eq!(to_chars("a\u{e9}1"), vec!['a', '\u{e9}', '1']);
}

#[test]
fn read_number_reads_numerals_that_fit() {
    assert_eq!(read_number("0"), Some(0));
    assert_eq!(read_number("10"), Some(10));
    assert_eq!(read_number("00012"), Some(12));
    assert_eq!(read_number("+12"), Some(12));
    assert_eq!(read_number(usize::MAX.to_string().as_str()), Some(usize::MAX));
    assert_eq!(read_number(""), None);
    assert_eq!(read_number("+"), None);
    assert_eq!(read_number("1+"), None);
    assert_eq!(read_number("12a"), None);
    assert_eq!(read_number("\u{0663}"), None);
    assert_eq!(read_number(format!("{}1", usize::MAX).as_str()), None);
    assert_eq!(read_number("18446744073709551616000"), None);
}

#[test]
fn write_number_writes_decimal_numerals() {
    assert_eq!(write_number(0), "0");
    assert_eq!(write_number(7), "7");
    assert_eq!(write_number(10), "10");
    assert_eq!(write_number(1234567890), "1234567890");
    assert_eq!(write_number(usize::MAX), usize::MAX.to_string());
}

#[test]
fn numbers_read_back_as_written() {
    for n in [0usize, 1, 9, 10, 99, 100, 65535, 4294967295, usize::MAX] {
        assert_eq!(read_number(write_number(n).as_str()), Some(n));
    }
}

#[test]
fn same_text_tells_equal_texts() {
    assert!(same_text("", ""));
    assert!(same_text("Int", "Int"));
    assert!(same_text("a\u{e9}\u{1f600}", "a\u{e9}\u{1f600}"));
    assert!(!same_text("Int", "int"));
    assert!(!same_text("Int", "Int "));
    assert!(!same_text("Int", "In"));
    assert!(!same_text("", "x"));
    assert!(!same_text("a\u{e9}", "a\u{e8}"));
    assert!(!same_text("OpenParen", "OpenBrace"));
}

#[test]
fn text_between_takes_the_characters_of_a_range() {
    let chars = to_chars("a\u{e9}bc\u{1f600}d");
    assert_eq!(text_between(&chars, 0, 6), "a\u{e9}bc\u{1f600}d");
    assert_eq!(text_between(&chars, 1, 3), "\u{e9}b");
    assert_eq!(text_between(&chars, 4, 5), "\u{1f600}");
    assert_eq!(text_between(&chars, 2, 2), "");
    assert_eq!(text_between(&chars, 6, 6), "");
}

#[test]
fn a_long_text_is_lexed_piece_by_piece() {
    let line = "int name_1(){return !-~12345;}\n";
    let lines = 20000;
    let tokens = lex(line.repeat(lines).as_str());
    assert_eq!(tokens.size(), 12 * lines);
}
