use minic::lexing::scan::{get_pattern, match_at};
use minic::lexing::token::Token;
use minic::text::to_chars;
use regex::Regex;

const TEXTS: &[&str] = &[
    "",
    " ",
    "\n",
    "{",
    "}",
    "(",
    ")",
    ";",
    "-",
    "~",
    "!",
    "{}",
    "}{",
    "()",
    ";;",
    "--",
    "~!",
    "i",
    "in",
    "int",
    "int ",
    "inte",
    "integer",
    "Int",
    "INT",
    "r",
    "retur",
    "return",
    "returns",
    "return2",
    "return;",
    "a",
    "z",
    "A",
    "Z",
    "a1",
    "a_",
    "a_b9_",
    "_a",
    "a-b",
    "a b",
    "a\tb",
    "a\nb",
    "ab(",
    "0",
    "9",
    "12",
    "007",
    "12a",
    "12 3",
    "12;",
    "1_2",
    "\u{e9}",
    "a\u{e9}",
    "a\u{e9}b c",
    "a\u{b2}",
    "a\u{a0}b",
    "a\u{3b1}\u{3b2}1",
    "a\u{0663}",
    "\u{0663}",
    "1\u{0663}",
    "a\u{200d}b",
    "a\u{203f}b",
    "a\u{0301}b",
    "a\u{2014}b",
    "a\u{1f600}b",
    "a\u{10400}b",
    "x\u{7f}",
    "x\u{80}y",
    "@",
    "$x",
    " int",
    "\nreturn",
];

fn by_regex(name: &str, text: &str) -> Option<usize> {
    let found = Regex::new(Token::get_regex(name)).unwrap().find(text)?;
    assert_eq!(found.start(), 0);
    Some(text[..found.end()].chars().count())
}

fn by_pattern(name: &str, text: &str) -> Option<usize> {
    match_at(get_pattern(name).unwrap(), &to_chars(text), 0)
}

#[test]
fn every_option_has_a_pattern_in_both_notations() {
    for name in Token::get_options() {
        assert!(get_pattern(name).is_some(), "{}", name);
        assert!(Regex::new(Token::get_regex(name)).is_ok(), "{}", name);
    }
}

#[test]
fn get_regex_writes_each_pattern() {
    assert_eq!(Token::get_regex("OpenBrace"), r"^\{");
    assert_eq!(Token::get_regex("CloseBrace"), r"^}");
    assert_eq!(Token::get_regex("OpenParen"), r"^\(");
    assert_eq!(Token::get_regex("CloseParen"), r"^\)");
    assert_eq!(Token::get_regex("Semicolon"), r"^;");
    assert_eq!(Token::get_regex("Int"), r"^int");
    assert_eq!(Token::get_regex("ReturnKeyword"), r"^return");
    assert_eq!(Token::get_regex("Negation"), r"^-");
    assert_eq!(Token::get_regex("BitwiseComplement"), r"^~");
    assert_eq!(Token::get_regex("LogicalNegation"), r"^!");
    assert_eq!(Token::get_regex("Identifier"), r"^[a-zA-Z]\w*");
    assert_eq!(Token::get_regex("IntegerLiteral"), r"^[0-9]+");
}

#[test]
fn patterns_match_as_their_regular_expressions_do() {
    for name in Token::get_options() {
        for text in TEXTS {
            assert_eq!(by_pattern(name, text), by_regex(name, text), "{} on {:?}", name, text);
        }
    }
}

#[test]
fn patterns_match_as_their_regular_expressions_do_after_any_prefix() {
    for name in Token::get_options() {
        for text in TEXTS {
            let chars = to_chars(text);
            let mut offsets: Vec<usize> = text.char_indices().map(|(at, _)| at).collect();
            offsets.push(text.len());
            for (from, offset) in offsets.iter().enumerate() {
                let expected = by_regex(name, &text[*offset..]).map(|len| from + len);
                assert_eq!(
                    match_at(get_pattern(name).unwrap(), &chars, from),
                    expected,
                    "{} on {:?} from {}",
                    name,
                    text,
                    from
                );
            }
        }
    }
}

#[test]
fn the_lexer_takes_the_first_option_whose_regular_expression_matches() {
    for text in TEXTS {
        let mut expected = Vec::new();
        let mut rest: &str = text;
        while !rest.is_empty() {
            let first = Token::get_options()
                .into_iter()
                .find_map(|name| by_regex(name, rest).map(|len| (name, len)));
            let (name, len) = first.unwrap_or(("", 1));
            let end = rest.char_indices().nth(len).map_or(rest.len(), |(at, _)| at);
            let blank = [" ", "\n", "\r"].contains(&&rest[..end]);
            if !(name.is_empty() && blank) {
                expected.push(Token::get_token(name, &rest[..end]));
            }
            rest = &rest[end..];
        }
        let mut tokens = minic::lexing::lex(text);
        let mut found = Vec::new();
        while let Ok(token) = queues::IsQueue::remove(&mut tokens) {
            found.push(token);
        }
        assert_eq!(found, expected, "{:?}", text);
    }
}
