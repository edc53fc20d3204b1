//! The text of the programs of the language, token by token, and the token that each
//! piece of it gives.

use crate::lexing::scan::{in_class, is_word, lemma_run_is, match_len, pattern_named, Pattern};
use crate::lexing::token::{integer_token, option_names, plain_kind_named, TokenKind, TokenView};
use crate::lexing::{first_match, lexed, piece, Match};
use crate::text::{decimal_text, is_digit, is_letter, lemma_decimal_text};
use vstd::prelude::*;

verus! {

/// What each name of [`option_names`] names: its pattern and its kind of token.
pub proof fn lemma_options()
    ensures
        option_names().len() == 12,
        pattern_named(option_names()[0]) == Some(Pattern::Literal("{")),
        pattern_named(option_names()[1]) == Some(Pattern::Literal("}")),
        pattern_named(option_names()[2]) == Some(Pattern::Literal("(")),
        pattern_named(option_names()[3]) == Some(Pattern::Literal(")")),
        pattern_named(option_names()[4]) == Some(Pattern::Literal(";")),
        pattern_named(option_names()[5]) == Some(Pattern::Literal("int")),
        pattern_named(option_names()[6]) == Some(Pattern::Literal("return")),
        pattern_named(option_names()[7]) == Some(Pattern::Identifier),
        pattern_named(option_names()[8]) == Some(Pattern::IntegerLiteral),
        pattern_named(option_names()[9]) == Some(Pattern::Literal("-")),
        pattern_named(option_names()[10]) == Some(Pattern::Literal("~")),
        pattern_named(option_names()[11]) == Some(Pattern::Literal("!")),
        plain_kind_named(option_names()[0]) == Some(TokenKind::OpenBrace),
        plain_kind_named(option_names()[1]) == Some(TokenKind::CloseBrace),
        plain_kind_named(option_names()[2]) == Some(TokenKind::OpenParen),
        plain_kind_named(option_names()[3]) == Some(TokenKind::CloseParen),
        plain_kind_named(option_names()[4]) == Some(TokenKind::Semicolon),
        plain_kind_named(option_names()[5]) == Some(TokenKind::Int),
        plain_kind_named(option_names()[6]) == Some(TokenKind::ReturnKeyword),
        plain_kind_named(option_names()[7]) is None,
        plain_kind_named(option_names()[8]) is None,
        plain_kind_named(option_names()[9]) == Some(TokenKind::Negation),
        plain_kind_named(option_names()[10]) == Some(TokenKind::BitwiseComplement),
        plain_kind_named(option_names()[11]) == Some(TokenKind::LogicalNegation),
        option_names()[7] == "Identifier"@,
        option_names()[8] == "IntegerLiteral"@,
        "Identifier"@ != "IntegerLiteral"@,
        "Identifier"@ != "StringLiteral"@,
{
    reveal_strlit("If");
    reveal_strlit("Else");
    reveal_strlit("Int");
    reveal_strlit("ReturnKeyword");
    reveal_strlit("Plus");
    reveal_strlit("Assign");
    reveal_strlit("Negation");
    reveal_strlit("BitwiseComplement");
    reveal_strlit("LogicalNegation");
    reveal_strlit("Semicolon");
    reveal_strlit("OpenParen");
    reveal_strlit("CloseParen");
    reveal_strlit("OpenBrace");
    reveal_strlit("CloseBrace");
    reveal_strlit("GreaterThan");
    reveal_strlit("LessThan");
    reveal_strlit("IntegerLiteral");
    reveal_strlit("StringLiteral");
    reveal_strlit("Identifier");
    assert("If"@.len() == 2 && "If"@[0] == 'I');
    assert("Else"@.len() == 4 && "Else"@[0] == 'E');
    assert("Int"@.len() == 3 && "Int"@[0] == 'I');
    assert("ReturnKeyword"@.len() == 13 && "ReturnKeyword"@[0] == 'R');
    assert("Plus"@.len() == 4 && "Plus"@[0] == 'P');
    assert("Assign"@.len() == 6 && "Assign"@[0] == 'A');
    assert("Negation"@.len() == 8 && "Negation"@[0] == 'N');
    assert("BitwiseComplement"@.len() == 17 && "BitwiseComplement"@[0] == 'B');
    assert("LogicalNegation"@.len() == 15 && "LogicalNegation"@[0] == 'L');
    assert("Semicolon"@.len() == 9 && "Semicolon"@[0] == 'S');
    assert("OpenParen"@.len() == 9 && "OpenParen"@[0] == 'O');
    assert("CloseParen"@.len() == 10 && "CloseParen"@[0] == 'C');
    assert("OpenBrace"@.len() == 9 && "OpenBrace"@[0] == 'O');
    assert("CloseBrace"@.len() == 10 && "CloseBrace"@[0] == 'C');
    assert("GreaterThan"@.len() == 11 && "GreaterThan"@[0] == 'G');
    assert("LessThan"@.len() == 8 && "LessThan"@[0] == 'L');
    assert("IntegerLiteral"@.len() == 14 && "IntegerLiteral"@[0] == 'I');
    assert("StringLiteral"@.len() == 13 && "StringLiteral"@[0] == 'S');
    assert("Identifier"@.len() == 10 && "Identifier"@[0] == 'I');
    assert("OpenBrace"@[4] != "OpenParen"@[4]);
    assert("CloseBrace"@[5] != "CloseParen"@[5]);
}

/// The character that a one-character token is written as, if `kind` is the kind of one.
pub open spec fn mark_of(kind: TokenKind) -> Option<char> {
    match kind {
        TokenKind::OpenBrace => Some('{'),
        TokenKind::CloseBrace => Some('}'),
        TokenKind::OpenParen => Some('('),
        TokenKind::CloseParen => Some(')'),
        TokenKind::Semicolon => Some(';'),
        TokenKind::Negation => Some('-'),
        TokenKind::BitwiseComplement => Some('~'),
        TokenKind::LogicalNegation => Some('!'),
        _ => None,
    }
}

/// Whether `name` can be the name of a function: a letter and then word characters, and
/// not beginning as a keyword does, which the lexer would take for the keyword.
pub open spec fn is_name(name: Seq<char>) -> bool {
    &&& name.len() > 0
    &&& is_letter(name[0])
    &&& forall|i: int| 1 <= i < name.len() ==> is_word(#[trigger] name[i])
    &&& !"int"@.is_prefix_of(name)
    &&& !"return"@.is_prefix_of(name)
}

/// Whether a run of word characters or digits ends where `rest` begins.
pub open spec fn ends_run(rest: Seq<char>, words: bool) -> bool {
    rest.len() > 0 ==> !in_class(rest[0], words)
}

/// The characters of the patterns that are fixed texts.
proof fn lemma_literals()
    ensures
        "{"@ == seq!['{'],
        "}"@ == seq!['}'],
        "("@ == seq!['('],
        ")"@ == seq![')'],
        ";"@ == seq![';'],
        "-"@ == seq!['-'],
        "~"@ == seq!['~'],
        "!"@ == seq!['!'],
        "int"@ == seq!['i', 'n', 't'],
        "return"@ == seq!['r', 'e', 't', 'u', 'r', 'n'],
{
    reveal_strlit("{");
    reveal_strlit("}");
    reveal_strlit("(");
    reveal_strlit(")");
    reveal_strlit(";");
    reveal_strlit("-");
    reveal_strlit("~");
    reveal_strlit("!");
    reveal_strlit("int");
    reveal_strlit("return");
    assert("{"@ =~= seq!['{']);
    assert("}"@ =~= seq!['}']);
    assert("("@ =~= seq!['(']);
    assert(")"@ =~= seq![')']);
    assert(";"@ =~= seq![';']);
    assert("-"@ =~= seq!['-']);
    assert("~"@ =~= seq!['~']);
    assert("!"@ =~= seq!['!']);
    assert("int"@ =~= seq!['i', 'n', 't']);
    assert("return"@ =~= seq!['r', 'e', 't', 'u', 'r', 'n']);
}

/// A fixed text does not match a text that begins with another character.
proof fn lemma_other_start(literal: &'static str, text: Seq<char>)
    requires
        text.len() > 0,
        literal@.len() > 0,
        literal@[0] != text[0],
    ensures
        match_len(Pattern::Literal(literal), text) is None,
{
    if literal@.is_prefix_of(text) {
        assert(literal@[0] == text.subrange(0, literal@.len() as int)[0]);
    }
}

/// The first match is that of the first name whose pattern matches.
proof fn lemma_first_match_is(names: Seq<Seq<char>>, text: Seq<char>, from: nat, at: nat, len: nat)
    requires
        from <= at < names.len(),
        forall|k: int|
            from <= k < at ==> match #[trigger] pattern_named(names[k]) {
                Some(pattern) => match_len(pattern, text) is None,
                None => true,
            },
        pattern_named(names[at as int]) matches Some(pattern) && match_len(pattern, text) == Some(
            len,
        ),
    ensures
        first_match(names, text, from) == Some(Match { index: at, len }),
    decreases at - from,
{
    if from < at {
        lemma_first_match_is(names, text, from + 1, at, len);
    }
}

/// Whether `pattern` is a fixed text that is not empty, and matches `text` only where
/// `text` begins as it does.
pub open spec fn is_fixed(pattern: Option<Pattern>, text: Seq<char>) -> bool {
    match pattern {
        Some(Pattern::Literal(literal)) => literal@.len() > 0 && (literal@[0] != text[0]
            ==> match_len(Pattern::Literal(literal), text) is None),
        _ => false,
    }
}

/// Which patterns can match a text, by its first character: a one-character token only
/// its own pattern, a letter only a keyword or an identifier, a digit only an integer
/// literal.
proof fn lemma_first_character(text: Seq<char>)
    requires
        text.len() > 0,
    ensures
        forall|k: int|
            0 <= k < 12 && k != 7 && k != 8 ==> is_fixed(
                #[trigger] pattern_named(option_names()[k]),
                text,
            ),
        !is_letter(text[0]) ==> match_len(Pattern::Identifier, text) is None,
        !is_digit(text[0]) ==> match_len(Pattern::IntegerLiteral, text) is None,
{
    lemma_options();
    lemma_literals();
    assert forall|k: int| 0 <= k < 12 && k != 7 && k != 8 implies is_fixed(
        #[trigger] pattern_named(option_names()[k]),
        text,
    ) by {
        let literal = pattern_named(option_names()[k])->Some_0->Literal_0;
        if literal@[0] != text[0] {
            lemma_other_start(literal, text);
        }
    }
}

/// A one-character token at the start of a text gives the token of its kind.
pub proof fn lemma_lex_mark(kind: TokenKind, rest: Seq<char>)
    requires
        mark_of(kind) is Some,
    ensures
        lexed(seq![mark_of(kind)->Some_0] + rest) == seq![TokenView::plain(kind)] + lexed(rest),
{
    let c = mark_of(kind)->Some_0;
    let text = seq![c] + rest;
    let names = option_names();
    lemma_options();
    lemma_literals();
    lemma_first_character(text);
    let at: nat = match kind {
        TokenKind::OpenBrace => 0,
        TokenKind::CloseBrace => 1,
        TokenKind::OpenParen => 2,
        TokenKind::CloseParen => 3,
        TokenKind::Semicolon => 4,
        TokenKind::Negation => 9,
        TokenKind::BitwiseComplement => 10,
        _ => 11,
    };
    let literal = pattern_named(names[at as int])->Some_0->Literal_0;
    assert(literal@ == seq![c]);
    assert(literal@ =~= text.subrange(0, 1));
    assert(match_len(Pattern::Literal(literal), text) == Some(1nat));
    assert forall|k: int| 0 <= k < at implies match #[trigger] pattern_named(names[k]) {
        Some(pattern) => match_len(pattern, text) is None,
        None => true,
    } by {
        if k != 7 && k != 8 {
            let other = pattern_named(names[k])->Some_0->Literal_0;
            assert(other@[0] != c);
        }
    }
    lemma_first_match_is(names, text, 0, at, 1);
    assert(piece(text).len == 1);
    assert(piece(text).token == Some(TokenView::plain(kind)));
    assert(text.skip(1) =~= rest);
}

/// The keyword `int` at the start of a text gives its token.
pub proof fn lemma_lex_int(rest: Seq<char>)
    ensures
        lexed("int"@ + rest) == seq![TokenView::plain(TokenKind::Int)] + lexed(rest),
{
    let text = "int"@ + rest;
    let names = option_names();
    lemma_options();
    lemma_literals();
    lemma_first_character(text);
    assert("int"@ =~= text.subrange(0, 3));
    assert(match_len(Pattern::Literal("int"), text) == Some(3nat));
    assert forall|k: int| 0 <= k < 5 implies match #[trigger] pattern_named(names[k]) {
        Some(pattern) => match_len(pattern, text) is None,
        None => true,
    } by {
        let other = pattern_named(names[k])->Some_0->Literal_0;
        assert(other@[0] != 'i');
    }
    lemma_first_match_is(names, text, 0, 5, 3);
    assert(piece(text).len == 3);
    assert(piece(text).token == Some(TokenView::plain(TokenKind::Int)));
    assert(text.skip(3) =~= rest);
}

/// The keyword `return` at the start of a text gives its token.
pub proof fn lemma_lex_return(rest: Seq<char>)
    ensures
        lexed("return"@ + rest) == seq![TokenView::plain(TokenKind::ReturnKeyword)] + lexed(rest),
{
    let text = "return"@ + rest;
    let names = option_names();
    lemma_options();
    lemma_literals();
    lemma_first_character(text);
    assert("return"@ =~= text.subrange(0, 6));
    assert(match_len(Pattern::Literal("return"), text) == Some(6nat));
    assert forall|k: int| 0 <= k < 6 implies match #[trigger] pattern_named(names[k]) {
        Some(pattern) => match_len(pattern, text) is None,
        None => true,
    } by {
        let other = pattern_named(names[k])->Some_0->Literal_0;
        assert(other@[0] != 'r');
    }
    lemma_first_match_is(names, text, 0, 6, 6);
    assert(piece(text).len == 6);
    assert(piece(text).token == Some(TokenView::plain(TokenKind::ReturnKeyword)));
    assert(text.skip(6) =~= rest);
}

/// A name at the start of a text, before anything but a word character, gives an
/// identifier that carries the name.
pub proof fn lemma_lex_name(name: Seq<char>, rest: Seq<char>)
    requires
        is_name(name),
        ends_run(rest, true),
    ensures
        lexed(name + rest) == seq![TokenView::with_text(TokenKind::Identifier, name)] + lexed(
            rest,
        ),
{
    let text = name + rest;
    let names = option_names();
    lemma_options();
    lemma_literals();
    lemma_first_character(text);
    assert(text[0] == name[0]);
    // The identifier goes on to the end of the name and no further.
    let tail = text.skip(1);
    assert forall|i: int| 0 <= i < name.len() - 1 implies in_class(#[trigger] tail[i], true) by {
        assert(tail[i] == name[i + 1]);
    }
    if rest.len() > 0 {
        assert(tail[name.len() - 1] == rest[0]);
    }
    lemma_run_is(tail, true, (name.len() - 1) as nat);
    assert(match_len(Pattern::Identifier, text) == Some(name.len()));
    // A keyword does not match: it is no prefix of the name, and the name is not
    // a prefix of it that the rest could complete, for the rest begins with no letter.
    assert(match_len(Pattern::Literal("int"), text) is None) by {
        if "int"@.is_prefix_of(text) {
            if name.len() >= 3 {
                assert("int"@ =~= name.subrange(0, 3));
            } else {
                assert(text.subrange(0, 3)[name.len() as int] == rest[0]);
                assert(is_letter(rest[0]));
            }
        }
    }
    assert(match_len(Pattern::Literal("return"), text) is None) by {
        if "return"@.is_prefix_of(text) {
            if name.len() >= 6 {
                assert("return"@ =~= name.subrange(0, 6));
            } else {
                assert(text.subrange(0, 6)[name.len() as int] == rest[0]);
                assert(is_letter(rest[0]));
            }
        }
    }
    assert forall|k: int| 0 <= k < 7 implies match #[trigger] pattern_named(names[k]) {
        Some(pattern) => match_len(pattern, text) is None,
        None => true,
    } by {
        if k < 5 {
            let other = pattern_named(names[k])->Some_0->Literal_0;
            assert(other@[0] != name[0]);
        }
    }
    lemma_first_match_is(names, text, 0, 7, name.len());
    assert(text.take(name.len() as int) =~= name);
    assert(piece(text).len == name.len());
    assert(piece(text).token == Some(TokenView::with_text(TokenKind::Identifier, name)));
    assert(text.skip(name.len() as int) =~= rest);
}

/// The numeral of a number at the start of a text, before anything but a digit, gives an
/// integer literal that carries the number.
pub proof fn lemma_lex_number(value: usize, rest: Seq<char>)
    requires
        ends_run(rest, false),
    ensures
        lexed(decimal_text(value as nat) + rest) == seq![TokenView::number(value)] + lexed(rest),
{
    let numeral = decimal_text(value as nat);
    let text = numeral + rest;
    let names = option_names();
    lemma_options();
    lemma_literals();
    lemma_decimal_text(value as nat);
    lemma_first_character(text);
    assert(text[0] == numeral[0]);
    assert forall|i: int| 0 <= i < numeral.len() implies in_class(#[trigger] text[i], false) by {
        assert(text[i] == numeral[i]);
    }
    if rest.len() > 0 {
        assert(text[numeral.len() as int] == rest[0]);
    }
    lemma_run_is(text, false, numeral.len());
    assert(match_len(Pattern::IntegerLiteral, text) == Some(numeral.len()));
    assert forall|k: int| 0 <= k < 8 implies match #[trigger] pattern_named(names[k]) {
        Some(pattern) => match_len(pattern, text) is None,
        None => true,
    } by {
        if k < 7 {
            let other = pattern_named(names[k])->Some_0->Literal_0;
            assert(other@[0] != numeral[0]);
        }
    }
    lemma_first_match_is(names, text, 0, 8, numeral.len());
    assert(text.take(numeral.len() as int) =~= numeral);
    assert(piece(text).len == numeral.len());
    assert(integer_token(numeral) == TokenView::number(value));
    assert(piece(text).token == Some(TokenView::number(value)));
    assert(text.skip(numeral.len() as int) =~= rest);
}

} // verus!
