//! The lexical categories of the language and the tokens that carry them.

use crate::lexing::scan::pattern_named;
use crate::text::{parse_number, read_number, same_text};
use vstd::prelude::*;
use vstd::string::StringExecFns;

verus! {

/// A token: a lexical category and, for literals, identifiers and errors, what was written.
#[derive(Debug, Clone, Eq, PartialEq)]
pub enum Token {
    // Keywords
    If,
    Else,
    Int,
    // Literals
    IntegerLiteral(usize),
    StringLiteral(String),
    // Identifiers
    Identifier(String),
    // Operators
    Plus,
    Assign,
    Negation,
    BitwiseComplement,
    LogicalNegation,
    // Punctuation
    Semicolon,
    OpenParen,
    CloseParen,
    OpenBrace,
    CloseBrace,
    // Keywords
    ReturnKeyword,
    // Logical operators
    GreaterThan,
    LessThan,
    /// Text that belongs to no category.
    Error(String),
}

/// The category of a token: its tag without what it carries. Grammar rules match on this.
#[derive(Debug, Clone, Copy, PartialEq, Eq, Structural, Hash)]
pub enum TokenKind {
    // Keywords
    If,
    Else,
    Int,
    ReturnKeyword,
    // Literals
    IntegerLiteral,
    StringLiteral,
    // Identifiers
    Identifier,
    // Operators
    Plus,
    Assign,
    Negation,
    BitwiseComplement,
    LogicalNegation,
    // Punctuation
    Semicolon,
    OpenParen,
    CloseParen,
    OpenBrace,
    CloseBrace,
    // Logical operators
    GreaterThan,
    LessThan,
    Error,
}

/// What a token carries besides its kind.
pub enum Payload {
    Nothing,
    Number(usize),
    Text(Seq<char>),
}

/// A token as a mathematical value: its kind and what it carries.
pub struct TokenView {
    pub kind: TokenKind,
    pub payload: Payload,
}

impl TokenView {
    /// The token of a kind that carries nothing.
    pub open spec fn plain(kind: TokenKind) -> TokenView {
        TokenView { kind, payload: Payload::Nothing }
    }

    /// The token of `kind` that carries `text`.
    pub open spec fn with_text(kind: TokenKind, text: Seq<char>) -> TokenView {
        TokenView { kind, payload: Payload::Text(text) }
    }

    /// The integer literal `n`.
    pub open spec fn number(n: usize) -> TokenView {
        TokenView { kind: TokenKind::IntegerLiteral, payload: Payload::Number(n) }
    }

    /// Whether this token carries what a token of its kind carries: a number for an
    /// integer literal, a text for another literal, an identifier or an error, and
    /// nothing for any other kind. The view of every [`Token`] does.
    pub open spec fn well_formed(self) -> bool {
        match self.kind {
            TokenKind::IntegerLiteral => self.payload is Number,
            TokenKind::StringLiteral | TokenKind::Identifier | TokenKind::Error => self.payload
                is Text,
            _ => self.payload is Nothing,
        }
    }

    /// The text that this token carries; no text where it carries none.
    pub open spec fn text(self) -> Seq<char> {
        match self.payload {
            Payload::Text(text) => text,
            _ => Seq::empty(),
        }
    }

    /// The number that this token carries; zero where it carries none.
    pub open spec fn value(self) -> usize {
        match self.payload {
            Payload::Number(n) => n,
            _ => 0,
        }
    }
}

impl View for Token {
    type V = TokenView;

    open spec fn view(&self) -> TokenView {
        match self {
            Token::If => TokenView::plain(TokenKind::If),
            Token::Else => TokenView::plain(TokenKind::Else),
            Token::Int => TokenView::plain(TokenKind::Int),
            Token::ReturnKeyword => TokenView::plain(TokenKind::ReturnKeyword),
            Token::IntegerLiteral(n) => TokenView::number(*n),
            Token::StringLiteral(s) => TokenView::with_text(TokenKind::StringLiteral, s@),
            Token::Identifier(s) => TokenView::with_text(TokenKind::Identifier, s@),
            Token::Plus => TokenView::plain(TokenKind::Plus),
            Token::Assign => TokenView::plain(TokenKind::Assign),
            Token::Negation => TokenView::plain(TokenKind::Negation),
            Token::BitwiseComplement => TokenView::plain(TokenKind::BitwiseComplement),
            Token::LogicalNegation => TokenView::plain(TokenKind::LogicalNegation),
            Token::Semicolon => TokenView::plain(TokenKind::Semicolon),
            Token::OpenParen => TokenView::plain(TokenKind::OpenParen),
            Token::CloseParen => TokenView::plain(TokenKind::CloseParen),
            Token::OpenBrace => TokenView::plain(TokenKind::OpenBrace),
            Token::CloseBrace => TokenView::plain(TokenKind::CloseBrace),
            Token::GreaterThan => TokenView::plain(TokenKind::GreaterThan),
            Token::LessThan => TokenView::plain(TokenKind::LessThan),
            Token::Error(s) => TokenView::with_text(TokenKind::Error, s@),
        }
    }
}

impl Token {
    /// A token carries what a token of its kind carries.
    pub proof fn lemma_well_formed(&self)
        ensures
            self@.well_formed(),
    {
    }
}

/// The kind that `name` names among the kinds whose tokens carry nothing.
pub open spec fn plain_kind_named(name: Seq<char>) -> Option<TokenKind> {
    if name == "If"@ {
        Some(TokenKind::If)
    } else if name == "Else"@ {
        Some(TokenKind::Else)
    } else if name == "Int"@ {
        Some(TokenKind::Int)
    } else if name == "ReturnKeyword"@ {
        Some(TokenKind::ReturnKeyword)
    } else if name == "Plus"@ {
        Some(TokenKind::Plus)
    } else if name == "Assign"@ {
        Some(TokenKind::Assign)
    } else if name == "Negation"@ {
        Some(TokenKind::Negation)
    } else if name == "BitwiseComplement"@ {
        Some(TokenKind::BitwiseComplement)
    } else if name == "LogicalNegation"@ {
        Some(TokenKind::LogicalNegation)
    } else if name == "Semicolon"@ {
        Some(TokenKind::Semicolon)
    } else if name == "OpenParen"@ {
        Some(TokenKind::OpenParen)
    } else if name == "CloseParen"@ {
        Some(TokenKind::CloseParen)
    } else if name == "OpenBrace"@ {
        Some(TokenKind::OpenBrace)
    } else if name == "CloseBrace"@ {
        Some(TokenKind::CloseBrace)
    } else if name == "GreaterThan"@ {
        Some(TokenKind::GreaterThan)
    } else if name == "LessThan"@ {
        Some(TokenKind::LessThan)
    } else {
        None
    }
}

/// The integer literal that the text `value` writes. Text that is no numeral, or whose
/// number does not fit the machine word, gives an error token that carries the text.
pub open spec fn integer_token(value: Seq<char>) -> TokenView {
    match parse_number(value) {
        Some(n) => if n <= usize::MAX {
            TokenView::number(n as usize)
        } else {
            TokenView::with_text(TokenKind::Error, value)
        },
        None => TokenView::with_text(TokenKind::Error, value),
    }
}

/// The token of the kind that `name` names, made from the matched text `value`.
/// A name of no kind gives an error token that carries the text.
pub open spec fn token_for(name: Seq<char>, value: Seq<char>) -> TokenView {
    match plain_kind_named(name) {
        Some(kind) => TokenView::plain(kind),
        None => if name == "IntegerLiteral"@ {
            integer_token(value)
        } else if name == "StringLiteral"@ {
            TokenView::with_text(TokenKind::StringLiteral, value)
        } else if name == "Identifier"@ {
            TokenView::with_text(TokenKind::Identifier, value)
        } else {
            TokenView::with_text(TokenKind::Error, value)
        },
    }
}

/// The names of the kinds that the lexer looks for, in the order in which it tries them.
/// The order is part of the language: the first kind that matches wins, not the longest match.
pub open spec fn option_names() -> Seq<Seq<char>> {
    seq![
        "OpenBrace"@,
        "CloseBrace"@,
        "OpenParen"@,
        "CloseParen"@,
        "Semicolon"@,
        "Int"@,
        "ReturnKeyword"@,
        "Identifier"@,
        "IntegerLiteral"@,
        "Negation"@,
        "BitwiseComplement"@,
        "LogicalNegation"@,
    ]
}

/// The pattern of the kind of token that `name` names, written in the notation of the
/// `regex` crate: anchored at the start of the text. Only the kinds that the lexer looks
/// for have one.
pub open spec fn regex_text(name: Seq<char>) -> Seq<char> {
    if name == "OpenBrace"@ {
        "^\\{"@
    } else if name == "CloseBrace"@ {
        "^}"@
    } else if name == "OpenParen"@ {
        "^\\("@
    } else if name == "CloseParen"@ {
        "^\\)"@
    } else if name == "Semicolon"@ {
        "^;"@
    } else if name == "Int"@ {
        "^int"@
    } else if name == "ReturnKeyword"@ {
        "^return"@
    } else if name == "Negation"@ {
        "^-"@
    } else if name == "BitwiseComplement"@ {
        "^~"@
    } else if name == "LogicalNegation"@ {
        "^!"@
    } else if name == "Identifier"@ {
        "^[a-zA-Z]\\w*"@
    } else {
        "^[0-9]+"@
    }
}

/// The texts of a list of names.
pub open spec fn texts(names: Seq<&'static str>) -> Seq<Seq<char>> {
    names.map_values(|n: &'static str| n@)
}

fn plain_token_named(name: &str) -> (r: Option<Token>)
    ensures
        match r {
            Some(t) => plain_kind_named(name@) == Some(t@.kind) && t@ == TokenView::plain(
                t@.kind,
            ),
            None => plain_kind_named(name@) is None,
        },
{
    if same_text(name, "If") {
        Some(Token::If)
    } else if same_text(name, "Else") {
        Some(Token::Else)
    } else if same_text(name, "Int") {
        Some(Token::Int)
    } else if same_text(name, "ReturnKeyword") {
        Some(Token::ReturnKeyword)
    } else if same_text(name, "Plus") {
        Some(Token::Plus)
    } else if same_text(name, "Assign") {
        Some(Token::Assign)
    } else if same_text(name, "Negation") {
        Some(Token::Negation)
    } else if same_text(name, "BitwiseComplement") {
        Some(Token::BitwiseComplement)
    } else if same_text(name, "LogicalNegation") {
        Some(Token::LogicalNegation)
    } else if same_text(name, "Semicolon") {
        Some(Token::Semicolon)
    } else if same_text(name, "OpenParen") {
        Some(Token::OpenParen)
    } else if same_text(name, "CloseParen") {
        Some(Token::CloseParen)
    } else if same_text(name, "OpenBrace") {
        Some(Token::OpenBrace)
    } else if same_text(name, "CloseBrace") {
        Some(Token::CloseBrace)
    } else if same_text(name, "GreaterThan") {
        Some(Token::GreaterThan)
    } else if same_text(name, "LessThan") {
        Some(Token::LessThan)
    } else {
        None
    }
}

impl Token {
    /// The kind of this token.
    pub fn kind(&self) -> (k: TokenKind)
        ensures
            k == self@.kind,
    {
        match self {
            Token::If => TokenKind::If,
            Token::Else => TokenKind::Else,
            Token::Int => TokenKind::Int,
            Token::ReturnKeyword => TokenKind::ReturnKeyword,
            Token::IntegerLiteral(_) => TokenKind::IntegerLiteral,
            Token::StringLiteral(_) => TokenKind::StringLiteral,
            Token::Identifier(_) => TokenKind::Identifier,
            Token::Plus => TokenKind::Plus,
            Token::Assign => TokenKind::Assign,
            Token::Negation => TokenKind::Negation,
            Token::BitwiseComplement => TokenKind::BitwiseComplement,
            Token::LogicalNegation => TokenKind::LogicalNegation,
            Token::Semicolon => TokenKind::Semicolon,
            Token::OpenParen => TokenKind::OpenParen,
            Token::CloseParen => TokenKind::CloseParen,
            Token::OpenBrace => TokenKind::OpenBrace,
            Token::CloseBrace => TokenKind::CloseBrace,
            Token::GreaterThan => TokenKind::GreaterThan,
            Token::LessThan => TokenKind::LessThan,
            Token::Error(_) => TokenKind::Error,
        }
    }

    /// Makes the token of the kind named `token` from the matched text `value`.
    pub fn get_token(token: &str, value: &str) -> (t: Token)
        ensures
            t@ == token_for(token@, value@),
    {
        match plain_token_named(token) {
            Some(t) => t,
            None => {
                if same_text(token, "IntegerLiteral") {
                    match read_number(value) {
                        Some(n) => Token::IntegerLiteral(n),
                        None => Token::Error(String::from_str(value)),
                    }
                } else if same_text(token, "StringLiteral") {
                    Token::StringLiteral(String::from_str(value))
                } else if same_text(token, "Identifier") {
                    Token::Identifier(String::from_str(value))
                } else {
                    Token::Error(String::from_str(value))
                }
            },
        }
    }

    /// The pattern of the kind named `token`, written in the notation of the `regex` crate.
    /// It says in that notation what [`pattern_named`] says of the same name.
    pub fn get_regex(token: &str) -> (pattern: &'static str)
        requires
            pattern_named(token@) is Some,
        ensures
            pattern@ == regex_text(token@),
    {
        if same_text(token, "OpenBrace") {
            "^\\{"
        } else if same_text(token, "CloseBrace") {
            "^}"
        } else if same_text(token, "OpenParen") {
            "^\\("
        } else if same_text(token, "CloseParen") {
            "^\\)"
        } else if same_text(token, "Semicolon") {
            "^;"
        } else if same_text(token, "Int") {
            "^int"
        } else if same_text(token, "ReturnKeyword") {
            "^return"
        } else if same_text(token, "Negation") {
            "^-"
        } else if same_text(token, "BitwiseComplement") {
            "^~"
        } else if same_text(token, "LogicalNegation") {
            "^!"
        } else if same_text(token, "Identifier") {
            "^[a-zA-Z]\\w*"
        } else {
            "^[0-9]+"
        }
    }

    /// The names of the kinds that the lexer looks for, in priority order.
    pub fn get_options() -> (names: Vec<&'static str>)
        ensures
            texts(names@) == option_names(),
    {
        let names: Vec<&'static str> = vec![
            "OpenBrace",
            "CloseBrace",
            "OpenParen",
            "CloseParen",
            "Semicolon",
            "Int",
            "ReturnKeyword",
            "Identifier",
            "IntegerLiteral",
            "Negation",
            "BitwiseComplement",
            "LogicalNegation",
        ];
        assert(texts(names@) =~= option_names());
        names
    }
}

impl TokenKind {
    /// The name of this kind, as it is written in a message.
    pub open spec fn name_text(self) -> Seq<char> {
        match self {
            TokenKind::If => "If"@,
            TokenKind::Else => "Else"@,
            TokenKind::Int => "Int"@,
            TokenKind::ReturnKeyword => "ReturnKeyword"@,
            TokenKind::IntegerLiteral => "IntegerLiteral"@,
            TokenKind::StringLiteral => "StringLiteral"@,
            TokenKind::Identifier => "Identifier"@,
            TokenKind::Plus => "Plus"@,
            TokenKind::Assign => "Assign"@,
            TokenKind::Negation => "Negation"@,
            TokenKind::BitwiseComplement => "BitwiseComplement"@,
            TokenKind::LogicalNegation => "LogicalNegation"@,
            TokenKind::Semicolon => "Semicolon"@,
            TokenKind::OpenParen => "OpenParen"@,
            TokenKind::CloseParen => "CloseParen"@,
            TokenKind::OpenBrace => "OpenBrace"@,
            TokenKind::CloseBrace => "CloseBrace"@,
            TokenKind::GreaterThan => "GreaterThan"@,
            TokenKind::LessThan => "LessThan"@,
            TokenKind::Error => "Error"@,
        }
    }

    /// The name of this kind, as it is written in a message.
    pub fn name(&self) -> (r: &'static str)
        ensures
            r@ == self.name_text(),
    {
        match self {
            TokenKind::If => "If",
            TokenKind::Else => "Else",
            TokenKind::Int => "Int",
            TokenKind::ReturnKeyword => "ReturnKeyword",
            TokenKind::IntegerLiteral => "IntegerLiteral",
            TokenKind::StringLiteral => "StringLiteral",
            TokenKind::Identifier => "Identifier",
            TokenKind::Plus => "Plus",
            TokenKind::Assign => "Assign",
            TokenKind::Negation => "Negation",
            TokenKind::BitwiseComplement => "BitwiseComplement",
            TokenKind::LogicalNegation => "LogicalNegation",
            TokenKind::Semicolon => "Semicolon",
            TokenKind::OpenParen => "OpenParen",
            TokenKind::CloseParen => "CloseParen",
            TokenKind::OpenBrace => "OpenBrace",
            TokenKind::CloseBrace => "CloseBrace",
            TokenKind::GreaterThan => "GreaterThan",
            TokenKind::LessThan => "LessThan",
            TokenKind::Error => "Error",
        }
    }
}

} // verus!
