//! From text to tokens.
//!
//! The lexer reads the text from its start to its end. Where it stands it tries the
//! patterns of the kinds of token in a fixed order, and the first that matches gives the
//! next token: the order decides, not the length of the match. Where none matches, one
//! character is passed over: white space silently, anything else as an error token, which
//! is left for the parser to refuse.

pub mod language;
pub mod scan;
pub mod spacing;
pub mod token;

use crate::lexing::scan::{
    get_pattern, is_blank, lemma_run, match_at, match_len, pattern_named, Pattern,
};
use crate::lexing::token::{option_names, texts, token_for, Token, TokenKind, TokenView};
use crate::queue::{new_queue, token_views};
use crate::text::{text_between, to_chars};
use queues::Queue;
use vstd::prelude::*;

verus! {

/// The first kind of token that stands at the start of a text, and how long it is.
pub struct Match {
    /// Which of the names that were tried it is.
    pub index: nat,
    /// How many characters it takes.
    pub len: nat,
}

/// What the lexer passes over in one step: so many characters and what they give.
pub struct Piece {
    pub len: nat,
    pub token: Option<TokenView>,
}

/// The first of `names`, from index `from` on, whose pattern matches the start of `text`.
pub open spec fn first_match(names: Seq<Seq<char>>, text: Seq<char>, from: nat) -> Option<Match>
    decreases names.len() - from,
{
    if from >= names.len() {
        None
    } else {
        match pattern_named(names[from as int]) {
            Some(pattern) => match match_len(pattern, text) {
                Some(len) => Some(Match { index: from, len }),
                None => first_match(names, text, from + 1),
            },
            None => first_match(names, text, from + 1),
        }
    }
}

/// What stands at the start of a text that is not empty. The first kind that matches gives
/// a token made from the text of its match. Where no kind matches, the first character is
/// passed over: white space gives nothing, any other character an error token that
/// carries it.
pub open spec fn piece(text: Seq<char>) -> Piece {
    match first_match(option_names(), text, 0) {
        Some(found) => Piece {
            len: found.len,
            token: Some(token_for(option_names()[found.index as int], text.take(found.len as int))),
        },
        None => Piece {
            len: 1,
            token: if is_blank(text[0]) {
                None
            } else {
                Some(TokenView::with_text(TokenKind::Error, text.take(1)))
            },
        },
    }
}

/// The tokens that one piece gives: one or none.
pub open spec fn emitted(piece: Piece) -> Seq<TokenView> {
    match piece.token {
        Some(token) => seq![token],
        None => Seq::empty(),
    }
}

/// The tokens of a text, in the order in which they stand in it.
pub open spec fn lexed(text: Seq<char>) -> Seq<TokenView>
    decreases text.len(),
{
    if text.len() == 0 {
        Seq::empty()
    } else {
        proof {
            lemma_piece_len(text);
        }
        emitted(piece(text)) + lexed(text.skip(piece(text).len as int))
    }
}

/// A match takes one character at least and no more than there are.
pub proof fn lemma_match_len(pattern: Pattern, text: Seq<char>)
    ensures
        match match_len(pattern, text) {
            Some(len) => 0 < len <= text.len(),
            None => true,
        },
{
    match pattern {
        Pattern::Literal(literal) => {},
        Pattern::Identifier => {
            lemma_run(text.skip(1), true);
        },
        Pattern::IntegerLiteral => {
            lemma_run(text, false);
        },
    }
}

/// The first match is that of one of the names that were tried, and takes one character
/// at least and no more than there are.
pub proof fn lemma_first_match(names: Seq<Seq<char>>, text: Seq<char>, from: nat)
    ensures
        match first_match(names, text, from) {
            Some(found) => from <= found.index < names.len() && 0 < found.len <= text.len(),
            None => true,
        },
    decreases names.len() - from,
{
    if from < names.len() {
        match pattern_named(names[from as int]) {
            Some(pattern) => {
                lemma_match_len(pattern, text);
                lemma_first_match(names, text, from + 1);
            },
            None => {
                lemma_first_match(names, text, from + 1);
            },
        }
    }
}

/// A piece takes one character at least and no more than there are.
pub proof fn lemma_piece_len(text: Seq<char>)
    requires
        text.len() > 0,
    ensures
        0 < piece(text).len <= text.len(),
{
    lemma_first_match(option_names(), text, 0);
}

/// The patterns of a list of names, name by name.
pub open spec fn patterns_named(names: Seq<Seq<char>>) -> Seq<Option<Pattern>> {
    names.map_values(|name: Seq<char>| pattern_named(name))
}

/// Looks up the pattern of each of `names`.
fn patterns_of(names: &Vec<&'static str>) -> (patterns: Vec<Option<Pattern>>)
    ensures
        patterns@ == patterns_named(texts(names@)),
{
    let mut patterns: Vec<Option<Pattern>> = Vec::new();
    let mut k: usize = 0;
    while k < names.len()
        invariant
            k <= names@.len(),
            patterns@ == patterns_named(texts(names@)).take(k as int),
        decreases names@.len() - k,
    {
        patterns.push(get_pattern(names[k]));
        assert(patterns@ =~= patterns_named(texts(names@)).take(k + 1));
        k = k + 1;
    }
    assert(patterns@ =~= patterns_named(texts(names@)));
    patterns
}

/// Finds the first of the patterns that matches at `from`: which one, and where its
/// match ends.
fn find_first(
    patterns: &Vec<Option<Pattern>>,
    chars: &Vec<char>,
    from: usize,
    Ghost(names): Ghost<Seq<Seq<char>>>,
) -> (r: Option<(usize, usize)>)
    requires
        from <= chars@.len(),
        patterns@ == patterns_named(names),
    ensures
        match r {
            Some((index, end)) => first_match(names, chars@.skip(from as int), 0) == Some(
                Match { index: index as nat, len: (end - from) as nat },
            ) && index < names.len() && from < end <= chars@.len(),
            None => first_match(names, chars@.skip(from as int), 0) is None,
        },
{
    let ghost text = chars@.skip(from as int);
    let mut k: usize = 0;
    while k < patterns.len()
        invariant
            k <= patterns@.len(),
            from <= chars@.len(),
            text == chars@.skip(from as int),
            patterns@ == patterns_named(names),
            first_match(names, text, 0) == first_match(names, text, k as nat),
        decreases patterns@.len() - k,
    {
        assert(patterns@[k as int] == pattern_named(names[k as int]));
        match patterns[k] {
            Some(pattern) => {
                match match_at(pattern, chars, from) {
                    Some(end) => {
                        return Some((k, end));
                    },
                    None => {},
                }
            },
            None => {},
        }
        k = k + 1;
    }
    None
}

/// Turns a text into its tokens.
pub fn lex(source: &str) -> (tokens: Queue<Token>)
    ensures
        token_views(tokens) == lexed(source@),
{
    let chars = to_chars(source);
    let names = Token::get_options();
    let patterns = patterns_of(&names);
    let mut tokens = new_queue();
    let mut pos: usize = 0;
    assert(chars@.skip(0) =~= chars@);
    assert(token_views(tokens) =~= Seq::<TokenView>::empty());
    while pos < chars.len()
        invariant
            pos <= chars@.len(),
            chars@ == source@,
            texts(names@) == option_names(),
            patterns@ == patterns_named(option_names()),
            token_views(tokens) + lexed(chars@.skip(pos as int)) == lexed(chars@),
        decreases chars@.len() - pos,
    {
        let ghost text = chars@.skip(pos as int);
        let ghost before = token_views(tokens);
        proof {
            lemma_piece_len(text);
        }
        match find_first(&patterns, &chars, pos, Ghost(option_names())) {
            Some((index, end)) => {
                let matched = text_between(&chars, pos, end);
                assert(matched@ =~= text.take(end - pos));
                assert(texts(names@)[index as int] == names@[index as int]@);
                let token = Token::get_token(names[index], matched.as_str());
                crate::queue::add(&mut tokens, token);
                proof {
                    assert(token_views(tokens) =~= before.push(token@));
                    assert(text.skip(end - pos) =~= chars@.skip(end as int));
                    assert(before.push(token@) + lexed(chars@.skip(end as int)) =~= before + (
                    seq![token@] + lexed(chars@.skip(end as int))));
                }
                pos = end;
            },
            None => {
                let c: char = chars[pos];
                assert(text[0] == c);
                assert(text.skip(1) =~= chars@.skip(pos + 1));
                if !(c == ' ' || c == '\n' || c == '\r') {
                    let unknown = text_between(&chars, pos, pos + 1);
                    assert(unknown@ =~= text.take(1));
                    let token = Token::Error(unknown);
                    crate::queue::add(&mut tokens, token);
                    proof {
                        assert(token_views(tokens) =~= before.push(token@));
                        assert(before.push(token@) + lexed(chars@.skip(pos + 1)) =~= before + (
                        seq![token@] + lexed(chars@.skip(pos + 1))));
                    }
                } else {
                    assert(Seq::<TokenView>::empty() + lexed(chars@.skip(pos + 1)) =~= lexed(
                        chars@.skip(pos + 1),
                    ));
                }
                pos = pos + 1;
            },
        }
    }
    assert(token_views(tokens) + Seq::<TokenView>::empty() =~= token_views(tokens));
    tokens
}

/// Every token that the lexer gives carries what a token of its kind carries.
pub proof fn lemma_lexed_well_formed(text: Seq<char>)
    ensures
        forall|i: int| 0 <= i < lexed(text).len() ==> (#[trigger] lexed(text)[i]).well_formed(),
    decreases text.len(),
{
    if text.len() > 0 {
        lemma_piece_len(text);
        let first = emitted(piece(text));
        let rest = lexed(text.skip(piece(text).len as int));
        lemma_lexed_well_formed(text.skip(piece(text).len as int));
        assert forall|i: int| 0 <= i < lexed(text).len() implies (#[trigger] lexed(
            text,
        )[i]).well_formed() by {
            if i < first.len() {
                assert(lexed(text)[i] == first[i]);
            } else {
                assert(lexed(text)[i] == rest[i - first.len()]);
            }
        }
    }
}

} // verus!
