//! White space between tokens does not matter: the law, and its proof.

use crate::lexing::scan::{
    in_class, is_blank, lemma_run, lemma_run_is, match_len, pattern_named, run, Pattern,
};
use crate::lexing::token::{option_names, TokenKind, TokenView};
use crate::lexing::{emitted, first_match, lemma_piece_len, lexed, piece};
use crate::text::{is_digit, is_letter};
use vstd::prelude::*;

verus! {

/// Whether every character of `text` is white space.
pub open spec fn all_blank(text: Seq<char>) -> bool {
    forall|i: int| 0 <= i < text.len() ==> is_blank(#[trigger] text[i])
}

/// Whether the lexer, reading `text`, begins a step at `at`: the start of the text, and
/// from there where each step ends. These are the places between two tokens, between a
/// token and white space, within white space, and the end of the text.
pub open spec fn is_boundary(text: Seq<char>, at: nat) -> bool
    decreases text.len(),
{
    if at == 0 {
        true
    } else if text.len() == 0 {
        false
    } else {
        proof {
            lemma_piece_len(text);
        }
        piece(text).len <= at && is_boundary(
            text.skip(piece(text).len as int),
            (at - piece(text).len) as nat,
        )
    }
}

/// The kinds of a sequence of tokens.
pub open spec fn kinds(tokens: Seq<TokenView>) -> Seq<TokenKind> {
    tokens.map_values(|token: TokenView| token.kind)
}

/// `text` with `blanks` put in at `at`.
pub open spec fn spaced(text: Seq<char>, at: nat, blanks: Seq<char>) -> Seq<char> {
    text.take(at as int) + blanks + text.skip(at as int)
}

/// Whether white space cannot be part of what a pattern matches: a fixed text must hold none.
pub open spec fn blank_free(pattern: Pattern) -> bool {
    match pattern {
        Pattern::Literal(literal) => forall|i: int|
            0 <= i < literal@.len() ==> !is_blank(#[trigger] literal@[i]),
        _ => true,
    }
}

/// No pattern of the language holds white space.
pub proof fn lemma_patterns_blank_free(name: Seq<char>)
    ensures
        match pattern_named(name) {
            Some(pattern) => blank_free(pattern),
            None => true,
        },
{
    reveal_strlit("{");
    reveal_strlit("}");
    reveal_strlit("(");
    reveal_strlit(")");
    reveal_strlit(";");
    reveal_strlit("int");
    reveal_strlit("return");
    reveal_strlit("-");
    reveal_strlit("~");
    reveal_strlit("!");
}

/// No pattern without white space matches a text that begins with white space.
proof fn lemma_no_match_at_blank(pattern: Pattern, text: Seq<char>)
    requires
        text.len() > 0,
        is_blank(text[0]),
        blank_free(pattern),
    ensures
        match_len(pattern, text) is None,
{
    match pattern {
        Pattern::Literal(literal) => {
            if literal@.len() > 0 && literal@.is_prefix_of(text) {
                assert(literal@[0] == text.subrange(0, literal@.len() as int)[0]);
                assert(false);
            }
        },
        _ => {},
    }
}

/// No kind of token begins with white space.
proof fn lemma_no_first_match_at_blank(names: Seq<Seq<char>>, text: Seq<char>, from: nat)
    requires
        text.len() > 0,
        is_blank(text[0]),
    ensures
        first_match(names, text, from) is None,
    decreases names.len() - from,
{
    if from < names.len() {
        lemma_patterns_blank_free(names[from as int]);
        match pattern_named(names[from as int]) {
            Some(pattern) => {
                lemma_no_match_at_blank(pattern, text);
            },
            None => {},
        }
        lemma_no_first_match_at_blank(names, text, from + 1);
    }
}

/// White space before a text gives no token.
pub proof fn lemma_leading_blanks(blanks: Seq<char>, rest: Seq<char>)
    requires
        all_blank(blanks),
    ensures
        lexed(blanks + rest) == lexed(rest),
    decreases blanks.len(),
{
    let text = blanks + rest;
    if blanks.len() == 0 {
        assert(text =~= rest);
    } else {
        assert(text[0] == blanks[0]);
        lemma_no_first_match_at_blank(option_names(), text, 0);
        assert(piece(text).len == 1);
        assert(piece(text).token is None);
        assert(text.skip(1) =~= blanks.skip(1) + rest);
        assert forall|i: int| 0 <= i < blanks.skip(1).len() implies is_blank(
            #[trigger] blanks.skip(1)[i],
        ) by {
            assert(blanks.skip(1)[i] == blanks[i + 1]);
        }
        lemma_leading_blanks(blanks.skip(1), rest);
        assert(emitted(piece(text)) + lexed(text.skip(1)) =~= lexed(text.skip(1)));
    }
}

/// A pattern that matches no further than `at` does not see what comes from `at` on, and
/// a pattern that does not match goes on not to match where white space comes in at `at`.
proof fn lemma_match_stable(pattern: Pattern, text: Seq<char>, other: Seq<char>, at: nat)
    requires
        1 <= at <= text.len(),
        at < other.len(),
        other.take(at as int) == text.take(at as int),
        is_blank(other[at as int]),
        blank_free(pattern),
    ensures
        match match_len(pattern, text) {
            Some(len) => len <= at ==> match_len(pattern, other) == Some(len),
            None => match_len(pattern, other) is None,
        },
{
    assert forall|i: int| 0 <= i < at implies other[i] == text[i] by {
        assert(other.take(at as int)[i] == other[i]);
        assert(text.take(at as int)[i] == text[i]);
    }
    match pattern {
        Pattern::Literal(literal) => {
            let l = literal@;
            if l.len() > 0 && l.is_prefix_of(text) {
                if l.len() <= at {
                    assert(l =~= other.subrange(0, l.len() as int));
                }
            } else if l.len() > 0 && l.is_prefix_of(other) {
                if l.len() <= at {
                    assert(l =~= text.subrange(0, l.len() as int));
                } else {
                    assert(l[at as int] == other.subrange(0, l.len() as int)[at as int]);
                }
                assert(false);
            }
        },
        Pattern::Identifier => {
            if is_letter(text[0]) {
                let len = 1 + run(text.skip(1), true);
                if len <= at {
                    lemma_run(text.skip(1), true);
                    assert forall|i: int| 0 <= i < len - 1 implies in_class(
                        #[trigger] other.skip(1)[i],
                        true,
                    ) by {
                        assert(other.skip(1)[i] == text.skip(1)[i]);
                    }
                    if len < at {
                        assert(other.skip(1)[len - 1] == text.skip(1)[len - 1]);
                    } else {
                        assert(other.skip(1)[len - 1] == other[at as int]);
                    }
                    lemma_run_is(other.skip(1), true, (len - 1) as nat);
                }
            }
        },
        Pattern::IntegerLiteral => {
            if is_digit(text[0]) {
                let len = run(text, false);
                if len <= at {
                    lemma_run(text, false);
                    assert forall|i: int| 0 <= i < len implies in_class(
                        #[trigger] other[i],
                        false,
                    ) by {}
                    lemma_run_is(other, false, len);
                }
            }
        },
    }
}

/// What holds of each pattern holds of the first that matches.
proof fn lemma_first_match_stable(
    names: Seq<Seq<char>>,
    text: Seq<char>,
    other: Seq<char>,
    at: nat,
    from: nat,
)
    requires
        1 <= at <= text.len(),
        at < other.len(),
        other.take(at as int) == text.take(at as int),
        is_blank(other[at as int]),
        match first_match(names, text, from) {
            Some(found) => found.len <= at,
            None => true,
        },
    ensures
        first_match(names, other, from) == first_match(names, text, from),
    decreases names.len() - from,
{
    if from < names.len() {
        lemma_patterns_blank_free(names[from as int]);
        match pattern_named(names[from as int]) {
            Some(pattern) => {
                lemma_match_stable(pattern, text, other, at);
                if match_len(pattern, text) is None {
                    lemma_first_match_stable(names, text, other, at, from + 1);
                }
            },
            None => {
                lemma_first_match_stable(names, text, other, at, from + 1);
            },
        }
    }
}

/// A step that ends no further than `at` is the same step with white space put in at `at`.
proof fn lemma_piece_stable(text: Seq<char>, at: nat, blanks: Seq<char>)
    requires
        text.len() > 0,
        piece(text).len <= at <= text.len(),
        all_blank(blanks),
    ensures
        piece(spaced(text, at, blanks)) == piece(text),
{
    let other = spaced(text, at, blanks);
    lemma_piece_len(text);
    if blanks.len() == 0 {
        assert(other =~= text);
    } else {
        assert(other.take(at as int) =~= text.take(at as int));
        assert(other[at as int] == blanks[0]);
        assert(other[0] == text[0]);
        lemma_first_match_stable(option_names(), text, other, at, 0);
        match first_match(option_names(), text, 0) {
            Some(found) => {
                assert(other.take(found.len as int) =~= text.take(found.len as int));
            },
            None => {
                assert(other.take(1) =~= text.take(1));
            },
        }
    }
}

/// White space between tokens does not matter. Putting any run of spaces, line feeds
/// and carriage returns into a text at a place where the lexer begins a step, which is
/// every place between two tokens, leaves the tokens as they were: the same kinds and the
/// same texts and numbers, in the same order.
pub proof fn lemma_blanks_between_tokens(text: Seq<char>, at: nat, blanks: Seq<char>)
    requires
        at <= text.len(),
        is_boundary(text, at),
        all_blank(blanks),
    ensures
        lexed(spaced(text, at, blanks)) == lexed(text),
        kinds(lexed(spaced(text, at, blanks))) == kinds(lexed(text)),
    decreases text.len(),
{
    let other = spaced(text, at, blanks);
    if at == 0 {
        assert(other =~= blanks + text);
        lemma_leading_blanks(blanks, text);
    } else {
        lemma_piece_len(text);
        let len = piece(text).len;
        lemma_piece_stable(text, at, blanks);
        let rest = text.skip(len as int);
        assert(other.skip(len as int) =~= spaced(rest, (at - len) as nat, blanks));
        lemma_blanks_between_tokens(rest, (at - len) as nat, blanks);
    }
}

} // verus!
