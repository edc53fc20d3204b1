//! The patterns of the tokens, and how each is matched at the start of a text.
//!
//! A pattern is anchored: it matches a prefix of the text or nothing. There are three shapes:
//! a fixed text, an identifier (a letter and then word characters, as many as there are),
//! and an integer literal (digits, as many as there are).
//!
//! Among the first 128 characters the word characters are the letters, the digits and the
//! underscore. Which of the other characters are word characters is asked of the `regex`
//! crate, whose class `\w` they are.

use crate::text::{is_digit, is_letter, same_text};
use regex::Regex;
use vstd::prelude::*;

verus! {

/// The shape of what a kind of token looks like in the text.
#[derive(Debug, Clone, Copy, PartialEq, Eq)]
pub enum Pattern {
    /// Exactly this text.
    Literal(&'static str),
    /// A letter, then the longest run of word characters.
    Identifier,
    /// The longest run of digits, one at least.
    IntegerLiteral,
}

/// The class of word characters, in the notation of the `regex` crate.
pub const WORD_CLASS: &'static str = "\\w";

/// What the `regex` crate says of one character and a pattern: whether the
/// text that holds the character alone matches the pattern. `None` stands for a pattern
/// that the crate does not accept.
pub uninterp spec fn regex_matches_char(pattern: Seq<char>, c: char) -> Option<bool>;

/// Whether `c` is one of the first 128 characters.
pub open spec fn is_basic(c: char) -> bool {
    c <= '\x7f'
}

/// Whether `c` is a word character, given what the `regex` crate says of `c` and
/// [`WORD_CLASS`]. Among the first 128 characters the word characters are the letters, the
/// digits and the underscore, and the answer is not read; of any other character the answer
/// decides.
pub open spec fn word_given(c: char, answer: Option<bool>) -> bool {
    if is_basic(c) {
        is_letter(c) || is_digit(c) || c == '_'
    } else {
        answer == Some(true)
    }
}

/// Whether `c` is a word character: a character that may follow the first letter of an
/// identifier.
pub open spec fn is_word(c: char) -> bool {
    word_given(c, regex_matches_char(WORD_CLASS@, c))
}

/// Whether `c` is white space between tokens: a space, a line feed or a carriage return.
pub open spec fn is_blank(c: char) -> bool {
    c == ' ' || c == '\n' || c == '\r'
}

/// Whether `c` belongs to the class of a run: the word characters, or else the digits.
pub open spec fn in_class(c: char, words: bool) -> bool {
    if words {
        is_word(c)
    } else {
        is_digit(c)
    }
}

/// How many characters at the start of `text` belong to the class, one after the other.
pub open spec fn run(text: Seq<char>, words: bool) -> nat
    decreases text.len(),
{
    if text.len() > 0 && in_class(text[0], words) {
        1 + run(text.skip(1), words)
    } else {
        0
    }
}

/// How many characters of the start of `text` the pattern matches, if it matches there.
/// A match is never empty.
pub open spec fn match_len(pattern: Pattern, text: Seq<char>) -> Option<nat> {
    match pattern {
        Pattern::Literal(literal) => if literal@.len() > 0 && literal@.is_prefix_of(text) {
            Some(literal@.len())
        } else {
            None
        },
        Pattern::Identifier => if text.len() > 0 && is_letter(text[0]) {
            Some(1 + run(text.skip(1), true))
        } else {
            None
        },
        Pattern::IntegerLiteral => if text.len() > 0 && is_digit(text[0]) {
            Some(run(text, false))
        } else {
            None
        },
    }
}

/// The pattern of the kind of token that `name` names. Only the kinds that the lexer looks
/// for have one.
pub open spec fn pattern_named(name: Seq<char>) -> Option<Pattern> {
    if name == "OpenBrace"@ {
        Some(Pattern::Literal("{"))
    } else if name == "CloseBrace"@ {
        Some(Pattern::Literal("}"))
    } else if name == "OpenParen"@ {
        Some(Pattern::Literal("("))
    } else if name == "CloseParen"@ {
        Some(Pattern::Literal(")"))
    } else if name == "Semicolon"@ {
        Some(Pattern::Literal(";"))
    } else if name == "Int"@ {
        Some(Pattern::Literal("int"))
    } else if name == "ReturnKeyword"@ {
        Some(Pattern::Literal("return"))
    } else if name == "Negation"@ {
        Some(Pattern::Literal("-"))
    } else if name == "BitwiseComplement"@ {
        Some(Pattern::Literal("~"))
    } else if name == "LogicalNegation"@ {
        Some(Pattern::Literal("!"))
    } else if name == "Identifier"@ {
        Some(Pattern::Identifier)
    } else if name == "IntegerLiteral"@ {
        Some(Pattern::IntegerLiteral)
    } else {
        None
    }
}

/// The length of a run, and what lies at its end: every character of the run belongs to
/// the class, and the run ends with the text or before a character that does not.
pub proof fn lemma_run(text: Seq<char>, words: bool)
    ensures
        run(text, words) <= text.len(),
        forall|i: int| 0 <= i < run(text, words) ==> in_class(#[trigger] text[i], words),
        run(text, words) < text.len() ==> !in_class(text[run(text, words) as int], words),
    decreases text.len(),
{
    if text.len() > 0 && in_class(text[0], words) {
        let rest = text.skip(1);
        lemma_run(rest, words);
        assert forall|i: int| 0 <= i < run(text, words) implies in_class(
            #[trigger] text[i],
            words,
        ) by {
            if i > 0 {
                assert(text[i] == rest[i - 1]);
            }
        }
        if run(text, words) < text.len() {
            assert(text[run(text, words) as int] == rest[run(rest, words) as int]);
        }
    }
}

/// A run is as long as `n` where the first `n` characters belong to the class and what
/// comes next, if anything, does not.
pub proof fn lemma_run_is(text: Seq<char>, words: bool, n: nat)
    requires
        n <= text.len(),
        forall|i: int| 0 <= i < n ==> in_class(#[trigger] text[i], words),
        n < text.len() ==> !in_class(text[n as int], words),
    ensures
        run(text, words) == n,
    decreases n,
{
    if n > 0 {
        let rest = text.skip(1);
        assert(in_class(text[0], words));
        assert forall|i: int| 0 <= i < n - 1 implies in_class(#[trigger] rest[i], words) by {
            assert(rest[i] == text[i + 1]);
        }
        lemma_run_is(rest, words, (n - 1) as nat);
    }
}

/// `Regex::new` on `pattern` and then `Regex::is_match` on the text that holds `c` alone:
/// whether the character matches the pattern, or `None` where the crate does not accept
/// the pattern.
#[verifier::external_body]
fn matches_char(pattern: &str, c: char) -> (r: Option<bool>)
    ensures
        r == regex_matches_char(pattern@, c),
{
    let mut buffer = [0u8; 4];
    match Regex::new(pattern) {
        Ok(re) => Some(re.is_match(c.encode_utf8(&mut buffer))),
        Err(_) => None,
    }
}

/// Whether `c` is a word character, given what the `regex` crate says of `c` and
/// [`WORD_CLASS`].
pub fn word_char_given(c: char, answer: Option<bool>) -> (r: bool)
    ensures
        r == word_given(c, answer),
{
    if c <= '\x7f' {
        ('a' <= c && c <= 'z') || ('A' <= c && c <= 'Z') || ('0' <= c && c <= '9') || c == '_'
    } else {
        match answer {
            Some(yes) => yes,
            None => false,
        }
    }
}

/// Whether `c` is a word character.
pub fn is_word_char(c: char) -> (r: bool)
    ensures
        r == is_word(c),
{
    if c <= '\x7f' {
        word_char_given(c, None)
    } else {
        word_char_given(c, matches_char(WORD_CLASS, c))
    }
}

/// Where the run of the class that begins at `from` ends.
fn run_end(chars: &Vec<char>, from: usize, words: bool) -> (end: usize)
    requires
        from <= chars@.len(),
    ensures
        end == from + run(chars@.skip(from as int), words),
        end <= chars@.len(),
{
    let mut end: usize = from;
    while end < chars.len()
        invariant
            from <= end <= chars@.len(),
            forall|i: int| from <= i < end ==> in_class(#[trigger] chars@[i], words),
        decreases chars@.len() - end,
    {
        let c: char = chars[end];
        let inside: bool = if words {
            is_word_char(c)
        } else {
            '0' <= c && c <= '9'
        };
        if !inside {
            proof {
                lemma_run_is(chars@.skip(from as int), words, (end - from) as nat);
            }
            return end;
        }
        end = end + 1;
    }
    proof {
        lemma_run_is(chars@.skip(from as int), words, (end - from) as nat);
    }
    end
}

/// Whether the text `literal` stands at `from`.
fn stands_at(chars: &Vec<char>, from: usize, literal: &Vec<char>) -> (r: bool)
    requires
        from <= chars@.len(),
    ensures
        r == literal@.is_prefix_of(chars@.skip(from as int)),
        r ==> from + literal@.len() <= chars@.len(),
{
    let total: usize = chars.len();
    if literal.len() > total - from {
        return false;
    }
    let ghost text = chars@.skip(from as int);
    let mut i: usize = 0;
    while i < literal.len()
        invariant
            from <= chars@.len() == total,
            i <= literal@.len() <= chars@.len() - from,
            text == chars@.skip(from as int),
            forall|k: int| 0 <= k < i ==> #[trigger] literal@[k] == text[k],
        decreases literal@.len() - i,
    {
        if literal[i] != chars[from + i] {
            assert(text[i as int] != literal@[i as int]);
            assert(!(literal@ =~= text.subrange(0, literal@.len() as int)));
            return false;
        }
        i = i + 1;
    }
    assert(literal@ =~= text.subrange(0, literal@.len() as int));
    true
}

/// The pattern of the kind of token that `name` names, if the lexer looks for that kind.
pub fn get_pattern(name: &str) -> (r: Option<Pattern>)
    ensures
        r == pattern_named(name@),
{
    if same_text(name, "OpenBrace") {
        Some(Pattern::Literal("{"))
    } else if same_text(name, "CloseBrace") {
        Some(Pattern::Literal("}"))
    } else if same_text(name, "OpenParen") {
        Some(Pattern::Literal("("))
    } else if same_text(name, "CloseParen") {
        Some(Pattern::Literal(")"))
    } else if same_text(name, "Semicolon") {
        Some(Pattern::Literal(";"))
    } else if same_text(name, "Int") {
        Some(Pattern::Literal("int"))
    } else if same_text(name, "ReturnKeyword") {
        Some(Pattern::Literal("return"))
    } else if same_text(name, "Negation") {
        Some(Pattern::Literal("-"))
    } else if same_text(name, "BitwiseComplement") {
        Some(Pattern::Literal("~"))
    } else if same_text(name, "LogicalNegation") {
        Some(Pattern::Literal("!"))
    } else if same_text(name, "Identifier") {
        Some(Pattern::Identifier)
    } else if same_text(name, "IntegerLiteral") {
        Some(Pattern::IntegerLiteral)
    } else {
        None
    }
}

/// Matches `pattern` at `from`: where the match ends, if the pattern matches there.
pub fn match_at(pattern: Pattern, chars: &Vec<char>, from: usize) -> (end: Option<usize>)
    requires
        from <= chars@.len(),
    ensures
        match end {
            Some(end) => match_len(pattern, chars@.skip(from as int)) == Some(
                (end - from) as nat,
            ) && from < end <= chars@.len(),
            None => match_len(pattern, chars@.skip(from as int)) is None,
        },
{
    let ghost text = chars@.skip(from as int);
    match pattern {
        Pattern::Literal(literal) => {
            let wanted = crate::text::to_chars(literal);
            let total: usize = chars.len();
            if wanted.len() > 0 && stands_at(chars, from, &wanted) {
                assert(from + wanted@.len() <= total);
                Some(from + wanted.len())
            } else {
                None
            }
        },
        Pattern::Identifier => {
            if from < chars.len() && is_letter_char(chars[from]) {
                let end = run_end(chars, from + 1, true);
                assert(text.skip(1) =~= chars@.skip(from + 1));
                Some(end)
            } else {
                None
            }
        },
        Pattern::IntegerLiteral => {
            if from < chars.len() && '0' <= chars[from] && chars[from] <= '9' {
                let end = run_end(chars, from, false);
                Some(end)
            } else {
                None
            }
        },
    }
}

/// Whether `c` is a letter of the basic Latin alphabet.
pub fn is_letter_char(c: char) -> (r: bool)
    ensures
        r == is_letter(c),
{
    ('a' <= c && c <= 'z') || ('A' <= c && c <= 'Z')
}

} // verus!
