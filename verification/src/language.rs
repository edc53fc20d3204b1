//! The language as a whole: the text of each of its programs, and what the three stages
//! make of it, one after the other.

use crate::lexing::language::{
    ends_run, is_name, lemma_lex_int, lemma_lex_mark, lemma_lex_name, lemma_lex_number,
    lemma_lex_return, mark_of,
};
use crate::lexing::{lemma_lexed_well_formed, lexed};
use crate::lexing::scan::in_class;
use crate::lexing::spacing::{all_blank, lemma_leading_blanks};
use crate::lexing::token::{TokenKind, TokenView};
use crate::parsing::assembly::assembly;
use crate::parsing::descent::Outcome;
use crate::parsing::error::StructuralDefect;
use crate::parsing::language::{
    all_unary, expression_tokens, lemma_parse_program, lemma_parsed_only_programs,
    lemma_program_code, program_code, program_tokens, program_tree,
};
use crate::parsing::meaning::{is_unary, lemma_parsed_is_program_outcome, program_outcome};
use crate::text::decimal_text;
use vstd::prelude::*;

verus! {

/// Whether `gaps` are runs of white space, one for each place before, between and after
/// `count` tokens.
pub open spec fn are_gaps(gaps: Seq<Seq<char>>, count: nat) -> bool {
    gaps.len() == count + 1 && forall|i: int| 0 <= i < gaps.len() ==> all_blank(#[trigger] gaps[i])
}

/// An expression as it may be written, and what follows it: before each operator and
/// before the integer the gap of its place, the first of them `gaps[from]`, and after
/// the integer `rest`.
pub open spec fn expression_text(
    operators: Seq<TokenKind>,
    value: usize,
    gaps: Seq<Seq<char>>,
    from: int,
    rest: Seq<char>,
) -> Seq<char>
    decreases operators.len(),
{
    if operators.len() == 0 {
        gaps[from] + (decimal_text(value as nat) + rest)
    } else {
        gaps[from] + (seq![mark_of(operators[0])->Some_0] + expression_text(
            operators.skip(1),
            value,
            gaps,
            from + 1,
            rest,
        ))
    }
}

/// The body of a function as it may be written, from `return` to the closing brace,
/// with the white space before each token and after the last.
pub open spec fn body_text(operators: Seq<TokenKind>, value: usize, gaps: Seq<Seq<char>>) -> Seq<
    char,
> {
    let n = operators.len() as int;
    let close = gaps[8 + n] + (seq!['}'] + gaps[9 + n]);
    let end = gaps[7 + n] + (seq![';'] + close);
    gaps[5] + ("return"@ + expression_text(operators, value, gaps, 6, end))
}

/// A program as it may be written: `int <name>(){return <operators><integer>;}`, with
/// any white space, or none, before, between and after its tokens. `gaps[i]` is what
/// stands before the token at place `i`, and the last of `gaps` is what stands after the
/// last token.
pub open spec fn program_text(
    name: Seq<char>,
    operators: Seq<TokenKind>,
    value: usize,
    gaps: Seq<Seq<char>>,
) -> Seq<char> {
    let brace = gaps[4] + (seq!['{'] + body_text(operators, value, gaps));
    let right = gaps[3] + (seq![')'] + brace);
    let left = gaps[2] + (seq!['('] + right);
    gaps[0] + ("int"@ + (gaps[1] + (name + left)))
}

/// White space ends a run, and so does any character that is no part of it.
proof fn lemma_gap_ends_run(gap: Seq<char>, next: char, rest: Seq<char>, words: bool)
    requires
        all_blank(gap),
        !in_class(next, words),
    ensures
        ends_run(gap + (seq![next] + rest), words),
{
    let text = gap + (seq![next] + rest);
    if gap.len() > 0 {
        assert(text[0] == gap[0]);
    } else {
        assert(text[0] == next);
    }
}

/// A one-character token after any white space gives the token of its kind.
proof fn lemma_lex_spaced_mark(gap: Seq<char>, kind: TokenKind, rest: Seq<char>)
    requires
        all_blank(gap),
        mark_of(kind) is Some,
    ensures
        lexed(gap + (seq![mark_of(kind)->Some_0] + rest)) == seq![TokenView::plain(kind)] + lexed(
            rest,
        ),
{
    lemma_leading_blanks(gap, seq![mark_of(kind)->Some_0] + rest);
    lemma_lex_mark(kind, rest);
}

/// The text of an expression, with any white space between its tokens, gives the tokens
/// of the expression.
proof fn lemma_lex_expression(
    operators: Seq<TokenKind>,
    value: usize,
    gaps: Seq<Seq<char>>,
    from: int,
    rest: Seq<char>,
)
    requires
        all_unary(operators),
        0 <= from,
        from + operators.len() < gaps.len(),
        forall|i: int| 0 <= i < gaps.len() ==> all_blank(#[trigger] gaps[i]),
        ends_run(rest, false),
    ensures
        lexed(expression_text(operators, value, gaps, from, rest)) == expression_tokens(
            operators,
            value,
        ) + lexed(rest),
    decreases operators.len(),
{
    if operators.len() == 0 {
        lemma_leading_blanks(gaps[from], decimal_text(value as nat) + rest);
        lemma_lex_number(value, rest);
        assert(expression_tokens(operators, value) =~= seq![TokenView::number(value)]);
    } else {
        let kind = operators[0];
        let inner = operators.skip(1);
        assert(is_unary(kind));
        assert forall|i: int| 0 <= i < inner.len() implies is_unary(#[trigger] inner[i]) by {
            assert(inner[i] == operators[i + 1]);
        }
        lemma_lex_spaced_mark(
            gaps[from],
            kind,
            expression_text(inner, value, gaps, from + 1, rest),
        );
        lemma_lex_expression(inner, value, gaps, from + 1, rest);
        assert(seq![TokenView::plain(kind)] + (expression_tokens(inner, value) + lexed(rest))
            =~= expression_tokens(operators, value) + lexed(rest));
    }
}

/// One item before another before a sequence is the two items before the sequence.
proof fn lemma_two_before<T>(first: T, second: T, rest: Seq<T>)
    ensures
        seq![first] + (seq![second] + rest) == seq![first, second] + rest,
{
    assert(seq![first] + (seq![second] + rest) =~= seq![first, second] + rest);
}

/// The tokens of a program are those of its head, which names it, those of its three
/// brackets, and those of its body.
proof fn lemma_program_tokens(name: Seq<char>, operators: Seq<TokenKind>, value: usize)
    ensures
        program_tokens(name, operators, value) == seq![
            TokenView::plain(TokenKind::Int),
            TokenView::with_text(TokenKind::Identifier, name),
        ] + (seq![TokenView::plain(TokenKind::OpenParen), TokenView::plain(TokenKind::CloseParen)]
            + (seq![TokenView::plain(TokenKind::OpenBrace)] + (seq![
            TokenView::plain(TokenKind::ReturnKeyword),
        ] + (expression_tokens(operators, value) + seq![
            TokenView::plain(TokenKind::Semicolon),
            TokenView::plain(TokenKind::CloseBrace),
        ])))),
{
    let tail = seq![
        TokenView::plain(TokenKind::ReturnKeyword),
    ] + (expression_tokens(operators, value) + seq![
        TokenView::plain(TokenKind::Semicolon),
        TokenView::plain(TokenKind::CloseBrace),
    ]);
    assert(program_tokens(name, operators, value) =~= seq![
        TokenView::plain(TokenKind::Int),
        TokenView::with_text(TokenKind::Identifier, name),
    ] + (seq![TokenView::plain(TokenKind::OpenParen), TokenView::plain(TokenKind::CloseParen)]
        + (seq![TokenView::plain(TokenKind::OpenBrace)] + tail)));
}

/// The text of the end of a function gives its tokens: the semicolon and the closing
/// brace.
proof fn lemma_lex_end(gaps: Seq<Seq<char>>, n: int)
    requires
        0 <= n,
        gaps.len() == 10 + n,
        forall|i: int| 0 <= i < gaps.len() ==> all_blank(#[trigger] gaps[i]),
    ensures
        lexed(gaps[7 + n] + (seq![';'] + (gaps[8 + n] + (seq!['}'] + gaps[9 + n])))) == seq![
            TokenView::plain(TokenKind::Semicolon),
            TokenView::plain(TokenKind::CloseBrace),
        ],
        ends_run(gaps[7 + n] + (seq![';'] + (gaps[8 + n] + (seq!['}'] + gaps[9 + n]))), false),
{
    let last = gaps[9 + n];
    let close = gaps[8 + n] + (seq!['}'] + last);
    lemma_leading_blanks(last, Seq::empty());
    assert(last + Seq::<char>::empty() =~= last);
    assert(lexed(Seq::<char>::empty()) =~= Seq::<TokenView>::empty());
    lemma_lex_spaced_mark(gaps[8 + n], TokenKind::CloseBrace, last);
    lemma_lex_spaced_mark(gaps[7 + n], TokenKind::Semicolon, close);
    lemma_two_before(
        TokenView::plain(TokenKind::Semicolon),
        TokenView::plain(TokenKind::CloseBrace),
        Seq::empty(),
    );
    assert(seq![
        TokenView::plain(TokenKind::Semicolon),
        TokenView::plain(TokenKind::CloseBrace),
    ] + Seq::<TokenView>::empty() =~= seq![
        TokenView::plain(TokenKind::Semicolon),
        TokenView::plain(TokenKind::CloseBrace),
    ]);
    lemma_gap_ends_run(gaps[7 + n], ';', close, false);
}

/// The text of the body of a function gives its tokens: `return`, the expression, the
/// semicolon and the closing brace.
proof fn lemma_lex_body(operators: Seq<TokenKind>, value: usize, gaps: Seq<Seq<char>>)
    requires
        all_unary(operators),
        are_gaps(gaps, 9 + operators.len()),
    ensures
        lexed(body_text(operators, value, gaps)) == seq![
            TokenView::plain(TokenKind::ReturnKeyword),
        ] + (expression_tokens(operators, value) + seq![
            TokenView::plain(TokenKind::Semicolon),
            TokenView::plain(TokenKind::CloseBrace),
        ]),
{
    let n = operators.len() as int;
    let end = gaps[7 + n] + (seq![';'] + (gaps[8 + n] + (seq!['}'] + gaps[9 + n])));
    let expression = expression_text(operators, value, gaps, 6, end);
    lemma_lex_end(gaps, n);
    lemma_lex_expression(operators, value, gaps, 6, end);
    lemma_leading_blanks(gaps[5], "return"@ + expression);
    lemma_lex_return(expression);
}

/// The text of a function from its opening bracket on gives the three brackets and the
/// tokens of the body.
proof fn lemma_lex_brackets(body: Seq<char>, gaps: Seq<Seq<char>>)
    requires
        gaps.len() > 4,
        forall|i: int| 0 <= i < gaps.len() ==> all_blank(#[trigger] gaps[i]),
    ensures
        lexed(gaps[2] + (seq!['('] + (gaps[3] + (seq![')'] + (gaps[4] + (seq!['{'] + body))))))
            == seq![
            TokenView::plain(TokenKind::OpenParen),
            TokenView::plain(TokenKind::CloseParen),
        ] + (seq![TokenView::plain(TokenKind::OpenBrace)] + lexed(body)),
        ends_run(
            gaps[2] + (seq!['('] + (gaps[3] + (seq![')'] + (gaps[4] + (seq!['{'] + body))))),
            true,
        ),
{
    let brace = gaps[4] + (seq!['{'] + body);
    let right = gaps[3] + (seq![')'] + brace);
    lemma_lex_spaced_mark(gaps[4], TokenKind::OpenBrace, body);
    lemma_lex_spaced_mark(gaps[3], TokenKind::CloseParen, brace);
    lemma_lex_spaced_mark(gaps[2], TokenKind::OpenParen, right);
    lemma_two_before(
        TokenView::plain(TokenKind::OpenParen),
        TokenView::plain(TokenKind::CloseParen),
        seq![TokenView::plain(TokenKind::OpenBrace)] + lexed(body),
    );
    lemma_gap_ends_run(gaps[2], '(', right, true);
}

/// The text of every program of the language gives the tokens of that program, however
/// much white space stands between its tokens, and also where none does.
pub proof fn lemma_lex_program(
    name: Seq<char>,
    operators: Seq<TokenKind>,
    value: usize,
    gaps: Seq<Seq<char>>,
)
    requires
        is_name(name),
        all_unary(operators),
        are_gaps(gaps, 9 + operators.len()),
    ensures
        lexed(program_text(name, operators, value, gaps)) == program_tokens(
            name,
            operators,
            value,
        ),
{
    let body = body_text(operators, value, gaps);
    let left = gaps[2] + (seq!['('] + (gaps[3] + (seq![')'] + (gaps[4] + (seq!['{'] + body)))));
    let named = gaps[1] + (name + left);
    lemma_lex_body(operators, value, gaps);
    lemma_lex_brackets(body, gaps);
    lemma_leading_blanks(gaps[1], name + left);
    lemma_lex_name(name, left);
    lemma_leading_blanks(gaps[0], "int"@ + named);
    lemma_lex_int(named);
    lemma_two_before(
        TokenView::plain(TokenKind::Int),
        TokenView::with_text(TokenKind::Identifier, name),
        lexed(left),
    );
    lemma_program_tokens(name, operators, value);
}

/// The compiler is right about every program of the language. Of the text
/// `int <name>(){return <operators><integer>;}`, whatever the name, the chain of unary
/// operators and the integer, and whatever white space stands between its tokens:
/// - the lexer gives the tokens of the program;
/// - the parser makes of those tokens the tree of the program, and leaves no token;
/// - the code generator writes for that tree the label of the function, the load of the
///   integer, the instructions of the operators from the innermost outwards, and a return.
pub proof fn lemma_compile_program(
    name: Seq<char>,
    operators: Seq<TokenKind>,
    value: usize,
    gaps: Seq<Seq<char>>,
)
    requires
        is_name(name),
        all_unary(operators),
        are_gaps(gaps, 9 + operators.len()),
    ensures
        lexed(program_text(name, operators, value, gaps)) == program_tokens(
            name,
            operators,
            value,
        ),
        program_outcome(lexed(program_text(name, operators, value, gaps))) == (Outcome {
            result: Ok(program_tree(name, operators, value)),
            rest: Seq::empty(),
        }),
        assembly(program_tree(name, operators, value)) == Ok::<Seq<char>, StructuralDefect>(
            program_code(name, operators, value),
        ),
{
    lemma_lex_program(name, operators, value, gaps);
    let tokens = program_tokens(name, operators, value);
    lemma_parse_program(name, operators, value, Seq::empty());
    assert(tokens + Seq::<TokenView>::empty() =~= tokens);
    lemma_parsed_is_program_outcome(tokens);
    lemma_program_code(name, operators, value);
}

/// The compiler accepts nothing but programs. Where the tokens of a text parse, they are
/// the tokens of a program of the language, before the tokens that the parse left:
/// there are a name, a chain of unary operators and an integer of which they are
/// `int <name>(){return <operators><integer>;}`.
pub proof fn lemma_compiled_only_programs(text: Seq<char>)
    requires
        program_outcome(lexed(text)).result is Ok,
    ensures
        exists|name: Seq<char>, operators: Seq<TokenKind>, value: usize|
            all_unary(operators) && lexed(text) == #[trigger] program_tokens(
                name,
                operators,
                value,
            ) + program_outcome(lexed(text)).rest,
{
    lemma_lexed_well_formed(text);
    lemma_parsed_is_program_outcome(lexed(text));
    lemma_parsed_only_programs(lexed(text));
}

} // verus!
