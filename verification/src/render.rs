//! Source text written out from tokens, and what the tokenizer makes of it:
//! layout, which is the whitespace around tokens, does not change the tokens.

use vstd::prelude::*;
use crate::decimal::{
    all_digits, decimal_digits, lemma_decimal_digits, lemma_decimal_value_nonnegative,
};
use crate::text::{
    is_alphabetic, is_digit, is_whitespace, lemma_run_len, lemma_run_len_is, CharClass,
};
use crate::token::{without_grouping, Instruction, TokenView};
use crate::tokenizer::{keyword, lemma_scan_advances, lex, scan, Lexed, Scan};

verus! {

/// The word that names `instruction`.
pub open spec fn instruction_name(instruction: Instruction) -> Seq<char> {
    match instruction {
        Instruction::Print => "print"@,
        Instruction::Add => "add"@,
        Instruction::Concat => "concat"@,
    }
}

/// The source text of `token`: a parenthesis, the word of an instruction,
/// the digits of an integer, or the text of a string between double quotes.
pub open spec fn token_text(token: TokenView) -> Seq<char> {
    match token {
        TokenView::LParen => seq!['('],
        TokenView::RParen => seq![')'],
        TokenView::Instruction(instruction) => instruction_name(instruction),
        TokenView::Integer(i) => decimal_digits(i as nat),
        TokenView::String(s) => seq!['"'] + s + seq!['"'],
    }
}

/// Whether source text can denote `token`: an integer literal has no sign,
/// and a string literal holds no double quote.
pub open spec fn writable(token: TokenView) -> bool {
    match token {
        TokenView::Integer(i) => i >= 0,
        TokenView::String(s) => forall|i: int| 0 <= i < s.len() ==> #[trigger] s[i] != '"',
        _ => true,
    }
}

/// Whether source text can denote each of `tokens`.
pub open spec fn all_writable(tokens: Seq<TokenView>) -> bool {
    forall|i: int| 0 <= i < tokens.len() ==> writable(#[trigger] tokens[i])
}

/// Whether `c`, right behind the text of `token`, would be read as a part
/// of that token: a letter behind a word, a digit behind an integer literal.
pub open spec fn extends(token: TokenView, c: char) -> bool {
    match token {
        TokenView::Instruction(_) => is_alphabetic(c),
        TokenView::Integer(_) => is_digit(c),
        _ => false,
    }
}

/// Whether `first` and `second` would run together if nothing stood
/// between them: two words, or two integer literals.
pub open spec fn needs_gap(first: TokenView, second: TokenView) -> bool {
    (first is Instruction && second is Instruction) || (first is Integer && second is Integer)
}

/// Whether `gap` is whitespace and nothing else.
pub open spec fn is_blank(gap: Seq<char>) -> bool {
    forall|i: int| 0 <= i < gap.len() ==> is_whitespace(#[trigger] gap[i])
}

/// Whether `gaps` lays out `tokens`: a gap before the first token, one
/// between each two tokens and one behind the last, each of them whitespace
/// or empty, and not empty between two tokens that would run together.
pub open spec fn is_layout(gaps: Seq<Seq<char>>, tokens: Seq<TokenView>) -> bool {
    &&& gaps.len() == tokens.len() + 1
    &&& forall|i: int| 0 <= i < gaps.len() ==> is_blank(#[trigger] gaps[i])
    &&& forall|i: int|
        0 < i < tokens.len() && needs_gap(tokens[i - 1], tokens[i]) ==> (#[trigger] gaps[i]).len()
            >= 1
}

/// The source text of `tokens` laid out with `gaps`: the first gap, then
/// each token followed by the next gap.
pub open spec fn render(tokens: Seq<TokenView>, gaps: Seq<Seq<char>>) -> Seq<char>
    decreases tokens.len(),
{
    if tokens.len() == 0 {
        gaps[0]
    } else {
        gaps[0] + token_text(tokens[0]) + render(tokens.skip(1), gaps.skip(1))
    }
}

/// Whitespace at the start of a text does not change its tokens.
pub proof fn lemma_lex_blank(gap: Seq<char>, rest: Seq<char>)
    requires
        is_blank(gap),
    ensures
        lex(gap + rest) == lex(rest),
    decreases gap.len(),
{
    if gap.len() == 0 {
        assert(gap + rest =~= rest);
    } else {
        let s = gap + rest;
        assert(scan(s) == Scan::Blank);
        assert(s.skip(1) =~= gap.skip(1) + rest);
        assert(is_blank(gap.skip(1)));
        lemma_lex_blank(gap.skip(1), rest);
    }
}

/// The name of an instruction is made of letters, and is the word that
/// names it.
pub proof fn lemma_instruction_name(instruction: Instruction)
    ensures
        instruction_name(instruction).len() >= 1,
        forall|i: int|
            0 <= i < instruction_name(instruction).len() ==> is_alphabetic(
                #[trigger] instruction_name(instruction)[i],
            ),
        keyword(instruction_name(instruction)) == Some(instruction),
{
    reveal_strlit("print");
    reveal_strlit("add");
    reveal_strlit("concat");
    assert("concat"@.len() != "add"@.len());
}

/// The text of a token is not empty, and its first character would be read
/// as a part of the token before it just where the two would run together.
pub proof fn lemma_token_text_start(first: TokenView, second: TokenView)
    requires
        writable(second),
    ensures
        token_text(second).len() >= 1,
        !is_whitespace(token_text(second)[0]),
        extends(first, token_text(second)[0]) <==> needs_gap(first, second),
{
    match second {
        TokenView::Instruction(instruction) => {
            lemma_instruction_name(instruction);
        },
        TokenView::Integer(i) => {
            lemma_decimal_digits(i as nat);
        },
        _ => {},
    }
}

/// The text of a token, then more text that does not run together with it:
/// the tokenizer finds the token, and goes on with the text behind it.
pub proof fn lemma_lex_token(token: TokenView, rest: Seq<char>)
    requires
        writable(token),
        rest.len() == 0 || !extends(token, rest[0]),
    ensures
        lex(token_text(token) + rest) == lex(rest).after(token),
{
    let text = token_text(token);
    let s = text + rest;
    let n = text.len() as int;
    match token {
        TokenView::LParen => {
            assert(s.skip(1) =~= rest);
        },
        TokenView::RParen => {
            assert(s.skip(1) =~= rest);
        },
        TokenView::Instruction(instruction) => {
            lemma_instruction_name(instruction);
            assert(forall|i: int| 0 <= i < n ==> s[i] == text[i]);
            lemma_run_len_is(s, CharClass::Letter, n);
            assert(s.take(n) =~= text);
            assert(s.skip(n) =~= rest);
        },
        TokenView::Integer(i) => {
            lemma_decimal_digits(i as nat);
            assert(forall|k: int| 0 <= k < n ==> s[k] == text[k]);
            lemma_run_len_is(s, CharClass::Digit, n);
            assert(s.take(n) =~= text);
            assert(s.skip(n) =~= rest);
        },
        TokenView::String(body) => {
            let m = body.len() as int;
            let inner = s.skip(1);
            assert(forall|k: int| 0 <= k < m ==> inner[k] == body[k]);
            lemma_run_len_is(inner, CharClass::Unquoted, m);
            assert(s.subrange(1, 1 + m) =~= body);
            assert(s.skip(m + 2) =~= rest);
        },
    }
}

/// Tokens written out with any layout are tokenized to the same tokens.
pub proof fn lemma_lex_render(tokens: Seq<TokenView>, gaps: Seq<Seq<char>>)
    requires
        all_writable(tokens),
        is_layout(gaps, tokens),
    ensures
        lex(render(tokens, gaps)) == Lexed::Tokens(tokens),
    decreases tokens.len(),
{
    if tokens.len() == 0 {
        lemma_lex_blank(gaps[0], Seq::empty());
        assert(gaps[0] + Seq::<char>::empty() =~= gaps[0]);
        assert(tokens =~= Seq::<TokenView>::empty());
    } else {
        let token = tokens[0];
        let tail = tokens.skip(1);
        let tail_gaps = gaps.skip(1);
        let rest = render(tail, tail_gaps);
        assert(all_writable(tail));
        assert(is_layout(tail_gaps, tail));
        lemma_lex_render(tail, tail_gaps);
        assert(rest.len() == 0 || !extends(token, rest[0])) by {
            if gaps[1].len() == 0 && tail.len() > 0 {
                lemma_token_text_start(token, tail[0]);
            }
        }
        lemma_lex_token(token, rest);
        assert(render(tokens, gaps) =~= gaps[0] + (token_text(token) + rest));
        lemma_lex_blank(gaps[0], token_text(token) + rest);
        assert(seq![token] + tail =~= tokens);
    }
}

/// The tokens of a text are tokens that source text can denote.
pub proof fn lemma_lex_writable(code: Seq<char>)
    ensures
        lex(code) matches Lexed::Tokens(tokens) ==> all_writable(tokens),
    decreases code.len(),
{
    if code.len() > 0 {
        match scan(code) {
            Scan::Blank => {
                lemma_lex_writable(code.skip(1));
            },
            Scan::Token(token, n) => {
                lemma_scan_advances(code);
                lemma_lex_writable(code.skip(n as int));
                match token {
                    TokenView::Integer(_) => {
                        lemma_run_len(code, CharClass::Digit);
                        lemma_decimal_value_nonnegative(code.take(n as int));
                    },
                    TokenView::String(body) => {
                        lemma_run_len(code.skip(1), CharClass::Unquoted);
                        assert(body =~= code.skip(1).take(body.len() as int));
                    },
                    _ => {},
                }
                if let Lexed::Tokens(rest) = lex(code.skip(n as int)) {
                    assert(all_writable(seq![token] + rest));
                }
            },
            _ => {},
        }
    }
}

/// Tokenizing a text, writing its tokens out again with any layout, and
/// tokenizing what was written gives the same tokens.
pub proof fn lemma_round_trip(code: Seq<char>, gaps: Seq<Seq<char>>)
    requires
        lex(code) is Tokens,
        is_layout(gaps, lex(code)->Tokens_0),
    ensures
        lex(render(lex(code)->Tokens_0, gaps)) == lex(code),
{
    lemma_lex_writable(code);
    lemma_lex_render(lex(code)->Tokens_0, gaps);
}

/// Two texts that write out the same tokens but for parentheses, each with
/// a layout of its own, have the same tokens but for parentheses.
pub proof fn lemma_layout_and_grouping(
    first: Seq<TokenView>,
    first_gaps: Seq<Seq<char>>,
    second: Seq<TokenView>,
    second_gaps: Seq<Seq<char>>,
)
    requires
        all_writable(first),
        all_writable(second),
        is_layout(first_gaps, first),
        is_layout(second_gaps, second),
        without_grouping(first) == without_grouping(second),
    ensures
        lex(render(first, first_gaps)) is Tokens,
        lex(render(second, second_gaps)) is Tokens,
        without_grouping(lex(render(first, first_gaps))->Tokens_0) == without_grouping(
            lex(render(second, second_gaps))->Tokens_0,
        ),
{
    lemma_lex_render(first, first_gaps);
    lemma_lex_render(second, second_gaps);
}

} // verus!
