//! The tokenizer: source text to a flat sequence of tokens, in one pass from
//! left to right.

use vstd::prelude::*;
use vstd::string::{StrSliceExecFns, StringExecFns};
use crate::decimal::{all_digits, decimal_value, lemma_decimal_value_nonnegative, parse_decimal};
use crate::text::{
    ascii_alphabetic, ascii_digit, ascii_whitespace, characters, is_alphabetic, is_digit,
    is_whitespace, lemma_run_len, run_end, run_len, spells, CharClass,
};
use crate::token::{Error, Instruction, Token, TokenView};

verus! {

/// The instruction that `word` names, if it names one.
pub open spec fn keyword(word: Seq<char>) -> Option<Instruction> {
    if word == "print"@ {
        Some(Instruction::Print)
    } else if word == "add"@ {
        Some(Instruction::Add)
    } else if word == "concat"@ {
        Some(Instruction::Concat)
    } else {
        None
    }
}

/// What stands at the start of text that is not empty.
pub enum Scan {
    /// A whitespace character, which is skipped.
    Blank,
    /// A token, and the number of characters that it takes up.
    Token(TokenView, nat),
    /// A character or a word that the grammar does not know.
    Unknown,
    /// An integer literal that denotes more than an `i64` holds.
    Overflow,
}

/// Reads what stands at the start of `s`, by the rules of the grammar in
/// their order: a parenthesis; a whitespace character; a word, which is the
/// longest run of letters and must name an instruction; an integer literal,
/// which is the longest run of digits; a string literal, which runs from a
/// double quote up to the next one, or to the end of the text if there is
/// none, and is taken as it stands.
pub open spec fn scan(s: Seq<char>) -> Scan
    recommends
        s.len() > 0,
{
    let c = s[0];
    if c == '(' {
        Scan::Token(TokenView::LParen, 1)
    } else if c == ')' {
        Scan::Token(TokenView::RParen, 1)
    } else if is_whitespace(c) {
        Scan::Blank
    } else if is_alphabetic(c) {
        let n = run_len(s, CharClass::Letter);
        match keyword(s.take(n as int)) {
            Some(instruction) => Scan::Token(TokenView::Instruction(instruction), n),
            None => Scan::Unknown,
        }
    } else if is_digit(c) {
        let n = run_len(s, CharClass::Digit);
        let value = decimal_value(s.take(n as int));
        if value <= i64::MAX {
            Scan::Token(TokenView::Integer(value as i64), n)
        } else {
            Scan::Overflow
        }
    } else if c == '"' {
        let n = run_len(s.skip(1), CharClass::Unquoted);
        let closed = 1 + n < s.len();
        Scan::Token(
            TokenView::String(s.subrange(1, 1 + n as int)),
            if closed {
                n + 2
            } else {
                n + 1
            },
        )
    } else {
        Scan::Unknown
    }
}

/// The outcome of tokenizing a text.
pub enum Lexed {
    /// The tokens of the text, in the order in which they stand in it.
    Tokens(Seq<TokenView>),
    /// The text holds a character or a word that the grammar does not know.
    Unknown,
    /// Before anything unknown, the text holds an integer literal that
    /// denotes more than an `i64` holds.
    Overflow,
}

impl Lexed {
    /// This outcome for the rest of a text, after `token` at its start.
    pub open spec fn after(self, token: TokenView) -> Lexed {
        match self {
            Lexed::Tokens(rest) => Lexed::Tokens(seq![token] + rest),
            other => other,
        }
    }

    /// This outcome for the rest of a text, after `tokens` at its start.
    pub open spec fn after_all(self, tokens: Seq<TokenView>) -> Lexed {
        match self {
            Lexed::Tokens(rest) => Lexed::Tokens(tokens + rest),
            other => other,
        }
    }
}

/// The outcome of tokenizing `s`: what [`scan`] finds at its start, and then
/// the outcome for the text behind that. The first character or word that is
/// unknown, or the first literal that is too large, decides the outcome.
pub open spec fn lex(s: Seq<char>) -> Lexed
    decreases s.len(),
    via lex_decreases
{
    if s.len() == 0 {
        Lexed::Tokens(Seq::empty())
    } else {
        match scan(s) {
            Scan::Blank => lex(s.skip(1)),
            Scan::Token(token, n) => lex(s.skip(n as int)).after(token),
            Scan::Unknown => Lexed::Unknown,
            Scan::Overflow => Lexed::Overflow,
        }
    }
}

#[via_fn]
proof fn lex_decreases(s: Seq<char>) {
    if s.len() > 0 {
        lemma_scan_advances(s);
    }
}

/// A token takes up at least one character, and no more than there are.
pub proof fn lemma_scan_advances(s: Seq<char>)
    requires
        s.len() > 0,
    ensures
        scan(s) matches Scan::Token(_, n) ==> 1 <= n <= s.len(),
{
    lemma_run_len(s, CharClass::Letter);
    lemma_run_len(s, CharClass::Digit);
    lemma_run_len(s.skip(1), CharClass::Unquoted);
}

/// Whether `result` is what tokenizing `code` comes to: the tokens of the
/// text in their order, or `Error::UnknownToken` where the text holds a
/// character or a word that the grammar does not know.
pub open spec fn tokenized(code: Seq<char>, result: Result<Vec<Token>, Error>) -> bool {
    match result {
        Ok(tokens) => lex(code) == Lexed::Tokens(tokens.deep_view()),
        Err(e) => e == Error::UnknownToken && lex(code) == Lexed::Unknown,
    }
}

/// Tokenizing depends on the text alone: two results for the same text hold
/// the same tokens in the same order, or are the same error.
pub proof fn lemma_tokenize_deterministic(
    code: Seq<char>,
    first: Result<Vec<Token>, Error>,
    second: Result<Vec<Token>, Error>,
)
    requires
        tokenized(code, first),
        tokenized(code, second),
    ensures
        match (first, second) {
            (Ok(a), Ok(b)) => a.deep_view() == b.deep_view(),
            (Err(a), Err(b)) => a == b,
            _ => false,
        },
{
}

/// Tokens that come before a text count as if they stood at its start.
pub proof fn lemma_after_all_push(rest: Lexed, tokens: Seq<TokenView>, token: TokenView)
    ensures
        rest.after(token).after_all(tokens) == rest.after_all(tokens.push(token)),
{
    if let Lexed::Tokens(ts) = rest {
        assert(tokens + (seq![token] + ts) =~= tokens.push(token) + ts);
    }
}

/// The instruction that `chars[start..end]` names, if it names one.
fn instruction_named(chars: &Vec<char>, start: usize, end: usize) -> (instruction: Option<
    Instruction,
>)
    requires
        start <= end <= chars.len(),
    ensures
        instruction == keyword(chars@.subrange(start as int, end as int)),
{
    if spells(chars, start, end, "print") {
        Some(Instruction::Print)
    } else if spells(chars, start, end, "add") {
        Some(Instruction::Add)
    } else if spells(chars, start, end, "concat") {
        Some(Instruction::Concat)
    } else {
        None
    }
}

/// Tokenizes `code`, whatever it holds.
///
/// Returns `None` where the text holds, before anything unknown, an integer
/// literal that denotes more than an `i64` holds. Otherwise returns the
/// tokens of the text in their order, or `Error::UnknownToken` where the text
/// holds a character or a word that the grammar does not know.
pub fn checked_tokenize(code: &str) -> (result: Option<Result<Vec<Token>, Error>>)
    ensures
        match result {
            Some(Ok(tokens)) => lex(code@) == Lexed::Tokens(tokens.deep_view()),
            Some(Err(e)) => e == Error::UnknownToken && lex(code@) == Lexed::Unknown,
            None => lex(code@) == Lexed::Overflow,
        },
{
    let chars = characters(code);
    let mut tokens: Vec<Token> = Vec::new();
    let mut i: usize = 0;
    assert(code@.skip(0) =~= code@);
    assert(lex(code@).after_all(Seq::empty()) == lex(code@));
    while i < chars.len()
        invariant
            chars@ == code@,
            i <= chars.len(),
            lex(code@) == lex(code@.skip(i as int)).after_all(tokens.deep_view()),
        decreases chars.len() - i,
    {
        let ghost rest = code@.skip(i as int);
        let ghost before = tokens.deep_view();
        let c = chars[i];
        let start = i;
        let token = if c == '(' {
            i += 1;
            Token::LParen
        } else if c == ')' {
            i += 1;
            Token::RParen
        } else if ascii_whitespace(c) {
            i += 1;
            assert(rest.skip(1) =~= code@.skip(i as int));
            continue ;
        } else if ascii_alphabetic(c) {
            i = run_end(&chars, start, CharClass::Letter);
            assert(rest.take(i - start) =~= chars@.subrange(start as int, i as int));
            match instruction_named(&chars, start, i) {
                Some(instruction) => Token::Instruction(instruction),
                None => {
                    return Some(Err(Error::UnknownToken));
                },
            }
        } else if ascii_digit(c) {
            i = run_end(&chars, start, CharClass::Digit);
            proof {
                lemma_run_len(rest, CharClass::Digit);
                assert(rest.take(i - start) =~= chars@.subrange(start as int, i as int));
                lemma_decimal_value_nonnegative(rest.take(i - start));
            }
            match parse_decimal(&chars, start, i) {
                Some(value) => Token::Integer(value),
                None => {
                    return None;
                },
            }
        } else if c == '"' {
            let end = run_end(&chars, start + 1, CharClass::Unquoted);
            assert(rest.skip(1) =~= chars@.skip(start + 1));
            assert(rest.subrange(1, 1 + (end - (start + 1))) =~= code@.subrange(
                start + 1,
                end as int,
            ));
            let text = code.substring_char(start + 1, end);
            i = if end < chars.len() {
                end + 1
            } else {
                end
            };
            Token::String(String::from_str(text))
        } else {
            return Some(Err(Error::UnknownToken));
        };
        proof {
            lemma_scan_advances(rest);
            assert(rest.skip(i - start) =~= code@.skip(i as int));
            lemma_after_all_push(lex(code@.skip(i as int)), before, token@);
        }
        tokens.push(token);
        assert(tokens.deep_view() =~= before.push(token@));
    }
    Some(Ok(tokens))
}

/// Tokenizes `code`.
///
/// Returns the tokens of the text in their order, or `Error::UnknownToken`
/// where the text holds a character or a word that the grammar does not
/// know. An integer literal that denotes more than an `i64` holds has no
/// token, so the text must hold none before the place where tokenizing
/// ends; [`checked_tokenize`] takes any text.
pub fn tokenize(code: &str) -> (result: Result<Vec<Token>, Error>)
    requires
        lex(code@) != Lexed::Overflow,
    ensures
        tokenized(code@, result),
{
    match checked_tokenize(code) {
        Some(result) => result,
        None => unreached(),
    }
}

} // verus!
