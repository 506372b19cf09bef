//! Tokens, instructions and errors, with the mathematical view of a token.

use vstd::prelude::*;

verus! {

/// The closed instruction set of the language.
#[derive(Debug, Clone, Copy, PartialEq, Eq, Structural)]
pub enum Instruction {
    Print,
    Add,
    Concat,
}

/// One lexical unit of a program.
///
/// `LParen` and `RParen` only group source text for the reader; evaluation
/// ignores them.
#[derive(Debug, PartialEq, Eq)]
pub enum Token {
    LParen,
    RParen,
    Instruction(Instruction),
    Integer(i64),
    String(String),
}

/// What a [`Token`] stands for: the same variants, with the text of a string
/// literal as a sequence of characters.
pub enum TokenView {
    LParen,
    RParen,
    Instruction(Instruction),
    Integer(i64),
    String(Seq<char>),
}

impl TokenView {
    /// Whether the token is a parenthesis.
    pub open spec fn is_grouping(self) -> bool {
        self is LParen || self is RParen
    }
}

/// `tokens` without its parentheses.
pub open spec fn without_grouping(tokens: Seq<TokenView>) -> Seq<TokenView> {
    tokens.filter(|token: TokenView| !token.is_grouping())
}

impl View for Token {
    type V = TokenView;

    open spec fn view(&self) -> TokenView {
        match *self {
            Token::LParen => TokenView::LParen,
            Token::RParen => TokenView::RParen,
            Token::Instruction(i) => TokenView::Instruction(i),
            Token::Integer(n) => TokenView::Integer(n),
            Token::String(s) => TokenView::String(s@),
        }
    }
}

impl DeepView for Token {
    type V = TokenView;

    open spec fn deep_view(&self) -> TokenView {
        self.view()
    }
}

/// Why tokenizing or evaluating a program stopped early.
#[derive(Debug, Clone, Copy, PartialEq, Eq, Structural)]
pub enum Error {
    /// `print` found the stack empty.
    EvaluationError,
    /// The source holds a character or a word that the grammar does not know.
    UnknownToken,
    /// An operand of `add` or `concat` is of the wrong kind.
    MismatchedTypes,
}

impl Error {
    /// The name of the error, which is the name of its variant.
    pub open spec fn name_text(self) -> Seq<char> {
        match self {
            Error::EvaluationError => "EvaluationError"@,
            Error::UnknownToken => "UnknownToken"@,
            Error::MismatchedTypes => "MismatchedTypes"@,
        }
    }

    /// The name of the error, as it is shown to a user.
    pub fn name(&self) -> (text: &'static str)
        ensures
            text@ == self.name_text(),
    {
        match self {
            Error::EvaluationError => "EvaluationError",
            Error::UnknownToken => "UnknownToken",
            Error::MismatchedTypes => "MismatchedTypes",
        }
    }
}

} // verus!
