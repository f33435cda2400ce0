//! Tokens produced by the lexer, and their mathematical view.
use vstd::prelude::*;

verus! {

/// One lexical unit of an expression.
#[derive(Clone, Debug, PartialEq, Eq)]
pub enum Token {
    /// A character that no other token accepts.
    Unknown(char),
    OpenParen,
    CloseParen,
    /// `~` or `!`.
    UnaryOperator(String),
    /// One of `* / % + - << >> | & ^`.
    Operator(String),
    /// The raw text of a literal, base prefix included.
    Number(String),
    /// A run of letters; reserved, evaluates to nothing.
    Identifier(String),
}

/// The view of a token: its variant, with text as a sequence of characters.
pub ghost enum TokenView {
    Unknown(char),
    OpenParen,
    CloseParen,
    UnaryOperator(Seq<char>),
    Operator(Seq<char>),
    Number(Seq<char>),
    Identifier(Seq<char>),
}

impl View for Token {
    type V = TokenView;

    open spec fn view(&self) -> TokenView {
        match self {
            Token::Unknown(c) => TokenView::Unknown(*c),
            Token::OpenParen => TokenView::OpenParen,
            Token::CloseParen => TokenView::CloseParen,
            Token::UnaryOperator(s) => TokenView::UnaryOperator(s@),
            Token::Operator(s) => TokenView::Operator(s@),
            Token::Number(s) => TokenView::Number(s@),
            Token::Identifier(s) => TokenView::Identifier(s@),
        }
    }
}

/// The views of a sequence of tokens.
pub open spec fn tokens_view(ts: Seq<Token>) -> Seq<TokenView> {
    ts.map_values(|t: Token| t@)
}

} // verus!
