//! Lexical tokens and their mathematical model.

use vstd::prelude::*;

verus! {

/// One lexical token.
#[derive(Debug, PartialEq, Eq)]
pub enum Token {
    LParen,
    RParen,
    /// A decimal literal that fits in `i32`.
    Num(i32),
    OpAdd,
    OpMul,
    OpSub,
    OpDiv,
    /// Any other lexeme, kept with its text. Lexing never rejects input; the
    /// parser decides what such a token means where it stands.
    Unimplemented(String),
}

/// The model of a [`Token`]: the same variants, with the lexeme's text as a
/// sequence of characters.
pub enum SpecToken {
    LParen,
    RParen,
    Num(i32),
    OpAdd,
    OpMul,
    OpSub,
    OpDiv,
    Unimplemented(Seq<char>),
}

impl View for Token {
    type V = SpecToken;

    open spec fn view(&self) -> SpecToken {
        match self {
            Token::LParen => SpecToken::LParen,
            Token::RParen => SpecToken::RParen,
            Token::Num(n) => SpecToken::Num(*n),
            Token::OpAdd => SpecToken::OpAdd,
            Token::OpMul => SpecToken::OpMul,
            Token::OpSub => SpecToken::OpSub,
            Token::OpDiv => SpecToken::OpDiv,
            Token::Unimplemented(text) => SpecToken::Unimplemented(text@),
        }
    }
}

/// The models of a sequence of tokens, one for one.
pub open spec fn views(tokens: Seq<Token>) -> Seq<SpecToken> {
    tokens.map_values(|t: Token| t@)
}

/// Dropping the first tokens drops their models.
pub proof fn lemma_views_skip(tokens: Seq<Token>, n: int)
    requires
        0 <= n <= tokens.len(),
    ensures
        views(tokens.skip(n)) == views(tokens).skip(n),
{
    assert(views(tokens.skip(n)) =~= views(tokens).skip(n));
}

/// Appending a token appends its model.
pub proof fn lemma_views_push(tokens: Seq<Token>, t: Token)
    ensures
        views(tokens.push(t)) == views(tokens).push(t@),
{
    assert(views(tokens.push(t)) =~= views(tokens).push(t@));
}

} // verus!
