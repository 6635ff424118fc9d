//! The parenthesis check that runs before parsing.

use vstd::prelude::*;
use crate::error::ParseError;
use crate::token::{views, SpecToken, Token};

verus! {

/// What a token adds to the nesting depth.
pub open spec fn paren_delta(t: SpecToken) -> int {
    match t {
        SpecToken::LParen => 1,
        SpecToken::RParen => -1,
        _ => 0,
    }
}

/// Opening parentheses minus closing ones.
pub open spec fn paren_depth(tokens: Seq<SpecToken>) -> int
    decreases tokens.len(),
{
    if tokens.len() == 0 {
        0
    } else {
        paren_depth(tokens.drop_last()) + paren_delta(tokens.last())
    }
}

/// No prefix closes more parentheses than it opens.
pub open spec fn never_closes_early(tokens: Seq<SpecToken>) -> bool {
    forall|k: int| 0 <= k <= tokens.len() ==> paren_depth(#[trigger] tokens.take(k)) >= 0
}

/// Properly nested: the depth never falls below zero and ends at zero.
pub open spec fn balanced(tokens: Seq<SpecToken>) -> bool {
    never_closes_early(tokens) && paren_depth(tokens) == 0
}

/// The verdict on a token sequence: `MissingLParen` where some prefix closes
/// a parenthesis that was never opened, else `MissingRParen` where some are
/// left open at the end, else success.
pub open spec fn balance_of(tokens: Seq<SpecToken>) -> Result<(), ParseError> {
    if !never_closes_early(tokens) {
        Err(ParseError::MissingLParen)
    } else if paren_depth(tokens) > 0 {
        Err(ParseError::MissingRParen)
    } else {
        Ok(())
    }
}

/// Appending a token adds its delta to the depth.
pub proof fn lemma_paren_depth_push(tokens: Seq<SpecToken>, t: SpecToken)
    ensures
        paren_depth(tokens.push(t)) == paren_depth(tokens) + paren_delta(t),
{
    assert(tokens.push(t).drop_last() =~= tokens);
}

/// Checks that the parentheses of `tokens` are properly nested.
pub fn check_paren_balance(tokens: &[Token]) -> (r: Result<(), ParseError>)
    ensures
        r == balance_of(views(tokens@)),
        r is Ok <==> balanced(views(tokens@)),
{
    let ghost all = views(tokens@);
    let mut depth: usize = 0;
    let mut i: usize = 0;
    while i < tokens.len()
        invariant
            i <= tokens.len(),
            all == views(tokens@),
            depth == paren_depth(all.take(i as int)),
            depth <= i,
            forall|k: int| 0 <= k <= i ==> paren_depth(#[trigger] all.take(k)) >= 0,
        decreases tokens.len() - i,
    {
        proof {
            assert(all.take(i + 1) =~= all.take(i as int).push(tokens@[i as int]@));
            lemma_paren_depth_push(all.take(i as int), tokens@[i as int]@);
        }
        match &tokens[i] {
            Token::LParen => {
                depth += 1;
            },
            Token::RParen => {
                if depth == 0 {
                    assert(paren_depth(all.take(i + 1)) < 0);
                    return Err(ParseError::MissingLParen);
                }
                depth -= 1;
            },
            _ => {},
        }
        i += 1;
    }
    assert(all.take(tokens.len() as int) =~= all);
    if depth > 0 {
        Err(ParseError::MissingRParen)
    } else {
        Ok(())
    }
}

} // verus!
