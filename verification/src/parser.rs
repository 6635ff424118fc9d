//! The recursive-descent parser: three procedures that call one another, one
//! for each position of the grammar.
//!
//! ```text
//! expression ::= number | "(" procedure
//! procedure  ::= operator list
//! list       ::= ")" | expression list
//! ```

use vstd::prelude::*;
use vstd::slice::slice_subrange;
use crate::balance::{balance_of, check_paren_balance};
use crate::error::ParseError;
use crate::expr::Expr;
use crate::text::{chars_of, literal_overflows, read_literal, Literal};
use crate::token::{lemma_views_skip, views, SpecToken, Token};

verus! {

/// A parsed subtree together with the tokens that were not consumed.
pub type Parsed = Result<(Expr, Seq<SpecToken>), ParseError>;

/// The operator tag that an operator token stands for.
pub open spec fn operator_of(t: SpecToken) -> Option<Expr> {
    match t {
        SpecToken::OpAdd => Some(Expr::OpAdd),
        SpecToken::OpMul => Some(Expr::OpMul),
        SpecToken::OpSub => Some(Expr::OpSub),
        SpecToken::OpDiv => Some(Expr::OpDiv),
        _ => None,
    }
}

/// Whether the token is a lexeme that reads as a decimal literal too large
/// for `i32`.
pub open spec fn is_overflowing_literal(t: SpecToken) -> bool {
    t matches SpecToken::Unimplemented(text) && literal_overflows(text)
}

/// An expression at the front of `tokens`: a number, or `(` followed by a
/// procedure. A literal too large for `i32` is `LiteralOverflow`; any other
/// token, or none, is `ExpressionFailed`.
pub open spec fn parse_expr_spec(tokens: Seq<SpecToken>) -> Parsed
    decreases tokens.len(), 1int,
{
    if tokens.len() == 0 {
        Err(ParseError::ExpressionFailed)
    } else {
        match tokens[0] {
            SpecToken::LParen => parse_procedure_spec(tokens.skip(1)),
            SpecToken::Num(n) => Ok((Expr::Number(n), tokens.skip(1))),
            t => if is_overflowing_literal(t) {
                Err(ParseError::LiteralOverflow)
            } else {
                Err(ParseError::ExpressionFailed)
            },
        }
    }
}

/// What follows an opening parenthesis: an operator, and the list of its
/// operands up to the closing parenthesis. Any other head, or none, is
/// `ProcedureFailed`.
pub open spec fn parse_procedure_spec(tokens: Seq<SpecToken>) -> Parsed
    decreases tokens.len(), 0int,
{
    if tokens.len() == 0 {
        Err(ParseError::ProcedureFailed)
    } else {
        match operator_of(tokens[0]) {
            None => Err(ParseError::ProcedureFailed),
            Some(op) => match parse_list_spec(tokens.skip(1)) {
                Err(e) => Err(e),
                Ok((operands, rest)) => Ok((Expr::cons(op, operands), rest)),
            },
        }
    }
}

/// Zero or more operands and the closing parenthesis, as a proper list. A
/// token that neither closes the list nor begins an operand, or the end of
/// the input, is `ListFailed`.
///
/// The test `rest.len() < tokens.len()` is there for the termination of this
/// definition alone: an expression always consumes a token
/// ([`lemma_parse_expr_consumes`]), so the branch behind it is never taken.
pub open spec fn parse_list_spec(tokens: Seq<SpecToken>) -> Parsed
    decreases tokens.len(), 2int,
{
    if tokens.len() == 0 {
        Err(ParseError::ListFailed)
    } else {
        match tokens[0] {
            SpecToken::RParen => Ok((Expr::Nil, tokens.skip(1))),
            SpecToken::LParen | SpecToken::Num(_) => match parse_expr_spec(tokens) {
                Err(e) => Err(e),
                Ok((first, rest)) => if rest.len() < tokens.len() {
                    match parse_list_spec(rest) {
                        Err(e) => Err(e),
                        Ok((others, rest)) => Ok((Expr::cons(first, others), rest)),
                    }
                } else {
                    Err(ParseError::ListFailed)
                },
            },
            t => if is_overflowing_literal(t) {
                Err(ParseError::LiteralOverflow)
            } else {
                Err(ParseError::ListFailed)
            },
        }
    }
}

/// The whole pipeline stage: the parentheses are checked first, and an
/// unbalanced sequence is never parsed; a balanced one must be exactly one
/// expression, with nothing left over.
pub open spec fn parse_spec(tokens: Seq<SpecToken>) -> Result<Expr, ParseError> {
    match balance_of(tokens) {
        Err(e) => Err(e),
        Ok(_) => match parse_expr_spec(tokens) {
            Err(e) => Err(e),
            Ok((expr, rest)) => if rest.len() == 0 {
                Ok(expr)
            } else {
                Err(ParseError::ExpressionFailed)
            },
        },
    }
}

/// `rest` is what is left of `tokens` after a non-empty prefix was consumed.
pub open spec fn proper_suffix<T>(rest: Seq<T>, tokens: Seq<T>) -> bool {
    rest.len() < tokens.len() && rest == tokens.skip(tokens.len() - rest.len())
}

/// A successful expression consumes at least one token and leaves a suffix
/// of its input.
pub proof fn lemma_parse_expr_consumes(tokens: Seq<SpecToken>)
    ensures
        parse_expr_spec(tokens) matches Ok((_, rest)) ==> proper_suffix(rest, tokens),
    decreases tokens.len(), 1int,
{
    if tokens.len() > 0 && tokens[0] is LParen {
        lemma_parse_procedure_consumes(tokens.skip(1));
        if let Ok((_, rest)) = parse_procedure_spec(tokens.skip(1)) {
            assert(rest =~= tokens.skip(tokens.len() - rest.len()));
        }
    }
}

/// A successful procedure consumes at least one token and leaves a suffix of
/// its input.
pub proof fn lemma_parse_procedure_consumes(tokens: Seq<SpecToken>)
    ensures
        parse_procedure_spec(tokens) matches Ok((_, rest)) ==> proper_suffix(rest, tokens),
    decreases tokens.len(), 0int,
{
    if tokens.len() > 0 && operator_of(tokens[0]) is Some {
        lemma_parse_list_consumes(tokens.skip(1));
        if let Ok((_, rest)) = parse_list_spec(tokens.skip(1)) {
            assert(rest =~= tokens.skip(tokens.len() - rest.len()));
        }
    }
}

/// A successful list consumes at least one token and leaves a suffix of its
/// input.
pub proof fn lemma_parse_list_consumes(tokens: Seq<SpecToken>)
    ensures
        parse_list_spec(tokens) matches Ok((_, rest)) ==> proper_suffix(rest, tokens),
    decreases tokens.len(), 2int,
{
    if tokens.len() > 0 && (tokens[0] is LParen || tokens[0] is Num) {
        lemma_parse_expr_consumes(tokens);
        if let Ok((_, middle)) = parse_expr_spec(tokens) {
            lemma_parse_list_consumes(middle);
            if let Ok((_, rest)) = parse_list_spec(middle) {
                assert(rest =~= tokens.skip(tokens.len() - rest.len()));
            }
        }
    }
}

/// Whether the text of an unrecognized lexeme is a decimal literal too large
/// for `i32`.
fn overflows(text: &String) -> (r: bool)
    ensures
        r == literal_overflows(text@),
{
    let chars = chars_of(text.as_str());
    match read_literal(chars.as_slice()) {
        Literal::TooLarge => true,
        _ => false,
    }
}

/// Parses one expression from the front of `tokens` and returns it with the
/// tokens that follow it.
pub fn parse_expr<'a>(tokens: &'a [Token]) -> (r: Result<(Expr, &'a [Token]), ParseError>)
    ensures
        match r {
            Ok((expr, rest)) => {
                &&& parse_expr_spec(views(tokens@)) == Ok::<_, ParseError>((expr, views(rest@)))
                &&& proper_suffix(rest@, tokens@)
            },
            Err(e) => parse_expr_spec(views(tokens@)) == Err::<(Expr, Seq<SpecToken>), _>(e),
        },
    decreases tokens.len(), 1int,
{
    if tokens.len() == 0 {
        return Err(ParseError::ExpressionFailed);
    }
    let rest = slice_subrange(tokens, 1, tokens.len());
    proof {
        lemma_views_skip(tokens@, 1);
    }
    match &tokens[0] {
        Token::LParen => {
            let r = parse_procedure(rest);
            proof {
                if let Ok((_, after)) = r {
                    assert(after@ =~= tokens@.skip(tokens@.len() - after@.len()));
                }
            }
            r
        },
        Token::Num(n) => Ok((Expr::Number(*n), rest)),
        Token::Unimplemented(text) => {
            if overflows(text) {
                Err(ParseError::LiteralOverflow)
            } else {
                Err(ParseError::ExpressionFailed)
            }
        },
        _ => Err(ParseError::ExpressionFailed),
    }
}

/// Parses what follows an opening parenthesis: the operator and its operands
/// up to the matching closing parenthesis.
pub fn parse_procedure<'a>(tokens: &'a [Token]) -> (r: Result<(Expr, &'a [Token]), ParseError>)
    ensures
        match r {
            Ok((expr, rest)) => {
                &&& parse_procedure_spec(views(tokens@)) == Ok::<_, ParseError>(
                    (expr, views(rest@)),
                )
                &&& proper_suffix(rest@, tokens@)
            },
            Err(e) => parse_procedure_spec(views(tokens@)) == Err::<(Expr, Seq<SpecToken>), _>(e),
        },
    decreases tokens.len(), 0int,
{
    if tokens.len() == 0 {
        return Err(ParseError::ProcedureFailed);
    }
    let op = match &tokens[0] {
        Token::OpAdd => Expr::OpAdd,
        Token::OpMul => Expr::OpMul,
        Token::OpSub => Expr::OpSub,
        Token::OpDiv => Expr::OpDiv,
        _ => {
            return Err(ParseError::ProcedureFailed);
        },
    };
    let rest = slice_subrange(tokens, 1, tokens.len());
    proof {
        lemma_views_skip(tokens@, 1);
    }
    match parse_list(rest) {
        Err(e) => Err(e),
        Ok((operands, after)) => {
            proof {
                assert(after@ =~= tokens@.skip(tokens@.len() - after@.len()));
            }
            Ok((Expr::Pair { car: Box::new(op), cdr: Box::new(operands) }, after))
        },
    }
}

/// The outcome of a list whose first operands are already parsed.
spec fn with_operands(operands: Seq<Expr>, tail: Parsed) -> Parsed {
    match tail {
        Err(e) => Err(e),
        Ok((others, rest)) => Ok((Expr::chain(operands, others), rest)),
    }
}

/// Parses operands up to the closing parenthesis of the list, which is
/// consumed, and returns them as a proper list.
pub fn parse_list<'a>(tokens: &'a [Token]) -> (r: Result<(Expr, &'a [Token]), ParseError>)
    ensures
        match r {
            Ok((list, rest)) => {
                &&& parse_list_spec(views(tokens@)) == Ok::<_, ParseError>((list, views(rest@)))
                &&& proper_suffix(rest@, tokens@)
            },
            Err(e) => parse_list_spec(views(tokens@)) == Err::<(Expr, Seq<SpecToken>), _>(e),
        },
    decreases tokens.len(), 2int,
{
    let mut operands: Vec<Expr> = Vec::new();
    let mut cur: &[Token] = tokens;
    loop
        invariant
            cur@.len() <= tokens@.len(),
            cur@ == tokens@.skip(tokens@.len() - cur@.len()),
            parse_list_spec(views(tokens@)) == with_operands(
                operands@,
                parse_list_spec(views(cur@)),
            ),
        decreases cur@.len(),
    {
        if cur.len() == 0 {
            return Err(ParseError::ListFailed);
        }
        match &cur[0] {
            Token::RParen => {
                let rest = slice_subrange(cur, 1, cur.len());
                proof {
                    lemma_views_skip(cur@, 1);
                    assert(rest@ =~= tokens@.skip(tokens@.len() - rest@.len()));
                }
                return Ok((Expr::list(operands), rest));
            },
            Token::LParen | Token::Num(_) => {
                match parse_expr(cur) {
                    Err(e) => {
                        return Err(e);
                    },
                    Ok((operand, rest)) => {
                        proof {
                            let tail = parse_list_spec(views(rest@));
                            if let Ok((others, _)) = tail {
                                Expr::lemma_chain_push(operands@, operand, others);
                            }
                            assert(rest@ =~= tokens@.skip(tokens@.len() - rest@.len()));
                        }
                        operands.push(operand);
                        cur = rest;
                    },
                }
            },
            Token::Unimplemented(text) => {
                if overflows(text) {
                    return Err(ParseError::LiteralOverflow);
                } else {
                    return Err(ParseError::ListFailed);
                }
            },
            _ => {
                return Err(ParseError::ListFailed);
            },
        }
    }
}

/// Parses a whole token sequence as one expression, after checking its
/// parentheses.
pub fn parse(tokens: &[Token]) -> (r: Result<Expr, ParseError>)
    ensures
        r == parse_spec(views(tokens@)),
{
    match check_paren_balance(tokens) {
        Err(e) => {
            return Err(e);
        },
        Ok(_) => {},
    }
    match parse_expr(tokens) {
        Err(e) => Err(e),
        Ok((expr, rest)) => {
            if rest.len() == 0 {
                assert(views(rest@).len() == 0);
                Ok(expr)
            } else {
                Err(ParseError::ExpressionFailed)
            }
        },
    }
}

} // verus!
