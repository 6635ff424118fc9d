//! Printing and reading are inverse to each other.
//!
//! The tokens of a well-formed expression parse to that expression, a
//! successful parse consumed exactly the tokens of its result, and the source
//! notation of a well-formed expression without negative numbers is lexed
//! into those tokens again.

use vstd::prelude::*;
use crate::balance::{
    balanced,
    lemma_paren_depth_push,
    never_closes_early,
    paren_delta,
    paren_depth,
};
use crate::error::ParseError;
use crate::evaluator::eval_spec;
use crate::expr::Expr;
use crate::lexer::{
    classify,
    classify_all,
    lemma_classify_all_add,
    lemma_lexemes_paren,
    lemma_lexemes_space,
    lemma_lexemes_word,
    lexemes,
    tokenize_spec,
};
use crate::parser::{
    lemma_parse_expr_consumes,
    operator_of,
    parse_expr_spec,
    parse_list_spec,
    parse_procedure_spec,
    parse_spec,
};
use crate::printer::{atom_text, source_text, tail_text};
use crate::text::{
    decimal_digits,
    is_delimiter,
    is_digit,
    lemma_decimal_digits_value,
    literal_of,
    Literal,
};
use crate::token::SpecToken;

verus! {

/// The token of an operator tag.
pub open spec fn operator_token(op: Expr) -> SpecToken
    recommends
        op.is_operator(),
{
    match op {
        Expr::OpAdd => SpecToken::OpAdd,
        Expr::OpMul => SpecToken::OpMul,
        Expr::OpSub => SpecToken::OpSub,
        _ => SpecToken::OpDiv,
    }
}

/// The tokens that a well-formed expression is written with.
pub open spec fn tokens_of(expr: Expr) -> Seq<SpecToken>
    decreases expr,
{
    match expr {
        Expr::Number(n) => seq![SpecToken::Num(n)],
        Expr::Pair { car, cdr } => seq![SpecToken::LParen, operator_token(*car)] + list_tokens(
            *cdr,
        ),
        _ => Seq::empty(),
    }
}

/// The tokens of the operands of a well-formed list, and of the parenthesis
/// that closes it.
pub open spec fn list_tokens(list: Expr) -> Seq<SpecToken>
    decreases list,
{
    match list {
        Expr::Nil => seq![SpecToken::RParen],
        Expr::Pair { car, cdr } => tokens_of(*car) + list_tokens(*cdr),
        _ => Seq::empty(),
    }
}

/// Whether the token is no literal below zero.
pub open spec fn is_natural(t: SpecToken) -> bool {
    t matches SpecToken::Num(n) ==> n >= 0
}

/// Whether no literal among the tokens is below zero.
pub open spec fn natural_tokens(tokens: Seq<SpecToken>) -> bool {
    forall|i: int| 0 <= i < tokens.len() ==> is_natural(#[trigger] tokens[i])
}

/// A successful expression is well formed, and the tokens it consumed are
/// the tokens it is written with.
pub proof fn lemma_parse_expr_inverse(tokens: Seq<SpecToken>)
    ensures
        parse_expr_spec(tokens) matches Ok((expr, rest)) ==> expr.well_formed() && tokens
            == tokens_of(expr) + rest,
    decreases tokens.len(), 1int,
{
    if tokens.len() > 0 {
        match tokens[0] {
            SpecToken::LParen => {
                lemma_parse_procedure_inverse(tokens.skip(1));
                if let Ok((expr, rest)) = parse_procedure_spec(tokens.skip(1)) {
                    assert(tokens =~= seq![SpecToken::LParen] + tokens.skip(1));
                }
            },
            SpecToken::Num(n) => {
                assert(tokens =~= seq![SpecToken::Num(n)] + tokens.skip(1));
            },
            _ => {},
        }
    }
}

/// A successful procedure is well formed, and the tokens it consumed, after
/// the opening parenthesis, are the tokens it is written with.
pub proof fn lemma_parse_procedure_inverse(tokens: Seq<SpecToken>)
    ensures
        parse_procedure_spec(tokens) matches Ok((expr, rest)) ==> expr.well_formed()
            && seq![SpecToken::LParen] + tokens == tokens_of(expr) + rest,
    decreases tokens.len(), 0int,
{
    if tokens.len() > 0 && operator_of(tokens[0]) is Some {
        lemma_parse_list_inverse(tokens.skip(1));
        if let Ok((list, rest)) = parse_list_spec(tokens.skip(1)) {
            let op = operator_of(tokens[0]).unwrap();
            assert(operator_token(op) == tokens[0]);
            assert(seq![SpecToken::LParen] + tokens =~= seq![SpecToken::LParen, tokens[0]] + (
            list_tokens(list) + rest));
            assert(seq![SpecToken::LParen, tokens[0]] + (list_tokens(list) + rest) =~= (seq![
                SpecToken::LParen,
                tokens[0],
            ] + list_tokens(list)) + rest);
        }
    }
}

/// A successful list is a proper list of well-formed operands, and the
/// tokens it consumed are the tokens it is written with.
pub proof fn lemma_parse_list_inverse(tokens: Seq<SpecToken>)
    ensures
        parse_list_spec(tokens) matches Ok((list, rest)) ==> list.well_formed_list() && tokens
            == list_tokens(list) + rest,
    decreases tokens.len(), 2int,
{
    if tokens.len() > 0 {
        match tokens[0] {
            SpecToken::RParen => {
                assert(tokens =~= seq![SpecToken::RParen] + tokens.skip(1));
            },
            SpecToken::LParen | SpecToken::Num(_) => {
                lemma_parse_expr_inverse(tokens);
                lemma_parse_expr_consumes(tokens);
                if let Ok((first, middle)) = parse_expr_spec(tokens) {
                    lemma_parse_list_inverse(middle);
                    if let Ok((others, rest)) = parse_list_spec(middle) {
                        assert(tokens_of(first) + (list_tokens(others) + rest) =~= (tokens_of(first)
                            + list_tokens(others)) + rest);
                    }
                }
            },
            _ => {},
        }
    }
}

/// The tokens of a well-formed expression, whatever follows them, parse to
/// the expression and leave what follows.
pub proof fn lemma_parse_tokens_of(expr: Expr, rest: Seq<SpecToken>)
    requires
        expr.well_formed(),
    ensures
        parse_expr_spec(tokens_of(expr) + rest) == Ok::<_, ParseError>((expr, rest)),
        tokens_of(expr).len() > 0,
        tokens_of(expr)[0] is LParen || tokens_of(expr)[0] is Num,
    decreases expr,
{
    let tokens = tokens_of(expr) + rest;
    match expr {
        Expr::Number(n) => {
            assert(tokens.skip(1) =~= rest);
        },
        Expr::Pair { car, cdr } => {
            let after_paren = tokens.skip(1);
            assert(after_paren[0] == operator_token(*car));
            assert(operator_of(after_paren[0]) == Some(*car));
            assert(after_paren.skip(1) =~= list_tokens(*cdr) + rest);
            lemma_parse_list_tokens(*cdr, rest);
        },
        _ => {},
    }
}

/// The tokens of a well-formed list, whatever follows them, parse to the
/// list and leave what follows.
pub proof fn lemma_parse_list_tokens(list: Expr, rest: Seq<SpecToken>)
    requires
        list.well_formed_list(),
    ensures
        parse_list_spec(list_tokens(list) + rest) == Ok::<_, ParseError>((list, rest)),
    decreases list,
{
    let tokens = list_tokens(list) + rest;
    match list {
        Expr::Nil => {
            assert(tokens.skip(1) =~= rest);
        },
        Expr::Pair { car, cdr } => {
            let middle = list_tokens(*cdr) + rest;
            lemma_parse_tokens_of(*car, middle);
            assert(tokens =~= tokens_of(*car) + middle);
            assert(tokens[0] == tokens_of(*car)[0]);
            lemma_parse_list_tokens(*cdr, rest);
        },
        _ => {},
    }
}

/// Appending a token that keeps the depth at zero or above keeps every
/// prefix at zero or above.
pub proof fn lemma_never_closes_early_push(tokens: Seq<SpecToken>, t: SpecToken)
    requires
        never_closes_early(tokens),
        paren_depth(tokens) + paren_delta(t) >= 0,
    ensures
        never_closes_early(tokens.push(t)),
        paren_depth(tokens.push(t)) == paren_depth(tokens) + paren_delta(t),
{
    lemma_paren_depth_push(tokens, t);
    let longer = tokens.push(t);
    assert forall|k: int| 0 <= k <= longer.len() implies paren_depth(#[trigger] longer.take(k))
        >= 0 by {
        if k <= tokens.len() {
            assert(longer.take(k) =~= tokens.take(k));
        } else {
            assert(longer.take(k) =~= longer);
        }
    }
}

/// The tokens of a well-formed expression leave the depth as it was and
/// never take it lower.
pub proof fn lemma_tokens_of_nested(before: Seq<SpecToken>, expr: Expr)
    requires
        never_closes_early(before),
        expr.well_formed(),
    ensures
        never_closes_early(before + tokens_of(expr)),
        paren_depth(before + tokens_of(expr)) == paren_depth(before),
    decreases expr,
{
    assert(before.take(before.len() as int) =~= before);
    match expr {
        Expr::Number(n) => {
            lemma_never_closes_early_push(before, SpecToken::Num(n));
            assert(before + tokens_of(expr) =~= before.push(SpecToken::Num(n)));
        },
        Expr::Pair { car, cdr } => {
            let opened = before.push(SpecToken::LParen);
            lemma_never_closes_early_push(before, SpecToken::LParen);
            let headed = opened.push(operator_token(*car));
            lemma_never_closes_early_push(opened, operator_token(*car));
            lemma_list_tokens_nested(headed, *cdr);
            assert(before + tokens_of(expr) =~= headed + list_tokens(*cdr));
        },
        _ => {},
    }
}

/// The tokens of a well-formed list inside an open parenthesis close that
/// parenthesis and never take the depth lower.
pub proof fn lemma_list_tokens_nested(before: Seq<SpecToken>, list: Expr)
    requires
        never_closes_early(before),
        paren_depth(before) >= 1,
        list.well_formed_list(),
    ensures
        never_closes_early(before + list_tokens(list)),
        paren_depth(before + list_tokens(list)) == paren_depth(before) - 1,
    decreases list,
{
    match list {
        Expr::Nil => {
            lemma_never_closes_early_push(before, SpecToken::RParen);
            assert(before + list_tokens(list) =~= before.push(SpecToken::RParen));
        },
        Expr::Pair { car, cdr } => {
            lemma_tokens_of_nested(before, *car);
            lemma_list_tokens_nested(before + tokens_of(*car), *cdr);
            assert(before + list_tokens(list) =~= (before + tokens_of(*car)) + list_tokens(*cdr));
        },
        _ => {},
    }
}

/// Parsing inverts printing: the tokens of a well-formed expression are
/// balanced and parse to that expression.
pub proof fn lemma_parse_inverts_print(expr: Expr)
    requires
        expr.well_formed(),
    ensures
        balanced(tokens_of(expr)),
        parse_spec(tokens_of(expr)) == Ok::<Expr, ParseError>(expr),
{
    let empty = Seq::<SpecToken>::empty();
    assert(never_closes_early(empty)) by {
        assert forall|k: int| 0 <= k <= empty.len() implies paren_depth(#[trigger] empty.take(k))
            >= 0 by {
            assert(empty.take(k) =~= empty);
        }
    }
    lemma_tokens_of_nested(empty, expr);
    assert(empty + tokens_of(expr) =~= tokens_of(expr));
    lemma_parse_tokens_of(expr, empty);
    assert(tokens_of(expr) + empty =~= tokens_of(expr));
}

/// Printing inverts parsing: a sequence that parses is made of exactly the
/// tokens of the expression it parses to, which is well formed.
pub proof fn lemma_print_inverts_parse(tokens: Seq<SpecToken>)
    ensures
        parse_spec(tokens) matches Ok(expr) ==> expr.well_formed() && tokens_of(expr) == tokens,
{
    lemma_parse_expr_inverse(tokens);
    if let Ok((expr, rest)) = parse_expr_spec(tokens) {
        if rest.len() == 0 {
            assert(tokens_of(expr) + rest =~= tokens_of(expr));
        }
    }
}

/// A token sequence parses to an expression exactly when the expression is
/// well formed and the sequence is the one it is written with.
pub proof fn lemma_parse_succeeds_iff(tokens: Seq<SpecToken>, expr: Expr)
    ensures
        parse_spec(tokens) == Ok::<Expr, ParseError>(expr) <==> expr.well_formed() && tokens
            == tokens_of(expr),
{
    lemma_print_inverts_parse(tokens);
    if expr.well_formed() {
        lemma_parse_inverts_print(expr);
    }
}

/// A part of a sequence without literals below zero has none either.
proof fn lemma_natural_parts(a: Seq<SpecToken>, b: Seq<SpecToken>)
    requires
        natural_tokens(a + b),
    ensures
        natural_tokens(a),
        natural_tokens(b),
{
    assert forall|i: int| 0 <= i < a.len() implies is_natural(#[trigger] a[i]) by {
        assert((a + b)[i] == a[i]);
    }
    assert forall|i: int| 0 <= i < b.len() implies is_natural(#[trigger] b[i]) by {
        assert((a + b)[a.len() + i] == b[i]);
    }
}

/// An expression written without literals below zero holds no number below
/// zero.
pub proof fn lemma_natural_expr(expr: Expr)
    requires
        expr.well_formed(),
        natural_tokens(tokens_of(expr)),
    ensures
        expr.natural(),
    decreases expr,
{
    match expr {
        Expr::Number(n) => {
            assert(tokens_of(expr)[0] == SpecToken::Num(n));
            assert(is_natural(tokens_of(expr)[0]));
        },
        Expr::Pair { car, cdr } => {
            lemma_natural_parts(
                seq![SpecToken::LParen, operator_token(*car)],
                list_tokens(*cdr),
            );
            lemma_natural_list(*cdr);
            assert(car.natural());
        },
        _ => {},
    }
}

/// A list written without literals below zero holds no number below zero.
pub proof fn lemma_natural_list(list: Expr)
    requires
        list.well_formed_list(),
        natural_tokens(list_tokens(list)),
    ensures
        list.natural(),
    decreases list,
{
    match list {
        Expr::Pair { car, cdr } => {
            lemma_natural_parts(tokens_of(*car), list_tokens(*cdr));
            lemma_natural_expr(*car);
            lemma_natural_list(*cdr);
        },
        _ => {},
    }
}

/// The tokenizer gives no literal below zero.
pub proof fn lemma_tokenize_natural(text: Seq<char>)
    ensures
        natural_tokens(tokenize_spec(text)),
{
    assert forall|i: int| 0 <= i < tokenize_spec(text).len() implies is_natural(
        #[trigger] tokenize_spec(text)[i],
    ) by {
        assert(tokenize_spec(text)[i] == classify(lexemes(text)[i]));
    }
}

/// The token of one lexeme in front of the tokens of the rest.
proof fn lemma_tokenize_first(lexeme: Seq<char>, others: Seq<Seq<char>>)
    ensures
        classify_all(seq![lexeme] + others) == seq![classify(lexeme)] + classify_all(others),
{
    lemma_classify_all_add(seq![lexeme], others);
    assert(classify_all(seq![lexeme]) =~= seq![classify(lexeme)]);
}

/// The sign of an operator is lexed into the operator's token.
proof fn lemma_classify_operator(op: Expr)
    requires
        op.is_operator(),
    ensures
        classify(atom_text(op)) == operator_token(op),
        atom_text(op).len() == 1,
        !is_delimiter(atom_text(op)[0]),
{
    let sign = atom_text(op);
    assert(!is_digit(sign[0]));
    assert(literal_of(sign) == Literal::NotDecimal);
    assert(seq!['('][0] == '(' && seq![')'][0] == ')' && seq!['+'][0] == '+' && seq!['-'][0] == '-'
        && seq!['*'][0] == '*' && seq!['/'][0] == '/');
}

/// The source notation of a well-formed expression without negative
/// numbers, followed by a delimiter or by nothing, is lexed into the tokens
/// of the expression.
pub proof fn lemma_tokenize_source(expr: Expr, rest: Seq<char>)
    requires
        expr.well_formed(),
        expr.natural(),
        rest.len() == 0 || is_delimiter(rest[0]),
    ensures
        tokenize_spec(source_text(expr) + rest) == tokens_of(expr) + tokenize_spec(rest),
    decreases expr,
{
    match expr {
        Expr::Number(n) => {
            let digits = decimal_digits(n as nat);
            lemma_decimal_digits_value(n as nat);
            assert forall|i: int| 0 <= i < digits.len() implies !is_delimiter(
                #[trigger] digits[i],
            ) by {
                assert(is_digit(digits[i]));
            }
            lemma_lexemes_word(digits, rest);
            lemma_tokenize_first(digits, lexemes(rest));
            assert(is_digit(digits[0]));
            assert(seq!['('][0] == '(' && seq![')'][0] == ')');
            assert(classify(digits) == SpecToken::Num(n));
        },
        Expr::Pair { car, cdr } => {
            let sign = atom_text(*car);
            let tail = tail_text(*cdr) + rest;
            lemma_tokenize_tail(*cdr, rest);
            lemma_classify_operator(*car);
            assert(source_text(*car) == sign);
            assert(source_text(expr) + rest =~= seq!['('] + (sign + tail));
            lemma_lexemes_paren('(', sign + tail);
            lemma_tokenize_first(seq!['('], lexemes(sign + tail));
            lemma_lexemes_word(sign, tail);
            lemma_tokenize_first(sign, lexemes(tail));
            assert(seq![SpecToken::LParen] + (seq![operator_token(*car)] + (list_tokens(*cdr)
                + tokenize_spec(rest))) =~= tokens_of(expr) + tokenize_spec(rest));
        },
        _ => {},
    }
}

/// The rest of a well-formed list in source notation is lexed into the
/// tokens of the list, whatever follows.
pub proof fn lemma_tokenize_tail(list: Expr, rest: Seq<char>)
    requires
        list.well_formed_list(),
        list.natural(),
    ensures
        tokenize_spec(tail_text(list) + rest) == list_tokens(list) + tokenize_spec(rest),
        tail_text(list).len() > 0,
        is_delimiter(tail_text(list)[0]),
    decreases list,
{
    match list {
        Expr::Nil => {
            assert(tail_text(list) + rest =~= seq![')'] + rest);
            lemma_lexemes_paren(')', rest);
            lemma_tokenize_first(seq![')'], lexemes(rest));
            assert(seq!['('][0] == '(');
        },
        Expr::Pair { car, cdr } => {
            let tail = tail_text(*cdr) + rest;
            lemma_tokenize_tail(*cdr, rest);
            lemma_tokenize_source(*car, tail);
            assert(tail_text(list) + rest =~= seq![' '] + (source_text(*car) + tail));
            lemma_lexemes_space(' ', source_text(*car) + tail);
            assert(tokens_of(*car) + (list_tokens(*cdr) + tokenize_spec(rest)) =~= list_tokens(list)
                + tokenize_spec(rest));
        },
        _ => {},
    }
}

/// Reading inverts printing: the source notation of a well-formed expression
/// without negative numbers tokenizes and parses to that expression.
pub proof fn lemma_read_inverts_print(expr: Expr)
    requires
        expr.well_formed(),
        expr.natural(),
    ensures
        tokenize_spec(source_text(expr)) == tokens_of(expr),
        parse_spec(tokenize_spec(source_text(expr))) == Ok::<Expr, ParseError>(expr),
{
    let nothing = Seq::<char>::empty();
    lemma_tokenize_source(expr, nothing);
    assert(source_text(expr) + nothing =~= source_text(expr));
    assert(lexemes(nothing) =~= Seq::<Seq<char>>::empty());
    assert(tokenize_spec(nothing) =~= Seq::<SpecToken>::empty());
    assert(tokens_of(expr) + tokenize_spec(nothing) =~= tokens_of(expr));
    lemma_parse_inverts_print(expr);
}

/// Whenever a text parses, the source notation of the parsed expression is
/// lexed into the same tokens, parses to the same expression, and so
/// evaluates to the same result under every nesting limit.
pub proof fn lemma_reserialize(text: Seq<char>)
    ensures
        parse_spec(tokenize_spec(text)) matches Ok(expr) ==> {
            let again = parse_spec(tokenize_spec(source_text(expr)));
            &&& tokenize_spec(source_text(expr)) == tokenize_spec(text)
            &&& again == Ok::<Expr, ParseError>(expr)
            &&& forall|limit: nat| #[trigger]
                eval_spec(again.unwrap(), limit) == eval_spec(expr, limit)
        },
{
    let tokens = tokenize_spec(text);
    if let Ok(expr) = parse_spec(tokens) {
        lemma_print_inverts_parse(tokens);
        lemma_tokenize_natural(text);
        lemma_natural_expr(expr);
        lemma_read_inverts_print(expr);
    }
}

} // verus!
