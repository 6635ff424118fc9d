//! A small prefix-notation arithmetic language: tokenizer, parenthesis
//! validator, recursive-descent parser and evaluator, each with a verified
//! contract.
//!
//! Text such as `(+ (+ 2 3) (- 12 3))` goes through four stages:
//! [`tokenize`], [`check_paren_balance`], [`parse`] and [`eval`].

pub mod balance;
pub mod error;
pub mod evaluator;
pub mod expr;
pub mod lexer;
pub mod parser;
pub mod printer;
pub mod roundtrip;
pub mod text;
pub mod token;

pub use crate::balance::check_paren_balance;
pub use crate::error::{EvalError, ParseError};
pub use crate::evaluator::{apply, eval, eval_within, MAX_NESTING_DEPTH};
pub use crate::expr::Expr;
pub use crate::lexer::{str2token, tokenize};
pub use crate::parser::{parse, parse_expr, parse_list, parse_procedure};
pub use crate::token::Token;
