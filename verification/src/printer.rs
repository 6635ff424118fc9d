//! Text for syntax trees and for errors.
//!
//! A tree has two notations. The source notation is the one the tokenizer
//! reads: `(+ 2 (- 3 4))`. The cons notation shows every cell as a pair of
//! its two slots: `(+ (2 ((- (3 (4 nil))) nil)))`.

use vstd::prelude::*;
use crate::error::{EvalError, ParseError};
use crate::expr::Expr;
use crate::text::{decimal_text, push_decimal};

verus! {

/// The source notation of a node that is not a cons cell: a number in
/// decimal, an operator's sign, or `()` for the empty list.
pub open spec fn atom_text(atom: Expr) -> Seq<char> {
    match atom {
        Expr::Number(n) => decimal_text(n as int),
        Expr::OpAdd => seq!['+'],
        Expr::OpMul => seq!['*'],
        Expr::OpSub => seq!['-'],
        Expr::OpDiv => seq!['/'],
        _ => seq!['(', ')'],
    }
}

/// The source notation of a tree: an atom as it is; a chain of cons cells as
/// its items between parentheses, one space before each item but the first.
/// A chain that does not end in the empty list shows its end after a dot.
pub open spec fn source_text(expr: Expr) -> Seq<char>
    decreases expr,
{
    match expr {
        Expr::Pair { car, cdr } => seq!['('] + source_text(*car) + tail_text(*cdr),
        atom => atom_text(atom),
    }
}

/// The source notation of the rest of a chain, up to and with the closing
/// parenthesis.
pub open spec fn tail_text(list: Expr) -> Seq<char>
    decreases list,
{
    match list {
        Expr::Nil => seq![')'],
        Expr::Pair { car, cdr } => seq![' '] + source_text(*car) + tail_text(*cdr),
        atom => seq![' ', '.', ' '] + atom_text(atom) + seq![')'],
    }
}

/// The cons notation of a tree: `(car cdr)` for a cell, `nil` for the empty
/// list, a number in decimal, an operator's sign.
pub open spec fn cons_text(expr: Expr) -> Seq<char>
    decreases expr,
{
    match expr {
        Expr::Number(n) => decimal_text(n as int),
        Expr::Nil => seq!['n', 'i', 'l'],
        Expr::Pair { car, cdr } => seq!['('] + cons_text(*car) + seq![' '] + cons_text(*cdr) + seq![
            ')',
        ],
        Expr::OpAdd => seq!['+'],
        Expr::OpMul => seq!['*'],
        Expr::OpSub => seq!['-'],
        Expr::OpDiv => seq!['/'],
    }
}

fn write_atom(atom: &Expr, out: &mut String)
    requires
        !(atom is Pair),
    ensures
        final(out)@ == old(out)@ + atom_text(*atom),
{
    match atom {
        Expr::Number(n) => {
            push_decimal(out, *n);
        },
        Expr::OpAdd => {
            out.push('+');
            assert(out@ =~= old(out)@ + seq!['+']);
        },
        Expr::OpMul => {
            out.push('*');
            assert(out@ =~= old(out)@ + seq!['*']);
        },
        Expr::OpSub => {
            out.push('-');
            assert(out@ =~= old(out)@ + seq!['-']);
        },
        Expr::OpDiv => {
            out.push('/');
            assert(out@ =~= old(out)@ + seq!['/']);
        },
        _ => {
            out.push('(');
            out.push(')');
            assert(out@ =~= old(out)@ + seq!['(', ')']);
        },
    }
}

fn write_source(expr: &Expr, out: &mut String)
    ensures
        final(out)@ == old(out)@ + source_text(*expr),
    decreases expr,
{
    let ghost before = out@;
    match expr {
        Expr::Pair { car, cdr } => {
            out.push('(');
            write_source(&**car, out);
            assert(out@ =~= before + (seq!['('] + source_text(**car)));
            let mut cur: &Expr = &**cdr;
            loop
                invariant_except_break
                    out@ + tail_text(*cur) == before + source_text(*expr),
                invariant
                    decreases_to!(expr => cur),
                ensures
                    out@ == before + source_text(*expr),
                decreases cur,
            {
                let ghost so_far = out@;
                match cur {
                    Expr::Nil => {
                        out.push(')');
                        assert(out@ =~= so_far + seq![')']);
                        break ;
                    },
                    Expr::Pair { car: item, cdr: others } => {
                        out.push(' ');
                        write_source(&**item, out);
                        assert(out@ + tail_text(**others) =~= so_far + (seq![' '] + source_text(
                            **item,
                        ) + tail_text(**others)));
                        cur = &**others;
                    },
                    atom => {
                        out.push(' ');
                        out.push('.');
                        out.push(' ');
                        write_atom(atom, out);
                        out.push(')');
                        assert(out@ =~= so_far + (seq![' ', '.', ' '] + atom_text(*atom) + seq![
                            ')',
                        ]));
                        break ;
                    },
                }
            }
        },
        atom => {
            write_atom(atom, out);
        },
    }
}

fn write_cons(expr: &Expr, out: &mut String)
    ensures
        final(out)@ == old(out)@ + cons_text(*expr),
    decreases expr,
{
    let ghost before = out@;
    match expr {
        Expr::Nil => {
            out.push('n');
            out.push('i');
            out.push('l');
            assert(out@ =~= before + seq!['n', 'i', 'l']);
        },
        Expr::Pair { car, cdr } => {
            out.push('(');
            write_cons(&**car, out);
            out.push(' ');
            write_cons(&**cdr, out);
            out.push(')');
            assert(out@ =~= before + (seq!['('] + cons_text(**car) + seq![' '] + cons_text(**cdr)
                + seq![')']));
        },
        atom => {
            write_atom(atom, out);
        },
    }
}

impl Expr {
    /// The tree in source notation.
    pub fn to_source(&self) -> (r: String)
        ensures
            r@ == source_text(*self),
    {
        let mut out = String::new();
        write_source(self, &mut out);
        assert(out@ =~= source_text(*self));
        out
    }

    /// The tree in cons notation.
    pub fn to_cons_string(&self) -> (r: String)
        ensures
            r@ == cons_text(*self),
    {
        let mut out = String::new();
        write_cons(self, &mut out);
        assert(out@ =~= cons_text(*self));
        out
    }
}

impl ParseError {
    /// The label of each kind of error.
    pub open spec fn label_text(self) -> Seq<char> {
        match self {
            ParseError::MissingLParen => "MissingLeftParen"@,
            ParseError::MissingRParen => "MissingRightParen"@,
            ParseError::ExpressionFailed => "Failed parse expression"@,
            ParseError::ProcedureFailed => "Failed parse procedure"@,
            ParseError::ListFailed => "Failed parse list"@,
            ParseError::LiteralOverflow => "LiteralOverflow"@,
        }
    }

    /// A short label that names the kind of error.
    pub fn label(&self) -> (r: &'static str)
        ensures
            r@ == self.label_text(),
    {
        match self {
            ParseError::MissingLParen => "MissingLeftParen",
            ParseError::MissingRParen => "MissingRightParen",
            ParseError::ExpressionFailed => "Failed parse expression",
            ParseError::ProcedureFailed => "Failed parse procedure",
            ParseError::ListFailed => "Failed parse list",
            ParseError::LiteralOverflow => "LiteralOverflow",
        }
    }
}

impl EvalError {
    /// The label of each kind of error.
    pub open spec fn label_text(self) -> Seq<char> {
        match self {
            EvalError::DivisionByZero => "DivisionByZero"@,
            EvalError::ArityError => "ArityError"@,
            EvalError::TypeError => "TypeError"@,
            EvalError::NestingTooDeep => "NestingTooDeep"@,
        }
    }

    /// A short label that names the kind of error.
    pub fn label(&self) -> (r: &'static str)
        ensures
            r@ == self.label_text(),
    {
        match self {
            EvalError::DivisionByZero => "DivisionByZero",
            EvalError::ArityError => "ArityError",
            EvalError::TypeError => "TypeError",
            EvalError::NestingTooDeep => "NestingTooDeep",
        }
    }
}

} // verus!
