//! The evaluator: structural recursion over the syntax tree, with each
//! operator's fold rule.
//!
//! Three choices are fixed here. Arithmetic is that of `i32` in two's
//! complement: a result that does not fit wraps around modulo 2^32.
//! Division rounds toward zero and needs at least two operands, since a
//! reciprocal is no integer. And applications may be nested only
//! [`MAX_NESTING_DEPTH`] deep, or as deep as the caller of [`eval_within`]
//! allows, so that the recursion stays within the stack.

use vstd::prelude::*;
use vstd::arithmetic::div_mod::{
    lemma_add_mod_noop,
    lemma_mod_multiples_vanish,
    lemma_mod_twice,
    lemma_mul_mod_noop,
    lemma_small_mod,
    lemma_sub_mod_noop,
};
use crate::error::EvalError;
use crate::expr::Expr;

verus! {

/// How deeply applications may be nested for [`eval`] to evaluate them.
pub const MAX_NESTING_DEPTH: usize = 256;

/// The `i32` that is congruent to `v` modulo 2^32.
pub open spec fn wrap(v: int) -> i32 {
    let m = v % 0x1_0000_0000;
    if m > i32::MAX {
        (m - 0x1_0000_0000) as i32
    } else {
        m as i32
    }
}

/// The sum of the values, as a mathematical integer.
pub open spec fn sum_of(values: Seq<i32>) -> int
    decreases values.len(),
{
    if values.len() == 0 {
        0
    } else {
        sum_of(values.drop_last()) + values.last()
    }
}

/// The product of the values, as a mathematical integer.
pub open spec fn product_of(values: Seq<i32>) -> int
    decreases values.len(),
{
    if values.len() == 0 {
        1
    } else {
        product_of(values.drop_last()) * values.last()
    }
}

/// The quotient of `a` by `b`, rounded toward zero.
///
/// The division sign of specifications is Euclidean division, which rounds
/// toward zero whenever the dividend is not negative.
pub open spec fn truncated_quotient(a: int, b: int) -> int
    recommends
        b != 0,
{
    if a >= 0 {
        a / b
    } else {
        -((-a) / b)
    }
}

/// `first` divided by each divisor in turn, from left to right.
pub open spec fn divide_all(first: i32, divisors: Seq<i32>) -> i32
    decreases divisors.len(),
{
    if divisors.len() == 0 {
        first
    } else {
        divide_all(wrap(truncated_quotient(first as int, divisors[0] as int)), divisors.skip(1))
    }
}

/// The fold rule of each operator.
///
/// - `+`: the sum of the operands; zero for none.
/// - `*`: the product of the operands; one for none.
/// - `-`: needs one operand; the negation of a single one, else the first
///   minus all the others.
/// - `/`: needs two operands; the first divided by each of the others in
///   turn, and `DivisionByZero` where one of the others is zero.
pub open spec fn apply_spec(op: Expr, values: Seq<i32>) -> Result<i32, EvalError> {
    match op {
        Expr::OpAdd => Ok(wrap(sum_of(values))),
        Expr::OpMul => Ok(wrap(product_of(values))),
        Expr::OpSub => if values.len() == 0 {
            Err(EvalError::ArityError)
        } else if values.len() == 1 {
            Ok(wrap(-values[0]))
        } else {
            Ok(wrap(values[0] - sum_of(values.skip(1))))
        },
        Expr::OpDiv => if values.len() < 2 {
            Err(EvalError::ArityError)
        } else if exists|i: int| 1 <= i < values.len() && values[i] == 0 {
            Err(EvalError::DivisionByZero)
        } else {
            Ok(divide_all(values[0], values.skip(1)))
        },
        _ => Err(EvalError::TypeError),
    }
}

/// The value of an expression in which applications are nested at most
/// `limit` deep.
///
/// A number is its own value. An application evaluates its operands from
/// left to right and folds their values by its operator's rule; the first
/// failure on the way is the result. Any other tree is a `TypeError`.
pub open spec fn eval_spec(expr: Expr, limit: nat) -> Result<i32, EvalError>
    decreases expr,
{
    match expr {
        Expr::Number(n) => Ok(n),
        Expr::Pair { car, cdr } => if !car.is_operator() {
            Err(EvalError::TypeError)
        } else if limit == 0 {
            Err(EvalError::NestingTooDeep)
        } else {
            match eval_operands_spec(*cdr, (limit - 1) as nat) {
                Err(e) => Err(e),
                Ok(values) => apply_spec(*car, values),
            }
        },
        _ => Err(EvalError::TypeError),
    }
}

/// The values of the expressions of a proper list, in order.
pub open spec fn eval_operands_spec(list: Expr, limit: nat) -> Result<Seq<i32>, EvalError>
    decreases list,
{
    match list {
        Expr::Nil => Ok(Seq::empty()),
        Expr::Pair { car, cdr } => match eval_spec(*car, limit) {
            Err(e) => Err(e),
            Ok(value) => match eval_operands_spec(*cdr, limit) {
                Err(e) => Err(e),
                Ok(values) => Ok(seq![value] + values),
            },
        },
        _ => Err(EvalError::TypeError),
    }
}

/// How deeply applications are nested in a tree: zero for a number, and one
/// more than the deepest operand for an application.
pub open spec fn nesting_depth(expr: Expr) -> nat
    decreases expr,
{
    match expr {
        Expr::Pair { car, cdr } => 1 + operands_depth(*cdr),
        _ => 0,
    }
}

/// The depth of the deepest expression of a list.
pub open spec fn operands_depth(list: Expr) -> nat
    decreases list,
{
    match list {
        Expr::Pair { car, cdr } => if nesting_depth(*car) >= operands_depth(*cdr) {
            nesting_depth(*car)
        } else {
            operands_depth(*cdr)
        },
        _ => 0,
    }
}

/// Evaluation is total on well-formed trees: within the nesting limit it
/// gives a value, or fails by the operators' own rules, with
/// `DivisionByZero` or `ArityError`.
pub proof fn lemma_eval_well_formed(expr: Expr, limit: nat)
    requires
        expr.well_formed(),
        nesting_depth(expr) <= limit,
    ensures
        eval_spec(expr, limit) != Err::<i32, EvalError>(EvalError::TypeError),
        eval_spec(expr, limit) != Err::<i32, EvalError>(EvalError::NestingTooDeep),
    decreases expr,
{
    match expr {
        Expr::Pair { car, cdr } => {
            lemma_eval_operands_well_formed(*cdr, (limit - 1) as nat);
        },
        _ => {},
    }
}

/// The operands of a well-formed list all have a value within the nesting
/// limit, or one of them fails with `DivisionByZero` or `ArityError`.
pub proof fn lemma_eval_operands_well_formed(list: Expr, limit: nat)
    requires
        list.well_formed_list(),
        operands_depth(list) <= limit,
    ensures
        eval_operands_spec(list, limit) != Err::<Seq<i32>, EvalError>(EvalError::TypeError),
        eval_operands_spec(list, limit) != Err::<Seq<i32>, EvalError>(EvalError::NestingTooDeep),
    decreases list,
{
    match list {
        Expr::Pair { car, cdr } => {
            lemma_eval_well_formed(*car, limit);
            lemma_eval_operands_well_formed(*cdr, limit);
        },
        _ => {},
    }
}

/// A result other than `NestingTooDeep` does not depend on the limit: every
/// larger limit gives the same.
pub proof fn lemma_eval_limit(expr: Expr, limit: nat, larger: nat)
    requires
        limit <= larger,
        eval_spec(expr, limit) != Err::<i32, EvalError>(EvalError::NestingTooDeep),
    ensures
        eval_spec(expr, larger) == eval_spec(expr, limit),
    decreases expr,
{
    match expr {
        Expr::Pair { car, cdr } => {
            if car.is_operator() {
                lemma_eval_operands_limit(*cdr, (limit - 1) as nat, (larger - 1) as nat);
            }
        },
        _ => {},
    }
}

/// The values of a list that is not too deep do not depend on the limit.
pub proof fn lemma_eval_operands_limit(list: Expr, limit: nat, larger: nat)
    requires
        limit <= larger,
        eval_operands_spec(list, limit) != Err::<Seq<i32>, EvalError>(EvalError::NestingTooDeep),
    ensures
        eval_operands_spec(list, larger) == eval_operands_spec(list, limit),
    decreases list,
{
    match list {
        Expr::Pair { car, cdr } => {
            lemma_eval_limit(*car, limit, larger);
            if eval_spec(*car, limit) is Ok {
                lemma_eval_operands_limit(*cdr, limit, larger);
            }
        },
        _ => {},
    }
}

/// `NestingTooDeep` is the result only where some application lies deeper
/// than the limit.
pub proof fn lemma_eval_too_deep(expr: Expr, limit: nat)
    requires
        eval_spec(expr, limit) == Err::<i32, EvalError>(EvalError::NestingTooDeep),
    ensures
        nesting_depth(expr) > limit,
    decreases expr,
{
    match expr {
        Expr::Pair { car, cdr } => {
            if limit > 0 {
                lemma_eval_operands_too_deep(*cdr, (limit - 1) as nat);
            }
        },
        _ => {},
    }
}

/// `NestingTooDeep` is the result for a list only where one of its
/// expressions lies deeper than the limit.
pub proof fn lemma_eval_operands_too_deep(list: Expr, limit: nat)
    requires
        eval_operands_spec(list, limit) == Err::<Seq<i32>, EvalError>(EvalError::NestingTooDeep),
    ensures
        operands_depth(list) > limit,
    decreases list,
{
    match list {
        Expr::Pair { car, cdr } => {
            if eval_spec(*car, limit) == Err::<i32, EvalError>(EvalError::NestingTooDeep) {
                lemma_eval_too_deep(*car, limit);
            } else {
                lemma_eval_operands_too_deep(*cdr, limit);
            }
        },
        _ => {},
    }
}

/// `wrap` keeps the residue modulo 2^32, and is the identity on `i32`.
pub proof fn lemma_wrap(v: int)
    ensures
        wrap(v) as int % 0x1_0000_0000 == v % 0x1_0000_0000,
        i32::MIN <= v <= i32::MAX ==> wrap(v) == v,
{
    let r = 0x1_0000_0000int;
    let m = v % r;
    lemma_mod_twice(v, r);
    if m > i32::MAX {
        lemma_mod_multiples_vanish(-1, m, r);
    }
    if 0 <= v <= i32::MAX {
        lemma_small_mod(v as nat, r as nat);
    }
    if i32::MIN <= v < 0 {
        lemma_mod_multiples_vanish(1, v, r);
        lemma_small_mod((v + r) as nat, r as nat);
    }
}

/// Two integers with the same residue modulo 2^32 wrap to the same `i32`.
pub proof fn lemma_wrap_add(a: int, b: int)
    ensures
        wrap(wrap(a) + b) == wrap(a + b),
        wrap(wrap(a) - b) == wrap(a - b),
        wrap(wrap(a) * b) == wrap(a * b),
{
    let r = 0x1_0000_0000int;
    lemma_wrap(a);
    lemma_add_mod_noop(wrap(a) as int, b, r);
    lemma_add_mod_noop(a, b, r);
    lemma_sub_mod_noop(wrap(a) as int, b, r);
    lemma_sub_mod_noop(a, b, r);
    lemma_mul_mod_noop(wrap(a) as int, b, r);
    lemma_mul_mod_noop(a, b, r);
}

fn add_all(values: &[i32]) -> (r: i32)
    ensures
        r == wrap(sum_of(values@)),
{
    let mut acc: i32 = 0;
    let mut i: usize = 0;
    while i < values.len()
        invariant
            i <= values.len(),
            acc == wrap(sum_of(values@.take(i as int))),
        decreases values.len() - i,
    {
        proof {
            assert(values@.take(i + 1).drop_last() =~= values@.take(i as int));
            lemma_wrap_add(sum_of(values@.take(i as int)), values@[i as int] as int);
            lemma_wrap(acc + values@[i as int]);
        }
        acc = acc.wrapping_add(values[i]);
        i += 1;
    }
    assert(values@.take(values.len() as int) =~= values@);
    acc
}

fn multiply_all(values: &[i32]) -> (r: i32)
    ensures
        r == wrap(product_of(values@)),
{
    let mut acc: i32 = 1;
    let mut i: usize = 0;
    while i < values.len()
        invariant
            i <= values.len(),
            acc == wrap(product_of(values@.take(i as int))),
        decreases values.len() - i,
    {
        proof {
            assert(values@.take(i + 1).drop_last() =~= values@.take(i as int));
            lemma_wrap_add(product_of(values@.take(i as int)), values@[i as int] as int);
        }
        acc = acc.wrapping_mul(values[i]);
        i += 1;
    }
    assert(values@.take(values.len() as int) =~= values@);
    acc
}

fn subtract_all(values: &[i32]) -> (r: i32)
    requires
        values@.len() >= 1,
    ensures
        values@.len() == 1 ==> r == wrap(-values@[0]),
        values@.len() >= 2 ==> r == wrap(values@[0] - sum_of(values@.skip(1))),
{
    if values.len() == 1 {
        proof {
            lemma_wrap(0 - values@[0]);
        }
        return (0i32).wrapping_sub(values[0]);
    }
    let mut acc: i32 = values[0];
    let mut i: usize = 1;
    proof {
        lemma_wrap(values@[0] as int);
        assert(values@.subrange(1, 1) =~= Seq::<i32>::empty());
    }
    while i < values.len()
        invariant
            1 <= i <= values.len(),
            acc == wrap(values@[0] - sum_of(values@.subrange(1, i as int))),
        decreases values.len() - i,
    {
        proof {
            assert(values@.subrange(1, i + 1).drop_last() =~= values@.subrange(1, i as int));
            lemma_wrap_add(
                values@[0] - sum_of(values@.subrange(1, i as int)),
                values@[i as int] as int,
            );
            lemma_wrap(acc - values@[i as int]);
        }
        acc = acc.wrapping_sub(values[i]);
        i += 1;
    }
    assert(values@.subrange(1, values.len() as int) =~= values@.skip(1));
    acc
}

/// Euclidean division of a dividend that is not negative rounds toward
/// zero: the quotient lies between the dividend and its negation, and
/// negating the divisor negates it.
pub proof fn lemma_quotient_bounds(a: int, b: int)
    requires
        a >= 0,
        b != 0,
    ensures
        -a <= a / b <= a,
        a / (-b) == -(a / b),
{
    let q = a / b;
    let r = a % b;
    assert(a == b * q + r && 0 <= r && (b > 0 ==> r < b) && (b < 0 ==> r < -b))
        by (nonlinear_arith)
        requires
            b != 0,
            q == a / b,
            r == a % b,
    ;
    assert(-a <= q <= a) by (nonlinear_arith)
        requires
            a >= 0,
            b != 0,
            a == b * q + r,
            0 <= r,
            b > 0 ==> r < b,
            b < 0 ==> r < -b,
    ;
    let q2 = a / (-b);
    let r2 = a % (-b);
    assert(a == (-b) * q2 + r2 && 0 <= r2 && (b < 0 ==> r2 < -b) && (b > 0 ==> r2 < b))
        by (nonlinear_arith)
        requires
            b != 0,
            q2 == a / (-b),
            r2 == a % (-b),
    ;
    assert(q2 == -q) by (nonlinear_arith)
        requires
            b != 0,
            a == b * q + r,
            a == (-b) * q2 + r2,
            0 <= r,
            0 <= r2,
            b > 0 ==> r < b && r2 < b,
            b < 0 ==> r < -b && r2 < -b,
    ;
}

fn divide(a: i32, b: i32) -> (r: i32)
    requires
        b != 0,
    ensures
        r == wrap(truncated_quotient(a as int, b as int)),
{
    if a == i32::MIN && b == -1 {
        assert(0x8000_0000int / (-1int) == -0x8000_0000int);
        assert(0x8000_0000int % 0x1_0000_0000int == 0x8000_0000int);
        i32::MIN
    } else {
        proof {
            if a >= 0 {
                lemma_quotient_bounds(a as int, b as int);
            } else {
                lemma_quotient_bounds(-(a as int), b as int);
                if a == i32::MIN {
                    // the divisor is not -1, so the quotient cannot reach 2^31
                    if b == 1 {
                        assert(0x8000_0000int / 1int == 0x8000_0000int);
                    } else {
                        assert(-0x8000_0000int < (0x8000_0000int / (b as int)) < 0x8000_0000int)
                            by (nonlinear_arith)
                            requires
                                b != 0 && b != 1 && b != -1,
                        ;
                    }
                }
            }
            lemma_wrap(truncated_quotient(a as int, b as int));
        }
        a / b
    }
}

fn divide_all_by(values: &[i32]) -> (r: Result<i32, EvalError>)
    requires
        values@.len() >= 2,
    ensures
        r == apply_spec(Expr::OpDiv, values@),
{
    let mut i: usize = 1;
    while i < values.len()
        invariant
            1 <= i <= values.len(),
            values@.len() >= 2,
            forall|k: int| 1 <= k < i ==> values@[k] != 0,
        decreases values.len() - i,
    {
        if values[i] == 0 {
            assert(1 <= i < values@.len() && values@[i as int] == 0);
            return Err(EvalError::DivisionByZero);
        }
        i += 1;
    }
    let mut acc: i32 = values[0];
    let mut j: usize = 1;
    while j < values.len()
        invariant
            1 <= j <= values.len(),
            forall|k: int| 1 <= k < values@.len() ==> values@[k] != 0,
            divide_all(acc, values@.skip(j as int)) == divide_all(values@[0], values@.skip(1)),
        decreases values.len() - j,
    {
        proof {
            assert(values@.skip(j as int).skip(1) =~= values@.skip(j + 1));
        }
        acc = divide(acc, values[j]);
        j += 1;
    }
    Ok(acc)
}

/// Folds `values` by the rule of the operator `op`.
pub fn apply(op: &Expr, values: &[i32]) -> (r: Result<i32, EvalError>)
    ensures
        r == apply_spec(*op, values@),
{
    match op {
        Expr::OpAdd => Ok(add_all(values)),
        Expr::OpMul => Ok(multiply_all(values)),
        Expr::OpSub => {
            if values.len() == 0 {
                Err(EvalError::ArityError)
            } else {
                Ok(subtract_all(values))
            }
        },
        Expr::OpDiv => {
            if values.len() < 2 {
                Err(EvalError::ArityError)
            } else {
                divide_all_by(values)
            }
        },
        _ => Err(EvalError::TypeError),
    }
}

/// The outcome of a list of operands whose first values are already known.
spec fn with_values(values: Seq<i32>, tail: Result<Seq<i32>, EvalError>) -> Result<
    Seq<i32>,
    EvalError,
> {
    match tail {
        Err(e) => Err(e),
        Ok(others) => Ok(values + others),
    }
}

/// Evaluates `expr`, in which applications may be nested at most `limit`
/// deep.
pub fn eval_within(expr: &Expr, limit: usize) -> (r: Result<i32, EvalError>)
    ensures
        r == eval_spec(*expr, limit as nat),
    decreases expr,
{
    match expr {
        Expr::Number(n) => Ok(*n),
        Expr::Pair { car, cdr } => {
            match &**car {
                Expr::OpAdd | Expr::OpMul | Expr::OpSub | Expr::OpDiv => {},
                _ => {
                    return Err(EvalError::TypeError);
                },
            }
            if limit == 0 {
                return Err(EvalError::NestingTooDeep);
            }
            let mut values: Vec<i32> = Vec::new();
            let mut cur: &Expr = &**cdr;
            loop
                invariant
                    limit > 0,
                    *expr == (Expr::Pair { car: *car, cdr: *cdr }),
                    car.is_operator(),
                    decreases_to!(expr => cur),
                    eval_operands_spec(**cdr, (limit - 1) as nat) == with_values(
                        values@,
                        eval_operands_spec(*cur, (limit - 1) as nat),
                    ),
                decreases cur,
            {
                match cur {
                    Expr::Nil => {
                        assert(values@ + Seq::<i32>::empty() =~= values@);
                        return apply(&**car, values.as_slice());
                    },
                    Expr::Pair { car: operand, cdr: others } => {
                        match eval_within(&**operand, limit - 1) {
                            Err(e) => {
                                return Err(e);
                            },
                            Ok(value) => {
                                proof {
                                    let tail = eval_operands_spec(**others, (limit - 1) as nat);
                                    if let Ok(rest) = tail {
                                        assert(values@ + (seq![value] + rest) =~= values@.push(
                                            value,
                                        ) + rest);
                                    }
                                }
                                values.push(value);
                                cur = &**others;
                            },
                        }
                    },
                    _ => {
                        return Err(EvalError::TypeError);
                    },
                }
            }
        },
        _ => Err(EvalError::TypeError),
    }
}

/// Evaluates `expr`, in which applications may be nested at most
/// [`MAX_NESTING_DEPTH`] deep.
pub fn eval(expr: &Expr) -> (r: Result<i32, EvalError>)
    ensures
        r == eval_spec(*expr, MAX_NESTING_DEPTH as nat),
{
    eval_within(expr, MAX_NESTING_DEPTH)
}

} // verus!
