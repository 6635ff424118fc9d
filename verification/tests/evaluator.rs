use lisp_arith::{
    apply, eval, eval_within, parse, tokenize, EvalError, Expr, MAX_NESTING_DEPTH,
};

fn pair(car: Expr, cdr: Expr) -> Expr {
    Expr::Pair {
        car: Box::new(car),
        cdr: Box::new(cdr),
    }
}

fn call(op: Expr, operands: Vec<Expr>) -> Expr {
    pair(op, Expr::list(operands))
}

fn run(code: &str) -> Result<i32, EvalError> {
    eval(&parse(&tokenize(code)).unwrap())
}

fn nested(depth: usize) -> Expr {
    let mut expr = Expr::Number(1);
    for _ in 0..depth {
        expr = call(Expr::OpAdd, vec![expr]);
    }
    expr
}

#[test]
fn eval_nested_sum_and_difference() {
    assert_eq!(run("(+ (+ 2 3) (- 12 3))"), Ok(14));
}

#[test]
fn eval_division_by_zero() {
    assert_eq!(run("(/ 10 0)"), Err(EvalError::DivisionByZero));
    assert_eq!(run("(/ 10 2 0)"), Err(EvalError::DivisionByZero));
    assert_eq!(run("(/ 0 0)"), Err(EvalError::DivisionByZero));
    assert_eq!(run("(+ 1 (/ 1 0))"), Err(EvalError::DivisionByZero));
}

#[test]
fn eval_subtraction_needs_an_operand() {
    assert_eq!(run("(-)"), Err(EvalError::ArityError));
}

#[test]
fn eval_division_needs_two_operands() {
    assert_eq!(run("(/)"), Err(EvalError::ArityError));
    assert_eq!(run("(/ 5)"), Err(EvalError::ArityError));
    assert_eq!(run("(/ 0)"), Err(EvalError::ArityError));
}

#[test]
fn eval_number_is_itself() {
    assert_eq!(run("7"), Ok(7));
    assert_eq!(eval(&Expr::Number(-7)), Ok(-7));
    assert_eq!(eval(&Expr::Number(i32::MIN)), Ok(i32::MIN));
}

#[test]
fn eval_addition() {
    assert_eq!(run("(+)"), Ok(0));
    assert_eq!(run("(+ 1)"), Ok(1));
    assert_eq!(run("(+ 2 3)"), Ok(5));
    assert_eq!(run("(+ 1 2 3 4 5 6 7 8 9 10)"), Ok(55));
}

#[test]
fn eval_multiplication() {
    assert_eq!(run("(*)"), Ok(1));
    assert_eq!(run("(* 7)"), Ok(7));
    assert_eq!(run("(* 2 3 4)"), Ok(24));
    assert_eq!(run("(* 5 0 9)"), Ok(0));
}

#[test]
fn eval_subtraction() {
    assert_eq!(run("(- 5)"), Ok(-5));
    assert_eq!(run("(- 0)"), Ok(0));
    assert_eq!(run("(- 12 3)"), Ok(9));
    assert_eq!(run("(- 10 1 2 3)"), Ok(4));
    assert_eq!(run("(- 1 2)"), Ok(-1));
}

#[test]
fn eval_division_folds_from_the_left() {
    assert_eq!(run("(/ 100 5 2)"), Ok(10));
    assert_eq!(run("(/ 7 2)"), Ok(3));
    assert_eq!(run("(/ 1 2)"), Ok(0));
    assert_eq!(run("(/ 0 5)"), Ok(0));
    assert_eq!(run("(/ 100 7 3)"), Ok(4));
}

#[test]
fn eval_division_rounds_toward_zero() {
    let quotient = |a: i32, b: i32| eval(&call(Expr::OpDiv, vec![Expr::Number(a), Expr::Number(b)]));
    assert_eq!(quotient(-7, 2), Ok(-3));
    assert_eq!(quotient(7, -2), Ok(-3));
    assert_eq!(quotient(-7, -2), Ok(3));
    assert_eq!(quotient(-1, 2), Ok(0));
    assert_eq!(quotient(i32::MIN, 1), Ok(i32::MIN));
    assert_eq!(quotient(i32::MIN, 2), Ok(-1073741824));
    assert_eq!(quotient(i32::MAX, -1), Ok(-i32::MAX));
    assert_eq!(quotient(i32::MIN, i32::MIN), Ok(1));
    assert_eq!(quotient(i32::MAX, i32::MIN), Ok(0));
}

#[test]
fn eval_wraps_around() {
    assert_eq!(run("(+ 2147483647 1)"), Ok(i32::MIN));
    assert_eq!(run("(+ 2147483647 2147483647 2)"), Ok(0));
    assert_eq!(run("(* 65536 65536)"), Ok(0));
    assert_eq!(run("(* 2147483647 2)"), Ok(-2));
    assert_eq!(run("(* 65536 65536 7 0 3)"), Ok(0));
    assert_eq!(run("(- 0 2147483647 2)"), Ok(i32::MAX));
    assert_eq!(
        eval(&call(Expr::OpSub, vec![Expr::Number(i32::MIN)])),
        Ok(i32::MIN)
    );
    assert_eq!(
        eval(&call(
            Expr::OpDiv,
            vec![Expr::Number(i32::MIN), Expr::Number(-1)]
        )),
        Ok(i32::MIN)
    );
    assert_eq!(
        eval(&call(
            Expr::OpDiv,
            vec![Expr::Number(i32::MIN), Expr::Number(-1), Expr::Number(-1)]
        )),
        Ok(i32::MIN)
    );
}

#[test]
fn eval_operands_come_before_the_fold() {
    assert_eq!(run("(/ (/ 1 0))"), Err(EvalError::DivisionByZero));
    assert_eq!(run("(/ 1 0 (-))"), Err(EvalError::ArityError));
    assert_eq!(run("(- (-) (/ 1 0))"), Err(EvalError::ArityError));
    assert_eq!(run("(- (/ 1 0) (-))"), Err(EvalError::DivisionByZero));
}

#[test]
fn eval_type_errors() {
    assert_eq!(eval(&Expr::Nil), Err(EvalError::TypeError));
    assert_eq!(eval(&Expr::OpAdd), Err(EvalError::TypeError));
    assert_eq!(eval(&Expr::OpDiv), Err(EvalError::TypeError));
    assert_eq!(
        eval(&pair(Expr::Number(1), Expr::Nil)),
        Err(EvalError::TypeError)
    );
    assert_eq!(
        eval(&pair(Expr::Nil, Expr::Nil)),
        Err(EvalError::TypeError)
    );
    assert_eq!(
        eval(&pair(Expr::OpAdd, Expr::Number(3))),
        Err(EvalError::TypeError)
    );
    assert_eq!(
        eval(&pair(Expr::OpAdd, pair(Expr::Number(1), Expr::Number(2)))),
        Err(EvalError::TypeError)
    );
    assert_eq!(
        eval(&call(Expr::OpAdd, vec![Expr::Nil])),
        Err(EvalError::TypeError)
    );
    assert_eq!(
        eval(&call(Expr::OpAdd, vec![Expr::Number(1), Expr::OpMul])),
        Err(EvalError::TypeError)
    );
    assert_eq!(
        eval(&pair(
            call(Expr::OpAdd, vec![Expr::Number(1)]),
            Expr::list(vec![Expr::Number(2)])
        )),
        Err(EvalError::TypeError)
    );
}

#[test]
fn eval_first_failure_wins() {
    let bad_tail = pair(
        Expr::OpAdd,
        pair(
            call(Expr::OpDiv, vec![Expr::Number(1), Expr::Number(0)]),
            Expr::Number(3),
        ),
    );
    assert_eq!(eval(&bad_tail), Err(EvalError::DivisionByZero));
    let bad_later = call(
        Expr::OpAdd,
        vec![Expr::Nil, call(Expr::OpSub, Vec::new())],
    );
    assert_eq!(eval(&bad_later), Err(EvalError::TypeError));
}

#[test]
fn eval_nesting_limit() {
    assert_eq!(MAX_NESTING_DEPTH, 256);
    assert_eq!(eval(&nested(0)), Ok(1));
    assert_eq!(eval(&nested(256)), Ok(1));
    assert_eq!(eval(&nested(257)), Err(EvalError::NestingTooDeep));
    assert_eq!(eval(&nested(400)), Err(EvalError::NestingTooDeep));
}

#[test]
fn eval_within_a_chosen_limit() {
    assert_eq!(eval_within(&Expr::Number(5), 0), Ok(5));
    assert_eq!(
        eval_within(&call(Expr::OpAdd, Vec::new()), 0),
        Err(EvalError::NestingTooDeep)
    );
    assert_eq!(eval_within(&call(Expr::OpAdd, Vec::new()), 1), Ok(0));
    assert_eq!(
        eval_within(&pair(Expr::Number(1), Expr::Nil), 0),
        Err(EvalError::TypeError)
    );
    let two_deep = parse(&tokenize("(+ 1 (+ 2))")).unwrap();
    assert_eq!(eval_within(&two_deep, 1), Err(EvalError::NestingTooDeep));
    assert_eq!(eval_within(&two_deep, 2), Ok(3));
    assert_eq!(eval_within(&two_deep, 1000), Ok(3));
    let wide = parse(&tokenize("(+ (* 2 3) (- 9 4) (/ 8 2) 1)")).unwrap();
    assert_eq!(eval_within(&wide, 2), Ok(16));
    assert_eq!(eval_within(&nested(400), 400), Ok(1));
    let fails_before_depth = parse(&tokenize("(+ (/ 1 0) (+ (+ 1)))")).unwrap();
    assert_eq!(
        eval_within(&fails_before_depth, 2),
        Err(EvalError::DivisionByZero)
    );
}

#[test]
fn evaluation_is_total_on_parsed_input() {
    let inputs = [
        "1",
        "(+)",
        "(-)",
        "(/ 1)",
        "(/ 4 0)",
        "(* (+ 1 2) (- 3))",
        "(/ (* 6 7) (- 9 2))",
    ];
    for input in inputs {
        let result = run(input);
        assert_ne!(result, Err(EvalError::TypeError));
        assert_ne!(result, Err(EvalError::NestingTooDeep));
    }
}

#[test]
fn apply_each_fold_rule() {
    assert_eq!(apply(&Expr::OpAdd, &[]), Ok(0));
    assert_eq!(apply(&Expr::OpAdd, &[1, 2, 3]), Ok(6));
    assert_eq!(apply(&Expr::OpMul, &[]), Ok(1));
    assert_eq!(apply(&Expr::OpMul, &[-2, 3]), Ok(-6));
    assert_eq!(apply(&Expr::OpSub, &[]), Err(EvalError::ArityError));
    assert_eq!(apply(&Expr::OpSub, &[4]), Ok(-4));
    assert_eq!(apply(&Expr::OpSub, &[4, 1, 1]), Ok(2));
    assert_eq!(apply(&Expr::OpDiv, &[]), Err(EvalError::ArityError));
    assert_eq!(apply(&Expr::OpDiv, &[4]), Err(EvalError::ArityError));
    assert_eq!(apply(&Expr::OpDiv, &[0]), Err(EvalError::ArityError));
    assert_eq!(apply(&Expr::OpDiv, &[9, 2]), Ok(4));
    assert_eq!(apply(&Expr::OpDiv, &[0, 2, 0]), Err(EvalError::DivisionByZero));
    assert_eq!(apply(&Expr::OpDiv, &[-9, 2, -2]), Ok(2));
    assert_eq!(apply(&Expr::Number(1), &[1]), Err(EvalError::TypeError));
    assert_eq!(apply(&Expr::Nil, &[]), Err(EvalError::TypeError));
}
