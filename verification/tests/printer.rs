use lisp_arith::{eval, parse, tokenize, EvalError, Expr, ParseError};

fn pair(car: Expr, cdr: Expr) -> Expr {
    Expr::Pair {
        car: Box::new(car),
        cdr: Box::new(cdr),
    }
}

fn read(code: &str) -> Expr {
    parse(&tokenize(code)).unwrap()
}

#[test]
fn source_notation_of_parsed_text() {
    assert_eq!(
        read("(+ (+ 2 3) (- 12 3))").to_source(),
        "(+ (+ 2 3) (- 12 3))"
    );
    assert_eq!(read("( +   2\n3 )").to_source(), "(+ 2 3)");
    assert_eq!(read("(*(/ 8 2)007)").to_source(), "(* (/ 8 2) 7)");
    assert_eq!(read("(+)").to_source(), "(+)");
    assert_eq!(read("42").to_source(), "42");
}

#[test]
fn source_notation_of_numbers() {
    assert_eq!(Expr::Number(0).to_source(), "0");
    assert_eq!(Expr::Number(9).to_source(), "9");
    assert_eq!(Expr::Number(10).to_source(), "10");
    assert_eq!(Expr::Number(1234567890).to_source(), "1234567890");
    assert_eq!(Expr::Number(i32::MAX).to_source(), "2147483647");
    assert_eq!(Expr::Number(-5).to_source(), "-5");
    assert_eq!(Expr::Number(-100).to_source(), "-100");
    assert_eq!(Expr::Number(i32::MIN).to_source(), "-2147483648");
}

#[test]
fn source_notation_of_other_trees() {
    assert_eq!(Expr::Nil.to_source(), "()");
    assert_eq!(Expr::OpAdd.to_source(), "+");
    assert_eq!(Expr::OpSub.to_source(), "-");
    assert_eq!(Expr::OpMul.to_source(), "*");
    assert_eq!(Expr::OpDiv.to_source(), "/");
    assert_eq!(pair(Expr::Nil, Expr::Nil).to_source(), "(())");
    assert_eq!(
        pair(Expr::Number(1), Expr::Number(2)).to_source(),
        "(1 . 2)"
    );
    assert_eq!(
        pair(Expr::OpAdd, pair(Expr::Number(1), Expr::Number(2))).to_source(),
        "(+ 1 . 2)"
    );
    assert_eq!(pair(Expr::Number(1), Expr::OpAdd).to_source(), "(1 . +)");
    assert_eq!(
        pair(pair(Expr::OpAdd, Expr::Nil), Expr::Nil).to_source(),
        "((+))"
    );
    assert_eq!(
        Expr::list(vec![Expr::Number(1), Expr::Nil, Expr::Number(-3)]).to_source(),
        "(1 () -3)"
    );
}

#[test]
fn cons_notation() {
    assert_eq!(read("(+ 2 3)").to_cons_string(), "(+ (2 (3 nil)))");
    assert_eq!(
        read("(+ (+ 2 3) (- 12 3))").to_cons_string(),
        "(+ ((+ (2 (3 nil))) ((- (12 (3 nil))) nil)))"
    );
    assert_eq!(read("(*)").to_cons_string(), "(* nil)");
    assert_eq!(Expr::Number(7).to_cons_string(), "7");
    assert_eq!(Expr::Number(-7).to_cons_string(), "-7");
    assert_eq!(Expr::Nil.to_cons_string(), "nil");
    assert_eq!(Expr::OpDiv.to_cons_string(), "/");
    assert_eq!(
        pair(Expr::Number(1), Expr::Number(2)).to_cons_string(),
        "(1 2)"
    );
}

#[test]
fn parse_error_labels() {
    assert_eq!(ParseError::MissingLParen.label(), "MissingLeftParen");
    assert_eq!(ParseError::MissingRParen.label(), "MissingRightParen");
    assert_eq!(ParseError::ExpressionFailed.label(), "Failed parse expression");
    assert_eq!(ParseError::ProcedureFailed.label(), "Failed parse procedure");
    assert_eq!(ParseError::ListFailed.label(), "Failed parse list");
    assert_eq!(ParseError::LiteralOverflow.label(), "LiteralOverflow");
}

#[test]
fn eval_error_labels() {
    assert_eq!(EvalError::DivisionByZero.label(), "DivisionByZero");
    assert_eq!(EvalError::ArityError.label(), "ArityError");
    assert_eq!(EvalError::TypeError.label(), "TypeError");
    assert_eq!(EvalError::NestingTooDeep.label(), "NestingTooDeep");
}

#[test]
fn reading_the_source_notation_gives_the_tree_again() {
    let inputs = [
        "1",
        "2147483647",
        "(+)",
        "(+ 2 3)",
        "(+ (+ 2 3) (- 12 3))",
        "(/ 10 0)",
        "(-)",
        "(*(+ 1 2)(- 3)(/ 100 5 2))",
        "  (  /  (  * 6 7 )\t( - 9 2 )\n)  ",
        "(+ (+ (+ (+ (+ 1)))))",
    ];
    for input in inputs {
        let tokens = tokenize(input);
        let expr = parse(&tokens).unwrap();
        let source = expr.to_source();
        let tokens_again = tokenize(&source);
        assert_eq!(tokens_again, tokens);
        let again = parse(&tokens_again).unwrap();
        assert_eq!(again, expr);
        assert_eq!(eval(&again), eval(&expr));
        assert_eq!(again.to_source(), source);
    }
}

#[test]
fn reading_handmade_trees_back() {
    let tree = pair(
        Expr::OpMul,
        Expr::list(vec![
            Expr::Number(6),
            pair(Expr::OpSub, Expr::list(vec![Expr::Number(0), Expr::Number(7)])),
        ]),
    );
    assert_eq!(tree.to_source(), "(* 6 (- 0 7))");
    assert_eq!(parse(&tokenize(&tree.to_source())), Ok(read("(* 6 (- 0 7))")));
    assert_eq!(eval(&tree), Ok(-42));
    let negative = pair(Expr::OpAdd, Expr::list(vec![Expr::Number(-1)]));
    assert_eq!(negative.to_source(), "(+ -1)");
    assert_eq!(
        parse(&tokenize(&negative.to_source())),
        Err(ParseError::ListFailed)
    );
}
