use lisp_arith::Token::{LParen, Num, OpAdd, OpDiv, OpMul, OpSub, RParen};
use lisp_arith::{str2token, tokenize, Token};

fn unknown(text: &str) -> Token {
    Token::Unimplemented(text.to_string())
}

#[test]
fn tokenize_success() {
    assert_eq!(tokenize("1"), vec![Num(1)]);
    assert_eq!(
        tokenize("(1 2 3)"),
        vec![LParen, Num(1), Num(2), Num(3), RParen]
    );
    assert_eq!(
        tokenize("(+ 2 3)"),
        vec![LParen, OpAdd, Num(2), Num(3), RParen]
    );
    assert_eq!(
        tokenize("(+ (+ 2 3) (- 12 3))"),
        vec![
            LParen,
            OpAdd,
            LParen,
            OpAdd,
            Num(2),
            Num(3),
            RParen,
            LParen,
            OpSub,
            Num(12),
            Num(3),
            RParen,
            RParen
        ]
    );
}

#[test]
fn tokenize_single_number() {
    let tokens = tokenize("1");
    assert_eq!(tokens.len(), 1);
    assert_eq!(tokens[0], Token::Num(1));
}

#[test]
fn tokenize_nested_has_thirteen_tokens() {
    let tokens = tokenize("(+ (+ 2 3) (- 12 3))");
    assert_eq!(tokens.len(), 13);
    let mut depth = 0;
    let mut deepest = 0;
    for token in &tokens {
        match token {
            Token::LParen => depth += 1,
            Token::RParen => depth -= 1,
            _ => {}
        }
        assert!(depth >= 0);
        if depth > deepest {
            deepest = depth;
        }
    }
    assert_eq!(depth, 0);
    assert_eq!(deepest, 2);
}

#[test]
fn tokenize_empty_and_blank() {
    assert_eq!(tokenize(""), Vec::<Token>::new());
    assert_eq!(tokenize("  \t\r\n "), Vec::<Token>::new());
}

#[test]
fn tokenize_all_operators() {
    assert_eq!(tokenize("+ - * /"), vec![OpAdd, OpSub, OpMul, OpDiv]);
}

#[test]
fn tokenize_parens_need_no_spaces() {
    assert_eq!(
        tokenize("(+(+ 2 3)(- 12 3))"),
        tokenize("(+ (+ 2 3) (- 12 3))")
    );
    assert_eq!(tokenize("()"), vec![LParen, RParen]);
    assert_eq!(tokenize(")("), vec![RParen, LParen]);
    assert_eq!(
        tokenize("a(b)c"),
        vec![unknown("a"), LParen, unknown("b"), RParen, unknown("c")]
    );
}

#[test]
fn tokenize_keeps_unrecognized_lexemes() {
    assert_eq!(tokenize("foo bar"), vec![unknown("foo"), unknown("bar")]);
    assert_eq!(tokenize("12a"), vec![unknown("12a")]);
    assert_eq!(tokenize("-5"), vec![unknown("-5")]);
    assert_eq!(tokenize("+5"), vec![unknown("+5")]);
    assert_eq!(tokenize("1.5"), vec![unknown("1.5")]);
    assert_eq!(tokenize("++"), vec![unknown("++")]);
    assert_eq!(tokenize("\u{0661}\u{0662}"), vec![unknown("\u{0661}\u{0662}")]);
}

#[test]
fn tokenize_literals_at_the_edge_of_i32() {
    assert_eq!(tokenize("0"), vec![Token::Num(0)]);
    assert_eq!(tokenize("007"), vec![Token::Num(7)]);
    assert_eq!(tokenize("2147483647"), vec![Token::Num(i32::MAX)]);
    assert_eq!(tokenize("0002147483647"), vec![Token::Num(i32::MAX)]);
    assert_eq!(tokenize("2147483648"), vec![unknown("2147483648")]);
    assert_eq!(
        tokenize("99999999999999999999999999999999"),
        vec![unknown("99999999999999999999999999999999")]
    );
}

#[test]
fn tokenize_splits_at_unicode_whitespace() {
    assert_eq!(tokenize("1\u{00A0}2"), vec![Num(1), Num(2)]);
    assert_eq!(tokenize("1\u{3000}2"), vec![Num(1), Num(2)]);
    assert_eq!(tokenize("1\u{2003}2\u{2028}3"), vec![Num(1), Num(2), Num(3)]);
    assert_eq!(tokenize("1\u{000B}2\u{000C}3\u{0085}4"), vec![Num(1), Num(2), Num(3), Num(4)]);
    assert_eq!(tokenize("1\u{200B}2"), vec![unknown("1\u{200B}2")]);
}

#[test]
fn tokenize_agrees_with_pad_and_split() {
    let inputs = [
        "(+ (+ 2 3) (- 12 3))",
        "(+(* 2 3)x)",
        "  a(b  )c\t(",
        "",
        ")))",
        "1\u{00A0}(2\n)",
    ];
    for input in inputs {
        let padded = input.replace('(', " ( ").replace(')', " ) ");
        let expected: Vec<Token> = padded.split_whitespace().map(str2token).collect();
        assert_eq!(tokenize(input), expected);
    }
}

#[test]
fn str2token_classifies_each_lexeme() {
    assert_eq!(str2token("("), Token::LParen);
    assert_eq!(str2token(")"), Token::RParen);
    assert_eq!(str2token("+"), Token::OpAdd);
    assert_eq!(str2token("-"), Token::OpSub);
    assert_eq!(str2token("*"), Token::OpMul);
    assert_eq!(str2token("/"), Token::OpDiv);
    assert_eq!(str2token("42"), Token::Num(42));
    assert_eq!(str2token("2147483648"), unknown("2147483648"));
    assert_eq!(str2token(""), unknown(""));
    assert_eq!(str2token("(+"), unknown("(+"));
    assert_eq!(str2token("1 2"), unknown("1 2"));
    assert_eq!(str2token("x"), unknown("x"));
}

#[test]
fn whitespace_is_the_unicode_white_space_set() {
    for code in 0..=0x10FFFFu32 {
        let c = match char::from_u32(code) {
            Some(c) => c,
            None => continue,
        };
        if c == '(' || c == ')' {
            continue;
        }
        let mut text = String::from("1");
        text.push(c);
        text.push('2');
        let splits = tokenize(&text) == vec![Num(1), Num(2)];
        assert_eq!(splits, c.is_whitespace(), "U+{:04X}", code);
    }
}

#[test]
fn only_ascii_digits_make_a_literal() {
    for code in 0..=0x10FFFFu32 {
        let c = match char::from_u32(code) {
            Some(c) => c,
            None => continue,
        };
        let mut text = String::new();
        text.push(c);
        let is_literal = matches!(str2token(&text), Num(_));
        assert_eq!(is_literal, c.is_ascii_digit(), "U+{:04X}", code);
    }
}
