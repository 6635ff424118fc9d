//! Characters, decimal literals and the string primitives that the lexer and
//! the printers rest on.

use vstd::prelude::*;

verus! {

/// `String::push` of the standard library, which vstd leaves unspecified:
/// the string afterwards is the string before with `c` appended at its end.
pub assume_specification[ String::push ](s: &mut String, c: char)
    ensures
        final(s)@ == old(s)@.push(c),
;

/// The characters with the Unicode `White_Space` property: the ones on which
/// text is split into lexemes.
pub open spec fn is_whitespace(c: char) -> bool {
    let u = c as u32;
    ||| 0x09 <= u <= 0x0D
    ||| u == 0x20
    ||| u == 0x85
    ||| u == 0xA0
    ||| u == 0x1680
    ||| 0x2000 <= u <= 0x200A
    ||| u == 0x2028
    ||| u == 0x2029
    ||| u == 0x202F
    ||| u == 0x205F
    ||| u == 0x3000
}

/// The two parentheses, each a lexeme on its own wherever it stands.
pub open spec fn is_paren(c: char) -> bool {
    c == '(' || c == ')'
}

/// A character that ends the lexeme before it.
pub open spec fn is_delimiter(c: char) -> bool {
    is_whitespace(c) || is_paren(c)
}

/// The ASCII decimal digits.
pub open spec fn is_digit(c: char) -> bool {
    '0' <= c <= '9'
}

/// The value of a decimal digit.
pub open spec fn digit_value(c: char) -> nat
    recommends
        is_digit(c),
{
    (c as u32 - '0' as u32) as nat
}

/// The digit that stands for a value below ten.
pub open spec fn digit_char(d: nat) -> char
    recommends
        d < 10,
{
    if d == 0 {
        '0'
    } else if d == 1 {
        '1'
    } else if d == 2 {
        '2'
    } else if d == 3 {
        '3'
    } else if d == 4 {
        '4'
    } else if d == 5 {
        '5'
    } else if d == 6 {
        '6'
    } else if d == 7 {
        '7'
    } else if d == 8 {
        '8'
    } else {
        '9'
    }
}

/// Whether every character is a decimal digit.
pub open spec fn all_digits(s: Seq<char>) -> bool {
    forall|i: int| 0 <= i < s.len() ==> is_digit(#[trigger] s[i])
}

/// The number that a string of digits denotes in base ten.
pub open spec fn decimal_value(s: Seq<char>) -> nat
    decreases s.len(),
{
    if s.len() == 0 {
        0
    } else {
        decimal_value(s.drop_last()) * 10 + digit_value(s.last())
    }
}

/// What a lexeme is when read as a decimal literal.
#[derive(Debug, Clone, Copy, PartialEq, Eq, Structural)]
pub enum Literal {
    /// Empty, or some character is not a decimal digit.
    NotDecimal,
    /// All digits, with a value of at most `i32::MAX`.
    Value(i32),
    /// All digits, with a value above `i32::MAX`.
    TooLarge,
}

/// Reads a lexeme as a decimal literal: a non-empty string of digits, with
/// its value where that fits in `i32`.
pub open spec fn literal_of(s: Seq<char>) -> Literal {
    if s.len() == 0 || !all_digits(s) {
        Literal::NotDecimal
    } else if decimal_value(s) <= i32::MAX {
        Literal::Value(decimal_value(s) as i32)
    } else {
        Literal::TooLarge
    }
}

/// Whether a decimal literal's value is too large for `i32`.
pub open spec fn literal_overflows(s: Seq<char>) -> bool {
    literal_of(s) == Literal::TooLarge
}

/// The shortest decimal notation of a natural number.
pub open spec fn decimal_digits(n: nat) -> Seq<char>
    decreases n,
{
    if n < 10 {
        seq![digit_char(n)]
    } else {
        decimal_digits(n / 10).push(digit_char(n % 10))
    }
}

/// The decimal notation of an integer, with a leading `-` below zero.
pub open spec fn decimal_text(n: int) -> Seq<char> {
    if n < 0 {
        seq!['-'] + decimal_digits((-n) as nat)
    } else {
        decimal_digits(n as nat)
    }
}

/// Appending a digit multiplies the value by ten and adds the digit; the
/// value never shrinks.
pub proof fn lemma_decimal_value_push(s: Seq<char>, c: char)
    ensures
        decimal_value(s.push(c)) == decimal_value(s) * 10 + digit_value(c),
        decimal_value(s.push(c)) >= decimal_value(s),
{
    assert(s.push(c).drop_last() =~= s);
    assert(s.push(c).last() == c);
}

/// Reading back the notation of `n` gives `n`, and the notation is a
/// non-empty string of digits.
pub proof fn lemma_decimal_digits_value(n: nat)
    ensures
        decimal_digits(n).len() > 0,
        all_digits(decimal_digits(n)),
        decimal_value(decimal_digits(n)) == n,
    decreases n,
{
    if n < 10 {
        let s = decimal_digits(n);
        assert(s.drop_last() =~= Seq::<char>::empty());
        assert(decimal_value(s.drop_last()) == 0);
        assert(s.last() == digit_char(n));
    } else {
        lemma_decimal_digits_value(n / 10);
        lemma_decimal_value_push(decimal_digits(n / 10), digit_char(n % 10));
    }
}

/// Whether `c` is whitespace.
pub(crate) fn whitespace_char(c: char) -> (r: bool)
    ensures
        r == is_whitespace(c),
{
    let u: u32 = c as u32;
    (0x09 <= u && u <= 0x0D) || u == 0x20 || u == 0x85 || u == 0xA0 || u == 0x1680 || (0x2000 <= u
        && u <= 0x200A) || u == 0x2028 || u == 0x2029 || u == 0x202F || u == 0x205F || u == 0x3000
}

/// Whether `c` ends the lexeme before it.
pub(crate) fn delimiter_char(c: char) -> (r: bool)
    ensures
        r == is_delimiter(c),
{
    c == '(' || c == ')' || whitespace_char(c)
}

/// The characters of a string slice, in order.
pub(crate) fn chars_of(s: &str) -> (out: Vec<char>)
    ensures
        out@ == s@,
{
    let mut out: Vec<char> = Vec::new();
    for c in it: s.chars()
        invariant
            out@ == s@.take(it.index() as int),
            it.seq() == s@,
    {
        out.push(c);
    }
    out
}

/// The string made of the given characters.
pub(crate) fn string_of(chars: &[char]) -> (s: String)
    ensures
        s@ == chars@,
{
    let mut s = String::new();
    let mut i: usize = 0;
    while i < chars.len()
        invariant
            i <= chars.len(),
            s@ == chars@.take(i as int),
        decreases chars.len() - i,
    {
        s.push(chars[i]);
        i += 1;
    }
    s
}

/// Reads a lexeme as a decimal literal, telling a value that fits in `i32`
/// from one that does not.
pub(crate) fn read_literal(s: &[char]) -> (r: Literal)
    ensures
        r == literal_of(s@),
{
    if s.len() == 0 {
        return Literal::NotDecimal;
    }
    let mut acc: u32 = 0;
    let mut fits: bool = true;
    let mut i: usize = 0;
    while i < s.len()
        invariant
            i <= s.len(),
            all_digits(s@.take(i as int)),
            fits ==> acc == decimal_value(s@.take(i as int)) && acc <= i32::MAX,
            !fits ==> decimal_value(s@.take(i as int)) > i32::MAX,
        decreases s.len() - i,
    {
        let c: char = s[i];
        if !('0' <= c && c <= '9') {
            return Literal::NotDecimal;
        }
        proof {
            assert(s@.take(i + 1) =~= s@.take(i as int).push(c));
            lemma_decimal_value_push(s@.take(i as int), c);
        }
        if fits {
            let next: u64 = acc as u64 * 10 + (c as u32 - '0' as u32) as u64;
            if next > i32::MAX as u64 {
                fits = false;
            } else {
                acc = next as u32;
            }
        }
        i += 1;
    }
    assert(s@.take(s.len() as int) =~= s@);
    if fits {
        Literal::Value(acc as i32)
    } else {
        Literal::TooLarge
    }
}

/// Appends the decimal notation of `n`, the most significant digit first.
fn push_digits(out: &mut String, n: u32)
    ensures
        final(out)@ == old(out)@ + decimal_digits(n as nat),
    decreases n,
{
    if n >= 10 {
        push_digits(out, n / 10);
    }
    let d: u8 = (n % 10) as u8;
    let c: char = (('0' as u8) + d) as char;
    assert(c == digit_char((n % 10) as nat));
    out.push(c);
    assert(out@ =~= old(out)@ + decimal_digits(n as nat));
}

/// Appends the decimal notation of `n`.
pub(crate) fn push_decimal(out: &mut String, n: i32)
    ensures
        final(out)@ == old(out)@ + decimal_text(n as int),
{
    if n < 0 {
        out.push('-');
        let magnitude: u32 = (-(n as i64)) as u32;
        push_digits(out, magnitude);
        assert(out@ =~= old(out)@ + decimal_text(n as int));
    } else {
        push_digits(out, n as u32);
    }
}

} // verus!
