//! The tokenizer: text to lexemes, and each lexeme to its token.
//!
//! Whitespace separates lexemes and is dropped. A parenthesis is a lexeme on
//! its own wherever it stands. Every other lexeme is a longest run of
//! characters that holds neither.

use vstd::prelude::*;
use vstd::slice::slice_subrange;
use crate::text::{
    chars_of,
    delimiter_char,
    is_delimiter,
    is_paren,
    is_whitespace,
    literal_of,
    read_literal,
    string_of,
    whitespace_char,
    Literal,
};
use crate::token::{lemma_views_push, views, SpecToken, Token};

verus! {

/// The length of the longest prefix of `text` that holds no delimiter.
pub open spec fn word_len(text: Seq<char>) -> nat
    decreases text.len(),
{
    if text.len() == 0 || is_delimiter(text[0]) {
        0
    } else {
        1 + word_len(text.skip(1))
    }
}

/// The lexemes of `text`, in order.
pub open spec fn lexemes(text: Seq<char>) -> Seq<Seq<char>>
    decreases text.len(),
{
    if text.len() == 0 {
        Seq::empty()
    } else if is_whitespace(text[0]) {
        lexemes(text.skip(1))
    } else if is_paren(text[0]) {
        seq![text.take(1)] + lexemes(text.skip(1))
    } else {
        proof {
            lemma_word_len(text);
        }
        seq![text.take(word_len(text) as int)] + lexemes(text.skip(word_len(text) as int))
    }
}

/// The token of one lexeme: a parenthesis, a decimal literal that fits in
/// `i32`, an operator, or else the lexeme itself, unrecognized.
pub open spec fn classify(lexeme: Seq<char>) -> SpecToken {
    if lexeme == seq!['('] {
        SpecToken::LParen
    } else if lexeme == seq![')'] {
        SpecToken::RParen
    } else if let Literal::Value(n) = literal_of(lexeme) {
        SpecToken::Num(n)
    } else if lexeme == seq!['+'] {
        SpecToken::OpAdd
    } else if lexeme == seq!['-'] {
        SpecToken::OpSub
    } else if lexeme == seq!['*'] {
        SpecToken::OpMul
    } else if lexeme == seq!['/'] {
        SpecToken::OpDiv
    } else {
        SpecToken::Unimplemented(lexeme)
    }
}

/// The tokens of a sequence of lexemes, one for one.
pub open spec fn classify_all(lexemes: Seq<Seq<char>>) -> Seq<SpecToken> {
    lexemes.map_values(|lexeme: Seq<char>| classify(lexeme))
}

/// The tokens of `text`.
pub open spec fn tokenize_spec(text: Seq<char>) -> Seq<SpecToken> {
    classify_all(lexemes(text))
}

/// The word at the front of `text` lies within it, holds no delimiter, and
/// ends at a delimiter or at the end of the text.
pub proof fn lemma_word_len(text: Seq<char>)
    ensures
        word_len(text) <= text.len(),
        text.len() > 0 && !is_delimiter(text[0]) ==> word_len(text) >= 1,
        forall|i: int| 0 <= i < word_len(text) ==> !is_delimiter(#[trigger] text[i]),
        word_len(text) < text.len() ==> is_delimiter(text[word_len(text) as int]),
    decreases text.len(),
{
    if text.len() > 0 && !is_delimiter(text[0]) {
        lemma_word_len(text.skip(1));
        assert forall|i: int| 0 <= i < word_len(text) implies !is_delimiter(#[trigger] text[i]) by {
            if i > 0 {
                assert(text[i] == text.skip(1)[i - 1]);
            }
        }
        if word_len(text) < text.len() {
            assert(text[word_len(text) as int] == text.skip(1)[word_len(text.skip(1)) as int]);
        }
    }
}

/// A prefix without delimiters that ends at a delimiter, or at the end of
/// the text, is the word at the front of the text.
pub proof fn lemma_word_len_is(text: Seq<char>, n: int)
    requires
        0 <= n <= text.len(),
        forall|i: int| 0 <= i < n ==> !is_delimiter(#[trigger] text[i]),
        n < text.len() ==> is_delimiter(text[n]),
    ensures
        word_len(text) == n,
    decreases n,
{
    if n > 0 {
        assert forall|i: int| 0 <= i < n - 1 implies !is_delimiter(#[trigger] text.skip(1)[i]) by {
            assert(text.skip(1)[i] == text[i + 1]);
        }
        lemma_word_len_is(text.skip(1), n - 1);
    }
}

/// Classifying lexemes one for one goes through concatenation.
pub proof fn lemma_classify_all_add(a: Seq<Seq<char>>, b: Seq<Seq<char>>)
    ensures
        classify_all(a + b) == classify_all(a) + classify_all(b),
{
    assert(classify_all(a + b) =~= classify_all(a) + classify_all(b));
}

/// A parenthesis at the front of a text is its first lexeme.
pub proof fn lemma_lexemes_paren(c: char, rest: Seq<char>)
    requires
        is_paren(c),
    ensures
        lexemes(seq![c] + rest) == seq![seq![c]] + lexemes(rest),
{
    let text = seq![c] + rest;
    assert(text[0] == c);
    assert(text.take(1) =~= seq![c]);
    assert(text.skip(1) =~= rest);
}

/// Whitespace at the front of a text adds no lexeme.
pub proof fn lemma_lexemes_space(c: char, rest: Seq<char>)
    requires
        is_whitespace(c),
    ensures
        lexemes(seq![c] + rest) == lexemes(rest),
{
    let text = seq![c] + rest;
    assert(text[0] == c);
    assert(text.skip(1) =~= rest);
}

/// A word at the front of a text, followed by a delimiter or by nothing, is
/// its first lexeme.
pub proof fn lemma_lexemes_word(word: Seq<char>, rest: Seq<char>)
    requires
        word.len() > 0,
        forall|i: int| 0 <= i < word.len() ==> !is_delimiter(#[trigger] word[i]),
        rest.len() == 0 || is_delimiter(rest[0]),
    ensures
        lexemes(word + rest) == seq![word] + lexemes(rest),
{
    let text = word + rest;
    assert(text[0] == word[0]);
    assert forall|i: int| 0 <= i < word.len() implies !is_delimiter(#[trigger] text[i]) by {
        assert(text[i] == word[i]);
    }
    if rest.len() > 0 {
        assert(text[word.len() as int] == rest[0]);
    }
    lemma_word_len_is(text, word.len() as int);
    assert(text.take(word.len() as int) =~= word);
    assert(text.skip(word.len() as int) =~= rest);
}

/// The text with a space put on either side of every parenthesis.
pub open spec fn pad_parens(text: Seq<char>) -> Seq<char>
    decreases text.len(),
{
    if text.len() == 0 {
        Seq::empty()
    } else if is_paren(text[0]) {
        seq![' ', text[0], ' '] + pad_parens(text.skip(1))
    } else {
        seq![text[0]] + pad_parens(text.skip(1))
    }
}

/// The length of the longest prefix of `text` that holds no whitespace.
pub open spec fn run_len(text: Seq<char>) -> nat
    decreases text.len(),
{
    if text.len() == 0 || is_whitespace(text[0]) {
        0
    } else {
        1 + run_len(text.skip(1))
    }
}

/// The longest runs of characters other than whitespace, in order.
pub open spec fn split_whitespace(text: Seq<char>) -> Seq<Seq<char>>
    decreases text.len(),
{
    if text.len() == 0 {
        Seq::empty()
    } else if is_whitespace(text[0]) {
        split_whitespace(text.skip(1))
    } else {
        proof {
            lemma_run_len(text);
        }
        seq![text.take(run_len(text) as int)] + split_whitespace(text.skip(run_len(text) as int))
    }
}

/// The run at the front of `text` lies within it and is not empty where the
/// text begins with something other than whitespace.
pub proof fn lemma_run_len(text: Seq<char>)
    ensures
        run_len(text) <= text.len(),
        text.len() > 0 && !is_whitespace(text[0]) ==> run_len(text) >= 1,
    decreases text.len(),
{
    if text.len() > 0 && !is_whitespace(text[0]) {
        lemma_run_len(text.skip(1));
    }
}

/// A prefix without whitespace that ends at whitespace, or at the end of the
/// text, is the run at the front of the text.
pub proof fn lemma_run_len_is(text: Seq<char>, n: int)
    requires
        0 <= n <= text.len(),
        forall|i: int| 0 <= i < n ==> !is_whitespace(#[trigger] text[i]),
        n < text.len() ==> is_whitespace(text[n]),
    ensures
        run_len(text) == n,
    decreases n,
{
    if n > 0 {
        assert forall|i: int| 0 <= i < n - 1 implies !is_whitespace(#[trigger] text.skip(1)[i]) by {
            assert(text.skip(1)[i] == text[i + 1]);
        }
        lemma_run_len_is(text.skip(1), n - 1);
    }
}

/// Whitespace at the front of a text adds no run.
pub proof fn lemma_split_space(c: char, rest: Seq<char>)
    requires
        is_whitespace(c),
    ensures
        split_whitespace(seq![c] + rest) == split_whitespace(rest),
{
    let text = seq![c] + rest;
    assert(text[0] == c);
    assert(text.skip(1) =~= rest);
}

/// A run at the front of a text, followed by whitespace or by nothing, is
/// the first that the split gives.
pub proof fn lemma_split_run(run: Seq<char>, rest: Seq<char>)
    requires
        run.len() > 0,
        forall|i: int| 0 <= i < run.len() ==> !is_whitespace(#[trigger] run[i]),
        rest.len() == 0 || is_whitespace(rest[0]),
    ensures
        split_whitespace(run + rest) == seq![run] + split_whitespace(rest),
{
    let text = run + rest;
    assert(text[0] == run[0]);
    assert forall|i: int| 0 <= i < run.len() implies !is_whitespace(#[trigger] text[i]) by {
        assert(text[i] == run[i]);
    }
    if rest.len() > 0 {
        assert(text[run.len() as int] == rest[0]);
    }
    lemma_run_len_is(text, run.len() as int);
    assert(text.take(run.len() as int) =~= run);
    assert(text.skip(run.len() as int) =~= rest);
}

/// Padding leaves a stretch without parentheses as it is.
pub proof fn lemma_pad_plain(plain: Seq<char>, rest: Seq<char>)
    requires
        forall|i: int| 0 <= i < plain.len() ==> !is_paren(#[trigger] plain[i]),
    ensures
        pad_parens(plain + rest) == plain + pad_parens(rest),
    decreases plain.len(),
{
    if plain.len() == 0 {
        assert(plain + rest =~= rest);
        assert(plain + pad_parens(rest) =~= pad_parens(rest));
    } else {
        let text = plain + rest;
        assert(text[0] == plain[0]);
        assert(text.skip(1) =~= plain.skip(1) + rest);
        assert forall|i: int| 0 <= i < plain.skip(1).len() implies !is_paren(
            #[trigger] plain.skip(1)[i],
        ) by {
            assert(plain.skip(1)[i] == plain[i + 1]);
        }
        lemma_pad_plain(plain.skip(1), rest);
        assert(seq![plain[0]] + (plain.skip(1) + pad_parens(rest)) =~= plain + pad_parens(rest));
    }
}

/// What padding makes of a text that begins with a delimiter begins with
/// whitespace.
proof fn lemma_pad_front(text: Seq<char>)
    requires
        text.len() > 0,
        is_delimiter(text[0]),
    ensures
        pad_parens(text).len() > 0,
        is_whitespace(pad_parens(text)[0]),
{
    if is_paren(text[0]) {
        assert(pad_parens(text)[0] == seq![' ', text[0], ' '][0]);
    } else {
        assert(pad_parens(text)[0] == seq![text[0]][0]);
    }
}

/// The lexemes of a text are what is left when a space is put on either side
/// of every parenthesis and the result is split at whitespace.
pub proof fn lemma_lexemes_pad_split(text: Seq<char>)
    ensures
        lexemes(text) == split_whitespace(pad_parens(text)),
    decreases text.len(),
{
    if text.len() == 0 {
    } else if is_whitespace(text[0]) {
        lemma_lexemes_pad_split(text.skip(1));
        lemma_split_space(text[0], pad_parens(text.skip(1)));
    } else if is_paren(text[0]) {
        let rest = pad_parens(text.skip(1));
        lemma_lexemes_pad_split(text.skip(1));
        assert(pad_parens(text) =~= seq![' '] + (seq![text[0]] + (seq![' '] + rest)));
        lemma_split_space(' ', seq![text[0]] + (seq![' '] + rest));
        assert((seq![' '] + rest)[0] == ' ');
        lemma_split_run(seq![text[0]], seq![' '] + rest);
        lemma_split_space(' ', rest);
        assert(text.take(1) =~= seq![text[0]]);
    } else {
        lemma_word_len(text);
        let n = word_len(text) as int;
        let word = text.take(n);
        let rest = text.skip(n);
        lemma_lexemes_pad_split(rest);
        assert(text =~= word + rest);
        lemma_pad_plain(word, rest);
        if rest.len() > 0 {
            assert(rest[0] == text[n]);
            lemma_pad_front(rest);
        }
        lemma_split_run(word, pad_parens(rest));
    }
}

/// The token of a lexeme given by its characters.
fn token_of(word: &[char]) -> (r: Token)
    ensures
        r@ == classify(word@),
{
    if word.len() == 1 {
        let c: char = word[0];
        assert(word@ =~= seq![c]);
        assert(seq![c][0] == c);
        if c == '(' {
            return Token::LParen;
        } else if c == ')' {
            return Token::RParen;
        } else if c == '+' {
            assert(literal_of(word@) == Literal::NotDecimal);
            return Token::OpAdd;
        } else if c == '-' {
            assert(literal_of(word@) == Literal::NotDecimal);
            return Token::OpSub;
        } else if c == '*' {
            assert(literal_of(word@) == Literal::NotDecimal);
            return Token::OpMul;
        } else if c == '/' {
            assert(literal_of(word@) == Literal::NotDecimal);
            return Token::OpDiv;
        }
        assert(seq!['('][0] == '(' && seq![')'][0] == ')' && seq!['+'][0] == '+' && seq!['-'][0]
            == '-' && seq!['*'][0] == '*' && seq!['/'][0] == '/');
    }
    assert(seq!['('].len() == 1 && seq![')'].len() == 1 && seq!['+'].len() == 1 && seq!['-'].len()
        == 1 && seq!['*'].len() == 1 && seq!['/'].len() == 1);
    match read_literal(word) {
        Literal::Value(n) => Token::Num(n),
        _ => Token::Unimplemented(string_of(word)),
    }
}

/// The token of one lexeme.
pub fn str2token(code: &str) -> (r: Token)
    ensures
        r@ == classify(code@),
{
    let chars = chars_of(code);
    token_of(chars.as_slice())
}

/// Splits `input` into lexemes and gives the token of each. Never fails: a
/// lexeme that is no token of the language is kept as it is.
pub fn tokenize(input: &str) -> (tokens: Vec<Token>)
    ensures
        views(tokens@) == tokenize_spec(input@),
{
    let chars = chars_of(input);
    let mut tokens: Vec<Token> = Vec::new();
    let ghost mut done: Seq<Seq<char>> = Seq::empty();
    let mut i: usize = 0;
    proof {
        assert(chars@.skip(0) =~= chars@);
        assert(done + lexemes(chars@) =~= lexemes(chars@));
        assert(views(tokens@) =~= classify_all(done));
    }
    while i < chars.len()
        invariant
            i <= chars.len(),
            chars@ == input@,
            done + lexemes(chars@.skip(i as int)) == lexemes(chars@),
            views(tokens@) == classify_all(done),
        decreases chars.len() - i,
    {
        let ghost rest = chars@.skip(i as int);
        let c: char = chars[i];
        assert(rest[0] == c);
        if whitespace_char(c) {
            assert(rest.skip(1) =~= chars@.skip(i + 1));
            i += 1;
        } else {
            let start: usize = i;
            let mut end: usize = i + 1;
            if c != '(' && c != ')' {
                while end < chars.len() && !delimiter_char(chars[end])
                    invariant
                        start < end <= chars.len(),
                        forall|k: int| start <= k < end ==> !is_delimiter(#[trigger] chars@[k]),
                    decreases chars.len() - end,
                {
                    end += 1;
                }
                proof {
                    assert forall|k: int| 0 <= k < end - start implies !is_delimiter(
                        #[trigger] rest[k],
                    ) by {
                        assert(rest[k] == chars@[start + k]);
                    }
                    lemma_word_len_is(rest, end - start);
                }
            }
            let word = slice_subrange(chars.as_slice(), start, end);
            let token = token_of(word);
            proof {
                assert(word@ =~= rest.take(end - start));
                assert(rest.skip(end - start) =~= chars@.skip(end as int));
                assert(done + (seq![word@] + lexemes(chars@.skip(end as int))) =~= done.push(word@)
                    + lexemes(chars@.skip(end as int)));
                lemma_views_push(tokens@, token);
                assert(classify_all(done.push(word@)) =~= classify_all(done).push(classify(word@)));
                done = done.push(word@);
            }
            tokens.push(token);
            i = end;
        }
    }
    proof {
        assert(chars@.skip(chars@.len() as int) =~= Seq::<char>::empty());
        assert(done + Seq::<Seq<char>>::empty() =~= done);
    }
    tokens
}

} // verus!
