use vstd::prelude::*;

use crate::error::{result_view, ErrorView, MathError};
use crate::token::{is_symbol_char, token_of, Span, Token, Tokens};

verus! {

pub open spec fn is_digit(c: char) -> bool {
    '0' <= c && c <= '9'
}

/// The characters that make up number literals.
pub open spec fn is_number_char(c: char) -> bool {
    is_digit(c) || c == '.'
}

/// The Unicode `White_Space` characters.
pub open spec fn is_white_space(c: char) -> bool {
    ('\u{9}' <= c && c <= '\u{d}') || c == ' ' || c == '\u{85}' || c == '\u{a0}'
        || c == '\u{1680}' || ('\u{2000}' <= c && c <= '\u{200a}') || c == '\u{2028}'
        || c == '\u{2029}' || c == '\u{202f}' || c == '\u{205f}' || c == '\u{3000}'
}

/// Characters that separate tokens and are otherwise ignored.
pub open spec fn is_separator(c: char) -> bool {
    c == '=' || is_white_space(c)
}

pub open spec fn count_dots(s: Seq<char>) -> nat
    decreases s.len(),
{
    if s.len() == 0 {
        0
    } else {
        count_dots(s.drop_last()) + if s.last() == '.' { 1nat } else { 0nat }
    }
}

pub open spec fn count_digits(s: Seq<char>) -> nat
    decreases s.len(),
{
    if s.len() == 0 {
        0
    } else {
        count_digits(s.drop_last()) + if is_digit(s.last()) { 1nat } else { 0nat }
    }
}

/// A run of digits and dots is a decimal literal when it holds at most one
/// dot and at least one digit (`5`, `5.`, `.5`, `2.25`).
pub open spec fn is_valid_literal(s: Seq<char>) -> bool {
    count_dots(s) <= 1 && count_digits(s) >= 1
}

/// The end of the maximal run of number characters that starts at `i`.
pub open spec fn run_end(s: Seq<char>, i: int) -> int
    decreases s.len() - i,
{
    if 0 <= i < s.len() && is_number_char(s[i]) {
        run_end(s, i + 1)
    } else {
        i
    }
}

pub proof fn lemma_run_end(s: Seq<char>, i: int)
    requires
        0 <= i <= s.len(),
    ensures
        i <= run_end(s, i) <= s.len(),
        forall|k: int| i <= k < run_end(s, i) ==> is_number_char(#[trigger] s[k]),
        run_end(s, i) < s.len() ==> !is_number_char(s[run_end(s, i)]),
    decreases s.len() - i,
{
    if i < s.len() && is_number_char(s[i]) {
        lemma_run_end(s, i + 1);
    }
}

/// The tokens of `s` from position `i` on, or the first error met there.
pub open spec fn lex_from(s: Seq<char>, i: int) -> Result<Seq<Token>, ErrorView>
    decreases s.len() - i,
    via lex_from_decreases
{
    if i < 0 || i >= s.len() {
        Ok(Seq::empty())
    } else if is_number_char(s[i]) {
        let j = run_end(s, i);
        let lit = s.subrange(i, j);
        if !is_valid_literal(lit) {
            Err(ErrorView::InvalidNumber(lit))
        } else {
            match lex_from(s, j) {
                Ok(t) => Ok(seq![Token::Num(Span { start: i as usize, end: j as usize })] + t),
                Err(e) => Err(e),
            }
        }
    } else if is_symbol_char(s[i]) {
        match lex_from(s, i + 1) {
            Ok(t) => Ok(seq![token_of(s[i])] + t),
            Err(e) => Err(e),
        }
    } else if is_separator(s[i]) {
        lex_from(s, i + 1)
    } else {
        Err(ErrorView::UnsupportedCharacter(s[i]))
    }
}

#[via_fn]
proof fn lex_from_decreases(s: Seq<char>, i: int) {
    if 0 <= i < s.len() && is_number_char(s[i]) {
        lemma_run_end(s, i + 1);
    }
}

/// The tokens of a whole line, or the first error met reading it left to right.
pub open spec fn spec_tokenize(s: Seq<char>) -> Result<Seq<Token>, ErrorView> {
    lex_from(s, 0)
}

/// Relies on String::push: appends one character to the string.
#[verifier::external_body]
fn push_char(s: &mut String, c: char)
    ensures
        final(s)@ == old(s)@.push(c),
{
    s.push(c);
}

fn chars_of(s: &str) -> (r: Vec<char>)
    ensures
        r@ == s@,
{
    let mut out: Vec<char> = Vec::new();
    for c in it: s.chars()
        invariant
            out@ == it.seq().take(it.index() as int),
    {
        out.push(c);
    }
    out
}

fn is_digit_char(c: char) -> (r: bool)
    ensures
        r == is_digit(c),
{
    '0' <= c && c <= '9'
}

fn is_number_character(c: char) -> (r: bool)
    ensures
        r == is_number_char(c),
{
    is_digit_char(c) || c == '.'
}

fn is_separator_char(c: char) -> (r: bool)
    ensures
        r == is_separator(c),
{
    c == '=' || ('\u{9}' <= c && c <= '\u{d}') || c == ' ' || c == '\u{85}' || c == '\u{a0}'
        || c == '\u{1680}' || ('\u{2000}' <= c && c <= '\u{200a}') || c == '\u{2028}'
        || c == '\u{2029}' || c == '\u{202f}' || c == '\u{205f}' || c == '\u{3000}'
}

fn is_symbol(c: char) -> (r: bool)
    ensures
        r == is_symbol_char(c),
{
    c == '+' || c == '-' || c == '*' || c == '/' || c == '(' || c == ')'
}

impl Tokens {
    /// Reads the literal that starts at `start`: its end, and whether it is
    /// a valid decimal literal; an invalid one comes back as its text.
    fn parse_num(chars: &Vec<char>, start: usize) -> (r: Result<usize, MathError>)
        requires
            start < chars.len(),
        ensures
            ({
                let j = run_end(chars@, start as int);
                let lit = chars@.subrange(start as int, j);
                match r {
                    Ok(end) => end == j && is_valid_literal(lit),
                    Err(e) => !is_valid_literal(lit) && e@ == ErrorView::InvalidNumber(lit),
                }
            }),
    {
        let ghost s = chars@;
        proof {
            lemma_run_end(s, start as int);
        }
        let mut buf = String::new();
        let mut dots: usize = 0;
        let mut digits: usize = 0;
        let mut i: usize = start;
        while i < chars.len() && is_number_character(chars[i])
            invariant
                start <= i <= chars.len(),
                run_end(s, i as int) == run_end(s, start as int),
                s == chars@,
                buf@ == s.subrange(start as int, i as int),
                dots == count_dots(buf@),
                digits == count_digits(buf@),
                dots <= i - start,
                digits <= i - start,
            decreases chars.len() - i,
        {
            let c = chars[i];
            push_char(&mut buf, c);
            assert(buf@.drop_last() == s.subrange(start as int, i as int));
            if c == '.' {
                dots = dots + 1;
            }
            if is_digit_char(c) {
                digits = digits + 1;
            }
            i = i + 1;
            assert(buf@ =~= s.subrange(start as int, i as int));
        }
        if dots <= 1 && digits >= 1 {
            Ok(i)
        } else {
            Err(MathError::InvalidNumber(buf))
        }
    }

    /// Splits a line into tokens. Digits and dots form number literals,
    /// `+ - * / ( )` form one token each, whitespace and `=` are skipped; any
    /// other character, and a run of digits and dots that is no decimal
    /// literal, is rejected. The first such fault from the left is the error.
    pub fn parse(input: &str) -> (r: Result<Tokens, MathError>)
        ensures
            result_view(r) == spec_tokenize(input@),
    {
        let chars = chars_of(input);
        let ghost s = chars@;
        let mut tokens: Vec<Token> = Vec::new();
        let mut i: usize = 0;
        while i < chars.len()
            invariant
                i <= chars.len(),
                s == chars@,
                s == input@,
                spec_tokenize(s) == match lex_from(s, i as int) {
                    Ok(t) => Ok(tokens@ + t),
                    Err(e) => Err(e),
                },
            decreases chars.len() - i,
        {
            let c = chars[i];
            if is_number_character(c) {
                let end = match Tokens::parse_num(&chars, i) {
                    Ok(end) => end,
                    Err(e) => {
                        assert(lex_from(s, i as int) == Err::<Seq<Token>, ErrorView>(e@));
                        return Err(e);
                    },
                };
                proof {
                    lemma_run_end(s, i as int);
                    assert forall|t: Seq<Token>|
                        tokens@ + (seq![Token::Num(Span { start: i, end })] + t) =~= tokens@.push(
                            Token::Num(Span { start: i, end }),
                        ) + t by {}
                }
                tokens.push(Token::Num(Span { start: i, end }));
                i = end;
            } else if is_symbol(c) {
                proof {
                    assert forall|t: Seq<Token>|
                        tokens@ + (seq![token_of(c)] + t) =~= tokens@.push(token_of(c)) + t by {}
                }
                tokens.push(Token::from_char(c));
                i = i + 1;
            } else if is_separator_char(c) {
                i = i + 1;
            } else {
                assert(lex_from(s, i as int) == Err::<Seq<Token>, ErrorView>(
                    ErrorView::UnsupportedCharacter(c),
                ));
                return Err(MathError::UnsupportedCharacter(c));
            }
        }
        assert(tokens@ + Seq::<Token>::empty() =~= tokens@);
        Ok(Tokens(tokens))
    }
}

proof fn lemma_run_end_extend(s: Seq<char>, c: char, i: int)
    requires
        0 <= i <= s.len(),
        !is_number_char(c),
    ensures
        run_end(s.push(c), i) == run_end(s, i),
    decreases s.len() - i,
{
    if i < s.len() {
        assert(s.push(c)[i] == s[i]);
        if is_number_char(s[i]) {
            lemma_run_end_extend(s, c, i + 1);
        }
    }
}

proof fn lemma_lex_from_extend(s: Seq<char>, c: char, i: int)
    requires
        0 <= i <= s.len(),
        is_separator(c),
    ensures
        lex_from(s.push(c), i) == lex_from(s, i),
    decreases s.len() - i,
{
    let t = s.push(c);
    if i == s.len() {
        assert(t[i] == c);
        assert(lex_from(t, i + 1) == Ok::<Seq<Token>, ErrorView>(Seq::empty()));
    } else {
        assert(t[i] == s[i]);
        if is_number_char(s[i]) {
            lemma_run_end_extend(s, c, i);
            lemma_run_end(s, i);
            let j = run_end(s, i);
            assert(t.subrange(i, j) =~= s.subrange(i, j));
            lemma_lex_from_extend(s, c, j);
        } else {
            lemma_lex_from_extend(s, c, i + 1);
        }
    }
}

/// A separator (whitespace or `=`) at the end of a line changes nothing: the
/// line reads as the same tokens, or fails with the same error.
pub proof fn law_trailing_separator_ignored(s: Seq<char>, c: char)
    requires
        is_separator(c),
    ensures
        spec_tokenize(s.push(c)) == spec_tokenize(s),
{
    lemma_lex_from_extend(s, c, 0);
}

} // verus!
