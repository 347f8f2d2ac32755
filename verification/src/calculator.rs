//! Arithmetic expressions for the program-execution dictionary's `=expr`
//! conversion: the error kinds and their messages, and the reading of the
//! expression into tokens.
//!
//! ```text
//! expression = term { ('+' | '-') term }
//! term       = primary { ('*' | '/' | '%') primary }
//! primary    = [ '+' | '-' ] number | '(' expression ')'
//! ```
//!
//! The evaluation itself computes in floating point and is the host's; it
//! asks `next_token` for each token in turn.

use vstd::prelude::*;
use crate::text::{char_is_white_space, chars_range, is_white_space, string_of};

verus! {

/// Why an expression could not be evaluated.
#[derive(Debug, Clone, Copy, PartialEq, Eq, Structural)]
pub enum CalcError {
    InvalidCharacter,
    DivideByZero,
    UnbalancedParen,
    Incomplete,
}

pub open spec fn calc_message(e: CalcError) -> Seq<char> {
    match e {
        CalcError::InvalidCharacter => "計算エラー:不正な文字です"@,
        CalcError::DivideByZero => "計算エラー:ゼロ除算です"@,
        CalcError::UnbalancedParen => "計算エラー:')'が見つかりませんでした"@,
        CalcError::Incomplete => "計算エラー:計算できませんでした"@,
    }
}

impl CalcError {
    /// The message shown in place of a result.
    pub fn message(&self) -> (r: &'static str)
        ensures
            r@ == calc_message(*self),
    {
        match self {
            CalcError::InvalidCharacter => "計算エラー:不正な文字です",
            CalcError::DivideByZero => "計算エラー:ゼロ除算です",
            CalcError::UnbalancedParen => "計算エラー:')'が見つかりませんでした",
            CalcError::Incomplete => "計算エラー:計算できませんでした",
        }
    }
}

/// One token of an expression; a number is kept as its literal text.
#[derive(Debug, Clone, PartialEq, Eq)]
pub enum CalcToken {
    Op(char),
    Number(String),
    Eof,
}

/// A token as seen by the specification.
pub enum TokenModel {
    Op(char),
    Number(Seq<char>),
    Eof,
}

impl View for CalcToken {
    type V = TokenModel;

    open spec fn view(&self) -> TokenModel {
        match self {
            CalcToken::Op(c) => TokenModel::Op(*c),
            CalcToken::Number(s) => TokenModel::Number(s@),
            CalcToken::Eof => TokenModel::Eof,
        }
    }
}

pub open spec fn is_operator(c: char) -> bool {
    c == '(' || c == ')' || c == '+' || c == '-' || c == '*' || c == '/' || c == '%'
}

pub open spec fn is_number_char(c: char) -> bool {
    ('0' <= c <= '9') || c == '.'
}

/// The first position from `i` on that is not white space.
pub open spec fn skip_space(s: Seq<char>, i: int) -> int
    decreases s.len() - i,
{
    if 0 <= i < s.len() && is_white_space(s[i]) {
        skip_space(s, i + 1)
    } else {
        i
    }
}

/// The end of the run of digits and dots that starts at `i`.
pub open spec fn number_end(s: Seq<char>, i: int) -> int
    decreases s.len() - i,
{
    if 0 <= i < s.len() && is_number_char(s[i]) {
        number_end(s, i + 1)
    } else {
        i
    }
}

pub open spec fn dot_count(s: Seq<char>) -> nat
    decreases s.len(),
{
    if s.len() == 0 {
        0
    } else {
        dot_count(s.drop_last()) + if s.last() == '.' { 1nat } else { 0nat }
    }
}

/// A run of digits and dots that reads as a decimal number: at most one
/// dot and at least one digit.
pub open spec fn number_literal_ok(lit: Seq<char>) -> bool {
    dot_count(lit) <= 1 && dot_count(lit) < lit.len()
}

/// The token at position `pos` of `s`, after white space, with the
/// position after it.
pub open spec fn token_at(s: Seq<char>, pos: int) -> Result<(TokenModel, int), CalcError> {
    let i = skip_space(s, pos);
    if i >= s.len() {
        Ok((TokenModel::Eof, i))
    } else if is_operator(s[i]) {
        Ok((TokenModel::Op(s[i]), i + 1))
    } else if is_number_char(s[i]) {
        let e = number_end(s, i);
        if number_literal_ok(s.subrange(i, e)) {
            Ok((TokenModel::Number(s.subrange(i, e)), e))
        } else {
            Err(CalcError::InvalidCharacter)
        }
    } else {
        Err(CalcError::InvalidCharacter)
    }
}

/// Read the token that starts at `pos` (white space first skipped).
pub fn next_token(input: &[char], pos: usize) -> (r: Result<(CalcToken, usize), CalcError>)
    requires
        pos <= input.len(),
    ensures
        match r {
            Ok((t, next)) => token_at(input@, pos as int) == Ok::<(TokenModel, int), CalcError>((t@, next as int)),
            Err(e) => token_at(input@, pos as int) == Err::<(TokenModel, int), CalcError>(e),
        },
{
    let mut i = pos;
    while i < input.len() && char_is_white_space(input[i])
        invariant
            pos <= i <= input@.len(),
            skip_space(input@, i as int) == skip_space(input@, pos as int),
        decreases input.len() - i,
    {
        i += 1;
    }
    if i >= input.len() {
        return Ok((CalcToken::Eof, i));
    }
    let c = input[i];
    if c == '(' || c == ')' || c == '+' || c == '-' || c == '*' || c == '/' || c == '%' {
        return Ok((CalcToken::Op(c), i + 1));
    }
    if !(('0' <= c && c <= '9') || c == '.') {
        return Err(CalcError::InvalidCharacter);
    }
    let mut e = i;
    let mut dots: usize = 0;
    while e < input.len() && (('0' <= input[e] && input[e] <= '9') || input[e] == '.')
        invariant
            i <= e <= input@.len(),
            number_end(input@, e as int) == number_end(input@, i as int),
            dots == dot_count(input@.subrange(i as int, e as int)),
            dots <= e - i,
        decreases input.len() - e,
    {
        assert(input@.subrange(i as int, e + 1).drop_last() =~= input@.subrange(i as int, e as int));
        if input[e] == '.' {
            dots += 1;
        }
        e += 1;
    }
    let lit = chars_range(input, i, e);
    if dots <= 1 && dots < e - i {
        Ok((CalcToken::Number(string_of(lit.as_slice())), e))
    } else {
        Err(CalcError::InvalidCharacter)
    }
}

} // verus!
