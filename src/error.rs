use vstd::prelude::*;

use crate::token::Token;

verus! {

/// Why an input line was rejected.
#[derive(Debug)]
pub enum MathError {
    /// A run of digits and `.` that is no number literal; carries the run.
    InvalidNumber(String),
    /// A character outside the accepted set.
    UnsupportedCharacter(char),
    /// A `)` with no open `(` before it; carries the infix tokens.
    UnmatchedCloseParen(Vec<Token>),
    /// A `(` that is never closed; carries the infix tokens.
    UnclosedOpenParen(Vec<Token>),
    /// Operators and operands do not pair up; carries the postfix tokens.
    ImbalancedExpression(Vec<Token>),
}

/// The mathematical value of a `MathError`.
pub enum ErrorView {
    InvalidNumber(Seq<char>),
    UnsupportedCharacter(char),
    UnmatchedCloseParen(Seq<Token>),
    UnclosedOpenParen(Seq<Token>),
    ImbalancedExpression(Seq<Token>),
}

impl View for MathError {
    type V = ErrorView;

    open spec fn view(&self) -> ErrorView {
        match self {
            MathError::InvalidNumber(s) => ErrorView::InvalidNumber(s@),
            MathError::UnsupportedCharacter(c) => ErrorView::UnsupportedCharacter(*c),
            MathError::UnmatchedCloseParen(t) => ErrorView::UnmatchedCloseParen(t@),
            MathError::UnclosedOpenParen(t) => ErrorView::UnclosedOpenParen(t@),
            MathError::ImbalancedExpression(t) => ErrorView::ImbalancedExpression(t@),
        }
    }
}

/// The view of a stage's result.
pub open spec fn result_view<T: View>(r: Result<T, MathError>) -> Result<T::V, ErrorView> {
    match r {
        Ok(v) => Ok(v@),
        Err(e) => Err(e@),
    }
}

} // verus!
