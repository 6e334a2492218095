use vstd::prelude::*;

use crate::error::{result_view, ErrorView, MathError};
use crate::lexer::spec_tokenize;
use crate::postfix::{paren_free, spec_to_postfix};
use crate::token::{Operator, Span, Token, Tokens};

verus! {

/// An arithmetic expression: a number literal, or an operator applied to a
/// left and a right operand.
#[derive(Debug)]
pub enum Expr {
    Num(Span),
    Bin(Operator, Box<Expr>, Box<Expr>),
}

/// The postfix tokens of an expression: operands first, operator last.
pub open spec fn postfix_tokens(e: Expr) -> Seq<Token>
    decreases e,
{
    match e {
        Expr::Num(sp) => seq![Token::Num(sp)],
        Expr::Bin(op, l, r) => postfix_tokens(*l) + postfix_tokens(*r) + seq![Token::Oper(op)],
    }
}

/// The operand stack after one more postfix token; `None` on an operator
/// that finds fewer than two operands.
pub open spec fn solve_step(stack: Seq<Expr>, t: Token) -> Option<Seq<Expr>> {
    match t {
        Token::Oper(op) => if stack.len() < 2 {
            None
        } else {
            let n = stack.len();
            Some(
                stack.subrange(0, n - 2).push(
                    Expr::Bin(op, Box::new(stack[n - 2]), Box::new(stack[n - 1])),
                ),
            )
        },
        Token::Num(sp) => Some(stack.push(Expr::Num(sp))),
        _ => None,
    }
}

/// The operand stack after a sequence of postfix tokens.
pub open spec fn solve_run(ts: Seq<Token>, stack: Seq<Expr>) -> Option<Seq<Expr>>
    decreases ts.len(),
{
    if ts.len() == 0 {
        Some(stack)
    } else {
        match solve_step(stack, ts[0]) {
            None => None,
            Some(next) => solve_run(ts.drop_first(), next),
        }
    }
}

/// The one expression that a postfix sequence denotes, or
/// `ImbalancedExpression` where operators and operands do not pair up.
pub open spec fn spec_solve(ts: Seq<Token>) -> Result<Expr, ErrorView> {
    match solve_run(ts, Seq::empty()) {
        Some(stack) => if stack.len() == 1 {
            Ok(stack[0])
        } else {
            Err(ErrorView::ImbalancedExpression(ts))
        },
        None => Err(ErrorView::ImbalancedExpression(ts)),
    }
}

/// The expression of a whole input line: tokenize, convert to postfix, solve;
/// the first stage that fails gives the error.
pub open spec fn spec_eval(s: Seq<char>) -> Result<Expr, ErrorView> {
    match spec_tokenize(s) {
        Err(e) => Err(e),
        Ok(infix) => match spec_to_postfix(infix) {
            Err(e) => Err(e),
            Ok(post) => spec_solve(post),
        },
    }
}

impl View for Expr {
    type V = Expr;

    open spec fn view(&self) -> Expr {
        *self
    }
}

impl Tokens {
    /// Reads postfix tokens with an operand stack and builds the expression
    /// they denote. An operator with fewer than two operands, and a sequence
    /// that leaves other than one expression, are rejected.
    pub fn solve(self) -> (r: Result<Expr, MathError>)
        requires
            paren_free(self@),
        ensures
            result_view(r) == spec_solve(self@),
    {
        let ghost ts = self@;
        let mut stack: Vec<Expr> = Vec::new();
        let n = self.0.len();
        let mut i: usize = 0;
        assert(ts.subrange(0, n as int) =~= ts);
        while i < n
            invariant
                n == self.0.len(),
                ts == self@,
                i <= n,
                paren_free(ts),
                solve_run(ts, Seq::empty()) == solve_run(ts.subrange(i as int, n as int), stack@),
            decreases n - i,
        {
            let token = self.0[i];
            assert(ts.subrange(i as int, n as int).drop_first() =~= ts.subrange(
                i + 1,
                n as int,
            ));
            assert(!ts[i as int].spec_is_paren());
            match token {
                Token::Num(sp) => {
                    stack.push(Expr::Num(sp));
                },
                Token::Oper(op) => {
                    if stack.len() < 2 {
                        return Err(MathError::ImbalancedExpression(self.0));
                    }
                    let ghost old_stack = stack@;
                    let y = stack.pop().unwrap();
                    let x = stack.pop().unwrap();
                    stack.push(Expr::Bin(op, Box::new(x), Box::new(y)));
                    assert(stack@ =~= old_stack.subrange(0, old_stack.len() - 2).push(
                        Expr::Bin(
                            op,
                            Box::new(old_stack[old_stack.len() - 2]),
                            Box::new(old_stack[old_stack.len() - 1]),
                        ),
                    ));
                },
                _ => {},
            }
            i = i + 1;
        }
        assert(ts.subrange(n as int, n as int) =~= Seq::<Token>::empty());
        if stack.len() == 1 {
            Ok(stack.pop().unwrap())
        } else {
            Err(MathError::ImbalancedExpression(self.0))
        }
    }

    /// Evaluates one input line to the expression it denotes. Whitespace,
    /// surrounding whitespace included, and `=` are ignored.
    pub fn eval(input: &str) -> (r: Result<Expr, MathError>)
        ensures
            result_view(r) == spec_eval(input@),
    {
        let infix = Tokens::parse(input)?;
        let postfix = infix.shunting()?;
        postfix.solve()
    }
}

} // verus!
