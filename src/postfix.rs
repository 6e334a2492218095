use vstd::prelude::*;

use crate::error::{result_view, ErrorView, MathError};
use crate::token::{Operator, Token, Tokens};

verus! {

/// The operator stack and the output queue of the conversion.
pub type ConvState = (Seq<Token>, Seq<Token>);

/// Whether an operator `op` arriving finds `top` on the stack and moves it
/// to the output first: `top` is an operator that binds at least as tightly.
/// Moving on equal binding strength makes operators group to the left.
pub open spec fn yields_to(top: Token, op: Operator) -> bool {
    top is Oper && top->Oper_0.prec() >= op.prec()
}

/// Moves operators from the stack to the output while they yield to `op`.
pub open spec fn pop_operators(st: ConvState, op: Operator) -> ConvState
    decreases st.0.len(),
{
    if st.0.len() > 0 && yields_to(st.0.last(), op) {
        pop_operators((st.0.drop_last(), st.1.push(st.0.last())), op)
    } else {
        st
    }
}

/// Moves operators from the stack to the output down to the nearest `(`,
/// which is dropped; `None` where the stack holds no `(`.
pub open spec fn pop_to_open(st: ConvState) -> Option<ConvState>
    decreases st.0.len(),
{
    if st.0.len() == 0 {
        None
    } else if st.0.last() is ParenOpen {
        Some((st.0.drop_last(), st.1))
    } else {
        pop_to_open((st.0.drop_last(), st.1.push(st.0.last())))
    }
}

/// Moves the whole stack to the output; `None` where it holds a `(`.
pub open spec fn flush(st: ConvState) -> Option<Seq<Token>>
    decreases st.0.len(),
{
    if st.0.len() == 0 {
        Some(st.1)
    } else if st.0.last() is ParenOpen {
        None
    } else {
        flush((st.0.drop_last(), st.1.push(st.0.last())))
    }
}

/// The conversion state after one more input token; `None` on a `)` that
/// closes nothing.
pub open spec fn conv_step(st: ConvState, t: Token) -> Option<ConvState> {
    match t {
        Token::Num(_) => Some((st.0, st.1.push(t))),
        Token::ParenOpen => Some((st.0.push(t), st.1)),
        Token::ParenClose => pop_to_open(st),
        Token::Oper(op) => {
            let s = pop_operators(st, op);
            Some((s.0.push(t), s.1))
        },
    }
}

/// The conversion state after a sequence of input tokens.
pub open spec fn conv_run(ts: Seq<Token>, st: ConvState) -> Option<ConvState>
    decreases ts.len(),
{
    if ts.len() == 0 {
        Some(st)
    } else {
        match conv_step(st, ts[0]) {
            None => None,
            Some(next) => conv_run(ts.drop_first(), next),
        }
    }
}

/// The postfix form of an infix token sequence, or why it has none.
pub open spec fn spec_to_postfix(ts: Seq<Token>) -> Result<Seq<Token>, ErrorView> {
    match conv_run(ts, (Seq::empty(), Seq::empty())) {
        None => Err(ErrorView::UnmatchedCloseParen(ts)),
        Some(st) => match flush(st) {
            None => Err(ErrorView::UnclosedOpenParen(ts)),
            Some(out) => Ok(out),
        },
    }
}

/// No parentheses in `ts`.
pub open spec fn paren_free(ts: Seq<Token>) -> bool {
    forall|k: int| 0 <= k < ts.len() ==> !(#[trigger] ts[k]).spec_is_paren()
}

/// The stack holds only operators and `(`.
pub open spec fn stack_shape(ts: Seq<Token>) -> bool {
    forall|k: int| 0 <= k < ts.len() ==> (#[trigger] ts[k] is Oper || ts[k] is ParenOpen)
}

impl Tokens {
    /// Reorders infix tokens into postfix order with an operator stack.
    /// A `)` with no open `(` before it, and a `(` that is never closed, are
    /// rejected; the error carries the infix tokens.
    pub fn shunting(self) -> (r: Result<Tokens, MathError>)
        ensures
            result_view(r) == spec_to_postfix(self@),
            r matches Ok(out) ==> paren_free(out@),
    {
        let ghost ts = self@;
        let mut stack: Vec<Token> = Vec::new();
        let mut queue: Vec<Token> = Vec::new();
        let n = self.0.len();
        let mut i: usize = 0;
        assert(ts.subrange(0, n as int) =~= ts);
        while i < n
            invariant
                n == self.0.len(),
                ts == self@,
                i <= n,
                conv_run(ts, (Seq::empty(), Seq::empty())) == conv_run(
                    ts.subrange(i as int, n as int),
                    (stack@, queue@),
                ),
                paren_free(queue@),
                stack_shape(stack@),
            decreases n - i,
        {
            let token = self.0[i];
            assert(ts.subrange(i as int, n as int).drop_first() =~= ts.subrange(
                i + 1,
                n as int,
            ));
            match token {
                Token::Num(_) => {
                    queue.push(token);
                },
                Token::ParenOpen => {
                    stack.push(token);
                },
                Token::ParenClose => {
                    let ghost st0: ConvState = (stack@, queue@);
                    while stack.len() > 0 && !stack[stack.len() - 1].is_paren()
                        invariant
                            pop_to_open(st0) == pop_to_open((stack@, queue@)),
                            paren_free(queue@),
                            stack_shape(stack@),
                        decreases stack.len(),
                    {
                        let top = stack.pop().unwrap();
                        queue.push(top);
                    }
                    if stack.len() == 0 {
                        return Err(MathError::UnmatchedCloseParen(self.0));
                    }
                    stack.pop();
                },
                Token::Oper(op) => {
                    let ghost st0: ConvState = (stack@, queue@);
                    while stack.len() > 0 && stack[stack.len() - 1].is_oper() && !stack[stack.len()
                        - 1].is_lower(&token)
                        invariant
                            token == Token::Oper(op),
                            pop_operators(st0, op) == pop_operators((stack@, queue@), op),
                            paren_free(queue@),
                            stack_shape(stack@),
                        decreases stack.len(),
                    {
                        let top = stack.pop().unwrap();
                        queue.push(top);
                    }
                    stack.push(token);
                },
            }
            i = i + 1;
        }
        let ghost st_end: ConvState = (stack@, queue@);
        assert(ts.subrange(n as int, n as int) =~= Seq::<Token>::empty());
        while stack.len() > 0
            invariant
                ts == self@,
                conv_run(ts, (Seq::empty(), Seq::empty())) == Some(st_end),
                flush(st_end) == flush((stack@, queue@)),
                paren_free(queue@),
                stack_shape(stack@),
            decreases stack.len(),
        {
            if stack[stack.len() - 1].is_paren() {
                return Err(MathError::UnclosedOpenParen(self.0));
            }
            let top = stack.pop().unwrap();
            queue.push(top);
        }
        Ok(Tokens(queue))
    }
}

} // verus!
