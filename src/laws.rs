use vstd::prelude::*;

use crate::error::ErrorView;
use crate::postfix::{
    conv_run, conv_step, flush, pop_operators, pop_to_open, spec_to_postfix, ConvState,
};
use crate::token::{Operator, Token};
use crate::lexer::spec_tokenize;
use crate::tree::{postfix_tokens, solve_run, spec_eval, spec_solve, Expr};

verus! {

/// How tightly an expression binds as an operand: a number binds above
/// every operator, a compound expression as its root operator.
pub open spec fn level(e: Expr) -> int {
    match e {
        Expr::Num(_) => 3,
        Expr::Bin(op, _, _) => op.prec() as int,
    }
}

/// A left operand needs parentheses where it binds less tightly than the
/// operator.
pub open spec fn left_needs_parens(l: Expr, op: Operator) -> bool {
    level(l) < op.prec()
}

/// A right operand needs parentheses where it binds no more tightly than the
/// operator, since operators of one level group to the left.
pub open spec fn right_needs_parens(r: Expr, op: Operator) -> bool {
    level(r) <= op.prec()
}

pub open spec fn in_parens(ts: Seq<Token>) -> Seq<Token> {
    seq![Token::ParenOpen] + (ts + seq![Token::ParenClose])
}

/// The infix tokens of an expression as it is usually written: parentheses
/// only where precedence and left grouping need them (`2 + 3 * 4`,
/// `(2 + 3) * 4`, `8 - 3 - 2`, `8 - (3 - 2)`).
pub open spec fn infix_tokens(e: Expr) -> Seq<Token>
    decreases e, 0nat,
{
    match e {
        Expr::Num(sp) => seq![Token::Num(sp)],
        Expr::Bin(op, l, r) => left_operand_tokens(*l, op) + (seq![Token::Oper(op)]
            + right_operand_tokens(*r, op)),
    }
}

/// The infix tokens of the left operand of `op`.
pub open spec fn left_operand_tokens(l: Expr, op: Operator) -> Seq<Token>
    decreases l, 1nat,
{
    if left_needs_parens(l, op) {
        in_parens(infix_tokens(l))
    } else {
        infix_tokens(l)
    }
}

/// The infix tokens of the right operand of `op`.
pub open spec fn right_operand_tokens(r: Expr, op: Operator) -> Seq<Token>
    decreases r, 1nat,
{
    if right_needs_parens(r, op) {
        in_parens(infix_tokens(r))
    } else {
        infix_tokens(r)
    }
}

/// The operators of `e` still on the stack once its infix tokens are read:
/// the root and those down its unparenthesized right side.
spec fn pending(e: Expr) -> Seq<Token>
    decreases e, 0nat,
{
    match e {
        Expr::Num(_) => Seq::empty(),
        Expr::Bin(op, _, r) => seq![Token::Oper(op)] + right_pending(*r, op),
    }
}

spec fn right_pending(r: Expr, op: Operator) -> Seq<Token>
    decreases r, 1nat,
{
    if right_needs_parens(r, op) {
        Seq::empty()
    } else {
        pending(r)
    }
}

/// The output produced once the infix tokens of `e` are read.
spec fn partial(e: Expr) -> Seq<Token>
    decreases e, 0nat,
{
    match e {
        Expr::Num(sp) => seq![Token::Num(sp)],
        Expr::Bin(op, l, r) => postfix_tokens(*l) + right_partial(*r, op),
    }
}

spec fn right_partial(r: Expr, op: Operator) -> Seq<Token>
    decreases r, 1nat,
{
    if right_needs_parens(r, op) {
        postfix_tokens(r)
    } else {
        partial(r)
    }
}

/// The top of `stack` would not yield to an arriving operator of level `p`.
spec fn guarded(stack: Seq<Token>, p: int) -> bool {
    !(stack.len() > 0 && stack.last() is Oper && stack.last()->Oper_0.prec() >= p)
}

spec fn all_opers_from(ts: Seq<Token>, p: int) -> bool {
    forall|k: int| 0 <= k < ts.len() ==> (#[trigger] ts[k] is Oper && ts[k]->Oper_0.prec() >= p)
}

proof fn lemma_pop_pending(s: Seq<Token>, p: Seq<Token>, q: Seq<Token>, op: Operator)
    requires
        guarded(s, op.prec() as int),
        all_opers_from(p, op.prec() as int),
    ensures
        pop_operators((s + p, q), op) == (s, q + p.reverse()),
    decreases p.len(),
{
    if p.len() == 0 {
        assert(s + p =~= s);
        assert(q + p.reverse() =~= q);
    } else {
        let last = p.last();
        assert(p[p.len() - 1] == last);
        assert((s + p).last() == last);
        assert((s + p).drop_last() =~= s + p.drop_last());
        lemma_pop_pending(s, p.drop_last(), q.push(last), op);
        assert(q.push(last) + p.drop_last().reverse() =~= q + p.reverse());
    }
}

proof fn lemma_close_pending(s: Seq<Token>, p: Seq<Token>, q: Seq<Token>)
    requires
        all_opers_from(p, 0),
    ensures
        pop_to_open((s.push(Token::ParenOpen) + p, q)) == Some((s, q + p.reverse())),
    decreases p.len(),
{
    if p.len() == 0 {
        assert(s.push(Token::ParenOpen) + p =~= s.push(Token::ParenOpen));
        assert(s.push(Token::ParenOpen).drop_last() =~= s);
        assert(q + p.reverse() =~= q);
    } else {
        let last = p.last();
        assert(p[p.len() - 1] == last);
        assert((s.push(Token::ParenOpen) + p).last() == last);
        assert((s.push(Token::ParenOpen) + p).drop_last() =~= s.push(Token::ParenOpen)
            + p.drop_last());
        lemma_close_pending(s, p.drop_last(), q.push(last));
        assert(q.push(last) + p.drop_last().reverse() =~= q + p.reverse());
    }
}

proof fn lemma_flush_pending(p: Seq<Token>, q: Seq<Token>)
    requires
        all_opers_from(p, 0),
    ensures
        flush((p, q)) == Some(q + p.reverse()),
    decreases p.len(),
{
    if p.len() == 0 {
        assert(q + p.reverse() =~= q);
    } else {
        let last = p.last();
        assert(p[p.len() - 1] == last);
        lemma_flush_pending(p.drop_last(), q.push(last));
        assert(q.push(last) + p.drop_last().reverse() =~= q + p.reverse());
    }
}

proof fn lemma_conv_run_concat(a: Seq<Token>, b: Seq<Token>, st: ConvState)
    ensures
        conv_run(a + b, st) == match conv_run(a, st) {
            None => None,
            Some(next) => conv_run(b, next),
        },
    decreases a.len(),
{
    if a.len() > 0 {
        assert((a + b).drop_first() =~= a.drop_first() + b);
        assert((a + b)[0] == a[0]);
        match conv_step(st, a[0]) {
            None => {},
            Some(next) => lemma_conv_run_concat(a.drop_first(), b, next),
        }
    } else {
        assert(a + b =~= b);
    }
}

proof fn lemma_conv_run_one(t: Token, st: ConvState)
    ensures
        conv_run(seq![t], st) == conv_step(st, t),
{
    assert(seq![t].drop_first() =~= Seq::<Token>::empty());
    assert(seq![t][0] == t);
    match conv_step(st, t) {
        None => {},
        Some(next) => {
            assert(conv_run(Seq::<Token>::empty(), next) == Some(next));
        },
    }
}

proof fn lemma_solve_run_concat(a: Seq<Token>, b: Seq<Token>, stack: Seq<Expr>)
    ensures
        solve_run(a + b, stack) == match solve_run(a, stack) {
            None => None,
            Some(next) => solve_run(b, next),
        },
    decreases a.len(),
{
    if a.len() > 0 {
        assert((a + b).drop_first() =~= a.drop_first() + b);
        assert((a + b)[0] == a[0]);
        match crate::tree::solve_step(stack, a[0]) {
            None => {},
            Some(next) => lemma_solve_run_concat(a.drop_first(), b, next),
        }
    } else {
        assert(a + b =~= b);
    }
}

proof fn lemma_solve_postfix(e: Expr, stack: Seq<Expr>)
    ensures
        solve_run(postfix_tokens(e), stack) == Some(stack.push(e)),
    decreases e,
{
    match e {
        Expr::Num(sp) => {
            assert(postfix_tokens(e).drop_first() =~= Seq::<Token>::empty());
            assert(postfix_tokens(e)[0] == Token::Num(sp));
            assert(solve_run(Seq::<Token>::empty(), stack.push(e)) == Some(stack.push(e)));
        },
        Expr::Bin(op, l, r) => {
            let pl = postfix_tokens(*l);
            let pr = postfix_tokens(*r);
            let po = seq![Token::Oper(op)];
            lemma_solve_run_concat(pl + pr, po, stack);
            lemma_solve_run_concat(pl, pr, stack);
            lemma_solve_postfix(*l, stack);
            lemma_solve_postfix(*r, stack.push(*l));
            let s2 = stack.push(*l).push(*r);
            assert(po.drop_first() =~= Seq::<Token>::empty());
            assert(s2.subrange(0, s2.len() - 2) =~= stack);
        },
    }
}

proof fn lemma_convert_in_parens(e: Expr, st: ConvState)
    ensures
        conv_run(in_parens(infix_tokens(e)), st) == Some((st.0, st.1 + postfix_tokens(e))),
    decreases e, 1nat,
{
    let it = infix_tokens(e);
    let close = seq![Token::ParenClose];
    let s1: ConvState = (st.0.push(Token::ParenOpen), st.1);
    lemma_conv_run_concat(seq![Token::ParenOpen], it + close, st);
    lemma_conv_run_one(Token::ParenOpen, st);
    lemma_conv_run_concat(it, close, s1);
    lemma_convert_infix(e, s1);
    lemma_pending_shape(e);
    let s2: ConvState = (s1.0 + pending(e), st.1 + partial(e));
    lemma_conv_run_one(Token::ParenClose, s2);
    lemma_close_pending(st.0, pending(e), s2.1);
    assert(s2.1 + pending(e).reverse() =~= st.1 + (partial(e) + pending(e).reverse()));
}

/// What the stack keeps of `e` are operators that bind at least as tightly
/// as `e`, and they complete its output to its postfix tokens.
proof fn lemma_pending_shape(e: Expr)
    ensures
        all_opers_from(pending(e), level(e)),
        partial(e) + pending(e).reverse() == postfix_tokens(e),
    decreases e,
{
    match e {
        Expr::Num(sp) => {
            assert(partial(e) + pending(e).reverse() =~= postfix_tokens(e));
        },
        Expr::Bin(op, l, r) => {
            let ot = seq![Token::Oper(op)];
            let pr = right_pending(*r, op);
            let ar = right_partial(*r, op);
            if right_needs_parens(*r, op) {
                assert(postfix_tokens(*r) + pr.reverse() =~= postfix_tokens(*r));
            } else {
                lemma_pending_shape(*r);
            }
            assert(pending(e).reverse() =~= pr.reverse() + ot);
            assert(partial(e) + pending(e).reverse() =~= postfix_tokens(*l) + (ar + pr.reverse())
                + ot);
            assert(partial(e) + pending(e).reverse() =~= postfix_tokens(e));
            assert forall|k: int| 0 <= k < pending(e).len() implies (
            #[trigger] pending(e)[k] is Oper && pending(e)[k]->Oper_0.prec() >= level(e)) by {
                if k > 0 {
                    assert(pending(e)[k] == pr[k - 1]);
                }
            }
        },
    }
}

/// The left operand of `op` followed by `op` itself: the operand reaches the
/// output whole and `op` waits on the stack.
proof fn lemma_convert_left(l: Expr, op: Operator, st: ConvState)
    requires
        guarded(st.0, op.prec() as int),
    ensures
        conv_run(left_operand_tokens(l, op) + seq![Token::Oper(op)], st) == Some(
            (st.0.push(Token::Oper(op)), st.1 + postfix_tokens(l)),
        ),
    decreases l, 2nat,
{
    let lt = left_operand_tokens(l, op);
    let ot = seq![Token::Oper(op)];
    let pl = postfix_tokens(l);
    lemma_conv_run_concat(lt, ot, st);
    let (p_l, a_l) = if left_needs_parens(l, op) {
        lemma_convert_in_parens(l, st);
        assert(st.0 + Seq::<Token>::empty() =~= st.0);
        assert(pl + Seq::<Token>::empty().reverse() =~= pl);
        (Seq::<Token>::empty(), pl)
    } else {
        lemma_convert_infix(l, st);
        lemma_pending_shape(l);
        (pending(l), partial(l))
    };
    assert(conv_run(lt, st) == Some((st.0 + p_l, st.1 + a_l)));
    let s1: ConvState = (st.0 + p_l, st.1 + a_l);
    lemma_conv_run_one(Token::Oper(op), s1);
    lemma_pop_pending(st.0, p_l, st.1 + a_l, op);
    assert(st.1 + a_l + p_l.reverse() =~= st.1 + pl);
}

/// The right operand of `op`, read with `op` waiting on top of the stack.
proof fn lemma_convert_right(r: Expr, op: Operator, st: ConvState)
    requires
        st.0.len() > 0,
        st.0.last() == Token::Oper(op),
    ensures
        conv_run(right_operand_tokens(r, op), st) == Some(
            (st.0 + right_pending(r, op), st.1 + right_partial(r, op)),
        ),
    decreases r, 2nat,
{
    if right_needs_parens(r, op) {
        lemma_convert_in_parens(r, st);
        assert(st.0 + Seq::<Token>::empty() =~= st.0);
    } else {
        lemma_convert_infix(r, st);
    }
}

proof fn lemma_convert_infix(e: Expr, st: ConvState)
    requires
        guarded(st.0, level(e)),
    ensures
        conv_run(infix_tokens(e), st) == Some((st.0 + pending(e), st.1 + partial(e))),
    decreases e, 0nat,
{
    match e {
        Expr::Num(sp) => {
            lemma_conv_run_one(Token::Num(sp), st);
            assert(st.0 + pending(e) =~= st.0);
            assert(st.1 + partial(e) =~= st.1.push(Token::Num(sp)));
        },
        Expr::Bin(op, l, r) => {
            let lt = left_operand_tokens(*l, op);
            let rt = right_operand_tokens(*r, op);
            let ot = seq![Token::Oper(op)];
            assert(infix_tokens(e) =~= (lt + ot) + rt);
            lemma_conv_run_concat(lt + ot, rt, st);
            lemma_convert_left(*l, op, st);
            let s2: ConvState = (st.0.push(Token::Oper(op)), st.1 + postfix_tokens(*l));
            lemma_convert_right(*r, op, s2);
            assert(st.0 + pending(e) =~= s2.0 + right_pending(*r, op));
            assert(s2.1 + right_partial(*r, op) =~= st.1 + partial(e));
        },
    }
}

/// Reading an expression back: for every expression, written in infix with
/// parentheses only where precedence and left grouping need them, the
/// conversion gives its postfix tokens, and solving those gives back the
/// expression itself. So each operator takes the operands that precedence,
/// left grouping and parentheses give it, in their order.
pub proof fn law_expression_round_trip(e: Expr)
    ensures
        spec_to_postfix(infix_tokens(e)) == Ok::<Seq<Token>, ErrorView>(postfix_tokens(e)),
        spec_solve(postfix_tokens(e)) == Ok::<Expr, ErrorView>(e),
{
    let empty: ConvState = (Seq::empty(), Seq::empty());
    lemma_convert_infix(e, empty);
    lemma_pending_shape(e);
    assert(Seq::<Token>::empty() + pending(e) =~= pending(e));
    assert(Seq::<Token>::empty() + partial(e) =~= partial(e));
    lemma_flush_pending(pending(e), partial(e));
    lemma_solve_postfix(e, Seq::empty());
    assert(Seq::<Expr>::empty().push(e)[0] == e);
}

/// A line whose tokens are an expression written as usual (parentheses only
/// where precedence and left grouping need them) evaluates to that
/// expression.
pub proof fn law_line_reads_as_expression(s: Seq<char>, e: Expr)
    requires
        spec_tokenize(s) == Ok::<Seq<Token>, ErrorView>(infix_tokens(e)),
    ensures
        spec_eval(s) == Ok::<Expr, ErrorView>(e),
{
    law_expression_round_trip(e);
}

} // verus!
