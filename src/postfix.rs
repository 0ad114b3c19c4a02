use vstd::prelude::*;
use crate::token::{CalcError, Tok, Token, precedence, prec, toks};

verus! {

/// Moves operators from the top of the stack to the output while they bind
/// at least as tightly as `p`.
pub open spec fn pop_binding(out: Seq<Tok>, stk: Seq<Tok>, p: u8) -> (Seq<Tok>, Seq<Tok>)
    decreases stk.len(),
{
    if stk.len() > 0 && stk.last() is Opr && prec(stk.last()->Opr_0) >= p {
        pop_binding(out.push(stk.last()), stk.drop_last(), p)
    } else {
        (out, stk)
    }
}

/// Moves operators from the stack to the output up to the nearest `(`, which
/// is dropped; an empty stack ends the popping as well.
pub open spec fn pop_to_paren(out: Seq<Tok>, stk: Seq<Tok>) -> (Seq<Tok>, Seq<Tok>)
    decreases stk.len(),
{
    if stk.len() == 0 {
        (out, stk)
    } else if stk.last() is LParen {
        (out, stk.drop_last())
    } else {
        pop_to_paren(out.push(stk.last()), stk.drop_last())
    }
}

/// Moves the whole stack to the output, top first.
pub open spec fn drain(out: Seq<Tok>, stk: Seq<Tok>) -> Seq<Tok>
    decreases stk.len(),
{
    if stk.len() == 0 {
        out
    } else {
        drain(out.push(stk.last()), stk.drop_last())
    }
}

/// The effect of one input token on the output and the operator stack.
pub open spec fn shunt_token(st: (Seq<Tok>, Seq<Tok>), t: Tok) -> (Seq<Tok>, Seq<Tok>) {
    match t {
        Tok::Num(_) => (st.0.push(t), st.1),
        Tok::Opr(op) => {
            let popped = pop_binding(st.0, st.1, prec(op));
            (popped.0, popped.1.push(t))
        },
        Tok::LParen => (st.0, st.1.push(t)),
        Tok::RParen => pop_to_paren(st.0, st.1),
    }
}

/// The output and operator stack after reading all of `ts` from state `st`.
pub open spec fn shunt_from(st: (Seq<Tok>, Seq<Tok>), ts: Seq<Tok>) -> (Seq<Tok>, Seq<Tok>)
    decreases ts.len(),
{
    if ts.len() == 0 {
        st
    } else {
        shunt_token(shunt_from(st, ts.drop_last()), ts.last())
    }
}

/// The postfix order of an infix token sequence.
pub open spec fn postfix(ts: Seq<Tok>) -> Seq<Tok> {
    let st = shunt_from((Seq::empty(), Seq::empty()), ts);
    drain(st.0, st.1)
}

proof fn lemma_toks_push(v: Seq<Token>, t: Token)
    ensures
        toks(v.push(t)) == toks(v).push(t@),
{
    assert(toks(v.push(t)) =~= toks(v).push(t@));
}

proof fn lemma_toks_drop_last(v: Seq<Token>)
    requires
        v.len() > 0,
    ensures
        toks(v.drop_last()) == toks(v).drop_last(),
        toks(v).last() == v.last()@,
{
    assert(toks(v.drop_last()) =~= toks(v).drop_last());
}

/// Whether the top of the stack is an operator that binds at least as
/// tightly as `p`.
fn top_binds(ops: &Vec<Token>, p: u8) -> (r: bool)
    ensures
        r == (toks(ops@).len() > 0 && toks(ops@).last() is Opr && prec(toks(ops@).last()->Opr_0) >= p),
{
    if ops.len() == 0 {
        return false;
    }
    match &ops[ops.len() - 1] {
        Token::Operator(op) => precedence(op.symbol()) >= p,
        _ => false,
    }
}

/// Moves the top of `ops` to the end of `output`.
fn move_top(output: &mut Vec<Token>, ops: &mut Vec<Token>)
    requires
        old(ops)@.len() > 0,
    ensures
        toks(final(output)@) == toks(old(output)@).push(toks(old(ops)@).last()),
        toks(final(ops)@) == toks(old(ops)@).drop_last(),
        final(ops)@.len() == old(ops)@.len() - 1,
{
    proof {
        lemma_toks_drop_last(ops@);
    }
    let t = ops.pop().unwrap();
    proof {
        lemma_toks_push(output@, t);
    }
    output.push(t);
}

/// Reorders an infix token sequence into postfix order by the shunting-yard
/// method: `* /` bind tighter than `+ -`, equal operators group to the left,
/// and parentheses group. The reorderer never fails, on purpose: an
/// unmatched `)` stops popping at the bottom of the stack, and a leftover
/// `(` is moved to the output with the remaining operators, where the
/// evaluator rejects it as an invalid token.
pub fn parse_tokens(tokens: Vec<Token>) -> (r: Result<Vec<Token>, CalcError>)
    ensures
        r is Ok,
        toks(r->Ok_0@) == postfix(toks(tokens@)),
{
    let mut output: Vec<Token> = Vec::new();
    let mut ops: Vec<Token> = Vec::new();
    let mut i: usize = 0;
    assert(toks(tokens@).take(0) =~= Seq::<Tok>::empty());
    assert(toks(output@) =~= Seq::<Tok>::empty());
    assert(toks(ops@) =~= Seq::<Tok>::empty());
    while i < tokens.len()
        invariant
            i <= tokens@.len(),
            shunt_from((Seq::empty(), Seq::empty()), toks(tokens@).take(i as int)) == (
                toks(output@),
                toks(ops@),
            ),
        decreases tokens.len() - i,
    {
        let ghost ts = toks(tokens@);
        assert(ts.take(i + 1).drop_last() =~= ts.take(i as int));
        assert(ts.take(i + 1).last() == tokens@[i as int]@);
        let ghost st = (toks(output@), toks(ops@));
        match &tokens[i] {
            Token::Number(_) => {
                let t = tokens[i].duplicate();
                proof {
                    lemma_toks_push(output@, t);
                }
                output.push(t);
            },
            Token::Operator(op) => {
                let p = precedence(op.symbol());
                while top_binds(&ops, p)
                    invariant
                        pop_binding(toks(output@), toks(ops@), p) == pop_binding(st.0, st.1, p),
                    decreases ops.len(),
                {
                    move_top(&mut output, &mut ops);
                }
                let t = tokens[i].duplicate();
                proof {
                    lemma_toks_push(ops@, t);
                }
                ops.push(t);
            },
            Token::LeftParen => {
                proof {
                    lemma_toks_push(ops@, Token::LeftParen);
                }
                ops.push(Token::LeftParen);
            },
            Token::RightParen => {
                let mut found = false;
                while !found && ops.len() > 0
                    invariant
                        found ==> (toks(output@), toks(ops@)) == pop_to_paren(st.0, st.1),
                        !found ==> pop_to_paren(toks(output@), toks(ops@)) == pop_to_paren(
                            st.0,
                            st.1,
                        ),
                    decreases ops.len(), if found { 0int } else { 1int },
                {
                    proof {
                        lemma_toks_drop_last(ops@);
                    }
                    if let Token::LeftParen = &ops[ops.len() - 1] {
                        ops.pop();
                        found = true;
                    } else {
                        move_top(&mut output, &mut ops);
                    }
                }
            },
        }
        i = i + 1;
    }
    assert(toks(tokens@).take(tokens@.len() as int) =~= toks(tokens@));
    let ghost st = (toks(output@), toks(ops@));
    while ops.len() > 0
        invariant
            drain(toks(output@), toks(ops@)) == drain(st.0, st.1),
        decreases ops.len(),
    {
        move_top(&mut output, &mut ops);
    }
    Ok(output)
}

} // verus!
