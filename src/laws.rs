use vstd::prelude::*;
use crate::token::{CalcError, Op, Tok, op_char, prec};
use crate::lexer::{flush_spec, is_digit, lex, lex_char, lex_state, literal_ok};
use crate::pipeline::pipeline_spec;
use crate::postfix::{drain, pop_binding, pop_to_paren, postfix, shunt_from, shunt_token};
use crate::eval::{Act, plan_spec, run_steps};

verus! {

/// An arithmetic expression as written: literals, binary operations and
/// parenthesised groups.
pub enum Expr {
    Lit(Seq<char>),
    Bin(Op, Box<Expr>, Box<Expr>),
    Group(Box<Expr>),
}

/// The infix tokens that write an expression.
pub open spec fn infix(e: Expr) -> Seq<Tok>
    decreases e,
{
    match e {
        Expr::Lit(l) => seq![Tok::Num(l)],
        Expr::Bin(op, a, b) => infix(*a) + seq![Tok::Opr(op)] + infix(*b),
        Expr::Group(a) => seq![Tok::LParen] + infix(*a) + seq![Tok::RParen],
    }
}

/// The postfix tokens of an expression: operands first, then the operator.
pub open spec fn post(e: Expr) -> Seq<Tok>
    decreases e,
{
    match e {
        Expr::Lit(l) => seq![Tok::Num(l)],
        Expr::Bin(op, a, b) => post(*a) + post(*b) + seq![Tok::Opr(op)],
        Expr::Group(a) => post(*a),
    }
}

/// The computation an expression denotes: its groups removed.
pub open spec fn strip(e: Expr) -> Expr
    decreases e,
{
    match e {
        Expr::Lit(l) => Expr::Lit(l),
        Expr::Bin(op, a, b) => Expr::Bin(op, Box::new(strip(*a)), Box::new(strip(*b))),
        Expr::Group(a) => strip(*a),
    }
}

/// An expression whose infix text reads back as the same expression under
/// the usual rules: an unparenthesised operation on the left of `op` binds at
/// least as tightly as `op` (equal operators group to the left), and one on
/// the right binds strictly tighter.
pub open spec fn well_formed(e: Expr) -> bool
    decreases e,
{
    match e {
        Expr::Lit(_) => true,
        Expr::Group(a) => well_formed(*a),
        Expr::Bin(op, a, b) => {
            &&& well_formed(*a)
            &&& well_formed(*b)
            &&& (*a is Bin ==> prec(a->Bin_0) >= prec(op))
            &&& (*b is Bin ==> prec(b->Bin_0) > prec(op))
        },
    }
}

/// One action of the operand-stack machine, on a stack of computations.
pub open spec fn apply_act(stk: Seq<Expr>, a: Act) -> Seq<Expr> {
    match a {
        Act::Push(l) => stk.push(Expr::Lit(l)),
        Act::Apply(op) => {
            let n = stk.len() as int;
            stk.subrange(0, n - 2).push(
                Expr::Bin(op, Box::new(stk[n - 2]), Box::new(stk[n - 1])),
            )
        },
    }
}

/// The operand-stack machine run symbolically: the computation that each
/// value on the stack is the result of.
pub open spec fn rebuild(stk: Seq<Expr>, acts: Seq<Act>) -> Seq<Expr>
    decreases acts.len(),
{
    if acts.len() == 0 {
        stk
    } else {
        apply_act(rebuild(stk, acts.drop_last()), acts.last())
    }
}

/// The operators an expression leaves on the operator stack once its last
/// token is read: the operators down its right edge, outside groups.
pub open spec fn pending(e: Expr) -> Seq<Tok>
    decreases e,
{
    match e {
        Expr::Bin(op, a, b) => seq![Tok::Opr(op)] + pending(*b),
        _ => Seq::empty(),
    }
}

/// What an expression has moved to the output once its last token is read.
pub open spec fn emitted(e: Expr) -> Seq<Tok>
    decreases e,
{
    match e {
        Expr::Lit(l) => seq![Tok::Num(l)],
        Expr::Bin(op, a, b) => post(*a) + emitted(*b),
        Expr::Group(a) => post(*a),
    }
}

pub open spec fn ops_at_least(s: Seq<Tok>, p: u8) -> bool {
    forall|k: int| 0 <= k < s.len() ==> (#[trigger] s[k] is Opr && prec(s[k]->Opr_0) >= p)
}

pub open spec fn top_binds_at_least(stk: Seq<Tok>, p: u8) -> bool {
    stk.len() > 0 && stk.last() is Opr && prec(stk.last()->Opr_0) >= p
}

proof fn lemma_shunt_concat(st: (Seq<Tok>, Seq<Tok>), a: Seq<Tok>, b: Seq<Tok>)
    ensures
        shunt_from(st, a + b) == shunt_from(shunt_from(st, a), b),
    decreases b.len(),
{
    if b.len() == 0 {
        assert(a + b =~= a);
    } else {
        assert((a + b).drop_last() =~= a + b.drop_last());
        assert((a + b).last() == b.last());
        lemma_shunt_concat(st, a, b.drop_last());
    }
}

proof fn lemma_drain(out: Seq<Tok>, stk: Seq<Tok>)
    ensures
        drain(out, stk) == out + stk.reverse(),
    decreases stk.len(),
{
    if stk.len() == 0 {
        assert(out + stk.reverse() =~= out);
    } else {
        lemma_drain(out.push(stk.last()), stk.drop_last());
        assert(out.push(stk.last()) + stk.drop_last().reverse() =~= out + stk.reverse());
    }
}

proof fn lemma_pop_binding(out: Seq<Tok>, stk: Seq<Tok>, s: Seq<Tok>, p: u8)
    requires
        ops_at_least(s, p),
        !top_binds_at_least(stk, p),
    ensures
        pop_binding(out, stk + s, p) == (out + s.reverse(), stk),
    decreases s.len(),
{
    if s.len() == 0 {
        assert(stk + s =~= stk);
        assert(out + s.reverse() =~= out);
    } else {
        assert((stk + s).drop_last() =~= stk + s.drop_last());
        assert((stk + s).last() == s.last());
        assert(s.last() == s[s.len() - 1]);
        lemma_pop_binding(out.push(s.last()), stk, s.drop_last(), p);
        assert(out.push(s.last()) + s.drop_last().reverse() =~= out + s.reverse());
    }
}

proof fn lemma_pop_to_paren(out: Seq<Tok>, stk: Seq<Tok>, s: Seq<Tok>)
    requires
        forall|k: int| 0 <= k < s.len() ==> #[trigger] s[k] is Opr,
    ensures
        pop_to_paren(out, stk.push(Tok::LParen) + s) == (out + s.reverse(), stk),
    decreases s.len(),
{
    if s.len() == 0 {
        assert(stk.push(Tok::LParen) + s =~= stk.push(Tok::LParen));
        assert(stk.push(Tok::LParen).drop_last() =~= stk);
        assert(out + s.reverse() =~= out);
    } else {
        assert((stk.push(Tok::LParen) + s).drop_last() =~= stk.push(Tok::LParen) + s.drop_last());
        assert((stk.push(Tok::LParen) + s).last() == s.last());
        assert(s.last() == s[s.len() - 1]);
        lemma_pop_to_paren(out.push(s.last()), stk, s.drop_last());
        assert(out.push(s.last()) + s.drop_last().reverse() =~= out + s.reverse());
    }
}

proof fn lemma_shunt_one(st: (Seq<Tok>, Seq<Tok>), t: Tok)
    ensures
        shunt_from(st, seq![t]) == shunt_token(st, t),
{
    assert(seq![t].drop_last() =~= Seq::<Tok>::empty());
    assert(seq![t].last() == t);
    assert(shunt_from(st, Seq::<Tok>::empty()) == st);
}

/// Reading the infix tokens of a well-formed expression moves `emitted(e)`
/// to the output and leaves `pending(e)` on the operator stack, provided the
/// stack's top does not outbind the expression's own operator.
proof fn lemma_shunt_expr(e: Expr, out: Seq<Tok>, stk: Seq<Tok>)
    requires
        well_formed(e),
        e is Bin ==> !top_binds_at_least(stk, prec(e->Bin_0)),
    ensures
        shunt_from((out, stk), infix(e)) == (out + emitted(e), stk + pending(e)),
        post(e) == emitted(e) + pending(e).reverse(),
        ops_at_least(pending(e), if e is Bin { prec(e->Bin_0) } else { 0 }),
    decreases e,
{
    match e {
        Expr::Lit(l) => {
            lemma_shunt_one((out, stk), Tok::Num(l));
            assert(stk + pending(e) =~= stk);
            assert(emitted(e) + pending(e).reverse() =~= emitted(e));
        },
        Expr::Group(a) => {
            let inner = stk.push(Tok::LParen);
            lemma_shunt_one((out, stk), Tok::LParen);
            lemma_shunt_expr(*a, out, inner);
            lemma_shunt_concat((out, stk), seq![Tok::LParen], infix(*a));
            lemma_shunt_concat((out, stk), seq![Tok::LParen] + infix(*a), seq![Tok::RParen]);
            lemma_shunt_one((out + emitted(*a), inner + pending(*a)), Tok::RParen);
            lemma_pop_to_paren(out + emitted(*a), stk, pending(*a));
            assert(out + emitted(*a) + pending(*a).reverse() =~= out + post(*a));
            assert(stk + pending(e) =~= stk);
            assert(emitted(e) + pending(e).reverse() =~= emitted(e));
        },
        Expr::Bin(op, a, b) => {
            let p = prec(op);
            lemma_shunt_expr(*a, out, stk);
            let st1 = (out + emitted(*a), stk + pending(*a));
            assert(ops_at_least(pending(*a), p));
            lemma_pop_binding(out + emitted(*a), stk, pending(*a), p);
            lemma_shunt_one(st1, Tok::Opr(op));
            let out2 = out + emitted(*a) + pending(*a).reverse();
            assert(out2 =~= out + post(*a));
            let stk2 = stk.push(Tok::Opr(op));
            lemma_shunt_expr(*b, out2, stk2);
            lemma_shunt_concat((out, stk), infix(*a), seq![Tok::Opr(op)]);
            lemma_shunt_concat((out, stk), infix(*a) + seq![Tok::Opr(op)], infix(*b));
            assert(out2 + emitted(*b) =~= out + emitted(e));
            assert(stk2 + pending(*b) =~= stk + pending(e));
            assert(pending(e).reverse() =~= pending(*b).reverse() + seq![Tok::Opr(op)]);
            assert(post(e) =~= emitted(e) + pending(e).reverse());
            assert forall|k: int| 0 <= k < pending(e).len() implies (#[trigger] pending(e)[k] is Opr
                && prec(pending(e)[k]->Opr_0) >= p) by {
                if k > 0 {
                    assert(pending(e)[k] == pending(*b)[k - 1]);
                }
            }
        },
    }
}

/// The reorderer puts the infix tokens of a well-formed expression in
/// exactly its postfix order.
pub proof fn lemma_postfix_of_infix(e: Expr)
    requires
        well_formed(e),
    ensures
        postfix(infix(e)) == post(e),
{
    lemma_shunt_expr(e, Seq::empty(), Seq::empty());
    assert(Seq::<Tok>::empty() + emitted(e) =~= emitted(e));
    assert(Seq::<Tok>::empty() + pending(e) =~= pending(e));
    lemma_drain(emitted(e), pending(e));
}

/// The actions of the operand-stack machine that compute an expression.
pub open spec fn acts_of(e: Expr) -> Seq<Act>
    decreases e,
{
    match e {
        Expr::Lit(l) => seq![Act::Push(l)],
        Expr::Bin(op, a, b) => acts_of(*a) + acts_of(*b) + seq![Act::Apply(op)],
        Expr::Group(a) => acts_of(*a),
    }
}

proof fn lemma_run_post(ps: Seq<Tok>, e: Expr, d: nat)
    requires
        run_steps(ps).1 == Ok::<nat, CalcError>(d),
    ensures
        run_steps(ps + post(e)) == (run_steps(ps).0 + acts_of(e), Ok::<nat, CalcError>(d + 1)),
    decreases e,
{
    match e {
        Expr::Lit(l) => {
            assert((ps + post(e)).drop_last() =~= ps);
            assert((ps + post(e)).last() == Tok::Num(l));
            assert(run_steps(ps).0.push(Act::Push(l)) =~= run_steps(ps).0 + acts_of(e));
        },
        Expr::Group(a) => {
            lemma_run_post(ps, *a, d);
        },
        Expr::Bin(op, a, b) => {
            lemma_run_post(ps, *a, d);
            lemma_run_post(ps + post(*a), *b, d + 1);
            let whole = ps + post(e);
            assert(whole.drop_last() =~= (ps + post(*a)) + post(*b));
            assert(whole.last() == Tok::Opr(op));
            assert((run_steps(ps).0 + acts_of(*a)) + acts_of(*b) + seq![Act::Apply(op)]
                =~= run_steps(ps).0 + acts_of(e));
        },
    }
}

proof fn lemma_rebuild_concat(s: Seq<Expr>, x: Seq<Act>, y: Seq<Act>)
    ensures
        rebuild(s, x + y) == rebuild(rebuild(s, x), y),
    decreases y.len(),
{
    if y.len() == 0 {
        assert(x + y =~= x);
    } else {
        assert((x + y).drop_last() =~= x + y.drop_last());
        assert((x + y).last() == y.last());
        lemma_rebuild_concat(s, x, y.drop_last());
    }
}

proof fn lemma_rebuild_acts(s: Seq<Expr>, e: Expr)
    ensures
        rebuild(s, acts_of(e)) == s.push(strip(e)),
    decreases e,
{
    match e {
        Expr::Lit(l) => {
            assert(acts_of(e).drop_last() =~= Seq::<Act>::empty());
            assert(acts_of(e).last() == Act::Push(l));
            assert(rebuild(s, Seq::<Act>::empty()) == s);
        },
        Expr::Group(a) => {
            lemma_rebuild_acts(s, *a);
        },
        Expr::Bin(op, a, b) => {
            lemma_rebuild_acts(s, *a);
            lemma_rebuild_acts(s.push(strip(*a)), *b);
            lemma_rebuild_concat(s, acts_of(*a), acts_of(*b));
            assert(acts_of(e).drop_last() =~= acts_of(*a) + acts_of(*b));
            assert(acts_of(e).last() == Act::Apply(op));
            let t = s.push(strip(*a)).push(strip(*b));
            assert(t.subrange(0, t.len() - 2) =~= s);
            assert(t[t.len() - 2] == strip(*a));
            assert(t[t.len() - 1] == strip(*b));
        },
    }
}

/// The pipeline computes what an expression says under the usual rules.
/// For a well-formed expression (unparenthesised operations group by
/// precedence, equal operators to the left), reordering its infix tokens
/// gives an evaluation plan that succeeds, and the operand-stack machine run
/// on that plan computes exactly `strip(e)`: the operations of `e`, each on
/// the operands that precedence and grouping give it.
pub proof fn lemma_evaluates_as_written(e: Expr)
    requires
        well_formed(e),
    ensures
        postfix(infix(e)) == post(e),
        plan_spec(postfix(infix(e))).1 == Ok::<(), CalcError>(()),
        rebuild(Seq::empty(), plan_spec(postfix(infix(e))).0) == seq![strip(e)],
{
    lemma_postfix_of_infix(e);
    assert(run_steps(Seq::<Tok>::empty()) == (Seq::<Act>::empty(), Ok::<nat, CalcError>(0)));
    lemma_run_post(Seq::empty(), e, 0);
    assert(Seq::<Tok>::empty() + post(e) =~= post(e));
    assert(Seq::<Act>::empty() + acts_of(e) =~= acts_of(e));
    lemma_rebuild_acts(Seq::empty(), e);
    assert(Seq::<Expr>::empty().push(strip(e)) =~= seq![strip(e)]);
}

/// The text that writes an expression, with no spaces.
pub open spec fn render(e: Expr) -> Seq<char>
    decreases e,
{
    match e {
        Expr::Lit(l) => l,
        Expr::Bin(op, a, b) => render(*a) + seq![op_char(op)] + render(*b),
        Expr::Group(a) => seq!['('] + render(*a) + seq![')'],
    }
}

/// Every literal of the expression is a decimal numeral: digits and at most
/// one point, with at least one digit.
pub open spec fn literals_ok(e: Expr) -> bool
    decreases e,
{
    match e {
        Expr::Lit(l) => literal_ok(l) && forall|i: int|
            0 <= i < l.len() ==> is_digit(#[trigger] l[i]) || l[i] == '.',
        Expr::Bin(op, a, b) => literals_ok(*a) && literals_ok(*b),
        Expr::Group(a) => literals_ok(*a),
    }
}

/// The lexer's state after reading `q` from state `st`.
pub open spec fn lex_from(
    st: Result<(Seq<Tok>, Seq<char>), CalcError>,
    q: Seq<char>,
) -> Result<(Seq<Tok>, Seq<char>), CalcError>
    decreases q.len(),
{
    if q.len() == 0 {
        st
    } else {
        match lex_from(st, q.drop_last()) {
            Ok((out, buf)) => lex_char(out, buf, q.last()),
            Err(e) => Err(e),
        }
    }
}

/// The literal that is still buffered once an expression's text is read.
pub open spec fn tail_lit(e: Expr) -> Seq<char>
    decreases e,
{
    match e {
        Expr::Lit(l) => l,
        Expr::Bin(op, a, b) => tail_lit(*b),
        Expr::Group(a) => Seq::empty(),
    }
}

/// The tokens emitted once an expression's text is read: all of them but a
/// literal that is still buffered.
pub open spec fn flushed(e: Expr) -> Seq<Tok>
    decreases e,
{
    match e {
        Expr::Lit(l) => Seq::empty(),
        Expr::Bin(op, a, b) => infix(*a) + seq![Tok::Opr(op)] + flushed(*b),
        Expr::Group(a) => infix(e),
    }
}

proof fn lemma_lex_state_concat(p: Seq<char>, q: Seq<char>)
    ensures
        lex_state(p + q) == lex_from(lex_state(p), q),
    decreases q.len(),
{
    if q.len() == 0 {
        assert(p + q =~= p);
    } else {
        assert((p + q).drop_last() =~= p + q.drop_last());
        assert((p + q).last() == q.last());
        lemma_lex_state_concat(p, q.drop_last());
    }
}

proof fn lemma_lex_from_concat(st: Result<(Seq<Tok>, Seq<char>), CalcError>, a: Seq<char>, b: Seq<char>)
    ensures
        lex_from(st, a + b) == lex_from(lex_from(st, a), b),
    decreases b.len(),
{
    if b.len() == 0 {
        assert(a + b =~= a);
    } else {
        assert((a + b).drop_last() =~= a + b.drop_last());
        assert((a + b).last() == b.last());
        lemma_lex_from_concat(st, a, b.drop_last());
    }
}

proof fn lemma_lex_one(st: Result<(Seq<Tok>, Seq<char>), CalcError>, c: char)
    ensures
        lex_from(st, seq![c]) == match st {
            Ok((out, buf)) => lex_char(out, buf, c),
            Err(e) => Err(e),
        },
{
    assert(seq![c].drop_last() =~= Seq::<char>::empty());
    assert(seq![c].last() == c);
    assert(lex_from(st, Seq::<char>::empty()) == st);
}

proof fn lemma_lex_digits(out: Seq<Tok>, buf: Seq<char>, l: Seq<char>)
    requires
        forall|i: int| 0 <= i < l.len() ==> is_digit(#[trigger] l[i]) || l[i] == '.',
    ensures
        lex_from(Ok((out, buf)), l) == Ok::<(Seq<Tok>, Seq<char>), CalcError>((out, buf + l)),
    decreases l.len(),
{
    if l.len() == 0 {
        assert(buf + l =~= buf);
    } else {
        assert(l.last() == l[l.len() - 1]);
        lemma_lex_digits(out, buf, l.drop_last());
        assert((buf + l.drop_last()).push(l.last()) =~= buf + l);
    }
}

proof fn lemma_lex_render(e: Expr, out: Seq<Tok>)
    requires
        literals_ok(e),
    ensures
        lex_from(Ok((out, Seq::empty())), render(e)) == Ok::<(Seq<Tok>, Seq<char>), CalcError>(
            (out + flushed(e), tail_lit(e)),
        ),
        flush_spec(tail_lit(e), out + flushed(e)) == Ok::<Seq<Tok>, CalcError>(out + infix(e)),
    decreases e,
{
    let st = Ok::<(Seq<Tok>, Seq<char>), CalcError>((out, Seq::empty()));
    match e {
        Expr::Lit(l) => {
            lemma_lex_digits(out, Seq::empty(), l);
            assert(Seq::<char>::empty() + l =~= l);
            assert(out + flushed(e) =~= out);
            assert(l.len() > 0);
            assert(out.push(Tok::Num(l)) =~= out + infix(e));
        },
        Expr::Group(a) => {
            lemma_lex_one(st, '(');
            let out1 = out.push(Tok::LParen);
            lemma_lex_render(*a, out1);
            lemma_lex_from_concat(st, seq!['('], render(*a));
            lemma_lex_from_concat(st, seq!['('] + render(*a), seq![')']);
            lemma_lex_one(Ok((out1 + flushed(*a), tail_lit(*a))), ')');
            assert(out1 + infix(*a) + seq![Tok::RParen] =~= out + flushed(e));
            assert((out1 + infix(*a)).push(Tok::RParen) =~= out + flushed(e));
            assert(out + flushed(e) =~= out + infix(e));
        },
        Expr::Bin(op, a, b) => {
            lemma_lex_render(*a, out);
            lemma_lex_one(Ok((out + flushed(*a), tail_lit(*a))), op_char(op));
            assert(crate::lexer::char_op(op_char(op)) == Some(op));
            let out2 = (out + infix(*a)).push(Tok::Opr(op));
            lemma_lex_render(*b, out2);
            lemma_lex_from_concat(st, render(*a), seq![op_char(op)]);
            lemma_lex_from_concat(st, render(*a) + seq![op_char(op)], render(*b));
            assert(out2 + flushed(*b) =~= out + flushed(e));
            assert(out2 + infix(*b) =~= out + infix(e));
        },
    }
}

/// The lexer reads the text of an expression whose literals are numerals
/// back as exactly its infix tokens.
pub proof fn lemma_lex_of_render(e: Expr)
    requires
        literals_ok(e),
    ensures
        lex(render(e)) == Ok::<Seq<Tok>, CalcError>(infix(e)),
{
    lemma_lex_state_concat(Seq::empty(), render(e));
    assert(Seq::<char>::empty() + render(e) =~= render(e));
    assert(lex_state(Seq::<char>::empty()) == Ok::<(Seq<Tok>, Seq<char>), CalcError>((Seq::empty(), Seq::empty())));
    lemma_lex_render(e, Seq::empty());
    assert(Seq::<Tok>::empty() + infix(e) =~= infix(e));
}

/// The whole pipeline on the text of a well-formed expression with numeral
/// literals: the lexer and the reorderer succeed, the evaluation plan
/// succeeds, and the operand-stack machine run on it computes exactly
/// `strip(e)`, the expression's operations under precedence, left
/// grouping and parentheses.
pub proof fn lemma_text_evaluates_as_written(e: Expr)
    requires
        well_formed(e),
        literals_ok(e),
    ensures
        pipeline_spec(render(e)) is Ok,
        pipeline_spec(render(e))->Ok_0.1 == Ok::<(), CalcError>(()),
        rebuild(Seq::empty(), pipeline_spec(render(e))->Ok_0.0) == seq![strip(e)],
{
    lemma_lex_of_render(e);
    lemma_evaluates_as_written(e);
}

} // verus!
