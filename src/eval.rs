use vstd::prelude::*;
use crate::token::{CalcError, Op, Tok, Token, toks};

verus! {

/// One action of the operand-stack machine: push the value of a literal, or
/// pop the right operand, then the left one, and push the result of `op`.
#[derive(Debug)]
pub enum Action {
    Push(String),
    Apply(Op),
}

/// The model of an action.
pub enum Act {
    Push(Seq<char>),
    Apply(Op),
}

impl View for Action {
    type V = Act;

    open spec fn view(&self) -> Act {
        match self {
            Action::Push(s) => Act::Push(s@),
            Action::Apply(op) => Act::Apply(*op),
        }
    }
}

/// The model of a sequence of actions.
pub open spec fn acts(v: Seq<Action>) -> Seq<Act> {
    v.map_values(|a: Action| a@)
}

/// What the evaluator does with a postfix token when the operand stack
/// holds `depth` values.
pub open spec fn step_spec(depth: nat, t: Tok) -> Result<Act, CalcError> {
    match t {
        Tok::Num(l) => Ok(Act::Push(l)),
        Tok::Opr(op) => if depth < 2 {
            Err(CalcError::InvalidFormat)
        } else {
            Ok(Act::Apply(op))
        },
        _ => Err(CalcError::InvalidToken),
    }
}

/// The stack depth after an action.
pub open spec fn depth_after(depth: nat, a: Act) -> nat {
    match a {
        Act::Push(_) => depth + 1,
        Act::Apply(_) => (depth - 1) as nat,
    }
}

/// The actions taken on a postfix sequence, read left to right, and then
/// either the stack depth or the first error met.
pub open spec fn run_steps(ps: Seq<Tok>) -> (Seq<Act>, Result<nat, CalcError>)
    decreases ps.len(),
{
    if ps.len() == 0 {
        (Seq::empty(), Ok(0))
    } else {
        let prev = run_steps(ps.drop_last());
        match prev.1 {
            Ok(d) => match step_spec(d, ps.last()) {
                Ok(a) => (prev.0.push(a), Ok(depth_after(d, a))),
                Err(e) => (prev.0, Err(e)),
            },
            Err(e) => prev,
        }
    }
}

/// The evaluation plan of a postfix sequence: the actions to perform, and
/// whether the evaluation succeeds once they are all performed. It succeeds
/// when every token was accepted and exactly one value is left.
pub open spec fn plan_spec(ps: Seq<Tok>) -> (Seq<Act>, Result<(), CalcError>) {
    let r = run_steps(ps);
    (
        r.0,
        match r.1 {
            Ok(d) => if d == 1 {
                Ok(())
            } else {
                Err(CalcError::InvalidFormat)
            },
            Err(e) => Err(e),
        },
    )
}

/// The actions an evaluation performs, and its outcome when none of them
/// fails.
pub struct Plan {
    pub actions: Vec<Action>,
    pub outcome: Result<(), CalcError>,
}

/// What to do with a postfix token when the operand stack holds `depth`
/// values: push a literal; apply an operator, which needs two values; a
/// parenthesis is an invalid token.
pub fn evaluate_step(depth: usize, token: &Token) -> (r: Result<Action, CalcError>)
    ensures
        match step_spec(depth as nat, token@) {
            Ok(a) => r is Ok && r->Ok_0@ == a,
            Err(e) => r == Err::<Action, CalcError>(e),
        },
{
    match token {
        Token::Number(s) => Ok(Action::Push(s.clone())),
        Token::Operator(op) => if depth < 2 {
            Err(CalcError::InvalidFormat)
        } else {
            Ok(Action::Apply(*op))
        },
        _ => Err(CalcError::InvalidToken),
    }
}

/// Whether an operation may go ahead, given whether its right operand is
/// zero: only a division by zero is refused.
pub fn check_divisor(op: Op, divisor_is_zero: bool) -> (r: Result<(), CalcError>)
    ensures
        r == (if op == Op::Div && divisor_is_zero {
            Err(CalcError::DivisionByZero)
        } else {
            Ok::<(), CalcError>(())
        }),
{
    match op {
        Op::Div => if divisor_is_zero {
            Err(CalcError::DivisionByZero)
        } else {
            Ok(())
        },
        _ => Ok(()),
    }
}

proof fn lemma_run_err_sticks(ps: Seq<Tok>, i: int, e: CalcError)
    requires
        0 <= i <= ps.len(),
        run_steps(ps.take(i)).1 == Err::<nat, CalcError>(e),
    ensures
        plan_spec(ps) == (run_steps(ps.take(i)).0, Err::<(), CalcError>(e)),
    decreases ps.len() - i,
{
    if i < ps.len() {
        assert(ps.take(i + 1).drop_last() =~= ps.take(i));
        lemma_run_err_sticks(ps, i + 1, e);
    } else {
        assert(ps.take(i) =~= ps);
    }
}

/// Plans the evaluation of a postfix sequence: the actions of the operand
/// stack machine up to the first error, and the outcome. An operator with
/// fewer than two operands and a final stack that does not hold exactly one
/// value are format errors; a parenthesis is an invalid token.
pub fn plan_evaluation(postfix: &Vec<Token>) -> (r: Plan)
    ensures
        (acts(r.actions@), r.outcome) == plan_spec(toks(postfix@)),
{
    let mut actions: Vec<Action> = Vec::new();
    let mut depth: usize = 0;
    let mut i: usize = 0;
    let ghost ps = toks(postfix@);
    assert(ps.take(0) =~= Seq::<Tok>::empty());
    assert(acts(actions@) =~= Seq::<Act>::empty());
    while i < postfix.len()
        invariant
            ps == toks(postfix@),
            i <= postfix@.len(),
            depth <= i,
            run_steps(ps.take(i as int)) == (acts(actions@), Ok::<nat, CalcError>(depth as nat)),
        decreases postfix.len() - i,
    {
        assert(ps.take(i + 1).drop_last() =~= ps.take(i as int));
        assert(ps.take(i + 1).last() == postfix@[i as int]@);
        match evaluate_step(depth, &postfix[i]) {
            Ok(a) => {
                match &a {
                    Action::Push(_) => {
                        depth = depth + 1;
                    },
                    Action::Apply(_) => {
                        depth = depth - 1;
                    },
                }
                let ghost before = actions@;
                actions.push(a);
                assert(acts(actions@) =~= acts(before).push(a@));
            },
            Err(e) => {
                proof {
                    lemma_run_err_sticks(ps, i + 1, e);
                }
                return Plan { actions, outcome: Err(e) };
            },
        }
        i = i + 1;
    }
    assert(ps.take(postfix@.len() as int) =~= ps);
    if depth == 1 {
        Plan { actions, outcome: Ok(()) }
    } else {
        Plan { actions, outcome: Err(CalcError::InvalidFormat) }
    }
}

} // verus!
