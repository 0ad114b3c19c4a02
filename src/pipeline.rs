use vstd::prelude::*;
use crate::token::{CalcError, Token, toks};
use crate::lexer::{lex, tokenize};
use crate::postfix::{parse_tokens, postfix};
use crate::eval::{Act, Plan, acts, plan_evaluation, plan_spec};

verus! {

/// What the pipeline makes of a text: the first error of the lexer, or the
/// evaluation plan of its tokens in postfix order.
pub open spec fn pipeline_spec(s: Seq<char>) -> Result<(Seq<Act>, Result<(), CalcError>), CalcError> {
    match lex(s) {
        Ok(ts) => Ok(plan_spec(postfix(ts))),
        Err(e) => Err(e),
    }
}

/// Tokenizes a text and reorders its tokens into postfix order.
pub fn compile(text: &str) -> (r: Result<Vec<Token>, CalcError>)
    ensures
        match lex(text@) {
            Ok(ts) => r is Ok && toks(r->Ok_0@) == postfix(ts),
            Err(e) => r == Err::<Vec<Token>, CalcError>(e),
        },
{
    let tokens = tokenize(text)?;
    parse_tokens(tokens)
}

/// Runs the three stages on a text, up to the arithmetic: a lexer error is
/// returned as it is; otherwise the result is the evaluation plan of the
/// postfix tokens, which carries any error of the evaluator's own.
pub fn plan_expression(text: &str) -> (r: Result<Plan, CalcError>)
    ensures
        match pipeline_spec(text@) {
            Ok(p) => r is Ok && (acts(r->Ok_0.actions@), r->Ok_0.outcome) == p,
            Err(e) => r is Err && r->Err_0 == e,
        },
{
    let postfix_tokens = compile(text)?;
    Ok(plan_evaluation(&postfix_tokens))
}

/// The pipeline keeps no state between calls: the same text always gives
/// the same outcome.
pub proof fn lemma_same_text_same_outcome(a: Seq<char>, b: Seq<char>)
    requires
        a == b,
    ensures
        pipeline_spec(a) == pipeline_spec(b),
{
}

} // verus!
