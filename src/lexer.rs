use vstd::prelude::*;
use crate::token::{CalcError, Op, Tok, Token, toks};

verus! {

/// The operator that a character writes, if any.
pub open spec fn char_op(c: char) -> Option<Op> {
    if c == '+' {
        Some(Op::Add)
    } else if c == '-' {
        Some(Op::Sub)
    } else if c == '*' {
        Some(Op::Mul)
    } else if c == '/' {
        Some(Op::Div)
    } else {
        None
    }
}

pub open spec fn is_digit(c: char) -> bool {
    '0' <= c && c <= '9'
}

/// A run of digits and points reads as a decimal number when it holds at
/// least one digit and at most one point.
pub open spec fn literal_ok(b: Seq<char>) -> bool {
    &&& exists|i: int| 0 <= i < b.len() && is_digit(#[trigger] b[i])
    &&& forall|i: int, j: int| 0 <= i < j < b.len() && b[i] == '.' ==> b[j] != '.'
}

/// Emits the pending literal, if there is one.
pub open spec fn flush_spec(buf: Seq<char>, out: Seq<Tok>) -> Result<Seq<Tok>, CalcError> {
    if buf.len() == 0 {
        Ok(out)
    } else if literal_ok(buf) {
        Ok(out.push(Tok::Num(buf)))
    } else {
        Err(CalcError::InvalidFormat)
    }
}

/// The effect of one character on the tokens so far and the pending literal.
pub open spec fn lex_char(out: Seq<Tok>, buf: Seq<char>, c: char) -> Result<(Seq<Tok>, Seq<char>), CalcError> {
    if char_op(c).is_some() {
        match flush_spec(buf, out) {
            Ok(o) => Ok((o.push(Tok::Opr(char_op(c).unwrap())), Seq::empty())),
            Err(e) => Err(e),
        }
    } else if c == '(' {
        if buf.len() > 0 {
            Err(CalcError::InvalidFormat)
        } else {
            Ok((out.push(Tok::LParen), buf))
        }
    } else if c == ')' {
        match flush_spec(buf, out) {
            Ok(o) => Ok((o.push(Tok::RParen), Seq::empty())),
            Err(e) => Err(e),
        }
    } else if is_digit(c) || c == '.' {
        Ok((out, buf.push(c)))
    } else if c == ' ' {
        Ok((out, buf))
    } else {
        Err(CalcError::InvalidCharacter)
    }
}

/// The tokens and pending literal after reading all of `s`, left to right.
pub open spec fn lex_state(s: Seq<char>) -> Result<(Seq<Tok>, Seq<char>), CalcError>
    decreases s.len(),
{
    if s.len() == 0 {
        Ok((Seq::empty(), Seq::empty()))
    } else {
        match lex_state(s.drop_last()) {
            Ok((out, buf)) => lex_char(out, buf, s.last()),
            Err(e) => Err(e),
        }
    }
}

/// The token sequence of a text, or the first error met in it.
pub open spec fn lex(s: Seq<char>) -> Result<Seq<Tok>, CalcError> {
    match lex_state(s) {
        Ok((out, buf)) => flush_spec(buf, out),
        Err(e) => Err(e),
    }
}

proof fn lemma_lex_err_sticks(s: Seq<char>, i: int, e: CalcError)
    requires
        0 <= i <= s.len(),
        lex_state(s.take(i)) == Err::<(Seq<Tok>, Seq<char>), CalcError>(e),
    ensures
        lex(s) == Err::<Seq<Tok>, CalcError>(e),
    decreases s.len() - i,
{
    if i < s.len() {
        assert(s.take(i + 1).drop_last() =~= s.take(i));
        lemma_lex_err_sticks(s, i + 1, e);
    } else {
        assert(s.take(i) =~= s);
    }
}

/// Whether the buffered characters read as a number.
fn literal_is_valid(b: &Vec<char>) -> (r: bool)
    ensures
        r == literal_ok(b@),
{
    let mut seen_dot = false;
    let mut seen_digit = false;
    let mut i: usize = 0;
    while i < b.len()
        invariant
            i <= b.len(),
            seen_digit == exists|k: int| 0 <= k < i && is_digit(#[trigger] b@[k]),
            seen_dot == exists|k: int| 0 <= k < i && #[trigger] b@[k] == '.',
            forall|k: int, j: int| 0 <= k < j < i && b@[k] == '.' ==> b@[j] != '.',
        decreases b.len() - i,
    {
        let c = b[i];
        if c == '.' {
            if seen_dot {
                assert(!literal_ok(b@)) by {
                    let k = choose|k: int| 0 <= k < i && #[trigger] b@[k] == '.';
                    assert(0 <= k < i as int && b@[k] == '.' && b@[i as int] == '.');
                }
                return false;
            }
            seen_dot = true;
        }
        if '0' <= c && c <= '9' {
            seen_digit = true;
        }
        i = i + 1;
    }
    seen_digit
}

/// Emits the pending literal into `tokens`, if there is one.
fn flush(buf: &Vec<char>, tokens: &mut Vec<Token>) -> (r: Result<(), CalcError>)
    ensures
        match flush_spec(buf@, toks(old(tokens)@)) {
            Ok(o) => r is Ok && toks(final(tokens)@) == o,
            Err(e) => r == Err::<(), CalcError>(e),
        },
{
    if buf.len() == 0 {
        return Ok(());
    }
    if !literal_is_valid(buf) {
        return Err(CalcError::InvalidFormat);
    }
    let lit = chars_to_string(buf);
    let ghost before = tokens@;
    tokens.push(Token::Number(lit));
    assert(toks(tokens@) =~= toks(before).push(Tok::Num(buf@)));
    Ok(())
}

/// Relies on `String`'s `FromIterator<char>`: the string holds the collected
/// characters in order.
#[verifier::external_body]
fn chars_to_string(v: &Vec<char>) -> (r: String)
    ensures
        r@ == v@,
{
    v.iter().collect()
}

/// Splits a text into tokens, left to right. A run of digits and points,
/// spaces within it ignored, becomes one number; a literal directly before
/// `(`, or one that does not read as a number, is a format error; a
/// character outside the language is an invalid character.
pub fn tokenize(text: &str) -> (r: Result<Vec<Token>, CalcError>)
    ensures
        match lex(text@) {
            Ok(ts) => r is Ok && toks(r->Ok_0@) == ts,
            Err(e) => r == Err::<Vec<Token>, CalcError>(e),
        },
{
    let n = text.unicode_len();
    let mut tokens: Vec<Token> = Vec::new();
    let mut buffer: Vec<char> = Vec::new();
    let mut i: usize = 0;
    assert(text@.take(0) =~= Seq::<char>::empty());
    assert(toks(tokens@) =~= Seq::<Tok>::empty());
    while i < n
        invariant
            n == text@.len(),
            i <= n,
            lex_state(text@.take(i as int)) == Ok::<(Seq<Tok>, Seq<char>), CalcError>(
                (toks(tokens@), buffer@),
            ),
        decreases n - i,
    {
        let c = text.get_char(i);
        assert(text@.take(i + 1).drop_last() =~= text@.take(i as int));
        let ghost before = tokens@;
        if c == '+' || c == '-' || c == '*' || c == '/' {
            match flush(&buffer, &mut tokens) {
                Ok(()) => {},
                Err(e) => {
                    proof { lemma_lex_err_sticks(text@, i + 1, e); }
                    return Err(e);
                },
            }
            buffer = Vec::new();
            let op = if c == '+' {
                Op::Add
            } else if c == '-' {
                Op::Sub
            } else if c == '*' {
                Op::Mul
            } else {
                Op::Div
            };
            let ghost mid = tokens@;
            tokens.push(Token::Operator(op));
            assert(toks(tokens@) =~= toks(mid).push(Tok::Opr(op)));
            assert(buffer@ =~= Seq::<char>::empty());
        } else if c == '(' {
            if buffer.len() > 0 {
                proof { lemma_lex_err_sticks(text@, i + 1, CalcError::InvalidFormat); }
                return Err(CalcError::InvalidFormat);
            }
            tokens.push(Token::LeftParen);
            assert(toks(tokens@) =~= toks(before).push(Tok::LParen));
        } else if c == ')' {
            match flush(&buffer, &mut tokens) {
                Ok(()) => {},
                Err(e) => {
                    proof { lemma_lex_err_sticks(text@, i + 1, e); }
                    return Err(e);
                },
            }
            buffer = Vec::new();
            let ghost mid = tokens@;
            tokens.push(Token::RightParen);
            assert(toks(tokens@) =~= toks(mid).push(Tok::RParen));
            assert(buffer@ =~= Seq::<char>::empty());
        } else if ('0' <= c && c <= '9') || c == '.' {
            buffer.push(c);
        } else if c == ' ' {
        } else {
            proof { lemma_lex_err_sticks(text@, i + 1, CalcError::InvalidCharacter); }
            return Err(CalcError::InvalidCharacter);
        }
        i = i + 1;
    }
    assert(text@.take(n as int) =~= text@);
    match flush(&buffer, &mut tokens) {
        Ok(()) => Ok(tokens),
        Err(e) => Err(e),
    }
}

} // verus!
