use vstd::prelude::*;

verus! {

/// The four binary operators.
#[derive(Clone, Copy, Debug, PartialEq, Eq, Structural)]
pub enum Op {
    Add,
    Sub,
    Mul,
    Div,
}

/// The ways an evaluation can fail.
#[derive(Clone, Copy, Debug, PartialEq, Eq, Structural)]
pub enum CalcError {
    /// Malformed structure: a literal directly before `(`, a malformed
    /// number, too few operands for an operator, or a final stack that does
    /// not hold exactly one value.
    InvalidFormat,
    /// A character that is not part of the expression language.
    InvalidCharacter,
    /// The right operand of `/` is zero.
    DivisionByZero,
    /// An operator the evaluator does not know.
    InvalidOperator,
    /// A parenthesis reached the evaluator.
    InvalidToken,
}

/// A lexical token. A number keeps the text of its literal.
#[derive(Debug)]
pub enum Token {
    Number(String),
    Operator(Op),
    LeftParen,
    RightParen,
}

/// The mathematical model of a token.
pub enum Tok {
    Num(Seq<char>),
    Opr(Op),
    LParen,
    RParen,
}

impl View for Token {
    type V = Tok;

    open spec fn view(&self) -> Tok {
        match self {
            Token::Number(s) => Tok::Num(s@),
            Token::Operator(op) => Tok::Opr(*op),
            Token::LeftParen => Tok::LParen,
            Token::RightParen => Tok::RParen,
        }
    }
}

/// The model of a sequence of tokens.
pub open spec fn toks(v: Seq<Token>) -> Seq<Tok> {
    v.map_values(|t: Token| t@)
}

impl Token {
    /// A token equal in model to this one.
    pub fn duplicate(&self) -> (r: Token)
        ensures
            r@ == self@,
    {
        match self {
            Token::Number(s) => Token::Number(s.clone()),
            Token::Operator(op) => Token::Operator(*op),
            Token::LeftParen => Token::LeftParen,
            Token::RightParen => Token::RightParen,
        }
    }
}

/// The character that writes an operator.
pub open spec fn op_char(op: Op) -> char {
    match op {
        Op::Add => '+',
        Op::Sub => '-',
        Op::Mul => '*',
        Op::Div => '/',
    }
}

impl Op {
    /// The character that writes this operator.
    pub fn symbol(&self) -> (c: char)
        ensures
            c == op_char(*self),
    {
        match self {
            Op::Add => '+',
            Op::Sub => '-',
            Op::Mul => '*',
            Op::Div => '/',
        }
    }
}

/// Binding strength of an operator character: `+ -` bind at 1, `* /` at 2,
/// anything else at 0.
pub open spec fn prec_of(c: char) -> u8 {
    if c == '+' || c == '-' {
        1
    } else if c == '*' || c == '/' {
        2
    } else {
        0
    }
}

/// Binding strength of an operator.
pub open spec fn prec(op: Op) -> u8 {
    prec_of(op_char(op))
}

/// Binding strength of an operator character.
pub fn precedence(op: char) -> (r: u8)
    ensures
        r == prec_of(op),
{
    match op {
        '+' | '-' => 1,
        '*' | '/' => 2,
        _ => 0,
    }
}

/// The message that describes an error.
pub open spec fn message_of(e: CalcError) -> Seq<char> {
    match e {
        CalcError::InvalidFormat => "Invalid expression format"@,
        CalcError::InvalidCharacter => "Invalid character in expression"@,
        CalcError::DivisionByZero => "Division by zero"@,
        CalcError::InvalidOperator => "Invalid operator"@,
        CalcError::InvalidToken => "Invalid token in expression"@,
    }
}

impl CalcError {
    /// The fixed message that describes this error.
    pub fn message(&self) -> (r: String)
        ensures
            r@ == message_of(*self),
    {
        match self {
            CalcError::InvalidFormat => String::from_str("Invalid expression format"),
            CalcError::InvalidCharacter => String::from_str("Invalid character in expression"),
            CalcError::DivisionByZero => String::from_str("Division by zero"),
            CalcError::InvalidOperator => String::from_str("Invalid operator"),
            CalcError::InvalidToken => String::from_str("Invalid token in expression"),
        }
    }
}

} // verus!
