//! An infix arithmetic calculator: a lexer, a shunting-yard reorderer and the
//! decisions of a postfix evaluator, each with a contract.

pub mod token;
pub mod lexer;
pub mod postfix;
pub mod eval;
pub mod laws;
pub mod pipeline;
pub mod session;
