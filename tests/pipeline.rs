use calculator::eval::{Action, check_divisor, evaluate_step, plan_evaluation};
use calculator::lexer::tokenize;
use calculator::pipeline::{compile, plan_expression};
use calculator::postfix::parse_tokens;
use calculator::session::{Command, classify_line, is_quit_word};
use calculator::token::{CalcError, Op, Token, precedence};

fn run(text: &str) -> Result<f64, CalcError> {
    let plan = plan_expression(text)?;
    let mut stack: Vec<f64> = Vec::new();
    for action in plan.actions {
        match action {
            Action::Push(lit) => stack.push(lit.parse().map_err(|_| CalcError::InvalidFormat)?),
            Action::Apply(op) => {
                let right = stack.pop().unwrap();
                let left = stack.pop().unwrap();
                check_divisor(op, right == 0.0)?;
                stack.push(match op {
                    Op::Add => left + right,
                    Op::Sub => left - right,
                    Op::Mul => left * right,
                    Op::Div => left / right,
                });
            }
        }
    }
    plan.outcome?;
    Ok(stack[0])
}

fn describe(t: &Token) -> String {
    match t {
        Token::Number(s) => s.clone(),
        Token::Operator(op) => op.symbol().to_string(),
        Token::LeftParen => "(".to_string(),
        Token::RightParen => ")".to_string(),
    }
}

fn postfix_text(text: &str) -> Vec<String> {
    compile(text).unwrap().iter().map(describe).collect()
}

#[test]
fn subtraction_groups_to_the_left() {
    assert_eq!(run("8 - 3 - 2"), Ok(3.0));
    assert_eq!(run("16 / 4 / 2"), Ok(2.0));
}

#[test]
fn multiplication_binds_tighter() {
    assert_eq!(run("2 + 3 * 4"), Ok(14.0));
    assert_eq!(run("(2 + 3) * 4"), Ok(20.0));
}

#[test]
fn spaces_are_ignored() {
    assert_eq!(run("2   +   2"), Ok(4.0));
    assert_eq!(run("2+2"), Ok(4.0));
}

#[test]
fn spaces_inside_a_literal_join_its_digits() {
    assert_eq!(run("1 2"), Ok(12.0));
}

#[test]
fn doubled_operator_is_a_format_error() {
    assert_eq!(run("2 + + 3"), Err(CalcError::InvalidFormat));
}

#[test]
fn unknown_character_is_rejected() {
    assert_eq!(run("2 & 3"), Err(CalcError::InvalidCharacter));
    assert!(matches!(tokenize("2 & 3"), Err(CalcError::InvalidCharacter)));
}

#[test]
fn empty_line_is_a_format_error() {
    assert_eq!(run(""), Err(CalcError::InvalidFormat));
    assert_eq!(run("   "), Err(CalcError::InvalidFormat));
}

#[test]
fn division_by_zero_at_any_depth() {
    assert_eq!(run("1 / 0"), Err(CalcError::DivisionByZero));
    assert_eq!(run("4 / (2 - 2)"), Err(CalcError::DivisionByZero));
    assert_eq!(run("(1 + (3 / (1 - 1))) * 2"), Err(CalcError::DivisionByZero));
    assert_eq!(run("0 / 5"), Ok(0.0));
}

#[test]
fn division_by_zero_comes_before_a_later_format_error() {
    assert_eq!(run("1 / 0 +"), Err(CalcError::DivisionByZero));
}

#[test]
fn mixed_expressions_evaluate_by_the_usual_rules() {
    assert_eq!(run("1 + 2 * 3 - 4 / 2"), Ok(5.0));
    assert_eq!(run("2 * (3 + 4) * 5"), Ok(70.0));
    assert_eq!(run("((7))"), Ok(7.0));
    assert_eq!(run("1.5 * 4"), Ok(6.0));
    assert_eq!(run("10 - 2 * 3 + 1"), Ok(5.0));
}

#[test]
fn same_text_twice_gives_the_same_result() {
    let text = "3 * (4 - 1) / 2";
    assert_eq!(run(text), run(text));
    assert_eq!(run(text), Ok(4.5));
}

#[test]
fn literal_before_paren_is_a_format_error() {
    assert_eq!(run("2(3)"), Err(CalcError::InvalidFormat));
}

#[test]
fn malformed_literals_are_format_errors() {
    assert_eq!(run("1.2.3 + 1"), Err(CalcError::InvalidFormat));
    assert_eq!(run(". + 1"), Err(CalcError::InvalidFormat));
    assert_eq!(run("1..2"), Err(CalcError::InvalidFormat));
    assert_eq!(run("5."), Ok(5.0));
    assert_eq!(run(".5 * 2"), Ok(1.0));
}

#[test]
fn unmatched_parentheses_are_tolerated() {
    assert_eq!(run("1 + 2)"), Ok(3.0));
    assert_eq!(run("(2 * 3) + 1)"), Ok(7.0));
    assert_eq!(postfix_text("(1 + 2"), vec!["1", "2", "+", "("]);
    assert_eq!(run("(1 + 2"), Err(CalcError::InvalidToken));
}

#[test]
fn too_many_operands_is_a_format_error() {
    assert_eq!(run("(1)(2)"), Err(CalcError::InvalidFormat));
}

#[test]
fn tokens_keep_their_literal_text() {
    let tokens = tokenize("12.5*(3)").unwrap();
    let shown: Vec<String> = tokens.iter().map(describe).collect();
    assert_eq!(shown, vec!["12.5", "*", "(", "3", ")"]);
}

#[test]
fn reorderer_output_is_postfix() {
    assert_eq!(postfix_text("8 - 3 - 2"), vec!["8", "3", "-", "2", "-"]);
    assert_eq!(postfix_text("2 + 3 * 4"), vec!["2", "3", "4", "*", "+"]);
    assert_eq!(postfix_text("(2 + 3) * 4"), vec!["2", "3", "+", "4", "*"]);
    assert_eq!(postfix_text("2 + + 3"), vec!["2", "+", "3", "+"]);
}

#[test]
fn reorderer_never_fails() {
    let tokens = vec![Token::RightParen, Token::LeftParen, Token::Operator(Op::Mul)];
    let out = parse_tokens(tokens).unwrap();
    let shown: Vec<String> = out.iter().map(describe).collect();
    assert_eq!(shown, vec!["*", "("]);
}

#[test]
fn parenthesis_in_evaluator_is_an_invalid_token() {
    assert!(matches!(evaluate_step(0, &Token::LeftParen), Err(CalcError::InvalidToken)));
    assert!(matches!(evaluate_step(3, &Token::RightParen), Err(CalcError::InvalidToken)));
    let plan = plan_evaluation(&vec![Token::Number("1".to_string()), Token::LeftParen]);
    assert_eq!(plan.outcome, Err(CalcError::InvalidToken));
    assert_eq!(plan.actions.len(), 1);
}

#[test]
fn operator_needs_two_operands() {
    assert!(matches!(evaluate_step(1, &Token::Operator(Op::Add)), Err(CalcError::InvalidFormat)));
    assert!(matches!(evaluate_step(2, &Token::Operator(Op::Sub)), Ok(Action::Apply(Op::Sub))));
}

#[test]
fn only_division_checks_its_divisor() {
    assert_eq!(check_divisor(Op::Div, true), Err(CalcError::DivisionByZero));
    assert_eq!(check_divisor(Op::Div, false), Ok(()));
    assert_eq!(check_divisor(Op::Mul, true), Ok(()));
}

#[test]
fn precedence_table() {
    assert_eq!(precedence('+'), 1);
    assert_eq!(precedence('-'), 1);
    assert_eq!(precedence('*'), 2);
    assert_eq!(precedence('/'), 2);
    assert_eq!(precedence('x'), 0);
}

#[test]
fn error_messages() {
    assert_eq!(CalcError::InvalidFormat.message(), "Invalid expression format");
    assert_eq!(CalcError::InvalidCharacter.message(), "Invalid character in expression");
    assert_eq!(CalcError::DivisionByZero.message(), "Division by zero");
    assert_eq!(CalcError::InvalidOperator.message(), "Invalid operator");
    assert_eq!(CalcError::InvalidToken.message(), "Invalid token in expression");
}

#[test]
fn quit_in_any_case_ends_the_session() {
    assert!(matches!(classify_line("quit"), Command::Quit));
    assert!(matches!(classify_line("  QuIt \n"), Command::Quit));
    assert!(matches!(classify_line("QUIT"), Command::Quit));
    assert!(matches!(classify_line("quitter"), Command::Evaluate(_)));
}

#[test]
fn other_lines_are_evaluated_trimmed() {
    match classify_line("  2 + 2 \n") {
        Command::Evaluate(s) => assert_eq!(s, "2 + 2"),
        Command::Quit => panic!("not a quit line"),
    }
}

#[test]
fn quit_word_is_exact() {
    assert!(is_quit_word("quit"));
    assert!(!is_quit_word("QUIT"));
    assert!(!is_quit_word(" quit"));
}
