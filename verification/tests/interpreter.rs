use rustlox::ast::{Literal, Node, SumOperator};
use rustlox::interpreter::Interpreter;
use rustlox::token::{Token, TokenType};

#[test]
fn a_new_interpreter_has_no_error() {
    assert!(!Interpreter::new().had_error());
}

#[test]
fn a_sound_source_gives_tokens_and_a_tree() {
    let mut interpreter = Interpreter::new();
    let outcome = interpreter.run("1 + nil");
    assert_eq!(
        outcome.tokens,
        vec![
            Token::new(TokenType::Number, "1", 1),
            Token::new(TokenType::Plus, "+", 1),
            Token::new(TokenType::Nil, "nil", 1),
        ]
    );
    assert_eq!(
        outcome.tree,
        Some(Node::Expression(Box::new(Node::Sum(
            SumOperator::Plus,
            Box::new(Node::Primary(Literal::Number("1".to_string()))),
            Box::new(Node::Primary(Literal::Nil)),
        ))))
    );
    assert_eq!(outcome.diagnostic, None);
    assert!(!interpreter.had_error());
}

#[test]
fn a_lexical_fault_ends_the_run() {
    let mut interpreter = Interpreter::new();
    let outcome = interpreter.run("1 +\n @");
    assert_eq!(outcome.tokens, vec![]);
    assert_eq!(outcome.tree, None);
    assert_eq!(
        outcome.diagnostic,
        Some("[line 2] Error: unexpected character: @".to_string())
    );
    assert!(interpreter.had_error());
}

#[test]
fn a_fault_of_the_parser_leaves_the_tokens() {
    let mut interpreter = Interpreter::new();
    let outcome = interpreter.run("1 1");
    assert_eq!(
        outcome.tokens,
        vec![
            Token::new(TokenType::Number, "1", 1),
            Token::new(TokenType::Number, "1", 1),
        ]
    );
    assert_eq!(outcome.tree, None);
    assert_eq!(
        outcome.diagnostic,
        Some("[line 1] Error: unexpected trailing token".to_string())
    );
    assert!(interpreter.had_error());
}

#[test]
fn an_error_is_remembered() {
    let mut interpreter = Interpreter::new();
    assert!(interpreter.run("\"open").diagnostic.is_some());
    assert!(interpreter.had_error());
    assert!(interpreter.run("1").diagnostic.is_none());
    assert!(interpreter.had_error());
}

#[test]
fn a_report_names_the_line_and_the_message() {
    let mut interpreter = Interpreter::new();
    assert_eq!(
        interpreter.report(12, "unterminated string"),
        "[line 12] Error: unterminated string"
    );
    assert!(interpreter.had_error());
    let mut interpreter = Interpreter::new();
    assert_eq!(interpreter.error(1, ""), "[line 1] Error: ");
    assert!(interpreter.had_error());
}

#[test]
fn a_report_writes_the_line_in_decimal() {
    let mut interpreter = Interpreter::new();
    assert_eq!(interpreter.report(0, "m"), "[line 0] Error: m");
    assert_eq!(interpreter.report(9, "m"), "[line 9] Error: m");
    assert_eq!(interpreter.report(10, "m"), "[line 10] Error: m");
    assert_eq!(interpreter.report(1005, "m"), "[line 1005] Error: m");
    assert_eq!(interpreter.report(-3, "m"), "[line -3] Error: m");
    assert_eq!(
        interpreter.report(i32::MAX, "m"),
        format!("[line {}] Error: m", i32::MAX)
    );
    assert_eq!(
        interpreter.report(i32::MIN, "m"),
        format!("[line {}] Error: m", i32::MIN)
    );
}
