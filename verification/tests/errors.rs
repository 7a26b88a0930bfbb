use lox::error::{error, parser_error, report, Error};
use lox::lox::{exit_code, vm_exit_code};
use lox::text::{decimal_string, pad_left, pad_right};
use lox::token::{Token, TokenType};
use lox::vm::InterpretResult;

#[test]
fn error_has_no_context() {
    assert_eq!(error(3, "Unexpected character."), "[line 3] Error: Unexpected character.");
}

#[test]
fn report_places_the_context() {
    assert_eq!(report(12, " at end", "Expect expression."), "[line 12] Error at end: Expect expression.");
    assert_eq!(report(0, "", "m"), "[line 0] Error: m");
}

#[test]
fn parser_error_points_at_the_token() {
    let plus = Token::new(TokenType::Plus, "+", 1);
    assert_eq!(
        parser_error(&plus, "Operands must be two numbers or two strings."),
        "[line 1] Error at '+': Operands must be two numbers or two strings."
    );
    let end = Token::new(TokenType::EOF, "", 7);
    assert_eq!(parser_error(&end, "Expect ';'."), "[line 7] Error at end: Expect ';'.");
    let bad = Token::new(TokenType::Error, "Unexpected character.", 2);
    assert_eq!(parser_error(&bad, "Unexpected character."), "[line 2] Error: Unexpected character.");
}

#[test]
fn exit_codes() {
    assert_eq!(exit_code(&Ok(())), 0);
    assert_eq!(exit_code(&Err(Error::Parse)), 65);
    assert_eq!(
        exit_code(&Err(Error::Runtime {
            token: Token::new(TokenType::Identifier, "undefined_var", 1),
            message: "Undefined variable 'undefined_var'.".to_string(),
        })),
        70
    );
    assert_eq!(vm_exit_code(InterpretResult::Success), 0);
    assert_eq!(vm_exit_code(InterpretResult::CompileError), 65);
    assert_eq!(vm_exit_code(InterpretResult::RuntimeError), 70);
}

#[test]
fn decimal_numerals() {
    assert_eq!(decimal_string(0), "0");
    assert_eq!(decimal_string(9), "9");
    assert_eq!(decimal_string(10), "10");
    assert_eq!(decimal_string(255), "255");
    assert_eq!(decimal_string(1234567890), "1234567890");
}

#[test]
fn padding() {
    assert_eq!(pad_left("7", 4, "0"), "0007");
    assert_eq!(pad_left("12345", 4, "0"), "12345");
    assert_eq!(pad_left("12", 4, " "), "  12");
    assert_eq!(pad_right("OP_NIL", 8), "OP_NIL  ");
    assert_eq!(pad_right("OP_CONSTANT", 4), "OP_CONSTANT");
}
