use lox::chunk::{Chunk, OpCode};
use lox::compiler::{get_rule, Compiler, ParseFn, Precedence};
use lox::debug::{disassemble_chunk, disassemble_instruction};
use lox::host::{ArithOp, Host, NumberOrder};
use lox::token::TokenType;
use lox::value::{print_value, Value};
use lox::vm::{InterpretResult, VM};

struct Ieee;

impl Host for Ieee {
    fn parse_number(&self, text: &String) -> u64 {
        text.parse::<f64>().unwrap().to_bits()
    }

    fn arith(&self, op: ArithOp, a: u64, b: u64) -> u64 {
        let (a, b) = (f64::from_bits(a), f64::from_bits(b));
        let r = match op {
            ArithOp::Add => a + b,
            ArithOp::Subtract => a - b,
            ArithOp::Multiply => a * b,
            ArithOp::Divide => a / b,
        };
        r.to_bits()
    }

    fn compare(&self, a: u64, b: u64) -> NumberOrder {
        match f64::from_bits(a).partial_cmp(&f64::from_bits(b)) {
            Some(std::cmp::Ordering::Less) => NumberOrder::Less,
            Some(std::cmp::Ordering::Equal) => NumberOrder::Equal,
            Some(std::cmp::Ordering::Greater) => NumberOrder::Greater,
            None => NumberOrder::Unordered,
        }
    }

    fn show_number(&self, n: u64) -> String {
        f64::from_bits(n).to_string()
    }

    fn clock(&self) -> u64 {
        0
    }
}

fn evaluate(source: &str) -> (InterpretResult, Vec<String>, Vec<String>) {
    let mut vm = VM::new();
    let result = vm.interpret(source, &Ieee);
    (result, vm.output, vm.diagnostics)
}

fn value_of(source: &str) -> String {
    let (result, output, diagnostics) = evaluate(source);
    assert_eq!(result, InterpretResult::Success, "{:?}", diagnostics);
    assert_eq!(output.len(), 1);
    output[0].clone()
}

#[test]
fn chunk_keeps_code_and_lines_together() {
    let mut chunk = Chunk::new();
    assert_eq!(chunk.len(), 0);
    let index = chunk.add_constant(Value::new_number(1.2f64.to_bits()));
    assert_eq!(index, 0);
    chunk.write_chunk(OpCode::OpConstant(index), 123);
    chunk.write_chunk(OpCode::OpReturn, 123);
    assert_eq!(chunk.code, vec![OpCode::OpConstant(0), OpCode::OpReturn]);
    assert_eq!(chunk.lines, vec![123, 123]);
    assert_eq!(chunk.add_constant(Value::new_nil()), 1);
    assert_eq!(chunk.get(1), Some(OpCode::OpReturn));
    assert_eq!(chunk.get(2), None);
}

#[test]
fn chunk_addresses_many_constants() {
    let mut chunk = Chunk::new();
    for i in 0..70000usize {
        assert_eq!(chunk.add_constant(Value::new_bool(i % 2 == 0)), i);
    }
    assert!(chunk.constants[69999].is_bool());
}

#[test]
fn values_know_their_kind() {
    let b = Value::new_bool(true);
    assert!(b.is_bool() && !b.is_nil() && !b.is_number() && !b.is_string());
    assert!(b.as_bool());
    assert_eq!(b.as_number(), 0);
    let n = Value::new_number(2.5f64.to_bits());
    assert!(n.is_number());
    assert_eq!(f64::from_bits(n.as_number()), 2.5);
    assert!(!n.as_bool());
    let nil = Value::new_nil();
    assert!(nil.is_nil() && nil.is_falsey());
    assert!(Value::new_bool(false).is_falsey());
    assert!(!Value::new_number(0).is_falsey());
    assert!(Value::new_string("s".into()).is_string());
}

#[test]
fn values_compare_by_kind_and_content() {
    assert!(Value::new_nil().eq(&Value::new_nil(), &Ieee));
    assert!(!Value::new_nil().eq(&Value::new_bool(false), &Ieee));
    assert!(Value::new_number(1f64.to_bits()).eq(&Value::new_number(1f64.to_bits()), &Ieee));
    assert!(Value::new_number(0f64.to_bits()).eq(&Value::new_number((-0f64).to_bits()), &Ieee));
    assert!(!Value::new_number(f64::NAN.to_bits()).eq(&Value::new_number(f64::NAN.to_bits()), &Ieee));
    assert!(Value::new_string("a".into()).eq(&Value::new_string("a".into()), &Ieee));
    assert!(!Value::new_string("a".into()).eq(&Value::new_string("b".into()), &Ieee));
}

#[test]
fn values_print() {
    assert_eq!(print_value(&Value::new_bool(true), &Ieee), "true");
    assert_eq!(print_value(&Value::new_nil(), &Ieee), "nil");
    assert_eq!(print_value(&Value::new_number(1.5f64.to_bits()), &Ieee), "1.5");
    assert_eq!(print_value(&Value::new_string("hi".into()), &Ieee), "hi");
}

#[test]
fn rules_by_token() {
    let minus = get_rule(TokenType::Minus);
    assert_eq!(minus.prefix, Some(ParseFn::Unary));
    assert_eq!(minus.infix, Some(ParseFn::Binary));
    assert_eq!(minus.precedence, Precedence::Term);
    let star = get_rule(TokenType::Star);
    assert_eq!((star.prefix, star.infix, star.precedence), (None, Some(ParseFn::Binary), Precedence::Factor));
    let paren = get_rule(TokenType::LeftParen);
    assert_eq!((paren.prefix, paren.infix, paren.precedence), (Some(ParseFn::Grouping), None, Precedence::Lowest));
    let eof = get_rule(TokenType::EOF);
    assert_eq!((eof.prefix, eof.infix, eof.precedence), (None, None, Precedence::Lowest));
    assert_eq!(get_rule(TokenType::LessEqual).precedence, Precedence::Comparison);
    assert_eq!(get_rule(TokenType::BangEqual).precedence, Precedence::Equality);
    assert_eq!(get_rule(TokenType::Number).prefix, Some(ParseFn::Number));
    assert_eq!(get_rule(TokenType::Nil).prefix, Some(ParseFn::Literal));
}

#[test]
fn precedence_levels() {
    assert_eq!(Precedence::Lowest.rank(), 0);
    assert_eq!(Precedence::Primary.rank(), 10);
    assert_eq!(Precedence::Term.next(), Precedence::Factor);
    assert_eq!(Precedence::Primary.next(), Precedence::Primary);
    assert_eq!(Precedence::from(4), Precedence::Equality);
}

#[test]
fn compiles_an_expression() {
    let mut compiler = Compiler::new();
    let chunk = compiler.compile("1 + 2 * 3", &Ieee).unwrap();
    assert_eq!(
        chunk.code,
        vec![
            OpCode::OpConstant(0),
            OpCode::OpConstant(1),
            OpCode::OpConstant(2),
            OpCode::OpMultiply,
            OpCode::OpAdd,
            OpCode::OpReturn,
        ]
    );
    assert_eq!(chunk.lines, vec![1; 6]);
    assert_eq!(f64::from_bits(chunk.constants[2].as_number()), 3.0);
}

#[test]
fn compiles_comparisons_with_not() {
    let mut compiler = Compiler::new();
    let chunk = compiler.compile("!(1 >= 2) != (nil == false)", &Ieee).unwrap();
    assert_eq!(
        chunk.code,
        vec![
            OpCode::OpConstant(0),
            OpCode::OpConstant(1),
            OpCode::OpLess,
            OpCode::OpNot,
            OpCode::OpNot,
            OpCode::OpNil,
            OpCode::OpFalse,
            OpCode::OpEqual,
            OpCode::OpEqual,
            OpCode::OpNot,
            OpCode::OpReturn,
        ]
    );
}

#[test]
fn compile_errors() {
    let mut compiler = Compiler::new();
    assert!(compiler.compile("1 +", &Ieee).is_none());
    assert_eq!(compiler.diagnostics(), &vec!["[line 1] Error at end: Expect expression.".to_string()]);
    let mut compiler = Compiler::new();
    assert!(compiler.compile("(1", &Ieee).is_none());
    assert_eq!(
        compiler.diagnostics(),
        &vec!["[line 1] Error at end: Expect ')' after expression.".to_string()]
    );
    let mut compiler = Compiler::new();
    assert!(compiler.compile("1 2", &Ieee).is_none());
    assert_eq!(
        compiler.diagnostics(),
        &vec!["[line 1] Error at '2': Expect end of expression.".to_string()]
    );
    let mut compiler = Compiler::new();
    assert!(compiler.compile("@", &Ieee).is_none());
    assert_eq!(compiler.diagnostics(), &vec!["[line 1] Error: Unexpected character.".to_string()]);
    let mut compiler = Compiler::new();
    assert!(compiler.compile("1 + 1", &Ieee).is_some());
    assert!(compiler.diagnostics().is_empty());
}

#[test]
fn machine_evaluates() {
    assert_eq!(value_of("1 + 2"), "3");
    assert_eq!(value_of("(5 - 3) * -2 / 4"), "-1");
    assert_eq!(value_of("\"hi\" + \" there\""), "hi there");
    assert_eq!(value_of("!nil"), "true");
    assert_eq!(value_of("1 < 2 == true"), "true");
    assert_eq!(value_of("2 <= 1"), "false");
    assert_eq!(value_of("nil"), "nil");
    assert_eq!(value_of("-0 == 0"), "true");
}

#[test]
fn machine_reports_runtime_errors_with_the_line() {
    let (result, output, diagnostics) = evaluate("\n\"a\" + 1");
    assert_eq!(result, InterpretResult::RuntimeError);
    assert!(output.is_empty());
    assert_eq!(
        diagnostics,
        vec!["Operands must be two numbers or two strings.", "[line    2] in script"]
    );
    let (result, _, diagnostics) = evaluate("1 * nil");
    assert_eq!(result, InterpretResult::RuntimeError);
    assert_eq!(diagnostics[0], "Operands must be numbers.");
    let (result, _, diagnostics) = evaluate("-true");
    assert_eq!(result, InterpretResult::RuntimeError);
    assert_eq!(diagnostics[0], "Operand must be a number.");
}

#[test]
fn machine_reports_compile_errors() {
    let (result, output, diagnostics) = evaluate("1 +");
    assert_eq!(result, InterpretResult::CompileError);
    assert!(output.is_empty());
    assert_eq!(diagnostics, vec!["[line 1] Error at end: Expect expression."]);
}

#[test]
fn machine_steps_one_instruction_at_a_time() {
    let mut vm = VM::new();
    let mut chunk = Chunk::new();
    let one = chunk.add_constant(Value::new_number(1f64.to_bits()));
    chunk.write_chunk(OpCode::OpConstant(one), 1);
    chunk.write_chunk(OpCode::OpNegate, 1);
    chunk.write_chunk(OpCode::OpReturn, 2);
    vm.chunk = chunk;
    assert_eq!(vm.step(&Ieee), None);
    assert_eq!(vm.ip, 1);
    assert_eq!(vm.stack.len(), 1);
    assert_eq!(vm.step(&Ieee), None);
    assert_eq!(f64::from_bits(vm.stack[0].as_number()), -1.0);
    assert_eq!(vm.step(&Ieee), Some(InterpretResult::Success));
    assert_eq!(vm.output, vec!["-1"]);
    assert!(vm.stack.is_empty());
}

#[test]
fn machine_faults_on_a_bad_chunk() {
    let mut vm = VM::new();
    let mut chunk = Chunk::new();
    chunk.write_chunk(OpCode::OpAdd, 9);
    vm.chunk = chunk;
    assert_eq!(vm.run(&Ieee), InterpretResult::RuntimeError);
    assert_eq!(vm.diagnostics, vec!["Stack underflow.", "[line    9] in script"]);

    let mut vm = VM::new();
    let mut chunk = Chunk::new();
    chunk.write_chunk(OpCode::OpConstant(3), 1);
    vm.chunk = chunk;
    assert_eq!(vm.run(&Ieee), InterpretResult::RuntimeError);
    assert_eq!(vm.diagnostics[0], "Unknown constant.");

    let mut vm = VM::new();
    let mut chunk = Chunk::new();
    for _ in 0..257 {
        chunk.write_chunk(OpCode::OpNil, 1);
    }
    vm.chunk = chunk;
    assert_eq!(vm.run(&Ieee), InterpretResult::RuntimeError);
    assert_eq!(vm.diagnostics[0], "Stack overflow.");
    assert!(vm.stack.is_empty());

    let mut vm = VM::new();
    assert_eq!(vm.run(&Ieee), InterpretResult::Success);
}

#[test]
fn disassembly() {
    let mut chunk = Chunk::new();
    let c = chunk.add_constant(Value::new_number(1.2f64.to_bits()));
    chunk.write_chunk(OpCode::OpConstant(c), 123);
    chunk.write_chunk(OpCode::OpNegate, 123);
    chunk.write_chunk(OpCode::OpReturn, 124);
    assert_eq!(
        disassemble_chunk(&chunk, "test chunk", &Ieee),
        vec![
            "== test chunk ==",
            "0000  123 OP_CONSTANT         0 '1.2'",
            "0001    | OP_NEGATE",
            "0002  124 OP_RETURN",
        ]
    );
    assert_eq!(disassemble_instruction(&chunk, &OpCode::OpAdd, 1, &Ieee), "0001    | OP_ADD");
}

#[test]
fn trace_records_stack_and_instruction() {
    let mut vm = VM::new();
    vm.trace = true;
    assert_eq!(vm.interpret("1 + 2", &Ieee), InterpretResult::Success);
    assert_eq!(
        vm.trace_log,
        vec![
            "          ",
            "0000    1 OP_CONSTANT         0 '1'",
            "          [1]",
            "0001    | OP_CONSTANT         1 '2'",
            "          [1][2]",
            "0002    | OP_ADD",
            "          [3]",
            "0003    | OP_RETURN",
        ]
    );
}

#[test]
fn instructions_carry_the_line_of_the_token_before_them() {
    let mut compiler = Compiler::new();
    let chunk = compiler.compile("1 +\n2 >=\n\n-3", &Ieee).expect("compiles");
    assert_eq!(
        chunk.code,
        vec![
            OpCode::OpConstant(0),
            OpCode::OpConstant(1),
            OpCode::OpAdd,
            OpCode::OpConstant(2),
            OpCode::OpNegate,
            OpCode::OpLess,
            OpCode::OpNot,
            OpCode::OpReturn,
        ]
    );
    assert_eq!(chunk.lines, vec![1, 2, 2, 4, 4, 4, 4, 4]);
}

fn refusal(source: &str) -> Vec<String> {
    let mut compiler = Compiler::new();
    assert!(compiler.compile(source, &Ieee).is_none(), "{:?} compiled", source);
    compiler.diagnostics().clone()
}

#[test]
fn only_the_first_failure_is_reported() {
    assert_eq!(refusal("(1 + 2"), vec!["[line 1] Error at end: Expect ')' after expression."]);
    assert_eq!(refusal("1 2"), vec!["[line 1] Error at '2': Expect end of expression."]);
    assert_eq!(refusal("1 +\n* 2"), vec!["[line 2] Error at '*': Expect expression."]);
    assert_eq!(refusal("\"abc"), vec!["[line 1] Error: Unterminated string."]);
    assert_eq!(refusal("1 + @ + )"), vec!["[line 1] Error: Unexpected character."]);
    assert_eq!(refusal(""), vec!["[line 1] Error at end: Expect expression."]);
}

#[test]
fn a_compiler_reports_for_each_source_in_turn() {
    let mut compiler = Compiler::new();
    assert!(compiler.compile("(", &Ieee).is_none());
    assert!(compiler.compile("1", &Ieee).is_some());
    assert!(compiler.compile("1 1", &Ieee).is_none());
    assert_eq!(
        compiler.diagnostics(),
        &vec![
            "[line 1] Error at end: Expect expression.".to_string(),
            "[line 1] Error at '1': Expect end of expression.".to_string(),
        ]
    );
}
