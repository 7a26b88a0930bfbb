use lox::error::Error;
use lox::host::{ArithOp, Host, NumberOrder};
use lox::interpreter::{binary_operation, check_arity, unary_operation, Interpreter};
use lox::lox::{exit_code, Lox};
use lox::object::Object;
use lox::token::{Token, TokenType};

struct Ieee;

impl Host for Ieee {
    fn parse_number(&self, text: &String) -> u64 {
        text.parse::<f64>().unwrap().to_bits()
    }

    fn arith(&self, op: ArithOp, a: u64, b: u64) -> u64 {
        let (a, b) = (f64::from_bits(a), f64::from_bits(b));
        let r = match op {
            ArithOp::Add => a + b,
            ArithOp::Subtract => a - b,
            ArithOp::Multiply => a * b,
            ArithOp::Divide => a / b,
        };
        r.to_bits()
    }

    fn compare(&self, a: u64, b: u64) -> NumberOrder {
        match f64::from_bits(a).partial_cmp(&f64::from_bits(b)) {
            Some(std::cmp::Ordering::Less) => NumberOrder::Less,
            Some(std::cmp::Ordering::Equal) => NumberOrder::Equal,
            Some(std::cmp::Ordering::Greater) => NumberOrder::Greater,
            None => NumberOrder::Unordered,
        }
    }

    fn show_number(&self, n: u64) -> String {
        f64::from_bits(n).to_string()
    }

    fn clock(&self) -> u64 {
        1234.0f64.to_bits()
    }
}

struct Run {
    result: Result<(), Error>,
    output: Vec<String>,
    diagnostics: Vec<String>,
}

fn run(source: &str) -> Run {
    let mut lox = Lox::new();
    let result = lox.run(source, &Ieee);
    Run { result, output: lox.take_output(), diagnostics: lox.take_diagnostics() }
}

fn prints(source: &str) -> Vec<String> {
    let r = run(source);
    assert!(r.result.is_ok(), "the program failed: {:?}", r.diagnostics);
    r.output
}

fn runtime_error(source: &str) -> (String, String, usize) {
    match run(source).result {
        Err(Error::Runtime { token, message }) => (message, token.lexeme, token.line),
        _ => panic!("a runtime error was expected"),
    }
}

fn number(n: f64) -> Object {
    Object::Number(n.to_bits())
}

#[test]
fn prints_a_sum() {
    assert_eq!(prints("print 1 + 2;"), vec!["3"]);
}

#[test]
fn joins_strings() {
    assert_eq!(prints("var a = \"hi\"; var b = \" there\"; print a + b;"), vec!["hi there"]);
}

#[test]
fn closures_keep_their_frame() {
    assert_eq!(
        prints(
            "fun make(n) { fun add(x) { return x + n; } return add; }\n\
             var a = make(3); print a(4); print a(10);"
        ),
        vec!["7", "13"]
    );
}

#[test]
fn super_calls_the_method_of_the_superclass() {
    assert_eq!(
        prints(
            "class A { greet() { print \"A\"; } }\n\
             class B < A { greet() { super.greet(); print \"B\"; } }\n\
             B().greet();"
        ),
        vec!["A", "B"]
    );
}

#[test]
fn initializer_sets_fields() {
    assert_eq!(
        prints("class P { init(x) { this.x = x; } }\nvar p = P(42); print p.x;"),
        vec!["42"]
    );
}

#[test]
fn adding_a_number_to_a_string_fails() {
    let r = run("print \"a\" + 1;");
    assert_eq!(exit_code(&r.result), 70);
    match r.result {
        Err(Error::Runtime { token, message }) => {
            assert_eq!(message, "Operands must be two numbers or two strings.");
            assert_eq!(
                lox::error::parser_error(&token, &message),
                "[line 1] Error at '+': Operands must be two numbers or two strings."
            );
        }
        _ => panic!("a runtime error was expected"),
    }
    assert!(r.output.is_empty());
}

#[test]
fn exit_code_mapping() {
    assert_eq!(exit_code(&run("print undefined_var;").result), 70);
    assert_eq!(exit_code(&run("{").result), 65);
    assert_eq!(exit_code(&run("print 1;").result), 0);
    assert_eq!(exit_code(&run("return 1;").result), 65);
    assert_eq!(exit_code(&run("print this;").result), 65);
}

#[test]
fn undefined_variable() {
    assert_eq!(
        runtime_error("var a = 1;\nprint b;"),
        ("Undefined variable 'b'.".to_string(), "b".to_string(), 2)
    );
    assert_eq!(runtime_error("b = 1;").0, "Undefined variable 'b'.");
}

#[test]
fn arithmetic_and_comparison() {
    assert_eq!(prints("print 7 - 2 * 3;"), vec!["1"]);
    assert_eq!(prints("print 1 / 4;"), vec!["0.25"]);
    assert_eq!(prints("print 1 / 0;"), vec!["inf"]);
    assert_eq!(prints("print -(3);"), vec!["-3"]);
    assert_eq!(prints("print 1 < 2; print 2 <= 2; print 1 > 2; print 2 >= 3;"), vec!["true", "true", "false", "false"]);
    assert_eq!(prints("print (0/0) >= (0/0); print (0/0) == (0/0);"), vec!["false", "false"]);
}

#[test]
fn comparison_needs_numbers() {
    assert_eq!(runtime_error("print 1 < \"a\";").0, "Operand must be a number.");
    assert_eq!(runtime_error("print nil * 2;").0, "Operand must be a number.");
    assert_eq!(runtime_error("print -\"a\";").0, "Operand must be a number.");
}

#[test]
fn equality_across_kinds() {
    assert_eq!(
        prints("print nil == nil; print nil == false; print 1 == 1; print \"a\" == \"a\"; print 1 == \"1\"; print true != false;"),
        vec!["true", "false", "true", "true", "false", "true"]
    );
    assert_eq!(prints("fun f() {} print f == f;"), vec!["false"]);
}

#[test]
fn truthiness() {
    assert_eq!(
        prints("print !nil; print !false; print !0; print !\"\"; print !true;"),
        vec!["true", "true", "false", "false", "false"]
    );
}

#[test]
fn short_circuit() {
    assert_eq!(
        prints(
            "var n = 0; fun side_effect() { n = n + 1; return true; }\n\
             fun never() { print \"evaluated\"; return 1; }\n\
             print side_effect() or never(); print n;\n\
             print nil and never(); print false or \"x\"; print 1 and 2;"
        ),
        vec!["true", "1", "nil", "x", "2"]
    );
}

#[test]
fn control_flow() {
    assert_eq!(
        prints("var i = 0; while (i < 3) { print i; i = i + 1; } if (i == 3) print \"done\"; else print \"no\";"),
        vec!["0", "1", "2", "done"]
    );
    assert_eq!(prints("for (var i = 0; i < 3; i = i + 1) print i;"), vec!["0", "1", "2"]);
    assert_eq!(prints("if (nil) print 1; else print 2;"), vec!["2"]);
}

#[test]
fn return_unwinds_through_blocks_and_loops() {
    assert_eq!(
        prints("fun f() { var i = 0; while (true) { if (i == 2) { return i; } i = i + 1; } } print f();"),
        vec!["2"]
    );
    assert_eq!(prints("fun f() { return; } print f(); fun g() {} print g();"), vec!["nil", "nil"]);
}

#[test]
fn scopes_and_shadowing() {
    assert_eq!(
        prints("var a = 1; { var a = 2; print a; { a = 3; } print a; } print a;"),
        vec!["2", "3", "1"]
    );
    assert_eq!(
        prints("var a = \"global\"; { fun show() { print a; } show(); var a = \"block\"; show(); }"),
        vec!["global", "global"]
    );
}

#[test]
fn environment_is_restored_after_an_error() {
    let mut lox = Lox::new();
    assert!(lox.run("var a = 1; { var a = 2; print a + nil; }", &Ieee).is_err());
    assert!(lox.run("print a;", &Ieee).is_ok());
    assert_eq!(lox.take_output(), vec!["1"]);
}

#[test]
fn state_lives_across_runs() {
    let mut lox = Lox::new();
    assert!(lox.run("fun make() { var n = 0; fun next() { n = n + 1; return n; } return next; } var c = make();", &Ieee).is_ok());
    assert!(lox.run("var x = 10; { var y = 2; print c() + y; }", &Ieee).is_ok());
    assert!(lox.run("print c() + x;", &Ieee).is_ok());
    assert_eq!(lox.take_output(), vec!["3", "12"]);
}

#[test]
fn calls_check_their_target_and_arity() {
    assert_eq!(runtime_error("\"text\"();").0, "Can only call functions and classes.");
    assert_eq!(runtime_error("fun f(a, b) {} f(1);").0, "Expected 2 arguments but got 1.");
    assert_eq!(runtime_error("class P { init(x) {} } P();").0, "Expected 1 arguments but got 0.");
    assert_eq!(runtime_error("clock(1);").0, "Expected 0 arguments but got 1.");
}

#[test]
fn clock_is_what_the_host_says() {
    assert_eq!(prints("print clock();"), vec!["1234"]);
    assert_eq!(prints("print clock;"), vec!["<native func>"]);
}

#[test]
fn stringify_values() {
    assert_eq!(
        prints("fun f() {} class A {} print f; print A; print A(); print nil; print true; print \"s\"; print 2.50;"),
        vec!["<fn f>", "A", "A instance", "nil", "true", "s", "2.5"]
    );
}

#[test]
fn initializer_always_gives_the_instance() {
    assert_eq!(
        prints(
            "class P { init(x) { this.x = x; if (x) return; this.x = \"late\"; } }\n\
             print P(1).x; print P(nil).x; var p = P(7); print p.init(9).x; print p.x;"
        ),
        vec!["1", "late", "9", "9"]
    );
}

#[test]
fn methods_resolve_up_the_chain() {
    assert_eq!(
        prints(
            "class A { who() { return \"A\"; } }\n\
             class B < A { m() { return this.name; } }\n\
             class C < B {}\n\
             var c = C(); c.name = \"c\"; print c.m(); print c.who();"
        ),
        vec!["c", "A"]
    );
}

#[test]
fn fields_shadow_methods() {
    assert_eq!(
        prints("class A { m() { return 1; } } var a = A(); print a.m(); a.m = 2; print a.m;"),
        vec!["1", "2"]
    );
}

#[test]
fn property_errors() {
    assert_eq!(runtime_error("class A {} print A().x;").0, "Undefined property 'x'.");
    assert_eq!(runtime_error("var a = 1; print a.x;").0, "Only instances have properties.");
    assert_eq!(runtime_error("var a = 1; a.x = 2;").0, "Only instances have fields.");
    assert_eq!(
        runtime_error("class A {} class B < A { m() { super.n(); } } B().m();").0,
        "Undefined property 'n'."
    );
    assert_eq!(runtime_error("var A = 1; class B < A {}").0, "Superclass must be a class.");
}

#[test]
fn bound_methods_keep_this() {
    assert_eq!(
        prints("class A { init() { this.v = 5; } get() { return this.v; } } var g = A().get; print g();"),
        vec!["5"]
    );
}

#[test]
fn resolver_rules() {
    let r = run("return 1;");
    assert_eq!(r.diagnostics, vec!["[line 1] Error at 'return': Cannot return from top-level code."]);
    let r = run("class A { init() { return 1; } }");
    assert_eq!(r.diagnostics, vec!["[line 1] Error at 'return': Cannot return value from initializer."]);
    let r = run("class A { init() { return; } } print 1;");
    assert!(r.diagnostics.is_empty());
    assert_eq!(r.output, vec!["1"]);
    let r = run("print this;");
    assert_eq!(r.diagnostics, vec!["[line 1] Error at 'this': Cannot use 'this' outside of a class."]);
    let r = run("print super.m;");
    assert_eq!(r.diagnostics, vec!["[line 1] Error at 'super': Cannot use 'super' outside of a class."]);
    let r = run("class A { m() { super.m(); } }");
    assert_eq!(
        r.diagnostics,
        vec!["[line 1] Error at 'super': Cannot use 'super' in a class with no superclass."]
    );
    let r = run("class A < A {}");
    assert_eq!(r.diagnostics, vec!["[line 1] Error at 'A': A class cannot inherit from itself."]);
    let r = run("{ var a = a; }");
    assert_eq!(
        r.diagnostics,
        vec!["[line 1] Error at 'a': Cannot read local variable in its own initializer."]
    );
    let r = run("{ var a = 1; var a = 2; }");
    assert_eq!(
        r.diagnostics,
        vec!["[line 1] Error at 'a': Variable with this name already declared in this scope."]
    );
    assert!(r.output.is_empty());
}

#[test]
fn nothing_runs_after_a_static_error() {
    let r = run("print 1; return 2;");
    assert!(matches!(r.result, Err(Error::Parse)));
    assert!(r.output.is_empty());
}

#[test]
fn step_budget_ends_a_loop() {
    let mut lox = Lox::new();
    lox.set_budget(1000);
    let r = lox.run("while (true) {}", &Ieee);
    assert!(matches!(r, Err(Error::Runtime { .. })));
    lox.set_budget(1000);
    assert!(lox.run("print 1;", &Ieee).is_ok());
    assert_eq!(lox.take_output(), vec!["1"]);
}

#[test]
fn binary_operation_on_values() {
    let plus = Token::new(TokenType::Plus, "+", 1);
    match binary_operation(&plus, number(1.5), number(2.0), &Ieee) {
        Ok(Object::Number(n)) => assert_eq!(f64::from_bits(n), 3.5),
        _ => panic!("a number was expected"),
    }
    match binary_operation(&plus, Object::String("a".into()), Object::String("b".into()), &Ieee) {
        Ok(Object::String(s)) => assert_eq!(s, "ab"),
        _ => panic!("a string was expected"),
    }
    let star = Token::new(TokenType::Star, "*", 1);
    match binary_operation(&star, number(3.0), number(4.0), &Ieee) {
        Ok(Object::Number(n)) => assert_eq!(f64::from_bits(n), 12.0),
        _ => panic!("a number was expected"),
    }
    let less = Token::new(TokenType::LessEqual, "<=", 1);
    assert!(matches!(
        binary_operation(&less, number(2.0), number(2.0), &Ieee),
        Ok(Object::Boolean(true))
    ));
    let dot = Token::new(TokenType::Dot, ".", 1);
    assert!(matches!(
        binary_operation(&dot, number(2.0), number(2.0), &Ieee),
        Err(Error::Runtime { .. })
    ));
}

#[test]
fn unary_operation_on_values() {
    let minus = Token::new(TokenType::Minus, "-", 1);
    match unary_operation(&minus, number(0.0)) {
        Ok(Object::Number(n)) => {
            assert_eq!(n, (-0.0f64).to_bits());
        }
        _ => panic!("a number was expected"),
    }
    match unary_operation(&minus, number(-2.5)) {
        Ok(Object::Number(n)) => assert_eq!(f64::from_bits(n), 2.5),
        _ => panic!("a number was expected"),
    }
    let bang = Token::new(TokenType::Bang, "!", 1);
    assert!(matches!(unary_operation(&bang, Object::Null), Ok(Object::Boolean(true))));
}

#[test]
fn check_arity_words_the_error() {
    let paren = Token::new(TokenType::RightParen, ")", 4);
    assert!(check_arity(2, 2, &paren).is_ok());
    match check_arity(0, 12, &paren) {
        Err(Error::Runtime { token, message }) => {
            assert_eq!(message, "Expected 0 arguments but got 12.");
            assert_eq!(token.line, 4);
        }
        _ => panic!("an error was expected"),
    }
}

#[test]
fn execute_block_restores_the_frame() {
    let mut interpreter = Interpreter::new();
    let statements = Vec::new();
    assert!(interpreter.execute_block(&statements, 0, &Ieee).is_ok());
    assert_eq!(interpreter.globals, 0);
}
