use lox::error::Error;
use lox::parser::{desugar_for, Parser};
use lox::scanner::Scanner;
use lox::syntax::{AstPrinter, Expr, LiteralValue, Stmt};
use lox::token::{Token, TokenType};

fn parse(source: &str) -> (Vec<Stmt>, Vec<String>) {
    let mut scanner = Scanner::new(source);
    let tokens = scanner.scan_tokens();
    let mut parser = Parser::new(&tokens);
    let statements = match parser.parse() {
        Ok(statements) => statements,
        Err(_) => panic!("parse always hands the statements back"),
    };
    let reports = parser.diagnostics().clone();
    (statements, reports)
}

fn show(source: &str) -> String {
    let (statements, reports) = parse(source);
    assert_eq!(reports, Vec::<String>::new());
    assert_eq!(statements.len(), 1);
    match statements.into_iter().next().unwrap() {
        Stmt::Expression { expression } => AstPrinter.print(expression).ok().unwrap(),
        Stmt::Print { expression } => AstPrinter.print(expression).ok().unwrap(),
        _ => panic!("an expression statement was expected"),
    }
}

#[test]
fn test_parser() {
    let mut scanner = Scanner::new("-123 * 45.67");
    let tokens = scanner.scan_tokens();

    let mut parser = Parser::new(&tokens);
    let statements = match parser.parse() {
        Ok(statements) => statements,
        Err(_) => panic!("Could not parse sample code."),
    };
    assert_eq!(statements.len(), 1);
    assert!(matches!(statements[0], Stmt::Null));
    assert!(parser.had_error());
    assert_eq!(
        parser.diagnostics(),
        &vec!["[line 1] Error at end: Expect ';' after expression.".to_string()]
    );
}

#[test]
fn test_printer() {
    let expression = Expr::Binary {
        left: Box::new(Expr::Unary {
            operator: Token::new(TokenType::Minus, "-", 1),
            right: Box::new(Expr::Literal {
                value: LiteralValue::Number("123".to_string()),
            }),
        }),
        operator: Token::new(TokenType::Star, "*", 1),
        right: Box::new(Expr::Grouping {
            expression: Box::new(Expr::Literal {
                value: LiteralValue::Number("45.67".to_string()),
            }),
        }),
    };
    let mut printer = AstPrinter;

    assert_eq!(
        printer.print(expression).ok().unwrap(),
        "(* (- 123) (group 45.67))"
    );
}

#[test]
fn precedence_and_associativity() {
    assert_eq!(show("1 + 2 * 3;"), "(+ 1 (* 2 3))");
    assert_eq!(show("1 - 2 - 3;"), "(- (- 1 2) 3)");
    assert_eq!(show("-1 * (2 + 3);"), "(* (- 1) (group (+ 2 3)))");
    assert_eq!(show("1 < 2 == 3 > 4;"), "(== (< 1 2) (> 3 4))");
    assert_eq!(show("a or b and c;"), "(or a (and b c))");
    assert_eq!(show("!!true;"), "(! (! true))");
    assert_eq!(show("a = b = 3;"), "(a (b 3))");
}

#[test]
fn calls_and_properties() {
    assert_eq!(show("f(1, 2)(3);"), "(call (call f 1 2) 3)");
    assert_eq!(show("a.b.c;"), "(get (get a b) c)");
    assert_eq!(show("a.b = 1;"), "(set a b 1)");
    assert_eq!(show("this.x;"), "(get this x)");
    assert_eq!(show("super.m();"), "(call (super m))");
    assert_eq!(show("print nil;"), "null");
    assert_eq!(show("\"s\";"), "s");
}

#[test]
fn for_becomes_while() {
    let (statements, reports) = parse("for (var i = 0; i < 3; i = i + 1) print i;");
    assert!(reports.is_empty());
    assert_eq!(statements.len(), 1);
    match &statements[0] {
        Stmt::Block { statements } => {
            assert_eq!(statements.len(), 2);
            assert!(matches!(statements[0], Stmt::Var { .. }));
            match &statements[1] {
                Stmt::While { body, .. } => match &**body {
                    Stmt::Block { statements } => {
                        assert_eq!(statements.len(), 2);
                        assert!(matches!(statements[0], Stmt::Print { .. }));
                        assert!(matches!(statements[1], Stmt::Expression { .. }));
                    }
                    _ => panic!("the body and the increment stand in a block"),
                },
                _ => panic!("the loop is a while"),
            }
        }
        _ => panic!("the initializer and the loop stand in a block"),
    }
}

#[test]
fn for_without_clauses_loops_on_true() {
    let (statements, reports) = parse("for (;;) print 1;");
    assert!(reports.is_empty());
    match &statements[0] {
        Stmt::While { condition, body } => {
            assert!(matches!(
                condition,
                Expr::Literal { value: LiteralValue::Boolean(true) }
            ));
            assert!(matches!(**body, Stmt::Print { .. }));
        }
        _ => panic!("the loop is a while"),
    }
}

#[test]
fn desugar_for_builds_the_loop() {
    let body = Stmt::Print { expression: Expr::Literal { value: LiteralValue::Null } };
    let increment = Expr::Literal { value: LiteralValue::Boolean(false) };
    let r = desugar_for(None, None, Some(increment), body);
    match r {
        Stmt::While { condition, body } => {
            assert!(matches!(condition, Expr::Literal { value: LiteralValue::Boolean(true) }));
            match *body {
                Stmt::Block { statements } => {
                    assert!(matches!(statements[0], Stmt::Print { .. }));
                    assert!(matches!(
                        statements[1],
                        Stmt::Expression {
                            expression: Expr::Literal { value: LiteralValue::Boolean(false) }
                        }
                    ));
                }
                _ => panic!("a block was expected"),
            }
        }
        _ => panic!("a while was expected"),
    }
}

#[test]
fn class_with_superclass_and_methods() {
    let (statements, reports) = parse("class B < A { init(x) { this.x = x; } m() { return 1; } }");
    assert!(reports.is_empty());
    match &statements[0] {
        Stmt::Class { name, superclass, methods } => {
            assert_eq!(name.lexeme, "B");
            match superclass {
                Some(Expr::Variable { name, .. }) => assert_eq!(name.lexeme, "A"),
                _ => panic!("the superclass is a variable"),
            }
            assert_eq!(methods.len(), 2);
            assert_eq!(methods[0].name.lexeme, "init");
            assert_eq!(methods[0].params.len(), 1);
            assert_eq!(methods[1].name.lexeme, "m");
        }
        _ => panic!("a class was expected"),
    }
}

#[test]
fn errors_do_not_stop_the_parser() {
    let (statements, reports) = parse("var = 1; print 2; print ; print 3;");
    assert_eq!(
        reports,
        vec![
            "[line 1] Error at '=': Expect variable name.".to_string(),
            "[line 1] Error at ';': Expect expression.".to_string(),
        ]
    );
    assert_eq!(statements.len(), 4);
    assert!(matches!(statements[0], Stmt::Null));
    assert!(matches!(statements[1], Stmt::Print { .. }));
    assert!(matches!(statements[2], Stmt::Null));
    assert!(matches!(statements[3], Stmt::Print { .. }));
}

#[test]
fn recovery_stops_before_a_statement_keyword() {
    let (statements, reports) = parse("1 + + 2 3 print 4;");
    assert_eq!(reports.len(), 1);
    assert_eq!(statements.len(), 2);
    assert!(matches!(statements[1], Stmt::Print { .. }));
}

#[test]
fn stray_brace_is_reported() {
    let (_, reports) = parse("{");
    assert_eq!(reports, vec!["[line 1] Error at end: Expect '}' after block.".to_string()]);
}

#[test]
fn invalid_assignment_target_is_reported_and_parsing_goes_on() {
    let (statements, reports) = parse("1 = 2; print 3;");
    assert_eq!(reports, vec!["[line 1] Error at '=': Invalid assignment target.".to_string()]);
    assert_eq!(statements.len(), 2);
    assert!(matches!(statements[0], Stmt::Expression { .. }));
}

#[test]
fn lexer_errors_are_reported_with_their_own_message() {
    let (_, reports) = parse("print @;");
    assert_eq!(reports, vec!["[line 1] Error: Unexpected character.".to_string()]);
    let (_, reports) = parse("print \"abc");
    assert_eq!(reports, vec!["[line 1] Error: Unterminated string.".to_string()]);
}

#[test]
fn too_many_arguments_are_reported_but_parsed() {
    let mut source = String::from("f(");
    for i in 0..256 {
        if i > 0 {
            source.push_str(", ");
        }
        source.push_str("1");
    }
    source.push_str(");");
    let (statements, reports) = parse(&source);
    assert_eq!(
        reports,
        vec!["[line 1] Error at '1': Cannot have more than 255 arguments.".to_string()]
    );
    match &statements[0] {
        Stmt::Expression { expression: Expr::Call { arguments, .. } } => {
            assert_eq!(arguments.len(), 256)
        }
        _ => panic!("a call was expected"),
    }
    let mut source = String::from("f(");
    for i in 0..255 {
        if i > 0 {
            source.push_str(", ");
        }
        source.push_str("1");
    }
    source.push_str(");");
    let (_, reports) = parse(&source);
    assert!(reports.is_empty());
}

#[test]
fn too_many_parameters_are_reported() {
    let mut source = String::from("fun f(");
    for i in 0..256 {
        if i > 0 {
            source.push_str(", ");
        }
        source.push_str(&format!("p{}", i));
    }
    source.push_str(") {}");
    let (_, reports) = parse(&source);
    assert_eq!(
        reports,
        vec!["[line 1] Error at 'p255': Cannot have more than 255 parameters.".to_string()]
    );
}

#[test]
fn names_get_numbers_of_their_own() {
    let (statements, _) = parse("a; b = a;");
    let first = match &statements[0] {
        Stmt::Expression { expression: Expr::Variable { id, .. } } => *id,
        _ => panic!("a variable was expected"),
    };
    match &statements[1] {
        Stmt::Expression { expression: Expr::Assign { id, value, .. } } => {
            let inner = match &**value {
                Expr::Variable { id, .. } => *id,
                _ => panic!("a variable was expected"),
            };
            assert!(first != *id && first != inner && *id != inner);
        }
        _ => panic!("an assignment was expected"),
    }
}

#[test]
fn parse_error_is_its_own_kind() {
    assert!(matches!(Error::Parse, Error::Parse));
}

#[test]
fn else_belongs_to_the_nearest_if() {
    let (statements, reports) = parse("if (a) if (b) print 1; else print 2;");
    assert!(reports.is_empty());
    assert_eq!(statements.len(), 1);
    match &statements[0] {
        Stmt::If { then_branch, else_branch, .. } => {
            assert!(else_branch.is_none());
            match &**then_branch {
                Stmt::If { else_branch, .. } => {
                    assert!(matches!(**else_branch, Some(Stmt::Print { .. })));
                }
                _ => panic!("the inner statement is an if"),
            }
        }
        _ => panic!("an if statement was expected"),
    }
}

#[test]
fn for_loops_nest_in_functions() {
    let (statements, reports) =
        parse("fun f() { for (;;) { for (var i = 0; i < 2;) print i; } }");
    assert!(reports.is_empty());
    assert_eq!(statements.len(), 1);
    let declaration = match &statements[0] {
        Stmt::Function { declaration } => declaration,
        _ => panic!("a function was expected"),
    };
    assert_eq!(declaration.body.len(), 1);
    let outer = match &declaration.body[0] {
        Stmt::While { condition, body } => {
            assert!(matches!(
                condition,
                Expr::Literal { value: LiteralValue::Boolean(true) }
            ));
            body
        }
        _ => panic!("the outer loop is a while"),
    };
    match &**outer {
        Stmt::Block { statements } => {
            assert_eq!(statements.len(), 1);
            match &statements[0] {
                Stmt::Block { statements } => {
                    assert_eq!(statements.len(), 2);
                    assert!(matches!(statements[0], Stmt::Var { .. }));
                    match &statements[1] {
                        Stmt::While { body, .. } => {
                            assert!(matches!(**body, Stmt::Print { .. }))
                        }
                        _ => panic!("the inner loop is a while"),
                    }
                }
                _ => panic!("the initializer and the inner loop stand in a block"),
            }
        }
        _ => panic!("the body of the outer loop is a block"),
    }
}

fn first_report(source: &str) -> String {
    let (_, reports) = parse(source);
    assert!(!reports.is_empty(), "nothing was reported for {:?}", source);
    reports[0].clone()
}

#[test]
fn each_missing_token_has_its_message() {
    let cases = [
        ("var 1;", "[line 1] Error at '1': Expect variable name."),
        ("var a = 1", "[line 1] Error at end: Expect ';' after variable declaration."),
        ("var a", "[line 1] Error at end: Expect ';' after variable declaration."),
        ("if a) b;", "[line 1] Error at 'a': Expect '(' after 'if'."),
        ("if (a b;", "[line 1] Error at 'b': Expect ')' after if condition."),
        ("while a) b;", "[line 1] Error at 'a': Expect '(' after 'while'."),
        ("while (a b;", "[line 1] Error at 'b': Expect ')' after condition."),
        ("for a;;) b;", "[line 1] Error at 'a': Expect '(' after 'for'."),
        ("for (;a) b;", "[line 1] Error at ')': Expect ';' after loop condition."),
        ("for (;;a b;", "[line 1] Error at 'b': Expect ')' after for clauses."),
        ("for (a) b;", "[line 1] Error at ')': Expect ';' after expression."),
        ("print 1", "[line 1] Error at end: Expect ';' after value."),
        ("return 1", "[line 1] Error at end: Expect ';' after return value."),
        ("1 2;", "[line 1] Error at '2': Expect ';' after expression."),
        ("fun 1() {}", "[line 1] Error at '1': Expect function name."),
        ("fun f {}", "[line 1] Error at '{': Expect '(' after function name."),
        ("fun f(1) {}", "[line 1] Error at '1': Expect parameter name."),
        ("fun f(a {}", "[line 1] Error at '{': Expect ')' after parameters."),
        ("fun f() 1;", "[line 1] Error at '1': Expect '{' before function body."),
        ("class 1 {}", "[line 1] Error at '1': Expect class name."),
        ("class A < 1 {}", "[line 1] Error at '1': Expect superclass name."),
        ("class A 1", "[line 1] Error at '1': Expect '{' before class body."),
        ("class A { f() {}", "[line 1] Error at end: Expect '}' after class body."),
        ("class A { 1 }", "[line 1] Error at '1': Expect method name."),
        ("class A { f {} }", "[line 1] Error at '{': Expect '(' after method name."),
        ("class A { f() 1 }", "[line 1] Error at '1': Expect '{' before method body."),
        ("a.1;", "[line 1] Error at '1': Expect property after '.'."),
        ("super;", "[line 1] Error at ';': Expect '.' after 'super'."),
        ("super.1;", "[line 1] Error at '1': Expect superclass method name."),
        ("f(a;", "[line 1] Error at ';': Expect ')' after arguments."),
        ("(a;", "[line 1] Error at ';': Expect ')' after expression."),
        ("{ a;", "[line 1] Error at end: Expect '}' after block."),
        ("\n\n+;", "[line 3] Error at '+': Expect expression."),
        ("a = \"x", "[line 1] Error: Unterminated string."),
    ];
    for (source, expected) in cases {
        assert_eq!(first_report(source), expected, "for {:?}", source);
    }
}

#[test]
fn parsing_goes_on_behind_each_failed_declaration() {
    let (statements, reports) = parse("var 1; print 2; fun (; var b = 3;");
    assert_eq!(
        reports,
        vec![
            "[line 1] Error at '1': Expect variable name.".to_string(),
            "[line 1] Error at '(': Expect function name.".to_string(),
        ]
    );
    assert_eq!(statements.len(), 4);
    assert!(matches!(statements[0], Stmt::Null));
    assert!(matches!(statements[1], Stmt::Print { .. }));
    assert!(matches!(statements[2], Stmt::Null));
    assert!(matches!(statements[3], Stmt::Var { .. }));
}
