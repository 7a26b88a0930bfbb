use lox::class::{LoxClass, LoxInstance};
use lox::env::Environment;
use lox::error::Error;
use lox::function::{Function, NativeBody};
use lox::object::Object;
use lox::syntax::FunctionDeclaration;
use lox::token::{Token, TokenType};
use std::rc::Rc;

fn name(text: &str) -> Token {
    Token::new(TokenType::Identifier, text, 1)
}

fn number(n: f64) -> Object {
    Object::Number(n.to_bits())
}

fn is_number(r: Result<Object, Error>, n: f64) -> bool {
    matches!(r, Ok(Object::Number(bits)) if bits == n.to_bits())
}

fn chain() -> Vec<Environment> {
    // 0 <- 1 <- 2, with `a` in 0 and 1 and `b` in 2.
    let mut frames = vec![Environment::new(), Environment::from(0), Environment::from(1)];
    frames[0].define("a".to_string(), number(0.0));
    frames[1].define("a".to_string(), number(1.0));
    frames[2].define("b".to_string(), number(2.0));
    frames
}

fn method(name_of: &str, params: &[&str]) -> Rc<FunctionDeclaration> {
    Rc::new(FunctionDeclaration {
        name: name(name_of),
        params: params.iter().map(|p| name(p)).collect(),
        body: Vec::new(),
    })
}

#[test]
fn get_at_walks_exactly_the_distance() {
    let frames = chain();
    assert!(is_number(Environment::get_at(&frames, 2, 0, &name("b")), 2.0));
    assert!(is_number(Environment::get_at(&frames, 2, 1, &name("a")), 1.0));
    assert!(is_number(Environment::get_at(&frames, 2, 2, &name("a")), 0.0));
    // `a` is not in frame 2 itself, and `b` not one link out.
    assert!(Environment::get_at(&frames, 2, 0, &name("a")).is_err());
    assert!(Environment::get_at(&frames, 2, 1, &name("b")).is_err());
    // There is no frame three links out.
    assert!(Environment::get_at(&frames, 2, 3, &name("a")).is_err());
    assert_eq!(Environment::ancestor(&frames, 2, 2), Some(0));
    assert_eq!(Environment::ancestor(&frames, 2, 3), None);
}

#[test]
fn get_finds_the_nearest_binding() {
    let frames = chain();
    assert!(is_number(Environment::get(&frames, 2, &name("a")), 1.0));
    assert!(is_number(Environment::get(&frames, 0, &name("a")), 0.0));
    assert_eq!(Environment::find(&frames, 2, "a"), Some(1));
    match Environment::get(&frames, 1, &name("b")) {
        Err(Error::Runtime { token, message }) => {
            assert_eq!(message, "Undefined variable 'b'.");
            assert_eq!(token.lexeme, "b");
        }
        _ => panic!("an error was expected"),
    }
}

#[test]
fn assign_binds_where_the_name_is_bound() {
    let mut frames = chain();
    assert!(Environment::assign(&mut frames, 2, &name("a"), number(7.0)).is_ok());
    assert!(is_number(Environment::get_at(&frames, 2, 1, &name("a")), 7.0));
    assert!(is_number(Environment::get_at(&frames, 2, 2, &name("a")), 0.0));
    assert!(Environment::assign(&mut frames, 2, &name("c"), number(7.0)).is_err());
    assert!(Environment::assign_at(&mut frames, 2, 2, &name("c"), number(9.0)).is_ok());
    assert!(is_number(Environment::get_at(&frames, 0, 0, &name("c")), 9.0));
    assert!(Environment::assign_at(&mut frames, 2, 5, &name("c"), number(9.0)).is_err());
}

#[test]
fn value_at_and_locals() {
    let frames = chain();
    assert!(matches!(Environment::value_at(&frames, 2, 1, "a"), Some(Object::Number(_))));
    assert!(Environment::value_at(&frames, 2, 1, "b").is_none());
    assert!(frames[2].has("b") && !frames[2].has("a"));
    assert!(frames[1].get_local("b").is_none());
}

#[test]
fn find_method_goes_up_the_chain() {
    let a = LoxClass::declare(&name("A"), None, &vec![method("m", &[]), method("only_a", &["x"])], 0);
    let b = LoxClass::declare(&name("B"), Some(0), &vec![method("m", &["p", "q"])], 0);
    let c = LoxClass::declare(&name("C"), Some(1), &vec![method("init", &[])], 0);
    let classes = vec![a, b, c];
    // `m` is found on B, the nearest class that has it.
    assert_eq!(LoxClass::find_method(&classes, 2, "m").map(|f| f.arity()), Some(2));
    assert_eq!(LoxClass::find_method(&classes, 0, "m").map(|f| f.arity()), Some(0));
    assert_eq!(LoxClass::find_method(&classes, 2, "only_a").map(|f| f.arity()), Some(1));
    assert!(LoxClass::find_method(&classes, 2, "none").is_none());
    assert!(LoxClass::find_method(&classes, 1, "init").is_none());
    assert!(matches!(
        LoxClass::find_method(&classes, 2, "init"),
        Some(Function::User { is_initializer: true, .. })
    ));
    assert!(matches!(
        LoxClass::find_method(&classes, 2, "m"),
        Some(Function::User { is_initializer: false, closure: 0, .. })
    ));
    assert!(LoxClass::find_method(&classes, 7, "m").is_none());
}

#[test]
fn bind_makes_a_frame_with_this() {
    let mut frames = vec![Environment::new()];
    let function = Function::User { declaration: method("m", &[]), closure: 0, is_initializer: false };
    let bound = function.bind(Object::Instance(3), &mut frames);
    assert_eq!(frames.len(), 2);
    assert_eq!(frames[1].enclosing, Some(0));
    assert!(matches!(frames[1].get_local("this"), Some(Object::Instance(3))));
    assert!(matches!(bound, Function::User { closure: 1, .. }));
    let native = Function::Native { arity: 0, body: NativeBody::Clock };
    assert!(matches!(native.bind(Object::Null, &mut frames), Function::Native { arity: 0, .. }));
    assert_eq!(frames.len(), 2);
    assert_eq!(native.arity(), 0);
}

#[test]
fn instance_fields_come_before_methods() {
    let classes = vec![LoxClass::declare(&name("A"), None, &vec![method("m", &[])], 0)];
    let mut frames = vec![Environment::new()];
    let mut instance = LoxInstance::new(0);
    let this = Object::Instance(0);
    assert!(matches!(
        instance.get(&name("m"), &this, &classes, &mut frames),
        Ok(Object::Callable(_))
    ));
    assert_eq!(frames.len(), 2);
    instance.set(&name("m"), Object::Boolean(true));
    assert!(matches!(
        instance.get(&name("m"), &this, &classes, &mut frames),
        Ok(Object::Boolean(true))
    ));
    assert_eq!(frames.len(), 2);
    match instance.get(&name("x"), &this, &classes, &mut frames) {
        Err(Error::Runtime { message, .. }) => assert_eq!(message, "Undefined property 'x'."),
        _ => panic!("an error was expected"),
    }
}

#[test]
fn objects_are_truthy_but_nil_and_false() {
    assert!(!Object::Null.is_truthy());
    assert!(!Object::Boolean(false).is_truthy());
    assert!(Object::Boolean(true).is_truthy());
    assert!(number(0.0).is_truthy());
    assert!(Object::String(String::new()).is_truthy());
}
