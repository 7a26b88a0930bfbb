//! The tree-walking evaluator.
use vstd::prelude::*;
use vstd::hash_map::StringHashMap;
use vstd::string::*;
use std::collections::HashMap;
use std::rc::Rc;
use crate::class::{
    method_of, method_table, no_property, undefined_property, LoxClass, LoxInstance,
};
use crate::env::{
    ancestor, bound_in, got, got_at, holder, is_runtime_error, stored, undefined,
    undefined_variable, Environment,
};
use crate::error::Error;
use crate::function::{is_bound, share, Function, NativeBody};
use crate::host::{ArithOp, Host, NumberOrder};
use crate::object::Object;
use crate::syntax::{Expr, FunctionDeclaration, LiteralValue, Stmt};
use crate::text::{decimal, decimal_string};
use crate::token::{Token, TokenType, TokenView};

verus! {

broadcast use vstd::std_specs::hash::group_hash_axioms;

/// The sign bit of a double.
pub const SIGN_BIT: u64 = 0x8000_0000_0000_0000;

/// Whether a comparison with operator `tpe` holds of two numbers that
/// compare as `order` says.
pub open spec fn holds_of(tpe: TokenType, order: NumberOrder) -> bool {
    match tpe {
        TokenType::Greater => order == NumberOrder::Greater,
        TokenType::GreaterEqual => order == NumberOrder::Greater || order == NumberOrder::Equal,
        TokenType::Less => order == NumberOrder::Less,
        TokenType::LessEqual => order == NumberOrder::Less || order == NumberOrder::Equal,
        _ => false,
    }
}

/// The operation of arithmetic that an operator stands for.
pub open spec fn arith_of(tpe: TokenType) -> Option<ArithOp> {
    match tpe {
        TokenType::Plus => Some(ArithOp::Add),
        TokenType::Minus => Some(ArithOp::Subtract),
        TokenType::Star => Some(ArithOp::Multiply),
        TokenType::Slash => Some(ArithOp::Divide),
        _ => None,
    }
}

pub open spec fn is_comparison(tpe: TokenType) -> bool {
    tpe == TokenType::Greater || tpe == TokenType::GreaterEqual || tpe == TokenType::Less || tpe
        == TokenType::LessEqual
}

/// What a binary operator gives on two values. On two numbers the host
/// computes or compares; two strings are joined by `+`; `==` and `!=` never
/// fail; every other pairing is a runtime error at the operator.
pub open spec fn binary_outcome<H: Host>(
    host: &H,
    operator: Token,
    l: Object,
    r: Object,
    res: Result<Object, Error>,
) -> bool {
    let tpe = operator.tpe;
    if tpe == TokenType::EqualEqual || tpe == TokenType::BangEqual {
        match (l, r) {
            (Object::Number(a), Object::Number(b)) => exists|order: NumberOrder|
                call_ensures(H::compare, (host, a, b), order) && res == Ok::<Object, Error>(
                    Object::Boolean(l.equal_to(r, order) == (tpe == TokenType::EqualEqual)),
                ),
            _ => res == Ok::<Object, Error>(
                Object::Boolean(
                    l.equal_to(r, NumberOrder::Unordered) == (tpe == TokenType::EqualEqual),
                ),
            ),
        }
    } else if is_comparison(tpe) {
        match (l, r) {
            (Object::Number(a), Object::Number(b)) => exists|order: NumberOrder|
                call_ensures(H::compare, (host, a, b), order) && res == Ok::<Object, Error>(
                    Object::Boolean(holds_of(tpe, order)),
                ),
            _ => is_runtime_error(res, operator, "Operand must be a number."@),
        }
    } else if tpe == TokenType::Plus {
        match (l, r) {
            (Object::Number(a), Object::Number(b)) => res matches Ok(Object::Number(n))
                && call_ensures(H::arith, (host, ArithOp::Add, a, b), n),
            (Object::String(a), Object::String(b)) => res matches Ok(Object::String(s)) && s@ == a@
                + b@,
            _ => is_runtime_error(res, operator, "Operands must be two numbers or two strings."@),
        }
    } else {
        match arith_of(tpe) {
            Some(op) => match (l, r) {
                (Object::Number(a), Object::Number(b)) => res matches Ok(Object::Number(n))
                    && call_ensures(H::arith, (host, op, a, b), n),
                _ => is_runtime_error(res, operator, "Operand must be a number."@),
            },
            None => is_runtime_error(res, operator, "Unknown operator."@),
        }
    }
}

/// What a unary operator gives: `-` flips the sign of a number, `!` gives
/// the opposite of the value's truth.
pub open spec fn unary_outcome(operator: Token, right: Object, res: Result<Object, Error>) -> bool {
    match operator.tpe {
        TokenType::Minus => match right {
            Object::Number(n) => res == Ok::<Object, Error>(Object::Number(n ^ SIGN_BIT)),
            _ => is_runtime_error(res, operator, "Operand must be a number."@),
        },
        TokenType::Bang => res == Ok::<Object, Error>(Object::Boolean(!right.truthy())),
        _ => is_runtime_error(res, operator, "Unknown operator."@),
    }
}

/// Whether a logical operator is done after its left operand: `or` after a
/// true one, `and` after a false one.
pub open spec fn short_circuits(operator: TokenType, left: Object) -> bool {
    if operator == TokenType::Or {
        left.truthy()
    } else {
        !left.truthy()
    }
}

/// The message for a call with the wrong number of arguments.
pub open spec fn arity_message(expected: nat, got: nat) -> Seq<char> {
    "Expected "@ + decimal(expected) + " arguments but got "@ + decimal(got) + "."@
}

/// The runtime error `message` at `token`.
pub fn runtime_error<T>(token: &Token, message: &str) -> (r: Result<T, Error>)
    ensures
        is_runtime_error(r, *token, message@),
{
    Err(Error::Runtime { token: token.clone(), message: String::from_str(message) })
}

/// The error of a binary or unary operator on a value that is no number.
pub fn number_operand_error<T>(operator: &Token) -> (r: Result<T, Error>)
    ensures
        is_runtime_error(r, *operator, "Operand must be a number."@),
{
    runtime_error(operator, "Operand must be a number.")
}

/// Refuses a call that passes `got` arguments where `expected` are taken.
pub fn check_arity(expected: usize, got: usize, paren: &Token) -> (r: Result<(), Error>)
    ensures
        expected == got ==> r is Ok,
        expected != got ==> is_runtime_error(r, *paren, arity_message(expected as nat, got as nat)),
{
    if expected == got {
        Ok(())
    } else {
        let mut message = String::from_str("Expected ");
        message.append(decimal_string(expected).as_str());
        message.append(" arguments but got ");
        message.append(decimal_string(got).as_str());
        message.append(".");
        Err(Error::Runtime { token: paren.clone(), message })
    }
}

/// Applies a binary operator to two values.
pub fn binary_operation<H: Host>(operator: &Token, l: Object, r: Object, host: &H) -> (res: Result<
    Object,
    Error,
>)
    ensures
        binary_outcome(host, *operator, l, r, res),
{
    match operator.tpe {
        TokenType::Greater | TokenType::GreaterEqual | TokenType::Less | TokenType::LessEqual => {
            match (&l, &r) {
                (Object::Number(a), Object::Number(b)) => {
                    let order = host.compare(*a, *b);
                    let holds = match operator.tpe {
                        TokenType::Greater => order == NumberOrder::Greater,
                        TokenType::GreaterEqual => order == NumberOrder::Greater || order
                            == NumberOrder::Equal,
                        TokenType::Less => order == NumberOrder::Less,
                        _ => order == NumberOrder::Less || order == NumberOrder::Equal,
                    };
                    let res = Ok(Object::Boolean(holds));
                    assert(call_ensures(H::compare, (host, *a, *b), order) && res == Ok::<
                        Object,
                        Error,
                    >(Object::Boolean(holds_of(operator.tpe, order))));
                    res
                },
                _ => number_operand_error(operator),
            }
        },
        TokenType::Minus | TokenType::Slash | TokenType::Star => {
            match (&l, &r) {
                (Object::Number(a), Object::Number(b)) => {
                    let op = match operator.tpe {
                        TokenType::Minus => ArithOp::Subtract,
                        TokenType::Slash => ArithOp::Divide,
                        _ => ArithOp::Multiply,
                    };
                    Ok(Object::Number(host.arith(op, *a, *b)))
                },
                _ => number_operand_error(operator),
            }
        },
        TokenType::Plus => {
            match (&l, &r) {
                (Object::Number(a), Object::Number(b)) => Ok(
                    Object::Number(host.arith(ArithOp::Add, *a, *b)),
                ),
                (Object::String(a), Object::String(b)) => {
                    let mut joined = a.clone();
                    joined.append(b.as_str());
                    Ok(Object::String(joined))
                },
                _ => runtime_error(operator, "Operands must be two numbers or two strings."),
            }
        },
        TokenType::BangEqual => {
            let equal = l.equals(&r, host);
            Ok(Object::Boolean(!equal))
        },
        TokenType::EqualEqual => {
            let equal = l.equals(&r, host);
            Ok(Object::Boolean(equal))
        },
        _ => runtime_error(operator, "Unknown operator."),
    }
}

/// Applies a unary operator to a value.
pub fn unary_operation(operator: &Token, right: Object) -> (res: Result<Object, Error>)
    ensures
        unary_outcome(*operator, right, res),
{
    match operator.tpe {
        TokenType::Minus => match right {
            Object::Number(n) => Ok(Object::Number(n ^ SIGN_BIT)),
            _ => number_operand_error(operator),
        },
        TokenType::Bang => Ok(Object::Boolean(!right.is_truthy())),
        _ => runtime_error(operator, "Unknown operator."),
    }
}

/// What a literal evaluates to: a number to what the host reads in its
/// numeral, every other literal to itself.
pub open spec fn literal_outcome<H: Host>(host: &H, value: LiteralValue, r: Object) -> bool {
    match value {
        LiteralValue::Boolean(b) => r == Object::Boolean(b),
        LiteralValue::Null => r == Object::Null,
        LiteralValue::Number(text) => r matches Object::Number(n) && call_ensures(
            H::parse_number,
            (host, &text),
            n,
        ),
        LiteralValue::String(s) => r == Object::String(s),
    }
}

/// The value of a literal.
pub fn literal_value<H: Host>(value: &LiteralValue, host: &H) -> (r: Object)
    ensures
        literal_outcome(host, *value, r),
{
    match value {
        LiteralValue::Boolean(b) => Object::Boolean(*b),
        LiteralValue::Null => Object::Null,
        LiteralValue::Number(text) => Object::Number(host.parse_number(text)),
        LiteralValue::String(s) => Object::String(s.clone()),
    }
}

/// Names a state and a result on the way through an evaluation. It holds of
/// every state and result.
pub open spec fn via<A, B>(state: A, result: B) -> bool {
    true
}

/// The error of an evaluation that has no steps left.
pub open spec fn is_exhausted<T>(r: Result<T, Error>) -> bool {
    r matches Err(Error::Runtime { token, message }) && token@ == (TokenView {
        tpe: TokenType::EOF,
        lexeme: ""@,
        line: 0,
    }) && message@ == "Step budget exhausted."@
}

/// What `s1` and `r` are after the expression `e` is evaluated in `s0`: one
/// step is spent on the expression itself, and with no step left the
/// evaluation fails at once.
pub closed spec fn evaluates<H: Host>(
    host: &H,
    s0: Interpreter,
    e: Expr,
    s1: Interpreter,
    r: Result<Object, Error>,
) -> bool
    decreases s0.budget(), 0int,
{
    if s0.fuel == 0 {
        s1 == s0 && is_exhausted(r)
    } else {
        visits(host, s0.spent(), e, s1, r)
    }
}

/// What the first `n` of the expressions give when they are evaluated in
/// order from `s` on: their values, or the first error.
pub closed spec fn evaluates_first<H: Host>(
    host: &H,
    s: Interpreter,
    es: Seq<Expr>,
    n: nat,
    s1: Interpreter,
    r: Result<Seq<Object>, Error>,
) -> bool
    decreases s.budget(), 1int, n,
{
    if n == 0 || n > es.len() {
        s1 == s && r == Ok::<Seq<Object>, Error>(Seq::empty())
    } else {
        exists|k: nat, m: Interpreter, v: Result<Seq<Object>, Error>| #[trigger]
            via((k, m), v) && k + 1 == n && evaluates_first(host, s, es, k, m, v) && m.fuel
                <= s.fuel && match v {
                Err(x) => s1 == m && r == Err::<Seq<Object>, Error>(x),
                Ok(values) => exists|v2: Result<Object, Error>| #[trigger]
                    via(s1, v2) && evaluates(host, m, es[k as int], s1, v2) && match v2 {
                        Err(x) => r == Err::<Seq<Object>, Error>(x),
                        Ok(value) => r == Ok::<Seq<Object>, Error>(values.push(value)),
                    },
            }
    }
}

/// A unary operator: the operand is evaluated, then the operator applied.
pub closed spec fn unary_rel<H: Host>(
    host: &H,
    s: Interpreter,
    operator: Token,
    right: Expr,
    s1: Interpreter,
    r: Result<Object, Error>,
) -> bool
    decreases s.budget(), 6int,
{
    exists|v: Result<Object, Error>| #[trigger]
        via(s1, v) && evaluates(host, s, right, s1, v) && match v {
            Err(x) => r == Err::<Object, Error>(x),
            Ok(value) => unary_outcome(operator, value, r),
        }
}

/// A binary operator: the left operand is evaluated, then the right, then
/// the operator applied. The first error ends the evaluation.
pub closed spec fn binary_rel<H: Host>(
    host: &H,
    s: Interpreter,
    left: Expr,
    operator: Token,
    right: Expr,
    s1: Interpreter,
    r: Result<Object, Error>,
) -> bool
    decreases s.budget(), 6int,
{
    exists|m: Interpreter, v: Result<Object, Error>| #[trigger]
        via(m, v) && evaluates(host, s, left, m, v) && m.fuel <= s.fuel && match v {
            Err(x) => s1 == m && r == Err::<Object, Error>(x),
            Ok(l) => exists|v2: Result<Object, Error>| #[trigger]
                via(s1, v2) && evaluates(host, m, right, s1, v2) && match v2 {
                    Err(x) => r == Err::<Object, Error>(x),
                    Ok(rr) => binary_outcome(host, operator, l, rr, r),
                },
        }
}

/// A logical operator: the left operand is evaluated; where the operator
/// is done with it, it is the result and nothing more happens; else the
/// result is that of the right operand.
pub closed spec fn logical_rel<H: Host>(
    host: &H,
    s: Interpreter,
    left: Expr,
    operator: Token,
    right: Expr,
    s1: Interpreter,
    r: Result<Object, Error>,
) -> bool
    decreases s.budget(), 6int,
{
    exists|m: Interpreter, v: Result<Object, Error>| #[trigger]
        via(m, v) && evaluates(host, s, left, m, v) && m.fuel <= s.fuel && match v {
            Err(x) => s1 == m && r == Err::<Object, Error>(x),
            Ok(l) => if short_circuits(operator.tpe, l) {
                s1 == m && r == Ok::<Object, Error>(l)
            } else {
                evaluates(host, m, right, s1, r)
            },
        }
}

/// An assignment: the value is evaluated and then bound to the name, in
/// the frame at the recorded distance or, for a global, in the nearest frame
/// from the outermost that binds the name. The value is the result.
pub closed spec fn assign_rel<H: Host>(
    host: &H,
    s: Interpreter,
    id: usize,
    name: Token,
    value: Expr,
    s1: Interpreter,
    r: Result<Object, Error>,
) -> bool
    decreases s.budget(), 6int,
{
    exists|m: Interpreter, v: Result<Object, Error>| #[trigger]
        via(m, v) && evaluates(host, s, value, m, v) && match v {
            Err(x) => s1 == m && r == Err::<Object, Error>(x),
            Ok(given) => s1.same_but_frames(&m) && stored(
                s1.environments@,
                m.environments@,
                m.target(id, name),
                name,
                given,
                r,
            ) && (r is Ok ==> r == Ok::<Object, Error>(given)),
        }
}

/// A property read: the object is evaluated, then the property taken.
pub closed spec fn get_rel<H: Host>(
    host: &H,
    s: Interpreter,
    object: Expr,
    name: Token,
    s1: Interpreter,
    r: Result<Object, Error>,
) -> bool
    decreases s.budget(), 6int,
{
    exists|m: Interpreter, v: Result<Object, Error>| #[trigger]
        via(m, v) && evaluates(host, s, object, m, v) && match v {
            Err(x) => s1 == m && r == Err::<Object, Error>(x),
            Ok(target) => property_got(m, target, name, s1, r),
        }
}

/// A property write: the object is evaluated; if it is an instance, the
/// value is evaluated and the field set. The instance is the result.
pub closed spec fn set_rel<H: Host>(
    host: &H,
    s: Interpreter,
    object: Expr,
    name: Token,
    value: Expr,
    s1: Interpreter,
    r: Result<Object, Error>,
) -> bool
    decreases s.budget(), 6int,
{
    exists|m: Interpreter, v: Result<Object, Error>| #[trigger]
        via(m, v) && evaluates(host, s, object, m, v) && m.fuel <= s.fuel && match v {
            Err(x) => s1 == m && r == Err::<Object, Error>(x),
            Ok(Object::Instance(i)) => exists|m2: Interpreter, v2: Result<Object, Error>| #[trigger]
                via(m2, v2) && evaluates(host, m, value, m2, v2) && match v2 {
                    Err(x) => s1 == m2 && r == Err::<Object, Error>(x),
                    Ok(given) => property_set(m2, i, name, given, s1, r),
                },
            Ok(_) => s1 == m && is_runtime_error(r, name, "Only instances have fields."@),
        }
}

/// A call: the callee is evaluated, then the arguments in order, then the
/// callee is called with them.
pub closed spec fn call_rel<H: Host>(
    host: &H,
    s: Interpreter,
    callee: Expr,
    paren: Token,
    arguments: Seq<Expr>,
    s1: Interpreter,
    r: Result<Object, Error>,
) -> bool
    decreases s.budget(), 6int,
{
    exists|m: Interpreter, v: Result<Object, Error>| #[trigger]
        via(m, v) && evaluates(host, s, callee, m, v) && m.fuel <= s.fuel && match v {
            Err(x) => s1 == m && r == Err::<Object, Error>(x),
            Ok(target) => exists|m2: Interpreter, v2: Result<Seq<Object>, Error>| #[trigger]
                via(m2, v2) && evaluates_first(host, m, arguments, arguments.len(), m2, v2)
                    && m2.fuel <= s.fuel && match v2 {
                    Err(x) => s1 == m2 && r == Err::<Object, Error>(x),
                    Ok(values) => called(host, m2, target, paren, values, s1, r),
                },
        }
}

/// What `s1` and `r` are after the expression `e` is evaluated in `s`, the
/// step for the expression itself already spent.
pub closed spec fn visits<H: Host>(
    host: &H,
    s: Interpreter,
    e: Expr,
    s1: Interpreter,
    r: Result<Object, Error>,
) -> bool
    decreases s.budget(), 7int,
{
    match e {
        Expr::Assign { id, name, value } => assign_rel(host, s, id, name, *value, s1, r),
        Expr::Binary { left, operator, right } => binary_rel(
            host,
            s,
            *left,
            operator,
            *right,
            s1,
            r,
        ),
        Expr::Call { callee, paren, arguments } => call_rel(
            host,
            s,
            *callee,
            paren,
            arguments@,
            s1,
            r,
        ),
        Expr::Get { object, name } => get_rel(host, s, *object, name, s1, r),
        Expr::Grouping { expression } => evaluates(host, s, *expression, s1, r),
        Expr::Literal { value } => s1 == s && (r matches Ok(v) && literal_outcome(host, value, v)),
        Expr::Logical { left, operator, right } => logical_rel(
            host,
            s,
            *left,
            operator,
            *right,
            s1,
            r,
        ),
        Expr::SetProperty { object, name, value } => set_rel(host, s, *object, name, *value, s1, r),
        Expr::Super { id, keyword, method } => super_got(s, id, keyword, method, s1, r),
        Expr::This { id, keyword } => s1 == s && looked_up(s, id, keyword, r),
        Expr::Unary { operator, right } => unary_rel(host, s, operator, *right, s1, r),
        Expr::Variable { id, name } => s1 == s && looked_up(s, id, name, r),
    }
}

/// Once one of the expressions has failed, the rest are not evaluated: the
/// error and the state stand for all of them.
pub proof fn lemma_first_fails<H: Host>(
    host: &H,
    s: Interpreter,
    es: Seq<Expr>,
    n: nat,
    s1: Interpreter,
    x: Error,
)
    requires
        n <= es.len(),
        s1.budget() <= s.budget(),
        evaluates_first(host, s, es, n, s1, Err(x)),
    ensures
        evaluates_first(host, s, es, es.len(), s1, Err(x)),
    decreases es.len() - n,
{
    if n < es.len() {
        assert(via((n, s1), Err::<Seq<Object>, Error>(x)));
        assert(evaluates_first(host, s, es, n + 1, s1, Err(x)));
        lemma_first_fails(host, s, es, n + 1, s1, x);
    }
}

/// What reading the variable that the expression numbered `id` names
/// gives: the value in the frame at the recorded distance, if one was
/// recorded, else the value in the nearest frame from the outermost.
pub closed spec fn looked_up(s: Interpreter, id: usize, name: Token, r: Result<Object, Error>) -> bool {
    match s.locals@.get(id) {
        Some(distance) => got_at(s.environments@, s.environment as int, distance as nat, name, r),
        None => got(s.environments@, s.globals as int, name, r),
    }
}

/// What taking the property `name` of `target` gives: a field of an
/// instance, else a method of its class bound to the instance in a new
/// frame; an error for what is no instance or has no such property.
pub closed spec fn property_got(
    s: Interpreter,
    target: Object,
    name: Token,
    s1: Interpreter,
    r: Result<Object, Error>,
) -> bool {
    &&& s1.same_but_frames(&s)
    &&& match target {
        Object::Instance(i) => if i < s.instances@.len() {
            let instance = s.instances@[i as int];
            if instance.fields@.contains_key(name.lexeme@) {
                &&& r == Ok::<Object, Error>(instance.fields@[name.lexeme@])
                &&& s1.environments@ == s.environments@
            } else {
                match method_of(s.classes@, instance.class as int, name.lexeme@) {
                    Some(method) => r matches Ok(Object::Callable(f)) && is_bound(
                        f,
                        method,
                        target,
                        s.environments@,
                        s1.environments@,
                    ),
                    None => is_runtime_error(r, name, undefined_property(name.lexeme@))
                        && s1.environments@ == s.environments@,
                }
            }
        } else {
            is_runtime_error(r, name, undefined_property(name.lexeme@)) && s1.environments@
                == s.environments@
        },
        _ => is_runtime_error(r, name, "Only instances have properties."@) && s1.environments@
            == s.environments@,
    }
}

/// What setting the field `name` of the instance numbered `i` gives: the
/// instance has the field, and the instance is the result.
pub closed spec fn property_set(
    s: Interpreter,
    i: usize,
    name: Token,
    value: Object,
    s1: Interpreter,
    r: Result<Object, Error>,
) -> bool {
    &&& s1.same_but_instances(&s)
    &&& if i < s.instances@.len() {
        &&& r == Ok::<Object, Error>(Object::Instance(i))
        &&& s1.instances@.len() == s.instances@.len()
        &&& s1.instances@[i as int].class == s.instances@[i as int].class
        &&& s1.instances@[i as int].fields@ == s.instances@[i as int].fields@.insert(
            name.lexeme@,
            value,
        )
        &&& forall|j: int|
            0 <= j < s.instances@.len() && j != i ==> (#[trigger] s1.instances@[j])
                == s.instances@[j]
    } else {
        is_runtime_error(r, name, "Only instances have fields."@) && s1.instances@ == s.instances@
    }
}

/// What `super.method` gives: the method of the superclass, which is bound
/// as `super` in the frame at the recorded distance, bound to the instance,
/// which is bound as `this` in the frame one link nearer.
pub closed spec fn super_got(
    s: Interpreter,
    id: usize,
    keyword: Token,
    method: Token,
    s1: Interpreter,
    r: Result<Object, Error>,
) -> bool {
    let frames = s.environments@;
    let found = match s.locals@.get(id) {
        Some(d) => if d >= 1 {
            match (
                ancestor(frames, s.environment as int, d as nat),
                ancestor(frames, s.environment as int, (d - 1) as nat),
            ) {
                (Some(a), Some(b)) => if frames[a].bindings().contains_key("super"@)
                    && frames[b].bindings().contains_key("this"@) {
                    Some((frames[a].bindings()["super"@], frames[b].bindings()["this"@]))
                } else {
                    None
                },
                _ => None,
            }
        } else {
            None
        },
        None => None,
    };
    &&& s1.same_but_frames(&s)
    &&& match found {
        Some((Object::Class(class), instance)) => match method_of(
            s.classes@,
            class as int,
            method.lexeme@,
        ) {
            Some(m) => r matches Ok(Object::Callable(f)) && is_bound(
                f,
                m,
                instance,
                frames,
                s1.environments@,
            ),
            None => is_runtime_error(r, method, undefined_property(method.lexeme@))
                && s1.environments@ == frames,
        },
        Some(_) => is_runtime_error(r, method, undefined_property(method.lexeme@))
            && s1.environments@ == frames,
        None => is_runtime_error(r, keyword, undefined_variable(keyword.lexeme@))
            && s1.environments@ == frames,
    }
}

/// What calling `target` with `values` gives: a function is called if it
/// takes that many arguments, a class gives a new instance, and nothing
/// else can be called.
pub closed spec fn called<H: Host>(
    host: &H,
    s: Interpreter,
    target: Object,
    paren: Token,
    values: Seq<Object>,
    s1: Interpreter,
    r: Result<Object, Error>,
) -> bool
    decreases s.budget(), 5int,
{
    match target {
        Object::Callable(f) => if f.spec_arity() != values.len() {
            s1 == s && is_runtime_error(r, paren, arity_message(f.spec_arity(), values.len()))
        } else {
            function_called(host, s, f, values, s1, r)
        },
        Object::Class(c) => instantiated(host, s, c, paren, values, s1, r),
        _ => s1 == s && is_runtime_error(r, paren, "Can only call functions and classes."@),
    }
}

/// The variables of the frame of a call: the first `n` parameters, each
/// bound to its argument.
pub open spec fn params_bound(params: Seq<Token>, values: Seq<Object>, n: nat) -> Map<
    Seq<char>,
    Object,
>
    decreases n,
{
    if n == 0 || n > params.len() || n > values.len() {
        Map::empty()
    } else {
        params_bound(params, values, (n - 1) as nat).insert(params[n - 1].lexeme@, values[n - 1])
    }
}

/// The lesser of two numbers.
pub open spec fn lesser(a: nat, b: nat) -> nat {
    if a <= b {
        a
    } else {
        b
    }
}

/// The error of an initializer whose frame holds no `this`.
pub open spec fn is_thisless(r: Result<Object, Error>) -> bool {
    r matches Err(Error::Runtime { token, message }) && token@ == (TokenView {
        tpe: TokenType::This,
        lexeme: "this"@,
        line: 0,
    }) && message@ == undefined_variable("this"@)
}

/// What a call of the function `f` with `values` gives. A native function
/// asks the host. A function of the program runs its body in a new frame
/// inside the frame of its declaration, with its parameters bound to the
/// arguments; its value is what a `return` carried, `nil` without one, and
/// for an initializer always what `this` is in the frame of its declaration.
pub closed spec fn function_called<H: Host>(
    host: &H,
    s: Interpreter,
    f: Function,
    values: Seq<Object>,
    s1: Interpreter,
    r: Result<Object, Error>,
) -> bool
    decreases s.budget(), 3int,
{
    match f {
        Function::Native { .. } => s1 == s && (r matches Ok(Object::Number(n)) && call_ensures(
            H::clock,
            (host,),
            n,
        )),
        Function::User { declaration, closure, is_initializer } => exists|
            m: Interpreter,
            v: Result<(), Error>,
        | #[trigger]
            via(m, v) && m.framed(
                &s,
                closure,
                params_bound(
                    declaration.params@,
                    values,
                    lesser(declaration.params@.len(), values.len()),
                ),
            ) && block_runs(
                host,
                m,
                declaration.body@,
                s.environments@.len() as usize,
                s1,
                v,
            ) && match v {
                Err(Error::Return { value }) => if is_initializer {
                    this_of(s1, closure, r)
                } else {
                    r == Ok::<Object, Error>(value)
                },
                Err(other) => r == Err::<Object, Error>(other),
                Ok(_) => if is_initializer {
                    this_of(s1, closure, r)
                } else {
                    r == Ok::<Object, Error>(Object::Null)
                },
            },
    }
}

/// What an initializer gives: what `this` is in the frame `closure`.
pub closed spec fn this_of(s: Interpreter, closure: usize, r: Result<Object, Error>) -> bool {
    if closure < s.environments@.len() && s.environments@[closure as int].bindings().contains_key(
        "this"@,
    ) {
        r == Ok::<Object, Error>(s.environments@[closure as int].bindings()["this"@])
    } else {
        is_thisless(r)
    }
}

/// What calling the class numbered `class` gives: a new instance of it; if
/// the class offers an initializer, it must take as many arguments as are
/// given, and is run bound to the instance. The instance is the result,
/// whatever the initializer returns.
pub closed spec fn instantiated<H: Host>(
    host: &H,
    s: Interpreter,
    class: usize,
    paren: Token,
    values: Seq<Object>,
    s1: Interpreter,
    r: Result<Object, Error>,
) -> bool
    decreases s.budget(), 4int,
{
    let made = Object::Instance(s.instances@.len() as usize);
    exists|m: Interpreter| #[trigger]
        via(m, class) && m.instance_added(&s, class) && match method_of(
            m.classes@,
            class as int,
            "init"@,
        ) {
            None => s1 == m && r == Ok::<Object, Error>(made),
            Some(init) => if init.spec_arity() != values.len() {
                s1 == m && is_runtime_error(
                    r,
                    paren,
                    arity_message(init.spec_arity(), values.len()),
                )
            } else {
                exists|m2: Interpreter, bound: Function, v: Result<Object, Error>| #[trigger]
                    via((m2, bound), v) && m2.same_but_frames(&m) && is_bound(
                        bound,
                        init,
                        made,
                        m.environments@,
                        m2.environments@,
                    ) && function_called(host, m2, bound, values, s1, v) && match v {
                        Ok(_) => r == Ok::<Object, Error>(made),
                        Err(x) => r == Err::<Object, Error>(x),
                    }
            },
        }
}

/// What `s1` and `r` are after the statement is executed in `s0`: one step
/// is spent on the statement itself, and with no step left the execution
/// fails at once.
pub closed spec fn executes<H: Host>(
    host: &H,
    s0: Interpreter,
    stmt: Stmt,
    s1: Interpreter,
    r: Result<(), Error>,
) -> bool
    decreases s0.budget(), 0int,
{
    if s0.fuel == 0 {
        s1 == s0 && is_exhausted(r)
    } else {
        performs(host, s0.spent(), stmt, s1, r)
    }
}

/// What the first `n` of the statements give when they are executed in
/// order from `s` on: the first failure ends the run.
pub closed spec fn runs<H: Host>(
    host: &H,
    s: Interpreter,
    stmts: Seq<Stmt>,
    n: nat,
    s1: Interpreter,
    r: Result<(), Error>,
) -> bool
    decreases s.budget(), 1int, n,
{
    if n == 0 || n > stmts.len() {
        s1 == s && r == Ok::<(), Error>(())
    } else {
        exists|k: nat, m: Interpreter, v: Result<(), Error>| #[trigger]
            via((k, m), v) && k + 1 == n && runs(host, s, stmts, k, m, v) && m.fuel <= s.fuel
                && match v {
                Err(x) => s1 == m && r == Err::<(), Error>(x),
                Ok(_) => executes(host, m, stmts[k as int], s1, r),
            }
    }
}

/// What running the statements in the frame `env` gives: they run with
/// that frame as the current one, and afterwards the frame that was current
/// is current again, however they ended.
pub closed spec fn block_runs<H: Host>(
    host: &H,
    s: Interpreter,
    stmts: Seq<Stmt>,
    env: usize,
    s1: Interpreter,
    r: Result<(), Error>,
) -> bool
    decreases s.budget(), 2int,
{
    exists|m: Interpreter| #[trigger]
        via(m, r) && runs(host, s.entered(env), stmts, stmts.len(), m, r) && s1 == m.entered(
            s.environment,
        )
}

/// A block: its statements run in a new frame inside the current one.
pub closed spec fn block_rel<H: Host>(
    host: &H,
    s: Interpreter,
    stmts: Seq<Stmt>,
    s1: Interpreter,
    r: Result<(), Error>,
) -> bool
    decreases s.budget(), 6int,
{
    exists|m: Interpreter| #[trigger]
        via(m, r) && m.framed(&s, s.environment, Map::empty()) && block_runs(
            host,
            m,
            stmts,
            s.environments@.len() as usize,
            s1,
            r,
        )
}

/// An `if` statement: the condition is evaluated, then the branch that it
/// chooses is executed, if there is one.
pub closed spec fn if_rel<H: Host>(
    host: &H,
    s: Interpreter,
    condition: Expr,
    else_branch: Option<Stmt>,
    then_branch: Stmt,
    s1: Interpreter,
    r: Result<(), Error>,
) -> bool
    decreases s.budget(), 6int,
{
    exists|m: Interpreter, v: Result<Object, Error>| #[trigger]
        via(m, v) && evaluates(host, s, condition, m, v) && m.fuel <= s.fuel && match v {
            Err(x) => s1 == m && r == Err::<(), Error>(x),
            Ok(chosen) => if chosen.truthy() {
                executes(host, m, then_branch, s1, r)
            } else {
                match else_branch {
                    Some(other) => executes(host, m, other, s1, r),
                    None => s1 == m && r == Ok::<(), Error>(()),
                }
            },
        }
}

/// `m` is the state after `k` rounds of a loop that began in `s`: in each
/// round the condition was true and the body ran to its end.
pub closed spec fn rounds<H: Host>(
    host: &H,
    s: Interpreter,
    condition: Expr,
    body: Stmt,
    k: nat,
    m: Interpreter,
) -> bool
    decreases s.budget(), 5int, k,
{
    if k == 0 {
        m == s
    } else {
        exists|j: nat, a: Interpreter, b: Interpreter, chosen: Object| #[trigger]
            via((j, a), (b, chosen)) && j + 1 == k && rounds(host, s, condition, body, j, a)
                && a.fuel <= s.fuel && evaluates(host, a, condition, b, Ok(chosen)) && b.fuel
                <= s.fuel && chosen.truthy() && executes(host, b, body, m, Ok(()))
    }
}

/// A loop: after some rounds the condition is false or fails, or the body
/// fails.
pub closed spec fn while_rel<H: Host>(
    host: &H,
    s: Interpreter,
    condition: Expr,
    body: Stmt,
    s1: Interpreter,
    r: Result<(), Error>,
) -> bool
    decreases s.budget(), 6int,
{
    exists|k: nat, a: Interpreter, b: Interpreter, v: Result<Object, Error>| #[trigger]
        via((k, a), (b, v)) && rounds(host, s, condition, body, k, a) && a.fuel <= s.fuel
            && evaluates(host, a, condition, b, v) && b.fuel <= s.fuel && match v {
            Err(x) => s1 == b && r == Err::<(), Error>(x),
            Ok(chosen) => if chosen.truthy() {
                r is Err && executes(host, b, body, s1, r)
            } else {
                s1 == b && r == Ok::<(), Error>(())
            },
        }
}

/// What `print` shows for a value: a number as the host shows it, a class
/// by its name, an instance by the name of its class, a function by its
/// name.
pub closed spec fn stringified<H: Host>(host: &H, s: Interpreter, object: Object, r: String) -> bool {
    match object {
        Object::Boolean(b) => r@ == (if b {
            "true"@
        } else {
            "false"@
        }),
        Object::Class(c) => r@ == (if c < s.classes@.len() {
            s.classes@[c as int].name@
        } else {
            "<class>"@
        }),
        Object::Callable(Function::Native { .. }) => r@ == "<native func>"@,
        Object::Callable(Function::User { declaration, .. }) => r@ == "<fn "@
            + declaration.name.lexeme@ + ">"@,
        Object::Instance(i) => r@ == (if i < s.instances@.len() && s.instances@[i as int].class
            < s.classes@.len() {
            s.classes@[s.instances@[i as int].class as int].name@ + " instance"@
        } else {
            "<instance>"@
        }),
        Object::Null => r@ == "nil"@,
        Object::Number(n) => call_ensures(H::show_number, (host, n), r),
        Object::String(text) => r@ == text@,
    }
}

/// A `print` statement: the value is evaluated, and what shows it is
/// printed.
pub closed spec fn print_rel<H: Host>(
    host: &H,
    s: Interpreter,
    expression: Expr,
    s1: Interpreter,
    r: Result<(), Error>,
) -> bool
    decreases s.budget(), 6int,
{
    exists|m: Interpreter, v: Result<Object, Error>| #[trigger]
        via(m, v) && evaluates(host, s, expression, m, v) && match v {
            Err(x) => s1 == m && r == Err::<(), Error>(x),
            Ok(value) => r == Ok::<(), Error>(()) && s1.printed_after(&m) && stringified(
                host,
                m,
                value,
                s1.output@.last(),
            ),
        }
}

/// A variable declaration: the variable is bound in the current frame to
/// the value of its initializer, to `nil` where there is none.
pub closed spec fn var_rel<H: Host>(
    host: &H,
    s: Interpreter,
    name: Token,
    initializer: Option<Expr>,
    s1: Interpreter,
    r: Result<(), Error>,
) -> bool
    decreases s.budget(), 6int,
{
    match initializer {
        None => r == Ok::<(), Error>(()) && s1.same_but_frames(&s) && bound_in(
            s1.environments@,
            s.environments@,
            s.environment as int,
            name.lexeme@,
            Object::Null,
        ),
        Some(given) => exists|m: Interpreter, v: Result<Object, Error>| #[trigger]
            via(m, v) && evaluates(host, s, given, m, v) && match v {
                Err(x) => s1 == m && r == Err::<(), Error>(x),
                Ok(value) => r == Ok::<(), Error>(()) && s1.same_but_frames(&m) && bound_in(
                    s1.environments@,
                    m.environments@,
                    m.environment as int,
                    name.lexeme@,
                    value,
                ),
            },
    }
}

/// A `return` statement: the value, `nil` where there is none, goes back
/// to the call as `Error::Return`.
pub closed spec fn return_rel<H: Host>(
    host: &H,
    s: Interpreter,
    value: Option<Expr>,
    s1: Interpreter,
    r: Result<(), Error>,
) -> bool
    decreases s.budget(), 6int,
{
    match value {
        None => s1 == s && r == Err::<(), Error>(Error::Return { value: Object::Null }),
        Some(given) => exists|v: Result<Object, Error>| #[trigger]
            via(s1, v) && evaluates(host, s, given, s1, v) && match v {
                Err(x) => r == Err::<(), Error>(x),
                Ok(value) => r == Err::<(), Error>(Error::Return { value }),
            },
    }
}

/// An expression as a statement: it is evaluated, and its value dropped.
pub closed spec fn expression_rel<H: Host>(
    host: &H,
    s: Interpreter,
    expression: Expr,
    s1: Interpreter,
    r: Result<(), Error>,
) -> bool
    decreases s.budget(), 6int,
{
    exists|v: Result<Object, Error>| #[trigger]
        via(s1, v) && evaluates(host, s, expression, s1, v) && match v {
            Err(x) => r == Err::<(), Error>(x),
            Ok(_) => r == Ok::<(), Error>(()),
        }
}

/// A class declaration once its superclass is known: the class stands
/// behind the classes made so far, with its methods closed over the frame of
/// the declaration, or, where there is a superclass, over a new frame inside
/// it that holds `super`; and the name is bound to the class in the frame of
/// the declaration.
pub closed spec fn class_made(
    s: Interpreter,
    name: Token,
    superclass: Option<usize>,
    methods: Seq<Rc<FunctionDeclaration>>,
    s1: Interpreter,
) -> bool {
    let made = s.classes@.len() as int;
    let at = s.environment as int;
    let frames = s.environments@;
    &&& s1.same_but_frames_and_classes(&s)
    &&& s1.classes@.len() == made + 1
    &&& s1.classes@.subrange(0, made) =~= s.classes@
    &&& s1.classes@[made].name@ == name.lexeme@
    &&& s1.classes@[made].superclass == superclass
    &&& match superclass {
        None => {
            &&& s1.classes@[made].methods@ == method_table(methods, s.environment, methods.len())
            &&& bound_in(s1.environments@, frames, at, name.lexeme@, Object::Class(made as usize))
        },
        Some(parent) => {
            &&& s1.classes@[made].methods@ == method_table(
                methods,
                frames.len() as usize,
                methods.len(),
            )
            &&& s1.environments@.len() == frames.len() + 1
            &&& bound_in(
                s1.environments@.subrange(0, frames.len() as int),
                frames,
                at,
                name.lexeme@,
                Object::Class(made as usize),
            )
            &&& s1.environments@.last().enclosing == Some(s.environment)
            &&& s1.environments@.last().bindings() == Map::<Seq<char>, Object>::empty().insert(
                "super"@,
                Object::Class(parent),
            )
        },
    }
}

/// A class declaration: the superclass, if one is named, is evaluated
/// first and must be a class.
pub closed spec fn class_rel<H: Host>(
    host: &H,
    s: Interpreter,
    name: Token,
    superclass: Option<Expr>,
    methods: Seq<Rc<FunctionDeclaration>>,
    s1: Interpreter,
    r: Result<(), Error>,
) -> bool
    decreases s.budget(), 6int,
{
    match superclass {
        None => r == Ok::<(), Error>(()) && class_made(s, name, None, methods, s1),
        Some(named) => exists|m: Interpreter, v: Result<Object, Error>| #[trigger]
            via(m, v) && evaluates(host, s, named, m, v) && match v {
                Err(x) => s1 == m && r == Err::<(), Error>(x),
                Ok(Object::Class(parent)) => r == Ok::<(), Error>(()) && class_made(
                    m,
                    name,
                    Some(parent),
                    methods,
                    s1,
                ),
                Ok(_) => s1 == m && is_runtime_error(
                    r,
                    match named {
                        Expr::Variable { name: parent, .. } => parent,
                        _ => name,
                    },
                    "Superclass must be a class."@,
                ),
            },
    }
}

/// What `s1` and `r` are after the statement is executed in `s`, the step
/// for the statement itself already spent.
pub closed spec fn performs<H: Host>(
    host: &H,
    s: Interpreter,
    stmt: Stmt,
    s1: Interpreter,
    r: Result<(), Error>,
) -> bool
    decreases s.budget(), 7int,
{
    match stmt {
        Stmt::Block { statements } => block_rel(host, s, statements@, s1, r),
        Stmt::Class { name, superclass, methods } => class_rel(
            host,
            s,
            name,
            superclass,
            methods@,
            s1,
            r,
        ),
        Stmt::Expression { expression } => expression_rel(host, s, expression, s1, r),
        Stmt::Function { declaration } => r == Ok::<(), Error>(()) && s1.same_but_frames(&s)
            && bound_in(
            s1.environments@,
            s.environments@,
            s.environment as int,
            declaration.name.lexeme@,
            Object::Callable(
                Function::User { declaration, closure: s.environment, is_initializer: false },
            ),
        ),
        Stmt::If { condition, else_branch, then_branch } => if_rel(
            host,
            s,
            condition,
            *else_branch,
            *then_branch,
            s1,
            r,
        ),
        Stmt::Print { expression } => print_rel(host, s, expression, s1, r),
        Stmt::Return { value, .. } => return_rel(host, s, value, s1, r),
        Stmt::Var { name, initializer } => var_rel(host, s, name, initializer, s1, r),
        Stmt::While { condition, body } => while_rel(host, s, condition, *body, s1, r),
        Stmt::Null => s1 == s && r == Ok::<(), Error>(()),
    }
}

/// A result that is `Ok` and carries nothing is `Ok(())`.
pub proof fn lemma_unit_ok(r: Result<(), Error>)
    requires
        r is Ok,
    ensures
        r == Ok::<(), Error>(()),
{
    assert(r->Ok_0 == ());
}

/// However the statements of a block end, with their last statement, with an
/// error or with a `return`, the frame that was current before them is
/// current again after them.
pub proof fn lemma_block_restores<H: Host>(
    host: &H,
    s: Interpreter,
    stmts: Seq<Stmt>,
    env: usize,
    s1: Interpreter,
    r: Result<(), Error>,
)
    requires
        block_runs(host, s, stmts, env, s1, r),
    ensures
        s1.current() == s.current(),
{
}

/// A logical operator evaluates its left operand once, and where that
/// settles the result, `or` on a true operand and `and` on a false one, the
/// right operand is not evaluated: the evaluation ends in the state in which
/// the left operand left it, with the left operand as its value.
pub proof fn lemma_short_circuit<H: Host>(
    host: &H,
    s: Interpreter,
    left: Expr,
    operator: Token,
    right: Expr,
    s1: Interpreter,
    r: Result<Object, Error>,
)
    requires
        logical_rel(host, s, left, operator, right, s1, r),
    ensures
        exists|m: Interpreter, v: Result<Object, Error>| #[trigger]
            via(m, v) && evaluates(host, s, left, m, v) && (v matches Ok(l) ==> (short_circuits(
                operator.tpe,
                l,
            ) ==> s1 == m && r == Ok::<Object, Error>(l))),
{
}

/// A call of a class that succeeds gives the new instance, whatever its
/// initializer returned.
pub proof fn lemma_class_call_gives_instance<H: Host>(
    host: &H,
    s: Interpreter,
    class: usize,
    paren: Token,
    values: Seq<Object>,
    s1: Interpreter,
    v: Object,
)
    requires
        instantiated(host, s, class, paren, values, s1, Ok(v)),
    ensures
        v == Object::Instance(s.instance_table().len() as usize),
{
}

/// A call of an initializer that succeeds gives what `this` is in the frame
/// in which the initializer was bound, whether the body ended with a
/// `return` or without one.
pub proof fn lemma_initializer_gives_this<H: Host>(
    host: &H,
    s: Interpreter,
    declaration: Rc<FunctionDeclaration>,
    closure: usize,
    values: Seq<Object>,
    s1: Interpreter,
    v: Object,
)
    requires
        function_called(
            host,
            s,
            Function::User { declaration, closure, is_initializer: true },
            values,
            s1,
            Ok(v),
        ),
    ensures
        closure < s1.frames().len(),
        s1.frames()[closure as int].bindings().contains_key("this"@),
        v == s1.frames()[closure as int].bindings()["this"@],
{
}

/// Once one of the statements has failed, the rest are not executed: the
/// failure and the state stand for all of them.
pub proof fn lemma_runs_fails<H: Host>(
    host: &H,
    s: Interpreter,
    stmts: Seq<Stmt>,
    n: nat,
    s1: Interpreter,
    x: Error,
)
    requires
        n <= stmts.len(),
        s1.budget() <= s.budget(),
        runs(host, s, stmts, n, s1, Err(x)),
    ensures
        runs(host, s, stmts, stmts.len(), s1, Err(x)),
    decreases stmts.len() - n,
{
    if n < stmts.len() {
        assert(via((n, s1), Err::<(), Error>(x)));
        assert(runs(host, s, stmts, n + 1, s1, Err(x)));
        lemma_runs_fails(host, s, stmts, n + 1, s1, x);
    }
}

/// The evaluator: the frames, classes and instances of the running program,
/// the frame in which it runs, the resolver's distances, what the program
/// has printed, and the evaluation steps that are left to it.
pub struct Interpreter {
    pub globals: usize,
    environment: usize,
    locals: HashMap<usize, usize>,
    environments: Vec<Environment>,
    classes: Vec<LoxClass>,
    instances: Vec<LoxInstance>,
    output: Vec<String>,
    fuel: u64,
}

impl Interpreter {
    /// The frames made so far.
    pub closed spec fn frames(&self) -> Seq<Environment> {
        self.environments@
    }

    /// The frame in which the program runs.
    pub closed spec fn current(&self) -> int {
        self.environment as int
    }

    /// The outermost frame.
    pub closed spec fn outermost(&self) -> int {
        self.globals as int
    }

    /// The classes made so far.
    pub closed spec fn class_table(&self) -> Seq<LoxClass> {
        self.classes@
    }

    /// The instances made so far.
    pub closed spec fn instance_table(&self) -> Seq<LoxInstance> {
        self.instances@
    }

    /// The lines printed and not yet taken.
    pub closed spec fn printed(&self) -> Seq<String> {
        self.output@
    }

    /// The evaluation steps left.
    pub closed spec fn budget(&self) -> nat {
        self.fuel as nat
    }

    /// The distances that the resolver recorded, by the number of the
    /// expression.
    pub closed spec fn distances(&self) -> Map<usize, usize> {
        self.locals@
    }

    /// All but the frames is as in `before`.
    pub closed spec fn same_but_frames(&self, before: &Interpreter) -> bool {
        &&& self.globals == before.globals
        &&& self.environment == before.environment
        &&& self.locals == before.locals
        &&& self.classes == before.classes
        &&& self.instances == before.instances
        &&& self.output == before.output
        &&& self.fuel == before.fuel
    }

    /// All but the instances is as in `before`.
    pub closed spec fn same_but_instances(&self, before: &Interpreter) -> bool {
        &&& self.globals == before.globals
        &&& self.environment == before.environment
        &&& self.locals == before.locals
        &&& self.environments == before.environments
        &&& self.classes == before.classes
        &&& self.output == before.output
        &&& self.fuel == before.fuel
    }

    /// All but the frames and the classes is as in `before`.
    pub closed spec fn same_but_frames_and_classes(&self, before: &Interpreter) -> bool {
        &&& self.globals == before.globals
        &&& self.environment == before.environment
        &&& self.locals == before.locals
        &&& self.instances == before.instances
        &&& self.output == before.output
        &&& self.fuel == before.fuel
    }

    /// This state is `before` with one more frame, which lies inside the
    /// frame `enclosing` and holds `bindings`.
    pub closed spec fn framed(
        &self,
        before: &Interpreter,
        enclosing: usize,
        bindings: Map<Seq<char>, Object>,
    ) -> bool {
        &&& self.same_but_frames(before)
        &&& self.environments@.len() == before.environments@.len() + 1
        &&& self.environments@.subrange(0, before.environments@.len() as int)
            =~= before.environments@
        &&& self.environments@.last().enclosing == Some(enclosing)
        &&& self.environments@.last().bindings() == bindings
    }

    /// This state is `before` with one more instance, of the class `class`
    /// and without fields.
    pub closed spec fn instance_added(&self, before: &Interpreter, class: usize) -> bool {
        &&& self.same_but_instances(before)
        &&& self.instances@.len() == before.instances@.len() + 1
        &&& self.instances@.subrange(0, before.instances@.len() as int) =~= before.instances@
        &&& self.instances@.last().class == class
        &&& self.instances@.last().fields@ == Map::<Seq<char>, Object>::empty()
    }

    /// This state is `before` with one more line printed.
    pub closed spec fn printed_after(&self, before: &Interpreter) -> bool {
        &&& self.globals == before.globals
        &&& self.environment == before.environment
        &&& self.locals == before.locals
        &&& self.environments == before.environments
        &&& self.classes == before.classes
        &&& self.instances == before.instances
        &&& self.fuel == before.fuel
        &&& self.output@.len() == before.output@.len() + 1
        &&& self.output@.subrange(0, before.output@.len() as int) =~= before.output@
    }

    /// This state with the frame `env` as the current one.
    pub closed spec fn entered(self, env: usize) -> Interpreter {
        Interpreter { environment: env, ..self }
    }

    /// This state with one step fewer.
    pub closed spec fn spent(self) -> Interpreter {
        Interpreter { fuel: (self.fuel - 1) as u64, ..self }
    }

    /// The frame in which an assignment to the variable that the
    /// expression numbered `id` names binds it: the frame at the recorded
    /// distance, or for a global the nearest frame from the outermost that
    /// binds the name.
    pub closed spec fn target(self, id: usize, name: Token) -> Option<int> {
        match self.locals@.get(id) {
            Some(distance) => ancestor(self.environments@, self.environment as int, distance as nat),
            None => holder(self.environments@, self.globals as int, name.lexeme@),
        }
    }

    /// The outermost frame and the current frame exist.
    pub closed spec fn wf(&self) -> bool {
        &&& self.globals < self.environments.len()
        &&& self.environment < self.environments.len()
    }

    /// The state after some evaluation that began in `before`: the program
    /// runs in the frame in which it ran, nothing made has gone, every
    /// instance has kept its class, and no steps were won.
    pub open spec fn continues(&self, before: &Interpreter) -> bool {
        &&& self.wf()
        &&& self.current() == before.current()
        &&& self.outermost() == before.outermost()
        &&& self.distances() == before.distances()
        &&& self.budget() <= before.budget()
        &&& before.frames().len() <= self.frames().len()
        &&& before.class_table().len() <= self.class_table().len()
        &&& before.instance_table().len() <= self.instance_table().len()
        &&& before.printed().len() <= self.printed().len()
        &&& forall|i: int|
            0 <= i < before.instance_table().len() ==> (#[trigger] self.instance_table()[i]).class
                == before.instance_table()[i].class
    }

    /// Nothing but the resolver's distances tells the two states apart.
    pub open spec fn same_run(&self, before: &Interpreter) -> bool {
        &&& self.wf() == before.wf()
        &&& self.current() == before.current()
        &&& self.outermost() == before.outermost()
        &&& self.frames() == before.frames()
        &&& self.class_table() == before.class_table()
        &&& self.instance_table() == before.instance_table()
        &&& self.printed() == before.printed()
        &&& self.budget() == before.budget()
    }

    /// An evaluator with the native function `clock` in its outermost
    /// frame and all steps left.
    pub fn new() -> (r: Self)
        ensures
            r.wf(),
            r.current() == r.outermost(),
            r.frames().len() == 1,
            r.frames()[0].enclosing is None,
            r.frames()[0].bindings() == Map::<Seq<char>, Object>::empty().insert(
                "clock"@,
                Object::Callable(Function::Native { arity: 0, body: NativeBody::Clock }),
            ),
            r.printed().len() == 0,
            r.class_table().len() == 0,
            r.instance_table().len() == 0,
            r.budget() == u64::MAX,
            r.distances() == Map::<usize, usize>::empty(),
    {
        let mut globals = Environment::new();
        let clock = Object::Callable(Function::Native { arity: 0, body: NativeBody::Clock });
        globals.define(String::from_str("clock"), clock);
        let mut environments: Vec<Environment> = Vec::new();
        environments.push(globals);
        Interpreter {
            globals: 0,
            environment: 0,
            locals: HashMap::new(),
            environments,
            classes: Vec::new(),
            instances: Vec::new(),
            output: Vec::new(),
            fuel: u64::MAX,
        }
    }

    /// Sets the number of evaluation steps that are left.
    pub fn set_budget(&mut self, steps: u64)
        requires
            old(self).wf(),
        ensures
            final(self).wf(),
            final(self).budget() == steps,
            final(self).current() == old(self).current(),
            final(self).frames() == old(self).frames(),
            final(self).printed() == old(self).printed(),
    {
        self.fuel = steps;
    }

    /// Hands out the lines printed since the last call.
    pub fn take_output(&mut self) -> (r: Vec<String>)
        requires
            old(self).wf(),
        ensures
            r@ == old(self).printed(),
            final(self).printed().len() == 0,
            final(self).wf(),
            final(self).current() == old(self).current(),
            final(self).frames() == old(self).frames(),
            final(self).budget() == old(self).budget(),
    {
        let mut taken: Vec<String> = Vec::new();
        std::mem::swap(&mut taken, &mut self.output);
        taken
    }

    /// Runs the statements in order, up to the first that fails.
    pub fn interpret<H: Host>(&mut self, statements: &Vec<Stmt>, host: &H) -> (r: Result<(), Error>)
        requires
            old(self).wf(),
        ensures
            final(self).continues(old(self)),
            !(r matches Err(Error::Parse)),
            runs(host, *old(self), statements@, statements@.len(), *final(self), r),
        decreases old(self).budget(), 9int,
    {
        let mut i: usize = 0;
        while i < statements.len()
            invariant
                i <= statements.len(),
                self.continues(old(self)),
                runs(host, *old(self), statements@, i as nat, *self, Ok(())),
            decreases statements.len() - i,
        {
            let ghost before = *self;
            let ghost n = (i + 1) as nat;
            let step = self.execute(&statements[i], host);
            proof {
                assert(via(((n - 1) as nat, before), Ok::<(), Error>(())));
                assert(executes(host, before, statements@[(n - 1) as int], *self, step));
                assert(before.fuel <= old(self).fuel);
            }
            match step {
                Ok(_) => {
                    proof {
                        lemma_unit_ok(step);
                        assert(runs(host, *old(self), statements@, n, *self, Ok(())));
                    }
                },
                Err(x) => {
                    proof {
                        assert(runs(host, *old(self), statements@, n, *self, Err(x)));
                        lemma_runs_fails(host, *old(self), statements@, n, *self, x);
                    }
                    return Err(x);
                },
            }
            i += 1;
        }
        Ok(())
    }

    fn exhausted<T>() -> (r: Result<T, Error>)
        ensures
            is_exhausted(r),
    {
        Err(
            Error::Runtime {
                token: Token::new(TokenType::EOF, "", 0),
                message: String::from_str("Step budget exhausted."),
            },
        )
    }

    /// Evaluates an expression.
    fn evaluate<H: Host>(&mut self, expression: &Expr, host: &H) -> (r: Result<Object, Error>)
        requires
            old(self).wf(),
        ensures
            final(self).continues(old(self)),
            !(r matches Err(Error::Parse)),
            r is Ok ==> final(self).budget() < old(self).budget(),
            evaluates(host, *old(self), *expression, *final(self), r),
        decreases old(self).budget(), 0int,
    {
        if self.fuel == 0 {
            return Self::exhausted();
        }
        self.fuel -= 1;
        assert(*self == old(self).spent());
        match expression {
            Expr::Assign { id, name, value } => self.visit_assign_expr(*id, name, value, host),
            Expr::Binary { left, operator, right } => self.visit_binary_expr(
                left,
                operator,
                right,
                host,
            ),
            Expr::Call { callee, paren, arguments } => self.visit_call_expr(
                callee,
                paren,
                arguments,
                host,
            ),
            Expr::Get { object, name } => self.visit_get_expr(object, name, host),
            Expr::Grouping { expression } => self.visit_grouping_expr(expression, host),
            Expr::Literal { value } => self.visit_literal_expr(value, host),
            Expr::Logical { left, operator, right } => self.visit_logical_expr(
                left,
                operator,
                right,
                host,
            ),
            Expr::SetProperty { object, name, value } => self.visit_set_expr(
                object,
                name,
                value,
                host,
            ),
            Expr::Super { id, keyword, method } => self.visit_super_expr(*id, keyword, method),
            Expr::This { id, keyword } => self.visit_this_expr(*id, keyword),
            Expr::Unary { operator, right } => self.visit_unary_expr(operator, right, host),
            Expr::Variable { id, name } => self.visit_variable_expr(*id, name),
        }
    }

    /// Executes a statement.
    fn execute<H: Host>(&mut self, statement: &Stmt, host: &H) -> (r: Result<(), Error>)
        requires
            old(self).wf(),
        ensures
            final(self).continues(old(self)),
            !(r matches Err(Error::Parse)),
            r is Ok ==> final(self).budget() < old(self).budget(),
            executes(host, *old(self), *statement, *final(self), r),
        decreases old(self).budget(), 0int,
    {
        if self.fuel == 0 {
            return Self::exhausted();
        }
        self.fuel -= 1;
        assert(*self == old(self).spent());
        let r = match statement {
            Stmt::Block { statements } => self.visit_block_stmt(statements, host),
            Stmt::Class { name, superclass, methods } => self.visit_class_stmt(
                name,
                superclass,
                methods,
                host,
            ),
            Stmt::Expression { expression } => self.visit_expression_stmt(expression, host),
            Stmt::Function { declaration } => self.visit_function_stmt(declaration),
            Stmt::If { condition, else_branch, then_branch } => self.visit_if_stmt(
                condition,
                else_branch,
                then_branch,
                host,
            ),
            Stmt::Print { expression } => self.visit_print_stmt(expression, host),
            Stmt::Return { keyword, value } => self.visit_return_stmt(keyword, value, host),
            Stmt::Var { name, initializer } => self.visit_var_stmt(name, initializer, host),
            Stmt::While { condition, body } => self.visit_while_stmt(condition, body, host),
            Stmt::Null => Ok(()),
        };
        r
    }

    /// Records that the expression numbered `id` names a variable `depth`
    /// frames out from the frame in which it is evaluated.
    pub fn resolve(&mut self, id: usize, depth: usize)
        ensures
            final(self).distances() == old(self).distances().insert(id, depth),
            final(self).wf() == old(self).wf(),
            final(self).current() == old(self).current(),
            final(self).outermost() == old(self).outermost(),
            final(self).frames() == old(self).frames(),
            final(self).class_table() == old(self).class_table(),
            final(self).instance_table() == old(self).instance_table(),
            final(self).printed() == old(self).printed(),
            final(self).budget() == old(self).budget(),
    {
        self.locals.insert(id, depth);
    }

    /// Runs the statements in the frame `environment`, and then goes back
    /// to the frame in which the program ran before, however the statements
    /// ended.
    pub fn execute_block<H: Host>(
        &mut self,
        statements: &Vec<Stmt>,
        environment: usize,
        host: &H,
    ) -> (r: Result<(), Error>)
        requires
            old(self).wf(),
            environment < old(self).frames().len(),
        ensures
            final(self).continues(old(self)),
            !(r matches Err(Error::Parse)),
            block_runs(host, *old(self), statements@, environment, *final(self), r),
        decreases old(self).budget(), 3int,
    {
        let previous = self.environment;
        self.environment = environment;
        let ghost entered = *self;
        let mut i: usize = 0;
        while i < statements.len()
            invariant
                i <= statements.len(),
                self.wf(),
                entered == old(self).entered(environment),
                self.environment == environment,
                environment < self.environments.len(),
                previous == old(self).environment,
                previous < self.environments.len(),
                self.globals == old(self).globals,
                self.locals@ == old(self).locals@,
                self.fuel <= old(self).fuel,
                old(self).environments.len() <= self.environments.len(),
                old(self).classes.len() <= self.classes.len(),
                old(self).instances.len() <= self.instances.len(),
                old(self).output.len() <= self.output.len(),
                forall|k: int|
                    0 <= k < old(self).instances.len() ==> (#[trigger] self.instances[k]).class
                        == old(self).instances[k].class,
                runs(host, entered, statements@, i as nat, *self, Ok(())),
            decreases statements.len() - i,
        {
            let ghost before = *self;
            let ghost n = (i + 1) as nat;
            let step = self.execute(&statements[i], host);
            proof {
                assert(via(((n - 1) as nat, before), Ok::<(), Error>(())));
                assert(executes(host, before, statements@[(n - 1) as int], *self, step));
                assert(before.fuel <= old(self).fuel);
            }
            match step {
                Ok(_) => {
                    proof {
                        lemma_unit_ok(step);
                        assert(runs(host, entered, statements@, n, *self, Ok(())));
                    }
                },
                Err(x) => {
                    let ghost ended = *self;
                    proof {
                        assert(runs(host, entered, statements@, n, *self, Err(x)));
                        lemma_runs_fails(host, entered, statements@, n, *self, x);
                    }
                    self.environment = previous;
                    proof {
                        assert(via(ended, Err::<(), Error>(x)));
                        assert(*self == ended.entered(old(self).environment));
                    }
                    return Err(x);
                },
            }
            i += 1;
        }
        let ghost ended = *self;
        self.environment = previous;
        proof {
            assert(via(ended, Ok::<(), Error>(())));
            assert(*self == ended.entered(old(self).environment));
        }
        Ok(())
    }

    pub fn is_truthy(&self, object: &Object) -> (r: bool)
        ensures
            r == object.truthy(),
    {
        object.is_truthy()
    }

    pub fn is_equal<H: Host>(&self, left: &Object, right: &Object, host: &H) -> (r: bool)
        ensures
            match (*left, *right) {
                (Object::Number(a), Object::Number(b)) => exists|order: NumberOrder|
                    call_ensures(H::compare, (host, a, b), order) && r == left.equal_to(
                        *right,
                        order,
                    ),
                _ => r == left.equal_to(*right, NumberOrder::Unordered),
            },
    {
        left.equals(right, host)
    }

    /// The text that `print` shows for a value.
    pub fn stringify<H: Host>(&self, object: &Object, host: &H) -> (r: String)
        ensures
            stringified(host, *self, *object, r),
    {
        match object {
            Object::Boolean(b) => if *b {
                String::from_str("true")
            } else {
                String::from_str("false")
            },
            Object::Class(c) => {
                if *c < self.classes.len() {
                    self.classes[*c].name.clone()
                } else {
                    String::from_str("<class>")
                }
            },
            Object::Callable(f) => match f {
                Function::Native { .. } => String::from_str("<native func>"),
                Function::User { declaration, .. } => {
                    let mut text = String::from_str("<fn ");
                    text.append(declaration.name.lexeme.as_str());
                    text.append(">");
                    text
                },
            },
            Object::Instance(i) => {
                if *i < self.instances.len() && self.instances[*i].class < self.classes.len() {
                    let mut text = self.classes[self.instances[*i].class].name.clone();
                    text.append(" instance");
                    text
                } else {
                    String::from_str("<instance>")
                }
            },
            Object::Null => String::from_str("nil"),
            Object::Number(n) => host.show_number(*n),
            Object::String(s) => s.clone(),
        }
    }

    /// What `this` is in the frame `closure`.
    fn this_in(&self, closure: usize) -> (r: Result<Object, Error>)
        ensures
            this_of(*self, closure, r),
            !(r matches Err(Error::Parse)),
    {
        match Environment::value_at(&self.environments, closure, 0, "this") {
            Some(value) => Ok(value),
            None => {
                let this_name = Token::new(TokenType::This, "this", 0);
                let mut message = String::from_str("Undefined variable '");
                message.append("this");
                message.append("'.");
                Err(Error::Runtime { token: this_name, message })
            },
        }
    }

    /// The value of the variable that the expression numbered `id` names:
    /// in the frame at the recorded distance, if one was recorded, else in
    /// the outermost frame.
    fn look_up_variable(&self, id: usize, name: &Token) -> (r: Result<Object, Error>)
        requires
            self.wf(),
        ensures
            !(r matches Err(Error::Parse)),
            looked_up(*self, id, *name, r),
    {
        match self.locals.get(&id) {
            Some(distance) => Environment::get_at(
                &self.environments,
                self.environment,
                *distance,
                name,
            ),
            None => Environment::get(&self.environments, self.globals, name),
        }
    }

    fn visit_binary_expr<H: Host>(
        &mut self,
        left: &Expr,
        operator: &Token,
        right: &Expr,
        host: &H,
    ) -> (r: Result<Object, Error>)
        requires
            old(self).wf(),
        ensures
            final(self).continues(old(self)),
            !(r matches Err(Error::Parse)),
            binary_rel(host, *old(self), *left, *operator, *right, *final(self), r),
        decreases old(self).budget(), 5int,
    {
        let first = self.evaluate(left, host);
        let ghost m = *self;
        let l = match first {
            Ok(l) => l,
            Err(x) => {
                assert(via(m, Err::<Object, Error>(x)) && evaluates(host, *old(self), *left, m, Err(x)));
                return Err(x);
            },
        };
        let second = self.evaluate(right, host);
        let r = match second {
            Ok(r) => r,
            Err(x) => {
                assert(via(*self, Err::<Object, Error>(x)) && evaluates(host, m, *right, *self, Err(x)));
                assert(via(m, Ok::<Object, Error>(l)) && evaluates(host, *old(self), *left, m, Ok(l)));
                return Err(x);
            },
        };
        let res = binary_operation(operator, l, r, host);
        proof {
            assert(via(*self, Ok::<Object, Error>(r)) && evaluates(host, m, *right, *self, Ok(r)));
            assert(via(m, Ok::<Object, Error>(l)) && evaluates(host, *old(self), *left, m, Ok(l)));
        }
        res
    }

    fn visit_call_expr<H: Host>(
        &mut self,
        callee: &Expr,
        paren: &Token,
        arguments: &Vec<Expr>,
        host: &H,
    ) -> (r: Result<Object, Error>)
        requires
            old(self).wf(),
        ensures
            final(self).continues(old(self)),
            !(r matches Err(Error::Parse)),
            call_rel(host, *old(self), *callee, *paren, arguments@, *final(self), r),
        decreases old(self).budget(), 7int,
    {
        let target = self.evaluate(callee, host);
        let ghost m = *self;
        let callee_value = match target {
            Ok(value) => value,
            Err(x) => {
                assert(via(m, Err::<Object, Error>(x)) && evaluates(host, *old(self), *callee, m, Err(x)));
                return Err(x);
            },
        };
        let mut args: Vec<Object> = Vec::new();
        let mut i: usize = 0;
        while i < arguments.len()
            invariant
                i <= arguments.len(),
                self.continues(old(self)),
                self.fuel < old(self).fuel,
                self.fuel <= m.fuel,
                m.fuel <= old(self).fuel,
                evaluates(host, *old(self), *callee, m, Ok(callee_value)),
                evaluates_first(host, m, arguments@, i as nat, *self, Ok(args@)),
            decreases arguments.len() - i,
        {
            let ghost before = *self;
            let ghost seen = args@;
            let ghost n = (i + 1) as nat;
            let next = self.evaluate(&arguments[i], host);
            let value = match next {
                Ok(value) => value,
                Err(x) => {
                    proof {
                        assert(via(((n - 1) as nat, before), Ok::<Seq<Object>, Error>(seen)));
                        assert(via(*self, Err::<Object, Error>(x)) && evaluates(host, before, arguments@[n - 1], *self, Err(x)));
                        assert(evaluates_first(host, m, arguments@, n, *self, Err(x)));
                        lemma_first_fails(host, m, arguments@, n, *self, x);
                        assert(via(*self, Err::<Seq<Object>, Error>(x)));
                        assert(via(m, Ok::<Object, Error>(callee_value)));
                    }
                    return Err(x);
                },
            };
            proof {
                assert(via(((n - 1) as nat, before), Ok::<Seq<Object>, Error>(seen)));
                assert(via(*self, Ok::<Object, Error>(value)) && evaluates(host, before, arguments@[n - 1], *self, Ok(value)));
                assert(evaluates_first(host, m, arguments@, n, *self, Ok(seen.push(value))));
            }
            args.push(value);
            i += 1;
        }
        let ghost m2 = *self;
        let ghost target = callee_value;
        let res = self.call_value(callee_value, paren, &args, host);
        proof {
            assert(via(m2, Ok::<Seq<Object>, Error>(args@)));
            assert(via(m, Ok::<Object, Error>(target)));
        }
        res
    }

    /// Calls a value: a function with as many arguments as it takes, or a
    /// class, which gives a new instance.
    pub fn call_value<H: Host>(
        &mut self,
        callee: Object,
        paren: &Token,
        arguments: &Vec<Object>,
        host: &H,
    ) -> (r: Result<Object, Error>)
        requires
            old(self).wf(),
        ensures
            final(self).continues(old(self)),
            !(r matches Err(Error::Parse)),
            called(host, *old(self), callee, *paren, arguments@, *final(self), r),
        decreases old(self).budget(), 6int,
    {
        match callee {
            Object::Callable(function) => {
                match check_arity(function.arity(), arguments.len(), paren) {
                    Ok(_) => function.call(self, arguments, host),
                    Err(x) => Err(x),
                }
            },
            Object::Class(class) => self.instantiate(class, paren, arguments, host),
            _ => runtime_error(paren, "Can only call functions and classes."),
        }
    }

    /// Makes an instance of `class` and runs the initializer on it, if the
    /// class offers one. The call gives the instance, whatever the
    /// initializer returns.
    pub fn instantiate<H: Host>(
        &mut self,
        class: usize,
        paren: &Token,
        arguments: &Vec<Object>,
        host: &H,
    ) -> (r: Result<Object, Error>)
        requires
            old(self).wf(),
        ensures
            final(self).continues(old(self)),
            !(r matches Err(Error::Parse)),
            r matches Ok(v) ==> v == Object::Instance(old(self).instance_table().len() as usize)
                && final(self).instance_table()[old(self).instance_table().len() as int].class
                == class,
            instantiated(host, *old(self), class, *paren, arguments@, *final(self), r),
        decreases old(self).budget(), 5int,
    {
        let index = self.instances.len();
        self.instances.push(LoxInstance::new(class));
        let instance = Object::Instance(index);
        let ghost m = *self;
        proof {
            assert(via(m, class));
            assert(m.instance_added(old(self), class));
        }
        match LoxClass::find_method(&self.classes, class, "init") {
            Some(initializer) => {
                match check_arity(initializer.arity(), arguments.len(), paren) {
                    Ok(_) => {},
                    Err(x) => {
                        return Err(x);
                    },
                }
                let bound = initializer.bind(instance.clone(), &mut self.environments);
                let ghost m2 = *self;
                let ghost method = bound;
                let outcome = bound.call(self, arguments, host);
                proof {
                    assert(via((m2, method), outcome));
                }
                match outcome {
                    Ok(_) => Ok(instance),
                    Err(x) => Err(x),
                }
            },
            None => Ok(instance),
        }
    }

    fn visit_get_expr<H: Host>(&mut self, object: &Expr, name: &Token, host: &H) -> (r: Result<
        Object,
        Error,
    >)
        requires
            old(self).wf(),
        ensures
            final(self).continues(old(self)),
            !(r matches Err(Error::Parse)),
            get_rel(host, *old(self), *object, *name, *final(self), r),
        decreases old(self).budget(), 5int,
    {
        let target = self.evaluate(object, host);
        let ghost m = *self;
        let found = match target {
            Ok(value) => value,
            Err(x) => {
                assert(via(m, Err::<Object, Error>(x)) && evaluates(host, *old(self), *object, m, Err(x)));
                return Err(x);
            },
        };
        let res = self.get_property(&found, name);
        proof {
            assert(via(m, Ok::<Object, Error>(found)) && evaluates(host, *old(self), *object, m, Ok(found)));
        }
        res
    }

    /// The property `name` of `object`: only an instance has properties.
    pub fn get_property(&mut self, object: &Object, name: &Token) -> (r: Result<Object, Error>)
        requires
            old(self).wf(),
        ensures
            final(self).continues(old(self)),
            !(r matches Err(Error::Parse)),
            final(self).budget() == old(self).budget(),
            property_got(*old(self), *object, *name, *final(self), r),
    {
        match object {
            Object::Instance(i) => {
                if *i < self.instances.len() {
                    self.instances[*i].get(name, object, &self.classes, &mut self.environments)
                } else {
                    no_property(name)
                }
            },
            _ => runtime_error(name, "Only instances have properties."),
        }
    }

    fn visit_grouping_expr<H: Host>(&mut self, expr: &Expr, host: &H) -> (r: Result<Object, Error>)
        requires
            old(self).wf(),
        ensures
            final(self).continues(old(self)),
            !(r matches Err(Error::Parse)),
            evaluates(host, *old(self), *expr, *final(self), r),
        decreases old(self).budget(), 5int,
    {
        self.evaluate(expr, host)
    }

    fn visit_literal_expr<H: Host>(&self, value: &LiteralValue, host: &H) -> (r: Result<
        Object,
        Error,
    >)
        ensures
            r matches Ok(v) && literal_outcome(host, *value, v),
    {
        Ok(literal_value(value, host))
    }

    fn visit_logical_expr<H: Host>(
        &mut self,
        left: &Expr,
        operator: &Token,
        right: &Expr,
        host: &H,
    ) -> (r: Result<Object, Error>)
        requires
            old(self).wf(),
        ensures
            final(self).continues(old(self)),
            !(r matches Err(Error::Parse)),
            logical_rel(host, *old(self), *left, *operator, *right, *final(self), r),
        decreases old(self).budget(), 5int,
    {
        let first = self.evaluate(left, host);
        let ghost m = *self;
        let l = match first {
            Ok(l) => l,
            Err(x) => {
                assert(via(m, Err::<Object, Error>(x)) && evaluates(host, *old(self), *left, m, Err(x)));
                return Err(x);
            },
        };
        let ghost kept = l;
        let r = self.logical_rest(operator, l, right, host);
        proof {
            assert(via(m, Ok::<Object, Error>(kept)) && evaluates(host, *old(self), *left, m, Ok(kept)));
        }
        r
    }

    /// What a logical operator does once its left operand is `left`: where
    /// the operator is done with it, nothing more is evaluated, and the
    /// operand is the result; else the result is that of the right operand.
    pub fn logical_rest<H: Host>(&mut self, operator: &Token, left: Object, right: &Expr, host: &H) -> (r:
        Result<Object, Error>)
        requires
            old(self).wf(),
        ensures
            final(self).continues(old(self)),
            !(r matches Err(Error::Parse)),
            short_circuits(operator.tpe, left) ==> r == Ok::<Object, Error>(left) && *final(self)
                == *old(self),
            !short_circuits(operator.tpe, left) ==> evaluates(
                host,
                *old(self),
                *right,
                *final(self),
                r,
            ),
        decreases old(self).budget(), 4int,
    {
        if operator.tpe == TokenType::Or {
            if left.is_truthy() {
                return Ok(left);
            }
        } else {
            if !left.is_truthy() {
                return Ok(left);
            }
        }
        self.evaluate(right, host)
    }

    fn visit_set_expr<H: Host>(
        &mut self,
        object: &Expr,
        property_name: &Token,
        value: &Expr,
        host: &H,
    ) -> (r: Result<Object, Error>)
        requires
            old(self).wf(),
        ensures
            final(self).continues(old(self)),
            !(r matches Err(Error::Parse)),
            set_rel(host, *old(self), *object, *property_name, *value, *final(self), r),
        decreases old(self).budget(), 5int,
    {
        let target = self.evaluate(object, host);
        let ghost m = *self;
        let found = match target {
            Ok(value) => value,
            Err(x) => {
                assert(via(m, Err::<Object, Error>(x)) && evaluates(host, *old(self), *object, m, Err(x)));
                return Err(x);
            },
        };
        match found {
            Object::Instance(i) => {
                let given = self.evaluate(value, host);
                let ghost m2 = *self;
                let field = match given {
                    Ok(field) => field,
                    Err(x) => {
                        assert(via(m2, Err::<Object, Error>(x)) && evaluates(host, m, *value, m2, Err(x)));
                        assert(via(m, Ok::<Object, Error>(found)) && evaluates(host, *old(self), *object, m, Ok(found)));
                        return Err(x);
                    },
                };
                let res = self.set_property(i, property_name, field);
                proof {
                    assert(via(m2, Ok::<Object, Error>(field)) && evaluates(host, m, *value, m2, Ok(field)));
                    assert(via(m, Ok::<Object, Error>(found)) && evaluates(host, *old(self), *object, m, Ok(found)));
                }
                res
            },
            _ => {
                proof {
                    assert(via(m, Ok::<Object, Error>(found)) && evaluates(host, *old(self), *object, m, Ok(found)));
                }
                runtime_error(property_name, "Only instances have fields.")
            },
        }
    }

    /// Sets the field `name` of the instance numbered `instance`, and
    /// gives the instance.
    pub fn set_property(&mut self, instance: usize, name: &Token, value: Object) -> (r: Result<
        Object,
        Error,
    >)
        requires
            old(self).wf(),
        ensures
            final(self).continues(old(self)),
            !(r matches Err(Error::Parse)),
            final(self).budget() == old(self).budget(),
            final(self).frames() == old(self).frames(),
            property_set(*old(self), instance, *name, value, *final(self), r),
    {
        if instance < self.instances.len() {
            self.instances[instance].set(name, value);
            Ok(Object::Instance(instance))
        } else {
            runtime_error(name, "Only instances have fields.")
        }
    }

    fn visit_super_expr(&mut self, id: usize, keyword: &Token, method: &Token) -> (r: Result<
        Object,
        Error,
    >)
        requires
            old(self).wf(),
        ensures
            final(self).continues(old(self)),
            !(r matches Err(Error::Parse)),
            final(self).budget() == old(self).budget(),
            super_got(*old(self), id, *keyword, *method, *final(self), r),
    {
        let distance = match self.locals.get(&id) {
            Some(d) => *d,
            None => {
                return undefined(keyword);
            },
        };
        // "this" is always one level nearer than the frame of "super".
        if distance == 0 {
            return undefined(keyword);
        }
        let superclass = match Environment::value_at(
            &self.environments,
            self.environment,
            distance,
            "super",
        ) {
            Some(value) => value,
            None => {
                return undefined(keyword);
            },
        };
        let instance = match Environment::value_at(
            &self.environments,
            self.environment,
            distance - 1,
            "this",
        ) {
            Some(value) => value,
            None => {
                return undefined(keyword);
            },
        };
        match superclass {
            Object::Class(class) => {
                match LoxClass::find_method(&self.classes, class, method.lexeme.as_str()) {
                    Some(found) => Ok(
                        Object::Callable(found.bind(instance, &mut self.environments)),
                    ),
                    None => no_property(method),
                }
            },
            _ => no_property(method),
        }
    }

    fn visit_this_expr(&mut self, id: usize, keyword: &Token) -> (r: Result<Object, Error>)
        requires
            old(self).wf(),
        ensures
            !(r matches Err(Error::Parse)),
            *final(self) == *old(self),
            looked_up(*old(self), id, *keyword, r),
    {
        self.look_up_variable(id, keyword)
    }

    fn visit_unary_expr<H: Host>(&mut self, operator: &Token, right: &Expr, host: &H) -> (r: Result<
        Object,
        Error,
    >)
        requires
            old(self).wf(),
        ensures
            final(self).continues(old(self)),
            !(r matches Err(Error::Parse)),
            unary_rel(host, *old(self), *operator, *right, *final(self), r),
        decreases old(self).budget(), 5int,
    {
        let operand = self.evaluate(right, host);
        let value = match operand {
            Ok(value) => value,
            Err(x) => {
                assert(via(*self, Err::<Object, Error>(x)) && evaluates(host, *old(self), *right, *self, Err(x)));
                return Err(x);
            },
        };
        let res = unary_operation(operator, value);
        proof {
            assert(via(*self, Ok::<Object, Error>(value)) && evaluates(host, *old(self), *right, *self, Ok(value)));
        }
        res
    }

    fn visit_variable_expr(&mut self, id: usize, name: &Token) -> (r: Result<Object, Error>)
        requires
            old(self).wf(),
        ensures
            !(r matches Err(Error::Parse)),
            *final(self) == *old(self),
            looked_up(*old(self), id, *name, r),
    {
        self.look_up_variable(id, name)
    }

    fn visit_assign_expr<H: Host>(&mut self, id: usize, name: &Token, value: &Expr, host: &H) -> (r:
        Result<Object, Error>)
        requires
            old(self).wf(),
        ensures
            final(self).continues(old(self)),
            !(r matches Err(Error::Parse)),
            assign_rel(host, *old(self), id, *name, *value, *final(self), r),
        decreases old(self).budget(), 5int,
    {
        let given = self.evaluate(value, host);
        let ghost m = *self;
        let v = match given {
            Ok(v) => v,
            Err(x) => {
                assert(via(m, Err::<Object, Error>(x)) && evaluates(host, *old(self), *value, m, Err(x)));
                return Err(x);
            },
        };
        let distance = match self.locals.get(&id) {
            Some(d) => Some(*d),
            None => None,
        };
        let assigned = match distance {
            Some(d) => Environment::assign_at(
                &mut self.environments,
                self.environment,
                d,
                name,
                v.clone(),
            ),
            None => Environment::assign(&mut self.environments, self.globals, name, v.clone()),
        };
        proof {
            assert(via(m, Ok::<Object, Error>(v)) && evaluates(host, *old(self), *value, m, Ok(v)));
        }
        match assigned {
            Ok(_) => Ok(v),
            Err(x) => Err(x),
        }
    }

    fn visit_block_stmt<H: Host>(&mut self, statements: &Vec<Stmt>, host: &H) -> (r: Result<
        (),
        Error,
    >)
        requires
            old(self).wf(),
        ensures
            final(self).continues(old(self)),
            !(r matches Err(Error::Parse)),
            block_rel(host, *old(self), statements@, *final(self), r),
        decreases old(self).budget(), 5int,
    {
        let index = self.environments.len();
        self.environments.push(Environment::from(self.environment));
        let ghost m = *self;
        let r = self.execute_block(statements, index, host);
        proof {
            assert(via(m, r));
            assert(m.framed(old(self), old(self).environment, Map::empty()));
        }
        r
    }

    /// A class declaration: the superclass is evaluated first and must be
    /// a class; the methods close over the frame of the declaration, or,
    /// where there is a superclass, over a frame inside it that holds
    /// `super`; the class is then bound to its name.
    fn visit_class_stmt<H: Host>(
        &mut self,
        class_name: &Token,
        maybe_superclass: &Option<Expr>,
        methods: &Vec<Rc<FunctionDeclaration>>,
        host: &H,
    ) -> (r: Result<(), Error>)
        requires
            old(self).wf(),
        ensures
            final(self).continues(old(self)),
            !(r matches Err(Error::Parse)),
            class_rel(
                host,
                *old(self),
                *class_name,
                *maybe_superclass,
                methods@,
                *final(self),
                r,
            ),
        decreases old(self).budget(), 5int,
    {
        let superclass: Option<usize> = match maybe_superclass {
            Some(expr) => {
                let named = self.evaluate(expr, host);
                proof {
                    assert(via(*self, named));
                }
                match named {
                    Ok(Object::Class(class)) => Some(class),
                    Ok(_) => {
                        return match expr {
                            Expr::Variable { name, .. } => runtime_error(
                                name,
                                "Superclass must be a class.",
                            ),
                            _ => runtime_error(class_name, "Superclass must be a class."),
                        };
                    },
                    Err(x) => {
                        return Err(x);
                    },
                }
            },
            None => None,
        };
        self.declare_class(class_name, superclass, methods);
        Ok(())
    }

    /// Makes the class and binds it to its name.
    fn declare_class(
        &mut self,
        class_name: &Token,
        superclass: Option<usize>,
        methods: &Vec<Rc<FunctionDeclaration>>,
    )
        requires
            old(self).wf(),
        ensures
            final(self).continues(old(self)),
            final(self).budget() == old(self).budget(),
            class_made(*old(self), *class_name, superclass, methods@, *final(self)),
    {
        let defined_in = self.environment;
        let index = self.classes.len();
        if let Some(class) = superclass {
            let frame_index = self.environments.len();
            let mut frame = Environment::from(self.environment);
            frame.define(String::from_str("super"), Object::Class(class));
            self.environments.push(frame);
            self.environment = frame_index;
        }
        let lox_class = LoxClass::declare(class_name, superclass, methods, self.environment);
        self.classes.push(lox_class);
        // Back to the frame in which the class is declared.
        self.environment = defined_in;
        self.environments[defined_in].define(class_name.lexeme.clone(), Object::Class(index));
    }

    fn visit_expression_stmt<H: Host>(&mut self, expression: &Expr, host: &H) -> (r: Result<
        (),
        Error,
    >)
        requires
            old(self).wf(),
        ensures
            final(self).continues(old(self)),
            !(r matches Err(Error::Parse)),
            expression_rel(host, *old(self), *expression, *final(self), r),
        decreases old(self).budget(), 5int,
    {
        let value = self.evaluate(expression, host);
        proof {
            assert(via(*self, value));
        }
        match value {
            Ok(_) => Ok(()),
            Err(x) => Err(x),
        }
    }

    /// A function declaration: the function closes over the frame of its
    /// declaration and is bound there to its name.
    fn visit_function_stmt(&mut self, declaration: &Rc<FunctionDeclaration>) -> (r: Result<
        (),
        Error,
    >)
        requires
            old(self).wf(),
        ensures
            final(self).continues(old(self)),
            !(r matches Err(Error::Parse)),
            final(self).budget() == old(self).budget(),
            r == Ok::<(), Error>(()),
            final(self).same_but_frames(old(self)),
            bound_in(
                final(self).environments@,
                old(self).environments@,
                old(self).environment as int,
                declaration.name.lexeme@,
                Object::Callable(
                    Function::User {
                        declaration: *declaration,
                        closure: old(self).environment,
                        is_initializer: false,
                    },
                ),
            ),
    {
        let function = Function::User {
            declaration: share(declaration),
            closure: self.environment,
            is_initializer: false,
        };
        let at = self.environment;
        self.environments[at].define(
            declaration.name.lexeme.clone(),
            Object::Callable(function),
        );
        Ok(())
    }

    fn visit_if_stmt<H: Host>(
        &mut self,
        condition: &Expr,
        else_branch: &Option<Stmt>,
        then_branch: &Stmt,
        host: &H,
    ) -> (r: Result<(), Error>)
        requires
            old(self).wf(),
        ensures
            final(self).continues(old(self)),
            !(r matches Err(Error::Parse)),
            if_rel(host, *old(self), *condition, *else_branch, *then_branch, *final(self), r),
        decreases old(self).budget(), 5int,
    {
        let tested = self.evaluate(condition, host);
        proof {
            assert(via(*self, tested));
        }
        let condition_value = match tested {
            Ok(value) => value,
            Err(x) => {
                return Err(x);
            },
        };
        if condition_value.is_truthy() {
            self.execute(then_branch, host)
        } else if let Some(other) = else_branch {
            self.execute(other, host)
        } else {
            Ok(())
        }
    }

    fn visit_print_stmt<H: Host>(&mut self, expression: &Expr, host: &H) -> (r: Result<(), Error>)
        requires
            old(self).wf(),
        ensures
            final(self).continues(old(self)),
            !(r matches Err(Error::Parse)),
            r is Ok ==> final(self).printed().len() > old(self).printed().len(),
            print_rel(host, *old(self), *expression, *final(self), r),
        decreases old(self).budget(), 5int,
    {
        let shown = self.evaluate(expression, host);
        proof {
            assert(via(*self, shown));
        }
        let value = match shown {
            Ok(value) => value,
            Err(x) => {
                return Err(x);
            },
        };
        let text = self.stringify(&value, host);
        self.output.push(text);
        Ok(())
    }

    /// A `return` statement: the value, `nil` where there is none, goes
    /// back to the call as `Error::Return`.
    fn visit_return_stmt<H: Host>(&mut self, _keyword: &Token, value: &Option<Expr>, host: &H) -> (r:
        Result<(), Error>)
        requires
            old(self).wf(),
        ensures
            final(self).continues(old(self)),
            !(r matches Err(Error::Parse)),
            r is Err,
            return_rel(host, *old(self), *value, *final(self), r),
        decreases old(self).budget(), 5int,
    {
        match value {
            Some(v) => {
                let given = self.evaluate(v, host);
                proof {
                    assert(via(*self, given));
                }
                match given {
                    // An error only in name: it carries the value to the call.
                    Ok(value) => Err(Error::Return { value }),
                    Err(x) => Err(x),
                }
            },
            None => Err(Error::Return { value: Object::Null }),
        }
    }

    /// A variable declaration: the variable is bound in the current frame
    /// to the value of its initializer, to `nil` where there is none.
    fn visit_var_stmt<H: Host>(&mut self, name: &Token, initializer: &Option<Expr>, host: &H) -> (r:
        Result<(), Error>)
        requires
            old(self).wf(),
        ensures
            final(self).continues(old(self)),
            !(r matches Err(Error::Parse)),
            var_rel(host, *old(self), *name, *initializer, *final(self), r),
        decreases old(self).budget(), 5int,
    {
        let value: Object = match initializer {
            Some(i) => {
                let given = self.evaluate(i, host);
                proof {
                    assert(via(*self, given));
                }
                match given {
                    Ok(value) => value,
                    Err(x) => {
                        return Err(x);
                    },
                }
            },
            None => Object::Null,
        };
        let at = self.environment;
        self.environments[at].define(name.lexeme.clone(), value);
        Ok(())
    }

    fn visit_while_stmt<H: Host>(&mut self, condition: &Expr, body: &Stmt, host: &H) -> (r: Result<
        (),
        Error,
    >)
        requires
            old(self).wf(),
        ensures
            final(self).continues(old(self)),
            !(r matches Err(Error::Parse)),
            while_rel(host, *old(self), *condition, *body, *final(self), r),
        decreases old(self).budget(), 5int,
    {
        let ghost mut k: nat = 0;
        loop
            invariant
                self.continues(old(self)),
                rounds(host, *old(self), *condition, *body, k, *self),
            decreases self.fuel,
        {
            let ghost a = *self;
            let tested = self.evaluate(condition, host);
            let ghost b = *self;
            proof {
                assert(via((k, a), (b, tested)));
            }
            let value = match tested {
                Ok(value) => value,
                Err(x) => {
                    return Err(x);
                },
            };
            if !value.is_truthy() {
                return Ok(());
            }
            let done = self.execute(body, host);
            match done {
                Ok(_) => {
                    proof {
                        lemma_unit_ok(done);
                        assert(via((k, a), (b, value)));
                        assert(evaluates(host, a, *condition, b, Ok(value)));
                        assert(executes(host, b, *body, *self, Ok(())));
                        assert(a.fuel <= old(self).fuel && b.fuel <= old(self).fuel);
                        assert(rounds(host, *old(self), *condition, *body, k + 1, *self));
                        k = k + 1;
                    }
                },
                Err(x) => {
                    return Err(x);
                },
            }
        }
    }
}

impl Function {
    /// Calls the function. A function of the program runs its body in a new
    /// frame inside the frame of its declaration, with its parameters bound
    /// to the arguments. Its value is what a `return` carried, `nil` without
    /// one, and for an initializer always `this`.
    pub fn call<H: Host>(
        &self,
        interpreter: &mut Interpreter,
        arguments: &Vec<Object>,
        host: &H,
    ) -> (r: Result<Object, Error>)
        requires
            old(interpreter).wf(),
        ensures
            final(interpreter).continues(old(interpreter)),
            !(r matches Err(Error::Parse)),
            function_called(host, *old(interpreter), *self, arguments@, *final(interpreter), r),
        decreases old(interpreter).budget(), 4int,
    {
        match self {
            Function::Native { body, .. } => match body {
                NativeBody::Clock => Ok(Object::Number(host.clock())),
            },
            Function::User { declaration, closure, is_initializer } => {
                let mut environment = Environment::from(*closure);
                let mut i: usize = 0;
                while i < declaration.params.len() && i < arguments.len()
                    invariant
                        i <= declaration.params.len(),
                        i <= arguments.len(),
                        environment.enclosing == Some(*closure),
                        environment.bindings() == params_bound(
                            declaration.params@,
                            arguments@,
                            i as nat,
                        ),
                    decreases declaration.params.len() - i,
                {
                    environment.define(declaration.params[i].lexeme.clone(), arguments[i].clone());
                    i += 1;
                }
                let index = interpreter.environments.len();
                interpreter.environments.push(environment);
                let ghost m = *interpreter;
                let outcome = interpreter.execute_block(&declaration.body, index, host);
                proof {
                    assert(via(m, outcome));
                    assert(i == lesser(declaration.params@.len(), arguments@.len()));
                    assert(m.framed(old(interpreter), *closure, params_bound(
                        declaration.params@,
                        arguments@,
                        lesser(declaration.params@.len(), arguments@.len()),
                    )));
                }
                match outcome {
                    Err(Error::Return { value }) => {
                        if *is_initializer {
                            interpreter.this_in(*closure)
                        } else {
                            Ok(value)
                        }
                    },
                    Err(other) => Err(other),
                    // The body ended without a `return`.
                    Ok(_) => {
                        if *is_initializer {
                            interpreter.this_in(*closure)
                        } else {
                            Ok(Object::Null)
                        }
                    },
                }
            },
        }
    }
}

} // verus!
