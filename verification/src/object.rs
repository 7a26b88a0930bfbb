//! Runtime values.
use vstd::prelude::*;
use crate::function::Function;
use crate::host::{Host, NumberOrder};

verus! {

/// A runtime value. Classes and instances are named by their place in the
/// interpreter's tables; a number is the bit pattern of a double.
pub enum Object {
    Boolean(bool),
    Class(usize),
    Callable(Function),
    Instance(usize),
    Null,
    Number(u64),
    String(String),
}

impl Clone for Object {
    fn clone(&self) -> (r: Object)
        ensures
            r == *self,
    {
        match self {
            Object::Boolean(b) => Object::Boolean(*b),
            Object::Class(c) => Object::Class(*c),
            Object::Callable(f) => Object::Callable(f.clone()),
            Object::Instance(i) => Object::Instance(*i),
            Object::Null => Object::Null,
            Object::Number(n) => Object::Number(*n),
            Object::String(s) => Object::String(s.clone()),
        }
    }
}

impl Object {
    /// Whether the value counts as true: everything but `nil` and `false`.
    pub open spec fn truthy(self) -> bool {
        match self {
            Object::Null => false,
            Object::Boolean(b) => b,
            _ => true,
        }
    }

    /// What `==` gives on two values once `order` says how the two numbers
    /// compare, if both are numbers: `nil` equals `nil`, booleans, numbers
    /// and strings equal their like, and nothing else is equal.
    pub open spec fn equal_to(self, other: Object, order: NumberOrder) -> bool {
        match (self, other) {
            (Object::Null, Object::Null) => true,
            (Object::Boolean(l), Object::Boolean(r)) => l == r,
            (Object::Number(_), Object::Number(_)) => order == NumberOrder::Equal,
            (Object::String(l), Object::String(r)) => l@ == r@,
            _ => false,
        }
    }

    pub fn is_truthy(&self) -> (r: bool)
        ensures
            r == self.truthy(),
    {
        match self {
            Object::Null => false,
            Object::Boolean(b) => *b,
            _ => true,
        }
    }

    /// Value equality. The host is asked only where both values are
    /// numbers.
    pub fn equals<H: Host>(&self, other: &Object, host: &H) -> (r: bool)
        ensures
            match (*self, *other) {
                (Object::Number(a), Object::Number(b)) => exists|order: NumberOrder|
                    call_ensures(H::compare, (host, a, b), order) && r == self.equal_to(
                        *other,
                        order,
                    ),
                _ => r == self.equal_to(*other, NumberOrder::Unordered),
            },
    {
        match (self, other) {
            (Object::Null, Object::Null) => true,
            (Object::Boolean(left), Object::Boolean(right)) => *left == *right,
            (Object::Number(left), Object::Number(right)) => {
                let order = host.compare(*left, *right);
                let r = order == NumberOrder::Equal;
                assert(call_ensures(H::compare, (host, *left, *right), order) && r
                    == self.equal_to(*other, order));
                r
            },
            (Object::String(left), Object::String(right)) => *left == *right,
            _ => false,
        }
    }
}

} // verus!
