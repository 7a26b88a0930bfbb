//! The values of the stack machine.
use vstd::prelude::*;
use vstd::string::*;
use crate::host::{Host, NumberOrder};

verus! {

/// Which kind of value a `Value` holds.
#[derive(Debug, Clone, Copy, PartialEq, Eq, Structural)]
pub enum ValueType {
    Bool,
    Nil,
    Number,
    Text,
}

/// A value: its kind, and what it holds as that kind. A number is the bit
/// pattern of a double. The parts that belong to the other kinds are false,
/// zero and empty.
#[derive(Debug)]
pub struct Value {
    pub typ: ValueType,
    pub boolean: bool,
    pub number: u64,
    pub text: String,
}

/// A value as a mathematical value.
pub enum ValueView {
    Bool(bool),
    Nil,
    Number(u64),
    Text(Seq<char>),
}

impl View for Value {
    type V = ValueView;

    open spec fn view(&self) -> ValueView {
        match self.typ {
            ValueType::Bool => ValueView::Bool(self.boolean),
            ValueType::Nil => ValueView::Nil,
            ValueType::Number => ValueView::Number(self.number),
            ValueType::Text => ValueView::Text(self.text@),
        }
    }
}

impl DeepView for Value {
    type V = ValueView;

    open spec fn deep_view(&self) -> ValueView {
        self@
    }
}

impl Clone for Value {
    fn clone(&self) -> (r: Value)
        ensures
            r == *self,
    {
        Value { typ: self.typ, boolean: self.boolean, number: self.number, text: self.text.clone() }
    }
}

impl ValueView {
    /// Whether the value counts as false: `nil` and `false` do.
    pub open spec fn falsey(self) -> bool {
        self == ValueView::Nil || self == ValueView::Bool(false)
    }

    /// What `==` gives on two values once `order` says how the two numbers
    /// compare, if both are numbers. Values of different kinds are never
    /// equal.
    pub open spec fn equal_to(self, other: ValueView, order: NumberOrder) -> bool {
        match (self, other) {
            (ValueView::Nil, ValueView::Nil) => true,
            (ValueView::Bool(a), ValueView::Bool(b)) => a == b,
            (ValueView::Number(_), ValueView::Number(_)) => order == NumberOrder::Equal,
            (ValueView::Text(a), ValueView::Text(b)) => a == b,
            _ => false,
        }
    }
}

impl Value {
    pub fn new_bool(value: bool) -> (r: Value)
        ensures
            r@ == ValueView::Bool(value),
    {
        Value { typ: ValueType::Bool, boolean: value, number: 0, text: String::new() }
    }

    pub fn new_nil() -> (r: Value)
        ensures
            r@ == ValueView::Nil,
    {
        Value { typ: ValueType::Nil, boolean: false, number: 0, text: String::new() }
    }

    pub fn new_number(value: u64) -> (r: Value)
        ensures
            r@ == ValueView::Number(value),
    {
        Value { typ: ValueType::Number, boolean: false, number: value, text: String::new() }
    }

    pub fn new_string(value: String) -> (r: Value)
        ensures
            r@ == ValueView::Text(value@),
    {
        Value { typ: ValueType::Text, boolean: false, number: 0, text: value }
    }

    /// The boolean that the value holds, `false` if it holds none.
    pub fn as_bool(&self) -> (r: bool)
        ensures
            r == (self@ == ValueView::Bool(true)),
    {
        self.is_bool() && self.boolean
    }

    /// The number that the value holds, zero if it holds none.
    pub fn as_number(&self) -> (r: u64)
        ensures
            r == (match self@ {
                ValueView::Number(n) => n,
                _ => 0,
            }),
    {
        if self.is_number() {
            self.number
        } else {
            0
        }
    }

    pub fn is_bool(&self) -> (r: bool)
        ensures
            r == (self@ is Bool),
    {
        self.typ == ValueType::Bool
    }

    pub fn is_nil(&self) -> (r: bool)
        ensures
            r == (self@ is Nil),
    {
        self.typ == ValueType::Nil
    }

    pub fn is_number(&self) -> (r: bool)
        ensures
            r == (self@ is Number),
    {
        self.typ == ValueType::Number
    }

    pub fn is_string(&self) -> (r: bool)
        ensures
            r == (self@ is Text),
    {
        self.typ == ValueType::Text
    }

    pub fn is_falsey(&self) -> (r: bool)
        ensures
            r == self@.falsey(),
    {
        self.is_nil() || (self.is_bool() && !self.boolean)
    }

    /// Value equality. The host is asked only where both values are
    /// numbers.
    pub fn eq<H: Host>(&self, other: &Self, host: &H) -> (r: bool)
        ensures
            match (self@, other@) {
                (ValueView::Number(a), ValueView::Number(b)) => exists|order: NumberOrder|
                    call_ensures(H::compare, (host, a, b), order) && r == self@.equal_to(
                        other@,
                        order,
                    ),
                _ => r == self@.equal_to(other@, NumberOrder::Unordered),
            },
    {
        if self.typ != other.typ {
            false
        } else {
            match self.typ {
                ValueType::Bool => self.boolean == other.boolean,
                ValueType::Nil => true,
                ValueType::Number => {
                    let order = host.compare(self.number, other.number);
                    let r = order == NumberOrder::Equal;
                    assert(call_ensures(H::compare, (host, self.number, other.number), order) && r
                        == self@.equal_to(other@, order));
                    r
                },
                ValueType::Text => self.text == other.text,
            }
        }
    }
}

/// What showing a value gives: `true`, `false`, `nil`, the text as it is,
/// and for a number what the host shows.
pub open spec fn shows_as<H: Host>(host: &H, value: ValueView, text: String) -> bool {
    match value {
        ValueView::Bool(b) => text@ == (if b {
            "true"@
        } else {
            "false"@
        }),
        ValueView::Nil => text@ == "nil"@,
        ValueView::Number(n) => call_ensures(H::show_number, (host, n), text),
        ValueView::Text(s) => text@ == s,
    }
}

/// The text that shows a value.
pub fn print_value<H: Host>(value: &Value, host: &H) -> (r: String)
    ensures
        shows_as(host, value@, r),
{
    match value.typ {
        ValueType::Bool => if value.boolean {
            String::from_str("true")
        } else {
            String::from_str("false")
        },
        ValueType::Nil => String::from_str("nil"),
        ValueType::Number => host.show_number(value.number),
        ValueType::Text => value.text.clone(),
    }
}

} // verus!
