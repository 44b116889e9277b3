//! The map-definition language: a self-describing text of `key = value;` assignments and
//! `key { ... }` blocks.
//!
//! [`de::Tokenizer`] reads tokens and values; [`de::Parser`] reads whole top-level entries.

pub mod blocks;
pub mod de;
pub mod syntax;

use vstd::prelude::*;

verus! {

/// A decimal number exactly as the text writes it: the digits before and after the point,
/// scaled by a power of ten. `-2.5E3` has `negative`, `whole` `"2"`, `fraction` `"5"` and
/// `exponent` `3`.
#[derive(Clone, Debug, PartialEq, Eq)]
pub struct Decimal {
    /// Whether a minus sign stands before the number.
    pub negative: bool,
    /// The digits before the point; may be empty.
    pub whole: String,
    /// The digits after the point; may be empty, but not together with `whole`.
    pub fraction: String,
    /// The power of ten to scale by; zero where the text gives none.
    pub exponent: i32,
}

/// A [`Decimal`] as a mathematical value.
pub struct DecimalView {
    pub negative: bool,
    pub whole: Seq<char>,
    pub fraction: Seq<char>,
    pub exponent: int,
}

impl View for Decimal {
    type V = DecimalView;

    open spec fn view(&self) -> DecimalView {
        DecimalView {
            negative: self.negative,
            whole: self.whole@,
            fraction: self.fraction@,
            exponent: self.exponent as int,
        }
    }
}

/// The value of one decimal digit.
pub open spec fn digit_of(c: char) -> nat {
    (c as int - '0' as int) as nat
}

/// The number that a run of decimal digits writes.
pub open spec fn digits_value(d: Seq<char>) -> nat
    decreases d.len(),
{
    if d.len() == 0 {
        0
    } else {
        digits_value(d.drop_last()) * 10 + digit_of(d.last())
    }
}

impl DecimalView {
    /// The number, as `numerator() * 10^scale()`.
    pub open spec fn numerator(self) -> int {
        let m = digits_value(self.whole + self.fraction) as int;
        if self.negative {
            -m
        } else {
            m
        }
    }

    /// The power of ten that the numerator is scaled by.
    pub open spec fn scale(self) -> int {
        self.exponent - self.fraction.len()
    }
}

/// A value of the language. It is self-describing: each value says what kind it is.
#[derive(Clone, Debug, PartialEq)]
pub enum Value {
    /// A boolean.
    Boolean(bool),
    /// A 32-bit signed integer.
    Integer(i32),
    /// A decimal number.
    Float(Decimal),
    /// A string.
    String(String),
    /// No value.
    Nil,
}

/// A [`Value`] as a mathematical value.
pub enum ValueView {
    Boolean(bool),
    Integer(int),
    Float(DecimalView),
    String(Seq<char>),
    Nil,
}

impl View for Value {
    type V = ValueView;

    open spec fn view(&self) -> ValueView {
        match self {
            Value::Boolean(b) => ValueView::Boolean(*b),
            Value::Integer(i) => ValueView::Integer(*i as int),
            Value::Float(d) => ValueView::Float(d@),
            Value::String(s) => ValueView::String(s@),
            Value::Nil => ValueView::Nil,
        }
    }
}

/// The kinds of things that a key can be assigned, as decoding expects or finds them.
#[derive(Clone, Copy, Debug, PartialEq, Eq, Structural)]
pub enum Shape {
    Boolean,
    Integer,
    Float,
    String,
    Nil,
    /// Any single value.
    Scalar,
    /// A `{ ... }` block of assignments.
    Block,
}

/// The shape of a value.
pub open spec fn shape_of(v: ValueView) -> Shape {
    match v {
        ValueView::Boolean(_) => Shape::Boolean,
        ValueView::Integer(_) => Shape::Integer,
        ValueView::Float(_) => Shape::Float,
        ValueView::String(_) => Shape::String,
        ValueView::Nil => Shape::Nil,
    }
}

/// Whether a value of shape `found` is acceptable where `expected` is asked for.
pub open spec fn accepts(expected: Shape, found: Shape) -> bool {
    expected == found || (expected == Shape::Scalar && found != Shape::Block)
}

/// The name of a shape, for messages.
pub open spec fn shape_name(s: Shape) -> Seq<char> {
    match s {
        Shape::Boolean => "boolean"@,
        Shape::Integer => "integer"@,
        Shape::Float => "float"@,
        Shape::String => "string"@,
        Shape::Nil => "nil"@,
        Shape::Scalar => "value"@,
        Shape::Block => "block"@,
    }
}

impl Shape {
    /// The name of the shape, for messages.
    pub fn name(&self) -> (r: &'static str)
        ensures
            r@ == shape_name(*self),
    {
        match self {
            Shape::Boolean => "boolean",
            Shape::Integer => "integer",
            Shape::Float => "float",
            Shape::String => "string",
            Shape::Nil => "nil",
            Shape::Scalar => "value",
            Shape::Block => "block",
        }
    }

    /// Whether a value of shape `found` is acceptable where `self` is asked for.
    pub fn accepts(&self, found: Shape) -> (r: bool)
        ensures
            r == accepts(*self, found),
    {
        *self == found || (*self == Shape::Scalar && found != Shape::Block)
    }
}

impl Value {
    /// The shape of the value.
    pub fn shape(&self) -> (r: Shape)
        ensures
            r == shape_of(self@),
    {
        match self {
            Value::Boolean(_) => Shape::Boolean,
            Value::Integer(_) => Shape::Integer,
            Value::Float(_) => Shape::Float,
            Value::String(_) => Shape::String,
            Value::Nil => Shape::Nil,
        }
    }

    /// The name of the kind of value that this is, for messages.
    pub fn kind_name(&self) -> (r: &'static str)
        ensures
            r@ == shape_name(shape_of(self@)),
    {
        self.shape().name()
    }
}

impl From<bool> for Value {
    fn from(value: bool) -> (r: Value)
        ensures
            r == Value::Boolean(value),
    {
        Value::Boolean(value)
    }
}

impl vstd::std_specs::convert::FromSpecImpl<bool> for Value {
    open spec fn obeys_from_spec() -> bool {
        true
    }

    open spec fn from_spec(v: bool) -> Value {
        Value::Boolean(v)
    }
}

impl From<i32> for Value {
    fn from(value: i32) -> (r: Value)
        ensures
            r == Value::Integer(value),
    {
        Value::Integer(value)
    }
}

impl vstd::std_specs::convert::FromSpecImpl<i32> for Value {
    open spec fn obeys_from_spec() -> bool {
        true
    }

    open spec fn from_spec(v: i32) -> Value {
        Value::Integer(v)
    }
}

impl From<Decimal> for Value {
    fn from(value: Decimal) -> (r: Value)
        ensures
            r == Value::Float(value),
    {
        Value::Float(value)
    }
}

impl vstd::std_specs::convert::FromSpecImpl<Decimal> for Value {
    open spec fn obeys_from_spec() -> bool {
        true
    }

    open spec fn from_spec(v: Decimal) -> Value {
        Value::Float(v)
    }
}

impl From<String> for Value {
    fn from(value: String) -> (r: Value)
        ensures
            r == Value::String(value),
    {
        Value::String(value)
    }
}

impl vstd::std_specs::convert::FromSpecImpl<String> for Value {
    open spec fn obeys_from_spec() -> bool {
        true
    }

    open spec fn from_spec(v: String) -> Value {
        Value::String(v)
    }
}

impl From<Option<Value>> for Value {
    /// A value, or `Nil` for none.
    fn from(value: Option<Value>) -> (r: Value)
        ensures
            r == (match value {
                Some(v) => v,
                None => Value::Nil,
            }),
    {
        match value {
            Some(v) => v,
            None => Value::Nil,
        }
    }
}

impl vstd::std_specs::convert::FromSpecImpl<Option<Value>> for Value {
    open spec fn obeys_from_spec() -> bool {
        true
    }

    open spec fn from_spec(v: Option<Value>) -> Value {
        match v {
            Some(x) => x,
            None => Value::Nil,
        }
    }
}

} // verus!
