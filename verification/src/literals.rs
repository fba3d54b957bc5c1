//! The values programs compute with.
use vstd::prelude::*;

use crate::callable::{Callable, CallableView};
use crate::text::{push_str, string_of};

verus! {

/// A number: the bit pattern of a single-precision IEEE-754 float and
/// the text the float is printed as.  Numbers are made by the host that
/// runs a program (see `interpreter::Host`), which owns floating point.
#[derive(Debug)]
pub struct Number {
    pub bits: u32,
    pub text: String,
}

/// The mathematical value of a [`Number`].
pub struct NumberView {
    pub bits: u32,
    pub text: Seq<char>,
}

impl View for Number {
    type V = NumberView;

    open spec fn view(&self) -> NumberView {
        NumberView { bits: self.bits, text: self.text@ }
    }
}

impl Number {
    /// A copy of this number.
    pub fn duplicate(&self) -> (r: Self)
        ensures
            r@ == self@,
    {
        Number { bits: self.bits, text: self.text.clone() }
    }
}

/// The float with bit pattern `b` is a NaN.
pub open spec fn f32_is_nan(b: u32) -> bool {
    (b & 0x7f80_0000u32) == 0x7f80_0000u32 && (b & 0x007f_ffffu32) != 0
}

/// An integer that orders the non-NaN floats as their values are
/// ordered (both zeros get 0).
pub open spec fn f32_order_key(b: u32) -> int {
    let magnitude = (b & 0x7fff_ffffu32) as int;
    if (b & 0x8000_0000u32) != 0 { -magnitude } else { magnitude }
}

/// `a == b` on the floats with these bit patterns.
pub open spec fn f32_eq(a: u32, b: u32) -> bool {
    !f32_is_nan(a) && !f32_is_nan(b) && f32_order_key(a) == f32_order_key(b)
}

/// `a < b` on the floats with these bit patterns.
pub open spec fn f32_lt(a: u32, b: u32) -> bool {
    !f32_is_nan(a) && !f32_is_nan(b) && f32_order_key(a) < f32_order_key(b)
}

/// `a <= b` on the floats with these bit patterns.
pub open spec fn f32_le(a: u32, b: u32) -> bool {
    !f32_is_nan(a) && !f32_is_nan(b) && f32_order_key(a) <= f32_order_key(b)
}

fn is_nan_bits(b: u32) -> (r: bool)
    ensures
        r == f32_is_nan(b),
{
    (b & 0x7f80_0000u32) == 0x7f80_0000u32 && (b & 0x007f_ffffu32) != 0
}

fn order_key(b: u32) -> (r: i64)
    ensures
        r == f32_order_key(b),
{
    let magnitude = (b & 0x7fff_ffffu32) as i64;
    if (b & 0x8000_0000u32) != 0 { -magnitude } else { magnitude }
}

/// Float equality of two numbers (NaN equals nothing, the two zeros
/// are equal).
pub fn numbers_equal(a: &Number, b: &Number) -> (r: bool)
    ensures
        r == f32_eq(a.bits, b.bits),
{
    !is_nan_bits(a.bits) && !is_nan_bits(b.bits) && order_key(a.bits) == order_key(b.bits)
}

/// Float `<` of two numbers.
pub fn number_less(a: &Number, b: &Number) -> (r: bool)
    ensures
        r == f32_lt(a.bits, b.bits),
{
    !is_nan_bits(a.bits) && !is_nan_bits(b.bits) && order_key(a.bits) < order_key(b.bits)
}

/// Float `<=` of two numbers.
pub fn number_less_equal(a: &Number, b: &Number) -> (r: bool)
    ensures
        r == f32_le(a.bits, b.bits),
{
    !is_nan_bits(a.bits) && !is_nan_bits(b.bits) && order_key(a.bits) <= order_key(b.bits)
}

/// The kinds of values.
#[derive(Debug, Clone, Copy, PartialEq, Eq, Structural)]
pub enum LiteralValueType {
    Nil,
    Bool,
    Num,
    Str,
    Fn,
    Any,
}

/// A value.
#[derive(Debug)]
pub enum LiteralValue {
    Nil,
    True,
    False,
    Num(Number),
    Str(String),
    Fn(Callable),
}

/// The mathematical value of a [`LiteralValue`].
pub enum LiteralValueView {
    Nil,
    True,
    False,
    Num(NumberView),
    Str(Seq<char>),
    Fn(CallableView),
}

impl View for LiteralValue {
    type V = LiteralValueView;

    open spec fn view(&self) -> LiteralValueView {
        match self {
            LiteralValue::Nil => LiteralValueView::Nil,
            LiteralValue::True => LiteralValueView::True,
            LiteralValue::False => LiteralValueView::False,
            LiteralValue::Num(n) => LiteralValueView::Num(n@),
            LiteralValue::Str(s) => LiteralValueView::Str(s@),
            LiteralValue::Fn(c) => LiteralValueView::Fn(c@),
        }
    }
}

/// The boolean value `b`.
pub open spec fn bool_value(b: bool) -> LiteralValueView {
    if b { LiteralValueView::True } else { LiteralValueView::False }
}

/// Every value but `nil` and `false` counts as true.
pub open spec fn truthy(v: LiteralValueView) -> bool {
    !(v is Nil || v is False)
}

/// How a value is printed and joined to strings.
pub open spec fn display(v: LiteralValueView) -> Seq<char> {
    match v {
        LiteralValueView::Nil => "nil"@,
        LiteralValueView::True => "true"@,
        LiteralValueView::False => "false"@,
        LiteralValueView::Num(n) => n.text,
        LiteralValueView::Str(s) => s,
        LiteralValueView::Fn(c) => "<fn "@ + c.name + ">"@,
    }
}

/// Equality of values: same kind and same contents, numbers compared as
/// floats, and a function equal to nothing.
pub open spec fn values_equal(a: LiteralValueView, b: LiteralValueView) -> bool {
    match a {
        LiteralValueView::Nil => b is Nil,
        LiteralValueView::True => b is True,
        LiteralValueView::False => b is False,
        LiteralValueView::Num(x) => match b {
            LiteralValueView::Num(y) => f32_eq(x.bits, y.bits),
            _ => false,
        },
        LiteralValueView::Str(x) => match b {
            LiteralValueView::Str(y) => x == y,
            _ => false,
        },
        LiteralValueView::Fn(_) => false,
    }
}

/// Equality of values is symmetric.
pub proof fn law_values_equal_symmetric(a: LiteralValueView, b: LiteralValueView)
    ensures
        values_equal(a, b) == values_equal(b, a),
{
}

/// Every value equals itself, except a NaN number and a function.
pub proof fn law_values_equal_reflexive(a: LiteralValueView)
    requires
        !(a matches LiteralValueView::Num(n) && f32_is_nan(n.bits)),
        !(a is Fn),
    ensures
        values_equal(a, a),
{
}

/// The message for a value that is not a number where one is needed.
pub open spec fn cast_float_message(v: LiteralValueView) -> Seq<char> {
    "Unable to cast '"@ + display(v) + "' to number"@
}

impl From<bool> for LiteralValue {
    fn from(value: bool) -> (r: Self) {
        if value { LiteralValue::True } else { LiteralValue::False }
    }
}

impl vstd::std_specs::convert::FromSpecImpl<bool> for LiteralValue {
    open spec fn obeys_from_spec() -> bool {
        true
    }

    open spec fn from_spec(value: bool) -> Self {
        if value { LiteralValue::True } else { LiteralValue::False }
    }
}

impl LiteralValue {
    /// The boolean value `b`.
    pub fn from_bool(b: bool) -> (r: Self)
        ensures
            r@ == bool_value(b),
    {
        if b { LiteralValue::True } else { LiteralValue::False }
    }

    /// A copy of this value.
    pub fn duplicate(&self) -> (r: Self)
        ensures
            r@ == self@,
    {
        match self {
            LiteralValue::Nil => LiteralValue::Nil,
            LiteralValue::True => LiteralValue::True,
            LiteralValue::False => LiteralValue::False,
            LiteralValue::Num(n) => LiteralValue::Num(n.duplicate()),
            LiteralValue::Str(s) => LiteralValue::Str(s.clone()),
            LiteralValue::Fn(c) => LiteralValue::Fn(c.duplicate()),
        }
    }

    /// The text of this value, as it is printed.
    pub fn cast_string(&self) -> (r: String)
        ensures
            r@ == display(self@),
    {
        match self {
            LiteralValue::Nil => string_of("nil"),
            LiteralValue::True => string_of("true"),
            LiteralValue::False => string_of("false"),
            LiteralValue::Num(n) => n.text.clone(),
            LiteralValue::Str(s) => s.clone(),
            LiteralValue::Fn(c) => {
                let mut r = string_of("<fn ");
                push_str(&mut r, c.name.as_str());
                push_str(&mut r, ">");
                r
            },
        }
    }

    /// The number this value is, or a message saying it is none.
    pub fn cast_float(&self) -> (r: Result<Number, String>)
        ensures
            match self@ {
                LiteralValueView::Num(n) => r matches Ok(m) && m@ == n,
                _ => r matches Err(msg) && msg@ == cast_float_message(self@),
            },
    {
        match self {
            LiteralValue::Num(n) => Ok(n.duplicate()),
            _ => {
                let mut msg = string_of("Unable to cast '");
                let shown = self.cast_string();
                push_str(&mut msg, shown.as_str());
                push_str(&mut msg, "' to number");
                Err(msg)
            },
        }
    }

    /// `true` for the values that count as false, `false` for the others.
    pub fn to_inverse_bool_literal_value(&self) -> (r: LiteralValue)
        ensures
            r@ == bool_value(!truthy(self@)),
    {
        LiteralValue::from_bool(!self.is_truthy())
    }

    /// Whether this value counts as true: all values but `nil` and `false` do.
    pub fn is_truthy(&self) -> (r: bool)
        ensures
            r == truthy(self@),
    {
        match self {
            LiteralValue::Nil => false,
            LiteralValue::False => false,
            _ => true,
        }
    }

    /// Whether two values are equal (see [`values_equal`]).
    pub fn equals(&self, other: &LiteralValue) -> (r: bool)
        ensures
            r == values_equal(self@, other@),
    {
        match self {
            LiteralValue::Nil => matches!(other, LiteralValue::Nil),
            LiteralValue::True => matches!(other, LiteralValue::True),
            LiteralValue::False => matches!(other, LiteralValue::False),
            LiteralValue::Num(a) => match other {
                LiteralValue::Num(b) => numbers_equal(a, b),
                _ => false,
            },
            LiteralValue::Str(a) => match other {
                LiteralValue::Str(b) => *a == *b,
                _ => false,
            },
            LiteralValue::Fn(_) => false,
        }
    }
}

} // verus!
