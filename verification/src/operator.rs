//! The binary operators `+ - * / % = > <` on two values.
//!
//! Integers are computed here. Arithmetic that involves a float is not: it is handed
//! out as a [`FloatRequest`], for the host to compute.

use crate::error::{
    division_by_zero, invalid_types, overflow, unknown_operator, ErrorKind, EvalError, Failure,
};
use crate::object::{rendering, Object, Value};
use crate::text::{decimal, lex_less, text_eq, text_less};
use vstd::prelude::*;

verus! {

/// The arithmetic operators.
#[derive(Debug, Clone, Copy, PartialEq, Eq, Structural)]
pub enum Arithmetic {
    Add,
    Subtract,
    Multiply,
    Divide,
    Remainder,
}

/// The comparison operators.
#[derive(Debug, Clone, Copy, PartialEq, Eq, Structural)]
pub enum Comparison {
    Equal,
    Greater,
    Less,
}

/// A numeric operand: an integer, or a float as its decimal text.
#[derive(Debug, Clone, PartialEq)]
pub enum Number {
    Integer(i64),
    Float(String),
}

/// The mathematical model of a [`Number`].
pub enum NumberModel {
    Integer(int),
    Float(Seq<char>),
}

impl View for Number {
    type V = NumberModel;

    open spec fn view(&self) -> NumberModel {
        match self {
            Number::Integer(i) => NumberModel::Integer(*i as int),
            Number::Float(s) => NumberModel::Float(s@),
        }
    }
}

/// Arithmetic on two numbers of which at least one is a float. The result is a float;
/// an integer operand is converted to a float first.
#[derive(Debug, Clone, PartialEq)]
pub struct FloatRequest {
    pub op: Arithmetic,
    pub left: Number,
    pub right: Number,
}

/// The mathematical model of a [`FloatRequest`].
pub struct FloatTask {
    pub op: Arithmetic,
    pub left: NumberModel,
    pub right: NumberModel,
}

impl View for FloatRequest {
    type V = FloatTask;

    open spec fn view(&self) -> FloatTask {
        FloatTask { op: self.op, left: self.left@, right: self.right@ }
    }
}

/// What applying an operator comes to.
#[derive(Debug, PartialEq)]
pub enum Applied {
    /// The result.
    Value(Object),
    /// The result is the float that the host computes from this request.
    Float(FloatRequest),
    /// The operator is not defined on the operands.
    Failed(EvalError),
}

/// The mathematical model of an [`Applied`].
pub enum AppliedModel {
    Value(Value),
    Float(FloatTask),
    Failed(Failure),
}

impl View for Applied {
    type V = AppliedModel;

    open spec fn view(&self) -> AppliedModel {
        match self {
            Applied::Value(o) => AppliedModel::Value(o@),
            Applied::Float(r) => AppliedModel::Float(r@),
            Applied::Failed(e) => AppliedModel::Failed(e@),
        }
    }
}

/// The arithmetic operator that `op` writes, if it writes one.
pub open spec fn arithmetic_of(op: Seq<char>) -> Option<Arithmetic> {
    if op == "+"@ {
        Some(Arithmetic::Add)
    } else if op == "-"@ {
        Some(Arithmetic::Subtract)
    } else if op == "*"@ {
        Some(Arithmetic::Multiply)
    } else if op == "/"@ {
        Some(Arithmetic::Divide)
    } else if op == "%"@ {
        Some(Arithmetic::Remainder)
    } else {
        None
    }
}

/// The comparison operator that `op` writes, if it writes one.
pub open spec fn comparison_of(op: Seq<char>) -> Option<Comparison> {
    if op == "="@ {
        Some(Comparison::Equal)
    } else if op == ">"@ {
        Some(Comparison::Greater)
    } else if op == "<"@ {
        Some(Comparison::Less)
    } else {
        None
    }
}

/// The number that a value is, if it is one.
pub open spec fn number_of(v: Value) -> Option<NumberModel> {
    match v {
        Value::Integer(i) => Some(NumberModel::Integer(i)),
        Value::Float(s) => Some(NumberModel::Float(s)),
        _ => None,
    }
}

/// The absolute value of `i`.
pub open spec fn magnitude(i: int) -> int {
    if i < 0 {
        -i
    } else {
        i
    }
}

/// The quotient of `x` by `y`, rounded towards zero.
pub open spec fn truncated_quotient(x: int, y: int) -> int
    recommends
        y != 0,
{
    let q = magnitude(x) / magnitude(y);
    if (x < 0) != (y < 0) {
        -q
    } else {
        q
    }
}

/// What is left of `x` after the truncated quotient by `y`; it has the sign of `x`.
pub open spec fn truncated_remainder(x: int, y: int) -> int
    recommends
        y != 0,
{
    let r = magnitude(x) % magnitude(y);
    if x < 0 {
        -r
    } else {
        r
    }
}

/// The exact result of integer arithmetic, in the integers.
pub open spec fn exact(op: Arithmetic, x: int, y: int) -> int {
    match op {
        Arithmetic::Add => x + y,
        Arithmetic::Subtract => x - y,
        Arithmetic::Multiply => x * y,
        Arithmetic::Divide => truncated_quotient(x, y),
        Arithmetic::Remainder => truncated_remainder(x, y),
    }
}

/// Whether `i` is a 64-bit signed integer.
pub open spec fn fits(i: int) -> bool {
    i64::MIN <= i <= i64::MAX
}

/// The 64-bit signed integer that `i` wraps to in two's complement: the one that
/// differs from `i` by a multiple of 2^64.
pub open spec fn wrapped(i: int) -> int {
    let low = i % 0x1_0000_0000_0000_0000;
    if low > i64::MAX {
        low - 0x1_0000_0000_0000_0000
    } else {
        low
    }
}

/// Whether `op` divides.
pub open spec fn divides(op: Arithmetic) -> bool {
    op is Divide || op is Remainder
}

/// What integer arithmetic comes to where it does not fail: the exact result of a
/// division or a remainder, and the exact result of a sum, a difference or a product
/// wrapped to 64 bits.
pub open spec fn computed(op: Arithmetic, x: int, y: int) -> int {
    if divides(op) {
        exact(op, x, y)
    } else {
        wrapped(exact(op, x, y))
    }
}

/// Integer arithmetic. A sum, a difference and a product are always an integer: the
/// exact one where it fits in 64 bits, the wrapped one where it does not. Division
/// and remainder fail on a divisor of zero, and where the quotient leaves the 64-bit
/// range, which is when the least integer is divided by -1.
pub open spec fn apply_integers(op: Arithmetic, text: Seq<char>, x: int, y: int) -> AppliedModel {
    if divides(op) && y == 0 {
        AppliedModel::Failed(division_by_zero(text, decimal(x), decimal(y)))
    } else if divides(op) && !fits(truncated_quotient(x, y)) {
        AppliedModel::Failed(overflow(text, decimal(x), decimal(y)))
    } else {
        AppliedModel::Value(Value::Integer(computed(op, x, y)))
    }
}

/// An arithmetic operator on two values. Two integers give an integer. Two numbers of
/// which one is a float give a float, which the host computes. `+` joins two strings.
/// Nothing else is defined.
pub open spec fn apply_arithmetic(op: Arithmetic, text: Seq<char>, left: Value, right: Value)
    -> AppliedModel {
    match (number_of(left), number_of(right)) {
        (Some(NumberModel::Integer(x)), Some(NumberModel::Integer(y))) => apply_integers(
            op,
            text,
            x,
            y,
        ),
        (Some(l), Some(r)) => AppliedModel::Float(FloatTask { op, left: l, right: r }),
        _ => match (op, left, right) {
            (Arithmetic::Add, Value::String(l), Value::String(r)) => AppliedModel::Value(
                Value::String(l + r),
            ),
            _ => AppliedModel::Failed(invalid_types(text, rendering(left), rendering(right))),
        },
    }
}

/// The outcome of a comparison between things that are ordered by `less`.
pub open spec fn compared(op: Comparison, equal: bool, less: bool, greater: bool) -> bool {
    match op {
        Comparison::Equal => equal,
        Comparison::Less => less,
        Comparison::Greater => greater,
    }
}

/// A comparison of two values. It is defined on two integers and on two strings, which
/// are ordered lexicographically, and on nothing else.
pub open spec fn apply_comparison(op: Comparison, text: Seq<char>, left: Value, right: Value)
    -> AppliedModel {
    match (left, right) {
        (Value::Integer(x), Value::Integer(y)) => AppliedModel::Value(
            Value::Bool(compared(op, x == y, x < y, x > y)),
        ),
        (Value::String(x), Value::String(y)) => AppliedModel::Value(
            Value::Bool(compared(op, x == y, lex_less(x, y), lex_less(y, x))),
        ),
        _ => AppliedModel::Failed(invalid_types(text, rendering(left), rendering(right))),
    }
}

/// What the operator written `op` comes to on `left` and `right`.
pub open spec fn apply_binary(op: Seq<char>, left: Value, right: Value) -> AppliedModel {
    match arithmetic_of(op) {
        Some(a) => apply_arithmetic(a, op, left, right),
        None => match comparison_of(op) {
            Some(c) => apply_comparison(c, op, left, right),
            None => AppliedModel::Failed(unknown_operator(op)),
        },
    }
}

/// The arithmetic operator that `op` writes.
pub fn arithmetic(op: &str) -> (r: Option<Arithmetic>)
    ensures
        r == arithmetic_of(op@),
{
    if text_eq(op, "+") {
        Some(Arithmetic::Add)
    } else if text_eq(op, "-") {
        Some(Arithmetic::Subtract)
    } else if text_eq(op, "*") {
        Some(Arithmetic::Multiply)
    } else if text_eq(op, "/") {
        Some(Arithmetic::Divide)
    } else if text_eq(op, "%") {
        Some(Arithmetic::Remainder)
    } else {
        None
    }
}

/// The comparison operator that `op` writes.
pub fn comparison(op: &str) -> (r: Option<Comparison>)
    ensures
        r == comparison_of(op@),
{
    if text_eq(op, "=") {
        Some(Comparison::Equal)
    } else if text_eq(op, ">") {
        Some(Comparison::Greater)
    } else if text_eq(op, "<") {
        Some(Comparison::Less)
    } else {
        None
    }
}

fn integers_failed(overflowed: bool, text: &str, x: i64, y: i64) -> (r: Applied)
    ensures
        r@ == AppliedModel::Failed(
            if overflowed {
                overflow(text@, decimal(x as int), decimal(y as int))
            } else {
                division_by_zero(text@, decimal(x as int), decimal(y as int))
            },
        ),
{
    let left = Object::Integer(x).render();
    let right = Object::Integer(y).render();
    if overflowed {
        Applied::Failed(EvalError::overflow(text, left.as_str(), right.as_str()))
    } else {
        Applied::Failed(EvalError::division_by_zero(text, left.as_str(), right.as_str()))
    }
}

/// Integer arithmetic on `x` and `y`.
pub fn integers(op: Arithmetic, text: &str, x: i64, y: i64) -> (r: Applied)
    ensures
        r@ == apply_integers(op, text@, x as int, y as int),
{
    proof {
        if y != 0 {
            lemma_truncated_bounds(x as int, y as int);
        }
    }
    let divided: Option<i64> = match op {
        Arithmetic::Add => {
            return Applied::Value(Object::Integer(x.wrapping_add(y)));
        },
        Arithmetic::Subtract => {
            return Applied::Value(Object::Integer(x.wrapping_sub(y)));
        },
        Arithmetic::Multiply => {
            return Applied::Value(Object::Integer(x.wrapping_mul(y)));
        },
        Arithmetic::Divide => {
            if y == 0 {
                return integers_failed(false, text, x, y);
            }
            x.checked_div(y)
        },
        Arithmetic::Remainder => {
            if y == 0 {
                return integers_failed(false, text, x, y);
            }
            x.checked_rem(y)
        },
    };
    match divided {
        Some(value) => Applied::Value(Object::Integer(value)),
        None => integers_failed(true, text, x, y),
    }
}

/// A wrapped integer fits in 64 bits and differs from the exact one by a multiple of
/// 2^64. An integer that fits wraps to itself.
pub proof fn lemma_wrapped(i: int)
    ensures
        fits(wrapped(i)),
        (wrapped(i) - i) % 0x1_0000_0000_0000_0000 == 0,
        fits(i) ==> wrapped(i) == i,
{
}

/// The truncated quotient and remainder are no larger in magnitude than the dividend.
/// Those of zero are zero, and the quotient is as large as the dividend only where the
/// divisor is 1 or -1.
pub proof fn lemma_truncated_bounds(x: int, y: int)
    requires
        y != 0,
    ensures
        magnitude(truncated_quotient(x, y)) <= magnitude(x),
        magnitude(truncated_remainder(x, y)) <= magnitude(x),
        x == 0 ==> truncated_quotient(x, y) == 0 && truncated_remainder(x, y) == 0,
        magnitude(truncated_quotient(x, y)) == magnitude(x) && x != 0 ==> magnitude(y) == 1,
{
    let a = magnitude(x);
    let b = magnitude(y);
    assert(0 <= a / b <= a && 0 <= a % b <= a) by (nonlinear_arith)
        requires
            a >= 0,
            b > 0,
    ;
    assert(b >= 2 && a > 0 ==> a / b < a) by (nonlinear_arith)
        requires
            a >= 0,
            b > 0,
    ;
}

/// The number that `o` is, if it is one.
fn number(o: &Object) -> (r: Option<Number>)
    ensures
        match number_of(o@) {
            Some(n) => r matches Some(m) && m@ == n,
            None => r is None,
        },
{
    match o {
        Object::Integer(i) => Some(Number::Integer(*i)),
        Object::Float(s) => Some(Number::Float(s.clone())),
        _ => None,
    }
}

fn types_failed(text: &str, left: &Object, right: &Object) -> (r: Applied)
    ensures
        r@ == AppliedModel::Failed(invalid_types(text@, rendering(left@), rendering(right@))),
{
    let l = left.render();
    let r = right.render();
    Applied::Failed(EvalError::invalid_types(text, l.as_str(), r.as_str()))
}

/// Applies the operator written `op` to two values.
///
/// `+ - * / %` compute on two integers, and ask the host where a float is involved;
/// `+` also joins two strings. `= > <` compare two integers or two strings. Every other
/// pair of operands is a failure of kind `Type` that names the operator and shows both
/// operands, and every other operator a failure of kind `Unsupported`.
pub fn eval_binary_op(op: &str, left: &Object, right: &Object) -> (r: Applied)
    ensures
        r@ == apply_binary(op@, left@, right@),
{
    match arithmetic(op) {
        Some(a) => {
            match (left, right) {
                (Object::Integer(x), Object::Integer(y)) => integers(a, op, *x, *y),
                (Object::String(x), Object::String(y)) => {
                    match a {
                        Arithmetic::Add => {
                            let mut joined = x.clone();
                            joined.append(y.as_str());
                            Applied::Value(Object::String(joined))
                        },
                        _ => types_failed(op, left, right),
                    }
                },
                _ => {
                    match (number(left), number(right)) {
                        (Some(l), Some(r)) => Applied::Float(
                            FloatRequest { op: a, left: l, right: r },
                        ),
                        _ => types_failed(op, left, right),
                    }
                },
            }
        },
        None => {
            match comparison(op) {
                Some(c) => {
                    match (left, right) {
                        (Object::Integer(x), Object::Integer(y)) => {
                            let b = match c {
                                Comparison::Equal => *x == *y,
                                Comparison::Less => *x < *y,
                                Comparison::Greater => *x > *y,
                            };
                            Applied::Value(Object::Bool(b))
                        },
                        (Object::String(x), Object::String(y)) => {
                            let b = match c {
                                Comparison::Equal => text_eq(x.as_str(), y.as_str()),
                                Comparison::Less => text_less(x.as_str(), y.as_str()),
                                Comparison::Greater => text_less(y.as_str(), x.as_str()),
                            };
                            Applied::Value(Object::Bool(b))
                        },
                        _ => types_failed(op, left, right),
                    }
                },
                None => Applied::Failed(EvalError::unknown_operator(op)),
            }
        },
    }
}

/// Arithmetic on two integers stays in the integers. A sum, a difference and a
/// product of two integers are an integer for every pair: the exact result where it
/// fits in 64 bits, and an integer still where it does not. A quotient and a
/// remainder are the exact integer, or an arithmetic failure.
pub proof fn lemma_integers_give_integer(op: Seq<char>, x: int, y: int)
    requires
        arithmetic_of(op) is Some,
        fits(x),
        fits(y),
    ensures
        match apply_binary(op, Value::Integer(x), Value::Integer(y)) {
            AppliedModel::Value(v) => {
                &&& v == Value::Integer(computed(arithmetic_of(op).unwrap(), x, y))
                &&& fits(computed(arithmetic_of(op).unwrap(), x, y))
                &&& fits(exact(arithmetic_of(op).unwrap(), x, y)) ==> v == Value::Integer(
                    exact(arithmetic_of(op).unwrap(), x, y),
                )
            },
            AppliedModel::Failed(e) => divides(arithmetic_of(op).unwrap()) && e.kind
                == ErrorKind::Arithmetic,
            AppliedModel::Float(_) => false,
        },
{
    let a = arithmetic_of(op).unwrap();
    lemma_wrapped(exact(a, x, y));
    if y != 0 {
        lemma_truncated_bounds(x, y);
    }
}

/// Arithmetic on two numbers of which at least one is a float gives a float: the
/// operator and both operands go to the host as they are, an integer operand to be
/// promoted there.
pub proof fn lemma_floats_give_float(op: Seq<char>, left: Value, right: Value)
    requires
        arithmetic_of(op) is Some,
        number_of(left) is Some,
        number_of(right) is Some,
        left is Float || right is Float,
    ensures
        apply_binary(op, left, right) == AppliedModel::Float(
            FloatTask {
                op: arithmetic_of(op).unwrap(),
                left: number_of(left).unwrap(),
                right: number_of(right).unwrap(),
            },
        ),
{
}

/// `+` on two strings is their concatenation.
pub proof fn lemma_plus_joins_strings(left: Seq<char>, right: Seq<char>)
    ensures
        apply_binary("+"@, Value::String(left), Value::String(right)) == AppliedModel::Value(
            Value::String(left + right),
        ),
{
}

/// Comparisons are defined on two integers and on two strings only: on such a pair a
/// comparison gives a boolean, on every other pair it is a failure of kind `Type`.
pub proof fn lemma_comparison_domain(op: Seq<char>, left: Value, right: Value)
    requires
        comparison_of(op) is Some,
        arithmetic_of(op) is None,
    ensures
        match apply_binary(op, left, right) {
            AppliedModel::Value(v) => v is Bool && ((left is Integer && right is Integer) || (
            left is String && right is String)),
            AppliedModel::Failed(e) => e.kind == ErrorKind::Type && !((left is Integer
                && right is Integer) || (left is String && right is String)),
            AppliedModel::Float(_) => false,
        },
{
}

} // verus!
