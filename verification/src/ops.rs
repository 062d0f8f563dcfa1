//! What the operators do to scalar values. Compile-time and run-time
//! evaluation share these.
use crate::ast::{BinaryOp, UnaryOp};
use crate::floats::{
    answers, ask, compares, float_model, float_op, float_question, is_comparison, negate_text,
    negated, FloatAnswer, FloatModel, FloatOp,
};
use crate::integers::{
    divide, held, hold, hold_bits, hold_complement, hold_difference, hold_negation, hold_product,
    hold_shift_up, hold_sum, lemma_held_in_range, lemma_pow2_128, low, low_bits, quotient, remain,
    remainder, shift_down,
};
use crate::typed::{IntegerWidth, ResolvedType};
use vstd::arithmetic::power2::pow2;
use vstd::prelude::*;

verus! {

/// A scalar value. A floating-point number is held as a numeral.
#[allow(inconsistent_fields)]
#[derive(Debug, PartialEq, Eq)]
pub enum Value {
    Bool(bool),
    Integer(i128),
    Float(String),
}

/// What a `Value` holds.
#[allow(inconsistent_fields)]
pub ghost enum ValueView {
    Bool(bool),
    Integer(i128),
    Float(Seq<char>),
}

impl Value {
    pub open spec fn view(&self) -> ValueView
        decreases self,
    {
        match self {
            Value::Bool(inner) => ValueView::Bool(*inner),
            Value::Integer(inner) => ValueView::Integer(*inner),
            Value::Float(inner) => ValueView::Float(inner@),
        }
    }
}

impl Clone for Value {
    fn clone(&self) -> (r: Self)
        ensures
            r@ == self@,
        decreases self,
    {
        match self {
            Value::Bool(inner) => Value::Bool(*inner),
            Value::Integer(inner) => Value::Integer(*inner),
            Value::Float(inner) => Value::Float(inner.clone()),
        }
    }
}

#[derive(Debug, Clone, Copy, PartialEq, Eq, Structural)]
pub enum Error {
    DivisionByZero,
    InvalidOperation,
}

/// The width of a type's integers, and whether they are signed. What is no
/// integer type counts as the widest signed one.
pub open spec fn width_of(ty: ResolvedType, pointer_width: u32) -> (nat, bool) {
    match ty {
        ResolvedType::Integer { width, signed } => match width {
            IntegerWidth::Bits(bits) => (bits as nat, signed),
            IntegerWidth::Pointer => (pointer_width as nat, signed),
        },
        _ => (128, true),
    }
}

/// Whether a value counts as true.
pub open spec fn truth_of(value: ValueView) -> Result<bool, Error> {
    match value {
        ValueView::Bool(b) => Ok(b),
        ValueView::Integer(n) => Ok(n != 0),
        ValueView::Float(_) => Err(Error::InvalidOperation),
    }
}

/// What a prefix operator makes of a value.
pub open spec fn unary_of(op: UnaryOp, value: ValueView, width: nat, signed: bool) -> Result<
    ValueView,
    Error,
> {
    match (op, value) {
        (UnaryOp::Negate, ValueView::Integer(n)) => Ok(
            ValueView::Integer(held(-n, width, signed) as i128),
        ),
        (UnaryOp::Negate, ValueView::Float(x)) => Ok(ValueView::Float(negated(x))),
        (UnaryOp::Not, ValueView::Bool(b)) => Ok(ValueView::Bool(!b)),
        (UnaryOp::BitwiseNot, ValueView::Integer(n)) => Ok(
            ValueView::Integer(held(-1 - n, width, signed) as i128),
        ),
        _ => Err(Error::InvalidOperation),
    }
}

/// Whether a division has no value: the divisor is zero, or the quotient is
/// one more than the greatest signed number there is.
pub open spec fn undivided(a: int, b: int, width: nat, signed: bool) -> bool {
    ||| low(b, width) == 0
    ||| signed && held(a, width, signed) == i128::MIN && held(b, width, signed) == -1
}

/// How two integers of a width compare.
pub open spec fn compared(op: BinaryOp, a: int, b: int, width: nat, signed: bool) -> bool {
    let (x, y) = if signed {
        (held(a, width, signed), held(b, width, signed))
    } else {
        (low(a, width), low(b, width))
    };
    match op {
        BinaryOp::Equal => low(a, width) == low(b, width),
        BinaryOp::NotEqual => low(a, width) != low(b, width),
        BinaryOp::Less => x < y,
        BinaryOp::LessEqual => x <= y,
        BinaryOp::Greater => x > y,
        _ => x >= y,
    }
}

/// What an operator makes of two integers of a width.
pub open spec fn integer_binary(op: BinaryOp, a: int, b: int, width: nat, signed: bool) -> Result<
    ValueView,
    Error,
> {
    let x = low(a, width);
    let y = low(b, width);
    let result =
        |v: int| Ok::<ValueView, Error>(ValueView::Integer(held(v, width, signed) as i128));
    if compares(op) {
        Ok(ValueView::Bool(compared(op, a, b, width, signed)))
    } else {
        match op {
            BinaryOp::Add => result(a + b),
            BinaryOp::Subtract => result(a - b),
            BinaryOp::Multiply => result(a * b),
            BinaryOp::Divide => if undivided(a, b, width, signed) {
                Err(Error::DivisionByZero)
            } else if signed {
                result(quotient(held(a, width, signed), held(b, width, signed)))
            } else {
                result(x / y)
            },
            BinaryOp::Modulo => if undivided(a, b, width, signed) {
                Err(Error::DivisionByZero)
            } else if signed {
                result(remainder(held(a, width, signed), held(b, width, signed)))
            } else {
                result(x % y)
            },
            BinaryOp::BitwiseAnd => result(((x as u128) & (y as u128)) as int),
            BinaryOp::BitwiseOr => result(((x as u128) | (y as u128)) as int),
            BinaryOp::BitwiseXor => result(((x as u128) ^ (y as u128)) as int),
            BinaryOp::ShiftLeft => if y < width && y < 128 {
                result(x * pow2(y as nat))
            } else {
                Err(Error::InvalidOperation)
            },
            BinaryOp::ShiftRight => if y < width && y < 128 {
                if signed {
                    result(held(a, width, signed) / (pow2(y as nat) as int))
                } else {
                    result(x / (pow2(y as nat) as int))
                }
            } else {
                Err(Error::InvalidOperation)
            },
            _ => Err(Error::InvalidOperation),
        }
    }
}

/// What an operator makes of two floating-point numbers.
pub open spec fn float_binary(m: FloatModel, op: BinaryOp, a: Seq<char>, b: Seq<char>) -> Result<
    ValueView,
    Error,
> {
    match float_question(op) {
        None => Err(Error::InvalidOperation),
        Some(question) => if compares(op) {
            Ok(ValueView::Bool(m(question, a, b).1))
        } else {
            Ok(ValueView::Float(m(question, a, b).0))
        },
    }
}

/// What an operator makes of two truth values.
pub open spec fn bool_binary(op: BinaryOp, a: bool, b: bool) -> Result<ValueView, Error> {
    match op {
        BinaryOp::Equal => Ok(ValueView::Bool(a == b)),
        BinaryOp::NotEqual => Ok(ValueView::Bool(a != b)),
        BinaryOp::LogicalAnd => Ok(ValueView::Bool(a && b)),
        BinaryOp::LogicalOr => Ok(ValueView::Bool(a || b)),
        _ => Err(Error::InvalidOperation),
    }
}

/// What an operator makes of two values.
pub open spec fn binary_of(
    m: FloatModel,
    op: BinaryOp,
    left: ValueView,
    right: ValueView,
    width: nat,
    signed: bool,
) -> Result<ValueView, Error> {
    match (left, right) {
        (ValueView::Integer(a), ValueView::Integer(b)) => integer_binary(
            op,
            a as int,
            b as int,
            width,
            signed,
        ),
        (ValueView::Float(a), ValueView::Float(b)) => float_binary(m, op, a, b),
        (ValueView::Bool(a), ValueView::Bool(b)) => bool_binary(op, a, b),
        _ => Err(Error::InvalidOperation),
    }
}

/// What a result holds.
pub open spec fn outcome(r: Result<Value, Error>) -> Result<ValueView, Error> {
    match r {
        Ok(value) => Ok(value@),
        Err(error) => Err(error),
    }
}

pub fn truth(value: &Value) -> (r: Result<bool, Error>)
    ensures
        r == truth_of(value@),
{
    match value {
        Value::Bool(b) => Ok(*b),
        Value::Integer(n) => Ok(*n != 0),
        Value::Float(_) => Err(Error::InvalidOperation),
    }
}

pub fn unary(op: UnaryOp, value: Value, ty: &ResolvedType) -> (r: Result<Value, Error>)
    ensures
        outcome(r) == unary_of(op, value@, width_of(*ty, 128).0, width_of(*ty, 128).1),
{
    unary_with_pointer_width(op, value, ty, 128)
}

pub fn unary_with_pointer_width(
    op: UnaryOp,
    value: Value,
    ty: &ResolvedType,
    pointer_width: u32,
) -> (r: Result<Value, Error>)
    ensures
        outcome(r) == unary_of(
            op,
            value@,
            width_of(*ty, pointer_width).0,
            width_of(*ty, pointer_width).1,
        ),
{
    let (width, signed) = integer_info(ty, pointer_width);
    match (op, value) {
        (UnaryOp::Negate, Value::Integer(n)) => Ok(
            Value::Integer(hold_negation(n, width, signed)),
        ),
        (UnaryOp::Negate, Value::Float(x)) => Ok(Value::Float(negate_text(&x))),
        (UnaryOp::Not, Value::Bool(b)) => Ok(Value::Bool(!b)),
        (UnaryOp::BitwiseNot, Value::Integer(n)) => Ok(
            Value::Integer(hold_complement(n, width, signed)),
        ),
        _ => Err(Error::InvalidOperation),
    }
}

pub fn binary<F: Fn(FloatOp, String, String) -> FloatAnswer>(
    op: BinaryOp,
    left: Value,
    right: Value,
    ty: &ResolvedType,
    floats: &F,
) -> (r: Result<Value, Error>)
    requires
        answers(*floats),
    ensures
        outcome(r) == binary_of(
            float_model(*floats),
            op,
            left@,
            right@,
            width_of(*ty, 128).0,
            width_of(*ty, 128).1,
        ),
{
    binary_with_pointer_width(op, left, right, ty, 128, floats)
}

pub fn binary_with_pointer_width<F: Fn(FloatOp, String, String) -> FloatAnswer>(
    op: BinaryOp,
    left: Value,
    right: Value,
    ty: &ResolvedType,
    pointer_width: u32,
    floats: &F,
) -> (r: Result<Value, Error>)
    requires
        answers(*floats),
    ensures
        outcome(r) == binary_of(
            float_model(*floats),
            op,
            left@,
            right@,
            width_of(*ty, pointer_width).0,
            width_of(*ty, pointer_width).1,
        ),
{
    let (width, signed) = integer_info(ty, pointer_width);
    match (left, right) {
        (Value::Integer(a), Value::Integer(b)) => integers(op, a, b, width, signed),
        (Value::Float(a), Value::Float(b)) => match float_op(op) {
            None => Err(Error::InvalidOperation),
            Some(question) => {
                let answer: FloatAnswer = ask(floats, question, &a, &b);
                if is_comparison(op) {
                    Ok(Value::Bool(answer.truth))
                } else {
                    Ok(Value::Float(answer.number))
                }
            },
        },
        (Value::Bool(a), Value::Bool(b)) => match op {
            BinaryOp::Equal => Ok(Value::Bool(a == b)),
            BinaryOp::NotEqual => Ok(Value::Bool(a != b)),
            BinaryOp::LogicalAnd => Ok(Value::Bool(a && b)),
            BinaryOp::LogicalOr => Ok(Value::Bool(a || b)),
            _ => Err(Error::InvalidOperation),
        },
        _ => Err(Error::InvalidOperation),
    }
}

/// What an operator makes of two integers of a width.
fn integers(op: BinaryOp, a: i128, b: i128, width: u32, signed: bool) -> (r: Result<Value, Error>)
    ensures
        outcome(r) == integer_binary(op, a as int, b as int, width as nat, signed),
{
    proof {
        lemma_pow2_128();
        lemma_held_in_range(a as int, width as nat, signed);
        lemma_held_in_range(b as int, width as nat, signed);
    }
    let x: u128 = low_bits(a, width);
    let y: u128 = low_bits(b, width);
    let n: i128 = hold(a, width, signed);
    let k: i128 = hold(b, width, signed);
    if is_comparison(op) {
        return Ok(Value::Bool(integer_comparison(op, x, y, n, k, signed)));
    }
    match op {
        BinaryOp::Add => Ok(Value::Integer(hold_sum(a, b, width, signed))),
        BinaryOp::Subtract => Ok(Value::Integer(hold_difference(a, b, width, signed))),
        BinaryOp::Multiply => Ok(Value::Integer(hold_product(a, b, width, signed))),
        BinaryOp::Divide => {
            if y == 0 || (signed && n == i128::MIN && k == -1) {
                Err(Error::DivisionByZero)
            } else if signed {
                proof {
                    lemma_zero_bits(b as int, width as nat, signed);
                }
                Ok(Value::Integer(hold(divide(n, k), width, signed)))
            } else {
                Ok(Value::Integer(hold_bits(x / y, width, signed)))
            }
        },
        BinaryOp::Modulo => {
            if y == 0 || (signed && n == i128::MIN && k == -1) {
                Err(Error::DivisionByZero)
            } else if signed {
                proof {
                    lemma_zero_bits(b as int, width as nat, signed);
                }
                Ok(Value::Integer(hold(remain(n, k), width, signed)))
            } else {
                Ok(Value::Integer(hold_bits(x % y, width, signed)))
            }
        },
        BinaryOp::BitwiseAnd => Ok(Value::Integer(hold_bits(x & y, width, signed))),
        BinaryOp::BitwiseOr => Ok(Value::Integer(hold_bits(x | y, width, signed))),
        BinaryOp::BitwiseXor => Ok(Value::Integer(hold_bits(x ^ y, width, signed))),
        BinaryOp::ShiftLeft => {
            if y < width as u128 && y < 128 {
                Ok(Value::Integer(hold_shift_up(x, y as u32, width, signed)))
            } else {
                Err(Error::InvalidOperation)
            }
        },
        BinaryOp::ShiftRight => {
            if y < width as u128 && y < 128 {
                if signed {
                    Ok(Value::Integer(hold(shift_down(n, y as u32), width, signed)))
                } else {
                    let p: u128 = crate::integers::power_of_two(y as u32);
                    proof {
                        vstd::arithmetic::power2::lemma_pow2_pos(y as nat);
                    }
                    Ok(Value::Integer(hold_bits(x / p, width, signed)))
                }
            } else {
                Err(Error::InvalidOperation)
            }
        },
        _ => Err(Error::InvalidOperation),
    }
}

/// A number held as zero has no low bits set.
proof fn lemma_zero_bits(v: int, width: nat, signed: bool)
    ensures
        held(v, width, signed) == 0 ==> low(v, width) == 0,
{
    reveal(held);
    reveal(low);
    lemma_pow2_128();
    lemma_held_in_range(v, width, signed);
}

fn integer_comparison(op: BinaryOp, x: u128, y: u128, n: i128, k: i128, signed: bool) -> (r: bool)
    requires
        compares(op),
    ensures
        r == (match op {
            BinaryOp::Equal => x == y,
            BinaryOp::NotEqual => x != y,
            BinaryOp::Less => if signed {
                n < k
            } else {
                x < y
            },
            BinaryOp::LessEqual => if signed {
                n <= k
            } else {
                x <= y
            },
            BinaryOp::Greater => if signed {
                n > k
            } else {
                x > y
            },
            _ => if signed {
                n >= k
            } else {
                x >= y
            },
        }),
{
    match op {
        BinaryOp::Equal => x == y,
        BinaryOp::NotEqual => x != y,
        BinaryOp::Less => {
            if signed {
                n < k
            } else {
                x < y
            }
        },
        BinaryOp::LessEqual => {
            if signed {
                n <= k
            } else {
                x <= y
            }
        },
        BinaryOp::Greater => {
            if signed {
                n > k
            } else {
                x > y
            }
        },
        _ => {
            if signed {
                n >= k
            } else {
                x >= y
            }
        },
    }
}

fn integer_info(ty: &ResolvedType, pointer_width: u32) -> (r: (u32, bool))
    ensures
        (r.0 as nat, r.1) == width_of(*ty, pointer_width),
{
    match ty {
        ResolvedType::Integer { width, signed } => match width {
            IntegerWidth::Bits(bits) => (*bits as u32, *signed),
            IntegerWidth::Pointer => (pointer_width, *signed),
        },
        _ => (128, true),
    }
}

pub fn normalize(value: i128, ty: &ResolvedType) -> (r: i128)
    ensures
        r == held(value as int, width_of(*ty, 128).0, width_of(*ty, 128).1),
{
    normalize_with_pointer_width(value, ty, 128)
}

/// The number as a type holds it.
pub fn normalize_with_pointer_width(value: i128, ty: &ResolvedType, pointer_width: u32) -> (r: i128)
    ensures
        r == held(
            value as int,
            width_of(*ty, pointer_width).0,
            width_of(*ty, pointer_width).1,
        ),
{
    let (width, signed) = integer_info(ty, pointer_width);
    hold(value, width, signed)
}

/// The value of an integer operation is held as its type holds it.
pub proof fn lemma_results_are_normal(op: BinaryOp, a: i128, b: i128, width: nat, signed: bool)
    ensures
        integer_binary(op, a as int, b as int, width, signed) matches Ok(ValueView::Integer(n))
            ==> held(n as int, width, signed) == n,
{
    if let Ok(ValueView::Integer(n)) = integer_binary(op, a as int, b as int, width, signed) {
        let x = low(a as int, width);
        let y = low(b as int, width);
        let h = held(a as int, width, signed);
        let k = held(b as int, width, signed);
        let v: int = match op {
            BinaryOp::Add => a + b,
            BinaryOp::Subtract => a - b,
            BinaryOp::Multiply => a * b,
            BinaryOp::Divide => if signed {
                quotient(h, k)
            } else {
                x / y
            },
            BinaryOp::Modulo => if signed {
                remainder(h, k)
            } else {
                x % y
            },
            BinaryOp::BitwiseAnd => ((x as u128) & (y as u128)) as int,
            BinaryOp::BitwiseOr => ((x as u128) | (y as u128)) as int,
            BinaryOp::BitwiseXor => ((x as u128) ^ (y as u128)) as int,
            BinaryOp::ShiftLeft => x * pow2(y as nat),
            _ => if signed {
                h / (pow2(y as nat) as int)
            } else {
                x / (pow2(y as nat) as int)
            },
        };
        lemma_held_in_range(v, width, signed);
        crate::integers::lemma_held_is_stable(v, width, signed);
        assert(n == held(v, width, signed));
    }
}

} // verus!
