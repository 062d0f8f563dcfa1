//! Evaluation of pure expressions that are typed already.
//!
//! Names, integer widths, aggregates and result values are resolved by then.
//! What only makes sense at run time has no value here.
use crate::ast::{BinaryOp, UnaryOp};
use crate::floats::{answers, float_model, FloatAnswer, FloatModel, FloatOp};
use crate::integers::held;
use crate::ops;
use crate::typed::{typed_exprs_view, ResolvedType, TypedExpr, TypedExprView};
use vstd::prelude::*;

verus! {

/// The value of a constant expression. A floating-point number is held as a
/// numeral.
#[allow(inconsistent_fields)]
#[derive(Debug, PartialEq, Eq)]
pub enum Value {
    Unit,
    Bool(bool),
    Integer(i128),
    Float(String),
    Struct(Vec<Value>),
    Array(Vec<Value>),
    Result { error: bool, value: Box<Value> },
}

/// What a `Value` holds.
#[allow(inconsistent_fields)]
pub ghost enum ValueView {
    Unit,
    Bool(bool),
    Integer(i128),
    Float(Seq<char>),
    Struct(Seq<ValueView>),
    Array(Seq<ValueView>),
    Result { error: bool, value: Box<ValueView> },
}

impl Value {
    pub open spec fn view(&self) -> ValueView
        decreases self,
    {
        match self {
            Value::Unit => ValueView::Unit,
            Value::Bool(inner) => ValueView::Bool(*inner),
            Value::Integer(inner) => ValueView::Integer(*inner),
            Value::Float(inner) => ValueView::Float(inner@),
            Value::Struct(inner) => ValueView::Struct(values_view(inner@)),
            Value::Array(inner) => ValueView::Array(values_view(inner@)),
            Value::Result { error, value } => ValueView::Result {
                error: *error,
                value: Box::new(value.view()),
            },
        }
    }
}

impl Clone for Value {
    fn clone(&self) -> (r: Self)
        ensures
            r@ == self@,
        decreases self,
    {
        match self {
            Value::Unit => Value::Unit,
            Value::Bool(inner) => Value::Bool(*inner),
            Value::Integer(inner) => Value::Integer(*inner),
            Value::Float(inner) => Value::Float(inner.clone()),
            Value::Struct(inner) => Value::Struct(values_clone(inner)),
            Value::Array(inner) => Value::Array(values_clone(inner)),
            Value::Result { error, value } => Value::Result {
                error: *error,
                value: Box::new((**value).clone()),
            },
        }
    }
}

/// What a list of `Value` holds.
pub open spec fn values_view(s: Seq<Value>) -> Seq<ValueView>
    decreases s,
{
    Seq::new(
        s.len(),
        |i: int|
            if 0 <= i < s.len() {
                s[i].view()
            } else {
                arbitrary()
            },
    )
}

pub broadcast proof fn lemma_values_push(s: Seq<Value>, x: Value)
    ensures
        #[trigger] values_view(s.push(x)) == values_view(s).push(x@),
{
    assert(values_view(s.push(x)) =~= values_view(s).push(x@));
}

pub fn values_clone(v: &Vec<Value>) -> (r: Vec<Value>)
    ensures
        values_view(r@) == values_view(v@),
    decreases v,
{
    let mut out: Vec<Value> = Vec::new();
    for i in 0..v.len()
        invariant
            out.len() == i,
            forall|j: int| 0 <= j < i ==> (#[trigger] out@[j])@ == v@[j]@,
    {
        out.push(v[i].clone());
    }
    assert(values_view(out@) =~= values_view(v@));
    out
}

#[derive(Debug, Clone, Copy, PartialEq, Eq, Structural)]
pub enum Error {
    NotConstant,
    DivisionByZero,
    InvalidOperation,
}

impl Error {
    /// What the error's message reads.
    pub open spec fn message(self) -> Seq<char> {
        match self {
            Error::NotConstant => "expression is not a pure compile-time constant"@,
            Error::DivisionByZero => "division by zero during typed evaluation"@,
            Error::InvalidOperation => "invalid operation during typed evaluation"@,
        }
    }

    pub fn to_string(&self) -> (r: String)
        ensures
            r@ == self.message(),
    {
        match self {
            Error::NotConstant => "expression is not a pure compile-time constant".to_owned(),
            Error::DivisionByZero => "division by zero during typed evaluation".to_owned(),
            Error::InvalidOperation => "invalid operation during typed evaluation".to_owned(),
        }
    }
}

/// The scalar that a value is, if it is one.
pub open spec fn scalar(value: ValueView) -> Option<ops::ValueView> {
    match value {
        ValueView::Bool(b) => Some(ops::ValueView::Bool(b)),
        ValueView::Integer(n) => Some(ops::ValueView::Integer(n)),
        ValueView::Float(x) => Some(ops::ValueView::Float(x)),
        _ => None,
    }
}

/// A scalar as a value.
pub open spec fn lifted(value: ops::ValueView) -> ValueView {
    match value {
        ops::ValueView::Bool(b) => ValueView::Bool(b),
        ops::ValueView::Integer(n) => ValueView::Integer(n),
        ops::ValueView::Float(x) => ValueView::Float(x),
    }
}

/// What an operation on scalars gives, as a value.
pub open spec fn lifted_result(r: Result<ops::ValueView, ops::Error>) -> Result<ValueView, Error> {
    match r {
        Ok(value) => Ok(lifted(value)),
        Err(ops::Error::DivisionByZero) => Err(Error::DivisionByZero),
        Err(ops::Error::InvalidOperation) => Err(Error::InvalidOperation),
    }
}

/// What a prefix operator makes of a value.
pub open spec fn unary_of(op: UnaryOp, value: ValueView, ty: ResolvedType) -> Result<
    ValueView,
    Error,
> {
    match scalar(value) {
        Some(x) => lifted_result(
            ops::unary_of(op, x, ops::width_of(ty, 128).0, ops::width_of(ty, 128).1),
        ),
        None => Err(Error::InvalidOperation),
    }
}

/// What an operator makes of two values.
pub open spec fn binary_of(
    m: FloatModel,
    op: BinaryOp,
    left: ValueView,
    right: ValueView,
    ty: ResolvedType,
) -> Result<ValueView, Error> {
    match (scalar(left), scalar(right)) {
        (Some(a), Some(b)) => lifted_result(
            ops::binary_of(m, op, a, b, ops::width_of(ty, 128).0, ops::width_of(ty, 128).1),
        ),
        _ => Err(Error::InvalidOperation),
    }
}

/// Whether a value counts as true.
pub open spec fn truth_of(value: ValueView) -> Result<bool, Error> {
    match value {
        ValueView::Bool(b) => Ok(b),
        ValueView::Integer(n) => Ok(n != 0),
        _ => Err(Error::InvalidOperation),
    }
}

/// The value of a typed expression.
///
/// Calls, pointers, loads and layout queries have none. `&&` and `||` look at
/// their right side only where the left one does not decide.
pub open spec fn value_of(m: FloatModel, e: TypedExprView) -> Result<ValueView, Error>
    decreases e, 0int,
{
    match e {
        TypedExprView::Integer { value, ty, .. } => Ok(
            ValueView::Integer(
                held(value as int, ops::width_of(ty, 128).0, ops::width_of(ty, 128).1) as i128,
            ),
        ),
        TypedExprView::Float { value, .. } => Ok(ValueView::Float(value)),
        TypedExprView::Bool { value, .. } => Ok(ValueView::Bool(value)),
        TypedExprView::StructLiteral { fields, .. } => match values_of(m, fields, 0, Seq::empty()) {
            Ok(values) => Ok(ValueView::Struct(values)),
            Err(error) => Err(error),
        },
        TypedExprView::ArrayLiteral { elements, .. } => match values_of(
            m,
            elements,
            0,
            Seq::empty(),
        ) {
            Ok(values) => Ok(ValueView::Array(values)),
            Err(error) => Err(error),
        },
        TypedExprView::Unary { operator, operand, ty, .. } => match value_of(m, *operand) {
            Ok(value) => unary_of(operator, value, ty),
            Err(error) => Err(error),
        },
        TypedExprView::Binary { left, operator, right, operand_type, .. } => match value_of(
            m,
            *left,
        ) {
            Err(error) => Err(error),
            Ok(a) => {
                let logical = operator == BinaryOp::LogicalAnd || operator == BinaryOp::LogicalOr;
                if logical && truth_of(a) is Err {
                    Err(Error::InvalidOperation)
                } else if operator == BinaryOp::LogicalAnd && truth_of(a) == Ok::<bool, Error>(
                    false,
                ) {
                    Ok(ValueView::Bool(false))
                } else if operator == BinaryOp::LogicalOr && truth_of(a)
                    == Ok::<bool, Error>(true) {
                    Ok(ValueView::Bool(true))
                } else {
                    match value_of(m, *right) {
                        Err(error) => Err(error),
                        Ok(b) => binary_of(m, operator, a, b, operand_type),
                    }
                }
            },
        },
        TypedExprView::ResultOk { value, .. } => match value_of(m, *value) {
            Ok(inner) => Ok(ValueView::Result { error: false, value: Box::new(inner) }),
            Err(error) => Err(error),
        },
        TypedExprView::ResultErr { value, .. } => match value_of(m, *value) {
            Ok(inner) => Ok(ValueView::Result { error: true, value: Box::new(inner) }),
            Err(error) => Err(error),
        },
        TypedExprView::IsErr { value, .. } => match value_of(m, *value) {
            Ok(ValueView::Result { error, .. }) => Ok(ValueView::Bool(error)),
            Ok(_) => Err(Error::InvalidOperation),
            Err(error) => Err(error),
        },
        TypedExprView::Unwrap { value, .. } => match value_of(m, *value) {
            Ok(ValueView::Result { error, value: inner }) => if error {
                Err(Error::InvalidOperation)
            } else {
                Ok(*inner)
            },
            Ok(_) => Err(Error::InvalidOperation),
            Err(error) => Err(error),
        },
        TypedExprView::Propagate { value, .. } => match value_of(m, *value) {
            Ok(ValueView::Result { error, value: inner }) => if error {
                Ok(ValueView::Result { error: true, value: inner })
            } else {
                Ok(*inner)
            },
            Ok(_) => Err(Error::InvalidOperation),
            Err(error) => Err(error),
        },
        _ => Err(Error::NotConstant),
    }
}

/// The values of a list of expressions from `i` on, after those before it.
pub open spec fn values_of(
    m: FloatModel,
    es: Seq<TypedExprView>,
    i: int,
    before: Seq<ValueView>,
) -> Result<Seq<ValueView>, Error>
    decreases es, es.len() - i,
{
    if i < 0 || i >= es.len() {
        Ok(before)
    } else {
        match value_of(m, es[i]) {
            Ok(value) => values_of(m, es, i + 1, before.push(value)),
            Err(error) => Err(error),
        }
    }
}

/// What a result holds.
pub open spec fn outcome(r: Result<Value, Error>) -> Result<ValueView, Error> {
    match r {
        Ok(value) => Ok(value@),
        Err(error) => Err(error),
    }
}

/// The value of a typed expression.
pub fn evaluate<F: Fn(FloatOp, String, String) -> FloatAnswer>(
    expression: &TypedExpr,
    floats: &F,
) -> (r: Result<Value, Error>)
    requires
        answers(*floats),
    ensures
        outcome(r) == value_of(float_model(*floats), expression@),
    decreases expression,
{
    match expression {
        TypedExpr::Integer { value, ty, .. } => Ok(Value::Integer(ops::normalize(*value, ty))),
        TypedExpr::Float { value, .. } => Ok(Value::Float(value.clone())),
        TypedExpr::Bool { value, .. } => Ok(Value::Bool(*value)),
        TypedExpr::StructLiteral { fields, .. } => Ok(Value::Struct(evaluate_all(fields, floats)?)),
        TypedExpr::ArrayLiteral { elements, .. } => Ok(
            Value::Array(evaluate_all(elements, floats)?),
        ),
        TypedExpr::Unary { operator, operand, ty, .. } => {
            let value: Value = evaluate(operand, floats)?;
            match to_scalar(value) {
                Some(x) => lift_result(ops::unary(*operator, x, ty)),
                None => Err(Error::InvalidOperation),
            }
        },
        TypedExpr::Binary { left, operator, right, operand_type, .. } => {
            let a: Value = evaluate(left, floats)?;
            if *operator == BinaryOp::LogicalAnd && !truth(&a)? {
                return Ok(Value::Bool(false));
            }
            if *operator == BinaryOp::LogicalOr && truth(&a)? {
                return Ok(Value::Bool(true));
            }
            let b: Value = evaluate(right, floats)?;
            binary(*operator, a, b, operand_type, floats)
        },
        TypedExpr::ResultOk { value, .. } => {
            let inner: Value = evaluate(value, floats)?;
            Ok(Value::Result { error: false, value: Box::new(inner) })
        },
        TypedExpr::ResultErr { value, .. } => {
            let inner: Value = evaluate(value, floats)?;
            Ok(Value::Result { error: true, value: Box::new(inner) })
        },
        TypedExpr::IsErr { value, .. } => match evaluate(value, floats)? {
            Value::Result { error, .. } => Ok(Value::Bool(error)),
            _ => Err(Error::InvalidOperation),
        },
        TypedExpr::Unwrap { value, .. } => match evaluate(value, floats)? {
            Value::Result { error, value: inner } => {
                if error {
                    Err(Error::InvalidOperation)
                } else {
                    Ok(*inner)
                }
            },
            _ => Err(Error::InvalidOperation),
        },
        TypedExpr::Propagate { value, .. } => match evaluate(value, floats)? {
            Value::Result { error, value: inner } => {
                if error {
                    Ok(Value::Result { error: true, value: inner })
                } else {
                    Ok(*inner)
                }
            },
            _ => Err(Error::InvalidOperation),
        },
        _ => Err(Error::NotConstant),
    }
}

fn evaluate_all<F: Fn(FloatOp, String, String) -> FloatAnswer>(
    es: &Vec<TypedExpr>,
    floats: &F,
) -> (r: Result<Vec<Value>, Error>)
    requires
        answers(*floats),
    ensures
        match r {
            Ok(values) => values_of(
                float_model(*floats),
                typed_exprs_view(es@),
                0,
                Seq::empty(),
            ) == Ok::<Seq<ValueView>, Error>(values_view(values@)),
            Err(error) => values_of(
                float_model(*floats),
                typed_exprs_view(es@),
                0,
                Seq::empty(),
            ) == Err::<Seq<ValueView>, Error>(error),
        },
    decreases es,
{
    let ghost m = float_model(*floats);
    let ghost all = typed_exprs_view(es@);
    let mut out: Vec<Value> = Vec::new();
    assert(values_view(out@) =~= Seq::empty());
    for i in 0..es.len()
        invariant
            answers(*floats),
            m == float_model(*floats),
            all == typed_exprs_view(es@),
            values_of(m, all, 0, Seq::empty()) == values_of(m, all, i as int, values_view(out@)),
    {
        assert(all[i as int] == es@[i as int]@);
        let value: Value = evaluate(&es[i], floats)?;
        proof {
            lemma_values_push(out@, value);
        }
        out.push(value);
    }
    Ok(out)
}

/// Whether an expression has a value.
pub fn is_constant<F: Fn(FloatOp, String, String) -> FloatAnswer>(
    expression: &TypedExpr,
    floats: &F,
) -> (r: bool)
    requires
        answers(*floats),
    ensures
        r == (value_of(float_model(*floats), expression@) is Ok),
{
    match evaluate(expression, floats) {
        Ok(_) => true,
        Err(_) => false,
    }
}

fn truth(value: &Value) -> (r: Result<bool, Error>)
    ensures
        r == truth_of(value@),
{
    match value {
        Value::Bool(b) => Ok(*b),
        Value::Integer(n) => Ok(*n != 0),
        _ => Err(Error::InvalidOperation),
    }
}

fn to_scalar(value: Value) -> (r: Option<ops::Value>)
    ensures
        match r {
            Some(x) => scalar(value@) == Some(x@),
            None => scalar(value@) is None,
        },
{
    match value {
        Value::Bool(b) => Some(ops::Value::Bool(b)),
        Value::Integer(n) => Some(ops::Value::Integer(n)),
        Value::Float(x) => Some(ops::Value::Float(x)),
        _ => None,
    }
}

fn lift_result(r: Result<ops::Value, ops::Error>) -> (s: Result<Value, Error>)
    ensures
        outcome(s) == lifted_result(ops::outcome(r)),
{
    match r {
        Ok(ops::Value::Bool(b)) => Ok(Value::Bool(b)),
        Ok(ops::Value::Integer(n)) => Ok(Value::Integer(n)),
        Ok(ops::Value::Float(x)) => Ok(Value::Float(x)),
        Err(ops::Error::DivisionByZero) => Err(Error::DivisionByZero),
        Err(ops::Error::InvalidOperation) => Err(Error::InvalidOperation),
    }
}

fn binary<F: Fn(FloatOp, String, String) -> FloatAnswer>(
    op: BinaryOp,
    left: Value,
    right: Value,
    ty: &ResolvedType,
    floats: &F,
) -> (r: Result<Value, Error>)
    requires
        answers(*floats),
    ensures
        outcome(r) == binary_of(float_model(*floats), op, left@, right@, *ty),
{
    match (to_scalar(left), to_scalar(right)) {
        (Some(a), Some(b)) => lift_result(ops::binary(op, a, b, ty, floats)),
        _ => Err(Error::InvalidOperation),
    }
}

/// `false && x` is false and `true || x` is true, whatever `x` is.
pub proof fn lemma_short_circuit(m: FloatModel, e: TypedExprView)
    ensures
        match e {
            TypedExprView::Binary { left, operator, .. } => {
                &&& operator == BinaryOp::LogicalAnd && value_of(m, *left) == Ok::<
                    ValueView,
                    Error,
                >(ValueView::Bool(false)) ==> value_of(m, e) == Ok::<ValueView, Error>(
                    ValueView::Bool(false),
                )
                &&& operator == BinaryOp::LogicalOr && value_of(m, *left) == Ok::<
                    ValueView,
                    Error,
                >(ValueView::Bool(true)) ==> value_of(m, e) == Ok::<ValueView, Error>(
                    ValueView::Bool(true),
                )
            },
            _ => true,
        },
{
}

} // verus!
