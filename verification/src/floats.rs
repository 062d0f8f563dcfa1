//! Floating-point numbers, held as numerals.
//!
//! The library holds a floating-point number as a numeral and asks its caller
//! for what the number type of the machine makes of it: a function from an
//! operation and two numerals to an answer.
use crate::ast::BinaryOp;
use vstd::prelude::*;

verus! {

/// What the library asks about floating-point numbers.
#[derive(Debug, Clone, Copy, PartialEq, Eq, Structural)]
pub enum FloatOp {
    /// The shortest numeral of the first operand; the second is ignored.
    Canonical,
    Add,
    Subtract,
    Multiply,
    Divide,
    Modulo,
    Equal,
    NotEqual,
    Less,
    LessEqual,
    Greater,
    GreaterEqual,
}

/// The numeral of the result, for an operation that gives a number, and the
/// outcome, for a comparison.
#[derive(Debug, PartialEq, Eq)]
pub struct FloatAnswer {
    pub number: String,
    pub truth: bool,
}

/// A machine's floating-point numbers: the answer to each question.
pub type FloatModel = spec_fn(FloatOp, Seq<char>, Seq<char>) -> (Seq<char>, bool);

/// Whether a function answers every question, and answers equal questions
/// alike.
pub open spec fn answers<F: Fn(FloatOp, String, String) -> FloatAnswer>(floats: F) -> bool {
    &&& forall|op: FloatOp, a: String, b: String| #[trigger] call_requires(floats, (op, a, b))
    &&& forall|
        op: FloatOp,
        a: String,
        b: String,
        r: FloatAnswer,
        c: String,
        d: String,
        s: FloatAnswer,
    |
        #![trigger call_ensures(floats, (op, a, b), r), call_ensures(floats, (op, c, d), s)]
        call_ensures(floats, (op, a, b), r) && call_ensures(floats, (op, c, d), s) && a@ == c@
            && b@ == d@ ==> r.number@ == s.number@ && r.truth == s.truth
}

/// Whether `r` is an answer to a question that reads `op`, `a`, `b`.
pub open spec fn is_answer<F: Fn(FloatOp, String, String) -> FloatAnswer>(
    floats: F,
    op: FloatOp,
    a: Seq<char>,
    b: Seq<char>,
    r: FloatAnswer,
) -> bool {
    exists|x: String, y: String|
        x@ == a && y@ == b && #[trigger] call_ensures(floats, (op, x, y), r)
}

/// The numbers that a function stands for.
pub open spec fn float_model<F: Fn(FloatOp, String, String) -> FloatAnswer>(
    floats: F,
) -> FloatModel {
    |op: FloatOp, a: Seq<char>, b: Seq<char>|
        {
            let r = choose|r: FloatAnswer| is_answer(floats, op, a, b, r);
            (r.number@, r.truth)
        }
}

/// Asks one question.
pub fn ask<F: Fn(FloatOp, String, String) -> FloatAnswer>(
    floats: &F,
    op: FloatOp,
    a: &String,
    b: &String,
) -> (r: FloatAnswer)
    requires
        answers(*floats),
    ensures
        (r.number@, r.truth) == float_model(*floats)(op, a@, b@),
{
    let x: String = a.clone();
    let y: String = b.clone();
    let ghost left = x;
    let ghost right = y;
    let r: FloatAnswer = floats(op, x, y);
    assert(call_ensures(*floats, (op, left, right), r));
    assert(is_answer(*floats, op, a@, b@, r));
    r
}

/// The question that an operator asks of two floating-point numbers, if it
/// applies to them.
pub open spec fn float_question(op: BinaryOp) -> Option<FloatOp> {
    match op {
        BinaryOp::Add => Some(FloatOp::Add),
        BinaryOp::Subtract => Some(FloatOp::Subtract),
        BinaryOp::Multiply => Some(FloatOp::Multiply),
        BinaryOp::Divide => Some(FloatOp::Divide),
        BinaryOp::Modulo => Some(FloatOp::Modulo),
        BinaryOp::Equal => Some(FloatOp::Equal),
        BinaryOp::NotEqual => Some(FloatOp::NotEqual),
        BinaryOp::Less => Some(FloatOp::Less),
        BinaryOp::LessEqual => Some(FloatOp::LessEqual),
        BinaryOp::Greater => Some(FloatOp::Greater),
        BinaryOp::GreaterEqual => Some(FloatOp::GreaterEqual),
        _ => None,
    }
}

pub fn float_op(op: BinaryOp) -> (r: Option<FloatOp>)
    ensures
        r == float_question(op),
{
    match op {
        BinaryOp::Add => Some(FloatOp::Add),
        BinaryOp::Subtract => Some(FloatOp::Subtract),
        BinaryOp::Multiply => Some(FloatOp::Multiply),
        BinaryOp::Divide => Some(FloatOp::Divide),
        BinaryOp::Modulo => Some(FloatOp::Modulo),
        BinaryOp::Equal => Some(FloatOp::Equal),
        BinaryOp::NotEqual => Some(FloatOp::NotEqual),
        BinaryOp::Less => Some(FloatOp::Less),
        BinaryOp::LessEqual => Some(FloatOp::LessEqual),
        BinaryOp::Greater => Some(FloatOp::Greater),
        BinaryOp::GreaterEqual => Some(FloatOp::GreaterEqual),
        _ => None,
    }
}

/// Whether an operator compares.
pub open spec fn compares(op: BinaryOp) -> bool {
    match op {
        BinaryOp::Equal => true,
        BinaryOp::NotEqual => true,
        BinaryOp::Less => true,
        BinaryOp::LessEqual => true,
        BinaryOp::Greater => true,
        BinaryOp::GreaterEqual => true,
        _ => false,
    }
}

pub fn is_comparison(op: BinaryOp) -> (r: bool)
    ensures
        r == compares(op),
{
    match op {
        BinaryOp::Equal => true,
        BinaryOp::NotEqual => true,
        BinaryOp::Less => true,
        BinaryOp::LessEqual => true,
        BinaryOp::Greater => true,
        BinaryOp::GreaterEqual => true,
        _ => false,
    }
}

/// The numeral of the negated number: the sign taken away or put before.
pub open spec fn negated(number: Seq<char>) -> Seq<char> {
    if number.len() > 0 && number[0] == '-' {
        number.drop_first()
    } else if number.len() > 0 && number[0] == '+' {
        seq!['-'] + number.drop_first()
    } else {
        seq!['-'] + number
    }
}

/// The numeral of the negated number.
pub fn negate_text(number: &String) -> (r: String)
    ensures
        r@ == negated(number@),
{
    let chars: Vec<char> = crate::text::chars_of(number.as_str());
    let signed: bool = chars.len() > 0 && (chars[0] == '-' || chars[0] == '+');
    let start: usize = if signed {
        1
    } else {
        0
    };
    let body: String = crate::text::text_between(&chars, start, chars.len());
    assert(start == 0 ==> body@ =~= number@);
    assert(start == 1 ==> body@ =~= number@.drop_first());
    if chars.len() > 0 && chars[0] == '-' {
        return body;
    }
    let mut sign: String = String::new();
    sign.push('-');
    let out: String = crate::text::joined(sign, body.as_str());
    assert(out@ =~= seq!['-'] + body@);
    out
}

/// Negating twice gives the same numeral back, for one without a plus sign
/// that does not start with two signs.
pub proof fn lemma_negated_twice(number: Seq<char>)
    requires
        number.len() > 0 ==> number[0] != '+',
        number.len() > 1 && number[0] == '-' ==> number[1] != '-' && number[1] != '+',
        number != seq!['-'],
    ensures
        negated(negated(number)) == number,
{
    if number.len() > 0 && number[0] == '-' {
        assert(negated(negated(number)) =~= number);
    } else {
        assert(negated(negated(number)) =~= number);
    }
}

} // verus!
