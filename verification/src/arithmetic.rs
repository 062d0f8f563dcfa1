//! Operations of the machine on bits give what operators give on numbers.
use crate::ast::BinaryOp;
use crate::emission::{int_operation, int_test};
use crate::folding::lemma_held_low;
use crate::integers::{
    held, lemma_held_in_range, lemma_pow2_128, lemma_pow2_below, low, quotient, remainder,
};
use crate::machine::{bits, operation_result, signed_value, test_holds, Val};
use crate::ops;
use vstd::arithmetic::div_mod::{
    lemma_add_mod_noop, lemma_mod_bound, lemma_mod_twice, lemma_mul_mod_noop, lemma_sub_mod_noop,
    lemma_sub_mod_noop_right,
};
use vstd::arithmetic::power2::{lemma_pow2_pos, lemma_pow2_strictly_increases, pow2};
use vstd::prelude::*;

verus! {

/// A number as the machine holds it.
pub open spec fn bits_of(n: int, width: nat) -> Val {
    Val::Bits { width, value: low(n, width) as nat }
}

/// Whether there are integers of a width.
pub open spec fn is_width(width: nat) -> bool {
    width == 8 || width == 16 || width == 32 || width == 64 || width == 128
}

pub proof fn lemma_bits_are_low(n: int, width: nat)
    requires
        width <= 128,
    ensures
        bits(width, n) == bits_of(n, width),
        0 <= low(n, width) < pow2(width),
        low(low(n, width), width) == low(n, width),
{
    reveal(low);
    lemma_pow2_pos(width);
    lemma_mod_bound(n, pow2(width) as int);
    lemma_mod_twice(n, pow2(width) as int);
}

/// Reading bits with a sign gives the number that is held there.
pub proof fn lemma_signed_bits(n: int, width: nat)
    requires
        0 < width <= 128,
    ensures
        signed_value(width, low(n, width) as nat) == held(n, width, true),
{
    reveal(low);
    reveal(held);
    lemma_bits_are_low(n, width);
}

proof fn lemma_low_sum(a: int, b: int, width: nat)
    requires
        width <= 128,
    ensures
        bits(width, low(a, width) + low(b, width)) == bits_of(a + b, width),
        bits(width, low(a, width) - low(b, width)) == bits_of(a - b, width),
        bits(width, low(a, width) * low(b, width)) == bits_of(a * b, width),
{
    reveal(low);
    lemma_pow2_pos(width);
    let m = pow2(width) as int;
    lemma_add_mod_noop(a, b, m);
    lemma_sub_mod_noop(a, b, m);
    lemma_mul_mod_noop(a, b, m);
}

/// Arithmetic on bits gives the bits of what the operator gives: with the guards
/// that stand before divisions and shifts, wherever the operator has a value.
/// The least number divided by minus one is left out, where code stops.
pub proof fn lemma_operations_compute(op: BinaryOp, a: i128, b: i128, width: nat, signed: bool)
    requires
        is_width(width),
        int_operation(op, signed) is Some,
        (op == BinaryOp::Divide || op == BinaryOp::Modulo) && signed ==> !(held(
            a as int,
            width,
            true,
        ) == -pow2((width - 1) as nat) && held(b as int, width, true) == -1),
    ensures
        ops::integer_binary(op, a as int, b as int, width, signed) matches Ok(
            ops::ValueView::Integer(n),
        ) ==> operation_result(
            int_operation(op, signed)->Some_0.0,
            width,
            low(a as int, width) as nat,
            low(b as int, width) as nat,
        ) == Some(bits_of(n as int, width)),
        ops::integer_binary(op, a as int, b as int, width, signed) matches Ok(v) ==> v is Integer,
        op == BinaryOp::Divide || op == BinaryOp::Modulo ==> (ops::integer_binary(
            op,
            a as int,
            b as int,
            width,
            signed,
        ) is Err <==> low(b as int, width) == 0),
        op == BinaryOp::ShiftLeft || op == BinaryOp::ShiftRight ==> (ops::integer_binary(
            op,
            a as int,
            b as int,
            width,
            signed,
        ) is Err <==> low(b as int, width) >= width),
        op == BinaryOp::Add || op == BinaryOp::Subtract || op == BinaryOp::Multiply || op
            == BinaryOp::BitwiseAnd || op == BinaryOp::BitwiseOr || op == BinaryOp::BitwiseXor
            ==> ops::integer_binary(op, a as int, b as int, width, signed) is Ok,
{
    let x = low(a as int, width);
    let y = low(b as int, width);
    lemma_bits_are_low(a as int, width);
    lemma_bits_are_low(b as int, width);
    lemma_signed_bits(a as int, width);
    lemma_signed_bits(b as int, width);
    lemma_low_sum(a as int, b as int, width);
    lemma_pow2_128();
    if width < 128 {
        lemma_held_in_range(a as int, width, true);
        lemma_pow2_below((width - 1) as nat);
        lemma_pow2_strictly_increases((width - 1) as nat, 127);
    }
    let raw = match op {
        BinaryOp::Add => a + b,
        BinaryOp::Subtract => a - b,
        BinaryOp::Multiply => a * b,
        BinaryOp::BitwiseAnd => ((x as u128) & (y as u128)) as int,
        BinaryOp::BitwiseOr => ((x as u128) | (y as u128)) as int,
        BinaryOp::BitwiseXor => ((x as u128) ^ (y as u128)) as int,
        BinaryOp::ShiftLeft => x * pow2(y as nat),
        BinaryOp::ShiftRight => if signed {
            held(a as int, width, true) / pow2(y as nat) as int
        } else {
            x / pow2(y as nat) as int
        },
        BinaryOp::Divide => if signed {
            quotient(held(a as int, width, true), held(b as int, width, true))
        } else {
            x / y
        },
        _ => if signed {
            remainder(held(a as int, width, true), held(b as int, width, true))
        } else {
            x % y
        },
    };
    lemma_held_low(raw, width, signed);
    lemma_held_in_range(raw, width, signed);
    lemma_bits_are_low(raw, width);
}

/// Comparisons of bits hold where the operator does.
pub proof fn lemma_tests_compare(op: BinaryOp, a: int, b: int, width: nat, signed: bool)
    requires
        is_width(width),
        int_test(op, signed) is Some,
    ensures
        ops::integer_binary(op, a, b, width, signed) == Ok::<ops::ValueView, ops::Error>(
            ops::ValueView::Bool(
                test_holds(
                    int_test(op, signed)->Some_0.0,
                    width,
                    low(a, width) as nat,
                    low(b, width) as nat,
                ),
            ),
        ),
{
    lemma_bits_are_low(a, width);
    lemma_bits_are_low(b, width);
    lemma_signed_bits(a, width);
    lemma_signed_bits(b, width);
}

/// A minus sign and a complement on bits.
pub proof fn lemma_prefixes_compute(n: i128, width: nat, signed: bool)
    requires
        is_width(width),
    ensures
        bits(width, -(low(n as int, width))) == bits_of(held(-n, width, signed), width),
        bits(width, -1 - low(n as int, width)) == bits_of(held(-1 - n, width, signed), width),
{
    reveal(low);
    lemma_pow2_pos(width);
    let m = pow2(width) as int;
    lemma_sub_mod_noop_right(0, n as int, m);
    lemma_sub_mod_noop_right(-1, n as int, m);
    lemma_held_low(-n, width, signed);
    lemma_held_low(-1 - n, width, signed);
}

} // verus!
