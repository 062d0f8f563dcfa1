//! Working out constant expressions while a program is typed gives what
//! evaluating them gives.
use crate::ast::{BinaryOp, UnaryOp};
use crate::floats::{compares, FloatModel};
use crate::integers::{
    held, lemma_held_in_range, lemma_held_is_stable, lemma_pow2_128, lemma_pow2_below, low,
};
use crate::lexer::Span;
use crate::ops;
use crate::typed::{IntegerWidth, ResolvedType, TypedExprView};
use crate::typed_eval;
use crate::typing;
use vstd::arithmetic::div_mod::{
    lemma_mod_add_multiples_vanish, lemma_mod_bound, lemma_mod_breakdown, lemma_mod_decreases,
    lemma_mod_mod, lemma_mod_twice, lemma_mul_mod_noop_left, lemma_small_mod,
    lemma_sub_mod_noop_right,
};
use vstd::arithmetic::power2::{
    lemma2_to64, lemma_pow2_adds, lemma_pow2_pos, lemma_pow2_strictly_increases, lemma_pow2_unfold,
    pow2,
};
use vstd::prelude::*;

verus! {

/// What an operator on bits makes of two numbers.
spec fn bits(op: BinaryOp, x: u128, y: u128) -> u128 {
    match op {
        BinaryOp::BitwiseAnd => x & y,
        BinaryOp::BitwiseOr => x | y,
        _ => x ^ y,
    }
}

proof fn lemma_bits_halve(op: BinaryOp, x: u128, y: u128)
    ensures
        bits(op, x, y) / 2 == bits(op, x / 2, y / 2),
        bits(op, x, y) % 2 == bits(op, x % 2, y % 2),
{
    assert((x & y) / 2 == (x / 2) & (y / 2) && (x & y) % 2 == (x % 2) & (y % 2)) by (bit_vector);
    assert((x | y) / 2 == (x / 2) | (y / 2) && (x | y) % 2 == (x % 2) | (y % 2)) by (bit_vector);
    assert((x ^ y) / 2 == (x / 2) ^ (y / 2) && (x ^ y) % 2 == (x % 2) ^ (y % 2)) by (bit_vector);
}

proof fn lemma_low_halves(n: nat, width: nat)
    requires
        width > 0,
    ensures
        ({
            let half = pow2((width - 1) as nat) as int;
            let rest = n as int % pow2(width) as int;
            &&& rest == 2 * ((n as int / 2) % half) + n as int % 2
            &&& rest / 2 == (n as int / 2) % half
            &&& rest % 2 == n as int % 2
        }),
{
    lemma_pow2_unfold(width);
    lemma_pow2_pos((width - 1) as nat);
    lemma_mod_breakdown(n as int, 2, pow2((width - 1) as nat) as int);
    lemma_mod_bound(n as int / 2, pow2((width - 1) as nat) as int);
}

/// The low bits of the result come from the low bits of the operands.
proof fn lemma_bits_low(op: BinaryOp, x: u128, y: u128, width: nat)
    ensures
        ({
            let m = pow2(width) as int;
            &&& 0 <= x as int % m <= x
            &&& 0 <= y as int % m <= y
            &&& bits(op, x, y) as int % m == bits(
                op,
                (x as int % m) as u128,
                (y as int % m) as u128,
            ) as int % m
        }),
    decreases width,
{
    lemma_pow2_pos(width);
    let m = pow2(width) as int;
    lemma_mod_bound(x as int, m);
    lemma_mod_bound(y as int, m);
    lemma_mod_decreases(x as nat, m as nat);
    lemma_mod_decreases(y as nat, m as nat);
    if width == 0 {
        lemma2_to64();
    } else {
        let a = (x as int % m) as u128;
        let b = (y as int % m) as u128;
        lemma_bits_halve(op, x, y);
        lemma_bits_halve(op, a, b);
        lemma_low_halves(x as nat, width);
        lemma_low_halves(y as nat, width);
        lemma_low_halves(bits(op, x, y) as nat, width);
        lemma_low_halves(bits(op, a, b) as nat, width);
        lemma_bits_low(op, x / 2, y / 2, (width - 1) as nat);
    }
}

/// A number that is held has the low bits of what it stands for, and is held
/// by nothing else.
pub proof fn lemma_held_low(v: int, width: nat, signed: bool)
    ensures
        low(held(v, width, signed), width) == low(v, width),
        forall|u: int| #[trigger]
            low(u, width) == low(v, width) ==> held(u, width, signed) == held(v, width, signed),
        held(v, width, signed) != 0 ==> low(v, width) != 0,
{
    reveal(held);
    reveal(low);
    let w: nat = if width >= 128 {
        128
    } else {
        width
    };
    let m = pow2(w) as int;
    lemma_pow2_pos(w);
    let r = v % m;
    lemma_mod_bound(v, m);
    lemma_small_mod(r as nat, m as nat);
    lemma_mod_add_multiples_vanish(r - m, m);
}

/// An unsigned number that is held reads the same in all bits.
proof fn lemma_held_unsigned(v: int, width: nat)
    ensures
        low(held(v, width, false), width) == low(held(v, width, false), 128),
{
    let h = held(v, width, false);
    if width < 128 {
        lemma_held_in_range(v, width, false);
        reveal(low);
        lemma_pow2_128();
        lemma_pow2_below(width);
        lemma_small_mod(h as nat, pow2(width));
        lemma_small_mod(h as nat, pow2(128));
    } else {
        reveal(low);
    }
}

/// The low bits of the low bits.
proof fn lemma_low_low(v: int, width: nat)
    ensures
        low(low(v, 128), width) == low(v, width),
        low(low(v, width), width) == low(v, width),
        0 <= low(v, width) <= u128::MAX,
        0 <= low(v, 128) <= u128::MAX,
        width < 128 ==> low(v, width) == low(v, 128) % (pow2(width) as int),
        width >= 128 ==> low(v, width) == low(v, 128),
{
    lemma_held_in_range(v, width, false);
    lemma_held_in_range(v, 128, false);
    reveal(low);
    lemma_pow2_128();
    if width < 128 {
        let rest = (128 - width) as nat;
        lemma_pow2_adds(width, rest);
        lemma_pow2_pos(width);
        lemma_pow2_pos(rest);
        lemma_mod_mod(v, pow2(width) as int, pow2(rest) as int);
        lemma_mod_twice(v, pow2(width) as int);
    } else {
        lemma_mod_twice(v, pow2(128) as int);
    }
}

proof fn lemma_bits_held(op: BinaryOp, a: int, b: int, width: nat, signed: bool)
    ensures
        ({
            let all = bits(op, low(a, 128) as u128, low(b, 128) as u128) as int;
            let few = bits(op, low(a, width) as u128, low(b, width) as u128) as int;
            held(all, width, signed) == held(few, width, signed)
        }),
{
    lemma_low_low(a, width);
    lemma_low_low(b, width);
    let all = bits(op, low(a, 128) as u128, low(b, 128) as u128);
    let few = bits(op, low(a, width) as u128, low(b, width) as u128);
    if width < 128 {
        lemma_bits_low(op, low(a, 128) as u128, low(b, 128) as u128, width);
        assert(low(all as int, width) == low(few as int, width)) by {
            reveal(low);
        }
        lemma_held_low(few as int, width, signed);
    }
}

proof fn lemma_amount(b: int, width: nat, signed: bool)
    requires
        held(b, width, signed) == b,
        b >= 0,
    ensures
        low(b, width) == b,
{
    lemma_held_in_range(b, width, signed);
    reveal(low);
    lemma_pow2_128();
    let w: nat = if width >= 128 {
        128
    } else {
        width
    };
    if width == 0 {
        lemma_low_low(b, width);
        reveal(held);
    } else if width < 128 {
        lemma_pow2_unfold(width);
    }
    lemma_pow2_pos(w);
    lemma_small_mod(b as nat, pow2(w));
}

proof fn lemma_shifted_held(x: int, y: int, n: nat, width: nat, signed: bool)
    requires
        low(x, width) == low(y, width),
    ensures
        held(x * pow2(n), width, signed) == held(y * pow2(n), width, signed),
{
    let w: nat = if width >= 128 {
        128
    } else {
        width
    };
    let m = pow2(w) as int;
    lemma_pow2_pos(w);
    assert(low(x * pow2(n), width) == low(y * pow2(n), width)) by {
        reveal(low);
        lemma_mul_mod_noop_left(x, pow2(n) as int, m);
        lemma_mul_mod_noop_left(y, pow2(n) as int, m);
    }
    lemma_held_low(y * pow2(n), width, signed);
}

/// Working out an operator on two integer literals of a type gives what
/// evaluation gives: sums, differences, products and shifts wrap around,
/// quotients and remainders round towards zero, and comparisons mind the sign.
/// What has no value is left as it is.
pub proof fn lemma_folding_agrees_with_evaluation(
    m: FloatModel,
    op: BinaryOp,
    x: i128,
    y: i128,
    width: u16,
    signed: bool,
    ty: ResolvedType,
    left_span: Span,
    right_span: Span,
    span: Span,
)
    requires
        width > 0,
    ensures
        ({
            let operand_type = typing::sized(width, signed);
            let left = TypedExprView::Integer { value: x, ty: operand_type, span: left_span };
            let right = TypedExprView::Integer { value: y, ty: operand_type, span: right_span };
            let whole = TypedExprView::Binary {
                left: Box::new(left),
                operator: op,
                right: Box::new(right),
                ty,
                operand_type,
                span,
            };
            match typing::folded_pair(m, left, op, right, ty, operand_type, span) {
                TypedExprView::Integer { value, .. } => typed_eval::value_of(m, whole) == Ok::<
                    typed_eval::ValueView,
                    typed_eval::Error,
                >(typed_eval::ValueView::Integer(value)),
                TypedExprView::Bool { value, .. } => typed_eval::value_of(m, whole) == Ok::<
                    typed_eval::ValueView,
                    typed_eval::Error,
                >(typed_eval::ValueView::Bool(value)),
                other => other == whole,
            }
        }),
{
    let operand_type = typing::sized(width, signed);
    let left = TypedExprView::Integer { value: x, ty: operand_type, span: left_span };
    let right = TypedExprView::Integer { value: y, ty: operand_type, span: right_span };
    let w = width as nat;
    let a = held(x as int, w, signed);
    let b = held(y as int, w, signed);
    lemma_held_in_range(x as int, w, signed);
    lemma_held_in_range(y as int, w, signed);
    lemma_held_is_stable(x as int, w, signed);
    lemma_held_is_stable(y as int, w, signed);
    lemma_held_low(x as int, w, signed);
    lemma_held_low(y as int, w, signed);
    lemma_held_low(a, w, signed);
    lemma_held_low(b, w, signed);
    lemma_pow2_128();
    if w > 0 && w < 128 {
        lemma_pow2_below((w - 1) as nat);
        lemma_pow2_strictly_increases((w - 1) as nat, 127);
    }
    if !signed {
        lemma_held_unsigned(x as int, w);
        lemma_held_unsigned(y as int, w);
    }
    assert(typed_eval::value_of(m, left) == Ok::<typed_eval::ValueView, typed_eval::Error>(
        typed_eval::ValueView::Integer(a as i128),
    ));
    assert(typed_eval::value_of(m, right) == Ok::<typed_eval::ValueView, typed_eval::Error>(
        typed_eval::ValueView::Integer(b as i128),
    ));
    assert(low(a, w) == low(b, w) ==> a == b);
    let whole = TypedExprView::Binary {
        left: Box::new(left),
        operator: op,
        right: Box::new(right),
        ty,
        operand_type,
        span,
    };
    let found = ops::integer_binary(op, a, b, w, signed);
    assert(op != BinaryOp::LogicalAnd && op != BinaryOp::LogicalOr ==> typed_eval::value_of(
        m,
        whole,
    ) == typed_eval::lifted_result(found));
    assert(typing::folding_width(operand_type) == w && operand_type.signed() == signed);
    assert(typing::folded_integer(x as int, operand_type) == a);
    assert(typing::folded_integer(y as int, operand_type) == b);
    if compares(op) {
        assert(typing::folded_comparison(op, a, b, signed) == ops::compared(op, a, b, w, signed));
    } else if let Some(result) = typing::folded_binary(op, a, b, operand_type) {
        if op == BinaryOp::Divide || op == BinaryOp::Modulo {
            assert(low(b, w) != 0);
            if signed && w < 128 {
                assert(a > i128::MIN);
            }
            assert(!ops::undivided(a, b, w, signed));
        }
        if op == BinaryOp::BitwiseAnd || op == BinaryOp::BitwiseOr || op == BinaryOp::BitwiseXor {
            lemma_bits_held(op, a, b, w, signed);
        }
        if op == BinaryOp::ShiftLeft || op == BinaryOp::ShiftRight {
            lemma_amount(b, w, signed);
            let n = typing::shift_amount(b, w)->Some_0;
            lemma_low_low(a, w);
            lemma_shifted_held(low(a, 128), low(a, w), n, w, signed);
        }
        assert(found == Ok::<ops::ValueView, ops::Error>(
            ops::ValueView::Integer(held(result, w, signed) as i128),
        ));
    }
}

/// A minus sign or a bitwise complement in front of an integer literal of a type
/// gives what evaluation gives.
pub proof fn lemma_prefixes_agree_with_evaluation(
    m: FloatModel,
    op: UnaryOp,
    x: i128,
    width: u16,
    signed: bool,
    operand_span: Span,
    span: Span,
)
    requires
        op == UnaryOp::Negate || op == UnaryOp::BitwiseNot,
    ensures
        ({
            let ty = typing::sized(width, signed);
            let operand = TypedExprView::Integer { value: x, ty, span: operand_span };
            let whole = TypedExprView::Unary { operator: op, operand: Box::new(operand), ty, span };
            typed_eval::value_of(m, whole) == Ok::<typed_eval::ValueView, typed_eval::Error>(
                typed_eval::ValueView::Integer(
                    typing::folded_operand(op, operand, ty, span)->Integer_value,
                ),
            )
        }),
{
    let ty = typing::sized(width, signed);
    let operand = TypedExprView::Integer { value: x, ty, span: operand_span };
    let w = width as nat;
    let a = held(x as int, w, signed);
    lemma_held_in_range(x as int, w, signed);
    assert(typed_eval::value_of(m, operand) == Ok::<typed_eval::ValueView, typed_eval::Error>(
        typed_eval::ValueView::Integer(a as i128),
    ));
    lemma_held_low(x as int, w, signed);
    lemma_held_low(-x, w, signed);
    lemma_held_low(-1 - x, w, signed);
    assert(low(-a, w) == low(-x, w) && low(-1 - a, w) == low(-1 - x, w)) by {
        reveal(low);
        let m = pow2(if w >= 128 {
            128
        } else {
            w
        }) as int;
        lemma_pow2_pos(if w >= 128 {
            128
        } else {
            w
        });
        lemma_sub_mod_noop_right(0, a, m);
        lemma_sub_mod_noop_right(0, x as int, m);
        lemma_sub_mod_noop_right(-1, a, m);
        lemma_sub_mod_noop_right(-1, x as int, m);
    }
    assert(held(-a, w, signed) == held(-x, w, signed));
    assert(held(-1 - a, w, signed) == held(-1 - x, w, signed));
}

// ---------------------------------------------------------------------------
// Whole expressions
// ---------------------------------------------------------------------------

/// Whether a type is one whose operators are worked out alike everywhere: truth
/// values, floating-point numbers, and integers of a given width.
pub open spec fn is_scalar(ty: ResolvedType) -> bool {
    match ty {
        ResolvedType::Bool => true,
        ResolvedType::Float { .. } => true,
        ResolvedType::Integer { width, .. } => width matches IntegerWidth::Bits(bits) && bits > 0,
        _ => false,
    }
}

/// Whether literals have types of their kind, operands the types of their
/// operators, and comparisons give truth values.
pub open spec fn is_well_typed(e: TypedExprView) -> bool
    decreases e,
{
    match e {
        TypedExprView::Integer { ty, .. } => ty is Integer,
        TypedExprView::Float { ty, .. } => ty is Float,
        TypedExprView::Bool { ty, .. } => ty == ResolvedType::Bool,
        TypedExprView::Unary { operand, ty, .. } => is_scalar(ty) && (*operand).ty() == ty
            && is_well_typed(*operand),
        TypedExprView::Binary { left, operator, right, ty, operand_type, .. } => {
            &&& is_scalar(operand_type)
            &&& (*left).ty() == operand_type
            &&& (*right).ty() == operand_type
            &&& ty == if compares(operator) || operator == BinaryOp::LogicalAnd || operator
                == BinaryOp::LogicalOr {
                ResolvedType::Bool
            } else {
                operand_type
            }
            &&& is_well_typed(*left)
            &&& is_well_typed(*right)
        },
        TypedExprView::StructLiteral { fields, .. } => all_well_typed(fields),
        TypedExprView::ArrayLiteral { elements, .. } => all_well_typed(elements),
        _ => true,
    }
}

pub open spec fn all_well_typed(es: Seq<TypedExprView>) -> bool
    decreases es,
{
    forall|i: int| 0 <= i < es.len() ==> is_well_typed(#[trigger] es[i])
}

proof fn lemma_folding_keeps_types(m: FloatModel, e: TypedExprView)
    requires
        is_well_typed(e),
    ensures
        is_well_typed(typing::folded(m, e)),
        typing::folded(m, e).ty() == e.ty(),
        typing::folded(m, e).span() == e.span(),
    decreases e,
{
    match e {
        TypedExprView::Unary { operand, .. } => {
            lemma_folding_keeps_types(m, *operand);
        },
        TypedExprView::Binary { left, right, .. } => {
            lemma_folding_keeps_types(m, *left);
            lemma_folding_keeps_types(m, *right);
        },
        TypedExprView::StructLiteral { fields, .. } => {
            assert(all_well_typed(fields));
            assert forall|i: int| 0 <= i < fields.len() implies is_well_typed(
                #[trigger] typing::all_folded(m, fields)[i],
            ) by {
                lemma_folding_keeps_types(m, fields[i]);
            }
            assert(all_well_typed(typing::all_folded(m, fields)));
        },
        TypedExprView::ArrayLiteral { elements, .. } => {
            assert(all_well_typed(elements));
            assert forall|i: int| 0 <= i < elements.len() implies is_well_typed(
                #[trigger] typing::all_folded(m, elements)[i],
            ) by {
                lemma_folding_keeps_types(m, elements[i]);
            }
            assert(all_well_typed(typing::all_folded(m, elements)));
        },
        _ => {},
    }
}

proof fn lemma_folded_unary(m: FloatModel, e: TypedExprView)
    requires
        e is Unary,
        is_well_typed(e),
        typed_eval::value_of(m, e) is Ok,
        typed_eval::value_of(m, typing::folded(m, *e->Unary_operand)) == typed_eval::value_of(
            m,
            *e->Unary_operand,
        ),
    ensures
        typed_eval::value_of(m, typing::folded(m, e)) == typed_eval::value_of(m, e),
{
    if let TypedExprView::Unary { operator, operand, ty, span } = e {
        lemma_folding_keeps_types(m, *operand);
        let inner = typing::folded(m, *operand);
        if let TypedExprView::Integer { value, span: at, .. } = inner {
            if operator == UnaryOp::Negate || operator == UnaryOp::BitwiseNot {
                if let ResolvedType::Integer { width: IntegerWidth::Bits(bits), signed } = ty {
                    lemma_prefixes_agree_with_evaluation(
                        m,
                        operator,
                        value,
                        bits,
                        signed,
                        at,
                        span,
                    );
                    let whole = TypedExprView::Unary {
                        operator,
                        operand: Box::new(inner),
                        ty,
                        span,
                    };
                    assert(typed_eval::value_of(m, whole) == typed_eval::value_of(m, e));
                    lemma_held_is_stable(-value, bits as nat, signed);
                    lemma_held_is_stable(-1 - value, bits as nat, signed);
                    lemma_held_in_range(-value, bits as nat, signed);
                    lemma_held_in_range(-1 - value, bits as nat, signed);
                }
            }
        }
    }
}

proof fn lemma_folded_binary(m: FloatModel, e: TypedExprView)
    requires
        e is Binary,
        is_well_typed(e),
        typed_eval::value_of(m, e) is Ok,
        typed_eval::value_of(m, typing::folded(m, *e->Binary_left)) == typed_eval::value_of(
            m,
            *e->Binary_left,
        ),
        typed_eval::value_of(m, *e->Binary_right) is Ok ==> typed_eval::value_of(
            m,
            typing::folded(m, *e->Binary_right),
        ) == typed_eval::value_of(m, *e->Binary_right),
    ensures
        typed_eval::value_of(m, typing::folded(m, e)) == typed_eval::value_of(m, e),
{
    if let TypedExprView::Binary { left, operator, right, ty, operand_type, span } = e {
        lemma_folding_keeps_types(m, *left);
        lemma_folding_keeps_types(m, *right);
        let a = typing::folded(m, *left);
        let b = typing::folded(m, *right);
        let whole = TypedExprView::Binary {
            left: Box::new(a),
            operator,
            right: Box::new(b),
            ty,
            operand_type,
            span,
        };
        assert(typed_eval::value_of(m, whole) == typed_eval::value_of(m, e));
        if let TypedExprView::Integer { value: x, span: left_span, .. } = a {
            if let TypedExprView::Integer { value: y, span: right_span, .. } = b {
                if let ResolvedType::Integer { width: IntegerWidth::Bits(bits), signed }
                    = operand_type {
                    lemma_folding_agrees_with_evaluation(
                        m,
                        operator,
                        x,
                        y,
                        bits,
                        signed,
                        ty,
                        left_span,
                        right_span,
                        span,
                    );
                    let first = typing::folded_integer(x as int, operand_type);
                    let second = typing::folded_integer(y as int, operand_type);
                    if let Some(result) = typing::folded_binary(
                        operator,
                        first as int,
                        second as int,
                        operand_type,
                    ) {
                        lemma_held_is_stable(result, bits as nat, signed);
                        lemma_held_in_range(result, bits as nat, signed);
                    }
                }
            }
        }
    }
}

/// Working out the operators of a constant expression never changes its value,
/// its type or its place: what evaluates, evaluates to the same afterwards.
pub proof fn lemma_folding_keeps_values(m: FloatModel, e: TypedExprView)
    requires
        is_well_typed(e),
    ensures
        typed_eval::value_of(m, e) is Ok ==> typed_eval::value_of(m, typing::folded(m, e))
            == typed_eval::value_of(m, e),
        typing::folded(m, e).ty() == e.ty(),
        typing::folded(m, e).span() == e.span(),
    decreases e, 0int,
{
    lemma_folding_keeps_types(m, e);
    if typed_eval::value_of(m, e) is Ok {
        match e {
            TypedExprView::Unary { operand, .. } => {
                lemma_folding_keeps_values(m, *operand);
                lemma_folded_unary(m, e);
            },
            TypedExprView::Binary { left, right, .. } => {
                lemma_folding_keeps_values(m, *left);
                lemma_folding_keeps_values(m, *right);
                lemma_folded_binary(m, e);
            },
            TypedExprView::StructLiteral { fields, .. } => {
                lemma_folding_keeps_lists(m, fields, 0, Seq::empty());
            },
            TypedExprView::ArrayLiteral { elements, .. } => {
                lemma_folding_keeps_lists(m, elements, 0, Seq::empty());
            },
            _ => {},
        }
    }
}

proof fn lemma_folding_keeps_lists(
    m: FloatModel,
    es: Seq<TypedExprView>,
    i: int,
    before: Seq<typed_eval::ValueView>,
)
    requires
        all_well_typed(es),
    ensures
        typed_eval::values_of(m, es, i, before) is Ok ==> typed_eval::values_of(
            m,
            typing::all_folded(m, es),
            i,
            before,
        ) == typed_eval::values_of(m, es, i, before),
    decreases es, es.len() - i,
{
    if 0 <= i < es.len() {
        lemma_folding_keeps_values(m, es[i]);
        assert(typing::all_folded(m, es)[i] == typing::folded(m, es[i]));
        if let Ok(value) = typed_eval::value_of(m, es[i]) {
            lemma_folding_keeps_lists(m, es, i + 1, before.push(value));
        }
    }
}

} // verus!
