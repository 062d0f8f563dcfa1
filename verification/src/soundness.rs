//! The commands that code generation gives are well wired.
use crate::ast::{BinaryOp, UnaryOp};
use crate::emission::{
    all_performed, append, appended, block_emitted, blocks_emitted, call_issued, called, cleaned,
    compared, declared, division_guarded, element_pointed, emitted, ended, enter, entered,
    error_returned, float_operated, function_emitted, give, guarded, index_checked, inserted,
    int_operated, int_test, issue, loaded, local_of, logic_joined, next, number, operated,
    other_entered, outcome_built, packed, parameter_entered, part_taken, passed, passed_type,
    performed, place_told, pointed, pointer_moved, pointers_operated, slice_built, success_taken,
    told, unary_operated, unpacked, Emission, Surroundings,
};
use crate::instructions::{
    CodegenErrorView, CommandView, LowBinary, LowType, LowUnary, IntTest, OperandView, ValueView,
};
use crate::lexer::Span;
use crate::mir;
use crate::mir::{MirCleanupView, MirFunctionView, MirInstructionView, MirTerminatorView};
use crate::typed::{DefId, LocalId, ResolvedType, TypedExprView, TypedParameterView, TypedPlaceView};
use crate::wiring::{
    all_known, extends, fits_behind, gives_value, goes_on, has_block, known, knows, reaches, sound,
    well_wired,
};
use vstd::prelude::*;

verus! {

broadcast use crate::wiring::group_wiring;

proof fn lemma_stays(s: Emission)
    ensures
        extends(s, s),
{
    reveal(extends);
}

pub proof fn lemma_issue(s: Emission, c: CommandView)
    ensures
        goes_on(s, fits_behind(s.commands, c), issue(s, c)),
        gives_value(c) && s.commands.len() <= usize::MAX ==> knows(issue(s, c), next(s)),
        c is Append ==> reaches(issue(s, c), s.commands.len() as int),
{
    reveal(sound);
    reveal(extends);
    let t = issue(s, c);
    assert(t.commands.drop_last() =~= s.commands);
    assert(t.commands.last() == c);
    if sound(s) {
        assert forall|i: int| 0 <= i < t.locals.len() implies known(
            t.commands,
            (#[trigger] t.locals[i]).1,
        ) by {
            assert(known(s.commands, s.locals[i].1));
        }
    }
}

proof fn lemma_give(s: Emission, c: CommandView, ty: LowType)
    requires
        gives_value(c),
    ensures
        goes_on(s, fits_behind(s.commands, c), give(s, c, ty).0),
        s.commands.len() <= usize::MAX ==> knows(give(s, c, ty).0, give(s, c, ty).1.operand),
{
    lemma_issue(s, c);
}

proof fn lemma_append(s: Emission, name: Seq<char>)
    ensures
        goes_on(s, true, append(s, name)),
        reaches(append(s, name), s.commands.len() as int),
        append(s, name).commands.len() == s.commands.len() + 1,
{
    lemma_issue(s, CommandView::Append { name });
}

/// Going on in a block.
pub proof fn lemma_enter(s: Emission, b: int)
    requires
        0 <= b,
    ensures
        goes_on(s, reaches(s, b) && b <= usize::MAX, enter(s, b)),
{
    let c = CommandView::Position { block: b as usize };
    lemma_issue(s, c);
    let t = issue(s, c);
    let u = enter(s, b);
    reveal(sound);
    reveal(extends);
    if sound(s) && reaches(s, b) && b <= usize::MAX && u.commands.len() <= usize::MAX {
        assert(sound(t));
        assert(has_block(t.commands, b));
    }
}

/// A block that is there can be counted.
proof fn lemma_block_counts(s: Emission, b: int)
    ensures
        sound(s) && reaches(s, b) ==> 0 <= b <= usize::MAX,
{
    reveal(sound);
}

proof fn lemma_guarded(s: Emission, o: OperandView)
    ensures
        goes_on(s, knows(s, o), guarded(s, o)),
{
    let trap = s.commands.len() as int;
    let rest = trap + 1;
    let a = append(s, "trap"@);
    let b = append(a, "after.trap"@);
    lemma_append(s, "trap"@);
    lemma_append(a, "after.trap"@);
    let branch = CommandView::Branch { condition: o, yes: rest as usize, no: trap as usize };
    let c = issue(b, branch);
    lemma_issue(b, branch);
    let d = enter(c, trap);
    lemma_enter(c, trap);
    let e = issue(d, CommandView::Trap);
    lemma_issue(d, CommandView::Trap);
    let f = issue(e, CommandView::Unreachable);
    lemma_issue(e, CommandView::Unreachable);
    lemma_enter(f, rest);
    assert(reaches(b, trap) && reaches(b, rest));
    assert(reaches(c, trap) && reaches(f, rest));
    if sound(s) && knows(s, o) && guarded(s, o).commands.len() <= usize::MAX {
        assert(knows(b, o));
        assert(fits_behind(b.commands, branch));
    }
}

proof fn lemma_compared(s: Emission, test: IntTest, a: OperandView, b: OperandView, name: Seq<char>)
    ensures
        goes_on(s, knows(s, a) && knows(s, b), compared(s, test, a, b, name).0),
        s.commands.len() <= usize::MAX ==> knows(
            compared(s, test, a, b, name).0,
            compared(s, test, a, b, name).1.operand,
        ),
{
    lemma_give(s, CommandView::Compare { test, left: a, right: b, name }, LowType::Int(1));
}

proof fn lemma_division_guarded(
    s: Emission,
    a: OperandView,
    b: OperandView,
    bits: u32,
    signed: bool,
)
    ensures
        goes_on(
            s,
            knows(s, a) && knows(s, b),
            division_guarded(s, a, b, bits, signed),
        ),
{
    let c0 = CommandView::Compare {
        test: IntTest::NotEqual,
        left: b,
        right: number(0, bits),
        name: "div.nonzero"@,
    };
    let t0 = issue(s, c0);
    lemma_issue(s, c0);
    let s1 = guarded(t0, next(s));
    lemma_guarded(t0, next(s));
    if signed {
        let c1 = CommandView::Binary {
            operation: LowBinary::ShiftLeft,
            left: number(1, bits),
            right: number(
                if bits == 0 {
                    0
                } else {
                    (bits - 1) as u64
                },
                bits,
            ),
            name: "min"@,
        };
        let s2 = issue(s1, c1);
        lemma_issue(s1, c1);
        let c2 = CommandView::Compare {
            test: IntTest::Equal,
            left: a,
            right: next(s1),
            name: "ismin"@,
        };
        let s3 = issue(s2, c2);
        lemma_issue(s2, c2);
        let c3 = CommandView::Compare {
            test: IntTest::Equal,
            left: b,
            right: OperandView::AllOnes { bits },
            name: "isneg"@,
        };
        let s4 = issue(s3, c3);
        lemma_issue(s3, c3);
        let c4 = CommandView::Binary {
            operation: LowBinary::And,
            left: next(s2),
            right: next(s3),
            name: "overflow"@,
        };
        let s5 = issue(s4, c4);
        lemma_issue(s4, c4);
        let c5 = CommandView::Unary {
            operation: LowUnary::Not,
            operand: next(s4),
            name: "safe"@,
        };
        let s6 = issue(s5, c5);
        lemma_issue(s5, c5);
        lemma_guarded(s6, next(s5));
        if sound(s) && knows(s, a) && knows(s, b) && guarded(s6, next(s5)).commands.len()
            <= usize::MAX {
            assert(knows(s2, a) && knows(s3, b));
            assert(knows(s2, next(s1)));
            assert(knows(s3, next(s2)) && knows(s4, next(s2)) && knows(s4, next(s3)));
            assert(knows(s5, next(s4)) && knows(s6, next(s5)));
        }
    }
}

/// Whether the step from `s` gives a known value, if it gives one.
pub open spec fn gives_known(
    s: Emission,
    uses: bool,
    r: Result<(Emission, ValueView), CodegenErrorView>,
) -> bool {
    match r {
        Ok((t, v)) => goes_on(s, uses, t) && (sound(s) && uses && t.commands.len() <= usize::MAX
            ==> knows(t, v.operand)),
        Err(_) => true,
    }
}

pub open spec fn points_known(
    s: Emission,
    uses: bool,
    r: Result<(Emission, OperandView), CodegenErrorView>,
) -> bool {
    match r {
        Ok((t, o)) => goes_on(s, uses, t) && (sound(s) && uses && t.commands.len() <= usize::MAX
            ==> knows(t, o)),
        Err(_) => true,
    }
}

pub open spec fn lists_known(
    s: Emission,
    uses: bool,
    r: Result<(Emission, Seq<OperandView>), CodegenErrorView>,
) -> bool {
    match r {
        Ok((t, os)) => goes_on(s, uses, t) && (sound(s) && uses && t.commands.len() <= usize::MAX
            ==> all_known(t.commands, os)),
        Err(_) => true,
    }
}

pub open spec fn may_give_known(
    s: Emission,
    uses: bool,
    r: Result<(Emission, Option<ValueView>), CodegenErrorView>,
) -> bool {
    match r {
        Ok((t, v)) => goes_on(s, uses, t) && (sound(s) && uses && t.commands.len() <= usize::MAX
            ==> (v matches Some(x) ==> knows(t, x.operand))),
        Err(_) => true,
    }
}

pub open spec fn done_known(
    s: Emission,
    uses: bool,
    r: Result<Emission, CodegenErrorView>,
) -> bool {
    match r {
        Ok(t) => goes_on(s, uses, t),
        Err(_) => true,
    }
}

proof fn lemma_packed(m: Surroundings, s: Emission, v: ValueView, f: DefId, ty: ResolvedType)
    ensures
        gives_known(s, knows(s, v.operand), packed(m, s, v, f, ty)),
{
    lemma_stays(s);
    if let (Ok(passed), Ok(source)) = (passed_type(m, f, ty), m.low(ty)) {
        let c1 = CommandView::Alloca { ty: source, name: "abi.pack.addr"@ };
        let s1 = issue(s, c1);
        lemma_issue(s, c1);
        let c2 = CommandView::Store { pointer: next(s), value: v.operand };
        let s2 = issue(s1, c2);
        lemma_issue(s1, c2);
        let c3 = CommandView::Load { ty: passed, pointer: next(s), name: "abi.pack"@ };
        lemma_give(s2, c3, passed);
        if sound(s) && knows(s, v.operand) && give(s2, c3, passed).0.commands.len() <= usize::MAX {
            assert(knows(s1, next(s)) && knows(s1, v.operand) && knows(s2, next(s)));
        }
    }
}

proof fn lemma_unpacked(
    m: Surroundings,
    s: Emission,
    v: ValueView,
    f: DefId,
    ty: ResolvedType,
    span: Span,
)
    ensures
        gives_known(s, knows(s, v.operand), unpacked(m, s, v, f, ty, span)),
{
    lemma_stays(s);
    if let (Ok(passed), Ok(source)) = (passed_type(m, f, ty), m.low(ty)) {
        let c1 = CommandView::Alloca { ty: passed, name: "abi.unpack.addr"@ };
        let s1 = issue(s, c1);
        lemma_issue(s, c1);
        let c2 = CommandView::Store { pointer: next(s), value: v.operand };
        let s2 = issue(s1, c2);
        lemma_issue(s1, c2);
        let c3 = CommandView::Load { ty: source, pointer: next(s), name: "abi.unpack"@ };
        lemma_give(s2, c3, source);
        if sound(s) && knows(s, v.operand) && give(s2, c3, source).0.commands.len() <= usize::MAX {
            assert(knows(s1, next(s)) && knows(s1, v.operand) && knows(s2, next(s)));
        }
    }
}

proof fn lemma_int_operated(
    s: Emission,
    a: ValueView,
    op: BinaryOp,
    b: ValueView,
    ty: ResolvedType,
    pointer_width: u32,
    span: Span,
)
    ensures
        gives_known(
            s,
            knows(s, a.operand) && knows(s, b.operand),
            int_operated(s, a, op, b, ty, pointer_width, span),
        ),
{
    reveal(int_operated);
    lemma_stays(s);
    let uses = knows(s, a.operand) && knows(s, b.operand);
    lemma_compared(s, IntTest::Equal, a.operand, b.operand, "eq"@);
    lemma_compared(s, IntTest::NotEqual, a.operand, b.operand, "ne"@);
    if let ResolvedType::Integer { width, signed } = ty {
        if let Some((test, name)) = int_test(op, signed) {
            lemma_compared(s, test, a.operand, b.operand, name);
        } else if let Some((operation, name)) = crate::emission::int_operation(op, signed) {
            let bits = a.ty->Int_0;
            let shift = CommandView::Compare {
                test: IntTest::LessUnsigned,
                left: b.operand,
                right: number(crate::emission::shift_limit(width, pointer_width), bits),
                name: "shift.valid"@,
            };
            lemma_division_guarded(s, a.operand, b.operand, bits, signed);
            lemma_issue(s, shift);
            lemma_guarded(issue(s, shift), next(s));
            let ready = if op == BinaryOp::Divide || op == BinaryOp::Modulo {
                division_guarded(s, a.operand, b.operand, bits, signed)
            } else if op == BinaryOp::ShiftLeft || op == BinaryOp::ShiftRight {
                guarded(issue(s, shift), next(s))
            } else {
                s
            };
            assert(goes_on(s, uses, ready));
            let c = CommandView::Binary { operation, left: a.operand, right: b.operand, name };
            lemma_give(ready, c, a.ty);
            if uses {
                assert(knows(ready, a.operand) && knows(ready, b.operand));
            }
        }
    }
}

proof fn lemma_float_operated(s: Emission, a: ValueView, op: BinaryOp, b: ValueView, span: Span)
    ensures
        gives_known(
            s,
            knows(s, a.operand) && knows(s, b.operand),
            float_operated(s, a, op, b, span),
        ),
{
    reveal(float_operated);
    if let Some((test, name)) = crate::emission::float_test(op) {
        lemma_give(
            s,
            CommandView::CompareFloats { test, left: a.operand, right: b.operand, name },
            LowType::Int(1),
        );
    } else if let Some((operation, name)) = crate::emission::float_operation(op) {
        lemma_give(
            s,
            CommandView::Binary { operation, left: a.operand, right: b.operand, name },
            a.ty,
        );
    }
}

proof fn lemma_pointer_moved(
    m: Surroundings,
    s: Emission,
    a: ValueView,
    op: BinaryOp,
    b: ValueView,
    left: ResolvedType,
    span: Span,
)
    ensures
        gives_known(
            s,
            knows(s, a.operand) && knows(s, b.operand),
            pointer_moved(m, s, a, op, b, left, span),
        ),
{
    reveal(pointer_moved);
    lemma_stays(s);
    if let ResolvedType::Pointer(element) = left {
        if let Ok(low) = m.low(*element) {
            let c = CommandView::Unary {
                operation: LowUnary::Negate,
                operand: b.operand,
                name: "ptr.neg"@,
            };
            lemma_issue(s, c);
            let (ready, index) = if op == BinaryOp::Subtract {
                (issue(s, c), next(s))
            } else {
                (s, b.operand)
            };
            let d = CommandView::Element {
                element: low,
                pointer: a.operand,
                index,
                name: "ptr.add"@,
            };
            lemma_give(ready, d, LowType::Pointer);
            if knows(s, a.operand) {
                assert(knows(ready, a.operand));
            }
        }
    }
}

proof fn lemma_pointers_operated(
    m: Surroundings,
    s: Emission,
    a: ValueView,
    op: BinaryOp,
    b: ValueView,
    left: ResolvedType,
    span: Span,
)
    ensures
        gives_known(
            s,
            knows(s, a.operand) && knows(s, b.operand),
            pointers_operated(m, s, a, op, b, left, span),
        ),
{
    reveal(pointers_operated);
    if op == BinaryOp::Subtract {
        if let ResolvedType::Pointer(element) = left {
            if let Ok(low) = m.low(*element) {
                lemma_give(
                    s,
                    CommandView::Distance {
                        element: low,
                        left: a.operand,
                        right: b.operand,
                        name: "ptr.diff"@,
                    },
                    LowType::Int(64),
                );
            }
        }
    } else if let Some((test, _)) = int_test(op, false) {
        let c1 = CommandView::Address {
            pointer: a.operand,
            bits: m.pointer_width,
            name: "ptr.a"@,
        };
        let s1 = issue(s, c1);
        lemma_issue(s, c1);
        let c2 = CommandView::Address {
            pointer: b.operand,
            bits: m.pointer_width,
            name: "ptr.b"@,
        };
        let s2 = issue(s1, c2);
        lemma_issue(s1, c2);
        lemma_compared(s2, test, next(s), next(s1), "ptr.cmp"@);
        if sound(s) && knows(s, a.operand) && knows(s, b.operand) && compared(
            s2,
            test,
            next(s),
            next(s1),
            "ptr.cmp"@,
        ).0.commands.len() <= usize::MAX {
            assert(knows(s1, b.operand) && knows(s1, next(s)) && knows(s2, next(s)));
        }
    }
}

proof fn lemma_operated(
    m: Surroundings,
    s: Emission,
    a: ValueView,
    op: BinaryOp,
    b: ValueView,
    left: ResolvedType,
    ty: ResolvedType,
    span: Span,
)
    ensures
        gives_known(
            s,
            knows(s, a.operand) && knows(s, b.operand),
            operated(m, s, a, op, b, left, ty, span),
        ),
{
    lemma_pointer_moved(m, s, a, op, b, left, span);
    lemma_pointers_operated(m, s, a, op, b, left, span);
    lemma_int_operated(s, a, op, b, ty, m.pointer_width, span);
    lemma_float_operated(s, a, op, b, span);
}

proof fn lemma_unary_operated(
    s: Emission,
    operator: UnaryOp,
    v: ValueView,
    ty: ResolvedType,
    span: Span,
)
    ensures
        gives_known(s, knows(s, v.operand), unary_operated(s, operator, v, ty, span)),
{
    reveal(unary_operated);
    lemma_give(
        s,
        CommandView::Unary { operation: LowUnary::Negate, operand: v.operand, name: "negtmp"@ },
        v.ty,
    );
    lemma_give(
        s,
        CommandView::Unary {
            operation: LowUnary::NegateFloat,
            operand: v.operand,
            name: "negtmp"@,
        },
        v.ty,
    );
    lemma_give(
        s,
        CommandView::Unary { operation: LowUnary::Not, operand: v.operand, name: "nottmp"@ },
        v.ty,
    );
}

/// So does a place that is told to a debugger.
pub proof fn lemma_told(m: Surroundings, s: Emission, span: Span)
    ensures
        goes_on(s, true, told(m, s, span)),
{
    lemma_stays(s);
    if let Some((source, _)) = m.debug {
        lemma_place_told(s, source, span.start as int);
    }
}

pub proof fn lemma_place_told(s: Emission, source: Seq<char>, offset: int)
    ensures
        goes_on(s, true, place_told(s, source, offset)),
{
    lemma_issue(
        s,
        CommandView::Locate {
            line: crate::emission::source_line(source, offset),
            column: crate::emission::source_column(source, offset),
        },
    );
}

proof fn lemma_outcome_built(
    s: Emission,
    outcome: LowType,
    tag: OperandView,
    tag_name: Seq<char>,
    value: OperandView,
    index: u32,
    name: Seq<char>,
)
    ensures
        ({
            let (t, v) = outcome_built(s, outcome, tag, tag_name, value, index, name);
            goes_on(s, knows(s, tag) && knows(s, value), t) && (t.commands.len() <= usize::MAX
                ==> knows(t, v.operand))
        }),
{
    reveal(outcome_built);
    let c1 = CommandView::Insert {
        aggregate: OperandView::Undefined(outcome),
        value: tag,
        index: 0,
        name: tag_name,
    };
    let s1 = issue(s, c1);
    lemma_issue(s, c1);
    let c2 = CommandView::Insert { aggregate: next(s), value, index, name };
    lemma_give(s1, c2, outcome);
    if knows(s, value) {
        assert(knows(s1, value));
    }
}

proof fn lemma_part_taken(s: Emission, v: ValueView, index: u32, name: Seq<char>, span: Span)
    ensures
        gives_known(s, knows(s, v.operand), part_taken(s, v, index, name, span)),
{
    if let LowType::Outcome { success, error } = v.ty {
        let ty = if index == 0 {
            LowType::Int(1)
        } else if index == 1 {
            *success
        } else {
            *error
        };
        lemma_give(s, CommandView::Extract { aggregate: v.operand, index, name }, ty);
    }
}

proof fn lemma_success_taken(
    s: Emission,
    v: ValueView,
    ty: ResolvedType,
    name: Seq<char>,
    span: Span,
)
    ensures
        gives_known(s, knows(s, v.operand), success_taken(s, v, ty, name, span)),
{
    lemma_stays(s);
    lemma_part_taken(s, v, 1, name, span);
}

pub proof fn lemma_other_entered(s: Emission, condition: OperandView, op: BinaryOp)
    ensures
        ({
            let t = other_entered(s, condition, op);
            let other = s.commands.len() as int;
            goes_on(s, knows(s, condition), t) && reaches(t, other) && reaches(t, other + 1)
                && reaches(
                t,
                other + 2,
            )
        }),
{
    reveal(other_entered);
    let other = s.commands.len() as int;
    let short = other + 1;
    let a = append(s, "logical.right"@);
    lemma_append(s, "logical.right"@);
    let b = append(a, "logical.short"@);
    lemma_append(a, "logical.short"@);
    let c = append(b, "logical.end"@);
    lemma_append(b, "logical.end"@);
    let branch = if op == BinaryOp::LogicalAnd {
        CommandView::Branch { condition, yes: other as usize, no: short as usize }
    } else {
        CommandView::Branch { condition, yes: short as usize, no: other as usize }
    };
    let d = issue(c, branch);
    lemma_issue(c, branch);
    lemma_enter(d, other);
    let t = enter(d, other);
    assert(reaches(c, other) && reaches(c, short) && reaches(c, other + 2));
    assert(reaches(d, other));
    assert(reaches(t, other) && reaches(t, short) && reaches(t, other + 2));
    if knows(s, condition) {
        assert(knows(c, condition));
    }
}

proof fn lemma_logic_joined(s: Emission, other: int, second: OperandView, op: BinaryOp)
    requires
        0 <= other,
    ensures
        ({
            let (t, v) = logic_joined(s, other, second, op);
            goes_on(
                s,
                knows(s, second) && reaches(s, other + 1) && reaches(s, other + 2),
                t,
            ) && (t.commands.len() <= usize::MAX ==> knows(t, v.operand))
        }),
{
    reveal(logic_joined);
    let short = other + 1;
    let end = other + 2;
    let jump = CommandView::Jump { block: end as usize };
    let s1 = issue(s, jump);
    lemma_issue(s, jump);
    let s2 = enter(s1, short);
    lemma_enter(s1, short);
    let s3 = issue(s2, jump);
    lemma_issue(s2, jump);
    let s4 = enter(s3, end);
    lemma_enter(s3, end);
    let choose = CommandView::Choose {
        left: second,
        left_block: s.block as usize,
        right: number(
            if op == BinaryOp::LogicalOr {
                1
            } else {
                0
            },
            1,
        ),
        right_block: short as usize,
        name: "logicaltmp"@,
    };
    lemma_give(s4, choose, LowType::Int(1));
    let t = give(s4, choose, LowType::Int(1)).0;
    if sound(s) && knows(s, second) && reaches(s, short) && reaches(s, end) && t.commands.len()
        <= usize::MAX {
        lemma_block_counts(s, short);
        lemma_block_counts(s, end);
        assert(reaches(s, s.block)) by {
            reveal(sound);
        }
        lemma_block_counts(s, s.block);
        assert(reaches(s1, short) && reaches(s2, end) && reaches(s3, end) && reaches(s4, short));
        assert(reaches(s1, s.block) && reaches(s4, s.block) && knows(s4, second));
    }
}

proof fn lemma_slice_built(m: Surroundings, s: Emission, p: ValueView, n: ValueView, span: Span)
    ensures
        gives_known(
            s,
            knows(s, p.operand) && knows(s, n.operand),
            slice_built(m, s, p, n, span),
        ),
{
    reveal(slice_built);
    if let (LowType::Pointer, LowType::Int(bits)) = (p.ty, n.ty) {
        let low = LowType::Slice(m.pointer_width);
        let c1 = CommandView::NotNull { pointer: p.operand, name: "slice.not_null"@ };
        let s1 = issue(s, c1);
        lemma_issue(s, c1);
        let c2 = CommandView::Compare {
            test: IntTest::Equal,
            left: n.operand,
            right: number(0, bits),
            name: "slice.empty"@,
        };
        let s2 = issue(s1, c2);
        lemma_issue(s1, c2);
        let c3 = CommandView::Binary {
            operation: LowBinary::Or,
            left: next(s),
            right: next(s1),
            name: "slice.valid"@,
        };
        let s3 = issue(s2, c3);
        lemma_issue(s2, c3);
        let s4 = guarded(s3, next(s2));
        lemma_guarded(s3, next(s2));
        let c5 = CommandView::Insert {
            aggregate: OperandView::Undefined(low),
            value: p.operand,
            index: 0,
            name: "slice.ptr"@,
        };
        let s5 = issue(s4, c5);
        lemma_issue(s4, c5);
        let c6 = CommandView::Insert {
            aggregate: next(s4),
            value: n.operand,
            index: 1,
            name: "slice.len"@,
        };
        lemma_give(s5, c6, low);
        if sound(s) && knows(s, p.operand) && knows(s, n.operand) && give(
            s5,
            c6,
            low,
        ).0.commands.len() <= usize::MAX {
            assert(knows(s1, n.operand));
            assert(knows(s1, next(s)) && knows(s2, next(s)) && knows(s2, next(s1)));
            assert(knows(s4, p.operand) && knows(s5, n.operand) && knows(s5, next(s4)));
        }
    }
}

proof fn lemma_error_returned(
    m: Surroundings,
    s: Emission,
    v: ValueView,
    operand_span: Span,
    span: Span,
)
    ensures
        done_known(s, knows(s, v.operand), error_returned(m, s, v, operand_span, span)),
{
    reveal(error_returned);
    lemma_part_taken(s, v, 2, "propagate.error.value"@, span);
    if let Ok((s1, problem)) = part_taken(s, v, 2, "propagate.error.value"@, span) {
        lemma_issue(s1, CommandView::Trap);
        lemma_issue(issue(s1, CommandView::Trap), CommandView::Unreachable);
        if let Ok(outcome) = m.low(m.return_type) {
            let ones = OperandView::AllOnes { bits: 1 };
            lemma_outcome_built(
                s1,
                outcome,
                ones,
                "propagate.return.err"@,
                problem.operand,
                2,
                "propagate.return.value"@,
            );
            let (s2, value) = outcome_built(
                s1,
                outcome,
                ones,
                "propagate.return.err"@,
                problem.operand,
                2,
                "propagate.return.value"@,
            );
            lemma_issue(s2, CommandView::Return { value: Some(value.operand) });
        }
    }
}

proof fn lemma_index_checked(s: Emission, index: OperandView, limit: OperandView)
    ensures
        goes_on(s, knows(s, index) && knows(s, limit), index_checked(s, index, limit)),
{
    let c = CommandView::Compare {
        test: IntTest::LessUnsigned,
        left: index,
        right: limit,
        name: "index.valid"@,
    };
    lemma_issue(s, c);
    lemma_guarded(issue(s, c), next(s));
}

proof fn lemma_element_pointed(
    m: Surroundings,
    s: Emission,
    pointer: OperandView,
    index: ValueView,
    ty: ResolvedType,
    length: Option<u64>,
    checked: bool,
    span: Span,
)
    ensures
        points_known(
            s,
            knows(s, pointer) && knows(s, index.operand),
            element_pointed(m, s, pointer, index, ty, length, checked, span),
        ),
{
    reveal(element_pointed);
    lemma_stays(s);
    if let LowType::Int(bits) = index.ty {
        match ty {
            ResolvedType::Array { .. } => {
                if let Ok(array) = m.low(ty) {
                    if let Some(n) = length {
                        lemma_index_checked(s, index.operand, number(n, bits));
                    }
                    let s1 = match length {
                        Some(n) if checked => index_checked(s, index.operand, number(n, bits)),
                        _ => s,
                    };
                    let c = CommandView::ArrayElement {
                        array,
                        pointer,
                        index: index.operand,
                        name: "index.ptr"@,
                    };
                    lemma_issue(s1, c);
                    if knows(s, pointer) && knows(s, index.operand) {
                        assert(knows(s1, pointer) && knows(s1, index.operand));
                    }
                }
            },
            ResolvedType::Slice(element) => {
                let c1 = CommandView::Load {
                    ty: LowType::Slice(m.pointer_width),
                    pointer,
                    name: "slice.load"@,
                };
                let s1 = issue(s, c1);
                lemma_issue(s, c1);
                let c2 = CommandView::Extract {
                    aggregate: next(s),
                    index: 0,
                    name: "slice.ptr"@,
                };
                let s2 = issue(s1, c2);
                lemma_issue(s1, c2);
                let c3 = CommandView::Extract {
                    aggregate: next(s),
                    index: 1,
                    name: "slice.len"@,
                };
                let s3 = issue(s2, c3);
                lemma_issue(s2, c3);
                lemma_index_checked(s3, index.operand, next(s2));
                lemma_stays(s3);
                let s4 = if checked {
                    index_checked(s3, index.operand, next(s2))
                } else {
                    s3
                };
                if let Ok(low) = m.low(*element) {
                    let c = CommandView::Element {
                        element: low,
                        pointer: next(s1),
                        index: index.operand,
                        name: "slice.index.ptr"@,
                    };
                    lemma_issue(s4, c);
                    if sound(s) && knows(s, pointer) && knows(s, index.operand) && issue(
                        s4,
                        c,
                    ).commands.len() <= usize::MAX {
                        assert(knows(s1, next(s)) && knows(s2, next(s)) && knows(s3, next(s2)));
                        assert(knows(s3, index.operand) && knows(s4, index.operand));
                        assert(knows(s2, next(s1)) && knows(s4, next(s1)));
                    }
                }
            },
            ResolvedType::Pointer(element) => {
                let c1 = CommandView::Load {
                    ty: LowType::Pointer,
                    pointer,
                    name: "pointer.load"@,
                };
                let s1 = issue(s, c1);
                lemma_issue(s, c1);
                if let Ok(low) = m.low(*element) {
                    let c = CommandView::Element {
                        element: low,
                        pointer: next(s),
                        index: index.operand,
                        name: "pointer.index.ptr"@,
                    };
                    lemma_issue(s1, c);
                    if knows(s, index.operand) {
                        assert(knows(s1, index.operand));
                    }
                }
            },
            _ => {},
        }
    }
}

proof fn lemma_call_issued(
    m: Surroundings,
    s: Emission,
    function: DefId,
    arguments: Seq<OperandView>,
    declared_type: ResolvedType,
    ty: ResolvedType,
    span: Span,
)
    ensures
        may_give_known(
            s,
            all_known(s.commands, arguments),
            call_issued(m, s, function, arguments, declared_type, ty, span),
        ),
{
    reveal(call_issued);
    let c = CommandView::Call { function, arguments, name: "call"@ };
    let s1 = issue(s, c);
    lemma_issue(s, c);
    if let Ok(result) = passed_type(m, function, declared_type) {
        lemma_unpacked(
            m,
            s1,
            ValueView { operand: next(s), ty: result },
            function,
            ty,
            span,
        );
    }
}

proof fn lemma_local(s: Emission, n: int, id: LocalId)
    ensures
        sound(s) ==> (local_of(s.locals, n, id) matches Some((o, _)) ==> knows(s, o)),
    decreases n,
{
    reveal(sound);
    if 0 < n <= s.locals.len() {
        lemma_local(s, n - 1, id);
    }
}

proof fn lemma_lists_grow(s: Emission, t: Emission, os: Seq<OperandView>)
    requires
        extends(s, t),
    ensures
        all_known(s.commands, os) ==> all_known(t.commands, os),
{
    if all_known(s.commands, os) {
        assert forall|i: int| 0 <= i < os.len() implies known(t.commands, #[trigger] os[i]) by {
            assert(knows(s, os[i]));
            assert(knows(t, os[i]));
        }
    }
}

proof fn lemma_loaded(
    m: Surroundings,
    s: Emission,
    found: Result<(Emission, OperandView), CodegenErrorView>,
    ty: ResolvedType,
    name: Seq<char>,
)
    requires
        points_known(s, true, found),
    ensures
        gives_known(s, true, loaded(m, found, ty, name)),
{
    if let Ok((t, pointer)) = found {
        if let Ok(low) = m.low(ty) {
            lemma_give(t, CommandView::Load { ty: low, pointer, name }, low);
        }
    }
}

/// The commands of an expression only follow those before them.
pub proof fn lemma_emitted(m: Surroundings, s: Emission, e: TypedExprView)
    ensures
        gives_known(s, true, emitted(m, s, e)),
    decreases m.cleanup.len(), 0int, e, 0int,
{
    lemma_stays(s);
    match e {
        TypedExprView::AddressOf { place, span, .. } => {
            lemma_pointed(m, s, *place, span);
        },
        TypedExprView::Dereference { place, ty, span } => {
            lemma_pointed(m, s, *place, span);
            lemma_loaded(m, s, pointed(m, s, *place, span), ty, "deref.load"@);
        },
        TypedExprView::Field { place, ty, span } => {
            lemma_pointed(m, s, *place, span);
            lemma_loaded(m, s, pointed(m, s, *place, span), ty, "aggregate.load"@);
        },
        TypedExprView::Index { place, ty, span } => {
            lemma_pointed(m, s, *place, span);
            lemma_loaded(m, s, pointed(m, s, *place, span), ty, "aggregate.load"@);
        },
        TypedExprView::ResultOk { value, ty, .. } => {
            if let ResolvedType::Result { success, .. } = ty {
                if let Ok(outcome) = m.low(ty) {
                    lemma_emitted(m, s, *value);
                    let first = if *success == ResolvedType::Unit {
                        Ok((s, ValueView { operand: number(0, 8), ty: LowType::Int(8) }))
                    } else {
                        emitted(m, s, *value)
                    };
                    if let Ok((s1, v)) = first {
                        lemma_outcome_built(
                            s1,
                            outcome,
                            number(0, 1),
                            "result.ok"@,
                            v.operand,
                            1,
                            "result.value"@,
                        );
                    }
                }
            }
        },
        TypedExprView::ResultErr { value, ty, .. } => {
            if let Ok(outcome) = m.low(ty) {
                lemma_emitted(m, s, *value);
                if let Ok((s1, v)) = emitted(m, s, *value) {
                    lemma_outcome_built(
                        s1,
                        outcome,
                        OperandView::AllOnes { bits: 1 },
                        "result.err"@,
                        v.operand,
                        2,
                        "result.error"@,
                    );
                }
            }
        },
        TypedExprView::IsErr { value, span, .. } => {
            lemma_emitted(m, s, *value);
            if let Ok((s1, v)) = emitted(m, s, *value) {
                lemma_part_taken(s1, v, 0, "result.is_err"@, span);
            }
        },
        TypedExprView::Unwrap { value, ty, span } => {
            lemma_emitted(m, s, *value);
            if let Ok((s1, v)) = emitted(m, s, *value) {
                lemma_part_taken(s1, v, 0, "result.tag"@, span);
                if let Ok((s2, tag)) = part_taken(s1, v, 0, "result.tag"@, span) {
                    let c = CommandView::Unary {
                        operation: LowUnary::Not,
                        operand: tag.operand,
                        name: "result.ok"@,
                    };
                    let s3 = issue(s2, c);
                    lemma_issue(s2, c);
                    let s4 = guarded(s3, next(s2));
                    lemma_guarded(s3, next(s2));
                    lemma_success_taken(s4, v, ty, "result.unwrap"@, span);
                    if knows(s1, v.operand) {
                        assert(knows(s4, v.operand));
                    }
                }
            }
        },
        TypedExprView::Propagate { value, ty, span } => {
            lemma_propagated(m, s, *value, ty, span);
        },
        TypedExprView::Load { id, .. } => {
            lemma_local(s, s.locals.len() as int, id);
            if let Some((pointer, low)) = local_of(s.locals, s.locals.len() as int, id) {
                lemma_give(s, CommandView::Load { ty: low, pointer, name: "loadtmp"@ }, low);
            }
        },
        TypedExprView::GlobalLoad { id, .. } => {
            if let Some(ty) = crate::emission::global_type(m, id) {
                if let Ok(low) = m.low(ty) {
                    lemma_give(
                        s,
                        CommandView::Load {
                            ty: low,
                            pointer: OperandView::Global(id),
                            name: "global.load"@,
                        },
                        low,
                    );
                }
            }
        },
        TypedExprView::StructLiteral { ty, fields, .. } => {
            if let ResolvedType::Struct(id) = ty {
                let low = LowType::Named(id);
                lemma_inserted(
                    m,
                    s,
                    fields,
                    0,
                    OperandView::Undefined(low),
                    low,
                    "struct.insert"@,
                );
            }
        },
        TypedExprView::ArrayLiteral { ty, elements, .. } => {
            if let Ok(low) = m.low(ty) {
                lemma_inserted(
                    m,
                    s,
                    elements,
                    0,
                    OperandView::Undefined(low),
                    low,
                    "array.insert"@,
                );
            }
        },
        TypedExprView::Unary { operator, operand, ty, span } => {
            lemma_emitted(m, s, *operand);
            if let Ok((s1, v)) = emitted(m, s, *operand) {
                lemma_unary_operated(s1, operator, v, ty, span);
            }
        },
        TypedExprView::Binary { left, operator, right, operand_type, span, .. } => {
            lemma_emitted(m, s, *left);
            if let Ok((s1, a)) = emitted(m, s, *left) {
                if operator == BinaryOp::LogicalAnd || operator == BinaryOp::LogicalOr {
                    if a.ty == LowType::Int(1) {
                        let other = s1.commands.len() as int;
                        let s2 = other_entered(s1, a.operand, operator);
                        lemma_other_entered(s1, a.operand, operator);
                        lemma_emitted(m, s2, *right);
                        if let Ok((s3, b)) = emitted(m, s2, *right) {
                            lemma_logic_joined(s3, other, b.operand, operator);
                            assert(reaches(s3, other + 1) && reaches(s3, other + 2));
                        }
                    }
                } else {
                    lemma_emitted(m, s1, *right);
                    if let Ok((s2, b)) = emitted(m, s1, *right) {
                        lemma_operated(
                            m,
                            s2,
                            a,
                            operator,
                            b,
                            (*left).ty(),
                            operand_type,
                            span,
                        );
                        if knows(s1, a.operand) {
                            assert(knows(s2, a.operand));
                        }
                    }
                }
            }
        },
        TypedExprView::MakeSlice { pointer, length, span, .. } => {
            lemma_emitted(m, s, *pointer);
            if let Ok((s1, p)) = emitted(m, s, *pointer) {
                lemma_emitted(m, s1, *length);
                if let Ok((s2, n)) = emitted(m, s1, *length) {
                    lemma_slice_built(m, s2, p, n, span);
                    if knows(s1, p.operand) {
                        assert(knows(s2, p.operand));
                    }
                }
            }
        },
        TypedExprView::Call { function, arguments, ty, span, .. } => {
            lemma_called(m, s, function, arguments, ty, span);
        },
        _ => {},
    }
}

proof fn lemma_propagated(
    m: Surroundings,
    s: Emission,
    value: TypedExprView,
    ty: ResolvedType,
    span: Span,
)
    ensures
        gives_known(
            s,
            true,
            emitted(m, s, TypedExprView::Propagate { value: Box::new(value), ty, span }),
        ),
    decreases m.cleanup.len(), 0int, value, 1int,
{
    lemma_emitted(m, s, value);
    if let Ok((s1, v)) = emitted(m, s, value) {
        lemma_part_taken(s1, v, 0, "result.tag"@, span);
        if let Ok((s2, tag)) = part_taken(s1, v, 0, "result.tag"@, span) {
            let failed = s2.commands.len() as int;
            let went_on = failed + 1;
            let a = append(s2, "propagate.error"@);
            lemma_append(s2, "propagate.error"@);
            let s3 = append(a, "propagate.ok"@);
            lemma_append(a, "propagate.ok"@);
            let c = CommandView::Branch {
                condition: tag.operand,
                yes: failed as usize,
                no: went_on as usize,
            };
            let s4 = issue(s3, c);
            lemma_issue(s3, c);
            let s5 = enter(s4, failed);
            lemma_enter(s4, failed);
            assert(reaches(s3, failed) && reaches(s3, went_on) && reaches(s4, failed)
                && reaches(s5, went_on));
            if knows(s2, tag.operand) {
                assert(knows(s3, tag.operand));
            }
            lemma_stays(s5);
            let cleanup = if m.cleanup.len() == 0 {
                Ok(s5)
            } else {
                lemma_cleaned(m.bare(), s5, m.cleanup, 0);
                cleaned(m.bare(), s5, m.cleanup, 0)
            };
            if let Ok(s6) = cleanup {
                assert(goes_on(s5, true, s6));
                lemma_error_returned(m, s6, v, value.span(), span);
                if let Ok(s7) = error_returned(m, s6, v, value.span(), span) {
                    let s8 = enter(s7, went_on);
                    lemma_enter(s7, went_on);
                    assert(extends(s1, s7));
                    assert(reaches(s7, went_on));
                    lemma_success_taken(s8, v, ty, "propagate.value"@, span);
                    if knows(s1, v.operand) {
                        assert(knows(s6, v.operand) && knows(s8, v.operand));
                    }
                }
            }
        }
    }
}

/// Parts that are put into place.
pub proof fn lemma_inserted(
    m: Surroundings,
    s: Emission,
    es: Seq<TypedExprView>,
    i: int,
    aggregate: OperandView,
    low: LowType,
    name: Seq<char>,
)
    ensures
        gives_known(s, knows(s, aggregate), inserted(m, s, es, i, aggregate, low, name)),
    decreases m.cleanup.len(), 0int, es, es.len() - i,
{
    lemma_stays(s);
    if 0 <= i < es.len() {
        lemma_emitted(m, s, es[i]);
        if let Ok((s1, v)) = emitted(m, s, es[i]) {
            let c = CommandView::Insert {
                aggregate,
                value: v.operand,
                index: (i % 0x1_0000_0000) as u32,
                name,
            };
            let s2 = issue(s1, c);
            lemma_issue(s1, c);
            lemma_inserted(m, s2, es, i + 1, next(s1), low, name);
            if knows(s, aggregate) {
                assert(knows(s1, aggregate));
            }
        }
    }
}

/// Arguments as they go into a function.
pub proof fn lemma_passed(
    m: Surroundings,
    s: Emission,
    function: DefId,
    es: Seq<TypedExprView>,
    i: int,
    before: Seq<OperandView>,
)
    ensures
        lists_known(
            s,
            all_known(s.commands, before),
            passed(m, s, function, es, i, before),
        ),
    decreases m.cleanup.len(), 0int, es, es.len() - i,
{
    lemma_stays(s);
    if 0 <= i < es.len() {
        lemma_emitted(m, s, es[i]);
        if let Ok((s1, v)) = emitted(m, s, es[i]) {
            lemma_packed(m, s1, v, function, es[i].ty());
            if let Ok((s2, value)) = packed(m, s1, v, function, es[i].ty()) {
                let more = before.push(value.operand);
                lemma_passed(m, s2, function, es, i + 1, more);
                lemma_lists_grow(s, s2, before);
                if all_known(s2.commands, before) && knows(s2, value.operand) {
                    assert forall|j: int| 0 <= j < more.len() implies known(
                        s2.commands,
                        #[trigger] more[j],
                    ) by {
                        if j < before.len() {
                            assert(more[j] == before[j]);
                        }
                    }
                }
            }
        }
    }
}

proof fn lemma_called(
    m: Surroundings,
    s: Emission,
    function: DefId,
    arguments: Seq<TypedExprView>,
    ty: ResolvedType,
    span: Span,
)
    ensures
        may_give_known(s, true, called(m, s, function, arguments, ty, span)),
    decreases m.cleanup.len(), 0int, arguments, arguments.len() + 1,
{
    lemma_passed(m, s, function, arguments, 0, Seq::empty());
    assert(all_known(s.commands, Seq::empty()));
    if let Some(i) = crate::emission::function_of(m.functions, m.functions.len() as int, function) {
        if let Ok((s1, values)) = passed(m, s, function, arguments, 0, Seq::empty()) {
            lemma_call_issued(
                m,
                s1,
                function,
                values,
                m.functions[i].return_type,
                ty,
                span,
            );
        }
    }
}

proof fn lemma_cleaned(m: Surroundings, s: Emission, actions: Seq<MirCleanupView>, i: int)
    ensures
        done_known(s, true, cleaned(m, s, actions, i)),
    decreases m.cleanup.len(), 1int, actions, actions.len() - i,
{
    lemma_stays(s);
    if 0 <= i < actions.len() {
        let f = actions[i].function;
        lemma_passed(m, s, f, actions[i].arguments, 0, Seq::empty());
        assert(all_known(s.commands, Seq::empty()));
        if let Ok((s1, values)) = passed(m, s, f, actions[i].arguments, 0, Seq::empty()) {
            let c = CommandView::Call { function: f, arguments: values, name: "defer.call"@ };
            lemma_issue(s1, c);
            lemma_cleaned(m, issue(s1, c), actions, i + 1);
        }
    }
}

proof fn lemma_pointed(m: Surroundings, s: Emission, place: TypedPlaceView, span: Span)
    ensures
        points_known(s, true, pointed(m, s, place, span)),
    decreases m.cleanup.len(), 0int, place, 0int,
{
    lemma_stays(s);
    match place {
        TypedPlaceView::Local { id, .. } => {
            lemma_local(s, s.locals.len() as int, id);
        },
        TypedPlaceView::Global { .. } => {},
        TypedPlaceView::Temporary { value, ty } => {
            if let Ok(low) = m.low(ty) {
                lemma_emitted(m, s, *value);
                if let Ok((s1, v)) = emitted(m, s, *value) {
                    let c1 = CommandView::Alloca { ty: low, name: "temporary.addr"@ };
                    let s2 = issue(s1, c1);
                    lemma_issue(s1, c1);
                    let c2 = CommandView::Store { pointer: next(s1), value: v.operand };
                    lemma_issue(s2, c2);
                    if knows(s1, v.operand) {
                        assert(knows(s2, v.operand));
                    }
                    if s1.commands.len() <= usize::MAX {
                        assert(knows(s2, next(s1)) && knows(issue(s2, c2), next(s1)));
                    }
                }
            }
        },
        TypedPlaceView::Field { base, index, .. } => {
            lemma_pointed(m, s, *base, span);
            if let Ok((s1, pointer)) = pointed(m, s, *base, span) {
                if let ResolvedType::Struct(id) = (*base).ty() {
                    lemma_issue(
                        s1,
                        CommandView::Member { id, pointer, index, name: "field.ptr"@ },
                    );
                }
            }
        },
        TypedPlaceView::Index { base, index, length, checked, .. } => {
            lemma_pointed(m, s, *base, span);
            if let Ok((s1, pointer)) = pointed(m, s, *base, span) {
                lemma_emitted(m, s1, *index);
                if let Ok((s2, i)) = emitted(m, s1, *index) {
                    lemma_element_pointed(
                        m,
                        s2,
                        pointer,
                        i,
                        (*base).ty(),
                        length,
                        checked,
                        span,
                    );
                    if knows(s1, pointer) {
                        assert(knows(s2, pointer));
                    }
                }
            }
        },
        TypedPlaceView::Dereference { pointer, .. } => {
            lemma_emitted(m, s, *pointer);
        },
    }
}

proof fn lemma_declared(
    m: Surroundings,
    s: Emission,
    id: LocalId,
    name: Seq<char>,
    ty: ResolvedType,
    low: LowType,
    value: OperandView,
    span: Span,
)
    ensures
        goes_on(s, knows(s, value), declared(m, s, id, name, ty, low, value, span)),
{
    reveal(declared);
    let c1 = CommandView::Alloca { ty: low, name: name + ".addr"@ };
    let s1 = issue(s, c1);
    lemma_issue(s, c1);
    let c2 = CommandView::Store { pointer: next(s), value };
    let s2 = issue(s1, c2);
    lemma_issue(s1, c2);
    if knows(s, value) {
        assert(knows(s1, value));
    }
    let t = declared(m, s, id, name, ty, low, value, span);
    lemma_bound(s2, t, id, next(s), low);
}

/// A local more, for what is known.
proof fn lemma_bound(s: Emission, t: Emission, id: LocalId, pointer: OperandView, low: LowType)
    requires
        t.commands == s.commands,
        t.block == s.block,
        t.locals == s.locals.push((id, pointer, low)),
    ensures
        goes_on(s, knows(s, pointer), t),
{
    reveal(extends);
    reveal(sound);
    if sound(s) && knows(s, pointer) {
        assert forall|i: int| 0 <= i < t.locals.len() implies known(
            t.commands,
            (#[trigger] t.locals[i]).1,
        ) by {
            if i < s.locals.len() {
                assert(known(s.commands, s.locals[i].1));
            }
        }
    }
}

/// The commands of a step only follow those before them.
pub proof fn lemma_performed(m: Surroundings, s: Emission, step: MirInstructionView)
    ensures
        done_known(s, true, performed(m, s, step)),
{
    lemma_stays(s);
    match step {
        MirInstructionView::Declare { id, name, ty, value, span, .. } => {
            let first = told(m, s, span);
            lemma_told(m, s, span);
            lemma_emitted(m, first, value);
            if let (Ok(low), Ok((s1, v))) = (m.low(ty), emitted(m, first, value)) {
                lemma_declared(m, s1, id, name, ty, low, v.operand, span);
            }
        },
        MirInstructionView::Store { target, value, span, .. } => {
            let first = told(m, s, span);
            lemma_told(m, s, span);
            lemma_pointed(m, first, target, span);
            if let Ok((s1, pointer)) = pointed(m, first, target, span) {
                lemma_emitted(m, s1, value);
                if let Ok((s2, v)) = emitted(m, s1, value) {
                    lemma_issue(s2, CommandView::Store { pointer, value: v.operand });
                    if knows(s1, pointer) {
                        assert(knows(s2, pointer));
                    }
                }
            }
        },
        MirInstructionView::Expr { expression, span } => {
            let first = told(m, s, span);
            lemma_told(m, s, span);
            if let TypedExprView::Call { function, arguments, ty, span: place, .. } = expression {
                lemma_called(m, first, function, arguments, ty, place);
            } else {
                lemma_emitted(m, first, expression);
            }
        },
        MirInstructionView::RunCleanup { actions } => {
            lemma_cleaned(m, s, actions, 0);
        },
    }
}

/// So do the commands of the steps of a block.
pub proof fn lemma_all_performed(
    m: Surroundings,
    s: Emission,
    steps: Seq<MirInstructionView>,
    i: int,
)
    ensures
        done_known(s, true, all_performed(m, s, steps, i)),
    decreases steps.len() - i,
{
    lemma_stays(s);
    if 0 <= i < steps.len() {
        lemma_performed(m, s, steps[i]);
        if let Ok(s1) = performed(m, s, steps[i]) {
            lemma_all_performed(m, s1, steps, i + 1);
        }
    }
}

/// Whether the blocks that an end leads to are there.
pub open spec fn leads_to_blocks(s: Emission, end: MirTerminatorView) -> bool {
    match end {
        MirTerminatorView::Jump(target) => reaches(s, target.0 as int),
        MirTerminatorView::Branch { then_block, else_block, .. } => reaches(s, then_block.0 as int)
            && reaches(s, else_block.0 as int),
        _ => true,
    }
}

/// And those of the end of a block.
pub proof fn lemma_ended(m: Surroundings, s: Emission, end: MirTerminatorView, span: Span)
    ensures
        done_known(s, leads_to_blocks(s, end), ended(m, s, end, span)),
{
    lemma_stays(s);
    match end {
        MirTerminatorView::Jump(target) => {
            lemma_issue(s, CommandView::Jump { block: target.0 as usize });
        },
        MirTerminatorView::Branch { condition, then_block, else_block, span: place } => {
            let first = told(m, s, place);
            lemma_told(m, s, place);
            lemma_emitted(m, first, condition);
            if let Ok((s1, v)) = emitted(m, first, condition) {
                let c = CommandView::Branch {
                    condition: v.operand,
                    yes: then_block.0 as usize,
                    no: else_block.0 as usize,
                };
                lemma_issue(s1, c);
                if leads_to_blocks(s, end) {
                    assert(extends(s, s1));
                    assert(reaches(s1, then_block.0 as int) && reaches(s1, else_block.0 as int));
                }
            }
        },
        MirTerminatorView::Return(value) => {
            match value {
                None => {
                    lemma_told(m, s, span);
                    lemma_issue(told(m, s, span), CommandView::Return { value: None });
                },
                Some(e) => {
                    let first = told(m, s, e.span());
                    lemma_told(m, s, e.span());
                    lemma_emitted(m, first, e);
                    if let Ok((s1, v)) = emitted(m, first, e) {
                        lemma_packed(m, s1, v, m.function, m.return_type);
                        if let Ok((s2, given)) = packed(m, s1, v, m.function, m.return_type) {
                            lemma_issue(s2, CommandView::Return { value: Some(given.operand) });
                        }
                    }
                },
            }
        },
        MirTerminatorView::Unreachable => {
            lemma_issue(s, CommandView::Unreachable);
        },
    }
}

/// Whether the first blocks of a function are the first commands.
pub open spec fn has_blocks(s: Emission, n: int) -> bool {
    forall|k: int| 0 <= k < n ==> #[trigger] reaches(s, k)
}

/// A block.
pub proof fn lemma_block_emitted(m: Surroundings, s: Emission, f: MirFunctionView, k: int)
    requires
        0 <= k < f.blocks.len(),
        mir::well_formed(f),
    ensures
        done_known(s, has_blocks(s, f.blocks.len() as int), block_emitted(m, s, f, k)),
{
    let n = f.blocks.len() as int;
    let here = Surroundings { cleanup: mir::active(f, f.blocks[k].id), ..m };
    let s1 = enter(s, k);
    lemma_enter(s, k);
    lemma_all_performed(here, s1, f.blocks[k].instructions, 0);
    if let Ok(s2) = all_performed(here, s1, f.blocks[k].instructions, 0) {
        lemma_ended(here, s2, f.blocks[k].terminator, f.span);
        if has_blocks(s, n) {
            assert(reaches(s, k));
            lemma_block_counts(s, k);
            assert(extends(s, s2));
            assert forall|j: int| 0 <= j < n implies #[trigger] reaches(s2, j) by {
                assert(reaches(s, j));
            }
            assert(mir::leads_below(f.blocks[k].terminator, n));
            assert(leads_to_blocks(s2, f.blocks[k].terminator));
        }
    }
}

/// The blocks from `k` on.
pub proof fn lemma_blocks_emitted(m: Surroundings, s: Emission, f: MirFunctionView, k: int)
    requires
        0 <= k,
        mir::well_formed(f),
    ensures
        done_known(s, has_blocks(s, f.blocks.len() as int), blocks_emitted(m, s, f, k)),
    decreases f.blocks.len() - k,
{
    lemma_stays(s);
    let n = f.blocks.len() as int;
    if k < n {
        lemma_block_emitted(m, s, f, k);
        if let Ok(s1) = block_emitted(m, s, f, k) {
            lemma_blocks_emitted(m, s1, f, k + 1);
            if has_blocks(s, n) {
                assert forall|j: int| 0 <= j < n implies #[trigger] reaches(s1, j) by {
                    assert(reaches(s, j));
                }
            }
        }
    }
}

/// The parameters from `i` on.
pub proof fn lemma_entered(m: Surroundings, s: Emission, params: Seq<TypedParameterView>, i: int)
    ensures
        done_known(s, true, entered(m, s, params, i)),
    decreases params.len() - i,
{
    lemma_stays(s);
    if 0 <= i < params.len() {
        lemma_parameter_entered(m, s, params[i], i);
        if let Ok(s1) = parameter_entered(m, s, params[i], i) {
            lemma_entered(m, s1, params, i + 1);
        }
    }
}

/// A parameter.
pub proof fn lemma_parameter_entered(m: Surroundings, s: Emission, param: TypedParameterView, i: int)
    ensures
        done_known(s, true, parameter_entered(m, s, param, i)),
{
    reveal(parameter_entered);
    if let Ok(given) = passed_type(m, m.function, param.ty) {
        let v0 = ValueView { operand: OperandView::Parameter(i as usize), ty: given };
        lemma_unpacked(m, s, v0, m.function, param.ty, param.span);
        if let Ok((s1, v)) = unpacked(m, s, v0, m.function, param.ty, param.span) {
            if let Ok(low) = m.low(param.ty) {
                let c1 = CommandView::Alloca { ty: low, name: param.name + ".addr"@ };
                let s2 = issue(s1, c1);
                lemma_issue(s1, c1);
                let c2 = CommandView::Store { pointer: next(s1), value: v.operand };
                let s3 = issue(s2, c2);
                lemma_issue(s2, c2);
                if knows(s1, v.operand) {
                    assert(knows(s2, v.operand));
                }
                let t = Emission { locals: s3.locals.push((param.id, next(s1), low)), ..s3 };
                lemma_bound(s3, t, param.id, next(s1), low);
                if s1.commands.len() <= usize::MAX {
                    assert(knows(s2, next(s1)) && knows(s3, next(s1)));
                }
            }
        }
    }
}

/// The blocks of a function, appended.
pub proof fn lemma_appended(f: MirFunctionView, n: int)
    requires
        0 <= n <= f.blocks.len(),
    ensures
        appended(f, n).len() == n,
        well_wired(appended(f, n)),
        forall|k: int| 0 <= k < n ==> (#[trigger] appended(f, n)[k]) is Append,
    decreases n,
{
    if n > 0 {
        lemma_appended(f, n - 1);
        let before = appended(f, n - 1);
        let all = appended(f, n);
        assert(all.drop_last() =~= before);
        assert forall|k: int| 0 <= k < n implies (#[trigger] all[k]) is Append by {
            if k < n - 1 {
                assert(all[k] == before[k]);
            }
        }
    }
}

/// The commands that build a function use only what earlier commands gave, and
/// go only to blocks that were appended, as far as there are no more of them
/// than can be counted.
pub proof fn lemma_functions_are_well_wired(m: Surroundings, f: MirFunctionView)
    requires
        mir::well_formed(f),
    ensures
        function_emitted(m, f) matches Ok(s) ==> (s.commands.len() <= usize::MAX ==> well_wired(
            s.commands,
        )),
{
    let n = f.blocks.len() as int;
    let s = Emission {
        commands: appended(f, n),
        block: 0,
        locals: Seq::empty(),
        variables: Seq::empty(),
    };
    lemma_appended(f, n);
    assert(has_blocks(s, n)) by {
        assert forall|k: int| 0 <= k < n implies #[trigger] reaches(s, k) by {
            assert(s.commands[k] is Append);
        }
    }
    assert(reaches(s, 0));
    assert(s.commands.len() <= usize::MAX ==> sound(s)) by {
        reveal(sound);
    }
    lemma_stays(s);
    let s1 = match m.debug {
        Some((source, _)) => {
            lemma_place_told(s, source, f.span.start as int);
            place_told(s, source, f.span.start as int)
        },
        None => s,
    };
    let s2 = enter(s1, f.entry.0 as int);
    lemma_enter(s1, f.entry.0 as int);
    assert(reaches(s, f.entry.0 as int));
    assert(reaches(s1, f.entry.0 as int));
    lemma_entered(m, s2, f.params, 0);
    if let Ok(s3) = entered(m, s2, f.params, 0) {
        assert(extends(s, s3));
        assert(has_blocks(s3, n)) by {
            assert forall|k: int| 0 <= k < n implies #[trigger] reaches(s3, k) by {
                assert(reaches(s, k));
            }
        }
        lemma_blocks_emitted(m, s3, f, 0);
        if let Ok(s4) = blocks_emitted(m, s3, f, 0) {
            assert(s4.commands.len() <= usize::MAX ==> sound(s4));
            reveal(sound);
        }
    }
}

} // verus!
