//! Which commands build a program.
use crate::ast::{BinaryOp, UnaryOp};
use crate::instructions::{
    CodegenErrorView, CommandView, ConstantView, DebugFunctionView, DebugVariableView, FloatTest,
    IntTest, LowBinary, LowFunctionView, LowGlobalView, LowModuleView, LowStructView, LowType,
    LowUnary, OperandView, ValueView,
};
use crate::lexer::Span;
use crate::mir;
use crate::mir::{
    MirCleanupView, MirFunctionView, MirInstructionView, MirProgramView, MirTerminatorView,
};
use crate::text::decimal;
use crate::typed::{
    DefId, IntegerWidth, LayoutKind, LocalId, ResolvedType, TypedBlockView, TypedConstantView,
    TypedExprView, TypedFieldView, TypedFunctionView, TypedGlobalView, TypedParameterView,
    TypedPlaceView, TypedProgramView, TypedStmtView, TypedStructView,
};
use crate::execution::operation_name;
use vstd::prelude::*;

verus! {

// ---------------------------------------------------------------------------
// The layout of types
// ---------------------------------------------------------------------------

/// What is asked about the layout of types on the machine.
#[derive(Debug, PartialEq, Eq)]
pub enum LayoutAsk {
    Size(LowType),
    Align(LowType),
    Offset { id: DefId, index: u32 },
}

/// A machine's layout: the answer to each question, where there is one.
pub type LayoutModel = spec_fn(LayoutAsk) -> Option<u64>;

/// Whether a function answers every question, and always alike.
pub open spec fn lays_out<L: Fn(LayoutAsk) -> Option<u64>>(layout: L) -> bool {
    &&& forall|q: LayoutAsk| #[trigger] call_requires(layout, (q,))
    &&& forall|q: LayoutAsk, r: Option<u64>, s: Option<u64>|
        #![trigger call_ensures(layout, (q,), r), call_ensures(layout, (q,), s)]
        call_ensures(layout, (q,), r) && call_ensures(layout, (q,), s) ==> r == s
}

/// The layout that a function stands for.
pub open spec fn layout_model<L: Fn(LayoutAsk) -> Option<u64>>(layout: L) -> LayoutModel {
    |q: LayoutAsk| choose|r: Option<u64>| #[trigger] call_ensures(layout, (q,), r)
}

// ---------------------------------------------------------------------------
// Where code is generated
// ---------------------------------------------------------------------------

/// What the code of a function depends on.
pub ghost struct Surroundings {
    pub structs: Seq<TypedStructView>,
    pub globals: Seq<TypedGlobalView>,
    pub constants: Seq<TypedConstantView>,
    pub functions: Seq<TypedFunctionView>,
    pub pointer_width: u32,
    pub layout: LayoutModel,
    pub function: DefId,
    pub return_type: ResolvedType,
    /// The deferred calls to run where `?` leaves the function.
    pub cleanup: Seq<MirCleanupView>,
    /// The source text and the body to tell a debugger of.
    pub debug: Option<(Seq<char>, TypedBlockView)>,
}

/// The commands so far, the block they go to, and what they say of locals.
pub ghost struct Emission {
    pub commands: Seq<CommandView>,
    pub block: int,
    pub locals: Seq<(LocalId, OperandView, LowType)>,
    pub variables: Seq<DebugVariableView>,
}

pub type Emitted = Result<(Emission, ValueView), CodegenErrorView>;

pub type Done = Result<Emission, CodegenErrorView>;

pub open spec fn failure(message: Seq<char>) -> CodegenErrorView {
    CodegenErrorView { message, span: None }
}

pub open spec fn failure_at(message: Seq<char>, span: Span) -> CodegenErrorView {
    CodegenErrorView { message, span: Some(span) }
}

/// One command more.
pub open spec fn issue(s: Emission, c: CommandView) -> Emission {
    Emission { commands: s.commands.push(c), ..s }
}

/// The result of the next command.
pub open spec fn next(s: Emission) -> OperandView {
    OperandView::Register(s.commands.len() as usize)
}

/// One command more, whose result has a type.
pub open spec fn give(s: Emission, c: CommandView, ty: LowType) -> (Emission, ValueView) {
    (issue(s, c), ValueView { operand: next(s), ty })
}

/// Going on in a block.
pub open spec fn enter(s: Emission, block: int) -> Emission {
    Emission {
        block,
        ..issue(s, CommandView::Position { block: block as usize })
    }
}

pub open spec fn append(s: Emission, name: Seq<char>) -> Emission {
    issue(s, CommandView::Append { name })
}

// ---------------------------------------------------------------------------
// Types
// ---------------------------------------------------------------------------

/// The last of the first `n` structs with the identity.
pub open spec fn struct_of(structs: Seq<TypedStructView>, n: int, id: DefId) -> Option<int>
    decreases n,
{
    if n <= 0 || n > structs.len() {
        None
    } else if structs[n - 1].id == id {
        Some(n - 1)
    } else {
        struct_of(structs, n - 1, id)
    }
}

pub open spec fn knows_struct(structs: Seq<TypedStructView>, id: DefId) -> bool {
    struct_of(structs, structs.len() as int, id) is Some
}

pub open spec fn unknown_struct(id: DefId) -> CodegenErrorView {
    failure("unknown struct definition DefId("@ + decimal(id.0 as nat) + ")"@)
}

/// The type of values of a type.
pub open spec fn low_type(
    structs: Seq<TypedStructView>,
    pointer_width: u32,
    ty: ResolvedType,
) -> Result<LowType, CodegenErrorView>
    decreases ty,
{
    match ty {
        ResolvedType::Bool => Ok(LowType::Int(1)),
        ResolvedType::Integer { width, .. } => match width {
            IntegerWidth::Bits(bits) => if bits == 8 || bits == 16 || bits == 32 || bits == 64
                || bits == 128 {
                Ok(LowType::Int(bits as u32))
            } else {
                Err(failure("unsupported integer width "@ + decimal(bits as nat)))
            },
            IntegerWidth::Pointer => if pointer_width == 0 {
                Err(failure("zero pointer width"@))
            } else {
                Ok(LowType::Int(pointer_width))
            },
        },
        ResolvedType::Float { bits } => if bits == 32 || bits == 64 {
            Ok(LowType::Float(bits))
        } else {
            Err(failure("unsupported float width "@ + decimal(bits as nat)))
        },
        ResolvedType::Struct(id) => if knows_struct(structs, id) {
            Ok(LowType::Named(id))
        } else {
            Err(unknown_struct(id))
        },
        ResolvedType::Array { length, element } => if length > u32::MAX {
            Err(failure("fixed array length exceeds the LLVM aggregate limit"@))
        } else {
            match low_type(structs, pointer_width, *element) {
                Err(error) => Err(error),
                Ok(low) => Ok(LowType::Array { length: length as u32, element: Box::new(low) }),
            }
        },
        ResolvedType::Pointer(_) => Ok(LowType::Pointer),
        ResolvedType::Slice(_) => if pointer_width == 0 {
            Err(failure("zero pointer width"@))
        } else {
            Ok(LowType::Slice(pointer_width))
        },
        ResolvedType::Result { success, error } => match (if *success == ResolvedType::Unit {
            Ok(LowType::Int(8))
        } else {
            low_type(structs, pointer_width, *success)
        }) {
            Err(problem) => Err(problem),
            Ok(left) => match low_type(structs, pointer_width, *error) {
                Err(problem) => Err(problem),
                Ok(right) => Ok(
                    LowType::Outcome { success: Box::new(left), error: Box::new(right) },
                ),
            },
        },
        ResolvedType::Unit => Err(failure("unit is not a value type"@)),
    }
}

impl Surroundings {
    pub open spec fn low(self, ty: ResolvedType) -> Result<LowType, CodegenErrorView> {
        low_type(self.structs, self.pointer_width, ty)
    }

    /// As before, with no deferred calls.
    pub open spec fn bare(self) -> Surroundings {
        Surroundings { cleanup: Seq::empty(), ..self }
    }
}

/// Whether one of the first `n` functions has the identity and a foreign
/// calling convention.
pub open spec fn is_foreign(functions: Seq<TypedFunctionView>, n: int, id: DefId) -> bool
    decreases n,
{
    if n <= 0 || n > functions.len() {
        false
    } else {
        (functions[n - 1].id == id && functions[n - 1].abi is Some) || is_foreign(
            functions,
            n - 1,
            id,
        )
    }
}

/// The last of the first `n` functions with the identity.
pub open spec fn function_of(functions: Seq<TypedFunctionView>, n: int, id: DefId) -> Option<int>
    decreases n,
{
    if n <= 0 || n > functions.len() {
        None
    } else if functions[n - 1].id == id {
        Some(n - 1)
    } else {
        function_of(functions, n - 1, id)
    }
}

pub open spec fn is_composite(ty: ResolvedType) -> bool {
    ty is Struct || ty is Array || ty is Slice || ty is Result
}

/// The type under which a value goes in and out of a function: a foreign one
/// takes small aggregates as integers.
pub open spec fn passed_type(m: Surroundings, function: DefId, ty: ResolvedType) -> Result<
    LowType,
    CodegenErrorView,
> {
    match m.low(ty) {
        Err(error) => Err(error),
        Ok(basic) => if !is_foreign(m.functions, m.functions.len() as int, function)
            || !is_composite(ty) {
            Ok(basic)
        } else {
            match (m.layout)(LayoutAsk::Size(basic)) {
                None => Err(failure("could not compute the size of a type"@)),
                Some(size) => if size == 0 || size > 16 {
                    Ok(basic)
                } else {
                    Ok(LowType::Int((size * 8) as u32))
                },
            }
        },
    }
}

/// A value as it goes into a function.
pub open spec fn packed(
    m: Surroundings,
    s: Emission,
    value: ValueView,
    function: DefId,
    ty: ResolvedType,
) -> Emitted {
    match passed_type(m, function, ty) {
        Err(error) => Err(error),
        Ok(passed) => if value.ty == passed {
            Ok((s, value))
        } else {
            match m.low(ty) {
                Err(error) => Err(error),
                Ok(source) => {
                    let pointer = next(s);
                    let s1 = issue(
                        s,
                        CommandView::Alloca { ty: source, name: "abi.pack.addr"@ },
                    );
                    let s2 = issue(s1, CommandView::Store { pointer, value: value.operand });
                    Ok(
                        give(
                            s2,
                            CommandView::Load { ty: passed, pointer, name: "abi.pack"@ },
                            passed,
                        ),
                    )
                },
            }
        },
    }
}

/// A value that comes out of a function.
pub open spec fn unpacked(
    m: Surroundings,
    s: Emission,
    value: ValueView,
    function: DefId,
    ty: ResolvedType,
    span: Span,
) -> Emitted {
    match passed_type(m, function, ty) {
        Err(error) => Err(error),
        Ok(passed) => match m.low(ty) {
            Err(error) => Err(error),
            Ok(source) => if value.ty == source {
                Ok((s, value))
            } else if value.ty != passed {
                Err(failure_at("foreign ABI value has an unexpected type"@, span))
            } else {
                let pointer = next(s);
                let s1 = issue(s, CommandView::Alloca { ty: passed, name: "abi.unpack.addr"@ });
                let s2 = issue(s1, CommandView::Store { pointer, value: value.operand });
                Ok(
                    give(
                        s2,
                        CommandView::Load { ty: source, pointer, name: "abi.unpack"@ },
                        source,
                    ),
                )
            },
        },
    }
}

// ---------------------------------------------------------------------------
// Layout queries
// ---------------------------------------------------------------------------

/// The last of the first `n` fields with the name.
pub open spec fn field_of(fields: Seq<TypedFieldView>, n: int, name: Seq<char>) -> Option<int>
    decreases n,
{
    if n <= 0 || n > fields.len() {
        None
    } else if fields[n - 1].name == name {
        Some(n - 1)
    } else {
        field_of(fields, n - 1, name)
    }
}

/// The place of a field in a struct.
pub open spec fn field_place(m: Surroundings, id: DefId, field: Seq<char>, span: Span) -> Result<
    u32,
    CodegenErrorView,
> {
    match struct_of(m.structs, m.structs.len() as int, id) {
        None => Err(failure_at("unknown struct"@, span)),
        Some(i) => match field_of(
            m.structs[i].fields,
            m.structs[i].fields.len() as int,
            field,
        ) {
            None => Err(failure_at("unknown field `"@ + field + "`"@, span)),
            Some(index) => Ok((index % 0x1_0000_0000) as u32),
        },
    }
}

/// The number that a query about a layout stands for.
pub open spec fn layout_number(
    m: Surroundings,
    kind: LayoutKind,
    ty: ResolvedType,
    field: Option<Seq<char>>,
    span: Span,
) -> Result<u64, CodegenErrorView> {
    match m.low(ty) {
        Err(error) => Err(error),
        Ok(low) => match kind {
            LayoutKind::Size => match (m.layout)(LayoutAsk::Size(low)) {
                Some(number) => Ok(number),
                None => Err(failure_at("could not compute the size of a type"@, span)),
            },
            LayoutKind::Align => match (m.layout)(LayoutAsk::Align(low)) {
                Some(number) => Ok(number),
                None => Err(failure_at("could not compute the alignment of a type"@, span)),
            },
            LayoutKind::Offset => match field {
                None => Err(failure_at("offset_of requires a field"@, span)),
                Some(name) => match ty {
                    ResolvedType::Struct(id) => match field_place(m, id, name, span) {
                        Err(error) => Err(error),
                        Ok(index) => match (m.layout)(LayoutAsk::Offset { id, index }) {
                            Some(number) => Ok(number),
                            None => Err(failure_at("could not compute field offset"@, span)),
                        },
                    },
                    _ => Err(failure_at("offset_of requires a struct"@, span)),
                },
            },
        },
    }
}

// ---------------------------------------------------------------------------
// Constants
// ---------------------------------------------------------------------------

/// Whether a constant is an integer.
pub open spec fn is_whole(c: ConstantView) -> bool
    decreases c,
{
    match c {
        ConstantView::Integer { .. } => true,
        ConstantView::Number { .. } => true,
        ConstantView::Negated(x) => true,
        ConstantView::Inverted(x) => true,
        _ => false,
    }
}

/// The initial value that an expression stands for.
pub open spec fn constant(m: Surroundings, e: TypedExprView) -> Result<
    ConstantView,
    CodegenErrorView,
>
    decreases e, 0int,
{
    match e {
        TypedExprView::Integer { value, ty, span } => match m.low(ty) {
            Err(error) => Err(error),
            Ok(low) => if low is Int {
                Ok(ConstantView::Integer { value, ty: low })
            } else {
                Err(failure_at("invalid constant integer"@, span))
            },
        },
        TypedExprView::Float { value, ty, span } => match m.low(ty) {
            Err(error) => Err(error),
            Ok(low) => if low is Float {
                Ok(ConstantView::Float { value, ty: low })
            } else {
                Err(failure_at("float has a non-float type"@, span))
            },
        },
        TypedExprView::Bool { value, .. } => Ok(
            ConstantView::Number {
                value: if value {
                    1
                } else {
                    0
                },
                bits: 1,
            },
        ),
        TypedExprView::Layout { kind, target, field, span, .. } => match layout_number(
            m,
            kind,
            target,
            field,
            span,
        ) {
            Err(error) => Err(error),
            Ok(value) => if m.pointer_width == 0 {
                Err(failure("zero pointer width"@))
            } else {
                Ok(ConstantView::Number { value, bits: m.pointer_width })
            },
        },
        TypedExprView::StructLiteral { ty, fields, .. } => match ty {
            ResolvedType::Struct(id) => if !knows_struct(m.structs, id) {
                Err(unknown_struct(id))
            } else {
                match constants(m, fields, 0, Seq::empty()) {
                    Err(error) => Err(error),
                    Ok(values) => Ok(ConstantView::Struct { id, fields: values }),
                }
            },
            _ => Err(failure("invalid struct constant"@)),
        },
        TypedExprView::ArrayLiteral { ty, elements, .. } => match m.low(ty) {
            Err(error) => Err(error),
            Ok(low) => match low {
                LowType::Array { element, .. } => match constants(m, elements, 0, Seq::empty()) {
                    Err(error) => Err(error),
                    Ok(values) => Ok(ConstantView::Array { element: *element, values }),
                },
                _ => Err(failure("invalid array constant"@)),
            },
        },
        TypedExprView::Unary { operator, operand, .. } => match constant(m, *operand) {
            Err(error) => Err(error),
            Ok(value) => if !is_whole(value) || !(operator == UnaryOp::Negate || operator
                == UnaryOp::Not || operator == UnaryOp::BitwiseNot) {
                Err(failure("invalid constant unary expression"@))
            } else if operator == UnaryOp::Negate {
                Ok(ConstantView::Negated(Box::new(value)))
            } else {
                Ok(ConstantView::Inverted(Box::new(value)))
            },
        },
        _ => Err(failure("global initializer is not a constant"@)),
    }
}

/// The initial values of the expressions from `i` on, after `before`.
pub open spec fn constants(
    m: Surroundings,
    es: Seq<TypedExprView>,
    i: int,
    before: Seq<ConstantView>,
) -> Result<Seq<ConstantView>, CodegenErrorView>
    decreases es, es.len() - i,
{
    if i < 0 || i >= es.len() {
        Ok(before)
    } else {
        match constant(m, es[i]) {
            Err(error) => Err(error),
            Ok(value) => constants(m, es, i + 1, before.push(value)),
        }
    }
}

// ---------------------------------------------------------------------------
// Checks at run time
// ---------------------------------------------------------------------------

/// A branch to a trap where the condition does not hold.
pub open spec fn guarded(s: Emission, condition: OperandView) -> Emission {
    let trap = s.commands.len() as int;
    let rest = trap + 1;
    let s1 = append(append(s, "trap"@), "after.trap"@);
    let s2 = issue(
        s1,
        CommandView::Branch { condition, yes: rest as usize, no: trap as usize },
    );
    let s3 = issue(issue(enter(s2, trap), CommandView::Trap), CommandView::Unreachable);
    enter(s3, rest)
}

pub open spec fn number(value: u64, bits: u32) -> OperandView {
    OperandView::Number { value, bits }
}

/// The checks before a division: the divisor is not zero and, for signed
/// numbers, the quotient is not too large.
pub open spec fn division_guarded(
    s: Emission,
    a: OperandView,
    b: OperandView,
    bits: u32,
    signed: bool,
) -> Emission {
    let nonzero = next(s);
    let s1 = guarded(
        issue(
            s,
            CommandView::Compare {
                test: IntTest::NotEqual,
                left: b,
                right: number(0, bits),
                name: "div.nonzero"@,
            },
        ),
        nonzero,
    );
    if !signed {
        s1
    } else {
        let least = next(s1);
        let s2 = issue(
            s1,
            CommandView::Binary {
                operation: LowBinary::ShiftLeft,
                left: number(1, bits),
                right: number(
                    if bits == 0 {
                        0
                    } else {
                        (bits - 1) as u64
                    },
                    bits,
                ),
                name: "min"@,
            },
        );
        let is_least = next(s2);
        let s3 = issue(
            s2,
            CommandView::Compare { test: IntTest::Equal, left: a, right: least, name: "ismin"@ },
        );
        let is_minus_one = next(s3);
        let s4 = issue(
            s3,
            CommandView::Compare {
                test: IntTest::Equal,
                left: b,
                right: OperandView::AllOnes { bits },
                name: "isneg"@,
            },
        );
        let overflow = next(s4);
        let s5 = issue(
            s4,
            CommandView::Binary {
                operation: LowBinary::And,
                left: is_least,
                right: is_minus_one,
                name: "overflow"@,
            },
        );
        let safe = next(s5);
        let s6 = issue(
            s5,
            CommandView::Unary { operation: LowUnary::Not, operand: overflow, name: "safe"@ },
        );
        guarded(s6, safe)
    }
}

// ---------------------------------------------------------------------------
// Operators
// ---------------------------------------------------------------------------

pub open spec fn compared(
    s: Emission,
    test: IntTest,
    a: OperandView,
    b: OperandView,
    name: Seq<char>,
) -> (Emission, ValueView) {
    give(s, CommandView::Compare { test, left: a, right: b, name }, LowType::Int(1))
}

/// The comparison that an operator asks for.
pub open spec fn int_test(op: BinaryOp, signed: bool) -> Option<(IntTest, Seq<char>)> {
    match op {
        BinaryOp::Equal => Some((IntTest::Equal, "eq"@)),
        BinaryOp::NotEqual => Some((IntTest::NotEqual, "ne"@)),
        BinaryOp::Less => Some(
            (
                if signed {
                    IntTest::LessSigned
                } else {
                    IntTest::LessUnsigned
                },
                "lt"@,
            ),
        ),
        BinaryOp::LessEqual => Some(
            (
                if signed {
                    IntTest::LessEqualSigned
                } else {
                    IntTest::LessEqualUnsigned
                },
                "le"@,
            ),
        ),
        BinaryOp::Greater => Some(
            (
                if signed {
                    IntTest::GreaterSigned
                } else {
                    IntTest::GreaterUnsigned
                },
                "gt"@,
            ),
        ),
        BinaryOp::GreaterEqual => Some(
            (
                if signed {
                    IntTest::GreaterEqualSigned
                } else {
                    IntTest::GreaterEqualUnsigned
                },
                "ge"@,
            ),
        ),
        _ => None,
    }
}

/// The arithmetic that an operator asks for.
pub open spec fn int_operation(op: BinaryOp, signed: bool) -> Option<(LowBinary, Seq<char>)> {
    match op {
        BinaryOp::Add => Some((LowBinary::Add, "add"@)),
        BinaryOp::Subtract => Some((LowBinary::Subtract, "sub"@)),
        BinaryOp::Multiply => Some((LowBinary::Multiply, "mul"@)),
        BinaryOp::Divide => Some(
            (
                if signed {
                    LowBinary::DivideSigned
                } else {
                    LowBinary::DivideUnsigned
                },
                "div"@,
            ),
        ),
        BinaryOp::Modulo => Some(
            (
                if signed {
                    LowBinary::RemainderSigned
                } else {
                    LowBinary::RemainderUnsigned
                },
                "rem"@,
            ),
        ),
        BinaryOp::BitwiseAnd => Some((LowBinary::And, "and"@)),
        BinaryOp::BitwiseOr => Some((LowBinary::Or, "or"@)),
        BinaryOp::BitwiseXor => Some((LowBinary::Xor, "xor"@)),
        BinaryOp::ShiftLeft => Some((LowBinary::ShiftLeft, "shl"@)),
        BinaryOp::ShiftRight => Some(
            (
                if signed {
                    LowBinary::ShiftRightSigned
                } else {
                    LowBinary::ShiftRightUnsigned
                },
                "shr"@,
            ),
        ),
        _ => None,
    }
}

/// How far a shift of the width may go.
pub open spec fn shift_limit(width: IntegerWidth, pointer_width: u32) -> u64 {
    match width {
        IntegerWidth::Bits(bits) => bits as u64,
        IntegerWidth::Pointer => pointer_width as u64,
    }
}

/// An operator on integers or truth values.
#[verifier::opaque]
pub open spec fn int_operated(
    s: Emission,
    a: ValueView,
    op: BinaryOp,
    b: ValueView,
    ty: ResolvedType,
    pointer_width: u32,
    span: Span,
) -> Emitted {
    match ty {
        ResolvedType::Bool => if op == BinaryOp::Equal {
            Ok(compared(s, IntTest::Equal, a.operand, b.operand, "eq"@))
        } else if op == BinaryOp::NotEqual {
            Ok(compared(s, IntTest::NotEqual, a.operand, b.operand, "ne"@))
        } else {
            Err(failure_at("invalid boolean operator"@, span))
        },
        ResolvedType::Integer { width, signed } => match int_test(op, signed) {
            Some((test, name)) => Ok(compared(s, test, a.operand, b.operand, name)),
            None => match int_operation(op, signed) {
                None => Err(failure_at("logical operators require bool"@, span)),
                Some((operation, name)) => {
                    let bits = a.ty->Int_0;
                    let ready = if op == BinaryOp::Divide || op == BinaryOp::Modulo {
                        division_guarded(s, a.operand, b.operand, bits, signed)
                    } else if op == BinaryOp::ShiftLeft || op == BinaryOp::ShiftRight {
                        let valid = next(s);
                        guarded(
                            issue(
                                s,
                                CommandView::Compare {
                                    test: IntTest::LessUnsigned,
                                    left: b.operand,
                                    right: number(shift_limit(width, pointer_width), bits),
                                    name: "shift.valid"@,
                                },
                            ),
                            valid,
                        )
                    } else {
                        s
                    };
                    Ok(
                        give(
                            ready,
                            CommandView::Binary {
                                operation,
                                left: a.operand,
                                right: b.operand,
                                name,
                            },
                            a.ty,
                        ),
                    )
                },
            },
        },
        _ => Err(failure_at("integer operation has non-integer type"@, span)),
    }
}

pub open spec fn float_test(op: BinaryOp) -> Option<(FloatTest, Seq<char>)> {
    match op {
        BinaryOp::Equal => Some((FloatTest::Equal, "eq"@)),
        BinaryOp::NotEqual => Some((FloatTest::NotEqual, "ne"@)),
        BinaryOp::Less => Some((FloatTest::Less, "lt"@)),
        BinaryOp::LessEqual => Some((FloatTest::LessEqual, "le"@)),
        BinaryOp::Greater => Some((FloatTest::Greater, "gt"@)),
        BinaryOp::GreaterEqual => Some((FloatTest::GreaterEqual, "ge"@)),
        _ => None,
    }
}

pub open spec fn float_operation(op: BinaryOp) -> Option<(LowBinary, Seq<char>)> {
    match op {
        BinaryOp::Add => Some((LowBinary::AddFloats, "add"@)),
        BinaryOp::Subtract => Some((LowBinary::SubtractFloats, "sub"@)),
        BinaryOp::Multiply => Some((LowBinary::MultiplyFloats, "mul"@)),
        BinaryOp::Divide => Some((LowBinary::DivideFloats, "div"@)),
        BinaryOp::Modulo => Some((LowBinary::RemainderFloats, "rem"@)),
        _ => None,
    }
}

/// An operator on floating-point numbers.
#[verifier::opaque]
pub open spec fn float_operated(
    s: Emission,
    a: ValueView,
    op: BinaryOp,
    b: ValueView,
    span: Span,
) -> Emitted {
    match float_test(op) {
        Some((test, name)) => Ok(
            give(
                s,
                CommandView::CompareFloats { test, left: a.operand, right: b.operand, name },
                LowType::Int(1),
            ),
        ),
        None => match float_operation(op) {
            Some((operation, name)) => Ok(
                give(
                    s,
                    CommandView::Binary { operation, left: a.operand, right: b.operand, name },
                    a.ty,
                ),
            ),
            None => Err(failure_at("invalid floating point operator"@, span)),
        },
    }
}

/// A pointer moved by a number of elements.
#[verifier::opaque]
pub open spec fn pointer_moved(
    m: Surroundings,
    s: Emission,
    a: ValueView,
    op: BinaryOp,
    b: ValueView,
    left: ResolvedType,
    span: Span,
) -> Emitted {
    match left {
        ResolvedType::Pointer(element) => match m.low(*element) {
            Err(error) => Err(error),
            Ok(low) => {
                let (ready, index) = if op == BinaryOp::Subtract {
                    (
                        issue(
                            s,
                            CommandView::Unary {
                                operation: LowUnary::Negate,
                                operand: b.operand,
                                name: "ptr.neg"@,
                            },
                        ),
                        next(s),
                    )
                } else {
                    (s, b.operand)
                };
                Ok(
                    give(
                        ready,
                        CommandView::Element {
                            element: low,
                            pointer: a.operand,
                            index,
                            name: "ptr.add"@,
                        },
                        LowType::Pointer,
                    ),
                )
            },
        },
        _ => Err(failure_at("pointer arithmetic has a non-pointer lhs"@, span)),
    }
}

/// The distance of two pointers, or a comparison of them.
#[verifier::opaque]
pub open spec fn pointers_operated(
    m: Surroundings,
    s: Emission,
    a: ValueView,
    op: BinaryOp,
    b: ValueView,
    left: ResolvedType,
    span: Span,
) -> Emitted {
    if op == BinaryOp::Subtract {
        match left {
            ResolvedType::Pointer(element) => match m.low(*element) {
                Err(error) => Err(error),
                Ok(low) => Ok(
                    give(
                        s,
                        CommandView::Distance {
                            element: low,
                            left: a.operand,
                            right: b.operand,
                            name: "ptr.diff"@,
                        },
                        LowType::Int(64),
                    ),
                ),
            },
            _ => Err(failure_at("pointer subtraction has a non-pointer lhs"@, span)),
        }
    } else {
        match int_test(op, false) {
            None => Err(failure_at("invalid pointer operation"@, span)),
            Some((test, _)) => if m.pointer_width == 0 {
                Err(failure("zero pointer width"@))
            } else {
                let s1 = issue(
                    s,
                    CommandView::Address {
                        pointer: a.operand,
                        bits: m.pointer_width,
                        name: "ptr.a"@,
                    },
                );
                let s2 = issue(
                    s1,
                    CommandView::Address {
                        pointer: b.operand,
                        bits: m.pointer_width,
                        name: "ptr.b"@,
                    },
                );
                Ok(compared(s2, test, next(s), next(s1), "ptr.cmp"@))
            },
        }
    }
}

/// An operator on two values that are there already.
pub open spec fn operated(
    m: Surroundings,
    s: Emission,
    a: ValueView,
    op: BinaryOp,
    b: ValueView,
    left: ResolvedType,
    ty: ResolvedType,
    span: Span,
) -> Emitted {
    if a.ty is Pointer && b.ty is Int {
        pointer_moved(m, s, a, op, b, left, span)
    } else if a.ty is Pointer && b.ty is Pointer {
        pointers_operated(m, s, a, op, b, left, span)
    } else if a.ty is Int && b.ty is Int {
        int_operated(s, a, op, b, ty, m.pointer_width, span)
    } else if a.ty is Float && b.ty is Float {
        float_operated(s, a, op, b, span)
    } else {
        Err(failure_at("binary operands have incompatible resolved types"@, span))
    }
}

/// A unary operator on a value that is there already.
#[verifier::opaque]
pub open spec fn unary_operated(
    s: Emission,
    operator: UnaryOp,
    v: ValueView,
    ty: ResolvedType,
    span: Span,
) -> Emitted {
    if operator == UnaryOp::Negate && v.ty is Int {
        Ok(
            give(
                s,
                CommandView::Unary {
                    operation: LowUnary::Negate,
                    operand: v.operand,
                    name: "negtmp"@,
                },
                v.ty,
            ),
        )
    } else if operator == UnaryOp::Negate && v.ty is Float {
        Ok(
            give(
                s,
                CommandView::Unary {
                    operation: LowUnary::NegateFloat,
                    operand: v.operand,
                    name: "negtmp"@,
                },
                v.ty,
            ),
        )
    } else if (operator == UnaryOp::Not || operator == UnaryOp::BitwiseNot) && v.ty is Int {
        Ok(
            give(
                s,
                CommandView::Unary {
                    operation: LowUnary::Not,
                    operand: v.operand,
                    name: "nottmp"@,
                },
                v.ty,
            ),
        )
    } else {
        Err(failure_at("unsupported unary operand of type "@ + type_text(ty), span))
    }
}

// ---------------------------------------------------------------------------
// How types print
// ---------------------------------------------------------------------------

/// A type as it prints for debugging.
pub open spec fn type_text(ty: ResolvedType) -> Seq<char>
    decreases ty,
{
    match ty {
        ResolvedType::Unit => "Unit"@,
        ResolvedType::Bool => "Bool"@,
        ResolvedType::Integer { width, signed } => "Integer { width: "@ + width_text(width)
            + ", signed: "@ + (if signed {
            "true"@
        } else {
            "false"@
        }) + " }"@,
        ResolvedType::Float { bits } => "Float { bits: "@ + decimal(bits as nat) + " }"@,
        ResolvedType::Struct(id) => "Struct(DefId("@ + decimal(id.0 as nat) + "))"@,
        ResolvedType::Array { length, element } => "Array { length: "@ + decimal(length as nat)
            + ", element: "@ + type_text(*element) + " }"@,
        ResolvedType::Pointer(inner) => "Pointer("@ + type_text(*inner) + ")"@,
        ResolvedType::Slice(inner) => "Slice("@ + type_text(*inner) + ")"@,
        ResolvedType::Result { success, error } => "Result { success: "@ + type_text(*success)
            + ", error: "@ + type_text(*error) + " }"@,
    }
}

pub open spec fn width_text(width: IntegerWidth) -> Seq<char> {
    match width {
        IntegerWidth::Bits(bits) => "Bits("@ + decimal(bits as nat) + ")"@,
        IntegerWidth::Pointer => "Pointer"@,
    }
}

// ---------------------------------------------------------------------------
// Places that a debugger is told
// ---------------------------------------------------------------------------

/// How many of the first `n` bytes are line feeds.
pub open spec fn line_feeds(bytes: Seq<u8>, n: int) -> nat
    decreases n,
{
    if n <= 0 || n > bytes.len() {
        0
    } else {
        line_feeds(bytes, n - 1) + (if bytes[n - 1] == 10u8 {
            1nat
        } else {
            0nat
        })
    }
}

/// Where the line that holds the end of the first `n` bytes starts.
pub open spec fn line_begin(bytes: Seq<u8>, n: int) -> int
    decreases n,
{
    if n <= 0 || n > bytes.len() {
        0
    } else if bytes[n - 1] == 10u8 {
        n
    } else {
        line_begin(bytes, n - 1)
    }
}

pub open spec fn clipped(bytes: Seq<u8>, offset: int) -> int {
    if offset <= bytes.len() {
        offset
    } else {
        bytes.len() as int
    }
}

pub open spec fn source_line(source: Seq<char>, offset: int) -> u32 {
    let bytes = vstd::utf8::encode_utf8(source);
    ((line_feeds(bytes, clipped(bytes, offset)) + 1) % 0x1_0000_0000) as u32
}

pub open spec fn source_column(source: Seq<char>, offset: int) -> u32 {
    let bytes = vstd::utf8::encode_utf8(source);
    let end = clipped(bytes, offset);
    ((end - line_begin(bytes, end) + 1) % 0x1_0000_0000) as u32
}

/// Where a statement stands in its source.
pub open spec fn statement_span(s: TypedStmtView) -> Span {
    match s {
        TypedStmtView::If { span, .. } => span,
        TypedStmtView::While { span, .. } => span,
        TypedStmtView::Break { span } => span,
        TypedStmtView::Continue { span } => span,
        TypedStmtView::Defer { span, .. } => span,
        TypedStmtView::Return { span, .. } => span,
        TypedStmtView::Declare { span, .. } => span,
        TypedStmtView::Store { span, .. } => span,
        TypedStmtView::Expr { span, .. } => span,
    }
}

/// Whether a statement of the block, at any depth, starts at the offset.
pub open spec fn starts_in(b: TypedBlockView, offset: usize) -> bool
    decreases b, 0int,
{
    starts_among(b.statements, b.statements.len() as int, offset)
}

pub open spec fn starts_among(ss: Seq<TypedStmtView>, n: int, offset: usize) -> bool
    decreases ss, n,
{
    if n <= 0 || n > ss.len() {
        false
    } else {
        starts_at(ss[n - 1], offset) || starts_among(ss, n - 1, offset)
    }
}

pub open spec fn starts_at(s: TypedStmtView, offset: usize) -> bool
    decreases s, 0int,
{
    statement_span(s).start == offset || match s {
        TypedStmtView::If { then_branch, else_branch, .. } => starts_in(then_branch, offset)
            || match else_branch {
            Some(branch) => starts_in(branch, offset),
            None => false,
        },
        TypedStmtView::While { body, .. } => starts_in(body, offset),
        _ => false,
    }
}

pub open spec fn place_told(s: Emission, source: Seq<char>, offset: int) -> Emission {
    issue(
        s,
        CommandView::Locate {
            line: source_line(source, offset),
            column: source_column(source, offset),
        },
    )
}

/// The place of a statement, told to a debugger.
pub open spec fn told(m: Surroundings, s: Emission, span: Span) -> Emission {
    match m.debug {
        Some((source, body)) => if starts_in(body, span.start) {
            place_told(s, source, span.start as int)
        } else {
            s
        },
        None => s,
    }
}

// ---------------------------------------------------------------------------
// Expressions
// ---------------------------------------------------------------------------

/// The last of the first `n` locals with the identity.
pub open spec fn local_of(
    locals: Seq<(LocalId, OperandView, LowType)>,
    n: int,
    id: LocalId,
) -> Option<(OperandView, LowType)>
    decreases n,
{
    if n <= 0 || n > locals.len() {
        None
    } else if locals[n - 1].0 == id {
        Some((locals[n - 1].1, locals[n - 1].2))
    } else {
        local_of(locals, n - 1, id)
    }
}

/// The type of the last global or constant with the identity.
pub open spec fn global_type(m: Surroundings, id: DefId) -> Option<ResolvedType> {
    match constant_of(m.constants, m.constants.len() as int, id) {
        Some(i) => Some(m.constants[i].ty),
        None => match global_of(m.globals, m.globals.len() as int, id) {
            Some(i) => Some(m.globals[i].ty),
            None => None,
        },
    }
}

pub open spec fn constant_of(list: Seq<TypedConstantView>, n: int, id: DefId) -> Option<int>
    decreases n,
{
    if n <= 0 || n > list.len() {
        None
    } else if list[n - 1].id == id {
        Some(n - 1)
    } else {
        constant_of(list, n - 1, id)
    }
}

pub open spec fn global_of(list: Seq<TypedGlobalView>, n: int, id: DefId) -> Option<int>
    decreases n,
{
    if n <= 0 || n > list.len() {
        None
    } else if list[n - 1].id == id {
        Some(n - 1)
    } else {
        global_of(list, n - 1, id)
    }
}

pub open spec fn as_condition(v: ValueView, span: Span) -> Result<OperandView, CodegenErrorView> {
    if v.ty == LowType::Int(1) {
        Ok(v.operand)
    } else {
        Err(failure_at("condition must be a bool"@, span))
    }
}

/// A result value: its tag, and the success value or the error value.
#[verifier::opaque]
pub open spec fn outcome_built(
    s: Emission,
    outcome: LowType,
    tag: OperandView,
    tag_name: Seq<char>,
    value: OperandView,
    index: u32,
    name: Seq<char>,
) -> (Emission, ValueView) {
    let s1 = issue(
        s,
        CommandView::Insert {
            aggregate: OperandView::Undefined(outcome),
            value: tag,
            index: 0,
            name: tag_name,
        },
    );
    give(s1, CommandView::Insert { aggregate: next(s), value, index, name }, outcome)
}

/// One part of a result value.
pub open spec fn part_taken(
    s: Emission,
    v: ValueView,
    index: u32,
    name: Seq<char>,
    span: Span,
) -> Emitted {
    match v.ty {
        LowType::Outcome { success, error } => Ok(
            give(
                s,
                CommandView::Extract { aggregate: v.operand, index, name },
                if index == 0 {
                    LowType::Int(1)
                } else if index == 1 {
                    *success
                } else {
                    *error
                },
            ),
        ),
        _ => Err(failure_at("result operation on a value that is no result"@, span)),
    }
}

/// The success value, where the type has one.
pub open spec fn success_taken(
    s: Emission,
    v: ValueView,
    ty: ResolvedType,
    name: Seq<char>,
    span: Span,
) -> Emitted {
    if ty == ResolvedType::Unit {
        Ok((s, ValueView { operand: number(0, 8), ty: LowType::Int(8) }))
    } else {
        part_taken(s, v, 1, name, span)
    }
}

/// The number of bits of the machine's own integers.
pub open spec fn word_bits(m: Surroundings) -> Result<u32, CodegenErrorView> {
    if m.pointer_width == 0 {
        Err(failure("zero pointer width"@))
    } else {
        Ok(m.pointer_width)
    }
}

/// The commands that an expression stands for, and its value.
pub open spec fn emitted(m: Surroundings, s: Emission, e: TypedExprView) -> Emitted
    decreases m.cleanup.len(), 0int, e, 0int,
{
    match e {
        TypedExprView::Integer { value, ty, span } => match m.low(ty) {
            Err(error) => Err(error),
            Ok(low) => if low is Int {
                Ok((s, ValueView { operand: OperandView::Integer { value, ty: low }, ty: low }))
            } else {
                Err(failure_at("integer has a non-integer type"@, span))
            },
        },
        TypedExprView::Float { value, ty, span } => match m.low(ty) {
            Err(error) => Err(error),
            Ok(low) => if low is Float {
                Ok((s, ValueView { operand: OperandView::Float { value, ty: low }, ty: low }))
            } else {
                Err(failure_at("float has a non-float type"@, span))
            },
        },
        TypedExprView::Bool { value, .. } => Ok(
            (
                s,
                ValueView {
                    operand: number(
                        if value {
                            1
                        } else {
                            0
                        },
                        1,
                    ),
                    ty: LowType::Int(1),
                },
            ),
        ),
        TypedExprView::Null { ty, span } => match m.low(ty) {
            Err(error) => Err(error),
            Ok(low) => if low is Pointer {
                Ok((s, ValueView { operand: OperandView::Null, ty: LowType::Pointer }))
            } else {
                Err(failure_at("null requires a pointer type"@, span))
            },
        },
        TypedExprView::AddressOf { place, span, .. } => match pointed(m, s, *place, span) {
            Err(error) => Err(error),
            Ok((s1, pointer)) => Ok((s1, ValueView { operand: pointer, ty: LowType::Pointer })),
        },
        TypedExprView::Dereference { place, ty, span } => loaded(
            m,
            pointed(m, s, *place, span),
            ty,
            "deref.load"@,
        ),
        TypedExprView::Field { place, ty, span } => loaded(
            m,
            pointed(m, s, *place, span),
            ty,
            "aggregate.load"@,
        ),
        TypedExprView::Index { place, ty, span } => loaded(
            m,
            pointed(m, s, *place, span),
            ty,
            "aggregate.load"@,
        ),
        TypedExprView::ResultOk { value, ty, span } => match ty {
            ResolvedType::Result { success, .. } => match m.low(ty) {
                Err(error) => Err(error),
                Ok(outcome) => match (if *success == ResolvedType::Unit {
                    Ok((s, ValueView { operand: number(0, 8), ty: LowType::Int(8) }))
                } else {
                    emitted(m, s, *value)
                }) {
                    Err(error) => Err(error),
                    Ok((s1, v)) => Ok(
                        outcome_built(
                            s1,
                            outcome,
                            number(0, 1),
                            "result.ok"@,
                            v.operand,
                            1,
                            "result.value"@,
                        ),
                    ),
                },
            },
            _ => Err(failure_at("invalid result success type"@, span)),
        },
        TypedExprView::ResultErr { value, ty, span } => match ty {
            ResolvedType::Result { .. } => match m.low(ty) {
                Err(error) => Err(error),
                Ok(outcome) => match emitted(m, s, *value) {
                    Err(error) => Err(error),
                    Ok((s1, v)) => Ok(
                        outcome_built(
                            s1,
                            outcome,
                            OperandView::AllOnes { bits: 1 },
                            "result.err"@,
                            v.operand,
                            2,
                            "result.error"@,
                        ),
                    ),
                },
            },
            _ => Err(failure_at("invalid result error type"@, span)),
        },
        TypedExprView::IsErr { value, span, .. } => match emitted(m, s, *value) {
            Err(error) => Err(error),
            Ok((s1, v)) => part_taken(s1, v, 0, "result.is_err"@, span),
        },
        TypedExprView::Unwrap { value, ty, span } => match emitted(m, s, *value) {
            Err(error) => Err(error),
            Ok((s1, v)) => match part_taken(s1, v, 0, "result.tag"@, span) {
                Err(error) => Err(error),
                Ok((s2, tag)) => {
                    let fine = next(s2);
                    let s3 = issue(
                        s2,
                        CommandView::Unary {
                            operation: LowUnary::Not,
                            operand: tag.operand,
                            name: "result.ok"@,
                        },
                    );
                    success_taken(guarded(s3, fine), v, ty, "result.unwrap"@, span)
                },
            },
        },
        TypedExprView::Propagate { value, ty, span } => match emitted(m, s, *value) {
            Err(error) => Err(error),
            Ok((s1, v)) => match part_taken(s1, v, 0, "result.tag"@, span) {
                Err(error) => Err(error),
                Ok((s2, tag)) => {
                    let failed = s2.commands.len() as int;
                    let went_on = failed + 1;
                    let s3 = append(append(s2, "propagate.error"@), "propagate.ok"@);
                    let s4 = issue(
                        s3,
                        CommandView::Branch {
                            condition: tag.operand,
                            yes: failed as usize,
                            no: went_on as usize,
                        },
                    );
                    let s5 = enter(s4, failed);
                    match (if m.cleanup.len() == 0 {
                        Ok(s5)
                    } else {
                        cleaned(m.bare(), s5, m.cleanup, 0)
                    }) {
                        Err(error) => Err(error),
                        Ok(s6) => match error_returned(m, s6, v, (*value).span(), span) {
                            Err(error) => Err(error),
                            Ok(s7) => success_taken(
                                enter(s7, went_on),
                                v,
                                ty,
                                "propagate.value"@,
                                span,
                            ),
                        },
                    }
                },
            },
        },
        TypedExprView::Layout { kind, target, field, span, .. } => match layout_number(
            m,
            kind,
            target,
            field,
            span,
        ) {
            Err(error) => Err(error),
            Ok(value) => match word_bits(m) {
                Err(error) => Err(error),
                Ok(bits) => Ok(
                    (s, ValueView { operand: number(value, bits), ty: LowType::Int(bits) }),
                ),
            },
        },
        TypedExprView::Load { id, span, .. } => match local_of(
            s.locals,
            s.locals.len() as int,
            id,
        ) {
            None => Err(failure_at("unknown resolved local"@, span)),
            Some((pointer, low)) => Ok(
                give(s, CommandView::Load { ty: low, pointer, name: "loadtmp"@ }, low),
            ),
        },
        TypedExprView::GlobalLoad { id, span, .. } => match global_type(m, id) {
            None => Err(failure_at("unknown global"@, span)),
            Some(ty) => match m.low(ty) {
                Err(error) => Err(error),
                Ok(low) => Ok(
                    give(
                        s,
                        CommandView::Load {
                            ty: low,
                            pointer: OperandView::Global(id),
                            name: "global.load"@,
                        },
                        low,
                    ),
                ),
            },
        },
        TypedExprView::StructLiteral { ty, fields, .. } => match ty {
            ResolvedType::Struct(id) => if !knows_struct(m.structs, id) {
                Err(unknown_struct(id))
            } else {
                let low = LowType::Named(id);
                inserted(m, s, fields, 0, OperandView::Undefined(low), low, "struct.insert"@)
            },
            _ => Err(failure("invalid struct literal type"@)),
        },
        TypedExprView::ArrayLiteral { ty, elements, .. } => match m.low(ty) {
            Err(error) => Err(error),
            Ok(low) => if low is Array {
                inserted(m, s, elements, 0, OperandView::Undefined(low), low, "array.insert"@)
            } else {
                Err(failure("invalid array literal type"@))
            },
        },
        TypedExprView::Unary { operator, operand, ty, span } => match emitted(m, s, *operand) {
            Err(error) => Err(error),
            Ok((s1, v)) => unary_operated(s1, operator, v, ty, span),
        },
        TypedExprView::Binary { left, operator, right, operand_type, span, .. } => if operator
            == BinaryOp::LogicalAnd || operator == BinaryOp::LogicalOr {
            match emitted(m, s, *left) {
                Err(error) => Err(error),
                Ok((s1, a)) => match as_condition(a, (*left).span()) {
                    Err(error) => Err(error),
                    Ok(condition) => {
                        let other = s1.commands.len() as int;
                        match emitted(m, other_entered(s1, condition, operator), *right) {
                            Err(error) => Err(error),
                            Ok((s2, b)) => match as_condition(b, (*right).span()) {
                                Err(error) => Err(error),
                                Ok(second) => Ok(
                                    logic_joined(s2, other, second, operator),
                                ),
                            },
                        }
                    },
                },
            }
        } else {
            match emitted(m, s, *left) {
                Err(error) => Err(error),
                Ok((s1, a)) => match emitted(m, s1, *right) {
                    Err(error) => Err(error),
                    Ok((s2, b)) => operated(
                        m,
                        s2,
                        a,
                        operator,
                        b,
                        (*left).ty(),
                        operand_type,
                        span,
                    ),
                },
            }
        },
        TypedExprView::MakeSlice { pointer, length, span, .. } => match emitted(m, s, *pointer) {
            Err(error) => Err(error),
            Ok((s1, p)) => match emitted(m, s1, *length) {
                Err(error) => Err(error),
                Ok((s2, n)) => slice_built(m, s2, p, n, span),
            },
        },
        TypedExprView::Call { function, name, arguments, ty, span, .. } => match called(
            m,
            s,
            function,
            arguments,
            ty,
            span,
        ) {
            Err(error) => Err(error),
            Ok((s1, Some(v))) => Ok((s1, v)),
            Ok((_, None)) => Err(
                failure_at(
                    "void function `"@ + name + "` has no value of type "@ + type_text(ty),
                    span,
                ),
            ),
        },
        TypedExprView::LowLevel { operation, span, .. } => Err(
            failure_at(
                "low-level operation `"@ + operation_name(operation) + "` is not supported"@,
                span,
            ),
        ),
    }
}

/// What a pointer leads to.
pub open spec fn loaded(
    m: Surroundings,
    found: Result<(Emission, OperandView), CodegenErrorView>,
    ty: ResolvedType,
    name: Seq<char>,
) -> Emitted {
    match found {
        Err(error) => Err(error),
        Ok((s, pointer)) => match m.low(ty) {
            Err(error) => Err(error),
            Ok(low) => Ok(give(s, CommandView::Load { ty: low, pointer, name }, low)),
        },
    }
}

/// The start of the right side of `&&` or `||`: skipped where the left side
/// decides.
#[verifier::opaque]
pub open spec fn other_entered(s: Emission, condition: OperandView, op: BinaryOp) -> Emission {
    let other = s.commands.len() as int;
    let short = other + 1;
    let s1 = append(append(append(s, "logical.right"@), "logical.short"@), "logical.end"@);
    let s2 = issue(
        s1,
        if op == BinaryOp::LogicalAnd {
            CommandView::Branch { condition, yes: other as usize, no: short as usize }
        } else {
            CommandView::Branch { condition, yes: short as usize, no: other as usize }
        },
    );
    enter(s2, other)
}

/// The end of `&&` or `||`: the value of the side that decided.
#[verifier::opaque]
pub open spec fn logic_joined(s: Emission, other: int, second: OperandView, op: BinaryOp) -> (
    Emission,
    ValueView,
) {
    let short = other + 1;
    let end = other + 2;
    let s1 = issue(s, CommandView::Jump { block: end as usize });
    let s2 = issue(enter(s1, short), CommandView::Jump { block: end as usize });
    give(
        enter(s2, end),
        CommandView::Choose {
            left: second,
            left_block: s.block as usize,
            right: number(
                if op == BinaryOp::LogicalOr {
                    1
                } else {
                    0
                },
                1,
            ),
            right_block: short as usize,
            name: "logicaltmp"@,
        },
        LowType::Int(1),
    )
}

/// A slice of a pointer, which is not null, and a length; or an empty one.
#[verifier::opaque]
pub open spec fn slice_built(
    m: Surroundings,
    s: Emission,
    p: ValueView,
    n: ValueView,
    span: Span,
) -> Emitted {
    match (p.ty, n.ty) {
        (LowType::Pointer, LowType::Int(bits)) => match word_bits(m) {
            Err(error) => Err(error),
            Ok(word) => {
                let low = LowType::Slice(word);
                let s1 = issue(
                    s,
                    CommandView::NotNull { pointer: p.operand, name: "slice.not_null"@ },
                );
                let s2 = issue(
                    s1,
                    CommandView::Compare {
                        test: IntTest::Equal,
                        left: n.operand,
                        right: number(0, bits),
                        name: "slice.empty"@,
                    },
                );
                let valid = next(s2);
                let s3 = issue(
                    s2,
                    CommandView::Binary {
                        operation: LowBinary::Or,
                        left: next(s),
                        right: next(s1),
                        name: "slice.valid"@,
                    },
                );
                let s4 = guarded(s3, valid);
                let s5 = issue(
                    s4,
                    CommandView::Insert {
                        aggregate: OperandView::Undefined(low),
                        value: p.operand,
                        index: 0,
                        name: "slice.ptr"@,
                    },
                );
                Ok(
                    give(
                        s5,
                        CommandView::Insert {
                            aggregate: next(s4),
                            value: n.operand,
                            index: 1,
                            name: "slice.len"@,
                        },
                        low,
                    ),
                )
            },
        },
        _ => Err(failure_at("slice needs a pointer and a length"@, span)),
    }
}

/// The error of a result value, returned as the error of the function. Where
/// the function gives an exit code, the program traps.
#[verifier::opaque]
pub open spec fn error_returned(
    m: Surroundings,
    s: Emission,
    v: ValueView,
    operand_span: Span,
    span: Span,
) -> Done {
    match part_taken(s, v, 2, "propagate.error.value"@, span) {
        Err(error) => Err(error),
        Ok((s1, problem)) => match m.return_type {
            ResolvedType::Result { .. } => match m.low(m.return_type) {
                Err(error) => Err(error),
                Ok(outcome) => {
                    let (s2, value) = outcome_built(
                        s1,
                        outcome,
                        OperandView::AllOnes { bits: 1 },
                        "propagate.return.err"@,
                        problem.operand,
                        2,
                        "propagate.return.value"@,
                    );
                    Ok(issue(s2, CommandView::Return { value: Some(value.operand) }))
                },
            },
            ResolvedType::Integer { width: IntegerWidth::Bits(32), signed: true } => Ok(
                issue(issue(s1, CommandView::Trap), CommandView::Unreachable),
            ),
            _ => Err(failure_at("propagation target is not a result"@, operand_span)),
        },
    }
}

/// The values of the expressions from `i` on, put into an aggregate one after
/// the other.
pub open spec fn inserted(
    m: Surroundings,
    s: Emission,
    es: Seq<TypedExprView>,
    i: int,
    aggregate: OperandView,
    low: LowType,
    name: Seq<char>,
) -> Emitted
    decreases m.cleanup.len(), 0int, es, es.len() - i,
{
    if i < 0 || i >= es.len() {
        Ok((s, ValueView { operand: aggregate, ty: low }))
    } else {
        match emitted(m, s, es[i]) {
            Err(error) => Err(error),
            Ok((s1, v)) => inserted(
                m,
                issue(
                    s1,
                    CommandView::Insert {
                        aggregate,
                        value: v.operand,
                        index: (i % 0x1_0000_0000) as u32,
                        name,
                    },
                ),
                es,
                i + 1,
                next(s1),
                low,
                name,
            ),
        }
    }
}

/// The values of the arguments from `i` on, as they go into a function, after
/// `before`.
pub open spec fn passed(
    m: Surroundings,
    s: Emission,
    function: DefId,
    es: Seq<TypedExprView>,
    i: int,
    before: Seq<OperandView>,
) -> Result<(Emission, Seq<OperandView>), CodegenErrorView>
    decreases m.cleanup.len(), 0int, es, es.len() - i,
{
    if i < 0 || i >= es.len() {
        Ok((s, before))
    } else {
        match emitted(m, s, es[i]) {
            Err(error) => Err(error),
            Ok((s1, v)) => match packed(m, s1, v, function, es[i].ty()) {
                Err(error) => Err(error),
                Ok((s2, value)) => passed(
                    m,
                    s2,
                    function,
                    es,
                    i + 1,
                    before.push(value.operand),
                ),
            },
        }
    }
}

/// A call and, where the function gives one, its value.
pub open spec fn called(
    m: Surroundings,
    s: Emission,
    function: DefId,
    arguments: Seq<TypedExprView>,
    ty: ResolvedType,
    span: Span,
) -> Result<(Emission, Option<ValueView>), CodegenErrorView>
    decreases m.cleanup.len(), 0int, arguments, arguments.len() + 1,
{
    match function_of(m.functions, m.functions.len() as int, function) {
        None => Err(failure_at("unknown resolved call target"@, span)),
        Some(i) => match passed(m, s, function, arguments, 0, Seq::empty()) {
            Err(error) => Err(error),
            Ok((s1, values)) => call_issued(
                m,
                s1,
                function,
                values,
                m.functions[i].return_type,
                ty,
                span,
            ),
        },
    }
}

/// The call itself, with arguments that are there already.
#[verifier::opaque]
pub open spec fn call_issued(
    m: Surroundings,
    s: Emission,
    function: DefId,
    arguments: Seq<OperandView>,
    declared: ResolvedType,
    ty: ResolvedType,
    span: Span,
) -> Result<(Emission, Option<ValueView>), CodegenErrorView> {
    let s1 = issue(s, CommandView::Call { function, arguments, name: "call"@ });
    if declared == ResolvedType::Unit {
        Ok((s1, None))
    } else {
        match passed_type(m, function, declared) {
            Err(error) => Err(error),
            Ok(result) => match unpacked(
                m,
                s1,
                ValueView { operand: next(s), ty: result },
                function,
                ty,
                span,
            ) {
                Err(error) => Err(error),
                Ok((s2, v)) => Ok((s2, Some(v))),
            },
        }
    }
}

/// The deferred calls from `i` on.
pub open spec fn cleaned(m: Surroundings, s: Emission, actions: Seq<MirCleanupView>, i: int) -> Done
    decreases m.cleanup.len(), 1int, actions, actions.len() - i,
{
    if i < 0 || i >= actions.len() {
        Ok(s)
    } else {
        match passed(m, s, actions[i].function, actions[i].arguments, 0, Seq::empty()) {
            Err(error) => Err(error),
            Ok((s1, values)) => if function_of(
                m.functions,
                m.functions.len() as int,
                actions[i].function,
            ) is None {
                Err(failure_at("unknown deferred function"@, actions[i].span))
            } else {
                cleaned(
                    m,
                    issue(
                        s1,
                        CommandView::Call {
                            function: actions[i].function,
                            arguments: values,
                            name: "defer.call"@,
                        },
                    ),
                    actions,
                    i + 1,
                )
            },
        }
    }
}

/// The pointer to a place.
pub open spec fn pointed(m: Surroundings, s: Emission, place: TypedPlaceView, span: Span) -> Result<
    (Emission, OperandView),
    CodegenErrorView,
>
    decreases m.cleanup.len(), 0int, place, 0int,
{
    match place {
        TypedPlaceView::Local { id, .. } => match local_of(s.locals, s.locals.len() as int, id) {
            None => Err(failure_at("unknown local"@, span)),
            Some((pointer, _)) => Ok((s, pointer)),
        },
        TypedPlaceView::Global { id, .. } => match global_type(m, id) {
            None => Err(failure_at("unknown global"@, span)),
            Some(_) => Ok((s, OperandView::Global(id))),
        },
        TypedPlaceView::Temporary { value, ty } => match m.low(ty) {
            Err(error) => Err(error),
            Ok(low) => match emitted(m, s, *value) {
                Err(error) => Err(error),
                Ok((s1, v)) => {
                    let pointer = next(s1);
                    let s2 = issue(
                        s1,
                        CommandView::Alloca { ty: low, name: "temporary.addr"@ },
                    );
                    Ok((issue(s2, CommandView::Store { pointer, value: v.operand }), pointer))
                },
            },
        },
        TypedPlaceView::Field { base, index, .. } => match pointed(m, s, *base, span) {
            Err(error) => Err(error),
            Ok((s1, pointer)) => match (*base).ty() {
                ResolvedType::Struct(id) => if !knows_struct(m.structs, id) {
                    Err(unknown_struct(id))
                } else {
                    Ok(
                        (
                            issue(
                                s1,
                                CommandView::Member { id, pointer, index, name: "field.ptr"@ },
                            ),
                            next(s1),
                        ),
                    )
                },
                _ => Err(failure_at("field base is not a struct"@, span)),
            },
        },
        TypedPlaceView::Index { base, index, length, checked, .. } => match pointed(
            m,
            s,
            *base,
            span,
        ) {
            Err(error) => Err(error),
            Ok((s1, pointer)) => match emitted(m, s1, *index) {
                Err(error) => Err(error),
                Ok((s2, i)) => element_pointed(
                    m,
                    s2,
                    pointer,
                    i,
                    (*base).ty(),
                    length,
                    checked,
                    span,
                ),
            },
        },
        TypedPlaceView::Dereference { pointer, .. } => match emitted(m, s, *pointer) {
            Err(error) => Err(error),
            Ok((s1, v)) => if v.ty is Pointer {
                Ok((s1, v.operand))
            } else {
                Err(failure_at("dereferenced value is no pointer"@, span))
            },
        },
    }
}

/// The check of an index against a limit.
pub open spec fn index_checked(s: Emission, index: OperandView, limit: OperandView) -> Emission {
    let valid = next(s);
    guarded(
        issue(
            s,
            CommandView::Compare {
                test: IntTest::LessUnsigned,
                left: index,
                right: limit,
                name: "index.valid"@,
            },
        ),
        valid,
    )
}

/// The pointer to an element of what a pointer leads to.
#[verifier::opaque]
pub open spec fn element_pointed(
    m: Surroundings,
    s: Emission,
    pointer: OperandView,
    index: ValueView,
    ty: ResolvedType,
    length: Option<u64>,
    checked: bool,
    span: Span,
) -> Result<(Emission, OperandView), CodegenErrorView> {
    match index.ty {
        LowType::Int(bits) => match ty {
            ResolvedType::Array { .. } => match m.low(ty) {
                Err(error) => Err(error),
                Ok(array) => {
                    let s1 = match length {
                        Some(n) if checked => index_checked(s, index.operand, number(n, bits)),
                        _ => s,
                    };
                    Ok(
                        (
                            issue(
                                s1,
                                CommandView::ArrayElement {
                                    array,
                                    pointer,
                                    index: index.operand,
                                    name: "index.ptr"@,
                                },
                            ),
                            next(s1),
                        ),
                    )
                },
            },
            ResolvedType::Slice(element) => match word_bits(m) {
                Err(error) => Err(error),
                Ok(word) => {
                    let s1 = issue(
                        s,
                        CommandView::Load {
                            ty: LowType::Slice(word),
                            pointer,
                            name: "slice.load"@,
                        },
                    );
                    let s2 = issue(
                        s1,
                        CommandView::Extract { aggregate: next(s), index: 0, name: "slice.ptr"@ },
                    );
                    let s3 = issue(
                        s2,
                        CommandView::Extract { aggregate: next(s), index: 1, name: "slice.len"@ },
                    );
                    let s4 = if checked {
                        index_checked(s3, index.operand, next(s2))
                    } else {
                        s3
                    };
                    match m.low(*element) {
                        Err(error) => Err(error),
                        Ok(low) => Ok(
                            (
                                issue(
                                    s4,
                                    CommandView::Element {
                                        element: low,
                                        pointer: next(s1),
                                        index: index.operand,
                                        name: "slice.index.ptr"@,
                                    },
                                ),
                                next(s4),
                            ),
                        ),
                    }
                },
            },
            ResolvedType::Pointer(element) => {
                let s1 = issue(
                    s,
                    CommandView::Load { ty: LowType::Pointer, pointer, name: "pointer.load"@ },
                );
                match m.low(*element) {
                    Err(error) => Err(error),
                    Ok(low) => Ok(
                        (
                            issue(
                                s1,
                                CommandView::Element {
                                    element: low,
                                    pointer: next(s),
                                    index: index.operand,
                                    name: "pointer.index.ptr"@,
                                },
                            ),
                            next(s1),
                        ),
                    ),
                }
            },
            _ => Err(failure_at("index base is not indexable"@, span)),
        },
        _ => Err(failure_at("index is not an integer"@, span)),
    }
}

// ---------------------------------------------------------------------------
// Statements and blocks
// ---------------------------------------------------------------------------

/// A new local with its first value.
#[verifier::opaque]
pub open spec fn declared(
    m: Surroundings,
    s: Emission,
    id: LocalId,
    name: Seq<char>,
    ty: ResolvedType,
    low: LowType,
    value: OperandView,
    span: Span,
) -> Emission {
    let pointer = next(s);
    let s1 = issue(s, CommandView::Alloca { ty: low, name: name + ".addr"@ });
    let s2 = issue(s1, CommandView::Store { pointer, value });
    Emission {
        locals: s2.locals.push((id, pointer, low)),
        variables: match m.debug {
            Some((source, _)) => s2.variables.push(
                DebugVariableView {
                    name,
                    kind: type_text(ty),
                    ty: low,
                    pointer,
                    line: source_line(source, span.start as int),
                },
            ),
            None => s2.variables,
        },
        ..s2
    }
}

/// One step of a block.
pub open spec fn performed(m: Surroundings, s: Emission, step: MirInstructionView) -> Done {
    match step {
        MirInstructionView::Declare { id, name, ty, value, span, .. } => match m.low(ty) {
            Err(error) => Err(error),
            Ok(low) => match emitted(m, told(m, s, span), value) {
                Err(error) => Err(error),
                Ok((s1, v)) => if v.ty != low {
                    Err(failure_at("initializer has the wrong resolved type"@, span))
                } else {
                    Ok(declared(m, s1, id, name, ty, low, v.operand, span))
                },
            },
        },
        MirInstructionView::Store { target, value, ty, span } => match pointed(
            m,
            told(m, s, span),
            target,
            span,
        ) {
            Err(error) => Err(error),
            Ok((s1, pointer)) => match emitted(m, s1, value) {
                Err(error) => Err(error),
                Ok((s2, v)) => match m.low(ty) {
                    Err(error) => Err(error),
                    Ok(low) => if v.ty != low {
                        Err(failure_at("assigned value has the wrong type"@, span))
                    } else {
                        Ok(issue(s2, CommandView::Store { pointer, value: v.operand }))
                    },
                },
            },
        },
        MirInstructionView::Expr { expression, span } => match expression {
            TypedExprView::Call { function, arguments, ty, span: place, .. } => match called(
                m,
                told(m, s, span),
                function,
                arguments,
                ty,
                place,
            ) {
                Err(error) => Err(error),
                Ok((s1, _)) => Ok(s1),
            },
            _ => match emitted(m, told(m, s, span), expression) {
                Err(error) => Err(error),
                Ok((s1, _)) => Ok(s1),
            },
        },
        MirInstructionView::RunCleanup { actions } => cleaned(m, s, actions, 0),
    }
}

/// The steps of a block from `i` on.
pub open spec fn all_performed(
    m: Surroundings,
    s: Emission,
    steps: Seq<MirInstructionView>,
    i: int,
) -> Done
    decreases steps.len() - i,
{
    if i < 0 || i >= steps.len() {
        Ok(s)
    } else {
        match performed(m, s, steps[i]) {
            Err(error) => Err(error),
            Ok(s1) => all_performed(m, s1, steps, i + 1),
        }
    }
}

/// The end of a block. Block `k` of the function is block `k` of the commands.
pub open spec fn ended(m: Surroundings, s: Emission, end: MirTerminatorView, span: Span) -> Done {
    match end {
        MirTerminatorView::Jump(target) =>
            Ok(issue(s, CommandView::Jump { block: target.0 as usize })),
        MirTerminatorView::Branch { condition, then_block, else_block, span: place } =>
            match emitted(
            m,
            told(m, s, place),
            condition,
        ) {
            Err(error) => Err(error),
            Ok((s1, v)) => match as_condition(v, condition.span()) {
                Err(error) => Err(error),
                Ok(operand) => Ok(
                    issue(
                        s1,
                        CommandView::Branch {
                            condition: operand,
                            yes: then_block.0 as usize,
                            no: else_block.0 as usize,
                        },
                    ),
                ),
            },
        },
        MirTerminatorView::Return(value) => match value {
            None => if m.return_type == ResolvedType::Unit {
                Ok(issue(told(m, s, span), CommandView::Return { value: None }))
            } else {
                Err(failure_at("non-void function must return a value"@, span))
            },
            Some(e) => if m.return_type == ResolvedType::Unit {
                Err(failure_at("void function cannot return a value"@, e.span()))
            } else {
                match emitted(m, told(m, s, e.span()), e) {
                    Err(error) => Err(error),
                    Ok((s1, v)) => match packed(m, s1, v, m.function, m.return_type) {
                        Err(error) => Err(error),
                        Ok((s2, given)) => Ok(
                            issue(s2, CommandView::Return { value: Some(given.operand) }),
                        ),
                    },
                }
            },
        },
        MirTerminatorView::Unreachable => Ok(issue(s, CommandView::Unreachable)),
    }
}

/// The blocks from `k` on.
pub open spec fn blocks_emitted(m: Surroundings, s: Emission, f: MirFunctionView, k: int) -> Done
    decreases f.blocks.len() - k,
{
    if k < 0 || k >= f.blocks.len() {
        Ok(s)
    } else {
        match block_emitted(m, s, f, k) {
            Err(error) => Err(error),
            Ok(s1) => blocks_emitted(m, s1, f, k + 1),
        }
    }
}

/// Block `k`, with the deferred calls that are active in it.
pub open spec fn block_emitted(m: Surroundings, s: Emission, f: MirFunctionView, k: int) -> Done {
    let here = Surroundings { cleanup: mir::active(f, f.blocks[k].id), ..m };
    match all_performed(here, enter(s, k), f.blocks[k].instructions, 0) {
        Err(error) => Err(error),
        Ok(s1) => ended(here, s1, f.blocks[k].terminator, f.span),
    }
}

pub open spec fn block_name(f: MirFunctionView, k: int) -> Seq<char> {
    if f.blocks[k].id == f.entry {
        "entry"@
    } else {
        "mir."@ + decimal(f.blocks[k].id.0 as nat)
    }
}

/// The first `n` blocks, appended.
pub open spec fn appended(f: MirFunctionView, n: int) -> Seq<CommandView>
    decreases n,
{
    if n <= 0 || n > f.blocks.len() {
        Seq::empty()
    } else {
        appended(f, n - 1).push(CommandView::Append { name: block_name(f, n - 1) })
    }
}

/// The parameters from `i` on, each put into a local of its own.
pub open spec fn entered(
    m: Surroundings,
    s: Emission,
    params: Seq<TypedParameterView>,
    i: int,
) -> Done
    decreases params.len() - i,
{
    if i < 0 || i >= params.len() {
        Ok(s)
    } else {
        match parameter_entered(m, s, params[i], i) {
            Err(error) => Err(error),
            Ok(s1) => entered(m, s1, params, i + 1),
        }
    }
}

#[verifier::opaque]
pub open spec fn parameter_entered(
    m: Surroundings,
    s: Emission,
    param: TypedParameterView,
    i: int,
) -> Done {
    match passed_type(m, m.function, param.ty) {
        Err(error) => Err(error),
        Ok(given) => match unpacked(
            m,
            s,
            ValueView { operand: OperandView::Parameter(i as usize), ty: given },
            m.function,
            param.ty,
            param.span,
        ) {
            Err(error) => Err(error),
            Ok((s1, v)) => match m.low(param.ty) {
                Err(error) => Err(error),
                Ok(low) => {
                    let pointer = next(s1);
                    let s2 = issue(
                        s1,
                        CommandView::Alloca { ty: low, name: param.name + ".addr"@ },
                    );
                    let s3 = issue(s2, CommandView::Store { pointer, value: v.operand });
                    Ok(Emission { locals: s3.locals.push((param.id, pointer, low)), ..s3 })
                },
            },
        },
    }
}

/// The commands that build the body of a function.
pub open spec fn function_emitted(m: Surroundings, f: MirFunctionView) -> Done {
    let s = Emission {
        commands: appended(f, f.blocks.len() as int),
        block: 0,
        locals: Seq::empty(),
        variables: Seq::empty(),
    };
    let s1 = match m.debug {
        Some((source, _)) => place_told(s, source, f.span.start as int),
        None => s,
    };
    match entered(m, enter(s1, f.entry.0 as int), f.params, 0) {
        Err(error) => Err(error),
        Ok(s2) => blocks_emitted(m, s2, f, 0),
    }
}

// ---------------------------------------------------------------------------
// Programs
// ---------------------------------------------------------------------------

/// The types of the fields from `i` on, after `before`.
pub open spec fn field_types(
    structs: Seq<TypedStructView>,
    pointer_width: u32,
    fields: Seq<TypedFieldView>,
    i: int,
    before: Seq<LowType>,
) -> Result<Seq<LowType>, CodegenErrorView>
    decreases fields.len() - i,
{
    if i < 0 || i >= fields.len() {
        Ok(before)
    } else {
        match low_type(structs, pointer_width, fields[i].ty) {
            Err(error) => Err(error),
            Ok(low) => field_types(structs, pointer_width, fields, i + 1, before.push(low)),
        }
    }
}

/// The structs from `i` on, after `before`.
pub open spec fn structs_declared(
    structs: Seq<TypedStructView>,
    pointer_width: u32,
    i: int,
    before: Seq<LowStructView>,
) -> Result<Seq<LowStructView>, CodegenErrorView>
    decreases structs.len() - i,
{
    if i < 0 || i >= structs.len() {
        Ok(before)
    } else {
        match field_types(structs, pointer_width, structs[i].fields, 0, Seq::empty()) {
            Err(error) => Err(error),
            Ok(fields) => structs_declared(
                structs,
                pointer_width,
                i + 1,
                before.push(
                    LowStructView { id: structs[i].id, name: structs[i].name, fields },
                ),
            ),
        }
    }
}

/// A global with its initial value.
pub open spec fn global_declared(
    m: Surroundings,
    id: DefId,
    name: Seq<char>,
    ty: ResolvedType,
    value: TypedExprView,
) -> Result<LowGlobalView, CodegenErrorView> {
    match m.low(ty) {
        Err(error) => Err(error),
        Ok(low) => match constant(m, value) {
            Err(error) => Err(error),
            Ok(initial) => Ok(
                LowGlobalView {
                    id,
                    name,
                    ty: low,
                    value: initial,
                    constant: constant_of(m.constants, m.constants.len() as int, id) is Some,
                },
            ),
        },
    }
}

/// The globals from `i` on, after `before`, and then the constants.
pub open spec fn globals_declared(m: Surroundings, i: int, before: Seq<LowGlobalView>) -> Result<
    Seq<LowGlobalView>,
    CodegenErrorView,
>
    decreases m.globals.len() - i,
{
    if i < 0 || i >= m.globals.len() {
        constants_declared(m, 0, before)
    } else {
        let g = m.globals[i];
        match global_declared(m, g.id, g.name, g.ty, g.value) {
            Err(error) => Err(error),
            Ok(global) => globals_declared(m, i + 1, before.push(global)),
        }
    }
}

/// The constants from `i` on, after `before`.
pub open spec fn constants_declared(m: Surroundings, i: int, before: Seq<LowGlobalView>) -> Result<
    Seq<LowGlobalView>,
    CodegenErrorView,
>
    decreases m.constants.len() - i,
{
    if i < 0 || i >= m.constants.len() {
        Ok(before)
    } else {
        let g = m.constants[i];
        match global_declared(m, g.id, g.name, g.ty, g.value) {
            Err(error) => Err(error),
            Ok(global) => constants_declared(m, i + 1, before.push(global)),
        }
    }
}

/// The types under which the parameters from `i` on go in, after `before`.
pub open spec fn passed_types(
    m: Surroundings,
    function: DefId,
    params: Seq<TypedParameterView>,
    i: int,
    before: Seq<LowType>,
) -> Result<Seq<LowType>, CodegenErrorView>
    decreases params.len() - i,
{
    if i < 0 || i >= params.len() {
        Ok(before)
    } else {
        match passed_type(m, function, params[i].ty) {
            Err(error) => Err(error),
            Ok(low) => passed_types(m, function, params, i + 1, before.push(low)),
        }
    }
}

pub open spec fn symbol_of(f: TypedFunctionView) -> Seq<char> {
    match f.link_name {
        Some(name) => name,
        None => f.name,
    }
}

/// Whether one of the functions has the symbol.
pub open spec fn has_symbol(functions: Seq<LowFunctionView>, symbol: Seq<char>) -> bool {
    exists|i: int| 0 <= i < functions.len() && (#[trigger] functions[i]).symbol == symbol
}

/// How a function is declared.
pub open spec fn function_declared(
    m: Surroundings,
    f: TypedFunctionView,
    before: Seq<LowFunctionView>,
) -> Result<LowFunctionView, CodegenErrorView> {
    match passed_types(m, f.id, f.params, 0, Seq::empty()) {
        Err(error) => Err(error),
        Ok(params) => match (if f.return_type == ResolvedType::Unit {
            Ok(None)
        } else {
            match passed_type(m, f.id, f.return_type) {
                Err(error) => Err(error),
                Ok(low) => Ok(Some(low)),
            }
        }) {
            Err(error) => Err(error),
            Ok(result) => if has_symbol(before, symbol_of(f)) {
                Err(
                    failure_at(
                        "function `"@ + symbol_of(f) + "` is declared more than once"@,
                        f.span,
                    ),
                )
            } else {
                Ok(
                    LowFunctionView {
                        id: f.id,
                        name: f.name,
                        symbol: symbol_of(f),
                        link_name: f.link_name,
                        params,
                        result,
                        exported: f.exported,
                        is_extern: f.is_extern,
                        commands: Seq::empty(),
                        debug: None,
                    },
                )
            },
        },
    }
}

/// The functions from `i` on, declared after `before`.
pub open spec fn functions_declared(
    m: Surroundings,
    i: int,
    before: Seq<LowFunctionView>,
) -> Result<
    Seq<LowFunctionView>,
    CodegenErrorView,
>
    decreases m.functions.len() - i,
{
    if i < 0 || i >= m.functions.len() {
        Ok(before)
    } else {
        match function_declared(m, m.functions[i], before) {
            Err(error) => Err(error),
            Ok(f) => functions_declared(m, i + 1, before.push(f)),
        }
    }
}

/// What a debugger is told of the first `n` parameters.
pub open spec fn parameter_variables(
    s: Emission,
    source: Seq<char>,
    params: Seq<TypedParameterView>,
    n: int,
) -> Seq<DebugVariableView>
    decreases n,
{
    if n <= 0 || n > params.len() {
        Seq::empty()
    } else {
        let before = parameter_variables(s, source, params, n - 1);
        let p = params[n - 1];
        match local_of(s.locals, s.locals.len() as int, p.id) {
            None => before,
            Some((pointer, low)) => before.push(
                DebugVariableView {
                    name: p.name,
                    kind: type_text(p.ty),
                    ty: low,
                    pointer,
                    line: source_line(source, p.span.start as int),
                },
            ),
        }
    }
}

/// A function with its body.
pub open spec fn function_built(
    all: Surroundings,
    source: Option<Seq<char>>,
    mir: MirProgramView,
    f: TypedFunctionView,
    low: LowFunctionView,
) -> Result<LowFunctionView, CodegenErrorView> {
    if f.is_extern {
        Ok(
            LowFunctionView {
                debug: match source {
                    Some(text) => Some(
                        DebugFunctionView {
                            line: source_line(text, f.span.start as int),
                            column: source_column(text, f.span.start as int),
                            parameters: Seq::empty(),
                            locals: Seq::empty(),
                        },
                    ),
                    None => None,
                },
                ..low
            },
        )
    } else {
        match mir::function_by_id(mir.functions, 0, f.id) {
            None => Err(failure("missing MIR function"@)),
            Some(body) => {
                let m = Surroundings {
                    function: body.id,
                    return_type: body.return_type,
                    debug: match source {
                        Some(text) => Some((text, f.body)),
                        None => None,
                    },
                    ..all
                };
                match function_emitted(m, body) {
                    Err(error) => Err(error),
                    Ok(s) => Ok(
                        LowFunctionView {
                            commands: s.commands,
                            debug: match source {
                                Some(text) => Some(
                                    DebugFunctionView {
                                        line: source_line(text, f.span.start as int),
                                        column: source_column(text, f.span.start as int),
                                        parameters: parameter_variables(
                                            s,
                                            text,
                                            f.params,
                                            f.params.len() as int,
                                        ),
                                        locals: s.variables,
                                    },
                                ),
                                None => None,
                            },
                            ..low
                        },
                    ),
                }
            },
        }
    }
}

/// The functions from `i` on with their bodies, after `before`.
pub open spec fn functions_built(
    m: Surroundings,
    source: Option<Seq<char>>,
    mir: MirProgramView,
    lows: Seq<LowFunctionView>,
    i: int,
    before: Seq<LowFunctionView>,
) -> Result<Seq<LowFunctionView>, CodegenErrorView>
    decreases m.functions.len() - i,
{
    if i < 0 || i >= m.functions.len() || i >= lows.len() {
        Ok(before)
    } else {
        match function_built(m, source, mir, m.functions[i], lows[i]) {
            Err(error) => Err(error),
            Ok(f) => functions_built(m, source, mir, lows, i + 1, before.push(f)),
        }
    }
}

pub open spec fn surroundings_of(
    program: TypedProgramView,
    pointer_width: u32,
    layout: LayoutModel,
) -> Surroundings {
    Surroundings {
        structs: program.structs,
        globals: program.globals,
        constants: program.constants,
        functions: program.functions,
        pointer_width,
        layout,
        function: DefId(u32::MAX),
        return_type: ResolvedType::Unit,
        cleanup: Seq::empty(),
        debug: None,
    }
}

/// The module that a program is built as.
pub open spec fn module_built(
    program: TypedProgramView,
    name: Seq<char>,
    pointer_width: u32,
    source: Option<Seq<char>>,
    layout: LayoutModel,
) -> Result<LowModuleView, CodegenErrorView> {
    let m = surroundings_of(program, pointer_width, layout);
    match mir::lowered_program(program) {
        Err(error) => Err(failure_at(error.message(), error.place())),
        Ok(mir) => match structs_declared(program.structs, pointer_width, 0, Seq::empty()) {
            Err(error) => Err(error),
            Ok(structs) => match globals_declared(m, 0, Seq::empty()) {
                Err(error) => Err(error),
                Ok(globals) => match functions_declared(m, 0, Seq::empty()) {
                    Err(error) => Err(error),
                    Ok(lows) => match functions_built(m, source, mir, lows, 0, Seq::empty()) {
                        Err(error) => Err(error),
                        Ok(functions) => Ok(
                            LowModuleView { name, pointer_width, structs, globals, functions },
                        ),
                    },
                },
            },
        },
    }
}

} // verus!
