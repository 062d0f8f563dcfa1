//! Code generation: from the typed program to the commands that build it.
use crate::ast::{BinaryOp, Program, UnaryOp};
use crate::emission;
use crate::emission::{
    issue, layout_model, lays_out, module_built, next, Done, Emission, Emitted, LayoutAsk,
    LayoutModel, Surroundings,
};
use crate::execution::operation_name;
use crate::floats::{answers, float_model, FloatAnswer, FloatOp};
pub use crate::instructions::CodegenError;
use crate::instructions::{
    commands_view, constants_view, debug_variables_view, low_functions_view, low_globals_view,
    low_structs_view, operands_view, CodegenErrorView, Command, CommandView, Constant, ConstantView,
    DebugFunction, DebugVariable, FloatTest, IntTest, LowBinary, LowFunction, LowFunctionView,
    LowGlobal, LowGlobalView, LowModule, LowModuleView, LowStruct, LowType, LowUnary, Operand,
    OperandView, Value, ValueView,
};
use crate::interpreter;
use crate::lexer::Span;
use crate::linking::id_number;
use crate::mir;
use crate::mir::{
    blocks_view, cleanups_view, instructions_view, MirBlock, MirCleanup, MirFunction,
    MirFunctionView, MirInstruction, MirProgram, MirTerminator,
};
use crate::semantic;
use crate::soundness::lemma_functions_are_well_wired;
use crate::text::{decimal_text, joined};
use crate::typed::{
    typed_constants_view, typed_exprs_view, typed_fields_view, typed_functions_view,
    typed_globals_view, typed_parameters_view, typed_stmts_view, typed_structs_view, DefId,
    IntegerWidth, LayoutKind, LocalId, ResolvedType, TypedBlock, TypedConstant, TypedExpr,
    TypedExprView, TypedField, TypedFunction, TypedGlobal, TypedParameter, TypedPlace, TypedProgram,
    TypedStmt, TypedStruct,
};
use crate::typing;
use crate::wiring::well_wired;
use vstd::prelude::*;

verus! {

broadcast use crate::instructions::group_instruction_lists;

/// What the code of a function depends on, but for the layout of types.
pub struct Machine<'a> {
    program: &'a TypedProgram,
    pointer_width: u32,
    function: DefId,
    return_type: &'a ResolvedType,
    cleanup: &'a Vec<MirCleanup>,
    debug: Option<(&'a String, &'a TypedBlock)>,
}

impl<'a> Machine<'a> {
    pub closed spec fn around(&self, layout: LayoutModel) -> Surroundings {
        Surroundings {
            structs: self.program@.structs,
            globals: self.program@.globals,
            constants: self.program@.constants,
            functions: self.program@.functions,
            pointer_width: self.pointer_width,
            layout,
            function: self.function,
            return_type: *self.return_type,
            cleanup: cleanups_view(self.cleanup@),
            debug: match self.debug {
                Some((source, body)) => Some((source@, body@)),
                None => None,
            },
        }
    }
}

/// The commands so far, the block they go to, and what they say of locals.
pub struct Script {
    commands: Vec<Command>,
    block: usize,
    locals: Vec<(LocalId, Operand, LowType)>,
    variables: Vec<DebugVariable>,
}

pub closed spec fn locals_view(s: Seq<(LocalId, Operand, LowType)>) -> Seq<
    (LocalId, OperandView, LowType),
> {
    Seq::new(s.len(), |i: int| (s[i].0, s[i].1@, s[i].2))
}

/// What giving a value gave.
pub open spec fn value_outcome(
    r: Result<Value, CodegenError>,
    after: Emission,
    wanted: Emitted,
) -> bool {
    match wanted {
        Ok((s, v)) => r matches Ok(value) && value@ == v && after == s,
        Err(error) => r matches Err(e) && e@ == error,
    }
}

pub open spec fn pointer_outcome(
    r: Result<Operand, CodegenError>,
    after: Emission,
    wanted: Result<(Emission, OperandView), CodegenErrorView>,
) -> bool {
    match wanted {
        Ok((s, v)) => r matches Ok(operand) && operand@ == v && after == s,
        Err(error) => r matches Err(e) && e@ == error,
    }
}

pub open spec fn list_outcome(
    r: Result<Vec<Operand>, CodegenError>,
    after: Emission,
    wanted: Result<(Emission, Seq<OperandView>), CodegenErrorView>,
) -> bool {
    match wanted {
        Ok((s, v)) => r matches Ok(operands) && operands_view(operands@) == v && after == s,
        Err(error) => r matches Err(e) && e@ == error,
    }
}

pub open spec fn call_outcome(
    r: Result<Option<Value>, CodegenError>,
    after: Emission,
    wanted: Result<(Emission, Option<ValueView>), CodegenErrorView>,
) -> bool {
    match wanted {
        Ok((s, Some(v))) => r matches Ok(Some(value)) && value@ == v && after == s,
        Ok((s, None)) => r matches Ok(None) && after == s,
        Err(error) => r matches Err(e) && e@ == error,
    }
}

pub open spec fn done_outcome(r: Result<(), CodegenError>, after: Emission, wanted: Done) -> bool {
    match wanted {
        Ok(s) => r matches Ok(()) && after == s,
        Err(error) => r matches Err(e) && e@ == error,
    }
}

pub open spec fn type_outcome(
    r: Result<LowType, CodegenError>,
    wanted: Result<LowType, CodegenErrorView>,
) -> bool {
    match wanted {
        Ok(low) => r matches Ok(found) && found == low,
        Err(error) => r matches Err(e) && e@ == error,
    }
}

fn fail(message: &str) -> (r: CodegenError)
    ensures
        r@ == emission::failure(message@),
{
    CodegenError::new(message.to_owned())
}

fn fail_at(message: &str, span: Span) -> (r: CodegenError)
    ensures
        r@ == emission::failure_at(message@, span),
{
    CodegenError::at(message.to_owned(), span)
}

fn number(value: u64, bits: u32) -> (r: Operand)
    ensures
        r@ == emission::number(value, bits),
{
    Operand::Number { value, bits }
}

// ---------------------------------------------------------------------------
// Commands
// ---------------------------------------------------------------------------

impl Script {
    pub closed spec fn view(&self) -> Emission {
        Emission {
            commands: commands_view(self.commands@),
            block: self.block as int,
            locals: locals_view(self.locals@),
            variables: debug_variables_view(self.variables@),
        }
    }

    fn issue(&mut self, c: Command)
        ensures
            final(self)@ == issue(old(self)@, c@),
    {
        self.commands.push(c);
    }

    /// One command more, and its result.
    fn result(&mut self, c: Command) -> (r: Operand)
        ensures
            final(self)@ == issue(old(self)@, c@),
            r@ == next(old(self)@),
    {
        let place: usize = self.commands.len();
        self.commands.push(c);
        Operand::Register(place)
    }

    fn give(&mut self, c: Command, ty: LowType) -> (r: Value)
        ensures
            (final(self)@, r@) == emission::give(old(self)@, c@, ty),
    {
        let operand: Operand = self.result(c);
        Value { operand, ty }
    }

    fn append(&mut self, name: &str) -> (r: usize)
        ensures
            final(self)@ == emission::append(old(self)@, name@),
            r == old(self)@.commands.len(),
            final(self)@.commands.len() == r + 1,
    {
        let place: usize = self.commands.len();
        self.issue(Command::Append { name: name.to_owned() });
        place
    }

    fn enter(&mut self, block: usize)
        ensures
            final(self)@ == emission::enter(old(self)@, block as int),
    {
        self.issue(Command::Position { block });
        self.block = block;
    }

    fn block(&self) -> (r: usize)
        ensures
            r == self@.block,
    {
        self.block
    }

    /// A branch to a trap where the condition does not hold.
    fn guard(&mut self, condition: Operand)
        ensures
            final(self)@ == emission::guarded(old(self)@, condition@),
    {
        let trap: usize = self.append("trap");
        let rest: usize = self.append("after.trap");
        self.issue(Command::Branch { condition, yes: rest, no: trap });
        self.enter(trap);
        self.issue(Command::Trap);
        self.issue(Command::Unreachable);
        self.enter(rest);
    }

    fn compare(&mut self, test: IntTest, a: &Operand, b: Operand, name: &str) -> (r: Operand)
        ensures
            final(self)@ == issue(
                old(self)@,
                CommandView::Compare { test, left: a@, right: b@, name: name@ },
            ),
            r@ == next(old(self)@),
    {
        self.result(Command::Compare { test, left: a.clone(), right: b, name: name.to_owned() })
    }

    /// The checks before a division.
    fn guard_div(&mut self, a: &Operand, b: &Operand, bits: u32, signed: bool)
        ensures
            final(self)@ == emission::division_guarded(old(self)@, a@, b@, bits, signed),
    {
        let nonzero: Operand = self.compare(IntTest::NotEqual, b, number(0, bits), "div.nonzero");
        self.guard(nonzero);
        if signed {
            let shift: u64 = if bits == 0 {
                0
            } else {
                (bits - 1) as u64
            };
            let least: Operand = self.result(
                Command::Binary {
                    operation: LowBinary::ShiftLeft,
                    left: number(1, bits),
                    right: number(shift, bits),
                    name: "min".to_owned(),
                },
            );
            let is_least: Operand = self.compare(IntTest::Equal, a, least, "ismin");
            let is_minus_one: Operand = self.compare(
                IntTest::Equal,
                b,
                Operand::AllOnes { bits },
                "isneg",
            );
            let overflow: Operand = self.result(
                Command::Binary {
                    operation: LowBinary::And,
                    left: is_least,
                    right: is_minus_one,
                    name: "overflow".to_owned(),
                },
            );
            let safe: Operand = self.result(
                Command::Unary {
                    operation: LowUnary::Not,
                    operand: overflow,
                    name: "safe".to_owned(),
                },
            );
            self.guard(safe);
        }
    }

    /// The pointer and the type of a local.
    fn local(&self, id: LocalId) -> (r: Option<(Operand, LowType)>)
        ensures
            match r {
                Some((pointer, low)) => emission::local_of(
                    self@.locals,
                    self@.locals.len() as int,
                    id,
                ) == Some((pointer@, low)),
                None => emission::local_of(
                    self@.locals,
                    self@.locals.len() as int,
                    id,
                ) is None,
            },
    {
        let ghost all = self@.locals;
        let mut i: usize = self.locals.len();
        while i > 0
            invariant
                all == locals_view(self.locals@),
                i <= self.locals.len(),
                emission::local_of(all, all.len() as int, id) == emission::local_of(
                    all,
                    i as int,
                    id,
                ),
            decreases i,
        {
            assert(all[i - 1] == (
                self.locals@[i - 1].0,
                self.locals@[i - 1].1@,
                self.locals@[i - 1].2,
            ));
            if self.locals[i - 1].0 == id {
                return Some((self.locals[i - 1].1.clone(), self.locals[i - 1].2.clone()));
            }
            i -= 1;
        }
        None
    }

    fn bind(&mut self, id: LocalId, pointer: Operand, low: LowType)
        ensures
            final(self)@ == (Emission {
                locals: old(self)@.locals.push((id, pointer@, low)),
                ..old(self)@
            }),
    {
        let ghost before = self.locals@;
        let ghost entry = (id, pointer@, low);
        self.locals.push((id, pointer, low));
        assert(locals_view(self.locals@) =~= locals_view(before).push(entry));
    }

    /// A result value: its tag, and the success value or the error value.
    fn build_outcome(
        &mut self,
        outcome: &LowType,
        tag: Operand,
        tag_name: &str,
        value: Operand,
        index: u32,
        name: &str,
    ) -> (r: Value)
        ensures
            (final(self)@, r@) == emission::outcome_built(
                old(self)@,
                *outcome,
                tag@,
                tag_name@,
                value@,
                index,
                name@,
            ),
    {
        proof {
            reveal(emission::outcome_built);
        }
        let tagged: Operand = self.result(
            Command::Insert {
                aggregate: Operand::Undefined(outcome.clone()),
                value: tag,
                index: 0,
                name: tag_name.to_owned(),
            },
        );
        self.give(
            Command::Insert { aggregate: tagged, value, index, name: name.to_owned() },
            outcome.clone(),
        )
    }

    fn take_part(&mut self, v: &Value, index: u32, name: &str, span: Span) -> (r: Result<
        Value,
        CodegenError,
    >)
        ensures
            value_outcome(
                r,
                final(self)@,
                emission::part_taken(old(self)@, v@, index, name@, span),
            ),
    {
        match &v.ty {
            LowType::Outcome { success, error } => {
                let ty: LowType = if index == 0 {
                    LowType::Int(1)
                } else if index == 1 {
                    (**success).clone()
                } else {
                    (**error).clone()
                };
                Ok(
                    self.give(
                        Command::Extract {
                            aggregate: v.operand.clone(),
                            index,
                            name: name.to_owned(),
                        },
                        ty,
                    ),
                )
            },
            _ => Err(fail_at("result operation on a value that is no result", span)),
        }
    }

    fn take_success(&mut self, v: &Value, ty: &ResolvedType, name: &str, span: Span) -> (r: Result<
        Value,
        CodegenError,
    >)
        ensures
            value_outcome(
                r,
                final(self)@,
                emission::success_taken(old(self)@, v@, *ty, name@, span),
            ),
    {
        if ty.same(&ResolvedType::Unit) {
            Ok(Value { operand: number(0, 8), ty: LowType::Int(8) })
        } else {
            self.take_part(v, 1, name, span)
        }
    }

    fn check_index(&mut self, index: &Operand, limit: Operand)
        ensures
            final(self)@ == emission::index_checked(old(self)@, index@, limit@),
    {
        let valid: Operand = self.compare(IntTest::LessUnsigned, index, limit, "index.valid");
        self.guard(valid);
    }
}

// ---------------------------------------------------------------------------
// Operators
// ---------------------------------------------------------------------------

fn int_test(op: BinaryOp, signed: bool) -> (r: Option<(IntTest, &'static str)>)
    ensures
        match r {
            Some((test, name)) => emission::int_test(op, signed) == Some((test, name@)),
            None => emission::int_test(op, signed) is None,
        },
{
    match op {
        BinaryOp::Equal => Some((IntTest::Equal, "eq")),
        BinaryOp::NotEqual => Some((IntTest::NotEqual, "ne")),
        BinaryOp::Less => Some(
            (
                if signed {
                    IntTest::LessSigned
                } else {
                    IntTest::LessUnsigned
                },
                "lt",
            ),
        ),
        BinaryOp::LessEqual => Some(
            (
                if signed {
                    IntTest::LessEqualSigned
                } else {
                    IntTest::LessEqualUnsigned
                },
                "le",
            ),
        ),
        BinaryOp::Greater => Some(
            (
                if signed {
                    IntTest::GreaterSigned
                } else {
                    IntTest::GreaterUnsigned
                },
                "gt",
            ),
        ),
        BinaryOp::GreaterEqual => Some(
            (
                if signed {
                    IntTest::GreaterEqualSigned
                } else {
                    IntTest::GreaterEqualUnsigned
                },
                "ge",
            ),
        ),
        _ => None,
    }
}

fn int_operation(op: BinaryOp, signed: bool) -> (r: Option<(LowBinary, &'static str)>)
    ensures
        match r {
            Some((operation, name)) => emission::int_operation(op, signed) == Some(
                (operation, name@),
            ),
            None => emission::int_operation(op, signed) is None,
        },
{
    match op {
        BinaryOp::Add => Some((LowBinary::Add, "add")),
        BinaryOp::Subtract => Some((LowBinary::Subtract, "sub")),
        BinaryOp::Multiply => Some((LowBinary::Multiply, "mul")),
        BinaryOp::Divide => Some(
            (
                if signed {
                    LowBinary::DivideSigned
                } else {
                    LowBinary::DivideUnsigned
                },
                "div",
            ),
        ),
        BinaryOp::Modulo => Some(
            (
                if signed {
                    LowBinary::RemainderSigned
                } else {
                    LowBinary::RemainderUnsigned
                },
                "rem",
            ),
        ),
        BinaryOp::BitwiseAnd => Some((LowBinary::And, "and")),
        BinaryOp::BitwiseOr => Some((LowBinary::Or, "or")),
        BinaryOp::BitwiseXor => Some((LowBinary::Xor, "xor")),
        BinaryOp::ShiftLeft => Some((LowBinary::ShiftLeft, "shl")),
        BinaryOp::ShiftRight => Some(
            (
                if signed {
                    LowBinary::ShiftRightSigned
                } else {
                    LowBinary::ShiftRightUnsigned
                },
                "shr",
            ),
        ),
        _ => None,
    }
}

fn float_test(op: BinaryOp) -> (r: Option<(FloatTest, &'static str)>)
    ensures
        match r {
            Some((test, name)) => emission::float_test(op) == Some((test, name@)),
            None => emission::float_test(op) is None,
        },
{
    match op {
        BinaryOp::Equal => Some((FloatTest::Equal, "eq")),
        BinaryOp::NotEqual => Some((FloatTest::NotEqual, "ne")),
        BinaryOp::Less => Some((FloatTest::Less, "lt")),
        BinaryOp::LessEqual => Some((FloatTest::LessEqual, "le")),
        BinaryOp::Greater => Some((FloatTest::Greater, "gt")),
        BinaryOp::GreaterEqual => Some((FloatTest::GreaterEqual, "ge")),
        _ => None,
    }
}

fn float_operation(op: BinaryOp) -> (r: Option<(LowBinary, &'static str)>)
    ensures
        match r {
            Some((operation, name)) => emission::float_operation(op) == Some((operation, name@)),
            None => emission::float_operation(op) is None,
        },
{
    match op {
        BinaryOp::Add => Some((LowBinary::AddFloats, "add")),
        BinaryOp::Subtract => Some((LowBinary::SubtractFloats, "sub")),
        BinaryOp::Multiply => Some((LowBinary::MultiplyFloats, "mul")),
        BinaryOp::Divide => Some((LowBinary::DivideFloats, "div")),
        BinaryOp::Modulo => Some((LowBinary::RemainderFloats, "rem")),
        _ => None,
    }
}

impl Script {
    /// An operator on integers or truth values.
    fn generate_integer(
        &mut self,
        a: &Value,
        op: BinaryOp,
        b: &Value,
        ty: &ResolvedType,
        pointer_width: u32,
        span: Span,
    ) -> (r: Result<Value, CodegenError>)
        requires
            a.ty is Int,
        ensures
            value_outcome(
                r,
                final(self)@,
                emission::int_operated(old(self)@, a@, op, b@, *ty, pointer_width, span),
            ),
    {
        proof {
            reveal(emission::int_operated);
        }
        match ty {
            ResolvedType::Bool => {
                if op == BinaryOp::Equal {
                    let operand: Operand = self.compare(
                        IntTest::Equal,
                        &a.operand,
                        b.operand.clone(),
                        "eq",
                    );
                    Ok(Value { operand, ty: LowType::Int(1) })
                } else if op == BinaryOp::NotEqual {
                    let operand: Operand = self.compare(
                        IntTest::NotEqual,
                        &a.operand,
                        b.operand.clone(),
                        "ne",
                    );
                    Ok(Value { operand, ty: LowType::Int(1) })
                } else {
                    Err(fail_at("invalid boolean operator", span))
                }
            },
            ResolvedType::Integer { width, signed } => {
                match int_test(op, *signed) {
                    Some((test, name)) => {
                        let operand: Operand = self.compare(
                            test,
                            &a.operand,
                            b.operand.clone(),
                            name,
                        );
                        return Ok(Value { operand, ty: LowType::Int(1) });
                    },
                    None => {},
                }
                let (operation, name): (LowBinary, &'static str) = match int_operation(
                    op,
                    *signed,
                ) {
                    Some(found) => found,
                    None => {
                        return Err(fail_at("logical operators require bool", span));
                    },
                };
                let bits: u32 = match &a.ty {
                    LowType::Int(bits) => *bits,
                    _ => 0,
                };
                if op == BinaryOp::Divide || op == BinaryOp::Modulo {
                    self.guard_div(&a.operand, &b.operand, bits, *signed);
                } else if op == BinaryOp::ShiftLeft || op == BinaryOp::ShiftRight {
                    let limit: u64 = match width {
                        IntegerWidth::Bits(bits) => *bits as u64,
                        IntegerWidth::Pointer => pointer_width as u64,
                    };
                    let valid: Operand = self.compare(
                        IntTest::LessUnsigned,
                        &b.operand,
                        number(limit, bits),
                        "shift.valid",
                    );
                    self.guard(valid);
                }
                Ok(
                    self.give(
                        Command::Binary {
                            operation,
                            left: a.operand.clone(),
                            right: b.operand.clone(),
                            name: name.to_owned(),
                        },
                        a.ty.clone(),
                    ),
                )
            },
            _ => Err(fail_at("integer operation has non-integer type", span)),
        }
    }

    /// An operator on floating-point numbers.
    fn generate_float(&mut self, a: &Value, op: BinaryOp, b: &Value, span: Span) -> (r: Result<
        Value,
        CodegenError,
    >)
        ensures
            value_outcome(
                r,
                final(self)@,
                emission::float_operated(old(self)@, a@, op, b@, span),
            ),
    {
        proof {
            reveal(emission::float_operated);
        }
        match float_test(op) {
            Some((test, name)) => {
                return Ok(
                    self.give(
                        Command::CompareFloats {
                            test,
                            left: a.operand.clone(),
                            right: b.operand.clone(),
                            name: name.to_owned(),
                        },
                        LowType::Int(1),
                    ),
                );
            },
            None => {},
        }
        match float_operation(op) {
            Some((operation, name)) => Ok(
                self.give(
                    Command::Binary {
                        operation,
                        left: a.operand.clone(),
                        right: b.operand.clone(),
                        name: name.to_owned(),
                    },
                    a.ty.clone(),
                ),
            ),
            None => Err(fail_at("invalid floating point operator", span)),
        }
    }

    fn generate_unary(&mut self, operator: UnaryOp, v: &Value, ty: &ResolvedType, span: Span) -> (r:
        Result<Value, CodegenError>)
        ensures
            value_outcome(
                r,
                final(self)@,
                emission::unary_operated(old(self)@, operator, v@, *ty, span),
            ),
    {
        proof {
            reveal(emission::unary_operated);
        }
        let (operation, name): (LowUnary, &'static str) = if operator == UnaryOp::Negate
            && v.ty.is_int() {
            (LowUnary::Negate, "negtmp")
        } else if operator == UnaryOp::Negate && v.ty.is_float() {
            (LowUnary::NegateFloat, "negtmp")
        } else if (operator == UnaryOp::Not || operator == UnaryOp::BitwiseNot) && v.ty.is_int() {
            (LowUnary::Not, "nottmp")
        } else {
            let shown: String = show_type(ty);
            return Err(
                CodegenError::at(
                    joined("unsupported unary operand of type ".to_owned(), shown.as_str()),
                    span,
                ),
            );
        };
        Ok(
            self.give(
                Command::Unary { operation, operand: v.operand.clone(), name: name.to_owned() },
                v.ty.clone(),
            ),
        )
    }

    /// The start of the right side of `&&` or `||`, and its block.
    fn enter_other(&mut self, condition: Operand, op: BinaryOp) -> (r: (usize, usize, usize))
        ensures
            final(self)@ == emission::other_entered(old(self)@, condition@, op),
            r.0 == old(self)@.commands.len(),
            r.1 == r.0 + 1,
            r.2 == r.0 + 2,
    {
        proof {
            reveal(emission::other_entered);
        }
        let other: usize = self.append("logical.right");
        let short: usize = self.append("logical.short");
        let end: usize = self.append("logical.end");
        if op == BinaryOp::LogicalAnd {
            self.issue(Command::Branch { condition, yes: other, no: short });
        } else {
            self.issue(Command::Branch { condition, yes: short, no: other });
        }
        self.enter(other);
        (other, short, end)
    }

    /// The end of `&&` or `||`.
    fn join_logic(&mut self, short: usize, end: usize, second: Operand, op: BinaryOp) -> (r: Value)
        requires
            end == short + 1,
        ensures
            (final(self)@, r@) == emission::logic_joined(old(self)@, short - 1, second@, op),
    {
        proof {
            reveal(emission::logic_joined);
        }
        let from: usize = self.block();
        self.issue(Command::Jump { block: end });
        self.enter(short);
        self.issue(Command::Jump { block: end });
        self.enter(end);
        let decided: u64 = if op == BinaryOp::LogicalOr {
            1
        } else {
            0
        };
        self.give(
            Command::Choose {
                left: second,
                left_block: from,
                right: number(decided, 1),
                right_block: short,
                name: "logicaltmp".to_owned(),
            },
            LowType::Int(1),
        )
    }
}

fn as_condition(v: Value, span: Span) -> (r: Result<Operand, CodegenError>)
    ensures
        match emission::as_condition(v@, span) {
            Ok(operand) => r matches Ok(found) && found@ == operand,
            Err(error) => r matches Err(e) && e@ == error,
        },
{
    if v.ty.same(&LowType::Int(1)) {
        Ok(v.operand)
    } else {
        Err(fail_at("condition must be a bool", span))
    }
}

// ---------------------------------------------------------------------------
// How types print
// ---------------------------------------------------------------------------

fn show_width(width: IntegerWidth) -> (r: String)
    ensures
        r@ == emission::width_text(width),
{
    match width {
        IntegerWidth::Bits(bits) => {
            let count: String = decimal_text(bits as u128);
            joined(joined("Bits(".to_owned(), count.as_str()), ")")
        },
        IntegerWidth::Pointer => "Pointer".to_owned(),
    }
}

/// A type as it prints for debugging.
fn show_type(ty: &ResolvedType) -> (r: String)
    ensures
        r@ == emission::type_text(*ty),
    decreases ty,
{
    match ty {
        ResolvedType::Unit => "Unit".to_owned(),
        ResolvedType::Bool => "Bool".to_owned(),
        ResolvedType::Integer { width, signed } => {
            let shown: String = show_width(*width);
            let start: String = joined(
                joined("Integer { width: ".to_owned(), shown.as_str()),
                ", signed: ",
            );
            joined(
                joined(
                    start,
                    if *signed {
                        "true"
                    } else {
                        "false"
                    },
                ),
                " }",
            )
        },
        ResolvedType::Float { bits } => {
            let count: String = decimal_text(*bits as u128);
            joined(joined("Float { bits: ".to_owned(), count.as_str()), " }")
        },
        ResolvedType::Struct(id) => {
            let count: String = decimal_text(id.0 as u128);
            joined(joined("Struct(DefId(".to_owned(), count.as_str()), "))")
        },
        ResolvedType::Array { length, element } => {
            let count: String = decimal_text(*length as u128);
            let inner: String = show_type(element);
            let start: String = joined(
                joined("Array { length: ".to_owned(), count.as_str()),
                ", element: ",
            );
            joined(joined(start, inner.as_str()), " }")
        },
        ResolvedType::Pointer(inner) => {
            let shown: String = show_type(inner);
            joined(joined("Pointer(".to_owned(), shown.as_str()), ")")
        },
        ResolvedType::Slice(inner) => {
            let shown: String = show_type(inner);
            joined(joined("Slice(".to_owned(), shown.as_str()), ")")
        },
        ResolvedType::Result { success, error } => {
            let left: String = show_type(success);
            let right: String = show_type(error);
            let start: String = joined(
                joined("Result { success: ".to_owned(), left.as_str()),
                ", error: ",
            );
            joined(joined(start, right.as_str()), " }")
        },
    }
}

// ---------------------------------------------------------------------------
// Places that a debugger is told
// ---------------------------------------------------------------------------

fn source_line(source: &String, offset: usize) -> (r: u32)
    ensures
        r == emission::source_line(source@, offset as int),
{
    let bytes: &[u8] = source.as_str().as_bytes();
    let end: usize = if offset <= bytes.len() {
        offset
    } else {
        bytes.len()
    };
    let mut lines: u32 = 0;
    for i in 0..end
        invariant
            end <= bytes@.len(),
            lines == emission::line_feeds(bytes@, i as int) % 0x1_0000_0000,
    {
        if bytes[i] == 10 {
            lines = lines.wrapping_add(1);
        }
    }
    lines.wrapping_add(1)
}

fn source_column(source: &String, offset: usize) -> (r: u32)
    ensures
        r == emission::source_column(source@, offset as int),
{
    let bytes: &[u8] = source.as_str().as_bytes();
    let end: usize = if offset <= bytes.len() {
        offset
    } else {
        bytes.len()
    };
    let mut start: usize = end;
    while start > 0 && bytes[start - 1] != 10
        invariant
            start <= end <= bytes@.len(),
            emission::line_begin(bytes@, end as int) == emission::line_begin(
                bytes@,
                start as int,
            ),
        decreases start,
    {
        start -= 1;
    }
    id_number(end - start).wrapping_add(1)
}

fn statement_span(s: &TypedStmt) -> (r: Span)
    ensures
        r == emission::statement_span(s@),
{
    match s {
        TypedStmt::If { span, .. } => *span,
        TypedStmt::While { span, .. } => *span,
        TypedStmt::Break { span } => *span,
        TypedStmt::Continue { span } => *span,
        TypedStmt::Defer { span, .. } => *span,
        TypedStmt::Return { span, .. } => *span,
        TypedStmt::Declare { span, .. } => *span,
        TypedStmt::Store { span, .. } => *span,
        TypedStmt::Expr { span, .. } => *span,
    }
}

/// Whether a statement of the block, at any depth, starts at the offset.
fn starts_in(b: &TypedBlock, offset: usize) -> (r: bool)
    ensures
        r == emission::starts_in(b@, offset),
    decreases b,
{
    let ghost all = typed_stmts_view(b.statements@);
    let mut i: usize = b.statements.len();
    while i > 0
        invariant
            all == typed_stmts_view(b.statements@),
            i <= b.statements.len(),
            emission::starts_in(b@, offset) == emission::starts_among(all, i as int, offset),
        decreases i,
    {
        assert(all[i - 1] == b.statements@[i - 1]@);
        if starts_at(&b.statements[i - 1], offset) {
            return true;
        }
        i -= 1;
    }
    false
}

fn starts_at(s: &TypedStmt, offset: usize) -> (r: bool)
    ensures
        r == emission::starts_at(s@, offset),
    decreases s,
{
    if statement_span(s).start == offset {
        return true;
    }
    match s {
        TypedStmt::If { then_branch, else_branch, .. } => {
            if starts_in(then_branch, offset) {
                return true;
            }
            match else_branch {
                Some(branch) => starts_in(branch, offset),
                None => false,
            }
        },
        TypedStmt::While { body, .. } => starts_in(body, offset),
        _ => false,
    }
}

// ---------------------------------------------------------------------------
// Types
// ---------------------------------------------------------------------------

/// Asks one question about the layout of types.
fn ask_layout<L: Fn(LayoutAsk) -> Option<u64>>(layout: &L, q: LayoutAsk) -> (r: Option<u64>)
    requires
        lays_out(*layout),
    ensures
        r == layout_model(*layout)(q),
{
    let ghost question = q;
    let r: Option<u64> = layout(q);
    assert(call_ensures(*layout, (question,), r));
    r
}

fn find_struct(structs: &Vec<TypedStruct>, id: DefId) -> (r: Option<usize>)
    ensures
        match r {
            Some(i) => i < structs.len() && emission::struct_of(
                typed_structs_view(structs@),
                structs@.len() as int,
                id,
            ) == Some(i as int),
            None => emission::struct_of(
                typed_structs_view(structs@),
                structs@.len() as int,
                id,
            ) is None,
        },
{
    let ghost all = typed_structs_view(structs@);
    let mut i: usize = structs.len();
    while i > 0
        invariant
            all == typed_structs_view(structs@),
            i <= structs.len(),
            emission::struct_of(all, all.len() as int, id) == emission::struct_of(
                all,
                i as int,
                id,
            ),
        decreases i,
    {
        assert(all[i - 1] == structs@[i - 1]@);
        if structs[i - 1].id == id {
            return Some(i - 1);
        }
        i -= 1;
    }
    None
}

fn unknown_struct(id: DefId) -> (r: CodegenError)
    ensures
        r@ == emission::unknown_struct(id),
{
    let count: String = decimal_text(id.0 as u128);
    CodegenError::new(
        joined(joined("unknown struct definition DefId(".to_owned(), count.as_str()), ")"),
    )
}

/// The type of values of a type.
fn basic_type(structs: &Vec<TypedStruct>, pointer_width: u32, ty: &ResolvedType) -> (r: Result<
    LowType,
    CodegenError,
>)
    ensures
        type_outcome(
            r,
            emission::low_type(typed_structs_view(structs@), pointer_width, *ty),
        ),
    decreases ty,
{
    match ty {
        ResolvedType::Bool => Ok(LowType::Int(1)),
        ResolvedType::Integer { width, .. } => match width {
            IntegerWidth::Bits(bits) => {
                if *bits == 8 || *bits == 16 || *bits == 32 || *bits == 64 || *bits == 128 {
                    Ok(LowType::Int(*bits as u32))
                } else {
                    let count: String = decimal_text(*bits as u128);
                    Err(
                        CodegenError::new(
                            joined("unsupported integer width ".to_owned(), count.as_str()),
                        ),
                    )
                }
            },
            IntegerWidth::Pointer => {
                if pointer_width == 0 {
                    Err(fail("zero pointer width"))
                } else {
                    Ok(LowType::Int(pointer_width))
                }
            },
        },
        ResolvedType::Float { bits } => {
            if *bits == 32 || *bits == 64 {
                Ok(LowType::Float(*bits))
            } else {
                let count: String = decimal_text(*bits as u128);
                Err(
                    CodegenError::new(
                        joined("unsupported float width ".to_owned(), count.as_str()),
                    ),
                )
            }
        },
        ResolvedType::Struct(id) => {
            if find_struct(structs, *id).is_some() {
                Ok(LowType::Named(*id))
            } else {
                Err(unknown_struct(*id))
            }
        },
        ResolvedType::Array { length, element } => {
            if *length > u32::MAX as u64 {
                return Err(fail("fixed array length exceeds the LLVM aggregate limit"));
            }
            let low: LowType = basic_type(structs, pointer_width, element)?;
            Ok(LowType::Array { length: *length as u32, element: Box::new(low) })
        },
        ResolvedType::Pointer(_) => Ok(LowType::Pointer),
        ResolvedType::Slice(_) => {
            if pointer_width == 0 {
                Err(fail("zero pointer width"))
            } else {
                Ok(LowType::Slice(pointer_width))
            }
        },
        ResolvedType::Result { success, error } => {
            let left: LowType = if success.same(&ResolvedType::Unit) {
                LowType::Int(8)
            } else {
                basic_type(structs, pointer_width, success)?
            };
            let right: LowType = basic_type(structs, pointer_width, error)?;
            Ok(LowType::Outcome { success: Box::new(left), error: Box::new(right) })
        },
        ResolvedType::Unit => Err(fail("unit is not a value type")),
    }
}

fn is_foreign(functions: &Vec<TypedFunction>, id: DefId) -> (r: bool)
    ensures
        r == emission::is_foreign(typed_functions_view(functions@), functions@.len() as int, id),
{
    let ghost all = typed_functions_view(functions@);
    let mut i: usize = functions.len();
    while i > 0
        invariant
            all == typed_functions_view(functions@),
            i <= functions.len(),
            emission::is_foreign(all, all.len() as int, id) == emission::is_foreign(
                all,
                i as int,
                id,
            ),
        decreases i,
    {
        assert(all[i - 1] == functions@[i - 1]@);
        if functions[i - 1].id == id && functions[i - 1].abi.is_some() {
            return true;
        }
        i -= 1;
    }
    false
}

fn find_function(functions: &Vec<TypedFunction>, id: DefId) -> (r: Option<usize>)
    ensures
        match r {
            Some(i) => i < functions.len() && emission::function_of(
                typed_functions_view(functions@),
                functions@.len() as int,
                id,
            ) == Some(i as int),
            None => emission::function_of(
                typed_functions_view(functions@),
                functions@.len() as int,
                id,
            ) is None,
        },
{
    let ghost all = typed_functions_view(functions@);
    let mut i: usize = functions.len();
    while i > 0
        invariant
            all == typed_functions_view(functions@),
            i <= functions.len(),
            emission::function_of(all, all.len() as int, id) == emission::function_of(
                all,
                i as int,
                id,
            ),
        decreases i,
    {
        assert(all[i - 1] == functions@[i - 1]@);
        if functions[i - 1].id == id {
            return Some(i - 1);
        }
        i -= 1;
    }
    None
}

impl<'a> Machine<'a> {
    /// The type of values of a type.
    fn low(&self, ty: &ResolvedType) -> (r: Result<LowType, CodegenError>)
        ensures
            type_outcome(
                r,
                emission::low_type(self.program@.structs, self.pointer_width, *ty),
            ),
    {
        basic_type(&self.program.structs, self.pointer_width, ty)
    }

    /// The type under which a value goes in and out of a function.
    fn abi_or_basic<L: Fn(LayoutAsk) -> Option<u64>>(
        &self,
        layout: &L,
        function: DefId,
        ty: &ResolvedType,
    ) -> (r: Result<LowType, CodegenError>)
        requires
            lays_out(*layout),
        ensures
            type_outcome(
                r,
                emission::passed_type(self.around(layout_model(*layout)), function, *ty),
            ),
    {
        let basic: LowType = self.low(ty)?;
        if !is_foreign(&self.program.functions, function) || !ty.is_aggregate() {
            return Ok(basic);
        }
        match ask_layout(layout, LayoutAsk::Size(basic.clone())) {
            None => Err(fail("could not compute the size of a type")),
            Some(size) => {
                if size == 0 || size > 16 {
                    Ok(basic)
                } else {
                    Ok(LowType::Int((size * 8) as u32))
                }
            },
        }
    }
}

impl<'a> Machine<'a> {
    /// A value as it goes into a function.
    fn abi_pack<L: Fn(LayoutAsk) -> Option<u64>>(
        &self,
        layout: &L,
        s: &mut Script,
        value: Value,
        function: DefId,
        ty: &ResolvedType,
    ) -> (r: Result<Value, CodegenError>)
        requires
            lays_out(*layout),
        ensures
            value_outcome(
                r,
                final(s)@,
                emission::packed(
                    self.around(layout_model(*layout)),
                    old(s)@,
                    value@,
                    function,
                    *ty,
                ),
            ),
    {
        let passed: LowType = self.abi_or_basic(layout, function, ty)?;
        if value.ty.same(&passed) {
            return Ok(value);
        }
        let source: LowType = self.low(ty)?;
        let pointer: Operand = s.result(
            Command::Alloca { ty: source, name: "abi.pack.addr".to_owned() },
        );
        s.issue(Command::Store { pointer: pointer.clone(), value: value.operand });
        Ok(
            s.give(
                Command::Load { ty: passed.clone(), pointer, name: "abi.pack".to_owned() },
                passed,
            ),
        )
    }

    /// A value that comes out of a function.
    fn abi_unpack<L: Fn(LayoutAsk) -> Option<u64>>(
        &self,
        layout: &L,
        s: &mut Script,
        value: Value,
        function: DefId,
        ty: &ResolvedType,
        span: Span,
    ) -> (r: Result<Value, CodegenError>)
        requires
            lays_out(*layout),
        ensures
            value_outcome(
                r,
                final(s)@,
                emission::unpacked(
                    self.around(layout_model(*layout)),
                    old(s)@,
                    value@,
                    function,
                    *ty,
                    span,
                ),
            ),
    {
        let passed: LowType = self.abi_or_basic(layout, function, ty)?;
        let source: LowType = self.low(ty)?;
        if value.ty.same(&source) {
            return Ok(value);
        }
        if !value.ty.same(&passed) {
            return Err(fail_at("foreign ABI value has an unexpected type", span));
        }
        let pointer: Operand = s.result(
            Command::Alloca { ty: passed, name: "abi.unpack.addr".to_owned() },
        );
        s.issue(Command::Store { pointer: pointer.clone(), value: value.operand });
        Ok(
            s.give(
                Command::Load { ty: source.clone(), pointer, name: "abi.unpack".to_owned() },
                source,
            ),
        )
    }

    /// The place of a field in a struct.
    fn struct_field_index(&self, id: DefId, field: &String, span: Span) -> (r: Result<
        u32,
        CodegenError,
    >)
        ensures
            forall|layout: LayoutModel|
                match #[trigger] emission::field_place(self.around(layout), id, field@, span) {
                    Ok(index) => r matches Ok(found) && found == index,
                    Err(error) => r matches Err(e) && e@ == error,
                },
    {
        let structs: &Vec<TypedStruct> = &self.program.structs;
        let i: usize = match find_struct(structs, id) {
            Some(i) => i,
            None => {
                return Err(fail_at("unknown struct", span));
            },
        };
        let fields: &Vec<TypedField> = &structs[i].fields;
        let ghost all = typed_fields_view(fields@);
        assert(typed_structs_view(structs@)[i as int] == structs@[i as int]@);
        let mut n: usize = fields.len();
        while n > 0
            invariant
                all == typed_fields_view(fields@),
                n <= fields.len(),
                i < structs.len(),
                emission::struct_of(
                    typed_structs_view(structs@),
                    structs@.len() as int,
                    id,
                ) == Some(i as int),
                *structs == self.program.structs,
                typed_structs_view(structs@)[i as int].fields == all,
                emission::field_of(all, all.len() as int, field@) == emission::field_of(
                    all,
                    n as int,
                    field@,
                ),
            decreases n,
        {
            assert(all[n - 1] == fields@[n - 1]@);
            if fields[n - 1].name == *field {
                return Ok(id_number(n - 1));
            }
            n -= 1;
        }
        Err(
            CodegenError::at(
                joined(joined("unknown field `".to_owned(), field.as_str()), "`"),
                span,
            ),
        )
    }

    /// The number that a query about a layout stands for.
    fn layout_value<L: Fn(LayoutAsk) -> Option<u64>>(
        &self,
        layout: &L,
        kind: LayoutKind,
        ty: &ResolvedType,
        field: &Option<String>,
        span: Span,
    ) -> (r: Result<u64, CodegenError>)
        requires
            lays_out(*layout),
        ensures
            match emission::layout_number(
                self.around(layout_model(*layout)),
                kind,
                *ty,
                match field {
                    Some(name) => Some(name@),
                    None => None,
                },
                span,
            ) {
                Ok(n) => r matches Ok(found) && found == n,
                Err(error) => r matches Err(e) && e@ == error,
            },
    {
        let ghost m = self.around(layout_model(*layout));
        let low: LowType = self.low(ty)?;
        match kind {
            LayoutKind::Size => match ask_layout(layout, LayoutAsk::Size(low)) {
                Some(n) => Ok(n),
                None => Err(fail_at("could not compute the size of a type", span)),
            },
            LayoutKind::Align => match ask_layout(layout, LayoutAsk::Align(low)) {
                Some(n) => Ok(n),
                None => Err(fail_at("could not compute the alignment of a type", span)),
            },
            LayoutKind::Offset => {
                let name: &String = match field {
                    Some(name) => name,
                    None => {
                        return Err(fail_at("offset_of requires a field", span));
                    },
                };
                let id: DefId = match ty {
                    ResolvedType::Struct(id) => *id,
                    _ => {
                        return Err(fail_at("offset_of requires a struct", span));
                    },
                };
                let ghost place = emission::field_place(m, id, name@, span);
                let index: u32 = self.struct_field_index(id, name, span)?;
                match ask_layout(layout, LayoutAsk::Offset { id, index }) {
                    Some(n) => Ok(n),
                    None => Err(fail_at("could not compute field offset", span)),
                }
            },
        }
    }

    fn word_bits(&self) -> (r: Result<u32, CodegenError>)
        ensures
            forall|layout: LayoutModel|
                match #[trigger] emission::word_bits(self.around(layout)) {
                    Ok(bits) => r matches Ok(found) && found == bits,
                    Err(error) => r matches Err(e) && e@ == error,
                },
    {
        if self.pointer_width == 0 {
            Err(fail("zero pointer width"))
        } else {
            Ok(self.pointer_width)
        }
    }
}

// ---------------------------------------------------------------------------
// Constants
// ---------------------------------------------------------------------------

fn is_whole(c: &Constant) -> (r: bool)
    ensures
        r == emission::is_whole(c@),
{
    match c {
        Constant::Integer { .. } => true,
        Constant::Number { .. } => true,
        Constant::Negated(_) => true,
        Constant::Inverted(_) => true,
        Constant::Float { .. } => false,
        Constant::Struct { .. } => false,
        Constant::Array { .. } => false,
    }
}

pub open spec fn constant_outcome(
    r: Result<Constant, CodegenError>,
    wanted: Result<ConstantView, CodegenErrorView>,
) -> bool {
    match wanted {
        Ok(value) => r matches Ok(found) && found@ == value,
        Err(error) => r matches Err(e) && e@ == error,
    }
}

impl<'a> Machine<'a> {
    /// The initial value that an expression stands for.
    fn generate_constant<L: Fn(LayoutAsk) -> Option<u64>>(&self, layout: &L, e: &TypedExpr) -> (r:
        Result<Constant, CodegenError>)
        requires
            lays_out(*layout),
        ensures
            constant_outcome(r, emission::constant(self.around(layout_model(*layout)), e@)),
        decreases e,
    {
        let ghost m = self.around(layout_model(*layout));
        match e {
            TypedExpr::Integer { value, ty, span } => {
                let low: LowType = self.low(ty)?;
                if low.is_int() {
                    Ok(Constant::Integer { value: *value, ty: low })
                } else {
                    Err(fail_at("invalid constant integer", *span))
                }
            },
            TypedExpr::Float { value, ty, span } => {
                let low: LowType = self.low(ty)?;
                if low.is_float() {
                    Ok(Constant::Float { value: value.clone(), ty: low })
                } else {
                    Err(fail_at("float has a non-float type", *span))
                }
            },
            TypedExpr::Bool { value, .. } => {
                let value: u64 = if *value {
                    1
                } else {
                    0
                };
                Ok(Constant::Number { value, bits: 1 })
            },
            TypedExpr::Layout { kind, target, field, span, .. } => {
                let value: u64 = self.layout_value(layout, *kind, target, field, *span)?;
                if self.pointer_width == 0 {
                    return Err(fail("zero pointer width"));
                }
                Ok(Constant::Number { value, bits: self.pointer_width })
            },
            TypedExpr::StructLiteral { ty, fields, .. } => match ty {
                ResolvedType::Struct(id) => {
                    if find_struct(&self.program.structs, *id).is_none() {
                        return Err(unknown_struct(*id));
                    }
                    let values: Vec<Constant> = self.generate_constants(layout, fields)?;
                    Ok(Constant::Struct { id: *id, fields: values })
                },
                _ => Err(fail("invalid struct constant")),
            },
            TypedExpr::ArrayLiteral { ty, elements, .. } => {
                let low: LowType = self.low(ty)?;
                match low {
                    LowType::Array { element, .. } => {
                        let values: Vec<Constant> = self.generate_constants(layout, elements)?;
                        Ok(Constant::Array { element: *element, values })
                    },
                    _ => Err(fail("invalid array constant")),
                }
            },
            TypedExpr::Unary { operator, operand, .. } => {
                let value: Constant = self.generate_constant(layout, operand)?;
                let ghost inner = value@;
                if !is_whole(&value) {
                    return Err(fail("invalid constant unary expression"));
                }
                if *operator == UnaryOp::Negate {
                    Ok(Constant::Negated(Box::new(value)))
                } else if *operator == UnaryOp::Not || *operator == UnaryOp::BitwiseNot {
                    Ok(Constant::Inverted(Box::new(value)))
                } else {
                    Err(fail("invalid constant unary expression"))
                }
            },
            _ => Err(fail("global initializer is not a constant")),
        }
    }

    fn generate_constants<L: Fn(LayoutAsk) -> Option<u64>>(
        &self,
        layout: &L,
        es: &Vec<TypedExpr>,
    ) -> (r: Result<Vec<Constant>, CodegenError>)
        requires
            lays_out(*layout),
        ensures
            match emission::constants(
                self.around(layout_model(*layout)),
                typed_exprs_view(es@),
                0,
                Seq::empty(),
            ) {
                Ok(values) => r matches Ok(found) && constants_view(found@) == values,
                Err(error) => r matches Err(e) && e@ == error,
            },
        decreases es,
    {
        let ghost m = self.around(layout_model(*layout));
        let ghost all = typed_exprs_view(es@);
        let mut out: Vec<Constant> = Vec::new();
        assert(constants_view(out@) =~= Seq::empty());
        for i in 0..es.len()
            invariant
                lays_out(*layout),
                m == self.around(layout_model(*layout)),
                all == typed_exprs_view(es@),
                emission::constants(m, all, 0, Seq::empty()) == emission::constants(
                    m,
                    all,
                    i as int,
                    constants_view(out@),
                ),
        {
            assert(all[i as int] == es@[i as int]@);
            let value: Constant = self.generate_constant(layout, &es[i])?;
            out.push(value);
        }
        Ok(out)
    }
}

// ---------------------------------------------------------------------------
// Expressions
// ---------------------------------------------------------------------------

fn find_global(list: &Vec<TypedGlobal>, id: DefId) -> (r: Option<usize>)
    ensures
        match r {
            Some(i) => i < list.len() && emission::global_of(
                typed_globals_view(list@),
                list@.len() as int,
                id,
            ) == Some(i as int),
            None => emission::global_of(
                typed_globals_view(list@),
                list@.len() as int,
                id,
            ) is None,
        },
{
    let ghost all = typed_globals_view(list@);
    let mut i: usize = list.len();
    while i > 0
        invariant
            all == typed_globals_view(list@),
            i <= list.len(),
            emission::global_of(all, all.len() as int, id) == emission::global_of(
                all,
                i as int,
                id,
            ),
        decreases i,
    {
        assert(all[i - 1] == list@[i - 1]@);
        if list[i - 1].id == id {
            return Some(i - 1);
        }
        i -= 1;
    }
    None
}

fn find_constant(list: &Vec<TypedConstant>, id: DefId) -> (r: Option<usize>)
    ensures
        match r {
            Some(i) => i < list.len() && emission::constant_of(
                typed_constants_view(list@),
                list@.len() as int,
                id,
            ) == Some(i as int),
            None => emission::constant_of(
                typed_constants_view(list@),
                list@.len() as int,
                id,
            ) is None,
        },
{
    let ghost all = typed_constants_view(list@);
    let mut i: usize = list.len();
    while i > 0
        invariant
            all == typed_constants_view(list@),
            i <= list.len(),
            emission::constant_of(all, all.len() as int, id) == emission::constant_of(
                all,
                i as int,
                id,
            ),
        decreases i,
    {
        assert(all[i - 1] == list@[i - 1]@);
        if list[i - 1].id == id {
            return Some(i - 1);
        }
        i -= 1;
    }
    None
}

impl<'a> Machine<'a> {
    /// The type of the global or constant with the identity.
    fn global_type(&self, id: DefId) -> (r: Option<ResolvedType>)
        ensures
            forall|layout: LayoutModel| r == #[trigger]
                emission::global_type(self.around(layout), id),
    {
        match find_constant(&self.program.constants, id) {
            Some(i) => {
                assert(self.program@.constants[i as int] == self.program.constants@[i as int]@);
                return Some(self.program.constants[i].ty.clone());
            },
            None => {},
        }
        match find_global(&self.program.globals, id) {
            Some(i) => {
                assert(self.program@.globals[i as int] == self.program.globals@[i as int]@);
                Some(self.program.globals[i].ty.clone())
            },
            None => None,
        }
    }

    /// What a pointer leads to.
    fn load(&self, s: &mut Script, pointer: Operand, ty: &ResolvedType, name: &str) -> (r: Result<
        Value,
        CodegenError,
    >)
        ensures
            forall|layout: LayoutModel| #[trigger]
                value_outcome(
                    r,
                    final(s)@,
                    emission::loaded(
                        self.around(layout),
                        Ok((old(s)@, pointer@)),
                        *ty,
                        name@,
                    ),
                ),
    {
        let low: LowType = self.low(ty)?;
        Ok(
            s.give(
                Command::Load { ty: low.clone(), pointer, name: name.to_owned() },
                low,
            ),
        )
    }

    /// A slice of a pointer and a length.
    fn build_slice(&self, s: &mut Script, p: Value, n: Value, span: Span) -> (r: Result<
        Value,
        CodegenError,
    >)
        ensures
            forall|layout: LayoutModel| #[trigger]
                value_outcome(
                    r,
                    final(s)@,
                    emission::slice_built(self.around(layout), old(s)@, p@, n@, span),
                ),
    {
        proof {
            reveal(emission::slice_built);
        }
        let bits: u32 = match (&p.ty, &n.ty) {
            (LowType::Pointer, LowType::Int(bits)) => *bits,
            _ => {
                return Err(fail_at("slice needs a pointer and a length", span));
            },
        };
        if self.pointer_width == 0 {
            return Err(fail("zero pointer width"));
        }
        let low: LowType = LowType::Slice(self.pointer_width);
        let not_null: Operand = s.result(
            Command::NotNull { pointer: p.operand.clone(), name: "slice.not_null".to_owned() },
        );
        let empty: Operand = s.compare(IntTest::Equal, &n.operand, number(0, bits), "slice.empty");
        let valid: Operand = s.result(
            Command::Binary {
                operation: LowBinary::Or,
                left: not_null,
                right: empty,
                name: "slice.valid".to_owned(),
            },
        );
        s.guard(valid);
        let half: Operand = s.result(
            Command::Insert {
                aggregate: Operand::Undefined(low.clone()),
                value: p.operand,
                index: 0,
                name: "slice.ptr".to_owned(),
            },
        );
        Ok(
            s.give(
                Command::Insert {
                    aggregate: half,
                    value: n.operand,
                    index: 1,
                    name: "slice.len".to_owned(),
                },
                low,
            ),
        )
    }

    /// A pointer moved by a number of elements.
    fn move_pointer(
        &self,
        s: &mut Script,
        a: &Value,
        op: BinaryOp,
        b: &Value,
        left: &ResolvedType,
        span: Span,
    ) -> (r: Result<Value, CodegenError>)
        ensures
            forall|layout: LayoutModel| #[trigger]
                value_outcome(
                    r,
                    final(s)@,
                    emission::pointer_moved(
                        self.around(layout),
                        old(s)@,
                        a@,
                        op,
                        b@,
                        *left,
                        span,
                    ),
                ),
    {
        proof {
            reveal(emission::pointer_moved);
        }
        let element: &ResolvedType = match left {
            ResolvedType::Pointer(element) => element,
            _ => {
                return Err(fail_at("pointer arithmetic has a non-pointer lhs", span));
            },
        };
        let low: LowType = self.low(element)?;
        let index: Operand = if op == BinaryOp::Subtract {
            s.result(
                Command::Unary {
                    operation: LowUnary::Negate,
                    operand: b.operand.clone(),
                    name: "ptr.neg".to_owned(),
                },
            )
        } else {
            b.operand.clone()
        };
        Ok(
            s.give(
                Command::Element {
                    element: low,
                    pointer: a.operand.clone(),
                    index,
                    name: "ptr.add".to_owned(),
                },
                LowType::Pointer,
            ),
        )
    }

    /// The distance of two pointers, or a comparison of them.
    fn operate_pointers(
        &self,
        s: &mut Script,
        a: &Value,
        op: BinaryOp,
        b: &Value,
        left: &ResolvedType,
        span: Span,
    ) -> (r: Result<Value, CodegenError>)
        ensures
            forall|layout: LayoutModel| #[trigger]
                value_outcome(
                    r,
                    final(s)@,
                    emission::pointers_operated(
                        self.around(layout),
                        old(s)@,
                        a@,
                        op,
                        b@,
                        *left,
                        span,
                    ),
                ),
    {
        proof {
            reveal(emission::pointers_operated);
        }
        if op == BinaryOp::Subtract {
            let element: &ResolvedType = match left {
                ResolvedType::Pointer(element) => element,
                _ => {
                    return Err(fail_at("pointer subtraction has a non-pointer lhs", span));
                },
            };
            let low: LowType = self.low(element)?;
            return Ok(
                s.give(
                    Command::Distance {
                        element: low,
                        left: a.operand.clone(),
                        right: b.operand.clone(),
                        name: "ptr.diff".to_owned(),
                    },
                    LowType::Int(64),
                ),
            );
        }
        let test: IntTest = match int_test(op, false) {
            Some((test, _)) => test,
            None => {
                return Err(fail_at("invalid pointer operation", span));
            },
        };
        if self.pointer_width == 0 {
            return Err(fail("zero pointer width"));
        }
        let x: Operand = s.result(
            Command::Address {
                pointer: a.operand.clone(),
                bits: self.pointer_width,
                name: "ptr.a".to_owned(),
            },
        );
        let y: Operand = s.result(
            Command::Address {
                pointer: b.operand.clone(),
                bits: self.pointer_width,
                name: "ptr.b".to_owned(),
            },
        );
        let operand: Operand = s.compare(test, &x, y, "ptr.cmp");
        Ok(Value { operand, ty: LowType::Int(1) })
    }

    /// An operator on two values that are there already.
    fn generate_binary(
        &self,
        s: &mut Script,
        a: &Value,
        op: BinaryOp,
        b: &Value,
        left: &ResolvedType,
        ty: &ResolvedType,
        span: Span,
    ) -> (r: Result<Value, CodegenError>)
        ensures
            forall|layout: LayoutModel| #[trigger]
                value_outcome(
                    r,
                    final(s)@,
                    emission::operated(
                        self.around(layout),
                        old(s)@,
                        a@,
                        op,
                        b@,
                        *left,
                        *ty,
                        span,
                    ),
                ),
    {
        if a.ty.is_pointer() && b.ty.is_int() {
            let r: Result<Value, CodegenError> = self.move_pointer(s, a, op, b, left, span);
            assert forall|layout: LayoutModel| #[trigger]
                value_outcome(
                    r,
                    s@,
                    emission::operated(
                        self.around(layout),
                        old(s)@,
                        a@,
                        op,
                        b@,
                        *left,
                        *ty,
                        span,
                    ),
                ) by {
                assert(value_outcome(
                    r,
                    s@,
                    emission::pointer_moved(
                        self.around(layout),
                        old(s)@,
                        a@,
                        op,
                        b@,
                        *left,
                        span,
                    ),
                ));
            }
            r
        } else if a.ty.is_pointer() && b.ty.is_pointer() {
            let r: Result<Value, CodegenError> = self.operate_pointers(s, a, op, b, left, span);
            assert forall|layout: LayoutModel| #[trigger]
                value_outcome(
                    r,
                    s@,
                    emission::operated(
                        self.around(layout),
                        old(s)@,
                        a@,
                        op,
                        b@,
                        *left,
                        *ty,
                        span,
                    ),
                ) by {
                assert(value_outcome(
                    r,
                    s@,
                    emission::pointers_operated(
                        self.around(layout),
                        old(s)@,
                        a@,
                        op,
                        b@,
                        *left,
                        span,
                    ),
                ));
            }
            r
        } else if a.ty.is_int() && b.ty.is_int() {
            s.generate_integer(a, op, b, ty, self.pointer_width, span)
        } else if a.ty.is_float() && b.ty.is_float() {
            s.generate_float(a, op, b, span)
        } else {
            Err(fail_at("binary operands have incompatible resolved types", span))
        }
    }

    /// The error of a result value, returned as the error of the function; a
    /// trap where the function gives an exit code.
    fn return_error(&self, s: &mut Script, v: &Value, operand_span: Span, span: Span) -> (r: Result<
        (),
        CodegenError,
    >)
        ensures
            forall|layout: LayoutModel| #[trigger]
                done_outcome(
                    r,
                    final(s)@,
                    emission::error_returned(
                        self.around(layout),
                        old(s)@,
                        v@,
                        operand_span,
                        span,
                    ),
                ),
    {
        proof {
            reveal(emission::error_returned);
        }
        let problem: Value = s.take_part(v, 2, "propagate.error.value", span)?;
        match self.return_type {
            ResolvedType::Result { .. } => {
                let outcome: LowType = self.low(self.return_type)?;
                let value: Value = s.build_outcome(
                    &outcome,
                    Operand::AllOnes { bits: 1 },
                    "propagate.return.err",
                    problem.operand,
                    2,
                    "propagate.return.value",
                );
                s.issue(Command::Return { value: Some(value.operand) });
                Ok(())
            },
            ResolvedType::Integer { width: IntegerWidth::Bits(32), signed: true } => {
                s.issue(Command::Trap);
                s.issue(Command::Unreachable);
                Ok(())
            },
            _ => Err(fail_at("propagation target is not a result", operand_span)),
        }
    }

    /// The call itself, with arguments that are there already.
    fn issue_call<L: Fn(LayoutAsk) -> Option<u64>>(
        &self,
        layout: &L,
        s: &mut Script,
        function: DefId,
        arguments: Vec<Operand>,
        declared: &ResolvedType,
        ty: &ResolvedType,
        span: Span,
    ) -> (r: Result<Option<Value>, CodegenError>)
        requires
            lays_out(*layout),
        ensures
            call_outcome(
                r,
                final(s)@,
                emission::call_issued(
                    self.around(layout_model(*layout)),
                    old(s)@,
                    function,
                    operands_view(arguments@),
                    *declared,
                    *ty,
                    span,
                ),
            ),
    {
        proof {
            reveal(emission::call_issued);
        }
        let operand: Operand = s.result(
            Command::Call { function, arguments, name: "call".to_owned() },
        );
        if declared.same(&ResolvedType::Unit) {
            return Ok(None);
        }
        let result: LowType = self.abi_or_basic(layout, function, declared)?;
        let v: Value = self.abi_unpack(
            layout,
            s,
            Value { operand, ty: result },
            function,
            ty,
            span,
        )?;
        Ok(Some(v))
    }

    /// The pointer to an element of what a pointer leads to.
    fn point_to_element(
        &self,
        s: &mut Script,
        pointer: Operand,
        index: &Value,
        ty: &ResolvedType,
        length: Option<u64>,
        checked: bool,
        span: Span,
    ) -> (r: Result<Operand, CodegenError>)
        ensures
            forall|layout: LayoutModel| #[trigger]
                pointer_outcome(
                    r,
                    final(s)@,
                    emission::element_pointed(
                        self.around(layout),
                        old(s)@,
                        pointer@,
                        index@,
                        *ty,
                        length,
                        checked,
                        span,
                    ),
                ),
    {
        proof {
            reveal(emission::element_pointed);
        }
        let bits: u32 = match &index.ty {
            LowType::Int(bits) => *bits,
            _ => {
                return Err(fail_at("index is not an integer", span));
            },
        };
        match ty {
            ResolvedType::Array { .. } => {
                let array: LowType = self.low(ty)?;
                match length {
                    Some(n) => {
                        if checked {
                            s.check_index(&index.operand, number(n, bits));
                        }
                    },
                    None => {},
                }
                Ok(
                    s.result(
                        Command::ArrayElement {
                            array,
                            pointer,
                            index: index.operand.clone(),
                            name: "index.ptr".to_owned(),
                        },
                    ),
                )
            },
            ResolvedType::Slice(element) => {
                if self.pointer_width == 0 {
                    return Err(fail("zero pointer width"));
                }
                let slice: Operand = s.result(
                    Command::Load {
                        ty: LowType::Slice(self.pointer_width),
                        pointer,
                        name: "slice.load".to_owned(),
                    },
                );
                let start: Operand = s.result(
                    Command::Extract {
                        aggregate: slice.clone(),
                        index: 0,
                        name: "slice.ptr".to_owned(),
                    },
                );
                let count: Operand = s.result(
                    Command::Extract {
                        aggregate: slice,
                        index: 1,
                        name: "slice.len".to_owned(),
                    },
                );
                if checked {
                    s.check_index(&index.operand, count);
                }
                let low: LowType = self.low(element)?;
                Ok(
                    s.result(
                        Command::Element {
                            element: low,
                            pointer: start,
                            index: index.operand.clone(),
                            name: "slice.index.ptr".to_owned(),
                        },
                    ),
                )
            },
            ResolvedType::Pointer(element) => {
                let start: Operand = s.result(
                    Command::Load {
                        ty: LowType::Pointer,
                        pointer,
                        name: "pointer.load".to_owned(),
                    },
                );
                let low: LowType = self.low(element)?;
                Ok(
                    s.result(
                        Command::Element {
                            element: low,
                            pointer: start,
                            index: index.operand.clone(),
                            name: "pointer.index.ptr".to_owned(),
                        },
                    ),
                )
            },
            _ => Err(fail_at("index base is not indexable", span)),
        }
    }
}

impl<'a> Machine<'a> {
    /// The same, with no deferred calls to run.
    fn with_cleanup<'b>(&'b self, cleanup: &'b Vec<MirCleanup>) -> (r: Machine<'b>)
        ensures
            forall|layout: LayoutModel| #[trigger]
                r.around(layout) == (Surroundings {
                    cleanup: cleanups_view(cleanup@),
                    ..self.around(layout)
                }),
            r.cleanup@ == cleanup@,
    {
        Machine {
            program: self.program,
            pointer_width: self.pointer_width,
            function: self.function,
            return_type: self.return_type,
            cleanup,
            debug: self.debug,
        }
    }

    /// The commands that an expression stands for, and its value.
    #[verifier::rlimit(60)]
    fn generate_expression<L: Fn(LayoutAsk) -> Option<u64>>(
        &self,
        layout: &L,
        s: &mut Script,
        e: &TypedExpr,
    ) -> (r: Result<Value, CodegenError>)
        requires
            lays_out(*layout),
        ensures
            value_outcome(
                r,
                final(s)@,
                emission::emitted(self.around(layout_model(*layout)), old(s)@, e@),
            ),
        decreases self.cleanup@.len(), 0int, e, 1int,
    {
        let ghost m = self.around(layout_model(*layout));
        match e {
            TypedExpr::Integer { value, ty, span } => {
                let low: LowType = self.low(ty)?;
                if low.is_int() {
                    Ok(Value { operand: Operand::Integer { value: *value, ty: low.clone() },
                        ty: low })
                } else {
                    Err(fail_at("integer has a non-integer type", *span))
                }
            },
            TypedExpr::Float { value, ty, span } => {
                let low: LowType = self.low(ty)?;
                if low.is_float() {
                    Ok(Value { operand: Operand::Float { value: value.clone(), ty: low.clone() },
                        ty: low })
                } else {
                    Err(fail_at("float has a non-float type", *span))
                }
            },
            TypedExpr::Bool { value, .. } => {
                let value: u64 = if *value {
                    1
                } else {
                    0
                };
                Ok(Value { operand: number(value, 1), ty: LowType::Int(1) })
            },
            TypedExpr::Null { ty, span } => {
                let low: LowType = self.low(ty)?;
                if low.is_pointer() {
                    Ok(Value { operand: Operand::Null, ty: LowType::Pointer })
                } else {
                    Err(fail_at("null requires a pointer type", *span))
                }
            },
            TypedExpr::AddressOf { place, span, .. } => {
                let pointer: Operand = self.place_pointer(layout, s, place, *span)?;
                Ok(Value { operand: pointer, ty: LowType::Pointer })
            },
            TypedExpr::Dereference { place, ty, span } => {
                self.generate_load(layout, s, place, ty, "deref.load", *span)
            },
            TypedExpr::Field { place, ty, span } => {
                self.generate_load(layout, s, place, ty, "aggregate.load", *span)
            },
            TypedExpr::Index { place, ty, span } => {
                self.generate_load(layout, s, place, ty, "aggregate.load", *span)
            },
            TypedExpr::ResultOk { value, ty, span } => match ty {
                ResolvedType::Result { success, .. } => {
                    let outcome: LowType = self.low(ty)?;
                    let v: Value = if success.same(&ResolvedType::Unit) {
                        Value { operand: number(0, 8), ty: LowType::Int(8) }
                    } else {
                        self.generate_expression(layout, s, value)?
                    };
                    Ok(
                        s.build_outcome(
                            &outcome,
                            number(0, 1),
                            "result.ok",
                            v.operand,
                            1,
                            "result.value",
                        ),
                    )
                },
                _ => Err(fail_at("invalid result success type", *span)),
            },
            TypedExpr::ResultErr { value, ty, span } => match ty {
                ResolvedType::Result { .. } => {
                    let outcome: LowType = self.low(ty)?;
                    let v: Value = self.generate_expression(layout, s, value)?;
                    Ok(
                        s.build_outcome(
                            &outcome,
                            Operand::AllOnes { bits: 1 },
                            "result.err",
                            v.operand,
                            2,
                            "result.error",
                        ),
                    )
                },
                _ => Err(fail_at("invalid result error type", *span)),
            },
            TypedExpr::IsErr { value, span, .. } => {
                let v: Value = self.generate_expression(layout, s, value)?;
                s.take_part(&v, 0, "result.is_err", *span)
            },
            TypedExpr::Unwrap { value, ty, span } => {
                let v: Value = self.generate_expression(layout, s, value)?;
                let tag: Value = s.take_part(&v, 0, "result.tag", *span)?;
                let fine: Operand = s.result(
                    Command::Unary {
                        operation: LowUnary::Not,
                        operand: tag.operand,
                        name: "result.ok".to_owned(),
                    },
                );
                s.guard(fine);
                s.take_success(&v, ty, "result.unwrap", *span)
            },
            TypedExpr::Propagate { value, ty, span } => {
                self.generate_propagation(layout, s, value, ty, *span)
            },
            TypedExpr::Layout { kind, target, field, span, .. } => {
                let value: u64 = self.layout_value(layout, *kind, target, field, *span)?;
                if self.pointer_width == 0 {
                    return Err(fail("zero pointer width"));
                }
                let bits: u32 = self.pointer_width;
                Ok(Value { operand: number(value, bits), ty: LowType::Int(bits) })
            },
            TypedExpr::Load { id, span, .. } => match s.local(*id) {
                None => Err(fail_at("unknown resolved local", *span)),
                Some((pointer, low)) => Ok(
                    s.give(
                        Command::Load { ty: low.clone(), pointer, name: "loadtmp".to_owned() },
                        low,
                    ),
                ),
            },
            TypedExpr::GlobalLoad { id, span, .. } => {
                let ghost wanted = emission::global_type(m, *id);
                let ty: ResolvedType = match self.global_type(*id) {
                    Some(ty) => ty,
                    None => {
                        return Err(fail_at("unknown global", *span));
                    },
                };
                let low: LowType = self.low(&ty)?;
                Ok(
                    s.give(
                        Command::Load {
                            ty: low.clone(),
                            pointer: Operand::Global(*id),
                            name: "global.load".to_owned(),
                        },
                        low,
                    ),
                )
            },
            TypedExpr::StructLiteral { ty, fields, .. } => match ty {
                ResolvedType::Struct(id) => {
                    if find_struct(&self.program.structs, *id).is_none() {
                        return Err(unknown_struct(*id));
                    }
                    self.insert_all(layout, s, fields, LowType::Named(*id), "struct.insert")
                },
                _ => Err(fail("invalid struct literal type")),
            },
            TypedExpr::ArrayLiteral { ty, elements, .. } => {
                let low: LowType = self.low(ty)?;
                match &low {
                    LowType::Array { .. } => {},
                    _ => {
                        return Err(fail("invalid array literal type"));
                    },
                }
                self.insert_all(layout, s, elements, low, "array.insert")
            },
            TypedExpr::Unary { operator, operand, ty, span } => {
                let v: Value = self.generate_expression(layout, s, operand)?;
                s.generate_unary(*operator, &v, ty, *span)
            },
            TypedExpr::Binary { left, operator, right, operand_type, span, .. } => {
                if *operator == BinaryOp::LogicalAnd || *operator == BinaryOp::LogicalOr {
                    return self.generate_logical(layout, s, e);
                }
                let a: Value = self.generate_expression(layout, s, left)?;
                let b: Value = self.generate_expression(layout, s, right)?;
                let ghost before = s@;
                let r: Result<Value, CodegenError> = self.generate_binary(
                    s,
                    &a,
                    *operator,
                    &b,
                    &left.ty(),
                    operand_type,
                    *span,
                );
                assert(value_outcome(
                    r,
                    s@,
                    emission::operated(
                        m,
                        before,
                        a@,
                        *operator,
                        b@,
                        left@.ty(),
                        *operand_type,
                        *span,
                    ),
                ));
                r
            },
            TypedExpr::MakeSlice { pointer, length, span, .. } => {
                let p: Value = self.generate_expression(layout, s, pointer)?;
                let n: Value = self.generate_expression(layout, s, length)?;
                let ghost before = s@;
                let ghost first = p@;
                let ghost second = n@;
                let r: Result<Value, CodegenError> = self.build_slice(s, p, n, *span);
                assert(value_outcome(
                    r,
                    s@,
                    emission::slice_built(m, before, first, second, *span),
                ));
                r
            },
            TypedExpr::Call { function, name, arguments, ty, span, .. } => {
                match self.generate_call(layout, s, *function, arguments, ty, *span)? {
                    Some(v) => Ok(v),
                    None => {
                        let shown: String = show_type(ty);
                        let start: String = joined(
                            joined("void function `".to_owned(), name.as_str()),
                            "` has no value of type ",
                        );
                        Err(CodegenError::at(joined(start, shown.as_str()), *span))
                    },
                }
            },
            TypedExpr::LowLevel { operation, span, .. } => {
                let start: String = joined(
                    "low-level operation `".to_owned(),
                    interpreter::operation_name(*operation),
                );
                Err(CodegenError::at(joined(start, "` is not supported"), *span))
            },
        }
    }

    fn generate_load<L: Fn(LayoutAsk) -> Option<u64>>(
        &self,
        layout: &L,
        s: &mut Script,
        place: &TypedPlace,
        ty: &ResolvedType,
        name: &str,
        span: Span,
    ) -> (r: Result<Value, CodegenError>)
        requires
            lays_out(*layout),
        ensures
            value_outcome(
                r,
                final(s)@,
                emission::loaded(
                    self.around(layout_model(*layout)),
                    emission::pointed(
                        self.around(layout_model(*layout)),
                        old(s)@,
                        place@,
                        span,
                    ),
                    *ty,
                    name@,
                ),
            ),
        decreases self.cleanup@.len(), 0int, place, 1int,
    {
        let ghost m = self.around(layout_model(*layout));
        let pointer: Operand = self.place_pointer(layout, s, place, span)?;
        let ghost before = s@;
        let ghost target = pointer@;
        let r: Result<Value, CodegenError> = self.load(s, pointer, ty, name);
        assert(value_outcome(
            r,
            s@,
            emission::loaded(m, Ok((before, target)), *ty, name@),
        ));
        r
    }

    /// The success value of a result value; its error is returned.
    fn generate_propagation<L: Fn(LayoutAsk) -> Option<u64>>(
        &self,
        layout: &L,
        s: &mut Script,
        value: &TypedExpr,
        ty: &ResolvedType,
        span: Span,
    ) -> (r: Result<Value, CodegenError>)
        requires
            lays_out(*layout),
        ensures
            value_outcome(
                r,
                final(s)@,
                emission::emitted(
                    self.around(layout_model(*layout)),
                    old(s)@,
                    TypedExprView::Propagate { value: Box::new(value@), ty: *ty, span },
                ),
            ),
        decreases self.cleanup@.len(), 0int, value, 2int,
    {
        let ghost m = self.around(layout_model(*layout));
        let v: Value = self.generate_expression(layout, s, value)?;
        let tag: Value = s.take_part(&v, 0, "result.tag", span)?;
        let failed: usize = s.append("propagate.error");
        let went_on: usize = s.append("propagate.ok");
        s.issue(Command::Branch { condition: tag.operand, yes: failed, no: went_on });
        s.enter(failed);
        if self.cleanup.len() > 0 {
            let none: Vec<MirCleanup> = Vec::new();
            assert(cleanups_view(none@) =~= Seq::empty());
            let bare: Machine = self.with_cleanup(&none);
            assert(bare.around(layout_model(*layout)) == m.bare());
            bare.run_cleanup(layout, s, self.cleanup)?;
        }
        let ghost before = s@;
        let r: Result<(), CodegenError> = self.return_error(s, &v, value.span(), span);
        assert(done_outcome(
            r,
            s@,
            emission::error_returned(m, before, v@, value@.span(), span),
        ));
        r?;
        s.enter(went_on);
        s.take_success(&v, ty, "propagate.value", span)
    }

    /// `&&` and `||`: the right side counts where the left does not decide.
    fn generate_logical<L: Fn(LayoutAsk) -> Option<u64>>(
        &self,
        layout: &L,
        s: &mut Script,
        e: &TypedExpr,
    ) -> (r: Result<Value, CodegenError>)
        requires
            lays_out(*layout),
            e matches TypedExpr::Binary { operator, .. } && (operator == BinaryOp::LogicalAnd
                || operator == BinaryOp::LogicalOr),
        ensures
            value_outcome(
                r,
                final(s)@,
                emission::emitted(self.around(layout_model(*layout)), old(s)@, e@),
            ),
        decreases self.cleanup@.len(), 0int, e, 0int,
    {
        match e {
            TypedExpr::Binary { left, operator, right, .. } => {
                let a: Value = self.generate_expression(layout, s, left)?;
                let condition: Operand = as_condition(a, left.span())?;
                let (_, short, end): (usize, usize, usize) = s.enter_other(condition, *operator);
                let b: Value = self.generate_expression(layout, s, right)?;
                let second: Operand = as_condition(b, right.span())?;
                Ok(s.join_logic(short, end, second, *operator))
            },
            _ => Err(fail("not a logical operator")),
        }
    }

    /// The values of the expressions, put into an aggregate one after the
    /// other.
    fn insert_all<L: Fn(LayoutAsk) -> Option<u64>>(
        &self,
        layout: &L,
        s: &mut Script,
        es: &Vec<TypedExpr>,
        low: LowType,
        name: &str,
    ) -> (r: Result<Value, CodegenError>)
        requires
            lays_out(*layout),
        ensures
            value_outcome(
                r,
                final(s)@,
                emission::inserted(
                    self.around(layout_model(*layout)),
                    old(s)@,
                    typed_exprs_view(es@),
                    0,
                    OperandView::Undefined(low),
                    low,
                    name@,
                ),
            ),
        decreases self.cleanup@.len(), 0int, es, 0int,
    {
        let ghost m = self.around(layout_model(*layout));
        let ghost all = typed_exprs_view(es@);
        let ghost goal = emission::inserted(
            m,
            s@,
            all,
            0,
            OperandView::Undefined(low),
            low,
            name@,
        );
        let mut aggregate: Operand = Operand::Undefined(low.clone());
        for i in 0..es.len()
            invariant
                lays_out(*layout),
                m == self.around(layout_model(*layout)),
                all == typed_exprs_view(es@),
                goal == emission::inserted(
                    m,
                    old(s)@,
                    all,
                    0,
                    OperandView::Undefined(low),
                    low,
                    name@,
                ),
                goal == emission::inserted(m, s@, all, i as int, aggregate@, low, name@),
        {
            assert(all[i as int] == es@[i as int]@);
            let v: Value = self.generate_expression(layout, s, &es[i])?;
            aggregate = s.result(
                Command::Insert {
                    aggregate,
                    value: v.operand,
                    index: id_number(i),
                    name: name.to_owned(),
                },
            );
        }
        Ok(Value { operand: aggregate, ty: low })
    }

    /// The values of the arguments, as they go into a function.
    fn pass_all<L: Fn(LayoutAsk) -> Option<u64>>(
        &self,
        layout: &L,
        s: &mut Script,
        function: DefId,
        es: &Vec<TypedExpr>,
    ) -> (r: Result<Vec<Operand>, CodegenError>)
        requires
            lays_out(*layout),
        ensures
            list_outcome(
                r,
                final(s)@,
                emission::passed(
                    self.around(layout_model(*layout)),
                    old(s)@,
                    function,
                    typed_exprs_view(es@),
                    0,
                    Seq::empty(),
                ),
            ),
        decreases self.cleanup@.len(), 0int, es, 0int,
    {
        let ghost m = self.around(layout_model(*layout));
        let ghost all = typed_exprs_view(es@);
        let ghost goal = emission::passed(m, s@, function, all, 0, Seq::empty());
        let mut out: Vec<Operand> = Vec::new();
        assert(operands_view(out@) =~= Seq::empty());
        for i in 0..es.len()
            invariant
                lays_out(*layout),
                m == self.around(layout_model(*layout)),
                all == typed_exprs_view(es@),
                goal == emission::passed(m, old(s)@, function, all, 0, Seq::empty()),
                goal == emission::passed(
                    m,
                    s@,
                    function,
                    all,
                    i as int,
                    operands_view(out@),
                ),
        {
            assert(all[i as int] == es@[i as int]@);
            let v: Value = self.generate_expression(layout, s, &es[i])?;
            let value: Value = self.abi_pack(layout, s, v, function, &es[i].ty())?;
            out.push(value.operand);
        }
        Ok(out)
    }

    /// A call and, where the function gives one, its value.
    fn generate_call<L: Fn(LayoutAsk) -> Option<u64>>(
        &self,
        layout: &L,
        s: &mut Script,
        function: DefId,
        arguments: &Vec<TypedExpr>,
        ty: &ResolvedType,
        span: Span,
    ) -> (r: Result<Option<Value>, CodegenError>)
        requires
            lays_out(*layout),
        ensures
            call_outcome(
                r,
                final(s)@,
                emission::called(
                    self.around(layout_model(*layout)),
                    old(s)@,
                    function,
                    typed_exprs_view(arguments@),
                    *ty,
                    span,
                ),
            ),
        decreases self.cleanup@.len(), 0int, arguments, 1int,
    {
        let i: usize = match find_function(&self.program.functions, function) {
            Some(i) => i,
            None => {
                return Err(fail_at("unknown resolved call target", span));
            },
        };
        assert(self.program@.functions[i as int] == self.program.functions@[i as int]@);
        let values: Vec<Operand> = self.pass_all(layout, s, function, arguments)?;
        self.issue_call(
            layout,
            s,
            function,
            values,
            &self.program.functions[i].return_type,
            ty,
            span,
        )
    }

    /// The deferred calls.
    fn run_cleanup<L: Fn(LayoutAsk) -> Option<u64>>(
        &self,
        layout: &L,
        s: &mut Script,
        actions: &Vec<MirCleanup>,
    ) -> (r: Result<(), CodegenError>)
        requires
            lays_out(*layout),
        ensures
            done_outcome(
                r,
                final(s)@,
                emission::cleaned(
                    self.around(layout_model(*layout)),
                    old(s)@,
                    cleanups_view(actions@),
                    0,
                ),
            ),
        decreases self.cleanup@.len(), 1int, actions, 0int,
    {
        let ghost m = self.around(layout_model(*layout));
        let ghost all = cleanups_view(actions@);
        let ghost goal = emission::cleaned(m, s@, all, 0);
        for i in 0..actions.len()
            invariant
                lays_out(*layout),
                m == self.around(layout_model(*layout)),
                all == cleanups_view(actions@),
                goal == emission::cleaned(m, old(s)@, all, 0),
                goal == emission::cleaned(m, s@, all, i as int),
        {
            let action: &MirCleanup = &actions[i];
            assert(all[i as int] == action@);
            let values: Vec<Operand> = self.pass_all(
                layout,
                s,
                action.function,
                &action.arguments,
            )?;
            if find_function(&self.program.functions, action.function).is_none() {
                return Err(fail_at("unknown deferred function", action.span));
            }
            s.issue(
                Command::Call {
                    function: action.function,
                    arguments: values,
                    name: "defer.call".to_owned(),
                },
            );
        }
        Ok(())
    }

    /// The pointer to a place.
    fn place_pointer<L: Fn(LayoutAsk) -> Option<u64>>(
        &self,
        layout: &L,
        s: &mut Script,
        place: &TypedPlace,
        span: Span,
    ) -> (r: Result<Operand, CodegenError>)
        requires
            lays_out(*layout),
        ensures
            pointer_outcome(
                r,
                final(s)@,
                emission::pointed(
                    self.around(layout_model(*layout)),
                    old(s)@,
                    place@,
                    span,
                ),
            ),
        decreases self.cleanup@.len(), 0int, place, 0int,
    {
        let ghost m = self.around(layout_model(*layout));
        match place {
            TypedPlace::Local { id, .. } => match s.local(*id) {
                None => Err(fail_at("unknown local", span)),
                Some((pointer, _)) => Ok(pointer),
            },
            TypedPlace::Global { id, .. } => {
                let ghost wanted = emission::global_type(m, *id);
                match self.global_type(*id) {
                    None => Err(fail_at("unknown global", span)),
                    Some(_) => Ok(Operand::Global(*id)),
                }
            },
            TypedPlace::Temporary { value, ty } => {
                let low: LowType = self.low(ty)?;
                let v: Value = self.generate_expression(layout, s, value)?;
                let pointer: Operand = s.result(
                    Command::Alloca { ty: low, name: "temporary.addr".to_owned() },
                );
                s.issue(Command::Store { pointer: pointer.clone(), value: v.operand });
                Ok(pointer)
            },
            TypedPlace::Field { base, index, .. } => {
                let pointer: Operand = self.place_pointer(layout, s, base, span)?;
                match base.ty() {
                    ResolvedType::Struct(id) => {
                        if find_struct(&self.program.structs, id).is_none() {
                            return Err(unknown_struct(id));
                        }
                        Ok(
                            s.result(
                                Command::Member {
                                    id,
                                    pointer,
                                    index: *index,
                                    name: "field.ptr".to_owned(),
                                },
                            ),
                        )
                    },
                    _ => Err(fail_at("field base is not a struct", span)),
                }
            },
            TypedPlace::Index { base, index, length, checked, .. } => {
                let pointer: Operand = self.place_pointer(layout, s, base, span)?;
                let i: Value = self.generate_expression(layout, s, index)?;
                let ghost before = s@;
                let ghost target = pointer@;
                let r: Result<Operand, CodegenError> = self.point_to_element(
                    s,
                    pointer,
                    &i,
                    &base.ty(),
                    *length,
                    *checked,
                    span,
                );
                assert(pointer_outcome(
                    r,
                    s@,
                    emission::element_pointed(
                        m,
                        before,
                        target,
                        i@,
                        base@.ty(),
                        *length,
                        *checked,
                        span,
                    ),
                ));
                r
            },
            TypedPlace::Dereference { pointer, .. } => {
                let v: Value = self.generate_expression(layout, s, pointer)?;
                if v.ty.is_pointer() {
                    Ok(v.operand)
                } else {
                    Err(fail_at("dereferenced value is no pointer", span))
                }
            },
        }
    }
}

// ---------------------------------------------------------------------------
// Statements and blocks
// ---------------------------------------------------------------------------

impl<'a> Machine<'a> {
    /// Tells a debugger the place of a statement.
    fn tell(&self, s: &mut Script, span: Span)
        ensures
            forall|layout: LayoutModel| #[trigger]
                emission::told(self.around(layout), old(s)@, span) == final(s)@,
    {
        match self.debug {
            Some((source, body)) => {
                if starts_in(body, span.start) {
                    tell_place(s, source, span.start);
                }
            },
            None => {},
        }
    }

    /// A new local with its first value.
    fn declare(
        &self,
        s: &mut Script,
        id: LocalId,
        name: &String,
        ty: &ResolvedType,
        low: LowType,
        value: Operand,
        span: Span,
    )
        ensures
            forall|layout: LayoutModel| #[trigger]
                emission::declared(
                    self.around(layout),
                    old(s)@,
                    id,
                    name@,
                    *ty,
                    low,
                    value@,
                    span,
                ) == final(s)@,
    {
        proof {
            reveal(emission::declared);
        }
        let pointer: Operand = s.result(
            Command::Alloca { ty: low.clone(), name: joined(name.clone(), ".addr") },
        );
        s.issue(Command::Store { pointer: pointer.clone(), value });
        s.bind(id, pointer.clone(), low.clone());
        match self.debug {
            Some((source, _)) => {
                s.variables.push(
                    DebugVariable {
                        name: name.clone(),
                        kind: show_type(ty),
                        ty: low,
                        pointer,
                        line: source_line(source, span.start),
                    },
                );
            },
            None => {},
        }
    }

    /// One step of a block.
    fn generate_statement<L: Fn(LayoutAsk) -> Option<u64>>(
        &self,
        layout: &L,
        s: &mut Script,
        step: &MirInstruction,
    ) -> (r: Result<(), CodegenError>)
        requires
            lays_out(*layout),
        ensures
            done_outcome(
                r,
                final(s)@,
                emission::performed(self.around(layout_model(*layout)), old(s)@, step@),
            ),
    {
        let ghost m = self.around(layout_model(*layout));
        match step {
            MirInstruction::Declare { id, name, ty, value, span, .. } => {
                let low: LowType = self.low(ty)?;
                let ghost first = emission::told(m, s@, *span);
                self.tell(s, *span);
                assert(s@ == first);
                let v: Value = self.generate_expression(layout, s, value)?;
                if !v.ty.same(&low) {
                    return Err(fail_at("initializer has the wrong resolved type", *span));
                }
                let ghost last = emission::declared(
                    m,
                    s@,
                    *id,
                    name@,
                    *ty,
                    low,
                    v@.operand,
                    *span,
                );
                self.declare(s, *id, name, ty, low, v.operand, *span);
                assert(s@ == last);
                Ok(())
            },
            MirInstruction::Store { target, value, ty, span } => {
                let ghost first = emission::told(m, s@, *span);
                self.tell(s, *span);
                assert(s@ == first);
                let pointer: Operand = self.place_pointer(layout, s, target, *span)?;
                let v: Value = self.generate_expression(layout, s, value)?;
                let low: LowType = self.low(ty)?;
                if !v.ty.same(&low) {
                    return Err(fail_at("assigned value has the wrong type", *span));
                }
                s.issue(Command::Store { pointer, value: v.operand });
                Ok(())
            },
            MirInstruction::Expr { expression, span } => {
                let ghost first = emission::told(m, s@, *span);
                self.tell(s, *span);
                assert(s@ == first);
                match expression {
                    TypedExpr::Call { function, arguments, ty, span: place, .. } => {
                        self.generate_call(layout, s, *function, arguments, ty, *place)?;
                        Ok(())
                    },
                    _ => {
                        assert(!(expression@ is Call));
                        self.generate_expression(layout, s, expression)?;
                        Ok(())
                    },
                }
            },
            MirInstruction::RunCleanup { actions } => self.run_cleanup(layout, s, actions),
        }
    }

    /// The end of a block.
    fn generate_end<L: Fn(LayoutAsk) -> Option<u64>>(
        &self,
        layout: &L,
        s: &mut Script,
        end: &MirTerminator,
        span: Span,
    ) -> (r: Result<(), CodegenError>)
        requires
            lays_out(*layout),
        ensures
            done_outcome(
                r,
                final(s)@,
                emission::ended(self.around(layout_model(*layout)), old(s)@, end@, span),
            ),
    {
        let ghost m = self.around(layout_model(*layout));
        match end {
            MirTerminator::Jump(target) => {
                s.issue(Command::Jump { block: target.0 as usize });
                Ok(())
            },
            MirTerminator::Branch { condition, then_block, else_block, span: place } => {
                let ghost first = emission::told(m, s@, *place);
                self.tell(s, *place);
                assert(s@ == first);
                let v: Value = self.generate_expression(layout, s, condition)?;
                let operand: Operand = as_condition(v, condition.span())?;
                s.issue(
                    Command::Branch { condition: operand, yes: then_block.0 as usize,
                        no: else_block.0 as usize },
                );
                Ok(())
            },
            MirTerminator::Return(value) => match value {
                None => {
                    if !self.return_type.same(&ResolvedType::Unit) {
                        return Err(fail_at("non-void function must return a value", span));
                    }
                    let ghost first = emission::told(m, s@, span);
                    self.tell(s, span);
                    assert(s@ == first);
                    s.issue(Command::Return { value: None });
                    Ok(())
                },
                Some(e) => {
                    if self.return_type.same(&ResolvedType::Unit) {
                        return Err(fail_at("void function cannot return a value", e.span()));
                    }
                    let ghost first = emission::told(m, s@, e@.span());
                    self.tell(s, e.span());
                    assert(s@ == first);
                    let v: Value = self.generate_expression(layout, s, e)?;
                    let given: Value = self.abi_pack(
                        layout,
                        s,
                        v,
                        self.function,
                        self.return_type,
                    )?;
                    s.issue(Command::Return { value: Some(given.operand) });
                    Ok(())
                },
            },
            MirTerminator::Unreachable => {
                s.issue(Command::Unreachable);
                Ok(())
            },
        }
    }

    /// One parameter, put into a local of its own.
    fn enter_parameter<L: Fn(LayoutAsk) -> Option<u64>>(
        &self,
        layout: &L,
        s: &mut Script,
        param: &TypedParameter,
        i: usize,
    ) -> (r: Result<(), CodegenError>)
        requires
            lays_out(*layout),
        ensures
            done_outcome(
                r,
                final(s)@,
                emission::parameter_entered(
                    self.around(layout_model(*layout)),
                    old(s)@,
                    param@,
                    i as int,
                ),
            ),
    {
        proof {
            reveal(emission::parameter_entered);
        }
        let given: LowType = self.abi_or_basic(layout, self.function, &param.ty)?;
        let v: Value = self.abi_unpack(
            layout,
            s,
            Value { operand: Operand::Parameter(i), ty: given },
            self.function,
            &param.ty,
            param.span,
        )?;
        let low: LowType = self.low(&param.ty)?;
        let pointer: Operand = s.result(
            Command::Alloca { ty: low.clone(), name: joined(param.name.clone(), ".addr") },
        );
        s.issue(Command::Store { pointer: pointer.clone(), value: v.operand });
        s.bind(param.id, pointer, low);
        Ok(())
    }

    /// Block `k`, with the deferred calls that are active in it.
    fn generate_mir_block<L: Fn(LayoutAsk) -> Option<u64>>(
        &self,
        layout: &L,
        s: &mut Script,
        f: &MirFunction,
        k: usize,
    ) -> (r: Result<(), CodegenError>)
        requires
            lays_out(*layout),
            k < f.blocks.len(),
        ensures
            done_outcome(
                r,
                final(s)@,
                emission::block_emitted(
                    self.around(layout_model(*layout)),
                    old(s)@,
                    f@,
                    k as int,
                ),
            ),
    {
        let block: &MirBlock = &f.blocks[k];
        assert(f@.blocks[k as int] == block@);
        let cleanup: Vec<MirCleanup> = f.cleanup_of(block.id);
        let here: Machine = self.with_cleanup(&cleanup);
        let ghost m = here.around(layout_model(*layout));
        assert(m == (Surroundings {
            cleanup: mir::active(f@, block@.id),
            ..self.around(layout_model(*layout))
        }));
        s.enter(k);
        let ghost all = instructions_view(block.instructions@);
        let ghost first = s@;
        for i in 0..block.instructions.len()
            invariant
                lays_out(*layout),
                m == here.around(layout_model(*layout)),
                m == (Surroundings {
                    cleanup: mir::active(f@, block@.id),
                    ..self.around(layout_model(*layout))
                }),
                k < f.blocks.len(),
                f@.blocks[k as int] == block@,
                first == emission::enter(old(s)@, k as int),
                all == instructions_view(block.instructions@),
                emission::all_performed(m, first, all, 0) == emission::all_performed(
                    m,
                    s@,
                    all,
                    i as int,
                ),
        {
            assert(all[i as int] == block.instructions@[i as int]@);
            here.generate_statement(layout, s, &block.instructions[i])?;
        }
        here.generate_end(layout, s, &block.terminator, f.span)
    }

    /// The commands that build the body of a function.
    fn generate_mir_function<L: Fn(LayoutAsk) -> Option<u64>>(
        &self,
        layout: &L,
        f: &MirFunction,
    ) -> (r: Result<Script, CodegenError>)
        requires
            lays_out(*layout),
        ensures
            match emission::function_emitted(self.around(layout_model(*layout)), f@) {
                Ok(s) => r matches Ok(script) && script@ == s && (mir::well_formed(f@)
                    ==> well_wired(s.commands)),
                Err(error) => r matches Err(e) && e@ == error,
            },
    {
        let ghost m = self.around(layout_model(*layout));
        let mut s: Script = Script {
            commands: Vec::new(),
            block: 0,
            locals: Vec::new(),
            variables: Vec::new(),
        };
        assert(s@.commands =~= Seq::empty());
        assert(s@.locals =~= Seq::empty());
        assert(s@.variables =~= Seq::empty());
        for k in 0..f.blocks.len()
            invariant
                s@ == (Emission {
                    commands: emission::appended(f@, k as int),
                    block: 0,
                    locals: Seq::empty(),
                    variables: Seq::empty(),
                }),
        {
            assert(f@.blocks[k as int] == f.blocks@[k as int]@);
            if f.blocks[k].id == f.entry {
                s.append("entry");
            } else {
                let count: String = decimal_text(f.blocks[k].id.0 as u128);
                s.issue(Command::Append { name: joined("mir.".to_owned(), count.as_str()) });
            }
        }
        match self.debug {
            Some((source, _)) => {
                tell_place(&mut s, source, f.span.start);
            },
            None => {},
        }
        s.enter(f.entry.0 as usize);
        let ghost first = s@;
        let ghost params = typed_parameters_view(f.params@);
        for i in 0..f.params.len()
            invariant
                lays_out(*layout),
                m == self.around(layout_model(*layout)),
                params == typed_parameters_view(f.params@),
                emission::entered(m, first, params, 0) == emission::entered(
                    m,
                    s@,
                    params,
                    i as int,
                ),
                emission::function_emitted(m, f@) == (match emission::entered(
                    m,
                    first,
                    params,
                    0,
                ) {
                    Err(error) => Err(error),
                    Ok(s2) => emission::blocks_emitted(m, s2, f@, 0),
                }),
        {
            assert(params[i as int] == f.params@[i as int]@);
            self.enter_parameter(layout, &mut s, &f.params[i], i)?;
        }
        let ghost second = s@;
        for k in 0..f.blocks.len()
            invariant
                lays_out(*layout),
                m == self.around(layout_model(*layout)),
                f@.blocks == blocks_view(f.blocks@),
                emission::function_emitted(m, f@) == emission::blocks_emitted(
                    m,
                    s@,
                    f@,
                    k as int,
                ),
        {
            self.generate_mir_block(layout, &mut s, f, k)?;
        }
        let count: usize = s.commands.len();
        proof {
            if mir::well_formed(f@) {
                lemma_functions_are_well_wired(m, f@);
                assert(s@.commands.len() == count);
            }
        }
        Ok(s)
    }
}

fn tell_place(s: &mut Script, source: &String, offset: usize)
    ensures
        final(s)@ == emission::place_told(old(s)@, source@, offset as int),
{
    s.issue(
        Command::Locate {
            line: source_line(source, offset),
            column: source_column(source, offset),
        },
    );
}

// ---------------------------------------------------------------------------
// Programs
// ---------------------------------------------------------------------------

/// The named struct types of a program.
pub fn declare_structs(p: &TypedProgram, pointer_width: u32) -> (r: Result<
    Vec<LowStruct>,
    CodegenError,
>)
    ensures
        match emission::structs_declared(p@.structs, pointer_width, 0, Seq::empty()) {
            Ok(structs) => r matches Ok(found) && low_structs_view(found@) == structs,
            Err(error) => r matches Err(e) && e@ == error,
        },
{
    let ghost all = p@.structs;
    let mut out: Vec<LowStruct> = Vec::new();
    assert(low_structs_view(out@) =~= Seq::empty());
    for i in 0..p.structs.len()
        invariant
            all == typed_structs_view(p.structs@),
            all == p@.structs,
            emission::structs_declared(all, pointer_width, 0, Seq::empty())
                == emission::structs_declared(
                all,
                pointer_width,
                i as int,
                low_structs_view(out@),
            ),
    {
        let s: &TypedStruct = &p.structs[i];
        assert(all[i as int] == s@);
        let fields: Vec<LowType> = field_types(&p.structs, pointer_width, &s.fields)?;
        out.push(LowStruct { id: s.id, name: s.name.clone(), fields });
    }
    Ok(out)
}

fn field_types(structs: &Vec<TypedStruct>, pointer_width: u32, fields: &Vec<TypedField>) -> (r:
    Result<Vec<LowType>, CodegenError>)
    ensures
        match emission::field_types(
            typed_structs_view(structs@),
            pointer_width,
            typed_fields_view(fields@),
            0,
            Seq::empty(),
        ) {
            Ok(types) => r matches Ok(found) && found@ == types,
            Err(error) => r matches Err(e) && e@ == error,
        },
{
    let ghost all = typed_fields_view(fields@);
    let ghost known = typed_structs_view(structs@);
    let mut out: Vec<LowType> = Vec::new();
    for i in 0..fields.len()
        invariant
            all == typed_fields_view(fields@),
            known == typed_structs_view(structs@),
            emission::field_types(known, pointer_width, all, 0, Seq::empty())
                == emission::field_types(known, pointer_width, all, i as int, out@),
    {
        assert(all[i as int] == fields@[i as int]@);
        let low: LowType = basic_type(structs, pointer_width, &fields[i].ty)?;
        out.push(low);
    }
    Ok(out)
}

pub open spec fn global_outcome(
    r: Result<LowGlobal, CodegenError>,
    wanted: Result<LowGlobalView, CodegenErrorView>,
) -> bool {
    match wanted {
        Ok(global) => r matches Ok(found) && found@ == global,
        Err(error) => r matches Err(e) && e@ == error,
    }
}

pub open spec fn function_outcome(
    r: Result<LowFunction, CodegenError>,
    wanted: Result<LowFunctionView, CodegenErrorView>,
) -> bool {
    match wanted {
        Ok(function) => r matches Ok(found) && found@ == function,
        Err(error) => r matches Err(e) && e@ == error,
    }
}

impl<'a> Machine<'a> {
    fn declare_global<L: Fn(LayoutAsk) -> Option<u64>>(
        &self,
        layout: &L,
        id: DefId,
        name: &String,
        ty: &ResolvedType,
        value: &TypedExpr,
    ) -> (r: Result<LowGlobal, CodegenError>)
        requires
            lays_out(*layout),
        ensures
            global_outcome(
                r,
                emission::global_declared(
                    self.around(layout_model(*layout)),
                    id,
                    name@,
                    *ty,
                    value@,
                ),
            ),
    {
        let low: LowType = self.low(ty)?;
        let initial: Constant = self.generate_constant(layout, value)?;
        let constant: bool = find_constant(&self.program.constants, id).is_some();
        Ok(LowGlobal { id, name: name.clone(), ty: low, value: initial, constant })
    }

    /// The globals and then the constants, with their initial values.
    fn declare_globals<L: Fn(LayoutAsk) -> Option<u64>>(&self, layout: &L) -> (r: Result<
        Vec<LowGlobal>,
        CodegenError,
    >)
        requires
            lays_out(*layout),
        ensures
            match emission::globals_declared(
                self.around(layout_model(*layout)),
                0,
                Seq::empty(),
            ) {
                Ok(globals) => r matches Ok(found) && low_globals_view(found@) == globals,
                Err(error) => r matches Err(e) && e@ == error,
            },
    {
        let ghost m = self.around(layout_model(*layout));
        let ghost goal = emission::globals_declared(m, 0, Seq::empty());
        let globals: &Vec<TypedGlobal> = &self.program.globals;
        let constants: &Vec<TypedConstant> = &self.program.constants;
        let mut out: Vec<LowGlobal> = Vec::new();
        assert(low_globals_view(out@) =~= Seq::empty());
        for i in 0..globals.len()
            invariant
                lays_out(*layout),
                m == self.around(layout_model(*layout)),
                m.globals == typed_globals_view(globals@),
                goal == emission::globals_declared(m, 0, Seq::empty()),
                goal == emission::globals_declared(m, i as int, low_globals_view(out@)),
        {
            let g: &TypedGlobal = &globals[i];
            assert(m.globals[i as int] == g@);
            out.push(self.declare_global(layout, g.id, &g.name, &g.ty, &g.value)?);
        }
        for i in 0..constants.len()
            invariant
                lays_out(*layout),
                m == self.around(layout_model(*layout)),
                m.constants == typed_constants_view(constants@),
                goal == emission::globals_declared(m, 0, Seq::empty()),
                goal == emission::constants_declared(m, i as int, low_globals_view(out@)),
        {
            let g: &TypedConstant = &constants[i];
            assert(m.constants[i as int] == g@);
            out.push(self.declare_global(layout, g.id, &g.name, &g.ty, &g.value)?);
        }
        Ok(out)
    }

    fn passed_types<L: Fn(LayoutAsk) -> Option<u64>>(
        &self,
        layout: &L,
        function: DefId,
        params: &Vec<TypedParameter>,
    ) -> (r: Result<Vec<LowType>, CodegenError>)
        requires
            lays_out(*layout),
        ensures
            match emission::passed_types(
                self.around(layout_model(*layout)),
                function,
                typed_parameters_view(params@),
                0,
                Seq::empty(),
            ) {
                Ok(types) => r matches Ok(found) && found@ == types,
                Err(error) => r matches Err(e) && e@ == error,
            },
    {
        let ghost m = self.around(layout_model(*layout));
        let ghost all = typed_parameters_view(params@);
        let mut out: Vec<LowType> = Vec::new();
        for i in 0..params.len()
            invariant
                lays_out(*layout),
                m == self.around(layout_model(*layout)),
                all == typed_parameters_view(params@),
                emission::passed_types(m, function, all, 0, Seq::empty())
                    == emission::passed_types(m, function, all, i as int, out@),
        {
            assert(all[i as int] == params@[i as int]@);
            let low: LowType = self.abi_or_basic(layout, function, &params[i].ty)?;
            out.push(low);
        }
        Ok(out)
    }

    fn declare_function<L: Fn(LayoutAsk) -> Option<u64>>(
        &self,
        layout: &L,
        f: &TypedFunction,
        before: &Vec<LowFunction>,
    ) -> (r: Result<LowFunction, CodegenError>)
        requires
            lays_out(*layout),
        ensures
            function_outcome(
                r,
                emission::function_declared(
                    self.around(layout_model(*layout)),
                    f@,
                    low_functions_view(before@),
                ),
            ),
    {
        let ghost m = self.around(layout_model(*layout));
        let params: Vec<LowType> = self.passed_types(layout, f.id, &f.params)?;
        let result: Option<LowType> = if f.return_type.same(&ResolvedType::Unit) {
            None
        } else {
            Some(self.abi_or_basic(layout, f.id, &f.return_type)?)
        };
        let symbol: String = match &f.link_name {
            Some(name) => name.clone(),
            None => f.name.clone(),
        };
        if has_symbol(before, &symbol) {
            return Err(
                CodegenError::at(
                    joined(
                        joined("function `".to_owned(), symbol.as_str()),
                        "` is declared more than once",
                    ),
                    f.span,
                ),
            );
        }
        let out: LowFunction = LowFunction {
            id: f.id,
            name: f.name.clone(),
            symbol,
            link_name: match &f.link_name {
                Some(name) => Some(name.clone()),
                None => None,
            },
            params,
            result,
            exported: f.exported,
            is_extern: f.is_extern,
            commands: Vec::new(),
            debug: None,
        };
        assert(out@.commands =~= Seq::empty());
        Ok(out)
    }

    /// How the functions are declared.
    fn declare_functions<L: Fn(LayoutAsk) -> Option<u64>>(&self, layout: &L) -> (r: Result<
        Vec<LowFunction>,
        CodegenError,
    >)
        requires
            lays_out(*layout),
        ensures
            match emission::functions_declared(
                self.around(layout_model(*layout)),
                0,
                Seq::empty(),
            ) {
                Ok(functions) => r matches Ok(found) && low_functions_view(found@) == functions
                    && found@.len() == self.program.functions@.len() && forall|i: int|
                    0 <= i < found@.len() ==> (#[trigger] found@[i])@.commands.len() == 0,
                Err(error) => r matches Err(e) && e@ == error,
            },
    {
        let ghost m = self.around(layout_model(*layout));
        let ghost goal = emission::functions_declared(m, 0, Seq::empty());
        let functions: &Vec<TypedFunction> = &self.program.functions;
        let mut out: Vec<LowFunction> = Vec::new();
        assert(low_functions_view(out@) =~= Seq::empty());
        for i in 0..functions.len()
            invariant
                lays_out(*layout),
                m == self.around(layout_model(*layout)),
                m.functions == typed_functions_view(functions@),
                out@.len() == i,
                forall|j: int| 0 <= j < i ==> (#[trigger] out@[j])@.commands.len() == 0,
                goal == emission::functions_declared(m, 0, Seq::empty()),
                goal == emission::functions_declared(m, i as int, low_functions_view(out@)),
        {
            assert(m.functions[i as int] == functions@[i as int]@);
            let f: LowFunction = self.declare_function(layout, &functions[i], &out)?;
            out.push(f);
        }
        Ok(out)
    }
}

fn has_symbol(functions: &Vec<LowFunction>, symbol: &String) -> (r: bool)
    ensures
        r == emission::has_symbol(low_functions_view(functions@), symbol@),
{
    let ghost all = low_functions_view(functions@);
    for i in 0..functions.len()
        invariant
            all == low_functions_view(functions@),
            forall|j: int| 0 <= j < i ==> (#[trigger] all[j]).symbol != symbol@,
    {
        assert(all[i as int] == functions@[i as int]@);
        if functions[i].symbol == *symbol {
            return true;
        }
    }
    false
}

/// What a debugger is told of the parameters.
fn parameter_variables(s: &Script, source: &String, params: &Vec<TypedParameter>) -> (r: Vec<
    DebugVariable,
>)
    ensures
        debug_variables_view(r@) == emission::parameter_variables(
            s@,
            source@,
            typed_parameters_view(params@),
            params@.len() as int,
        ),
{
    let ghost all = typed_parameters_view(params@);
    let mut out: Vec<DebugVariable> = Vec::new();
    assert(debug_variables_view(out@) =~= Seq::empty());
    for i in 0..params.len()
        invariant
            all == typed_parameters_view(params@),
            debug_variables_view(out@) == emission::parameter_variables(
                s@,
                source@,
                all,
                i as int,
            ),
    {
        let p: &TypedParameter = &params[i];
        assert(all[i as int] == p@);
        match s.local(p.id) {
            Some((pointer, low)) => {
                out.push(
                    DebugVariable {
                        name: p.name.clone(),
                        kind: show_type(&p.ty),
                        ty: low,
                        pointer,
                        line: source_line(source, p.span.start),
                    },
                );
            },
            None => {},
        }
    }
    out
}

pub open spec fn optional_text(text: Option<&String>) -> Option<Seq<char>> {
    match text {
        Some(text) => Some(text@),
        None => None,
    }
}

impl<'a> Machine<'a> {
    /// A function with its body.
    fn build_function<L: Fn(LayoutAsk) -> Option<u64>>(
        &self,
        layout: &L,
        source: Option<&'a String>,
        mir: &'a MirProgram,
        f: &'a TypedFunction,
        low: &LowFunction,
    ) -> (r: Result<LowFunction, CodegenError>)
        requires
            lays_out(*layout),
            self.cleanup@.len() == 0,
        ensures
            function_outcome(
                r,
                emission::function_built(
                    self.around(layout_model(*layout)),
                    optional_text(source),
                    mir@,
                    f@,
                    low@,
                ),
            ),
            (forall|i: int|
                0 <= i < mir@.functions.len() ==> mir::well_formed(#[trigger] mir@.functions[i]))
                && well_wired(low@.commands) ==> (r matches Ok(built) ==> well_wired(
                built@.commands,
            )),
    {
        let ghost all = self.around(layout_model(*layout));
        let mut out: LowFunction = low.clone();
        if f.is_extern {
            out.debug = match source {
                Some(text) => {
                    let told: DebugFunction = DebugFunction {
                        line: source_line(text, f.span.start),
                        column: source_column(text, f.span.start),
                        parameters: Vec::new(),
                        locals: Vec::new(),
                    };
                    assert(told@.parameters =~= Seq::empty());
                    assert(told@.locals =~= Seq::empty());
                    Some(told)
                },
                None => None,
            };
            return Ok(out);
        }
        let body: &MirFunction = match mir.function(f.id) {
            Some(body) => body,
            None => {
                return Err(fail("missing MIR function"));
            },
        };
        let inner: Machine = Machine {
            program: self.program,
            pointer_width: self.pointer_width,
            function: body.id,
            return_type: &body.return_type,
            cleanup: self.cleanup,
            debug: match source {
                Some(text) => Some((text, &f.body)),
                None => None,
            },
        };
        assert(inner.around(layout_model(*layout)) == (Surroundings {
            function: body@.id,
            return_type: body@.return_type,
            debug: match source {
                Some(text) => Some((text@, f@.body)),
                None => None,
            },
            ..all
        }));
        proof {
            lemma_function_is_one(mir@.functions, 0, f.id);
        }
        let s: Script = inner.generate_mir_function(layout, body)?;
        out.debug = match source {
            Some(text) => {
                let parameters: Vec<DebugVariable> = parameter_variables(&s, text, &f.params);
                Some(
                    DebugFunction {
                        line: source_line(text, f.span.start),
                        column: source_column(text, f.span.start),
                        parameters,
                        locals: s.variables,
                    },
                )
            },
            None => None,
        };
        out.commands = s.commands;
        Ok(out)
    }
}

proof fn lemma_function_is_one(functions: Seq<MirFunctionView>, i: int, id: DefId)
    requires
        0 <= i,
    ensures
        mir::function_by_id(functions, i, id) matches Some(f) ==> exists|k: int|
            i <= k < functions.len() && #[trigger] functions[k] == f,
    decreases functions.len() - i,
{
    if i < functions.len() && functions[i].id != id {
        lemma_function_is_one(functions, i + 1, id);
    }
}

/// What a debugger is told: the name of the source file, whether the code is
/// optimized, and the source text.
#[derive(Debug)]
pub struct DebugSource {
    pub filename: String,
    pub optimized: bool,
    pub source: String,
}

/// Generates the module of a program.
#[derive(Debug)]
pub struct CodeGenerator {
    name: String,
    pointer_width: u32,
    debug: Option<DebugSource>,
}

impl CodeGenerator {
    /// The name of the module.
    pub closed spec fn name(&self) -> Seq<char> {
        self.name@
    }

    pub closed spec fn pointer_width(&self) -> u32 {
        self.pointer_width
    }

    /// The source text that a debugger is told of, if it is told of one.
    pub closed spec fn source(&self) -> Option<Seq<char>> {
        match self.debug {
            Some(debug) => Some(debug.source@),
            None => None,
        }
    }

    pub closed spec fn debugs(&self) -> Option<(Seq<char>, bool)> {
        match self.debug {
            Some(debug) => Some((debug.filename@, debug.optimized)),
            None => None,
        }
    }

    /// A generator for the machine at hand.
    pub fn new(name: &str) -> (r: Self)
        ensures
            r.name() == name@,
            r.pointer_width() == usize::BITS,
            r.source() is None,
            r.debugs() is None,
    {
        CodeGenerator::with_pointer_width(name, usize::BITS)
    }

    /// A generator for a machine whose pointers have so many bits.
    pub fn with_pointer_width(name: &str, pointer_width: u32) -> (r: Self)
        ensures
            r.name() == name@,
            r.pointer_width() == pointer_width,
            r.source() is None,
            r.debugs() is None,
    {
        CodeGenerator { name: name.to_owned(), pointer_width, debug: None }
    }

    /// The same generator, telling a debugger of a file whose text is not at
    /// hand.
    pub fn with_debug_info(self, filename: &str, optimized: bool) -> (r: Self)
        ensures
            r.name() == self.name(),
            r.pointer_width() == self.pointer_width(),
            r.source() == Some(Seq::<char>::empty()),
            r.debugs() == Some((filename@, optimized)),
    {
        let source: String = String::new();
        assert(source@ =~= Seq::empty());
        CodeGenerator {
            name: self.name,
            pointer_width: self.pointer_width,
            debug: Some(DebugSource { filename: filename.to_owned(), optimized, source }),
        }
    }

    /// The same generator, telling a debugger of a file.
    pub fn with_debug_info_source(self, filename: &str, source: &str, optimized: bool) -> (r: Self)
        ensures
            r.name() == self.name(),
            r.pointer_width() == self.pointer_width(),
            r.source() == Some(source@),
            r.debugs() == Some((filename@, optimized)),
    {
        CodeGenerator {
            name: self.name,
            pointer_width: self.pointer_width,
            debug: Some(
                DebugSource {
                    filename: filename.to_owned(),
                    optimized,
                    source: source.to_owned(),
                },
            ),
        }
    }

    /// Analyzes a program and generates its module.
    pub fn generate<L: Fn(LayoutAsk) -> Option<u64>, F: Fn(FloatOp, String, String) -> FloatAnswer>(
        &self,
        p: &Program,
        layout: &L,
        floats: &F,
    ) -> (r: Result<LowModule, CodegenError>)
        requires
            lays_out(*layout),
            answers(*floats),
        ensures
            match typing::lowered_program(
                float_model(*floats),
                typing::context_of(p@, Seq::empty()),
            ) {
                Err(error) => r matches Err(e) && e@ == emission::failure(
                    "semantic error: "@ + error.message(),
                ),
                Ok(typed) => module_outcome(
                    r,
                    module_built(
                        typed,
                        self.name(),
                        self.pointer_width(),
                        self.source(),
                        layout_model(*layout),
                    ),
                ),
            },
    {
        match semantic::analyze_typed_with_pointer_width(p, self.pointer_width, floats) {
            Ok(typed) => self.generate_typed(&typed, layout),
            Err(error) => {
                let text: String = error.to_string();
                Err(CodegenError::new(joined("semantic error: ".to_owned(), text.as_str())))
            },
        }
    }

    /// Generates the module of a typed program.
    pub fn generate_typed<L: Fn(LayoutAsk) -> Option<u64>>(
        &self,
        p: &TypedProgram,
        layout: &L,
    ) -> (r: Result<LowModule, CodegenError>)
        requires
            lays_out(*layout),
        ensures
            module_outcome(
                r,
                module_built(
                    p@,
                    self.name(),
                    self.pointer_width(),
                    self.source(),
                    layout_model(*layout),
                ),
            ),
            r matches Ok(module) ==> forall|i: int|
                0 <= i < module@.functions.len() ==> well_wired(
                    (#[trigger] module@.functions[i]).commands,
                ),
    {
        let mir: MirProgram = match MirProgram::lower(p) {
            Ok(mir) => mir,
            Err(error) => {
                return Err(CodegenError::at(error.to_string(), error.span()));
            },
        };
        let cleanup: Vec<MirCleanup> = Vec::new();
        let unit: ResolvedType = ResolvedType::Unit;
        let machine: Machine = Machine {
            program: p,
            pointer_width: self.pointer_width,
            function: DefId(u32::MAX),
            return_type: &unit,
            cleanup: &cleanup,
            debug: None,
        };
        let ghost m = machine.around(layout_model(*layout));
        assert(cleanups_view(cleanup@) =~= Seq::empty());
        assert(m == emission::surroundings_of(p@, self.pointer_width, layout_model(*layout)));
        let structs: Vec<LowStruct> = declare_structs(p, self.pointer_width)?;
        let globals: Vec<LowGlobal> = machine.declare_globals(layout)?;
        let lows: Vec<LowFunction> = machine.declare_functions(layout)?;
        let source: Option<&String> = match &self.debug {
            Some(debug) => Some(&debug.source),
            None => None,
        };
        let ghost text = optional_text(source);
        let ghost declared = low_functions_view(lows@);
        let ghost goal = emission::functions_built(m, text, mir@, declared, 0, Seq::empty());
        let mut functions: Vec<LowFunction> = Vec::new();
        assert(low_functions_view(functions@) =~= Seq::empty());
        for i in 0..p.functions.len()
            invariant
                lays_out(*layout),
                m == machine.around(layout_model(*layout)),
                machine.cleanup@.len() == 0,
                m.functions == typed_functions_view(p.functions@),
                declared == low_functions_view(lows@),
                lows@.len() == p.functions@.len(),
                forall|j: int| 0 <= j < lows@.len() ==> (#[trigger] lows@[j])@.commands.len() == 0,
                forall|j: int|
                    0 <= j < mir@.functions.len() ==> mir::well_formed(
                        #[trigger] mir@.functions[j],
                    ),
                forall|j: int|
                    0 <= j < functions@.len() ==> well_wired((#[trigger] functions@[j])@.commands),
                text == optional_text(source),
                goal == emission::functions_built(m, text, mir@, declared, 0, Seq::empty()),
                goal == emission::functions_built(
                    m,
                    text,
                    mir@,
                    declared,
                    i as int,
                    low_functions_view(functions@),
                ),
                module_built(
                    p@,
                    self.name(),
                    self.pointer_width(),
                    self.source(),
                    layout_model(*layout),
                ) == (match goal {
                    Err(error) => Err::<LowModuleView, CodegenErrorView>(error),
                    Ok(functions) => Ok(
                        LowModuleView {
                            name: self.name@,
                            pointer_width: self.pointer_width,
                            structs: low_structs_view(structs@),
                            globals: low_globals_view(globals@),
                            functions,
                        },
                    ),
                }),
        {
            assert(m.functions[i as int] == p.functions@[i as int]@);
            assert(declared[i as int] == lows@[i as int]@);
            let f: LowFunction = machine.build_function(
                layout,
                source,
                &mir,
                &p.functions[i],
                &lows[i],
            )?;
            functions.push(f);
        }
        let module: LowModule = LowModule {
            name: self.name.clone(),
            pointer_width: self.pointer_width,
            structs,
            globals,
            functions,
        };
        proof {
            assert forall|i: int| 0 <= i < module@.functions.len() implies well_wired(
                (#[trigger] module@.functions[i]).commands,
            ) by {
                assert(module@.functions[i] == module.functions@[i]@);
            }
        }
        Ok(module)
    }
}

pub open spec fn module_outcome(
    r: Result<LowModule, CodegenError>,
    wanted: Result<LowModuleView, CodegenErrorView>,
) -> bool {
    match wanted {
        Ok(module) => r matches Ok(found) && found@ == module,
        Err(error) => r matches Err(e) && e@ == error,
    }
}

} // verus!
