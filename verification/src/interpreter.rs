//! A small interpreter for typed programs.
//!
//! It needs no native code generator and is meant for tests and quick
//! experiments. What would need an address or a foreign symbol is refused.
use crate::ast::{BinaryOp, UnaryOp};
use crate::execution;
use crate::execution::{
    Evaluated, Heap, Layout, Locals, Ran, Stepped, StopView, World, MAX_CALL_DEPTH, MAX_STEPS,
};
use crate::floats::{answers, float_model, FloatAnswer, FloatOp};
use crate::integers::{hold, lemma_held_in_range, lemma_next_multiple};
use crate::mir::{
    active, cleanups_view, BlockId, MirBlock, MirCleanup, MirFunction, MirInstruction, MirProgram,
    MirTerminator,
};
use crate::ops;
use crate::semantic::main_from;
use crate::text::{decimal_text, joined, text_is};
use crate::typed::{
    typed_exprs_view, typed_fields_view, typed_parameters_view, typed_structs_view, DefId,
    FunctionId, IntegerWidth, LayoutKind, LowLevelOperation, ResolvedType, TypedConstant, TypedExpr,
    TypedField, TypedFunction, TypedGlobal, TypedParameter, TypedPlace, TypedProgram, TypedStruct,
};
use std::collections::HashMap;
use vstd::prelude::*;

verus! {

broadcast use vstd::std_specs::hash::group_hash_axioms;

/// A value at run time. A floating-point number is held as a numeral.
#[allow(inconsistent_fields)]
#[derive(Debug, PartialEq, Eq)]
pub enum Value {
    Unit,
    Bool(bool),
    Int(i128),
    Float(String),
    Struct(Vec<Value>),
    Array(Vec<Value>),
    Result { error: bool, value: Box<Value> },
}

/// What a `Value` holds.
#[allow(inconsistent_fields)]
pub ghost enum ValueView {
    Unit,
    Bool(bool),
    Int(i128),
    Float(Seq<char>),
    Struct(Seq<ValueView>),
    Array(Seq<ValueView>),
    Result { error: bool, value: Box<ValueView> },
}

impl Value {
    pub open spec fn view(&self) -> ValueView
        decreases self,
    {
        match self {
            Value::Unit => ValueView::Unit,
            Value::Bool(inner) => ValueView::Bool(*inner),
            Value::Int(inner) => ValueView::Int(*inner),
            Value::Float(inner) => ValueView::Float(inner@),
            Value::Struct(inner) => ValueView::Struct(values_view(inner@)),
            Value::Array(inner) => ValueView::Array(values_view(inner@)),
            Value::Result { error, value } => ValueView::Result {
                error: *error,
                value: Box::new(value.view()),
            },
        }
    }
}

impl Clone for Value {
    fn clone(&self) -> (r: Self)
        ensures
            r@ == self@,
        decreases self,
    {
        match self {
            Value::Unit => Value::Unit,
            Value::Bool(inner) => Value::Bool(*inner),
            Value::Int(inner) => Value::Int(*inner),
            Value::Float(inner) => Value::Float(inner.clone()),
            Value::Struct(inner) => Value::Struct(values_clone(inner)),
            Value::Array(inner) => Value::Array(values_clone(inner)),
            Value::Result { error, value } => Value::Result {
                error: *error,
                value: Box::new((**value).clone()),
            },
        }
    }
}

/// What a list of `Value` holds.
pub open spec fn values_view(s: Seq<Value>) -> Seq<ValueView>
    decreases s,
{
    Seq::new(
        s.len(),
        |i: int|
            if 0 <= i < s.len() {
                s[i].view()
            } else {
                arbitrary()
            },
    )
}

pub broadcast proof fn lemma_values_push(s: Seq<Value>, x: Value)
    ensures
        #[trigger] values_view(s.push(x)) == values_view(s).push(x@),
{
    assert(values_view(s.push(x)) =~= values_view(s).push(x@));
}

pub fn values_clone(v: &Vec<Value>) -> (r: Vec<Value>)
    ensures
        values_view(r@) == values_view(v@),
    decreases v,
{
    let mut out: Vec<Value> = Vec::new();
    for i in 0..v.len()
        invariant
            out.len() == i,
            forall|j: int| 0 <= j < i ==> (#[trigger] out@[j])@ == v@[j]@,
    {
        out.push(v[i].clone());
    }
    assert(values_view(out@) =~= values_view(v@));
    out
}

/// Why a run failed.
#[derive(Debug, PartialEq, Eq)]
pub struct Error(pub String);

impl Error {
    pub open spec fn view(&self) -> Seq<char> {
        self.0@
    }

    pub fn to_string(&self) -> (r: String)
        ensures
            r@ == self@,
    {
        self.0.clone()
    }
}

fn failure(message: &str) -> (r: Error)
    ensures
        r@ == message@,
{
    Error(message.to_owned())
}

/// What a table of values holds.
pub open spec fn table(m: Map<u32, Value>) -> Locals {
    m.map_values(|v: Value| v@)
}

proof fn lemma_table_insert(m: Map<u32, Value>, k: u32, v: Value)
    ensures
        table(m.insert(k, v)) == table(m).insert(k, v@),
{
    assert(table(m.insert(k, v)) =~= table(m).insert(k, v@));
}

fn table_get(m: &HashMap<u32, Value>, k: u32) -> (r: Option<Value>)
    ensures
        match r {
            Some(v) => table(m@).dom().contains(k) && v@ == table(m@)[k],
            None => !table(m@).dom().contains(k),
        },
{
    match m.get(&k) {
        Some(v) => Some(v.clone()),
        None => None,
    }
}

fn table_insert(m: &mut HashMap<u32, Value>, k: u32, v: Value)
    ensures
        table(final(m)@) == table(old(m)@).insert(k, v@),
{
    proof {
        lemma_table_insert(m@, k, v);
    }
    m.insert(k, v);
}

/// What outlives a call.
struct Memory {
    globals: HashMap<u32, Value>,
    steps: u64,
}

impl Memory {
    spec fn view(&self) -> Heap {
        Heap { globals: table(self.globals@), steps: self.steps }
    }
}

/// What is run, and on what machine.
struct Machine<'a, F: Fn(FloatOp, String, String) -> FloatAnswer> {
    program: &'a TypedProgram,
    mir: &'a MirProgram,
    pointer_bits: u32,
    floats: &'a F,
}

/// Why an evaluation stops: it fails, or `?` meets an error that leaves the
/// function.
enum Stop {
    Failed(Error),
    Left(Value),
}

/// What stopped, given what was left behind.
spec fn stop_view(stop: Stop, heap: Heap) -> StopView {
    match stop {
        Stop::Failed(error) => StopView::Failed(error@),
        Stop::Left(value) => StopView::Left(value@, heap),
    }
}

spec fn ran(r: Result<Value, Error>, heap: Heap) -> Ran {
    match r {
        Ok(value) => Ok((value@, heap)),
        Err(error) => Err(error@),
    }
}

/// The error that leaves a function.
fn hand_on(f: &MirFunction, value: Value) -> (r: Result<Value, Error>)
    ensures
        forall|heap: Heap| #[trigger]
            ran(r, heap) == execution::handed_on(f@, Ok((value@, heap))),
{
    match f.return_type {
        ResolvedType::Result { .. } => Ok(value),
        _ => Err(
            Error(joined(joined("an error left function `".to_owned(), f.name.as_str()), "`")),
        ),
    }
}

spec fn evaluation(r: Result<Value, Stop>, heap: Heap) -> Evaluated {
    match r {
        Ok(value) => Ok((value@, heap)),
        Err(stop) => Err(stop_view(stop, heap)),
    }
}

fn stop<T>(message: &str) -> (r: Result<T, Stop>)
    ensures
        r matches Err(Stop::Failed(error)) && error@ == message@,
{
    Err(Stop::Failed(failure(message)))
}

/// A failure as what stops an evaluation.
fn stopping<T>(r: Result<T, Error>) -> (s: Result<T, Stop>)
    ensures
        match r {
            Ok(x) => s == Ok::<T, Stop>(x),
            Err(error) => s == Err::<T, Stop>(Stop::Failed(error)),
        },
{
    match r {
        Ok(x) => Ok(x),
        Err(error) => Err(Stop::Failed(error)),
    }
}

/// What stops an evaluation where there is no function to leave.
fn failing<T>(r: Result<T, Stop>) -> (s: Result<T, Error>)
    ensures
        match r {
            Ok(x) => s == Ok::<T, Error>(x),
            Err(stop) => s matches Err(error) && forall|heap: Heap|
                error@ == execution::message_of(#[trigger] stop_view(stop, heap)),
        },
{
    match r {
        Ok(x) => Ok(x),
        Err(Stop::Failed(error)) => Err(error),
        Err(Stop::Left(_)) => Err(failure("propagation has no function to leave")),
    }
}

/// Runs a program on a machine whose pointers are as wide as this one's.
pub fn run<F: Fn(FloatOp, String, String) -> FloatAnswer>(program: &TypedProgram, floats: &F) -> (r:
    Result<i32, Error>)
    requires
        answers(*floats),
    ensures
        match r {
            Ok(code) => execution::program_run(
                float_model(*floats),
                program@,
                usize::BITS,
            ) == Ok::<i32, Seq<char>>(code),
            Err(error) => execution::program_run(
                float_model(*floats),
                program@,
                usize::BITS,
            ) == Err::<i32, Seq<char>>(error@),
        },
{
    run_with_pointer_width(program, usize::BITS, floats)
}

/// Runs a program: its exit code, or why it failed.
pub fn run_with_pointer_width<F: Fn(FloatOp, String, String) -> FloatAnswer>(
    program: &TypedProgram,
    pointer_bits: u32,
    floats: &F,
) -> (r: Result<i32, Error>)
    requires
        answers(*floats),
    ensures
        match r {
            Ok(code) => execution::program_run(
                float_model(*floats),
                program@,
                pointer_bits,
            ) == Ok::<i32, Seq<char>>(code),
            Err(error) => execution::program_run(
                float_model(*floats),
                program@,
                pointer_bits,
            ) == Err::<i32, Seq<char>>(error@),
        },
{
    let mir: MirProgram = match MirProgram::lower(program) {
        Ok(mir) => mir,
        Err(error) => {
            let text: String = error.to_string();
            return Err(Error(joined("MIR lowering failed: ".to_owned(), text.as_str())));
        },
    };
    let machine: Machine<F> = Machine { program, mir: &mir, pointer_bits, floats };
    let mut memory: Memory = Memory { globals: HashMap::new(), steps: 0 };
    assert(table(memory.globals@) =~= Map::empty());
    machine.start_globals(&mut memory)?;
    machine.start_constants(&mut memory)?;
    machine.run_main(&mut memory)
}

impl<'a, F: Fn(FloatOp, String, String) -> FloatAnswer> Machine<'a, F> {
    spec fn world(&self) -> World {
        World {
            program: self.program@,
            mir: self.mir@,
            pointer_bits: self.pointer_bits,
            floats: float_model(*self.floats),
        }
    }

    spec fn wf(&self) -> bool {
        answers(*self.floats)
    }

    fn start_globals(&self, memory: &mut Memory) -> (r: Result<(), Error>)
        requires
            self.wf(),
        ensures
            match r {
                Ok(()) => execution::globals_started(
                    self.world(),
                    old(memory)@,
                    self.program@.globals,
                    0,
                ) == Ok::<Heap, Seq<char>>(final(memory)@),
                Err(error) => execution::globals_started(
                    self.world(),
                    old(memory)@,
                    self.program@.globals,
                    0,
                ) == Err::<Heap, Seq<char>>(error@),
            },
    {
        let ghost w = self.world();
        let ghost start = memory@;
        let ghost all = self.program@.globals;
        let none: HashMap<u32, Value> = HashMap::new();
        assert(table(none@) =~= Map::empty());
        for i in 0..self.program.globals.len()
            invariant
                self.wf(),
                w == self.world(),
                start == old(memory)@,
                all == self.program@.globals,
                table(none@) == Map::<u32, ValueView>::empty(),
                execution::globals_started(w, start, all, 0) == execution::globals_started(
                    w,
                    memory@,
                    all,
                    i as int,
                ),
        {
            assert(all[i as int] == self.program.globals@[i as int]@);
            let global: &TypedGlobal = &self.program.globals[i];
            let value: Value = failing(
                self.eval_expr(memory, &none, &global.value, MAX_CALL_DEPTH),
            )?;
            table_insert(&mut memory.globals, global.id.0, value);
        }
        Ok(())
    }

    fn start_constants(&self, memory: &mut Memory) -> (r: Result<(), Error>)
        requires
            self.wf(),
        ensures
            match r {
                Ok(()) => execution::constants_started(
                    self.world(),
                    old(memory)@,
                    self.program@.constants,
                    0,
                ) == Ok::<Heap, Seq<char>>(final(memory)@),
                Err(error) => execution::constants_started(
                    self.world(),
                    old(memory)@,
                    self.program@.constants,
                    0,
                ) == Err::<Heap, Seq<char>>(error@),
            },
    {
        let ghost w = self.world();
        let ghost start = memory@;
        let ghost all = self.program@.constants;
        let none: HashMap<u32, Value> = HashMap::new();
        assert(table(none@) =~= Map::empty());
        for i in 0..self.program.constants.len()
            invariant
                self.wf(),
                w == self.world(),
                start == old(memory)@,
                all == self.program@.constants,
                table(none@) == Map::<u32, ValueView>::empty(),
                execution::constants_started(w, start, all, 0) == execution::constants_started(
                    w,
                    memory@,
                    all,
                    i as int,
                ),
        {
            assert(all[i as int] == self.program.constants@[i as int]@);
            let constant: &TypedConstant = &self.program.constants[i];
            let value: Value = failing(
                self.eval_expr(memory, &none, &constant.value, MAX_CALL_DEPTH),
            )?;
            table_insert(&mut memory.globals, constant.id.0, value);
        }
        Ok(())
    }

    fn run_main(&self, memory: &mut Memory) -> (r: Result<i32, Error>)
        requires
            self.wf(),
        ensures
            match r {
                Ok(code) => execution::main_run(self.world(), old(memory)@) == Ok::<
                    i32,
                    Seq<char>,
                >(code),
                Err(error) => execution::main_run(self.world(), old(memory)@) == Err::<
                    i32,
                    Seq<char>,
                >(error@),
            },
    {
        let ghost all = self.program@.functions;
        let ghost start = memory@;
        for i in 0..self.program.functions.len()
            invariant
                self.wf(),
                *memory == *old(memory),
                all == self.program@.functions,
                main_from(all, 0) == main_from(all, i as int),
        {
            let f: &TypedFunction = &self.program.functions[i];
            assert(all[i as int] == f@);
            if text_is(&f.name, "main") && !f.is_extern {
                let none: Vec<Value> = Vec::new();
                assert(values_view(none@) =~= Seq::empty());
                return match self.call_mir(memory, f.id, none, MAX_CALL_DEPTH)? {
                    Value::Unit => Ok(0),
                    Value::Int(n) => {
                        proof {
                            vstd::arithmetic::power2::lemma2_to64();
                            lemma_held_in_range(n as int, 32, true);
                        }
                        Ok(hold(n, 32, true) as i32)
                    },
                    _ => Err(failure("main must return an integer or void")),
                };
            }
        }
        Err(failure("interpreter requires a source `main` function"))
    }

    // -----------------------------------------------------------------------
    // Calls
    // -----------------------------------------------------------------------

    fn function(&self, id: FunctionId) -> (r: Option<&TypedFunction>)
        ensures
            match r {
                Some(f) => execution::typed_function_by_id(self.program@.functions, 0, id) == Some(
                    f@,
                ),
                None => execution::typed_function_by_id(self.program@.functions, 0, id) is None,
            },
    {
        let ghost all = self.program@.functions;
        for i in 0..self.program.functions.len()
            invariant
                all == self.program@.functions,
                execution::typed_function_by_id(all, 0, id) == execution::typed_function_by_id(
                    all,
                    i as int,
                    id,
                ),
        {
            assert(all[i as int] == self.program.functions@[i as int]@);
            if self.program.functions[i].id == id {
                return Some(&self.program.functions[i]);
            }
        }
        None
    }

    fn call_mir(&self, memory: &mut Memory, id: FunctionId, args: Vec<Value>, depth: u64) -> (r:
        Result<Value, Error>)
        requires
            self.wf(),
        ensures
            ran(r, final(memory)@) == execution::called(
                self.world(),
                old(memory)@,
                id,
                values_view(args@),
                depth as nat,
            ),
        decreases depth, 0int, 0int, args, 0int,
    {
        if depth == 0 {
            return Err(failure("interpreter call-depth limit exceeded"));
        }
        let typed: &TypedFunction = match self.function(id) {
            Some(typed) => typed,
            None => {
                let name: String = id.to_string();
                return Err(Error(joined("unknown function id ".to_owned(), name.as_str())));
            },
        };
        if typed.is_extern {
            return Err(
                Error(
                    joined(
                        joined(
                            "interpreter does not support foreign function `".to_owned(),
                            typed.name.as_str(),
                        ),
                        "`",
                    ),
                ),
            );
        }
        let f: &MirFunction = match self.mir.function(id) {
            Some(f) => f,
            None => {
                let name: String = id.to_string();
                return Err(Error(joined("unknown MIR function id ".to_owned(), name.as_str())));
            },
        };
        assert(values_view(args@).len() == args@.len());
        assert(typed_parameters_view(f.params@).len() == f.params@.len());
        if f.params.len() != args.len() {
            return Err(
                Error(
                    joined(
                        joined(
                            "wrong number of arguments to `".to_owned(),
                            typed.name.as_str(),
                        ),
                        "`",
                    ),
                ),
            );
        }
        let mut env: HashMap<u32, Value> = bind(&f.params, &args);
        self.run_blocks(memory, &mut env, f, f.entry, depth - 1)
    }

    fn run_blocks(
        &self,
        memory: &mut Memory,
        env: &mut HashMap<u32, Value>,
        f: &MirFunction,
        entry: BlockId,
        depth: u64,
    ) -> (r: Result<Value, Error>)
        requires
            self.wf(),
        ensures
            ran(r, final(memory)@) == execution::blocks_run(
                self.world(),
                old(memory)@,
                table(old(env)@),
                f@,
                entry,
                depth as nat,
                (MAX_STEPS + 1) as nat,
            ),
        decreases depth, 4int, 0int, f, 0int,
    {
        let ghost w = self.world();
        let ghost start = memory@;
        let ghost first = table(env@);
        let mut at: BlockId = entry;
        let mut rounds: u64 = MAX_STEPS + 1;
        loop
            invariant
                self.wf(),
                w == self.world(),
                start == old(memory)@,
                first == table(old(env)@),
                execution::blocks_run(
                    w,
                    start,
                    first,
                    f@,
                    entry,
                    depth as nat,
                    (MAX_STEPS + 1) as nat,
                ) == execution::blocks_run(
                    w,
                    memory@,
                    table(env@),
                    f@,
                    at,
                    depth as nat,
                    rounds as nat,
                ),
            decreases rounds,
        {
            if memory.steps >= MAX_STEPS || rounds == 0 {
                return Err(failure("interpreter execution step limit exceeded"));
            }
            rounds = rounds - 1;
            memory.steps = memory.steps + 1;
            let block: &MirBlock = match find_block(f, at) {
                Some(block) => block,
                None => {
                    let number: String = decimal_text(at.0 as u128);
                    return Err(Error(joined("unknown MIR block ".to_owned(), number.as_str())));
                },
            };
            match self.run_steps(memory, env, f, block, depth)? {
                Some(value) => {
                    return hand_on(f, value);
                },
                None => {},
            }
            match &block.terminator {
                MirTerminator::Jump(target) => {
                    at = *target;
                },
                MirTerminator::Branch { condition, then_block, else_block, .. } => {
                    let value: Value = match self.eval_expr(memory, env, condition, depth) {
                        Ok(value) => value,
                        Err(stop) => {
                            let left: Value = self.stop_block(
                                memory,
                                env,
                                f,
                                block.id,
                                stop,
                                depth,
                            )?;
                            return hand_on(f, left);
                        },
                    };
                    at = if truth(&value)? {
                        *then_block
                    } else {
                        *else_block
                    };
                },
                MirTerminator::Return(value) => {
                    return match value {
                        Some(e) => match self.eval_expr(memory, env, e, depth) {
                            Ok(value) => Ok(value),
                            Err(stop) => {
                                let left: Value = self.stop_block(
                                    memory,
                                    env,
                                    f,
                                    block.id,
                                    stop,
                                    depth,
                                )?;
                                hand_on(f, left)
                            },
                        },
                        None => Ok(Value::Unit),
                    };
                },
                MirTerminator::Unreachable => {
                    return Err(failure("reached MIR unreachable terminator"));
                },
            }
        }
    }

    /// Runs the steps of a block; gives the error that leaves the function,
    /// if one does.
    fn run_steps(
        &self,
        memory: &mut Memory,
        env: &mut HashMap<u32, Value>,
        f: &MirFunction,
        block: &MirBlock,
        depth: u64,
    ) -> (r: Result<Option<Value>, Error>)
        requires
            self.wf(),
        ensures
            match r {
                Ok(None) => execution::steps_run(
                    self.world(),
                    old(memory)@,
                    table(old(env)@),
                    active(f@, block@.id),
                    block@.instructions,
                    0,
                    depth as nat,
                ) == Ok::<Stepped, Seq<char>>(Stepped::Done(final(memory)@, table(final(env)@))),
                Ok(Some(value)) => execution::steps_run(
                    self.world(),
                    old(memory)@,
                    table(old(env)@),
                    active(f@, block@.id),
                    block@.instructions,
                    0,
                    depth as nat,
                ) == Ok::<Stepped, Seq<char>>(Stepped::Left(value@, final(memory)@)),
                Err(error) => execution::steps_run(
                    self.world(),
                    old(memory)@,
                    table(old(env)@),
                    active(f@, block@.id),
                    block@.instructions,
                    0,
                    depth as nat,
                ) == Err::<Stepped, Seq<char>>(error@),
            },
        decreases depth, 3int, 0int, f, 0int,
    {
        let ghost w = self.world();
        let ghost start = memory@;
        let ghost first = table(env@);
        let ghost cleanup = active(f@, block@.id);
        let ghost steps = block@.instructions;
        for i in 0..block.instructions.len()
            invariant
                self.wf(),
                w == self.world(),
                start == old(memory)@,
                first == table(old(env)@),
                cleanup == active(f@, block@.id),
                steps == block@.instructions,
                execution::steps_run(w, start, first, cleanup, steps, 0, depth as nat)
                    == execution::steps_run(
                    w,
                    memory@,
                    table(env@),
                    cleanup,
                    steps,
                    i as int,
                    depth as nat,
                ),
        {
            assert(steps[i as int] == block.instructions@[i as int]@);
            match &block.instructions[i] {
                MirInstruction::Declare { id, value, .. } => {
                    match self.eval_expr(memory, env, value, depth) {
                        Ok(found) => {
                            table_insert(env, id.0, found);
                        },
                        Err(stop) => {
                            let left: Value = self.stop_block(
                                memory,
                                env,
                                f,
                                block.id,
                                stop,
                                depth,
                            )?;
                            return Ok(Some(left));
                        },
                    }
                },
                MirInstruction::Store { target, value, .. } => {
                    let done: Result<(), Stop> = match self.eval_expr(memory, env, value, depth) {
                        Ok(found) => self.store(memory, env, target, found, depth),
                        Err(stop) => Err(stop),
                    };
                    match done {
                        Ok(()) => {},
                        Err(stop) => {
                            let left: Value = self.stop_block(
                                memory,
                                env,
                                f,
                                block.id,
                                stop,
                                depth,
                            )?;
                            return Ok(Some(left));
                        },
                    }
                },
                MirInstruction::Expr { expression, .. } => {
                    match self.eval_expr(memory, env, expression, depth) {
                        Ok(_) => {},
                        Err(stop) => {
                            let left: Value = self.stop_block(
                                memory,
                                env,
                                f,
                                block.id,
                                stop,
                                depth,
                            )?;
                            return Ok(Some(left));
                        },
                    }
                },
                MirInstruction::RunCleanup { actions } => {
                    self.run_cleanup(memory, env, actions, depth)?;
                },
            }
        }
        Ok(None)
    }

    /// What becomes of an evaluation that stops in a block: an error leaves the
    /// function once what is deferred there has run.
    fn stop_block(
        &self,
        memory: &mut Memory,
        env: &HashMap<u32, Value>,
        f: &MirFunction,
        id: BlockId,
        stop: Stop,
        depth: u64,
    ) -> (r: Result<Value, Error>)
        requires
            self.wf(),
        ensures
            ran(r, final(memory)@) == execution::stopped(
                self.world(),
                stop_view(stop, old(memory)@),
                table(env@),
                active(f@, id),
                depth as nat,
            ),
        decreases depth, 2int, 1int, f, 0int,
    {
        match stop {
            Stop::Failed(error) => Err(error),
            Stop::Left(value) => {
                let actions: Vec<MirCleanup> = f.cleanup_of(id);
                self.run_cleanup(memory, env, &actions, depth)?;
                Ok(value)
            },
        }
    }

    fn run_cleanup(
        &self,
        memory: &mut Memory,
        env: &HashMap<u32, Value>,
        actions: &Vec<MirCleanup>,
        depth: u64,
    ) -> (r: Result<(), Error>)
        requires
            self.wf(),
        ensures
            match r {
                Ok(()) => execution::cleanup_run(
                    self.world(),
                    old(memory)@,
                    table(env@),
                    cleanups_view(actions@),
                    0,
                    depth as nat,
                ) == Ok::<Heap, Seq<char>>(final(memory)@),
                Err(error) => execution::cleanup_run(
                    self.world(),
                    old(memory)@,
                    table(env@),
                    cleanups_view(actions@),
                    0,
                    depth as nat,
                ) == Err::<Heap, Seq<char>>(error@),
            },
        decreases depth, 2int, 0int, actions, 0int,
    {
        let ghost w = self.world();
        let ghost start = memory@;
        let ghost all = cleanups_view(actions@);
        for i in 0..actions.len()
            invariant
                self.wf(),
                w == self.world(),
                start == old(memory)@,
                all == cleanups_view(actions@),
                execution::cleanup_run(w, start, table(env@), all, 0, depth as nat)
                    == execution::cleanup_run(
                    w,
                    memory@,
                    table(env@),
                    all,
                    i as int,
                    depth as nat,
                ),
        {
            assert(all[i as int] == actions@[i as int]@);
            let action: &MirCleanup = &actions[i];
            let values: Vec<Value> = failing(
                self.eval_all(memory, env, &action.arguments, depth),
            )?;
            let _ = self.call_mir(memory, action.function, values, depth)?;
        }
        Ok(())
    }

    // -----------------------------------------------------------------------
    // Places
    // -----------------------------------------------------------------------

    fn load(
        &self,
        memory: &mut Memory,
        env: &HashMap<u32, Value>,
        p: &TypedPlace,
        depth: u64,
    ) -> (r: Result<Value, Stop>)
        requires
            self.wf(),
        ensures
            evaluation(r, final(memory)@) == execution::loaded(
                self.world(),
                old(memory)@,
                table(env@),
                p@,
                depth as nat,
            ),
        decreases depth, 1int, 0int, p, 0int,
    {
        match p {
            TypedPlace::Local { id, .. } => match table_get(env, id.0) {
                Some(value) => Ok(value),
                None => stop("unknown local"),
            },
            TypedPlace::Global { id, name, .. } => match table_get(&memory.globals, id.0) {
                Some(value) => Ok(value),
                None => Err(Stop::Failed(unknown_global(name))),
            },
            TypedPlace::Field { base, index, .. } => match self.load(memory, env, base, depth)? {
                Value::Struct(fields) => {
                    assert(values_view(fields@).len() == fields@.len());
                    let i: usize = *index as usize;
                    if i < fields.len() {
                        assert(values_view(fields@)[i as int] == fields@[i as int]@);
                        Ok(fields[i].clone())
                    } else {
                        stop("field index out of range")
                    }
                },
                _ => stop("field base is not a struct"),
            },
            TypedPlace::Index { base, index, .. } => {
                let number: Value = self.eval_expr(memory, env, index, depth)?;
                let i: usize = stopping(as_usize(&number))?;
                match self.load(memory, env, base, depth)? {
                    Value::Array(values) => {
                        assert(values_view(values@).len() == values@.len());
                        if i < values.len() {
                            assert(values_view(values@)[i as int] == values@[i as int]@);
                            Ok(values[i].clone())
                        } else {
                            stop("index out of bounds")
                        }
                    },
                    _ => stop("interpreter only supports array indexing"),
                }
            },
            TypedPlace::Temporary { .. } =>
                stop("cannot assign through a temporary in the interpreter"),
            TypedPlace::Dereference { .. } =>
                stop("raw pointer dereference is unsupported by the interpreter"),
        }
    }

    fn store(
        &self,
        memory: &mut Memory,
        env: &mut HashMap<u32, Value>,
        p: &TypedPlace,
        value: Value,
        depth: u64,
    ) -> (r: Result<(), Stop>)
        requires
            self.wf(),
        ensures
            match r {
                Ok(()) => execution::stored(
                    self.world(),
                    old(memory)@,
                    table(old(env)@),
                    p@,
                    value@,
                    depth as nat,
                ) == Ok::<(Heap, Locals), StopView>((final(memory)@, table(final(env)@))),
                Err(stop) => execution::stored(
                    self.world(),
                    old(memory)@,
                    table(old(env)@),
                    p@,
                    value@,
                    depth as nat,
                ) == Err::<(Heap, Locals), StopView>(stop_view(stop, final(memory)@)) && table(
                    final(env)@,
                ) == table(old(env)@),
            },
        decreases depth, 2int, 0int, p, 0int,
    {
        match p {
            TypedPlace::Local { id, .. } => {
                table_insert(env, id.0, value);
                Ok(())
            },
            TypedPlace::Global { id, .. } => {
                table_insert(&mut memory.globals, id.0, value);
                Ok(())
            },
            TypedPlace::Field { base, index, .. } => match self.load(memory, env, base, depth)? {
                Value::Struct(fields) => {
                    assert(values_view(fields@).len() == fields@.len());
                    let i: usize = *index as usize;
                    if i < fields.len() {
                        let changed: Value = Value::Struct(replaced(fields, i, value));
                        self.store(memory, env, base, changed, depth)
                    } else {
                        stop("field index out of range")
                    }
                },
                _ => stop("field base is not a struct"),
            },
            TypedPlace::Index { base, index, .. } => {
                let whole: Value = self.load(memory, env, base, depth)?;
                let number: Value = self.eval_expr(memory, env, index, depth)?;
                let i: usize = stopping(as_usize(&number))?;
                match whole {
                    Value::Array(values) => {
                        assert(values_view(values@).len() == values@.len());
                        if i < values.len() {
                            let changed: Value = Value::Array(replaced(values, i, value));
                            self.store(memory, env, base, changed, depth)
                        } else {
                            stop("index out of bounds")
                        }
                    },
                    _ => stop("interpreter only supports array indexing"),
                }
            },
            _ => stop("raw pointer assignment is unsupported by the interpreter"),
        }
    }

    // -----------------------------------------------------------------------
    // Expressions
    // -----------------------------------------------------------------------

    fn eval_expr(
        &self,
        memory: &mut Memory,
        env: &HashMap<u32, Value>,
        e: &TypedExpr,
        depth: u64,
    ) -> (r: Result<Value, Stop>)
        requires
            self.wf(),
        ensures
            evaluation(r, final(memory)@) == execution::evaluated(
                self.world(),
                old(memory)@,
                table(env@),
                e@,
                depth as nat,
            ),
        decreases depth, 1int, 0int, e, 0int,
    {
        match e {
            TypedExpr::Integer { value, ty, .. } => Ok(
                Value::Int(ops::normalize_with_pointer_width(*value, ty, self.pointer_bits)),
            ),
            TypedExpr::Float { value, .. } => Ok(Value::Float(value.clone())),
            TypedExpr::Bool { value, .. } => Ok(Value::Bool(*value)),
            TypedExpr::Null { .. } => stop("null/pointers are unsupported by the interpreter"),
            TypedExpr::Load { id, .. } => match table_get(env, id.0) {
                Some(value) => Ok(value),
                None => stop("unknown local"),
            },
            TypedExpr::GlobalLoad { id, name, .. } => match table_get(&memory.globals, id.0) {
                Some(value) => Ok(value),
                None => Err(Stop::Failed(unknown_global(name))),
            },
            TypedExpr::Field { place, .. } => self.load(memory, env, place, depth),
            TypedExpr::Index { place, .. } => self.load(memory, env, place, depth),
            TypedExpr::StructLiteral { fields, .. } => {
                let values: Vec<Value> = self.eval_all(memory, env, fields, depth)?;
                Ok(Value::Struct(values))
            },
            TypedExpr::ArrayLiteral { elements, .. } => {
                let values: Vec<Value> = self.eval_all(memory, env, elements, depth)?;
                Ok(Value::Array(values))
            },
            TypedExpr::Unary { operator, operand, ty, .. } => {
                let value: Value = self.eval_expr(memory, env, operand, depth)?;
                stopping(self.unary(*operator, value, ty))
            },
            TypedExpr::Binary { left, operator, right, operand_type, .. } => {
                let a: Value = self.eval_expr(memory, env, left, depth)?;
                if *operator == BinaryOp::LogicalAnd && !stopping(truth(&a))? {
                    return Ok(Value::Bool(false));
                }
                if *operator == BinaryOp::LogicalOr && stopping(truth(&a))? {
                    return Ok(Value::Bool(true));
                }
                let b: Value = self.eval_expr(memory, env, right, depth)?;
                stopping(self.binary(*operator, a, b, operand_type))
            },
            TypedExpr::Call { function, arguments, .. } => {
                let values: Vec<Value> = self.eval_all(memory, env, arguments, depth)?;
                stopping(self.call_mir(memory, *function, values, depth))
            },
            TypedExpr::MakeSlice { .. } =>
                stop("interpreter does not support raw-pointer slice construction"),
            TypedExpr::LowLevel { operation, .. } => Err(
                Stop::Failed(
                    Error(
                        joined(
                            "interpreter does not support low-level operation ".to_owned(),
                            operation_name(*operation),
                        ),
                    ),
                ),
            ),
            TypedExpr::Layout { kind, target, field, .. } => stopping(
                self.layout_value(*kind, target, field),
            ),
            TypedExpr::ResultOk { value, .. } => {
                let inner: Value = self.eval_expr(memory, env, value, depth)?;
                Ok(Value::Result { error: false, value: Box::new(inner) })
            },
            TypedExpr::ResultErr { value, .. } => {
                let inner: Value = self.eval_expr(memory, env, value, depth)?;
                Ok(Value::Result { error: true, value: Box::new(inner) })
            },
            TypedExpr::IsErr { value, .. } => match self.eval_expr(memory, env, value, depth)? {
                Value::Result { error, .. } => Ok(Value::Bool(error)),
                _ => stop("is_err requires a result"),
            },
            TypedExpr::Unwrap { value, .. } => match self.eval_expr(memory, env, value, depth)? {
                Value::Result { error, value: inner } => {
                    if error {
                        stop("unwrap of an error result")
                    } else {
                        Ok(*inner)
                    }
                },
                _ => stop("unwrap requires a result"),
            },
            TypedExpr::Propagate { value, .. } => match self.eval_expr(
                memory,
                env,
                value,
                depth,
            )? {
                Value::Result { error, value: inner } => {
                    if error {
                        Err(Stop::Left(Value::Result { error: true, value: inner }))
                    } else {
                        Ok(*inner)
                    }
                },
                _ => stop("propagation requires a result"),
            },
            TypedExpr::AddressOf { .. } => stop("raw pointers are unsupported by the interpreter"),
            TypedExpr::Dereference { .. } =>
                stop("raw pointers are unsupported by the interpreter"),
        }
    }

    fn eval_all(
        &self,
        memory: &mut Memory,
        env: &HashMap<u32, Value>,
        es: &Vec<TypedExpr>,
        depth: u64,
    ) -> (r: Result<Vec<Value>, Stop>)
        requires
            self.wf(),
        ensures
            match r {
                Ok(values) => execution::all_evaluated(
                    self.world(),
                    old(memory)@,
                    table(env@),
                    typed_exprs_view(es@),
                    0,
                    Seq::empty(),
                    depth as nat,
                ) == Ok::<(Seq<ValueView>, Heap), StopView>(
                    (values_view(values@), final(memory)@),
                ),
                Err(stop) => execution::all_evaluated(
                    self.world(),
                    old(memory)@,
                    table(env@),
                    typed_exprs_view(es@),
                    0,
                    Seq::empty(),
                    depth as nat,
                ) == Err::<(Seq<ValueView>, Heap), StopView>(stop_view(stop, final(memory)@)),
            },
        decreases depth, 1int, 0int, es, 0int,
    {
        let ghost w = self.world();
        let ghost start = memory@;
        let ghost all = typed_exprs_view(es@);
        let mut out: Vec<Value> = Vec::new();
        assert(values_view(out@) =~= Seq::empty());
        for i in 0..es.len()
            invariant
                self.wf(),
                w == self.world(),
                start == old(memory)@,
                all == typed_exprs_view(es@),
                execution::all_evaluated(
                    w,
                    start,
                    table(env@),
                    all,
                    0,
                    Seq::empty(),
                    depth as nat,
                ) == execution::all_evaluated(
                    w,
                    memory@,
                    table(env@),
                    all,
                    i as int,
                    values_view(out@),
                    depth as nat,
                ),
        {
            assert(all[i as int] == es@[i as int]@);
            let value: Value = self.eval_expr(memory, env, &es[i], depth)?;
            proof {
                lemma_values_push(out@, value);
            }
            out.push(value);
        }
        Ok(out)
    }

    fn unary(&self, op: UnaryOp, value: Value, ty: &ResolvedType) -> (r: Result<Value, Error>)
        ensures
            outcome(r) == execution::unary_of(self.world(), op, value@, *ty),
    {
        let x: ops::Value = primitive(value)?;
        lift(ops::unary_with_pointer_width(op, x, ty, self.pointer_bits))
    }

    fn binary(&self, op: BinaryOp, left: Value, right: Value, ty: &ResolvedType) -> (r: Result<
        Value,
        Error,
    >)
        requires
            self.wf(),
        ensures
            outcome(r) == execution::binary_of(self.world(), op, left@, right@, *ty),
    {
        let a: ops::Value = primitive(left)?;
        let b: ops::Value = primitive(right)?;
        lift(ops::binary_with_pointer_width(op, a, b, ty, self.pointer_bits, self.floats))
    }

    fn layout_value(&self, kind: LayoutKind, target: &ResolvedType, field: &Option<String>) -> (r:
        Result<Value, Error>)
        ensures
            outcome(r) == execution::layout_value(
                self.world(),
                kind,
                *target,
                match field {
                    Some(name) => Some(name@),
                    None => None,
                },
            ),
    {
        assert(typed_structs_view(self.program.structs@).len() == self.program.structs@.len());
        let found: Shape = match layout_of(
            &self.program.structs,
            target,
            self.pointer_bits,
            self.program.structs.len(),
        ) {
            Some(found) => found,
            None => {
                return Err(failure("type has no layout"));
            },
        };
        match kind {
            LayoutKind::Size => Ok(Value::Int(found.size as i128)),
            LayoutKind::Align => Ok(Value::Int(found.align as i128)),
            LayoutKind::Offset => match field {
                None => Err(failure("unknown field in layout query")),
                Some(name) => match found.offset(name) {
                    Some(offset) => Ok(Value::Int(offset as i128)),
                    None => Err(failure("unknown field in layout query")),
                },
            },
        }
    }
}

// ---------------------------------------------------------------------------
// Layout
// ---------------------------------------------------------------------------

/// The size and alignment of a type, and the offsets of its fields.
struct Shape {
    size: u64,
    align: u64,
    offsets: Vec<(String, u64)>,
}

spec fn offsets_view(s: Seq<(String, u64)>) -> Seq<(Seq<char>, nat)> {
    Seq::new(s.len(), |i: int| (s[i].0@, s[i].1 as nat))
}

impl Shape {
    spec fn view(&self) -> Layout {
        Layout {
            size: self.size as nat,
            align: self.align as nat,
            offsets: offsets_view(self.offsets@),
        }
    }

    fn offset(&self, name: &String) -> (r: Option<u64>)
        ensures
            match r {
                Some(offset) => execution::offset_of(
                    self@.offsets,
                    self@.offsets.len() as int,
                    name@,
                ) == Some(offset as nat),
                None => execution::offset_of(
                    self@.offsets,
                    self@.offsets.len() as int,
                    name@,
                ) is None,
            },
    {
        let ghost all = self@.offsets;
        let mut i: usize = self.offsets.len();
        while i > 0
            invariant
                i <= self.offsets.len(),
                all == self@.offsets,
                execution::offset_of(all, all.len() as int, name@) == execution::offset_of(
                    all,
                    i as int,
                    name@,
                ),
            decreases i,
        {
            assert(all[i - 1] == (self.offsets@[i - 1].0@, self.offsets@[i - 1].1 as nat));
            if self.offsets[i - 1].0 == *name {
                return Some(self.offsets[i - 1].1);
            }
            i -= 1;
        }
        None
    }
}

fn plain_shape(size: u64, align: u64) -> (r: Option<Shape>)
    ensures
        r matches Some(shape) && execution::plain_layout(size as nat, align as nat) == Some(shape@),
{
    let shape: Shape = Shape { size, align, offsets: Vec::new() };
    assert(offsets_view(shape.offsets@) =~= Seq::empty());
    Some(shape)
}

fn bytes_of(bits: u64) -> (r: u64)
    ensures
        r == execution::bytes_of(bits as nat),
        r <= bits || r == 1,
{
    if bits / 8 == 0 {
        1
    } else {
        bits / 8
    }
}

fn at_most_eight(n: u64) -> (r: u64)
    ensures
        r == execution::at_most_eight(n as nat),
{
    if n > 8 {
        8
    } else {
        n
    }
}

fn larger(a: u64, b: u64) -> (r: u64)
    ensures
        r == execution::larger(a as nat, b as nat),
{
    if a >= b {
        a
    } else {
        b
    }
}

/// The least multiple of `align` that is at least `value`, where that fits in
/// 64 bits.
fn align_up(value: u64, align: u64) -> (r: Option<u64>)
    ensures
        match r {
            Some(n) => n == execution::aligned(value as nat, align as nat) && value <= n,
            None => execution::aligned(value as nat, align as nat) > u64::MAX,
        },
{
    if align <= 1 {
        return Some(value);
    }
    proof {
        lemma_next_multiple(value as int, align as int);
    }
    let over: u64 = value % align;
    if over == 0 {
        Some(value)
    } else {
        sum(value, align - over)
    }
}

proof fn lemma_aligned_is_larger(value: nat, align: nat)
    ensures
        execution::aligned(value, align) >= value,
{
    if align > 1 {
        lemma_next_multiple(value as int, align as int);
    }
}

proof fn lemma_product_fits(a: u64, b: u64)
    ensures
        0 <= a * b <= u128::MAX,
{
    assert(0 <= a * b <= 0xFFFF_FFFF_FFFF_FFFF * 0xFFFF_FFFF_FFFF_FFFF) by (nonlinear_arith)
        requires
            0 <= a <= 0xFFFF_FFFF_FFFF_FFFF,
            0 <= b <= 0xFFFF_FFFF_FFFF_FFFF,
    ;
}

/// `a + b`, where that fits in 64 bits.
fn sum(a: u64, b: u64) -> (r: Option<u64>)
    ensures
        match r {
            Some(n) => n == a + b,
            None => a + b > u64::MAX,
        },
{
    if a > u64::MAX - b {
        None
    } else {
        Some(a + b)
    }
}

fn find_struct(structs: &Vec<TypedStruct>, id: DefId) -> (r: Option<&TypedStruct>)
    ensures
        match r {
            Some(s) => execution::struct_by_id(typed_structs_view(structs@), 0, id) == Some(s@),
            None => execution::struct_by_id(typed_structs_view(structs@), 0, id) is None,
        },
{
    let ghost all = typed_structs_view(structs@);
    for i in 0..structs.len()
        invariant
            all == typed_structs_view(structs@),
            execution::struct_by_id(all, 0, id) == execution::struct_by_id(all, i as int, id),
    {
        assert(all[i as int] == structs@[i as int]@);
        if structs[i].id == id {
            return Some(&structs[i]);
        }
    }
    None
}

spec fn shape_outcome(r: Option<Shape>) -> Option<Layout> {
    match r {
        Some(shape) => Some(shape@),
        None => None,
    }
}

fn layout_of(structs: &Vec<TypedStruct>, ty: &ResolvedType, pointer_bits: u32, depth: usize) -> (r:
    Option<Shape>)
    ensures
        shape_outcome(r) == execution::layout(
            typed_structs_view(structs@),
            *ty,
            pointer_bits,
            depth as nat,
        ),
    decreases depth, 0int, 0int, ty,
{
    let pointer: u64 = bytes_of(pointer_bits as u64);
    match ty {
        ResolvedType::Unit => plain_shape(0, 1),
        ResolvedType::Bool => plain_shape(1, 1),
        ResolvedType::Integer { width, .. } => match width {
            IntegerWidth::Bits(bits) => {
                let bytes: u64 = bytes_of(*bits as u64);
                plain_shape(bytes, at_most_eight(bytes))
            },
            IntegerWidth::Pointer => plain_shape(pointer, pointer),
        },
        ResolvedType::Float { bits } => {
            let bytes: u64 = bytes_of(*bits as u64);
            plain_shape(bytes, at_most_eight(bytes))
        },
        ResolvedType::Pointer(_) => plain_shape(pointer, pointer),
        ResolvedType::Slice(_) => plain_shape(pointer * 2, pointer),
        ResolvedType::Array { length, element } => {
            let inner: Shape = layout_of(structs, element, pointer_bits, depth)?;
            proof {
                lemma_product_fits(inner.size, *length);
            }
            let size: u128 = (inner.size as u128) * (*length as u128);
            if size > u64::MAX as u128 {
                None
            } else {
                plain_shape(size as u64, inner.align)
            }
        },
        ResolvedType::Result { success, error } => {
            let a: Option<Shape> = layout_of(structs, success, pointer_bits, depth);
            let b: Option<Shape> = layout_of(structs, error, pointer_bits, depth);
            match (a, b) {
                (Some(x), Some(y)) => result_shape(x, y),
                _ => None,
            }
        },
        ResolvedType::Struct(id) => match find_struct(structs, *id) {
            None => plain_shape(0, 1),
            Some(structure) => {
                if depth == 0 {
                    None
                } else {
                    fields_shape(structs, &structure.fields, pointer_bits, depth - 1)
                }
            },
        },
    }
}

fn result_shape(a: Shape, b: Shape) -> (r: Option<Shape>)
    ensures
        shape_outcome(r) == execution::result_layout(a@, b@),
{
    let align: u64 = larger(larger(a.align, b.align), 1);
    proof {
        let start = execution::aligned(1, a.align as nat);
        let end = execution::aligned(start + a.size as nat, b.align as nat);
        lemma_aligned_is_larger(start + a.size as nat, b.align as nat);
        lemma_aligned_is_larger(end + b.size as nat, align as nat);
    }
    let start: u64 = align_up(1, a.align)?;
    let filled: u64 = sum(start, a.size)?;
    let end: u64 = align_up(filled, b.align)?;
    let whole: u64 = sum(end, b.size)?;
    plain_shape(align_up(whole, align)?, align)
}

fn fields_shape(
    structs: &Vec<TypedStruct>,
    fields: &Vec<TypedField>,
    pointer_bits: u32,
    depth: usize,
) -> (r: Option<Shape>)
    ensures
        shape_outcome(r) == execution::fields_layout(
            typed_structs_view(structs@),
            typed_fields_view(fields@),
            pointer_bits,
            0,
            (Layout { size: 0, align: 1, offsets: Seq::empty() }),
            depth as nat,
        ),
    decreases depth, 1int, 0int, fields,
{
    let ghost known = typed_structs_view(structs@);
    let ghost all = typed_fields_view(fields@);
    let mut shape: Shape = Shape { size: 0, align: 1, offsets: Vec::new() };
    assert(offsets_view(shape.offsets@) =~= Seq::empty());
    let ghost start = shape@;
    for i in 0..fields.len()
        invariant
            known == typed_structs_view(structs@),
            all == typed_fields_view(fields@),
            start == (Layout { size: 0, align: 1, offsets: Seq::empty() }),
            execution::fields_layout(known, all, pointer_bits, 0, start, depth as nat)
                == execution::fields_layout(
                known,
                all,
                pointer_bits,
                i as int,
                shape@,
                depth as nat,
            ),
    {
        assert(all[i as int] == fields@[i as int]@);
        let inner: Shape = layout_of(structs, &fields[i].ty, pointer_bits, depth)?;
        let offset: u64 = align_up(shape.size, inner.align)?;
        let size: u64 = sum(offset, inner.size)?;
        let ghost before = shape@;
        let name: String = fields[i].name.clone();
        shape.offsets.push((name, offset));
        shape.size = size;
        shape.align = larger(shape.align, inner.align);
        assert(offsets_view(shape.offsets@) =~= before.offsets.push(
            (fields@[i as int]@.name, offset as nat),
        ));
    }
    let size: u64 = align_up(shape.size, shape.align)?;
    shape.size = size;
    Some(shape)
}

// ---------------------------------------------------------------------------
// Values
// ---------------------------------------------------------------------------

/// What a result holds.
pub open spec fn outcome(r: Result<Value, Error>) -> Result<ValueView, Seq<char>> {
    match r {
        Ok(value) => Ok(value@),
        Err(error) => Err(error@),
    }
}

fn bind(params: &Vec<TypedParameter>, values: &Vec<Value>) -> (r: HashMap<u32, Value>)
    requires
        params.len() == values.len(),
    ensures
        table(r@) == execution::bound(
            typed_parameters_view(params@),
            values_view(values@),
            0,
            Map::empty(),
        ),
{
    let ghost all = typed_parameters_view(params@);
    let ghost given = values_view(values@);
    let mut env: HashMap<u32, Value> = HashMap::new();
    assert(table(env@) =~= Map::empty());
    for i in 0..params.len()
        invariant
            params.len() == values.len(),
            all == typed_parameters_view(params@),
            given == values_view(values@),
            execution::bound(all, given, 0, Map::empty()) == execution::bound(
                all,
                given,
                i as int,
                table(env@),
            ),
    {
        assert(all[i as int] == params@[i as int]@);
        assert(given[i as int] == values@[i as int]@);
        table_insert(&mut env, params[i].id.0, values[i].clone());
    }
    env
}

fn find_block(f: &MirFunction, id: BlockId) -> (r: Option<&MirBlock>)
    ensures
        match r {
            Some(block) => execution::block_by_id(f@.blocks, 0, id) == Some(block@),
            None => execution::block_by_id(f@.blocks, 0, id) is None,
        },
{
    let ghost all = f@.blocks;
    for i in 0..f.blocks.len()
        invariant
            all == f@.blocks,
            execution::block_by_id(all, 0, id) == execution::block_by_id(all, i as int, id),
    {
        assert(all[i as int] == f.blocks@[i as int]@);
        if f.blocks[i].id == id {
            return Some(&f.blocks[i]);
        }
    }
    None
}

/// A list with one value replaced.
fn replaced(values: Vec<Value>, i: usize, value: Value) -> (r: Vec<Value>)
    requires
        i < values@.len(),
    ensures
        values_view(r@) == values_view(values@).update(i as int, value@),
{
    let mut out: Vec<Value> = values;
    let ghost before = out@;
    out[i] = value;
    assert(values_view(out@) =~= values_view(before).update(i as int, value@));
    out
}

fn unknown_global(name: &String) -> (r: Error)
    ensures
        r@ == execution::unknown_global(name@),
{
    Error(joined(joined("unknown global `".to_owned(), name.as_str()), "`"))
}

pub fn operation_name(operation: LowLevelOperation) -> (r: &'static str)
    ensures
        r@ == execution::operation_name(operation),
{
    match operation {
        LowLevelOperation::VolatileLoad => "VolatileLoad",
        LowLevelOperation::VolatileStore => "VolatileStore",
        LowLevelOperation::AtomicLoad => "AtomicLoad",
        LowLevelOperation::AtomicStore => "AtomicStore",
        LowLevelOperation::Fence => "Fence",
    }
}

fn truth(value: &Value) -> (r: Result<bool, Error>)
    ensures
        match r {
            Ok(b) => execution::truth_of(value@) == Ok::<bool, Seq<char>>(b),
            Err(error) => execution::truth_of(value@) == Err::<bool, Seq<char>>(error@),
        },
{
    match value {
        Value::Bool(b) => Ok(*b),
        Value::Int(n) => Ok(*n != 0),
        _ => Err(failure("condition is not boolean")),
    }
}

/// An index; one that no list reaches stands for all that none does.
fn as_usize(value: &Value) -> (r: Result<usize, Error>)
    ensures
        match r {
            Ok(i) => execution::index_of(value@) matches Ok(n) && (n == i || (n > usize::MAX && i
                == usize::MAX)),
            Err(error) => execution::index_of(value@) == Err::<nat, Seq<char>>(error@),
        },
{
    match value {
        Value::Int(n) => {
            if *n < 0 {
                Err(failure("index is not a non-negative integer"))
            } else if *n > usize::MAX as i128 {
                Ok(usize::MAX)
            } else {
                Ok(*n as usize)
            }
        },
        _ => Err(failure("index is not a non-negative integer")),
    }
}

fn primitive(value: Value) -> (r: Result<ops::Value, Error>)
    ensures
        match r {
            Ok(x) => execution::scalar(value@) == Ok::<ops::ValueView, Seq<char>>(x@),
            Err(error) => execution::scalar(value@) == Err::<ops::ValueView, Seq<char>>(error@),
        },
{
    match value {
        Value::Bool(b) => Ok(ops::Value::Bool(b)),
        Value::Int(n) => Ok(ops::Value::Integer(n)),
        Value::Float(x) => Ok(ops::Value::Float(x)),
        _ => Err(failure("aggregate is not a primitive value")),
    }
}

fn lift(r: Result<ops::Value, ops::Error>) -> (s: Result<Value, Error>)
    ensures
        outcome(s) == execution::lifted_result(ops::outcome(r)),
{
    match r {
        Ok(ops::Value::Bool(b)) => Ok(Value::Bool(b)),
        Ok(ops::Value::Integer(n)) => Ok(Value::Int(n)),
        Ok(ops::Value::Float(x)) => Ok(Value::Float(x)),
        Err(ops::Error::DivisionByZero) => Err(failure("integer division failed")),
        Err(ops::Error::InvalidOperation) => Err(failure("unsupported primitive operation")),
    }
}

} // verus!
