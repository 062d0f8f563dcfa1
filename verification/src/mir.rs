//! Control flow as blocks.
//!
//! Expressions stay typed expressions. Structured statements become blocks
//! with an explicit end each, so that whatever executes a program only needs
//! to know blocks and values.
use crate::lexer::Span;
use crate::text::{decimal, decimal_text, joined};
use crate::typed::{
    typed_exprs_clone, typed_exprs_view, typed_parameters_clone, typed_parameters_view,
    typed_stmts_view, DefId, FunctionId, LocalId, ResolvedType, TypedBlock, TypedBlockView,
    TypedExpr, TypedExprView, TypedFunction, TypedFunctionView, TypedParameter, TypedParameterView,
    TypedPlace, TypedPlaceView, TypedProgram, TypedProgramView, TypedStmt, TypedStmtView,
};
use vstd::prelude::*;

verus! {

broadcast use crate::typed::group_typed_lists;

/// The identity of a block: its place in its function, by its low 32 bits.
#[derive(Debug, Clone, Copy, PartialEq, Eq, Hash, PartialOrd, Ord, Structural)]
pub struct BlockId(pub u32);

#[derive(Debug, Clone, Copy, PartialEq, Eq, Structural)]
pub enum MirError {
    BreakOutsideLoop { span: Span },
    ContinueOutsideLoop { span: Span },
}

impl MirError {
    /// Where the error stands in its source.
    pub open spec fn place(self) -> Span {
        match self {
            MirError::BreakOutsideLoop { span } => span,
            MirError::ContinueOutsideLoop { span } => span,
        }
    }

    pub fn span(&self) -> (r: Span)
        ensures
            r == self.place(),
    {
        match self {
            MirError::BreakOutsideLoop { span } => *span,
            MirError::ContinueOutsideLoop { span } => *span,
        }
    }

    /// What the error's message reads.
    pub open spec fn message(self) -> Seq<char> {
        match self {
            MirError::BreakOutsideLoop { .. } => "break outside loop in MIR lowering"@,
            MirError::ContinueOutsideLoop { .. } => "continue outside loop in MIR lowering"@,
        }
    }

    pub fn to_string(&self) -> (r: String)
        ensures
            r@ == self.message(),
    {
        match self {
            MirError::BreakOutsideLoop { .. } => "break outside loop in MIR lowering".to_owned(),
            MirError::ContinueOutsideLoop {
                ..
            } => "continue outside loop in MIR lowering".to_owned(),
        }
    }
}

/// A deferred call: its arguments are captured where it was deferred.
#[derive(Debug, PartialEq)]
pub struct MirCleanup {
    pub function: DefId,
    pub name: String,
    pub arguments: Vec<TypedExpr>,
    pub span: Span,
}

/// What a `MirCleanup` holds.
pub ghost struct MirCleanupView {
    pub function: DefId,
    pub name: Seq<char>,
    pub arguments: Seq<TypedExprView>,
    pub span: Span,
}

impl MirCleanup {
    pub open spec fn view(&self) -> MirCleanupView
        decreases self,
    {
        MirCleanupView {
            function: self.function,
            name: self.name@,
            arguments: typed_exprs_view(self.arguments@),
            span: self.span,
        }
    }
}

impl Clone for MirCleanup {
    fn clone(&self) -> (r: Self)
        ensures
            r@ == self@,
        decreases self,
    {
        MirCleanup {
            function: self.function,
            name: self.name.clone(),
            arguments: typed_exprs_clone(&self.arguments),
            span: self.span,
        }
    }
}

/// One step within a block.
#[allow(inconsistent_fields)]
#[derive(Debug, PartialEq)]
pub enum MirInstruction {
    RunCleanup { actions: Vec<MirCleanup> },
    Declare { id: LocalId, name: String, ty: ResolvedType, mutable: bool, value: TypedExpr,
        span: Span },
    Store { target: TypedPlace, value: TypedExpr, ty: ResolvedType, span: Span },
    Expr { expression: TypedExpr, span: Span },
}

/// What a `MirInstruction` holds.
#[allow(inconsistent_fields)]
pub ghost enum MirInstructionView {
    RunCleanup { actions: Seq<MirCleanupView> },
    Declare { id: LocalId, name: Seq<char>, ty: ResolvedType, mutable: bool, value: TypedExprView,
        span: Span },
    Store { target: TypedPlaceView, value: TypedExprView, ty: ResolvedType, span: Span },
    Expr { expression: TypedExprView, span: Span },
}

impl MirInstruction {
    pub open spec fn view(&self) -> MirInstructionView
        decreases self,
    {
        match self {
            MirInstruction::RunCleanup { actions } => MirInstructionView::RunCleanup {
                actions: cleanups_view(actions@),
            },
            MirInstruction::Declare { id, name, ty, mutable, value, span } =>
                MirInstructionView::Declare {
                id: *id,
                name: name@,
                ty: *ty,
                mutable: *mutable,
                value: value.view(),
                span: *span,
            },
            MirInstruction::Store { target, value, ty, span } => MirInstructionView::Store {
                target: target.view(),
                value: value.view(),
                ty: *ty,
                span: *span,
            },
            MirInstruction::Expr { expression, span } => MirInstructionView::Expr {
                expression: expression.view(),
                span: *span,
            },
        }
    }
}

impl Clone for MirInstruction {
    fn clone(&self) -> (r: Self)
        ensures
            r@ == self@,
        decreases self,
    {
        match self {
            MirInstruction::RunCleanup { actions } => MirInstruction::RunCleanup {
                actions: cleanups_clone(actions),
            },
            MirInstruction::Declare { id, name, ty, mutable, value, span } =>
                MirInstruction::Declare {
                id: *id,
                name: name.clone(),
                ty: ty.clone(),
                mutable: *mutable,
                value: value.clone(),
                span: *span,
            },
            MirInstruction::Store { target, value, ty, span } => MirInstruction::Store {
                target: target.clone(),
                value: value.clone(),
                ty: ty.clone(),
                span: *span,
            },
            MirInstruction::Expr { expression, span } => MirInstruction::Expr {
                expression: expression.clone(),
                span: *span,
            },
        }
    }
}

/// Where control goes at the end of a block.
#[allow(inconsistent_fields)]
#[derive(Debug, PartialEq)]
pub enum MirTerminator {
    Jump(BlockId),
    Branch { condition: TypedExpr, then_block: BlockId, else_block: BlockId, span: Span },
    Return(Option<TypedExpr>),
    Unreachable,
}

/// What a `MirTerminator` holds.
#[allow(inconsistent_fields)]
pub ghost enum MirTerminatorView {
    Jump(BlockId),
    Branch { condition: TypedExprView, then_block: BlockId, else_block: BlockId, span: Span },
    Return(Option<TypedExprView>),
    Unreachable,
}

impl MirTerminator {
    pub open spec fn view(&self) -> MirTerminatorView
        decreases self,
    {
        match self {
            MirTerminator::Jump(inner) => MirTerminatorView::Jump(*inner),
            MirTerminator::Branch { condition, then_block, else_block, span } =>
                MirTerminatorView::Branch {
                condition: condition.view(),
                then_block: *then_block,
                else_block: *else_block,
                span: *span,
            },
            MirTerminator::Return(inner) =>
                MirTerminatorView::Return(match inner { Some(x) => Some(x.view()), None => None }),
            MirTerminator::Unreachable => MirTerminatorView::Unreachable,
        }
    }
}

impl Clone for MirTerminator {
    fn clone(&self) -> (r: Self)
        ensures
            r@ == self@,
        decreases self,
    {
        match self {
            MirTerminator::Jump(inner) => MirTerminator::Jump(*inner),
            MirTerminator::Branch { condition, then_block, else_block, span } =>
                MirTerminator::Branch {
                condition: condition.clone(),
                then_block: *then_block,
                else_block: *else_block,
                span: *span,
            },
            MirTerminator::Return(inner) =>
                MirTerminator::Return(match inner { Some(x) => Some(x.clone()), None => None }),
            MirTerminator::Unreachable => MirTerminator::Unreachable,
        }
    }
}

/// A block: steps without branches, and where control goes then.
#[derive(Debug, PartialEq)]
pub struct MirBlock {
    pub id: BlockId,
    pub instructions: Vec<MirInstruction>,
    pub terminator: MirTerminator,
}

/// What a `MirBlock` holds.
pub ghost struct MirBlockView {
    pub id: BlockId,
    pub instructions: Seq<MirInstructionView>,
    pub terminator: MirTerminatorView,
}

impl MirBlock {
    pub open spec fn view(&self) -> MirBlockView
        decreases self,
    {
        MirBlockView {
            id: self.id,
            instructions: instructions_view(self.instructions@),
            terminator: self.terminator.view(),
        }
    }
}

impl Clone for MirBlock {
    fn clone(&self) -> (r: Self)
        ensures
            r@ == self@,
        decreases self,
    {
        MirBlock {
            id: self.id,
            instructions: instructions_clone(&self.instructions),
            terminator: self.terminator.clone(),
        }
    }
}

/// A function as blocks.
#[derive(Debug, PartialEq)]
pub struct MirFunction {
    pub id: DefId,
    pub name: String,
    pub params: Vec<TypedParameter>,
    pub return_type: ResolvedType,
    pub blocks: Vec<MirBlock>,
    pub entry: BlockId,
    pub span: Span,
    pub is_extern: bool,
    pub abi: Option<String>,
    pub link_name: Option<String>,
    pub exported: bool,
    /// The deferred calls active in each block, the one to run first
    /// first. `?` leaves a function without reaching a return.
    pub cleanup: Vec<Vec<MirCleanup>>,
}

/// What a `MirFunction` holds.
pub ghost struct MirFunctionView {
    pub id: DefId,
    pub name: Seq<char>,
    pub params: Seq<TypedParameterView>,
    pub return_type: ResolvedType,
    pub blocks: Seq<MirBlockView>,
    pub entry: BlockId,
    pub span: Span,
    pub is_extern: bool,
    pub abi: Option<Seq<char>>,
    pub link_name: Option<Seq<char>>,
    pub exported: bool,
    pub cleanup: Seq<Seq<MirCleanupView>>,
}

impl MirFunction {
    pub open spec fn view(&self) -> MirFunctionView
        decreases self,
    {
        MirFunctionView {
            id: self.id,
            name: self.name@,
            params: typed_parameters_view(self.params@),
            return_type: self.return_type,
            blocks: blocks_view(self.blocks@),
            entry: self.entry,
            span: self.span,
            is_extern: self.is_extern,
            abi: match self.abi { Some(x) => Some(x@), None => None },
            link_name: match self.link_name { Some(x) => Some(x@), None => None },
            exported: self.exported,
            cleanup: cleanup_lists_view(self.cleanup@),
        }
    }
}

impl Clone for MirFunction {
    fn clone(&self) -> (r: Self)
        ensures
            r@ == self@,
        decreases self,
    {
        MirFunction {
            id: self.id,
            name: self.name.clone(),
            params: typed_parameters_clone(&self.params),
            return_type: self.return_type.clone(),
            blocks: blocks_clone(&self.blocks),
            entry: self.entry,
            span: self.span,
            is_extern: self.is_extern,
            abi: match &self.abi { Some(x) => Some(x.clone()), None => None },
            link_name: match &self.link_name { Some(x) => Some(x.clone()), None => None },
            exported: self.exported,
            cleanup: cleanup_lists_clone(&self.cleanup),
        }
    }
}

/// A program as blocks.
#[derive(Debug, PartialEq)]
pub struct MirProgram {
    pub functions: Vec<MirFunction>,
}

/// What a `MirProgram` holds.
pub ghost struct MirProgramView {
    pub functions: Seq<MirFunctionView>,
}

impl MirProgram {
    pub open spec fn view(&self) -> MirProgramView
        decreases self,
    {
        MirProgramView {
            functions: mir_functions_view(self.functions@),
        }
    }
}

impl Clone for MirProgram {
    fn clone(&self) -> (r: Self)
        ensures
            r@ == self@,
        decreases self,
    {
        MirProgram {
            functions: mir_functions_clone(&self.functions),
        }
    }
}

/// What a list of `MirCleanup` holds.
pub open spec fn cleanups_view(s: Seq<MirCleanup>) -> Seq<MirCleanupView>
    decreases s,
{
    Seq::new(
        s.len(),
        |i: int|
            if 0 <= i < s.len() {
                s[i].view()
            } else {
                arbitrary()
            },
    )
}

pub broadcast proof fn lemma_cleanups_push(s: Seq<MirCleanup>, x: MirCleanup)
    ensures
        #[trigger] cleanups_view(s.push(x)) == cleanups_view(s).push(x@),
{
    assert(cleanups_view(s.push(x)) =~= cleanups_view(s).push(x@));
}

pub fn cleanups_clone(v: &Vec<MirCleanup>) -> (r: Vec<MirCleanup>)
    ensures
        cleanups_view(r@) == cleanups_view(v@),
    decreases v,
{
    let mut out: Vec<MirCleanup> = Vec::new();
    for i in 0..v.len()
        invariant
            out.len() == i,
            forall|j: int| 0 <= j < i ==> (#[trigger] out@[j])@ == v@[j]@,
    {
        out.push(v[i].clone());
    }
    assert(cleanups_view(out@) =~= cleanups_view(v@));
    out
}

/// What a list of `MirInstruction` holds.
pub open spec fn instructions_view(s: Seq<MirInstruction>) -> Seq<MirInstructionView>
    decreases s,
{
    Seq::new(
        s.len(),
        |i: int|
            if 0 <= i < s.len() {
                s[i].view()
            } else {
                arbitrary()
            },
    )
}

pub broadcast proof fn lemma_instructions_push(s: Seq<MirInstruction>, x: MirInstruction)
    ensures
        #[trigger] instructions_view(s.push(x)) == instructions_view(s).push(x@),
{
    assert(instructions_view(s.push(x)) =~= instructions_view(s).push(x@));
}

pub fn instructions_clone(v: &Vec<MirInstruction>) -> (r: Vec<MirInstruction>)
    ensures
        instructions_view(r@) == instructions_view(v@),
    decreases v,
{
    let mut out: Vec<MirInstruction> = Vec::new();
    for i in 0..v.len()
        invariant
            out.len() == i,
            forall|j: int| 0 <= j < i ==> (#[trigger] out@[j])@ == v@[j]@,
    {
        out.push(v[i].clone());
    }
    assert(instructions_view(out@) =~= instructions_view(v@));
    out
}

/// What a list of `MirBlock` holds.
pub open spec fn blocks_view(s: Seq<MirBlock>) -> Seq<MirBlockView>
    decreases s,
{
    Seq::new(
        s.len(),
        |i: int|
            if 0 <= i < s.len() {
                s[i].view()
            } else {
                arbitrary()
            },
    )
}

pub broadcast proof fn lemma_blocks_push(s: Seq<MirBlock>, x: MirBlock)
    ensures
        #[trigger] blocks_view(s.push(x)) == blocks_view(s).push(x@),
{
    assert(blocks_view(s.push(x)) =~= blocks_view(s).push(x@));
}

pub fn blocks_clone(v: &Vec<MirBlock>) -> (r: Vec<MirBlock>)
    ensures
        blocks_view(r@) == blocks_view(v@),
    decreases v,
{
    let mut out: Vec<MirBlock> = Vec::new();
    for i in 0..v.len()
        invariant
            out.len() == i,
            forall|j: int| 0 <= j < i ==> (#[trigger] out@[j])@ == v@[j]@,
    {
        out.push(v[i].clone());
    }
    assert(blocks_view(out@) =~= blocks_view(v@));
    out
}

/// What a list of `MirFunction` holds.
pub open spec fn mir_functions_view(s: Seq<MirFunction>) -> Seq<MirFunctionView>
    decreases s,
{
    Seq::new(
        s.len(),
        |i: int|
            if 0 <= i < s.len() {
                s[i].view()
            } else {
                arbitrary()
            },
    )
}

pub broadcast proof fn lemma_mir_functions_push(s: Seq<MirFunction>, x: MirFunction)
    ensures
        #[trigger] mir_functions_view(s.push(x)) == mir_functions_view(s).push(x@),
{
    assert(mir_functions_view(s.push(x)) =~= mir_functions_view(s).push(x@));
}

pub fn mir_functions_clone(v: &Vec<MirFunction>) -> (r: Vec<MirFunction>)
    ensures
        mir_functions_view(r@) == mir_functions_view(v@),
    decreases v,
{
    let mut out: Vec<MirFunction> = Vec::new();
    for i in 0..v.len()
        invariant
            out.len() == i,
            forall|j: int| 0 <= j < i ==> (#[trigger] out@[j])@ == v@[j]@,
    {
        out.push(v[i].clone());
    }
    assert(mir_functions_view(out@) =~= mir_functions_view(v@));
    out
}

/// What a list of lists of deferred calls holds.
pub open spec fn cleanup_lists_view(s: Seq<Vec<MirCleanup>>) -> Seq<Seq<MirCleanupView>> {
    Seq::new(s.len(), |i: int| cleanups_view(s[i]@))
}

pub fn cleanup_lists_clone(v: &Vec<Vec<MirCleanup>>) -> (r: Vec<Vec<MirCleanup>>)
    ensures
        cleanup_lists_view(r@) == cleanup_lists_view(v@),
{
    let mut out: Vec<Vec<MirCleanup>> = Vec::new();
    for i in 0..v.len()
        invariant
            out.len() == i,
            forall|j: int|
                0 <= j < i ==> cleanups_view((#[trigger] out@[j])@) == cleanups_view(v@[j]@),
    {
        out.push(cleanups_clone(&v[i]));
    }
    assert(cleanup_lists_view(out@) =~= cleanup_lists_view(v@));
    out
}

// ---------------------------------------------------------------------------
// Where errors leave a function
// ---------------------------------------------------------------------------

/// Whether `?` stands in an expression.
pub open spec fn propagates(e: TypedExprView) -> bool
    decreases e,
{
    match e {
        TypedExprView::Propagate { .. } => true,
        TypedExprView::StructLiteral { fields, .. } => any_propagates(fields),
        TypedExprView::ArrayLiteral { elements, .. } => any_propagates(elements),
        TypedExprView::Field { place, .. } => place_propagates(*place),
        TypedExprView::Index { place, .. } => place_propagates(*place),
        TypedExprView::Unary { operand, .. } => propagates(*operand),
        TypedExprView::Binary { left, right, .. } => propagates(*left) || propagates(*right),
        TypedExprView::Call { arguments, .. } => any_propagates(arguments),
        TypedExprView::MakeSlice { pointer, length, .. } => propagates(*pointer) || propagates(
            *length,
        ),
        TypedExprView::LowLevel { arguments, .. } => any_propagates(arguments),
        TypedExprView::AddressOf { place, .. } => place_propagates(*place),
        TypedExprView::Dereference { place, .. } => place_propagates(*place),
        TypedExprView::ResultOk { value, .. } => propagates(*value),
        TypedExprView::ResultErr { value, .. } => propagates(*value),
        TypedExprView::IsErr { value, .. } => propagates(*value),
        TypedExprView::Unwrap { value, .. } => propagates(*value),
        _ => false,
    }
}

pub open spec fn any_propagates(es: Seq<TypedExprView>) -> bool
    decreases es,
{
    exists|i: int| 0 <= i < es.len() && propagates(#[trigger] es[i])
}

pub open spec fn place_propagates(place: TypedPlaceView) -> bool
    decreases place,
{
    match place {
        TypedPlaceView::Temporary { value, .. } => propagates(*value),
        TypedPlaceView::Field { base, .. } => place_propagates(*base),
        TypedPlaceView::Index { base, index, .. } => place_propagates(*base) || propagates(*index),
        TypedPlaceView::Dereference { pointer, .. } => propagates(*pointer),
        _ => false,
    }
}

fn contains_propagation(e: &TypedExpr) -> (r: bool)
    ensures
        r == propagates(e@),
    decreases e,
{
    match e {
        TypedExpr::Propagate { .. } => true,
        TypedExpr::StructLiteral { fields, .. } => any_contains_propagation(fields),
        TypedExpr::ArrayLiteral { elements, .. } => any_contains_propagation(elements),
        TypedExpr::Field { place, .. } => place_contains_propagation(place),
        TypedExpr::Index { place, .. } => place_contains_propagation(place),
        TypedExpr::Unary { operand, .. } => contains_propagation(operand),
        TypedExpr::Binary { left, right, .. } => {
            let a: bool = contains_propagation(left);
            let b: bool = contains_propagation(right);
            a || b
        },
        TypedExpr::Call { arguments, .. } => any_contains_propagation(arguments),
        TypedExpr::MakeSlice { pointer, length, .. } => {
            let a: bool = contains_propagation(pointer);
            let b: bool = contains_propagation(length);
            a || b
        },
        TypedExpr::LowLevel { arguments, .. } => any_contains_propagation(arguments),
        TypedExpr::AddressOf { place, .. } => place_contains_propagation(place),
        TypedExpr::Dereference { place, .. } => place_contains_propagation(place),
        TypedExpr::ResultOk { value, .. } => contains_propagation(value),
        TypedExpr::ResultErr { value, .. } => contains_propagation(value),
        TypedExpr::IsErr { value, .. } => contains_propagation(value),
        TypedExpr::Unwrap { value, .. } => contains_propagation(value),
        _ => false,
    }
}

fn any_contains_propagation(es: &Vec<TypedExpr>) -> (r: bool)
    ensures
        r == any_propagates(typed_exprs_view(es@)),
    decreases es,
{
    let ghost all = typed_exprs_view(es@);
    for i in 0..es.len()
        invariant
            all == typed_exprs_view(es@),
            forall|k: int| 0 <= k < i ==> !propagates(#[trigger] all[k]),
    {
        assert(all[i as int] == es@[i as int]@);
        if contains_propagation(&es[i]) {
            return true;
        }
    }
    false
}

fn place_contains_propagation(place: &TypedPlace) -> (r: bool)
    ensures
        r == place_propagates(place@),
    decreases place,
{
    match place {
        TypedPlace::Temporary { value, .. } => contains_propagation(value),
        TypedPlace::Field { base, .. } => place_contains_propagation(base),
        TypedPlace::Index { base, index, .. } => {
            let a: bool = place_contains_propagation(base);
            let b: bool = contains_propagation(index);
            a || b
        },
        TypedPlace::Dereference { pointer, .. } => contains_propagation(pointer),
        _ => false,
    }
}

/// Whether `?` stands in a step.
pub open spec fn step_propagates(step: MirInstructionView) -> bool {
    match step {
        MirInstructionView::Declare { value, .. } => propagates(value),
        MirInstructionView::Store { target, value, .. } => place_propagates(target) || propagates(
            value,
        ),
        MirInstructionView::Expr { expression, .. } => propagates(expression),
        MirInstructionView::RunCleanup { .. } => false,
    }
}

pub open spec fn any_step_propagates(steps: Seq<MirInstructionView>) -> bool {
    exists|i: int| 0 <= i < steps.len() && step_propagates(#[trigger] steps[i])
}

fn step_contains_propagation(step: &MirInstruction) -> (r: bool)
    ensures
        r == step_propagates(step@),
{
    match step {
        MirInstruction::Declare { value, .. } => contains_propagation(value),
        MirInstruction::Store { target, value, .. } => {
            let a: bool = place_contains_propagation(target);
            let b: bool = contains_propagation(value);
            a || b
        },
        MirInstruction::Expr { expression, .. } => contains_propagation(expression),
        MirInstruction::RunCleanup { .. } => false,
    }
}

fn any_step_contains_propagation(steps: &Vec<MirInstruction>) -> (r: bool)
    ensures
        r == any_step_propagates(instructions_view(steps@)),
{
    let ghost all = instructions_view(steps@);
    for i in 0..steps.len()
        invariant
            all == instructions_view(steps@),
            forall|k: int| 0 <= k < i ==> !step_propagates(#[trigger] all[k]),
    {
        assert(all[i as int] == steps@[i as int]@);
        if step_contains_propagation(&steps[i]) {
            return true;
        }
    }
    false
}

// ---------------------------------------------------------------------------
// What lowering makes of a function
// ---------------------------------------------------------------------------

/// A loop around: where `break` goes, where `continue` goes, and how many
/// scopes are around the loop.
pub ghost struct LoopView {
    pub exit: BlockId,
    pub next: BlockId,
    pub depth: int,
}

/// The blocks so far, what is deferred in each, the loops around, what the
/// scopes around have deferred, and the next free captured local.
pub ghost struct Graph {
    pub blocks: Seq<MirBlockView>,
    pub cleanup: Seq<Seq<MirCleanupView>>,
    pub loops: Seq<LoopView>,
    pub defers: Seq<Seq<MirCleanupView>>,
    pub capture: u32,
}

/// The identity of the block at a place.
#[verifier::opaque]
pub open spec fn numbered(place: int) -> BlockId {
    BlockId((place % 0x1_0000_0000) as u32)
}

pub broadcast proof fn lemma_numbered(place: int)
    requires
        0 <= place,
    ensures
        (#[trigger] numbered(place)).0 <= place,
        place < most_blocks() ==> numbered(place).0 == place,
{
    reveal(numbered);
}

/// How many blocks have identities of their own.
pub open spec fn most_blocks() -> nat {
    0x1_0000_0000
}

pub open spec fn empty_block(id: BlockId) -> MirBlockView {
    MirBlockView { id, instructions: Seq::empty(), terminator: MirTerminatorView::Unreachable }
}

/// The graph with one more block, in which the calls given are deferred.
pub open spec fn with_block_of(g: Graph, actions: Seq<MirCleanupView>) -> Graph {
    Graph {
        blocks: g.blocks.push(empty_block(numbered(g.blocks.len() as int))),
        cleanup: g.cleanup.push(actions),
        ..g
    }
}

/// The graph with one more block, in which all is deferred that the scopes
/// around have deferred so far.
pub open spec fn with_block(g: Graph) -> Graph {
    with_block_of(g, deferred(g.defers, 0))
}

/// The graph with a block in which the calls given are deferred.
pub open spec fn with_list(g: Graph, id: BlockId, actions: Seq<MirCleanupView>) -> Graph {
    Graph { cleanup: g.cleanup.update(id.0 as int, actions), ..g }
}

/// The graph with a block that ends in another way.
pub open spec fn with_end(g: Graph, id: BlockId, terminator: MirTerminatorView) -> Graph {
    let block = g.blocks[id.0 as int];
    Graph {
        blocks: g.blocks.update(id.0 as int, MirBlockView { terminator, ..block }),
        ..g
    }
}

/// The graph with one more step in a block.
pub open spec fn with_step(g: Graph, id: BlockId, step: MirInstructionView) -> Graph {
    let block = g.blocks[id.0 as int];
    Graph {
        blocks: g.blocks.update(
            id.0 as int,
            MirBlockView { instructions: block.instructions.push(step), ..block },
        ),
        ..g
    }
}

/// What the scopes from `first` on have deferred, the last deferred first.
pub open spec fn deferred(defers: Seq<Seq<MirCleanupView>>, first: int) -> Seq<MirCleanupView>
    decreases defers.len(),
{
    if defers.len() <= first || defers.len() == 0 {
        Seq::empty()
    } else {
        defers.last().reverse() + deferred(defers.drop_last(), first)
    }
}

pub open spec fn cleanup_step(g: Graph, first: int) -> MirInstructionView {
    MirInstructionView::RunCleanup { actions: deferred(g.defers, first) }
}

/// The name of the local that holds a captured argument.
pub open spec fn capture_name(id: u32) -> Seq<char> {
    "$defer"@ + decimal(id as nat)
}

pub open spec fn next_capture(id: u32) -> u32 {
    if id == 0 {
        0
    } else {
        (id - 1) as u32
    }
}

/// The arguments from `i` on, each evaluated into a local of its own: the
/// graph then, and the loads of those locals.
pub open spec fn captured(
    g: Graph,
    at: BlockId,
    arguments: Seq<TypedExprView>,
    i: int,
    before: Seq<TypedExprView>,
    span: Span,
) -> (Graph, Seq<TypedExprView>)
    decreases arguments.len() - i,
{
    if i < 0 || i >= arguments.len() {
        (g, before)
    } else {
        let id = LocalId(g.capture);
        let name = capture_name(g.capture);
        let ty = arguments[i].ty();
        let step = MirInstructionView::Declare {
            id,
            name,
            ty,
            mutable: false,
            value: arguments[i],
            span,
        };
        let load = TypedExprView::Load { id, name, ty, span: arguments[i].span() };
        captured(
            Graph { capture: next_capture(g.capture), ..with_step(g, at, step) },
            at,
            arguments,
            i + 1,
            before.push(load),
            span,
        )
    }
}

/// Where an expression goes for which the calls given are deferred. An
/// expression without `?` goes to block `at`. One with `?` needs a block that
/// lists just those calls: `at`, if it does or if no other `?` needs its list;
/// otherwise a new block.
#[verifier::opaque]
pub open spec fn prepared(
    g: Graph,
    at: BlockId,
    propagating: bool,
    actions: Seq<MirCleanupView>,
) -> (Graph, BlockId) {
    if !propagating || g.cleanup[at.0 as int].len() == actions.len() {
        (g, at)
    } else if !any_step_propagates(g.blocks[at.0 as int].instructions) {
        (with_list(g, at, actions), at)
    } else {
        let next = fresh(g, 0);
        (with_end(with_block_of(g, actions), at, MirTerminatorView::Jump(next)), next)
    }
}

/// Where an expression goes with all deferred that the scopes around have
/// deferred.
pub open spec fn prepared_for(g: Graph, at: BlockId, propagating: bool) -> (Graph, BlockId) {
    prepared(g, at, propagating, deferred(g.defers, 0))
}

/// The graph with one more call deferred, which the block lists from now on,
/// unless a `?` in it needs its list as it is.
pub open spec fn with_deferred(g: Graph, at: BlockId, call: MirCleanupView) -> Graph {
    let own = g.defers.last().push(call);
    let noted = Graph { defers: g.defers.drop_last().push(own), ..g };
    if any_step_propagates(g.blocks[at.0 as int].instructions) {
        noted
    } else {
        with_list(noted, at, deferred(noted.defers, 0))
    }
}

/// The graph, the block where lowering goes on, and whether control gets
/// there.
pub type Flow = Result<(Graph, BlockId, bool), MirError>;

/// The graph with a block's statements lowered into it from `at` on. A block
/// is a scope: at its end, what it deferred runs.
pub open spec fn lowered_block(g: Graph, b: TypedBlockView, at: BlockId) -> Flow
    decreases b,
{
    let inside = Graph { defers: g.defers.push(Seq::empty()), ..g };
    match lowered_statements(inside, b.statements, 0, at) {
        Err(error) => Err(error),
        Ok((h, last, falls)) => {
            let done = if falls {
                with_step(h, last, cleanup_step(h, h.defers.len() - 1))
            } else {
                h
            };
            Ok((Graph { defers: done.defers.drop_last(), ..done }, last, falls))
        },
    }
}

/// The statements from `i` on, as far as control reaches them.
pub open spec fn lowered_statements(
    g: Graph,
    statements: Seq<TypedStmtView>,
    i: int,
    at: BlockId,
) -> Flow
    decreases statements, statements.len() - i,
{
    if i < 0 || i >= statements.len() {
        Ok((g, at, true))
    } else {
        match lowered_statement(g, statements[i], at) {
            Err(error) => Err(error),
            Ok((h, next, falls)) => if falls {
                lowered_statements(h, statements, i + 1, next)
            } else {
                Ok((h, next, false))
            },
        }
    }
}

/// The first block of three new ones.
pub open spec fn fresh(g: Graph, k: int) -> BlockId {
    numbered(g.blocks.len() + k)
}

pub open spec fn with_three_blocks(g: Graph) -> Graph {
    with_block(with_block(with_block(g)))
}

pub open spec fn lowered_statement(g: Graph, s: TypedStmtView, at: BlockId) -> Flow
    decreases s,
{
    match s {
        TypedStmtView::If { condition, then_branch, else_branch, span } => {
            let (p, b) = prepared_for(g, at, propagates(condition));
            let (yes, no, join) = (fresh(p, 0), fresh(p, 1), fresh(p, 2));
            let branch = MirTerminatorView::Branch {
                condition,
                then_block: yes,
                else_block: no,
                span,
            };
            match lowered_block(with_end(with_three_blocks(p), b, branch), then_branch, yes) {
                Err(error) => Err(error),
                Ok((h, end, falls)) => {
                    let first = joined_at(h, end, falls, join);
                    match else_branch {
                        None => Ok((joined_at(first, no, true, join), join, true)),
                        Some(other) => match lowered_block(first, other, no) {
                            Err(error) => Err(error),
                            Ok((k, last, also)) => Ok(
                                (joined_at(k, last, also, join), join, falls || also),
                            ),
                        },
                    }
                },
            }
        },
        TypedStmtView::While { condition, body, span } => {
            let (test, inside, exit) = (fresh(g, 0), fresh(g, 1), fresh(g, 2));
            let branch = MirTerminatorView::Branch {
                condition,
                then_block: inside,
                else_block: exit,
                span,
            };
            let ready = with_end(
                with_end(with_three_blocks(g), at, MirTerminatorView::Jump(test)),
                test,
                branch,
            );
            let around = LoopView { exit, next: test, depth: g.defers.len() as int };
            match lowered_block(Graph { loops: g.loops.push(around), ..ready }, body, inside) {
                Err(error) => Err(error),
                Ok((h, end, falls)) => Ok(
                    (
                        joined_at(Graph { loops: h.loops.drop_last(), ..h }, end, falls, test),
                        exit,
                        true,
                    ),
                ),
            }
        },
        TypedStmtView::Break { span } => if g.loops.len() == 0 {
            Err(MirError::BreakOutsideLoop { span })
        } else {
            let around = g.loops.last();
            Ok(
                (
                    with_end(
                        with_step(g, at, cleanup_step(g, around.depth)),
                        at,
                        MirTerminatorView::Jump(around.exit),
                    ),
                    at,
                    false,
                ),
            )
        },
        TypedStmtView::Continue { span } => if g.loops.len() == 0 {
            Err(MirError::ContinueOutsideLoop { span })
        } else {
            let around = g.loops.last();
            Ok(
                (
                    with_end(
                        with_step(g, at, cleanup_step(g, around.depth)),
                        at,
                        MirTerminatorView::Jump(around.next),
                    ),
                    at,
                    false,
                ),
            )
        },
        TypedStmtView::Return { value, .. } => {
            let cleaned = with_step(g, at, cleanup_step(g, 0));
            let (p, b) = prepared(
                cleaned,
                at,
                value matches Some(e) && propagates(e),
                Seq::empty(),
            );
            Ok((with_end(p, b, MirTerminatorView::Return(value)), b, false))
        },
        TypedStmtView::Defer { function, name, arguments, span } => {
            let (p, b) = prepared_for(g, at, any_propagates(arguments));
            let (h, loads) = captured(p, b, arguments, 0, Seq::empty(), span);
            let call = MirCleanupView { function, name, arguments: loads, span };
            Ok((with_deferred(h, b, call), b, true))
        },
        TypedStmtView::Declare { id, name, ty, mutable, value, span } => Ok(
            stepped(g, at, MirInstructionView::Declare { id, name, ty, mutable, value, span }),
        ),
        TypedStmtView::Store { target, value, ty, span } => Ok(
            stepped(g, at, MirInstructionView::Store { target, value, ty, span }),
        ),
        TypedStmtView::Expr { expression, span } => Ok(
            stepped(g, at, MirInstructionView::Expr { expression, span }),
        ),
    }
}

/// One more step; control goes on behind it.
pub open spec fn stepped(
    g: Graph,
    at: BlockId,
    step: MirInstructionView,
) -> (Graph, BlockId, bool) {
    let (p, b) = prepared_for(g, at, step_propagates(step));
    (with_step(p, b, step), b, true)
}

/// A block that control falls through jumps to where both branches meet.
pub open spec fn joined_at(g: Graph, end: BlockId, falls: bool, join: BlockId) -> Graph {
    if falls {
        with_end(g, end, MirTerminatorView::Jump(join))
    } else {
        g
    }
}

/// The graph of a function before anything is lowered: its entry.
pub open spec fn entry_graph() -> Graph {
    Graph {
        blocks: seq![empty_block(BlockId(0))],
        cleanup: seq![Seq::empty()],
        loops: Seq::empty(),
        defers: Seq::empty(),
        capture: u32::MAX,
    }
}

pub open spec fn lowered_function(f: TypedFunctionView) -> Result<MirFunctionView, MirError> {
    match lowered_block(entry_graph(), f.body, BlockId(0)) {
        Err(error) => Err(error),
        Ok((g, end, falls)) => {
            let h = if falls {
                with_end(g, end, MirTerminatorView::Return(None))
            } else {
                g
            };
            Ok(
                MirFunctionView {
                    id: f.id,
                    name: f.name,
                    params: f.params,
                    return_type: f.return_type,
                    blocks: h.blocks,
                    entry: BlockId(0),
                    span: f.span,
                    is_extern: f.is_extern,
                    abi: f.abi,
                    link_name: f.link_name,
                    exported: f.exported,
                    cleanup: h.cleanup,
                },
            )
        },
    }
}

/// The functions from `i` on, after those before it.
pub open spec fn lowered_functions(
    functions: Seq<TypedFunctionView>,
    i: int,
    before: Seq<MirFunctionView>,
) -> Result<Seq<MirFunctionView>, MirError>
    decreases functions.len() - i,
{
    if i < 0 || i >= functions.len() {
        Ok(before)
    } else {
        match lowered_function(functions[i]) {
            Err(error) => Err(error),
            Ok(f) => lowered_functions(functions, i + 1, before.push(f)),
        }
    }
}

pub open spec fn lowered_program(program: TypedProgramView) -> Result<MirProgramView, MirError> {
    match lowered_functions(program.functions, 0, Seq::empty()) {
        Err(error) => Err(error),
        Ok(functions) => Ok(MirProgramView { functions }),
    }
}

/// The first function from `i` on that has the identity.
pub open spec fn function_by_id(functions: Seq<MirFunctionView>, i: int, id: FunctionId) -> Option<
    MirFunctionView,
>
    decreases functions.len() - i,
{
    if i < 0 || i >= functions.len() {
        None
    } else if functions[i].id == id {
        Some(functions[i])
    } else {
        function_by_id(functions, i + 1, id)
    }
}

// ---------------------------------------------------------------------------
// What holds of every function
// ---------------------------------------------------------------------------

/// Whether the blocks that an end leads to are among the first `n`.
pub open spec fn leads_below(t: MirTerminatorView, n: int) -> bool {
    match t {
        MirTerminatorView::Jump(target) => target.0 < n,
        MirTerminatorView::Branch { then_block, else_block, .. } => then_block.0 < n
            && else_block.0 < n,
        _ => true,
    }
}

/// Whether each block is named by its place and leads to blocks there are.
pub open spec fn connected(blocks: Seq<MirBlockView>) -> bool {
    forall|i: int|
        0 <= i < blocks.len() ==> (#[trigger] blocks[i]).id == numbered(i) && leads_below(
            blocks[i].terminator,
            blocks.len() as int,
        )
}

/// Whether a function has its entry and its blocks are connected.
pub open spec fn well_formed(f: MirFunctionView) -> bool {
    &&& f.entry.0 < f.blocks.len()
    &&& connected(f.blocks)
    &&& f.cleanup.len() == f.blocks.len()
}

spec fn graph_wf(g: Graph) -> bool {
    &&& g.cleanup.len() == g.blocks.len()
    &&& connected(g.blocks)
    &&& forall|i: int|
        0 <= i < g.loops.len() ==> (#[trigger] g.loops[i]).exit.0 < g.blocks.len()
            && g.loops[i].next.0 < g.blocks.len() && 0 <= g.loops[i].depth <= g.defers.len()
}

impl MirProgram {
    /// The blocks of every function.
    pub fn lower(program: &TypedProgram) -> (r: Result<Self, MirError>)
        ensures
            match r {
                Ok(mir) => lowered_program(program@) == Ok::<MirProgramView, MirError>(mir@)
                    && forall|i: int|
                    0 <= i < mir@.functions.len() ==> well_formed(#[trigger] mir@.functions[i]),
                Err(error) => lowered_program(program@) == Err::<MirProgramView, MirError>(error),
            },
    {
        let ghost all = program@.functions;
        let mut functions: Vec<MirFunction> = Vec::new();
        assert(mir_functions_view(functions@) =~= Seq::empty());
        for i in 0..program.functions.len()
            invariant
                all == program@.functions,
                lowered_functions(all, 0, Seq::empty()) == lowered_functions(
                    all,
                    i as int,
                    mir_functions_view(functions@),
                ),
                forall|k: int|
                    0 <= k < functions@.len() ==> well_formed((#[trigger] functions@[k])@),
        {
            assert(all[i as int] == program.functions@[i as int]@);
            let function: MirFunction = MirFunction::lower(&program.functions[i])?;
            proof {
                lemma_mir_functions_push(functions@, function);
            }
            functions.push(function);
        }
        let mir: MirProgram = MirProgram { functions };
        assert forall|i: int| 0 <= i < mir@.functions.len() implies well_formed(
            #[trigger] mir@.functions[i],
        ) by {
            assert(mir@.functions[i] == mir.functions@[i]@);
        }
        Ok(mir)
    }

    pub fn function(&self, id: FunctionId) -> (r: Option<&MirFunction>)
        ensures
            match r {
                Some(f) => function_by_id(self@.functions, 0, id) == Some(f@),
                None => function_by_id(self@.functions, 0, id) is None,
            },
    {
        let ghost all = self@.functions;
        for i in 0..self.functions.len()
            invariant
                all == self@.functions,
                function_by_id(all, 0, id) == function_by_id(all, i as int, id),
        {
            assert(all[i as int] == self.functions@[i as int]@);
            if self.functions[i].id == id {
                return Some(&self.functions[i]);
            }
        }
        None
    }
}

impl MirFunction {
    /// The blocks of a function. Its entry is the first block, and every
    /// block leads to blocks there are.
    pub fn lower(function: &TypedFunction) -> (r: Result<Self, MirError>)
        ensures
            match r {
                Ok(mir) => lowered_function(function@) == Ok::<MirFunctionView, MirError>(mir@)
                    && well_formed(mir@),
                Err(error) => lowered_function(function@) == Err::<MirFunctionView, MirError>(
                    error,
                ),
            },
    {
        let mut lowerer: Lowerer = Lowerer {
            blocks: Vec::new(),
            cleanup: Vec::new(),
            loops: Vec::new(),
            defers: Vec::new(),
            next_capture: u32::MAX,
        };
        let start: BlockId = lowerer.new_block();
        proof {
            assert(lowerer@.blocks =~= entry_graph().blocks);
            assert(lowerer@.cleanup =~= entry_graph().cleanup);
            assert(lowerer@.loops =~= entry_graph().loops);
            assert(lowerer@.defers =~= entry_graph().defers);
        }
        let (end, falls_through) = lowerer.lower_block(&function.body, start)?;
        if falls_through {
            lowerer.end_block(end, MirTerminator::Return(None));
        }
        Ok(
            MirFunction {
                id: function.id,
                name: function.name.clone(),
                params: typed_parameters_clone(&function.params),
                return_type: function.return_type.clone(),
                blocks: lowerer.blocks,
                entry: BlockId(0),
                span: function.span,
                is_extern: function.is_extern,
                abi: match &function.abi {
                    Some(abi) => Some(abi.clone()),
                    None => None,
                },
                link_name: match &function.link_name {
                    Some(name) => Some(name.clone()),
                    None => None,
                },
                exported: function.exported,
                cleanup: lowerer.cleanup,
            },
        )
    }

    /// The deferred calls active in a block.
    pub fn cleanup_of(&self, block: BlockId) -> (r: Vec<MirCleanup>)
        ensures
            cleanups_view(r@) == active(self@, block),
    {
        if (block.0 as usize) < self.cleanup.len() {
            cleanups_clone(&self.cleanup[block.0 as usize])
        } else {
            let none: Vec<MirCleanup> = Vec::new();
            assert(cleanups_view(none@) =~= Seq::empty());
            none
        }
    }
}

/// The deferred calls active in a block.
pub open spec fn active(f: MirFunctionView, block: BlockId) -> Seq<MirCleanupView> {
    if block.0 < f.cleanup.len() {
        f.cleanup[block.0 as int]
    } else {
        Seq::empty()
    }
}

/// A loop around what is being lowered.
struct Loop {
    exit: BlockId,
    next: BlockId,
    depth: usize,
}

struct Lowerer {
    blocks: Vec<MirBlock>,
    cleanup: Vec<Vec<MirCleanup>>,
    loops: Vec<Loop>,
    defers: Vec<Vec<MirCleanup>>,
    next_capture: u32,
}

spec fn loops_view(s: Seq<Loop>) -> Seq<LoopView> {
    Seq::new(
        s.len(),
        |i: int| LoopView { exit: s[i].exit, next: s[i].next, depth: s[i].depth as int },
    )
}

/// A step never takes blocks away, and leaves the loops and the number of
/// scopes around as they were.
spec fn grown(before: Graph, after: Graph) -> bool {
    &&& after.blocks.len() >= before.blocks.len()
    &&& after.loops == before.loops
    &&& after.defers.len() == before.defers.len()
}

impl Lowerer {
    spec fn view(&self) -> Graph {
        Graph {
            blocks: blocks_view(self.blocks@),
            cleanup: cleanup_lists_view(self.cleanup@),
            loops: loops_view(self.loops@),
            defers: cleanup_lists_view(self.defers@),
            capture: self.next_capture,
        }
    }

    /// The deferred calls of the scopes from `first` on, the last deferred
    /// first.
    fn cleanup_actions(&self, first: usize) -> (r: Vec<MirCleanup>)
        requires
            first <= self.defers@.len(),
        ensures
            cleanups_view(r@) == deferred(self@.defers, first as int),
    {
        let ghost all = self@.defers;
        let mut out: Vec<MirCleanup> = Vec::new();
        assert(cleanups_view(out@) =~= Seq::empty());
        let mut n: usize = self.defers.len();
        assert(all.take(n as int) =~= all);
        assert(Seq::<MirCleanupView>::empty() + deferred(all, first as int) =~= deferred(
            all,
            first as int,
        ));
        while n > first
            invariant
                first <= n <= self.defers.len(),
                all == self@.defers,
                deferred(all, first as int) == cleanups_view(out@) + deferred(
                    all.take(n as int),
                    first as int,
                ),
            decreases n,
        {
            let scope: &Vec<MirCleanup> = &self.defers[n - 1];
            let ghost own = cleanups_view(scope@);
            let ghost before = cleanups_view(out@);
            assert(all[n - 1] == own);
            assert(all.take(n as int).drop_last() =~= all.take(n - 1));
            assert(before + own.reverse().take(0) =~= before);
            let mut k: usize = scope.len();
            while k > 0
                invariant
                    k <= scope.len(),
                    own == cleanups_view(scope@),
                    cleanups_view(out@) == before + own.reverse().take(own.len() - k),
                decreases k,
            {
                let action: MirCleanup = scope[k - 1].clone();
                proof {
                    lemma_cleanups_push(out@, action);
                    let done = own.len() - k;
                    assert(own.reverse().take(done + 1) =~= own.reverse().take(done).push(
                        own[k - 1],
                    ));
                    assert(before + own.reverse().take(done + 1) =~= (before + own.reverse().take(
                        done,
                    )).push(own[k - 1]));
                }
                out.push(action);
                k -= 1;
            }
            assert(own.reverse().take(own.len() as int) =~= own.reverse());
            assert(before + (own.reverse() + deferred(all.take(n - 1), first as int)) =~= (before
                + own.reverse()) + deferred(all.take(n - 1), first as int));
            n -= 1;
        }
        assert(cleanups_view(out@) + deferred(all.take(n as int), first as int) =~= cleanups_view(
            out@,
        ));
        out
    }

    fn new_block(&mut self) -> (r: BlockId)
        requires
            graph_wf(old(self)@),
        ensures
            graph_wf(final(self)@),
            final(self)@ == with_block(old(self)@),
            r == fresh(old(self)@, 0),
            r.0 < final(self)@.blocks.len(),
            final(self)@.blocks.len() == old(self)@.blocks.len() + 1,
    {
        let actions: Vec<MirCleanup> = self.cleanup_actions(0);
        self.new_block_of(actions)
    }

    fn new_block_of(&mut self, actions: Vec<MirCleanup>) -> (r: BlockId)
        requires
            graph_wf(old(self)@),
        ensures
            graph_wf(final(self)@),
            final(self)@ == with_block_of(old(self)@, cleanups_view(actions@)),
            r == fresh(old(self)@, 0),
            r.0 < final(self)@.blocks.len(),
            final(self)@.blocks.len() == old(self)@.blocks.len() + 1,
    {
        let ghost listed = cleanups_view(actions@);
        proof {
            reveal(numbered);
        }
        let id: BlockId = BlockId((self.blocks.len() as u64 % 0x1_0000_0000) as u32);
        let block: MirBlock = MirBlock {
            id,
            instructions: Vec::new(),
            terminator: MirTerminator::Unreachable,
        };
        assert(instructions_view(block.instructions@) =~= Seq::empty());
        assert(block@ == empty_block(id));
        proof {
            lemma_blocks_push(self.blocks@, block);
        }
        self.blocks.push(block);
        self.cleanup.push(actions);
        proof {
            assert(self@.cleanup =~= with_block_of(old(self)@, listed).cleanup);
            assert(self@ == with_block_of(old(self)@, listed));
            assert forall|i: int| 0 <= i < self@.blocks.len() implies (
            #[trigger] self@.blocks[i]).id == numbered(i) && leads_below(
                self@.blocks[i].terminator,
                self@.blocks.len() as int,
            ) by {
                if i < old(self)@.blocks.len() {
                    assert(self@.blocks[i] == old(self)@.blocks[i]);
                }
            }
        }
        id
    }

    fn end_block(&mut self, id: BlockId, terminator: MirTerminator)
        requires
            graph_wf(old(self)@),
            id.0 < old(self)@.blocks.len(),
            leads_below(terminator@, old(self)@.blocks.len() as int),
        ensures
            graph_wf(final(self)@),
            final(self)@ == with_end(old(self)@, id, terminator@),
            grown(old(self)@, final(self)@),
    {
        let ghost t = terminator@;
        self.blocks[id.0 as usize].terminator = terminator;
        proof {
            assert(self@.blocks =~= with_end(old(self)@, id, t).blocks);
            assert forall|i: int| 0 <= i < self@.blocks.len() implies (
            #[trigger] self@.blocks[i]).id == numbered(i) && leads_below(
                self@.blocks[i].terminator,
                self@.blocks.len() as int,
            ) by {
                assert(old(self)@.blocks[i].id == numbered(i));
            }
        }
    }

    fn add_step(&mut self, id: BlockId, step: MirInstruction)
        requires
            graph_wf(old(self)@),
            id.0 < old(self)@.blocks.len(),
        ensures
            graph_wf(final(self)@),
            final(self)@ == with_step(old(self)@, id, step@),
            grown(old(self)@, final(self)@),
    {
        let ghost s = step@;
        proof {
            lemma_instructions_push(self.blocks@[id.0 as int].instructions@, step);
        }
        self.blocks[id.0 as usize].instructions.push(step);
        proof {
            assert(self@.blocks =~= with_step(old(self)@, id, s).blocks);
            assert forall|i: int| 0 <= i < self@.blocks.len() implies (
            #[trigger] self@.blocks[i]).id == numbered(i) && leads_below(
                self@.blocks[i].terminator,
                self@.blocks.len() as int,
            ) by {
                assert(old(self)@.blocks[i].id == numbered(i));
            }
        }
    }

    fn set_list(&mut self, id: BlockId, actions: Vec<MirCleanup>)
        requires
            graph_wf(old(self)@),
            id.0 < old(self)@.blocks.len(),
        ensures
            graph_wf(final(self)@),
            final(self)@ == with_list(old(self)@, id, cleanups_view(actions@)),
            grown(old(self)@, final(self)@),
    {
        let ghost listed = cleanups_view(actions@);
        self.cleanup[id.0 as usize] = actions;
        assert(self@.cleanup =~= with_list(old(self)@, id, listed).cleanup);
    }

    /// Whether `?` stands in a step of a block.
    fn block_propagates(&self, id: BlockId) -> (r: bool)
        requires
            id.0 < self@.blocks.len(),
        ensures
            r == any_step_propagates(self@.blocks[id.0 as int].instructions),
    {
        assert(self@.blocks[id.0 as int] == self.blocks@[id.0 as int]@);
        any_step_contains_propagation(&self.blocks[id.0 as usize].instructions)
    }

    /// The block to which an expression goes for which the calls given are
    /// deferred.
    fn prepare(&mut self, current: BlockId, propagating: bool, actions: Vec<MirCleanup>) -> (r:
        BlockId)
        requires
            graph_wf(old(self)@),
            current.0 < old(self)@.blocks.len(),
        ensures
            graph_wf(final(self)@),
            (final(self)@, r) == prepared(
                old(self)@,
                current,
                propagating,
                cleanups_view(actions@),
            ),
            grown(old(self)@, final(self)@),
            r.0 < final(self)@.blocks.len(),
            final(self)@.defers == old(self)@.defers,
    {
        proof {
            reveal(prepared);
        }
        assert(cleanups_view(actions@).len() == actions@.len());
        assert(self@.cleanup[current.0 as int] == cleanups_view(
            self.cleanup@[current.0 as int]@,
        ));
        if !propagating || self.cleanup[current.0 as usize].len() == actions.len() {
            return current;
        }
        if !self.block_propagates(current) {
            self.set_list(current, actions);
            return current;
        }
        let next: BlockId = self.new_block_of(actions);
        self.end_block(current, MirTerminator::Jump(next));
        next
    }

    /// The same with all deferred that the scopes around have deferred.
    fn prepare_for(&mut self, current: BlockId, propagating: bool) -> (r: BlockId)
        requires
            graph_wf(old(self)@),
            current.0 < old(self)@.blocks.len(),
        ensures
            graph_wf(final(self)@),
            (final(self)@, r) == prepared_for(old(self)@, current, propagating),
            grown(old(self)@, final(self)@),
            r.0 < final(self)@.blocks.len(),
            final(self)@.defers == old(self)@.defers,
    {
        let actions: Vec<MirCleanup> = self.cleanup_actions(0);
        self.prepare(current, propagating, actions)
    }

    /// Adds a step where it belongs.
    fn place_step(&mut self, current: BlockId, step: MirInstruction) -> (r: BlockId)
        requires
            graph_wf(old(self)@),
            current.0 < old(self)@.blocks.len(),
        ensures
            graph_wf(final(self)@),
            (final(self)@, r, true) == stepped(old(self)@, current, step@),
            grown(old(self)@, final(self)@),
            r.0 < final(self)@.blocks.len(),
    {
        let propagating: bool = step_contains_propagation(&step);
        let at: BlockId = self.prepare_for(current, propagating);
        self.add_step(at, step);
        at
    }

    /// Lowers a block into the graph from `current` on: where lowering goes on
    /// and whether control gets there.
    fn lower_block(&mut self, block: &TypedBlock, current: BlockId) -> (r: Result<
        (BlockId, bool),
        MirError,
    >)
        requires
            graph_wf(old(self)@),
            current.0 < old(self)@.blocks.len(),
        ensures
            match r {
                Ok((end, falls)) => {
                    &&& lowered_block(old(self)@, block@, current) == Ok::<
                        (Graph, BlockId, bool),
                        MirError,
                    >((final(self)@, end, falls))
                    &&& graph_wf(final(self)@)
                    &&& grown(old(self)@, final(self)@)
                    &&& end.0 < final(self)@.blocks.len()
                },
                Err(error) => lowered_block(old(self)@, block@, current) == Err::<
                    (Graph, BlockId, bool),
                    MirError,
                >(error),
            },
        decreases block, 0int,
    {
        let ghost before = self@;
        self.defers.push(Vec::new());
        proof {
            assert(cleanups_view(self.defers@.last()@) =~= Seq::empty());
            assert(self@.defers =~= before.defers.push(Seq::empty()));
            assert(self@ == Graph { defers: before.defers.push(Seq::empty()), ..before });
        }
        let (last, falls) = self.lower_statements(&block.statements, current)?;
        if falls {
            let actions: Vec<MirCleanup> = self.cleanup_actions(self.defers.len() - 1);
            let step: MirInstruction = MirInstruction::RunCleanup { actions };
            self.add_step(last, step);
        }
        let ghost done = self@;
        self.defers.pop();
        proof {
            assert(self@.defers =~= done.defers.drop_last());
            assert(self@ == Graph { defers: done.defers.drop_last(), ..done });
        }
        Ok((last, falls))
    }

    fn lower_statements(&mut self, statements: &Vec<TypedStmt>, first: BlockId) -> (r: Result<
        (BlockId, bool),
        MirError,
    >)
        requires
            graph_wf(old(self)@),
            first.0 < old(self)@.blocks.len(),
            old(self)@.defers.len() > 0,
        ensures
            match r {
                Ok((end, falls)) => {
                    &&& lowered_statements(
                        old(self)@,
                        typed_stmts_view(statements@),
                        0,
                        first,
                    ) == Ok::<(Graph, BlockId, bool), MirError>((final(self)@, end, falls))
                    &&& graph_wf(final(self)@)
                    &&& grown(old(self)@, final(self)@)
                    &&& end.0 < final(self)@.blocks.len()
                },
                Err(error) => lowered_statements(
                    old(self)@,
                    typed_stmts_view(statements@),
                    0,
                    first,
                ) == Err::<(Graph, BlockId, bool), MirError>(error),
            },
        decreases statements, 0int,
    {
        let ghost start = self@;
        let ghost all = typed_stmts_view(statements@);
        let mut current: BlockId = first;
        for i in 0..statements.len()
            invariant
                all == typed_stmts_view(statements@),
                start == old(self)@,
                graph_wf(self@),
                grown(start, self@),
                current.0 < self@.blocks.len(),
                self@.defers.len() > 0,
                lowered_statements(start, all, 0, first) == lowered_statements(
                    self@,
                    all,
                    i as int,
                    current,
                ),
        {
            assert(all[i as int] == statements@[i as int]@);
            let (next, falls) = self.lower_statement(&statements[i], current)?;
            current = next;
            if !falls {
                return Ok((current, false));
            }
        }
        Ok((current, true))
    }

    fn lower_statement(&mut self, statement: &TypedStmt, current: BlockId) -> (r: Result<
        (BlockId, bool),
        MirError,
    >)
        requires
            graph_wf(old(self)@),
            current.0 < old(self)@.blocks.len(),
            old(self)@.defers.len() > 0,
        ensures
            match r {
                Ok((end, falls)) => {
                    &&& lowered_statement(old(self)@, statement@, current) == Ok::<
                        (Graph, BlockId, bool),
                        MirError,
                    >((final(self)@, end, falls))
                    &&& graph_wf(final(self)@)
                    &&& grown(old(self)@, final(self)@)
                    &&& end.0 < final(self)@.blocks.len()
                },
                Err(error) => lowered_statement(old(self)@, statement@, current) == Err::<
                    (Graph, BlockId, bool),
                    MirError,
                >(error),
            },
        decreases statement, 1int,
    {
        let ghost g = self@;
        match statement {
            TypedStmt::If { .. } => self.lower_if(statement, current),
            TypedStmt::While { .. } => self.lower_while(statement, current),
            TypedStmt::Break { span } => {
                if self.loops.len() == 0 {
                    return Err(MirError::BreakOutsideLoop { span: *span });
                }
                assert(g.loops.last() == g.loops[g.loops.len() - 1]);
                let exit: BlockId = self.loops[self.loops.len() - 1].exit;
                let depth: usize = self.loops[self.loops.len() - 1].depth;
                let actions: Vec<MirCleanup> = self.cleanup_actions(depth);
                self.add_step(current, MirInstruction::RunCleanup { actions });
                self.end_block(current, MirTerminator::Jump(exit));
                Ok((current, false))
            },
            TypedStmt::Continue { span } => {
                if self.loops.len() == 0 {
                    return Err(MirError::ContinueOutsideLoop { span: *span });
                }
                assert(g.loops.last() == g.loops[g.loops.len() - 1]);
                let next: BlockId = self.loops[self.loops.len() - 1].next;
                let depth: usize = self.loops[self.loops.len() - 1].depth;
                let actions: Vec<MirCleanup> = self.cleanup_actions(depth);
                self.add_step(current, MirInstruction::RunCleanup { actions });
                self.end_block(current, MirTerminator::Jump(next));
                Ok((current, false))
            },
            TypedStmt::Return { value, .. } => {
                let actions: Vec<MirCleanup> = self.cleanup_actions(0);
                self.add_step(current, MirInstruction::RunCleanup { actions });
                let propagating: bool = match value {
                    Some(e) => contains_propagation(e),
                    None => false,
                };
                let none: Vec<MirCleanup> = Vec::new();
                assert(cleanups_view(none@) =~= Seq::empty());
                let at: BlockId = self.prepare(current, propagating, none);
                let result: Option<TypedExpr> = match value {
                    Some(e) => Some(e.clone()),
                    None => None,
                };
                self.end_block(at, MirTerminator::Return(result));
                Ok((at, false))
            },
            TypedStmt::Defer { .. } => self.lower_defer(statement, current),
            TypedStmt::Declare { id, name, ty, mutable, value, span } => {
                let step: MirInstruction = MirInstruction::Declare {
                    id: *id,
                    name: name.clone(),
                    ty: ty.clone(),
                    mutable: *mutable,
                    value: value.clone(),
                    span: *span,
                };
                Ok((self.place_step(current, step), true))
            },
            TypedStmt::Store { target, value, ty, span } => {
                let step: MirInstruction = MirInstruction::Store {
                    target: target.clone(),
                    value: value.clone(),
                    ty: ty.clone(),
                    span: *span,
                };
                Ok((self.place_step(current, step), true))
            },
            TypedStmt::Expr { expression, span } => {
                let step: MirInstruction = MirInstruction::Expr {
                    expression: expression.clone(),
                    span: *span,
                };
                Ok((self.place_step(current, step), true))
            },
        }
    }

    /// Lowers an `if`.
    #[verifier::rlimit(30)]
    fn lower_if(&mut self, statement: &TypedStmt, current: BlockId) -> (r: Result<
        (BlockId, bool),
        MirError,
    >)
        requires
            statement is If,
            graph_wf(old(self)@),
            current.0 < old(self)@.blocks.len(),
            old(self)@.defers.len() > 0,
        ensures
            match r {
                Ok((end, falls)) => {
                    &&& lowered_statement(old(self)@, statement@, current) == Ok::<
                        (Graph, BlockId, bool),
                        MirError,
                    >((final(self)@, end, falls))
                    &&& graph_wf(final(self)@)
                    &&& grown(old(self)@, final(self)@)
                    &&& end.0 < final(self)@.blocks.len()
                },
                Err(error) => lowered_statement(old(self)@, statement@, current) == Err::<
                    (Graph, BlockId, bool),
                    MirError,
                >(error),
            },
        decreases statement, 0int,
    {
        let ghost g = self@;
        match statement {
            TypedStmt::If { condition, then_branch, else_branch, span } => {
                let at: BlockId = self.prepare_for(current, contains_propagation(condition));
                let yes: BlockId = self.new_block();
                let no: BlockId = self.new_block();
                let join: BlockId = self.new_block();
                let branch: MirTerminator = MirTerminator::Branch {
                    condition: condition.clone(),
                    then_block: yes,
                    else_block: no,
                    span: *span,
                };
                self.end_block(at, branch);
                let (end, falls) = self.lower_block(then_branch, yes)?;
                if falls {
                    self.end_block(end, MirTerminator::Jump(join));
                }
                match else_branch {
                    None => {
                        self.end_block(no, MirTerminator::Jump(join));
                        Ok((join, true))
                    },
                    Some(other) => {
                        let (last, also) = self.lower_block(other, no)?;
                        if also {
                            self.end_block(last, MirTerminator::Jump(join));
                        }
                        Ok((join, falls || also))
                    },
                }
            },
            _ => Ok((current, true)),
        }
    }

    /// Lowers a loop.
    #[verifier::rlimit(30)]
    fn lower_while(&mut self, statement: &TypedStmt, current: BlockId) -> (r: Result<
        (BlockId, bool),
        MirError,
    >)
        requires
            statement is While,
            graph_wf(old(self)@),
            current.0 < old(self)@.blocks.len(),
            old(self)@.defers.len() > 0,
        ensures
            match r {
                Ok((end, falls)) => {
                    &&& lowered_statement(old(self)@, statement@, current) == Ok::<
                        (Graph, BlockId, bool),
                        MirError,
                    >((final(self)@, end, falls))
                    &&& graph_wf(final(self)@)
                    &&& grown(old(self)@, final(self)@)
                    &&& end.0 < final(self)@.blocks.len()
                },
                Err(error) => lowered_statement(old(self)@, statement@, current) == Err::<
                    (Graph, BlockId, bool),
                    MirError,
                >(error),
            },
        decreases statement, 0int,
    {
        let ghost g = self@;
        match statement {
            TypedStmt::While { condition, body, span } => {
                let test: BlockId = self.new_block();
                let inside: BlockId = self.new_block();
                let exit: BlockId = self.new_block();
                self.end_block(current, MirTerminator::Jump(test));
                let branch: MirTerminator = MirTerminator::Branch {
                    condition: condition.clone(),
                    then_block: inside,
                    else_block: exit,
                    span: *span,
                };
                self.end_block(test, branch);
                let ghost ready = self@;
                let depth: usize = self.defers.len();
                self.loops.push(Loop { exit, next: test, depth });
                proof {
                    let around = LoopView { exit, next: test, depth: g.defers.len() as int };
                    assert(self@.loops =~= g.loops.push(around));
                    assert(self@ == Graph { loops: g.loops.push(around), ..ready });
                    assert forall|i: int| 0 <= i < self@.loops.len() implies (
                    #[trigger] self@.loops[i]).exit.0 < self@.blocks.len()
                        && self@.loops[i].next.0 < self@.blocks.len() && 0
                        <= self@.loops[i].depth <= self@.defers.len() by {
                        if i < g.loops.len() {
                            assert(self@.loops[i] == g.loops[i]);
                        }
                    }
                }
                let (end, falls) = self.lower_block(body, inside)?;
                let ghost h = self@;
                self.loops.pop();
                proof {
                    assert(self@.loops =~= h.loops.drop_last());
                    assert(h.loops.drop_last() =~= g.loops);
                    assert(self@ == Graph { loops: h.loops.drop_last(), ..h });
                    assert forall|i: int| 0 <= i < self@.loops.len() implies (
                    #[trigger] self@.loops[i]).exit.0 < self@.blocks.len()
                        && self@.loops[i].next.0 < self@.blocks.len() && 0
                        <= self@.loops[i].depth <= self@.defers.len() by {
                        assert(self@.loops[i] == h.loops[i]);
                    }
                }
                if falls {
                    self.end_block(end, MirTerminator::Jump(test));
                }
                Ok((exit, true))
            },
            _ => Ok((current, true)),
        }
    }

    /// Lowers a `defer`.
    fn lower_defer(&mut self, statement: &TypedStmt, current: BlockId) -> (r: Result<
        (BlockId, bool),
        MirError,
    >)
        requires
            statement is Defer,
            graph_wf(old(self)@),
            current.0 < old(self)@.blocks.len(),
            old(self)@.defers.len() > 0,
        ensures
            match r {
                Ok((end, falls)) => {
                    &&& lowered_statement(old(self)@, statement@, current) == Ok::<
                        (Graph, BlockId, bool),
                        MirError,
                    >((final(self)@, end, falls))
                    &&& graph_wf(final(self)@)
                    &&& grown(old(self)@, final(self)@)
                    &&& end.0 < final(self)@.blocks.len()
                },
                Err(error) => lowered_statement(old(self)@, statement@, current) == Err::<
                    (Graph, BlockId, bool),
                    MirError,
                >(error),
            },
        decreases statement, 0int,
    {
        let ghost g = self@;
        match statement {
            TypedStmt::Defer { function, name, arguments, span } => {
                let at: BlockId = self.prepare_for(current, any_contains_propagation(arguments));
                let loads: Vec<TypedExpr> = self.capture(at, arguments, *span);
                let ghost h = self@;
                let call: MirCleanup = MirCleanup {
                    function: *function,
                    name: name.clone(),
                    arguments: loads,
                    span: *span,
                };
                let ghost deferred_call = call@;
                let last: usize = self.defers.len() - 1;
                proof {
                    lemma_cleanups_push(self.defers@[last as int]@, call);
                }
                self.defers[last].push(call);
                proof {
                    let own = h.defers.last().push(deferred_call);
                    assert(self@.defers =~= h.defers.drop_last().push(own));
                    assert(self@ == Graph { defers: h.defers.drop_last().push(own), ..h });
                }
                if !self.block_propagates(at) {
                    let actions: Vec<MirCleanup> = self.cleanup_actions(0);
                    self.set_list(at, actions);
                }
                Ok((at, true))
            },
            _ => Ok((current, true)),
        }
    }

    /// Evaluates arguments into locals of their own; gives the loads of those.
    fn capture(&mut self, current: BlockId, arguments: &Vec<TypedExpr>, span: Span) -> (r: Vec<
        TypedExpr,
    >)
        requires
            graph_wf(old(self)@),
            current.0 < old(self)@.blocks.len(),
        ensures
            graph_wf(final(self)@),
            grown(old(self)@, final(self)@),
            (final(self)@, typed_exprs_view(r@)) == captured(
                old(self)@,
                current,
                typed_exprs_view(arguments@),
                0,
                Seq::empty(),
                span,
            ),
            final(self)@.defers == old(self)@.defers,
    {
        let ghost start = self@;
        let ghost all = typed_exprs_view(arguments@);
        let mut loads: Vec<TypedExpr> = Vec::new();
        assert(typed_exprs_view(loads@) =~= Seq::empty());
        for i in 0..arguments.len()
            invariant
                start == old(self)@,
                all == typed_exprs_view(arguments@),
                graph_wf(self@),
                grown(start, self@),
                self@.defers == start.defers,
                current.0 < self@.blocks.len(),
                captured(start, current, all, 0, Seq::empty(), span) == captured(
                    self@,
                    current,
                    all,
                    i as int,
                    typed_exprs_view(loads@),
                    span,
                ),
        {
            let argument: &TypedExpr = &arguments[i];
            assert(all[i as int] == argument@);
            let number: u32 = self.next_capture;
            let id: LocalId = LocalId(number);
            let digits: String = decimal_text(number as u128);
            let name: String = joined("$defer".to_owned(), digits.as_str());
            let step: MirInstruction = MirInstruction::Declare {
                id,
                name: name.clone(),
                ty: argument.ty(),
                mutable: false,
                value: argument.clone(),
                span,
            };
            self.add_step(current, step);
            let ghost stepped = self@;
            self.next_capture = if number == 0 {
                0
            } else {
                number - 1
            };
            assert(self@ == Graph { capture: next_capture(number), ..stepped });
            loads.push(TypedExpr::Load { id, name, ty: argument.ty(), span: argument.span() });
        }
        loads
    }
}

} // verus!
