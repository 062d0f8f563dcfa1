//! What holds between the stages.
use crate::ast::{
    BlockView, DeclView, ExprView, FunctionDeclView, ProgramView, StmtView, StructInitView,
    TypeView, VariableDeclView,
};
use crate::comptime::{ErrorView, Limits, ValueView};
use crate::execution;
use crate::execution::{Heap, Layout, Locals, StopView, World};
use crate::expansion;
use crate::expansion::{Progress, Setting, Values};
use crate::floats::FloatModel;
use crate::interpreter;
use crate::lexer::Span;
use crate::mir;
use crate::mir::{deferred, Graph, MirCleanupView, MirFunctionView};
use crate::specialize::specialized;
use crate::typed::{
    DefId, IntegerWidth, LocalId, ResolvedType, TypedBlockView, TypedExprView, TypedFieldView,
    TypedFunctionView, TypedStmtView, TypedStructView,
};
use crate::typed_eval;
use crate::typing;
use crate::typing::{Context, Frame, Place};
use vstd::prelude::*;

verus! {

// ---------------------------------------------------------------------------
// Jumps
// ---------------------------------------------------------------------------

/// Whether every `break` and `continue` of a block stands in a loop.
pub open spec fn jumps_fit(b: TypedBlockView, looped: bool) -> bool
    decreases b,
{
    all_jumps_fit(b.statements, looped)
}

pub open spec fn all_jumps_fit(ss: Seq<TypedStmtView>, looped: bool) -> bool
    decreases ss,
{
    forall|i: int| 0 <= i < ss.len() ==> statement_jumps_fit(#[trigger] ss[i], looped)
}

pub open spec fn statement_jumps_fit(s: TypedStmtView, looped: bool) -> bool
    decreases s,
{
    match s {
        TypedStmtView::If { then_branch, else_branch, .. } => jumps_fit(then_branch, looped)
            && match else_branch {
            Some(branch) => jumps_fit(branch, looped),
            None => true,
        },
        TypedStmtView::While { body, .. } => jumps_fit(body, true),
        TypedStmtView::Break { .. } => looped,
        TypedStmtView::Continue { .. } => looped,
        _ => true,
    }
}

/// Analysis lets a `break` or `continue` stand only in a loop.
proof fn lemma_lowered_jumps_fit(
    place: Place,
    frame: Frame,
    statements: Seq<StmtView>,
    i: int,
    before: Seq<TypedStmtView>,
)
    requires
        all_jumps_fit(before, place.in_loop),
    ensures
        typing::lowered_statements(place, frame, statements, i, before) matches Ok((ss, _))
            ==> all_jumps_fit(ss, place.in_loop),
    decreases statements, statements.len() - i,
{
    if 0 <= i < statements.len() {
        lemma_lowered_statement_fits(place, frame, statements[i]);
        if let Ok((typed, after)) = typing::lowered_statement(place, frame, statements[i]) {
            lemma_lowered_jumps_fit(place, after, statements, i + 1, before.push(typed));
        }
    }
}

proof fn lemma_lowered_block_fits(place: Place, frame: Frame, b: BlockView)
    ensures
        typing::lowered_block(place, frame, b) matches Ok((typed, _)) ==> jumps_fit(
            typed,
            place.in_loop,
        ),
    decreases b,
{
    let inner = Frame {
        locals: frame.locals,
        start: frame.locals.len() as int,
        next: frame.next,
    };
    lemma_lowered_jumps_fit(place, inner, b.statements, 0, Seq::empty());
}

proof fn lemma_lowered_statement_fits(place: Place, frame: Frame, s: StmtView)
    ensures
        typing::lowered_statement(place, frame, s) matches Ok((typed, _)) ==> statement_jumps_fit(
            typed,
            place.in_loop,
        ),
    decreases s,
{
    match s {
        StmtView::If { then_branch, else_branch, .. } => {
            lemma_lowered_block_fits(place, frame, then_branch);
            if let Ok((_, after)) = typing::lowered_block(place, frame, then_branch) {
                if let Some(branch) = else_branch {
                    lemma_lowered_block_fits(place, after, branch);
                }
            }
        },
        StmtView::While { body, .. } => {
            lemma_lowered_block_fits(Place { in_loop: true, ..place }, frame, body);
        },
        _ => {},
    }
}

proof fn lemma_captured_keeps_loops(
    g: Graph,
    at: mir::BlockId,
    arguments: Seq<TypedExprView>,
    i: int,
    before: Seq<TypedExprView>,
    span: Span,
)
    ensures
        mir::captured(g, at, arguments, i, before, span).0.loops == g.loops,
    decreases arguments.len() - i,
{
    if 0 <= i < arguments.len() {
        let id = LocalId(g.capture);
        let name = mir::capture_name(g.capture);
        let ty = arguments[i].ty();
        let step = mir::MirInstructionView::Declare {
            id,
            name,
            ty,
            mutable: false,
            value: arguments[i],
            span,
        };
        let load = TypedExprView::Load { id, name, ty, span: arguments[i].span() };
        lemma_captured_keeps_loops(
            Graph { capture: mir::next_capture(g.capture), ..mir::with_step(g, at, step) },
            at,
            arguments,
            i + 1,
            before.push(load),
            span,
        );
    }
}

broadcast proof fn lemma_preparing_keeps_loops(
    g: Graph,
    at: mir::BlockId,
    propagating: bool,
    actions: Seq<MirCleanupView>,
)
    ensures
        (#[trigger] mir::prepared(g, at, propagating, actions)).0.loops == g.loops,
{
    reveal(mir::prepared);
}

/// Blocks can be made of a block whose jumps fit.
proof fn lemma_fitting_block_lowers(g: Graph, b: TypedBlockView, at: mir::BlockId)
    requires
        jumps_fit(b, g.loops.len() > 0),
    ensures
        mir::lowered_block(g, b, at) matches Ok((h, _, _)) && h.loops == g.loops,
    decreases b,
{
    let inside = Graph { defers: g.defers.push(Seq::empty()), ..g };
    lemma_fitting_statements_lower(inside, b.statements, 0, at);
}

proof fn lemma_fitting_statements_lower(
    g: Graph,
    ss: Seq<TypedStmtView>,
    i: int,
    at: mir::BlockId,
)
    requires
        all_jumps_fit(ss, g.loops.len() > 0),
    ensures
        mir::lowered_statements(g, ss, i, at) matches Ok((h, _, _)) && h.loops == g.loops,
    decreases ss, ss.len() - i,
{
    if 0 <= i < ss.len() {
        lemma_fitting_statement_lowers(g, ss[i], at);
        if let Ok((h, next, falls)) = mir::lowered_statement(g, ss[i], at) {
            if falls {
                lemma_fitting_statements_lower(h, ss, i + 1, next);
            }
        }
    }
}

proof fn lemma_fitting_statement_lowers(g: Graph, s: TypedStmtView, at: mir::BlockId)
    requires
        statement_jumps_fit(s, g.loops.len() > 0),
    ensures
        mir::lowered_statement(g, s, at) matches Ok((h, _, _)) && h.loops == g.loops,
    decreases s,
{
    broadcast use lemma_preparing_keeps_loops;

    match s {
        TypedStmtView::If { condition, then_branch, else_branch, span } => {
            let (p, b) = mir::prepared_for(g, at, mir::propagates(condition));
            let (yes, no, join) = (mir::fresh(p, 0), mir::fresh(p, 1), mir::fresh(p, 2));
            let branch = mir::MirTerminatorView::Branch {
                condition,
                then_block: yes,
                else_block: no,
                span,
            };
            let ready = mir::with_end(mir::with_three_blocks(p), b, branch);
            lemma_fitting_block_lowers(ready, then_branch, yes);
            if let Ok((h, end, falls)) = mir::lowered_block(ready, then_branch, yes) {
                if let Some(other) = else_branch {
                    lemma_fitting_block_lowers(mir::joined_at(h, end, falls, join), other, no);
                }
            }
        },
        TypedStmtView::While { condition, body, span } => {
            let (test, inside, exit) = (mir::fresh(g, 0), mir::fresh(g, 1), mir::fresh(g, 2));
            let branch = mir::MirTerminatorView::Branch {
                condition,
                then_block: inside,
                else_block: exit,
                span,
            };
            let ready = mir::with_end(
                mir::with_end(
                    mir::with_three_blocks(g),
                    at,
                    mir::MirTerminatorView::Jump(test),
                ),
                test,
                branch,
            );
            let around = mir::LoopView { exit, next: test, depth: g.defers.len() as int };
            let looped = Graph { loops: g.loops.push(around), ..ready };
            lemma_fitting_block_lowers(looped, body, inside);
            assert(g.loops.push(around).drop_last() =~= g.loops);
        },
        TypedStmtView::Defer { arguments, span, .. } => {
            let (p, b) = mir::prepared_for(g, at, mir::any_propagates(arguments));
            lemma_captured_keeps_loops(p, b, arguments, 0, Seq::empty(), span);
        },
        _ => {},
    }
}

/// Whether the jumps of every function fit.
pub open spec fn functions_fit(functions: Seq<TypedFunctionView>) -> bool {
    forall|i: int| 0 <= i < functions.len() ==> jumps_fit((#[trigger] functions[i]).body, false)
}

proof fn lemma_lowered_function_fits(ctx: Context, f: FunctionDeclView)
    ensures
        typing::lowered_function(ctx, f) matches Ok(typed) ==> jumps_fit(typed.body, false),
{
    if let Ok((params, frame)) = typing::lowered_parameters(
        ctx,
        typing::empty_frame(),
        f.params,
        0,
        Seq::empty(),
    ) {
        let output = typing::resolved(ctx, f.return_type);
        lemma_lowered_jumps_fit(
            Place { ctx, is_main: typing::is_main(f), output, in_loop: false },
            frame,
            f.body.statements,
            0,
            Seq::empty(),
        );
    }
}

proof fn lemma_lowered_functions_fit(ctx: Context, i: int, before: Seq<TypedFunctionView>)
    requires
        functions_fit(before),
    ensures
        typing::lowered_functions(ctx, i, before) matches Ok(functions) ==> functions_fit(
            functions,
        ),
    decreases ctx.decls.len() - i,
{
    if 0 <= i < ctx.decls.len() {
        match ctx.decls[i] {
            DeclView::Function(f) => {
                lemma_lowered_function_fits(ctx, f);
                if let Ok(typed) = typing::lowered_function(ctx, f) {
                    lemma_lowered_functions_fit(ctx, i + 1, before.push(typed));
                }
            },
            _ => {
                lemma_lowered_functions_fit(ctx, i + 1, before);
            },
        }
    }
}

proof fn lemma_fitting_functions_lower(
    functions: Seq<TypedFunctionView>,
    i: int,
    before: Seq<MirFunctionView>,
)
    requires
        functions_fit(functions),
    ensures
        mir::lowered_functions(functions, i, before) is Ok,
    decreases functions.len() - i,
{
    if 0 <= i < functions.len() {
        lemma_fitting_block_lowers(mir::entry_graph(), functions[i].body, mir::BlockId(0));
        if let Ok(f) = mir::lowered_function(functions[i]) {
            lemma_fitting_functions_lower(functions, i + 1, before.push(f));
        }
    }
}

/// Every program that passes analysis can be made into blocks: a `break` or
/// `continue` outside a loop never gets there.
pub proof fn lemma_analyzed_programs_lower(m: FloatModel, ctx: Context)
    ensures
        typing::lowered_program(m, ctx) matches Ok(typed) ==> mir::lowered_program(typed) is Ok,
{
    lemma_lowered_functions_fit(ctx, 0, Seq::empty());
    if let Ok(typed) = typing::lowered_program(m, ctx) {
        assert(functions_fit(typed.functions));
        lemma_fitting_functions_lower(typed.functions, 0, Seq::empty());
    }
}

// ---------------------------------------------------------------------------
// Deferred calls
// ---------------------------------------------------------------------------

/// What the scopes have deferred, in the order in which it was deferred.
pub open spec fn in_order(defers: Seq<Seq<MirCleanupView>>) -> Seq<MirCleanupView>
    decreases defers.len(),
{
    if defers.len() == 0 {
        Seq::empty()
    } else {
        in_order(defers.drop_last()) + defers.last()
    }
}

/// What all scopes have deferred is listed in the reverse of the order in which
/// it was deferred.
pub proof fn lemma_deferred_calls_run_in_reverse(defers: Seq<Seq<MirCleanupView>>)
    ensures
        deferred(defers, 0) == in_order(defers).reverse(),
    decreases defers.len(),
{
    if defers.len() > 0 {
        lemma_deferred_calls_run_in_reverse(defers.drop_last());
        let a = in_order(defers.drop_last());
        let b = defers.last();
        assert((a + b).reverse() =~= b.reverse() + a.reverse());
    } else {
        assert(in_order(defers).reverse() =~= Seq::empty());
    }
}

/// What all scopes have deferred is what the inner ones have, followed by what
/// the outer ones have.
pub proof fn lemma_deferred_calls_split(defers: Seq<Seq<MirCleanupView>>, first: int)
    requires
        0 <= first <= defers.len(),
    ensures
        deferred(defers, 0) == deferred(defers, first) + deferred(defers.take(first), 0),
    decreases defers.len(),
{
    if defers.len() == first {
        assert(defers.take(first) =~= defers);
        assert(deferred(defers, first) + deferred(defers, 0) =~= deferred(defers, 0));
    } else {
        lemma_deferred_calls_split(defers.drop_last(), first);
        assert(defers.drop_last().take(first) =~= defers.take(first));
        let a = defers.last().reverse();
        let b = deferred(defers.drop_last(), first);
        let c = deferred(defers.take(first), 0);
        assert(a + (b + c) =~= (a + b) + c);
    }
}

// ---------------------------------------------------------------------------
// Identities
// ---------------------------------------------------------------------------

proof fn lemma_ids_increase(decls: Seq<DeclView>, n: int)
    requires
        0 <= n <= decls.len() <= u32::MAX,
    ensures
        ({
            let (ids, next) = typing::assigned_ids(decls, Seq::empty(), n);
            &&& ids.len() == n
            &&& next <= n
            &&& forall|i: int|
                0 <= i < n && typing::declared_name(#[trigger] decls[i]) is Some ==> ids[i].0 < next
            &&& forall|i: int, j: int|
                0 <= i < j < n && typing::declared_name(#[trigger] decls[i]) is Some
                    && typing::declared_name(#[trigger] decls[j]) is Some ==> ids[i].0 < ids[j].0
        }),
    decreases n,
{
    let none = Seq::<(Seq<char>, DefId)>::empty();
    if n > 0 {
        lemma_ids_increase(decls, n - 1);
        let (before, _) = typing::assigned_ids(decls, none, n - 1);
        let (ids, _) = typing::assigned_ids(decls, none, n);
        assert(forall|i: int| 0 <= i < n - 1 ==> #[trigger] ids[i] == before[i]);
    }
}

/// The declarations of a program have identities of their own, which grow in
/// the order of the declarations.
pub proof fn lemma_declarations_have_their_own_identities(program: ProgramView, i: int, j: int)
    requires
        program.declarations.len() <= u32::MAX,
        0 <= i < j < program.declarations.len(),
        typing::declared_name(program.declarations[i]) is Some,
        typing::declared_name(program.declarations[j]) is Some,
    ensures
        typing::context_of(program, Seq::empty()).ids[i].0 < typing::context_of(
            program,
            Seq::empty(),
        ).ids[j].0,
{
    lemma_ids_increase(program.declarations, program.declarations.len() as int);
}

// ---------------------------------------------------------------------------
// Layout
// ---------------------------------------------------------------------------

proof fn lemma_aligned(value: nat, align: nat)
    requires
        align >= 1,
    ensures
        execution::aligned(value, align) >= value,
        execution::aligned(value, align) % align == 0,
        execution::aligned(value, align) < value + align,
{
    if align > 1 {
        let n = (value + align - 1) as int;
        let a = align as int;
        vstd::arithmetic::div_mod::lemma_fundamental_div_mod(n, a);
        vstd::arithmetic::mul::lemma_mul_is_commutative(a, n / a);
        vstd::arithmetic::div_mod::lemma_mod_multiples_basic(n / a, a);
        vstd::arithmetic::div_mod::lemma_mod_bound(n, a);
    }
}

/// Every alignment is at least one.
pub proof fn lemma_alignments_are_positive(
    structs: Seq<TypedStructView>,
    ty: ResolvedType,
    pointer_bits: u32,
    depth: nat,
)
    ensures
        execution::layout(structs, ty, pointer_bits, depth) matches Some(l) ==> l.align >= 1,
    decreases depth, 0int, 0int, ty,
{
    match ty {
        ResolvedType::Array { element, .. } => {
            lemma_alignments_are_positive(structs, *element, pointer_bits, depth);
        },
        ResolvedType::Struct(id) => {
            if let Some(structure) = execution::struct_by_id(structs, 0, id) {
                if depth > 0 {
                    lemma_fields_alignment(
                        structs,
                        structure.fields,
                        pointer_bits,
                        0,
                        Layout { size: 0, align: 1, offsets: Seq::empty() },
                        (depth - 1) as nat,
                    );
                }
            }
        },
        _ => {},
    }
}

proof fn lemma_fields_alignment(
    structs: Seq<TypedStructView>,
    fields: Seq<TypedFieldView>,
    pointer_bits: u32,
    i: int,
    before: Layout,
    depth: nat,
)
    requires
        before.align >= 1,
    ensures
        execution::fields_layout(structs, fields, pointer_bits, i, before, depth) matches Some(l)
            ==> l.align >= 1,
    decreases depth, 1int, fields.len() - i, fields,
{
    if 0 <= i < fields.len() {
        if let Some(inner) = execution::layout(structs, fields[i].ty, pointer_bits, depth) {
            let offset = execution::aligned(before.size, inner.align);
            lemma_fields_alignment(
                structs,
                fields,
                pointer_bits,
                i + 1,
                Layout {
                    size: offset + inner.size,
                    align: execution::larger(before.align, inner.align),
                    offsets: before.offsets.push((fields[i].name, offset)),
                },
                depth,
            );
        }
    }
}

/// Whether field `i` stands where its alignment wants it, behind `start` and
/// with its end not behind `end`.
pub open spec fn well_placed(
    structs: Seq<TypedStructView>,
    field: TypedFieldView,
    pointer_bits: u32,
    depth: nat,
    offset: (Seq<char>, nat),
    end: nat,
) -> bool {
    match execution::layout(structs, field.ty, pointer_bits, depth) {
        Some(inner) => offset.0 == field.name && offset.1 % inner.align == 0 && offset.1
            + inner.size <= end,
        None => false,
    }
}

/// Where the field after field `i` starts, or the end of the struct.
pub open spec fn next_start(l: Layout, i: int) -> nat {
    if i + 1 < l.offsets.len() {
        l.offsets[i + 1].1
    } else {
        l.size
    }
}

proof fn lemma_fields_from(
    structs: Seq<TypedStructView>,
    fields: Seq<TypedFieldView>,
    pointer_bits: u32,
    i: int,
    before: Layout,
    depth: nat,
)
    requires
        0 <= i <= fields.len(),
        before.offsets.len() == i,
        before.align >= 1,
    ensures
        execution::fields_layout(structs, fields, pointer_bits, i, before, depth) matches Some(l)
            ==> {
            &&& l.offsets.len() == fields.len()
            &&& forall|j: int| 0 <= j < i ==> #[trigger] l.offsets[j] == before.offsets[j]
            &&& l.size >= before.size
            &&& l.size % l.align == 0
            &&& i < fields.len() ==> l.offsets[i].1 >= before.size
            &&& forall|j: int|
                i <= j < fields.len() ==> well_placed(
                    structs,
                    #[trigger] fields[j],
                    pointer_bits,
                    depth,
                    l.offsets[j],
                    next_start(l, j),
                )
        },
    decreases fields.len() - i,
{
    if i < fields.len() {
        lemma_alignments_are_positive(structs, fields[i].ty, pointer_bits, depth);
        if let Some(inner) = execution::layout(structs, fields[i].ty, pointer_bits, depth) {
            let offset = execution::aligned(before.size, inner.align);
            let after = Layout {
                size: offset + inner.size,
                align: execution::larger(before.align, inner.align),
                offsets: before.offsets.push((fields[i].name, offset)),
            };
            lemma_aligned(before.size, inner.align);
            lemma_fields_from(structs, fields, pointer_bits, i + 1, after, depth);
            if let Some(l) = execution::fields_layout(
                structs,
                fields,
                pointer_bits,
                i,
                before,
                depth,
            ) {
                assert(l.offsets[i] == after.offsets[i]);
                assert forall|j: int| 0 <= j < i implies #[trigger] l.offsets[j]
                    == before.offsets[j] by {
                    assert(after.offsets[j] == before.offsets[j]);
                }
                assert forall|j: int| i <= j < fields.len() implies well_placed(
                    structs,
                    #[trigger] fields[j],
                    pointer_bits,
                    depth,
                    l.offsets[j],
                    next_start(l, j),
                ) by {
                    if j == i {
                        assert(next_start(l, i) >= after.size);
                    }
                }
            }
        }
    } else {
        lemma_aligned(before.size, before.align);
    }
}

/// The fields of a struct stand one after the other without overlap, each
/// where its alignment wants it, within a size that is a multiple of the
/// struct's alignment.
pub proof fn lemma_fields_do_not_overlap(
    structs: Seq<TypedStructView>,
    fields: Seq<TypedFieldView>,
    pointer_bits: u32,
    depth: nat,
)
    ensures
        execution::fields_layout(
            structs,
            fields,
            pointer_bits,
            0,
            Layout { size: 0, align: 1, offsets: Seq::empty() },
            depth,
        ) matches Some(l) ==> {
            &&& l.offsets.len() == fields.len()
            &&& l.size % l.align == 0
            &&& forall|j: int|
                0 <= j < fields.len() ==> well_placed(
                    structs,
                    #[trigger] fields[j],
                    pointer_bits,
                    depth,
                    l.offsets[j],
                    next_start(l, j),
                )
        },
{
    lemma_fields_from(
        structs,
        fields,
        pointer_bits,
        0,
        Layout { size: 0, align: 1, offsets: Seq::empty() },
        depth,
    );
}

// ---------------------------------------------------------------------------
// Expansion
// ---------------------------------------------------------------------------

/// Whether nothing in an expression is marked for compile time.
pub open spec fn unmarked(e: ExprView) -> bool
    decreases e,
{
    match e {
        ExprView::Comptime { .. } => false,
        ExprView::Binary { left, right, .. } => unmarked(*left) && unmarked(*right),
        ExprView::Unary { operand, .. } => unmarked(*operand),
        ExprView::Call { callee, arguments, .. } => unmarked(*callee) && all_unmarked(arguments),
        ExprView::Field { base, .. } => unmarked(*base),
        ExprView::Index { base, index, .. } => unmarked(*base) && unmarked(*index),
        ExprView::UncheckedIndex { base, index, .. } => unmarked(*base) && unmarked(*index),
        ExprView::StructLiteral { fields, .. } => inits_unmarked(fields),
        ExprView::ArrayLiteral { elements, .. } => all_unmarked(elements),
        ExprView::Propagate { expression, .. } => unmarked(*expression),
        _ => true,
    }
}

pub open spec fn all_unmarked(es: Seq<ExprView>) -> bool
    decreases es,
{
    forall|i: int| 0 <= i < es.len() ==> unmarked(#[trigger] es[i])
}

pub open spec fn inits_unmarked(inits: Seq<StructInitView>) -> bool
    decreases inits,
{
    forall|i: int| 0 <= i < inits.len() ==> unmarked((#[trigger] inits[i]).value)
}

pub open spec fn block_unmarked(b: BlockView) -> bool
    decreases b,
{
    statements_unmarked(b.statements)
}

pub open spec fn statements_unmarked(ss: Seq<StmtView>) -> bool
    decreases ss,
{
    forall|i: int| 0 <= i < ss.len() ==> statement_unmarked(#[trigger] ss[i])
}

pub open spec fn statement_unmarked(s: StmtView) -> bool
    decreases s,
{
    match s {
        StmtView::If { condition, then_branch, else_branch, .. } => unmarked(condition)
            && block_unmarked(then_branch) && match else_branch {
            Some(branch) => block_unmarked(branch),
            None => true,
        },
        StmtView::While { condition, body, .. } => unmarked(condition) && block_unmarked(body),
        StmtView::Return { value, .. } => match value {
            Some(e) => unmarked(e),
            None => true,
        },
        StmtView::Variable(v) => unmarked(v.value),
        StmtView::Assignment { target, value, .. } => unmarked(target) && unmarked(value),
        StmtView::Expr { expression, .. } => unmarked(expression),
        StmtView::Defer { call, .. } => unmarked(call),
        StmtView::Break { .. } => true,
        StmtView::Continue { .. } => true,
    }
}

/// Whether a declaration is no directive, and nothing in it is marked.
pub open spec fn declaration_unmarked(d: DeclView) -> bool {
    match d {
        DeclView::Comptime { .. } => false,
        DeclView::Variable(v) => unmarked(v.value),
        DeclView::Function(f) => block_unmarked(f.body),
        DeclView::Struct(_) => true,
    }
}

proof fn lemma_emitted_unmarked(value: ValueView, span: Span, hint: Option<TypeView>)
    ensures
        expansion::emitted(value, span, hint) matches Ok(e) ==> unmarked(e),
    decreases value,
{
    match value {
        ValueView::Array(values) => {
            let ty = match hint {
                Some(ty) => ty,
                None => TypeView::Array {
                    length: values.len() as u64,
                    element: Box::new(TypeView::Named("i32"@)),
                },
            };
            let inner = match ty {
                TypeView::Array { element, .. } => Some(*element),
                _ => None,
            };
            lemma_all_emitted_unmarked(values, span, inner, 0, Seq::empty());
        },
        ValueView::Struct { fields, .. } => {
            lemma_fields_emitted_unmarked(fields, span, 0, Seq::empty());
        },
        _ => {},
    }
}

proof fn lemma_all_emitted_unmarked(
    values: Seq<ValueView>,
    span: Span,
    hint: Option<TypeView>,
    i: int,
    before: Seq<ExprView>,
)
    requires
        all_unmarked(before),
    ensures
        expansion::all_emitted(values, span, hint, i, before) matches Ok(es) ==> all_unmarked(es),
    decreases values, values.len() - i,
{
    if 0 <= i < values.len() {
        lemma_emitted_unmarked(values[i], span, hint);
        if let Ok(e) = expansion::emitted(values[i], span, hint) {
            lemma_all_emitted_unmarked(values, span, hint, i + 1, before.push(e));
        }
    }
}

proof fn lemma_fields_emitted_unmarked(
    fields: Seq<(Seq<char>, ValueView)>,
    span: Span,
    i: int,
    before: Seq<StructInitView>,
)
    requires
        inits_unmarked(before),
    ensures
        expansion::fields_emitted(fields, span, i, before) matches Ok(inits) ==> inits_unmarked(
            inits,
        ),
    decreases fields, fields.len() - i,
{
    if 0 <= i < fields.len() {
        lemma_emitted_unmarked(fields[i].1, span, None);
        if let Ok(value) = expansion::emitted(fields[i].1, span, None) {
            lemma_fields_emitted_unmarked(
                fields,
                span,
                i + 1,
                before.push(StructInitView { name: fields[i].0, value, span }),
            );
        }
    }
}

proof fn lemma_expanded_unmarked(s: Setting, p: Progress, e: ExprView)
    ensures
        expansion::expanded(s, p, e).0 matches Ok(x) ==> unmarked(x),
    decreases e, 0int,
{
    match e {
        ExprView::Comptime { expression, span } => {
            if let (Ok(value), _) = expansion::value_of(s, p, *expression) {
                lemma_emitted_unmarked(value, span, None);
            }
        },
        ExprView::Binary { left, right, .. } => {
            lemma_expanded_unmarked(s, p, *left);
            lemma_expanded_unmarked(s, expansion::expanded(s, p, *left).1, *right);
        },
        ExprView::Unary { operand, .. } => {
            lemma_expanded_unmarked(s, p, *operand);
        },
        ExprView::Call { callee, arguments, .. } => {
            lemma_expanded_unmarked(s, p, *callee);
            lemma_all_expanded_unmarked(
                s,
                expansion::expanded(s, p, *callee).1,
                arguments,
                0,
                Seq::empty(),
            );
        },
        ExprView::Field { base, .. } => {
            lemma_expanded_unmarked(s, p, *base);
        },
        ExprView::Index { base, index, .. } => {
            lemma_expanded_unmarked(s, p, *base);
            lemma_expanded_unmarked(s, expansion::expanded(s, p, *base).1, *index);
        },
        ExprView::UncheckedIndex { base, index, .. } => {
            lemma_expanded_unmarked(s, p, *base);
            lemma_expanded_unmarked(s, expansion::expanded(s, p, *base).1, *index);
        },
        ExprView::StructLiteral { fields, .. } => {
            lemma_inits_expanded_unmarked(s, p, fields, 0, Seq::empty());
        },
        ExprView::ArrayLiteral { elements, .. } => {
            lemma_all_expanded_unmarked(s, p, elements, 0, Seq::empty());
        },
        ExprView::Propagate { expression, .. } => {
            lemma_expanded_unmarked(s, p, *expression);
        },
        _ => {},
    }
}

proof fn lemma_all_expanded_unmarked(
    s: Setting,
    p: Progress,
    es: Seq<ExprView>,
    i: int,
    before: Seq<ExprView>,
)
    requires
        all_unmarked(before),
    ensures
        expansion::all_expanded(s, p, es, i, before).0 matches Ok(xs) ==> all_unmarked(xs),
    decreases es, es.len() - i,
{
    if 0 <= i < es.len() {
        lemma_expanded_unmarked(s, p, es[i]);
        if let (Ok(x), after) = expansion::expanded(s, p, es[i]) {
            lemma_all_expanded_unmarked(s, after, es, i + 1, before.push(x));
        }
    }
}

proof fn lemma_inits_expanded_unmarked(
    s: Setting,
    p: Progress,
    inits: Seq<StructInitView>,
    i: int,
    before: Seq<StructInitView>,
)
    requires
        inits_unmarked(before),
    ensures
        expansion::inits_expanded(s, p, inits, i, before).0 matches Ok(xs) ==> inits_unmarked(xs),
    decreases inits, inits.len() - i,
{
    if 0 <= i < inits.len() {
        lemma_expanded_unmarked(s, p, inits[i].value);
        if let (Ok(value), after) = expansion::expanded(s, p, inits[i].value) {
            lemma_inits_expanded_unmarked(
                s,
                after,
                inits,
                i + 1,
                before.push(StructInitView { name: inits[i].name, value, span: inits[i].span }),
            );
        }
    }
}

proof fn lemma_variable_unmarked(s: Setting, p: Progress, v: VariableDeclView, inner: ExprView)
    ensures
        expansion::variable_evaluated(s, p, v, inner).0 matches Ok((w, _)) ==> unmarked(w.value),
{
    if let (Ok(value), _) = expansion::value_of(s, p, inner) {
        lemma_emitted_unmarked(value, v.value.span(), expansion::hinted(s, inner));
    }
}

proof fn lemma_block_expanded_unmarked(s: Setting, p: Progress, b: BlockView)
    ensures
        expansion::block_expanded(s, p, b).0 matches Ok(x) ==> block_unmarked(x),
    decreases b, 0int,
{
    lemma_statements_expanded_unmarked(s, p, b.statements, 0, Seq::empty());
}

proof fn lemma_statements_expanded_unmarked(
    s: Setting,
    p: Progress,
    ss: Seq<StmtView>,
    i: int,
    before: Seq<StmtView>,
)
    requires
        statements_unmarked(before),
    ensures
        expansion::statements_expanded(s, p, ss, i, before).0 matches Ok(xs)
            ==> statements_unmarked(xs),
    decreases ss, ss.len() - i,
{
    if 0 <= i < ss.len() {
        lemma_statement_expanded_unmarked(s, p, ss[i]);
        if let (Ok(x), after) = expansion::statement_expanded(s, p, ss[i]) {
            lemma_statements_expanded_unmarked(s, after, ss, i + 1, before.push(x));
        }
    }
}

proof fn lemma_statement_expanded_unmarked(s: Setting, p: Progress, st: StmtView)
    ensures
        expansion::statement_expanded(s, p, st).0 matches Ok(x) ==> statement_unmarked(x),
    decreases st, 0int,
{
    match st {
        StmtView::If { condition, then_branch, else_branch, .. } => {
            lemma_expanded_unmarked(s, p, condition);
            let after = expansion::expanded(s, p, condition).1;
            lemma_block_expanded_unmarked(s, after, then_branch);
            let next = expansion::block_expanded(s, after, then_branch).1;
            if let Some(branch) = else_branch {
                lemma_block_expanded_unmarked(s, next, branch);
            }
        },
        StmtView::While { condition, body, .. } => {
            lemma_expanded_unmarked(s, p, condition);
            lemma_block_expanded_unmarked(s, expansion::expanded(s, p, condition).1, body);
        },
        StmtView::Return { value, .. } => {
            if let Some(e) = value {
                lemma_expanded_unmarked(s, p, e);
            }
        },
        StmtView::Variable(v) => {
            lemma_expanded_unmarked(s, p, v.value);
            if let ExprView::Comptime { expression, .. } = v.value {
                lemma_variable_unmarked(s, p, v, *expression);
            }
        },
        StmtView::Assignment { target, value, .. } => {
            lemma_expanded_unmarked(s, p, target);
            lemma_expanded_unmarked(s, expansion::expanded(s, p, target).1, value);
        },
        StmtView::Expr { expression, .. } => {
            lemma_expanded_unmarked(s, p, expression);
        },
        StmtView::Defer { call, .. } => {
            lemma_expanded_unmarked(s, p, call);
        },
        _ => {},
    }
}

proof fn lemma_declaration_expanded_unmarked(s: Setting, p: Progress, d: DeclView)
    ensures
        expansion::declaration_expanded(s, p, d).0 matches Ok(Some(x)) ==> declaration_unmarked(x),
{
    reveal(expansion::declaration_expanded);
    match d {
        DeclView::Variable(v) => {
            lemma_expanded_unmarked(s, p, v.value);
            if let ExprView::Comptime { expression, .. } = v.value {
                let after = expansion::expanded(s, p, v.value).1;
                if let (Ok(value), _) = expansion::value_of(s, after, *expression) {
                    lemma_emitted_unmarked(
                        value,
                        v.value.span(),
                        expansion::hinted(s, *expression),
                    );
                }
            }
        },
        DeclView::Function(f) => {
            lemma_block_expanded_unmarked(s, p, f.body);
        },
        _ => {},
    }
}

pub open spec fn declarations_unmarked(ds: Seq<DeclView>) -> bool {
    forall|i: int| 0 <= i < ds.len() ==> declaration_unmarked(#[trigger] ds[i])
}

/// Nothing that is marked for compile time is left in the declarations that
/// expansion keeps, and no directive is kept.
proof fn lemma_kept_declarations_are_unmarked(
    s: Setting,
    p: Progress,
    i: int,
    before: Seq<DeclView>,
)
    requires
        declarations_unmarked(before),
    ensures
        expansion::declarations_expanded(s, p, i, before) matches Ok((kept, _))
            ==> declarations_unmarked(kept),
    decreases s.program.declarations.len() - i,
{
    if 0 <= i < s.program.declarations.len() {
        lemma_declaration_expanded_unmarked(s, p, s.program.declarations[i]);
        if let (Ok(kept), after) = expansion::declaration_expanded(
            s,
            p,
            s.program.declarations[i],
        ) {
            lemma_kept_declarations_are_unmarked(
                s,
                after,
                i + 1,
                match kept {
                    Some(d) => before.push(d),
                    None => before,
                },
            );
        }
    }
}

/// Whether nothing generated so far is marked, and there is no more of it
/// than the limit allows.
pub open spec fn is_sound(s: Setting, p: Progress) -> bool {
    declarations_unmarked(p.generated) && p.generated.len() <= s.limits.output
}

proof fn lemma_generate_sound(
    s: Setting,
    p: Progress,
    constant: bool,
    name: Seq<char>,
    value: ValueView,
    span: Span,
)
    requires
        is_sound(s, p),
    ensures
        is_sound(s, expansion::generate(s, p, constant, name, value, span).1),
{
    if let Some(ty) = expansion::type_of_value(value) {
        lemma_emitted_unmarked(value, span, Some(ty));
        if let Ok(e) = expansion::emitted(value, span, Some(ty)) {
            let d = expansion::generated_declaration(constant, name, ty, e, span);
            if !constant {
                let body = BlockView {
                    statements: seq![StmtView::Return { value: Some(e), span }],
                    span,
                };
                assert(block_unmarked(body)) by {
                    assert(statement_unmarked(body.statements[0]));
                }
            }
            assert(declaration_unmarked(d));
        }
    }
}

proof fn lemma_evaluated_sound(s: Setting, p: Progress, env: Values, e: ExprView, depth: nat)
    requires
        is_sound(s, p),
    ensures
        is_sound(s, expansion::evaluated(s, p, env, e, depth).1),
    decreases depth, 2int, e, 1int,
{
    let q = expansion::ticked(p);
    assert(is_sound(s, q));
    if p.steps < s.limits.steps {
        match e {
            ExprView::ArrayLiteral { elements, .. } => {
                let used = expansion::consumed(q, elements.len());
                assert(is_sound(s, used));
                lemma_all_evaluated_sound(s, used, env, elements, 0, Seq::empty(), depth);
            },
            ExprView::StructLiteral { fields, .. } => {
                let used = expansion::consumed(q, fields.len());
                assert(is_sound(s, used));
                lemma_inits_evaluated_sound(s, used, env, fields, 0, Seq::empty(), depth);
            },
            ExprView::Comptime { expression, .. } => {
                lemma_evaluated_sound(s, q, env, *expression, depth);
            },
            ExprView::Unary { operand, .. } => {
                lemma_evaluated_sound(s, q, env, *operand, depth);
            },
            ExprView::Binary { left, right, .. } => {
                lemma_evaluated_sound(s, q, env, *left, depth);
                lemma_evaluated_sound(
                    s,
                    expansion::evaluated(s, q, env, *left, depth).1,
                    env,
                    *right,
                    depth,
                );
            },
            ExprView::Call { callee, arguments, span } => {
                if let ExprView::Identifier { name, .. } = *callee {
                    if expansion::is_provided(name) {
                        lemma_provided_sound(s, q, env, name, arguments, span, depth);
                    } else {
                        lemma_all_evaluated_sound(s, q, env, arguments, 0, Seq::empty(), depth);
                        if let (Ok(values), after) = expansion::all_evaluated(
                            s,
                            q,
                            env,
                            arguments,
                            0,
                            Seq::empty(),
                            depth,
                        ) {
                            lemma_called_sound(s, after, name, values, span, depth);
                        }
                    }
                }
            },
            ExprView::Field { base, .. } => {
                lemma_evaluated_sound(s, q, env, *base, depth);
            },
            ExprView::Index { .. } => {
                lemma_indexed_sound(s, q, env, e, depth);
            },
            ExprView::UncheckedIndex { .. } => {
                lemma_indexed_sound(s, q, env, e, depth);
            },
            _ => {},
        }
    }
}

proof fn lemma_indexed_sound(s: Setting, p: Progress, env: Values, e: ExprView, depth: nat)
    requires
        is_sound(s, p),
    ensures
        is_sound(s, expansion::indexed(s, p, env, e, depth).1),
    decreases depth, 2int, e, 0int,
{
    match e {
        ExprView::Index { base, index, .. } => {
            lemma_evaluated_sound(s, p, env, *base, depth);
            lemma_evaluated_sound(
                s,
                expansion::evaluated(s, p, env, *base, depth).1,
                env,
                *index,
                depth,
            );
        },
        ExprView::UncheckedIndex { base, index, .. } => {
            lemma_evaluated_sound(s, p, env, *base, depth);
            lemma_evaluated_sound(
                s,
                expansion::evaluated(s, p, env, *base, depth).1,
                env,
                *index,
                depth,
            );
        },
        _ => {},
    }
}

proof fn lemma_provided_sound(
    s: Setting,
    p: Progress,
    env: Values,
    name: Seq<char>,
    arguments: Seq<ExprView>,
    span: Span,
    depth: nat,
)
    requires
        is_sound(s, p),
    ensures
        is_sound(s, expansion::provided(s, p, env, name, arguments, span, depth).1),
    decreases depth, 2int, arguments, arguments.len() + 1,
{
    lemma_all_evaluated_sound(s, p, env, arguments, 0, Seq::empty(), depth);
    if arguments.len() == 1 {
        lemma_evaluated_sound(s, p, env, arguments[0], depth);
    } else if arguments.len() == 2 {
        lemma_evaluated_sound(s, p, env, arguments[0], depth);
        if let (Ok(ValueView::String(text)), after) = expansion::evaluated(
            s,
            p,
            env,
            arguments[0],
            depth,
        ) {
            lemma_evaluated_sound(s, after, env, arguments[1], depth);
            if let (Ok(value), last) = expansion::evaluated(s, after, env, arguments[1], depth) {
                lemma_generate_sound(s, last, name == "generate_constant"@, text, value, span);
            }
        }
    }
}

proof fn lemma_all_evaluated_sound(
    s: Setting,
    p: Progress,
    env: Values,
    es: Seq<ExprView>,
    i: int,
    before: Seq<ValueView>,
    depth: nat,
)
    requires
        is_sound(s, p),
    ensures
        is_sound(s, expansion::all_evaluated(s, p, env, es, i, before, depth).1),
    decreases depth, 2int, es, es.len() - i,
{
    if 0 <= i < es.len() {
        lemma_evaluated_sound(s, p, env, es[i], depth);
        if let (Ok(value), after) = expansion::evaluated(s, p, env, es[i], depth) {
            lemma_all_evaluated_sound(s, after, env, es, i + 1, before.push(value), depth);
        }
    }
}

proof fn lemma_inits_evaluated_sound(
    s: Setting,
    p: Progress,
    env: Values,
    inits: Seq<StructInitView>,
    i: int,
    before: Values,
    depth: nat,
)
    requires
        is_sound(s, p),
    ensures
        is_sound(s, expansion::inits_evaluated(s, p, env, inits, i, before, depth).1),
    decreases depth, 2int, inits, inits.len() - i,
{
    if 0 <= i < inits.len() {
        lemma_evaluated_sound(s, p, env, inits[i].value, depth);
        if let (Ok(value), after) = expansion::evaluated(s, p, env, inits[i].value, depth) {
            lemma_inits_evaluated_sound(
                s,
                after,
                env,
                inits,
                i + 1,
                before.push((inits[i].name, value)),
                depth,
            );
        }
    }
}

proof fn lemma_called_sound(
    s: Setting,
    p: Progress,
    name: Seq<char>,
    values: Seq<ValueView>,
    span: Span,
    depth: nat,
)
    requires
        is_sound(s, p),
    ensures
        is_sound(s, expansion::called(s, p, name, values, span, depth).1),
    decreases depth, 1int, values, 0int,
{
    if let Some(f) = expansion::function_named(s, name) {
        if depth > 0 {
            let env = expansion::parameters_bound(f.params, values, 0, Seq::empty());
            lemma_block_run_sound(s, p, env, f.body, (depth - 1) as nat);
        }
    }
}

proof fn lemma_block_run_sound(s: Setting, p: Progress, env: Values, b: BlockView, depth: nat)
    requires
        is_sound(s, p),
    ensures
        is_sound(s, expansion::block_run(s, p, env, b, depth).1),
    decreases depth, 3int, b, 0int,
{
    lemma_statements_run_sound(s, p, env, b.statements, 0, depth);
}

proof fn lemma_statements_run_sound(
    s: Setting,
    p: Progress,
    env: Values,
    ss: Seq<StmtView>,
    i: int,
    depth: nat,
)
    requires
        is_sound(s, p),
    ensures
        is_sound(s, expansion::statements_run(s, p, env, ss, i, depth).1),
    decreases depth, 3int, ss, ss.len() - i,
{
    if 0 <= i < ss.len() {
        lemma_statement_run_sound(s, p, env, ss[i], depth);
        if let (Ok((_, locals)), after) = expansion::statement_run(s, p, env, ss[i], depth) {
            lemma_statements_run_sound(s, after, locals, ss, i + 1, depth);
        }
    }
}

proof fn lemma_statement_run_sound(
    s: Setting,
    p: Progress,
    env: Values,
    st: StmtView,
    depth: nat,
)
    requires
        is_sound(s, p),
    ensures
        is_sound(s, expansion::statement_run(s, p, env, st, depth).1),
    decreases depth, 3int, st, 0int,
{
    match st {
        StmtView::Return { value, .. } => {
            if let Some(e) = value {
                lemma_evaluated_sound(s, p, env, e, depth);
            }
        },
        StmtView::Variable(v) => {
            lemma_evaluated_sound(s, p, env, v.value, depth);
        },
        StmtView::Expr { expression, .. } => {
            lemma_evaluated_sound(s, p, env, expression, depth);
        },
        StmtView::If { condition, then_branch, else_branch, .. } => {
            lemma_evaluated_sound(s, p, env, condition, depth);
            let after = expansion::evaluated(s, p, env, condition, depth).1;
            lemma_block_run_sound(s, after, env, then_branch, depth);
            if let Some(branch) = else_branch {
                lemma_block_run_sound(s, after, env, branch, depth);
            }
        },
        StmtView::While { condition, body, span } => {
            lemma_loop_run_sound(
                s,
                p,
                env,
                condition,
                body,
                span,
                depth,
                s.limits.steps as nat,
            );
        },
        StmtView::Assignment { value, .. } => {
            lemma_evaluated_sound(s, p, env, value, depth);
        },
        _ => {},
    }
}

proof fn lemma_loop_run_sound(
    s: Setting,
    p: Progress,
    env: Values,
    condition: ExprView,
    body: BlockView,
    span: Span,
    depth: nat,
    rounds: nat,
)
    requires
        is_sound(s, p),
    ensures
        is_sound(
            s,
            expansion::loop_run(s, p, env, condition, body, span, depth, rounds).1,
        ),
    decreases depth, 3int, body, rounds + 1,
{
    lemma_evaluated_sound(s, p, env, condition, depth);
    let after = expansion::evaluated(s, p, env, condition, depth).1;
    if rounds > 0 {
        lemma_block_run_sound(s, after, env, body, depth);
        if let (Ok((_, locals)), last) = expansion::block_run(s, after, env, body, depth) {
            lemma_loop_run_sound(
                s,
                last,
                locals,
                condition,
                body,
                span,
                depth,
                (rounds - 1) as nat,
            );
        }
    }
}

proof fn lemma_expanded_sound(s: Setting, p: Progress, e: ExprView)
    requires
        is_sound(s, p),
    ensures
        is_sound(s, expansion::expanded(s, p, e).1),
    decreases e, 0int,
{
    match e {
        ExprView::Comptime { expression, .. } => {
            lemma_evaluated_sound(s, p, Seq::empty(), *expression, s.limits.recursion as nat);
        },
        ExprView::Binary { left, right, .. } => {
            lemma_expanded_sound(s, p, *left);
            lemma_expanded_sound(s, expansion::expanded(s, p, *left).1, *right);
        },
        ExprView::Unary { operand, .. } => {
            lemma_expanded_sound(s, p, *operand);
        },
        ExprView::Call { callee, arguments, .. } => {
            lemma_expanded_sound(s, p, *callee);
            lemma_all_expanded_sound(
                s,
                expansion::expanded(s, p, *callee).1,
                arguments,
                0,
                Seq::empty(),
            );
        },
        ExprView::Field { base, .. } => {
            lemma_expanded_sound(s, p, *base);
        },
        ExprView::Index { base, index, .. } => {
            lemma_expanded_sound(s, p, *base);
            lemma_expanded_sound(s, expansion::expanded(s, p, *base).1, *index);
        },
        ExprView::UncheckedIndex { base, index, .. } => {
            lemma_expanded_sound(s, p, *base);
            lemma_expanded_sound(s, expansion::expanded(s, p, *base).1, *index);
        },
        ExprView::StructLiteral { fields, .. } => {
            lemma_inits_expanded_sound(s, p, fields, 0, Seq::empty());
        },
        ExprView::ArrayLiteral { elements, .. } => {
            lemma_all_expanded_sound(s, p, elements, 0, Seq::empty());
        },
        ExprView::Propagate { expression, .. } => {
            lemma_expanded_sound(s, p, *expression);
        },
        _ => {},
    }
}

proof fn lemma_all_expanded_sound(
    s: Setting,
    p: Progress,
    es: Seq<ExprView>,
    i: int,
    before: Seq<ExprView>,
)
    requires
        is_sound(s, p),
    ensures
        is_sound(s, expansion::all_expanded(s, p, es, i, before).1),
    decreases es, es.len() - i,
{
    if 0 <= i < es.len() {
        lemma_expanded_sound(s, p, es[i]);
        if let (Ok(x), after) = expansion::expanded(s, p, es[i]) {
            lemma_all_expanded_sound(s, after, es, i + 1, before.push(x));
        }
    }
}

proof fn lemma_inits_expanded_sound(
    s: Setting,
    p: Progress,
    inits: Seq<StructInitView>,
    i: int,
    before: Seq<StructInitView>,
)
    requires
        is_sound(s, p),
    ensures
        is_sound(s, expansion::inits_expanded(s, p, inits, i, before).1),
    decreases inits, inits.len() - i,
{
    if 0 <= i < inits.len() {
        lemma_expanded_sound(s, p, inits[i].value);
        if let (Ok(value), after) = expansion::expanded(s, p, inits[i].value) {
            lemma_inits_expanded_sound(
                s,
                after,
                inits,
                i + 1,
                before.push(StructInitView { name: inits[i].name, value, span: inits[i].span }),
            );
        }
    }
}

proof fn lemma_block_expanded_sound(s: Setting, p: Progress, b: BlockView)
    requires
        is_sound(s, p),
    ensures
        is_sound(s, expansion::block_expanded(s, p, b).1),
    decreases b, 0int,
{
    lemma_statements_expanded_sound(s, p, b.statements, 0, Seq::empty());
}

proof fn lemma_statements_expanded_sound(
    s: Setting,
    p: Progress,
    ss: Seq<StmtView>,
    i: int,
    before: Seq<StmtView>,
)
    requires
        is_sound(s, p),
    ensures
        is_sound(s, expansion::statements_expanded(s, p, ss, i, before).1),
    decreases ss, ss.len() - i,
{
    if 0 <= i < ss.len() {
        lemma_statement_expanded_sound(s, p, ss[i]);
        if let (Ok(x), after) = expansion::statement_expanded(s, p, ss[i]) {
            lemma_statements_expanded_sound(s, after, ss, i + 1, before.push(x));
        }
    }
}

proof fn lemma_statement_expanded_sound(s: Setting, p: Progress, st: StmtView)
    requires
        is_sound(s, p),
    ensures
        is_sound(s, expansion::statement_expanded(s, p, st).1),
    decreases st, 0int,
{
    match st {
        StmtView::If { condition, then_branch, else_branch, .. } => {
            lemma_expanded_sound(s, p, condition);
            let after = expansion::expanded(s, p, condition).1;
            lemma_block_expanded_sound(s, after, then_branch);
            let next = expansion::block_expanded(s, after, then_branch).1;
            if let Some(branch) = else_branch {
                lemma_block_expanded_sound(s, next, branch);
            }
        },
        StmtView::While { condition, body, .. } => {
            lemma_expanded_sound(s, p, condition);
            lemma_block_expanded_sound(s, expansion::expanded(s, p, condition).1, body);
        },
        StmtView::Return { value, .. } => {
            if let Some(e) = value {
                lemma_expanded_sound(s, p, e);
            }
        },
        StmtView::Variable(v) => {
            lemma_expanded_sound(s, p, v.value);
            if let ExprView::Comptime { expression, .. } = v.value {
                lemma_evaluated_sound(
                    s,
                    p,
                    Seq::empty(),
                    *expression,
                    s.limits.recursion as nat,
                );
            }
        },
        StmtView::Assignment { target, value, .. } => {
            lemma_expanded_sound(s, p, target);
            lemma_expanded_sound(s, expansion::expanded(s, p, target).1, value);
        },
        StmtView::Expr { expression, .. } => {
            lemma_expanded_sound(s, p, expression);
        },
        StmtView::Defer { call, .. } => {
            lemma_expanded_sound(s, p, call);
        },
        _ => {},
    }
}

proof fn lemma_declaration_expanded_sound(s: Setting, p: Progress, d: DeclView)
    requires
        is_sound(s, p),
    ensures
        is_sound(s, expansion::declaration_expanded(s, p, d).1),
{
    reveal(expansion::declaration_expanded);
    let depth = s.limits.recursion as nat;
    match d {
        DeclView::Variable(v) => {
            lemma_expanded_sound(s, p, v.value);
            let after = expansion::expanded(s, p, v.value).1;
            if let ExprView::Comptime { expression, .. } = v.value {
                lemma_evaluated_sound(s, after, Seq::empty(), *expression, depth);
            } else if let (Ok(plain), _) = expansion::expanded(s, p, v.value) {
                lemma_evaluated_sound(s, after, Seq::empty(), plain, depth);
            }
        },
        DeclView::Comptime { expression, .. } => {
            lemma_evaluated_sound(s, p, Seq::empty(), expression, depth);
        },
        DeclView::Function(f) => {
            lemma_block_expanded_sound(s, p, f.body);
        },
        _ => {},
    }
}

proof fn lemma_declarations_expanded_sound(
    s: Setting,
    p: Progress,
    i: int,
    before: Seq<DeclView>,
)
    requires
        is_sound(s, p),
    ensures
        expansion::declarations_expanded(s, p, i, before) matches Ok((_, after)) ==> is_sound(
            s,
            after,
        ),
    decreases s.program.declarations.len() - i,
{
    if 0 <= i < s.program.declarations.len() {
        let d = s.program.declarations[i];
        lemma_declaration_expanded_sound(s, p, d);
        if let (Ok(kept), after) = expansion::declaration_expanded(s, p, d) {
            lemma_declarations_expanded_sound(
                s,
                after,
                i + 1,
                match kept {
                    Some(x) => before.push(x),
                    None => before,
                },
            );
        }
    }
}

proof fn lemma_with_generated_unmarked(
    s: Setting,
    generated: Seq<DeclView>,
    i: int,
    before: Seq<DeclView>,
)
    requires
        declarations_unmarked(generated),
        declarations_unmarked(before),
        0 <= i <= generated.len(),
    ensures
        expansion::with_generated(s, generated, i, before) matches Ok(all)
            ==> declarations_unmarked(all) && all.len() == before.len() + generated.len() - i,
    decreases generated.len() - i,
{
    if i < generated.len() {
        lemma_with_generated_unmarked(s, generated, i + 1, before.push(generated[i]));
    }
}

proof fn lemma_kept_count(s: Setting, p: Progress, i: int, before: Seq<DeclView>)
    requires
        0 <= i <= s.program.declarations.len(),
    ensures
        expansion::declarations_expanded(s, p, i, before) matches Ok((kept, _)) ==> kept.len()
            <= before.len() + s.program.declarations.len() - i,
    decreases s.program.declarations.len() - i,
{
    if i < s.program.declarations.len() {
        if let (Ok(kept), after) = expansion::declaration_expanded(
            s,
            p,
            s.program.declarations[i],
        ) {
            lemma_kept_count(
                s,
                after,
                i + 1,
                match kept {
                    Some(x) => before.push(x),
                    None => before,
                },
            );
        }
    }
}

/// An expanded program holds no directive and nothing that is marked for
/// compile time, in what was written and in what was generated; and no more
/// is generated than the limit allows.
pub proof fn lemma_expanded_programs_are_plain(
    floats: FloatModel,
    program: ProgramView,
    pointer_width: u32,
    limits: Limits,
)
    ensures
        expansion::expansion(floats, program, pointer_width, limits) matches Ok(plain) ==> {
            &&& declarations_unmarked(plain.declarations)
            &&& specialized(program) matches Ok(written) && plain.declarations.len()
                <= written.declarations.len() + limits.output
        },
{
    if let Ok(written) = specialized(program) {
        let s = Setting { program: written, pointer_width, limits, floats };
        let start = expansion::nothing_done();
        assert(is_sound(s, start));
        lemma_kept_declarations_are_unmarked(s, start, 0, Seq::empty());
        lemma_declarations_expanded_sound(s, start, 0, Seq::empty());
        lemma_kept_count(s, start, 0, Seq::empty());
        if let Ok((kept, p)) = expansion::declarations_expanded(s, start, 0, Seq::empty()) {
            lemma_with_generated_unmarked(s, p.generated, 0, kept);
        }
    }
}

proof fn lemma_unmarked_stays(s: Setting, p: Progress, e: ExprView)
    requires
        unmarked(e),
    ensures
        expansion::expanded(s, p, e) == (Ok::<ExprView, ErrorView>(e), p),
    decreases e, 0int,
{
    match e {
        ExprView::Binary { left, right, .. } => {
            lemma_unmarked_stays(s, p, *left);
            lemma_unmarked_stays(s, p, *right);
        },
        ExprView::Unary { operand, .. } => {
            lemma_unmarked_stays(s, p, *operand);
        },
        ExprView::Call { callee, arguments, .. } => {
            lemma_unmarked_stays(s, p, *callee);
            lemma_all_unmarked_stay(s, p, arguments, 0, Seq::empty());
            assert(arguments.skip(0) =~= arguments);
            assert(Seq::<ExprView>::empty() + arguments =~= arguments);
        },
        ExprView::Field { base, .. } => {
            lemma_unmarked_stays(s, p, *base);
        },
        ExprView::Index { base, index, .. } => {
            lemma_unmarked_stays(s, p, *base);
            lemma_unmarked_stays(s, p, *index);
        },
        ExprView::UncheckedIndex { base, index, .. } => {
            lemma_unmarked_stays(s, p, *base);
            lemma_unmarked_stays(s, p, *index);
        },
        ExprView::StructLiteral { fields, .. } => {
            lemma_inits_unmarked_stay(s, p, fields, 0, Seq::empty());
            assert(fields.skip(0) =~= fields);
            assert(Seq::<StructInitView>::empty() + fields =~= fields);
        },
        ExprView::ArrayLiteral { elements, .. } => {
            lemma_all_unmarked_stay(s, p, elements, 0, Seq::empty());
            assert(elements.skip(0) =~= elements);
            assert(Seq::<ExprView>::empty() + elements =~= elements);
        },
        ExprView::Propagate { expression, .. } => {
            lemma_unmarked_stays(s, p, *expression);
        },
        _ => {},
    }
}

proof fn lemma_all_unmarked_stay(
    s: Setting,
    p: Progress,
    es: Seq<ExprView>,
    i: int,
    before: Seq<ExprView>,
)
    requires
        all_unmarked(es),
        0 <= i <= es.len(),
    ensures
        expansion::all_expanded(s, p, es, i, before) == (
            Ok::<Seq<ExprView>, ErrorView>(before + es.skip(i)),
            p,
        ),
    decreases es, es.len() - i,
{
    if i < es.len() {
        lemma_unmarked_stays(s, p, es[i]);
        lemma_all_unmarked_stay(s, p, es, i + 1, before.push(es[i]));
        assert(before.push(es[i]) + es.skip(i + 1) =~= before + es.skip(i));
    } else {
        assert(before + es.skip(i) =~= before);
    }
}

proof fn lemma_inits_unmarked_stay(
    s: Setting,
    p: Progress,
    inits: Seq<StructInitView>,
    i: int,
    before: Seq<StructInitView>,
)
    requires
        inits_unmarked(inits),
        0 <= i <= inits.len(),
    ensures
        expansion::inits_expanded(s, p, inits, i, before) == (
            Ok::<Seq<StructInitView>, ErrorView>(before + inits.skip(i)),
            p,
        ),
    decreases inits, inits.len() - i,
{
    if i < inits.len() {
        lemma_unmarked_stays(s, p, inits[i].value);
        let again = StructInitView {
            name: inits[i].name,
            value: inits[i].value,
            span: inits[i].span,
        };
        assert(again == inits[i]);
        lemma_inits_unmarked_stay(s, p, inits, i + 1, before.push(inits[i]));
        assert(before.push(inits[i]) + inits.skip(i + 1) =~= before + inits.skip(i));
    } else {
        assert(before + inits.skip(i) =~= before);
    }
}

/// Expansion executes nothing that is not marked for compile time: a body
/// without marks stays as it is, and costs nothing.
pub proof fn lemma_unmarked_bodies_stay(s: Setting, p: Progress, b: BlockView)
    requires
        block_unmarked(b),
    ensures
        expansion::block_expanded(s, p, b) == (Ok::<BlockView, ErrorView>(b), p),
    decreases b, 0int,
{
    lemma_statements_unmarked_stay(s, p, b.statements, 0, Seq::empty());
    assert(b.statements.skip(0) =~= b.statements);
    assert(Seq::<StmtView>::empty() + b.statements =~= b.statements);
}

proof fn lemma_statements_unmarked_stay(
    s: Setting,
    p: Progress,
    ss: Seq<StmtView>,
    i: int,
    before: Seq<StmtView>,
)
    requires
        statements_unmarked(ss),
        0 <= i <= ss.len(),
    ensures
        expansion::statements_expanded(s, p, ss, i, before) == (
            Ok::<Seq<StmtView>, ErrorView>(before + ss.skip(i)),
            p,
        ),
    decreases ss, ss.len() - i,
{
    if i < ss.len() {
        lemma_statement_unmarked_stays(s, p, ss[i]);
        lemma_statements_unmarked_stay(s, p, ss, i + 1, before.push(ss[i]));
        assert(before.push(ss[i]) + ss.skip(i + 1) =~= before + ss.skip(i));
    } else {
        assert(before + ss.skip(i) =~= before);
    }
}

proof fn lemma_statement_unmarked_stays(s: Setting, p: Progress, st: StmtView)
    requires
        statement_unmarked(st),
    ensures
        expansion::statement_expanded(s, p, st) == (Ok::<StmtView, ErrorView>(st), p),
    decreases st, 0int,
{
    match st {
        StmtView::If { condition, then_branch, else_branch, .. } => {
            lemma_unmarked_stays(s, p, condition);
            lemma_unmarked_bodies_stay(s, p, then_branch);
            if let Some(branch) = else_branch {
                lemma_unmarked_bodies_stay(s, p, branch);
            }
        },
        StmtView::While { condition, body, .. } => {
            lemma_unmarked_stays(s, p, condition);
            lemma_unmarked_bodies_stay(s, p, body);
        },
        StmtView::Return { value, .. } => {
            if let Some(e) = value {
                lemma_unmarked_stays(s, p, e);
            }
        },
        StmtView::Variable(v) => {
            lemma_unmarked_stays(s, p, v.value);
        },
        StmtView::Assignment { target, value, .. } => {
            lemma_unmarked_stays(s, p, target);
            lemma_unmarked_stays(s, p, value);
        },
        StmtView::Expr { expression, .. } => {
            lemma_unmarked_stays(s, p, expression);
        },
        StmtView::Defer { call, .. } => {
            lemma_unmarked_stays(s, p, call);
        },
        _ => {},
    }
}

/// Compile-time evaluation calls nothing foreign.
pub proof fn lemma_foreign_calls_are_refused(
    s: Setting,
    p: Progress,
    name: Seq<char>,
    values: Seq<ValueView>,
    span: Span,
    depth: nat,
)
    requires
        expansion::function_named(s, name) matches Some(f) && f.is_extern,
    ensures
        expansion::called(s, p, name, values, span, depth) == (
            Err::<ValueView, ErrorView>(
                expansion::unsupported(
                    "FFI calls are runtime-only in compile-time context"@,
                    span,
                ),
            ),
            p,
        ),
{
}

// ---------------------------------------------------------------------------
// Constants and runs
// ---------------------------------------------------------------------------

/// A constant as the interpreter holds it.
pub open spec fn at_run_time(value: typed_eval::ValueView) -> interpreter::ValueView
    decreases value,
{
    match value {
        typed_eval::ValueView::Unit => interpreter::ValueView::Unit,
        typed_eval::ValueView::Bool(b) => interpreter::ValueView::Bool(b),
        typed_eval::ValueView::Integer(n) => interpreter::ValueView::Int(n),
        typed_eval::ValueView::Float(x) => interpreter::ValueView::Float(x),
        typed_eval::ValueView::Struct(values) => interpreter::ValueView::Struct(
            all_at_run_time(values),
        ),
        typed_eval::ValueView::Array(values) => interpreter::ValueView::Array(
            all_at_run_time(values),
        ),
        typed_eval::ValueView::Result { error, value } => interpreter::ValueView::Result {
            error,
            value: Box::new(at_run_time(*value)),
        },
    }
}

pub open spec fn all_at_run_time(values: Seq<typed_eval::ValueView>) -> Seq<interpreter::ValueView>
    decreases values,
{
    Seq::new(
        values.len(),
        |i: int|
            if 0 <= i < values.len() {
                at_run_time(values[i])
            } else {
                arbitrary()
            },
    )
}

pub open spec fn is_fixed(ty: ResolvedType) -> bool {
    !(ty matches ResolvedType::Integer { width, .. } && width == IntegerWidth::Pointer)
}

/// Whether no operation of an expression depends on the width of pointers or on
/// the function around: `?` leaves it.
pub open spec fn is_portable(e: TypedExprView) -> bool
    decreases e,
{
    match e {
        TypedExprView::Integer { ty, .. } => is_fixed(ty),
        TypedExprView::StructLiteral { fields, .. } => all_portable(fields),
        TypedExprView::ArrayLiteral { elements, .. } => all_portable(elements),
        TypedExprView::Unary { operand, ty, .. } => is_fixed(ty) && is_portable(*operand),
        TypedExprView::Binary { left, right, operand_type, .. } => is_fixed(operand_type)
            && is_portable(*left) && is_portable(*right),
        TypedExprView::ResultOk { value, .. } => is_portable(*value),
        TypedExprView::ResultErr { value, .. } => is_portable(*value),
        TypedExprView::IsErr { value, .. } => is_portable(*value),
        TypedExprView::Unwrap { value, .. } => is_portable(*value),
        TypedExprView::Propagate { .. } => false,
        _ => true,
    }
}

pub open spec fn all_portable(es: Seq<TypedExprView>) -> bool
    decreases es,
{
    forall|i: int| 0 <= i < es.len() ==> is_portable(#[trigger] es[i])
}

/// The interpreter gives an expression the value that it has as a constant,
/// changes nothing by it, and fails where the constant would be no value. Only
/// the interpreter knows the width of pointers, and only there can `?` leave a
/// function.
pub proof fn lemma_runs_agree_with_constants(
    w: World,
    heap: Heap,
    env: Locals,
    e: TypedExprView,
    depth: nat,
)
    requires
        is_portable(e),
    ensures
        match typed_eval::value_of(w.floats, e) {
            Ok(value) => execution::evaluated(w, heap, env, e, depth) == Ok::<
                (interpreter::ValueView, Heap),
                StopView,
            >((at_run_time(value), heap)),
            Err(typed_eval::Error::NotConstant) => true,
            Err(_) => execution::evaluated(w, heap, env, e, depth) is Err,
        },
    decreases e, 0int,
{
    match e {
        TypedExprView::StructLiteral { fields, .. } => {
            lemma_lists_agree(w, heap, env, fields, 0, Seq::empty(), depth);
            assert(all_at_run_time(Seq::empty()) =~= Seq::empty());
        },
        TypedExprView::ArrayLiteral { elements, .. } => {
            lemma_lists_agree(w, heap, env, elements, 0, Seq::empty(), depth);
            assert(all_at_run_time(Seq::empty()) =~= Seq::empty());
        },
        TypedExprView::Unary { operand, .. } => {
            lemma_runs_agree_with_constants(w, heap, env, *operand, depth);
        },
        TypedExprView::Binary { left, right, .. } => {
            lemma_runs_agree_with_constants(w, heap, env, *left, depth);
            lemma_runs_agree_with_constants(w, heap, env, *right, depth);
        },
        TypedExprView::ResultOk { value, .. } => {
            lemma_runs_agree_with_constants(w, heap, env, *value, depth);
        },
        TypedExprView::ResultErr { value, .. } => {
            lemma_runs_agree_with_constants(w, heap, env, *value, depth);
        },
        TypedExprView::IsErr { value, .. } => {
            lemma_runs_agree_with_constants(w, heap, env, *value, depth);
        },
        TypedExprView::Unwrap { value, .. } => {
            lemma_runs_agree_with_constants(w, heap, env, *value, depth);
        },
        _ => {},
    }
}

proof fn lemma_lists_agree(
    w: World,
    heap: Heap,
    env: Locals,
    es: Seq<TypedExprView>,
    i: int,
    before: Seq<typed_eval::ValueView>,
    depth: nat,
)
    requires
        all_portable(es),
    ensures
        match typed_eval::values_of(w.floats, es, i, before) {
            Ok(values) => execution::all_evaluated(
                w,
                heap,
                env,
                es,
                i,
                all_at_run_time(before),
                depth,
            ) == Ok::<(Seq<interpreter::ValueView>, Heap), StopView>(
                (all_at_run_time(values), heap),
            ),
            Err(typed_eval::Error::NotConstant) => true,
            Err(_) => execution::all_evaluated(
                w,
                heap,
                env,
                es,
                i,
                all_at_run_time(before),
                depth,
            ) is Err,
        },
    decreases es, es.len() - i,
{
    if 0 <= i < es.len() {
        lemma_runs_agree_with_constants(w, heap, env, es[i], depth);
        if let Ok(value) = typed_eval::value_of(w.floats, es[i]) {
            lemma_lists_agree(w, heap, env, es, i + 1, before.push(value), depth);
            assert(all_at_run_time(before.push(value)) =~= all_at_run_time(before).push(
                at_run_time(value),
            ));
        }
    }
}

} // verus!
