//! Only what a module exports is visible from another.
use crate::ast::{
    BlockView, DeclView, ExprView, ParameterView, StmtView, StructFieldView, StructInitView,
    TypeView, VariableDeclView,
};
use crate::resolution::{
    exports_name, lemma_hidden_names_are_refused, target_of, visible_block, visible_declaration,
    visible_dotted, visible_expr, visible_exprs, visible_fields, visible_inits, visible_modules,
    visible_parameters, visible_statement, visible_statements, visible_type, visible_variable,
    NodeView,
};
use crate::text::split_at_char;
use vstd::prelude::*;

verus! {

/// Qualified names: what stands before the dot and what stands after it.
pub type Names = Set<(Seq<char>, Seq<char>)>;

// ---------------------------------------------------------------------------
// The qualified names that code mentions
// ---------------------------------------------------------------------------

pub open spec fn dotted_mentions(name: Seq<char>) -> Names {
    match split_at_char(name, '.') {
        Some(pair) => Set::empty().insert(pair),
        None => Set::empty(),
    }
}

pub open spec fn type_mentions(ty: TypeView) -> Names
    decreases ty,
{
    match ty {
        TypeView::Named(name) => dotted_mentions(name),
        TypeView::Pointer(x) => type_mentions(*x),
        TypeView::Slice(x) => type_mentions(*x),
        TypeView::Array { element, .. } => type_mentions(*element),
        TypeView::Result { success, error } => type_mentions(*success).union(type_mentions(*error)),
        TypeView::Unit => Set::empty(),
    }
}

pub open spec fn expr_mentions(e: ExprView) -> Names
    decreases e, 0int,
{
    match e {
        ExprView::Field { base, name, .. } => (match *base {
            ExprView::Identifier { name: alias, .. } => Set::empty().insert((alias, name)),
            _ => Set::empty(),
        }).union(expr_mentions(*base)),
        ExprView::StructLiteral { name, fields, .. } => dotted_mentions(name).union(
            inits_mentions(fields, 0),
        ),
        ExprView::Index { base, index, .. } => expr_mentions(*base).union(expr_mentions(*index)),
        ExprView::UncheckedIndex { base, index, .. } => expr_mentions(*base).union(
            expr_mentions(*index),
        ),
        ExprView::Unary { operand, .. } => expr_mentions(*operand),
        ExprView::Propagate { expression, .. } => expr_mentions(*expression),
        ExprView::Comptime { expression, .. } => expr_mentions(*expression),
        ExprView::Binary { left, right, .. } => expr_mentions(*left).union(expr_mentions(*right)),
        ExprView::Call { callee, arguments, .. } => expr_mentions(*callee).union(
            exprs_mentions(arguments, 0),
        ),
        ExprView::ArrayLiteral { ty, elements, .. } => type_mentions(ty).union(
            exprs_mentions(elements, 0),
        ),
        ExprView::SizeOf { ty, .. } => type_mentions(ty),
        ExprView::AlignOf { ty, .. } => type_mentions(ty),
        ExprView::OffsetOf { ty, .. } => type_mentions(ty),
        _ => Set::empty(),
    }
}

pub open spec fn exprs_mentions(es: Seq<ExprView>, i: int) -> Names
    decreases es, es.len() - i,
{
    if i < 0 || i >= es.len() {
        Set::empty()
    } else {
        expr_mentions(es[i]).union(exprs_mentions(es, i + 1))
    }
}

pub open spec fn inits_mentions(inits: Seq<StructInitView>, i: int) -> Names
    decreases inits, inits.len() - i,
{
    if i < 0 || i >= inits.len() {
        Set::empty()
    } else {
        expr_mentions(inits[i].value).union(inits_mentions(inits, i + 1))
    }
}

pub open spec fn block_mentions(b: BlockView) -> Names
    decreases b, 0int,
{
    statements_mentions(b.statements, 0)
}

pub open spec fn statements_mentions(ss: Seq<StmtView>, i: int) -> Names
    decreases ss, ss.len() - i,
{
    if i < 0 || i >= ss.len() {
        Set::empty()
    } else {
        statement_mentions(ss[i]).union(statements_mentions(ss, i + 1))
    }
}

pub open spec fn statement_mentions(s: StmtView) -> Names
    decreases s, 0int,
{
    match s {
        StmtView::If { condition, then_branch, else_branch, .. } => expr_mentions(condition).union(
            block_mentions(then_branch).union(
                match else_branch {
                    Some(branch) => block_mentions(branch),
                    None => Set::empty(),
                },
            ),
        ),
        StmtView::While { condition, body, .. } => expr_mentions(condition).union(
            block_mentions(body),
        ),
        StmtView::Defer { call, .. } => expr_mentions(call),
        StmtView::Expr { expression, .. } => expr_mentions(expression),
        StmtView::Return { value, .. } => match value {
            Some(e) => expr_mentions(e),
            None => Set::empty(),
        },
        StmtView::Variable(v) => variable_mentions(v),
        StmtView::Assignment { target, value, .. } => expr_mentions(target).union(
            expr_mentions(value),
        ),
        StmtView::Break { .. } => Set::empty(),
        StmtView::Continue { .. } => Set::empty(),
    }
}

pub open spec fn variable_mentions(v: VariableDeclView) -> Names {
    (match v.ty {
        Some(ty) => type_mentions(ty),
        None => Set::empty(),
    }).union(expr_mentions(v.value))
}

pub open spec fn fields_mentions(fields: Seq<StructFieldView>, i: int) -> Names
    decreases fields.len() - i,
{
    if i < 0 || i >= fields.len() {
        Set::empty()
    } else {
        type_mentions(fields[i].ty).union(fields_mentions(fields, i + 1))
    }
}

pub open spec fn parameters_mentions(params: Seq<ParameterView>, i: int) -> Names
    decreases params.len() - i,
{
    if i < 0 || i >= params.len() {
        Set::empty()
    } else {
        type_mentions(params[i].ty).union(parameters_mentions(params, i + 1))
    }
}

/// The qualified names in a declaration.
pub open spec fn mentions(d: DeclView) -> Names {
    match d {
        DeclView::Struct(s) => fields_mentions(s.fields, 0),
        DeclView::Variable(v) => variable_mentions(v),
        DeclView::Function(f) => parameters_mentions(f.params, 0).union(
            type_mentions(f.return_type).union(block_mentions(f.body)),
        ),
        DeclView::Comptime { expression, .. } => expr_mentions(expression),
    }
}

// ---------------------------------------------------------------------------
// The law
// ---------------------------------------------------------------------------

/// The qualified names that module `k` may mention: where an import of module
/// `k` stands before the dot, the imported module exports what stands after it.
pub open spec fn allowed(nodes: Seq<NodeView>, k: int) -> Names {
    Set::new(
        |pair: (Seq<char>, Seq<char>)|
            target_of(nodes, k, pair.0) matches Some(t) ==> exports_name(
                nodes[t].program.declarations,
                pair.1,
            ),
    )
}

broadcast proof fn lemma_union_within(a: Names, b: Names, all: Names)
    ensures
        (#[trigger] a.union(b).subset_of(all)) <==> a.subset_of(all) && b.subset_of(all),
{
    if a.union(b).subset_of(all) {
        assert forall|x: (Seq<char>, Seq<char>)| a.contains(x) implies all.contains(x) by {
            assert(a.union(b).contains(x));
        }
        assert forall|x: (Seq<char>, Seq<char>)| b.contains(x) implies all.contains(x) by {
            assert(a.union(b).contains(x));
        }
    }
}

broadcast proof fn lemma_single_within(x: (Seq<char>, Seq<char>), all: Names)
    ensures
        (#[trigger] Set::empty().insert(x).subset_of(all)) <==> all.contains(x),
{
    assert(Set::<(Seq<char>, Seq<char>)>::empty().insert(x).contains(x));
}

proof fn lemma_dotted(nodes: Seq<NodeView>, k: int, name: Seq<char>, span: crate::lexer::Span)
    ensures
        visible_dotted(nodes, k, name, span) is Ok <==> dotted_mentions(name).subset_of(
            allowed(nodes, k),
        ),
{
    broadcast use lemma_single_within;

}

proof fn lemma_type(nodes: Seq<NodeView>, k: int, ty: TypeView)
    ensures
        visible_type(nodes, k, ty) is Ok <==> type_mentions(ty).subset_of(allowed(nodes, k)),
    decreases ty,
{
    broadcast use lemma_union_within;

    match ty {
        TypeView::Named(name) => {
            lemma_dotted(nodes, k, name, crate::resolution::start_of_file());
        },
        TypeView::Pointer(x) => {
            lemma_type(nodes, k, *x);
        },
        TypeView::Slice(x) => {
            lemma_type(nodes, k, *x);
        },
        TypeView::Array { element, .. } => {
            lemma_type(nodes, k, *element);
        },
        TypeView::Result { success, error } => {
            lemma_type(nodes, k, *success);
            lemma_type(nodes, k, *error);
        },
        TypeView::Unit => {},
    }
}

proof fn lemma_expr(nodes: Seq<NodeView>, k: int, e: ExprView)
    ensures
        visible_expr(nodes, k, e) is Ok <==> expr_mentions(e).subset_of(allowed(nodes, k)),
    decreases e, 0int,
{
    broadcast use {lemma_union_within, lemma_single_within};

    match e {
        ExprView::Field { base, .. } => {
            lemma_expr(nodes, k, *base);
        },
        ExprView::StructLiteral { name, fields, span } => {
            lemma_dotted(nodes, k, name, span);
            lemma_inits(nodes, k, fields, 0);
        },
        ExprView::Index { base, index, .. } => {
            lemma_expr(nodes, k, *base);
            lemma_expr(nodes, k, *index);
        },
        ExprView::UncheckedIndex { base, index, .. } => {
            lemma_expr(nodes, k, *base);
            lemma_expr(nodes, k, *index);
        },
        ExprView::Unary { operand, .. } => {
            lemma_expr(nodes, k, *operand);
        },
        ExprView::Propagate { expression, .. } => {
            lemma_expr(nodes, k, *expression);
        },
        ExprView::Comptime { expression, .. } => {
            lemma_expr(nodes, k, *expression);
        },
        ExprView::Binary { left, right, .. } => {
            lemma_expr(nodes, k, *left);
            lemma_expr(nodes, k, *right);
        },
        ExprView::Call { callee, arguments, .. } => {
            lemma_expr(nodes, k, *callee);
            lemma_exprs(nodes, k, arguments, 0);
        },
        ExprView::ArrayLiteral { ty, elements, .. } => {
            lemma_type(nodes, k, ty);
            lemma_exprs(nodes, k, elements, 0);
        },
        ExprView::SizeOf { ty, .. } => {
            lemma_type(nodes, k, ty);
        },
        ExprView::AlignOf { ty, .. } => {
            lemma_type(nodes, k, ty);
        },
        ExprView::OffsetOf { ty, .. } => {
            lemma_type(nodes, k, ty);
        },
        _ => {},
    }
}

proof fn lemma_exprs(nodes: Seq<NodeView>, k: int, es: Seq<ExprView>, i: int)
    ensures
        visible_exprs(nodes, k, es, i) is Ok <==> exprs_mentions(es, i).subset_of(
            allowed(nodes, k),
        ),
    decreases es, es.len() - i,
{
    broadcast use lemma_union_within;

    if 0 <= i < es.len() {
        lemma_expr(nodes, k, es[i]);
        lemma_exprs(nodes, k, es, i + 1);
    }
}

proof fn lemma_inits(nodes: Seq<NodeView>, k: int, inits: Seq<StructInitView>, i: int)
    ensures
        visible_inits(nodes, k, inits, i) is Ok <==> inits_mentions(inits, i).subset_of(
            allowed(nodes, k),
        ),
    decreases inits, inits.len() - i,
{
    broadcast use lemma_union_within;

    if 0 <= i < inits.len() {
        lemma_expr(nodes, k, inits[i].value);
        lemma_inits(nodes, k, inits, i + 1);
    }
}

proof fn lemma_block(nodes: Seq<NodeView>, k: int, b: BlockView)
    ensures
        visible_block(nodes, k, b) is Ok <==> block_mentions(b).subset_of(allowed(nodes, k)),
    decreases b, 0int,
{
    lemma_statements(nodes, k, b.statements, 0);
}

proof fn lemma_statements(nodes: Seq<NodeView>, k: int, ss: Seq<StmtView>, i: int)
    ensures
        visible_statements(nodes, k, ss, i) is Ok <==> statements_mentions(ss, i).subset_of(
            allowed(nodes, k),
        ),
    decreases ss, ss.len() - i,
{
    broadcast use lemma_union_within;

    if 0 <= i < ss.len() {
        lemma_statement(nodes, k, ss[i]);
        lemma_statements(nodes, k, ss, i + 1);
    }
}

proof fn lemma_statement(nodes: Seq<NodeView>, k: int, s: StmtView)
    ensures
        visible_statement(nodes, k, s) is Ok <==> statement_mentions(s).subset_of(
            allowed(nodes, k),
        ),
    decreases s, 0int,
{
    broadcast use lemma_union_within;

    match s {
        StmtView::If { condition, then_branch, else_branch, .. } => {
            lemma_expr(nodes, k, condition);
            lemma_block(nodes, k, then_branch);
            if let Some(branch) = else_branch {
                lemma_block(nodes, k, branch);
            }
        },
        StmtView::While { condition, body, .. } => {
            lemma_expr(nodes, k, condition);
            lemma_block(nodes, k, body);
        },
        StmtView::Defer { call, .. } => {
            lemma_expr(nodes, k, call);
        },
        StmtView::Expr { expression, .. } => {
            lemma_expr(nodes, k, expression);
        },
        StmtView::Return { value, .. } => {
            if let Some(e) = value {
                lemma_expr(nodes, k, e);
            }
        },
        StmtView::Variable(v) => {
            lemma_variable(nodes, k, v);
        },
        StmtView::Assignment { target, value, .. } => {
            lemma_expr(nodes, k, target);
            lemma_expr(nodes, k, value);
        },
        StmtView::Break { .. } => {},
        StmtView::Continue { .. } => {},
    }
}

proof fn lemma_variable(nodes: Seq<NodeView>, k: int, v: VariableDeclView)
    ensures
        visible_variable(nodes, k, v) is Ok <==> variable_mentions(v).subset_of(
            allowed(nodes, k),
        ),
{
    broadcast use lemma_union_within;

    if let Some(ty) = v.ty {
        lemma_type(nodes, k, ty);
    }
    lemma_expr(nodes, k, v.value);
}

proof fn lemma_fields(nodes: Seq<NodeView>, k: int, fields: Seq<StructFieldView>, i: int)
    ensures
        visible_fields(nodes, k, fields, i) is Ok <==> fields_mentions(fields, i).subset_of(
            allowed(nodes, k),
        ),
    decreases fields.len() - i,
{
    broadcast use lemma_union_within;

    if 0 <= i < fields.len() {
        lemma_type(nodes, k, fields[i].ty);
        lemma_fields(nodes, k, fields, i + 1);
    }
}

proof fn lemma_parameters(nodes: Seq<NodeView>, k: int, params: Seq<ParameterView>, i: int)
    ensures
        visible_parameters(nodes, k, params, i) is Ok <==> parameters_mentions(
            params,
            i,
        ).subset_of(allowed(nodes, k)),
    decreases params.len() - i,
{
    broadcast use lemma_union_within;

    if 0 <= i < params.len() {
        lemma_type(nodes, k, params[i].ty);
        lemma_parameters(nodes, k, params, i + 1);
    }
}

/// A declaration passes exactly where every qualified name in it, in types and
/// in expressions, is one that the import before its dot exports.
pub proof fn lemma_declarations_name_what_is_exported(nodes: Seq<NodeView>, k: int, d: DeclView)
    ensures
        visible_declaration(nodes, k, d) is Ok <==> mentions(d).subset_of(allowed(nodes, k)),
{
    broadcast use lemma_union_within;

    match d {
        DeclView::Struct(s) => {
            lemma_fields(nodes, k, s.fields, 0);
        },
        DeclView::Variable(v) => {
            lemma_variable(nodes, k, v);
        },
        DeclView::Function(f) => {
            lemma_parameters(nodes, k, f.params, 0);
            lemma_type(nodes, k, f.return_type);
            lemma_block(nodes, k, f.body);
        },
        DeclView::Comptime { expression, .. } => {
            lemma_expr(nodes, k, expression);
        },
    }
}

/// Only what a module exports is visible from another: modules make a program
/// exactly where every qualified name that starts with an import ends in a
/// name that the imported module exports.
pub proof fn lemma_only_exports_are_visible(nodes: Seq<NodeView>)
    ensures
        visible_modules(nodes, 0) is Ok <==> forall|k: int, i: int|
            0 <= k < nodes.len() && 0 <= i < nodes[k].program.declarations.len() ==> mentions(
                #[trigger] nodes[k].program.declarations[i],
            ).subset_of(allowed(nodes, k)),
{
    lemma_hidden_names_are_refused(nodes, 0);
    assert forall|k: int, i: int|
        0 <= k < nodes.len() && 0 <= i < nodes[k].program.declarations.len() implies (
    visible_declaration(nodes, k, #[trigger] nodes[k].program.declarations[i]) is Ok <==> mentions(
        nodes[k].program.declarations[i],
    ).subset_of(allowed(nodes, k))) by {
        lemma_declarations_name_what_is_exported(nodes, k, nodes[k].program.declarations[i]);
    }
}

} // verus!
