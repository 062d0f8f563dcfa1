//! How modules become one program.
use crate::ast::{
    BlockView, DeclView, ExprView, FunctionDeclView, ImportDeclView, ParameterView, ProgramView,
    StmtView, StructDeclView, StructFieldView, StructInitView, TypeView, VariableDeclView,
};
use crate::lexer::Span;
use crate::modules::{
    ContentsView, ModuleDefinitionView, ModuleGraphView, ModuleImportView, ModuleInfoView,
    ProjectErrorView, ProjectView, SourceFileView,
};
use crate::pipeline::parsed;
use crate::text::{decimal, joined_texts, split_at_char};
use crate::typed::{DefId, ModuleId};
use crate::typing::{declared_name, definition_kind};
use vstd::prelude::*;

verus! {

/// A module on its way into the program: its imports by alias, each the place
/// of another module.
pub ghost struct NodeView {
    pub path: Seq<char>,
    pub program: ProgramView,
    pub is_root: bool,
    pub aliases: Seq<(Seq<char>, int)>,
}

pub open spec fn start_of_file() -> Span {
    Span { start: 0, end: 0 }
}

// ---------------------------------------------------------------------------
// Visiting
// ---------------------------------------------------------------------------

/// The first file of a path, from `i` on.
pub open spec fn file_at(files: Seq<SourceFileView>, i: int, path: Seq<char>) -> Option<
    SourceFileView,
>
    decreases files.len() - i,
{
    if i < 0 || i >= files.len() {
        None
    } else if files[i].path == path {
        Some(files[i])
    } else {
        file_at(files, i + 1, path)
    }
}

/// The first module of a path, from `i` on.
pub open spec fn node_at(nodes: Seq<NodeView>, i: int, path: Seq<char>) -> Option<int>
    decreases nodes.len() - i,
{
    if i < 0 || i >= nodes.len() {
        None
    } else if nodes[i].path == path {
        Some(i)
    } else {
        node_at(nodes, i + 1, path)
    }
}

/// The module that an import means: the only file there is for it.
pub open spec fn found_module(
    importer: Seq<char>,
    requested: Seq<char>,
    found: Seq<Seq<char>>,
    span: Span,
) -> Result<Seq<char>, ProjectErrorView> {
    if found.len() == 1 {
        Ok(found[0])
    } else if found.len() == 0 {
        Err(
            ProjectErrorView {
                message: "module `"@ + requested + "` imported by `"@ + importer
                    + "` was not found"@,
                span,
            },
        )
    } else {
        Err(
            ProjectErrorView {
                message: "ambiguous module `"@ + requested + "`: "@ + joined_texts(
                    found,
                    ", "@,
                    0,
                ),
                span,
            },
        )
    }
}

/// Where an alias leads, from `i` on.
pub open spec fn alias_target(aliases: Seq<(Seq<char>, int)>, i: int, alias: Seq<char>) -> Option<
    int,
>
    decreases aliases.len() - i,
{
    if i < 0 || i >= aliases.len() {
        None
    } else if aliases[i].0 == alias {
        Some(aliases[i].1)
    } else {
        alias_target(aliases, i + 1, alias)
    }
}

pub open spec fn cycle(visiting: Seq<Seq<char>>, path: Seq<char>, span: Span) -> ProjectErrorView {
    ProjectErrorView {
        message: "module import cycle: "@ + joined_texts(visiting.push(path), " -> "@, 0),
        span,
    }
}

pub open spec fn unreadable(path: Seq<char>, why: Seq<char>) -> ProjectErrorView {
    ProjectErrorView {
        message: "could not read module `"@ + path + "`: "@ + why,
        span: start_of_file(),
    }
}

/// The files that one import of a file was found to mean.
pub open spec fn findings(file: SourceFileView, i: int) -> Seq<Seq<char>> {
    if 0 <= i < file.found.len() {
        file.found[i]
    } else {
        Seq::empty()
    }
}

/// Visits a module and, before it, those that it imports: its place among the
/// modules, and the modules then. `room` more modules may be visited at once.
pub open spec fn visited(
    files: Seq<SourceFileView>,
    nodes: Seq<NodeView>,
    visiting: Seq<Seq<char>>,
    path: Seq<char>,
    is_root: bool,
    span: Span,
    room: nat,
) -> Result<(int, Seq<NodeView>), ProjectErrorView>
    decreases room, 1int, 0int,
{
    match node_at(nodes, 0, path) {
        Some(i) => Ok((i, nodes)),
        None => if visiting.contains(path) {
            Err(cycle(visiting, path, span))
        } else {
            match file_at(files, 0, path) {
                None => Err(unreadable(path, "file is not loaded"@)),
                Some(file) => match file.contents {
                    ContentsView::Unreadable(why) => Err(unreadable(path, why)),
                    ContentsView::Text(source) => match parsed(source) {
                        Err(error) => Err(
                            ProjectErrorView {
                                message: "in module `"@ + path + "`: "@ + error.message(),
                                span: error.span(),
                            },
                        ),
                        Ok(program) => if room == 0 {
                            Err(cycle(visiting, path, span))
                        } else {
                            match imports_visited(
                                files,
                                nodes,
                                visiting.push(path),
                                file,
                                program.imports,
                                0,
                                Seq::empty(),
                                (room - 1) as nat,
                            ) {
                                Err(error) => Err(error),
                                Ok((aliases, after)) => Ok(
                                    (
                                        after.len() as int,
                                        after.push(NodeView { path, program, is_root, aliases }),
                                    ),
                                ),
                            }
                        },
                    },
                },
            }
        },
    }
}

/// Visits the imports from `i` on.
pub open spec fn imports_visited(
    files: Seq<SourceFileView>,
    nodes: Seq<NodeView>,
    visiting: Seq<Seq<char>>,
    file: SourceFileView,
    imports: Seq<ImportDeclView>,
    i: int,
    aliases: Seq<(Seq<char>, int)>,
    room: nat,
) -> Result<(Seq<(Seq<char>, int)>, Seq<NodeView>), ProjectErrorView>
    decreases room, 2int, imports.len() - i,
{
    if i < 0 || i >= imports.len() {
        Ok((aliases, nodes))
    } else if alias_target(aliases, 0, imports[i].alias) is Some {
        Err(
            ProjectErrorView {
                message: "duplicate module alias `"@ + imports[i].alias + "`"@,
                span: imports[i].span,
            },
        )
    } else {
        match found_module(file.path, imports[i].path, findings(file, i), imports[i].span) {
            Err(error) => Err(error),
            Ok(target) => match visited(
                files,
                nodes,
                visiting,
                target,
                false,
                imports[i].span,
                room,
            ) {
                Err(error) => Err(error),
                Ok((index, after)) => imports_visited(
                    files,
                    after,
                    visiting,
                    file,
                    imports,
                    i + 1,
                    aliases.push((imports[i].alias, index)),
                    room,
                ),
            },
        }
    }
}

// ---------------------------------------------------------------------------
// Identities and names
// ---------------------------------------------------------------------------

/// How many of the first `n` declarations have a name.
pub open spec fn named_count(decls: Seq<DeclView>, n: int) -> nat
    decreases n,
{
    if n <= 0 || n > decls.len() {
        0
    } else {
        named_count(decls, n - 1) + (if declared_name(decls[n - 1]) is Some {
            1nat
        } else {
            0nat
        })
    }
}

/// How many named declarations the first `k` modules have.
pub open spec fn count_before(nodes: Seq<NodeView>, k: int) -> nat
    decreases k,
{
    if k <= 0 || k > nodes.len() {
        0
    } else {
        let decls = nodes[k - 1].program.declarations;
        count_before(nodes, k - 1) + named_count(decls, decls.len() as int)
    }
}

/// The last of the first `n` declarations that has the name.
pub open spec fn last_named(decls: Seq<DeclView>, n: int, name: Seq<char>) -> Option<int>
    decreases n,
{
    if n <= 0 || n > decls.len() {
        None
    } else if declared_name(decls[n - 1]) == Some(name) {
        Some(n - 1)
    } else {
        last_named(decls, n - 1, name)
    }
}

/// The identity of the declaration that a name stands for in module `k`:
/// named declarations are numbered through all modules.
pub open spec fn identity(nodes: Seq<NodeView>, k: int, name: Seq<char>) -> Option<DefId> {
    let decls = nodes[k].program.declarations;
    match last_named(decls, decls.len() as int, name) {
        Some(i) => Some(
            DefId(((count_before(nodes, k) + named_count(decls, i)) % 0x1_0000_0000) as u32),
        ),
        None => None,
    }
}

/// The name that the linker sees for a declaration of module `k`, if the
/// module declares the name. The root's names stay as they are.
pub open spec fn linker_name(nodes: Seq<NodeView>, k: int, name: Seq<char>) -> Option<Seq<char>> {
    let decls = nodes[k].program.declarations;
    match last_named(decls, decls.len() as int, name) {
        None => None,
        Some(_) => Some(
            if nodes[k].is_root {
                name
            } else {
                "__module_"@ + decimal((k % 0x1_0000_0000) as nat) + "_"@ + name
            },
        ),
    }
}

pub open spec fn linker_name_or(nodes: Seq<NodeView>, k: int, name: Seq<char>) -> Seq<char> {
    match linker_name(nodes, k, name) {
        Some(full) => full,
        None => name,
    }
}

/// Whether a declaration is exported.
pub open spec fn exports(d: DeclView) -> bool {
    match d {
        DeclView::Function(f) => f.exported,
        DeclView::Struct(s) => s.exported,
        DeclView::Variable(v) => v.exported,
        DeclView::Comptime { .. } => false,
    }
}

/// Whether one of the declarations exports the name.
pub open spec fn exports_name(decls: Seq<DeclView>, name: Seq<char>) -> bool {
    exists|i: int|
        0 <= i < decls.len() && exports(#[trigger] decls[i]) && declared_name(decls[i]) == Some(
            name,
        )
}

/// Every import leads to an earlier module.
pub open spec fn ordered(nodes: Seq<NodeView>) -> bool {
    forall|k: int, j: int|
        0 <= k < nodes.len() && 0 <= j < nodes[k].aliases.len() ==> 0 <= (
        #[trigger] nodes[k].aliases[j]).1 < k
}

/// Where an alias of module `k` leads.
pub open spec fn target_of(nodes: Seq<NodeView>, k: int, alias: Seq<char>) -> Option<int> {
    alias_target(nodes[k].aliases, 0, alias)
}

/// Whether a qualified name is one that its module exports.
pub open spec fn is_visible(
    nodes: Seq<NodeView>,
    k: int,
    alias: Seq<char>,
    name: Seq<char>,
) -> bool {
    match target_of(nodes, k, alias) {
        Some(t) => exports_name(nodes[t].program.declarations, name),
        None => false,
    }
}

/// The linker's name of a qualified name, where the alias and the name are
/// known.
pub open spec fn qualified_name(
    nodes: Seq<NodeView>,
    k: int,
    alias: Seq<char>,
    name: Seq<char>,
) -> Option<
    Seq<char>,
> {
    match target_of(nodes, k, alias) {
        Some(t) => linker_name(nodes, t, name),
        None => None,
    }
}

/// Whether the module declares a struct of the name.
pub open spec fn declares_struct(decls: Seq<DeclView>, name: Seq<char>) -> bool {
    exists|i: int|
        0 <= i < decls.len() && #[trigger] decls[i] is Struct && declared_name(decls[i]) == Some(
            name,
        )
}

// ---------------------------------------------------------------------------
// Visibility
// ---------------------------------------------------------------------------

pub type Checked = Result<(), ProjectErrorView>;

pub open spec fn not_exported(alias: Seq<char>, name: Seq<char>, span: Span) -> ProjectErrorView {
    ProjectErrorView {
        message: "`"@ + alias + "."@ + name + "` is not exported by module `"@ + alias + "`"@,
        span,
    }
}

/// A name qualified by an import is one that the import exports.
pub open spec fn visible_name(
    nodes: Seq<NodeView>,
    k: int,
    alias: Seq<char>,
    name: Seq<char>,
    span: Span,
) -> Checked {
    if target_of(nodes, k, alias) is Some && !is_visible(nodes, k, alias, name) {
        Err(not_exported(alias, name, span))
    } else {
        Ok(())
    }
}

/// As before, for a name with a dot in it.
pub open spec fn visible_dotted(
    nodes: Seq<NodeView>,
    k: int,
    name: Seq<char>,
    span: Span,
) -> Checked {
    match split_at_char(name, '.') {
        Some((alias, item)) => visible_name(nodes, k, alias, item, span),
        None => Ok(()),
    }
}

pub open spec fn visible_type(nodes: Seq<NodeView>, k: int, ty: TypeView) -> Checked
    decreases ty,
{
    match ty {
        TypeView::Named(name) => visible_dotted(nodes, k, name, start_of_file()),
        TypeView::Pointer(x) => visible_type(nodes, k, *x),
        TypeView::Slice(x) => visible_type(nodes, k, *x),
        TypeView::Array { element, .. } => visible_type(nodes, k, *element),
        TypeView::Result { success, error } => match visible_type(nodes, k, *success) {
            Err(problem) => Err(problem),
            Ok(()) => visible_type(nodes, k, *error),
        },
        TypeView::Unit => Ok(()),
    }
}

pub open spec fn visible_expr(nodes: Seq<NodeView>, k: int, e: ExprView) -> Checked
    decreases e, 0int,
{
    match e {
        ExprView::Field { base, name, span } => match (match *base {
            ExprView::Identifier { name: alias, .. } => visible_name(nodes, k, alias, name, span),
            _ => Ok(()),
        }) {
            Err(error) => Err(error),
            Ok(()) => visible_expr(nodes, k, *base),
        },
        ExprView::StructLiteral { name, fields, span } => match visible_dotted(
            nodes,
            k,
            name,
            span,
        ) {
            Err(error) => Err(error),
            Ok(()) => visible_inits(nodes, k, fields, 0),
        },
        ExprView::Index { base, index, .. } => match visible_expr(nodes, k, *base) {
            Err(error) => Err(error),
            Ok(()) => visible_expr(nodes, k, *index),
        },
        ExprView::UncheckedIndex { base, index, .. } => match visible_expr(nodes, k, *base) {
            Err(error) => Err(error),
            Ok(()) => visible_expr(nodes, k, *index),
        },
        ExprView::Unary { operand, .. } => visible_expr(nodes, k, *operand),
        ExprView::Propagate { expression, .. } => visible_expr(nodes, k, *expression),
        ExprView::Comptime { expression, .. } => visible_expr(nodes, k, *expression),
        ExprView::Binary { left, right, .. } => match visible_expr(nodes, k, *left) {
            Err(error) => Err(error),
            Ok(()) => visible_expr(nodes, k, *right),
        },
        ExprView::Call { callee, arguments, .. } => match visible_expr(nodes, k, *callee) {
            Err(error) => Err(error),
            Ok(()) => visible_exprs(nodes, k, arguments, 0),
        },
        ExprView::ArrayLiteral { ty, elements, .. } => match visible_type(nodes, k, ty) {
            Err(error) => Err(error),
            Ok(()) => visible_exprs(nodes, k, elements, 0),
        },
        ExprView::SizeOf { ty, .. } => visible_type(nodes, k, ty),
        ExprView::AlignOf { ty, .. } => visible_type(nodes, k, ty),
        ExprView::OffsetOf { ty, .. } => visible_type(nodes, k, ty),
        _ => Ok(()),
    }
}

pub open spec fn visible_exprs(nodes: Seq<NodeView>, k: int, es: Seq<ExprView>, i: int) -> Checked
    decreases es, es.len() - i,
{
    if i < 0 || i >= es.len() {
        Ok(())
    } else {
        match visible_expr(nodes, k, es[i]) {
            Err(error) => Err(error),
            Ok(()) => visible_exprs(nodes, k, es, i + 1),
        }
    }
}

pub open spec fn visible_inits(
    nodes: Seq<NodeView>,
    k: int,
    inits: Seq<StructInitView>,
    i: int,
) -> Checked
    decreases inits, inits.len() - i,
{
    if i < 0 || i >= inits.len() {
        Ok(())
    } else {
        match visible_expr(nodes, k, inits[i].value) {
            Err(error) => Err(error),
            Ok(()) => visible_inits(nodes, k, inits, i + 1),
        }
    }
}

pub open spec fn visible_block(nodes: Seq<NodeView>, k: int, b: BlockView) -> Checked
    decreases b, 0int,
{
    visible_statements(nodes, k, b.statements, 0)
}

pub open spec fn visible_statements(
    nodes: Seq<NodeView>,
    k: int,
    ss: Seq<StmtView>,
    i: int,
) -> Checked
    decreases ss, ss.len() - i,
{
    if i < 0 || i >= ss.len() {
        Ok(())
    } else {
        match visible_statement(nodes, k, ss[i]) {
            Err(error) => Err(error),
            Ok(()) => visible_statements(nodes, k, ss, i + 1),
        }
    }
}

pub open spec fn visible_statement(nodes: Seq<NodeView>, k: int, s: StmtView) -> Checked
    decreases s, 0int,
{
    match s {
        StmtView::If { condition, then_branch, else_branch, .. } => match visible_expr(
            nodes,
            k,
            condition,
        ) {
            Err(error) => Err(error),
            Ok(()) => match visible_block(nodes, k, then_branch) {
                Err(error) => Err(error),
                Ok(()) => match else_branch {
                    Some(branch) => visible_block(nodes, k, branch),
                    None => Ok(()),
                },
            },
        },
        StmtView::While { condition, body, .. } => match visible_expr(nodes, k, condition) {
            Err(error) => Err(error),
            Ok(()) => visible_block(nodes, k, body),
        },
        StmtView::Defer { call, .. } => visible_expr(nodes, k, call),
        StmtView::Expr { expression, .. } => visible_expr(nodes, k, expression),
        StmtView::Return { value, .. } => match value {
            Some(e) => visible_expr(nodes, k, e),
            None => Ok(()),
        },
        StmtView::Variable(v) => visible_variable(nodes, k, v),
        StmtView::Assignment { target, value, .. } => match visible_expr(nodes, k, target) {
            Err(error) => Err(error),
            Ok(()) => visible_expr(nodes, k, value),
        },
        StmtView::Break { .. } => Ok(()),
        StmtView::Continue { .. } => Ok(()),
    }
}

pub open spec fn visible_variable(nodes: Seq<NodeView>, k: int, v: VariableDeclView) -> Checked {
    match (match v.ty {
        Some(ty) => visible_type(nodes, k, ty),
        None => Ok(()),
    }) {
        Err(error) => Err(error),
        Ok(()) => visible_expr(nodes, k, v.value),
    }
}

pub open spec fn visible_fields(
    nodes: Seq<NodeView>,
    k: int,
    fields: Seq<StructFieldView>,
    i: int,
) -> Checked
    decreases fields.len() - i,
{
    if i < 0 || i >= fields.len() {
        Ok(())
    } else {
        match visible_type(nodes, k, fields[i].ty) {
            Err(error) => Err(error),
            Ok(()) => visible_fields(nodes, k, fields, i + 1),
        }
    }
}

pub open spec fn visible_parameters(
    nodes: Seq<NodeView>,
    k: int,
    params: Seq<ParameterView>,
    i: int,
) -> Checked
    decreases params.len() - i,
{
    if i < 0 || i >= params.len() {
        Ok(())
    } else {
        match visible_type(nodes, k, params[i].ty) {
            Err(error) => Err(error),
            Ok(()) => visible_parameters(nodes, k, params, i + 1),
        }
    }
}

pub open spec fn visible_declaration(nodes: Seq<NodeView>, k: int, d: DeclView) -> Checked {
    match d {
        DeclView::Struct(s) => visible_fields(nodes, k, s.fields, 0),
        DeclView::Variable(v) => visible_variable(nodes, k, v),
        DeclView::Function(f) => match visible_parameters(nodes, k, f.params, 0) {
            Err(error) => Err(error),
            Ok(()) => match visible_type(nodes, k, f.return_type) {
                Err(error) => Err(error),
                Ok(()) => visible_block(nodes, k, f.body),
            },
        },
        DeclView::Comptime { expression, .. } => visible_expr(nodes, k, expression),
    }
}

/// The declarations of module `k` from `i` on name nothing that is hidden.
pub open spec fn visible_declarations(nodes: Seq<NodeView>, k: int, i: int) -> Checked
    decreases nodes[k].program.declarations.len() - i,
{
    let decls = nodes[k].program.declarations;
    if i < 0 || i >= decls.len() {
        Ok(())
    } else {
        match visible_declaration(nodes, k, decls[i]) {
            Err(error) => Err(error),
            Ok(()) => visible_declarations(nodes, k, i + 1),
        }
    }
}

/// The modules from `k` on name nothing that is hidden.
pub open spec fn visible_modules(nodes: Seq<NodeView>, k: int) -> Checked
    decreases nodes.len() - k,
{
    if k < 0 || k >= nodes.len() {
        Ok(())
    } else {
        match visible_declarations(nodes, k, 0) {
            Err(error) => Err(error),
            Ok(()) => visible_modules(nodes, k + 1),
        }
    }
}

// ---------------------------------------------------------------------------
// Renaming
// ---------------------------------------------------------------------------

/// The type under the names of the program.
pub open spec fn mapped_type(nodes: Seq<NodeView>, k: int, ty: TypeView) -> TypeView
    decreases ty,
{
    match ty {
        TypeView::Named(name) => if declares_struct(nodes[k].program.declarations, name) {
            TypeView::Named(linker_name_or(nodes, k, name))
        } else {
            match split_at_char(name, '.') {
                Some((alias, item)) => if is_visible(nodes, k, alias, item) {
                    match qualified_name(nodes, k, alias, item) {
                        Some(full) => TypeView::Named(full),
                        None => ty,
                    }
                } else {
                    ty
                },
                None => ty,
            }
        },
        TypeView::Unit => TypeView::Unit,
        TypeView::Pointer(x) => TypeView::Pointer(Box::new(mapped_type(nodes, k, *x))),
        TypeView::Slice(x) => TypeView::Slice(Box::new(mapped_type(nodes, k, *x))),
        TypeView::Array { length, element } => TypeView::Array {
            length,
            element: Box::new(mapped_type(nodes, k, *element)),
        },
        TypeView::Result { success, error } => TypeView::Result {
            success: Box::new(mapped_type(nodes, k, *success)),
            error: Box::new(mapped_type(nodes, k, *error)),
        },
    }
}

/// The name of a struct in a literal, under the names of the program.
pub open spec fn mapped_literal(nodes: Seq<NodeView>, k: int, name: Seq<char>) -> Seq<char> {
    match split_at_char(name, '.') {
        Some((alias, item)) => match qualified_name(nodes, k, alias, item) {
            Some(full) => full,
            None => name,
        },
        None => if declares_struct(nodes[k].program.declarations, name) {
            linker_name_or(nodes, k, name)
        } else {
            name
        },
    }
}

/// The expression under the names of the program. A bound name is a local
/// variable's and stays.
pub open spec fn mapped_expr(
    nodes: Seq<NodeView>,
    k: int,
    bound: Seq<Seq<char>>,
    e: ExprView,
) -> ExprView
    decreases e,
{
    match e {
        ExprView::Identifier { name, span } => ExprView::Identifier {
            name: if bound.contains(name) {
                name
            } else {
                linker_name_or(nodes, k, name)
            },
            span,
        },
        ExprView::StructLiteral { name, fields, span } => ExprView::StructLiteral {
            name: mapped_literal(nodes, k, name),
            fields: mapped_inits(nodes, k, bound, fields),
            span,
        },
        ExprView::Field { base, name, span } => match *base {
            ExprView::Identifier { name: alias, .. } => if target_of(nodes, k, alias) is Some {
                ExprView::Identifier { name: mapped_member(nodes, k, alias, name), span }
            } else {
                ExprView::Field { base: Box::new(mapped_expr(nodes, k, bound, *base)), name, span }
            },
            _ => ExprView::Field {
                base: Box::new(mapped_expr(nodes, k, bound, *base)),
                name,
                span,
            },
        },
        ExprView::Index { base, index, span } => ExprView::Index {
            base: Box::new(mapped_expr(nodes, k, bound, *base)),
            index: Box::new(mapped_expr(nodes, k, bound, *index)),
            span,
        },
        ExprView::UncheckedIndex { base, index, span } => ExprView::UncheckedIndex {
            base: Box::new(mapped_expr(nodes, k, bound, *base)),
            index: Box::new(mapped_expr(nodes, k, bound, *index)),
            span,
        },
        ExprView::Unary { operator, operand, span } => ExprView::Unary {
            operator,
            operand: Box::new(mapped_expr(nodes, k, bound, *operand)),
            span,
        },
        ExprView::Binary { left, operator, right, span } => ExprView::Binary {
            left: Box::new(mapped_expr(nodes, k, bound, *left)),
            operator,
            right: Box::new(mapped_expr(nodes, k, bound, *right)),
            span,
        },
        ExprView::Call { callee, arguments, span } => ExprView::Call {
            callee: Box::new(mapped_expr(nodes, k, bound, *callee)),
            arguments: mapped_exprs(nodes, k, bound, arguments),
            span,
        },
        ExprView::Propagate { expression, span } => ExprView::Propagate {
            expression: Box::new(mapped_expr(nodes, k, bound, *expression)),
            span,
        },
        ExprView::Comptime { expression, span } => ExprView::Comptime {
            expression: Box::new(mapped_expr(nodes, k, bound, *expression)),
            span,
        },
        ExprView::ArrayLiteral { ty, elements, span } => ExprView::ArrayLiteral {
            ty: mapped_type(nodes, k, ty),
            elements: mapped_exprs(nodes, k, bound, elements),
            span,
        },
        ExprView::SizeOf { ty, span } => ExprView::SizeOf { ty: mapped_type(nodes, k, ty), span },
        ExprView::AlignOf { ty, span } => ExprView::AlignOf { ty: mapped_type(nodes, k, ty), span },
        ExprView::OffsetOf { ty, field, span } => ExprView::OffsetOf {
            ty: mapped_type(nodes, k, ty),
            field,
            span,
        },
        _ => e,
    }
}

/// The name of a member of an imported module.
pub open spec fn mapped_member(
    nodes: Seq<NodeView>,
    k: int,
    alias: Seq<char>,
    name: Seq<char>,
) -> Seq<
    char,
> {
    if is_visible(nodes, k, alias, name) {
        match qualified_name(nodes, k, alias, name) {
            Some(full) => full,
            None => alias + "."@ + name,
        }
    } else {
        alias + "."@ + name
    }
}

pub open spec fn mapped_exprs(
    nodes: Seq<NodeView>,
    k: int,
    bound: Seq<Seq<char>>,
    es: Seq<ExprView>,
) -> Seq<ExprView>
    decreases es,
{
    Seq::new(
        es.len(),
        |i: int|
            if 0 <= i < es.len() {
                mapped_expr(nodes, k, bound, es[i])
            } else {
                arbitrary()
            },
    )
}

pub open spec fn mapped_inits(
    nodes: Seq<NodeView>,
    k: int,
    bound: Seq<Seq<char>>,
    inits: Seq<StructInitView>,
) -> Seq<StructInitView>
    decreases inits,
{
    Seq::new(
        inits.len(),
        |i: int|
            if 0 <= i < inits.len() {
                StructInitView {
                    name: inits[i].name,
                    value: mapped_expr(nodes, k, bound, inits[i].value),
                    span: inits[i].span,
                }
            } else {
                arbitrary()
            },
    )
}

pub open spec fn mapped_option(nodes: Seq<NodeView>, k: int, ty: Option<TypeView>) -> Option<
    TypeView,
> {
    match ty {
        Some(ty) => Some(mapped_type(nodes, k, ty)),
        None => None,
    }
}

/// A block under the names of the program. What it declares is bound from
/// there to its end.
pub open spec fn mapped_block(
    nodes: Seq<NodeView>,
    k: int,
    bound: Seq<Seq<char>>,
    b: BlockView,
) -> BlockView
    decreases b, 0int,
{
    BlockView {
        statements: mapped_statements(nodes, k, bound, b.statements, 0, Seq::empty()),
        span: b.span,
    }
}

pub open spec fn mapped_statements(
    nodes: Seq<NodeView>,
    k: int,
    bound: Seq<Seq<char>>,
    ss: Seq<StmtView>,
    i: int,
    before: Seq<StmtView>,
) -> Seq<StmtView>
    decreases ss, ss.len() - i,
{
    if i < 0 || i >= ss.len() {
        before
    } else {
        mapped_statements(
            nodes,
            k,
            bound_after(bound, ss[i]),
            ss,
            i + 1,
            before.push(mapped_statement(nodes, k, bound, ss[i])),
        )
    }
}

/// The bound names after a statement.
pub open spec fn bound_after(bound: Seq<Seq<char>>, s: StmtView) -> Seq<Seq<char>> {
    match s {
        StmtView::Variable(v) => bound.push(v.name),
        _ => bound,
    }
}

pub open spec fn mapped_statement(
    nodes: Seq<NodeView>,
    k: int,
    bound: Seq<Seq<char>>,
    s: StmtView,
) -> StmtView
    decreases s, 0int,
{
    match s {
        StmtView::Variable(v) => StmtView::Variable(
            VariableDeclView {
                name: v.name,
                kind: v.kind,
                ty: mapped_option(nodes, k, v.ty),
                value: mapped_expr(nodes, k, bound, v.value),
                span: v.span,
                exported: false,
            },
        ),
        StmtView::If { condition, then_branch, else_branch, span } => StmtView::If {
            condition: mapped_expr(nodes, k, bound, condition),
            then_branch: mapped_block(nodes, k, bound, then_branch),
            else_branch: match else_branch {
                Some(branch) => Some(mapped_block(nodes, k, bound, branch)),
                None => None,
            },
            span,
        },
        StmtView::While { condition, body, span } => StmtView::While {
            condition: mapped_expr(nodes, k, bound, condition),
            body: mapped_block(nodes, k, bound, body),
            span,
        },
        StmtView::Break { .. } => s,
        StmtView::Continue { .. } => s,
        StmtView::Defer { call, span } => StmtView::Defer {
            call: mapped_expr(nodes, k, bound, call),
            span,
        },
        StmtView::Return { value, span } => StmtView::Return {
            value: match value {
                Some(e) => Some(mapped_expr(nodes, k, bound, e)),
                None => None,
            },
            span,
        },
        StmtView::Assignment { target, value, span } => StmtView::Assignment {
            target: mapped_expr(nodes, k, bound, target),
            value: mapped_expr(nodes, k, bound, value),
            span,
        },
        StmtView::Expr { expression, span } => StmtView::Expr {
            expression: mapped_expr(nodes, k, bound, expression),
            span,
        },
    }
}

pub open spec fn mapped_fields(nodes: Seq<NodeView>, k: int, fields: Seq<StructFieldView>) -> Seq<
    StructFieldView,
> {
    Seq::new(
        fields.len(),
        |i: int| StructFieldView { ty: mapped_type(nodes, k, fields[i].ty), ..fields[i] },
    )
}

pub open spec fn mapped_parameters(nodes: Seq<NodeView>, k: int, params: Seq<ParameterView>) -> Seq<
    ParameterView,
> {
    Seq::new(
        params.len(),
        |i: int| ParameterView { ty: mapped_type(nodes, k, params[i].ty), ..params[i] },
    )
}

pub open spec fn parameter_names(params: Seq<ParameterView>) -> Seq<Seq<char>> {
    Seq::new(params.len(), |i: int| params[i].name)
}

/// A declaration of module `k` under the names of the program.
pub open spec fn mapped_declaration(nodes: Seq<NodeView>, k: int, d: DeclView) -> DeclView {
    match d {
        DeclView::Struct(s) => DeclView::Struct(
            StructDeclView {
                name: linker_name_or(nodes, k, s.name),
                fields: mapped_fields(nodes, k, s.fields),
                ..s
            },
        ),
        DeclView::Variable(v) => DeclView::Variable(
            VariableDeclView {
                name: linker_name_or(nodes, k, v.name),
                ty: mapped_option(nodes, k, v.ty),
                value: mapped_expr(nodes, k, Seq::empty(), v.value),
                ..v
            },
        ),
        DeclView::Function(f) => DeclView::Function(
            FunctionDeclView {
                name: linker_name_or(nodes, k, f.name),
                params: mapped_parameters(nodes, k, f.params),
                return_type: mapped_type(nodes, k, f.return_type),
                body: mapped_block(nodes, k, parameter_names(f.params), f.body),
                ..f
            },
        ),
        DeclView::Comptime { expression, span } => DeclView::Comptime {
            expression: mapped_expr(nodes, k, Seq::empty(), expression),
            span,
        },
    }
}

/// The declarations of module `k` under the names of the program.
pub open spec fn mapped_module(nodes: Seq<NodeView>, k: int) -> Seq<DeclView> {
    let decls = nodes[k].program.declarations;
    Seq::new(decls.len(), |i: int| mapped_declaration(nodes, k, decls[i]))
}

/// The declarations of the first `k` modules, one module after the other.
pub open spec fn mapped_modules(nodes: Seq<NodeView>, k: int) -> Seq<DeclView>
    decreases k,
{
    if k <= 0 || k > nodes.len() {
        Seq::empty()
    } else {
        mapped_modules(nodes, k - 1) + mapped_module(nodes, k - 1)
    }
}

// ---------------------------------------------------------------------------
// The graph
// ---------------------------------------------------------------------------

pub open spec fn module_id(k: int) -> ModuleId {
    ModuleId((k % 0x1_0000_0000) as u32)
}

/// What the graph records of a declaration of module `k`.
pub open spec fn definition_of(
    nodes: Seq<NodeView>,
    k: int,
    d: DeclView,
    name: Seq<char>,
) -> ModuleDefinitionView {
    ModuleDefinitionView {
        id: identity(nodes, k, name).unwrap(),
        module: module_id(k),
        source_name: name,
        linker_name: match d {
            DeclView::Function(f) => match f.link_name {
                Some(link) => link,
                None => linker_name_or(nodes, k, name),
            },
            _ => linker_name_or(nodes, k, name),
        },
        kind: definition_kind(d),
        exported: exports(d),
    }
}

/// The definitions of the first `n` declarations of module `k`.
pub open spec fn module_definitions(nodes: Seq<NodeView>, k: int, n: int) -> Seq<
    ModuleDefinitionView,
>
    decreases n,
{
    let decls = nodes[k].program.declarations;
    if n <= 0 || n > decls.len() {
        Seq::empty()
    } else {
        let before = module_definitions(nodes, k, n - 1);
        match declared_name(decls[n - 1]) {
            Some(name) => before.push(definition_of(nodes, k, decls[n - 1], name)),
            None => before,
        }
    }
}

/// The definitions of the first `k` modules.
pub open spec fn all_definitions(nodes: Seq<NodeView>, k: int) -> Seq<ModuleDefinitionView>
    decreases k,
{
    if k <= 0 || k > nodes.len() {
        Seq::empty()
    } else {
        all_definitions(nodes, k - 1) + module_definitions(
            nodes,
            k - 1,
            nodes[k - 1].program.declarations.len() as int,
        )
    }
}

/// The imports of module `k` among the first `n`.
pub open spec fn module_imports(nodes: Seq<NodeView>, k: int, n: int) -> Seq<ModuleImportView>
    decreases n,
{
    let imports = nodes[k].program.imports;
    if n <= 0 || n > imports.len() {
        Seq::empty()
    } else {
        let before = module_imports(nodes, k, n - 1);
        match target_of(nodes, k, imports[n - 1].alias) {
            Some(t) => before.push(
                ModuleImportView {
                    alias: imports[n - 1].alias,
                    target: module_id(t),
                    span: imports[n - 1].span,
                },
            ),
            None => before,
        }
    }
}

/// The identities of the first `n` declarations of module `k`.
pub open spec fn module_ids(nodes: Seq<NodeView>, k: int, n: int) -> Seq<DefId>
    decreases n,
{
    let decls = nodes[k].program.declarations;
    if n <= 0 || n > decls.len() {
        Seq::empty()
    } else {
        let before = module_ids(nodes, k, n - 1);
        match declared_name(decls[n - 1]) {
            Some(name) => before.push(identity(nodes, k, name).unwrap()),
            None => before,
        }
    }
}

pub open spec fn module_info(nodes: Seq<NodeView>, k: int) -> ModuleInfoView {
    ModuleInfoView {
        id: module_id(k),
        path: nodes[k].path,
        imports: module_imports(nodes, k, nodes[k].program.imports.len() as int),
        declarations: module_ids(nodes, k, nodes[k].program.declarations.len() as int),
    }
}

pub open spec fn graph_of(nodes: Seq<NodeView>, root: int) -> ModuleGraphView {
    ModuleGraphView {
        root: module_id(root),
        modules: Seq::new(nodes.len(), |k: int| module_info(nodes, k)),
        definitions: all_definitions(nodes, nodes.len() as int),
    }
}

/// The project that a root file and the files it leads to make.
pub open spec fn resolved(files: Seq<SourceFileView>, root: Seq<char>) -> Result<
    ProjectView,
    ProjectErrorView,
> {
    match root_source(files, root) {
        Err(error) => Err(error),
        Ok(source) => match visited(
            files,
            Seq::empty(),
            Seq::empty(),
            root,
            true,
            start_of_file(),
            files.len(),
        ) {
            Err(error) => Err(error),
            Ok((index, nodes)) => match visible_modules(nodes, 0) {
                Err(error) => Err(error),
                Ok(()) => Ok(
                    ProjectView {
                        program: ProgramView {
                            imports: Seq::empty(),
                            declarations: mapped_modules(nodes, nodes.len() as int),
                        },
                        graph: graph_of(nodes, index),
                        root_source: source,
                        root_path: root,
                        dependencies: Seq::new(nodes.len(), |k: int| nodes[k].path),
                    },
                ),
            },
        },
    }
}

/// The text of the root file.
pub open spec fn root_source(files: Seq<SourceFileView>, root: Seq<char>) -> Result<
    Seq<char>,
    ProjectErrorView,
> {
    match file_at(files, 0, root) {
        None => Err(unread_root(root, "file is not loaded"@)),
        Some(file) => match file.contents {
            ContentsView::Unreadable(why) => Err(unread_root(root, why)),
            ContentsView::Text(source) => Ok(source),
        },
    }
}

pub open spec fn unread_root(root: Seq<char>, why: Seq<char>) -> ProjectErrorView {
    ProjectErrorView {
        message: "could not read `"@ + root + "`: "@ + why,
        span: start_of_file(),
    }
}

// ---------------------------------------------------------------------------
// What resolving keeps
// ---------------------------------------------------------------------------

/// No two modules have one path.
pub open spec fn distinct_paths(nodes: Seq<NodeView>) -> bool {
    forall|i: int, j: int|
        0 <= i < j < nodes.len() ==> (#[trigger] nodes[i]).path != (#[trigger] nodes[j]).path
}

/// Whether `after` is `before` with more modules behind it, none of them at
/// a path of `avoided`.
pub open spec fn grew(
    before: Seq<NodeView>,
    after: Seq<NodeView>,
    avoided: Seq<Seq<char>>,
) -> bool {
    &&& before.len() <= after.len()
    &&& forall|i: int| 0 <= i < before.len() ==> #[trigger] after[i] == before[i]
    &&& forall|i: int|
        before.len() <= i < after.len() ==> !avoided.contains((#[trigger] after[i]).path)
}

proof fn lemma_node_at(nodes: Seq<NodeView>, i: int, path: Seq<char>)
    requires
        0 <= i,
    ensures
        match node_at(nodes, i, path) {
            Some(k) => i <= k < nodes.len() && nodes[k].path == path,
            None => forall|k: int| i <= k < nodes.len() ==> (#[trigger] nodes[k]).path != path,
        },
    decreases nodes.len() - i,
{
    if i < nodes.len() {
        lemma_node_at(nodes, i + 1, path);
    }
}

/// Visiting adds modules behind those there are. Every import leads to an
/// earlier module, no file is taken twice, and the module visited is there.
pub proof fn lemma_visited(
    files: Seq<SourceFileView>,
    nodes: Seq<NodeView>,
    visiting: Seq<Seq<char>>,
    path: Seq<char>,
    is_root: bool,
    span: Span,
    room: nat,
)
    requires
        ordered(nodes),
    ensures
        visited(files, nodes, visiting, path, is_root, span, room) matches Ok((i, after)) ==> {
            &&& 0 <= i < after.len()
            &&& after[i].path == path
            &&& ordered(after)
            &&& grew(nodes, after, visiting)
            &&& distinct_paths(nodes) ==> distinct_paths(after)
        },
    decreases room, 1int, 0int,
{
    lemma_node_at(nodes, 0, path);
    if node_at(nodes, 0, path) is None && !visiting.contains(path) && room > 0 {
        if let Some(file) = file_at(files, 0, path) {
            if let ContentsView::Text(source) = file.contents {
                if let Ok(program) = parsed(source) {
                    let below = visiting.push(path);
                    lemma_imports_visited(
                        files,
                        nodes,
                        below,
                        file,
                        program.imports,
                        0,
                        Seq::empty(),
                        (room - 1) as nat,
                    );
                    if let Ok((aliases, after)) = imports_visited(
                        files,
                        nodes,
                        below,
                        file,
                        program.imports,
                        0,
                        Seq::empty(),
                        (room - 1) as nat,
                    ) {
                        let out = after.push(NodeView { path, program, is_root, aliases });
                        assert(below[below.len() - 1] == path);
                        assert forall|i: int| 0 <= i < after.len() implies (
                        #[trigger] after[i]).path != path by {
                            if i >= nodes.len() {
                                assert(!below.contains(after[i].path));
                            } else {
                                assert(after[i] == nodes[i]);
                            }
                        }
                        assert forall|i: int| nodes.len() <= i < out.len() implies !visiting.contains(
                            (#[trigger] out[i]).path,
                        ) by {
                            if i < after.len() {
                                assert(out[i] == after[i]);
                                if visiting.contains(after[i].path) {
                                    let j = choose|j: int|
                                        0 <= j < visiting.len() && visiting[j] == after[i].path;
                                    assert(below[j] == after[i].path);
                                }
                            }
                        }
                    }
                }
            }
        }
    }
}

/// As before, for the imports from `i` on.
pub proof fn lemma_imports_visited(
    files: Seq<SourceFileView>,
    nodes: Seq<NodeView>,
    visiting: Seq<Seq<char>>,
    file: SourceFileView,
    imports: Seq<ImportDeclView>,
    i: int,
    aliases: Seq<(Seq<char>, int)>,
    room: nat,
)
    requires
        ordered(nodes),
        forall|j: int| 0 <= j < aliases.len() ==> 0 <= (#[trigger] aliases[j]).1 < nodes.len(),
    ensures
        imports_visited(files, nodes, visiting, file, imports, i, aliases, room) matches Ok(
            (found, after),
        ) ==> {
            &&& ordered(after)
            &&& grew(nodes, after, visiting)
            &&& distinct_paths(nodes) ==> distinct_paths(after)
            &&& forall|j: int| 0 <= j < found.len() ==> 0 <= (#[trigger] found[j]).1 < after.len()
        },
    decreases room, 2int, imports.len() - i,
{
    if 0 <= i < imports.len() {
        if let Ok(target) = found_module(
            file.path,
            imports[i].path,
            findings(file, i),
            imports[i].span,
        ) {
            lemma_visited(files, nodes, visiting, target, false, imports[i].span, room);
            if let Ok((index, after)) = visited(
                files,
                nodes,
                visiting,
                target,
                false,
                imports[i].span,
                room,
            ) {
                let more = aliases.push((imports[i].alias, index));
                lemma_imports_visited(files, after, visiting, file, imports, i + 1, more, room);
                if let Ok((_, last)) = imports_visited(
                    files,
                    after,
                    visiting,
                    file,
                    imports,
                    i + 1,
                    more,
                    room,
                ) {
                    assert forall|j: int| 0 <= j < nodes.len() implies #[trigger] last[j]
                        == nodes[j] by {
                        assert(last[j] == after[j]);
                    }
                    assert forall|j: int| nodes.len() <= j < last.len() implies !visiting.contains(
                        (#[trigger] last[j]).path,
                    ) by {
                        if j < after.len() {
                            assert(last[j] == after[j]);
                        }
                    }
                }
            }
        }
    }
}

pub proof fn lemma_last_named(decls: Seq<DeclView>, n: int, name: Seq<char>)
    ensures
        match last_named(decls, n, name) {
            Some(i) => 0 <= i < n && n <= decls.len() && declared_name(decls[i]) == Some(name)
                && forall|j: int|
                i < j < n ==> declared_name(#[trigger] decls[j]) != Some(name),
            None => n <= decls.len() ==> forall|j: int|
                0 <= j < n ==> declared_name(#[trigger] decls[j]) != Some(name),
        },
    decreases n,
{
    if n > 0 && n <= decls.len() {
        lemma_last_named(decls, n - 1, name);
    }
}

/// What a module declares has an identity and a name for the linker.
pub proof fn lemma_declared_has_identity(nodes: Seq<NodeView>, k: int, i: int)
    requires
        0 <= k < nodes.len(),
        0 <= i < nodes[k].program.declarations.len(),
    ensures
        declared_name(nodes[k].program.declarations[i]) matches Some(name) ==> identity(
            nodes,
            k,
            name,
        ) is Some && linker_name(nodes, k, name) is Some,
{
    let decls = nodes[k].program.declarations;
    if let Some(name) = declared_name(decls[i]) {
        lemma_last_named(decls, decls.len() as int, name);
        assert(declared_name(decls[i]) == Some(name));
    }
}

// ---------------------------------------------------------------------------
// Laws
// ---------------------------------------------------------------------------

/// A project takes each file once, its root among them, and every import leads
/// to a file that stands before the one that imports it.
pub proof fn lemma_dependencies_come_first(files: Seq<SourceFileView>, root: Seq<char>)
    ensures
        resolved(files, root) matches Ok(project) ==> {
            let graph = project.graph;
            &&& project.dependencies.no_duplicates()
            &&& project.dependencies.contains(root)
            &&& graph.modules.len() == project.dependencies.len()
            &&& forall|k: int|
                0 <= k < graph.modules.len() ==> (#[trigger] graph.modules[k]).path
                    == project.dependencies[k]
            &&& graph.modules.len() <= 0x1_0000_0000 ==> forall|k: int, j: int|
                0 <= k < graph.modules.len() && 0 <= j < graph.modules[k].imports.len()
                    ==> (#[trigger] graph.modules[k].imports[j]).target.0 < k
        },
{
    let empty = Seq::<NodeView>::empty();
    lemma_visited(files, empty, Seq::empty(), root, true, start_of_file(), files.len());
    if let Ok(project) = resolved(files, root) {
        let (index, nodes) = visited(
            files,
            empty,
            Seq::empty(),
            root,
            true,
            start_of_file(),
            files.len(),
        )->Ok_0;
        assert(project.dependencies[index] == root);
        assert forall|i: int, j: int|
            0 <= i < j < nodes.len() implies project.dependencies[i]
            != project.dependencies[j] by {
            assert(nodes[i].path != nodes[j].path);
        }
        if nodes.len() <= 0x1_0000_0000 {
            assert forall|k: int, j: int|
                0 <= k < nodes.len() && 0 <= j
                    < project.graph.modules[k].imports.len() implies (
            #[trigger] project.graph.modules[k].imports[j]).target.0 < k by {
                lemma_import_targets(nodes, k, nodes[k].program.imports.len() as int, j);
            }
        }
    }
}

proof fn lemma_alias_target(aliases: Seq<(Seq<char>, int)>, i: int, alias: Seq<char>)
    requires
        0 <= i,
    ensures
        alias_target(aliases, i, alias) matches Some(t) ==> exists|j: int|
            i <= j < aliases.len() && (#[trigger] aliases[j]).1 == t,
    decreases aliases.len() - i,
{
    if i < aliases.len() && aliases[i].0 != alias {
        lemma_alias_target(aliases, i + 1, alias);
    }
}

proof fn lemma_import_targets(nodes: Seq<NodeView>, k: int, n: int, j: int)
    requires
        ordered(nodes),
        nodes.len() <= 0x1_0000_0000,
        0 <= k < nodes.len(),
        0 <= j < module_imports(nodes, k, n).len(),
    ensures
        module_imports(nodes, k, n)[j].target.0 < k,
    decreases n,
{
    let imports = nodes[k].program.imports;
    if 0 < n <= imports.len() {
        if j < module_imports(nodes, k, n - 1).len() {
            lemma_import_targets(nodes, k, n - 1, j);
        } else {
            lemma_alias_target(nodes[k].aliases, 0, imports[n - 1].alias);
        }
    }
}

/// No module declares a name twice.
pub open spec fn distinct_names(nodes: Seq<NodeView>) -> bool {
    forall|k: int, i: int, j: int|
        0 <= k < nodes.len() && 0 <= i < j < nodes[k].program.declarations.len()
            && declared_name(#[trigger] nodes[k].program.declarations[i]) is Some ==> declared_name(
            nodes[k].program.declarations[i],
        ) != declared_name(#[trigger] nodes[k].program.declarations[j])
}

/// Identities number the definitions through all modules, in the order of the
/// files, where no module declares a name twice. So no two definitions have
/// one identity as long as there are enough of them.
pub proof fn lemma_identities_number_the_definitions(nodes: Seq<NodeView>, n: int)
    requires
        distinct_names(nodes),
        0 <= n < all_definitions(nodes, nodes.len() as int).len(),
    ensures
        all_definitions(nodes, nodes.len() as int)[n].id.0 == n % 0x1_0000_0000,
{
    lemma_definitions_numbered(nodes, nodes.len() as int, n);
}

proof fn lemma_definitions_numbered(nodes: Seq<NodeView>, k: int, n: int)
    requires
        distinct_names(nodes),
        0 <= k <= nodes.len(),
    ensures
        all_definitions(nodes, k).len() == count_before(nodes, k),
        0 <= n < all_definitions(nodes, k).len() ==> all_definitions(nodes, k)[n].id.0 == n
            % 0x1_0000_0000,
    decreases k,
{
    if k > 0 {
        lemma_definitions_numbered(nodes, k - 1, n);
        let decls = nodes[k - 1].program.declarations;
        let before = all_definitions(nodes, k - 1).len();
        lemma_module_definitions_numbered(nodes, k - 1, decls.len() as int, n - before);
    }
}

proof fn lemma_module_definitions_numbered(nodes: Seq<NodeView>, k: int, n: int, j: int)
    requires
        distinct_names(nodes),
        0 <= k < nodes.len(),
        0 <= n <= nodes[k].program.declarations.len(),
    ensures
        module_definitions(nodes, k, n).len() == named_count(nodes[k].program.declarations, n),
        0 <= j < module_definitions(nodes, k, n).len() ==> module_definitions(nodes, k, n)[j].id.0
            == (count_before(nodes, k) + j) % 0x1_0000_0000,
    decreases n,
{
    let decls = nodes[k].program.declarations;
    if n > 0 {
        lemma_module_definitions_numbered(nodes, k, n - 1, j);
        if let Some(name) = declared_name(decls[n - 1]) {
            lemma_last_named(decls, decls.len() as int, name);
            let i = last_named(decls, decls.len() as int, name)->Some_0;
            if i < n - 1 {
                assert(declared_name(decls[n - 1]) != Some(name));
            } else if i > n - 1 {
                assert(declared_name(nodes[k].program.declarations[n - 1]) != declared_name(
                    nodes[k].program.declarations[i],
                ));
            }
        }
    }
}

/// The modules from `k` on pass exactly where each of their declarations does.
pub proof fn lemma_hidden_names_are_refused(nodes: Seq<NodeView>, k: int)
    requires
        0 <= k <= nodes.len(),
    ensures
        visible_modules(nodes, k) is Ok <==> forall|m: int, i: int|
            k <= m < nodes.len() && 0 <= i < nodes[m].program.declarations.len()
                ==> visible_declaration(nodes, m,
                    #[trigger] nodes[m].program.declarations[i]) is Ok,
    decreases nodes.len() - k,
{
    if k < nodes.len() {
        lemma_hidden_declarations(nodes, k, 0);
        lemma_hidden_names_are_refused(nodes, k + 1);
        if visible_modules(nodes, k) is Ok {
            assert forall|m: int, i: int|
                k <= m < nodes.len() && 0 <= i
                    < nodes[m].program.declarations.len() implies visible_declaration(
                nodes,
                m,
                #[trigger] nodes[m].program.declarations[i],
            ) is Ok by {
                if m > k {
                    assert(k + 1 <= m);
                }
            }
        }
    }
}

proof fn lemma_hidden_declarations(nodes: Seq<NodeView>, k: int, i: int)
    requires
        0 <= k < nodes.len(),
        0 <= i <= nodes[k].program.declarations.len(),
    ensures
        visible_declarations(nodes, k, i) is Ok <==> forall|j: int|
            i <= j < nodes[k].program.declarations.len() ==> visible_declaration(
                nodes,
                k,
                #[trigger] nodes[k].program.declarations[j],
            ) is Ok,
    decreases nodes[k].program.declarations.len() - i,
{
    if i < nodes[k].program.declarations.len() {
        lemma_hidden_declarations(nodes, k, i + 1);
    }
}

/// Whether every path is that of a file, and none occurs twice.
pub open spec fn are_files(files: Seq<SourceFileView>, paths: Seq<Seq<char>>) -> bool {
    paths.no_duplicates() && forall|i: int|
        0 <= i < paths.len() ==> file_at(files, 0, #[trigger] paths[i]) is Some
}

proof fn lemma_file_at(files: Seq<SourceFileView>, i: int, path: Seq<char>)
    requires
        0 <= i,
    ensures
        file_at(files, i, path) matches Some(file) ==> exists|j: int|
            i <= j < files.len() && (#[trigger] files[j]).path == path,
    decreases files.len() - i,
{
    if i < files.len() && files[i].path != path {
        lemma_file_at(files, i + 1, path);
    }
}

/// There are no more distinct paths of files than files.
proof fn lemma_enough_files(files: Seq<SourceFileView>, paths: Seq<Seq<char>>)
    requires
        are_files(files, paths),
    ensures
        paths.len() <= files.len(),
{
    let all = files.map_values(|f: SourceFileView| f.path);
    assert forall|p: Seq<char>| paths.to_set().contains(p) implies #[trigger] all.to_set().contains(
        p,
    ) by {
        let i = choose|i: int| 0 <= i < paths.len() && paths[i] == p;
        lemma_file_at(files, 0, paths[i]);
        let j = choose|j: int| 0 <= j < files.len() && (#[trigger] files[j]).path == p;
        assert(all[j] == p);
    }
    paths.unique_seq_to_set();
    all.lemma_cardinality_of_set();
    vstd::set_lib::lemma_len_subset(paths.to_set(), all.to_set());
}

/// Room for as many modules as there are files is enough: more changes
/// nothing.
pub proof fn lemma_room_for_every_file_is_enough(
    files: Seq<SourceFileView>,
    nodes: Seq<NodeView>,
    visiting: Seq<Seq<char>>,
    path: Seq<char>,
    is_root: bool,
    span: Span,
    room: nat,
    more: nat,
)
    requires
        are_files(files, visiting),
        visiting.len() + room >= files.len(),
        more >= room,
    ensures
        visited(files, nodes, visiting, path, is_root, span, room) == visited(
            files,
            nodes,
            visiting,
            path,
            is_root,
            span,
            more,
        ),
    decreases room, 1int, 0int,
{
    if node_at(nodes, 0, path) is None && !visiting.contains(path) {
        if let Some(file) = file_at(files, 0, path) {
            let below = visiting.push(path);
            assert forall|i: int| 0 <= i < below.len() implies file_at(
                files,
                0,
                #[trigger] below[i],
            ) is Some by {
                if i < visiting.len() {
                    assert(below[i] == visiting[i]);
                }
            }
            assert(below.no_duplicates());
            lemma_enough_files(files, below);
            if let ContentsView::Text(source) = file.contents {
                if let Ok(program) = parsed(source) {
                    lemma_room_for_imports(
                        files,
                        nodes,
                        below,
                        file,
                        program.imports,
                        0,
                        Seq::empty(),
                        (room - 1) as nat,
                        (more - 1) as nat,
                    );
                }
            }
        }
    }
}

proof fn lemma_room_for_imports(
    files: Seq<SourceFileView>,
    nodes: Seq<NodeView>,
    visiting: Seq<Seq<char>>,
    file: SourceFileView,
    imports: Seq<ImportDeclView>,
    i: int,
    aliases: Seq<(Seq<char>, int)>,
    room: nat,
    more: nat,
)
    requires
        are_files(files, visiting),
        visiting.len() + room >= files.len(),
        more >= room,
    ensures
        imports_visited(files, nodes, visiting, file, imports, i, aliases, room)
            == imports_visited(files, nodes, visiting, file, imports, i, aliases, more),
    decreases room, 2int, imports.len() - i,
{
    if 0 <= i < imports.len() {
        if let Ok(target) = found_module(
            file.path,
            imports[i].path,
            findings(file, i),
            imports[i].span,
        ) {
            lemma_room_for_every_file_is_enough(
                files,
                nodes,
                visiting,
                target,
                false,
                imports[i].span,
                room,
                more,
            );
            if let Ok((index, after)) = visited(
                files,
                nodes,
                visiting,
                target,
                false,
                imports[i].span,
                room,
            ) {
                lemma_room_for_imports(
                    files,
                    after,
                    visiting,
                    file,
                    imports,
                    i + 1,
                    aliases.push((imports[i].alias, index)),
                    room,
                    more,
                );
            }
        }
    }
}

} // verus!
