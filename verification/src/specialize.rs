//! Specialization: generic functions and structs, once for each list of type
//! arguments they are used with.
use crate::ast::{
    decls_view, exprs_view, fields_view, generics_view, inits_view, parameters_view, stmts_view,
    Block, BlockView, Decl, DeclView, Expr, ExprView, FunctionDecl, FunctionDeclView, GenericParam,
    GenericParamView, Parameter, ParameterView, Program, ProgramView, Stmt, StmtView, StructDecl,
    StructDeclView, StructField, StructFieldView, StructInit, StructInitView, Type, TypeView,
    VariableDecl, VariableDeclView,
};
use crate::comptime::{named_types_clone, named_types_view, Error, ErrorView};
use crate::lexer::Span;
use crate::names::{mangle_type, mangled, unspell_type, unspelled};
use crate::text::{chars_of, decimal, decimal_text, joined, text_between};
use vstd::prelude::*;

verus! {

broadcast use crate::ast::group_ast_lists;

/// How many specializations of each sort a program may have.
pub const MAX_SPECIALIZATIONS: usize = 10_000;

/// Names with types: the last entry of a name holds.
pub type Types = Seq<(Seq<char>, TypeView)>;

/// The type of a name among the first `n` entries.
pub open spec fn type_of(types: Types, n: int, name: Seq<char>) -> Option<TypeView>
    decreases n,
{
    if n <= 0 || n > types.len() {
        None
    } else if types[n - 1].0 == name {
        Some(types[n - 1].1)
    } else {
        type_of(types, n - 1, name)
    }
}

pub open spec fn lookup(types: Types, name: Seq<char>) -> Option<TypeView> {
    type_of(types, types.len() as int, name)
}

/// An instance of something generic: the place of its declaration and the type
/// arguments identify it. The name is what it is called.
pub ghost struct InstanceView {
    pub definition: int,
    pub arguments: Seq<TypeView>,
    pub name: Seq<char>,
}

/// What has been specialized so far: functions and structs in the order of
/// their names, and the instances met.
pub ghost struct Made {
    pub functions: Seq<FunctionDeclView>,
    pub structs: Seq<StructDeclView>,
    pub instances: Seq<InstanceView>,
}

pub open spec fn limit_exceeded(span: Span) -> ErrorView {
    ErrorView::InvalidOperation { message: "generic specialization limit exceeded"@, span }
}

// ---------------------------------------------------------------------------
// Names in order
// ---------------------------------------------------------------------------

/// Whether `a` comes before `b`, from character `i` on.
pub open spec fn precedes_from(a: Seq<char>, b: Seq<char>, i: int) -> bool
    decreases a.len() - i,
{
    if i < 0 || i >= b.len() {
        false
    } else if i >= a.len() {
        true
    } else if a[i] == b[i] {
        precedes_from(a, b, i + 1)
    } else {
        a[i] < b[i]
    }
}

/// Whether `a` comes before `b` in the order of their characters.
pub open spec fn precedes(a: Seq<char>, b: Seq<char>) -> bool {
    precedes_from(a, b, 0)
}

/// The place from `i` on where a function of the name is or would stand.
pub open spec fn function_place(fs: Seq<FunctionDeclView>, i: int, name: Seq<char>) -> int
    decreases fs.len() - i,
{
    if i < 0 || i >= fs.len() || fs[i].name == name || precedes(name, fs[i].name) {
        i
    } else {
        function_place(fs, i + 1, name)
    }
}

pub open spec fn has_function(fs: Seq<FunctionDeclView>, name: Seq<char>) -> bool {
    exists|i: int| 0 <= i < fs.len() && (#[trigger] fs[i]).name == name
}

/// The functions with one more at its place; one of the same name gives way.
pub open spec fn with_function(fs: Seq<FunctionDeclView>, f: FunctionDeclView) -> Seq<
    FunctionDeclView,
> {
    let i = function_place(fs, 0, f.name);
    if i < fs.len() && fs[i].name == f.name {
        fs.update(i, f)
    } else {
        fs.insert(i, f)
    }
}

/// The place from `i` on where a struct of the name is or would stand.
pub open spec fn struct_place(ss: Seq<StructDeclView>, i: int, name: Seq<char>) -> int
    decreases ss.len() - i,
{
    if i < 0 || i >= ss.len() || ss[i].name == name || precedes(name, ss[i].name) {
        i
    } else {
        struct_place(ss, i + 1, name)
    }
}

/// The structs with one more at its place; one of the same name gives way.
pub open spec fn with_struct(ss: Seq<StructDeclView>, s: StructDeclView) -> Seq<StructDeclView> {
    let i = struct_place(ss, 0, s.name);
    if i < ss.len() && ss[i].name == s.name {
        ss.update(i, s)
    } else {
        ss.insert(i, s)
    }
}

// ---------------------------------------------------------------------------
// Generic declarations
// ---------------------------------------------------------------------------

/// The last of the first `n` declarations that is a generic function of the
/// name.
pub open spec fn generic_function(decls: Seq<DeclView>, n: int, name: Seq<char>) -> Option<int>
    decreases n,
{
    if n <= 0 || n > decls.len() {
        None
    } else {
        match decls[n - 1] {
            DeclView::Function(f) => if f.generic_params.len() > 0 && f.name == name {
                Some(n - 1)
            } else {
                generic_function(decls, n - 1, name)
            },
            _ => generic_function(decls, n - 1, name),
        }
    }
}

/// The last of the first `n` declarations that is a generic struct of the
/// name.
pub open spec fn generic_struct(decls: Seq<DeclView>, n: int, name: Seq<char>) -> Option<int>
    decreases n,
{
    if n <= 0 || n > decls.len() {
        None
    } else {
        match decls[n - 1] {
            DeclView::Struct(s) => if s.generic_params.len() > 0 && s.name == name {
                Some(n - 1)
            } else {
                generic_struct(decls, n - 1, name)
            },
            _ => generic_struct(decls, n - 1, name),
        }
    }
}

pub open spec fn find_generic_function(decls: Seq<DeclView>, name: Seq<char>) -> Option<int> {
    generic_function(decls, decls.len() as int, name)
}

pub open spec fn find_generic_struct(decls: Seq<DeclView>, name: Seq<char>) -> Option<int> {
    generic_struct(decls, decls.len() as int, name)
}

/// The type arguments of the parameters from `i` on, as far as there are any.
pub open spec fn argument_types(
    params: Seq<GenericParamView>,
    types: Types,
    i: int,
) -> Seq<TypeView>
    decreases params.len() - i,
{
    if i < 0 || i >= params.len() {
        Seq::empty()
    } else {
        let rest = argument_types(params, types, i + 1);
        match lookup(types, params[i].name) {
            Some(ty) => seq![ty] + rest,
            None => rest,
        }
    }
}

/// The name of an instance among those from `i` on.
pub open spec fn instance_name(
    instances: Seq<InstanceView>,
    i: int,
    definition: int,
    arguments: Seq<TypeView>,
) -> Option<Seq<char>>
    decreases instances.len() - i,
{
    if i < 0 || i >= instances.len() {
        None
    } else if instances[i].definition == definition && instances[i].arguments == arguments {
        Some(instances[i].name)
    } else {
        instance_name(instances, i + 1, definition, arguments)
    }
}

/// Notes a new instance.
pub open spec fn registered(made: Made, instance: InstanceView, span: Span) -> Result<
    Made,
    ErrorView,
> {
    if made.instances.len() + 1 > MAX_SPECIALIZATIONS {
        Err(limit_exceeded(span))
    } else {
        Ok(Made { instances: made.instances.push(instance), ..made })
    }
}

/// The length of the longest name of the first `n` functions.
pub open spec fn longest_name(fs: Seq<FunctionDeclView>, n: int) -> nat
    decreases n,
{
    if n <= 0 || n > fs.len() {
        0
    } else if fs[n - 1].name.len() > longest_name(fs, n - 1) {
        fs[n - 1].name.len()
    } else {
        longest_name(fs, n - 1)
    }
}

/// A name that no function has: the one wished for, or one that is longer than
/// all there are.
pub open spec fn free_name(fs: Seq<FunctionDeclView>, name: Seq<char>) -> Seq<char> {
    if has_function(fs, name) {
        name + Seq::new(longest_name(fs, fs.len() as int), |i: int| '_')
    } else {
        name
    }
}

/// What stands before the first `__` and after it, if there is one.
pub open spec fn split_marks(s: Seq<char>, i: int) -> Option<int>
    decreases s.len() - i,
{
    if i < 0 || i + 1 >= s.len() {
        None
    } else if s[i] == '_' && s[i + 1] == '_' {
        Some(i)
    } else {
        split_marks(s, i + 1)
    }
}

/// The parts of a text between its `__`, after those before it.
pub open spec fn parts(s: Seq<char>, before: Seq<Seq<char>>) -> Seq<Seq<char>>
    decreases s.len(),
{
    match split_marks(s, 0) {
        Some(i) => if 0 <= i && i + 2 <= s.len() {
            parts(s.skip(i + 2), before.push(s.take(i)))
        } else {
            before.push(s)
        },
        None => before.push(s),
    }
}

/// The type parameters from `i` on with the types that the parts name.
pub open spec fn named_arguments(
    params: Seq<GenericParamView>,
    names: Seq<Seq<char>>,
    i: int,
    before: Types,
) -> Types
    decreases params.len() - i,
{
    if i < 0 || i >= params.len() || i >= names.len() {
        before
    } else {
        named_arguments(params, names, i + 1, before.push((params[i].name, unspelled(names[i]))))
    }
}

/// A type with type parameters replaced.
pub open spec fn substituted(ty: TypeView, types: Types) -> TypeView
    decreases ty,
{
    match ty {
        TypeView::Named(name) => match lookup(types, name) {
            Some(found) => found,
            None => ty,
        },
        TypeView::Pointer(x) => TypeView::Pointer(Box::new(substituted(*x, types))),
        TypeView::Slice(x) => TypeView::Slice(Box::new(substituted(*x, types))),
        TypeView::Array { length, element } => TypeView::Array {
            length,
            element: Box::new(substituted(*element, types)),
        },
        TypeView::Result { success, error } => TypeView::Result {
            success: Box::new(substituted(*success, types)),
            error: Box::new(substituted(*error, types)),
        },
        TypeView::Unit => ty,
    }
}

pub open spec fn substituted_fields(fields: Seq<StructFieldView>, types: Types) -> Seq<
    StructFieldView,
> {
    Seq::new(
        fields.len(),
        |i: int| StructFieldView { ty: substituted(fields[i].ty, types), ..fields[i] },
    )
}

pub open spec fn substituted_parameters(params: Seq<ParameterView>, types: Types) -> Seq<
    ParameterView,
> {
    Seq::new(
        params.len(),
        |i: int| ParameterView { ty: substituted(params[i].ty, types), ..params[i] },
    )
}

/// Makes the struct of a name like `Box__i32`, where there is a generic one
/// to make it of.
pub open spec fn struct_made(
    decls: Seq<DeclView>,
    made: Made,
    name: Seq<char>,
    span: Span,
) -> Result<
    Made,
    ErrorView,
> {
    match split_marks(name, 0) {
        None => Ok(made),
        Some(at) => {
            let base = name.take(at);
            match find_generic_struct(decls, base) {
                None => Ok(made),
                Some(k) => {
                    let structure = decls[k]->Struct_0;
                    let names = parts(name.skip(at + 2), Seq::empty());
                    let params = structure.generic_params;
                    let types = named_arguments(params, names, 0, Seq::empty());
                    let arguments = argument_types(params, types, 0);
                    if names.len() == params.len() && instance_name(
                        made.instances,
                        0,
                        k,
                        arguments,
                    ) is Some {
                        Ok(made)
                    } else if made.structs.len() >= MAX_SPECIALIZATIONS {
                        Err(limit_exceeded(span))
                    } else if names.len() != params.len() {
                        Err(
                            ErrorView::InvalidOperation {
                                message: "generic type `"@ + base + "` expects "@ + decimal(
                                    params.len(),
                                ) + " type arguments"@,
                                span,
                            },
                        )
                    } else {
                        match registered(
                            made,
                            InstanceView { definition: k, arguments, name },
                            span,
                        ) {
                            Err(error) => Err(error),
                            Ok(after) => Ok(
                                Made {
                                    structs: with_struct(
                                        after.structs,
                                        StructDeclView {
                                            name,
                                            generic_params: Seq::empty(),
                                            fields: substituted_fields(structure.fields, types),
                                            ..structure
                                        },
                                    ),
                                    ..after
                                },
                            ),
                        }
                    }
                },
            }
        },
    }
}

/// Makes the structs that a type names.
pub open spec fn type_made(decls: Seq<DeclView>, made: Made, ty: TypeView, span: Span) -> Result<
    Made,
    ErrorView,
>
    decreases ty,
{
    match ty {
        TypeView::Named(name) => struct_made(decls, made, name, span),
        TypeView::Pointer(inner) => type_made(decls, made, *inner, span),
        TypeView::Slice(inner) => type_made(decls, made, *inner, span),
        TypeView::Array { element, .. } => type_made(decls, made, *element, span),
        TypeView::Result { success, error } => match type_made(decls, made, *success, span) {
            Err(problem) => Err(problem),
            Ok(after) => type_made(decls, after, *error, span),
        },
        TypeView::Unit => Ok(made),
    }
}

// ---------------------------------------------------------------------------
// Type arguments
// ---------------------------------------------------------------------------

/// The type of an argument, where its form tells it.
pub open spec fn argument_type(e: ExprView, env: Types) -> Option<TypeView> {
    match e {
        ExprView::Integer { .. } => Some(TypeView::Named("i32"@)),
        ExprView::Float { .. } => Some(TypeView::Named("f64"@)),
        ExprView::Bool { .. } => Some(TypeView::Named("bool"@)),
        ExprView::Identifier { name, .. } => lookup(env, name),
        ExprView::StructLiteral { name, .. } => Some(TypeView::Named(name)),
        ExprView::ArrayLiteral { ty, .. } => Some(ty),
        _ => None,
    }
}

pub open spec fn is_parameter(params: Seq<GenericParamView>, name: Seq<char>) -> bool {
    exists|i: int| 0 <= i < params.len() && (#[trigger] params[i]).name == name
}

/// What an argument's type tells of the type parameters in the parameter's.
pub open spec fn matched(
    pattern: TypeView,
    actual: TypeView,
    types: Types,
    params: Seq<GenericParamView>,
    span: Span,
) -> Result<Types, ErrorView>
    decreases pattern,
{
    match (pattern, actual) {
        (TypeView::Named(name), _) => if is_parameter(params, name) {
            match lookup(types, name) {
                Some(before) => if before == actual {
                    Ok(types)
                } else {
                    Err(
                        ErrorView::InvalidOperation {
                            message: "conflicting inferred generic type arguments"@,
                            span,
                        },
                    )
                },
                None => Ok(types.push((name, actual))),
            }
        } else {
            Ok(types)
        },
        (TypeView::Pointer(p), TypeView::Pointer(a)) => matched(*p, *a, types, params, span),
        (TypeView::Slice(p), TypeView::Slice(a)) => matched(*p, *a, types, params, span),
        (
            TypeView::Array { length: n, element: p },
            TypeView::Array { length: m, element: a },
        ) => if n == m {
            matched(*p, *a, types, params, span)
        } else {
            Ok(types)
        },
        (
            TypeView::Result { success: p, error: e },
            TypeView::Result { success: a, error: f },
        ) => match matched(*p, *a, types, params, span) {
            Err(error) => Err(error),
            Ok(after) => matched(*e, *f, after, params, span),
        },
        _ => Ok(types),
    }
}

/// What the arguments from `i` on tell of a function's type parameters.
pub open spec fn all_matched(
    f: FunctionDeclView,
    arguments: Seq<ExprView>,
    env: Types,
    i: int,
    types: Types,
    span: Span,
) -> Result<Types, ErrorView>
    decreases f.params.len() - i,
{
    if i < 0 || i >= f.params.len() || i >= arguments.len() {
        Ok(types)
    } else {
        match argument_type(arguments[i], env) {
            None => Err(
                ErrorView::InvalidOperation {
                    message: "cannot infer type argument for `"@ + f.name + "`"@,
                    span,
                },
            ),
            Some(actual) => match matched(
                f.params[i].ty,
                actual,
                types,
                f.generic_params,
                span,
            ) {
                Err(error) => Err(error),
                Ok(after) => all_matched(f, arguments, env, i + 1, after, span),
            },
        }
    }
}

/// What the type arguments of the parameters from `i` on add to a name.
pub open spec fn suffix(params: Seq<GenericParamView>, types: Types, i: int) -> Seq<char>
    decreases params.len() - i,
{
    if i < 0 || i >= params.len() {
        Seq::empty()
    } else {
        let part = match lookup(types, params[i].name) {
            Some(ty) => mangled(ty),
            None => Seq::empty(),
        };
        (if i == 0 {
            part
        } else {
            "__"@ + part
        }) + suffix(params, types, i + 1)
    }
}

// ---------------------------------------------------------------------------
// Types in bodies
// ---------------------------------------------------------------------------

/// An expression with type parameters replaced.
pub open spec fn substituted_expr(e: ExprView, types: Types) -> ExprView
    decreases e,
{
    match e {
        ExprView::ArrayLiteral { ty, elements, span } => ExprView::ArrayLiteral {
            ty: substituted(ty, types),
            elements: substituted_exprs(elements, types),
            span,
        },
        ExprView::SizeOf { ty, span } => ExprView::SizeOf { ty: substituted(ty, types), span },
        ExprView::AlignOf { ty, span } => ExprView::AlignOf { ty: substituted(ty, types), span },
        ExprView::OffsetOf { ty, field, span } => ExprView::OffsetOf {
            ty: substituted(ty, types),
            field,
            span,
        },
        ExprView::Binary { left, operator, right, span } => ExprView::Binary {
            left: Box::new(substituted_expr(*left, types)),
            operator,
            right: Box::new(substituted_expr(*right, types)),
            span,
        },
        ExprView::Unary { operator, operand, span } => ExprView::Unary {
            operator,
            operand: Box::new(substituted_expr(*operand, types)),
            span,
        },
        ExprView::Call { callee, arguments, span } => ExprView::Call {
            callee: Box::new(substituted_expr(*callee, types)),
            arguments: substituted_exprs(arguments, types),
            span,
        },
        ExprView::Field { base, name, span } => ExprView::Field {
            base: Box::new(substituted_expr(*base, types)),
            name,
            span,
        },
        ExprView::Index { base, index, span } => ExprView::Index {
            base: Box::new(substituted_expr(*base, types)),
            index: Box::new(substituted_expr(*index, types)),
            span,
        },
        ExprView::UncheckedIndex { base, index, span } => ExprView::UncheckedIndex {
            base: Box::new(substituted_expr(*base, types)),
            index: Box::new(substituted_expr(*index, types)),
            span,
        },
        ExprView::StructLiteral { name, fields, span } => ExprView::StructLiteral {
            name,
            fields: substituted_inits(fields, types),
            span,
        },
        ExprView::Propagate { expression, span } => ExprView::Propagate {
            expression: Box::new(substituted_expr(*expression, types)),
            span,
        },
        ExprView::Comptime { expression, span } => ExprView::Comptime {
            expression: Box::new(substituted_expr(*expression, types)),
            span,
        },
        _ => e,
    }
}

pub open spec fn substituted_exprs(es: Seq<ExprView>, types: Types) -> Seq<ExprView>
    decreases es,
{
    Seq::new(
        es.len(),
        |i: int|
            if 0 <= i < es.len() {
                substituted_expr(es[i], types)
            } else {
                arbitrary()
            },
    )
}

pub open spec fn substituted_inits(inits: Seq<StructInitView>, types: Types) -> Seq<StructInitView>
    decreases inits,
{
    Seq::new(
        inits.len(),
        |i: int|
            if 0 <= i < inits.len() {
                StructInitView {
                    name: inits[i].name,
                    value: substituted_expr(inits[i].value, types),
                    span: inits[i].span,
                }
            } else {
                arbitrary()
            },
    )
}

/// A block with type parameters replaced.
pub open spec fn substituted_block(b: BlockView, types: Types) -> BlockView
    decreases b,
{
    BlockView { statements: substituted_statements(b.statements, types), span: b.span }
}

pub open spec fn substituted_statements(ss: Seq<StmtView>, types: Types) -> Seq<StmtView>
    decreases ss,
{
    Seq::new(
        ss.len(),
        |i: int|
            if 0 <= i < ss.len() {
                substituted_statement(ss[i], types)
            } else {
                arbitrary()
            },
    )
}

pub open spec fn substituted_statement(s: StmtView, types: Types) -> StmtView
    decreases s,
{
    match s {
        StmtView::If { condition, then_branch, else_branch, span } => StmtView::If {
            condition: substituted_expr(condition, types),
            then_branch: substituted_block(then_branch, types),
            else_branch: match else_branch {
                Some(branch) => Some(substituted_block(branch, types)),
                None => None,
            },
            span,
        },
        StmtView::While { condition, body, span } => StmtView::While {
            condition: substituted_expr(condition, types),
            body: substituted_block(body, types),
            span,
        },
        StmtView::Return { value, span } => StmtView::Return {
            value: match value {
                Some(e) => Some(substituted_expr(e, types)),
                None => None,
            },
            span,
        },
        StmtView::Variable(v) => StmtView::Variable(
            VariableDeclView {
                ty: match v.ty {
                    Some(ty) => Some(substituted(ty, types)),
                    None => None,
                },
                value: substituted_expr(v.value, types),
                ..v
            },
        ),
        StmtView::Assignment { target, value, span } => StmtView::Assignment {
            target: substituted_expr(target, types),
            value: substituted_expr(value, types),
            span,
        },
        StmtView::Expr { expression, span } => StmtView::Expr {
            expression: substituted_expr(expression, types),
            span,
        },
        StmtView::Defer { call, span } => StmtView::Defer {
            call: substituted_expr(call, types),
            span,
        },
        StmtView::Break { .. } => s,
        StmtView::Continue { .. } => s,
    }
}

// ---------------------------------------------------------------------------
// Bodies
// ---------------------------------------------------------------------------

/// The names and types of parameters.
pub open spec fn parameter_env(params: Seq<ParameterView>) -> Types {
    Seq::new(params.len(), |i: int| (params[i].name, params[i].ty))
}

/// Makes the specialization of a generic function that a call asks for: its
/// name, and what is made then. Specializations nest at most `budget` deep.
pub open spec fn function_made(
    decls: Seq<DeclView>,
    made: Made,
    name: Seq<char>,
    arguments: Seq<ExprView>,
    span: Span,
    env: Types,
    budget: nat,
) -> Result<(Seq<char>, Made), ErrorView>
    decreases budget, 0int, arguments, 0int,
{
    match find_generic_function(decls, name) {
        None => Err(ErrorView::Undefined { name, span }),
        Some(k) => {
            let f = decls[k]->Function_0;
            match all_matched(f, arguments, env, 0, Seq::empty(), span) {
                Err(error) => Err(error),
                Ok(types) => {
                    let arguments = argument_types(f.generic_params, types, 0);
                    if types.len() != f.generic_params.len() {
                        Err(
                            ErrorView::InvalidOperation {
                                message: "could not infer all type arguments for `"@ + name + "`"@,
                                span,
                            },
                        )
                    } else if instance_name(made.instances, 0, k, arguments) is Some {
                        Ok((instance_name(made.instances, 0, k, arguments)->Some_0, made))
                    } else if made.functions.len() >= MAX_SPECIALIZATIONS || budget == 0 {
                        Err(limit_exceeded(span))
                    } else {
                        let full = free_name(
                            made.functions,
                            name + "__"@ + suffix(f.generic_params, types, 0),
                        );
                        let instance = InstanceView { definition: k, arguments, name: full };
                        match registered(made, instance, span) {
                            Err(error) => Err(error),
                            Ok(noted) => {
                                let params = substituted_parameters(f.params, types);
                                let skeleton = FunctionDeclView {
                                    name: full,
                                    generic_params: Seq::empty(),
                                    params,
                                    return_type: substituted(f.return_type, types),
                                    ..f
                                };
                                let begun = Made {
                                    functions: with_function(noted.functions, skeleton),
                                    ..noted
                                };
                                match block_made(
                                    decls,
                                    begun,
                                    substituted_block(f.body, types),
                                    parameter_env(params),
                                    (budget - 1) as nat,
                                ) {
                                    Err(error) => Err(error),
                                    Ok((body, after)) => Ok(
                                        (
                                            full,
                                            Made {
                                                functions: with_function(
                                                    after.functions,
                                                    FunctionDeclView { body, ..skeleton },
                                                ),
                                                ..after
                                            },
                                        ),
                                    ),
                                }
                            },
                        }
                    }
                },
            }
        },
    }
}

/// A block whose calls of generic functions name their specializations.
pub open spec fn block_made(
    decls: Seq<DeclView>,
    made: Made,
    b: BlockView,
    env: Types,
    budget: nat,
) -> Result<(BlockView, Made), ErrorView>
    decreases budget, 2int, b, 0int,
{
    match statements_made(decls, made, b.statements, 0, Seq::empty(), env, budget) {
        Err(error) => Err(error),
        Ok((statements, after)) => Ok((BlockView { statements, span: b.span }, after)),
    }
}

/// The statements from `i` on, after those before it.
pub open spec fn statements_made(
    decls: Seq<DeclView>,
    made: Made,
    ss: Seq<StmtView>,
    i: int,
    before: Seq<StmtView>,
    env: Types,
    budget: nat,
) -> Result<(Seq<StmtView>, Made), ErrorView>
    decreases budget, 2int, ss, ss.len() - i,
{
    if i < 0 || i >= ss.len() {
        Ok((before, made))
    } else {
        match statement_made(decls, made, ss[i], env, budget) {
            Err(error) => Err(error),
            Ok((statement, locals, after)) => statements_made(
                decls,
                after,
                ss,
                i + 1,
                before.push(statement),
                locals,
                budget,
            ),
        }
    }
}

/// A statement, and the types of the names after it.
pub open spec fn statement_made(
    decls: Seq<DeclView>,
    made: Made,
    s: StmtView,
    env: Types,
    budget: nat,
) -> Result<(StmtView, Types, Made), ErrorView>
    decreases budget, 2int, s, 0int,
{
    match s {
        StmtView::Variable(v) => match expr_made(decls, made, v.value, env, budget) {
            Err(error) => Err(error),
            Ok((value, after)) => match (match v.ty {
                Some(ty) => type_made(decls, after, ty, v.span),
                None => Ok(after),
            }) {
                Err(error) => Err(error),
                Ok(last) => {
                    let ty = match v.ty {
                        Some(ty) => ty,
                        None => match argument_type(value, env) {
                            Some(ty) => ty,
                            None => TypeView::Named("i32"@),
                        },
                    };
                    Ok(
                        (
                            StmtView::Variable(VariableDeclView { value, ..v }),
                            env.push((v.name, ty)),
                            last,
                        ),
                    )
                },
            },
        },
        StmtView::Expr { expression, span } => match expr_made(
            decls,
            made,
            expression,
            env,
            budget,
        ) {
            Err(error) => Err(error),
            Ok((e, after)) => Ok((StmtView::Expr { expression: e, span }, env, after)),
        },
        StmtView::Return { value, span } => match value {
            None => Ok((s, env, made)),
            Some(e) => match expr_made(decls, made, e, env, budget) {
                Err(error) => Err(error),
                Ok((x, after)) => Ok((StmtView::Return { value: Some(x), span }, env, after)),
            },
        },
        StmtView::Assignment { target, value, span } => match expr_made(
            decls,
            made,
            target,
            env,
            budget,
        ) {
            Err(error) => Err(error),
            Ok((place, after)) => match expr_made(decls, after, value, env, budget) {
                Err(error) => Err(error),
                Ok((x, last)) => Ok(
                    (StmtView::Assignment { target: place, value: x, span }, env, last),
                ),
            },
        },
        StmtView::If { condition, then_branch, else_branch, span } => match expr_made(
            decls,
            made,
            condition,
            env,
            budget,
        ) {
            Err(error) => Err(error),
            Ok((test, after)) => match block_made(decls, after, then_branch, env, budget) {
                Err(error) => Err(error),
                Ok((yes, next)) => match else_branch {
                    None => Ok(
                        (
                            StmtView::If {
                                condition: test,
                                then_branch: yes,
                                else_branch: None,
                                span,
                            },
                            env,
                            next,
                        ),
                    ),
                    Some(branch) => match block_made(decls, next, branch, env, budget) {
                        Err(error) => Err(error),
                        Ok((no, last)) => Ok(
                            (
                                StmtView::If {
                                    condition: test,
                                    then_branch: yes,
                                    else_branch: Some(no),
                                    span,
                                },
                                env,
                                last,
                            ),
                        ),
                    },
                },
            },
        },
        StmtView::While { condition, body, span } => match expr_made(
            decls,
            made,
            condition,
            env,
            budget,
        ) {
            Err(error) => Err(error),
            Ok((test, after)) => match block_made(decls, after, body, env, budget) {
                Err(error) => Err(error),
                Ok((inner, last)) => Ok(
                    (StmtView::While { condition: test, body: inner, span }, env, last),
                ),
            },
        },
        StmtView::Defer { call, span } => match expr_made(decls, made, call, env, budget) {
            Err(error) => Err(error),
            Ok((x, after)) => Ok((StmtView::Defer { call: x, span }, env, after)),
        },
        StmtView::Break { .. } => Ok((s, env, made)),
        StmtView::Continue { .. } => Ok((s, env, made)),
    }
}

/// An expression whose calls of generic functions name their specializations.
pub open spec fn expr_made(
    decls: Seq<DeclView>,
    made: Made,
    e: ExprView,
    env: Types,
    budget: nat,
) -> Result<(ExprView, Made), ErrorView>
    decreases budget, 1int, e, 0int,
{
    match e {
        ExprView::Call { callee, arguments, span } => match exprs_made(
            decls,
            made,
            arguments,
            0,
            Seq::empty(),
            env,
            budget,
        ) {
            Err(error) => Err(error),
            Ok((values, after)) => match expr_made(decls, after, *callee, env, budget) {
                Err(error) => Err(error),
                Ok((target, next)) => match target {
                    ExprView::Identifier { name, span: place } => if find_generic_function(
                        decls,
                        name,
                    ) is Some {
                        match function_made(decls, next, name, values, place, env, budget) {
                            Err(error) => Err(error),
                            Ok((full, last)) => Ok(
                                (
                                    ExprView::Call {
                                        callee: Box::new(
                                            ExprView::Identifier { name: full, span: place },
                                        ),
                                        arguments: values,
                                        span,
                                    },
                                    last,
                                ),
                            ),
                        }
                    } else {
                        Ok(
                            (
                                ExprView::Call {
                                    callee: Box::new(target),
                                    arguments: values,
                                    span,
                                },
                                next,
                            ),
                        )
                    },
                    _ => Ok(
                        (
                            ExprView::Call {
                                callee: Box::new(target),
                                arguments: values,
                                span,
                            },
                            next,
                        ),
                    ),
                },
            },
        },
        ExprView::Binary { left, operator, right, span } => match expr_made(
            decls,
            made,
            *left,
            env,
            budget,
        ) {
            Err(error) => Err(error),
            Ok((a, after)) => match expr_made(decls, after, *right, env, budget) {
                Err(error) => Err(error),
                Ok((b, last)) => Ok(
                    (
                        ExprView::Binary {
                            left: Box::new(a),
                            operator,
                            right: Box::new(b),
                            span,
                        },
                        last,
                    ),
                ),
            },
        },
        ExprView::Unary { operator, operand, span } => match expr_made(
            decls,
            made,
            *operand,
            env,
            budget,
        ) {
            Err(error) => Err(error),
            Ok((x, after)) => Ok(
                (ExprView::Unary { operator, operand: Box::new(x), span }, after),
            ),
        },
        ExprView::Field { base, name, span } => match expr_made(decls, made, *base, env, budget) {
            Err(error) => Err(error),
            Ok((x, after)) => Ok((ExprView::Field { base: Box::new(x), name, span }, after)),
        },
        ExprView::Index { base, index, span } => match expr_made(decls, made, *base, env, budget) {
            Err(error) => Err(error),
            Ok((a, after)) => match expr_made(decls, after, *index, env, budget) {
                Err(error) => Err(error),
                Ok((b, last)) => Ok(
                    (ExprView::Index { base: Box::new(a), index: Box::new(b), span }, last),
                ),
            },
        },
        ExprView::UncheckedIndex { base, index, span } => match expr_made(
            decls,
            made,
            *base,
            env,
            budget,
        ) {
            Err(error) => Err(error),
            Ok((a, after)) => match expr_made(decls, after, *index, env, budget) {
                Err(error) => Err(error),
                Ok((b, last)) => Ok(
                    (
                        ExprView::UncheckedIndex { base: Box::new(a), index: Box::new(b), span },
                        last,
                    ),
                ),
            },
        },
        ExprView::ArrayLiteral { ty, elements, span } => match exprs_made(
            decls,
            made,
            elements,
            0,
            Seq::empty(),
            env,
            budget,
        ) {
            Err(error) => Err(error),
            Ok((values, after)) => Ok(
                (ExprView::ArrayLiteral { ty, elements: values, span }, after),
            ),
        },
        ExprView::StructLiteral { name, fields, span } => match struct_made(
            decls,
            made,
            name,
            span,
        ) {
            Err(error) => Err(error),
            Ok(after) => match inits_made(decls, after, fields, 0, Seq::empty(), env, budget) {
                Err(error) => Err(error),
                Ok((values, last)) => Ok(
                    (ExprView::StructLiteral { name, fields: values, span }, last),
                ),
            },
        },
        ExprView::Propagate { expression, span } => match expr_made(
            decls,
            made,
            *expression,
            env,
            budget,
        ) {
            Err(error) => Err(error),
            Ok((x, after)) => Ok((ExprView::Propagate { expression: Box::new(x), span }, after)),
        },
        ExprView::Comptime { expression, span } => match expr_made(
            decls,
            made,
            *expression,
            env,
            budget,
        ) {
            Err(error) => Err(error),
            Ok((x, after)) => Ok((ExprView::Comptime { expression: Box::new(x), span }, after)),
        },
        _ => Ok((e, made)),
    }
}

pub open spec fn exprs_made(
    decls: Seq<DeclView>,
    made: Made,
    es: Seq<ExprView>,
    i: int,
    before: Seq<ExprView>,
    env: Types,
    budget: nat,
) -> Result<(Seq<ExprView>, Made), ErrorView>
    decreases budget, 1int, es, es.len() - i,
{
    if i < 0 || i >= es.len() {
        Ok((before, made))
    } else {
        match expr_made(decls, made, es[i], env, budget) {
            Err(error) => Err(error),
            Ok((x, after)) => exprs_made(decls, after, es, i + 1, before.push(x), env, budget),
        }
    }
}

pub open spec fn inits_made(
    decls: Seq<DeclView>,
    made: Made,
    inits: Seq<StructInitView>,
    i: int,
    before: Seq<StructInitView>,
    env: Types,
    budget: nat,
) -> Result<(Seq<StructInitView>, Made), ErrorView>
    decreases budget, 1int, inits, inits.len() - i,
{
    if i < 0 || i >= inits.len() {
        Ok((before, made))
    } else {
        match expr_made(decls, made, inits[i].value, env, budget) {
            Err(error) => Err(error),
            Ok((value, after)) => inits_made(
                decls,
                after,
                inits,
                i + 1,
                before.push(StructInitView { name: inits[i].name, value, span: inits[i].span }),
                env,
                budget,
            ),
        }
    }
}

// ---------------------------------------------------------------------------
// Declarations
// ---------------------------------------------------------------------------

/// Makes the structs that the parameters from `i` on name.
pub open spec fn parameters_made(
    decls: Seq<DeclView>,
    made: Made,
    params: Seq<ParameterView>,
    i: int,
) -> Result<Made, ErrorView>
    decreases params.len() - i,
{
    if i < 0 || i >= params.len() {
        Ok(made)
    } else {
        match type_made(decls, made, params[i].ty, params[i].span) {
            Err(error) => Err(error),
            Ok(after) => parameters_made(decls, after, params, i + 1),
        }
    }
}

/// Makes the structs that the fields from `i` on name.
pub open spec fn fields_made(
    decls: Seq<DeclView>,
    made: Made,
    fields: Seq<StructFieldView>,
    i: int,
) -> Result<Made, ErrorView>
    decreases fields.len() - i,
{
    if i < 0 || i >= fields.len() {
        Ok(made)
    } else {
        match type_made(decls, made, fields[i].ty, fields[i].span) {
            Err(error) => Err(error),
            Ok(after) => fields_made(decls, after, fields, i + 1),
        }
    }
}

pub open spec fn plain_function_made(
    decls: Seq<DeclView>,
    made: Made,
    f: FunctionDeclView,
) -> Result<
    (FunctionDeclView, Made),
    ErrorView,
> {
    match parameters_made(decls, made, f.params, 0) {
        Err(error) => Err(error),
        Ok(after) => match type_made(decls, after, f.return_type, f.span) {
            Err(error) => Err(error),
            Ok(next) => match block_made(
                decls,
                next,
                f.body,
                parameter_env(f.params),
                MAX_SPECIALIZATIONS as nat,
            ) {
                Err(error) => Err(error),
                Ok((body, last)) => Ok((FunctionDeclView { body, ..f }, last)),
            },
        },
    }
}

pub open spec fn variable_made(decls: Seq<DeclView>, made: Made, v: VariableDeclView) -> Result<
    (VariableDeclView, Made),
    ErrorView,
> {
    match (match v.ty {
        Some(ty) => type_made(decls, made, ty, v.span),
        None => Ok(made),
    }) {
        Err(error) => Err(error),
        Ok(after) => match expr_made(
            decls,
            after,
            v.value,
            Seq::empty(),
            MAX_SPECIALIZATIONS as nat,
        ) {
            Err(error) => Err(error),
            Ok((value, last)) => Ok((VariableDeclView { value, ..v }, last)),
        },
    }
}

/// A declaration as it stays, if it stays: generic ones do not.
#[verifier::opaque]
pub open spec fn declaration_made(decls: Seq<DeclView>, made: Made, d: DeclView) -> Result<
    (Option<DeclView>, Made),
    ErrorView,
> {
    match d {
        DeclView::Function(f) => if f.generic_params.len() > 0 {
            Ok((None, made))
        } else {
            match plain_function_made(decls, made, f) {
                Err(error) => Err(error),
                Ok((g, after)) => Ok((Some(DeclView::Function(g)), after)),
            }
        },
        DeclView::Struct(s) => if s.generic_params.len() > 0 {
            Ok((None, made))
        } else {
            match fields_made(decls, made, s.fields, 0) {
                Err(error) => Err(error),
                Ok(after) => Ok((Some(d), after)),
            }
        },
        DeclView::Variable(v) => match variable_made(decls, made, v) {
            Err(error) => Err(error),
            Ok((w, after)) => Ok((Some(DeclView::Variable(w)), after)),
        },
        DeclView::Comptime { expression, span } => match expr_made(
            decls,
            made,
            expression,
            Seq::empty(),
            MAX_SPECIALIZATIONS as nat,
        ) {
            Err(error) => Err(error),
            Ok((x, after)) => Ok((Some(DeclView::Comptime { expression: x, span }), after)),
        },
    }
}

/// The declarations from `i` on, after those before it.
pub open spec fn declarations_made(
    decls: Seq<DeclView>,
    made: Made,
    i: int,
    before: Seq<DeclView>,
) -> Result<(Seq<DeclView>, Made), ErrorView>
    decreases decls.len() - i,
{
    if i < 0 || i >= decls.len() {
        Ok((before, made))
    } else {
        match declaration_made(decls, made, decls[i]) {
            Err(error) => Err(error),
            Ok((kept, after)) => declarations_made(
                decls,
                after,
                i + 1,
                match kept {
                    Some(d) => before.push(d),
                    None => before,
                },
            ),
        }
    }
}

pub open spec fn function_declarations(fs: Seq<FunctionDeclView>) -> Seq<DeclView> {
    Seq::new(fs.len(), |i: int| DeclView::Function(fs[i]))
}

pub open spec fn struct_declarations(ss: Seq<StructDeclView>) -> Seq<DeclView> {
    Seq::new(ss.len(), |i: int| DeclView::Struct(ss[i]))
}

/// A program without generic declarations: those that stay, in order, then
/// the specialized functions and the specialized structs, each in the order
/// of their names.
pub open spec fn specialized(program: ProgramView) -> Result<ProgramView, ErrorView> {
    let none = Made { functions: Seq::empty(), structs: Seq::empty(), instances: Seq::empty() };
    match declarations_made(program.declarations, none, 0, Seq::empty()) {
        Err(error) => Err(error),
        Ok((kept, made)) => Ok(
            ProgramView {
                imports: program.imports,
                declarations: kept + function_declarations(made.functions) + struct_declarations(
                    made.structs,
                ),
            },
        ),
    }
}

// ---------------------------------------------------------------------------
// Making it
// ---------------------------------------------------------------------------

/// An instance of something generic.
struct Instance {
    definition: usize,
    arguments: Vec<Type>,
    name: String,
}

impl Instance {
    spec fn view(&self) -> InstanceView {
        InstanceView {
            definition: self.definition as int,
            arguments: crate::ast::types_view(self.arguments@),
            name: self.name@,
        }
    }
}

spec fn instances_view(s: Seq<Instance>) -> Seq<InstanceView> {
    Seq::new(s.len(), |i: int| s[i]@)
}

pub open spec fn functions_view(s: Seq<FunctionDecl>) -> Seq<FunctionDeclView> {
    Seq::new(s.len(), |i: int| s[i]@)
}

pub open spec fn structs_view(s: Seq<StructDecl>) -> Seq<StructDeclView> {
    Seq::new(s.len(), |i: int| s[i]@)
}

struct Specializer<'a> {
    program: &'a Program,
    functions: Vec<FunctionDecl>,
    structs: Vec<StructDecl>,
    instances: Vec<Instance>,
}

/// A program without generic declarations.
pub fn specialize_program(program: &Program) -> (r: Result<Program, Error>)
    ensures
        match r {
            Ok(made) => specialized(program@) == Ok::<ProgramView, ErrorView>(made@),
            Err(error) => specialized(program@) == Err::<ProgramView, ErrorView>(error@),
        },
{
    let mut specializer: Specializer = Specializer {
        program,
        functions: Vec::new(),
        structs: Vec::new(),
        instances: Vec::new(),
    };
    let ghost decls = program@.declarations;
    let ghost none = specializer@;
    assert(none.functions =~= Seq::empty());
    assert(none.structs =~= Seq::empty());
    assert(none.instances =~= Seq::empty());
    let mut kept: Vec<Decl> = Vec::new();
    assert(decls_view(kept@) =~= Seq::empty());
    for i in 0..program.declarations.len()
        invariant
            specializer.program == program,
            decls == program@.declarations,
            none == (Made {
                functions: Seq::empty(),
                structs: Seq::empty(),
                instances: Seq::empty(),
            }),
            declarations_made(decls, none, 0, Seq::empty()) == declarations_made(
                decls,
                specializer@,
                i as int,
                decls_view(kept@),
            ),
    {
        assert(decls[i as int] == program.declarations@[i as int]@);
        match specializer.specialize_declaration(&program.declarations[i])? {
            Some(d) => {
                kept.push(d);
            },
            None => {},
        }
    }
    let ghost made = specializer@;
    let ghost first = decls_view(kept@);
    for i in 0..specializer.functions.len()
        invariant
            made == specializer@,
            decls_view(kept@) == first + function_declarations(made.functions).take(i as int),
    {
        let d: Decl = Decl::Function(specializer.functions[i].clone());
        proof {
            let all = function_declarations(made.functions);
            assert(made.functions[i as int] == specializer.functions@[i as int]@);
            assert(d@ == all[i as int]);
            assert(first + all.take(i + 1) =~= (first + all.take(i as int)).push(all[i as int]));
        }
        kept.push(d);
    }
    let ghost second = decls_view(kept@);
    for i in 0..specializer.structs.len()
        invariant
            made == specializer@,
            decls_view(kept@) == second + struct_declarations(made.structs).take(i as int),
    {
        let d: Decl = Decl::Struct(specializer.structs[i].clone());
        proof {
            let all = struct_declarations(made.structs);
            assert(made.structs[i as int] == specializer.structs@[i as int]@);
            assert(d@ == all[i as int]);
            assert(second + all.take(i + 1) =~= (second + all.take(i as int)).push(all[i as int]));
        }
        kept.push(d);
    }
    proof {
        let fs = function_declarations(made.functions);
        let ss = struct_declarations(made.structs);
        assert(fs.take(fs.len() as int) =~= fs);
        assert(ss.take(ss.len() as int) =~= ss);
    }
    Ok(
        Program {
            imports: crate::ast::imports_clone(&program.imports),
            declarations: kept,
        },
    )
}

impl<'a> Specializer<'a> {
    spec fn view(&self) -> Made {
        Made {
            functions: functions_view(self.functions@),
            structs: structs_view(self.structs@),
            instances: instances_view(self.instances@),
        }
    }

    spec fn decls(&self) -> Seq<DeclView> {
        self.program@.declarations
    }

    fn find_function(&self, name: &String) -> (r: Option<usize>)
        ensures
            match r {
                Some(i) => {
                    &&& find_generic_function(self.decls(), name@) == Some(i as int)
                    &&& i < self.program.declarations@.len()
                    &&& self.program.declarations@[i as int] is Function
                    &&& self.decls()[i as int] == self.program.declarations@[i as int]@
                },
                None => find_generic_function(self.decls(), name@) is None,
            },
    {
        let ghost decls = self.decls();
        let mut i: usize = self.program.declarations.len();
        while i > 0
            invariant
                decls == self.decls(),
                i <= self.program.declarations.len(),
                find_generic_function(decls, name@) == generic_function(decls, i as int, name@),
            decreases i,
        {
            assert(decls[i - 1] == self.program.declarations@[i - 1]@);
            match &self.program.declarations[i - 1] {
                Decl::Function(f) => {
                    assert(generics_view(f.generic_params@).len() == f.generic_params@.len());
                    if f.generic_params.len() > 0 && f.name == *name {
                        return Some(i - 1);
                    }
                },
                _ => {},
            }
            i -= 1;
        }
        None
    }

    fn find_struct(&self, name: &String) -> (r: Option<usize>)
        ensures
            match r {
                Some(i) => {
                    &&& find_generic_struct(self.decls(), name@) == Some(i as int)
                    &&& i < self.program.declarations@.len()
                    &&& self.program.declarations@[i as int] is Struct
                    &&& self.decls()[i as int] == self.program.declarations@[i as int]@
                },
                None => find_generic_struct(self.decls(), name@) is None,
            },
    {
        let ghost decls = self.decls();
        let mut i: usize = self.program.declarations.len();
        while i > 0
            invariant
                decls == self.decls(),
                i <= self.program.declarations.len(),
                find_generic_struct(decls, name@) == generic_struct(decls, i as int, name@),
            decreases i,
        {
            assert(decls[i - 1] == self.program.declarations@[i - 1]@);
            match &self.program.declarations[i - 1] {
                Decl::Struct(s) => {
                    assert(generics_view(s.generic_params@).len() == s.generic_params@.len());
                    if s.generic_params.len() > 0 && s.name == *name {
                        return Some(i - 1);
                    }
                },
                _ => {},
            }
            i -= 1;
        }
        None
    }

    fn find_instance(&self, definition: usize, arguments: &Vec<Type>) -> (r: Option<String>)
        ensures
            match r {
                Some(name) => instance_name(
                    self@.instances,
                    0,
                    definition as int,
                    crate::ast::types_view(arguments@),
                ) == Some(name@),
                None => instance_name(
                    self@.instances,
                    0,
                    definition as int,
                    crate::ast::types_view(arguments@),
                ) is None,
            },
    {
        let ghost all = self@.instances;
        let ghost wanted = crate::ast::types_view(arguments@);
        for i in 0..self.instances.len()
            invariant
                all == self@.instances,
                wanted == crate::ast::types_view(arguments@),
                instance_name(all, 0, definition as int, wanted) == instance_name(
                    all,
                    i as int,
                    definition as int,
                    wanted,
                ),
        {
            let instance: &Instance = &self.instances[i];
            assert(all[i as int] == instance@);
            if instance.definition == definition && crate::ast::types_same(
                &instance.arguments,
                arguments,
            ) {
                return Some(instance.name.clone());
            }
        }
        None
    }

    fn register_instantiation(&mut self, instance: Instance, span: Span) -> (r: Result<(), Error>)
        ensures
            match r {
                Ok(()) => registered(old(self)@, instance@, span) == Ok::<Made, ErrorView>(
                    final(self)@,
                ) && final(self).program == old(self).program,
                Err(error) => registered(old(self)@, instance@, span) == Err::<Made, ErrorView>(
                    error@,
                ),
            },
    {
        if self.instances.len() >= MAX_SPECIALIZATIONS {
            return Err(limit_error(span));
        }
        let ghost noted = instance@;
        self.instances.push(instance);
        assert(self@.instances =~= old(self)@.instances.push(noted));
        Ok(())
    }

    /// A name that no function made so far has.
    fn free_name(&self, name: String) -> (r: String)
        ensures
            r@ == free_name(self@.functions, name@),
    {
        if !self.has_function(&name) {
            return name;
        }
        let ghost fs = self@.functions;
        let mut longest: usize = 0;
        for i in 0..self.functions.len()
            invariant
                fs == self@.functions,
                longest == longest_name(fs, i as int),
        {
            assert(fs[i as int] == self.functions@[i as int]@);
            let chars: Vec<char> = chars_of(self.functions[i].name.as_str());
            if chars.len() > longest {
                longest = chars.len();
            }
        }
        let ghost wished = name@;
        let mut out: String = name;
        assert(out@ =~= wished + Seq::new(0, |k: int| '_'));
        for i in 0..longest
            invariant
                out@ == wished + Seq::new(i as nat, |k: int| '_'),
        {
            out.push('_');
            assert(out@ =~= wished + Seq::new((i + 1) as nat, |k: int| '_'));
        }
        out
    }

    fn ensure_struct_name(&mut self, name: &String, span: Span) -> (r: Result<(), Error>)
        ensures
            match r {
                Ok(()) => struct_made(old(self).decls(), old(self)@, name@, span)
                    == Ok::<Made, ErrorView>(final(self)@)
                        && final(self).program == old(self).program,
                Err(error) => struct_made(old(self).decls(), old(self)@, name@, span)
                    == Err::<Made, ErrorView>(error@),
            },
    {
        let chars: Vec<char> = chars_of(name.as_str());
        let at: usize = match find_marks(&chars, 0) {
            Some(at) => at,
            None => {
                return Ok(());
            },
        };
        let base: String = text_between(&chars, 0, at);
        assert(base@ =~= name@.take(at as int));
        let k: usize = match self.find_struct(&base) {
            Some(k) => k,
            None => {
                return Ok(());
            },
        };
        let program: &'a Program = self.program;
        match &program.declarations[k] {
            Decl::Struct(structure) => {
                let names: Vec<String> = split_parts(&chars, at + 2);
                assert(generics_view(structure.generic_params@).len()
                    == structure.generic_params@.len());
                let types: Vec<(String, Type)> = name_arguments(&structure.generic_params, &names);
                let arguments: Vec<Type> = argument_list(&structure.generic_params, &types);
                if names.len() == structure.generic_params.len() && self.find_instance(
                    k,
                    &arguments,
                ).is_some() {
                    return Ok(());
                }
                if self.structs.len() >= MAX_SPECIALIZATIONS {
                    return Err(limit_error(span));
                }
                if names.len() != structure.generic_params.len() {
                    let count: String = decimal_text(structure.generic_params.len() as u128);
                    let message: String = joined(
                        joined(
                            joined(
                                joined("generic type `".to_owned(), base.as_str()),
                                "` expects ",
                            ),
                            count.as_str(),
                        ),
                        " type arguments",
                    );
                    return Err(Error::InvalidOperation { message, span });
                }
                self.register_instantiation(
                    Instance { definition: k, arguments, name: name.clone() },
                    span,
                )?;
                let none: Vec<GenericParam> = Vec::new();
                assert(generics_view(none@) =~= Seq::empty());
                let made: StructDecl = StructDecl {
                    name: name.clone(),
                    generic_params: none,
                    fields: substitute_fields(&structure.fields, &types),
                    span: structure.span,
                    exported: structure.exported,
                };
                self.add_struct(made);
                Ok(())
            },
            _ => Ok(()),
        }
    }

    fn has_function(&self, name: &String) -> (r: bool)
        ensures
            r == has_function(self@.functions, name@),
    {
        for i in 0..self.functions.len()
            invariant
                forall|k: int| 0 <= k < i ==> (#[trigger] self@.functions[k]).name != name@,
        {
            assert(self@.functions[i as int] == self.functions@[i as int]@);
            if self.functions[i].name == *name {
                return true;
            }
        }
        false
    }

    fn add_struct(&mut self, s: StructDecl)
        ensures
            final(self)@ == (Made {
                structs: with_struct(old(self)@.structs, s@),
                ..old(self)@
            }),
            final(self).program == old(self).program,
    {
        let ghost all = self@.structs;
        let ghost value = s@;
        let mut i: usize = 0;
        while i < self.structs.len() && !(self.structs[i].name == s.name) && !text_precedes(
            &s.name,
            &self.structs[i].name,
        )
            invariant
                *self == *old(self),
                all == self@.structs,
                value == s@,
                i <= self.structs.len(),
                struct_place(all, 0, value.name) == struct_place(all, i as int, value.name),
            decreases self.structs.len() - i,
        {
            assert(all[i as int] == self.structs@[i as int]@);
            i += 1;
        }
        assert(i < self.structs@.len() ==> all[i as int] == self.structs@[i as int]@);
        if i < self.structs.len() && self.structs[i].name == s.name {
            self.structs[i] = s;
            assert(self@.structs =~= all.update(i as int, value));
        } else {
            self.structs.insert(i, s);
            assert(self@.structs =~= all.insert(i as int, value));
        }
    }

    fn add_function(&mut self, f: FunctionDecl)
        ensures
            final(self)@ == (Made {
                functions: with_function(old(self)@.functions, f@),
                ..old(self)@
            }),
            final(self).program == old(self).program,
    {
        let ghost all = self@.functions;
        let ghost value = f@;
        let mut i: usize = 0;
        while i < self.functions.len() && !(self.functions[i].name == f.name) && !text_precedes(
            &f.name,
            &self.functions[i].name,
        )
            invariant
                *self == *old(self),
                all == self@.functions,
                value == f@,
                i <= self.functions.len(),
                function_place(all, 0, value.name) == function_place(all, i as int, value.name),
            decreases self.functions.len() - i,
        {
            assert(all[i as int] == self.functions@[i as int]@);
            i += 1;
        }
        assert(i < self.functions@.len() ==> all[i as int] == self.functions@[i as int]@);
        if i < self.functions.len() && self.functions[i].name == f.name {
            self.functions[i] = f;
            assert(self@.functions =~= all.update(i as int, value));
        } else {
            self.functions.insert(i, f);
            assert(self@.functions =~= all.insert(i as int, value));
        }
    }

    fn specialize_type(&mut self, ty: &Type, span: Span) -> (r: Result<(), Error>)
        ensures
            match r {
                Ok(()) => type_made(old(self).decls(), old(self)@, ty@, span)
                    == Ok::<Made, ErrorView>(final(self)@)
                        && final(self).program == old(self).program,
                Err(error) => type_made(old(self).decls(), old(self)@, ty@, span)
                    == Err::<Made, ErrorView>(error@),
            },
        decreases ty,
    {
        match ty {
            Type::Named(name) => self.ensure_struct_name(name, span),
            Type::Pointer(inner) => self.specialize_type(inner, span),
            Type::Slice(inner) => self.specialize_type(inner, span),
            Type::Array { element, .. } => self.specialize_type(element, span),
            Type::Result { success, error } => {
                self.specialize_type(success, span)?;
                self.specialize_type(error, span)
            },
            Type::Unit => Ok(()),
        }
    }

    /// Makes the specialization of a generic function that a call asks for,
    /// and gives its name.
    fn ensure(
        &mut self,
        name: &String,
        arguments: &Vec<Expr>,
        span: Span,
        env: &Vec<(String, Type)>,
        budget: usize,
    ) -> (r: Result<String, Error>)
        ensures
            match r {
                Ok(x) =>
                    function_made(old(self).decls(), old(self)@, name@, exprs_view(arguments@),
                        span, named_types_view(env@), budget as nat)
                            == Ok::<(Seq<char>, Made), ErrorView>((x@, final(self)@))
                                && final(self).program == old(self).program,
                Err(error) =>
                    function_made(old(self).decls(), old(self)@, name@, exprs_view(arguments@),
                        span, named_types_view(env@), budget as nat)
                            == Err::<(Seq<char>, Made), ErrorView>(error@),
            },
        decreases budget, 0int, arguments, 0int,
    {
        let k: usize = match self.find_function(name) {
            Some(k) => k,
            None => {
                return Err(Error::Undefined { name: name.clone(), span });
            },
        };
        let program: &'a Program = self.program;
        let f: &FunctionDecl = match &program.declarations[k] {
            Decl::Function(f) => f,
            _ => {
                return Err(Error::Undefined { name: name.clone(), span });
            },
        };
        let types: Vec<(String, Type)> = infer_arguments(f, arguments, env, span)?;
        assert(generics_view(f.generic_params@).len() == f.generic_params@.len());
        assert(named_types_view(types@).len() == types@.len());
        if types.len() != f.generic_params.len() {
            let message: String = joined(
                joined("could not infer all type arguments for `".to_owned(), name.as_str()),
                "`",
            );
            return Err(Error::InvalidOperation { message, span });
        }
        let given: Vec<Type> = argument_list(&f.generic_params, &types);
        match self.find_instance(k, &given) {
            Some(found) => {
                return Ok(found);
            },
            None => {},
        }
        if self.functions.len() >= MAX_SPECIALIZATIONS || budget == 0 {
            return Err(limit_error(span));
        }
        let ending: String = type_suffix(&f.generic_params, &types);
        let full: String = self.free_name(joined(joined(name.clone(), "__"), ending.as_str()));
        let instance: Instance = Instance { definition: k, arguments: given, name: full.clone() };
        self.register_instantiation(instance, span)?;
        let ghost noted = self@;
        let ghost shape = f@;
        let skeleton: FunctionDecl = skeleton_of(f, &full, &types);
        let locals: Vec<(String, Type)> = parameter_types(&skeleton.params);
        self.add_function(skeleton.clone());
        let source: Block = substitute_block_types(&f.body, &types);
        let body: Block = self.specialize_block(&source, &locals, budget - 1)?;
        let finished: FunctionDecl = FunctionDecl { body, ..skeleton };
        self.add_function(finished);
        Ok(full)
    }

    fn specialize_block(&mut self, b: &Block, env: &Vec<(String, Type)>, budget: usize) -> (r:
        Result<Block, Error>)
        ensures
            match r {
                Ok(x) =>
                    block_made(old(self).decls(), old(self)@, b@, named_types_view(env@),
                        budget as nat)
                            == Ok::<(BlockView, Made), ErrorView>((x@, final(self)@))
                                && final(self).program == old(self).program,
                Err(error) =>
                    block_made(old(self).decls(), old(self)@, b@, named_types_view(env@),
                        budget as nat) == Err::<(BlockView, Made), ErrorView>(error@),
            },
        decreases budget, 2int, b, 0int,
    {
        let ghost decls = self.decls();
        let ghost start = self@;
        let ghost all = stmts_view(b.statements@);
        let mut locals: Vec<(String, Type)> = named_types_clone(env);
        let mut out: Vec<Stmt> = Vec::new();
        assert(stmts_view(out@) =~= Seq::empty());
        for i in 0..b.statements.len()
            invariant
                decls == self.decls(),
                self.program == old(self).program,
                start == old(self)@,
                all == stmts_view(b.statements@),
                statements_made(
                    decls,
                    start,
                    all,
                    0,
                    Seq::empty(),
                    named_types_view(env@),
                    budget as nat,
                ) == statements_made(
                    decls,
                    self@,
                    all,
                    i as int,
                    stmts_view(out@),
                    named_types_view(locals@),
                    budget as nat,
                ),
        {
            assert(all[i as int] == b.statements@[i as int]@);
            let statement: Stmt = self.specialize_statement(
                &b.statements[i],
                &mut locals,
                budget,
            )?;
            out.push(statement);
        }
        Ok(Block { statements: out, span: b.span })
    }

    fn specialize_statement(
        &mut self,
        s: &Stmt,
        env: &mut Vec<(String, Type)>,
        budget: usize,
    ) -> (r: Result<Stmt, Error>)
        ensures
            match r {
                Ok(x) =>
                    statement_made(old(self).decls(), old(self)@, s@, named_types_view(old(env)@),
                        budget as nat)
                            == Ok::<(StmtView, Types, Made),
                                ErrorView>((x@, named_types_view(final(env)@), final(self)@))
                                    && final(self).program == old(self).program,
                Err(error) =>
                    statement_made(old(self).decls(), old(self)@, s@, named_types_view(old(env)@),
                        budget as nat) == Err::<(StmtView, Types, Made), ErrorView>(error@),
            },
        decreases budget, 2int, s, 0int,
    {
        match s {
            Stmt::Variable(v) => {
                let value: Expr = self.specialize_expr(&v.value, env, budget)?;
                match &v.ty {
                    Some(ty) => {
                        self.specialize_type(ty, v.span)?;
                    },
                    None => {},
                }
                let ty: Type = match &v.ty {
                    Some(ty) => ty.clone(),
                    None => match infer_expr_type(&value, env) {
                        Some(ty) => ty,
                        None => Type::Named("i32".to_owned()),
                    },
                };
                let ghost before = named_types_view(env@);
                let ghost added = (v.name@, ty@);
                env.push((v.name.clone(), ty));
                assert(named_types_view(env@) =~= before.push(added));
                let copy: VariableDecl = VariableDecl {
                    name: v.name.clone(),
                    kind: v.kind,
                    ty: clone_type(&v.ty),
                    value,
                    span: v.span,
                    exported: v.exported,
                };
                Ok(Stmt::Variable(copy))
            },
            Stmt::Expr { expression, span } => {
                let e: Expr = self.specialize_expr(expression, env, budget)?;
                Ok(Stmt::Expr { expression: e, span: *span })
            },
            Stmt::Return { value, span } => match value {
                None => Ok(Stmt::Return { value: None, span: *span }),
                Some(e) => {
                    let x: Expr = self.specialize_expr(e, env, budget)?;
                    Ok(Stmt::Return { value: Some(x), span: *span })
                },
            },
            Stmt::Assignment { target, value, span } => {
                let place: Expr = self.specialize_expr(target, env, budget)?;
                let x: Expr = self.specialize_expr(value, env, budget)?;
                Ok(Stmt::Assignment { target: place, value: x, span: *span })
            },
            Stmt::If { condition, then_branch, else_branch, span } => {
                let test: Expr = self.specialize_expr(condition, env, budget)?;
                let yes: Block = self.specialize_block(then_branch, env, budget)?;
                match else_branch {
                    None => Ok(
                        Stmt::If {
                            condition: test,
                            then_branch: yes,
                            else_branch: None,
                            span: *span,
                        },
                    ),
                    Some(branch) => {
                        let no: Block = self.specialize_block(branch, env, budget)?;
                        Ok(
                            Stmt::If {
                                condition: test,
                                then_branch: yes,
                                else_branch: Some(no),
                                span: *span,
                            },
                        )
                    },
                }
            },
            Stmt::While { condition, body, span } => {
                let test: Expr = self.specialize_expr(condition, env, budget)?;
                let inner: Block = self.specialize_block(body, env, budget)?;
                Ok(Stmt::While { condition: test, body: inner, span: *span })
            },
            Stmt::Defer { call, span } => {
                let x: Expr = self.specialize_expr(call, env, budget)?;
                Ok(Stmt::Defer { call: x, span: *span })
            },
            Stmt::Break { .. } => Ok(s.clone()),
            Stmt::Continue { .. } => Ok(s.clone()),
        }
    }

    fn specialize_expr(&mut self, e: &Expr, env: &Vec<(String, Type)>, budget: usize) -> (r: Result<
        Expr,
        Error,
    >)
        ensures
            match r {
                Ok(x) =>
                    expr_made(old(self).decls(), old(self)@, e@, named_types_view(env@),
                        budget as nat)
                            == Ok::<(ExprView, Made), ErrorView>((x@, final(self)@))
                                && final(self).program == old(self).program,
                Err(error) =>
                    expr_made(old(self).decls(), old(self)@, e@, named_types_view(env@),
                        budget as nat) == Err::<(ExprView, Made), ErrorView>(error@),
            },
        decreases budget, 1int, e, 0int,
    {
        match e {
            Expr::Call { callee, arguments, span } => {
                let values: Vec<Expr> = self.specialize_exprs(arguments, env, budget)?;
                let target: Expr = self.specialize_expr(callee, env, budget)?;
                let named: Expr = match &target {
                    Expr::Identifier { name, span: place } => {
                        if self.find_function(name).is_some() {
                            let full: String = self.ensure(name, &values, *place, env, budget)?;
                            let renamed: Expr = Expr::Identifier { name: full, span: *place };
                            assert(renamed@ == ExprView::Identifier { name: full@, span: *place });
                            renamed
                        } else {
                            target
                        }
                    },
                    _ => target,
                };
                Ok(Expr::Call { callee: Box::new(named), arguments: values, span: *span })
            },
            Expr::Binary { left, operator, right, span } => {
                let a: Expr = self.specialize_expr(left, env, budget)?;
                let b: Expr = self.specialize_expr(right, env, budget)?;
                Ok(
                    Expr::Binary {
                        left: Box::new(a),
                        operator: *operator,
                        right: Box::new(b),
                        span: *span,
                    },
                )
            },
            Expr::Unary { operator, operand, span } => {
                let x: Expr = self.specialize_expr(operand, env, budget)?;
                Ok(Expr::Unary { operator: *operator, operand: Box::new(x), span: *span })
            },
            Expr::Field { base, name, span } => {
                let x: Expr = self.specialize_expr(base, env, budget)?;
                Ok(Expr::Field { base: Box::new(x), name: name.clone(), span: *span })
            },
            Expr::Index { base, index, span } => {
                let a: Expr = self.specialize_expr(base, env, budget)?;
                let b: Expr = self.specialize_expr(index, env, budget)?;
                Ok(Expr::Index { base: Box::new(a), index: Box::new(b), span: *span })
            },
            Expr::UncheckedIndex { base, index, span } => {
                let a: Expr = self.specialize_expr(base, env, budget)?;
                let b: Expr = self.specialize_expr(index, env, budget)?;
                Ok(Expr::UncheckedIndex { base: Box::new(a), index: Box::new(b), span: *span })
            },
            Expr::ArrayLiteral { ty, elements, span } => {
                let values: Vec<Expr> = self.specialize_exprs(elements, env, budget)?;
                Ok(Expr::ArrayLiteral { ty: ty.clone(), elements: values, span: *span })
            },
            Expr::StructLiteral { name, fields, span } => {
                self.ensure_struct_name(name, *span)?;
                let values: Vec<StructInit> = self.specialize_inits(fields, env, budget)?;
                Ok(Expr::StructLiteral { name: name.clone(), fields: values, span: *span })
            },
            Expr::Propagate { expression, span } => {
                let x: Expr = self.specialize_expr(expression, env, budget)?;
                Ok(Expr::Propagate { expression: Box::new(x), span: *span })
            },
            Expr::Comptime { expression, span } => {
                let x: Expr = self.specialize_expr(expression, env, budget)?;
                Ok(Expr::Comptime { expression: Box::new(x), span: *span })
            },
            _ => Ok(e.clone()),
        }
    }

    fn specialize_exprs(
        &mut self,
        es: &Vec<Expr>,
        env: &Vec<(String, Type)>,
        budget: usize,
    ) -> (r: Result<Vec<Expr>, Error>)
        ensures
            match r {
                Ok(x) =>
                    exprs_made(old(self).decls(), old(self)@, exprs_view(es@), 0, Seq::empty(),
                        named_types_view(env@), budget as nat)
                            == Ok::<(Seq<ExprView>, Made),
                                ErrorView>((exprs_view(x@), final(self)@))
                                    && final(self).program == old(self).program,
                Err(error) =>
                    exprs_made(old(self).decls(), old(self)@, exprs_view(es@), 0, Seq::empty(),
                        named_types_view(env@), budget as nat)
                            == Err::<(Seq<ExprView>, Made), ErrorView>(error@),
            },
        decreases budget, 1int, es, 0int,
    {
        let ghost decls = self.decls();
        let ghost start = self@;
        let ghost types = named_types_view(env@);
        let ghost all = exprs_view(es@);
        let mut out: Vec<Expr> = Vec::new();
        assert(exprs_view(out@) =~= Seq::empty());
        for i in 0..es.len()
            invariant
                decls == self.decls(),
                self.program == old(self).program,
                start == old(self)@,
                types == named_types_view(env@),
                all == exprs_view(es@),
                exprs_made(decls, start, all, 0, Seq::empty(), types, budget as nat) == exprs_made(
                    decls,
                    self@,
                    all,
                    i as int,
                    exprs_view(out@),
                    types,
                    budget as nat,
                ),
        {
            assert(all[i as int] == es@[i as int]@);
            let x: Expr = self.specialize_expr(&es[i], env, budget)?;
            out.push(x);
        }
        Ok(out)
    }

    fn specialize_inits(
        &mut self,
        inits: &Vec<StructInit>,
        env: &Vec<(String, Type)>,
        budget: usize,
    ) -> (r: Result<Vec<StructInit>, Error>)
        ensures
            match r {
                Ok(x) =>
                    inits_made(old(self).decls(), old(self)@, inits_view(inits@), 0, Seq::empty(),
                        named_types_view(env@), budget as nat)
                            == Ok::<(Seq<StructInitView>, Made),
                                ErrorView>((inits_view(x@), final(self)@))
                                    && final(self).program == old(self).program,
                Err(error) =>
                    inits_made(old(self).decls(), old(self)@, inits_view(inits@), 0, Seq::empty(),
                        named_types_view(env@), budget as nat)
                            == Err::<(Seq<StructInitView>, Made), ErrorView>(error@),
            },
        decreases budget, 1int, inits, 0int,
    {
        let ghost decls = self.decls();
        let ghost start = self@;
        let ghost types = named_types_view(env@);
        let ghost all = inits_view(inits@);
        let mut out: Vec<StructInit> = Vec::new();
        assert(inits_view(out@) =~= Seq::empty());
        for i in 0..inits.len()
            invariant
                decls == self.decls(),
                self.program == old(self).program,
                start == old(self)@,
                types == named_types_view(env@),
                all == inits_view(inits@),
                inits_made(decls, start, all, 0, Seq::empty(), types, budget as nat) == inits_made(
                    decls,
                    self@,
                    all,
                    i as int,
                    inits_view(out@),
                    types,
                    budget as nat,
                ),
        {
            assert(all[i as int] == inits@[i as int]@);
            let value: Expr = self.specialize_expr(&inits[i].value, env, budget)?;
            out.push(StructInit { name: inits[i].name.clone(), value, span: inits[i].span });
        }
        Ok(out)
    }

    fn specialize_function(&mut self, f: &FunctionDecl) -> (r: Result<FunctionDecl, Error>)
        ensures
            match r {
                Ok(x) => plain_function_made(old(self).decls(), old(self)@, f@)
                    == Ok::<(FunctionDeclView, Made), ErrorView>((x@, final(self)@))
                        && final(self).program == old(self).program,
                Err(error) => plain_function_made(old(self).decls(), old(self)@, f@)
                    == Err::<(FunctionDeclView, Made), ErrorView>(error@),
            },
    {
        let ghost decls = self.decls();
        let ghost start = self@;
        let ghost all = parameters_view(f.params@);
        for i in 0..f.params.len()
            invariant
                decls == self.decls(),
                self.program == old(self).program,
                start == old(self)@,
                all == parameters_view(f.params@),
                parameters_made(decls, start, all, 0) == parameters_made(
                    decls,
                    self@,
                    all,
                    i as int,
                ),
        {
            assert(all[i as int] == f.params@[i as int]@);
            self.specialize_type(&f.params[i].ty, f.params[i].span)?;
        }
        self.specialize_type(&f.return_type, f.span)?;
        let types: Vec<(String, Type)> = parameter_types(&f.params);
        let body: Block = self.specialize_block(&f.body, &types, MAX_SPECIALIZATIONS)?;
        let copy: FunctionDecl = f.clone();
        Ok(FunctionDecl { body, ..copy })
    }

    fn specialize_struct(&mut self, s: &StructDecl) -> (r: Result<(), Error>)
        ensures
            match r {
                Ok(()) => fields_made(old(self).decls(), old(self)@, s@.fields, 0)
                    == Ok::<Made, ErrorView>(final(self)@)
                        && final(self).program == old(self).program,
                Err(error) => fields_made(old(self).decls(), old(self)@, s@.fields, 0)
                    == Err::<Made, ErrorView>(error@),
            },
    {
        let ghost decls = self.decls();
        let ghost start = self@;
        let ghost all = s@.fields;
        for i in 0..s.fields.len()
            invariant
                decls == self.decls(),
                self.program == old(self).program,
                start == old(self)@,
                all == s@.fields,
                fields_made(decls, start, all, 0) == fields_made(decls, self@, all, i as int),
        {
            assert(all[i as int] == s.fields@[i as int]@);
            self.specialize_type(&s.fields[i].ty, s.fields[i].span)?;
        }
        Ok(())
    }

    fn specialize_declaration(&mut self, d: &Decl) -> (r: Result<Option<Decl>, Error>)
        ensures
            match r {
                Ok(x) => declaration_made(old(self).decls(), old(self)@, d@)
                    == Ok::<(Option<DeclView>, Made), ErrorView>((match x { Some(k) =>
                        Some(k@), None => None }, final(self)@))
                            && final(self).program == old(self).program,
                Err(error) => declaration_made(old(self).decls(), old(self)@, d@)
                    == Err::<(Option<DeclView>, Made), ErrorView>(error@),
            },
    {
        reveal(declaration_made);
        let none: Vec<(String, Type)> = Vec::new();
        assert(named_types_view(none@) =~= Seq::empty());
        match d {
            Decl::Function(f) => {
                assert(generics_view(f.generic_params@).len() == f.generic_params@.len());
                if f.generic_params.len() > 0 {
                    return Ok(None);
                }
                let g: FunctionDecl = self.specialize_function(f)?;
                Ok(Some(Decl::Function(g)))
            },
            Decl::Struct(s) => {
                assert(generics_view(s.generic_params@).len() == s.generic_params@.len());
                if s.generic_params.len() > 0 {
                    return Ok(None);
                }
                self.specialize_struct(s)?;
                Ok(Some(d.clone()))
            },
            Decl::Variable(v) => {
                match &v.ty {
                    Some(ty) => {
                        self.specialize_type(ty, v.span)?;
                    },
                    None => {},
                }
                let value: Expr = self.specialize_expr(&v.value, &none, MAX_SPECIALIZATIONS)?;
                let copy: VariableDecl = VariableDecl {
                    name: v.name.clone(),
                    kind: v.kind,
                    ty: clone_type(&v.ty),
                    value,
                    span: v.span,
                    exported: v.exported,
                };
                Ok(Some(Decl::Variable(copy)))
            },
            Decl::Comptime { expression, span } => {
                let x: Expr = self.specialize_expr(expression, &none, MAX_SPECIALIZATIONS)?;
                Ok(Some(Decl::Comptime { expression: x, span: *span }))
            },
        }
    }
}

fn limit_error(span: Span) -> (r: Error)
    ensures
        r@ == limit_exceeded(span),
{
    Error::InvalidOperation { message: "generic specialization limit exceeded".to_owned(), span }
}

fn clone_type(ty: &Option<Type>) -> (r: Option<Type>)
    ensures
        match (r, ty) {
            (Some(a), Some(b)) => a@ == b@,
            (None, None) => true,
            _ => false,
        },
{
    match ty {
        Some(ty) => Some(ty.clone()),
        None => None,
    }
}

/// Whether `a` comes before `b` in the order of their characters.
pub fn text_precedes(a: &String, b: &String) -> (r: bool)
    ensures
        r == precedes(a@, b@),
{
    let x: Vec<char> = chars_of(a.as_str());
    let y: Vec<char> = chars_of(b.as_str());
    let mut i: usize = 0;
    while i < y.len()
        invariant
            x@ == a@,
            y@ == b@,
            i <= y.len(),
            i <= x.len(),
            precedes_from(a@, b@, 0) == precedes_from(a@, b@, i as int),
        decreases y.len() - i,
    {
        if i >= x.len() {
            return true;
        }
        if x[i] != y[i] {
            return x[i] < y[i];
        }
        i += 1;
    }
    false
}

fn lookup_type(types: &Vec<(String, Type)>, name: &String) -> (r: Option<Type>)
    ensures
        match r {
            Some(ty) => lookup(named_types_view(types@), name@) == Some(ty@),
            None => lookup(named_types_view(types@), name@) is None,
        },
{
    let ghost all = named_types_view(types@);
    let mut i: usize = types.len();
    while i > 0
        invariant
            i <= types.len(),
            all == named_types_view(types@),
            lookup(all, name@) == type_of(all, i as int, name@),
        decreases i,
    {
        assert(all[i - 1] == (types@[i - 1].0@, types@[i - 1].1@));
        if types[i - 1].0 == *name {
            return Some(types[i - 1].1.clone());
        }
        i -= 1;
    }
    None
}

fn argument_list(params: &Vec<GenericParam>, types: &Vec<(String, Type)>) -> (r: Vec<Type>)
    ensures
        crate::ast::types_view(r@) == argument_types(
            generics_view(params@),
            named_types_view(types@),
            0,
        ),
{
    let ghost all = generics_view(params@);
    let ghost given = named_types_view(types@);
    let mut out: Vec<Type> = Vec::new();
    let mut i: usize = 0;
    assert(crate::ast::types_view(out@) + argument_types(all, given, 0) =~= argument_types(
        all,
        given,
        0,
    ));
    while i < params.len()
        invariant
            i <= params.len(),
            all == generics_view(params@),
            given == named_types_view(types@),
            crate::ast::types_view(out@) + argument_types(all, given, i as int)
                == argument_types(all, given, 0),
        decreases params.len() - i,
    {
        assert(all[i as int] == params@[i as int]@);
        let ghost before = crate::ast::types_view(out@);
        match lookup_type(types, &params[i].name) {
            Some(ty) => {
                let ghost found = ty@;
                out.push(ty);
                assert(before.push(found) + argument_types(all, given, i + 1) =~= before + (
                seq![found] + argument_types(all, given, i + 1)));
            },
            None => {},
        }
        i += 1;
    }
    assert(crate::ast::types_view(out@) + argument_types(all, given, i as int)
        =~= crate::ast::types_view(out@));
    out
}

/// Where the first `__` from `start` on stands, if there is one.
fn find_marks(chars: &Vec<char>, start: usize) -> (r: Option<usize>)
    requires
        start <= chars.len(),
    ensures
        match r {
            Some(i) => start <= i && i + 2 <= chars@.len() && split_marks(chars@, start as int)
                == Some(i as int),
            None => split_marks(chars@, start as int) is None,
        },
{
    let mut i: usize = start;
    while i < chars.len() && chars.len() - i >= 2
        invariant
            start <= i <= chars.len(),
            split_marks(chars@, start as int) == split_marks(chars@, i as int),
        decreases chars.len() - i,
    {
        if chars[i] == '_' && chars[i + 1] == '_' {
            return Some(i);
        }
        i += 1;
    }
    None
}

proof fn lemma_marks_of_rest(s: Seq<char>, start: int, i: int)
    requires
        0 <= start <= s.len(),
        0 <= i,
    ensures
        split_marks(s, start + i) == (match split_marks(s.skip(start), i) {
            Some(k) => Some(start + k),
            None => None,
        }),
    decreases s.len() - start - i,
{
    if start + i + 1 < s.len() {
        lemma_marks_of_rest(s, start, i + 1);
    }
}

/// The parts between the `__` from `start` on.
fn split_parts(chars: &Vec<char>, start: usize) -> (r: Vec<String>)
    requires
        start <= chars.len(),
    ensures
        crate::text::texts(r@) == parts(chars@.skip(start as int), Seq::empty()),
        r@.len() == parts(chars@.skip(start as int), Seq::empty()).len(),
{
    let ghost s = chars@;
    let mut out: Vec<String> = Vec::new();
    assert(crate::text::texts(out@) =~= Seq::empty());
    let mut from: usize = start;
    loop
        invariant
            start <= from <= chars.len(),
            s == chars@,
            parts(s.skip(start as int), Seq::empty()) == parts(
                s.skip(from as int),
                crate::text::texts(out@),
            ),
        decreases chars.len() - from,
    {
        let ghost before = crate::text::texts(out@);
        proof {
            lemma_marks_of_rest(s, from as int, 0);
        }
        match find_marks(chars, from) {
            Some(i) => {
                let part: String = text_between(chars, from, i);
                proof {
                    let rest = s.skip(from as int);
                    assert(part@ =~= rest.take(i - from));
                    assert(rest.skip(i - from + 2) =~= s.skip(i + 2));
                }
                let ghost text = part@;
                out.push(part);
                assert(crate::text::texts(out@) =~= before.push(text));
                from = i + 2;
            },
            None => {
                let part: String = text_between(chars, from, chars.len());
                assert(part@ =~= s.skip(from as int));
                let ghost text = part@;
                out.push(part);
                assert(crate::text::texts(out@) =~= before.push(text));
                return out;
            },
        }
    }
}

fn name_arguments(params: &Vec<GenericParam>, names: &Vec<String>) -> (r: Vec<(String, Type)>)
    ensures
        named_types_view(r@) == named_arguments(
            generics_view(params@),
            crate::text::texts(names@),
            0,
            Seq::empty(),
        ),
{
    let ghost all = generics_view(params@);
    let ghost given = crate::text::texts(names@);
    let mut out: Vec<(String, Type)> = Vec::new();
    assert(named_types_view(out@) =~= Seq::empty());
    let mut i: usize = 0;
    while i < params.len() && i < names.len()
        invariant
            i <= params.len(),
            all == generics_view(params@),
            given == crate::text::texts(names@),
            named_arguments(all, given, 0, Seq::empty()) == named_arguments(
                all,
                given,
                i as int,
                named_types_view(out@),
            ),
        decreases params.len() - i,
    {
        assert(all[i as int] == params@[i as int]@);
        let ghost before = named_types_view(out@);
        let ty: Type = unspell_type(&names[i]);
        let ghost added = (params@[i as int].name@, ty@);
        out.push((params[i].name.clone(), ty));
        assert(named_types_view(out@) =~= before.push(added));
        i += 1;
    }
    out
}

fn substitute_type(ty: &Type, types: &Vec<(String, Type)>) -> (r: Type)
    ensures
        r@ == substituted(ty@, named_types_view(types@)),
    decreases ty,
{
    match ty {
        Type::Named(name) => match lookup_type(types, name) {
            Some(found) => found,
            None => ty.clone(),
        },
        Type::Pointer(x) => Type::Pointer(Box::new(substitute_type(x, types))),
        Type::Slice(x) => Type::Slice(Box::new(substitute_type(x, types))),
        Type::Array { length, element } => Type::Array {
            length: *length,
            element: Box::new(substitute_type(element, types)),
        },
        Type::Result { success, error } => Type::Result {
            success: Box::new(substitute_type(success, types)),
            error: Box::new(substitute_type(error, types)),
        },
        Type::Unit => Type::Unit,
    }
}

fn substitute_fields(fields: &Vec<StructField>, types: &Vec<(String, Type)>) -> (r: Vec<
    StructField,
>)
    ensures
        fields_view(r@) == substituted_fields(fields_view(fields@), named_types_view(types@)),
{
    let ghost all = fields_view(fields@);
    let ghost given = named_types_view(types@);
    let mut out: Vec<StructField> = Vec::new();
    for i in 0..fields.len()
        invariant
            all == fields_view(fields@),
            given == named_types_view(types@),
            out.len() == i,
            forall|j: int|
                0 <= j < i ==> (#[trigger] out@[j])@ == substituted_fields(all, given)[j],
    {
        assert(all[i as int] == fields@[i as int]@);
        out.push(
            StructField {
                name: fields[i].name.clone(),
                ty: substitute_type(&fields[i].ty, types),
                span: fields[i].span,
            },
        );
    }
    assert(fields_view(out@) =~= substituted_fields(all, given));
    out
}

fn substitute_parameters(params: &Vec<Parameter>, types: &Vec<(String, Type)>) -> (r: Vec<
    Parameter,
>)
    ensures
        parameters_view(r@) == substituted_parameters(
            parameters_view(params@),
            named_types_view(types@),
        ),
{
    let ghost all = parameters_view(params@);
    let ghost given = named_types_view(types@);
    let mut out: Vec<Parameter> = Vec::new();
    for i in 0..params.len()
        invariant
            all == parameters_view(params@),
            given == named_types_view(types@),
            out.len() == i,
            forall|j: int|
                0 <= j < i ==> (#[trigger] out@[j])@ == substituted_parameters(all, given)[j],
    {
        assert(all[i as int] == params@[i as int]@);
        out.push(
            Parameter {
                name: params[i].name.clone(),
                ty: substitute_type(&params[i].ty, types),
                span: params[i].span,
            },
        );
    }
    assert(parameters_view(out@) =~= substituted_parameters(all, given));
    out
}

fn parameter_types(params: &Vec<Parameter>) -> (r: Vec<(String, Type)>)
    ensures
        named_types_view(r@) == parameter_env(parameters_view(params@)),
{
    let ghost all = parameters_view(params@);
    let mut out: Vec<(String, Type)> = Vec::new();
    for i in 0..params.len()
        invariant
            all == parameters_view(params@),
            out.len() == i,
            forall|j: int|
                0 <= j < i ==> (#[trigger] out@[j]).0@ == all[j].name && out@[j].1@ == all[j].ty,
    {
        assert(all[i as int] == params@[i as int]@);
        let name: String = params[i].name.clone();
        let ty: Type = params[i].ty.clone();
        out.push((name, ty));
    }
    assert(named_types_view(out@) =~= parameter_env(all));
    out
}

/// A specialization before its body is worked on.
fn skeleton_of(f: &FunctionDecl, name: &String, types: &Vec<(String, Type)>) -> (r: FunctionDecl)
    ensures
        r@ == (FunctionDeclView {
            name: name@,
            generic_params: Seq::empty(),
            params: substituted_parameters(f@.params, named_types_view(types@)),
            return_type: substituted(f@.return_type, named_types_view(types@)),
            ..f@
        }),
{
    let none: Vec<GenericParam> = Vec::new();
    assert(generics_view(none@) =~= Seq::empty());
    let copy: FunctionDecl = f.clone();
    FunctionDecl {
        name: name.clone(),
        generic_params: none,
        params: substitute_parameters(&f.params, types),
        return_type: substitute_type(&f.return_type, types),
        ..copy
    }
}

fn infer_expr_type(e: &Expr, env: &Vec<(String, Type)>) -> (r: Option<Type>)
    ensures
        match r {
            Some(ty) => argument_type(e@, named_types_view(env@)) == Some(ty@),
            None => argument_type(e@, named_types_view(env@)) is None,
        },
{
    match e {
        Expr::Integer { .. } => Some(Type::Named("i32".to_owned())),
        Expr::Float { .. } => Some(Type::Named("f64".to_owned())),
        Expr::Bool { .. } => Some(Type::Named("bool".to_owned())),
        Expr::Identifier { name, .. } => lookup_type(env, name),
        Expr::StructLiteral { name, .. } => Some(Type::Named(name.clone())),
        Expr::ArrayLiteral { ty, .. } => Some(ty.clone()),
        _ => None,
    }
}

fn names_parameter(params: &Vec<GenericParam>, name: &String) -> (r: bool)
    ensures
        r == is_parameter(generics_view(params@), name@),
{
    let ghost all = generics_view(params@);
    for i in 0..params.len()
        invariant
            all == generics_view(params@),
            forall|k: int| 0 <= k < i ==> (#[trigger] all[k]).name != name@,
    {
        assert(all[i as int] == params@[i as int]@);
        if params[i].name == *name {
            return true;
        }
    }
    false
}

fn infer_generic(
    pattern: &Type,
    actual: &Type,
    types: &mut Vec<(String, Type)>,
    params: &Vec<GenericParam>,
    span: Span,
) -> (r: Result<(), Error>)
    ensures
        match r {
            Ok(()) => matched(
                pattern@,
                actual@,
                named_types_view(old(types)@),
                generics_view(params@),
                span,
            ) == Ok::<Types, ErrorView>(named_types_view(final(types)@)),
            Err(error) => matched(
                pattern@,
                actual@,
                named_types_view(old(types)@),
                generics_view(params@),
                span,
            ) == Err::<Types, ErrorView>(error@),
        },
    decreases pattern,
{
    match (pattern, actual) {
        (Type::Named(name), _) => {
            if names_parameter(params, name) {
                match lookup_type(types, name) {
                    Some(before) => {
                        if !before.same(actual) {
                            return Err(
                                Error::InvalidOperation {
                                    message:
                                        "conflicting inferred generic type arguments".to_owned(),
                                    span,
                                },
                            );
                        }
                    },
                    None => {
                        let ghost before = named_types_view(types@);
                        types.push((name.clone(), actual.clone()));
                        assert(named_types_view(types@) =~= before.push((name@, actual@)));
                    },
                }
            }
            Ok(())
        },
        (Type::Pointer(p), Type::Pointer(a)) => infer_generic(p, a, types, params, span),
        (Type::Slice(p), Type::Slice(a)) => infer_generic(p, a, types, params, span),
        (Type::Array { length: n, element: p }, Type::Array { length: m, element: a }) => {
            if *n == *m {
                infer_generic(p, a, types, params, span)
            } else {
                Ok(())
            }
        },
        (Type::Result { success: p, error: e }, Type::Result { success: a, error: f }) => {
            infer_generic(p, a, types, params, span)?;
            infer_generic(e, f, types, params, span)
        },
        _ => Ok(()),
    }
}

fn infer_arguments(
    f: &FunctionDecl,
    arguments: &Vec<Expr>,
    env: &Vec<(String, Type)>,
    span: Span,
) -> (r: Result<Vec<(String, Type)>, Error>)
    ensures
        match r {
            Ok(types) => all_matched(
                f@,
                exprs_view(arguments@),
                named_types_view(env@),
                0,
                Seq::empty(),
                span,
            ) == Ok::<Types, ErrorView>(named_types_view(types@)),
            Err(error) => all_matched(
                f@,
                exprs_view(arguments@),
                named_types_view(env@),
                0,
                Seq::empty(),
                span,
            ) == Err::<Types, ErrorView>(error@),
        },
{
    let ghost given = exprs_view(arguments@);
    let ghost locals = named_types_view(env@);
    let mut types: Vec<(String, Type)> = Vec::new();
    assert(named_types_view(types@) =~= Seq::empty());
    let mut i: usize = 0;
    while i < f.params.len() && i < arguments.len()
        invariant
            i <= f.params.len(),
            given == exprs_view(arguments@),
            locals == named_types_view(env@),
            all_matched(f@, given, locals, 0, Seq::empty(), span) == all_matched(
                f@,
                given,
                locals,
                i as int,
                named_types_view(types@),
                span,
            ),
        decreases f.params.len() - i,
    {
        assert(f@.params[i as int] == f.params@[i as int]@);
        assert(given[i as int] == arguments@[i as int]@);
        let actual: Type = match infer_expr_type(&arguments[i], env) {
            Some(ty) => ty,
            None => {
                let message: String = joined(
                    joined("cannot infer type argument for `".to_owned(), f.name.as_str()),
                    "`",
                );
                return Err(Error::InvalidOperation { message, span });
            },
        };
        infer_generic(&f.params[i].ty, &actual, &mut types, &f.generic_params, span)?;
        i += 1;
    }
    Ok(types)
}

fn type_suffix(params: &Vec<GenericParam>, types: &Vec<(String, Type)>) -> (r: String)
    ensures
        r@ == suffix(generics_view(params@), named_types_view(types@), 0),
{
    let ghost all = generics_view(params@);
    let ghost given = named_types_view(types@);
    let mut out: String = String::new();
    let mut i: usize = 0;
    assert(out@ + suffix(all, given, 0) =~= suffix(all, given, 0));
    while i < params.len()
        invariant
            i <= params.len(),
            all == generics_view(params@),
            given == named_types_view(types@),
            out@ + suffix(all, given, i as int) == suffix(all, given, 0),
        decreases params.len() - i,
    {
        assert(all[i as int] == params@[i as int]@);
        let part: String = match lookup_type(types, &params[i].name) {
            Some(ty) => mangle_type(&ty),
            None => String::new(),
        };
        assert(lookup(given, all[i as int].name) is None ==> part@ =~= Seq::empty());
        let ghost before = out@;
        if i > 0 {
            out = joined(out, "__");
        }
        out = joined(out, part.as_str());
        proof {
            let rest = suffix(all, given, i + 1);
            if i > 0 {
                assert(((before + "__"@) + part@) + rest =~= before + (("__"@ + part@) + rest));
            } else {
                assert((before + part@) + rest =~= before + (part@ + rest));
            }
        }
        i += 1;
    }
    assert(out@ + suffix(all, given, i as int) =~= out@);
    out
}

fn substitute_expr_types(e: &Expr, types: &Vec<(String, Type)>) -> (r: Expr)
    ensures
        r@ == substituted_expr(e@, named_types_view(types@)),
    decreases e,
{
    match e {
        Expr::ArrayLiteral { ty, elements, span } => Expr::ArrayLiteral {
            ty: substitute_type(ty, types),
            elements: substitute_exprs(elements, types),
            span: *span,
        },
        Expr::SizeOf { ty, span } => Expr::SizeOf { ty: substitute_type(ty, types), span: *span },
        Expr::AlignOf { ty, span } => Expr::AlignOf {
            ty: substitute_type(ty, types),
            span: *span,
        },
        Expr::OffsetOf { ty, field, span } => Expr::OffsetOf {
            ty: substitute_type(ty, types),
            field: field.clone(),
            span: *span,
        },
        Expr::Binary { left, operator, right, span } => Expr::Binary {
            left: Box::new(substitute_expr_types(left, types)),
            operator: *operator,
            right: Box::new(substitute_expr_types(right, types)),
            span: *span,
        },
        Expr::Unary { operator, operand, span } => Expr::Unary {
            operator: *operator,
            operand: Box::new(substitute_expr_types(operand, types)),
            span: *span,
        },
        Expr::Call { callee, arguments, span } => Expr::Call {
            callee: Box::new(substitute_expr_types(callee, types)),
            arguments: substitute_exprs(arguments, types),
            span: *span,
        },
        Expr::Field { base, name, span } => Expr::Field {
            base: Box::new(substitute_expr_types(base, types)),
            name: name.clone(),
            span: *span,
        },
        Expr::Index { base, index, span } => Expr::Index {
            base: Box::new(substitute_expr_types(base, types)),
            index: Box::new(substitute_expr_types(index, types)),
            span: *span,
        },
        Expr::UncheckedIndex { base, index, span } => Expr::UncheckedIndex {
            base: Box::new(substitute_expr_types(base, types)),
            index: Box::new(substitute_expr_types(index, types)),
            span: *span,
        },
        Expr::StructLiteral { name, fields, span } => Expr::StructLiteral {
            name: name.clone(),
            fields: substitute_inits(fields, types),
            span: *span,
        },
        Expr::Propagate { expression, span } => Expr::Propagate {
            expression: Box::new(substitute_expr_types(expression, types)),
            span: *span,
        },
        Expr::Comptime { expression, span } => Expr::Comptime {
            expression: Box::new(substitute_expr_types(expression, types)),
            span: *span,
        },
        _ => e.clone(),
    }
}

fn substitute_exprs(es: &Vec<Expr>, types: &Vec<(String, Type)>) -> (r: Vec<Expr>)
    ensures
        exprs_view(r@) == substituted_exprs(exprs_view(es@), named_types_view(types@)),
    decreases es,
{
    let ghost all = exprs_view(es@);
    let ghost given = named_types_view(types@);
    let mut out: Vec<Expr> = Vec::new();
    for i in 0..es.len()
        invariant
            all == exprs_view(es@),
            given == named_types_view(types@),
            out.len() == i,
            forall|j: int| 0 <= j < i ==> (#[trigger] out@[j])@ == substituted_expr(all[j], given),
    {
        assert(all[i as int] == es@[i as int]@);
        out.push(substitute_expr_types(&es[i], types));
    }
    assert(exprs_view(out@) =~= substituted_exprs(all, given));
    out
}

fn substitute_inits(inits: &Vec<StructInit>, types: &Vec<(String, Type)>) -> (r: Vec<StructInit>)
    ensures
        inits_view(r@) == substituted_inits(inits_view(inits@), named_types_view(types@)),
    decreases inits,
{
    let ghost all = inits_view(inits@);
    let ghost given = named_types_view(types@);
    let mut out: Vec<StructInit> = Vec::new();
    for i in 0..inits.len()
        invariant
            all == inits_view(inits@),
            given == named_types_view(types@),
            out.len() == i,
            forall|j: int|
                0 <= j < i ==> (#[trigger] out@[j])@ == (StructInitView {
                    name: all[j].name,
                    value: substituted_expr(all[j].value, given),
                    span: all[j].span,
                }),
    {
        assert(all[i as int] == inits@[i as int]@);
        out.push(
            StructInit {
                name: inits[i].name.clone(),
                value: substitute_expr_types(&inits[i].value, types),
                span: inits[i].span,
            },
        );
    }
    assert(inits_view(out@) =~= substituted_inits(all, given));
    out
}

fn substitute_block_types(b: &Block, types: &Vec<(String, Type)>) -> (r: Block)
    ensures
        r@ == substituted_block(b@, named_types_view(types@)),
    decreases b,
{
    let ghost all = stmts_view(b.statements@);
    let ghost given = named_types_view(types@);
    let mut out: Vec<Stmt> = Vec::new();
    for i in 0..b.statements.len()
        invariant
            all == stmts_view(b.statements@),
            given == named_types_view(types@),
            out.len() == i,
            forall|j: int|
                0 <= j < i ==> (#[trigger] out@[j])@ == substituted_statement(all[j], given),
    {
        assert(all[i as int] == b.statements@[i as int]@);
        out.push(substitute_statement(&b.statements[i], types));
    }
    assert(stmts_view(out@) =~= substituted_statements(all, given));
    Block { statements: out, span: b.span }
}

fn substitute_statement(s: &Stmt, types: &Vec<(String, Type)>) -> (r: Stmt)
    ensures
        r@ == substituted_statement(s@, named_types_view(types@)),
    decreases s,
{
    match s {
        Stmt::If { condition, then_branch, else_branch, span } => Stmt::If {
            condition: substitute_expr_types(condition, types),
            then_branch: substitute_block_types(then_branch, types),
            else_branch: match else_branch {
                Some(branch) => Some(substitute_block_types(branch, types)),
                None => None,
            },
            span: *span,
        },
        Stmt::While { condition, body, span } => Stmt::While {
            condition: substitute_expr_types(condition, types),
            body: substitute_block_types(body, types),
            span: *span,
        },
        Stmt::Return { value, span } => Stmt::Return {
            value: match value {
                Some(e) => Some(substitute_expr_types(e, types)),
                None => None,
            },
            span: *span,
        },
        Stmt::Variable(v) => {
            let ty: Option<Type> = match &v.ty {
                Some(ty) => Some(substitute_type(ty, types)),
                None => None,
            };
            Stmt::Variable(
                VariableDecl {
                    name: v.name.clone(),
                    kind: v.kind,
                    ty,
                    value: substitute_expr_types(&v.value, types),
                    span: v.span,
                    exported: v.exported,
                },
            )
        },
        Stmt::Assignment { target, value, span } => Stmt::Assignment {
            target: substitute_expr_types(target, types),
            value: substitute_expr_types(value, types),
            span: *span,
        },
        Stmt::Expr { expression, span } => Stmt::Expr {
            expression: substitute_expr_types(expression, types),
            span: *span,
        },
        Stmt::Defer { call, span } => Stmt::Defer {
            call: substitute_expr_types(call, types),
            span: *span,
        },
        Stmt::Break { .. } => s.clone(),
        Stmt::Continue { .. } => s.clone(),
    }
}

} // verus!
