//! What specialization leaves: nothing generic, and each instance once.
use crate::ast::{
    BlockView, DeclView, ExprView, FunctionDeclView, ParameterView, ProgramView, StmtView,
    StructDeclView, StructFieldView, StructInitView, TypeView,
};
use crate::lexer::Span;
use crate::specialize::{
    all_matched, argument_types, block_made, declaration_made, declarations_made, expr_made,
    exprs_made, fields_made, find_generic_function, find_generic_struct, free_name,
    function_declarations, function_made, function_place, generic_function, generic_struct,
    has_function, inits_made, instance_name, longest_name, named_arguments, parameter_env,
    parameters_made, parts, precedes, precedes_from, registered, specialized, split_marks,
    statement_made, statements_made, struct_declarations, struct_made, struct_place, substituted,
    substituted_block, substituted_fields, substituted_parameters, suffix, type_made, with_function,
    with_struct, InstanceView, Made, Types, MAX_SPECIALIZATIONS,
};
use vstd::prelude::*;

verus! {

// ---------------------------------------------------------------------------
// The order of names
// ---------------------------------------------------------------------------

proof fn lemma_order_from(a: Seq<char>, b: Seq<char>, i: int)
    requires
        0 <= i <= a.len(),
        i <= b.len(),
        forall|j: int| 0 <= j < i ==> #[trigger] a[j] == b[j],
    ensures
        a == b || precedes_from(a, b, i) || precedes_from(b, a, i),
        !(precedes_from(a, b, i) && precedes_from(b, a, i)),
        a == b ==> !precedes_from(a, b, i),
    decreases a.len() - i,
{
    if i < a.len() && i < b.len() {
        if a[i] == b[i] {
            lemma_order_from(a, b, i + 1);
        }
    } else if a.len() == b.len() {
        assert(a =~= b);
    }
}

proof fn lemma_order_chain(a: Seq<char>, b: Seq<char>, c: Seq<char>, i: int)
    requires
        0 <= i,
        precedes_from(a, b, i),
        precedes_from(b, c, i),
    ensures
        precedes_from(a, c, i),
    decreases a.len() - i,
{
    if i < a.len() && i < b.len() && i < c.len() && a[i] == b[i] && b[i] == c[i] {
        lemma_order_chain(a, b, c, i + 1);
    }
}

/// Names are ordered: of two different names exactly one comes first, and what
/// comes before a name comes before all that follow it.
pub proof fn lemma_names_are_ordered(a: Seq<char>, b: Seq<char>, c: Seq<char>)
    ensures
        a != b ==> (precedes(a, b) <==> !precedes(b, a)),
        !precedes(a, a),
        precedes(a, b) && precedes(b, c) ==> precedes(a, c),
{
    lemma_order_from(a, b, 0);
    lemma_order_from(b, a, 0);
    lemma_order_from(a, a, 0);
    if precedes(a, b) && precedes(b, c) {
        lemma_order_chain(a, b, c, 0);
    }
}

pub open spec fn functions_in_order(fs: Seq<FunctionDeclView>) -> bool {
    forall|i: int, j: int|
        0 <= i < j < fs.len() ==> precedes((#[trigger] fs[i]).name, (#[trigger] fs[j]).name)
}

pub open spec fn structs_in_order(ss: Seq<StructDeclView>) -> bool {
    forall|i: int, j: int|
        0 <= i < j < ss.len() ==> precedes((#[trigger] ss[i]).name, (#[trigger] ss[j]).name)
}

/// Whether different instances of functions have different names, and are there.
pub open spec fn are_told_apart(decls: Seq<DeclView>, made: Made) -> bool {
    let all = made.instances;
    &&& forall|i: int|
        0 <= i < all.len() && decls[(#[trigger] all[i]).definition] is Function ==> has_function(
            made.functions,
            all[i].name,
        )
    &&& forall|i: int, j: int|
        0 <= i < j < all.len() && decls[(#[trigger] all[i]).definition] is Function
            && decls[(#[trigger] all[j]).definition] is Function ==> all[i].name != all[j].name
}

/// Whether what is made goes on from what was made before, and is as it should
/// be.
pub open spec fn extends_to(decls: Seq<DeclView>, before: Made, made: Made) -> bool {
    is_tidy(decls, made) && before.instances.is_prefix_of(made.instances)
}

/// Whether nothing that is made is generic, all of it stands in the order of
/// its names, each name once, and different instances are different functions.
pub open spec fn is_tidy(decls: Seq<DeclView>, made: Made) -> bool {
    &&& functions_in_order(made.functions)
    &&& structs_in_order(made.structs)
    &&& forall|i: int|
        0 <= i < made.functions.len() ==> (#[trigger] made.functions[i]).generic_params.len() == 0
    &&& forall|i: int|
        0 <= i < made.structs.len() ==> (#[trigger] made.structs[i]).generic_params.len() == 0
    &&& are_told_apart(decls, made)
}

proof fn lemma_function_place(fs: Seq<FunctionDeclView>, i: int, name: Seq<char>)
    requires
        0 <= i <= fs.len(),
        functions_in_order(fs),
        forall|k: int| 0 <= k < i ==> precedes((#[trigger] fs[k]).name, name),
    ensures
        ({
            let p = function_place(fs, i, name);
            &&& i <= p <= fs.len()
            &&& forall|k: int| 0 <= k < p ==> precedes((#[trigger] fs[k]).name, name)
            &&& forall|k: int| p < k < fs.len() ==> precedes(name, (#[trigger] fs[k]).name)
            &&& p < fs.len() && fs[p].name != name ==> precedes(name, fs[p].name)
        }),
    decreases fs.len() - i,
{
    if i < fs.len() {
        lemma_names_are_ordered(fs[i].name, name, name);
        if fs[i].name == name || precedes(name, fs[i].name) {
            assert forall|k: int| i < k < fs.len() implies precedes(
                name,
                (#[trigger] fs[k]).name,
            ) by {
                assert(precedes(fs[i].name, fs[k].name));
                lemma_names_are_ordered(name, fs[i].name, fs[k].name);
            }
        } else {
            lemma_function_place(fs, i + 1, name);
        }
    }
}

proof fn lemma_with_function_has(fs: Seq<FunctionDeclView>, f: FunctionDeclView)
    requires
        functions_in_order(fs),
    ensures
        forall|name: Seq<char>| #[trigger]
            has_function(with_function(fs, f), name) <==> has_function(fs, name) || name == f.name,
{
    lemma_function_place(fs, 0, f.name);
    let p = function_place(fs, 0, f.name);
    let all = with_function(fs, f);
    assert(all[p] == f);
    let taken = p < fs.len() && fs[p].name == f.name;
    assert forall|name: Seq<char>|
        has_function(fs, name) || name == f.name implies #[trigger] has_function(all, name) by {
        if name != f.name {
            let i = choose|i: int| 0 <= i < fs.len() && (#[trigger] fs[i]).name == name;
            if taken || i < p {
                assert(all[i] == fs[i]);
            } else {
                assert(all[i + 1] == fs[i]);
            }
        }
    }
    assert forall|name: Seq<char>| #[trigger] has_function(all, name) implies has_function(fs, name)
        || name == f.name by {
        let i = choose|i: int| 0 <= i < all.len() && (#[trigger] all[i]).name == name;
        if i != p {
            if taken || i < p {
                assert(fs[i].name == name);
            } else {
                assert(fs[i - 1].name == name);
            }
        }
    }
}

proof fn lemma_longest(fs: Seq<FunctionDeclView>, n: int)
    requires
        0 <= n <= fs.len(),
    ensures
        forall|i: int| 0 <= i < n ==> (#[trigger] fs[i]).name.len() <= longest_name(fs, n),
    decreases n,
{
    if n > 0 {
        lemma_longest(fs, n - 1);
    }
}

/// A free name is no function's.
proof fn lemma_free_name(fs: Seq<FunctionDeclView>, name: Seq<char>)
    requires
        name.len() > 0,
    ensures
        !has_function(fs, free_name(fs, name)),
{
    lemma_longest(fs, fs.len() as int);
}

proof fn lemma_with_function(fs: Seq<FunctionDeclView>, f: FunctionDeclView)
    requires
        functions_in_order(fs),
        f.generic_params.len() == 0,
        forall|i: int| 0 <= i < fs.len() ==> (#[trigger] fs[i]).generic_params.len() == 0,
    ensures
        functions_in_order(with_function(fs, f)),
        forall|i: int|
            0 <= i < with_function(fs, f).len() ==> (#[trigger] with_function(
                fs,
                f,
            )[i]).generic_params.len() == 0,
        forall|name: Seq<char>| #[trigger]
            has_function(with_function(fs, f), name) <==> has_function(fs, name) || name == f.name,
{
    lemma_with_function_has(fs, f);
    lemma_function_place(fs, 0, f.name);
    let p = function_place(fs, 0, f.name);
    let all = with_function(fs, f);
    if p < fs.len() && fs[p].name == f.name {
        assert forall|i: int, j: int| 0 <= i < j < all.len() implies precedes(
            (#[trigger] all[i]).name,
            (#[trigger] all[j]).name,
        ) by {
            assert(all[i].name == fs[i].name && all[j].name == fs[j].name);
        }
        assert forall|i: int| 0 <= i < all.len() implies (
        #[trigger] all[i]).generic_params.len() == 0 by {
            if i != p {
                assert(all[i] == fs[i]);
            }
        }
    } else {
        assert forall|i: int, j: int| 0 <= i < j < all.len() implies precedes(
            (#[trigger] all[i]).name,
            (#[trigger] all[j]).name,
        ) by {
            let a = if i < p {
                fs[i]
            } else if i == p {
                f
            } else {
                fs[i - 1]
            };
            let b = if j < p {
                fs[j]
            } else if j == p {
                f
            } else {
                fs[j - 1]
            };
            assert(all[i] == a && all[j] == b);
        }
        assert forall|i: int| 0 <= i < all.len() implies (
        #[trigger] all[i]).generic_params.len() == 0 by {
            if i < p {
                assert(all[i] == fs[i]);
            } else if i > p {
                assert(all[i] == fs[i - 1]);
            }
        }
    }
}

proof fn lemma_struct_place(ss: Seq<StructDeclView>, i: int, name: Seq<char>)
    requires
        0 <= i <= ss.len(),
        structs_in_order(ss),
        forall|k: int| 0 <= k < i ==> precedes((#[trigger] ss[k]).name, name),
    ensures
        ({
            let p = struct_place(ss, i, name);
            &&& i <= p <= ss.len()
            &&& forall|k: int| 0 <= k < p ==> precedes((#[trigger] ss[k]).name, name)
            &&& forall|k: int| p < k < ss.len() ==> precedes(name, (#[trigger] ss[k]).name)
            &&& p < ss.len() && ss[p].name != name ==> precedes(name, ss[p].name)
        }),
    decreases ss.len() - i,
{
    if i < ss.len() {
        lemma_names_are_ordered(ss[i].name, name, name);
        if ss[i].name == name || precedes(name, ss[i].name) {
            assert forall|k: int| i < k < ss.len() implies precedes(
                name,
                (#[trigger] ss[k]).name,
            ) by {
                assert(precedes(ss[i].name, ss[k].name));
                lemma_names_are_ordered(name, ss[i].name, ss[k].name);
            }
        } else {
            lemma_struct_place(ss, i + 1, name);
        }
    }
}

proof fn lemma_with_struct(ss: Seq<StructDeclView>, s: StructDeclView)
    requires
        structs_in_order(ss),
        s.generic_params.len() == 0,
        forall|i: int| 0 <= i < ss.len() ==> (#[trigger] ss[i]).generic_params.len() == 0,
    ensures
        structs_in_order(with_struct(ss, s)),
        forall|i: int|
            0 <= i < with_struct(ss, s).len() ==> (#[trigger] with_struct(
                ss,
                s,
            )[i]).generic_params.len() == 0,
{
    lemma_struct_place(ss, 0, s.name);
    let p = struct_place(ss, 0, s.name);
    let all = with_struct(ss, s);
    if p < ss.len() && ss[p].name == s.name {
        assert forall|i: int, j: int| 0 <= i < j < all.len() implies precedes(
            (#[trigger] all[i]).name,
            (#[trigger] all[j]).name,
        ) by {
            assert(all[i].name == ss[i].name && all[j].name == ss[j].name);
        }
        assert forall|i: int| 0 <= i < all.len() implies (
        #[trigger] all[i]).generic_params.len() == 0 by {
            if i != p {
                assert(all[i] == ss[i]);
            }
        }
    } else {
        assert forall|i: int, j: int| 0 <= i < j < all.len() implies precedes(
            (#[trigger] all[i]).name,
            (#[trigger] all[j]).name,
        ) by {
            let a = if i < p {
                ss[i]
            } else if i == p {
                s
            } else {
                ss[i - 1]
            };
            let b = if j < p {
                ss[j]
            } else if j == p {
                s
            } else {
                ss[j - 1]
            };
            assert(all[i] == a && all[j] == b);
        }
        assert forall|i: int| 0 <= i < all.len() implies (
        #[trigger] all[i]).generic_params.len() == 0 by {
            if i < p {
                assert(all[i] == ss[i]);
            } else if i > p {
                assert(all[i] == ss[i - 1]);
            }
        }
    }
}

// ---------------------------------------------------------------------------
// What specializing keeps
// ---------------------------------------------------------------------------

proof fn lemma_struct_made(decls: Seq<DeclView>, made: Made, name: Seq<char>, span: Span)
    requires
        is_tidy(decls, made),
    ensures
        struct_made(decls, made, name, span) matches Ok(after) ==> extends_to(decls, made, after),
{
    if let Some(at) = split_marks(name, 0) {
        let base = name.take(at);
        if let Some(k) = find_generic_struct(decls, base) {
            lemma_generic_struct(decls, decls.len() as int, base);
            let structure = decls[k]->Struct_0;
            let names = parts(name.skip(at + 2), Seq::empty());
            let params = structure.generic_params;
            let types = named_arguments(params, names, 0, Seq::empty());
            lemma_with_struct(
                made.structs,
                StructDeclView {
                    name,
                    generic_params: Seq::empty(),
                    fields: substituted_fields(structure.fields, types),
                    ..structure
                },
            );
        }
    }
}

proof fn lemma_generic_struct(decls: Seq<DeclView>, n: int, name: Seq<char>)
    ensures
        generic_struct(decls, n, name) matches Some(k) ==> 0 <= k < decls.len()
            && decls[k] is Struct,
    decreases n,
{
    if 0 < n <= decls.len() {
        lemma_generic_struct(decls, n - 1, name);
    }
}

proof fn lemma_generic_function(decls: Seq<DeclView>, n: int, name: Seq<char>)
    ensures
        generic_function(decls, n, name) matches Some(k) ==> 0 <= k < decls.len()
            && decls[k] is Function,
    decreases n,
{
    if 0 < n <= decls.len() {
        lemma_generic_function(decls, n - 1, name);
    }
}

proof fn lemma_instance_name(
    instances: Seq<InstanceView>,
    i: int,
    definition: int,
    arguments: Seq<TypeView>,
)
    requires
        0 <= i,
    ensures
        instance_name(instances, i, definition, arguments) matches Some(name) ==> has_instance(
            instances,
            InstanceView { definition, arguments, name },
        ),
    decreases instances.len() - i,
{
    if i < instances.len() {
        lemma_instance_name(instances, i + 1, definition, arguments);
    }
}

pub open spec fn has_instance(instances: Seq<InstanceView>, instance: InstanceView) -> bool {
    exists|i: int| 0 <= i < instances.len() && #[trigger] instances[i] == instance
}

proof fn lemma_type_made(decls: Seq<DeclView>, made: Made, ty: TypeView, span: Span)
    requires
        is_tidy(decls, made),
    ensures
        type_made(decls, made, ty, span) matches Ok(after) ==> extends_to(decls, made, after),
    decreases ty,
{
    match ty {
        TypeView::Named(name) => {
            lemma_struct_made(decls, made, name, span);
        },
        TypeView::Pointer(inner) => {
            lemma_type_made(decls, made, *inner, span);
        },
        TypeView::Slice(inner) => {
            lemma_type_made(decls, made, *inner, span);
        },
        TypeView::Array { element, .. } => {
            lemma_type_made(decls, made, *element, span);
        },
        TypeView::Result { success, error } => {
            lemma_type_made(decls, made, *success, span);
            if let Ok(after) = type_made(decls, made, *success, span) {
                lemma_type_made(decls, after, *error, span);
            }
        },
        TypeView::Unit => {},
    }
}

/// The type arguments of a call of a generic function.
pub open spec fn called_with(
    decls: Seq<DeclView>,
    name: Seq<char>,
    arguments: Seq<ExprView>,
    env: Types,
    span: Span,
) -> Seq<TypeView> {
    let f = decls[find_generic_function(decls, name)->Some_0]->Function_0;
    argument_types(
        f.generic_params,
        all_matched(f, arguments, env, 0, Seq::empty(), span)->Ok_0,
        0,
    )
}

proof fn lemma_function_made(
    decls: Seq<DeclView>,
    made: Made,
    name: Seq<char>,
    arguments: Seq<ExprView>,
    span: Span,
    env: Types,
    budget: nat,
)
    requires
        is_tidy(decls, made),
    ensures
        function_made(decls, made, name, arguments, span, env, budget) matches Ok((full, after))
            ==> extends_to(decls, made, after) && has_instance(
            after.instances,
            InstanceView {
                definition: find_generic_function(decls, name)->Some_0,
                arguments: called_with(decls, name, arguments, env, span),
                name: full,
            },
        ),
    decreases budget, 0int, arguments, 0int,
{
    if let Some(k) = find_generic_function(decls, name) {
        lemma_generic_function(decls, decls.len() as int, name);
        let f = decls[k]->Function_0;
        if let Ok(types) = all_matched(f, arguments, env, 0, Seq::empty(), span) {
            let given = argument_types(f.generic_params, types, 0);
            lemma_instance_name(made.instances, 0, k, given);
            if instance_name(made.instances, 0, k, given) is None && budget > 0 {
                let wished = name + "__"@ + suffix(f.generic_params, types, 0);
                reveal_strlit("__");
                let full = free_name(made.functions, wished);
                lemma_free_name(made.functions, wished);
                let instance = InstanceView { definition: k, arguments: given, name: full };
                if let Ok(noted) = registered(made, instance, span) {
                    let params = substituted_parameters(f.params, types);
                    let skeleton = FunctionDeclView {
                        name: full,
                        generic_params: Seq::empty(),
                        params,
                        return_type: substituted(f.return_type, types),
                        ..f
                    };
                    lemma_with_function(noted.functions, skeleton);
                    let begun = Made {
                        functions: with_function(noted.functions, skeleton),
                        ..noted
                    };
                    assert(noted.instances.last() == instance);
                    assert forall|i: int|
                        0 <= i < noted.instances.len() - 1 implies #[trigger] noted.instances[i]
                        == made.instances[i] by {}
                    let source = substituted_block(f.body, types);
                    lemma_block_made(
                        decls,
                        begun,
                        source,
                        parameter_env(params),
                        (budget - 1) as nat,
                    );
                    if let Ok((body, after)) = block_made(
                        decls,
                        begun,
                        source,
                        parameter_env(params),
                        (budget - 1) as nat,
                    ) {
                        lemma_with_function(
                            after.functions,
                            FunctionDeclView { body, ..skeleton },
                        );
                        assert(after.instances[made.instances.len() as int] == instance);
                    }
                }
            }
        }
    }
}

proof fn lemma_block_made(
    decls: Seq<DeclView>,
    made: Made,
    b: BlockView,
    env: Types,
    budget: nat,
)
    requires
        is_tidy(decls, made),
    ensures
        block_made(decls, made, b, env, budget) matches Ok((_, after))
            ==> extends_to(decls, made, after),
    decreases budget, 2int, b, 0int,
{
    lemma_statements_made(decls, made, b.statements, 0, Seq::empty(), env, budget);
}

proof fn lemma_statements_made(
    decls: Seq<DeclView>,
    made: Made,
    ss: Seq<StmtView>,
    i: int,
    before: Seq<StmtView>,
    env: Types,
    budget: nat,
)
    requires
        is_tidy(decls, made),
    ensures
        statements_made(decls, made, ss, i, before, env, budget) matches Ok((_, after))
            ==> extends_to(decls, made, after),
    decreases budget, 2int, ss, ss.len() - i,
{
    if 0 <= i < ss.len() {
        lemma_statement_made(decls, made, ss[i], env, budget);
        if let Ok((statement, locals, after)) = statement_made(decls, made, ss[i], env, budget) {
            lemma_statements_made(
                decls,
                after,
                ss,
                i + 1,
                before.push(statement),
                locals,
                budget,
            );
        }
    }
}

proof fn lemma_statement_made(
    decls: Seq<DeclView>,
    made: Made,
    s: StmtView,
    env: Types,
    budget: nat,
)
    requires
        is_tidy(decls, made),
    ensures
        statement_made(decls, made, s, env, budget) matches Ok((_, _, after))
            ==> extends_to(decls, made, after),
    decreases budget, 2int, s, 0int,
{
    match s {
        StmtView::Variable(v) => {
            lemma_expr_made(decls, made, v.value, env, budget);
            if let Ok((_, after)) = expr_made(decls, made, v.value, env, budget) {
                if let Some(ty) = v.ty {
                    lemma_type_made(decls, after, ty, v.span);
                }
            }
        },
        StmtView::Expr { expression, .. } => {
            lemma_expr_made(decls, made, expression, env, budget);
        },
        StmtView::Return { value, .. } => {
            if let Some(e) = value {
                lemma_expr_made(decls, made, e, env, budget);
            }
        },
        StmtView::Assignment { target, value, .. } => {
            lemma_expr_made(decls, made, target, env, budget);
            if let Ok((_, after)) = expr_made(decls, made, target, env, budget) {
                lemma_expr_made(decls, after, value, env, budget);
            }
        },
        StmtView::If { condition, then_branch, else_branch, .. } => {
            lemma_expr_made(decls, made, condition, env, budget);
            if let Ok((_, after)) = expr_made(decls, made, condition, env, budget) {
                lemma_block_made(decls, after, then_branch, env, budget);
                if let Ok((_, next)) = block_made(decls, after, then_branch, env, budget) {
                    if let Some(branch) = else_branch {
                        lemma_block_made(decls, next, branch, env, budget);
                    }
                }
            }
        },
        StmtView::While { condition, body, .. } => {
            lemma_expr_made(decls, made, condition, env, budget);
            if let Ok((_, after)) = expr_made(decls, made, condition, env, budget) {
                lemma_block_made(decls, after, body, env, budget);
            }
        },
        StmtView::Defer { call, .. } => {
            lemma_expr_made(decls, made, call, env, budget);
        },
        _ => {},
    }
}

proof fn lemma_expr_made(decls: Seq<DeclView>, made: Made, e: ExprView, env: Types, budget: nat)
    requires
        is_tidy(decls, made),
    ensures
        expr_made(decls, made, e, env, budget) matches Ok((_, after))
            ==> extends_to(decls, made, after),
    decreases budget, 1int, e, 0int,
{
    match e {
        ExprView::Call { callee, arguments, .. } => {
            lemma_exprs_made(decls, made, arguments, 0, Seq::empty(), env, budget);
            if let Ok((values, after)) = exprs_made(
                decls,
                made,
                arguments,
                0,
                Seq::empty(),
                env,
                budget,
            ) {
                lemma_expr_made(decls, after, *callee, env, budget);
                if let Ok((target, next)) = expr_made(decls, after, *callee, env, budget) {
                    if let ExprView::Identifier { name, span } = target {
                        lemma_function_made(decls, next, name, values, span, env, budget);
                    }
                }
            }
        },
        ExprView::Binary { left, right, .. } => {
            lemma_expr_made(decls, made, *left, env, budget);
            if let Ok((_, after)) = expr_made(decls, made, *left, env, budget) {
                lemma_expr_made(decls, after, *right, env, budget);
            }
        },
        ExprView::Unary { operand, .. } => {
            lemma_expr_made(decls, made, *operand, env, budget);
        },
        ExprView::Field { base, .. } => {
            lemma_expr_made(decls, made, *base, env, budget);
        },
        ExprView::Index { base, index, .. } => {
            lemma_expr_made(decls, made, *base, env, budget);
            if let Ok((_, after)) = expr_made(decls, made, *base, env, budget) {
                lemma_expr_made(decls, after, *index, env, budget);
            }
        },
        ExprView::UncheckedIndex { base, index, .. } => {
            lemma_expr_made(decls, made, *base, env, budget);
            if let Ok((_, after)) = expr_made(decls, made, *base, env, budget) {
                lemma_expr_made(decls, after, *index, env, budget);
            }
        },
        ExprView::ArrayLiteral { elements, .. } => {
            lemma_exprs_made(decls, made, elements, 0, Seq::empty(), env, budget);
        },
        ExprView::StructLiteral { name, fields, span } => {
            lemma_struct_made(decls, made, name, span);
            if let Ok(after) = struct_made(decls, made, name, span) {
                lemma_inits_made(decls, after, fields, 0, Seq::empty(), env, budget);
            }
        },
        ExprView::Propagate { expression, .. } => {
            lemma_expr_made(decls, made, *expression, env, budget);
        },
        ExprView::Comptime { expression, .. } => {
            lemma_expr_made(decls, made, *expression, env, budget);
        },
        _ => {},
    }
}

proof fn lemma_exprs_made(
    decls: Seq<DeclView>,
    made: Made,
    es: Seq<ExprView>,
    i: int,
    before: Seq<ExprView>,
    env: Types,
    budget: nat,
)
    requires
        is_tidy(decls, made),
    ensures
        exprs_made(decls, made, es, i, before, env, budget) matches Ok((_, after))
            ==> extends_to(decls, made, after),
    decreases budget, 1int, es, es.len() - i,
{
    if 0 <= i < es.len() {
        lemma_expr_made(decls, made, es[i], env, budget);
        if let Ok((x, after)) = expr_made(decls, made, es[i], env, budget) {
            lemma_exprs_made(decls, after, es, i + 1, before.push(x), env, budget);
        }
    }
}

proof fn lemma_inits_made(
    decls: Seq<DeclView>,
    made: Made,
    inits: Seq<StructInitView>,
    i: int,
    before: Seq<StructInitView>,
    env: Types,
    budget: nat,
)
    requires
        is_tidy(decls, made),
    ensures
        inits_made(decls, made, inits, i, before, env, budget) matches Ok((_, after))
            ==> extends_to(decls, made, after),
    decreases budget, 1int, inits, inits.len() - i,
{
    if 0 <= i < inits.len() {
        lemma_expr_made(decls, made, inits[i].value, env, budget);
        if let Ok((value, after)) = expr_made(decls, made, inits[i].value, env, budget) {
            lemma_inits_made(
                decls,
                after,
                inits,
                i + 1,
                before.push(StructInitView { name: inits[i].name, value, span: inits[i].span }),
                env,
                budget,
            );
        }
    }
}

proof fn lemma_parameters_made(
    decls: Seq<DeclView>,
    made: Made,
    params: Seq<ParameterView>,
    i: int,
)
    requires
        is_tidy(decls, made),
    ensures
        parameters_made(decls, made, params, i) matches Ok(after)
            ==> extends_to(decls, made, after),
    decreases params.len() - i,
{
    if 0 <= i < params.len() {
        lemma_type_made(decls, made, params[i].ty, params[i].span);
        if let Ok(after) = type_made(decls, made, params[i].ty, params[i].span) {
            lemma_parameters_made(decls, after, params, i + 1);
        }
    }
}

proof fn lemma_fields_made(
    decls: Seq<DeclView>,
    made: Made,
    fields: Seq<StructFieldView>,
    i: int,
)
    requires
        is_tidy(decls, made),
    ensures
        fields_made(decls, made, fields, i) matches Ok(after) ==> extends_to(decls, made, after),
    decreases fields.len() - i,
{
    if 0 <= i < fields.len() {
        lemma_type_made(decls, made, fields[i].ty, fields[i].span);
        if let Ok(after) = type_made(decls, made, fields[i].ty, fields[i].span) {
            lemma_fields_made(decls, after, fields, i + 1);
        }
    }
}

/// Whether a declaration is not generic.
pub open spec fn is_plain(d: DeclView) -> bool {
    match d {
        DeclView::Function(f) => f.generic_params.len() == 0,
        DeclView::Struct(s) => s.generic_params.len() == 0,
        _ => true,
    }
}

proof fn lemma_declaration_made(decls: Seq<DeclView>, made: Made, d: DeclView)
    requires
        is_tidy(decls, made),
    ensures
        declaration_made(decls, made, d) matches Ok((kept, after))
            ==> extends_to(decls, made, after) && (
        kept matches Some(x) ==> is_plain(x)),
{
    reveal(declaration_made);
    let budget = MAX_SPECIALIZATIONS as nat;
    match d {
        DeclView::Function(f) => {
            lemma_parameters_made(decls, made, f.params, 0);
            if let Ok(after) = parameters_made(decls, made, f.params, 0) {
                lemma_type_made(decls, after, f.return_type, f.span);
                if let Ok(next) = type_made(decls, after, f.return_type, f.span) {
                    lemma_block_made(decls, next, f.body, parameter_env(f.params), budget);
                }
            }
        },
        DeclView::Struct(s) => {
            lemma_fields_made(decls, made, s.fields, 0);
        },
        DeclView::Variable(v) => {
            if let Some(ty) = v.ty {
                lemma_type_made(decls, made, ty, v.span);
                if let Ok(after) = type_made(decls, made, ty, v.span) {
                    lemma_expr_made(decls, after, v.value, Seq::empty(), budget);
                }
            } else {
                lemma_expr_made(decls, made, v.value, Seq::empty(), budget);
            }
        },
        DeclView::Comptime { expression, .. } => {
            lemma_expr_made(decls, made, expression, Seq::empty(), budget);
        },
    }
}

pub open spec fn all_plain(ds: Seq<DeclView>) -> bool {
    forall|i: int| 0 <= i < ds.len() ==> is_plain(#[trigger] ds[i])
}

proof fn lemma_declarations_made(
    decls: Seq<DeclView>,
    made: Made,
    i: int,
    before: Seq<DeclView>,
)
    requires
        is_tidy(decls, made),
        all_plain(before),
    ensures
        declarations_made(decls, made, i, before) matches Ok((kept, after)) ==> all_plain(kept)
            && extends_to(decls, made, after),
    decreases decls.len() - i,
{
    if 0 <= i < decls.len() {
        lemma_declaration_made(decls, made, decls[i]);
        if let Ok((kept, after)) = declaration_made(decls, made, decls[i]) {
            lemma_declarations_made(
                decls,
                after,
                i + 1,
                match kept {
                    Some(d) => before.push(d),
                    None => before,
                },
            );
        }
    }
}

/// The declarations `kept`, then what was specialized.
pub open spec fn followed_by(kept: Seq<DeclView>, made: Made) -> Seq<DeclView> {
    kept + function_declarations(made.functions) + struct_declarations(made.structs)
}

/// A specialized program has no generic declarations, and what was specialized
/// stands behind the rest in the order of its names, so that no name is
/// specialized twice.
pub proof fn lemma_specialized_programs_are_plain(program: ProgramView)
    ensures
        specialized(program) matches Ok(plain) ==> {
            &&& all_plain(plain.declarations)
            &&& exists|kept: Seq<DeclView>, made: Made|
                kept.len() <= program.declarations.len() && is_tidy(program.declarations, made)
                    && #[trigger] followed_by(kept, made) == plain.declarations
        },
{
    let decls = program.declarations;
    let none = Made { functions: Seq::empty(), structs: Seq::empty(), instances: Seq::empty() };
    lemma_declarations_made(decls, none, 0, Seq::empty());
    lemma_kept_count(decls, none, 0, Seq::empty());
    if let Ok((kept, made)) = declarations_made(decls, none, 0, Seq::empty()) {
        let fs = function_declarations(made.functions);
        let ss = struct_declarations(made.structs);
        let all = followed_by(kept, made);
        assert forall|i: int| 0 <= i < all.len() implies is_plain(#[trigger] all[i]) by {
            if i < kept.len() {
                assert(all[i] == kept[i]);
            } else if i < kept.len() + fs.len() {
                assert(all[i] == fs[i - kept.len()]);
                assert(made.functions[i - kept.len()].generic_params.len() == 0);
            } else {
                assert(all[i] == ss[i - kept.len() - fs.len()]);
                assert(made.structs[i - kept.len() - fs.len()].generic_params.len() == 0);
            }
        }
    }
}

proof fn lemma_kept_count(decls: Seq<DeclView>, made: Made, i: int, before: Seq<DeclView>)
    requires
        0 <= i <= decls.len(),
    ensures
        declarations_made(decls, made, i, before) matches Ok((kept, _)) ==> kept.len()
            <= before.len() + decls.len() - i,
    decreases decls.len() - i,
{
    if i < decls.len() {
        if let Ok((kept, after)) = declaration_made(decls, made, decls[i]) {
            lemma_kept_count(
                decls,
                after,
                i + 1,
                match kept {
                    Some(d) => before.push(d),
                    None => before,
                },
            );
        }
    }
}

/// Identities decide, never a spelling: where two calls of generic functions
/// lead to functions of the same name, they call the same function with the
/// same type arguments. The second call comes anywhere after the first.
pub proof fn lemma_different_instances_are_different_functions(
    decls: Seq<DeclView>,
    made: Made,
    name: Seq<char>,
    arguments: Seq<ExprView>,
    span: Span,
    env: Types,
    budget: nat,
    later: Made,
    other: Seq<char>,
    others: Seq<ExprView>,
    other_span: Span,
    other_env: Types,
    other_budget: nat,
)
    requires
        is_tidy(decls, made),
        is_tidy(decls, later),
        function_made(decls, made, name, arguments, span, env, budget) matches Ok((_, after))
            && after.instances.is_prefix_of(later.instances),
    ensures
        function_made(
            decls,
            later,
            other,
            others,
            other_span,
            other_env,
            other_budget,
        ) matches Ok((second, _)) ==> (function_made(
            decls,
            made,
            name,
            arguments,
            span,
            env,
            budget,
        )->Ok_0.0 == second ==> find_generic_function(decls, name) == find_generic_function(
            decls,
            other,
        ) && called_with(decls, name, arguments, env, span) == called_with(
            decls,
            other,
            others,
            other_env,
            other_span,
        )),
{
    lemma_function_made(decls, made, name, arguments, span, env, budget);
    lemma_function_made(decls, later, other, others, other_span, other_env, other_budget);
    if let Ok((second, last)) = function_made(
        decls,
        later,
        other,
        others,
        other_span,
        other_env,
        other_budget,
    ) {
        let (first, after) = function_made(decls, made, name, arguments, span, env, budget)->Ok_0;
        lemma_generic_function(decls, decls.len() as int, name);
        lemma_generic_function(decls, decls.len() as int, other);
        let a = InstanceView {
            definition: find_generic_function(decls, name)->Some_0,
            arguments: called_with(decls, name, arguments, env, span),
            name: first,
        };
        let b = InstanceView {
            definition: find_generic_function(decls, other)->Some_0,
            arguments: called_with(decls, other, others, other_env, other_span),
            name: second,
        };
        let i = choose|i: int| 0 <= i < after.instances.len() && #[trigger] after.instances[i] == a;
        assert(later.instances[i] == a);
        assert(last.instances[i] == a);
        let j = choose|j: int| 0 <= j < last.instances.len() && #[trigger] last.instances[j] == b;
        if first == second {
            assert(i == j);
        }
    }
}

} // verus!
