//! Which types a generic function is called with.
use crate::ast::{ExprView, FunctionDeclView, GenericParamView, TypeView};
use crate::lexer::Span;
use crate::specialize::{
    all_matched, argument_type, is_parameter, lookup, matched, substituted, type_of, Types,
};
use crate::typed::{IntegerWidth, ResolvedType};
use crate::typing::{builtin_type, lowered, resolved, Env};
use vstd::prelude::*;

verus! {

/// Whether specialization knows the type of an expression by its form alone.
pub open spec fn shows_its_type(e: ExprView) -> bool {
    e is Integer || e is Float || e is Bool || e is ArrayLiteral || (e matches
        ExprView::StructLiteral { name, .. } && builtin_type(name) is None)
}

/// Specialization instantiates a type parameter for an argument by the type that
/// analysis gives the argument where nothing is expected: a whole number is an
/// `i32`, a number with a fraction an `f64`, a truth value a `bool`, and other
/// literals have the type that they name.
pub proof fn lemma_arguments_show_their_types(env: Env, types: Types, e: ExprView, depth: nat)
    requires
        shows_its_type(e),
    ensures
        argument_type(e, types) is Some,
        lowered(env, e, None, depth) matches Ok(typed) ==> typed.ty() == resolved(
            env.ctx,
            argument_type(e, types)->Some_0,
        ),
        e is Integer || e is Float || e is Bool ==> lowered(env, e, None, depth) is Ok,
        e is Integer ==> lowered(env, e, None, depth)->Ok_0.ty() == (ResolvedType::Integer {
            width: IntegerWidth::Bits(32),
            signed: true,
        }),
        e is Float ==> lowered(env, e, None, depth)->Ok_0.ty() == (ResolvedType::Float {
            bits: 64,
        }),
        e is Bool ==> lowered(env, e, None, depth)->Ok_0.ty() == ResolvedType::Bool,
{
    reveal_strlit("i32");
    reveal_strlit("f64");
    reveal_strlit("bool");
    reveal_strlit("i8");
    reveal_strlit("i16");
    reveal_strlit("i64");
    reveal_strlit("i128");
    reveal_strlit("u8");
    reveal_strlit("u16");
    reveal_strlit("u32");
    reveal_strlit("u64");
    reveal_strlit("u128");
    reveal_strlit("usize");
    reveal_strlit("isize");
    reveal_strlit("f32");
    reveal_strlit("void");
    if e is Integer {
        let name = "i32"@;
        assert(name[1] == '3');
        assert("bool"@.len() != name.len());
        assert("i8"@.len() != name.len());
        assert("i16"@[1] == '1');
    }
    if e is Float {
        let name = "f64"@;
        assert(name[0] == 'f' && name[1] == '6');
        assert("bool"@.len() != name.len());
        assert("i8"@.len() != name.len() && "u8"@.len() != name.len());
        assert("i16"@[0] == 'i' && "i32"@[0] == 'i' && "i64"@[0] == 'i');
        assert("u16"@[0] == 'u' && "u32"@[0] == 'u' && "u64"@[0] == 'u');
        assert("f32"@[1] == '3');
        assert("i128"@.len() != name.len() && "u128"@.len() != name.len());
        assert("usize"@.len() != name.len() && "isize"@.len() != name.len());
    }
}

// ---------------------------------------------------------------------------
// Type parameters
// ---------------------------------------------------------------------------

/// Whether the types are those of type parameters.
pub open spec fn are_parameters(types: Types, params: Seq<GenericParamView>) -> bool {
    forall|i: int| 0 <= i < types.len() ==> is_parameter(params, (#[trigger] types[i]).0)
}

/// Whether the second list says all that the first one says.
pub open spec fn says_more(types: Types, more: Types) -> bool {
    forall|name: Seq<char>| #[trigger]
        lookup(types, name) is Some ==> lookup(more, name) == lookup(types, name)
}

/// Whether a type has the form of a parameter's, with a type in the place of
/// each type parameter.
pub open spec fn has_form(
    pattern: TypeView,
    actual: TypeView,
    params: Seq<GenericParamView>,
) -> bool
    decreases pattern,
{
    match (pattern, actual) {
        (TypeView::Named(name), _) => is_parameter(params, name) || actual == pattern,
        (TypeView::Pointer(p), TypeView::Pointer(a)) => has_form(*p, *a, params),
        (TypeView::Slice(p), TypeView::Slice(a)) => has_form(*p, *a, params),
        (
            TypeView::Array { length: n, element: p },
            TypeView::Array { length: m, element: a },
        ) => n == m && has_form(*p, *a, params),
        (
            TypeView::Result { success: p, error: e },
            TypeView::Result { success: a, error: f },
        ) => has_form(*p, *a, params) && has_form(*e, *f, params),
        (TypeView::Unit, TypeView::Unit) => true,
        _ => false,
    }
}

proof fn lemma_type_of_push(types: Types, n: int, name: Seq<char>, entry: (Seq<char>, TypeView))
    requires
        0 <= n <= types.len(),
    ensures
        type_of(types.push(entry), n, name) == type_of(types, n, name),
    decreases n,
{
    if n > 0 {
        lemma_type_of_push(types, n - 1, name, entry);
    }
}

proof fn lemma_only_parameters(types: Types, n: int, name: Seq<char>, params: Seq<GenericParamView>)
    requires
        are_parameters(types, params),
        0 <= n <= types.len(),
    ensures
        type_of(types, n, name) is Some ==> is_parameter(params, name),
    decreases n,
{
    if n > 0 {
        lemma_only_parameters(types, n - 1, name, params);
    }
}

proof fn lemma_pushed(types: Types, name: Seq<char>, ty: TypeView)
    requires
        lookup(types, name) is None,
    ensures
        says_more(types, types.push((name, ty))),
        lookup(types.push((name, ty)), name) == Some(ty),
{
    let more = types.push((name, ty));
    assert forall|other: Seq<char>| #[trigger] lookup(types, other) is Some implies lookup(
        more,
        other,
    ) == lookup(types, other) by {
        lemma_type_of_push(types, types.len() as int, other, (name, ty));
        assert(other != name);
    }
}

/// More types change nothing in what is settled.
proof fn lemma_substituted_stays(
    pattern: TypeView,
    actual: TypeView,
    types: Types,
    more: Types,
    params: Seq<GenericParamView>,
)
    requires
        has_form(pattern, actual, params),
        substituted(pattern, types) == actual,
        are_parameters(types, params),
        are_parameters(more, params),
        says_more(types, more),
        settles(pattern, types, params),
    ensures
        substituted(pattern, more) == actual,
        settles(pattern, more, params),
    decreases pattern,
{
    match (pattern, actual) {
        (TypeView::Named(name), _) => {
            assert(lookup(types, name) is Some ==> lookup(more, name) == lookup(types, name));
            lemma_only_parameters(more, more.len() as int, name, params);
        },
        (TypeView::Pointer(p), TypeView::Pointer(a)) => {
            lemma_substituted_stays(*p, *a, types, more, params);
        },
        (TypeView::Slice(p), TypeView::Slice(a)) => {
            lemma_substituted_stays(*p, *a, types, more, params);
        },
        (TypeView::Array { element: p, .. }, TypeView::Array { element: a, .. }) => {
            lemma_substituted_stays(*p, *a, types, more, params);
        },
        (
            TypeView::Result { success: p, error: e },
            TypeView::Result { success: a, error: f },
        ) => {
            lemma_substituted_stays(*p, *a, types, more, params);
            lemma_substituted_stays(*e, *f, types, more, params);
        },
        _ => {},
    }
}

/// Whether the types say what each type parameter in a type is.
pub open spec fn settles(pattern: TypeView, types: Types, params: Seq<GenericParamView>) -> bool
    decreases pattern,
{
    match pattern {
        TypeView::Named(name) => is_parameter(params, name) ==> lookup(types, name) is Some,
        TypeView::Pointer(p) => settles(*p, types, params),
        TypeView::Slice(p) => settles(*p, types, params),
        TypeView::Array { element, .. } => settles(*element, types, params),
        TypeView::Result { success, error } => settles(*success, types, params) && settles(
            *error,
            types,
            params,
        ),
        TypeView::Unit => true,
    }
}

proof fn lemma_matched(
    pattern: TypeView,
    actual: TypeView,
    types: Types,
    params: Seq<GenericParamView>,
    span: Span,
)
    requires
        are_parameters(types, params),
    ensures
        matched(pattern, actual, types, params, span) matches Ok(more) ==> {
            &&& are_parameters(more, params)
            &&& says_more(types, more)
            &&& has_form(pattern, actual, params) ==> substituted(pattern, more) == actual
                && settles(pattern, more, params)
        },
    decreases pattern,
{
    match (pattern, actual) {
        (TypeView::Named(name), _) => {
            lemma_only_parameters(types, types.len() as int, name, params);
            if is_parameter(params, name) && lookup(types, name) is None {
                lemma_pushed(types, name, actual);
            }
        },
        (TypeView::Pointer(p), TypeView::Pointer(a)) => {
            lemma_matched(*p, *a, types, params, span);
        },
        (TypeView::Slice(p), TypeView::Slice(a)) => {
            lemma_matched(*p, *a, types, params, span);
        },
        (
            TypeView::Array { length: n, element: p },
            TypeView::Array { length: m, element: a },
        ) => {
            if n == m {
                lemma_matched(*p, *a, types, params, span);
            }
        },
        (
            TypeView::Result { success: p, error: e },
            TypeView::Result { success: a, error: f },
        ) => {
            lemma_matched(*p, *a, types, params, span);
            if let Ok(after) = matched(*p, *a, types, params, span) {
                lemma_matched(*e, *f, after, params, span);
                if let Ok(more) = matched(*e, *f, after, params, span) {
                    assert forall|name: Seq<char>| #[trigger] lookup(
                        types,
                        name,
                    ) is Some implies lookup(more, name) == lookup(types, name) by {
                        assert(lookup(after, name) is Some);
                    }
                    if has_form(*p, *a, params) {
                        lemma_substituted_stays(*p, *a, after, more, params);
                    }
                }
            }
        },
        _ => {},
    }
}

/// The type arguments of a call are those that make the types of its parameters
/// the types of its arguments, for every argument whose type has the form that
/// its parameter asks for.
pub proof fn lemma_parameters_take_the_types_of_arguments(
    f: FunctionDeclView,
    arguments: Seq<ExprView>,
    env: Types,
    i: int,
    types: Types,
    span: Span,
)
    requires
        0 <= i,
        are_parameters(types, f.generic_params),
        forall|k: int|
            0 <= k < i && k < f.params.len() && k < arguments.len() ==> is_matched(
                f,
                #[trigger] arguments[k],
                env,
                k,
                types,
            ),
    ensures
        all_matched(f, arguments, env, i, types, span) matches Ok(all) ==> forall|k: int|
            0 <= k < f.params.len() && k < arguments.len() ==> is_matched(
                f,
                #[trigger] arguments[k],
                env,
                k,
                all,
            ),
    decreases f.params.len() - i,
{
    if i < f.params.len() && i < arguments.len() {
        if let Some(actual) = argument_type(arguments[i], env) {
            let params = f.generic_params;
            lemma_matched(f.params[i].ty, actual, types, params, span);
            if let Ok(more) = matched(f.params[i].ty, actual, types, params, span) {
                assert forall|k: int|
                    0 <= k < i + 1 && k < f.params.len() && k < arguments.len() implies is_matched(
                    f,
                    #[trigger] arguments[k],
                    env,
                    k,
                    more,
                ) by {
                    if k < i {
                        assert(is_matched(f, arguments[k], env, k, types));
                        let own = argument_type(arguments[k], env)->Some_0;
                        if has_form(f.params[k].ty, own, params) {
                            lemma_substituted_stays(f.params[k].ty, own, types, more, params);
                        }
                    }
                }
                lemma_parameters_take_the_types_of_arguments(f, arguments, env, i + 1, more, span);
            }
        }
    }
}

/// Whether an argument has the type of its parameter once the types are put in
/// the places of the type parameters.
pub open spec fn is_matched(
    f: FunctionDeclView,
    argument: ExprView,
    env: Types,
    k: int,
    types: Types,
) -> bool {
    argument_type(argument, env) matches Some(actual) && (has_form(
        f.params[k].ty,
        actual,
        f.generic_params,
    ) ==> substituted(f.params[k].ty, types) == actual && settles(
        f.params[k].ty,
        types,
        f.generic_params,
    ))
}

} // verus!
