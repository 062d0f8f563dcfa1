//! What compile-time evaluation means, and what expansion makes of a program.
use crate::ast::{
    BinaryOp, BlockView, DeclView, ExprView, FunctionDeclView, ParameterView, ProgramView, StmtView,
    StructDeclView, StructFieldView, StructInitView, TypeView, UnaryOp, VariableDeclView,
    VariableKind,
};
use crate::comptime::{
    DeclarationInfoView, DeclarationMetadataView, ErrorView, FieldInfoView, FieldMetadataView,
    FunctionInfoView, FunctionMetadataView, Limits, ModuleMetadataView, TypeInfoView,
    TypeMetadataView, ValueView,
};
use crate::execution::fits;
use crate::floats::{negated, FloatModel, FloatOp};
use crate::integers::{held, low, quotient, remainder};
use crate::lexer::Span;
use crate::specialize::specialized;
use crate::text::{decimal, is_digit, is_letter, unsigned_value};
use crate::typed_eval;
use crate::typing::{declared_name, declared_span, find_declaration, Sort};
use vstd::arithmetic::power2::pow2;
use vstd::prelude::*;

verus! {

/// What evaluation works with and never changes.
pub ghost struct Setting {
    pub program: ProgramView,
    pub pointer_width: u32,
    pub limits: Limits,
    pub floats: FloatModel,
}

/// The result of a call, kept for the next call like it.
pub ghost struct EntryView {
    pub name: Seq<char>,
    pub arguments: Seq<ValueView>,
    pub value: ValueView,
}

/// Names with values: each name stands there once.
pub type Values = Seq<(Seq<char>, ValueView)>;

/// What evaluation changes: the steps taken, the memory used, what was
/// generated, the calls done, and the values of the globals so far.
pub ghost struct Progress {
    pub steps: u64,
    pub memory: u64,
    pub generated: Seq<DeclView>,
    pub done: Seq<EntryView>,
    pub globals: Values,
}

pub type Outcome<T> = (Result<T, ErrorView>, Progress);

pub open spec fn invalid(message: Seq<char>, span: Span) -> ErrorView {
    ErrorView::InvalidOperation { message, span }
}

pub open spec fn unsupported(message: Seq<char>, span: Span) -> ErrorView {
    ErrorView::Unsupported { message, span }
}

/// The last function of a name.
pub open spec fn function_named(s: Setting, name: Seq<char>) -> Option<FunctionDeclView> {
    let decls = s.program.declarations;
    match find_declaration(decls, decls.len() as int, name, Sort::Function) {
        Some(i) => Some(decls[i]->Function_0),
        None => None,
    }
}

/// The last struct of a name.
pub open spec fn struct_named(s: Setting, name: Seq<char>) -> Option<StructDeclView> {
    let decls = s.program.declarations;
    match find_declaration(decls, decls.len() as int, name, Sort::Struct) {
        Some(i) => Some(decls[i]->Struct_0),
        None => None,
    }
}

// ---------------------------------------------------------------------------
// Names with values
// ---------------------------------------------------------------------------

/// Where a name stands, from `i` on.
pub open spec fn place_of(values: Values, i: int, name: Seq<char>) -> Option<int>
    decreases values.len() - i,
{
    if i < 0 || i >= values.len() {
        None
    } else if values[i].0 == name {
        Some(i)
    } else {
        place_of(values, i + 1, name)
    }
}

pub open spec fn value_named(values: Values, name: Seq<char>) -> Option<ValueView> {
    match place_of(values, 0, name) {
        Some(i) => Some(values[i].1),
        None => None,
    }
}

/// The names with one of them given a value.
pub open spec fn with_value(values: Values, name: Seq<char>, value: ValueView) -> Values {
    match place_of(values, 0, name) {
        Some(i) => values.update(i, (name, value)),
        None => values.push((name, value)),
    }
}

// ---------------------------------------------------------------------------
// Values
// ---------------------------------------------------------------------------

/// Whether two values are equal. Floating-point numbers are compared as
/// numbers.
pub open spec fn equal_values(m: FloatModel, a: ValueView, b: ValueView) -> bool
    decreases a,
{
    match (a, b) {
        (ValueView::Unit, ValueView::Unit) => true,
        (ValueView::Integer(x), ValueView::Integer(y)) => x == y,
        (ValueView::Float(x), ValueView::Float(y)) => m(FloatOp::Equal, x, y).1,
        (ValueView::Bool(x), ValueView::Bool(y)) => x == y,
        (ValueView::String(x), ValueView::String(y)) => x == y,
        (ValueView::TypeInfo(x), ValueView::TypeInfo(y)) => x.name == y.name && x.identity
            == y.identity && x.size == y.size && x.alignment == y.alignment && equal_lists(
            m,
            x.fields,
            y.fields,
            0,
        ),
        (ValueView::FunctionInfo(x), ValueView::FunctionInfo(y)) => x.name == y.name
            && x.return_type == y.return_type && equal_lists(m, x.parameters, y.parameters, 0),
        (ValueView::ModuleInfo(x), ValueView::ModuleInfo(y)) => equal_lists(
            m,
            x.declarations,
            y.declarations,
            0,
        ),
        (ValueView::DeclarationInfo(x), ValueView::DeclarationInfo(y)) => x == y,
        (ValueView::FieldInfo(x), ValueView::FieldInfo(y)) => x == y,
        (ValueView::TypeRef(x), ValueView::TypeRef(y)) => x == y,
        (ValueView::Array(x), ValueView::Array(y)) => equal_lists(m, x, y, 0),
        (
            ValueView::Struct { name: x, fields: f },
            ValueView::Struct { name: y, fields: g },
        ) => x == y && equal_fields(m, f, g, 0),
        _ => false,
    }
}

/// Whether two lists of values are equal from `i` on.
pub open spec fn equal_lists(m: FloatModel, a: Seq<ValueView>, b: Seq<ValueView>, i: int) -> bool
    decreases a, a.len() - i,
{
    if a.len() != b.len() {
        false
    } else if i < 0 || i >= a.len() {
        true
    } else {
        equal_values(m, a[i], b[i]) && equal_lists(m, a, b, i + 1)
    }
}

/// Whether two lists of named values are equal from `i` on.
pub open spec fn equal_fields(m: FloatModel, a: Values, b: Values, i: int) -> bool
    decreases a, a.len() - i,
{
    if a.len() != b.len() {
        false
    } else if i < 0 || i >= a.len() {
        true
    } else {
        a[i].0 == b[i].0 && equal_values(m, a[i].1, b[i].1) && equal_fields(m, a, b, i + 1)
    }
}

/// Whether two values are the same as arguments of a call. Floating-point
/// numbers are the same where their shortest numerals are.
pub open spec fn same_argument(m: FloatModel, a: ValueView, b: ValueView) -> bool
    decreases a,
{
    match (a, b) {
        (ValueView::Float(x), ValueView::Float(y)) => m(FloatOp::Canonical, x, x).0 == m(
            FloatOp::Canonical,
            y,
            y,
        ).0,
        (ValueView::TypeInfo(x), ValueView::TypeInfo(y)) => x.name == y.name && x.identity
            == y.identity && x.size == y.size && x.alignment == y.alignment && same_arguments(
            m,
            x.fields,
            y.fields,
            0,
        ),
        (ValueView::FunctionInfo(x), ValueView::FunctionInfo(y)) => x.name == y.name
            && x.return_type == y.return_type && same_arguments(m, x.parameters, y.parameters, 0),
        (ValueView::ModuleInfo(x), ValueView::ModuleInfo(y)) => same_arguments(
            m,
            x.declarations,
            y.declarations,
            0,
        ),
        (ValueView::Array(x), ValueView::Array(y)) => same_arguments(m, x, y, 0),
        (
            ValueView::Struct { name: x, fields: f },
            ValueView::Struct { name: y, fields: g },
        ) => x == y && same_named_arguments(m, f, g, 0),
        (ValueView::Unit, ValueView::Unit) => true,
        (ValueView::Integer(x), ValueView::Integer(y)) => x == y,
        (ValueView::Bool(x), ValueView::Bool(y)) => x == y,
        (ValueView::String(x), ValueView::String(y)) => x == y,
        (ValueView::DeclarationInfo(x), ValueView::DeclarationInfo(y)) => x == y,
        (ValueView::FieldInfo(x), ValueView::FieldInfo(y)) => x == y,
        (ValueView::TypeRef(x), ValueView::TypeRef(y)) => x == y,
        _ => false,
    }
}

pub open spec fn same_arguments(m: FloatModel, a: Seq<ValueView>, b: Seq<ValueView>, i: int) -> bool
    decreases a, a.len() - i,
{
    if a.len() != b.len() {
        false
    } else if i < 0 || i >= a.len() {
        true
    } else {
        same_argument(m, a[i], b[i]) && same_arguments(m, a, b, i + 1)
    }
}

pub open spec fn same_named_arguments(m: FloatModel, a: Values, b: Values, i: int) -> bool
    decreases a, a.len() - i,
{
    if a.len() != b.len() {
        false
    } else if i < 0 || i >= a.len() {
        true
    } else {
        a[i].0 == b[i].0 && same_argument(m, a[i].1, b[i].1) && same_named_arguments(
            m,
            a,
            b,
            i + 1,
        )
    }
}

/// The value of the last of the first `n` calls that is like this one.
pub open spec fn done_before(
    m: FloatModel,
    done: Seq<EntryView>,
    n: int,
    name: Seq<char>,
    arguments: Seq<ValueView>,
) -> Option<ValueView>
    decreases n,
{
    if n <= 0 || n > done.len() {
        None
    } else if done[n - 1].name == name && same_arguments(m, done[n - 1].arguments, arguments, 0) {
        Some(done[n - 1].value)
    } else {
        done_before(m, done, n - 1, name, arguments)
    }
}

/// How a type is printed.
pub open spec fn displayed(ty: TypeView) -> Seq<char>
    decreases ty,
{
    match ty {
        TypeView::Unit => "unit"@,
        TypeView::Named(name) => name,
        TypeView::Pointer(inner) => "*"@ + displayed(*inner),
        TypeView::Slice(inner) => "[]"@ + displayed(*inner),
        TypeView::Array { length, element } => "["@ + decimal(length as nat) + "]"@ + displayed(
            *element,
        ),
        TypeView::Result { success, error } => "result("@ + displayed(*success) + ", "@
            + displayed(*error) + ")"@,
    }
}

/// The type that a generated declaration of a value has.
pub open spec fn type_of_value(value: ValueView) -> Option<TypeView>
    decreases value,
{
    match value {
        ValueView::Integer(_) => Some(TypeView::Named("i32"@)),
        ValueView::Float(_) => Some(TypeView::Named("f64"@)),
        ValueView::Bool(_) => Some(TypeView::Named("bool"@)),
        ValueView::Array(values) => {
            let element = if values.len() > 0 {
                match type_of_value(values[0]) {
                    Some(ty) => ty,
                    None => TypeView::Named("i32"@),
                }
            } else {
                TypeView::Named("i32"@)
            };
            Some(TypeView::Array { length: values.len() as u64, element: Box::new(element) })
        },
        ValueView::Struct { name, .. } => Some(TypeView::Named(name)),
        _ => None,
    }
}

/// The expression that stands for a value at run time.
pub open spec fn emitted(value: ValueView, span: Span, hint: Option<TypeView>) -> Result<
    ExprView,
    ErrorView,
>
    decreases value,
{
    match value {
        ValueView::Unit => Ok(ExprView::Integer { value: 0, span }),
        ValueView::Integer(n) => Ok(ExprView::Integer { value: n, span }),
        ValueView::Float(x) => Ok(ExprView::Float { value: x, span }),
        ValueView::Bool(b) => Ok(ExprView::Bool { value: b, span }),
        ValueView::Array(values) => {
            let ty = match hint {
                Some(ty) => ty,
                None => TypeView::Array {
                    length: values.len() as u64,
                    element: Box::new(TypeView::Named("i32"@)),
                },
            };
            let inner = match ty {
                TypeView::Array { element, .. } => Some(*element),
                _ => None,
            };
            match all_emitted(values, span, inner, 0, Seq::empty()) {
                Ok(elements) => Ok(ExprView::ArrayLiteral { ty, elements, span }),
                Err(error) => Err(error),
            }
        },
        ValueView::Struct { name, fields } => match fields_emitted(fields, span, 0, Seq::empty()) {
            Ok(inits) => Ok(ExprView::StructLiteral { name, fields: inits, span }),
            Err(error) => Err(error),
        },
        _ => Err(
            invalid("metadata and strings cannot be emitted as runtime declarations"@, span),
        ),
    }
}

/// The expressions of the values from `i` on, after those before it.
pub open spec fn all_emitted(
    values: Seq<ValueView>,
    span: Span,
    hint: Option<TypeView>,
    i: int,
    before: Seq<ExprView>,
) -> Result<Seq<ExprView>, ErrorView>
    decreases values, values.len() - i,
{
    if i < 0 || i >= values.len() {
        Ok(before)
    } else {
        match emitted(values[i], span, hint) {
            Ok(e) => all_emitted(values, span, hint, i + 1, before.push(e)),
            Err(error) => Err(error),
        }
    }
}

/// The initializers of the fields from `i` on, after those before it.
pub open spec fn fields_emitted(
    fields: Values,
    span: Span,
    i: int,
    before: Seq<StructInitView>,
) -> Result<Seq<StructInitView>, ErrorView>
    decreases fields, fields.len() - i,
{
    if i < 0 || i >= fields.len() {
        Ok(before)
    } else {
        match emitted(fields[i].1, span, None) {
            Ok(value) => fields_emitted(
                fields,
                span,
                i + 1,
                before.push(StructInitView { name: fields[i].0, value, span }),
            ),
            Err(error) => Err(error),
        }
    }
}

// ---------------------------------------------------------------------------
// Layout
// ---------------------------------------------------------------------------

pub open spec fn no_layout(span: Span) -> ErrorView {
    invalid("type has no layout"@, span)
}

/// The least multiple of `align` that is at least `value`; none for an
/// alignment of zero, nor where 64 bits do not hold it.
pub open spec fn aligned_to(value: nat, align: nat) -> Option<nat> {
    let multiple = ((((value + align - 1) as nat) / align) * align) as nat;
    if align == 0 || !fits(multiple) {
        None
    } else {
        Some(multiple)
    }
}

/// How many bits the integers of a name have.
pub open spec fn integer_bits(name: Seq<char>) -> Option<nat> {
    if name == "i8"@ || name == "u8"@ {
        Some(8)
    } else if name == "i16"@ || name == "u16"@ {
        Some(16)
    } else if name == "i32"@ || name == "u32"@ {
        Some(32)
    } else if name == "i64"@ || name == "u64"@ {
        Some(64)
    } else if name == "i128"@ || name == "u128"@ {
        Some(128)
    } else {
        None
    }
}

/// The size and alignment of a built-in type.
pub open spec fn builtin_layout(s: Setting, name: Seq<char>) -> Option<(nat, nat)> {
    let pointer = (s.pointer_width / 8) as nat;
    if name == "bool"@ {
        Some((1, 1))
    } else if name == "usize"@ || name == "isize"@ {
        Some((pointer, pointer))
    } else if integer_bits(name) is Some {
        Some((integer_bits(name)->Some_0 / 8, integer_bits(name)->Some_0 / 8))
    } else if name == "f32"@ {
        Some((4, 4))
    } else if name == "f64"@ {
        Some((8, 8))
    } else {
        None
    }
}

/// The size and alignment of what no struct is named: the unit type, and
/// integers of any number of bits. A name that starts as those of the integers
/// do counts as one of them, of 32 bits where the rest of it is no number.
pub open spec fn other_layout(name: Seq<char>) -> Option<(nat, nat)> {
    if name == "unit"@ {
        Some((0, 1))
    } else if name.len() > 0 && (name[0] == 'i' || name[0] == 'u') {
        let bits = match unsigned_value(name.drop_first()) {
            Some(n) => if fits(n) {
                n
            } else {
                32
            },
            None => 32,
        };
        let bytes = if bits / 8 == 0 {
            1
        } else {
            bits / 8
        };
        Some((bytes, bytes))
    } else {
        None
    }
}

/// The size and alignment of a type, where structs nest at most `depth` deep.
pub open spec fn layout(s: Setting, ty: TypeView, span: Span, depth: nat) -> Result<
    (nat, nat),
    ErrorView,
>
    decreases depth, 0int, 0int, ty,
{
    let pointer = (s.pointer_width / 8) as nat;
    match ty {
        TypeView::Unit => Ok((0, 1)),
        TypeView::Named(name) => match builtin_layout(s, name) {
            Some(found) => Ok(found),
            None => match struct_named(s, name) {
                None => match other_layout(name) {
                    Some(found) => Ok(found),
                    None => Err(ErrorView::Undefined { name, span }),
                },
                Some(structure) => if depth == 0 {
                    Err(no_layout(span))
                } else {
                    fields_layout(s, structure.fields, 0, 0, 1, span, (depth - 1) as nat)
                },
            },
        },
        TypeView::Pointer(_) => Ok((pointer, pointer)),
        TypeView::Array { length, element } => match layout(s, *element, span, depth) {
            Err(error) => Err(error),
            Ok((size, align)) => if fits(size * length as nat) {
                Ok((size * length as nat, align))
            } else {
                Err(no_layout(span))
            },
        },
        TypeView::Slice(_) => Ok((pointer * 2, pointer)),
        TypeView::Result { .. } => Err(
            unsupported("result layout reflection is not yet available"@, span),
        ),
    }
}

/// The fields from `i` on, after `size` bytes that are aligned to `align`.
pub open spec fn fields_layout(
    s: Setting,
    fields: Seq<StructFieldView>,
    i: int,
    size: nat,
    align: nat,
    span: Span,
    depth: nat,
) -> Result<(nat, nat), ErrorView>
    decreases depth, 1int, fields.len() - i, fields,
{
    if i < 0 || i >= fields.len() {
        match aligned_to(size, align) {
            Some(whole) => Ok((whole, align)),
            None => Err(no_layout(span)),
        }
    } else {
        match layout(s, fields[i].ty, fields[i].span, depth) {
            Err(error) => Err(error),
            Ok((own, own_align)) => match after_field(size, own, own_align) {
                None => Err(no_layout(span)),
                Some((_, end)) => fields_layout(
                    s,
                    fields,
                    i + 1,
                    end,
                    if own_align > align {
                        own_align
                    } else {
                        align
                    },
                    span,
                    depth,
                ),
            },
        }
    }
}

/// Where a field starts and ends that follows `size` bytes.
pub open spec fn after_field(size: nat, own: nat, own_align: nat) -> Option<(nat, nat)> {
    match aligned_to(size, own_align) {
        None => None,
        Some(start) => if fits(start + own) {
            Some((start, start + own))
        } else {
            None
        },
    }
}

/// How deep structs can nest in a program.
pub open spec fn nesting(s: Setting) -> nat {
    s.program.declarations.len()
}

pub open spec fn layout_of(s: Setting, ty: TypeView, span: Span) -> Result<(nat, nat), ErrorView> {
    layout(s, ty, span, nesting(s))
}

/// The offset of a field among the fields from `i` on, after `size` bytes.
pub open spec fn offset_among(
    s: Setting,
    fields: Seq<StructFieldView>,
    i: int,
    size: nat,
    name: Seq<char>,
    span: Span,
) -> Result<nat, ErrorView>
    decreases fields.len() - i,
{
    if i < 0 || i >= fields.len() {
        Err(ErrorView::Undefined { name, span })
    } else {
        match layout_of(s, fields[i].ty, span) {
            Err(error) => Err(error),
            Ok((own, own_align)) => match aligned_to(size, own_align) {
                None => Err(no_layout(span)),
                Some(start) => if fields[i].name == name {
                    Ok(start)
                } else if fits(start + own) {
                    offset_among(s, fields, i + 1, start + own, name, span)
                } else {
                    Err(no_layout(span))
                },
            },
        }
    }
}

pub open spec fn offset_of(s: Setting, ty: TypeView, field: Seq<char>, span: Span) -> Result<
    nat,
    ErrorView,
> {
    match ty {
        TypeView::Named(name) => match struct_named(s, name) {
            None => Err(ErrorView::Undefined { name, span }),
            Some(structure) => offset_among(s, structure.fields, 0, 0, field, span),
        },
        _ => Err(invalid("offset_of requires a struct type"@, span)),
    }
}

// ---------------------------------------------------------------------------
// Reflection
// ---------------------------------------------------------------------------

/// Whether a name is that of a built-in type.
pub open spec fn is_builtin(name: Seq<char>) -> bool {
    ||| name == "unit"@
    ||| name == "bool"@
    ||| name == "f32"@
    ||| name == "f64"@
    ||| name == "usize"@
    ||| name == "isize"@
    ||| name.len() > 1 && (name[0] == 'i' || name[0] == 'u') && (unsigned_value(
        name.drop_first(),
    ) matches Some(n) && n <= u16::MAX)
}

/// The type that an expression names.
pub open spec fn type_named(s: Setting, e: ExprView, span: Span) -> Result<TypeView, ErrorView> {
    match e {
        ExprView::Identifier { name, .. } => if struct_named(s, name) is Some || is_builtin(name) {
            Ok(TypeView::Named(name))
        } else {
            Err(ErrorView::Undefined { name, span })
        },
        ExprView::SizeOf { ty, .. } => Ok(ty),
        ExprView::AlignOf { ty, .. } => Ok(ty),
        _ => Err(invalid("expected a type name for compile-time reflection"@, span)),
    }
}

/// The fields from `i` on with their offsets, after `size` bytes.
pub open spec fn fields_reflected(
    s: Setting,
    fields: Seq<StructFieldView>,
    i: int,
    size: nat,
    before: Seq<ValueView>,
) -> Result<Seq<ValueView>, ErrorView>
    decreases fields.len() - i,
{
    if i < 0 || i >= fields.len() {
        Ok(before)
    } else {
        match layout_of(s, fields[i].ty, fields[i].span) {
            Err(error) => Err(error),
            Ok((own, own_align)) => match after_field(size, own, own_align) {
                None => Err(no_layout(fields[i].span)),
                Some((start, end)) => fields_reflected(
                    s,
                    fields,
                    i + 1,
                    end,
                    before.push(
                        ValueView::FieldInfo(
                            FieldMetadataView {
                                name: fields[i].name,
                                ty: displayed(fields[i].ty),
                                offset: start as u64,
                            },
                        ),
                    ),
                ),
            },
        }
    }
}

pub open spec fn type_reflected(s: Setting, e: ExprView, span: Span) -> Result<
    ValueView,
    ErrorView,
> {
    match type_named(s, e, span) {
        Err(error) => Err(error),
        Ok(ty) => match layout_of(s, ty, span) {
            Err(error) => Err(error),
            Ok((size, align)) => match (match ty {
                TypeView::Named(name) => match struct_named(s, name) {
                    Some(structure) => fields_reflected(s, structure.fields, 0, 0, Seq::empty()),
                    None => Ok(Seq::empty()),
                },
                _ => Ok(Seq::empty()),
            }) {
                Err(error) => Err(error),
                Ok(fields) => Ok(
                    ValueView::TypeInfo(
                        TypeMetadataView {
                            name: displayed(ty),
                            identity: "type:"@ + displayed(ty),
                            size: size as u64,
                            alignment: align as u64,
                            fields,
                        },
                    ),
                ),
            },
        },
    }
}

pub open spec fn kind_name(d: DeclView) -> Seq<char> {
    match d {
        DeclView::Function(_) => "function"@,
        DeclView::Variable(_) => "variable"@,
        DeclView::Struct(_) => "struct"@,
        DeclView::Comptime { .. } => "comptime"@,
    }
}

pub open spec fn is_exported(d: DeclView) -> bool {
    match d {
        DeclView::Function(f) => f.exported,
        DeclView::Variable(v) => v.exported,
        DeclView::Struct(s) => s.exported,
        DeclView::Comptime { .. } => false,
    }
}

/// The named ones among the first `n` declarations.
pub open spec fn module_reflected(decls: Seq<DeclView>, n: int) -> Seq<DeclarationInfoView>
    decreases n,
{
    if n <= 0 || n > decls.len() {
        Seq::empty()
    } else {
        let before = module_reflected(decls, n - 1);
        match declared_name(decls[n - 1]) {
            None => before,
            Some(name) => before.push(
                DeclarationInfoView {
                    name,
                    kind: kind_name(decls[n - 1]),
                    exported: is_exported(decls[n - 1]),
                },
            ),
        }
    }
}

/// Declarations as values.
pub open spec fn declaration_values(infos: Seq<DeclarationInfoView>) -> Seq<ValueView> {
    Seq::new(
        infos.len(),
        |i: int|
            ValueView::DeclarationInfo(
                DeclarationMetadataView {
                    name: infos[i].name,
                    kind: infos[i].kind,
                    exported: infos[i].exported,
                },
            ),
    )
}

/// Parameters as values.
pub open spec fn parameter_values(params: Seq<ParameterView>) -> Seq<ValueView> {
    Seq::new(
        params.len(),
        |i: int|
            ValueView::FieldInfo(
                FieldMetadataView {
                    name: params[i].name,
                    ty: displayed(params[i].ty),
                    offset: 0,
                },
            ),
    )
}

pub open spec fn function_reflected(s: Setting, name: Seq<char>, span: Span) -> Result<
    ValueView,
    ErrorView,
> {
    match function_named(s, name) {
        None => Err(ErrorView::Undefined { name, span }),
        Some(f) => Ok(
            ValueView::FunctionInfo(
                FunctionMetadataView {
                    name: f.name,
                    parameters: parameter_values(f.params),
                    return_type: displayed(f.return_type),
                },
            ),
        ),
    }
}

/// The part of a value that a field name selects.
pub open spec fn field_of(value: ValueView, name: Seq<char>, span: Span) -> Result<
    ValueView,
    ErrorView,
> {
    let undefined = Err(ErrorView::Undefined { name, span });
    match value {
        ValueView::Struct { fields, .. } => match value_named(fields, name) {
            Some(found) => Ok(found),
            None => undefined,
        },
        ValueView::TypeInfo(info) => if name == "name"@ {
            Ok(ValueView::String(info.name))
        } else if name == "identity"@ {
            Ok(ValueView::String(info.identity))
        } else if name == "size"@ {
            Ok(ValueView::Integer(info.size as i128))
        } else if name == "alignment"@ {
            Ok(ValueView::Integer(info.alignment as i128))
        } else if name == "fields"@ {
            Ok(ValueView::Array(info.fields))
        } else {
            undefined
        },
        ValueView::FieldInfo(info) => if name == "name"@ {
            Ok(ValueView::String(info.name))
        } else if name == "type"@ {
            Ok(ValueView::TypeRef(info.ty))
        } else if name == "offset"@ {
            Ok(ValueView::Integer(info.offset as i128))
        } else {
            undefined
        },
        ValueView::FunctionInfo(info) => if name == "name"@ {
            Ok(ValueView::String(info.name))
        } else if name == "parameters"@ {
            Ok(ValueView::Array(info.parameters))
        } else if name == "return_type"@ {
            Ok(ValueView::TypeRef(info.return_type))
        } else {
            undefined
        },
        ValueView::ModuleInfo(info) => if name == "declarations"@ {
            Ok(ValueView::Array(info.declarations))
        } else {
            undefined
        },
        ValueView::DeclarationInfo(info) => if name == "name"@ {
            Ok(ValueView::String(info.name))
        } else if name == "kind"@ {
            Ok(ValueView::String(info.kind))
        } else if name == "exported"@ {
            Ok(ValueView::Bool(info.exported))
        } else {
            undefined
        },
        _ => Err(
            invalid("field access requires a compile-time struct or metadata value"@, span),
        ),
    }
}

// ---------------------------------------------------------------------------
// Generated declarations
// ---------------------------------------------------------------------------

pub open spec fn is_identifier(name: Seq<char>) -> bool {
    &&& name.len() > 0
    &&& is_letter(name[0]) || name[0] == '_'
    &&& forall|i: int|
        1 <= i < name.len() ==> is_letter(#[trigger] name[i]) || is_digit(name[i]) || name[i] == '_'
}

/// The declaration of a constant, or of a function that returns it.
pub open spec fn generated_declaration(
    constant: bool,
    name: Seq<char>,
    ty: TypeView,
    value: ExprView,
    span: Span,
) -> DeclView {
    if constant {
        DeclView::Variable(
            VariableDeclView {
                name,
                kind: VariableKind::Immutable,
                ty: Some(ty),
                value,
                span,
                exported: false,
            },
        )
    } else {
        DeclView::Function(
            FunctionDeclView {
                name,
                generic_params: Seq::empty(),
                params: Seq::empty(),
                return_type: ty,
                body: BlockView {
                    statements: seq![StmtView::Return { value: Some(value), span }],
                    span,
                },
                span,
                is_extern: false,
                abi: None,
                link_name: None,
                exported: false,
            },
        )
    }
}

/// The first declaration from `i` on that declares the name.
pub open spec fn declaring(decls: Seq<DeclView>, i: int, name: Seq<char>) -> Option<int>
    decreases decls.len() - i,
{
    if i < 0 || i >= decls.len() {
        None
    } else if declared_name(decls[i]) == Some(name) {
        Some(i)
    } else {
        declaring(decls, i + 1, name)
    }
}

/// Whether two emitted expressions are equal. Floating-point numbers are
/// compared as numbers.
pub open spec fn equal_literals(m: FloatModel, a: ExprView, b: ExprView) -> bool
    decreases a,
{
    match (a, b) {
        (
            ExprView::Integer { value: x, span: s },
            ExprView::Integer { value: y, span: t },
        ) => x == y && s == t,
        (ExprView::Float { value: x, span: s }, ExprView::Float { value: y, span: t }) => m(
            FloatOp::Equal,
            x,
            y,
        ).1 && s == t,
        (ExprView::Bool { value: x, span: s }, ExprView::Bool { value: y, span: t }) => x == y && s
            == t,
        (
            ExprView::ArrayLiteral { ty: p, elements: x, span: s },
            ExprView::ArrayLiteral { ty: q, elements: y, span: t },
        ) => p == q && s == t && equal_elements(m, x, y, 0),
        (
            ExprView::StructLiteral { name: p, fields: x, span: s },
            ExprView::StructLiteral { name: q, fields: y, span: t },
        ) => p == q && s == t && equal_inits(m, x, y, 0),
        _ => false,
    }
}

pub open spec fn equal_elements(m: FloatModel, a: Seq<ExprView>, b: Seq<ExprView>, i: int) -> bool
    decreases a, a.len() - i,
{
    if a.len() != b.len() {
        false
    } else if i < 0 || i >= a.len() {
        true
    } else {
        equal_literals(m, a[i], b[i]) && equal_elements(m, a, b, i + 1)
    }
}

pub open spec fn equal_inits(
    m: FloatModel,
    a: Seq<StructInitView>,
    b: Seq<StructInitView>,
    i: int,
) -> bool
    decreases a, a.len() - i,
{
    if a.len() != b.len() {
        false
    } else if i < 0 || i >= a.len() {
        true
    } else {
        a[i].name == b[i].name && a[i].span == b[i].span && equal_literals(
            m,
            a[i].value,
            b[i].value,
        ) && equal_inits(m, a, b, i + 1)
    }
}

/// What a generated declaration consists of.
pub ghost struct GeneratedParts {
    pub constant: bool,
    pub name: Seq<char>,
    pub ty: TypeView,
    pub value: ExprView,
    pub span: Span,
}

/// The parts of a declaration of one of the two generated forms.
pub open spec fn generated_parts(d: DeclView) -> Option<GeneratedParts> {
    match d {
        DeclView::Variable(v) => match v.ty {
            Some(ty) => Some(
                GeneratedParts { constant: true, name: v.name, ty, value: v.value, span: v.span },
            ),
            None => None,
        },
        DeclView::Function(f) => if f.body.statements.len() == 1 {
            match f.body.statements[0] {
                StmtView::Return { value, .. } => match value {
                    Some(e) => Some(
                        GeneratedParts {
                            constant: false,
                            name: f.name,
                            ty: f.return_type,
                            value: e,
                            span: f.span,
                        },
                    ),
                    None => None,
                },
                _ => None,
            }
        } else {
            None
        },
        _ => None,
    }
}

/// Whether what was generated under a name is what is generated now.
pub open spec fn generated_again(
    m: FloatModel,
    existing: DeclView,
    constant: bool,
    ty: TypeView,
    value: ExprView,
    span: Span,
) -> bool {
    match generated_parts(existing) {
        Some(p) => p.constant == constant && p.ty == ty && p.span == span && equal_literals(
            m,
            p.value,
            value,
        ),
        None => false,
    }
}

/// Generates a declaration of a value under a name.
pub open spec fn generate(
    s: Setting,
    p: Progress,
    constant: bool,
    name: Seq<char>,
    value: ValueView,
    span: Span,
) -> Outcome<()> {
    if !is_identifier(name) {
        (Err(invalid("generated declaration name is not a valid identifier"@, span)), p)
    } else if p.generated.len() >= s.limits.output {
        (Err(invalid("compile-time generated output exceeded the output limit"@, span)), p)
    } else {
        match type_of_value(value) {
            None => (
                Err(
                    invalid("only ordinary scalar values can be generated as declarations"@, span),
                ),
                p,
            ),
            Some(ty) => match emitted(value, span, Some(ty)) {
                Err(error) => (Err(error), p),
                Ok(e) => match declaring(p.generated, 0, name) {
                    Some(i) => if generated_again(
                        s.floats,
                        p.generated[i],
                        constant,
                        ty,
                        e,
                        span,
                    ) {
                        (Ok(()), p)
                    } else {
                        (
                            Err(
                                invalid(
                                    "generated declaration `"@ + name
                                        + "` conflicts with an existing declaration"@,
                                    span,
                                ),
                            ),
                            p,
                        )
                    },
                    None => (
                        Ok(()),
                        Progress {
                            generated: p.generated.push(
                                generated_declaration(constant, name, ty, e, span),
                            ),
                            ..p
                        },
                    ),
                },
            },
        }
    }
}

// ---------------------------------------------------------------------------
// Operators
// ---------------------------------------------------------------------------

pub open spec fn wide(n: int) -> ValueView {
    ValueView::Integer(held(n, 128, true) as i128)
}

pub open spec fn unary_value(op: UnaryOp, value: ValueView, span: Span) -> Result<
    ValueView,
    ErrorView,
> {
    match (op, value) {
        (UnaryOp::Negate, ValueView::Integer(n)) => Ok(wide(-n)),
        (UnaryOp::Negate, ValueView::Float(x)) => Ok(ValueView::Float(negated(x))),
        (UnaryOp::Not, ValueView::Bool(b)) => Ok(ValueView::Bool(!b)),
        (UnaryOp::BitwiseNot, ValueView::Bool(b)) => Ok(ValueView::Bool(!b)),
        (UnaryOp::BitwiseNot, ValueView::Integer(n)) => Ok(wide(-1 - n)),
        _ => Err(
            unsupported(
                "pointers and runtime-only operations are unavailable at compile time"@,
                span,
            ),
        ),
    }
}

/// What an operator makes of two integers. Shifts go by the low seven bits of
/// the amount.
pub open spec fn integer_value(op: BinaryOp, a: int, b: int, span: Span) -> Result<
    ValueView,
    ErrorView,
> {
    match op {
        BinaryOp::Add => Ok(wide(a + b)),
        BinaryOp::Subtract => Ok(wide(a - b)),
        BinaryOp::Multiply => Ok(wide(a * b)),
        BinaryOp::BitwiseAnd => Ok(wide(((low(a, 128) as u128) & (low(b, 128) as u128)) as int)),
        BinaryOp::BitwiseOr => Ok(wide(((low(a, 128) as u128) | (low(b, 128) as u128)) as int)),
        BinaryOp::BitwiseXor => Ok(wide(((low(a, 128) as u128) ^ (low(b, 128) as u128)) as int)),
        BinaryOp::Divide => if b == 0 {
            Err(ErrorView::DivisionByZero { span })
        } else {
            Ok(wide(quotient(a, b)))
        },
        BinaryOp::Modulo => if b == 0 {
            Err(ErrorView::DivisionByZero { span })
        } else {
            Ok(wide(remainder(a, b)))
        },
        BinaryOp::ShiftLeft => Ok(wide(low(a, 128) * pow2(low(b, 7) as nat))),
        BinaryOp::ShiftRight => Ok(wide(a / (pow2(low(b, 7) as nat) as int))),
        BinaryOp::Less => Ok(ValueView::Bool(a < b)),
        BinaryOp::LessEqual => Ok(ValueView::Bool(a <= b)),
        BinaryOp::Greater => Ok(ValueView::Bool(a > b)),
        _ => Ok(ValueView::Bool(a >= b)),
    }
}

pub open spec fn orders(op: BinaryOp) -> bool {
    op == BinaryOp::Less || op == BinaryOp::LessEqual || op == BinaryOp::Greater || op
        == BinaryOp::GreaterEqual
}

/// What an operator other than `&&` and `||` makes of two values.
pub open spec fn binary_value(
    m: FloatModel,
    op: BinaryOp,
    a: ValueView,
    b: ValueView,
    span: Span,
) -> Result<ValueView, ErrorView> {
    match op {
        BinaryOp::Equal => Ok(ValueView::Bool(equal_values(m, a, b))),
        BinaryOp::NotEqual => Ok(ValueView::Bool(!equal_values(m, a, b))),
        _ => match (a, b) {
            (ValueView::Integer(x), ValueView::Integer(y)) => integer_value(
                op,
                x as int,
                y as int,
                span,
            ),
            (ValueView::String(x), ValueView::String(y)) => if op == BinaryOp::Add {
                Ok(ValueView::String(x + y))
            } else if orders(op) {
                Err(invalid("ordered integer operands required"@, span))
            } else {
                Err(invalid("integer operands required"@, span))
            },
            _ => if orders(op) {
                Err(invalid("ordered integer operands required"@, span))
            } else {
                Err(invalid("integer operands required"@, span))
            },
        },
    }
}

// ---------------------------------------------------------------------------
// Evaluation
// ---------------------------------------------------------------------------

/// One more step.
pub open spec fn ticked(p: Progress) -> Progress {
    Progress {
        steps: if p.steps == u64::MAX {
            p.steps
        } else {
            (p.steps + 1) as u64
        },
        ..p
    }
}

/// More memory used.
pub open spec fn consumed(p: Progress, amount: nat) -> Progress {
    Progress {
        memory: if p.memory + amount > u64::MAX {
            u64::MAX
        } else {
            (p.memory + amount) as u64
        },
        ..p
    }
}

pub open spec fn memory_exceeded(span: Span) -> ErrorView {
    invalid("compile-time evaluation exceeded the memory limit"@, span)
}

/// Whether the name stands for something that the compiler provides.
pub open spec fn is_provided(name: Seq<char>) -> bool {
    ||| name == "validate_type"@
    ||| name == "reflect_type"@
    ||| name == "validate"@
    ||| name == "compile_error"@
    ||| name == "length"@
    ||| name == "reflect_module"@
    ||| name == "reflect_function"@
    ||| name == "generate_function"@
    ||| name == "generate_constant"@
}

/// The first text among values from `i` on.
pub open spec fn first_text(values: Seq<ValueView>, i: int) -> Option<Seq<char>>
    decreases values.len() - i,
{
    if i < 0 || i >= values.len() {
        None
    } else {
        match values[i] {
            ValueView::String(text) => Some(text),
            _ => first_text(values, i + 1),
        }
    }
}

/// What a check gives, by the values of its arguments.
pub open spec fn validated(always_fails: bool, values: Seq<ValueView>, span: Span) -> Result<
    ValueView,
    ErrorView,
> {
    if !always_fails && values.len() > 0 && values[0] == ValueView::Bool(true) {
        Ok(ValueView::Unit)
    } else {
        Err(
            invalid(
                match first_text(values, 0) {
                    Some(text) => text,
                    None => "compile-time validation failed"@,
                },
                span,
            ),
        )
    }
}

pub open spec fn type_validated(s: Setting, e: ExprView) -> Result<ValueView, ErrorView> {
    match e {
        ExprView::Identifier { name, span } => if is_builtin(name) || struct_named(
            s,
            name,
        ) is Some {
            Ok(ValueView::Unit)
        } else {
            Err(ErrorView::Undefined { name, span })
        },
        _ => Err(invalid("validate_type expects a type name"@, e.span())),
    }
}

pub open spec fn length_of(value: ValueView, span: Span) -> Result<ValueView, ErrorView> {
    match value {
        ValueView::Array(values) => Ok(ValueView::Integer(values.len() as i128)),
        ValueView::String(text) => Ok(
            ValueView::Integer(vstd::utf8::encode_utf8(text).len() as i128),
        ),
        _ => Err(invalid("length expects an array or string"@, span)),
    }
}

/// The element of an array that an index selects.
pub open spec fn element_of(values: Seq<ValueView>, i: i128, span: Span) -> Result<
    ValueView,
    ErrorView,
> {
    if 0 <= i < values.len() {
        Ok(values[i as int])
    } else {
        Err(invalid("compile-time array index is out of bounds"@, span))
    }
}

/// The value of an expression. `depth` more calls may be active.
pub open spec fn evaluated(
    s: Setting,
    p: Progress,
    env: Values,
    e: ExprView,
    depth: nat,
) -> Outcome<
    ValueView,
>
    decreases depth, 2int, e, 1int,
{
    let q = ticked(p);
    if p.steps >= s.limits.steps {
        (Err(ErrorView::StepLimit { span: e.span() }), q)
    } else {
        match e {
            ExprView::Integer { value, .. } => (Ok(ValueView::Integer(value)), q),
            ExprView::Float { value, .. } => (Ok(ValueView::Float(value)), q),
            ExprView::String { value, .. } => (Ok(ValueView::String(value)), q),
            ExprView::Bool { value, .. } => (Ok(ValueView::Bool(value)), q),
            ExprView::ArrayLiteral { elements, span, .. } => {
                let used = consumed(q, elements.len());
                if used.memory > s.limits.memory {
                    (Err(memory_exceeded(span)), used)
                } else {
                    match all_evaluated(s, used, env, elements, 0, Seq::empty(), depth) {
                        (Err(error), after) => (Err(error), after),
                        (Ok(values), after) => (Ok(ValueView::Array(values)), after),
                    }
                }
            },
            ExprView::StructLiteral { name, fields, span } => {
                let used = consumed(q, fields.len());
                if used.memory > s.limits.memory {
                    (Err(memory_exceeded(span)), used)
                } else {
                    match inits_evaluated(s, used, env, fields, 0, Seq::empty(), depth) {
                        (Err(error), after) => (Err(error), after),
                        (Ok(values), after) => (
                            Ok(ValueView::Struct { name, fields: values }),
                            after,
                        ),
                    }
                }
            },
            ExprView::Identifier { name, span } => match value_named(env, name) {
                Some(value) => (Ok(value), q),
                None => match value_named(q.globals, name) {
                    Some(value) => (Ok(value), q),
                    None => (Err(ErrorView::Undefined { name, span }), q),
                },
            },
            ExprView::Comptime { expression, .. } => evaluated(s, q, env, *expression, depth),
            ExprView::SizeOf { ty, span } => match layout_of(s, ty, span) {
                Ok((size, _)) => (Ok(ValueView::Integer(size as i128)), q),
                Err(error) => (Err(error), q),
            },
            ExprView::AlignOf { ty, span } => match layout_of(s, ty, span) {
                Ok((_, align)) => (Ok(ValueView::Integer(align as i128)), q),
                Err(error) => (Err(error), q),
            },
            ExprView::OffsetOf { ty, field, span } => match offset_of(s, ty, field, span) {
                Ok(offset) => (Ok(ValueView::Integer(offset as i128)), q),
                Err(error) => (Err(error), q),
            },
            ExprView::Unary { operator, operand, span } => match evaluated(
                s,
                q,
                env,
                *operand,
                depth,
            ) {
                (Err(error), after) => (Err(error), after),
                (Ok(x), after) => (unary_value(operator, x, span), after),
            },
            ExprView::Binary { left, operator, right, span } => match evaluated(
                s,
                q,
                env,
                *left,
                depth,
            ) {
                (Err(error), after) => (Err(error), after),
                (Ok(a), after) => {
                    if operator == BinaryOp::LogicalAnd || operator == BinaryOp::LogicalOr {
                        match a {
                            ValueView::Bool(b) => if b == (operator == BinaryOp::LogicalOr) {
                                (Ok(ValueView::Bool(b)), after)
                            } else {
                                evaluated(s, after, env, *right, depth)
                            },
                            _ => (
                                Err(invalid("logical operators require booleans"@, span)),
                                after,
                            ),
                        }
                    } else {
                        match evaluated(s, after, env, *right, depth) {
                            (Err(error), last) => (Err(error), last),
                            (Ok(b), last) => (
                                binary_value(s.floats, operator, a, b, span),
                                last,
                            ),
                        }
                    }
                },
            },
            ExprView::Call { callee, arguments, span } => match *callee {
                ExprView::Identifier { name, .. } => if is_provided(name) {
                    provided(s, q, env, name, arguments, span, depth)
                } else {
                    match all_evaluated(s, q, env, arguments, 0, Seq::empty(), depth) {
                        (Err(error), after) => (Err(error), after),
                        (Ok(values), after) => called(s, after, name, values, span, depth),
                    }
                },
                _ => (
                    Err(unsupported("indirect compile-time calls are unavailable"@, span)),
                    q,
                ),
            },
            ExprView::Field { base, name, span } => match evaluated(s, q, env, *base, depth) {
                (Err(error), after) => (Err(error), after),
                (Ok(value), after) => (field_of(value, name, span), after),
            },
            ExprView::Index { .. } => indexed(s, q, env, e, depth),
            ExprView::UncheckedIndex { .. } => indexed(s, q, env, e, depth),
            ExprView::Null { span } => (
                Err(
                    unsupported(
                        "null/result propagation is not available in compile-time evaluation"@,
                        span,
                    ),
                ),
                q,
            ),
            ExprView::Propagate { span, .. } => (
                Err(
                    unsupported(
                        "null/result propagation is not available in compile-time evaluation"@,
                        span,
                    ),
                ),
                q,
            ),
        }
    }
}

/// An element of an array.
pub open spec fn indexed(s: Setting, p: Progress, env: Values, e: ExprView, depth: nat) -> Outcome<
    ValueView,
>
    decreases depth, 2int, e, 0int,
{
    match e {
        ExprView::Index { base, index, span } => match evaluated(s, p, env, *base, depth) {
            (Err(error), after) => (Err(error), after),
            (Ok(whole), after) => match whole {
                ValueView::Array(values) => match evaluated(s, after, env, *index, depth) {
                    (Err(error), last) => (Err(error), last),
                    (Ok(i), last) => (element_at(values, i, index.span(), span), last),
                },
                _ => (Err(no_array(span)), after),
            },
        },
        ExprView::UncheckedIndex { base, index, span } => match evaluated(
            s,
            p,
            env,
            *base,
            depth,
        ) {
            (Err(error), after) => (Err(error), after),
            (Ok(whole), after) => match whole {
                ValueView::Array(values) => match evaluated(s, after, env, *index, depth) {
                    (Err(error), last) => (Err(error), last),
                    (Ok(i), last) => (element_at(values, i, index.span(), span), last),
                },
                _ => (Err(no_array(span)), after),
            },
        },
        _ => (Err(arbitrary()), p),
    }
}

pub open spec fn no_array(span: Span) -> ErrorView {
    invalid("indexing requires a compile-time array"@, span)
}

/// The element of an array that a value selects.
pub open spec fn element_at(
    values: Seq<ValueView>,
    index: ValueView,
    index_span: Span,
    span: Span,
) -> Result<ValueView, ErrorView> {
    match index {
        ValueView::Integer(i) => element_of(values, i, span),
        _ => Err(invalid("array index must be an integer"@, index_span)),
    }
}

/// What the compiler itself provides.
pub open spec fn provided(
    s: Setting,
    p: Progress,
    env: Values,
    name: Seq<char>,
    arguments: Seq<ExprView>,
    span: Span,
    depth: nat,
) -> Outcome<ValueView>
    decreases depth, 2int, arguments, arguments.len() + 1,
{
    if name == "validate_type"@ {
        if arguments.len() != 1 {
            (Err(invalid("validate_type expects one type argument"@, span)), p)
        } else {
            (type_validated(s, arguments[0]), p)
        }
    } else if name == "reflect_type"@ {
        if arguments.len() != 1 {
            (Err(invalid("reflect_type expects one type argument"@, span)), p)
        } else {
            (type_reflected(s, arguments[0], span), p)
        }
    } else if name == "validate"@ || name == "compile_error"@ {
        match all_evaluated(s, p, env, arguments, 0, Seq::empty(), depth) {
            (Err(error), after) => (Err(error), after),
            (Ok(values), after) => (validated(name == "compile_error"@, values, span), after),
        }
    } else if name == "length"@ {
        if arguments.len() != 1 {
            (Err(invalid("length expects one argument"@, span)), p)
        } else {
            match evaluated(s, p, env, arguments[0], depth) {
                (Err(error), after) => (Err(error), after),
                (Ok(value), after) => (length_of(value, span), after),
            }
        }
    } else if name == "reflect_module"@ {
        if arguments.len() != 0 {
            (Err(invalid("reflect_module expects no arguments"@, span)), p)
        } else {
            let decls = s.program.declarations;
            (
                Ok(
                    ValueView::ModuleInfo(
                        ModuleMetadataView {
                            declarations: declaration_values(
                                module_reflected(decls, decls.len() as int),
                            ),
                        },
                    ),
                ),
                p,
            )
        }
    } else if name == "reflect_function"@ {
        if arguments.len() != 1 {
            (Err(invalid("reflect_function expects one function name"@, span)), p)
        } else {
            match evaluated(s, p, env, arguments[0], depth) {
                (Err(error), after) => (Err(error), after),
                (Ok(value), after) => match value {
                    ValueView::String(text) => (function_reflected(s, text, span), after),
                    _ => (Err(invalid("reflect_function expects a string name"@, span)), after),
                },
            }
        }
    } else {
        if arguments.len() != 2 {
            (Err(invalid(name + " expects a name and a value"@, span)), p)
        } else {
            match evaluated(s, p, env, arguments[0], depth) {
                (Err(error), after) => (Err(error), after),
                (Ok(first), after) => match first {
                    ValueView::String(text) => match evaluated(
                        s,
                        after,
                        env,
                        arguments[1],
                        depth,
                    ) {
                        (Err(error), last) => (Err(error), last),
                        (Ok(value), last) => match generate(
                            s,
                            last,
                            name == "generate_constant"@,
                            text,
                            value,
                            span,
                        ) {
                            (Err(error), end) => (Err(error), end),
                            (Ok(_), end) => (Ok(ValueView::Unit), end),
                        },
                    },
                    _ => (
                        Err(invalid("generated declaration name must be a string"@, span)),
                        after,
                    ),
                },
            }
        }
    }
}

/// The values of expressions from `i` on, after those before it.
pub open spec fn all_evaluated(
    s: Setting,
    p: Progress,
    env: Values,
    es: Seq<ExprView>,
    i: int,
    before: Seq<ValueView>,
    depth: nat,
) -> Outcome<Seq<ValueView>>
    decreases depth, 2int, es, es.len() - i,
{
    if i < 0 || i >= es.len() {
        (Ok(before), p)
    } else {
        match evaluated(s, p, env, es[i], depth) {
            (Err(error), after) => (Err(error), after),
            (Ok(value), after) => all_evaluated(
                s,
                after,
                env,
                es,
                i + 1,
                before.push(value),
                depth,
            ),
        }
    }
}

/// The values of initializers from `i` on, after those before it.
pub open spec fn inits_evaluated(
    s: Setting,
    p: Progress,
    env: Values,
    inits: Seq<StructInitView>,
    i: int,
    before: Values,
    depth: nat,
) -> Outcome<Values>
    decreases depth, 2int, inits, inits.len() - i,
{
    if i < 0 || i >= inits.len() {
        (Ok(before), p)
    } else {
        match evaluated(s, p, env, inits[i].value, depth) {
            (Err(error), after) => (Err(error), after),
            (Ok(value), after) => inits_evaluated(
                s,
                after,
                env,
                inits,
                i + 1,
                before.push((inits[i].name, value)),
                depth,
            ),
        }
    }
}

/// The parameters from `i` on, bound to their arguments.
pub open spec fn parameters_bound(
    params: Seq<ParameterView>,
    values: Seq<ValueView>,
    i: int,
    env: Values,
) -> Values
    decreases params.len() - i,
{
    if i < 0 || i >= params.len() || i >= values.len() {
        env
    } else {
        parameters_bound(params, values, i + 1, with_value(env, params[i].name, values[i]))
    }
}

/// How a block ends.
pub ghost enum Ending {
    Normal,
    Return(ValueView),
    Break,
    Continue,
}

/// The progress with a call done.
pub open spec fn noted(
    p: Progress,
    name: Seq<char>,
    arguments: Seq<ValueView>,
    value: ValueView,
) -> Progress {
    Progress { done: p.done.push(EntryView { name, arguments, value }), ..p }
}

/// The value of a call of a declared function. A call like one that was done
/// before gives what that one gave.
pub open spec fn called(
    s: Setting,
    p: Progress,
    name: Seq<char>,
    values: Seq<ValueView>,
    span: Span,
    depth: nat,
) -> Outcome<ValueView>
    decreases depth, 1int, values, 0int,
{
    match function_named(s, name) {
        None => (Err(ErrorView::Undefined { name, span }), p),
        Some(f) => if f.is_extern {
            (Err(unsupported("FFI calls are runtime-only in compile-time context"@, span)), p)
        } else if values.len() != f.params.len() {
            (
                Err(
                    invalid(
                        "compile-time call `"@ + name + "` has the wrong number of arguments"@,
                        span,
                    ),
                ),
                p,
            )
        } else {
            match done_before(s.floats, p.done, p.done.len() as int, name, values) {
                Some(value) => (Ok(value), p),
                None => if depth == 0 {
                    (Err(ErrorView::RecursionLimit { span }), p)
                } else {
                    let env = parameters_bound(f.params, values, 0, Seq::empty());
                    match block_run(s, p, env, f.body, (depth - 1) as nat) {
                        (Err(error), after) => (Err(error), after),
                        (Ok((Ending::Return(value), _)), after) => (
                            Ok(value),
                            noted(after, name, values, value),
                        ),
                        (Ok((Ending::Normal, _)), after) => (
                            Ok(ValueView::Unit),
                            noted(after, name, values, ValueView::Unit),
                        ),
                        (Ok(_), after) => (
                            Err(
                                invalid(
                                    "break or continue escaped a compile-time function"@,
                                    span,
                                ),
                            ),
                            after,
                        ),
                    }
                },
            }
        },
    }
}

/// Runs a block. Its variables stay after it.
pub open spec fn block_run(
    s: Setting,
    p: Progress,
    env: Values,
    b: BlockView,
    depth: nat,
) -> Outcome<
    (Ending, Values),
>
    decreases depth, 3int, b, 0int,
{
    statements_run(s, p, env, b.statements, 0, depth)
}

/// Runs the statements from `i` on.
pub open spec fn statements_run(
    s: Setting,
    p: Progress,
    env: Values,
    ss: Seq<StmtView>,
    i: int,
    depth: nat,
) -> Outcome<(Ending, Values)>
    decreases depth, 3int, ss, ss.len() - i,
{
    if i < 0 || i >= ss.len() {
        (Ok((Ending::Normal, env)), p)
    } else {
        match statement_run(s, p, env, ss[i], depth) {
            (Err(error), after) => (Err(error), after),
            (Ok((ending, locals)), after) => match ending {
                Ending::Normal => statements_run(s, after, locals, ss, i + 1, depth),
                _ => (Ok((ending, locals)), after),
            },
        }
    }
}

pub open spec fn statement_run(
    s: Setting,
    p: Progress,
    env: Values,
    st: StmtView,
    depth: nat,
) -> Outcome<
    (Ending, Values),
>
    decreases depth, 3int, st, 0int,
{
    match st {
        StmtView::Return { value, .. } => match value {
            None => (Ok((Ending::Return(ValueView::Unit), env)), p),
            Some(e) => match evaluated(s, p, env, e, depth) {
                (Err(error), after) => (Err(error), after),
                (Ok(x), after) => (Ok((Ending::Return(x), env)), after),
            },
        },
        StmtView::Variable(v) => match evaluated(s, p, env, v.value, depth) {
            (Err(error), after) => (Err(error), after),
            (Ok(x), after) => (Ok((Ending::Normal, with_value(env, v.name, x))), after),
        },
        StmtView::Expr { expression, .. } => match evaluated(s, p, env, expression, depth) {
            (Err(error), after) => (Err(error), after),
            (Ok(_), after) => (Ok((Ending::Normal, env)), after),
        },
        StmtView::If { condition, then_branch, else_branch, .. } => match evaluated(
            s,
            p,
            env,
            condition,
            depth,
        ) {
            (Err(error), after) => (Err(error), after),
            (Ok(test), after) => if test == ValueView::Bool(true) {
                block_run(s, after, env, then_branch, depth)
            } else {
                match else_branch {
                    Some(branch) => block_run(s, after, env, branch, depth),
                    None => (Ok((Ending::Normal, env)), after),
                }
            },
        },
        StmtView::While { condition, body, span } => loop_run(
            s,
            p,
            env,
            condition,
            body,
            span,
            depth,
            s.limits.steps as nat,
        ),
        StmtView::Assignment { target, value, span } => match target {
            ExprView::Identifier { name, .. } => match evaluated(s, p, env, value, depth) {
                (Err(error), after) => (Err(error), after),
                (Ok(x), after) => if value_named(env, name) is None {
                    (Err(ErrorView::Undefined { name, span }), after)
                } else {
                    (Ok((Ending::Normal, with_value(env, name, x))), after)
                },
            },
            _ => (
                Err(unsupported("complex assignment is unavailable at compile time"@, span)),
                p,
            ),
        },
        StmtView::Break { .. } => (Ok((Ending::Break, env)), p),
        StmtView::Continue { .. } => (Ok((Ending::Continue, env)), p),
        StmtView::Defer { span, .. } => (
            Err(unsupported("defer is runtime-only in compile-time functions"@, span)),
            p,
        ),
    }
}

/// Runs a loop, at most `rounds` times.
pub open spec fn loop_run(
    s: Setting,
    p: Progress,
    env: Values,
    condition: ExprView,
    body: BlockView,
    span: Span,
    depth: nat,
    rounds: nat,
) -> Outcome<(Ending, Values)>
    decreases depth, 3int, body, rounds + 1,
{
    match evaluated(s, p, env, condition, depth) {
        (Err(error), after) => (Err(error), after),
        (Ok(test), after) => if test != ValueView::Bool(true) {
            (Ok((Ending::Normal, env)), after)
        } else if rounds == 0 {
            (Err(ErrorView::StepLimit { span }), after)
        } else {
            match block_run(s, after, env, body, depth) {
                (Err(error), last) => (Err(error), last),
                (Ok((ending, locals)), last) => match ending {
                    Ending::Break => (Ok((Ending::Normal, locals)), last),
                    Ending::Return(_) => (Ok((ending, locals)), last),
                    _ => loop_run(
                        s,
                        last,
                        locals,
                        condition,
                        body,
                        span,
                        depth,
                        (rounds - 1) as nat,
                    ),
                },
            }
        },
    }
}

// ---------------------------------------------------------------------------
// Expansion
// ---------------------------------------------------------------------------

/// An expression evaluated on its own.
pub open spec fn value_of(s: Setting, p: Progress, e: ExprView) -> Outcome<ValueView> {
    evaluated(s, p, Seq::empty(), e, s.limits.recursion as nat)
}

/// An expression with what is marked for compile time worked out.
pub open spec fn expanded(s: Setting, p: Progress, e: ExprView) -> Outcome<ExprView>
    decreases e, 0int,
{
    match e {
        ExprView::Comptime { expression, span } => match value_of(s, p, *expression) {
            (Err(error), after) => (Err(error), after),
            (Ok(value), after) => (emitted(value, span, None), after),
        },
        ExprView::Binary { left, operator, right, span } => match expanded(s, p, *left) {
            (Err(error), after) => (Err(error), after),
            (Ok(a), after) => match expanded(s, after, *right) {
                (Err(error), last) => (Err(error), last),
                (Ok(b), last) => (
                    Ok(
                        ExprView::Binary {
                            left: Box::new(a),
                            operator,
                            right: Box::new(b),
                            span,
                        },
                    ),
                    last,
                ),
            },
        },
        ExprView::Unary { operator, operand, span } => match expanded(s, p, *operand) {
            (Err(error), after) => (Err(error), after),
            (Ok(x), after) => (
                Ok(ExprView::Unary { operator, operand: Box::new(x), span }),
                after,
            ),
        },
        ExprView::Call { callee, arguments, span } => match expanded(s, p, *callee) {
            (Err(error), after) => (Err(error), after),
            (Ok(target), after) => match all_expanded(s, after, arguments, 0, Seq::empty()) {
                (Err(error), last) => (Err(error), last),
                (Ok(values), last) => (
                    Ok(ExprView::Call { callee: Box::new(target), arguments: values, span }),
                    last,
                ),
            },
        },
        ExprView::Field { base, name, span } => match expanded(s, p, *base) {
            (Err(error), after) => (Err(error), after),
            (Ok(x), after) => (Ok(ExprView::Field { base: Box::new(x), name, span }), after),
        },
        ExprView::Index { base, index, span } => match expanded(s, p, *base) {
            (Err(error), after) => (Err(error), after),
            (Ok(a), after) => match expanded(s, after, *index) {
                (Err(error), last) => (Err(error), last),
                (Ok(b), last) => (
                    Ok(ExprView::Index { base: Box::new(a), index: Box::new(b), span }),
                    last,
                ),
            },
        },
        ExprView::UncheckedIndex { base, index, span } => match expanded(s, p, *base) {
            (Err(error), after) => (Err(error), after),
            (Ok(a), after) => match expanded(s, after, *index) {
                (Err(error), last) => (Err(error), last),
                (Ok(b), last) => (
                    Ok(ExprView::UncheckedIndex { base: Box::new(a), index: Box::new(b), span }),
                    last,
                ),
            },
        },
        ExprView::StructLiteral { name, fields, span } => match inits_expanded(
            s,
            p,
            fields,
            0,
            Seq::empty(),
        ) {
            (Err(error), after) => (Err(error), after),
            (Ok(values), after) => (
                Ok(ExprView::StructLiteral { name, fields: values, span }),
                after,
            ),
        },
        ExprView::ArrayLiteral { ty, elements, span } => match all_expanded(
            s,
            p,
            elements,
            0,
            Seq::empty(),
        ) {
            (Err(error), after) => (Err(error), after),
            (Ok(values), after) => (
                Ok(ExprView::ArrayLiteral { ty, elements: values, span }),
                after,
            ),
        },
        ExprView::Propagate { expression, span } => match expanded(s, p, *expression) {
            (Err(error), after) => (Err(error), after),
            (Ok(x), after) => (
                Ok(ExprView::Propagate { expression: Box::new(x), span }),
                after,
            ),
        },
        _ => (Ok(e), p),
    }
}

pub open spec fn all_expanded(
    s: Setting,
    p: Progress,
    es: Seq<ExprView>,
    i: int,
    before: Seq<ExprView>,
) -> Outcome<Seq<ExprView>>
    decreases es, es.len() - i,
{
    if i < 0 || i >= es.len() {
        (Ok(before), p)
    } else {
        match expanded(s, p, es[i]) {
            (Err(error), after) => (Err(error), after),
            (Ok(x), after) => all_expanded(s, after, es, i + 1, before.push(x)),
        }
    }
}

pub open spec fn inits_expanded(
    s: Setting,
    p: Progress,
    inits: Seq<StructInitView>,
    i: int,
    before: Seq<StructInitView>,
) -> Outcome<Seq<StructInitView>>
    decreases inits, inits.len() - i,
{
    if i < 0 || i >= inits.len() {
        (Ok(before), p)
    } else {
        match expanded(s, p, inits[i].value) {
            (Err(error), after) => (Err(error), after),
            (Ok(value), after) => inits_expanded(
                s,
                after,
                inits,
                i + 1,
                before.push(StructInitView { name: inits[i].name, value, span: inits[i].span }),
            ),
        }
    }
}

/// The type that the form of a compile-time expression suggests.
pub open spec fn hinted(s: Setting, e: ExprView) -> Option<TypeView> {
    match e {
        ExprView::Integer { .. } => Some(TypeView::Named("i32"@)),
        ExprView::Float { .. } => Some(TypeView::Named("f64"@)),
        ExprView::Bool { .. } => Some(TypeView::Named("bool"@)),
        ExprView::SizeOf { .. } => Some(TypeView::Named("usize"@)),
        ExprView::AlignOf { .. } => Some(TypeView::Named("usize"@)),
        ExprView::OffsetOf { .. } => Some(TypeView::Named("usize"@)),
        ExprView::StructLiteral { name, .. } => Some(TypeView::Named(name)),
        ExprView::ArrayLiteral { ty, .. } => Some(ty),
        ExprView::Call { callee, .. } => match *callee {
            ExprView::Identifier { name, .. } => match function_named(s, name) {
                Some(f) => Some(f.return_type),
                None => None,
            },
            _ => None,
        },
        _ => None,
    }
}

/// A variable whose value is marked for compile time, with the value worked
/// out.
pub open spec fn variable_evaluated(
    s: Setting,
    p: Progress,
    v: VariableDeclView,
    inner: ExprView,
) -> Outcome<(VariableDeclView, ValueView)> {
    match value_of(s, p, inner) {
        (Err(error), after) => (Err(error), after),
        (Ok(value), after) => {
            let hint = hinted(s, inner);
            match emitted(value, v.value.span(), hint) {
                Err(error) => (Err(error), after),
                Ok(e) => (
                    Ok(
                        (
                            VariableDeclView {
                                value: e,
                                ty: if v.ty is None {
                                    hint
                                } else {
                                    v.ty
                                },
                                ..v
                            },
                            value,
                        ),
                    ),
                    after,
                ),
            }
        },
    }
}

pub open spec fn block_expanded(s: Setting, p: Progress, b: BlockView) -> Outcome<BlockView>
    decreases b, 0int,
{
    match statements_expanded(s, p, b.statements, 0, Seq::empty()) {
        (Err(error), after) => (Err(error), after),
        (Ok(statements), after) => (Ok(BlockView { statements, span: b.span }), after),
    }
}

pub open spec fn statements_expanded(
    s: Setting,
    p: Progress,
    ss: Seq<StmtView>,
    i: int,
    before: Seq<StmtView>,
) -> Outcome<Seq<StmtView>>
    decreases ss, ss.len() - i,
{
    if i < 0 || i >= ss.len() {
        (Ok(before), p)
    } else {
        match statement_expanded(s, p, ss[i]) {
            (Err(error), after) => (Err(error), after),
            (Ok(x), after) => statements_expanded(s, after, ss, i + 1, before.push(x)),
        }
    }
}

pub open spec fn statement_expanded(s: Setting, p: Progress, st: StmtView) -> Outcome<StmtView>
    decreases st, 0int,
{
    match st {
        StmtView::If { condition, then_branch, else_branch, span } => match expanded(
            s,
            p,
            condition,
        ) {
            (Err(error), after) => (Err(error), after),
            (Ok(test), after) => match block_expanded(s, after, then_branch) {
                (Err(error), next) => (Err(error), next),
                (Ok(yes), next) => match else_branch {
                    None => (
                        Ok(
                            StmtView::If {
                                condition: test,
                                then_branch: yes,
                                else_branch: None,
                                span,
                            },
                        ),
                        next,
                    ),
                    Some(branch) => match block_expanded(s, next, branch) {
                        (Err(error), last) => (Err(error), last),
                        (Ok(no), last) => (
                            Ok(
                                StmtView::If {
                                    condition: test,
                                    then_branch: yes,
                                    else_branch: Some(no),
                                    span,
                                },
                            ),
                            last,
                        ),
                    },
                },
            },
        },
        StmtView::While { condition, body, span } => match expanded(s, p, condition) {
            (Err(error), after) => (Err(error), after),
            (Ok(test), after) => match block_expanded(s, after, body) {
                (Err(error), last) => (Err(error), last),
                (Ok(inner), last) => (
                    Ok(StmtView::While { condition: test, body: inner, span }),
                    last,
                ),
            },
        },
        StmtView::Return { value, span } => match value {
            None => (Ok(st), p),
            Some(e) => match expanded(s, p, e) {
                (Err(error), after) => (Err(error), after),
                (Ok(x), after) => (Ok(StmtView::Return { value: Some(x), span }), after),
            },
        },
        StmtView::Variable(v) => match v.value {
            ExprView::Comptime { expression, .. } => match variable_evaluated(
                s,
                p,
                v,
                *expression,
            ) {
                (Err(error), after) => (Err(error), after),
                (Ok((w, _)), after) => (Ok(StmtView::Variable(w)), after),
            },
            _ => match expanded(s, p, v.value) {
                (Err(error), after) => (Err(error), after),
                (Ok(value), after) => (
                    Ok(StmtView::Variable(VariableDeclView { value, ..v })),
                    after,
                ),
            },
        },
        StmtView::Assignment { target, value, span } => match expanded(s, p, target) {
            (Err(error), after) => (Err(error), after),
            (Ok(place), after) => match expanded(s, after, value) {
                (Err(error), last) => (Err(error), last),
                (Ok(x), last) => (
                    Ok(StmtView::Assignment { target: place, value: x, span }),
                    last,
                ),
            },
        },
        StmtView::Expr { expression, span } => match expanded(s, p, expression) {
            (Err(error), after) => (Err(error), after),
            (Ok(x), after) => (Ok(StmtView::Expr { expression: x, span }), after),
        },
        StmtView::Defer { call, span } => match expanded(s, p, call) {
            (Err(error), after) => (Err(error), after),
            (Ok(x), after) => (Ok(StmtView::Defer { call: x, span }), after),
        },
        StmtView::Break { .. } => (Ok(st), p),
        StmtView::Continue { .. } => (Ok(st), p),
    }
}

/// The progress with the value of a global.
pub open spec fn with_global(p: Progress, name: Seq<char>, value: ValueView) -> Progress {
    Progress { globals: with_value(p.globals, name, value), ..p }
}

/// A global as it stays. One that has a value at compile time, marked for it
/// or not, lends the value to what follows.
pub open spec fn global_expanded(s: Setting, p: Progress, v: VariableDeclView) -> Outcome<
    VariableDeclView,
> {
    match expanded(s, p, v.value) {
        (Err(error), after) => (Err(error), after),
        (Ok(plain), after) => match v.value {
            ExprView::Comptime { expression, .. } => match value_of(s, after, *expression) {
                (Err(error), last) => (Err(error), last),
                (Ok(value), last) => {
                    let known = with_global(last, v.name, value);
                    let hint = hinted(s, *expression);
                    match emitted(value, v.value.span(), hint) {
                        Err(error) => (Err(error), known),
                        Ok(e) => (
                            Ok(
                                VariableDeclView {
                                    value: e,
                                    ty: if v.ty is None {
                                        hint
                                    } else {
                                        v.ty
                                    },
                                    ..v
                                },
                            ),
                            known,
                        ),
                    }
                },
            },
            _ => match value_of(s, after, plain) {
                (Ok(value), last) => (
                    Ok(VariableDeclView { value: plain, ..v }),
                    with_global(last, v.name, value),
                ),
                (Err(_), last) => (Ok(VariableDeclView { value: plain, ..v }), last),
            },
        },
    }
}

/// A declaration as it stays, if it stays: directives do not.
#[verifier::opaque]
pub open spec fn declaration_expanded(s: Setting, p: Progress, d: DeclView) -> Outcome<
    Option<DeclView>,
> {
    match d {
        DeclView::Variable(v) => match global_expanded(s, p, v) {
            (Err(error), after) => (Err(error), after),
            (Ok(w), after) => (Ok(Some(DeclView::Variable(w))), after),
        },
        DeclView::Comptime { expression, span } => match value_of(s, p, expression) {
            (Err(error), after) => (Err(error), after),
            (Ok(value), after) => if value == ValueView::Unit {
                (Ok(None), after)
            } else {
                (
                    Err(invalid("top-level compile-time directive must return unit"@, span)),
                    after,
                )
            },
        },
        DeclView::Function(f) => match block_expanded(s, p, f.body) {
            (Err(error), after) => (Err(error), after),
            (Ok(body), after) => (
                Ok(Some(DeclView::Function(FunctionDeclView { body, ..f }))),
                after,
            ),
        },
        DeclView::Struct(_) => (Ok(Some(d)), p),
    }
}

/// The declarations from `i` on, after those before it.
pub open spec fn declarations_expanded(
    s: Setting,
    p: Progress,
    i: int,
    before: Seq<DeclView>,
) -> Result<(Seq<DeclView>, Progress), ErrorView>
    decreases s.program.declarations.len() - i,
{
    if i < 0 || i >= s.program.declarations.len() {
        Ok((before, p))
    } else {
        match declaration_expanded(s, p, s.program.declarations[i]) {
            (Err(error), _) => Err(error),
            (Ok(kept), after) => declarations_expanded(
                s,
                after,
                i + 1,
                match kept {
                    Some(d) => before.push(d),
                    None => before,
                },
            ),
        }
    }
}

/// The generated declarations from `i` on, after the others. None may take a
/// name that is declared.
pub open spec fn with_generated(
    s: Setting,
    generated: Seq<DeclView>,
    i: int,
    before: Seq<DeclView>,
) -> Result<Seq<DeclView>, ErrorView>
    decreases generated.len() - i,
{
    if i < 0 || i >= generated.len() {
        Ok(before)
    } else {
        match declared_name(generated[i]) {
            None => with_generated(s, generated, i + 1, before.push(generated[i])),
            Some(name) => if declaring(s.program.declarations, 0, name) is Some || declaring(
                before,
                0,
                name,
            ) is Some {
                Err(
                    invalid(
                        "generated declaration `"@ + name
                            + "` conflicts with an existing declaration"@,
                        declared_span(generated[i]),
                    ),
                )
            } else {
                with_generated(s, generated, i + 1, before.push(generated[i]))
            },
        }
    }
}

/// The state before anything is evaluated.
pub open spec fn nothing_done() -> Progress {
    Progress {
        steps: 0,
        memory: 0,
        generated: Seq::empty(),
        done: Seq::empty(),
        globals: Seq::empty(),
    }
}

pub open spec fn program_expanded(s: Setting) -> Result<ProgramView, ErrorView> {
    match declarations_expanded(s, nothing_done(), 0, Seq::empty()) {
        Err(error) => Err(error),
        Ok((kept, p)) => match with_generated(s, p.generated, 0, kept) {
            Err(error) => Err(error),
            Ok(declarations) => Ok(ProgramView { imports: s.program.imports, declarations }),
        },
    }
}

/// A program specialized and expanded.
pub open spec fn expansion(
    floats: FloatModel,
    program: ProgramView,
    pointer_width: u32,
    limits: Limits,
) -> Result<ProgramView, ErrorView> {
    match specialized(program) {
        Err(error) => Err(error),
        Ok(plain) => program_expanded(Setting { program: plain, pointer_width, limits, floats }),
    }
}

/// The value of an expression among the declarations of a program.
pub open spec fn evaluation(
    floats: FloatModel,
    program: ProgramView,
    e: ExprView,
    pointer_width: u32,
    limits: Limits,
) -> Result<ValueView, ErrorView> {
    match specialized(program) {
        Err(error) => Err(error),
        Ok(plain) => value_of(
            Setting { program: plain, pointer_width, limits, floats },
            nothing_done(),
            e,
        ).0,
    }
}

// ---------------------------------------------------------------------------
// Reflection from outside
// ---------------------------------------------------------------------------

/// The fields from `i` on with their offsets, the bytes before them and their
/// alignment; then the whole.
pub open spec fn struct_info(
    s: Setting,
    name: Seq<char>,
    fields: Seq<StructFieldView>,
    i: int,
    size: nat,
    align: nat,
    before: Seq<FieldInfoView>,
) -> Result<TypeInfoView, ErrorView>
    decreases fields.len() - i,
{
    if i < 0 || i >= fields.len() {
        match aligned_to(size, align) {
            None => Err(no_layout(Span { start: 0, end: 0 })),
            Some(whole) => Ok(
                TypeInfoView {
                    name,
                    identity: "type:"@ + name,
                    size: whole as u64,
                    alignment: align as u64,
                    fields: before,
                },
            ),
        }
    } else {
        match layout_of(s, fields[i].ty, fields[i].span) {
            Err(error) => Err(error),
            Ok((own, own_align)) => match after_field(size, own, own_align) {
                None => Err(no_layout(fields[i].span)),
                Some((start, end)) => struct_info(
                    s,
                    name,
                    fields,
                    i + 1,
                    end,
                    if own_align > align {
                        own_align
                    } else {
                        align
                    },
                    before.push(
                        FieldInfoView {
                            name: fields[i].name,
                            ty: fields[i].ty,
                            offset: start as u64,
                        },
                    ),
                ),
            },
        }
    }
}

pub open spec fn type_info(
    floats: FloatModel,
    program: ProgramView,
    name: Seq<char>,
    pointer_width: u32,
    limits: Limits,
) -> Result<TypeInfoView, ErrorView> {
    match specialized(program) {
        Err(error) => Err(error),
        Ok(plain) => {
            let s = Setting { program: plain, pointer_width, limits, floats };
            match struct_named(s, name) {
                None => Err(ErrorView::Undefined { name, span: Span { start: 0, end: 0 } }),
                Some(structure) => struct_info(s, name, structure.fields, 0, 0, 1, Seq::empty()),
            }
        },
    }
}

/// The first function of a name, from `i` on.
pub open spec fn first_function(decls: Seq<DeclView>, i: int, name: Seq<char>) -> Option<int>
    decreases decls.len() - i,
{
    if i < 0 || i >= decls.len() {
        None
    } else if decls[i] is Function && declared_name(decls[i]) == Some(name) {
        Some(i)
    } else {
        first_function(decls, i + 1, name)
    }
}

pub open spec fn signature(f: FunctionDeclView) -> FunctionInfoView {
    FunctionInfoView {
        name: f.name,
        parameters: Seq::new(f.params.len(), |i: int| (f.params[i].name, f.params[i].ty)),
        return_type: f.return_type,
    }
}

pub open spec fn function_info(program: ProgramView, name: Seq<char>) -> Result<
    FunctionInfoView,
    ErrorView,
> {
    match specialized(program) {
        Err(error) => Err(error),
        Ok(plain) => match first_function(plain.declarations, 0, name) {
            Some(i) => Ok(signature(plain.declarations[i]->Function_0)),
            None => match first_function(program.declarations, 0, name) {
                Some(i) => Ok(signature(program.declarations[i]->Function_0)),
                None => Err(
                    ErrorView::Undefined { name, span: Span { start: 0, end: 0 } },
                ),
            },
        },
    }
}

/// The value of a typed expression, as compile-time code sees it: a struct is
/// the list of its fields' values, a result a struct of one field.
pub open spec fn typed_as_value(value: typed_eval::ValueView) -> ValueView
    decreases value,
{
    match value {
        typed_eval::ValueView::Unit => ValueView::Unit,
        typed_eval::ValueView::Bool(b) => ValueView::Bool(b),
        typed_eval::ValueView::Integer(n) => ValueView::Integer(n),
        typed_eval::ValueView::Float(x) => ValueView::Float(x),
        typed_eval::ValueView::Struct(values) => ValueView::Array(typed_as_values(values)),
        typed_eval::ValueView::Array(values) => ValueView::Array(typed_as_values(values)),
        typed_eval::ValueView::Result { error, value: inner } => ValueView::Struct {
            name: if error {
                "result_err"@
            } else {
                "result_ok"@
            },
            fields: seq![("value"@, typed_as_value(*inner))],
        },
    }
}

pub open spec fn typed_as_values(values: Seq<typed_eval::ValueView>) -> Seq<ValueView>
    decreases values,
{
    Seq::new(
        values.len(),
        |i: int|
            if 0 <= i < values.len() {
                typed_as_value(values[i])
            } else {
                arbitrary()
            },
    )
}

} // verus!
