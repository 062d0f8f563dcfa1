//! Semantic analysis: from the syntax tree to the typed program.
use crate::ast::{
    decls_view, exprs_view, fields_view, inits_view, parameters_view, stmts_view, types_view,
    BinaryOp, Block, Decl, Expr, ExprView, FunctionDecl, Parameter, Program, Stmt, StructField,
    StructInit, Type, TypeView, UnaryOp, VariableDecl, VariableKind,
};
use crate::floats::{
    answers, ask, compares, float_model, float_op, is_comparison, negate_text, FloatAnswer, FloatOp,
};
use crate::folding::{is_well_typed, lemma_folding_keeps_values};
use crate::integers::{
    bits_of, divide, hold, hold_bits, hold_complement, hold_difference, hold_negation, hold_product,
    hold_shift_up, hold_sum, lemma_held_in_range, lemma_pow2_128, low, power_of_two, remain,
    shift_down,
};
use crate::lexer::{show_span, span_text, Span};
use crate::modules::{graph_ids, ModuleGraph};
use crate::text::{decimal, decimal_text, joined, text_is};
use crate::typed::{
    definitions_view, typed_constants_view, typed_exprs_view, typed_fields_view,
    typed_functions_view, typed_globals_view, typed_parameters_view, typed_stmts_view,
    typed_structs_view, DefId, Definition, DefinitionKind, IntegerWidth, Intrinsic, LayoutKind,
    LocalId, LowLevelOperation, ResolvedType, SymbolTable, TypeInterner, TypedBlock, TypedBlockView,
    TypedConstant, TypedConstantView, TypedExpr, TypedExprView, TypedField, TypedFunction,
    TypedFunctionView, TypedGlobal, TypedGlobalView, TypedParameter, TypedParameterView, TypedPlace,
    TypedPlaceView, TypedProgram, TypedProgramView, TypedStmt, TypedStmtView, TypedStruct,
};
use crate::typed_eval;
use crate::typing;
use crate::typing::{type_text, Context, Env, Frame, Lowered, Place, Sort};
use vstd::prelude::*;

verus! {

broadcast use {crate::ast::group_ast_lists, crate::typed::group_typed_lists};

/// Why a program has no meaning.
#[allow(inconsistent_fields)]
#[derive(Debug, PartialEq)]
pub enum SemanticError {
    UndefinedName { name: String, span: Span },
    DuplicateName { name: String, span: Span },
    UnknownType { name: String, span: Span },
    TypeMismatch { expected: Type, found: Type, span: Span },
    InvalidLiteral { message: String, span: Span },
    InvalidOperand { message: String, span: Span },
    WrongArgumentCount { name: String, expected: usize, found: usize, span: Span },
    NotCallable { name: String, span: Span },
    ImmutableAssignment { name: String, span: Span },
    InvalidAssignmentTarget { span: Span },
    BreakOutsideLoop { span: Span },
    ContinueOutsideLoop { span: Span },
    InvalidPropagation { message: String, span: Span },
    InvalidDefer { message: String, span: Span },
    MissingReturn { function: String, span: Span },
    TopLevelVariableUnsupported { name: String, span: Span },
    InvalidEntryPoint { message: String, span: Span },
    InvalidAbi { abi: String, span: Span },
    InvalidFfiType { message: String, span: Span },
}

/// What a `SemanticError` holds.
#[allow(inconsistent_fields)]
pub ghost enum SemanticErrorView {
    UndefinedName { name: Seq<char>, span: Span },
    DuplicateName { name: Seq<char>, span: Span },
    UnknownType { name: Seq<char>, span: Span },
    TypeMismatch { expected: TypeView, found: TypeView, span: Span },
    InvalidLiteral { message: Seq<char>, span: Span },
    InvalidOperand { message: Seq<char>, span: Span },
    WrongArgumentCount { name: Seq<char>, expected: usize, found: usize, span: Span },
    NotCallable { name: Seq<char>, span: Span },
    ImmutableAssignment { name: Seq<char>, span: Span },
    InvalidAssignmentTarget { span: Span },
    BreakOutsideLoop { span: Span },
    ContinueOutsideLoop { span: Span },
    InvalidPropagation { message: Seq<char>, span: Span },
    InvalidDefer { message: Seq<char>, span: Span },
    MissingReturn { function: Seq<char>, span: Span },
    TopLevelVariableUnsupported { name: Seq<char>, span: Span },
    InvalidEntryPoint { message: Seq<char>, span: Span },
    InvalidAbi { abi: Seq<char>, span: Span },
    InvalidFfiType { message: Seq<char>, span: Span },
}

impl SemanticError {
    pub open spec fn view(&self) -> SemanticErrorView
        decreases self,
    {
        match self {
            SemanticError::UndefinedName { name, span } => SemanticErrorView::UndefinedName {
                name: name@,
                span: *span,
            },
            SemanticError::DuplicateName { name, span } => SemanticErrorView::DuplicateName {
                name: name@,
                span: *span,
            },
            SemanticError::UnknownType { name, span } => SemanticErrorView::UnknownType {
                name: name@,
                span: *span,
            },
            SemanticError::TypeMismatch { expected, found, span } =>
                SemanticErrorView::TypeMismatch {
                expected: expected.view(),
                found: found.view(),
                span: *span,
            },
            SemanticError::InvalidLiteral { message, span } => SemanticErrorView::InvalidLiteral {
                message: message@,
                span: *span,
            },
            SemanticError::InvalidOperand { message, span } => SemanticErrorView::InvalidOperand {
                message: message@,
                span: *span,
            },
            SemanticError::WrongArgumentCount { name, expected, found, span } =>
                SemanticErrorView::WrongArgumentCount {
                name: name@,
                expected: *expected,
                found: *found,
                span: *span,
            },
            SemanticError::NotCallable { name, span } => SemanticErrorView::NotCallable {
                name: name@,
                span: *span,
            },
            SemanticError::ImmutableAssignment { name, span } =>
                SemanticErrorView::ImmutableAssignment {
                name: name@,
                span: *span,
            },
            SemanticError::InvalidAssignmentTarget { span } =>
                SemanticErrorView::InvalidAssignmentTarget {
                span: *span,
            },
            SemanticError::BreakOutsideLoop { span } => SemanticErrorView::BreakOutsideLoop {
                span: *span,
            },
            SemanticError::ContinueOutsideLoop { span } => SemanticErrorView::ContinueOutsideLoop {
                span: *span,
            },
            SemanticError::InvalidPropagation { message, span } =>
                SemanticErrorView::InvalidPropagation {
                message: message@,
                span: *span,
            },
            SemanticError::InvalidDefer { message, span } => SemanticErrorView::InvalidDefer {
                message: message@,
                span: *span,
            },
            SemanticError::MissingReturn { function, span } => SemanticErrorView::MissingReturn {
                function: function@,
                span: *span,
            },
            SemanticError::TopLevelVariableUnsupported { name, span } =>
                SemanticErrorView::TopLevelVariableUnsupported {
                name: name@,
                span: *span,
            },
            SemanticError::InvalidEntryPoint { message, span } =>
                SemanticErrorView::InvalidEntryPoint {
                message: message@,
                span: *span,
            },
            SemanticError::InvalidAbi { abi, span } => SemanticErrorView::InvalidAbi {
                abi: abi@,
                span: *span,
            },
            SemanticError::InvalidFfiType { message, span } => SemanticErrorView::InvalidFfiType {
                message: message@,
                span: *span,
            },
        }
    }
}

impl Clone for SemanticError {
    fn clone(&self) -> (r: Self)
        ensures
            r@ == self@,
        decreases self,
    {
        match self {
            SemanticError::UndefinedName { name, span } => SemanticError::UndefinedName {
                name: name.clone(),
                span: *span,
            },
            SemanticError::DuplicateName { name, span } => SemanticError::DuplicateName {
                name: name.clone(),
                span: *span,
            },
            SemanticError::UnknownType { name, span } => SemanticError::UnknownType {
                name: name.clone(),
                span: *span,
            },
            SemanticError::TypeMismatch { expected, found, span } => SemanticError::TypeMismatch {
                expected: expected.clone(),
                found: found.clone(),
                span: *span,
            },
            SemanticError::InvalidLiteral { message, span } => SemanticError::InvalidLiteral {
                message: message.clone(),
                span: *span,
            },
            SemanticError::InvalidOperand { message, span } => SemanticError::InvalidOperand {
                message: message.clone(),
                span: *span,
            },
            SemanticError::WrongArgumentCount { name, expected, found, span } =>
                SemanticError::WrongArgumentCount {
                name: name.clone(),
                expected: *expected,
                found: *found,
                span: *span,
            },
            SemanticError::NotCallable { name, span } => SemanticError::NotCallable {
                name: name.clone(),
                span: *span,
            },
            SemanticError::ImmutableAssignment { name, span } =>
                SemanticError::ImmutableAssignment {
                name: name.clone(),
                span: *span,
            },
            SemanticError::InvalidAssignmentTarget { span } =>
                SemanticError::InvalidAssignmentTarget {
                span: *span,
            },
            SemanticError::BreakOutsideLoop { span } => SemanticError::BreakOutsideLoop {
                span: *span,
            },
            SemanticError::ContinueOutsideLoop { span } => SemanticError::ContinueOutsideLoop {
                span: *span,
            },
            SemanticError::InvalidPropagation { message, span } =>
                SemanticError::InvalidPropagation {
                message: message.clone(),
                span: *span,
            },
            SemanticError::InvalidDefer { message, span } => SemanticError::InvalidDefer {
                message: message.clone(),
                span: *span,
            },
            SemanticError::MissingReturn { function, span } => SemanticError::MissingReturn {
                function: function.clone(),
                span: *span,
            },
            SemanticError::TopLevelVariableUnsupported { name, span } =>
                SemanticError::TopLevelVariableUnsupported {
                name: name.clone(),
                span: *span,
            },
            SemanticError::InvalidEntryPoint { message, span } => SemanticError::InvalidEntryPoint {
                message: message.clone(),
                span: *span,
            },
            SemanticError::InvalidAbi { abi, span } => SemanticError::InvalidAbi {
                abi: abi.clone(),
                span: *span,
            },
            SemanticError::InvalidFfiType { message, span } => SemanticError::InvalidFfiType {
                message: message.clone(),
                span: *span,
            },
        }
    }
}

impl SemanticErrorView {
    /// Where the error stands in its source.
    pub open spec fn span(self) -> Span {
        match self {
            SemanticErrorView::UndefinedName { span, .. } => span,
            SemanticErrorView::DuplicateName { span, .. } => span,
            SemanticErrorView::UnknownType { span, .. } => span,
            SemanticErrorView::TypeMismatch { span, .. } => span,
            SemanticErrorView::InvalidLiteral { span, .. } => span,
            SemanticErrorView::InvalidOperand { span, .. } => span,
            SemanticErrorView::WrongArgumentCount { span, .. } => span,
            SemanticErrorView::NotCallable { span, .. } => span,
            SemanticErrorView::ImmutableAssignment { span, .. } => span,
            SemanticErrorView::InvalidAssignmentTarget { span, .. } => span,
            SemanticErrorView::BreakOutsideLoop { span, .. } => span,
            SemanticErrorView::ContinueOutsideLoop { span, .. } => span,
            SemanticErrorView::InvalidPropagation { span, .. } => span,
            SemanticErrorView::InvalidDefer { span, .. } => span,
            SemanticErrorView::MissingReturn { span, .. } => span,
            SemanticErrorView::TopLevelVariableUnsupported { span, .. } => span,
            SemanticErrorView::InvalidEntryPoint { span, .. } => span,
            SemanticErrorView::InvalidAbi { span, .. } => span,
            SemanticErrorView::InvalidFfiType { span, .. } => span,
        }
    }

    /// What the error's message says, without its place.
    pub open spec fn text(self) -> Seq<char> {
        match self {
            SemanticErrorView::UndefinedName { name, .. } => "undefined name `"@ + name + "`"@,
            SemanticErrorView::DuplicateName { name, .. } => "duplicate name `"@ + name + "`"@,
            SemanticErrorView::UnknownType { name, .. } => "unknown type `"@ + name + "`"@,
            SemanticErrorView::TypeMismatch { expected, found, .. } =>
                "type mismatch: expected "@ + type_text(expected) + ", found "@ + type_text(found),
            SemanticErrorView::InvalidLiteral { message, .. } => message,
            SemanticErrorView::InvalidOperand { message, .. } => message,
            SemanticErrorView::WrongArgumentCount { name, expected, found, .. } =>
                "function `"@ + name + "` expects "@ + decimal(expected as nat)
                    + " arguments, got "@ + decimal(found as nat),
            SemanticErrorView::NotCallable { name, .. } => "`"@ + name + "` is not a function"@,
            SemanticErrorView::ImmutableAssignment { name, .. } =>
                "cannot assign to immutable variable `"@ + name + "`"@,
            SemanticErrorView::InvalidAssignmentTarget { .. } => "invalid assignment target"@,
            SemanticErrorView::BreakOutsideLoop { .. } => "break is only valid inside a loop"@,
            SemanticErrorView::ContinueOutsideLoop { .. } =>
                "continue is only valid inside a loop"@,
            SemanticErrorView::InvalidPropagation { message, .. } => message,
            SemanticErrorView::InvalidDefer { message, .. } => message,
            SemanticErrorView::MissingReturn { function, .. } =>
                "function `"@ + function + "` does not return a value on every path"@,
            SemanticErrorView::TopLevelVariableUnsupported { name, .. } =>
                "top-level variable `"@ + name + "` is not supported yet"@,
            SemanticErrorView::InvalidEntryPoint { message, .. } => message,
            SemanticErrorView::InvalidAbi { abi, .. } =>
                "unsupported ABI `"@ + abi + "` (only `c` is supported)"@,
            SemanticErrorView::InvalidFfiType { message, .. } => message,
        }
    }

    /// What the error's message reads.
    pub open spec fn message(self) -> Seq<char> {
        self.text() + " at "@ + span_text(self.span())
    }
}

impl SemanticError {
    /// Where the error stands in its source.
    pub fn span(&self) -> (r: Span)
        ensures
            r == self@.span(),
    {
        match self {
            SemanticError::UndefinedName { span, .. } => *span,
            SemanticError::DuplicateName { span, .. } => *span,
            SemanticError::UnknownType { span, .. } => *span,
            SemanticError::TypeMismatch { span, .. } => *span,
            SemanticError::InvalidLiteral { span, .. } => *span,
            SemanticError::InvalidOperand { span, .. } => *span,
            SemanticError::WrongArgumentCount { span, .. } => *span,
            SemanticError::NotCallable { span, .. } => *span,
            SemanticError::ImmutableAssignment { span, .. } => *span,
            SemanticError::InvalidAssignmentTarget { span, .. } => *span,
            SemanticError::BreakOutsideLoop { span, .. } => *span,
            SemanticError::ContinueOutsideLoop { span, .. } => *span,
            SemanticError::InvalidPropagation { span, .. } => *span,
            SemanticError::InvalidDefer { span, .. } => *span,
            SemanticError::MissingReturn { span, .. } => *span,
            SemanticError::TopLevelVariableUnsupported { span, .. } => *span,
            SemanticError::InvalidEntryPoint { span, .. } => *span,
            SemanticError::InvalidAbi { span, .. } => *span,
            SemanticError::InvalidFfiType { span, .. } => *span,
        }
    }

    /// What the error's message says, without its place.
    fn describe(&self) -> (r: String)
        ensures
            r@ == self@.text(),
    {
        match self {
            SemanticError::UndefinedName { name, .. } =>
                joined(joined("undefined name `".to_owned(), name.as_str()), "`"),
            SemanticError::DuplicateName { name, .. } =>
                joined(joined("duplicate name `".to_owned(), name.as_str()), "`"),
            SemanticError::UnknownType { name, .. } =>
                joined(joined("unknown type `".to_owned(), name.as_str()), "`"),
            SemanticError::TypeMismatch { expected, found, .. } =>
                joined(joined(joined("type mismatch: expected ".to_owned(),
                    show_type(expected).as_str()), ", found "), show_type(found).as_str()),
            SemanticError::InvalidLiteral { message, .. } => message.clone(),
            SemanticError::InvalidOperand { message, .. } => message.clone(),
            SemanticError::WrongArgumentCount { name, expected, found, .. } =>
                joined(joined(joined(joined(joined("function `".to_owned(), name.as_str()),
                    "` expects "), decimal_text(*expected as u128).as_str()), " arguments, got "),
                        decimal_text(*found as u128).as_str()),
            SemanticError::NotCallable { name, .. } =>
                joined(joined("`".to_owned(), name.as_str()), "` is not a function"),
            SemanticError::ImmutableAssignment { name, .. } =>
                joined(joined("cannot assign to immutable variable `".to_owned(), name.as_str()),
                    "`"),
            SemanticError::InvalidAssignmentTarget { .. } => "invalid assignment target".to_owned(),
            SemanticError::BreakOutsideLoop { .. } =>
                "break is only valid inside a loop".to_owned(),
            SemanticError::ContinueOutsideLoop { .. } =>
                "continue is only valid inside a loop".to_owned(),
            SemanticError::InvalidPropagation { message, .. } => message.clone(),
            SemanticError::InvalidDefer { message, .. } => message.clone(),
            SemanticError::MissingReturn { function, .. } =>
                joined(joined("function `".to_owned(), function.as_str()),
                    "` does not return a value on every path"),
            SemanticError::TopLevelVariableUnsupported { name, .. } =>
                joined(joined("top-level variable `".to_owned(), name.as_str()),
                    "` is not supported yet"),
            SemanticError::InvalidEntryPoint { message, .. } => message.clone(),
            SemanticError::InvalidAbi { abi, .. } =>
                joined(joined("unsupported ABI `".to_owned(), abi.as_str()),
                    "` (only `c` is supported)"),
            SemanticError::InvalidFfiType { message, .. } => message.clone(),
        }
    }

    pub fn to_string(&self) -> (r: String)
        ensures
            r@ == self@.message(),
    {
        let place: String = show_span(self.span());
        joined(joined(self.describe(), " at "), place.as_str())
    }
}

/// A local variable in scope.
#[derive(Debug, PartialEq)]
pub struct Binding {
    pub name: String,
    pub id: LocalId,
    pub ty: ResolvedType,
    pub mutable: bool,
}

/// What a `Binding` holds.
pub ghost struct BindingView {
    pub name: Seq<char>,
    pub id: LocalId,
    pub ty: ResolvedType,
    pub mutable: bool,
}

impl Binding {
    pub open spec fn view(&self) -> BindingView
        decreases self,
    {
        BindingView {
            name: self.name@,
            id: self.id,
            ty: self.ty,
            mutable: self.mutable,
        }
    }
}

impl Clone for Binding {
    fn clone(&self) -> (r: Self)
        ensures
            r@ == self@,
        decreases self,
    {
        Binding {
            name: self.name.clone(),
            id: self.id,
            ty: self.ty.clone(),
            mutable: self.mutable,
        }
    }
}

/// What a list of `Binding` holds.
pub open spec fn bindings_view(s: Seq<Binding>) -> Seq<BindingView>
    decreases s,
{
    Seq::new(
        s.len(),
        |i: int|
            if 0 <= i < s.len() {
                s[i].view()
            } else {
                arbitrary()
            },
    )
}

pub broadcast proof fn lemma_bindings_push(s: Seq<Binding>, x: Binding)
    ensures
        #[trigger] bindings_view(s.push(x)) == bindings_view(s).push(x@),
{
    assert(bindings_view(s.push(x)) =~= bindings_view(s).push(x@));
}

fn show_type(ty: &Type) -> (r: String)
    ensures
        r@ == type_text(ty@),
    decreases ty,
{
    match ty {
        Type::Unit => "void".to_owned(),
        Type::Named(name) => name.clone(),
        Type::Array { length, element } => {
            let inner: String = show_type(element);
            let count: String = decimal_text(*length as u128);
            joined(joined(joined("[".to_owned(), count.as_str()), "]"), inner.as_str())
        },
        Type::Pointer(element) => joined("*".to_owned(), show_type(element).as_str()),
        Type::Slice(element) => joined("[]".to_owned(), show_type(element).as_str()),
        Type::Result { success, error } => {
            let left: String = show_type(success);
            let right: String = show_type(error);
            joined(joined(left, " | "), right.as_str())
        },
    }
}

/// Identities that names have from elsewhere.
pub open spec fn known_view(known: Seq<(String, DefId)>) -> Seq<(Seq<char>, DefId)> {
    Seq::new(known.len(), |i: int| (known[i].0@, known[i].1))
}

/// What an analysis gives.
pub open spec fn program_outcome(r: Result<TypedProgram, SemanticError>) -> Result<
    TypedProgramView,
    SemanticErrorView,
> {
    match r {
        Ok(program) => Ok(program@),
        Err(error) => Err(error@),
    }
}

pub open spec fn typed_outcome(r: Result<TypedExpr, SemanticError>) -> Lowered {
    match r {
        Ok(e) => Ok(e@),
        Err(error) => Err(error@),
    }
}

pub open spec fn place_outcome(r: Result<TypedPlace, SemanticError>) -> Result<
    TypedPlaceView,
    SemanticErrorView,
> {
    match r {
        Ok(place) => Ok(place@),
        Err(error) => Err(error@),
    }
}

pub open spec fn list_outcome(r: Result<Vec<TypedExpr>, SemanticError>) -> Result<
    Seq<TypedExprView>,
    SemanticErrorView,
> {
    match r {
        Ok(es) => Ok(typed_exprs_view(es@)),
        Err(error) => Err(error@),
    }
}

pub open spec fn check_outcome(r: Result<(), SemanticError>) -> Result<(), SemanticErrorView> {
    match r {
        Ok(()) => Ok(()),
        Err(error) => Err(error@),
    }
}

/// Whether a program has a meaning.
pub fn analyze<F: Fn(FloatOp, String, String) -> FloatAnswer>(
    program: &Program,
    floats: &F,
) -> (r: Result<(), SemanticError>)
    requires
        answers(*floats),
    ensures
        match typing::lowered_program(
            float_model(*floats),
            typing::context_of(program@, Seq::empty()),
        ) {
            Ok(_) => r == Ok::<(), SemanticError>(()),
            Err(error) => r matches Err(found) && found@ == error,
        },
{
    match analyze_typed(program, floats) {
        Ok(_) => Ok(()),
        Err(error) => Err(error),
    }
}

/// The typed form of a program.
pub fn analyze_typed<F: Fn(FloatOp, String, String) -> FloatAnswer>(
    program: &Program,
    floats: &F,
) -> (r: Result<TypedProgram, SemanticError>)
    requires
        answers(*floats),
    ensures
        program_outcome(r) == typing::lowered_program(
            float_model(*floats),
            typing::context_of(program@, Seq::empty()),
        ),
{
    let known: Vec<(String, DefId)> = Vec::new();
    assert(known_view(known@) =~= Seq::empty());
    analyze_typed_with_ids(program, &known, floats)
}

/// The typed form of a program. The width of pointers decides nothing here:
/// what depends on it is left to the evaluators and the code generator.
pub fn analyze_typed_with_pointer_width<F: Fn(FloatOp, String, String) -> FloatAnswer>(
    program: &Program,
    pointer_width: u32,
    floats: &F,
) -> (r: Result<TypedProgram, SemanticError>)
    requires
        answers(*floats),
    ensures
        program_outcome(r) == typing::lowered_program(
            float_model(*floats),
            typing::context_of(program@, Seq::empty()),
        ),
{
    analyze_typed(program, floats)
}

/// The typed form of a program some of whose names have identities already.
pub fn analyze_typed_with_ids<F: Fn(FloatOp, String, String) -> FloatAnswer>(
    program: &Program,
    known: &Vec<(String, DefId)>,
    floats: &F,
) -> (r: Result<TypedProgram, SemanticError>)
    requires
        answers(*floats),
    ensures
        program_outcome(r) == typing::lowered_program(
            float_model(*floats),
            typing::context_of(program@, known_view(known@)),
        ),
{
    TypedLowerer::new_with_ids(program, known).lower(floats)
}

/// The typed form of a program whose names have their identities from a graph
/// of modules. The width of pointers decides nothing here either.
pub fn analyze_typed_with_graph<F: Fn(FloatOp, String, String) -> FloatAnswer>(
    program: &Program,
    graph: &ModuleGraph,
    pointer_width: u32,
    floats: &F,
) -> (r: Result<TypedProgram, SemanticError>)
    requires
        answers(*floats),
    ensures
        program_outcome(r) == typing::lowered_program(
            float_model(*floats),
            typing::context_of(
                program@,
                graph_ids(graph@.definitions, graph@.definitions.len() as int),
            ),
        ),
{
    let known: Vec<(String, DefId)> = graph.known_ids();
    analyze_typed_with_ids(program, &known, floats)
}

/// The first function from `i` on that a native program could start with.
pub open spec fn main_from(functions: Seq<TypedFunctionView>, i: int) -> Option<int>
    decreases functions.len() - i,
{
    if i < 0 || i >= functions.len() {
        None
    } else if functions[i].name == "main"@ && !functions[i].is_extern {
        Some(i)
    } else {
        main_from(functions, i + 1)
    }
}

/// Why a program cannot be built as a native program, if it cannot.
pub open spec fn entry_point_problem(functions: Seq<TypedFunctionView>) -> Option<
    SemanticErrorView,
> {
    match main_from(functions, 0) {
        None => Some(
            SemanticErrorView::InvalidEntryPoint {
                message: "native build requires exactly one `main` function"@,
                span: Span { start: 0, end: 0 },
            },
        ),
        Some(i) => {
            let span = functions[i].span;
            if main_from(functions, i + 1) is Some {
                Some(
                    SemanticErrorView::InvalidEntryPoint {
                        message: "duplicate `main` declarations"@,
                        span,
                    },
                )
            } else if functions[i].params.len() > 0 {
                Some(
                    SemanticErrorView::InvalidEntryPoint {
                        message: "`main` must not have parameters"@,
                        span,
                    },
                )
            } else if functions[i].return_type != typing::sized(32, true) {
                Some(
                    SemanticErrorView::InvalidEntryPoint {
                        message: "`main` must return i32"@,
                        span,
                    },
                )
            } else {
                None
            }
        },
    }
}

fn find_main(functions: &Vec<TypedFunction>, start: usize) -> (r: Option<usize>)
    requires
        start <= functions.len(),
    ensures
        match r {
            Some(i) => start <= i < functions.len() && main_from(
                typed_functions_view(functions@),
                start as int,
            ) == Some(i as int),
            None => main_from(typed_functions_view(functions@), start as int) is None,
        },
{
    let ghost all = typed_functions_view(functions@);
    for i in start..functions.len()
        invariant
            all == typed_functions_view(functions@),
            main_from(all, start as int) == main_from(all, i as int),
    {
        assert(all[i as int] == functions@[i as int]@);
        if text_is(&functions[i].name, "main") && !functions[i].is_extern {
            return Some(i);
        }
    }
    None
}

/// Whether a program can be built as a native program: it has exactly one
/// `main`, without parameters, that returns `i32`.
pub fn validate_typed_entry_point(program: &TypedProgram) -> (r: Result<(), SemanticError>)
    ensures
        match entry_point_problem(program@.functions) {
            None => r == Ok::<(), SemanticError>(()),
            Some(problem) => r matches Err(error) && error@ == problem,
        },
{
    let ghost all = program@.functions;
    match find_main(&program.functions, 0) {
        None => Err(
            SemanticError::InvalidEntryPoint {
                message: "native build requires exactly one `main` function".to_owned(),
                span: Span::new(0, 0),
            },
        ),
        Some(i) => {
            let main: &TypedFunction = &program.functions[i];
            assert(all[i as int] == main@);
            if find_main(&program.functions, i + 1).is_some() {
                return Err(
                    SemanticError::InvalidEntryPoint {
                        message: "duplicate `main` declarations".to_owned(),
                        span: main.span,
                    },
                );
            }
            if main.params.len() > 0 {
                return Err(
                    SemanticError::InvalidEntryPoint {
                        message: "`main` must not have parameters".to_owned(),
                        span: main.span,
                    },
                );
            }
            if !main.return_type.same(&sized(32, true)) {
                return Err(
                    SemanticError::InvalidEntryPoint {
                        message: "`main` must return i32".to_owned(),
                        span: main.span,
                    },
                );
            }
            Ok(())
        },
    }
}

// ---------------------------------------------------------------------------
// What is declared
// ---------------------------------------------------------------------------

fn is_of_sort(d: &Decl, sort: Sort) -> (r: bool)
    ensures
        r == typing::is_of_sort(d@, sort),
{
    match sort {
        Sort::Any => true,
        Sort::Function => match d {
            Decl::Function(_) => true,
            _ => false,
        },
        Sort::Struct => match d {
            Decl::Struct(_) => true,
            _ => false,
        },
        Sort::Variable => match d {
            Decl::Variable(_) => true,
            _ => false,
        },
        Sort::Constant => match d {
            Decl::Variable(v) => v.kind == VariableKind::Immutable,
            _ => false,
        },
    }
}

/// The name that a declaration declares, if it declares one.
pub fn declared_name(d: &Decl) -> (r: Option<&String>)
    ensures
        match r {
            Some(name) => typing::declared_name(d@) == Some(name@),
            None => typing::declared_name(d@) is None,
        },
{
    match d {
        Decl::Function(f) => Some(&f.name),
        Decl::Struct(s) => Some(&s.name),
        Decl::Variable(v) => Some(&v.name),
        Decl::Comptime { .. } => None,
    }
}

/// The last of the first `n` declarations that has the name and the sort.
pub fn find_declaration(decls: &Vec<Decl>, n: usize, name: &String, sort: Sort) -> (r: Option<
    usize,
>)
    requires
        n <= decls.len(),
    ensures
        match r {
            Some(i) => {
                &&& typing::find_declaration(decls_view(decls@), n as int, name@, sort) == Some(
                    i as int,
                )
                &&& i < n
                &&& typing::is_of_sort(decls@[i as int]@, sort)
                &&& decls_view(decls@)[i as int] == decls@[i as int]@
            },
            None => typing::find_declaration(decls_view(decls@), n as int, name@, sort) is None,
        },
{
    let ghost all = decls_view(decls@);
    let mut i: usize = n;
    while i > 0
        invariant
            i <= n <= decls.len(),
            all == decls_view(decls@),
            typing::find_declaration(all, n as int, name@, sort) == typing::find_declaration(
                all,
                i as int,
                name@,
                sort,
            ),
        decreases i,
    {
        let d: &Decl = &decls[i - 1];
        assert(all[i - 1] == d@);
        if is_of_sort(d, sort) {
            match declared_name(d) {
                Some(found) => {
                    if *found == *name {
                        return Some(i - 1);
                    }
                },
                None => {},
            }
        }
        i -= 1;
    }
    None
}

fn named(name: &str) -> (r: Type)
    ensures
        r@ == typing::named(name@),
{
    Type::Named(name.to_owned())
}

fn sized(bits: u16, signed: bool) -> (r: ResolvedType)
    ensures
        r == typing::sized(bits, signed),
{
    ResolvedType::Integer { width: IntegerWidth::Bits(bits), signed }
}

fn pointer_sized(signed: bool) -> (r: ResolvedType)
    ensures
        r == typing::pointer_sized(signed),
{
    ResolvedType::Integer { width: IntegerWidth::Pointer, signed }
}

/// The type that the form of an expression suggests.
fn infer_ast_type_with_globals(
    decls: &Vec<Decl>,
    types: &Vec<Type>,
    n: usize,
    e: &Expr,
) -> (r: Type)
    requires
        n <= decls.len(),
        n <= types.len(),
    ensures
        r@ == typing::inferred(decls_view(decls@), types_view(types@), n as int, e@),
    decreases e,
{
    match e {
        Expr::Integer { .. } => named("i32"),
        Expr::Float { .. } => named("f64"),
        Expr::Bool { .. } => named("bool"),
        Expr::Identifier { name, .. } => match find_declaration(decls, n, name, Sort::Variable) {
            Some(i) => {
                assert(types_view(types@)[i as int] == types@[i as int]@);
                types[i].clone()
            },
            None => named("i32"),
        },
        Expr::StructLiteral { name, .. } => named(name.as_str()),
        Expr::ArrayLiteral { ty, .. } => ty.clone(),
        Expr::Null { .. } => Type::Pointer(Box::new(named("u8"))),
        Expr::SizeOf { .. } => named("usize"),
        Expr::AlignOf { .. } => named("usize"),
        Expr::OffsetOf { .. } => named("usize"),
        Expr::UncheckedIndex { base, .. } => infer_ast_type_with_globals(decls, types, n, base),
        Expr::Index { base, .. } => infer_ast_type_with_globals(decls, types, n, base),
        Expr::Propagate { expression, .. } => infer_ast_type_with_globals(
            decls,
            types,
            n,
            expression,
        ),
        Expr::Unary { operator, operand, .. } => {
            let inner: Type = infer_ast_type_with_globals(decls, types, n, operand);
            match operator {
                UnaryOp::AddressOf => Type::Pointer(Box::new(inner)),
                UnaryOp::Dereference => match inner {
                    Type::Pointer(x) => *x,
                    _ => named("i32"),
                },
                _ => inner,
            }
        },
        Expr::Binary { left, .. } => infer_ast_type_with_globals(decls, types, n, left),
        Expr::Call { arguments, .. } => {
            assert(exprs_view(arguments@).len() == arguments@.len());
            if arguments.len() > 0 {
                assert(exprs_view(arguments@)[0] == arguments@[0]@);
                infer_ast_type_with_globals(decls, types, n, &arguments[0])
            } else {
                named("i32")
            }
        },
        _ => named("i32"),
    }
}

fn known_id(known: &Vec<(String, DefId)>, name: &String) -> (r: Option<DefId>)
    ensures
        r == typing::known_id(known_view(known@), known@.len() as int, name@),
{
    let ghost all = known_view(known@);
    let mut i: usize = known.len();
    while i > 0
        invariant
            i <= known.len(),
            all == known_view(known@),
            typing::known_id(all, known@.len() as int, name@) == typing::known_id(
                all,
                i as int,
                name@,
            ),
        decreases i,
    {
        if known[i - 1].0 == *name {
            return Some(known[i - 1].1);
        }
        i -= 1;
    }
    None
}

fn following(n: u32) -> (r: u32)
    ensures
        r == typing::next_id(n),
{
    if n == u32::MAX {
        n
    } else {
        n + 1
    }
}

fn first_free_id(known: &Vec<(String, DefId)>) -> (r: u32)
    ensures
        r == typing::first_free_id(known_view(known@), known@.len() as int),
{
    let ghost all = known_view(known@);
    let mut free: u32 = 0;
    for i in 0..known.len()
        invariant
            all == known_view(known@),
            free == typing::first_free_id(all, i as int),
    {
        proof {
            lemma_known_has(all, all.len() as int, i as int);
        }
        match known_id(known, &known[i].0) {
            Some(id) => {
                let next: u32 = following(id.0);
                if next > free {
                    free = next;
                }
            },
            None => {},
        }
    }
    free
}

proof fn lemma_known_has(known: Seq<(Seq<char>, DefId)>, n: int, i: int)
    requires
        0 <= i < n <= known.len(),
    ensures
        typing::known_id(known, n, known[i].0) is Some,
    decreases n,
{
    if i < n - 1 {
        lemma_known_has(known, n - 1, i);
    }
}

// ---------------------------------------------------------------------------
// Lowering
// ---------------------------------------------------------------------------

/// The declarations of a program, with the identity of each and the type of
/// each variable.
struct TypedLowerer<'a> {
    program: &'a Program,
    ids: Vec<DefId>,
    types: Vec<Type>,
}

/// What a function returns and its local variables so far.
struct Scope {
    is_main: bool,
    output: ResolvedType,
    locals: Vec<Binding>,
    start: usize,
    next: u32,
}

impl Scope {
    spec fn frame(&self) -> Frame {
        Frame { locals: bindings_view(self.locals@), start: self.start as int, next: self.next }
    }

    spec fn wf(&self) -> bool {
        self.start <= self.locals@.len()
    }
}

impl<'a> TypedLowerer<'a> {
    spec fn ctx(&self) -> Context {
        Context {
            decls: decls_view(self.program.declarations@),
            ids: self.ids@,
            types: types_view(self.types@),
        }
    }

    spec fn wf(&self) -> bool {
        self.ids@.len() == self.program.declarations@.len() && self.types@.len()
            == self.program.declarations@.len()
    }

    spec fn env(&self, scope: &Scope) -> Env {
        Env {
            ctx: self.ctx(),
            is_main: scope.is_main,
            output: scope.output,
            locals: bindings_view(scope.locals@),
        }
    }

    spec fn place(&self, scope: &Scope, in_loop: bool) -> Place {
        Place { ctx: self.ctx(), is_main: scope.is_main, output: scope.output, in_loop }
    }

    fn new_with_ids(program: &'a Program, known: &Vec<(String, DefId)>) -> (r: Self)
        ensures
            r.wf(),
            r.program == program,
            r.ctx() == typing::context_of(program@, known_view(known@)),
    {
        let decls: &Vec<Decl> = &program.declarations;
        let ghost all = decls_view(decls@);
        let ghost given = known_view(known@);
        let mut ids: Vec<DefId> = Vec::new();
        let mut types: Vec<Type> = Vec::new();
        let mut next: u32 = first_free_id(known);
        assert(types_view(types@) =~= Seq::empty());
        for i in 0..decls.len()
            invariant
                all == decls_view(decls@),
                given == known_view(known@),
                ids.len() == i,
                types.len() == i,
                (ids@, next) == typing::assigned_ids(all, given, i as int),
                types_view(types@) == typing::variable_types(all, i as int),
        {
            assert(all[i as int] == decls@[i as int]@);
            let id: DefId = match declared_name(&decls[i]) {
                None => DefId(u32::MAX),
                Some(name) => match known_id(known, name) {
                    Some(id) => id,
                    None => {
                        let id: DefId = DefId(next);
                        next = following(next);
                        id
                    },
                },
            };
            ids.push(id);
            let ty: Type = match &decls[i] {
                Decl::Variable(v) => match &v.ty {
                    Some(ty) => ty.clone(),
                    None => infer_ast_type_with_globals(decls, &types, i, &v.value),
                },
                _ => Type::Unit,
            };
            types.push(ty);
        }
        TypedLowerer { program, ids, types }
    }

    fn find(&self, name: &String, sort: Sort) -> (r: Option<usize>)
        requires
            self.wf(),
        ensures
            match r {
                Some(i) => {
                    &&& self.ctx().find(name@, sort) == Some(i as int)
                    &&& i < self.program.declarations@.len()
                    &&& typing::is_of_sort(self.program.declarations@[i as int]@, sort)
                    &&& self.ctx().decls[i as int] == self.program.declarations@[i as int]@
                    &&& self.ctx().types[i as int] == self.types@[i as int]@
                },
                None => self.ctx().find(name@, sort) is None,
            },
    {
        find_declaration(
            &self.program.declarations,
            self.program.declarations.len(),
            name,
            sort,
        )
    }

    fn id_of(&self, name: &String) -> (r: DefId)
        requires
            self.wf(),
        ensures
            r == typing::id_of(self.ctx(), name@),
    {
        match self.find(name, Sort::Any) {
            Some(i) => self.ids[i],
            None => DefId(u32::MAX),
        }
    }

    fn resolve(&self, ty: &Type) -> (r: ResolvedType)
        requires
            self.wf(),
        ensures
            r == typing::resolved(self.ctx(), ty@),
        decreases ty,
    {
        match ty {
            Type::Unit => ResolvedType::Unit,
            Type::Named(name) => match builtin_type(name) {
                Some(ty) => ty,
                None => match self.find(name, Sort::Struct) {
                    Some(i) => ResolvedType::Struct(self.ids[i]),
                    None => ResolvedType::Struct(DefId(u32::MAX)),
                },
            },
            Type::Array { length, element } => ResolvedType::Array {
                length: *length,
                element: Box::new(self.resolve(element)),
            },
            Type::Pointer(element) => ResolvedType::Pointer(Box::new(self.resolve(element))),
            Type::Slice(element) => ResolvedType::Slice(Box::new(self.resolve(element))),
            Type::Result { success, error } => ResolvedType::Result {
                success: Box::new(self.resolve(success)),
                error: Box::new(self.resolve(error)),
            },
        }
    }

    fn struct_name(&self, id: DefId) -> (r: String)
        requires
            self.wf(),
        ensures
            r@ == typing::struct_name(self.ctx(), id),
    {
        let ghost ctx = self.ctx();
        let mut i: usize = self.ids.len();
        while i > 0
            invariant
                self.wf(),
                ctx == self.ctx(),
                i <= self.ids.len(),
                typing::find_struct_by_id(ctx, ctx.decls.len() as int, id)
                    == typing::find_struct_by_id(ctx, i as int, id),
            decreases i,
        {
            assert(ctx.decls[i - 1] == self.program.declarations@[i - 1]@);
            match &self.program.declarations[i - 1] {
                Decl::Struct(s) => {
                    if self.ids[i - 1] == id {
                        return s.name.clone();
                    }
                },
                _ => {},
            }
            i -= 1;
        }
        "<unknown-struct>".to_owned()
    }

    fn ast_from_resolved(&self, ty: &ResolvedType) -> (r: Type)
        requires
            self.wf(),
        ensures
            r@ == typing::written(self.ctx(), *ty),
        decreases ty,
    {
        match ty {
            ResolvedType::Unit => Type::Unit,
            ResolvedType::Bool => named("bool"),
            ResolvedType::Integer { width, signed } => named(integer_name(*width, *signed)),
            ResolvedType::Float { bits } => {
                if *bits == 32 {
                    named("f32")
                } else {
                    named("f64")
                }
            },
            ResolvedType::Struct(id) => Type::Named(self.struct_name(*id)),
            ResolvedType::Array { length, element } => Type::Array {
                length: *length,
                element: Box::new(self.ast_from_resolved(element)),
            },
            ResolvedType::Pointer(element) => Type::Pointer(
                Box::new(self.ast_from_resolved(element)),
            ),
            ResolvedType::Slice(element) => Type::Slice(Box::new(self.ast_from_resolved(element))),
            ResolvedType::Result { success, error } => Type::Result {
                success: Box::new(self.ast_from_resolved(success)),
                error: Box::new(self.ast_from_resolved(error)),
            },
        }
    }

    fn validate_type(&self, ty: &Type, span: Span) -> (r: Result<(), SemanticError>)
        requires
            self.wf(),
        ensures
            check_outcome(r) == typing::checked_type(self.ctx(), ty@, span),
        decreases ty, 0int,
    {
        match ty {
            Type::Unit => Ok(()),
            Type::Named(name) => {
                if builtin_type(name).is_some() || self.find(name, Sort::Struct).is_some() {
                    Ok(())
                } else {
                    Err(SemanticError::UnknownType { name: name.clone(), span })
                }
            },
            Type::Array { element, .. } => self.validate_value_type(element, span),
            Type::Slice(element) => self.validate_value_type(element, span),
            Type::Pointer(element) => {
                if is_void(element) {
                    Ok(())
                } else {
                    self.validate_value_type(element, span)
                }
            },
            Type::Result { success, error } => {
                self.validate_type(success, span)?;
                self.validate_value_type(error, span)
            },
        }
    }

    fn validate_value_type(&self, ty: &Type, span: Span) -> (r: Result<(), SemanticError>)
        requires
            self.wf(),
        ensures
            check_outcome(r) == typing::checked_value_type(self.ctx(), ty@, span),
        decreases ty, 1int,
    {
        if is_void(ty) {
            return Err(SemanticError::UnknownType { name: "void".to_owned(), span });
        }
        self.validate_type(ty, span)
    }

    fn validate_program(&self) -> (r: Result<(), SemanticError>)
        requires
            self.wf(),
        ensures
            check_outcome(r) == typing::checked_declarations(self.ctx(), 0),
    {
        let decls: &Vec<Decl> = &self.program.declarations;
        let ghost ctx = self.ctx();
        for i in 0..decls.len()
            invariant
                self.wf(),
                *decls == self.program.declarations,
                ctx == self.ctx(),
                typing::checked_declarations(ctx, 0) == typing::checked_declarations(
                    ctx,
                    i as int,
                ),
        {
            let d: &Decl = &decls[i];
            assert(ctx.decls[i as int] == d@);
            match declared_name(d) {
                None => {},
                Some(name) => {
                    if find_declaration(decls, i, name, Sort::Any).is_some() {
                        return Err(
                            SemanticError::DuplicateName {
                                name: name.clone(),
                                span: declared_span(d),
                            },
                        );
                    }
                    self.validate_declaration(d)?;
                },
            }
        }
        Ok(())
    }

    fn validate_declaration(&self, d: &Decl) -> (r: Result<(), SemanticError>)
        requires
            self.wf(),
        ensures
            check_outcome(r) == typing::checked_declaration(self.ctx(), d@),
    {
        match d {
            Decl::Function(f) => self.validate_function(f),
            Decl::Struct(s) => self.validate_fields(&s.fields),
            Decl::Variable(v) => match &v.ty {
                Some(ty) => self.validate_value_type(ty, v.span),
                None => Ok(()),
            },
            Decl::Comptime { .. } => Ok(()),
        }
    }

    fn validate_function(&self, f: &FunctionDecl) -> (r: Result<(), SemanticError>)
        requires
            self.wf(),
        ensures
            check_outcome(r) == typing::checked_function(self.ctx(), f@),
    {
        match &f.abi {
            Some(abi) => {
                if !text_is(abi, "c") {
                    return Err(SemanticError::InvalidAbi { abi: abi.clone(), span: f.span });
                }
            },
            None => {},
        }
        let ghost ctx = self.ctx();
        let ghost params = parameters_view(f.params@);
        for i in 0..f.params.len()
            invariant
                self.wf(),
                ctx == self.ctx(),
                params == parameters_view(f.params@),
                typing::checked_function(ctx, f@) == (match typing::checked_parameters(
                    ctx,
                    params,
                    i as int,
                ) {
                    Err(error) => Err(error),
                    Ok(()) => typing::checked_type(ctx, f@.return_type, f@.span),
                }),
        {
            assert(params[i as int] == f.params@[i as int]@);
            self.validate_value_type(&f.params[i].ty, f.params[i].span)?;
        }
        self.validate_type(&f.return_type, f.span)
    }

    fn validate_fields(&self, fields: &Vec<StructField>) -> (r: Result<(), SemanticError>)
        requires
            self.wf(),
        ensures
            check_outcome(r) == typing::checked_fields(self.ctx(), fields_view(fields@), 0),
    {
        let ghost ctx = self.ctx();
        let ghost all = fields_view(fields@);
        for i in 0..fields.len()
            invariant
                self.wf(),
                ctx == self.ctx(),
                all == fields_view(fields@),
                typing::checked_fields(ctx, all, 0) == typing::checked_fields(ctx, all, i as int),
        {
            assert(all[i as int] == fields@[i as int]@);
            if has_field(fields, i, &fields[i].name) {
                return Err(
                    SemanticError::DuplicateName {
                        name: fields[i].name.clone(),
                        span: fields[i].span,
                    },
                );
            }
            self.validate_value_type(&fields[i].ty, fields[i].span)?;
        }
        Ok(())
    }

    // -----------------------------------------------------------------------
    // Expressions
    // -----------------------------------------------------------------------

    fn ensure_expected(
        &self,
        expected: &Option<ResolvedType>,
        actual: &ResolvedType,
        span: Span,
    ) -> (r: Result<(), SemanticError>)
        requires
            self.wf(),
        ensures
            check_outcome(r) == typing::expected_type(self.ctx(), *expected, *actual, span),
    {
        match expected {
            Some(wanted) => {
                if wanted.same(actual) {
                    Ok(())
                } else {
                    Err(
                        SemanticError::TypeMismatch {
                            expected: self.ast_from_resolved(wanted),
                            found: self.ast_from_resolved(actual),
                            span,
                        },
                    )
                }
            },
            None => Ok(()),
        }
    }

    fn lookup(&self, scope: &Scope, name: &String) -> (r: Option<usize>)
        ensures
            match r {
                Some(i) => i < scope.locals@.len() && typing::binding_of(
                    bindings_view(scope.locals@),
                    scope.locals@.len() as int,
                    name@,
                ) == Some(scope.locals@[i as int]@),
                None => typing::binding_of(
                    bindings_view(scope.locals@),
                    scope.locals@.len() as int,
                    name@,
                ) is None,
            },
    {
        let ghost all = bindings_view(scope.locals@);
        let mut i: usize = scope.locals.len();
        while i > 0
            invariant
                i <= scope.locals.len(),
                all == bindings_view(scope.locals@),
                typing::binding_of(all, scope.locals@.len() as int, name@) == typing::binding_of(
                    all,
                    i as int,
                    name@,
                ),
            decreases i,
        {
            assert(all[i - 1] == scope.locals@[i - 1]@);
            if scope.locals[i - 1].name == *name {
                return Some(i - 1);
            }
            i -= 1;
        }
        None
    }

    fn variable_type(&self, v: &VariableDecl) -> (r: ResolvedType)
        requires
            self.wf(),
        ensures
            r == typing::variable_type(self.ctx(), v@),
    {
        match &v.ty {
            Some(ty) => self.resolve(ty),
            None => self.resolve(
                &infer_ast_type_with_globals(
                    &self.program.declarations,
                    &self.types,
                    self.program.declarations.len(),
                    &v.value,
                ),
            ),
        }
    }

    fn constant_integer(&self, e: &Expr) -> (r: Option<i128>)
        requires
            self.wf(),
        ensures
            r == typing::plain_integer(self.ctx(), e@),
    {
        match e {
            Expr::Integer { value, .. } => Some(*value),
            Expr::Identifier { name, .. } => match self.find(name, Sort::Constant) {
                Some(i) => match &self.program.declarations[i] {
                    Decl::Variable(v) => match &v.value {
                        Expr::Integer { value, .. } => Some(*value),
                        _ => None,
                    },
                    _ => None,
                },
                None => None,
            },
            _ => None,
        }
    }

    fn lower_expr(
        &self,
        scope: &Scope,
        e: &Expr,
        expected: &Option<ResolvedType>,
        depth: usize,
    ) -> (r: Result<TypedExpr, SemanticError>)
        requires
            self.wf(),
        ensures
            typed_outcome(r) == typing::lowered(self.env(scope), e@, *expected, depth as nat),
        decreases
                depth,
                e,
                (if typing::is_place(e@) {
                    3int
                } else {
                    1int
                }),
    {
        let span: Span = e.span();
        match e {
            Expr::Comptime { .. } => Err(
                bad_operand("compile-time marker was not expanded before lowering", span),
            ),
            Expr::Integer { value, .. } => {
                let ty: ResolvedType = match expected {
                    Some(wanted) => {
                        if wanted.is_integer() {
                            wanted.clone()
                        } else {
                            sized(32, true)
                        }
                    },
                    None => sized(32, true),
                };
                self.ensure_expected(expected, &ty, span)?;
                Ok(TypedExpr::Integer { value: *value, ty, span })
            },
            Expr::Float { value, .. } => {
                let ty: ResolvedType = match expected {
                    Some(wanted) => match wanted {
                        ResolvedType::Float { .. } => wanted.clone(),
                        _ => ResolvedType::Float { bits: 64 },
                    },
                    None => ResolvedType::Float { bits: 64 },
                };
                self.ensure_expected(expected, &ty, span)?;
                Ok(TypedExpr::Float { value: value.clone(), ty, span })
            },
            Expr::Bool { value, .. } => {
                self.ensure_expected(expected, &ResolvedType::Bool, span)?;
                Ok(TypedExpr::Bool { value: *value, ty: ResolvedType::Bool, span })
            },
            Expr::String { .. } => Err(
                bad_operand("strings are only available in compile-time context", span),
            ),
            Expr::Propagate { expression, .. } => {
                let value: TypedExpr = self.lower_expr(scope, expression, &None, depth)?;
                self.propagate(scope, value, span)
            },
            Expr::Null { .. } => match expected {
                Some(ty) => Ok(TypedExpr::Null { ty: ty.clone(), span }),
                None => Err(bad_operand("null requires a pointer context", span)),
            },
            Expr::SizeOf { ty, .. } => Ok(self.layout_query(LayoutKind::Size, ty, None, span)),
            Expr::AlignOf { ty, .. } => Ok(self.layout_query(LayoutKind::Align, ty, None, span)),
            Expr::OffsetOf { ty, field, .. } => Ok(
                self.layout_query(LayoutKind::Offset, ty, Some(field.clone()), span),
            ),
            Expr::Identifier { .. } => self.lower_identifier(scope, e, expected, depth),
            Expr::StructLiteral { .. } => self.lower_struct_literal(scope, e, depth),
            Expr::ArrayLiteral { .. } => self.lower_array_literal(scope, e, depth),
            Expr::Field { .. } => {
                let place: TypedPlace = self.lower_place(scope, e, depth)?;
                let ty: ResolvedType = place.ty();
                Ok(TypedExpr::Field { place: Box::new(place), ty, span })
            },
            Expr::Index { .. } => {
                let place: TypedPlace = self.lower_place(scope, e, depth)?;
                let ty: ResolvedType = place.ty();
                Ok(TypedExpr::Index { place: Box::new(place), ty, span })
            },
            Expr::UncheckedIndex { .. } => {
                let place: TypedPlace = self.lower_place(scope, e, depth)?;
                let ty: ResolvedType = place.ty();
                Ok(TypedExpr::Index { place: Box::new(place), ty, span })
            },
            Expr::Unary { operator, operand, .. } => match operator {
                UnaryOp::AddressOf => {
                    let place: TypedPlace = self.lower_place(scope, operand, depth)?;
                    let ty: ResolvedType = ResolvedType::Pointer(Box::new(place.ty()));
                    Ok(TypedExpr::AddressOf { place: Box::new(place), ty, span })
                },
                UnaryOp::Dereference => {
                    let place: TypedPlace = self.lower_place(scope, e, depth)?;
                    let ty: ResolvedType = place.ty();
                    Ok(TypedExpr::Dereference { place: Box::new(place), ty, span })
                },
                _ => {
                    let value: TypedExpr = if *operator == UnaryOp::Not {
                        self.lower_expr(scope, operand, &Some(ResolvedType::Bool), depth)?
                    } else {
                        self.lower_expr(scope, operand, expected, depth)?
                    };
                    let ty: ResolvedType = value.ty();
                    Ok(
                        TypedExpr::Unary {
                            operator: *operator,
                            operand: Box::new(value),
                            ty,
                            span,
                        },
                    )
                },
            },
            Expr::Binary { left, operator, right, .. } => {
                let left_type: Option<ResolvedType> = left_expectation(*operator, left, expected);
                let a: TypedExpr = self.lower_expr(scope, left, &left_type, depth)?;
                let right_type: Option<ResolvedType> = right_expectation(
                    *operator,
                    &a.ty(),
                    right,
                );
                let b: TypedExpr = self.lower_expr(scope, right, &right_type, depth)?;
                self.combine(*operator, a, b, expected, right.span(), span)
            },
            Expr::Call { .. } => self.lower_call(scope, e, depth),
        }
    }

    fn lower_identifier(
        &self,
        scope: &Scope,
        e: &Expr,
        expected: &Option<ResolvedType>,
        depth: usize,
    ) -> (r: Result<TypedExpr, SemanticError>)
        requires
            self.wf(),
            e is Identifier,
        ensures
            typed_outcome(r) == typing::lowered(self.env(scope), e@, *expected, depth as nat),
        decreases depth, e, 0int,
    {
        let span: Span = e.span();
        match e {
            Expr::Identifier { name, .. } => {
                match self.lookup(scope, name) {
                    Some(i) => {
                        let binding: &Binding = &scope.locals[i];
                        self.ensure_expected(expected, &binding.ty, span)?;
                        return Ok(
                            TypedExpr::Load {
                                id: binding.id,
                                name: name.clone(),
                                ty: binding.ty.clone(),
                                span,
                            },
                        );
                    },
                    None => {},
                }
                match self.find(name, Sort::Variable) {
                    Some(i) => {
                        let ty: ResolvedType = self.resolve(&self.types[i]);
                        self.ensure_expected(expected, &ty, span)?;
                        if !is_of_sort(&self.program.declarations[i], Sort::Constant) {
                            return Ok(
                                TypedExpr::GlobalLoad {
                                    id: self.ids[i],
                                    name: name.clone(),
                                    ty,
                                    span,
                                },
                            );
                        }
                    },
                    None => {},
                }
                match self.find(name, Sort::Constant) {
                    Some(i) => {
                        if depth == 0 {
                            return Err(bad_operand("constant is defined by itself", span));
                        }
                        match &self.program.declarations[i] {
                            Decl::Variable(v) => {
                                let ty: ResolvedType = self.variable_type(v);
                                self.lower_expr(scope, &v.value, &Some(ty), depth - 1)
                            },
                            _ => Err(SemanticError::UndefinedName { name: name.clone(), span }),
                        }
                    },
                    None => Err(SemanticError::UndefinedName { name: name.clone(), span }),
                }
            },
            _ => Err(SemanticError::InvalidAssignmentTarget { span }),
        }
    }

    fn lower_struct_literal(&self, scope: &Scope, e: &Expr, depth: usize) -> (r: Result<
        TypedExpr,
        SemanticError,
    >)
        requires
            self.wf(),
            e is StructLiteral,
        ensures
            forall|expected: Option<ResolvedType>|
                typed_outcome(r) == #[trigger] typing::lowered(
                    self.env(scope),
                    e@,
                    expected,
                    depth as nat,
                ),
        decreases depth, e, 0int,
    {
        let span: Span = e.span();
        match e {
            Expr::StructLiteral { name, fields, .. } => {
                let i: usize = match self.find(name, Sort::Struct) {
                    Some(i) => i,
                    None => {
                        return Err(SemanticError::UnknownType { name: name.clone(), span });
                    },
                };
                match &self.program.declarations[i] {
                    Decl::Struct(structure) => {
                        check_inits(&structure.fields, fields)?;
                        let values: Vec<TypedExpr> = self.lower_fields(
                            scope,
                            name,
                            &structure.fields,
                            fields,
                            span,
                            depth,
                        )?;
                        Ok(
                            TypedExpr::StructLiteral {
                                ty: ResolvedType::Struct(self.ids[i]),
                                fields: values,
                                span,
                            },
                        )
                    },
                    _ => Err(SemanticError::UnknownType { name: name.clone(), span }),
                }
            },
            _ => Err(SemanticError::InvalidAssignmentTarget { span }),
        }
    }

    fn lower_fields(
        &self,
        scope: &Scope,
        name: &String,
        fields: &Vec<StructField>,
        inits: &Vec<StructInit>,
        span: Span,
        depth: usize,
    ) -> (r: Result<Vec<TypedExpr>, SemanticError>)
        requires
            self.wf(),
        ensures
            list_outcome(r) == typing::lowered_fields(
                self.env(scope),
                name@,
                fields_view(fields@),
                inits_view(inits@),
                0,
                Seq::empty(),
                span,
                depth as nat,
            ),
        decreases depth, inits, 0int,
    {
        let ghost env = self.env(scope);
        let ghost all = fields_view(fields@);
        let ghost given = inits_view(inits@);
        let mut out: Vec<TypedExpr> = Vec::new();
        assert(typed_exprs_view(out@) =~= Seq::empty());
        for i in 0..fields.len()
            invariant
                self.wf(),
                env == self.env(scope),
                all == fields_view(fields@),
                given == inits_view(inits@),
                typing::lowered_fields(
                    env,
                    name@,
                    all,
                    given,
                    0,
                    Seq::empty(),
                    span,
                    depth as nat,
                ) == typing::lowered_fields(
                    env,
                    name@,
                    all,
                    given,
                    i as int,
                    typed_exprs_view(out@),
                    span,
                    depth as nat,
                ),
        {
            assert(all[i as int] == fields@[i as int]@);
            let k: usize = match init_index(inits, &fields[i].name) {
                Some(k) => k,
                None => {
                    let message: String = joined(
                        joined(
                            joined(
                                joined("missing field `".to_owned(), fields[i].name.as_str()),
                                "` in `",
                            ),
                            name.as_str(),
                        ),
                        "`",
                    );
                    return Err(SemanticError::InvalidOperand { message, span });
                },
            };
            assert(given[k as int] == inits@[k as int]@);
            let ty: ResolvedType = self.resolve(&fields[i].ty);
            let value: TypedExpr = self.lower_expr(scope, &inits[k].value, &Some(ty), depth)?;
            out.push(value);
        }
        Ok(out)
    }

    fn lower_array_literal(&self, scope: &Scope, e: &Expr, depth: usize) -> (r: Result<
        TypedExpr,
        SemanticError,
    >)
        requires
            self.wf(),
            e is ArrayLiteral,
        ensures
            forall|expected: Option<ResolvedType>|
                typed_outcome(r) == #[trigger] typing::lowered(
                    self.env(scope),
                    e@,
                    expected,
                    depth as nat,
                ),
        decreases depth, e, 0int,
    {
        let span: Span = e.span();
        match e {
            Expr::ArrayLiteral { ty, elements, .. } => match ty {
                Type::Array { length, element } => {
                    assert(exprs_view(elements@).len() == elements@.len());
                    if elements.len() as u64 != *length {
                        let wanted: String = decimal_text(*length as u128);
                        let found: String = decimal_text(elements.len() as u128);
                        let message: String = joined(
                            joined(
                                joined("array literal expects ".to_owned(), wanted.as_str()),
                                " elements, got ",
                            ),
                            found.as_str(),
                        );
                        return Err(SemanticError::InvalidOperand { message, span });
                    }
                    let element_type: ResolvedType = self.resolve(element);
                    let values: Vec<TypedExpr> = self.lower_elements(
                        scope,
                        elements,
                        element_type,
                        depth,
                    )?;
                    Ok(TypedExpr::ArrayLiteral { ty: self.resolve(ty), elements: values, span })
                },
                _ => Err(bad_operand("array literal requires an array type", span)),
            },
            _ => Err(SemanticError::InvalidAssignmentTarget { span }),
        }
    }

    fn lower_elements(
        &self,
        scope: &Scope,
        es: &Vec<Expr>,
        ty: ResolvedType,
        depth: usize,
    ) -> (r: Result<Vec<TypedExpr>, SemanticError>)
        requires
            self.wf(),
        ensures
            list_outcome(r) == typing::lowered_elements(
                self.env(scope),
                exprs_view(es@),
                ty,
                0,
                Seq::empty(),
                depth as nat,
            ),
        decreases depth, es, 0int,
    {
        let ghost env = self.env(scope);
        let ghost all = exprs_view(es@);
        let mut out: Vec<TypedExpr> = Vec::new();
        assert(typed_exprs_view(out@) =~= Seq::empty());
        let expected: Option<ResolvedType> = Some(ty);
        for i in 0..es.len()
            invariant
                self.wf(),
                env == self.env(scope),
                all == exprs_view(es@),
                expected == Some(ty),
                typing::lowered_elements(env, all, ty, 0, Seq::empty(), depth as nat)
                    == typing::lowered_elements(
                    env,
                    all,
                    ty,
                    i as int,
                    typed_exprs_view(out@),
                    depth as nat,
                ),
        {
            assert(all[i as int] == es@[i as int]@);
            let value: TypedExpr = self.lower_expr(scope, &es[i], &expected, depth)?;
            out.push(value);
        }
        Ok(out)
    }

    fn lower_arguments(
        &self,
        scope: &Scope,
        es: &Vec<Expr>,
        types: &Vec<ResolvedType>,
        depth: usize,
    ) -> (r: Result<Vec<TypedExpr>, SemanticError>)
        requires
            self.wf(),
            es.len() == types.len(),
        ensures
            list_outcome(r) == typing::lowered_arguments(
                self.env(scope),
                exprs_view(es@),
                types@,
                0,
                Seq::empty(),
                depth as nat,
            ),
        decreases depth, es, 0int,
    {
        let ghost env = self.env(scope);
        let ghost all = exprs_view(es@);
        let mut out: Vec<TypedExpr> = Vec::new();
        assert(typed_exprs_view(out@) =~= Seq::empty());
        for i in 0..es.len()
            invariant
                self.wf(),
                env == self.env(scope),
                all == exprs_view(es@),
                es.len() == types.len(),
                typing::lowered_arguments(env, all, types@, 0, Seq::empty(), depth as nat)
                    == typing::lowered_arguments(
                    env,
                    all,
                    types@,
                    i as int,
                    typed_exprs_view(out@),
                    depth as nat,
                ),
        {
            assert(all[i as int] == es@[i as int]@);
            let expected: Option<ResolvedType> = Some(types[i].clone());
            let value: TypedExpr = self.lower_expr(scope, &es[i], &expected, depth)?;
            out.push(value);
        }
        Ok(out)
    }

    fn propagate(&self, scope: &Scope, value: TypedExpr, span: Span) -> (r: Result<
        TypedExpr,
        SemanticError,
    >)
        requires
            self.wf(),
        ensures
            typed_outcome(r) == typing::propagated(self.env(scope), value@, span),
    {
        match value.ty() {
            ResolvedType::Result { success, error } => match &scope.output {
                ResolvedType::Result { error: own, .. } => {
                    if !own.same(&error) {
                        return Err(
                            SemanticError::InvalidPropagation {
                                message:
                                    "propagated error type is incompatible with the current return type".to_owned(),
                                span,
                            },
                        );
                    }
                    Ok(TypedExpr::Propagate { value: Box::new(value), ty: *success, span })
                },
                output => {
                    let code: ResolvedType = ResolvedType::Integer {
                        width: IntegerWidth::Bits(32),
                        signed: true,
                    };
                    if scope.is_main && output.same(&code) {
                        return Ok(
                            TypedExpr::Propagate { value: Box::new(value), ty: *success, span },
                        );
                    }
                    Err(
                        SemanticError::InvalidPropagation {
                            message: "`?` requires a result-returning function".to_owned(),
                            span,
                        },
                    )
                },
            },
            _ => Err(
                SemanticError::InvalidPropagation {
                    message: "`?` requires a result value".to_owned(),
                    span,
                },
            ),
        }
    }

    fn layout_query(
        &self,
        kind: LayoutKind,
        ty: &Type,
        field: Option<String>,
        span: Span,
    ) -> (r: TypedExpr)
        requires
            self.wf(),
        ensures
            r@ == typing::layout_query(
                self.ctx(),
                kind,
                ty@,
                match field {
                    Some(name) => Some(name@),
                    None => None,
                },
                span,
            ),
    {
        TypedExpr::Layout { kind, ty: pointer_sized(false), target: self.resolve(ty), field, span }
    }

    fn combine(
        &self,
        operator: BinaryOp,
        a: TypedExpr,
        b: TypedExpr,
        expected: &Option<ResolvedType>,
        right_span: Span,
        span: Span,
    ) -> (r: Result<TypedExpr, SemanticError>)
        requires
            self.wf(),
        ensures
            typed_outcome(r) == typing::combined(
                self.ctx(),
                operator,
                a@,
                b@,
                *expected,
                right_span,
                span,
            ),
    {
        let operand_type: ResolvedType = a.ty();
        let right_type: ResolvedType = b.ty();
        let boolean: bool = is_logical(operator) || is_comparison(operator);
        let arithmetic: bool = is_pointer(&operand_type) && moves(operator)
            && right_type.is_integer();
        if !boolean && !arithmetic && !right_type.same(&operand_type) {
            return Err(
                SemanticError::TypeMismatch {
                    expected: self.ast_from_resolved(&operand_type),
                    found: self.ast_from_resolved(&right_type),
                    span: right_span,
                },
            );
        }
        let ty: ResolvedType = if boolean {
            ResolvedType::Bool
        } else if is_pointer(&operand_type) && is_pointer(&right_type) && operator
            == BinaryOp::Subtract {
            pointer_sized(true)
        } else {
            operand_type.clone()
        };
        self.ensure_expected(expected, &ty, span)?;
        Ok(
            TypedExpr::Binary {
                left: Box::new(a),
                operator,
                right: Box::new(b),
                ty,
                operand_type,
                span,
            },
        )
    }

    fn lower_call(&self, scope: &Scope, e: &Expr, depth: usize) -> (r: Result<
        TypedExpr,
        SemanticError,
    >)
        requires
            self.wf(),
            e is Call,
        ensures
            forall|expected: Option<ResolvedType>|
                typed_outcome(r) == #[trigger] typing::lowered(
                    self.env(scope),
                    e@,
                    expected,
                    depth as nat,
                ),
        decreases depth, e, 0int,
    {
        let span: Span = e.span();
        match e {
            Expr::Call { callee, arguments, .. } => match &**callee {
                Expr::Identifier { name, .. } => {
                    assert(callee@ == ExprView::Identifier { name: name@, span: callee@.span() });
                    assert(exprs_view(arguments@).len() == arguments@.len());
                    match Intrinsic::from_name(name) {
                        None => self.lower_function_call(scope, name, arguments, span, depth),
                        Some(Intrinsic::MakeSlice) => self.lower_make_slice(
                            scope,
                            name,
                            arguments,
                            span,
                            depth,
                        ),
                        Some(intrinsic) => match intrinsic.to_low_level() {
                            Some(operation) => self.lower_low_level(
                                scope,
                                name,
                                operation,
                                arguments,
                                span,
                                depth,
                            ),
                            None => self.lower_result_builtin(
                                scope,
                                name,
                                intrinsic,
                                arguments,
                                span,
                                depth,
                            ),
                        },
                    }
                },
                _ => Err(SemanticError::NotCallable { name: "<expression>".to_owned(), span }),
            },
            _ => Err(SemanticError::InvalidAssignmentTarget { span }),
        }
    }

    fn lower_function_call(
        &self,
        scope: &Scope,
        name: &String,
        arguments: &Vec<Expr>,
        span: Span,
        depth: usize,
    ) -> (r: Result<TypedExpr, SemanticError>)
        requires
            self.wf(),
        ensures
            typed_outcome(r) == typing::lowered_function_call(
                self.env(scope),
                name@,
                exprs_view(arguments@),
                span,
                depth as nat,
            ),
        decreases depth, arguments, 1int,
    {
        let i: usize = match self.find(name, Sort::Function) {
            Some(i) => i,
            None => {
                return Err(SemanticError::UndefinedName { name: name.clone(), span });
            },
        };
        match &self.program.declarations[i] {
            Decl::Function(f) => {
                let types: Vec<ResolvedType> = self.parameter_types(&f.params);
                assert(exprs_view(arguments@).len() == arguments@.len());
                if arguments.len() != types.len() {
                    return Err(wrong_count(name, types.len(), arguments.len(), span));
                }
                let values: Vec<TypedExpr> = self.lower_arguments(
                    scope,
                    arguments,
                    &types,
                    depth,
                )?;
                Ok(
                    TypedExpr::Call {
                        function: self.ids[i],
                        name: name.clone(),
                        arguments: values,
                        parameter_types: types,
                        ty: self.resolve(&f.return_type),
                        span,
                    },
                )
            },
            _ => Err(SemanticError::UndefinedName { name: name.clone(), span }),
        }
    }

    fn parameter_types(&self, params: &Vec<Parameter>) -> (r: Vec<ResolvedType>)
        requires
            self.wf(),
        ensures
            r@ == typing::parameter_types(self.ctx(), parameters_view(params@)),
    {
        let ghost wanted = typing::parameter_types(self.ctx(), parameters_view(params@));
        let mut out: Vec<ResolvedType> = Vec::new();
        for i in 0..params.len()
            invariant
                self.wf(),
                wanted == typing::parameter_types(self.ctx(), parameters_view(params@)),
                out@ == wanted.take(i as int),
        {
            assert(parameters_view(params@)[i as int] == params@[i as int]@);
            assert(wanted.take(i + 1) =~= wanted.take(i as int).push(wanted[i as int]));
            out.push(self.resolve(&params[i].ty));
        }
        assert(wanted.take(wanted.len() as int) =~= wanted);
        out
    }

    fn lower_make_slice(
        &self,
        scope: &Scope,
        name: &String,
        arguments: &Vec<Expr>,
        span: Span,
        depth: usize,
    ) -> (r: Result<TypedExpr, SemanticError>)
        requires
            self.wf(),
        ensures
            typed_outcome(r) == typing::lowered_make_slice(
                self.env(scope),
                name@,
                exprs_view(arguments@),
                span,
                depth as nat,
            ),
        decreases depth, arguments, 1int,
    {
        assert(exprs_view(arguments@).len() == arguments@.len());
        if arguments.len() != 2 {
            return Err(wrong_count(name, 2, arguments.len(), span));
        }
        assert(exprs_view(arguments@)[0] == arguments@[0]@);
        assert(exprs_view(arguments@)[1] == arguments@[1]@);
        let wanted: Option<ResolvedType> = match &arguments[0] {
            Expr::Null { .. } => Some(ResolvedType::Pointer(Box::new(sized(8, false)))),
            _ => None,
        };
        let pointer: TypedExpr = self.lower_expr(scope, &arguments[0], &wanted, depth)?;
        let length: TypedExpr = self.lower_expr(
            scope,
            &arguments[1],
            &Some(pointer_sized(false)),
            depth,
        )?;
        match pointer.ty() {
            ResolvedType::Pointer(element) => {
                let inner: ResolvedType = *element;
                let ty: ResolvedType = ResolvedType::Slice(Box::new(inner.clone()));
                Ok(
                    TypedExpr::MakeSlice {
                        pointer: Box::new(pointer),
                        length: Box::new(length),
                        element: inner,
                        ty,
                        span,
                    },
                )
            },
            _ => Err(bad_operand("make_slice requires a pointer argument", span)),
        }
    }

    fn lower_low_level(
        &self,
        scope: &Scope,
        name: &String,
        operation: LowLevelOperation,
        arguments: &Vec<Expr>,
        span: Span,
        depth: usize,
    ) -> (r: Result<TypedExpr, SemanticError>)
        requires
            self.wf(),
        ensures
            typed_outcome(r) == typing::lowered_low_level(
                self.env(scope),
                name@,
                operation,
                exprs_view(arguments@),
                span,
                depth as nat,
            ),
        decreases depth, arguments, 1int,
    {
        assert(exprs_view(arguments@).len() == arguments@.len());
        let wanted: usize = match operation {
            LowLevelOperation::Fence => 0,
            LowLevelOperation::VolatileLoad => 1,
            LowLevelOperation::AtomicLoad => 1,
            LowLevelOperation::VolatileStore => 2,
            LowLevelOperation::AtomicStore => 2,
        };
        if arguments.len() != wanted {
            return Err(wrong_count(name, wanted, arguments.len(), span));
        }
        let mut values: Vec<TypedExpr> = Vec::new();
        assert(typed_exprs_view(values@) =~= Seq::empty());
        if wanted == 0 {
            return Ok(
                TypedExpr::LowLevel {
                    operation,
                    arguments: values,
                    ty: ResolvedType::Unit,
                    span,
                },
            );
        }
        assert(exprs_view(arguments@)[0] == arguments@[0]@);
        let pointer: TypedExpr = self.lower_expr(scope, &arguments[0], &None, depth)?;
        match pointer.ty() {
            ResolvedType::Pointer(element) => {
                let ghost first = pointer@;
                values.push(pointer);
                assert(typed_exprs_view(values@) =~= seq![first]);
                if wanted == 1 {
                    return Ok(
                        TypedExpr::LowLevel { operation, arguments: values, ty: *element, span },
                    );
                }
                assert(exprs_view(arguments@)[1] == arguments@[1]@);
                let value: TypedExpr = self.lower_expr(
                    scope,
                    &arguments[1],
                    &Some(*element),
                    depth,
                )?;
                let ghost second = value@;
                values.push(value);
                assert(typed_exprs_view(values@) =~= seq![first, second]);
                Ok(
                    TypedExpr::LowLevel {
                        operation,
                        arguments: values,
                        ty: ResolvedType::Unit,
                        span,
                    },
                )
            },
            _ => {
                let message: String = joined(name.clone(), " requires a pointer argument");
                Err(SemanticError::InvalidOperand { message, span })
            },
        }
    }

    fn lower_result_builtin(
        &self,
        scope: &Scope,
        name: &String,
        intrinsic: Intrinsic,
        arguments: &Vec<Expr>,
        span: Span,
        depth: usize,
    ) -> (r: Result<TypedExpr, SemanticError>)
        requires
            self.wf(),
        ensures
            typed_outcome(r) == typing::lowered_result_builtin(
                self.env(scope),
                name@,
                intrinsic,
                exprs_view(arguments@),
                span,
                depth as nat,
            ),
        decreases depth, arguments, 1int,
    {
        assert(exprs_view(arguments@).len() == arguments@.len());
        assert(arguments@.len() > 0 ==> exprs_view(arguments@)[0] == arguments@[0]@);
        let first: Option<TypedExpr> = if arguments.len() > 0 {
            Some(self.lower_expr(scope, &arguments[0], &None, depth)?)
        } else {
            None
        };
        match intrinsic {
            Intrinsic::IsErr => match first {
                Some(value) => {
                    if arguments.len() != 1 {
                        return Err(wrong_count(name, 1, arguments.len(), span));
                    }
                    Ok(TypedExpr::IsErr { value: Box::new(value), ty: ResolvedType::Bool, span })
                },
                None => Err(wrong_count(name, 1, arguments.len(), span)),
            },
            Intrinsic::Unwrap => match first {
                Some(value) => {
                    if arguments.len() != 1 {
                        return Err(wrong_count(name, 1, arguments.len(), span));
                    }
                    match value.ty() {
                        ResolvedType::Result { success, .. } => Ok(
                            TypedExpr::Unwrap { value: Box::new(value), ty: *success, span },
                        ),
                        _ => Err(bad_operand("unwrap requires a result value", span)),
                    }
                },
                None => Err(wrong_count(name, 1, arguments.len(), span)),
            },
            _ => match &scope.output {
                ResolvedType::Result { success, error } => {
                    let good: bool = intrinsic == Intrinsic::ReturnOk;
                    let wanted: ResolvedType = if good {
                        (**success).clone()
                    } else {
                        (**error).clone()
                    };
                    let value: TypedExpr = if arguments.len() > 0 {
                        self.lower_expr(scope, &arguments[0], &Some(wanted), depth)?
                    } else {
                        let zero: TypedExpr = TypedExpr::Integer {
                            value: 0,
                            ty: sized(8, false),
                            span,
                        };
                        assert(zero@ == TypedExprView::Integer {
                            value: 0,
                            ty: typing::sized(8, false),
                            span,
                        });
                        zero
                    };
                    let ty: ResolvedType = scope.output.clone();
                    if good {
                        Ok(TypedExpr::ResultOk { value: Box::new(value), ty, span })
                    } else {
                        Ok(TypedExpr::ResultErr { value: Box::new(value), ty, span })
                    }
                },
                _ => Err(
                    SemanticError::InvalidPropagation {
                        message: "return_ok/return_err requires a result return type".to_owned(),
                        span,
                    },
                ),
            },
        }
    }

    fn lower_place(&self, scope: &Scope, e: &Expr, depth: usize) -> (r: Result<
        TypedPlace,
        SemanticError,
    >)
        requires
            self.wf(),
        ensures
            place_outcome(r) == typing::lowered_place(self.env(scope), e@, depth as nat),
        decreases depth, e, 2int,
    {
        match e {
            Expr::Identifier { name, span } => match self.lookup(scope, name) {
                Some(i) => Ok(
                    TypedPlace::Local {
                        id: scope.locals[i].id,
                        ty: scope.locals[i].ty.clone(),
                    },
                ),
                None => match self.find(name, Sort::Variable) {
                    Some(i) => Ok(
                        TypedPlace::Global {
                            id: self.ids[i],
                            name: name.clone(),
                            ty: self.resolve(&self.types[i]),
                        },
                    ),
                    None => Err(SemanticError::UndefinedName { name: name.clone(), span: *span }),
                },
            },
            Expr::Field { base, name, span } => {
                let place: TypedPlace = self.lower_place(scope, base, depth)?;
                self.field_place(place, name, *span)
            },
            Expr::Unary { operator, operand, span } => {
                if *operator == UnaryOp::Dereference {
                    let pointer: TypedExpr = self.lower_expr(scope, operand, &None, depth)?;
                    self.target_place(pointer, *span)
                } else {
                    let value: TypedExpr = self.lower_expr(scope, e, &None, depth)?;
                    Ok(temporary(value))
                }
            },
            Expr::Index { base, index, span } => {
                let place: TypedPlace = self.lower_place(scope, base, depth)?;
                let (element, length) = self.element_type(&place, *span)?;
                if out_of_bounds(self.constant_integer(index), length) {
                    return Err(
                        SemanticError::InvalidLiteral {
                            message: "array index is out of bounds".to_owned(),
                            span: index.span(),
                        },
                    );
                }
                let value: TypedExpr =
                    self.lower_expr(scope, index, &Some(pointer_sized(false)), depth)?;
                Ok(
                    TypedPlace::Index {
                        base: Box::new(place),
                        index: Box::new(value),
                        ty: element,
                        length,
                        checked: true,
                    },
                )
            },
            Expr::UncheckedIndex { base, index, span } => {
                let place: TypedPlace = self.lower_place(scope, base, depth)?;
                let (element, length) = self.element_type(&place, *span)?;
                let value: TypedExpr =
                    self.lower_expr(scope, index, &Some(pointer_sized(false)), depth)?;
                Ok(
                    TypedPlace::Index {
                        base: Box::new(place),
                        index: Box::new(value),
                        ty: element,
                        length,
                        checked: false,
                    },
                )
            },
            _ => {
                let value: TypedExpr = self.lower_expr(scope, e, &None, depth)?;
                Ok(temporary(value))
            },
        }
    }

    fn field_place(&self, place: TypedPlace, name: &String, span: Span) -> (r: Result<
        TypedPlace,
        SemanticError,
    >)
        requires
            self.wf(),
        ensures
            place_outcome(r) == typing::field_place(self.ctx(), place@, name@, span),
    {
        match self.ast_from_resolved(&place.ty()) {
            Type::Named(s) => {
                let i: usize = match self.find(&s, Sort::Struct) {
                    Some(i) => i,
                    None => {
                        return Err(SemanticError::UnknownType { name: s, span });
                    },
                };
                match &self.program.declarations[i] {
                    Decl::Struct(structure) => match field_index(&structure.fields, name) {
                        Some(k) => {
                            assert(fields_view(structure.fields@)[k as int]
                                == structure.fields@[k as int]@);
                            Ok(
                                TypedPlace::Field {
                                    base: Box::new(place),
                                    index: (k as u64 % 0x1_0000_0000) as u32,
                                    ty: self.resolve(&structure.fields[k].ty),
                                },
                            )
                        },
                        None => Err(unknown_field(name, span)),
                    },
                    _ => Err(SemanticError::UnknownType { name: s, span }),
                }
            },
            _ => Err(SemanticError::InvalidAssignmentTarget { span }),
        }
    }

    fn target_place(&self, pointer: TypedExpr, span: Span) -> (r: Result<
        TypedPlace,
        SemanticError,
    >)
        requires
            self.wf(),
        ensures
            place_outcome(r) == typing::target_place(self.ctx(), pointer@, span),
    {
        match self.ast_from_resolved(&pointer.ty()) {
            Type::Pointer(element) => {
                let ty: ResolvedType = self.resolve(&element);
                Ok(TypedPlace::Dereference { pointer: Box::new(pointer), ty })
            },
            _ => Err(SemanticError::InvalidAssignmentTarget { span }),
        }
    }

    fn element_type(&self, place: &TypedPlace, span: Span) -> (r: Result<
        (ResolvedType, Option<u64>),
        SemanticError,
    >)
        requires
            self.wf(),
        ensures
            match r {
                Ok(found) => typing::element_type(self.ctx(), place@, span) == Ok::<
                    (ResolvedType, Option<u64>),
                    SemanticErrorView,
                >(found),
                Err(error) => typing::element_type(self.ctx(), place@, span) == Err::<
                    (ResolvedType, Option<u64>),
                    SemanticErrorView,
                >(error@),
            },
    {
        match self.ast_from_resolved(&place.ty()) {
            Type::Array { length, element } => Ok((self.resolve(&element), Some(length))),
            Type::Slice(element) => Ok((self.resolve(&element), None)),
            _ => Err(SemanticError::InvalidAssignmentTarget { span }),
        }
    }

    fn place_is_mutable(&self, scope: &Scope, place: &TypedPlace) -> (r: bool)
        requires
            self.wf(),
        ensures
            r == typing::place_is_mutable(self.env(scope), place@),
        decreases place,
    {
        match place {
            TypedPlace::Local { id, .. } => local_is_mutable(&scope.locals, *id),
            TypedPlace::Global { name, .. } => match self.find(name, Sort::Variable) {
                Some(i) => !is_of_sort(&self.program.declarations[i], Sort::Constant),
                None => false,
            },
            TypedPlace::Temporary { .. } => false,
            TypedPlace::Field { base, .. } => self.place_is_mutable(scope, base),
            TypedPlace::Index { base, .. } => self.place_is_mutable(scope, base),
            TypedPlace::Dereference { .. } => true,
        }
    }

    // -----------------------------------------------------------------------
    // Statements
    // -----------------------------------------------------------------------

    /// An expression in a statement.
    fn lower_in(&self, scope: &Scope, e: &Expr, expected: &Option<ResolvedType>) -> (r: Result<
        TypedExpr,
        SemanticError,
    >)
        requires
            self.wf(),
        ensures
            forall|in_loop: bool|
                typed_outcome(r) == #[trigger] typing::lowered_in(
                    self.place(scope, in_loop),
                    scope.frame(),
                    e@,
                    *expected,
                ),
    {
        self.lower_expr(scope, e, expected, self.program.declarations.len())
    }

    fn new_local(
        &self,
        scope: &mut Scope,
        name: &String,
        ty: &ResolvedType,
        mutable: bool,
        span: Span,
    ) -> (r: Result<LocalId, SemanticError>)
        requires
            old(scope).wf(),
        ensures
            match r {
                Ok(id) => {
                    &&& typing::with_local(old(scope).frame(), name@, *ty, mutable, span) == Ok::<
                        (LocalId, Frame),
                        SemanticErrorView,
                    >((id, final(scope).frame()))
                    &&& kept(*old(scope), *final(scope))
                },
                Err(error) => typing::with_local(old(scope).frame(), name@, *ty, mutable, span)
                    == Err::<(LocalId, Frame), SemanticErrorView>(error@),
            },
    {
        let ghost frame = scope.frame();
        let mut i: usize = scope.start;
        while i < scope.locals.len()
            invariant
                *scope == *old(scope),
                frame == scope.frame(),
                scope.start <= i <= scope.locals.len(),
                forall|k: int| scope.start <= k < i ==> (#[trigger] frame.locals[k]).name != name@,
            decreases scope.locals.len() - i,
        {
            assert(frame.locals[i as int] == scope.locals@[i as int]@);
            if scope.locals[i].name == *name {
                assert(typing::declared_in_scope(frame, name@));
                return Err(SemanticError::DuplicateName { name: name.clone(), span });
            }
            i += 1;
        }
        let id: LocalId = LocalId(scope.next);
        let binding: Binding = Binding { name: name.clone(), id, ty: ty.clone(), mutable };
        proof {
            lemma_bindings_push(scope.locals@, binding);
        }
        scope.locals.push(binding);
        scope.next = if scope.next == u32::MAX {
            0
        } else {
            scope.next + 1
        };
        assert(!typing::declared_in_scope(frame, name@));
        Ok(id)
    }

    fn lower_block(&self, scope: &mut Scope, b: &Block, in_loop: bool) -> (r: Result<
        TypedBlock,
        SemanticError,
    >)
        requires
            self.wf(),
            old(scope).wf(),
        ensures
            match r {
                Ok(block) => {
                    &&& typing::lowered_block(
                        self.place(old(scope), in_loop),
                        old(scope).frame(),
                        b@,
                    ) == Ok::<(TypedBlockView, Frame), SemanticErrorView>(
                        (block@, final(scope).frame()),
                    )
                    &&& kept(*old(scope), *final(scope))
                },
                Err(error) => typing::lowered_block(
                    self.place(old(scope), in_loop),
                    old(scope).frame(),
                    b@,
                ) == Err::<(TypedBlockView, Frame), SemanticErrorView>(error@),
            },
        decreases b,
    {
        let count: usize = scope.locals.len();
        let start: usize = scope.start;
        scope.start = count;
        let ghost inner = *scope;
        let statements: Vec<TypedStmt> = self.lower_statements(scope, &b.statements, in_loop)?;
        let ghost after = scope.locals@;
        scope.locals.truncate(count);
        scope.start = start;
        proof {
            lemma_same_bindings(old(scope).locals@, after, scope.locals@);
        }
        Ok(TypedBlock { statements, span: b.span })
    }

    fn lower_statements(
        &self,
        scope: &mut Scope,
        statements: &Vec<Stmt>,
        in_loop: bool,
    ) -> (r: Result<Vec<TypedStmt>, SemanticError>)
        requires
            self.wf(),
            old(scope).wf(),
        ensures
            match r {
                Ok(found) => {
                    &&& typing::lowered_statements(
                        self.place(old(scope), in_loop),
                        old(scope).frame(),
                        stmts_view(statements@),
                        0,
                        Seq::empty(),
                    ) == Ok::<(Seq<TypedStmtView>, Frame), SemanticErrorView>(
                        (typed_stmts_view(found@), final(scope).frame()),
                    )
                    &&& kept(*old(scope), *final(scope))
                },
                Err(error) => typing::lowered_statements(
                    self.place(old(scope), in_loop),
                    old(scope).frame(),
                    stmts_view(statements@),
                    0,
                    Seq::empty(),
                ) == Err::<(Seq<TypedStmtView>, Frame), SemanticErrorView>(error@),
            },
        decreases statements,
    {
        let ghost place = self.place(scope, in_loop);
        let ghost frame = scope.frame();
        let ghost all = stmts_view(statements@);
        let mut out: Vec<TypedStmt> = Vec::new();
        assert(typed_stmts_view(out@) =~= Seq::empty());
        for i in 0..statements.len()
            invariant
                self.wf(),
                scope.wf(),
                kept(*old(scope), *scope),
                place == self.place(scope, in_loop),
                place == self.place(old(scope), in_loop),
                frame == old(scope).frame(),
                all == stmts_view(statements@),
                typing::lowered_statements(place, frame, all, 0, Seq::empty())
                    == typing::lowered_statements(
                    place,
                    scope.frame(),
                    all,
                    i as int,
                    typed_stmts_view(out@),
                ),
        {
            assert(all[i as int] == statements@[i as int]@);
            let statement: TypedStmt = self.lower_statement(scope, &statements[i], in_loop)?;
            out.push(statement);
        }
        Ok(out)
    }

    fn lower_statement(&self, scope: &mut Scope, s: &Stmt, in_loop: bool) -> (r: Result<
        TypedStmt,
        SemanticError,
    >)
        requires
            self.wf(),
            old(scope).wf(),
        ensures
            match r {
                Ok(statement) => {
                    &&& typing::lowered_statement(
                        self.place(old(scope), in_loop),
                        old(scope).frame(),
                        s@,
                    ) == Ok::<(TypedStmtView, Frame), SemanticErrorView>(
                        (statement@, final(scope).frame()),
                    )
                    &&& kept(*old(scope), *final(scope))
                },
                Err(error) => typing::lowered_statement(
                    self.place(old(scope), in_loop),
                    old(scope).frame(),
                    s@,
                ) == Err::<(TypedStmtView, Frame), SemanticErrorView>(error@),
            },
        decreases s,
    {
        match s {
            Stmt::If { condition, then_branch, else_branch, span } => {
                let test: TypedExpr = self.lower_in(scope, condition, &Some(ResolvedType::Bool))?;
                assert(typing::lowered_in(
                    self.place(old(scope), in_loop),
                    old(scope).frame(),
                    condition@,
                    Some(ResolvedType::Bool),
                ) == Ok::<TypedExprView, SemanticErrorView>(test@));
                let yes: TypedBlock = self.lower_block(scope, then_branch, in_loop)?;
                match else_branch {
                    None => Ok(
                        TypedStmt::If {
                            condition: test,
                            then_branch: yes,
                            else_branch: None,
                            span: *span,
                        },
                    ),
                    Some(branch) => {
                        let no: TypedBlock = self.lower_block(scope, branch, in_loop)?;
                        Ok(
                            TypedStmt::If {
                                condition: test,
                                then_branch: yes,
                                else_branch: Some(no),
                                span: *span,
                            },
                        )
                    },
                }
            },
            Stmt::While { condition, body, span } => {
                let test: TypedExpr = self.lower_in(scope, condition, &Some(ResolvedType::Bool))?;
                assert(typing::lowered_in(
                    self.place(old(scope), in_loop),
                    old(scope).frame(),
                    condition@,
                    Some(ResolvedType::Bool),
                ) == Ok::<TypedExprView, SemanticErrorView>(test@));
                let inner: TypedBlock = self.lower_block(scope, body, true)?;
                Ok(TypedStmt::While { condition: test, body: inner, span: *span })
            },
            Stmt::Break { span } => {
                if in_loop {
                    Ok(TypedStmt::Break { span: *span })
                } else {
                    Err(SemanticError::BreakOutsideLoop { span: *span })
                }
            },
            Stmt::Continue { span } => {
                if in_loop {
                    Ok(TypedStmt::Continue { span: *span })
                } else {
                    Err(SemanticError::ContinueOutsideLoop { span: *span })
                }
            },
            Stmt::Defer { call, span } => match self.lower_in(scope, call, &None)? {
                TypedExpr::Call { function, name, arguments, .. } => Ok(
                    TypedStmt::Defer { function, name, arguments, span: *span },
                ),
                _ => Err(
                    SemanticError::InvalidDefer {
                        message: "defer requires a named function call".to_owned(),
                        span: *span,
                    },
                ),
            },
            Stmt::Return { value, span } => match value {
                None => Ok(TypedStmt::Return { value: None, span: *span }),
                Some(e) => {
                    let expected: Option<ResolvedType> = Some(scope.output.clone());
                    let typed: TypedExpr = self.lower_in(scope, e, &expected)?;
                    Ok(TypedStmt::Return { value: Some(typed), span: *span })
                },
            },
            Stmt::Variable(v) => {
                let declared: Option<ResolvedType> = match &v.ty {
                    Some(ty) => Some(self.resolve(ty)),
                    None => None,
                };
                let value: TypedExpr = self.lower_in(scope, &v.value, &declared)?;
                let ty: ResolvedType = match declared {
                    Some(ty) => ty,
                    None => value.ty(),
                };
                let mutable: bool = v.kind != VariableKind::Immutable;
                let id: LocalId = self.new_local(scope, &v.name, &ty, mutable, v.span)?;
                Ok(
                    TypedStmt::Declare {
                        id,
                        name: v.name.clone(),
                        ty,
                        mutable,
                        value,
                        span: v.span,
                    },
                )
            },
            Stmt::Assignment { target, value, span } => {
                let place: TypedPlace = self.lower_place(
                    scope,
                    target,
                    self.program.declarations.len(),
                )?;
                if !self.place_is_mutable(scope, &place) {
                    return Err(
                        SemanticError::ImmutableAssignment {
                            name: place_name(target),
                            span: *span,
                        },
                    );
                }
                let ty: ResolvedType = place.ty();
                let expected: Option<ResolvedType> = Some(ty.clone());
                let typed: TypedExpr = self.lower_in(scope, value, &expected)?;
                Ok(TypedStmt::Store { target: place, value: typed, ty, span: *span })
            },
            Stmt::Expr { expression, span } => {
                let typed: TypedExpr = self.lower_in(scope, expression, &None)?;
                Ok(TypedStmt::Expr { expression: typed, span: *span })
            },
        }
    }

    // -----------------------------------------------------------------------
    // Functions and programs
    // -----------------------------------------------------------------------

    fn lower_parameters(&self, scope: &mut Scope, params: &Vec<Parameter>) -> (r: Result<
        Vec<TypedParameter>,
        SemanticError,
    >)
        requires
            self.wf(),
            old(scope).wf(),
        ensures
            match r {
                Ok(found) => {
                    &&& typing::lowered_parameters(
                        self.ctx(),
                        old(scope).frame(),
                        parameters_view(params@),
                        0,
                        Seq::empty(),
                    ) == Ok::<(Seq<TypedParameterView>, Frame), SemanticErrorView>(
                        (typed_parameters_view(found@), final(scope).frame()),
                    )
                    &&& kept(*old(scope), *final(scope))
                },
                Err(error) => typing::lowered_parameters(
                    self.ctx(),
                    old(scope).frame(),
                    parameters_view(params@),
                    0,
                    Seq::empty(),
                ) == Err::<(Seq<TypedParameterView>, Frame), SemanticErrorView>(error@),
            },
    {
        let ghost ctx = self.ctx();
        let ghost frame = scope.frame();
        let ghost all = parameters_view(params@);
        let mut out: Vec<TypedParameter> = Vec::new();
        assert(typed_parameters_view(out@) =~= Seq::empty());
        for i in 0..params.len()
            invariant
                self.wf(),
                scope.wf(),
                ctx == self.ctx(),
                kept(*old(scope), *scope),
                frame == old(scope).frame(),
                all == parameters_view(params@),
                typing::lowered_parameters(ctx, frame, all, 0, Seq::empty())
                    == typing::lowered_parameters(
                    ctx,
                    scope.frame(),
                    all,
                    i as int,
                    typed_parameters_view(out@),
                ),
        {
            let p: &Parameter = &params[i];
            assert(all[i as int] == p@);
            let ty: ResolvedType = self.resolve(&p.ty);
            let id: LocalId = self.new_local(scope, &p.name, &ty, true, p.span)?;
            out.push(TypedParameter { id, name: p.name.clone(), ty, span: p.span });
        }
        Ok(out)
    }

    fn lower_function(&self, f: &FunctionDecl) -> (r: Result<TypedFunction, SemanticError>)
        requires
            self.wf(),
        ensures
            match r {
                Ok(function) => typing::lowered_function(self.ctx(), f@) == Ok::<
                    TypedFunctionView,
                    SemanticErrorView,
                >(function@),
                Err(error) => typing::lowered_function(self.ctx(), f@) == Err::<
                    TypedFunctionView,
                    SemanticErrorView,
                >(error@),
            },
    {
        let output: ResolvedType = self.resolve(&f.return_type);
        let mut scope: Scope = Scope {
            is_main: text_is(&f.name, "main") && !f.is_extern,
            output: output.clone(),
            locals: Vec::new(),
            start: 0,
            next: 0,
        };
        assert(bindings_view(scope.locals@) =~= Seq::empty());
        assert(scope.frame() == typing::empty_frame());
        let params: Vec<TypedParameter> = self.lower_parameters(&mut scope, &f.params)?;
        let statements: Vec<TypedStmt> = self.lower_statements(
            &mut scope,
            &f.body.statements,
            false,
        )?;
        if !f.is_extern && !output.same(&ResolvedType::Unit) && block_may_fall_through(&f.body) {
            return Err(
                SemanticError::MissingReturn { function: f.name.clone(), span: f.body.span },
            );
        }
        let i: usize = match self.find(&f.name, Sort::Function) {
            Some(i) => i,
            None => {
                return Err(SemanticError::UndefinedName { name: f.name.clone(), span: f.span });
            },
        };
        Ok(
            TypedFunction {
                id: self.ids[i],
                name: f.name.clone(),
                params,
                return_type: output,
                body: TypedBlock { statements, span: f.body.span },
                span: f.span,
                is_extern: f.is_extern,
                abi: clone_optional(&f.abi),
                link_name: clone_optional(&f.link_name),
                exported: f.exported,
            },
        )
    }

    fn lower_functions(&self) -> (r: Result<Vec<TypedFunction>, SemanticError>)
        requires
            self.wf(),
        ensures
            match r {
                Ok(functions) => typing::lowered_functions(self.ctx(), 0, Seq::empty()) == Ok::<
                    Seq<TypedFunctionView>,
                    SemanticErrorView,
                >(typed_functions_view(functions@)),
                Err(error) => typing::lowered_functions(self.ctx(), 0, Seq::empty()) == Err::<
                    Seq<TypedFunctionView>,
                    SemanticErrorView,
                >(error@),
            },
    {
        let ghost ctx = self.ctx();
        let mut out: Vec<TypedFunction> = Vec::new();
        assert(typed_functions_view(out@) =~= Seq::empty());
        for i in 0..self.program.declarations.len()
            invariant
                self.wf(),
                ctx == self.ctx(),
                typing::lowered_functions(ctx, 0, Seq::empty()) == typing::lowered_functions(
                    ctx,
                    i as int,
                    typed_functions_view(out@),
                ),
        {
            assert(ctx.decls[i as int] == self.program.declarations@[i as int]@);
            match &self.program.declarations[i] {
                Decl::Function(f) => {
                    let function: TypedFunction = self.lower_function(f)?;
                    out.push(function);
                },
                _ => {},
            }
        }
        Ok(out)
    }

    fn lower_const_expr<F: Fn(FloatOp, String, String) -> FloatAnswer>(
        &self,
        e: &Expr,
        expected: &ResolvedType,
        floats: &F,
    ) -> (r: Result<TypedExpr, SemanticError>)
        requires
            self.wf(),
            answers(*floats),
        ensures
            typed_outcome(r) == typing::initial_value(
                float_model(*floats),
                self.ctx(),
                e@,
                *expected,
            ),
    {
        let scope: Scope = Scope {
            is_main: false,
            output: ResolvedType::Unit,
            locals: Vec::new(),
            start: 0,
            next: 0,
        };
        assert(bindings_view(scope.locals@) =~= Seq::empty());
        let wanted: Option<ResolvedType> = Some(expected.clone());
        let typed: TypedExpr = self.lower_expr(
            &scope,
            e,
            &wanted,
            self.program.declarations.len(),
        )?;
        let value: TypedExpr = fold_constant(&typed, floats);
        if !contains_layout_query(&value) && !typed_eval::is_constant(&value, floats) {
            return Err(
                bad_operand(
                    "global initializer is not supported by the typed evaluator",
                    e.span(),
                ),
            );
        }
        if !is_folded_constant(&value) {
            return Err(
                bad_operand(
                    "global initializer must be a compile-time evaluable constant",
                    e.span(),
                ),
            );
        }
        Ok(value)
    }

    fn lower_variables<F: Fn(FloatOp, String, String) -> FloatAnswer>(&self, floats: &F) -> (r:
        Result<(Vec<TypedGlobal>, Vec<TypedConstant>), SemanticError>)
        requires
            self.wf(),
            answers(*floats),
        ensures
            match r {
                Ok((globals, constants)) => typing::lowered_variables(
                    float_model(*floats),
                    self.ctx(),
                    0,
                    Seq::empty(),
                    Seq::empty(),
                ) == Ok::<(Seq<TypedGlobalView>, Seq<TypedConstantView>), SemanticErrorView>(
                    (typed_globals_view(globals@), typed_constants_view(constants@)),
                ),
                Err(error) => typing::lowered_variables(
                    float_model(*floats),
                    self.ctx(),
                    0,
                    Seq::empty(),
                    Seq::empty(),
                ) == Err::<(Seq<TypedGlobalView>, Seq<TypedConstantView>), SemanticErrorView>(
                    error@,
                ),
            },
    {
        let ghost ctx = self.ctx();
        let ghost m = float_model(*floats);
        let mut globals: Vec<TypedGlobal> = Vec::new();
        let mut constants: Vec<TypedConstant> = Vec::new();
        assert(typed_globals_view(globals@) =~= Seq::empty());
        assert(typed_constants_view(constants@) =~= Seq::empty());
        for i in 0..self.program.declarations.len()
            invariant
                self.wf(),
                answers(*floats),
                ctx == self.ctx(),
                m == float_model(*floats),
                typing::lowered_variables(m, ctx, 0, Seq::empty(), Seq::empty())
                    == typing::lowered_variables(
                    m,
                    ctx,
                    i as int,
                    typed_globals_view(globals@),
                    typed_constants_view(constants@),
                ),
        {
            assert(ctx.decls[i as int] == self.program.declarations@[i as int]@);
            match &self.program.declarations[i] {
                Decl::Variable(v) => {
                    let ty: ResolvedType = self.variable_type(v);
                    let value: TypedExpr = self.lower_const_expr(&v.value, &ty, floats)?;
                    let id: DefId = self.id_of(&v.name);
                    if v.kind == VariableKind::Immutable {
                        constants.push(
                            TypedConstant { id, name: v.name.clone(), ty, value, span: v.span },
                        );
                    } else {
                        globals.push(
                            TypedGlobal { id, name: v.name.clone(), ty, value, span: v.span },
                        );
                    }
                },
                _ => {},
            }
        }
        Ok((globals, constants))
    }

    fn lower_struct_fields(&self, fields: &Vec<StructField>) -> (r: Vec<TypedField>)
        requires
            self.wf(),
        ensures
            typed_fields_view(r@) == typing::lowered_struct_fields(
                self.ctx(),
                fields_view(fields@),
            ),
    {
        let ghost wanted = typing::lowered_struct_fields(self.ctx(), fields_view(fields@));
        let mut out: Vec<TypedField> = Vec::new();
        assert(typed_fields_view(out@) =~= wanted.take(0));
        for i in 0..fields.len()
            invariant
                self.wf(),
                wanted == typing::lowered_struct_fields(self.ctx(), fields_view(fields@)),
                typed_fields_view(out@) == wanted.take(i as int),
        {
            assert(fields_view(fields@)[i as int] == fields@[i as int]@);
            assert(wanted.take(i + 1) =~= wanted.take(i as int).push(wanted[i as int]));
            out.push(
                TypedField { name: fields[i].name.clone(), ty: self.resolve(&fields[i].ty) },
            );
        }
        assert(wanted.take(wanted.len() as int) =~= wanted);
        out
    }

    fn lower_structs(&self) -> (r: Vec<TypedStruct>)
        requires
            self.wf(),
        ensures
            typed_structs_view(r@) == typing::lowered_structs(
                self.ctx(),
                self.program.declarations@.len() as int,
            ),
    {
        let ghost ctx = self.ctx();
        let mut out: Vec<TypedStruct> = Vec::new();
        assert(typed_structs_view(out@) =~= Seq::empty());
        for i in 0..self.program.declarations.len()
            invariant
                self.wf(),
                ctx == self.ctx(),
                typed_structs_view(out@) == typing::lowered_structs(ctx, i as int),
        {
            assert(ctx.decls[i as int] == self.program.declarations@[i as int]@);
            match &self.program.declarations[i] {
                Decl::Struct(s) => {
                    out.push(
                        TypedStruct {
                            id: self.id_of(&s.name),
                            name: s.name.clone(),
                            fields: self.lower_struct_fields(&s.fields),
                            span: s.span,
                        },
                    );
                },
                _ => {},
            }
        }
        out
    }

    fn symbol_table(&self) -> (r: SymbolTable)
        requires
            self.wf(),
        ensures
            r@.definitions == typing::defined(
                self.ctx(),
                self.program.declarations@.len() as int,
            ),
    {
        let ghost ctx = self.ctx();
        let mut out: Vec<Definition> = Vec::new();
        assert(definitions_view(out@) =~= Seq::empty());
        for i in 0..self.program.declarations.len()
            invariant
                self.wf(),
                ctx == self.ctx(),
                definitions_view(out@) == typing::defined(ctx, i as int),
        {
            let d: &Decl = &self.program.declarations[i];
            assert(ctx.decls[i as int] == d@);
            match declared_name(d) {
                Some(name) => {
                    out.push(
                        Definition {
                            id: self.id_of(name),
                            name: name.clone(),
                            kind: definition_kind(d),
                        },
                    );
                },
                None => {},
            }
        }
        SymbolTable { definitions: out }
    }

    fn lower<F: Fn(FloatOp, String, String) -> FloatAnswer>(&self, floats: &F) -> (r: Result<
        TypedProgram,
        SemanticError,
    >)
        requires
            self.wf(),
            answers(*floats),
        ensures
            program_outcome(r) == typing::lowered_program(float_model(*floats), self.ctx()),
    {
        self.validate_program()?;
        let (globals, constants) = self.lower_variables(floats)?;
        let functions: Vec<TypedFunction> = self.lower_functions()?;
        let program: TypedProgram = TypedProgram {
            symbols: self.symbol_table(),
            types: TypeInterner::default(),
            structs: self.lower_structs(),
            globals,
            constants,
            functions,
        };
        Ok(program)
    }
}

/// What one statement leaves of the scope before it: the variables there were
/// and where the innermost scope starts.
spec fn kept(before: Scope, after: Scope) -> bool {
    &&& after.output == before.output
    &&& after.is_main == before.is_main
    &&& after.start == before.start
    &&& after.locals@.len() >= before.locals@.len()
    &&& forall|i: int|
        0 <= i < before.locals@.len() ==> (#[trigger] after.locals@[i])@ == before.locals@[i]@
}

/// Cutting off what was added leaves the bindings there were.
proof fn lemma_same_bindings(before: Seq<Binding>, after: Seq<Binding>, cut: Seq<Binding>)
    requires
        before.len() <= after.len(),
        forall|i: int| 0 <= i < before.len() ==> (#[trigger] after[i])@ == before[i]@,
        cut == after.take(before.len() as int),
    ensures
        bindings_view(cut) == bindings_view(before),
        forall|i: int| 0 <= i < before.len() ==> (#[trigger] cut[i])@ == before[i]@,
{
    assert forall|i: int| 0 <= i < before.len() implies (#[trigger] cut[i])@ == before[i]@ by {
        assert(cut[i] == after[i]);
    }
    assert(bindings_view(cut) =~= bindings_view(before));
}

fn bad_operand(message: &str, span: Span) -> (r: SemanticError)
    ensures
        r@ == typing::bad_operand(message@, span),
{
    SemanticError::InvalidOperand { message: message.to_owned(), span }
}

fn unknown_field(name: &String, span: Span) -> (r: SemanticError)
    ensures
        r@ == typing::bad_operand("unknown field `"@ + name@ + "`"@, span),
{
    let message: String = joined(joined("unknown field `".to_owned(), name.as_str()), "`");
    SemanticError::InvalidOperand { message, span }
}

fn wrong_count(name: &String, expected: usize, found: usize, span: Span) -> (r: SemanticError)
    ensures
        r@ == typing::wrong_count(name@, expected as nat, found as nat, span),
{
    SemanticError::WrongArgumentCount { name: name.clone(), expected, found, span }
}

fn clone_optional(text: &Option<String>) -> (r: Option<String>)
    ensures
        match (r, text) {
            (Some(a), Some(b)) => a@ == b@,
            (None, None) => true,
            _ => false,
        },
{
    match text {
        Some(text) => Some(text.clone()),
        None => None,
    }
}

fn declared_span(d: &Decl) -> (r: Span)
    ensures
        r == typing::declared_span(d@),
{
    match d {
        Decl::Function(f) => f.span,
        Decl::Struct(s) => s.span,
        Decl::Variable(v) => v.span,
        Decl::Comptime { span, .. } => *span,
    }
}

pub fn definition_kind(d: &Decl) -> (r: DefinitionKind)
    ensures
        r == typing::definition_kind(d@),
{
    match d {
        Decl::Function(_) => DefinitionKind::Function,
        Decl::Struct(_) => DefinitionKind::Struct,
        Decl::Variable(v) => {
            if v.kind == VariableKind::Immutable {
                DefinitionKind::Constant
            } else {
                DefinitionKind::Global
            }
        },
        Decl::Comptime { .. } => DefinitionKind::Constant,
    }
}

fn builtin_type(name: &String) -> (r: Option<ResolvedType>)
    ensures
        r == typing::builtin_type(name@),
{
    if text_is(name, "bool") {
        Some(ResolvedType::Bool)
    } else if text_is(name, "i8") {
        Some(sized(8, true))
    } else if text_is(name, "i16") {
        Some(sized(16, true))
    } else if text_is(name, "i32") {
        Some(sized(32, true))
    } else if text_is(name, "i64") {
        Some(sized(64, true))
    } else if text_is(name, "i128") {
        Some(sized(128, true))
    } else if text_is(name, "u8") {
        Some(sized(8, false))
    } else if text_is(name, "u16") {
        Some(sized(16, false))
    } else if text_is(name, "u32") {
        Some(sized(32, false))
    } else if text_is(name, "u64") {
        Some(sized(64, false))
    } else if text_is(name, "u128") {
        Some(sized(128, false))
    } else if text_is(name, "usize") {
        Some(pointer_sized(false))
    } else if text_is(name, "isize") {
        Some(pointer_sized(true))
    } else if text_is(name, "f32") {
        Some(ResolvedType::Float { bits: 32 })
    } else if text_is(name, "f64") {
        Some(ResolvedType::Float { bits: 64 })
    } else if text_is(name, "void") {
        Some(ResolvedType::Unit)
    } else {
        None
    }
}

fn integer_name(width: IntegerWidth, signed: bool) -> (r: &'static str)
    ensures
        r@ == typing::integer_name(width, signed),
{
    match width {
        IntegerWidth::Pointer => {
            if signed {
                "isize"
            } else {
                "usize"
            }
        },
        IntegerWidth::Bits(bits) => {
            if signed {
                if bits == 8 {
                    "i8"
                } else if bits == 16 {
                    "i16"
                } else if bits == 64 {
                    "i64"
                } else if bits == 128 {
                    "i128"
                } else {
                    "i32"
                }
            } else {
                if bits == 8 {
                    "u8"
                } else if bits == 16 {
                    "u16"
                } else if bits == 32 {
                    "u32"
                } else if bits == 64 {
                    "u64"
                } else if bits == 128 {
                    "u128"
                } else {
                    "i32"
                }
            }
        },
    }
}

fn is_void(ty: &Type) -> (r: bool)
    ensures
        r == typing::is_void(ty@),
{
    match ty {
        Type::Unit => true,
        Type::Named(name) => text_is(name, "void"),
        _ => false,
    }
}

fn has_field(fields: &Vec<StructField>, n: usize, name: &String) -> (r: bool)
    requires
        n <= fields.len(),
    ensures
        r == typing::has_field(fields_view(fields@), n as int, name@),
{
    let ghost all = fields_view(fields@);
    for i in 0..n
        invariant
            n <= fields.len(),
            all == fields_view(fields@),
            forall|k: int| 0 <= k < i ==> (#[trigger] all[k]).name != name@,
    {
        assert(all[i as int] == fields@[i as int]@);
        if fields[i].name == *name {
            return true;
        }
    }
    false
}

fn field_index(fields: &Vec<StructField>, name: &String) -> (r: Option<usize>)
    ensures
        match r {
            Some(i) => i < fields@.len() && typing::field_index(fields_view(fields@), 0, name@)
                == Some(i as int),
            None => typing::field_index(fields_view(fields@), 0, name@) is None,
        },
{
    let ghost all = fields_view(fields@);
    for i in 0..fields.len()
        invariant
            all == fields_view(fields@),
            typing::field_index(all, 0, name@) == typing::field_index(all, i as int, name@),
    {
        assert(all[i as int] == fields@[i as int]@);
        if fields[i].name == *name {
            return Some(i);
        }
    }
    None
}

fn init_index(inits: &Vec<StructInit>, name: &String) -> (r: Option<usize>)
    ensures
        match r {
            Some(i) => i < inits@.len() && typing::init_index(inits_view(inits@), 0, name@) == Some(
                i as int,
            ),
            None => typing::init_index(inits_view(inits@), 0, name@) is None,
        },
{
    let ghost all = inits_view(inits@);
    for i in 0..inits.len()
        invariant
            all == inits_view(inits@),
            typing::init_index(all, 0, name@) == typing::init_index(all, i as int, name@),
    {
        assert(all[i as int] == inits@[i as int]@);
        if inits[i].name == *name {
            return Some(i);
        }
    }
    None
}

fn check_inits(fields: &Vec<StructField>, inits: &Vec<StructInit>) -> (r: Result<
    (),
    SemanticError,
>)
    ensures
        check_outcome(r) == typing::checked_inits(fields_view(fields@), inits_view(inits@), 0),
{
    let ghost all = fields_view(fields@);
    let ghost given = inits_view(inits@);
    for i in 0..inits.len()
        invariant
            all == fields_view(fields@),
            given == inits_view(inits@),
            typing::checked_inits(all, given, 0) == typing::checked_inits(all, given, i as int),
    {
        assert(given[i as int] == inits@[i as int]@);
        match init_index(inits, &inits[i].name) {
            Some(first) => {
                if first < i {
                    return Err(
                        SemanticError::DuplicateName {
                            name: inits[i].name.clone(),
                            span: inits[i].span,
                        },
                    );
                }
                if field_index(fields, &inits[i].name).is_none() {
                    return Err(unknown_field(&inits[i].name, inits[i].span));
                }
            },
            None => {},
        }
    }
    Ok(())
}

fn out_of_bounds(index: Option<i128>, length: Option<u64>) -> (r: bool)
    ensures
        r == typing::out_of_bounds(index, length),
{
    match index {
        None => false,
        Some(value) => {
            if value < 0 {
                return true;
            }
            match length {
                Some(bound) => value >= bound as i128,
                None => false,
            }
        },
    }
}

fn is_logical(operator: BinaryOp) -> (r: bool)
    ensures
        r == typing::is_logical(operator),
{
    operator == BinaryOp::LogicalAnd || operator == BinaryOp::LogicalOr
}

fn moves(operator: BinaryOp) -> (r: bool)
    ensures
        r == typing::moves(operator),
{
    operator == BinaryOp::Add || operator == BinaryOp::Subtract
}

fn is_pointer(ty: &ResolvedType) -> (r: bool)
    ensures
        r == (*ty is Pointer),
{
    match ty {
        ResolvedType::Pointer(_) => true,
        _ => false,
    }
}

fn left_expectation(operator: BinaryOp, left: &Expr, expected: &Option<ResolvedType>) -> (r: Option<
    ResolvedType,
>)
    ensures
        r == typing::left_expectation(operator, left@, *expected),
{
    if is_logical(operator) {
        return Some(ResolvedType::Bool);
    }
    let literal: bool = match left {
        Expr::Integer { .. } => true,
        Expr::Float { .. } => true,
        _ => false,
    };
    if literal {
        match expected {
            Some(wanted) => {
                let number: bool = match wanted {
                    ResolvedType::Integer { .. } => true,
                    ResolvedType::Float { .. } => true,
                    _ => false,
                };
                if number {
                    Some(wanted.clone())
                } else {
                    None
                }
            },
            None => None,
        }
    } else {
        None
    }
}

fn right_expectation(operator: BinaryOp, left: &ResolvedType, right: &Expr) -> (r: Option<
    ResolvedType,
>)
    ensures
        r == typing::right_expectation(operator, *left, right@),
{
    if is_logical(operator) {
        return Some(ResolvedType::Bool);
    }
    let literal: bool = match right {
        Expr::Integer { .. } => true,
        _ => false,
    };
    if is_pointer(left) && moves(operator) && literal {
        Some(pointer_sized(false))
    } else {
        Some(left.clone())
    }
}

fn temporary(value: TypedExpr) -> (r: TypedPlace)
    ensures
        r@ == typing::temporary(value@),
{
    let ty: ResolvedType = value.ty();
    TypedPlace::Temporary { value: Box::new(value), ty }
}

fn local_is_mutable(locals: &Vec<Binding>, id: LocalId) -> (r: bool)
    ensures
        r == typing::local_is_mutable(bindings_view(locals@), locals@.len() as int, id),
{
    let ghost all = bindings_view(locals@);
    let mut i: usize = locals.len();
    while i > 0
        invariant
            i <= locals.len(),
            all == bindings_view(locals@),
            typing::local_is_mutable(all, locals@.len() as int, id) == typing::local_is_mutable(
                all,
                i as int,
                id,
            ),
        decreases i,
    {
        assert(all[i - 1] == locals@[i - 1]@);
        if locals[i - 1].id == id {
            return locals[i - 1].mutable;
        }
        i -= 1;
    }
    true
}

fn place_name(e: &Expr) -> (r: String)
    ensures
        r@ == typing::target_name(e@),
{
    match e {
        Expr::Identifier { name, .. } => name.clone(),
        Expr::Field { name, .. } => name.clone(),
        _ => "value".to_owned(),
    }
}

fn block_may_fall_through(b: &Block) -> (r: bool)
    ensures
        r == typing::falls_through(b@),
    decreases b,
{
    assert(stmts_view(b.statements@).len() == b.statements@.len());
    if b.statements.len() == 0 {
        return true;
    }
    assert(stmts_view(b.statements@)[b.statements@.len() - 1] == b.statements@[b.statements@.len()
        - 1]@);
    match &b.statements[b.statements.len() - 1] {
        Stmt::Return { .. } => false,
        Stmt::Break { .. } => false,
        Stmt::Continue { .. } => false,
        Stmt::If { then_branch, else_branch, .. } => match else_branch {
            Some(branch) => {
                let first: bool = block_may_fall_through(then_branch);
                let second: bool = block_may_fall_through(branch);
                first || second
            },
            None => true,
        },
        Stmt::While { condition, body, .. } => {
            let endless: bool = match condition {
                Expr::Bool { value, .. } => *value,
                _ => false,
            };
            let leaves: bool = block_contains_break(body);
            !(endless && !leaves)
        },
        _ => true,
    }
}

fn block_contains_break(b: &Block) -> (r: bool)
    ensures
        r == typing::breaks(b@),
    decreases b,
{
    let ghost all = stmts_view(b.statements@);
    for i in 0..b.statements.len()
        invariant
            all == stmts_view(b.statements@),
            forall|k: int| 0 <= k < i ==> !typing::statement_breaks(#[trigger] all[k]),
    {
        assert(all[i as int] == b.statements@[i as int]@);
        let leaves: bool = match &b.statements[i] {
            Stmt::Break { .. } => true,
            Stmt::If { then_branch, else_branch, .. } => {
                let first: bool = block_contains_break(then_branch);
                let second: bool = match else_branch {
                    Some(branch) => block_contains_break(branch),
                    None => false,
                };
                first || second
            },
            Stmt::While { body, .. } => block_contains_break(body),
            _ => false,
        };
        assert(leaves == typing::statement_breaks(all[i as int]));
        if leaves {
            assert(b@.statements == all);
            assert(typing::statement_breaks(b@.statements[i as int]));
            return true;
        }
    }
    assert(b@.statements == all);
    false
}

// ---------------------------------------------------------------------------
// Constants
// ---------------------------------------------------------------------------

fn integer_bit_width(ty: &ResolvedType) -> (r: u32)
    ensures
        r == typing::folding_width(*ty),
{
    match ty {
        ResolvedType::Integer { width, .. } => match width {
            IntegerWidth::Bits(bits) => *bits as u32,
            IntegerWidth::Pointer => usize::BITS,
        },
        _ => 128,
    }
}

fn wrap_integer(value: i128, ty: &ResolvedType) -> (r: i128)
    ensures
        r == typing::folded_integer(value as int, *ty),
{
    proof {
        lemma_held_in_range(value as int, typing::folding_width(*ty), ty.signed());
    }
    hold(value, integer_bit_width(ty), ty.is_signed_integer())
}

fn signed_minimum(width: u32) -> (r: i128)
    ensures
        r == typing::least(width as nat),
{
    if width >= 128 {
        i128::MIN
    } else if width == 0 {
        0
    } else {
        proof {
            crate::integers::lemma_pow2_below((width - 1) as nat);
            lemma_pow2_128();
        }
        let p: u128 = power_of_two(width - 1);
        -((p - 1) as i128) - 1
    }
}

fn shift_amount(b: i128, width: u32) -> (r: Option<u32>)
    ensures
        match r {
            Some(n) => n < 128 && typing::shift_amount(b as int, width as nat) == Some(n as nat),
            None => typing::shift_amount(b as int, width as nat) is None,
        },
{
    if 0 <= b && b < width as i128 && b < 128 {
        Some(b as u32)
    } else {
        None
    }
}

fn integer_compare(operator: BinaryOp, a: i128, b: i128, signed: bool) -> (r: bool)
    requires
        compares(operator),
    ensures
        r == typing::folded_comparison(operator, a as int, b as int, signed),
{
    if signed {
        match operator {
            BinaryOp::Equal => a == b,
            BinaryOp::NotEqual => a != b,
            BinaryOp::Less => a < b,
            BinaryOp::LessEqual => a <= b,
            BinaryOp::Greater => a > b,
            _ => a >= b,
        }
    } else {
        let x: u128 = bits_of(a);
        let y: u128 = bits_of(b);
        match operator {
            BinaryOp::Equal => x == y,
            BinaryOp::NotEqual => x != y,
            BinaryOp::Less => x < y,
            BinaryOp::LessEqual => x <= y,
            BinaryOp::Greater => x > y,
            _ => x >= y,
        }
    }
}

/// What an operator makes of two constants of a type, as the type holds it.
fn fold_integers(operator: BinaryOp, a: i128, b: i128, ty: &ResolvedType) -> (r: Option<i128>)
    ensures
        match typing::folded_binary(operator, a as int, b as int, *ty) {
            Some(v) => r == Some(typing::folded_integer(v, *ty)),
            None => r is None,
        },
{
    let width: u32 = integer_bit_width(ty);
    let signed: bool = ty.is_signed_integer();
    let x: u128 = bits_of(a);
    let y: u128 = bits_of(b);
    proof {
        match typing::folded_binary(operator, a as int, b as int, *ty) {
            Some(v) => {
                lemma_held_in_range(v, width as nat, signed);
            },
            None => {},
        }
    }
    match operator {
        BinaryOp::Add => Some(hold_sum(a, b, width, signed)),
        BinaryOp::Subtract => Some(hold_difference(a, b, width, signed)),
        BinaryOp::Multiply => Some(hold_product(a, b, width, signed)),
        BinaryOp::BitwiseAnd => Some(hold_bits(x & y, width, signed)),
        BinaryOp::BitwiseOr => Some(hold_bits(x | y, width, signed)),
        BinaryOp::BitwiseXor => Some(hold_bits(x ^ y, width, signed)),
        BinaryOp::ShiftLeft => match shift_amount(b, width) {
            Some(n) => Some(hold_shift_up(x, n, width, signed)),
            None => None,
        },
        BinaryOp::ShiftRight => match shift_amount(b, width) {
            Some(n) => {
                if signed {
                    Some(hold(shift_down(a, n), width, signed))
                } else {
                    let p: u128 = power_of_two(n);
                    proof {
                        vstd::arithmetic::power2::lemma_pow2_pos(n as nat);
                    }
                    Some(hold_bits(x / p, width, signed))
                }
            },
            None => None,
        },
        BinaryOp::Divide => {
            let undivided: bool = b == 0 || (signed && a == signed_minimum(width) && b == -1);
            if undivided {
                None
            } else if signed {
                if a == i128::MIN && b == -1 {
                    proof {
                        lemma_no_quotient(width as nat);
                    }
                    Some(hold_bits(x, width, signed))
                } else {
                    Some(hold(divide(a, b), width, signed))
                }
            } else {
                proof {
                    lemma_nonzero_bits(b);
                }
                Some(hold_bits(x / y, width, signed))
            }
        },
        BinaryOp::Modulo => {
            let undivided: bool = b == 0 || (signed && a == signed_minimum(width) && b == -1);
            if undivided {
                None
            } else if signed {
                Some(hold(remain(a, b), width, signed))
            } else {
                proof {
                    lemma_nonzero_bits(b);
                }
                Some(hold_bits(x % y, width, signed))
            }
        },
        _ => None,
    }
}

/// The least 128-bit number divided by minus one has the bits of the least
/// one again.
proof fn lemma_no_quotient(width: nat)
    ensures
        crate::integers::held(low(i128::MIN as int, 128), width, true) == crate::integers::held(
            crate::integers::quotient(i128::MIN as int, -1),
            width,
            true,
        ),
{
    lemma_pow2_128();
    reveal(low);
    let m = vstd::arithmetic::power2::pow2(128) as int;
    let v = i128::MIN as int;
    vstd::arithmetic::div_mod::lemma_mod_multiples_vanish(1, v, m);
    vstd::arithmetic::div_mod::lemma_small_mod((v + m) as nat, m as nat);
    vstd::arithmetic::div_mod::lemma_small_mod((-v) as nat, m as nat);
    assert(-v / 1 == -v);
    crate::integers::lemma_held_congruent(
        low(v, 128),
        crate::integers::quotient(v, -1),
        width,
        true,
    );
}

proof fn lemma_nonzero_bits(b: i128)
    requires
        b != 0,
    ensures
        low(b as int, 128) != 0,
{
    lemma_pow2_128();
    reveal(low);
    let m = vstd::arithmetic::power2::pow2(128) as int;
    if b < 0 {
        vstd::arithmetic::div_mod::lemma_mod_multiples_vanish(1, b as int, m);
        vstd::arithmetic::div_mod::lemma_small_mod((b + m) as nat, m as nat);
    } else {
        vstd::arithmetic::div_mod::lemma_small_mod(b as nat, m as nat);
    }
}

/// A constant expression with its operators worked out. That never changes its
/// value, its type or its place.
pub fn fold_constant<F: Fn(FloatOp, String, String) -> FloatAnswer>(
    e: &TypedExpr,
    floats: &F,
) -> (r: TypedExpr)
    requires
        answers(*floats),
    ensures
        r@ == typing::folded(float_model(*floats), e@),
        is_well_typed(e@) ==> {
            &&& r@.ty() == e@.ty()
            &&& r@.span() == e@.span()
            &&& typed_eval::value_of(float_model(*floats), e@) is Ok ==> typed_eval::value_of(
                float_model(*floats),
                r@,
            ) == typed_eval::value_of(float_model(*floats), e@)
        },
{
    proof {
        if is_well_typed(e@) {
            lemma_folding_keeps_values(float_model(*floats), e@);
        }
    }
    fold(e, floats)
}

/// An expression with its operators on literals worked out.
fn fold<F: Fn(FloatOp, String, String) -> FloatAnswer>(e: &TypedExpr, floats: &F) -> (r: TypedExpr)
    requires
        answers(*floats),
    ensures
        r@ == typing::folded(float_model(*floats), e@),
    decreases e,
{
    match e {
        TypedExpr::Unary { operator, operand, ty, span } => {
            let inner: TypedExpr = fold(operand, floats);
            fold_operand(*operator, inner, ty, *span)
        },
        TypedExpr::StructLiteral { ty, fields, span } => TypedExpr::StructLiteral {
            ty: ty.clone(),
            fields: fold_all(fields, floats),
            span: *span,
        },
        TypedExpr::ArrayLiteral { ty, elements, span } => TypedExpr::ArrayLiteral {
            ty: ty.clone(),
            elements: fold_all(elements, floats),
            span: *span,
        },
        TypedExpr::Binary { left, operator, right, ty, operand_type, span } => {
            let a: TypedExpr = fold(left, floats);
            let b: TypedExpr = fold(right, floats);
            fold_pair(a, *operator, b, ty, operand_type, *span, floats)
        },
        _ => e.clone(),
    }
}

fn fold_all<F: Fn(FloatOp, String, String) -> FloatAnswer>(es: &Vec<TypedExpr>, floats: &F) -> (r:
    Vec<TypedExpr>)
    requires
        answers(*floats),
    ensures
        typed_exprs_view(r@) == typing::all_folded(
            float_model(*floats),
            typed_exprs_view(es@),
        ),
    decreases es,
{
    let ghost m = float_model(*floats);
    let ghost all = typed_exprs_view(es@);
    let mut out: Vec<TypedExpr> = Vec::new();
    for i in 0..es.len()
        invariant
            answers(*floats),
            m == float_model(*floats),
            all == typed_exprs_view(es@),
            out.len() == i,
            forall|j: int| 0 <= j < i ==> (#[trigger] out@[j])@ == typing::folded(m, all[j]),
    {
        assert(all[i as int] == es@[i as int]@);
        out.push(fold(&es[i], floats));
    }
    assert(typed_exprs_view(out@) =~= typing::all_folded(m, all));
    out
}

fn fold_operand(operator: UnaryOp, operand: TypedExpr, ty: &ResolvedType, span: Span) -> (r:
    TypedExpr)
    ensures
        r@ == typing::folded_operand(operator, operand@, *ty, span),
{
    let width: u32 = integer_bit_width(ty);
    let signed: bool = ty.is_signed_integer();
    match (operator, &operand) {
        (UnaryOp::Negate, TypedExpr::Integer { value, .. }) => {
            proof {
                lemma_held_in_range(-*value, width as nat, signed);
            }
            TypedExpr::Integer {
                value: hold_negation(*value, width, signed),
                ty: ty.clone(),
                span,
            }
        },
        (UnaryOp::Negate, TypedExpr::Float { value, .. }) => TypedExpr::Float {
            value: negate_text(value),
            ty: ty.clone(),
            span,
        },
        (UnaryOp::Not, TypedExpr::Bool { value, .. }) => TypedExpr::Bool {
            value: !*value,
            ty: ty.clone(),
            span,
        },
        (UnaryOp::BitwiseNot, TypedExpr::Bool { value, .. }) => TypedExpr::Bool {
            value: !*value,
            ty: ty.clone(),
            span,
        },
        (UnaryOp::BitwiseNot, TypedExpr::Integer { value, .. }) => {
            proof {
                lemma_held_in_range(-1 - *value, width as nat, signed);
            }
            TypedExpr::Integer {
                value: hold_complement(*value, width, signed),
                ty: ty.clone(),
                span,
            }
        },
        _ => TypedExpr::Unary { operator, operand: Box::new(operand), ty: ty.clone(), span },
    }
}

fn fold_pair<F: Fn(FloatOp, String, String) -> FloatAnswer>(
    left: TypedExpr,
    operator: BinaryOp,
    right: TypedExpr,
    ty: &ResolvedType,
    operand_type: &ResolvedType,
    span: Span,
    floats: &F,
) -> (r: TypedExpr)
    requires
        answers(*floats),
    ensures
        r@ == typing::folded_pair(
            float_model(*floats),
            left@,
            operator,
            right@,
            *ty,
            *operand_type,
            span,
        ),
{
    match (&left, &right) {
        (TypedExpr::Integer { value: x, .. }, TypedExpr::Integer { value: y, .. }) => {
            let a: i128 = wrap_integer(*x, operand_type);
            let b: i128 = wrap_integer(*y, operand_type);
            if is_comparison(operator) {
                let value: bool = integer_compare(
                    operator,
                    a,
                    b,
                    operand_type.is_signed_integer(),
                );
                return TypedExpr::Bool { value, ty: ty.clone(), span };
            }
            match fold_integers(operator, a, b, operand_type) {
                Some(value) => {
                    return TypedExpr::Integer { value, ty: ty.clone(), span };
                },
                None => {},
            }
        },
        (TypedExpr::Float { value: a, .. }, TypedExpr::Float { value: b, .. }) => {
            match float_op(operator) {
                Some(question) => {
                    let answer: FloatAnswer = ask(floats, question, a, b);
                    return if is_comparison(operator) {
                        TypedExpr::Bool { value: answer.truth, ty: ty.clone(), span }
                    } else {
                        TypedExpr::Float { value: answer.number, ty: ty.clone(), span }
                    };
                },
                None => {},
            }
        },
        (TypedExpr::Bool { value: a, .. }, TypedExpr::Bool { value: b, .. }) => {
            match operator {
                BinaryOp::LogicalAnd => {
                    return TypedExpr::Bool { value: *a && *b, ty: ty.clone(), span };
                },
                BinaryOp::LogicalOr => {
                    return TypedExpr::Bool { value: *a || *b, ty: ty.clone(), span };
                },
                BinaryOp::Equal => {
                    return TypedExpr::Bool { value: *a == *b, ty: ty.clone(), span };
                },
                BinaryOp::NotEqual => {
                    return TypedExpr::Bool { value: *a != *b, ty: ty.clone(), span };
                },
                _ => {},
            }
        },
        _ => {},
    }
    TypedExpr::Binary {
        left: Box::new(left),
        operator,
        right: Box::new(right),
        ty: ty.clone(),
        operand_type: operand_type.clone(),
        span,
    }
}

fn contains_layout_query(e: &TypedExpr) -> (r: bool)
    ensures
        r == typing::asks_layout(e@),
    decreases e,
{
    match e {
        TypedExpr::Layout { .. } => true,
        TypedExpr::Unary { operand, .. } => contains_layout_query(operand),
        TypedExpr::Binary { left, right, .. } => {
            let first: bool = contains_layout_query(left);
            let second: bool = contains_layout_query(right);
            first || second
        },
        TypedExpr::StructLiteral { fields, .. } => any_contains_layout_query(fields),
        TypedExpr::ArrayLiteral { elements, .. } => any_contains_layout_query(elements),
        _ => false,
    }
}

fn any_contains_layout_query(es: &Vec<TypedExpr>) -> (r: bool)
    ensures
        r == typing::any_asks_layout(typed_exprs_view(es@)),
    decreases es,
{
    let ghost all = typed_exprs_view(es@);
    for i in 0..es.len()
        invariant
            all == typed_exprs_view(es@),
            forall|k: int| 0 <= k < i ==> !typing::asks_layout(#[trigger] all[k]),
    {
        assert(all[i as int] == es@[i as int]@);
        if contains_layout_query(&es[i]) {
            return true;
        }
    }
    false
}

fn is_folded_constant(e: &TypedExpr) -> (r: bool)
    ensures
        r == typing::is_literal(e@),
    decreases e,
{
    match e {
        TypedExpr::Integer { .. } => true,
        TypedExpr::Float { .. } => true,
        TypedExpr::Bool { .. } => true,
        TypedExpr::Layout { .. } => true,
        TypedExpr::StructLiteral { fields, .. } => all_folded_constants(fields),
        TypedExpr::ArrayLiteral { elements, .. } => all_folded_constants(elements),
        _ => false,
    }
}

fn all_folded_constants(es: &Vec<TypedExpr>) -> (r: bool)
    ensures
        r == typing::all_literal(typed_exprs_view(es@)),
    decreases es,
{
    let ghost all = typed_exprs_view(es@);
    for i in 0..es.len()
        invariant
            all == typed_exprs_view(es@),
            forall|k: int| 0 <= k < i ==> typing::is_literal(#[trigger] all[k]),
    {
        assert(all[i as int] == es@[i as int]@);
        if !is_folded_constant(&es[i]) {
            return false;
        }
    }
    true
}

} // verus!
