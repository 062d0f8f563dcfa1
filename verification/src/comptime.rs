//! Compile-time evaluation, expansion and reflection.
//!
//! Compile-time code is interpreted. It has no access to files, processes,
//! the network or foreign functions, so that the same program always expands
//! in the same way.
use crate::ast::{
    decls_view, exprs_view, fields_view, imports_clone, inits_view, parameters_view, stmts_view,
    BinaryOp, Block, BlockView, Decl, DeclView, Expr, ExprView, FunctionDecl, ImportDecl, Parameter,
    Program, ProgramView, Stmt, StmtView, StructDecl, StructField, StructInit, StructInitView, Type,
    TypeView, UnaryOp, VariableDecl, VariableDeclView, VariableKind,
};
use crate::expansion;
use crate::expansion::{Ending, EntryView, Progress, Setting, Values};
use crate::floats::{answers, ask, float_model, negate_text, FloatAnswer, FloatOp};
use crate::integers::{
    bits_of, divide, hold_bits, hold_complement, hold_difference, hold_negation, hold_product,
    hold_shift_up, hold_sum, lemma_held_as_itself, lemma_held_in_range, lemma_next_multiple,
    lemma_pow2_128, low, low_bits, quotient, remain, shift_down,
};
use crate::lexer::Span;
use crate::semantic::{declared_name, find_declaration};
use crate::specialize::specialize_program;
use crate::text::{
    char_is_digit, char_is_letter, chars_of, decimal_text, joined, parse_unsigned, text_between,
    text_is,
};
use crate::typed::TypedExpr;
use crate::typed_eval;
use crate::typing;
use crate::typing::Sort;
use vstd::prelude::*;

verus! {

broadcast use crate::ast::group_ast_lists;

/// Bounds on what evaluation may use.
#[derive(Debug, Clone, Copy, PartialEq, Eq, Structural)]
pub struct Limits {
    pub steps: u64,
    pub recursion: usize,
    /// Units of memory: one for each part of an aggregate value.
    pub memory: u64,
    /// How many declarations may be generated.
    pub output: u64,
}

/// The limits where none are given.
pub open spec fn default_limits() -> Limits {
    Limits { steps: 100_000, recursion: 128, memory: 1_000_000, output: 10_000 }
}

impl Default for Limits {
    fn default() -> (r: Self)
        ensures
            r == default_limits(),
    {
        Limits { steps: 100_000, recursion: 128, memory: 1_000_000, output: 10_000 }
    }
}

/// Why compile-time evaluation failed.
#[allow(inconsistent_fields)]
#[derive(Debug, PartialEq, Eq)]
pub enum Error {
    Unsupported { message: String, span: Span },
    Undefined { name: String, span: Span },
    NotConstant { span: Span },
    DivisionByZero { span: Span },
    StepLimit { span: Span },
    RecursionLimit { span: Span },
    InvalidOperation { message: String, span: Span },
}

/// What a `Error` holds.
#[allow(inconsistent_fields)]
pub ghost enum ErrorView {
    Unsupported { message: Seq<char>, span: Span },
    Undefined { name: Seq<char>, span: Span },
    NotConstant { span: Span },
    DivisionByZero { span: Span },
    StepLimit { span: Span },
    RecursionLimit { span: Span },
    InvalidOperation { message: Seq<char>, span: Span },
}

impl Error {
    pub open spec fn view(&self) -> ErrorView
        decreases self,
    {
        match self {
            Error::Unsupported { message, span } => ErrorView::Unsupported {
                message: message@,
                span: *span,
            },
            Error::Undefined { name, span } => ErrorView::Undefined {
                name: name@,
                span: *span,
            },
            Error::NotConstant { span } => ErrorView::NotConstant {
                span: *span,
            },
            Error::DivisionByZero { span } => ErrorView::DivisionByZero {
                span: *span,
            },
            Error::StepLimit { span } => ErrorView::StepLimit {
                span: *span,
            },
            Error::RecursionLimit { span } => ErrorView::RecursionLimit {
                span: *span,
            },
            Error::InvalidOperation { message, span } => ErrorView::InvalidOperation {
                message: message@,
                span: *span,
            },
        }
    }
}

impl Clone for Error {
    fn clone(&self) -> (r: Self)
        ensures
            r@ == self@,
        decreases self,
    {
        match self {
            Error::Unsupported { message, span } => Error::Unsupported {
                message: message.clone(),
                span: *span,
            },
            Error::Undefined { name, span } => Error::Undefined {
                name: name.clone(),
                span: *span,
            },
            Error::NotConstant { span } => Error::NotConstant {
                span: *span,
            },
            Error::DivisionByZero { span } => Error::DivisionByZero {
                span: *span,
            },
            Error::StepLimit { span } => Error::StepLimit {
                span: *span,
            },
            Error::RecursionLimit { span } => Error::RecursionLimit {
                span: *span,
            },
            Error::InvalidOperation { message, span } => Error::InvalidOperation {
                message: message.clone(),
                span: *span,
            },
        }
    }
}

/// The value of a compile-time expression. A floating-point number is held as a
/// numeral.
#[allow(inconsistent_fields)]
#[derive(Debug, PartialEq)]
pub enum Value {
    Unit,
    Integer(i128),
    Float(String),
    Bool(bool),
    String(String),
    TypeInfo(TypeMetadata),
    FunctionInfo(FunctionMetadata),
    ModuleInfo(ModuleMetadata),
    DeclarationInfo(DeclarationMetadata),
    FieldInfo(FieldMetadata),
    TypeRef(String),
    Array(Vec<Value>),
    Struct { name: String, fields: Vec<(String, Value)> },
}

/// What a `Value` holds.
#[allow(inconsistent_fields)]
pub ghost enum ValueView {
    Unit,
    Integer(i128),
    Float(Seq<char>),
    Bool(bool),
    String(Seq<char>),
    TypeInfo(TypeMetadataView),
    FunctionInfo(FunctionMetadataView),
    ModuleInfo(ModuleMetadataView),
    DeclarationInfo(DeclarationMetadataView),
    FieldInfo(FieldMetadataView),
    TypeRef(Seq<char>),
    Array(Seq<ValueView>),
    Struct { name: Seq<char>, fields: Seq<(Seq<char>, ValueView)> },
}

impl Value {
    pub open spec fn view(&self) -> ValueView
        decreases self,
    {
        match self {
            Value::Unit => ValueView::Unit,
            Value::Integer(inner) => ValueView::Integer(*inner),
            Value::Float(inner) => ValueView::Float(inner@),
            Value::Bool(inner) => ValueView::Bool(*inner),
            Value::String(inner) => ValueView::String(inner@),
            Value::TypeInfo(inner) => ValueView::TypeInfo(inner.view()),
            Value::FunctionInfo(inner) => ValueView::FunctionInfo(inner.view()),
            Value::ModuleInfo(inner) => ValueView::ModuleInfo(inner.view()),
            Value::DeclarationInfo(inner) => ValueView::DeclarationInfo(inner.view()),
            Value::FieldInfo(inner) => ValueView::FieldInfo(inner.view()),
            Value::TypeRef(inner) => ValueView::TypeRef(inner@),
            Value::Array(inner) => ValueView::Array(values_view(inner@)),
            Value::Struct { name, fields } => ValueView::Struct {
                name: name@,
                fields: named_values_view(fields@),
            },
        }
    }
}

impl Clone for Value {
    fn clone(&self) -> (r: Self)
        ensures
            r@ == self@,
        decreases self,
    {
        match self {
            Value::Unit => Value::Unit,
            Value::Integer(inner) => Value::Integer(*inner),
            Value::Float(inner) => Value::Float(inner.clone()),
            Value::Bool(inner) => Value::Bool(*inner),
            Value::String(inner) => Value::String(inner.clone()),
            Value::TypeInfo(inner) => Value::TypeInfo(inner.clone()),
            Value::FunctionInfo(inner) => Value::FunctionInfo(inner.clone()),
            Value::ModuleInfo(inner) => Value::ModuleInfo(inner.clone()),
            Value::DeclarationInfo(inner) => Value::DeclarationInfo(inner.clone()),
            Value::FieldInfo(inner) => Value::FieldInfo(inner.clone()),
            Value::TypeRef(inner) => Value::TypeRef(inner.clone()),
            Value::Array(inner) => Value::Array(values_clone(inner)),
            Value::Struct { name, fields } => Value::Struct {
                name: name.clone(),
                fields: named_values_clone(fields),
            },
        }
    }
}

/// A type, as compile-time code sees it.
#[derive(Debug, PartialEq)]
pub struct TypeMetadata {
    pub name: String,
    pub identity: String,
    pub size: u64,
    pub alignment: u64,
    pub fields: Vec<Value>,
}

/// What a `TypeMetadata` holds.
pub ghost struct TypeMetadataView {
    pub name: Seq<char>,
    pub identity: Seq<char>,
    pub size: u64,
    pub alignment: u64,
    pub fields: Seq<ValueView>,
}

impl TypeMetadata {
    pub open spec fn view(&self) -> TypeMetadataView
        decreases self,
    {
        TypeMetadataView {
            name: self.name@,
            identity: self.identity@,
            size: self.size,
            alignment: self.alignment,
            fields: values_view(self.fields@),
        }
    }
}

impl Clone for TypeMetadata {
    fn clone(&self) -> (r: Self)
        ensures
            r@ == self@,
        decreases self,
    {
        TypeMetadata {
            name: self.name.clone(),
            identity: self.identity.clone(),
            size: self.size,
            alignment: self.alignment,
            fields: values_clone(&self.fields),
        }
    }
}

/// A field or parameter, as compile-time code sees it.
#[derive(Debug, PartialEq)]
pub struct FieldMetadata {
    pub name: String,
    pub ty: String,
    pub offset: u64,
}

/// What a `FieldMetadata` holds.
pub ghost struct FieldMetadataView {
    pub name: Seq<char>,
    pub ty: Seq<char>,
    pub offset: u64,
}

impl FieldMetadata {
    pub open spec fn view(&self) -> FieldMetadataView
        decreases self,
    {
        FieldMetadataView {
            name: self.name@,
            ty: self.ty@,
            offset: self.offset,
        }
    }
}

impl Clone for FieldMetadata {
    fn clone(&self) -> (r: Self)
        ensures
            r@ == self@,
        decreases self,
    {
        FieldMetadata {
            name: self.name.clone(),
            ty: self.ty.clone(),
            offset: self.offset,
        }
    }
}

/// A function, as compile-time code sees it.
#[derive(Debug, PartialEq)]
pub struct FunctionMetadata {
    pub name: String,
    pub parameters: Vec<Value>,
    pub return_type: String,
}

/// What a `FunctionMetadata` holds.
pub ghost struct FunctionMetadataView {
    pub name: Seq<char>,
    pub parameters: Seq<ValueView>,
    pub return_type: Seq<char>,
}

impl FunctionMetadata {
    pub open spec fn view(&self) -> FunctionMetadataView
        decreases self,
    {
        FunctionMetadataView {
            name: self.name@,
            parameters: values_view(self.parameters@),
            return_type: self.return_type@,
        }
    }
}

impl Clone for FunctionMetadata {
    fn clone(&self) -> (r: Self)
        ensures
            r@ == self@,
        decreases self,
    {
        FunctionMetadata {
            name: self.name.clone(),
            parameters: values_clone(&self.parameters),
            return_type: self.return_type.clone(),
        }
    }
}

/// A module, as compile-time code sees it.
#[derive(Debug, PartialEq)]
pub struct ModuleMetadata {
    pub declarations: Vec<Value>,
}

/// What a `ModuleMetadata` holds.
pub ghost struct ModuleMetadataView {
    pub declarations: Seq<ValueView>,
}

impl ModuleMetadata {
    pub open spec fn view(&self) -> ModuleMetadataView
        decreases self,
    {
        ModuleMetadataView {
            declarations: values_view(self.declarations@),
        }
    }
}

impl Clone for ModuleMetadata {
    fn clone(&self) -> (r: Self)
        ensures
            r@ == self@,
        decreases self,
    {
        ModuleMetadata {
            declarations: values_clone(&self.declarations),
        }
    }
}

/// A declaration, as compile-time code sees it.
#[derive(Debug, PartialEq)]
pub struct DeclarationMetadata {
    pub name: String,
    pub kind: String,
    pub exported: bool,
}

/// What a `DeclarationMetadata` holds.
pub ghost struct DeclarationMetadataView {
    pub name: Seq<char>,
    pub kind: Seq<char>,
    pub exported: bool,
}

impl DeclarationMetadata {
    pub open spec fn view(&self) -> DeclarationMetadataView
        decreases self,
    {
        DeclarationMetadataView {
            name: self.name@,
            kind: self.kind@,
            exported: self.exported,
        }
    }
}

impl Clone for DeclarationMetadata {
    fn clone(&self) -> (r: Self)
        ensures
            r@ == self@,
        decreases self,
    {
        DeclarationMetadata {
            name: self.name.clone(),
            kind: self.kind.clone(),
            exported: self.exported,
        }
    }
}

/// A struct and its layout.
#[derive(Debug, PartialEq)]
pub struct TypeInfo {
    pub name: String,
    pub identity: String,
    pub size: u64,
    pub alignment: u64,
    pub fields: Vec<FieldInfo>,
}

/// What a `TypeInfo` holds.
pub ghost struct TypeInfoView {
    pub name: Seq<char>,
    pub identity: Seq<char>,
    pub size: u64,
    pub alignment: u64,
    pub fields: Seq<FieldInfoView>,
}

impl TypeInfo {
    pub open spec fn view(&self) -> TypeInfoView
        decreases self,
    {
        TypeInfoView {
            name: self.name@,
            identity: self.identity@,
            size: self.size,
            alignment: self.alignment,
            fields: field_infos_view(self.fields@),
        }
    }
}

impl Clone for TypeInfo {
    fn clone(&self) -> (r: Self)
        ensures
            r@ == self@,
        decreases self,
    {
        TypeInfo {
            name: self.name.clone(),
            identity: self.identity.clone(),
            size: self.size,
            alignment: self.alignment,
            fields: field_infos_clone(&self.fields),
        }
    }
}

/// A field and where it stands in its struct.
#[derive(Debug, PartialEq)]
pub struct FieldInfo {
    pub name: String,
    pub ty: Type,
    pub offset: u64,
}

/// What a `FieldInfo` holds.
pub ghost struct FieldInfoView {
    pub name: Seq<char>,
    pub ty: TypeView,
    pub offset: u64,
}

impl FieldInfo {
    pub open spec fn view(&self) -> FieldInfoView
        decreases self,
    {
        FieldInfoView {
            name: self.name@,
            ty: self.ty.view(),
            offset: self.offset,
        }
    }
}

impl Clone for FieldInfo {
    fn clone(&self) -> (r: Self)
        ensures
            r@ == self@,
        decreases self,
    {
        FieldInfo {
            name: self.name.clone(),
            ty: self.ty.clone(),
            offset: self.offset,
        }
    }
}

/// A function's signature.
#[derive(Debug, PartialEq)]
pub struct FunctionInfo {
    pub name: String,
    pub parameters: Vec<(String, Type)>,
    pub return_type: Type,
}

/// What a `FunctionInfo` holds.
pub ghost struct FunctionInfoView {
    pub name: Seq<char>,
    pub parameters: Seq<(Seq<char>, TypeView)>,
    pub return_type: TypeView,
}

impl FunctionInfo {
    pub open spec fn view(&self) -> FunctionInfoView
        decreases self,
    {
        FunctionInfoView {
            name: self.name@,
            parameters: named_types_view(self.parameters@),
            return_type: self.return_type.view(),
        }
    }
}

impl Clone for FunctionInfo {
    fn clone(&self) -> (r: Self)
        ensures
            r@ == self@,
        decreases self,
    {
        FunctionInfo {
            name: self.name.clone(),
            parameters: named_types_clone(&self.parameters),
            return_type: self.return_type.clone(),
        }
    }
}

/// A declaration's name and kind.
#[derive(Debug, PartialEq)]
pub struct DeclarationInfo {
    pub name: String,
    pub kind: String,
    pub exported: bool,
}

/// What a `DeclarationInfo` holds.
pub ghost struct DeclarationInfoView {
    pub name: Seq<char>,
    pub kind: Seq<char>,
    pub exported: bool,
}

impl DeclarationInfo {
    pub open spec fn view(&self) -> DeclarationInfoView
        decreases self,
    {
        DeclarationInfoView {
            name: self.name@,
            kind: self.kind@,
            exported: self.exported,
        }
    }
}

impl Clone for DeclarationInfo {
    fn clone(&self) -> (r: Self)
        ensures
            r@ == self@,
        decreases self,
    {
        DeclarationInfo {
            name: self.name.clone(),
            kind: self.kind.clone(),
            exported: self.exported,
        }
    }
}

/// What a list of `Value` holds.
pub open spec fn values_view(s: Seq<Value>) -> Seq<ValueView>
    decreases s,
{
    Seq::new(
        s.len(),
        |i: int|
            if 0 <= i < s.len() {
                s[i].view()
            } else {
                arbitrary()
            },
    )
}

pub broadcast proof fn lemma_values_push(s: Seq<Value>, x: Value)
    ensures
        #[trigger] values_view(s.push(x)) == values_view(s).push(x@),
{
    assert(values_view(s.push(x)) =~= values_view(s).push(x@));
}

pub fn values_clone(v: &Vec<Value>) -> (r: Vec<Value>)
    ensures
        values_view(r@) == values_view(v@),
    decreases v,
{
    let mut out: Vec<Value> = Vec::new();
    for i in 0..v.len()
        invariant
            out.len() == i,
            forall|j: int| 0 <= j < i ==> (#[trigger] out@[j])@ == v@[j]@,
    {
        out.push(v[i].clone());
    }
    assert(values_view(out@) =~= values_view(v@));
    out
}

/// What a list of `FieldInfo` holds.
pub open spec fn field_infos_view(s: Seq<FieldInfo>) -> Seq<FieldInfoView>
    decreases s,
{
    Seq::new(
        s.len(),
        |i: int|
            if 0 <= i < s.len() {
                s[i].view()
            } else {
                arbitrary()
            },
    )
}

pub broadcast proof fn lemma_field_infos_push(s: Seq<FieldInfo>, x: FieldInfo)
    ensures
        #[trigger] field_infos_view(s.push(x)) == field_infos_view(s).push(x@),
{
    assert(field_infos_view(s.push(x)) =~= field_infos_view(s).push(x@));
}

pub fn field_infos_clone(v: &Vec<FieldInfo>) -> (r: Vec<FieldInfo>)
    ensures
        field_infos_view(r@) == field_infos_view(v@),
    decreases v,
{
    let mut out: Vec<FieldInfo> = Vec::new();
    for i in 0..v.len()
        invariant
            out.len() == i,
            forall|j: int| 0 <= j < i ==> (#[trigger] out@[j])@ == v@[j]@,
    {
        out.push(v[i].clone());
    }
    assert(field_infos_view(out@) =~= field_infos_view(v@));
    out
}

/// What a list of `DeclarationInfo` holds.
pub open spec fn declaration_infos_view(s: Seq<DeclarationInfo>) -> Seq<DeclarationInfoView>
    decreases s,
{
    Seq::new(
        s.len(),
        |i: int|
            if 0 <= i < s.len() {
                s[i].view()
            } else {
                arbitrary()
            },
    )
}

pub broadcast proof fn lemma_declaration_infos_push(s: Seq<DeclarationInfo>, x: DeclarationInfo)
    ensures
        #[trigger] declaration_infos_view(s.push(x)) == declaration_infos_view(s).push(x@),
{
    assert(declaration_infos_view(s.push(x)) =~= declaration_infos_view(s).push(x@));
}

/// What a list of named values holds.
pub open spec fn named_values_view(s: Seq<(String, Value)>) -> Seq<(Seq<char>, ValueView)>
    decreases s,
{
    Seq::new(
        s.len(),
        |i: int|
            if 0 <= i < s.len() {
                (s[i].0@, s[i].1.view())
            } else {
                arbitrary()
            },
    )
}

pub fn named_values_clone(v: &Vec<(String, Value)>) -> (r: Vec<(String, Value)>)
    ensures
        named_values_view(r@) == named_values_view(v@),
    decreases v,
{
    let mut out: Vec<(String, Value)> = Vec::new();
    for i in 0..v.len()
        invariant
            out.len() == i,
            forall|j: int|
                0 <= j < i ==> (#[trigger] out@[j]).0@ == v@[j].0@ && out@[j].1@ == v@[j].1@,
    {
        let name: String = v[i].0.clone();
        let value: Value = v[i].1.clone();
        out.push((name, value));
    }
    assert(named_values_view(out@) =~= named_values_view(v@));
    out
}

/// What a list of named types holds.
pub open spec fn named_types_view(s: Seq<(String, Type)>) -> Seq<(Seq<char>, TypeView)> {
    Seq::new(s.len(), |i: int| (s[i].0@, s[i].1@))
}

pub fn named_types_clone(v: &Vec<(String, Type)>) -> (r: Vec<(String, Type)>)
    ensures
        named_types_view(r@) == named_types_view(v@),
{
    let mut out: Vec<(String, Type)> = Vec::new();
    for i in 0..v.len()
        invariant
            out.len() == i,
            forall|j: int|
                0 <= j < i ==> (#[trigger] out@[j]).0@ == v@[j].0@ && out@[j].1@ == v@[j].1@,
    {
        let name: String = v[i].0.clone();
        let ty: Type = v[i].1.clone();
        out.push((name, ty));
    }
    assert(named_types_view(out@) =~= named_types_view(v@));
    out
}


impl ErrorView {
    /// Where the error stands in its source.
    pub open spec fn span(self) -> Span {
        match self {
            ErrorView::Unsupported { span, .. } => span,
            ErrorView::Undefined { span, .. } => span,
            ErrorView::NotConstant { span } => span,
            ErrorView::DivisionByZero { span } => span,
            ErrorView::StepLimit { span } => span,
            ErrorView::RecursionLimit { span } => span,
            ErrorView::InvalidOperation { span, .. } => span,
        }
    }

    /// What the error's message reads.
    pub open spec fn text(self) -> Seq<char> {
        match self {
            ErrorView::Unsupported { message, .. } => message,
            ErrorView::Undefined { name, .. } => "undefined compile-time name `"@ + name + "`"@,
            ErrorView::NotConstant { .. } => "expression is not compile-time evaluable"@,
            ErrorView::DivisionByZero { .. } => "division by zero during compile-time evaluation"@,
            ErrorView::StepLimit { .. } => "compile-time evaluation exceeded the step limit"@,
            ErrorView::RecursionLimit {
                ..
            } => "compile-time evaluation exceeded the recursion limit"@,
            ErrorView::InvalidOperation { message, .. } => message,
        }
    }
}

impl Error {
    /// Where the error stands in its source.
    pub fn span(&self) -> (r: Span)
        ensures
            r == self@.span(),
    {
        match self {
            Error::Unsupported { span, .. } => *span,
            Error::Undefined { span, .. } => *span,
            Error::NotConstant { span } => *span,
            Error::DivisionByZero { span } => *span,
            Error::StepLimit { span } => *span,
            Error::RecursionLimit { span } => *span,
            Error::InvalidOperation { span, .. } => *span,
        }
    }

    pub fn to_string(&self) -> (r: String)
        ensures
            r@ == self@.text(),
    {
        match self {
            Error::Unsupported { message, .. } => message.clone(),
            Error::Undefined { name, .. } => joined(
                joined("undefined compile-time name `".to_owned(), name.as_str()),
                "`",
            ),
            Error::NotConstant { .. } => "expression is not compile-time evaluable".to_owned(),
            Error::DivisionByZero {
                ..
            } => "division by zero during compile-time evaluation".to_owned(),
            Error::StepLimit {
                ..
            } => "compile-time evaluation exceeded the step limit".to_owned(),
            Error::RecursionLimit {
                ..
            } => "compile-time evaluation exceeded the recursion limit".to_owned(),
            Error::InvalidOperation { message, .. } => message.clone(),
        }
    }
}

fn invalid(message: &str, span: Span) -> (r: Error)
    ensures
        r@ == expansion::invalid(message@, span),
{
    Error::InvalidOperation { message: message.to_owned(), span }
}

fn unsupported(message: &str, span: Span) -> (r: Error)
    ensures
        r@ == expansion::unsupported(message@, span),
{
    Error::Unsupported { message: message.to_owned(), span }
}

// ---------------------------------------------------------------------------
// What outcomes hold
// ---------------------------------------------------------------------------

pub open spec fn program_outcome(r: Result<Program, Error>) -> Result<ProgramView, ErrorView> {
    match r {
        Ok(program) => Ok(program@),
        Err(error) => Err(error@),
    }
}

pub open spec fn value_outcome(r: Result<Value, Error>) -> Result<ValueView, ErrorView> {
    match r {
        Ok(value) => Ok(value@),
        Err(error) => Err(error@),
    }
}

spec fn values_outcome(r: Result<Vec<Value>, Error>) -> Result<Seq<ValueView>, ErrorView> {
    match r {
        Ok(values) => Ok(values_view(values@)),
        Err(error) => Err(error@),
    }
}

spec fn named_outcome(r: Result<Vec<(String, Value)>, Error>) -> Result<Values, ErrorView> {
    match r {
        Ok(values) => Ok(named_values_view(values@)),
        Err(error) => Err(error@),
    }
}

spec fn expr_outcome(r: Result<Expr, Error>) -> Result<ExprView, ErrorView> {
    match r {
        Ok(e) => Ok(e@),
        Err(error) => Err(error@),
    }
}

spec fn exprs_outcome(r: Result<Vec<Expr>, Error>) -> Result<Seq<ExprView>, ErrorView> {
    match r {
        Ok(es) => Ok(exprs_view(es@)),
        Err(error) => Err(error@),
    }
}

spec fn inits_outcome(r: Result<Vec<StructInit>, Error>) -> Result<
    Seq<StructInitView>,
    ErrorView,
> {
    match r {
        Ok(inits) => Ok(inits_view(inits@)),
        Err(error) => Err(error@),
    }
}

spec fn block_outcome(r: Result<Block, Error>) -> Result<BlockView, ErrorView> {
    match r {
        Ok(b) => Ok(b@),
        Err(error) => Err(error@),
    }
}

spec fn statement_outcome(r: Result<Stmt, Error>) -> Result<StmtView, ErrorView> {
    match r {
        Ok(s) => Ok(s@),
        Err(error) => Err(error@),
    }
}

spec fn unit_outcome(r: Result<(), Error>) -> Result<(), ErrorView> {
    match r {
        Ok(()) => Ok(()),
        Err(error) => Err(error@),
    }
}

spec fn pair_outcome(r: Result<(u64, u64), Error>) -> Result<(nat, nat), ErrorView> {
    match r {
        Ok((a, b)) => Ok((a as nat, b as nat)),
        Err(error) => Err(error@),
    }
}

spec fn type_option(ty: Option<Type>) -> Option<TypeView> {
    match ty {
        Some(ty) => Some(ty@),
        None => None,
    }
}

// ---------------------------------------------------------------------------
// From outside
// ---------------------------------------------------------------------------

/// Expands a program: what is marked for compile time is worked out, and only
/// that.
pub fn expand<F: Fn(FloatOp, String, String) -> FloatAnswer>(
    program: &Program,
    pointer_width: u32,
    floats: &F,
) -> (r: Result<Program, Error>)
    requires
        answers(*floats),
    ensures
        program_outcome(r) == expansion::expansion(
            float_model(*floats),
            program@,
            pointer_width,
            default_limits(),
        ),
{
    expand_with_limits(program, pointer_width, Limits::default(), floats)
}

/// Expands a program within limits.
pub fn expand_with_limits<F: Fn(FloatOp, String, String) -> FloatAnswer>(
    program: &Program,
    pointer_width: u32,
    limits: Limits,
    floats: &F,
) -> (r: Result<Program, Error>)
    requires
        answers(*floats),
    ensures
        program_outcome(r) == expansion::expansion(
            float_model(*floats),
            program@,
            pointer_width,
            limits,
        ),
{
    let plain: Program = specialize_program(program)?;
    let expander: Expander<F> = Expander { program: &plain, pointer_width, limits, floats };
    expander.expand()
}

/// The value of an expression among the declarations of a program.
pub fn evaluate<F: Fn(FloatOp, String, String) -> FloatAnswer>(
    program: &Program,
    expression: &Expr,
    pointer_width: u32,
    floats: &F,
) -> (r: Result<Value, Error>)
    requires
        answers(*floats),
    ensures
        value_outcome(r) == expansion::evaluation(
            float_model(*floats),
            program@,
            expression@,
            pointer_width,
            default_limits(),
        ),
{
    evaluate_with_limits(program, expression, pointer_width, Limits::default(), floats)
}

/// The value of an expression, within limits.
pub fn evaluate_with_limits<F: Fn(FloatOp, String, String) -> FloatAnswer>(
    program: &Program,
    expression: &Expr,
    pointer_width: u32,
    limits: Limits,
    floats: &F,
) -> (r: Result<Value, Error>)
    requires
        answers(*floats),
    ensures
        value_outcome(r) == expansion::evaluation(
            float_model(*floats),
            program@,
            expression@,
            pointer_width,
            limits,
        ),
{
    let plain: Program = specialize_program(program)?;
    let expander: Expander<F> = Expander { program: &plain, pointer_width, limits, floats };
    let mut work: Work = Work::start();
    expander.value_of(&mut work, expression)
}

/// The value of a typed expression, as compile-time code sees it.
pub fn evaluate_typed<F: Fn(FloatOp, String, String) -> FloatAnswer>(
    expression: &TypedExpr,
    floats: &F,
) -> (r: Result<Value, Error>)
    requires
        answers(*floats),
    ensures
        value_outcome(r) == (match typed_eval::value_of(float_model(*floats), expression@) {
            Ok(value) => Ok(expansion::typed_as_value(value)),
            Err(error) => Err(expansion::invalid(error.message(), expression@.span())),
        }),
{
    match typed_eval::evaluate(expression, floats) {
        Ok(value) => Ok(typed_value(&value)),
        Err(error) => Err(
            Error::InvalidOperation { message: error.to_string(), span: expression.span() },
        ),
    }
}

fn typed_value(value: &typed_eval::Value) -> (r: Value)
    ensures
        r@ == expansion::typed_as_value(value@),
    decreases value,
{
    match value {
        typed_eval::Value::Unit => Value::Unit,
        typed_eval::Value::Bool(b) => Value::Bool(*b),
        typed_eval::Value::Integer(n) => Value::Integer(*n),
        typed_eval::Value::Float(x) => Value::Float(x.clone()),
        typed_eval::Value::Struct(values) => Value::Array(typed_values(values)),
        typed_eval::Value::Array(values) => Value::Array(typed_values(values)),
        typed_eval::Value::Result { error, value: inner } => {
            let name: String = if *error {
                "result_err".to_owned()
            } else {
                "result_ok".to_owned()
            };
            let part: Value = typed_value(inner);
            let ghost shown = part@;
            let mut fields: Vec<(String, Value)> = Vec::new();
            fields.push(("value".to_owned(), part));
            assert(named_values_view(fields@) =~= seq![("value"@, shown)]);
            Value::Struct { name, fields }
        },
    }
}

fn typed_values(values: &Vec<typed_eval::Value>) -> (r: Vec<Value>)
    ensures
        values_view(r@) == expansion::typed_as_values(typed_eval::values_view(values@)),
    decreases values,
{
    let ghost all = typed_eval::values_view(values@);
    let mut out: Vec<Value> = Vec::new();
    for i in 0..values.len()
        invariant
            all == typed_eval::values_view(values@),
            out.len() == i,
            forall|j: int|
                0 <= j < i ==> (#[trigger] out@[j])@ == expansion::typed_as_value(all[j]),
    {
        assert(all[i as int] == values@[i as int]@);
        out.push(typed_value(&values[i]));
    }
    assert(values_view(out@) =~= expansion::typed_as_values(all));
    out
}

/// The named declarations of a program.
pub fn reflect_module(program: &Program) -> (r: Vec<DeclarationInfo>)
    ensures
        declaration_infos_view(r@) == expansion::module_reflected(
            program@.declarations,
            program@.declarations.len() as int,
        ),
{
    let ghost decls = program@.declarations;
    let mut out: Vec<DeclarationInfo> = Vec::new();
    assert(declaration_infos_view(out@) =~= Seq::empty());
    for i in 0..program.declarations.len()
        invariant
            decls == program@.declarations,
            declaration_infos_view(out@) == expansion::module_reflected(decls, i as int),
    {
        let d: &Decl = &program.declarations[i];
        assert(decls[i as int] == d@);
        let info: Option<DeclarationInfo> = match d {
            Decl::Function(f) => Some(
                DeclarationInfo {
                    name: f.name.clone(),
                    kind: "function".to_owned(),
                    exported: f.exported,
                },
            ),
            Decl::Variable(v) => Some(
                DeclarationInfo {
                    name: v.name.clone(),
                    kind: "variable".to_owned(),
                    exported: v.exported,
                },
            ),
            Decl::Struct(s) => Some(
                DeclarationInfo {
                    name: s.name.clone(),
                    kind: "struct".to_owned(),
                    exported: s.exported,
                },
            ),
            Decl::Comptime { .. } => None,
        };
        match info {
            Some(info) => {
                proof {
                    lemma_declaration_infos_push(out@, info);
                }
                out.push(info);
            },
            None => {},
        }
    }
    out
}

/// A struct of a program and its layout.
pub fn reflect_type<F: Fn(FloatOp, String, String) -> FloatAnswer>(
    program: &Program,
    name: &str,
    pointer_width: u32,
    floats: &F,
) -> (r: Result<TypeInfo, Error>)
    ensures
        match r {
            Ok(info) => expansion::type_info(
                float_model(*floats),
                program@,
                name@,
                pointer_width,
                default_limits(),
            ) == Ok::<TypeInfoView, ErrorView>(info@),
            Err(error) => expansion::type_info(
                float_model(*floats),
                program@,
                name@,
                pointer_width,
                default_limits(),
            ) == Err::<TypeInfoView, ErrorView>(error@),
        },
{
    let plain: Program = specialize_program(program)?;
    let expander: Expander<F> = Expander {
        program: &plain,
        pointer_width,
        limits: Limits::default(),
        floats,
    };
    let wanted: String = name.to_owned();
    let structure: &StructDecl = match expander.struct_named(&wanted) {
        Some(structure) => structure,
        None => {
            return Err(Error::Undefined { name: wanted, span: Span::new(0, 0) });
        },
    };
    expander.struct_info(&wanted, &structure.fields)
}

/// A function's signature.
pub fn reflect_function(program: &Program, name: &str) -> (r: Result<FunctionInfo, Error>)
    ensures
        match r {
            Ok(info) => expansion::function_info(program@, name@) == Ok::<
                FunctionInfoView,
                ErrorView,
            >(info@),
            Err(error) => expansion::function_info(program@, name@) == Err::<
                FunctionInfoView,
                ErrorView,
            >(error@),
        },
{
    let plain: Program = specialize_program(program)?;
    match signature_among(&plain.declarations, name) {
        Some(info) => Ok(info),
        None => match signature_among(&program.declarations, name) {
            Some(info) => Ok(info),
            None => Err(Error::Undefined { name: name.to_owned(), span: Span::new(0, 0) }),
        },
    }
}

fn signature_among(decls: &Vec<Decl>, name: &str) -> (r: Option<FunctionInfo>)
    ensures
        match r {
            Some(info) => match expansion::first_function(decls_view(decls@), 0, name@) {
                Some(i) => 0 <= i < decls@.len() && decls_view(decls@)[i] is Function && info@
                    == expansion::signature(decls_view(decls@)[i]->Function_0),
                None => false,
            },
            None => expansion::first_function(decls_view(decls@), 0, name@) is None,
        },
{
    let ghost all = decls_view(decls@);
    for i in 0..decls.len()
        invariant
            all == decls_view(decls@),
            expansion::first_function(all, 0, name@) == expansion::first_function(
                all,
                i as int,
                name@,
            ),
    {
        assert(all[i as int] == decls@[i as int]@);
        match &decls[i] {
            Decl::Function(f) => {
                if text_is(&f.name, name) {
                    let parameters: Vec<(String, Type)> = named_parameters(&f.params);
                    return Some(
                        FunctionInfo {
                            name: f.name.clone(),
                            parameters,
                            return_type: f.return_type.clone(),
                        },
                    );
                }
            },
            _ => {},
        }
    }
    None
}

fn named_parameters(params: &Vec<Parameter>) -> (r: Vec<(String, Type)>)
    ensures
        named_types_view(r@) == Seq::new(
            params@.len(),
            |i: int| (parameters_view(params@)[i].name, parameters_view(params@)[i].ty),
        ),
{
    let ghost all = parameters_view(params@);
    let mut out: Vec<(String, Type)> = Vec::new();
    for i in 0..params.len()
        invariant
            all == parameters_view(params@),
            out.len() == i,
            forall|j: int|
                0 <= j < i ==> (#[trigger] out@[j]).0@ == all[j].name && out@[j].1@ == all[j].ty,
    {
        assert(all[i as int] == params@[i as int]@);
        let name: String = params[i].name.clone();
        let ty: Type = params[i].ty.clone();
        out.push((name, ty));
    }
    assert(named_types_view(out@) =~= Seq::new(
        params@.len(),
        |i: int| (parameters_view(params@)[i].name, parameters_view(params@)[i].ty),
    ));
    out
}

// ---------------------------------------------------------------------------
// Generated declarations
// ---------------------------------------------------------------------------

/// Builds a list of declarations, each under a name of its own. What is built
/// is ordinary syntax and goes through the same analysis as any program.
#[derive(Debug)]
pub struct DeclarationGenerator {
    declarations: Vec<Decl>,
}

/// Why a declaration cannot be generated beside others, if it cannot.
pub open spec fn generator_problem(
    declarations: Seq<DeclView>,
    d: DeclView,
    ending: Seq<char>,
) -> Option<ErrorView> {
    match typing::declared_name(d) {
        None => Some(
            expansion::invalid(
                "compile-time directives cannot be generated as runtime declarations"@,
                typing::declared_span(d),
            ),
        ),
        Some(name) => if expansion::declaring(declarations, 0, name) is Some {
            Some(
                expansion::invalid(
                    "generated declaration `"@ + name + ending,
                    typing::declared_span(d),
                ),
            )
        } else {
            None
        },
    }
}

/// The declarations from `i` on, added to others one by one.
pub open spec fn appended(declarations: Seq<DeclView>, added: Seq<DeclView>, i: int) -> Result<
    Seq<DeclView>,
    ErrorView,
>
    decreases added.len() - i,
{
    if i < 0 || i >= added.len() {
        Ok(declarations)
    } else {
        match generator_problem(
            declarations,
            added[i],
            "` conflicts with the destination module"@,
        ) {
            Some(problem) => Err(problem),
            None => appended(declarations.push(added[i]), added, i + 1),
        }
    }
}

impl Default for DeclarationGenerator {
    fn default() -> (r: Self)
        ensures
            r@ == Seq::<DeclView>::empty(),
    {
        DeclarationGenerator::new()
    }
}

impl Clone for DeclarationGenerator {
    fn clone(&self) -> (r: Self)
        ensures
            r@ == self@,
    {
        DeclarationGenerator { declarations: crate::ast::decls_clone(&self.declarations) }
    }
}

impl DeclarationGenerator {
    /// The declarations so far.
    pub closed spec fn view(&self) -> Seq<DeclView> {
        decls_view(self.declarations@)
    }

    pub fn new() -> (r: Self)
        ensures
            r@ == Seq::<DeclView>::empty(),
    {
        let r: DeclarationGenerator = DeclarationGenerator { declarations: Vec::new() };
        assert(decls_view(r.declarations@) =~= Seq::empty());
        r
    }

    pub fn declarations(&self) -> (r: &Vec<Decl>)
        ensures
            decls_view(r@) == self@,
    {
        &self.declarations
    }

    /// Adds a declaration under a name that is not taken yet.
    pub fn add(&mut self, declaration: Decl) -> (r: Result<(), Error>)
        ensures
            match generator_problem(
                old(self)@,
                declaration@,
                "` conflicts with an existing declaration"@,
            ) {
                None => r == Ok::<(), Error>(()) && final(self)@ == old(self)@.push(declaration@),
                Some(problem) => (r matches Err(error) && error@ == problem) && final(self)@
                    == old(self)@,
            },
    {
        match check_generated(
            &self.declarations,
            &declaration,
            "` conflicts with an existing declaration",
        ) {
            Some(error) => {
                return Err(error);
            },
            None => {},
        }
        self.declarations.push(declaration);
        Ok(())
    }

    /// A program of the declarations alone.
    pub fn into_program(self) -> (r: Program)
        ensures
            r@ == (ProgramView { imports: Seq::empty(), declarations: self@ }),
    {
        let imports: Vec<ImportDecl> = Vec::new();
        assert(crate::ast::imports_view(imports@) =~= Seq::empty());
        Program { imports, declarations: self.declarations }
    }

    /// A program with the declarations added to it.
    pub fn append_to(self, program: &Program) -> (r: Result<Program, Error>)
        ensures
            match appended(program@.declarations, self@, 0) {
                Ok(declarations) => r matches Ok(made) && made@ == (ProgramView {
                    imports: program@.imports,
                    declarations,
                }),
                Err(problem) => r matches Err(error) && error@ == problem,
            },
    {
        let ghost added = self@;
        let mut result: Program = program.clone();
        for i in 0..self.declarations.len()
            invariant
                added == self@,
                result@.imports == program@.imports,
                appended(program@.declarations, added, 0) == appended(
                    result@.declarations,
                    added,
                    i as int,
                ),
        {
            assert(added[i as int] == self.declarations@[i as int]@);
            match check_generated(
                &result.declarations,
                &self.declarations[i],
                "` conflicts with the destination module",
            ) {
                Some(error) => {
                    return Err(error);
                },
                None => {},
            }
            result.declarations.push(self.declarations[i].clone());
        }
        Ok(result)
    }
}

fn check_generated(declarations: &Vec<Decl>, d: &Decl, ending: &str) -> (r: Option<Error>)
    ensures
        match generator_problem(decls_view(declarations@), d@, ending@) {
            None => r is None,
            Some(problem) => r matches Some(error) && error@ == problem,
        },
{
    let name: &String = match declared_name(d) {
        Some(name) => name,
        None => {
            return Some(
                invalid(
                    "compile-time directives cannot be generated as runtime declarations",
                    declaration_span(d),
                ),
            );
        },
    };
    match declaring(declarations, name) {
        Some(_) => {
            let message: String = joined(
                joined("generated declaration `".to_owned(), name.as_str()),
                ending,
            );
            Some(Error::InvalidOperation { message, span: declaration_span(d) })
        },
        None => None,
    }
}

/// Every name is declared once among generated declarations.
pub proof fn lemma_generated_names_stay_distinct(declarations: Seq<DeclView>, d: DeclView)
    requires
        forall|i: int, j: int|
            0 <= i < j < declarations.len() ==> typing::declared_name(#[trigger] declarations[i])
                != typing::declared_name(#[trigger] declarations[j]),
        generator_problem(declarations, d, "` conflicts with an existing declaration"@) is None,
    ensures
        forall|i: int, j: int|
            0 <= i < j < declarations.push(d).len() ==> typing::declared_name(
                #[trigger] declarations.push(d)[i],
            ) != typing::declared_name(#[trigger] declarations.push(d)[j]),
{
    let name = typing::declared_name(d).unwrap();
    assert forall|i: int, j: int| 0 <= i < j < declarations.push(d).len() implies
        typing::declared_name(#[trigger] declarations.push(d)[i]) != typing::declared_name(
        #[trigger] declarations.push(d)[j],
    ) by {
        if j == declarations.len() {
            lemma_declaring_none(declarations, 0, name, i);
        }
    }
}

proof fn lemma_declaring_none(declarations: Seq<DeclView>, i: int, name: Seq<char>, k: int)
    requires
        0 <= i <= k < declarations.len(),
        expansion::declaring(declarations, i, name) is None,
    ensures
        typing::declared_name(declarations[k]) != Some(name),
    decreases k - i,
{
    if i < k {
        lemma_declaring_none(declarations, i + 1, name, k);
    }
}

fn declaration_span(d: &Decl) -> (r: Span)
    ensures
        r == typing::declared_span(d@),
{
    match d {
        Decl::Function(f) => f.span,
        Decl::Struct(s) => s.span,
        Decl::Variable(v) => v.span,
        Decl::Comptime { span, .. } => *span,
    }
}

fn declaring(decls: &Vec<Decl>, name: &String) -> (r: Option<usize>)
    ensures
        match r {
            Some(i) => i < decls@.len() && expansion::declaring(decls_view(decls@), 0, name@)
                == Some(i as int),
            None => expansion::declaring(decls_view(decls@), 0, name@) is None,
        },
{
    let ghost all = decls_view(decls@);
    for i in 0..decls.len()
        invariant
            all == decls_view(decls@),
            expansion::declaring(all, 0, name@) == expansion::declaring(all, i as int, name@),
    {
        assert(all[i as int] == decls@[i as int]@);
        match declared_name(&decls[i]) {
            Some(found) => {
                if *found == *name {
                    return Some(i);
                }
            },
            None => {},
        }
    }
    None
}

// ---------------------------------------------------------------------------
// Evaluation
// ---------------------------------------------------------------------------

/// The result of a call, kept for the next call like it.
struct CacheEntry {
    name: String,
    arguments: Vec<Value>,
    value: Value,
}

spec fn entries_view(s: Seq<CacheEntry>) -> Seq<EntryView> {
    Seq::new(
        s.len(),
        |i: int|
            EntryView {
                name: s[i].name@,
                arguments: values_view(s[i].arguments@),
                value: s[i].value@,
            },
    )
}

/// What evaluation changes.
struct Work {
    steps: u64,
    memory_used: u64,
    generated: Vec<Decl>,
    done: Vec<CacheEntry>,
    globals: Vec<(String, Value)>,
}

impl Work {
    spec fn view(&self) -> Progress {
        Progress {
            steps: self.steps,
            memory: self.memory_used,
            generated: decls_view(self.generated@),
            done: entries_view(self.done@),
            globals: named_values_view(self.globals@),
        }
    }

    fn start() -> (r: Self)
        ensures
            r@ == expansion::nothing_done(),
    {
        let r: Work = Work {
            steps: 0,
            memory_used: 0,
            generated: Vec::new(),
            done: Vec::new(),
            globals: Vec::new(),
        };
        assert(decls_view(r.generated@) =~= Seq::empty());
        assert(entries_view(r.done@) =~= Seq::empty());
        assert(named_values_view(r.globals@) =~= Seq::empty());
        r
    }
}

/// How a block ends.
enum ExecResult {
    Normal,
    Return(Value),
    Break,
    Continue,
}

impl ExecResult {
    spec fn view(&self) -> Ending {
        match self {
            ExecResult::Normal => Ending::Normal,
            ExecResult::Return(value) => Ending::Return(value@),
            ExecResult::Break => Ending::Break,
            ExecResult::Continue => Ending::Continue,
        }
    }
}

/// What a run of statements gives: how it ended and the variables then.
spec fn run_outcome(r: Result<ExecResult, Error>, env: Seq<(String, Value)>) -> Result<
    (Ending, Values),
    ErrorView,
> {
    match r {
        Ok(ending) => Ok((ending@, named_values_view(env))),
        Err(error) => Err(error@),
    }
}

/// What evaluation works with and never changes.
struct Expander<'a, F: Fn(FloatOp, String, String) -> FloatAnswer> {
    program: &'a Program,
    pointer_width: u32,
    limits: Limits,
    floats: &'a F,
}

impl<'a, F: Fn(FloatOp, String, String) -> FloatAnswer> Expander<'a, F> {
    spec fn setting(&self) -> Setting {
        Setting {
            program: self.program@,
            pointer_width: self.pointer_width,
            limits: self.limits,
            floats: float_model(*self.floats),
        }
    }

    spec fn wf(&self) -> bool {
        answers(*self.floats)
    }

    fn function_named(&self, name: &String) -> (r: Option<&FunctionDecl>)
        ensures
            match r {
                Some(f) => expansion::function_named(self.setting(), name@) == Some(f@),
                None => expansion::function_named(self.setting(), name@) is None,
            },
    {
        match find_declaration(
            &self.program.declarations,
            self.program.declarations.len(),
            name,
            Sort::Function,
        ) {
            Some(i) => match &self.program.declarations[i] {
                Decl::Function(f) => Some(f),
                _ => None,
            },
            None => None,
        }
    }

    fn struct_named(&self, name: &String) -> (r: Option<&StructDecl>)
        ensures
            match r {
                Some(s) => expansion::struct_named(self.setting(), name@) == Some(s@),
                None => expansion::struct_named(self.setting(), name@) is None,
            },
    {
        match find_declaration(
            &self.program.declarations,
            self.program.declarations.len(),
            name,
            Sort::Struct,
        ) {
            Some(i) => match &self.program.declarations[i] {
                Decl::Struct(s) => Some(s),
                _ => None,
            },
            None => None,
        }
    }

    // -----------------------------------------------------------------------
    // Layout
    // -----------------------------------------------------------------------

    fn builtin_layout(&self, name: &String) -> (r: Option<(u64, u64)>)
        ensures
            match r {
                Some((a, b)) => expansion::builtin_layout(self.setting(), name@) == Some(
                    (a as nat, b as nat),
                ),
                None => expansion::builtin_layout(self.setting(), name@) is None,
            },
    {
        let pointer: u64 = (self.pointer_width / 8) as u64;
        if text_is(name, "bool") {
            return Some((1, 1));
        }
        if text_is(name, "usize") || text_is(name, "isize") {
            return Some((pointer, pointer));
        }
        match integer_bits(name) {
            Some(bits) => {
                return Some((bits / 8, bits / 8));
            },
            None => {},
        }
        if text_is(name, "f32") {
            return Some((4, 4));
        }
        if text_is(name, "f64") {
            return Some((8, 8));
        }
        None
    }

    fn layout(&self, ty: &Type, span: Span, depth: usize) -> (r: Result<(u64, u64), Error>)
        ensures
            pair_outcome(r) == expansion::layout(self.setting(), ty@, span, depth as nat),
        decreases depth, 0int, 0int, ty,
    {
        let pointer: u64 = (self.pointer_width / 8) as u64;
        match ty {
            Type::Unit => Ok((0, 1)),
            Type::Named(name) => match self.builtin_layout(name) {
                Some(found) => Ok(found),
                None => match self.struct_named(name) {
                    None => match other_layout(name) {
                        Some(found) => Ok(found),
                        None => Err(Error::Undefined { name: name.clone(), span }),
                    },
                    Some(structure) => {
                        if depth == 0 {
                            Err(no_layout(span))
                        } else {
                            self.fields_layout(&structure.fields, span, depth - 1)
                        }
                    },
                },
            },
            Type::Pointer(_) => Ok((pointer, pointer)),
            Type::Array { length, element } => {
                let (size, align) = self.layout(element, span, depth)?;
                proof {
                    lemma_product_fits(size, *length);
                }
                let whole: u128 = (size as u128) * (*length as u128);
                if whole > u64::MAX as u128 {
                    Err(no_layout(span))
                } else {
                    Ok((whole as u64, align))
                }
            },
            Type::Slice(_) => Ok((pointer * 2, pointer)),
            Type::Result { .. } => Err(
                unsupported("result layout reflection is not yet available", span),
            ),
        }
    }

    fn fields_layout(&self, fields: &Vec<StructField>, span: Span, depth: usize) -> (r: Result<
        (u64, u64),
        Error,
    >)
        ensures
            pair_outcome(r) == expansion::fields_layout(
                self.setting(),
                fields_view(fields@),
                0,
                0,
                1,
                span,
                depth as nat,
            ),
        decreases depth, 1int, 0int, fields,
    {
        let ghost s = self.setting();
        let ghost all = fields_view(fields@);
        let mut size: u64 = 0;
        let mut align: u64 = 1;
        for i in 0..fields.len()
            invariant
                s == self.setting(),
                all == fields_view(fields@),
                expansion::fields_layout(s, all, 0, 0, 1, span, depth as nat)
                    == expansion::fields_layout(
                    s,
                    all,
                    i as int,
                    size as nat,
                    align as nat,
                    span,
                    depth as nat,
                ),
        {
            assert(all[i as int] == fields@[i as int]@);
            let (own, own_align) = self.layout(&fields[i].ty, fields[i].span, depth)?;
            match after_field(size, own, own_align) {
                Some((_, end)) => {
                    size = end;
                },
                None => {
                    return Err(no_layout(span));
                },
            }
            if own_align > align {
                align = own_align;
            }
        }
        match align_to(size, align) {
            Some(whole) => Ok((whole, align)),
            None => Err(no_layout(span)),
        }
    }

    fn layout_of(&self, ty: &Type, span: Span) -> (r: Result<(u64, u64), Error>)
        ensures
            pair_outcome(r) == expansion::layout_of(self.setting(), ty@, span),
    {
        assert(self.setting().program.declarations.len() == self.program.declarations@.len());
        self.layout(ty, span, self.program.declarations.len())
    }

    fn offset(&self, ty: &Type, field: &String, span: Span) -> (r: Result<u64, Error>)
        ensures
            match r {
                Ok(n) => expansion::offset_of(self.setting(), ty@, field@, span) == Ok::<
                    nat,
                    ErrorView,
                >(n as nat),
                Err(error) => expansion::offset_of(self.setting(), ty@, field@, span) == Err::<
                    nat,
                    ErrorView,
                >(error@),
            },
    {
        match ty {
            Type::Named(name) => match self.struct_named(name) {
                None => Err(Error::Undefined { name: name.clone(), span }),
                Some(structure) => self.offset_among(&structure.fields, field, span),
            },
            _ => Err(invalid("offset_of requires a struct type", span)),
        }
    }

    fn offset_among(&self, fields: &Vec<StructField>, name: &String, span: Span) -> (r: Result<
        u64,
        Error,
    >)
        ensures
            match r {
                Ok(n) => expansion::offset_among(
                    self.setting(),
                    fields_view(fields@),
                    0,
                    0,
                    name@,
                    span,
                ) == Ok::<nat, ErrorView>(n as nat),
                Err(error) => expansion::offset_among(
                    self.setting(),
                    fields_view(fields@),
                    0,
                    0,
                    name@,
                    span,
                ) == Err::<nat, ErrorView>(error@),
            },
    {
        let ghost s = self.setting();
        let ghost all = fields_view(fields@);
        let mut size: u64 = 0;
        for i in 0..fields.len()
            invariant
                s == self.setting(),
                all == fields_view(fields@),
                expansion::offset_among(s, all, 0, 0, name@, span) == expansion::offset_among(
                    s,
                    all,
                    i as int,
                    size as nat,
                    name@,
                    span,
                ),
        {
            assert(all[i as int] == fields@[i as int]@);
            let (own, own_align) = self.layout_of(&fields[i].ty, span)?;
            let start: u64 = match align_to(size, own_align) {
                Some(start) => start,
                None => {
                    return Err(no_layout(span));
                },
            };
            if fields[i].name == *name {
                return Ok(start);
            }
            if own > u64::MAX - start {
                return Err(no_layout(span));
            }
            size = start + own;
        }
        Err(Error::Undefined { name: name.clone(), span })
    }

    fn struct_info(&self, name: &String, fields: &Vec<StructField>) -> (r: Result<TypeInfo, Error>)
        ensures
            match r {
                Ok(info) => expansion::struct_info(
                    self.setting(),
                    name@,
                    fields_view(fields@),
                    0,
                    0,
                    1,
                    Seq::empty(),
                ) == Ok::<TypeInfoView, ErrorView>(info@),
                Err(error) => expansion::struct_info(
                    self.setting(),
                    name@,
                    fields_view(fields@),
                    0,
                    0,
                    1,
                    Seq::empty(),
                ) == Err::<TypeInfoView, ErrorView>(error@),
            },
    {
        let ghost s = self.setting();
        let ghost all = fields_view(fields@);
        let mut size: u64 = 0;
        let mut align: u64 = 1;
        let mut out: Vec<FieldInfo> = Vec::new();
        assert(field_infos_view(out@) =~= Seq::empty());
        for i in 0..fields.len()
            invariant
                s == self.setting(),
                all == fields_view(fields@),
                expansion::struct_info(s, name@, all, 0, 0, 1, Seq::empty())
                    == expansion::struct_info(
                    s,
                    name@,
                    all,
                    i as int,
                    size as nat,
                    align as nat,
                    field_infos_view(out@),
                ),
        {
            assert(all[i as int] == fields@[i as int]@);
            let (own, own_align) = self.layout_of(&fields[i].ty, fields[i].span)?;
            match after_field(size, own, own_align) {
                Some((start, end)) => {
                    let info: FieldInfo = FieldInfo {
                        name: fields[i].name.clone(),
                        ty: fields[i].ty.clone(),
                        offset: start,
                    };
                    proof {
                        lemma_field_infos_push(out@, info);
                    }
                    out.push(info);
                    size = end;
                },
                None => {
                    return Err(no_layout(fields[i].span));
                },
            }
            if own_align > align {
                align = own_align;
            }
        }
        match align_to(size, align) {
            Some(whole) => Ok(
                TypeInfo {
                    name: name.clone(),
                    identity: joined("type:".to_owned(), name.as_str()),
                    size: whole,
                    alignment: align,
                    fields: out,
                },
            ),
            None => Err(no_layout(Span::new(0, 0))),
        }
    }

    // -----------------------------------------------------------------------
    // Reflection
    // -----------------------------------------------------------------------

    fn type_from_expr(&self, e: &Expr, span: Span) -> (r: Result<Type, Error>)
        ensures
            match r {
                Ok(ty) => expansion::type_named(self.setting(), e@, span) == Ok::<
                    TypeView,
                    ErrorView,
                >(ty@),
                Err(error) => expansion::type_named(self.setting(), e@, span) == Err::<
                    TypeView,
                    ErrorView,
                >(error@),
            },
    {
        match e {
            Expr::Identifier { name, .. } => {
                if self.struct_named(name).is_some() || is_builtin_type(name) {
                    Ok(Type::Named(name.clone()))
                } else {
                    Err(Error::Undefined { name: name.clone(), span })
                }
            },
            Expr::SizeOf { ty, .. } => Ok(ty.clone()),
            Expr::AlignOf { ty, .. } => Ok(ty.clone()),
            _ => Err(invalid("expected a type name for compile-time reflection", span)),
        }
    }

    fn reflect_fields(&self, fields: &Vec<StructField>) -> (r: Result<Vec<Value>, Error>)
        ensures
            values_outcome(r) == expansion::fields_reflected(
                self.setting(),
                fields_view(fields@),
                0,
                0,
                Seq::empty(),
            ),
    {
        let ghost s = self.setting();
        let ghost all = fields_view(fields@);
        let mut size: u64 = 0;
        let mut out: Vec<Value> = Vec::new();
        assert(values_view(out@) =~= Seq::empty());
        for i in 0..fields.len()
            invariant
                s == self.setting(),
                all == fields_view(fields@),
                expansion::fields_reflected(s, all, 0, 0, Seq::empty())
                    == expansion::fields_reflected(
                    s,
                    all,
                    i as int,
                    size as nat,
                    values_view(out@),
                ),
        {
            assert(all[i as int] == fields@[i as int]@);
            let (own, own_align) = self.layout_of(&fields[i].ty, fields[i].span)?;
            match after_field(size, own, own_align) {
                Some((start, end)) => {
                    let info: FieldMetadata = FieldMetadata {
                        name: fields[i].name.clone(),
                        ty: type_display(&fields[i].ty),
                        offset: start,
                    };
                    assert(info@ == FieldMetadataView {
                        name: fields@[i as int]@.name,
                        ty: expansion::displayed(fields@[i as int]@.ty),
                        offset: start,
                    });
                    let value: Value = Value::FieldInfo(info);
                    proof {
                        lemma_values_push(out@, value);
                    }
                    out.push(value);
                    size = end;
                },
                None => {
                    return Err(no_layout(fields[i].span));
                },
            }
        }
        Ok(out)
    }

    fn reflect_type_expr(&self, e: &Expr, span: Span) -> (r: Result<Value, Error>)
        ensures
            value_outcome(r) == expansion::type_reflected(self.setting(), e@, span),
    {
        let ty: Type = self.type_from_expr(e, span)?;
        let (size, alignment) = self.layout_of(&ty, span)?;
        let none: Vec<Value> = Vec::new();
        assert(values_view(none@) =~= Seq::empty());
        let fields: Vec<Value> = match &ty {
            Type::Named(name) => match self.struct_named(name) {
                Some(structure) => self.reflect_fields(&structure.fields)?,
                None => none,
            },
            _ => none,
        };
        let name: String = type_display(&ty);
        let identity: String = joined("type:".to_owned(), name.as_str());
        let ghost parts = (name@, identity@, values_view(fields@));
        let info: TypeMetadata = TypeMetadata { name, identity, size, alignment, fields };
        assert(info@ == TypeMetadataView {
            name: parts.0,
            identity: parts.1,
            size,
            alignment,
            fields: parts.2,
        });
        Ok(Value::TypeInfo(info))
    }

    fn reflect_module(&self) -> (r: Value)
        ensures
            r@ == ValueView::ModuleInfo(
                ModuleMetadataView {
                    declarations: expansion::declaration_values(
                        expansion::module_reflected(
                            self.setting().program.declarations,
                            self.setting().program.declarations.len() as int,
                        ),
                    ),
                },
            ),
    {
        let infos: Vec<DeclarationInfo> = reflect_module(self.program);
        let ghost all = declaration_infos_view(infos@);
        let mut out: Vec<Value> = Vec::new();
        for i in 0..infos.len()
            invariant
                all == declaration_infos_view(infos@),
                out.len() == i,
                forall|j: int|
                    0 <= j < i ==> (#[trigger] out@[j])@ == expansion::declaration_values(all)[j],
        {
            assert(all[i as int] == infos@[i as int]@);
            let info: DeclarationMetadata = DeclarationMetadata {
                name: infos[i].name.clone(),
                kind: infos[i].kind.clone(),
                exported: infos[i].exported,
            };
            assert(info@ == DeclarationMetadataView {
                name: infos@[i as int]@.name,
                kind: infos@[i as int]@.kind,
                exported: infos@[i as int]@.exported,
            });
            out.push(Value::DeclarationInfo(info));
        }
        assert(values_view(out@) =~= expansion::declaration_values(all));
        let ghost shown = values_view(out@);
        let info: ModuleMetadata = ModuleMetadata { declarations: out };
        assert(info@ == ModuleMetadataView { declarations: shown });
        Value::ModuleInfo(info)
    }

    fn reflect_function_name(&self, name: &String, span: Span) -> (r: Result<Value, Error>)
        ensures
            value_outcome(r) == expansion::function_reflected(self.setting(), name@, span),
    {
        let f: &FunctionDecl = match self.function_named(name) {
            Some(f) => f,
            None => {
                return Err(Error::Undefined { name: name.clone(), span });
            },
        };
        let ghost all = parameters_view(f.params@);
        let mut out: Vec<Value> = Vec::new();
        for i in 0..f.params.len()
            invariant
                all == parameters_view(f.params@),
                out.len() == i,
                forall|j: int|
                    0 <= j < i ==> (#[trigger] out@[j])@ == expansion::parameter_values(all)[j],
        {
            assert(all[i as int] == f.params@[i as int]@);
            let info: FieldMetadata = FieldMetadata {
                name: f.params[i].name.clone(),
                ty: type_display(&f.params[i].ty),
                offset: 0,
            };
            assert(info@ == FieldMetadataView {
                name: f.params@[i as int]@.name,
                ty: expansion::displayed(f.params@[i as int]@.ty),
                offset: 0,
            });
            out.push(Value::FieldInfo(info));
        }
        assert(values_view(out@) =~= expansion::parameter_values(all));
        let ghost shown = values_view(out@);
        let info: FunctionMetadata = FunctionMetadata {
            name: f.name.clone(),
            parameters: out,
            return_type: type_display(&f.return_type),
        };
        assert(info@ == FunctionMetadataView {
            name: f@.name,
            parameters: shown,
            return_type: expansion::displayed(f@.return_type),
        });
        Ok(Value::FunctionInfo(info))
    }

    fn validate_type_expr(&self, e: &Expr) -> (r: Result<Value, Error>)
        ensures
            value_outcome(r) == expansion::type_validated(self.setting(), e@),
    {
        match e {
            Expr::Identifier { name, span } => {
                if is_builtin_type(name) || self.struct_named(name).is_some() {
                    Ok(Value::Unit)
                } else {
                    Err(Error::Undefined { name: name.clone(), span: *span })
                }
            },
            _ => Err(invalid("validate_type expects a type name", e.span())),
        }
    }

    fn expression_type_hint(&self, e: &Expr) -> (r: Option<Type>)
        ensures
            type_option(r) == expansion::hinted(self.setting(), e@),
    {
        match e {
            Expr::Integer { .. } => Some(Type::Named("i32".to_owned())),
            Expr::Float { .. } => Some(Type::Named("f64".to_owned())),
            Expr::Bool { .. } => Some(Type::Named("bool".to_owned())),
            Expr::SizeOf { .. } => Some(Type::Named("usize".to_owned())),
            Expr::AlignOf { .. } => Some(Type::Named("usize".to_owned())),
            Expr::OffsetOf { .. } => Some(Type::Named("usize".to_owned())),
            Expr::StructLiteral { name, .. } => Some(Type::Named(name.clone())),
            Expr::ArrayLiteral { ty, .. } => Some(ty.clone()),
            Expr::Call { callee, .. } => match &**callee {
                Expr::Identifier { name, .. } => {
                    assert(callee@ == ExprView::Identifier { name: name@, span: callee@.span() });
                    match self.function_named(name) {
                        Some(f) => Some(f.return_type.clone()),
                        None => None,
                    }
                },
                _ => None,
            },
            _ => None,
        }
    }

    // -----------------------------------------------------------------------
    // Generated declarations
    // -----------------------------------------------------------------------

    fn generate_declaration(
        &self,
        work: &mut Work,
        constant: bool,
        name: String,
        value: &Value,
        span: Span,
    ) -> (r: Result<(), Error>)
        requires
            self.wf(),
        ensures
            (unit_outcome(r), final(work)@) == expansion::generate(
                self.setting(),
                old(work)@,
                constant,
                name@,
                value@,
                span,
            ),
    {
        if !is_identifier(&name) {
            return Err(invalid("generated declaration name is not a valid identifier", span));
        }
        assert(decls_view(work.generated@).len() == work.generated@.len());
        if work.generated.len() as u64 >= self.limits.output {
            return Err(
                invalid("compile-time generated output exceeded the output limit", span),
            );
        }
        let ty: Type = match value_type(value) {
            Some(ty) => ty,
            None => {
                return Err(
                    invalid(
                        "only ordinary scalar values can be generated as declarations",
                        span,
                    ),
                );
            },
        };
        let hint: Option<Type> = Some(ty.clone());
        let e: Expr = value_expr_with_hint(value, span, &hint)?;
        match declaring(&work.generated, &name) {
            Some(i) => {
                assert(decls_view(work.generated@)[i as int] == work.generated@[i as int]@);
                if same_generated(&work.generated[i], constant, &ty, &e, span, self.floats) {
                    Ok(())
                } else {
                    let message: String = joined(
                        joined("generated declaration `".to_owned(), name.as_str()),
                        "` conflicts with an existing declaration",
                    );
                    Err(Error::InvalidOperation { message, span })
                }
            },
            None => {
                let d: Decl = declaration_of(constant, name, ty, e, span);
                work.generated.push(d);
                Ok(())
            },
        }
    }

    // -----------------------------------------------------------------------
    // Expressions
    // -----------------------------------------------------------------------

    fn value_of(&self, work: &mut Work, e: &Expr) -> (r: Result<Value, Error>)
        requires
            self.wf(),
        ensures
            (value_outcome(r), final(work)@) == expansion::value_of(
                self.setting(),
                old(work)@,
                e@,
            ),
    {
        let none: Vec<(String, Value)> = Vec::new();
        assert(named_values_view(none@) =~= Seq::empty());
        self.eval(work, &none, e, self.limits.recursion)
    }

    fn consume(&self, work: &mut Work, amount: usize, span: Span) -> (r: Result<(), Error>)
        ensures
            final(work)@ == expansion::consumed(old(work)@, amount as nat),
            match r {
                Ok(()) => final(work)@.memory <= self.limits.memory,
                Err(error) => final(work)@.memory > self.limits.memory && error@
                    == expansion::memory_exceeded(span),
            },
    {
        let used: u64 = amount as u64;
        work.memory_used = if work.memory_used > u64::MAX - used {
            u64::MAX
        } else {
            work.memory_used + used
        };
        if work.memory_used > self.limits.memory {
            Err(invalid("compile-time evaluation exceeded the memory limit", span))
        } else {
            Ok(())
        }
    }

    fn eval(
        &self,
        work: &mut Work,
        env: &Vec<(String, Value)>,
        e: &Expr,
        depth: usize,
    ) -> (r: Result<
        Value,
        Error,
    >)
        requires
            self.wf(),
        ensures
            (value_outcome(r), final(work)@) == expansion::evaluated(
                self.setting(),
                old(work)@,
                named_values_view(env@),
                e@,
                depth as nat,
            ),
        decreases depth, 2int, e, 1int,
    {
        let over: bool = work.steps >= self.limits.steps;
        work.steps = if work.steps == u64::MAX {
            work.steps
        } else {
            work.steps + 1
        };
        if over {
            return Err(Error::StepLimit { span: e.span() });
        }
        match e {
            Expr::Integer { value, .. } => Ok(Value::Integer(*value)),
            Expr::Float { value, .. } => Ok(Value::Float(value.clone())),
            Expr::String { value, .. } => Ok(Value::String(value.clone())),
            Expr::Bool { value, .. } => Ok(Value::Bool(*value)),
            Expr::ArrayLiteral { elements, span, .. } => {
                assert(exprs_view(elements@).len() == elements@.len());
                self.consume(work, elements.len(), *span)?;
                let values: Vec<Value> = self.eval_all(work, env, elements, depth)?;
                Ok(Value::Array(values))
            },
            Expr::StructLiteral { name, fields, span } => {
                assert(inits_view(fields@).len() == fields@.len());
                self.consume(work, fields.len(), *span)?;
                let values: Vec<(String, Value)> = self.eval_inits(work, env, fields, depth)?;
                Ok(Value::Struct { name: name.clone(), fields: values })
            },
            Expr::Identifier { name, span } => match value_named(env, name) {
                Some(value) => Ok(value),
                None => match value_named(&work.globals, name) {
                    Some(value) => Ok(value),
                    None => Err(Error::Undefined { name: name.clone(), span: *span }),
                },
            },
            Expr::Comptime { expression, .. } => self.eval(work, env, expression, depth),
            Expr::SizeOf { ty, span } => {
                let (size, _) = self.layout_of(ty, *span)?;
                Ok(Value::Integer(size as i128))
            },
            Expr::AlignOf { ty, span } => {
                let (_, align) = self.layout_of(ty, *span)?;
                Ok(Value::Integer(align as i128))
            },
            Expr::OffsetOf { ty, field, span } => {
                let offset: u64 = self.offset(ty, field, *span)?;
                Ok(Value::Integer(offset as i128))
            },
            Expr::Unary { operator, operand, span } => {
                let x: Value = self.eval(work, env, operand, depth)?;
                unary(*operator, &x, *span)
            },
            Expr::Binary { left, operator, right, span } => {
                let a: Value = self.eval(work, env, left, depth)?;
                if *operator == BinaryOp::LogicalAnd || *operator == BinaryOp::LogicalOr {
                    return match a {
                        Value::Bool(b) => {
                            if b == (*operator == BinaryOp::LogicalOr) {
                                Ok(Value::Bool(b))
                            } else {
                                self.eval(work, env, right, depth)
                            }
                        },
                        _ => Err(invalid("logical operators require booleans", *span)),
                    };
                }
                let b: Value = self.eval(work, env, right, depth)?;
                binary(*operator, &a, &b, *span, self.floats)
            },
            Expr::Call { callee, arguments, span } => match &**callee {
                Expr::Identifier { name, .. } => {
                    assert(callee@ == ExprView::Identifier { name: name@, span: callee@.span() });
                    if is_provided(name) {
                        self.eval_provided(work, env, name, arguments, *span, depth)
                    } else {
                        let values: Vec<Value> = self.eval_all(work, env, arguments, depth)?;
                        self.call(work, name, values, *span, depth)
                    }
                },
                _ => Err(unsupported("indirect compile-time calls are unavailable", *span)),
            },
            Expr::Field { base, name, span } => {
                let value: Value = self.eval(work, env, base, depth)?;
                field_of(&value, name, *span)
            },
            Expr::Index { .. } => self.eval_index(work, env, e, depth),
            Expr::UncheckedIndex { .. } => self.eval_index(work, env, e, depth),
            Expr::Null { span } => Err(
                unsupported(
                    "null/result propagation is not available in compile-time evaluation",
                    *span,
                ),
            ),
            Expr::Propagate { span, .. } => Err(
                unsupported(
                    "null/result propagation is not available in compile-time evaluation",
                    *span,
                ),
            ),
        }
    }

    fn eval_index(&self, work: &mut Work, env: &Vec<(String, Value)>, e: &Expr, depth: usize) -> (r:
        Result<Value, Error>)
        requires
            self.wf(),
            e is Index || e is UncheckedIndex,
        ensures
            (value_outcome(r), final(work)@) == expansion::indexed(
                self.setting(),
                old(work)@,
                named_values_view(env@),
                e@,
                depth as nat,
            ),
        decreases depth, 2int, e, 0int,
    {
        match e {
            Expr::Index { base, index, span } => {
                let whole: Value = self.eval(work, env, base, depth)?;
                match whole {
                    Value::Array(values) => {
                        let i: Value = self.eval(work, env, index, depth)?;
                        element_at(&values, &i, index.span(), *span)
                    },
                    _ => Err(invalid("indexing requires a compile-time array", *span)),
                }
            },
            Expr::UncheckedIndex { base, index, span } => {
                let whole: Value = self.eval(work, env, base, depth)?;
                match whole {
                    Value::Array(values) => {
                        let i: Value = self.eval(work, env, index, depth)?;
                        element_at(&values, &i, index.span(), *span)
                    },
                    _ => Err(invalid("indexing requires a compile-time array", *span)),
                }
            },
            _ => Err(invalid("indexing requires a compile-time array", e.span())),
        }
    }

    fn eval_provided(
        &self,
        work: &mut Work,
        env: &Vec<(String, Value)>,
        name: &String,
        arguments: &Vec<Expr>,
        span: Span,
        depth: usize,
    ) -> (r: Result<Value, Error>)
        requires
            self.wf(),
        ensures
            (value_outcome(r), final(work)@) == expansion::provided(
                self.setting(),
                old(work)@,
                named_values_view(env@),
                name@,
                exprs_view(arguments@),
                span,
                depth as nat,
            ),
        decreases depth, 2int, arguments, arguments@.len() + 1,
    {
        assert(exprs_view(arguments@).len() == arguments@.len());
        assert(arguments@.len() > 0 ==> exprs_view(arguments@)[0] == arguments@[0]@);
        assert(arguments@.len() > 1 ==> exprs_view(arguments@)[1] == arguments@[1]@);
        if text_is(name, "validate_type") {
            if arguments.len() != 1 {
                return Err(invalid("validate_type expects one type argument", span));
            }
            return self.validate_type_expr(&arguments[0]);
        }
        if text_is(name, "reflect_type") {
            if arguments.len() != 1 {
                return Err(invalid("reflect_type expects one type argument", span));
            }
            return self.reflect_type_expr(&arguments[0], span);
        }
        if text_is(name, "validate") || text_is(name, "compile_error") {
            let values: Vec<Value> = self.eval_all(work, env, arguments, depth)?;
            return validated(text_is(name, "compile_error"), &values, span);
        }
        if text_is(name, "length") {
            if arguments.len() != 1 {
                return Err(invalid("length expects one argument", span));
            }
            let value: Value = self.eval(work, env, &arguments[0], depth)?;
            return length_of(&value, span);
        }
        if text_is(name, "reflect_module") {
            if arguments.len() != 0 {
                return Err(invalid("reflect_module expects no arguments", span));
            }
            return Ok(self.reflect_module());
        }
        if text_is(name, "reflect_function") {
            if arguments.len() != 1 {
                return Err(invalid("reflect_function expects one function name", span));
            }
            let value: Value = self.eval(work, env, &arguments[0], depth)?;
            return match value {
                Value::String(text) => self.reflect_function_name(&text, span),
                _ => Err(invalid("reflect_function expects a string name", span)),
            };
        }
        if arguments.len() != 2 {
            let message: String = joined(name.clone(), " expects a name and a value");
            return Err(Error::InvalidOperation { message, span });
        }
        let first: Value = self.eval(work, env, &arguments[0], depth)?;
        match first {
            Value::String(text) => {
                let value: Value = self.eval(work, env, &arguments[1], depth)?;
                let constant: bool = text_is(name, "generate_constant");
                self.generate_declaration(work, constant, text, &value, span)?;
                Ok(Value::Unit)
            },
            _ => Err(invalid("generated declaration name must be a string", span)),
        }
    }

    fn eval_all(
        &self,
        work: &mut Work,
        env: &Vec<(String, Value)>,
        es: &Vec<Expr>,
        depth: usize,
    ) -> (r: Result<Vec<Value>, Error>)
        requires
            self.wf(),
        ensures
            (values_outcome(r), final(work)@) == expansion::all_evaluated(
                self.setting(),
                old(work)@,
                named_values_view(env@),
                exprs_view(es@),
                0,
                Seq::empty(),
                depth as nat,
            ),
        decreases depth, 2int, es, 0int,
    {
        let ghost s = self.setting();
        let ghost start = work@;
        let ghost locals = named_values_view(env@);
        let ghost all = exprs_view(es@);
        let mut out: Vec<Value> = Vec::new();
        assert(values_view(out@) =~= Seq::empty());
        for i in 0..es.len()
            invariant
                self.wf(),
                s == self.setting(),
                start == old(work)@,
                locals == named_values_view(env@),
                all == exprs_view(es@),
                expansion::all_evaluated(s, start, locals, all, 0, Seq::empty(), depth as nat)
                    == expansion::all_evaluated(
                    s,
                    work@,
                    locals,
                    all,
                    i as int,
                    values_view(out@),
                    depth as nat,
                ),
        {
            assert(all[i as int] == es@[i as int]@);
            let value: Value = self.eval(work, env, &es[i], depth)?;
            proof {
                lemma_values_push(out@, value);
            }
            out.push(value);
        }
        Ok(out)
    }

    fn eval_inits(
        &self,
        work: &mut Work,
        env: &Vec<(String, Value)>,
        inits: &Vec<StructInit>,
        depth: usize,
    ) -> (r: Result<Vec<(String, Value)>, Error>)
        requires
            self.wf(),
        ensures
            (named_outcome(r), final(work)@) == expansion::inits_evaluated(
                self.setting(),
                old(work)@,
                named_values_view(env@),
                inits_view(inits@),
                0,
                Seq::empty(),
                depth as nat,
            ),
        decreases depth, 2int, inits, 0int,
    {
        let ghost s = self.setting();
        let ghost start = work@;
        let ghost locals = named_values_view(env@);
        let ghost all = inits_view(inits@);
        let mut out: Vec<(String, Value)> = Vec::new();
        assert(named_values_view(out@) =~= Seq::empty());
        for i in 0..inits.len()
            invariant
                self.wf(),
                s == self.setting(),
                start == old(work)@,
                locals == named_values_view(env@),
                all == inits_view(inits@),
                expansion::inits_evaluated(s, start, locals, all, 0, Seq::empty(), depth as nat)
                    == expansion::inits_evaluated(
                    s,
                    work@,
                    locals,
                    all,
                    i as int,
                    named_values_view(out@),
                    depth as nat,
                ),
        {
            assert(all[i as int] == inits@[i as int]@);
            let value: Value = self.eval(work, env, &inits[i].value, depth)?;
            let ghost before = named_values_view(out@);
            let ghost added = (inits@[i as int].name@, value@);
            out.push((inits[i].name.clone(), value));
            assert(named_values_view(out@) =~= before.push(added));
        }
        Ok(out)
    }

    fn call(
        &self,
        work: &mut Work,
        name: &String,
        values: Vec<Value>,
        span: Span,
        depth: usize,
    ) -> (r: Result<Value, Error>)
        requires
            self.wf(),
        ensures
            (value_outcome(r), final(work)@) == expansion::called(
                self.setting(),
                old(work)@,
                name@,
                values_view(values@),
                span,
                depth as nat,
            ),
        decreases depth, 1int, values, 0int,
    {
        let f: &FunctionDecl = match self.function_named(name) {
            Some(f) => f,
            None => {
                return Err(Error::Undefined { name: name.clone(), span });
            },
        };
        if f.is_extern {
            return Err(unsupported("FFI calls are runtime-only in compile-time context", span));
        }
        assert(values_view(values@).len() == values@.len());
        assert(parameters_view(f.params@).len() == f.params@.len());
        if values.len() != f.params.len() {
            let message: String = joined(
                joined("compile-time call `".to_owned(), name.as_str()),
                "` has the wrong number of arguments",
            );
            return Err(Error::InvalidOperation { message, span });
        }
        match done_before(&work.done, name, &values, self.floats) {
            Some(value) => {
                return Ok(value);
            },
            None => {},
        }
        if depth == 0 {
            return Err(Error::RecursionLimit { span });
        }
        let mut env: Vec<(String, Value)> = bind_parameters(&f.params, &values);
        match self.exec_block(work, &mut env, &f.body, depth - 1)? {
            ExecResult::Return(value) => {
                note(work, name, values, &value);
                Ok(value)
            },
            ExecResult::Normal => {
                let unit: Value = Value::Unit;
                note(work, name, values, &unit);
                Ok(unit)
            },
            ExecResult::Break => Err(
                invalid("break or continue escaped a compile-time function", span),
            ),
            ExecResult::Continue => Err(
                invalid("break or continue escaped a compile-time function", span),
            ),
        }
    }

    // -----------------------------------------------------------------------
    // Statements
    // -----------------------------------------------------------------------

    fn exec_block(
        &self,
        work: &mut Work,
        env: &mut Vec<(String, Value)>,
        b: &Block,
        depth: usize,
    ) -> (r: Result<ExecResult, Error>)
        requires
            self.wf(),
        ensures
            (run_outcome(r, final(env)@), final(work)@) == expansion::block_run(
                self.setting(),
                old(work)@,
                named_values_view(old(env)@),
                b@,
                depth as nat,
            ),
        decreases depth, 3int, b, 0int,
    {
        let ghost s = self.setting();
        let ghost start = work@;
        let ghost first = named_values_view(env@);
        let ghost all = stmts_view(b.statements@);
        assert(b@.statements == all);
        for i in 0..b.statements.len()
            invariant
                self.wf(),
                s == self.setting(),
                start == old(work)@,
                first == named_values_view(old(env)@),
                all == stmts_view(b.statements@),
                b@.statements == all,
                expansion::statements_run(s, start, first, all, 0, depth as nat)
                    == expansion::statements_run(
                    s,
                    work@,
                    named_values_view(env@),
                    all,
                    i as int,
                    depth as nat,
                ),
        {
            assert(all[i as int] == b.statements@[i as int]@);
            assert(expansion::block_run(s, start, first, b@, depth as nat)
                == expansion::statements_run(s, start, first, all, 0, depth as nat));
            match self.exec_statement(work, env, &b.statements[i], depth)? {
                ExecResult::Normal => {},
                ending => {
                    return Ok(ending);
                },
            }
        }
        assert(expansion::block_run(s, start, first, b@, depth as nat)
            == expansion::statements_run(s, start, first, all, 0, depth as nat));
        Ok(ExecResult::Normal)
    }

    fn exec_statement(
        &self,
        work: &mut Work,
        env: &mut Vec<(String, Value)>,
        st: &Stmt,
        depth: usize,
    ) -> (r: Result<ExecResult, Error>)
        requires
            self.wf(),
        ensures
            (run_outcome(r, final(env)@), final(work)@) == expansion::statement_run(
                self.setting(),
                old(work)@,
                named_values_view(old(env)@),
                st@,
                depth as nat,
            ),
        decreases depth, 3int, st, 0int,
    {
        match st {
            Stmt::Return { value, .. } => match value {
                None => Ok(ExecResult::Return(Value::Unit)),
                Some(e) => {
                    let x: Value = self.eval(work, env, e, depth)?;
                    Ok(ExecResult::Return(x))
                },
            },
            Stmt::Variable(v) => {
                let x: Value = self.eval(work, env, &v.value, depth)?;
                assign(env, &v.name, x);
                Ok(ExecResult::Normal)
            },
            Stmt::Expr { expression, .. } => {
                let _ = self.eval(work, env, expression, depth)?;
                Ok(ExecResult::Normal)
            },
            Stmt::If { condition, then_branch, else_branch, .. } => {
                let test: Value = self.eval(work, env, condition, depth)?;
                if is_true(&test) {
                    self.exec_block(work, env, then_branch, depth)
                } else {
                    match else_branch {
                        Some(branch) => self.exec_block(work, env, branch, depth),
                        None => Ok(ExecResult::Normal),
                    }
                }
            },
            Stmt::While { condition, body, span } => self.exec_loop(
                work,
                env,
                condition,
                body,
                *span,
                depth,
            ),
            Stmt::Assignment { target, value, span } => match target {
                Expr::Identifier { name, .. } => {
                    let x: Value = self.eval(work, env, value, depth)?;
                    if value_named(env, name).is_none() {
                        return Err(Error::Undefined { name: name.clone(), span: *span });
                    }
                    assign(env, name, x);
                    Ok(ExecResult::Normal)
                },
                _ => Err(unsupported("complex assignment is unavailable at compile time", *span)),
            },
            Stmt::Break { .. } => Ok(ExecResult::Break),
            Stmt::Continue { .. } => Ok(ExecResult::Continue),
            Stmt::Defer { span, .. } => Err(
                unsupported("defer is runtime-only in compile-time functions", *span),
            ),
        }
    }

    fn exec_loop(
        &self,
        work: &mut Work,
        env: &mut Vec<(String, Value)>,
        condition: &Expr,
        body: &Block,
        span: Span,
        depth: usize,
    ) -> (r: Result<ExecResult, Error>)
        requires
            self.wf(),
        ensures
            (run_outcome(r, final(env)@), final(work)@) == expansion::loop_run(
                self.setting(),
                old(work)@,
                named_values_view(old(env)@),
                condition@,
                body@,
                span,
                depth as nat,
                self.limits.steps as nat,
            ),
        decreases depth, 3int, body, 1int,
    {
        let ghost s = self.setting();
        let ghost start = work@;
        let ghost first = named_values_view(env@);
        let mut rounds: u64 = self.limits.steps;
        loop
            invariant
                self.wf(),
                s == self.setting(),
                start == old(work)@,
                first == named_values_view(old(env)@),
                expansion::loop_run(
                    s,
                    start,
                    first,
                    condition@,
                    body@,
                    span,
                    depth as nat,
                    self.limits.steps as nat,
                ) == expansion::loop_run(
                    s,
                    work@,
                    named_values_view(env@),
                    condition@,
                    body@,
                    span,
                    depth as nat,
                    rounds as nat,
                ),
            decreases rounds,
        {
            let test: Value = self.eval(work, env, condition, depth)?;
            if !is_true(&test) {
                return Ok(ExecResult::Normal);
            }
            if rounds == 0 {
                return Err(Error::StepLimit { span });
            }
            match self.exec_block(work, env, body, depth)? {
                ExecResult::Break => {
                    return Ok(ExecResult::Normal);
                },
                ExecResult::Return(value) => {
                    return Ok(ExecResult::Return(value));
                },
                _ => {
                    rounds = rounds - 1;
                },
            }
        }
    }

    // -----------------------------------------------------------------------
    // Expansion
    // -----------------------------------------------------------------------

    fn expand_expr(&self, work: &mut Work, e: &Expr) -> (r: Result<Expr, Error>)
        requires
            self.wf(),
        ensures
            (expr_outcome(r), final(work)@) == expansion::expanded(
                self.setting(),
                old(work)@,
                e@,
            ),
        decreases e,
    {
        match e {
            Expr::Comptime { expression, span } => {
                let value: Value = self.value_of(work, expression)?;
                value_expr_with_hint(&value, *span, &None)
            },
            Expr::Binary { left, operator, right, span } => {
                let a: Expr = self.expand_expr(work, left)?;
                let b: Expr = self.expand_expr(work, right)?;
                Ok(
                    Expr::Binary {
                        left: Box::new(a),
                        operator: *operator,
                        right: Box::new(b),
                        span: *span,
                    },
                )
            },
            Expr::Unary { operator, operand, span } => {
                let x: Expr = self.expand_expr(work, operand)?;
                Ok(Expr::Unary { operator: *operator, operand: Box::new(x), span: *span })
            },
            Expr::Call { callee, arguments, span } => {
                let target: Expr = self.expand_expr(work, callee)?;
                let values: Vec<Expr> = self.expand_exprs(work, arguments)?;
                Ok(Expr::Call { callee: Box::new(target), arguments: values, span: *span })
            },
            Expr::Field { base, name, span } => {
                let x: Expr = self.expand_expr(work, base)?;
                Ok(Expr::Field { base: Box::new(x), name: name.clone(), span: *span })
            },
            Expr::Index { base, index, span } => {
                let a: Expr = self.expand_expr(work, base)?;
                let b: Expr = self.expand_expr(work, index)?;
                Ok(Expr::Index { base: Box::new(a), index: Box::new(b), span: *span })
            },
            Expr::UncheckedIndex { base, index, span } => {
                let a: Expr = self.expand_expr(work, base)?;
                let b: Expr = self.expand_expr(work, index)?;
                Ok(Expr::UncheckedIndex { base: Box::new(a), index: Box::new(b), span: *span })
            },
            Expr::StructLiteral { name, fields, span } => {
                let values: Vec<StructInit> = self.expand_inits(work, fields)?;
                Ok(Expr::StructLiteral { name: name.clone(), fields: values, span: *span })
            },
            Expr::ArrayLiteral { ty, elements, span } => {
                let values: Vec<Expr> = self.expand_exprs(work, elements)?;
                Ok(Expr::ArrayLiteral { ty: ty.clone(), elements: values, span: *span })
            },
            Expr::Propagate { expression, span } => {
                let x: Expr = self.expand_expr(work, expression)?;
                Ok(Expr::Propagate { expression: Box::new(x), span: *span })
            },
            _ => Ok(e.clone()),
        }
    }

    fn expand_exprs(&self, work: &mut Work, es: &Vec<Expr>) -> (r: Result<Vec<Expr>, Error>)
        requires
            self.wf(),
        ensures
            (exprs_outcome(r), final(work)@) == expansion::all_expanded(
                self.setting(),
                old(work)@,
                exprs_view(es@),
                0,
                Seq::empty(),
            ),
        decreases es,
    {
        let ghost s = self.setting();
        let ghost start = work@;
        let ghost all = exprs_view(es@);
        let mut out: Vec<Expr> = Vec::new();
        assert(exprs_view(out@) =~= Seq::empty());
        for i in 0..es.len()
            invariant
                self.wf(),
                s == self.setting(),
                start == old(work)@,
                all == exprs_view(es@),
                expansion::all_expanded(s, start, all, 0, Seq::empty()) == expansion::all_expanded(
                    s,
                    work@,
                    all,
                    i as int,
                    exprs_view(out@),
                ),
        {
            assert(all[i as int] == es@[i as int]@);
            let x: Expr = self.expand_expr(work, &es[i])?;
            out.push(x);
        }
        Ok(out)
    }

    fn expand_inits(&self, work: &mut Work, inits: &Vec<StructInit>) -> (r: Result<
        Vec<StructInit>,
        Error,
    >)
        requires
            self.wf(),
        ensures
            (inits_outcome(r), final(work)@) == expansion::inits_expanded(
                self.setting(),
                old(work)@,
                inits_view(inits@),
                0,
                Seq::empty(),
            ),
        decreases inits,
    {
        let ghost s = self.setting();
        let ghost start = work@;
        let ghost all = inits_view(inits@);
        let mut out: Vec<StructInit> = Vec::new();
        assert(inits_view(out@) =~= Seq::empty());
        for i in 0..inits.len()
            invariant
                self.wf(),
                s == self.setting(),
                start == old(work)@,
                all == inits_view(inits@),
                expansion::inits_expanded(s, start, all, 0, Seq::empty())
                    == expansion::inits_expanded(s, work@, all, i as int, inits_view(out@)),
        {
            assert(all[i as int] == inits@[i as int]@);
            let value: Expr = self.expand_expr(work, &inits[i].value)?;
            out.push(StructInit { name: inits[i].name.clone(), value, span: inits[i].span });
        }
        Ok(out)
    }

    /// A variable whose value is marked for compile time, with its value.
    fn evaluate_variable(&self, work: &mut Work, v: &VariableDecl, inner: &Expr) -> (r: Result<
        VariableDecl,
        Error,
    >)
        requires
            self.wf(),
        ensures
            match expansion::variable_evaluated(self.setting(), old(work)@, v@, inner@) {
                (Ok((w, _)), after) => (r matches Ok(made) && made@ == w) && final(work)@ == after,
                (Err(problem), after) => (r matches Err(error) && error@ == problem)
                    && final(work)@ == after,
            },
    {
        let value: Value = self.value_of(work, inner)?;
        let hint: Option<Type> = self.expression_type_hint(inner);
        let e: Expr = value_expr_with_hint(&value, v.value.span(), &hint)?;
        Ok(with_value_and_type(v, e, hint))
    }

    fn expand_block(&self, work: &mut Work, b: &Block) -> (r: Result<Block, Error>)
        requires
            self.wf(),
        ensures
            (block_outcome(r), final(work)@) == expansion::block_expanded(
                self.setting(),
                old(work)@,
                b@,
            ),
        decreases b,
    {
        let ghost s = self.setting();
        let ghost start = work@;
        let ghost all = stmts_view(b.statements@);
        assert(b@.statements == all);
        let mut out: Vec<Stmt> = Vec::new();
        assert(stmts_view(out@) =~= Seq::empty());
        for i in 0..b.statements.len()
            invariant
                self.wf(),
                s == self.setting(),
                start == old(work)@,
                all == stmts_view(b.statements@),
                b@.statements == all,
                expansion::statements_expanded(s, start, all, 0, Seq::empty())
                    == expansion::statements_expanded(
                    s,
                    work@,
                    all,
                    i as int,
                    stmts_view(out@),
                ),
        {
            assert(all[i as int] == b.statements@[i as int]@);
            let x: Stmt = self.expand_statement(work, &b.statements[i])?;
            out.push(x);
        }
        Ok(Block { statements: out, span: b.span })
    }

    fn expand_statement(&self, work: &mut Work, st: &Stmt) -> (r: Result<Stmt, Error>)
        requires
            self.wf(),
        ensures
            (statement_outcome(r), final(work)@) == expansion::statement_expanded(
                self.setting(),
                old(work)@,
                st@,
            ),
        decreases st,
    {
        match st {
            Stmt::If { condition, then_branch, else_branch, span } => {
                let test: Expr = self.expand_expr(work, condition)?;
                let yes: Block = self.expand_block(work, then_branch)?;
                match else_branch {
                    None => Ok(
                        Stmt::If {
                            condition: test,
                            then_branch: yes,
                            else_branch: None,
                            span: *span,
                        },
                    ),
                    Some(branch) => {
                        let no: Block = self.expand_block(work, branch)?;
                        Ok(
                            Stmt::If {
                                condition: test,
                                then_branch: yes,
                                else_branch: Some(no),
                                span: *span,
                            },
                        )
                    },
                }
            },
            Stmt::While { condition, body, span } => {
                let test: Expr = self.expand_expr(work, condition)?;
                let inner: Block = self.expand_block(work, body)?;
                Ok(Stmt::While { condition: test, body: inner, span: *span })
            },
            Stmt::Return { value, span } => match value {
                None => Ok(Stmt::Return { value: None, span: *span }),
                Some(e) => {
                    let x: Expr = self.expand_expr(work, e)?;
                    Ok(Stmt::Return { value: Some(x), span: *span })
                },
            },
            Stmt::Variable(v) => match &v.value {
                Expr::Comptime { expression, .. } => {
                    let w: VariableDecl = self.evaluate_variable(work, v, expression)?;
                    Ok(Stmt::Variable(w))
                },
                _ => {
                    let value: Expr = self.expand_expr(work, &v.value)?;
                    Ok(Stmt::Variable(with_value_of(v, value)))
                },
            },
            Stmt::Assignment { target, value, span } => {
                let place: Expr = self.expand_expr(work, target)?;
                let x: Expr = self.expand_expr(work, value)?;
                Ok(Stmt::Assignment { target: place, value: x, span: *span })
            },
            Stmt::Expr { expression, span } => {
                let x: Expr = self.expand_expr(work, expression)?;
                Ok(Stmt::Expr { expression: x, span: *span })
            },
            Stmt::Defer { call, span } => {
                let x: Expr = self.expand_expr(work, call)?;
                Ok(Stmt::Defer { call: x, span: *span })
            },
            Stmt::Break { .. } => Ok(st.clone()),
            Stmt::Continue { .. } => Ok(st.clone()),
        }
    }

    fn expand_global(&self, work: &mut Work, v: &VariableDecl) -> (r: Result<VariableDecl, Error>)
        requires
            self.wf(),
        ensures
            match expansion::global_expanded(self.setting(), old(work)@, v@) {
                (Ok(w), after) => (r matches Ok(made) && made@ == w) && final(work)@ == after,
                (Err(problem), after) => (r matches Err(error) && error@ == problem)
                    && final(work)@ == after,
            },
    {
        let plain: Expr = self.expand_expr(work, &v.value)?;
        match &v.value {
            Expr::Comptime { expression, .. } => {
                let value: Value = self.value_of(work, expression)?;
                assign(&mut work.globals, &v.name, value.clone());
                let hint: Option<Type> = self.expression_type_hint(expression);
                let e: Expr = value_expr_with_hint(&value, v.value.span(), &hint)?;
                Ok(with_value_and_type(v, e, hint))
            },
            _ => {
                match self.value_of(work, &plain) {
                    Ok(value) => {
                        assign(&mut work.globals, &v.name, value);
                    },
                    Err(_) => {},
                }
                Ok(with_value_of(v, plain))
            },
        }
    }

    fn expand_declaration(&self, work: &mut Work, d: &Decl) -> (r: Result<Option<Decl>, Error>)
        requires
            self.wf(),
        ensures
            match expansion::declaration_expanded(self.setting(), old(work)@, d@) {
                (Ok(kept), after) => (r matches Ok(made) && kept == (match made {
                    Some(d) => Some(d@),
                    None => None,
                })) && final(work)@ == after,
                (Err(problem), after) => (r matches Err(error) && error@ == problem)
                    && final(work)@ == after,
            },
    {
        reveal(expansion::declaration_expanded);
        match d {
            Decl::Variable(v) => {
                let w: VariableDecl = self.expand_global(work, v)?;
                Ok(Some(Decl::Variable(w)))
            },
            Decl::Comptime { expression, span } => {
                let value: Value = self.value_of(work, expression)?;
                match value {
                    Value::Unit => Ok(None),
                    _ => Err(
                        invalid("top-level compile-time directive must return unit", *span),
                    ),
                }
            },
            Decl::Function(f) => {
                let body: Block = self.expand_block(work, &f.body)?;
                let copy: FunctionDecl = f.clone();
                Ok(Some(Decl::Function(FunctionDecl { body, ..copy })))
            },
            Decl::Struct(_) => Ok(Some(d.clone())),
        }
    }

    fn expand(&self) -> (r: Result<Program, Error>)
        requires
            self.wf(),
        ensures
            program_outcome(r) == expansion::program_expanded(self.setting()),
    {
        let ghost s = self.setting();
        let mut work: Work = Work::start();
        let mut kept: Vec<Decl> = Vec::new();
        assert(decls_view(kept@) =~= Seq::empty());
        for i in 0..self.program.declarations.len()
            invariant
                self.wf(),
                s == self.setting(),
                expansion::declarations_expanded(
                    s,
                    expansion::nothing_done(),
                    0,
                    Seq::empty(),
                ) == expansion::declarations_expanded(
                    s,
                    work@,
                    i as int,
                    decls_view(kept@),
                ),
        {
            assert(s.program.declarations[i as int] == self.program.declarations@[i as int]@);
            match self.expand_declaration(&mut work, &self.program.declarations[i])? {
                Some(d) => {
                    kept.push(d);
                },
                None => {},
            }
        }
        let ghost generated = work@.generated;
        let ghost first = decls_view(kept@);
        assert(expansion::declarations_expanded(
            s,
            expansion::nothing_done(),
            0,
            Seq::empty(),
        ) == Ok::<(Seq<DeclView>, Progress), ErrorView>((first, work@)));
        for i in 0..work.generated.len()
            invariant
                s == self.setting(),
                generated == decls_view(work.generated@),
                expansion::program_expanded(s) == (match expansion::with_generated(
                    s,
                    generated,
                    0,
                    first,
                ) {
                    Err(error) => Err(error),
                    Ok(declarations) => Ok(
                        ProgramView { imports: s.program.imports, declarations },
                    ),
                }),
                expansion::with_generated(s, generated, 0, first) == expansion::with_generated(
                    s,
                    generated,
                    i as int,
                    decls_view(kept@),
                ),
        {
            let d: &Decl = &work.generated[i];
            assert(generated[i as int] == d@);
            match declared_name(d) {
                Some(name) => {
                    if declaring(&self.program.declarations, name).is_some() || declaring(
                        &kept,
                        name,
                    ).is_some() {
                        let message: String = joined(
                            joined("generated declaration `".to_owned(), name.as_str()),
                            "` conflicts with an existing declaration",
                        );
                        return Err(
                            Error::InvalidOperation { message, span: declaration_span(d) },
                        );
                    }
                },
                None => {},
            }
            kept.push(d.clone());
        }
        Ok(Program { imports: imports_clone(&self.program.imports), declarations: kept })
    }
}

// ---------------------------------------------------------------------------
// Names with values
// ---------------------------------------------------------------------------

fn place_of(values: &Vec<(String, Value)>, name: &String) -> (r: Option<usize>)
    ensures
        match r {
            Some(i) => i < values@.len() && expansion::place_of(
                named_values_view(values@),
                0,
                name@,
            ) == Some(i as int),
            None => expansion::place_of(named_values_view(values@), 0, name@) is None,
        },
{
    let ghost all = named_values_view(values@);
    for i in 0..values.len()
        invariant
            all == named_values_view(values@),
            expansion::place_of(all, 0, name@) == expansion::place_of(all, i as int, name@),
    {
        assert(all[i as int] == (values@[i as int].0@, values@[i as int].1@));
        if values[i].0 == *name {
            return Some(i);
        }
    }
    None
}

fn value_named(values: &Vec<(String, Value)>, name: &String) -> (r: Option<Value>)
    ensures
        match r {
            Some(value) => expansion::value_named(named_values_view(values@), name@) == Some(
                value@,
            ),
            None => expansion::value_named(named_values_view(values@), name@) is None,
        },
{
    match place_of(values, name) {
        Some(i) => {
            assert(named_values_view(values@)[i as int] == (
                values@[i as int].0@,
                values@[i as int].1@,
            ));
            Some(values[i].1.clone())
        },
        None => None,
    }
}

fn assign(values: &mut Vec<(String, Value)>, name: &String, value: Value)
    ensures
        named_values_view(final(values)@) == expansion::with_value(
            named_values_view(old(values)@),
            name@,
            value@,
        ),
{
    let ghost before = named_values_view(values@);
    let ghost added = (name@, value@);
    match place_of(values, name) {
        Some(i) => {
            values[i] = (name.clone(), value);
            assert(named_values_view(values@) =~= before.update(i as int, added));
        },
        None => {
            values.push((name.clone(), value));
            assert(named_values_view(values@) =~= before.push(added));
        },
    }
}

fn bind_parameters(params: &Vec<Parameter>, values: &Vec<Value>) -> (r: Vec<(String, Value)>)
    requires
        params@.len() == values@.len(),
    ensures
        named_values_view(r@) == expansion::parameters_bound(
            parameters_view(params@),
            values_view(values@),
            0,
            Seq::empty(),
        ),
{
    let ghost all = parameters_view(params@);
    let ghost given = values_view(values@);
    let mut env: Vec<(String, Value)> = Vec::new();
    assert(named_values_view(env@) =~= Seq::empty());
    for i in 0..params.len()
        invariant
            params@.len() == values@.len(),
            all == parameters_view(params@),
            given == values_view(values@),
            expansion::parameters_bound(all, given, 0, Seq::empty())
                == expansion::parameters_bound(
                all,
                given,
                i as int,
                named_values_view(env@),
            ),
    {
        assert(all[i as int] == params@[i as int]@);
        assert(given[i as int] == values@[i as int]@);
        assign(&mut env, &params[i].name, values[i].clone());
    }
    env
}

fn note(work: &mut Work, name: &String, values: Vec<Value>, value: &Value)
    ensures
        final(work)@ == expansion::noted(old(work)@, name@, values_view(values@), value@),
{
    let ghost before = work@.done;
    let ghost entry = EntryView {
        name: name@,
        arguments: values_view(values@),
        value: value@,
    };
    work.done.push(CacheEntry { name: name.clone(), arguments: values, value: value.clone() });
    assert(work@.done =~= before.push(entry));
}

fn done_before<F: Fn(FloatOp, String, String) -> FloatAnswer>(
    done: &Vec<CacheEntry>,
    name: &String,
    values: &Vec<Value>,
    floats: &F,
) -> (r: Option<Value>)
    requires
        answers(*floats),
    ensures
        match r {
            Some(value) => expansion::done_before(
                float_model(*floats),
                entries_view(done@),
                done@.len() as int,
                name@,
                values_view(values@),
            ) == Some(value@),
            None => expansion::done_before(
                float_model(*floats),
                entries_view(done@),
                done@.len() as int,
                name@,
                values_view(values@),
            ) is None,
        },
{
    let ghost m = float_model(*floats);
    let ghost all = entries_view(done@);
    let ghost given = values_view(values@);
    let mut i: usize = done.len();
    while i > 0
        invariant
            answers(*floats),
            m == float_model(*floats),
            i <= done.len(),
            all == entries_view(done@),
            given == values_view(values@),
            expansion::done_before(m, all, done@.len() as int, name@, given)
                == expansion::done_before(m, all, i as int, name@, given),
        decreases i,
    {
        assert(all[i - 1].value == done@[i - 1].value@);
        if done[i - 1].name == *name && same_arguments(&done[i - 1].arguments, values, floats) {
            return Some(done[i - 1].value.clone());
        }
        i -= 1;
    }
    None
}

// ---------------------------------------------------------------------------
// Values
// ---------------------------------------------------------------------------

/// Whether two values are equal.
fn equal_values<F: Fn(FloatOp, String, String) -> FloatAnswer>(
    a: &Value,
    b: &Value,
    floats: &F,
) -> (r: bool)
    requires
        answers(*floats),
    ensures
        r == expansion::equal_values(float_model(*floats), a@, b@),
    decreases a,
{
    match (a, b) {
        (Value::Unit, Value::Unit) => true,
        (Value::Integer(x), Value::Integer(y)) => *x == *y,
        (Value::Float(x), Value::Float(y)) => {
            let answer: FloatAnswer = ask(floats, FloatOp::Equal, x, y);
            answer.truth
        },
        (Value::Bool(x), Value::Bool(y)) => *x == *y,
        (Value::String(x), Value::String(y)) => *x == *y,
        (Value::TypeInfo(x), Value::TypeInfo(y)) => x.name == y.name && x.identity == y.identity
            && x.size == y.size && x.alignment == y.alignment && equal_lists(
            &x.fields,
            &y.fields,
            floats,
        ),
        (Value::FunctionInfo(x), Value::FunctionInfo(y)) => x.name == y.name && x.return_type
            == y.return_type && equal_lists(&x.parameters, &y.parameters, floats),
        (Value::ModuleInfo(x), Value::ModuleInfo(y)) => equal_lists(
            &x.declarations,
            &y.declarations,
            floats,
        ),
        (Value::DeclarationInfo(x), Value::DeclarationInfo(y)) => x.name == y.name && x.kind
            == y.kind && x.exported == y.exported,
        (Value::FieldInfo(x), Value::FieldInfo(y)) => x.name == y.name && x.ty == y.ty && x.offset
            == y.offset,
        (Value::TypeRef(x), Value::TypeRef(y)) => *x == *y,
        (Value::Array(x), Value::Array(y)) => equal_lists(x, y, floats),
        (Value::Struct { name: x, fields: f }, Value::Struct { name: y, fields: g }) => *x == *y
            && equal_fields(f, g, floats),
        _ => false,
    }
}

fn equal_lists<F: Fn(FloatOp, String, String) -> FloatAnswer>(
    a: &Vec<Value>,
    b: &Vec<Value>,
    floats: &F,
) -> (r: bool)
    requires
        answers(*floats),
    ensures
        r == expansion::equal_lists(float_model(*floats), values_view(a@), values_view(b@), 0),
    decreases a,
{
    let ghost m = float_model(*floats);
    let ghost x = values_view(a@);
    let ghost y = values_view(b@);
    assert(x.len() == a@.len() && y.len() == b@.len());
    if a.len() != b.len() {
        return false;
    }
    for i in 0..a.len()
        invariant
            answers(*floats),
            m == float_model(*floats),
            x == values_view(a@),
            y == values_view(b@),
            a.len() == b.len(),
            expansion::equal_lists(m, x, y, 0) == expansion::equal_lists(m, x, y, i as int),
    {
        assert(x[i as int] == a@[i as int]@ && y[i as int] == b@[i as int]@);
        if !equal_values(&a[i], &b[i], floats) {
            return false;
        }
    }
    true
}

fn equal_fields<F: Fn(FloatOp, String, String) -> FloatAnswer>(
    a: &Vec<(String, Value)>,
    b: &Vec<(String, Value)>,
    floats: &F,
) -> (r: bool)
    requires
        answers(*floats),
    ensures
        r == expansion::equal_fields(
            float_model(*floats),
            named_values_view(a@),
            named_values_view(b@),
            0,
        ),
    decreases a,
{
    let ghost m = float_model(*floats);
    let ghost x = named_values_view(a@);
    let ghost y = named_values_view(b@);
    assert(x.len() == a@.len() && y.len() == b@.len());
    if a.len() != b.len() {
        return false;
    }
    for i in 0..a.len()
        invariant
            answers(*floats),
            m == float_model(*floats),
            x == named_values_view(a@),
            y == named_values_view(b@),
            a.len() == b.len(),
            expansion::equal_fields(m, x, y, 0) == expansion::equal_fields(m, x, y, i as int),
    {
        assert(x[i as int] == (a@[i as int].0@, a@[i as int].1@));
        assert(y[i as int] == (b@[i as int].0@, b@[i as int].1@));
        if !(a[i].0 == b[i].0) || !equal_values(&a[i].1, &b[i].1, floats) {
            return false;
        }
    }
    true
}

/// Whether two values are the same as arguments of a call.
fn same_argument<F: Fn(FloatOp, String, String) -> FloatAnswer>(
    a: &Value,
    b: &Value,
    floats: &F,
) -> (r: bool)
    requires
        answers(*floats),
    ensures
        r == expansion::same_argument(float_model(*floats), a@, b@),
    decreases a,
{
    match (a, b) {
        (Value::Unit, Value::Unit) => true,
        (Value::Integer(x), Value::Integer(y)) => *x == *y,
        (Value::Float(x), Value::Float(y)) => {
            let left: FloatAnswer = ask(floats, FloatOp::Canonical, x, x);
            let right: FloatAnswer = ask(floats, FloatOp::Canonical, y, y);
            left.number == right.number
        },
        (Value::Bool(x), Value::Bool(y)) => *x == *y,
        (Value::String(x), Value::String(y)) => *x == *y,
        (Value::TypeInfo(x), Value::TypeInfo(y)) => x.name == y.name && x.identity == y.identity
            && x.size == y.size && x.alignment == y.alignment && same_arguments(
            &x.fields,
            &y.fields,
            floats,
        ),
        (Value::FunctionInfo(x), Value::FunctionInfo(y)) => x.name == y.name && x.return_type
            == y.return_type && same_arguments(&x.parameters, &y.parameters, floats),
        (Value::ModuleInfo(x), Value::ModuleInfo(y)) => same_arguments(
            &x.declarations,
            &y.declarations,
            floats,
        ),
        (Value::DeclarationInfo(x), Value::DeclarationInfo(y)) => x.name == y.name && x.kind
            == y.kind && x.exported == y.exported,
        (Value::FieldInfo(x), Value::FieldInfo(y)) => x.name == y.name && x.ty == y.ty && x.offset
            == y.offset,
        (Value::TypeRef(x), Value::TypeRef(y)) => *x == *y,
        (Value::Array(x), Value::Array(y)) => same_arguments(x, y, floats),
        (Value::Struct { name: x, fields: f }, Value::Struct { name: y, fields: g }) => *x == *y
            && same_named_arguments(f, g, floats),
        _ => false,
    }
}

fn same_arguments<F: Fn(FloatOp, String, String) -> FloatAnswer>(
    a: &Vec<Value>,
    b: &Vec<Value>,
    floats: &F,
) -> (r: bool)
    requires
        answers(*floats),
    ensures
        r == expansion::same_arguments(float_model(*floats), values_view(a@), values_view(b@), 0),
    decreases a,
{
    let ghost m = float_model(*floats);
    let ghost x = values_view(a@);
    let ghost y = values_view(b@);
    assert(x.len() == a@.len() && y.len() == b@.len());
    if a.len() != b.len() {
        return false;
    }
    for i in 0..a.len()
        invariant
            answers(*floats),
            m == float_model(*floats),
            x == values_view(a@),
            y == values_view(b@),
            a.len() == b.len(),
            expansion::same_arguments(m, x, y, 0) == expansion::same_arguments(m, x, y, i as int),
    {
        assert(x[i as int] == a@[i as int]@ && y[i as int] == b@[i as int]@);
        if !same_argument(&a[i], &b[i], floats) {
            return false;
        }
    }
    true
}

fn same_named_arguments<F: Fn(FloatOp, String, String) -> FloatAnswer>(
    a: &Vec<(String, Value)>,
    b: &Vec<(String, Value)>,
    floats: &F,
) -> (r: bool)
    requires
        answers(*floats),
    ensures
        r == expansion::same_named_arguments(
            float_model(*floats),
            named_values_view(a@),
            named_values_view(b@),
            0,
        ),
    decreases a,
{
    let ghost m = float_model(*floats);
    let ghost x = named_values_view(a@);
    let ghost y = named_values_view(b@);
    assert(x.len() == a@.len() && y.len() == b@.len());
    if a.len() != b.len() {
        return false;
    }
    for i in 0..a.len()
        invariant
            answers(*floats),
            m == float_model(*floats),
            x == named_values_view(a@),
            y == named_values_view(b@),
            a.len() == b.len(),
            expansion::same_named_arguments(m, x, y, 0)
                == expansion::same_named_arguments(m, x, y, i as int),
    {
        assert(x[i as int] == (a@[i as int].0@, a@[i as int].1@));
        assert(y[i as int] == (b@[i as int].0@, b@[i as int].1@));
        if !(a[i].0 == b[i].0) || !same_argument(&a[i].1, &b[i].1, floats) {
            return false;
        }
    }
    true
}


fn is_true(value: &Value) -> (r: bool)
    ensures
        r == (value@ == ValueView::Bool(true)),
{
    match value {
        Value::Bool(b) => *b,
        _ => false,
    }
}

fn type_display(ty: &Type) -> (r: String)
    ensures
        r@ == expansion::displayed(ty@),
    decreases ty,
{
    match ty {
        Type::Unit => "unit".to_owned(),
        Type::Named(name) => name.clone(),
        Type::Pointer(inner) => joined("*".to_owned(), type_display(inner).as_str()),
        Type::Slice(inner) => joined("[]".to_owned(), type_display(inner).as_str()),
        Type::Array { length, element } => {
            let count: String = decimal_text(*length as u128);
            let inner: String = type_display(element);
            joined(joined(joined("[".to_owned(), count.as_str()), "]"), inner.as_str())
        },
        Type::Result { success, error } => {
            let left: String = type_display(success);
            let right: String = type_display(error);
            joined(
                joined(joined(joined("result(".to_owned(), left.as_str()), ", "), right.as_str()),
                ")",
            )
        },
    }
}

fn value_type(value: &Value) -> (r: Option<Type>)
    ensures
        type_option(r) == expansion::type_of_value(value@),
    decreases value,
{
    match value {
        Value::Integer(_) => Some(Type::Named("i32".to_owned())),
        Value::Float(_) => Some(Type::Named("f64".to_owned())),
        Value::Bool(_) => Some(Type::Named("bool".to_owned())),
        Value::Array(values) => {
            assert(values_view(values@).len() == values@.len());
            let element: Type = if values.len() > 0 {
                assert(values_view(values@)[0] == values@[0]@);
                match value_type(&values[0]) {
                    Some(ty) => ty,
                    None => Type::Named("i32".to_owned()),
                }
            } else {
                let plain: Type = Type::Named("i32".to_owned());
                assert(plain@ == TypeView::Named("i32"@));
                plain
            };
            Some(Type::Array { length: values.len() as u64, element: Box::new(element) })
        },
        Value::Struct { name, .. } => Some(Type::Named(name.clone())),
        _ => None,
    }
}

/// The expression that stands for a value at run time.
fn value_expr_with_hint(value: &Value, span: Span, hint: &Option<Type>) -> (r: Result<Expr, Error>)
    ensures
        expr_outcome(r) == expansion::emitted(value@, span, type_option(*hint)),
    decreases value,
{
    match value {
        Value::Unit => Ok(Expr::Integer { value: 0, span }),
        Value::Integer(n) => Ok(Expr::Integer { value: *n, span }),
        Value::Float(x) => Ok(Expr::Float { value: x.clone(), span }),
        Value::Bool(b) => Ok(Expr::Bool { value: *b, span }),
        Value::Array(values) => {
            assert(values_view(values@).len() == values@.len());
            let ty: Type = match hint {
                Some(ty) => ty.clone(),
                None => {
                    let element: Type = Type::Named("i32".to_owned());
                    assert(element@ == TypeView::Named("i32"@));
                    Type::Array { length: values.len() as u64, element: Box::new(element) }
                },
            };
            let inner: Option<Type> = match &ty {
                Type::Array { element, .. } => Some((**element).clone()),
                _ => None,
            };
            let elements: Vec<Expr> = value_exprs(values, span, &inner)?;
            Ok(Expr::ArrayLiteral { ty, elements, span })
        },
        Value::Struct { name, fields } => {
            let inits: Vec<StructInit> = value_inits(fields, span)?;
            Ok(Expr::StructLiteral { name: name.clone(), fields: inits, span })
        },
        _ => Err(invalid("metadata and strings cannot be emitted as runtime declarations", span)),
    }
}

fn value_exprs(values: &Vec<Value>, span: Span, hint: &Option<Type>) -> (r: Result<
    Vec<Expr>,
    Error,
>)
    ensures
        exprs_outcome(r) == expansion::all_emitted(
            values_view(values@),
            span,
            type_option(*hint),
            0,
            Seq::empty(),
        ),
    decreases values,
{
    let ghost all = values_view(values@);
    let ghost wanted = type_option(*hint);
    let mut out: Vec<Expr> = Vec::new();
    assert(exprs_view(out@) =~= Seq::empty());
    for i in 0..values.len()
        invariant
            all == values_view(values@),
            wanted == type_option(*hint),
            expansion::all_emitted(all, span, wanted, 0, Seq::empty()) == expansion::all_emitted(
                all,
                span,
                wanted,
                i as int,
                exprs_view(out@),
            ),
    {
        assert(all[i as int] == values@[i as int]@);
        let e: Expr = value_expr_with_hint(&values[i], span, hint)?;
        out.push(e);
    }
    Ok(out)
}

fn value_inits(fields: &Vec<(String, Value)>, span: Span) -> (r: Result<Vec<StructInit>, Error>)
    ensures
        inits_outcome(r) == expansion::fields_emitted(
            named_values_view(fields@),
            span,
            0,
            Seq::empty(),
        ),
    decreases fields,
{
    let ghost all = named_values_view(fields@);
    let mut out: Vec<StructInit> = Vec::new();
    assert(inits_view(out@) =~= Seq::empty());
    for i in 0..fields.len()
        invariant
            all == named_values_view(fields@),
            expansion::fields_emitted(all, span, 0, Seq::empty()) == expansion::fields_emitted(
                all,
                span,
                i as int,
                inits_view(out@),
            ),
    {
        assert(all[i as int] == (fields@[i as int].0@, fields@[i as int].1@));
        let value: Expr = value_expr_with_hint(&fields[i].1, span, &None)?;
        out.push(StructInit { name: fields[i].0.clone(), value, span });
    }
    Ok(out)
}

fn with_value_of(v: &VariableDecl, value: Expr) -> (r: VariableDecl)
    ensures
        r@ == (VariableDeclView { value: value@, ..v@ }),
{
    let copy: VariableDecl = v.clone();
    VariableDecl { value, ..copy }
}

fn with_value_and_type(v: &VariableDecl, value: Expr, hint: Option<Type>) -> (r: VariableDecl)
    ensures
        r@ == (VariableDeclView {
            value: value@,
            ty: if v@.ty is None {
                type_option(hint)
            } else {
                v@.ty
            },
            ..v@
        }),
{
    let copy: VariableDecl = v.clone();
    let ty: Option<Type> = match copy.ty {
        None => hint,
        Some(ty) => Some(ty),
    };
    VariableDecl {
        name: copy.name,
        kind: copy.kind,
        ty,
        value,
        span: copy.span,
        exported: copy.exported,
    }
}

fn declaration_of(constant: bool, name: String, ty: Type, value: Expr, span: Span) -> (r: Decl)
    ensures
        r@ == expansion::generated_declaration(constant, name@, ty@, value@, span),
{
    if constant {
        let v: VariableDecl = VariableDecl {
            name,
            kind: VariableKind::Immutable,
            ty: Some(ty),
            value,
            span,
            exported: false,
        };
        Decl::Variable(v)
    } else {
        let ghost inner = value@;
        let statement: Stmt = Stmt::Return { value: Some(value), span };
        assert(statement@ == StmtView::Return { value: Some(inner), span });
        let ghost shown = statement@;
        let mut statements: Vec<Stmt> = Vec::new();
        statements.push(statement);
        assert(stmts_view(statements@) =~= seq![shown]);
        let none: Vec<crate::ast::GenericParam> = Vec::new();
        assert(crate::ast::generics_view(none@) =~= Seq::empty());
        let params: Vec<Parameter> = Vec::new();
        assert(parameters_view(params@) =~= Seq::empty());
        let body: Block = Block { statements, span };
        assert(body@ == BlockView { statements: seq![shown], span });
        let f: FunctionDecl = FunctionDecl {
            name,
            generic_params: none,
            params,
            return_type: ty,
            body,
            span,
            is_extern: false,
            abi: None,
            link_name: None,
            exported: false,
        };
        Decl::Function(f)
    }
}

/// Whether what was generated under a name is what is generated now.
fn same_generated<F: Fn(FloatOp, String, String) -> FloatAnswer>(
    existing: &Decl,
    constant: bool,
    ty: &Type,
    value: &Expr,
    span: Span,
    floats: &F,
) -> (r: bool)
    requires
        answers(*floats),
    ensures
        r == expansion::generated_again(
            float_model(*floats),
            existing@,
            constant,
            ty@,
            value@,
            span,
        ),
{
    match existing {
        Decl::Variable(v) => match &v.ty {
            Some(known) => constant && known.same(ty) && v.span == span && equal_literals(
                &v.value,
                value,
                floats,
            ),
            None => false,
        },
        Decl::Function(f) => {
            assert(stmts_view(f.body.statements@).len() == f.body.statements@.len());
            assert(f@.body.statements == stmts_view(f.body.statements@));
            if f.body.statements.len() != 1 {
                return false;
            }
            assert(f@.body.statements[0] == f.body.statements@[0]@);
            match &f.body.statements[0] {
                Stmt::Return { value: found, .. } => match found {
                    Some(e) => !constant && f.return_type.same(ty) && f.span == span
                        && equal_literals(e, value, floats),
                    None => false,
                },
                _ => false,
            }
        },
        _ => false,
    }
}

/// Whether two emitted expressions are equal.
fn equal_literals<F: Fn(FloatOp, String, String) -> FloatAnswer>(
    a: &Expr,
    b: &Expr,
    floats: &F,
) -> (r: bool)
    requires
        answers(*floats),
    ensures
        r == expansion::equal_literals(float_model(*floats), a@, b@),
    decreases a,
{
    match (a, b) {
        (Expr::Integer { value: x, span: s }, Expr::Integer { value: y, span: t }) => *x == *y && *s
            == *t,
        (Expr::Float { value: x, span: s }, Expr::Float { value: y, span: t }) => {
            let answer: FloatAnswer = ask(floats, FloatOp::Equal, x, y);
            answer.truth && *s == *t
        },
        (Expr::Bool { value: x, span: s }, Expr::Bool { value: y, span: t }) => *x == *y && *s
            == *t,
        (
            Expr::ArrayLiteral { ty: p, elements: x, span: s },
            Expr::ArrayLiteral { ty: q, elements: y, span: t },
        ) => p.same(q) && *s == *t && equal_elements(x, y, floats),
        (
            Expr::StructLiteral { name: p, fields: x, span: s },
            Expr::StructLiteral { name: q, fields: y, span: t },
        ) => *p == *q && *s == *t && equal_inits(x, y, floats),
        _ => false,
    }
}

fn equal_elements<F: Fn(FloatOp, String, String) -> FloatAnswer>(
    a: &Vec<Expr>,
    b: &Vec<Expr>,
    floats: &F,
) -> (r: bool)
    requires
        answers(*floats),
    ensures
        r == expansion::equal_elements(
            float_model(*floats),
            exprs_view(a@),
            exprs_view(b@),
            0,
        ),
    decreases a,
{
    let ghost m = float_model(*floats);
    let ghost x = exprs_view(a@);
    let ghost y = exprs_view(b@);
    assert(x.len() == a@.len() && y.len() == b@.len());
    if a.len() != b.len() {
        return false;
    }
    for i in 0..a.len()
        invariant
            answers(*floats),
            m == float_model(*floats),
            x == exprs_view(a@),
            y == exprs_view(b@),
            a.len() == b.len(),
            expansion::equal_elements(m, x, y, 0) == expansion::equal_elements(m, x, y, i as int),
    {
        assert(x[i as int] == a@[i as int]@ && y[i as int] == b@[i as int]@);
        if !equal_literals(&a[i], &b[i], floats) {
            return false;
        }
    }
    true
}

fn equal_inits<F: Fn(FloatOp, String, String) -> FloatAnswer>(
    a: &Vec<StructInit>,
    b: &Vec<StructInit>,
    floats: &F,
) -> (r: bool)
    requires
        answers(*floats),
    ensures
        r == expansion::equal_inits(float_model(*floats), inits_view(a@), inits_view(b@), 0),
    decreases a,
{
    let ghost m = float_model(*floats);
    let ghost x = inits_view(a@);
    let ghost y = inits_view(b@);
    assert(x.len() == a@.len() && y.len() == b@.len());
    if a.len() != b.len() {
        return false;
    }
    for i in 0..a.len()
        invariant
            answers(*floats),
            m == float_model(*floats),
            x == inits_view(a@),
            y == inits_view(b@),
            a.len() == b.len(),
            expansion::equal_inits(m, x, y, 0) == expansion::equal_inits(m, x, y, i as int),
    {
        assert(x[i as int] == a@[i as int]@ && y[i as int] == b@[i as int]@);
        if !(a[i].name == b[i].name) || a[i].span != b[i].span || !equal_literals(
            &a[i].value,
            &b[i].value,
            floats,
        ) {
            return false;
        }
    }
    true
}

fn is_identifier(name: &String) -> (r: bool)
    ensures
        r == expansion::is_identifier(name@),
{
    let chars: Vec<char> = chars_of(name.as_str());
    if chars.len() == 0 || !(char_is_letter(chars[0]) || chars[0] == '_') {
        return false;
    }
    for i in 1..chars.len()
        invariant
            chars@ == name@,
            forall|k: int|
                1 <= k < i ==> crate::text::is_letter(#[trigger] name@[k]) || crate::text::is_digit(
                    name@[k],
                ) || name@[k] == '_',
    {
        if !(char_is_letter(chars[i]) || char_is_digit(chars[i]) || chars[i] == '_') {
            return false;
        }
    }
    true
}

fn integer_bits(name: &String) -> (r: Option<u64>)
    ensures
        match r {
            Some(bits) => expansion::integer_bits(name@) == Some(bits as nat),
            None => expansion::integer_bits(name@) is None,
        },
{
    if text_is(name, "i8") || text_is(name, "u8") {
        Some(8)
    } else if text_is(name, "i16") || text_is(name, "u16") {
        Some(16)
    } else if text_is(name, "i32") || text_is(name, "u32") {
        Some(32)
    } else if text_is(name, "i64") || text_is(name, "u64") {
        Some(64)
    } else if text_is(name, "i128") || text_is(name, "u128") {
        Some(128)
    } else {
        None
    }
}

fn is_builtin_type(name: &String) -> (r: bool)
    ensures
        r == expansion::is_builtin(name@),
{
    if text_is(name, "unit") || text_is(name, "bool") || text_is(name, "f32") || text_is(
        name,
        "f64",
    ) || text_is(name, "usize") || text_is(name, "isize") {
        return true;
    }
    let chars: Vec<char> = chars_of(name.as_str());
    if chars.len() > 1 && (chars[0] == 'i' || chars[0] == 'u') {
        let rest: String = text_between(&chars, 1, chars.len());
        assert(rest@ =~= name@.drop_first());
        match parse_unsigned(&rest) {
            Some(n) => n <= u16::MAX as u64,
            None => false,
        }
    } else {
        false
    }
}

fn other_layout(name: &String) -> (r: Option<(u64, u64)>)
    ensures
        match r {
            Some((a, b)) => expansion::other_layout(name@) == Some((a as nat, b as nat)),
            None => expansion::other_layout(name@) is None,
        },
{
    if text_is(name, "unit") {
        return Some((0, 1));
    }
    let chars: Vec<char> = chars_of(name.as_str());
    if chars.len() > 0 && (chars[0] == 'i' || chars[0] == 'u') {
        let rest: String = text_between(&chars, 1, chars.len());
        assert(rest@ =~= name@.drop_first());
        let bits: u64 = match parse_unsigned(&rest) {
            Some(n) => n,
            None => 32,
        };
        let bytes: u64 = if bits / 8 == 0 {
            1
        } else {
            bits / 8
        };
        return Some((bytes, bytes));
    }
    None
}

fn is_provided(name: &String) -> (r: bool)
    ensures
        r == expansion::is_provided(name@),
{
    text_is(name, "validate_type") || text_is(name, "reflect_type") || text_is(name, "validate")
        || text_is(name, "compile_error") || text_is(name, "length") || text_is(
        name,
        "reflect_module",
    ) || text_is(name, "reflect_function") || text_is(name, "generate_function") || text_is(
        name,
        "generate_constant",
    )
}

fn validated(always_fails: bool, values: &Vec<Value>, span: Span) -> (r: Result<Value, Error>)
    ensures
        value_outcome(r) == expansion::validated(always_fails, values_view(values@), span),
{
    let ghost all = values_view(values@);
    assert(all.len() == values@.len());
    assert(values@.len() > 0 ==> all[0] == values@[0]@);
    if !always_fails && values.len() > 0 && is_true(&values[0]) {
        return Ok(Value::Unit);
    }
    for i in 0..values.len()
        invariant
            all == values_view(values@),
            expansion::first_text(all, 0) == expansion::first_text(all, i as int),
            expansion::validated(always_fails, all, span) == Err::<ValueView, ErrorView>(
                expansion::invalid(
                    match expansion::first_text(all, 0) {
                        Some(text) => text,
                        None => "compile-time validation failed"@,
                    },
                    span,
                ),
            ),
    {
        assert(all[i as int] == values@[i as int]@);
        match &values[i] {
            Value::String(text) => {
                return Err(Error::InvalidOperation { message: text.clone(), span });
            },
            _ => {},
        }
    }
    Err(invalid("compile-time validation failed", span))
}

fn length_of(value: &Value, span: Span) -> (r: Result<Value, Error>)
    ensures
        value_outcome(r) == expansion::length_of(value@, span),
{
    match value {
        Value::Array(values) => {
            assert(values_view(values@).len() == values@.len());
            Ok(Value::Integer(values.len() as i128))
        },
        Value::String(text) => {
            let bytes: &[u8] = text.as_str().as_bytes();
            Ok(Value::Integer(bytes.len() as i128))
        },
        _ => Err(invalid("length expects an array or string", span)),
    }
}

fn element_at(values: &Vec<Value>, index: &Value, index_span: Span, span: Span) -> (r: Result<
    Value,
    Error,
>)
    ensures
        value_outcome(r) == expansion::element_at(
            values_view(values@),
            index@,
            index_span,
            span,
        ),
{
    match index {
        Value::Integer(i) => {
            assert(values_view(values@).len() == values@.len());
            if 0 <= *i && *i < values.len() as i128 {
                let k: usize = *i as usize;
                assert(values_view(values@)[k as int] == values@[k as int]@);
                Ok(values[k].clone())
            } else {
                Err(invalid("compile-time array index is out of bounds", span))
            }
        },
        _ => Err(invalid("array index must be an integer", index_span)),
    }
}

fn field_of(value: &Value, name: &String, span: Span) -> (r: Result<Value, Error>)
    ensures
        value_outcome(r) == expansion::field_of(value@, name@, span),
{
    match value {
        Value::Struct { fields, .. } => match value_named(fields, name) {
            Some(found) => Ok(found),
            None => Err(Error::Undefined { name: name.clone(), span }),
        },
        Value::TypeInfo(info) => {
            if text_is(name, "name") {
                Ok(Value::String(info.name.clone()))
            } else if text_is(name, "identity") {
                Ok(Value::String(info.identity.clone()))
            } else if text_is(name, "size") {
                Ok(Value::Integer(info.size as i128))
            } else if text_is(name, "alignment") {
                Ok(Value::Integer(info.alignment as i128))
            } else if text_is(name, "fields") {
                Ok(Value::Array(values_clone(&info.fields)))
            } else {
                Err(Error::Undefined { name: name.clone(), span })
            }
        },
        Value::FieldInfo(info) => {
            if text_is(name, "name") {
                Ok(Value::String(info.name.clone()))
            } else if text_is(name, "type") {
                Ok(Value::TypeRef(info.ty.clone()))
            } else if text_is(name, "offset") {
                Ok(Value::Integer(info.offset as i128))
            } else {
                Err(Error::Undefined { name: name.clone(), span })
            }
        },
        Value::FunctionInfo(info) => {
            if text_is(name, "name") {
                Ok(Value::String(info.name.clone()))
            } else if text_is(name, "parameters") {
                Ok(Value::Array(values_clone(&info.parameters)))
            } else if text_is(name, "return_type") {
                Ok(Value::TypeRef(info.return_type.clone()))
            } else {
                Err(Error::Undefined { name: name.clone(), span })
            }
        },
        Value::ModuleInfo(info) => {
            if text_is(name, "declarations") {
                Ok(Value::Array(values_clone(&info.declarations)))
            } else {
                Err(Error::Undefined { name: name.clone(), span })
            }
        },
        Value::DeclarationInfo(info) => {
            if text_is(name, "name") {
                Ok(Value::String(info.name.clone()))
            } else if text_is(name, "kind") {
                Ok(Value::String(info.kind.clone()))
            } else if text_is(name, "exported") {
                Ok(Value::Bool(info.exported))
            } else {
                Err(Error::Undefined { name: name.clone(), span })
            }
        },
        _ => Err(
            invalid("field access requires a compile-time struct or metadata value", span),
        ),
    }
}

// ---------------------------------------------------------------------------
// Layout
// ---------------------------------------------------------------------------

fn no_layout(span: Span) -> (r: Error)
    ensures
        r@ == expansion::no_layout(span),
{
    invalid("type has no layout", span)
}

proof fn lemma_product_fits(a: u64, b: u64)
    ensures
        0 <= a * b <= u128::MAX,
{
    assert(0 <= a * b <= 0xFFFF_FFFF_FFFF_FFFF * 0xFFFF_FFFF_FFFF_FFFF) by (nonlinear_arith)
        requires
            0 <= a <= 0xFFFF_FFFF_FFFF_FFFF,
            0 <= b <= 0xFFFF_FFFF_FFFF_FFFF,
    ;
}

fn align_to(value: u64, align: u64) -> (r: Option<u64>)
    ensures
        match r {
            Some(n) => expansion::aligned_to(value as nat, align as nat) == Some(n as nat),
            None => expansion::aligned_to(value as nat, align as nat) is None,
        },
{
    if align == 0 {
        return None;
    }
    proof {
        lemma_next_multiple(value as int, align as int);
    }
    let over: u64 = value % align;
    if over == 0 {
        Some(value)
    } else if value > u64::MAX - (align - over) {
        None
    } else {
        Some(value + (align - over))
    }
}

fn after_field(size: u64, own: u64, own_align: u64) -> (r: Option<(u64, u64)>)
    ensures
        match r {
            Some((start, end)) => expansion::after_field(
                size as nat,
                own as nat,
                own_align as nat,
            ) == Some((start as nat, end as nat)),
            None => expansion::after_field(size as nat, own as nat, own_align as nat) is None,
        },
{
    match align_to(size, own_align) {
        Some(start) => {
            if own > u64::MAX - start {
                None
            } else {
                Some((start, start + own))
            }
        },
        None => None,
    }
}

// ---------------------------------------------------------------------------
// Operators
// ---------------------------------------------------------------------------

fn unary(op: UnaryOp, value: &Value, span: Span) -> (r: Result<Value, Error>)
    ensures
        value_outcome(r) == expansion::unary_value(op, value@, span),
{
    match (op, value) {
        (UnaryOp::Negate, Value::Integer(n)) => {
            proof {
                lemma_held_in_range(-*n, 128, true);
            }
            Ok(Value::Integer(hold_negation(*n, 128, true)))
        },
        (UnaryOp::Negate, Value::Float(x)) => Ok(Value::Float(negate_text(x))),
        (UnaryOp::Not, Value::Bool(b)) => Ok(Value::Bool(!*b)),
        (UnaryOp::BitwiseNot, Value::Bool(b)) => Ok(Value::Bool(!*b)),
        (UnaryOp::BitwiseNot, Value::Integer(n)) => {
            proof {
                lemma_held_in_range(-1 - *n, 128, true);
            }
            Ok(Value::Integer(hold_complement(*n, 128, true)))
        },
        _ => Err(
            unsupported(
                "pointers and runtime-only operations are unavailable at compile time",
                span,
            ),
        ),
    }
}

fn orders(op: BinaryOp) -> (r: bool)
    ensures
        r == expansion::orders(op),
{
    op == BinaryOp::Less || op == BinaryOp::LessEqual || op == BinaryOp::Greater || op
        == BinaryOp::GreaterEqual
}

fn binary<F: Fn(FloatOp, String, String) -> FloatAnswer>(
    op: BinaryOp,
    a: &Value,
    b: &Value,
    span: Span,
    floats: &F,
) -> (r: Result<Value, Error>)
    requires
        answers(*floats),
    ensures
        value_outcome(r) == expansion::binary_value(float_model(*floats), op, a@, b@, span),
{
    if op == BinaryOp::Equal {
        return Ok(Value::Bool(equal_values(a, b, floats)));
    }
    if op == BinaryOp::NotEqual {
        return Ok(Value::Bool(!equal_values(a, b, floats)));
    }
    match (a, b) {
        (Value::Integer(x), Value::Integer(y)) => integer_op(op, *x, *y, span),
        (Value::String(x), Value::String(y)) => {
            if op == BinaryOp::Add {
                Ok(Value::String(joined(x.clone(), y.as_str())))
            } else if orders(op) {
                Err(invalid("ordered integer operands required", span))
            } else {
                Err(invalid("integer operands required", span))
            }
        },
        _ => {
            if orders(op) {
                Err(invalid("ordered integer operands required", span))
            } else {
                Err(invalid("integer operands required", span))
            }
        },
    }
}

fn wide_value(n: i128) -> (r: Value)
    ensures
        r@ == ValueView::Integer(n),
{
    Value::Integer(n)
}

fn integer_op(op: BinaryOp, a: i128, b: i128, span: Span) -> (r: Result<Value, Error>)
    ensures
        value_outcome(r) == expansion::integer_value(op, a as int, b as int, span),
{
    let x: u128 = bits_of(a);
    let y: u128 = bits_of(b);
    proof {
        lemma_pow2_128();
    }
    match op {
        BinaryOp::Add => {
            proof {
                lemma_held_in_range(a + b, 128, true);
            }
            Ok(wide_value(hold_sum(a, b, 128, true)))
        },
        BinaryOp::Subtract => {
            proof {
                lemma_held_in_range(a - b, 128, true);
            }
            Ok(wide_value(hold_difference(a, b, 128, true)))
        },
        BinaryOp::Multiply => {
            proof {
                lemma_held_in_range(a * b, 128, true);
            }
            Ok(wide_value(hold_product(a, b, 128, true)))
        },
        BinaryOp::BitwiseAnd => {
            proof {
                lemma_held_in_range((x & y) as int, 128, true);
            }
            Ok(wide_value(hold_bits(x & y, 128, true)))
        },
        BinaryOp::BitwiseOr => {
            proof {
                lemma_held_in_range((x | y) as int, 128, true);
            }
            Ok(wide_value(hold_bits(x | y, 128, true)))
        },
        BinaryOp::BitwiseXor => {
            proof {
                lemma_held_in_range((x ^ y) as int, 128, true);
            }
            Ok(wide_value(hold_bits(x ^ y, 128, true)))
        },
        BinaryOp::Divide => {
            if b == 0 {
                return Err(Error::DivisionByZero { span });
            }
            proof {
                lemma_held_in_range(quotient(a as int, b as int), 128, true);
            }
            if a == i128::MIN && b == -1 {
                assert(-(a as int) / 1 == -(a as int));
                assert(quotient(a as int, b as int) == -(a as int));
                Ok(wide_value(hold_negation(a, 128, true)))
            } else {
                let q: i128 = divide(a, b);
                proof {
                    lemma_held_as_itself(q as int, 128, true);
                }
                Ok(wide_value(q))
            }
        },
        BinaryOp::Modulo => {
            if b == 0 {
                return Err(Error::DivisionByZero { span });
            }
            let m: i128 = remain(a, b);
            proof {
                lemma_held_as_itself(m as int, 128, true);
            }
            Ok(wide_value(m))
        },
        BinaryOp::ShiftLeft => {
            let amount: u128 = low_bits(b, 7);
            proof {
                lemma_low_seven(b as int);
                lemma_held_in_range(
                    x * vstd::arithmetic::power2::pow2(amount as nat),
                    128,
                    true,
                );
            }
            Ok(wide_value(hold_shift_up(x, amount as u32, 128, true)))
        },
        BinaryOp::ShiftRight => {
            let amount: u128 = low_bits(b, 7);
            proof {
                lemma_low_seven(b as int);
            }
            let v: i128 = shift_down(a, amount as u32);
            proof {
                lemma_held_as_itself(v as int, 128, true);
            }
            Ok(wide_value(v))
        },
        BinaryOp::Less => Ok(Value::Bool(a < b)),
        BinaryOp::LessEqual => Ok(Value::Bool(a <= b)),
        BinaryOp::Greater => Ok(Value::Bool(a > b)),
        _ => Ok(Value::Bool(a >= b)),
    }
}

proof fn lemma_low_seven(b: int)
    ensures
        0 <= low(b, 7) < 128,
{
    reveal(low);
    vstd::arithmetic::power2::lemma2_to64();
}

} // verus!
