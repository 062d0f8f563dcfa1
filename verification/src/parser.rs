//! The parser: from tokens to the syntax tree.
use crate::ast::{
    exprs_view, fields_view, generics_view, inits_view, parameters_view, stmts_view, BinaryOp,
    Block, Decl, Expr, ExprView, FunctionDecl, GenericParam, ImportDecl, Parameter, ParameterView,
    Program, Stmt, StructDecl, StructField, StructInit, Type, TypeView, UnaryOp, VariableDecl,
    VariableKind, BlockView, DeclView, FunctionDeclView, ImportDeclView, ProgramView, StmtView,
    StructDeclView, StructFieldView, StructInitView, VariableDeclView, GenericParamView,
    imports_view, decls_view,
};
use crate::grammar;
use crate::grammar::{ended, is_token_stream};
use crate::lexer::{show_span, span_text, tokens_view, Span, Token, TokenKind, TokenView};
use crate::names::spell_type;
use crate::text::{
    chars_of, find_char, float_text_is_valid, joined, parse_signed, parse_unsigned, remove_char,
    text_between, text_is, trim_char,
};
use vstd::prelude::*;

verus! {

broadcast use {crate::ast::group_ast_lists, crate::grammar::group_ended};

/// Why a list of tokens is no module.
#[allow(inconsistent_fields)]
#[derive(Debug, PartialEq, Eq)]
pub enum ParseError {
    UnexpectedToken { expected: String, found: TokenKind, span: Span },
    UnexpectedEof { expected: String, span: Span },
    InvalidInteger { lexeme: String, span: Span },
    InvalidFloat { lexeme: String, span: Span },
    InvalidDeclaration { span: Span },
    InvalidAssignmentTarget { span: Span },
    Unsupported { message: String, span: Span },
}

/// What a `ParseError` holds.
#[allow(inconsistent_fields)]
pub ghost enum ParseErrorView {
    UnexpectedToken { expected: Seq<char>, found: TokenKind, span: Span },
    UnexpectedEof { expected: Seq<char>, span: Span },
    InvalidInteger { lexeme: Seq<char>, span: Span },
    InvalidFloat { lexeme: Seq<char>, span: Span },
    InvalidDeclaration { span: Span },
    InvalidAssignmentTarget { span: Span },
    Unsupported { message: Seq<char>, span: Span },
}

impl ParseError {
    pub open spec fn view(&self) -> ParseErrorView
        decreases self,
    {
        match self {
            ParseError::UnexpectedToken { expected, found, span } =>
                ParseErrorView::UnexpectedToken {
                expected: expected@,
                found: *found,
                span: *span,
            },
            ParseError::UnexpectedEof { expected, span } => ParseErrorView::UnexpectedEof {
                expected: expected@,
                span: *span,
            },
            ParseError::InvalidInteger { lexeme, span } => ParseErrorView::InvalidInteger {
                lexeme: lexeme@,
                span: *span,
            },
            ParseError::InvalidFloat { lexeme, span } => ParseErrorView::InvalidFloat {
                lexeme: lexeme@,
                span: *span,
            },
            ParseError::InvalidDeclaration { span } => ParseErrorView::InvalidDeclaration {
                span: *span,
            },
            ParseError::InvalidAssignmentTarget { span } =>
                ParseErrorView::InvalidAssignmentTarget {
                span: *span,
            },
            ParseError::Unsupported { message, span } => ParseErrorView::Unsupported {
                message: message@,
                span: *span,
            },
        }
    }
}

impl Clone for ParseError {
    fn clone(&self) -> (r: Self)
        ensures
            r@ == self@,
        decreases self,
    {
        match self {
            ParseError::UnexpectedToken { expected, found, span } => ParseError::UnexpectedToken {
                expected: expected.clone(),
                found: *found,
                span: *span,
            },
            ParseError::UnexpectedEof { expected, span } => ParseError::UnexpectedEof {
                expected: expected.clone(),
                span: *span,
            },
            ParseError::InvalidInteger { lexeme, span } => ParseError::InvalidInteger {
                lexeme: lexeme.clone(),
                span: *span,
            },
            ParseError::InvalidFloat { lexeme, span } => ParseError::InvalidFloat {
                lexeme: lexeme.clone(),
                span: *span,
            },
            ParseError::InvalidDeclaration { span } => ParseError::InvalidDeclaration {
                span: *span,
            },
            ParseError::InvalidAssignmentTarget { span } => ParseError::InvalidAssignmentTarget {
                span: *span,
            },
            ParseError::Unsupported { message, span } => ParseError::Unsupported {
                message: message.clone(),
                span: *span,
            },
        }
    }
}

impl ParseErrorView {
    /// What the error's message reads.
    pub open spec fn message(self) -> Seq<char> {
        match self {
            ParseErrorView::UnexpectedToken { expected, found, span } => "expected "@ + expected
                + ", found "@ + found.name() + " at "@ + span_text(span),
            ParseErrorView::UnexpectedEof { expected, span } => "expected "@ + expected
                + ", found end of file at "@ + span_text(span),
            ParseErrorView::InvalidInteger { lexeme, span } => "invalid integer literal `"@ + lexeme
                + "` at "@ + span_text(span),
            ParseErrorView::InvalidFloat { lexeme, span } => "invalid floating-point literal `"@
                + lexeme + "` at "@ + span_text(span),
            ParseErrorView::InvalidDeclaration { span } => "invalid declaration at "@ + span_text(
                span,
            ),
            ParseErrorView::InvalidAssignmentTarget { span } => "invalid assignment target at "@
                + span_text(span),
            ParseErrorView::Unsupported { message, span } => message + " at "@ + span_text(span),
        }
    }

    /// Where the error stands in its source.
    pub open spec fn span(self) -> Span {
        match self {
            ParseErrorView::UnexpectedToken { span, .. } => span,
            ParseErrorView::UnexpectedEof { span, .. } => span,
            ParseErrorView::InvalidInteger { span, .. } => span,
            ParseErrorView::InvalidFloat { span, .. } => span,
            ParseErrorView::InvalidDeclaration { span } => span,
            ParseErrorView::InvalidAssignmentTarget { span } => span,
            ParseErrorView::Unsupported { span, .. } => span,
        }
    }
}

impl ParseError {
    pub fn to_string(&self) -> (r: String)
        ensures
            r@ == self@.message(),
    {
        match self {
            ParseError::UnexpectedToken { expected, found, span } => {
                let name: String = found.to_string();
                let start: String = joined("expected ".to_owned(), expected.as_str());
                let middle: String = joined(joined(start, ", found "), name.as_str());
                joined(joined(middle, " at "), show_span(*span).as_str())
            },
            ParseError::UnexpectedEof { expected, span } => {
                let start: String = joined("expected ".to_owned(), expected.as_str());
                joined(joined(start, ", found end of file at "), show_span(*span).as_str())
            },
            ParseError::InvalidInteger { lexeme, span } => {
                let start: String = joined("invalid integer literal `".to_owned(), lexeme.as_str());
                joined(joined(start, "` at "), show_span(*span).as_str())
            },
            ParseError::InvalidFloat { lexeme, span } => {
                let start: String = joined(
                    "invalid floating-point literal `".to_owned(),
                    lexeme.as_str(),
                );
                joined(joined(start, "` at "), show_span(*span).as_str())
            },
            ParseError::InvalidDeclaration { span } => {
                joined("invalid declaration at ".to_owned(), show_span(*span).as_str())
            },
            ParseError::InvalidAssignmentTarget { span } => {
                joined("invalid assignment target at ".to_owned(), show_span(*span).as_str())
            },
            ParseError::Unsupported { message, span } => {
                joined(joined(message.clone(), " at "), show_span(*span).as_str())
            },
        }
    }

    /// Where the error stands in its source.
    pub fn span(&self) -> (r: Span)
        ensures
            r == self@.span(),
    {
        match self {
            ParseError::UnexpectedToken { span, .. } => *span,
            ParseError::UnexpectedEof { span, .. } => *span,
            ParseError::InvalidInteger { span, .. } => *span,
            ParseError::InvalidFloat { span, .. } => *span,
            ParseError::InvalidDeclaration { span } => *span,
            ParseError::InvalidAssignmentTarget { span } => *span,
            ParseError::Unsupported { span, .. } => *span,
        }
    }
}

/// Reads a module out of a list of tokens.
pub struct Parser {
    tokens: Vec<Token>,
    position: usize,
}

/// The head of a function's declaration.
struct Head {
    name: String,
    start: usize,
    foreign: bool,
    abi: Option<String>,
    exported: bool,
}

impl Head {
    spec fn view(&self) -> grammar::FunctionHead {
        grammar::FunctionHead {
            name: self.name@,
            start: self.start,
            foreign: self.foreign,
            abi: match self.abi {
                Some(abi) => Some(abi@),
                None => None,
            },
            exported: self.exported,
        }
    }
}

impl Parser {
    /// The tokens to read.
    pub closed spec fn tokens(&self) -> Seq<TokenView> {
        tokens_view(self.tokens@)
    }

    /// Where reading goes on.
    pub closed spec fn position(&self) -> int {
        self.position as int
    }

    pub open spec fn wf(&self) -> bool {
        is_token_stream(self.tokens()) && ended(self.tokens(), self.position())
    }

    /// Whether reading can go on at `p`.
    spec fn ready(&self, p: int) -> bool {
        &&& is_token_stream(self.tokens())
        &&& self.tokens@.len() <= usize::MAX
        &&& ended(self.tokens(), p)
    }

    pub fn new(tokens: Vec<Token>) -> (r: Self)
        ensures
            r.tokens() == tokens_view(tokens@),
            r.position() == 0,
            is_token_stream(tokens_view(tokens@)) ==> r.wf(),
    {
        Parser { tokens, position: 0 }
    }

    /// Reads the module. After a failure the parser stands where it stood.
    pub fn parse(&mut self) -> (r: Result<Program, ParseError>)
        requires
            old(self).wf(),
        ensures
            final(self).wf(),
            final(self).tokens() == old(self).tokens(),
            match r {
                Ok(program) => grammar::module(
                    old(self).tokens(),
                    old(self).position(),
                    Seq::empty(),
                    Seq::empty(),
                ) == Ok::<(ProgramView, int), ParseErrorView>(
                    (program@, final(self).position()),
                ),
                Err(error) => grammar::module(
                    old(self).tokens(),
                    old(self).position(),
                    Seq::empty(),
                    Seq::empty(),
                ) == Err::<(ProgramView, int), ParseErrorView>(error@) && final(self).position()
                    == old(self).position(),
            },
    {
        let count: usize = self.tokens.len();
        let (program, end) = self.parse_module(self.position)?;
        self.position = end;
        Ok(program)
    }

    fn parse_module(&self, first: usize) -> (r: Result<(Program, usize), ParseError>)
        requires
            self.ready(first as int),
        ensures
            match r {
                Ok((program, end)) => grammar::module(
                    self.tokens(),
                    first as int,
                    Seq::empty(),
                    Seq::empty(),
                ) == Ok::<(ProgramView, int), ParseErrorView>((program@, end as int)) && self.ready(
                    end as int,
                ),
                Err(error) => grammar::module(
                    self.tokens(),
                    first as int,
                    Seq::empty(),
                    Seq::empty(),
                ) == Err::<(ProgramView, int), ParseErrorView>(error@),
            },
    {
        let ghost ts = self.tokens();
        let mut imports: Vec<ImportDecl> = Vec::new();
        let mut declarations: Vec<Decl> = Vec::new();
        let mut p: usize = first;
        assert(imports_view(imports@) =~= Seq::empty());
        assert(decls_view(declarations@) =~= Seq::empty());
        while !self.at(p, TokenKind::Eof)
            invariant
                ts == self.tokens(),
                self.ready(p as int),
                grammar::module(ts, first as int, Seq::empty(), Seq::empty()) == grammar::module(
                    ts,
                    p as int,
                    imports_view(imports@),
                    decls_view(declarations@),
                ),
            decreases ts.len() - p,
        {
            if self.at(p, TokenKind::Import) {
                let (found, q) = self.parse_import(p)?;
                imports.push(found);
                p = q;
            } else if self.at(p, TokenKind::Hash) {
                let start: usize = self.tokens[p].span.start;
                let (expression, q) = self.parse_expression(p)?;
                let (semicolon, r) = self.expect(q, TokenKind::Semicolon)?;
                declarations.push(
                    Decl::Comptime { expression, span: Span::new(start, semicolon.end) },
                );
                p = r;
            } else {
                let (found, q) = self.parse_declaration(p)?;
                declarations.push(found);
                p = q;
            }
        }
        Ok((Program { imports, declarations }, p))
    }

    fn parse_import(&self, p: usize) -> (r: Result<(ImportDecl, usize), ParseError>)
        requires
            self.ready(p as int),
            grammar::at(self.tokens(), p as int, TokenKind::Import),
        ensures
            match r {
                Ok((x, q)) => {
                    &&& grammar::import(self.tokens(), p as int)
                        == Ok::<(ImportDeclView, int), ParseErrorView>((x@, q as int))
                    &&& p < q < self.tokens().len()
                    &&& self.ready(q as int)
                },
                Err(error) => grammar::import(self.tokens(), p as int)
                    == Err::<(ImportDeclView, int), ParseErrorView>(error@),
            },
    {
        let q: usize = p + 1;
        if self.at(q, TokenKind::String) || self.at(q, TokenKind::Identifier) {
            let path: String = trim_char(&self.tokens[q].lexeme, '"');
            let alias: String = alias_of_path(&path);
            let (semicolon, r) = self.expect(q + 1, TokenKind::Semicolon)?;
            Ok(
                (
                    ImportDecl {
                        path,
                        alias,
                        span: Span::new(self.tokens[p].span.start, semicolon.end),
                    },
                    r,
                ),
            )
        } else {
            Err(
                ParseError::UnexpectedToken {
                    expected: "module name or string path".to_owned(),
                    found: self.tokens[q].kind,
                    span: self.tokens[q].span,
                },
            )
        }
    }

    #[verifier::rlimit(60)]
    fn parse_declaration(&self, p: usize) -> (r: Result<(Decl, usize), ParseError>)
        requires
            self.ready(p as int),
        ensures
            match r {
                Ok((x, q)) => {
                    &&& grammar::declaration(self.tokens(), p as int)
                        == Ok::<(DeclView, int), ParseErrorView>((x@, q as int))
                    &&& p < q < self.tokens().len()
                    &&& self.ready(q as int)
                },
                Err(error) => grammar::declaration(self.tokens(), p as int)
                    == Err::<(DeclView, int), ParseErrorView>(error@),
            },
    {
        reveal(grammar::declaration);
        let ghost ts = self.tokens();
        let mut foreign: bool = false;
        let mut exported: bool = false;
        let mut q: usize = p;
        while self.at(q, TokenKind::Extern) || self.at(q, TokenKind::Export)
            invariant
                ts == self.tokens(),
                self.ready(q as int),
                p <= q,
                grammar::marks(ts, p as int, false, false) == grammar::marks(
                    ts,
                    q as int,
                    foreign,
                    exported,
                ),
            decreases ts.len() - q,
        {
            if self.at(q, TokenKind::Extern) {
                foreign = true;
            } else {
                exported = true;
            }
            q += 1;
        }
        let has_abi: bool = (foreign || exported) && self.at(q, TokenKind::String);
        let abi: Option<String> = if has_abi {
            let text: String = trim_char(&self.tokens[q].lexeme, '"');
            q += 1;
            Some(text)
        } else {
            None
        };
        let has_keyword: bool = self.at(q, TokenKind::Fn);
        if has_keyword {
            q += 1;
        }
        let (token, v) = self.expect_identifier(q)?;
        let name: String = token.lexeme.clone();
        let start: usize = if has_keyword || foreign || exported {
            self.tokens[p].span.start
        } else {
            token.span.start
        };
        if has_keyword || foreign {
            let head: Head = Head { name, start, foreign, abi, exported };
            let (function, w) = self.parse_function_after_name(v, head)?;
            return Ok((Decl::Function(function), w));
        }
        let double: bool = self.at(v, TokenKind::DoubleColon);
        let call: bool = double && self.at(v + 1, TokenKind::LParen);
        if has_abi && !call {
            return Err(
                ParseError::Unsupported {
                    message: "an ABI string is only valid on exported functions".to_owned(),
                    span: self.tokens[p].span,
                },
            );
        }
        if double {
            if call {
                let head: Head = Head { name, start, foreign: false, abi, exported };
                let (function, w) = self.parse_function_after_name(v + 1, head)?;
                Ok((Decl::Function(function), w))
            } else if self.at(v + 1, TokenKind::Struct) {
                let (structure, w) = self.parse_struct_after_name(v + 1, name, start, exported)?;
                Ok((Decl::Struct(structure), w))
            } else {
                let (variable, w) = self.parse_variable_after_operator(
                    v + 1,
                    name,
                    start,
                    VariableKind::Immutable,
                    exported,
                )?;
                Ok((Decl::Variable(variable), w))
            }
        } else if exported {
            let (_, w) = self.expect(v, TokenKind::DoubleColon)?;
            Err(ParseError::InvalidDeclaration { span: token.span })
        } else {
            let (_, w) = self.expect(v, TokenKind::Colon)?;
            let (variable, x) = self.parse_variable_after_operator(
                w,
                name,
                start,
                VariableKind::MutableTyped,
                false,
            )?;
            Ok((Decl::Variable(variable), x))
        }
    }

    fn parse_variable_after_operator(
        &self,
        p: usize,
        name: String,
        start: usize,
        kind: VariableKind,
        exported: bool,
    ) -> (r: Result<(VariableDecl, usize), ParseError>)
        requires
            self.ready(p as int),
        ensures
            match r {
                Ok((x, q)) => {
                    &&& grammar::global_rest(self.tokens(), p as int, name@, start, kind, exported)
                        == Ok::<(VariableDeclView, int), ParseErrorView>((x@, q as int))
                    &&& p < q < self.tokens().len()
                    &&& self.ready(q as int)
                },
                Err(error) =>
                    grammar::global_rest(self.tokens(), p as int, name@, start, kind, exported)
                        == Err::<(VariableDeclView, int), ParseErrorView>(error@),
            },
    {
        let typed: bool = self.looks_like_typed_declaration(p);
        let (ty, q) = self.parse_optional_type(p, typed)?;
        let r: usize = if typed {
            self.expect(q, TokenKind::Equal)?.1
        } else {
            q
        };
        let (value, u) = self.parse_expression(r)?;
        let span: Span = Span::new(start, value.span().end);
        let (_, v) = self.expect(u, TokenKind::Semicolon)?;
        Ok((VariableDecl { name, kind, ty, value, span, exported }, v))
    }

    fn parse_function_after_name(&self, p: usize, head: Head) -> (r: Result<
        (FunctionDecl, usize),
        ParseError,
    >)
        requires
            self.ready(p as int),
        ensures
            match r {
                Ok((x, q)) => {
                    &&& grammar::function_rest(self.tokens(), p as int, head@)
                        == Ok::<(FunctionDeclView, int), ParseErrorView>((x@, q as int))
                    &&& p < q < self.tokens().len()
                    &&& self.ready(q as int)
                },
                Err(error) => grammar::function_rest(self.tokens(), p as int, head@)
                    == Err::<(FunctionDeclView, int), ParseErrorView>(error@),
            },
    {
        let (all, q) = self.parse_parameter_list(p)?;
        let (generic_params, params) = split_parameters(all);
        let (return_type, r) = if self.at(q, TokenKind::Arrow) {
            self.parse_type(q + 1)?
        } else {
            (Type::Unit, q)
        };
        let (body, v) = if head.foreign {
            let (semicolon, u) = self.expect(r, TokenKind::Semicolon)?;
            let statements: Vec<Stmt> = Vec::new();
            assert(stmts_view(statements@) =~= Seq::empty());
            (Block { statements, span: Span::new(head.start, semicolon.end) }, u)
        } else {
            self.parse_block(r)?
        };
        let span: Span = Span::new(head.start, body.span.end);
        let link_name: Option<String> = if head.foreign || head.exported {
            Some(head.name.clone())
        } else {
            None
        };
        Ok(
            (
                FunctionDecl {
                    name: head.name,
                    generic_params,
                    params,
                    return_type,
                    body,
                    span,
                    is_extern: head.foreign,
                    abi: head.abi,
                    link_name,
                    exported: head.exported,
                },
                v,
            ),
        )
    }

    fn parse_parameter_list(&self, p: usize) -> (r: Result<(Vec<Parameter>, usize), ParseError>)
        requires
            self.ready(p as int),
        ensures
            match r {
                Ok((x, q)) => {
                    &&& grammar::parameter_list(self.tokens(), p as int)
                        == Ok::<(Seq<ParameterView>, int),
                            ParseErrorView>((parameters_view(x@), q as int))
                    &&& p < q < self.tokens().len()
                    &&& self.ready(q as int)
                },
                Err(error) => grammar::parameter_list(self.tokens(), p as int)
                    == Err::<(Seq<ParameterView>, int), ParseErrorView>(error@),
            },
    {
        let (_, q) = self.expect(p, TokenKind::LParen)?;
        if self.at(q, TokenKind::RParen) {
            let none: Vec<Parameter> = Vec::new();
            assert(parameters_view(none@) =~= Seq::empty());
            return Ok((none, q + 1));
        }
        let (found, r) = self.parse_parameters(q)?;
        let (_, u) = self.expect(r, TokenKind::RParen)?;
        Ok((found, u))
    }

    fn parse_parameters(&self, p: usize) -> (r: Result<(Vec<Parameter>, usize), ParseError>)
        requires
            self.ready(p as int),
        ensures
            match r {
                Ok((x, q)) => {
                    &&& grammar::parameters(self.tokens(), p as int, Seq::empty())
                        == Ok::<(Seq<ParameterView>, int),
                            ParseErrorView>((parameters_view(x@), q as int))
                    &&& p < q < self.tokens().len()
                    &&& self.ready(q as int)
                },
                Err(error) => grammar::parameters(self.tokens(), p as int, Seq::empty())
                    == Err::<(Seq<ParameterView>, int), ParseErrorView>(error@),
            },
    {
        let ghost ts = self.tokens();
        let mut found: Vec<Parameter> = Vec::new();
        assert(parameters_view(found@) =~= Seq::empty());
        let mut q: usize = p;
        loop
            invariant
                ts == self.tokens(),
                self.ready(q as int),
                p <= q,
                grammar::parameters(ts, p as int, Seq::empty()) == grammar::parameters(
                    ts,
                    q as int,
                    parameters_view(found@),
                ),
            decreases ts.len() - q,
        {
            if self.at(q, TokenKind::Ellipsis) {
                return Err(
                    ParseError::Unsupported {
                        message: "variadic foreign functions are not implemented".to_owned(),
                        span: self.tokens[q].span,
                    },
                );
            }
            let (parameter, r) = self.parse_parameter(q)?;
            found.push(parameter);
            if !self.at(r, TokenKind::Comma) {
                return Ok((found, r));
            }
            q = r + 1;
            if self.at(q, TokenKind::RParen) {
                return Ok((found, q));
            }
        }
    }

    fn parse_parameter(&self, p: usize) -> (r: Result<(Parameter, usize), ParseError>)
        requires
            self.ready(p as int),
        ensures
            match r {
                Ok((x, q)) => {
                    &&& grammar::parameter(self.tokens(), p as int)
                        == Ok::<(ParameterView, int), ParseErrorView>((x@, q as int))
                    &&& p < q < self.tokens().len()
                    &&& self.ready(q as int)
                },
                Err(error) => grammar::parameter(self.tokens(), p as int)
                    == Err::<(ParameterView, int), ParseErrorView>(error@),
            },
    {
        let (name, q) = self.expect_identifier(p)?;
        let (_, r) = self.expect(q, TokenKind::Colon)?;
        let (ty, u) = self.parse_type(r)?;
        let span: Span = Span::new(name.span.start, self.tokens[u - 1].span.end);
        Ok((Parameter { name: name.lexeme, ty, span }, u))
    }

    fn parse_type(&self, p: usize) -> (r: Result<(Type, usize), ParseError>)
        requires
            self.ready(p as int),
        ensures
            match r {
                Ok((x, q)) => {
                    &&& grammar::type_at(self.tokens(), p as int)
                        == Ok::<(TypeView, int), ParseErrorView>((x@, q as int))
                    &&& p < q < self.tokens().len()
                    &&& self.ready(q as int)
                },
                Err(error) => grammar::type_at(self.tokens(), p as int)
                    == Err::<(TypeView, int), ParseErrorView>(error@),
            },
        decreases self.tokens@.len() - p, 1int,
    {
        let (ty, q) = self.parse_type_atom(p)?;
        if self.at(q, TokenKind::Pipe) {
            let (error, r) = self.parse_type(q + 1)?;
            Ok((Type::Result { success: Box::new(ty), error: Box::new(error) }, r))
        } else {
            Ok((ty, q))
        }
    }

    fn parse_type_atom(&self, p: usize) -> (r: Result<(Type, usize), ParseError>)
        requires
            self.ready(p as int),
        ensures
            match r {
                Ok((x, q)) => {
                    &&& grammar::type_atom(self.tokens(), p as int)
                        == Ok::<(TypeView, int), ParseErrorView>((x@, q as int))
                    &&& p < q < self.tokens().len()
                    &&& self.ready(q as int)
                },
                Err(error) => grammar::type_atom(self.tokens(), p as int)
                    == Err::<(TypeView, int), ParseErrorView>(error@),
            },
        decreases self.tokens@.len() - p, 0int,
    {
        if self.at(p, TokenKind::Star) {
            let (ty, q) = self.parse_type_atom(p + 1)?;
            return Ok((Type::Pointer(Box::new(ty)), q));
        }
        if self.at(p, TokenKind::LBracket) {
            if self.at(p + 1, TokenKind::RBracket) {
                let (ty, q) = self.parse_type_atom(p + 2)?;
                return Ok((Type::Slice(Box::new(ty)), q));
            }
            let (_, q) = self.expect(p + 1, TokenKind::Integer)?;
            let length: u64 = length_of(&self.tokens[p + 1])?;
            let (_, r) = self.expect(q, TokenKind::RBracket)?;
            let (ty, u) = self.parse_type_atom(r)?;
            return Ok((Type::Array { length, element: Box::new(ty) }, u));
        }
        let (name, q) = self.parse_qualified_name(p)?;
        if !self.at(q, TokenKind::LParen) {
            return Ok((Type::Named(name), q));
        }
        let ghost ts = self.tokens();
        let ghost base = name@;
        let mut full: String = name;
        let mut r: usize = q + 1;
        loop
            invariant
                ts == self.tokens(),
                self.ready(r as int),
                p < r,
                r < ts.len(),
                grammar::at(ts, q as int, TokenKind::LParen),
                p < q,
                !grammar::at(ts, p as int, TokenKind::Star),
                !grammar::at(ts, p as int, TokenKind::LBracket),
                grammar::qualified_name(ts, p as int) == Ok::<(Seq<char>, int), ParseErrorView>(
                    (base, q as int),
                ),
                grammar::type_arguments(ts, q + 1, base) == grammar::type_arguments(
                    ts,
                    r as int,
                    full@,
                ),
            decreases ts.len() - r,
        {
            let (ty, u) = self.parse_type(r)?;
            let part: String = spell_type(&ty);
            full = joined(joined(full, "__"), part.as_str());
            if self.at(u, TokenKind::Comma) {
                r = u + 1;
            } else {
                let (_, v) = self.expect(u, TokenKind::RParen)?;
                return Ok((Type::Named(full), v));
            }
        }
    }

    fn parse_qualified_name(&self, p: usize) -> (r: Result<(String, usize), ParseError>)
        requires
            self.ready(p as int),
        ensures
            match r {
                Ok((x, q)) => {
                    &&& grammar::qualified_name(self.tokens(), p as int)
                        == Ok::<(Seq<char>, int), ParseErrorView>((x@, q as int))
                    &&& p < q < self.tokens().len()
                    &&& self.ready(q as int)
                },
                Err(error) => grammar::qualified_name(self.tokens(), p as int)
                    == Err::<(Seq<char>, int), ParseErrorView>(error@),
            },
    {
        let (first, q) = self.expect_identifier(p)?;
        if self.at(q, TokenKind::Dot) {
            let (second, r) = self.expect_identifier(q + 1)?;
            Ok((joined(joined(first.lexeme, "."), second.lexeme.as_str()), r))
        } else {
            Ok((first.lexeme, q))
        }
    }

    fn parse_optional_type(&self, p: usize, present: bool) -> (r: Result<
        (Option<Type>, usize),
        ParseError,
    >)
        requires
            self.ready(p as int),
        ensures
            match r {
                Ok((x, q)) => {
                    &&& grammar::optional_type(self.tokens(), p as int, present) == Ok::<
                        (Option<TypeView>, int),
                        ParseErrorView,
                    >((option_type_view(x), q as int))
                    &&& p <= q < self.tokens().len()
                    &&& (x is Some) == present
                    &&& self.ready(q as int)
                },
                Err(error) => grammar::optional_type(self.tokens(), p as int, present) == Err::<
                    (Option<TypeView>, int),
                    ParseErrorView,
                >(error@),
            },
    {
        if present {
            let (ty, q) = self.parse_type(p)?;
            Ok((Some(ty), q))
        } else {
            Ok((None, p))
        }
    }

    fn parse_struct_after_name(
        &self,
        p: usize,
        name: String,
        start: usize,
        exported: bool,
    ) -> (r: Result<(StructDecl, usize), ParseError>)
        requires
            self.ready(p as int),
            grammar::at(self.tokens(), p as int, TokenKind::Struct),
        ensures
            match r {
                Ok((x, q)) => {
                    &&& grammar::struct_rest(self.tokens(), p as int, name@, start, exported)
                        == Ok::<(StructDeclView, int), ParseErrorView>((x@, q as int))
                    &&& p < q < self.tokens().len()
                    &&& self.ready(q as int)
                },
                Err(error) => grammar::struct_rest(self.tokens(), p as int, name@, start, exported)
                    == Err::<(StructDeclView, int), ParseErrorView>(error@),
            },
    {
        let (generic_params, q) = self.parse_struct_parameters(p + 1)?;
        let (_, r) = self.expect(q, TokenKind::LBrace)?;
        let (fields, u) = self.parse_struct_fields(r)?;
        let (closing, v) = self.expect(u, TokenKind::RBrace)?;
        let w: usize = if self.at(v, TokenKind::Semicolon) {
            v + 1
        } else {
            v
        };
        Ok(
            (
                StructDecl {
                    name,
                    generic_params,
                    fields,
                    span: Span::new(start, closing.end),
                    exported,
                },
                w,
            ),
        )
    }

    fn parse_struct_parameters(&self, p: usize) -> (r: Result<
        (Vec<GenericParam>, usize),
        ParseError,
    >)
        requires
            self.ready(p as int),
        ensures
            match r {
                Ok((x, q)) => {
                    &&& grammar::struct_parameters(self.tokens(), p as int)
                        == Ok::<(Seq<GenericParamView>, int),
                            ParseErrorView>((generics_view(x@), q as int))
                    &&& p <= q < self.tokens().len()
                    &&& self.ready(q as int)
                },
                Err(error) => grammar::struct_parameters(self.tokens(), p as int)
                    == Err::<(Seq<GenericParamView>, int), ParseErrorView>(error@),
            },
    {
        if self.at(p, TokenKind::LParen) {
            let (all, q) = self.parse_parameter_list(p)?;
            let (generic_params, rest) = split_parameters(all);
            if rest.len() > 0 {
                assert(parameters_view(rest@)[0] == rest@[0]@);
                Err(
                    ParseError::Unsupported {
                        message: "struct parameters must be types".to_owned(),
                        span: rest[0].span,
                    },
                )
            } else {
                Ok((generic_params, q))
            }
        } else {
            let none: Vec<GenericParam> = Vec::new();
            assert(generics_view(none@) =~= Seq::empty());
            Ok((none, p))
        }
    }

    fn parse_struct_fields(&self, p: usize) -> (r: Result<(Vec<StructField>, usize), ParseError>)
        requires
            self.ready(p as int),
        ensures
            match r {
                Ok((x, q)) => {
                    &&& grammar::struct_fields(self.tokens(), p as int, Seq::empty())
                        == Ok::<(Seq<StructFieldView>, int),
                            ParseErrorView>((fields_view(x@), q as int))
                    &&& p <= q < self.tokens().len()
                    &&& self.ready(q as int)
                },
                Err(error) => grammar::struct_fields(self.tokens(), p as int, Seq::empty())
                    == Err::<(Seq<StructFieldView>, int), ParseErrorView>(error@),
            },
    {
        let ghost ts = self.tokens();
        let mut found: Vec<StructField> = Vec::new();
        assert(fields_view(found@) =~= Seq::empty());
        let mut q: usize = p;
        while !self.at(q, TokenKind::RBrace) && !self.at(q, TokenKind::Eof)
            invariant
                ts == self.tokens(),
                self.ready(q as int),
                p <= q,
                grammar::struct_fields(ts, p as int, Seq::empty()) == grammar::struct_fields(
                    ts,
                    q as int,
                    fields_view(found@),
                ),
            decreases ts.len() - q,
        {
            let (field, r) = self.parse_parameter(q)?;
            found.push(StructField { name: field.name, ty: field.ty, span: field.span });
            if self.at(r, TokenKind::Semicolon) {
                q = r + 1;
            } else {
                q = self.expect(r, TokenKind::Comma)?.1;
            }
        }
        Ok((found, q))
    }

    fn parse_block(&self, p: usize) -> (r: Result<(Block, usize), ParseError>)
        requires
            self.ready(p as int),
        ensures
            match r {
                Ok((x, q)) => {
                    &&& grammar::block(self.tokens(), p as int)
                        == Ok::<(BlockView, int), ParseErrorView>((x@, q as int))
                    &&& p < q < self.tokens().len()
                    &&& self.ready(q as int)
                },
                Err(error) => grammar::block(self.tokens(), p as int)
                    == Err::<(BlockView, int), ParseErrorView>(error@),
            },
        decreases self.tokens@.len() - p, 8int,
    {
        let ghost ts = self.tokens();
        let (opening, first) = self.expect(p, TokenKind::LBrace)?;
        let mut found: Vec<Stmt> = Vec::new();
        assert(stmts_view(found@) =~= Seq::empty());
        let mut q: usize = first;
        while !self.at(q, TokenKind::RBrace) && !self.at(q, TokenKind::Eof)
            invariant
                ts == self.tokens(),
                self.ready(q as int),
                p < first <= q,
                q < ts.len(),
                grammar::at(ts, p as int, TokenKind::LBrace),
                first == p + 1,
                grammar::statements(ts, first as int, Seq::empty()) == grammar::statements(
                    ts,
                    q as int,
                    stmts_view(found@),
                ),
            decreases ts.len() - q,
        {
            let (statement, r) = self.parse_statement(q)?;
            found.push(statement);
            q = r;
        }
        let (closing, r) = self.expect(q, TokenKind::RBrace)?;
        Ok((Block { statements: found, span: Span::new(opening.start, closing.end) }, r))
    }

    fn parse_statement(&self, p: usize) -> (r: Result<(Stmt, usize), ParseError>)
        requires
            self.ready(p as int),
        ensures
            match r {
                Ok((x, q)) => {
                    &&& grammar::statement(self.tokens(), p as int)
                        == Ok::<(StmtView, int), ParseErrorView>((x@, q as int))
                    &&& p < q < self.tokens().len()
                    &&& self.ready(q as int)
                },
                Err(error) => grammar::statement(self.tokens(), p as int)
                    == Err::<(StmtView, int), ParseErrorView>(error@),
            },
        decreases self.tokens@.len() - p, 9int,
    {
        if self.at(p, TokenKind::Return) {
            return self.parse_return_statement(p);
        }
        if self.at(p, TokenKind::If) {
            return self.parse_if_statement(p);
        }
        if self.at(p, TokenKind::While) {
            return self.parse_while_statement(p);
        }
        let is_break: bool = self.at(p, TokenKind::Break);
        if is_break || self.at(p, TokenKind::Continue) {
            return self.parse_loop_control_statement(p, is_break);
        }
        if self.at(p, TokenKind::Defer) {
            let start: usize = self.tokens[p].span.start;
            let (call, q) = self.parse_expression(p + 1)?;
            let is_call: bool = match &call {
                Expr::Call { .. } => true,
                _ => false,
            };
            if !is_call {
                return Err(
                    ParseError::UnexpectedToken {
                        expected: "deferred function call".to_owned(),
                        found: self.tokens[q].kind,
                        span: call.span(),
                    },
                );
            }
            let (semicolon, r) = self.expect(q, TokenKind::Semicolon)?;
            return Ok((Stmt::Defer { call, span: Span::new(start, semicolon.end) }, r));
        }
        if self.starts_variable(p) {
            return self.parse_variable_statement(p);
        }
        let (expression, q) = self.parse_expression(p)?;
        if self.at(q, TokenKind::Equal) {
            let (value, r) = self.parse_expression(q + 1)?;
            if !is_assignable(&expression) {
                return Err(ParseError::InvalidAssignmentTarget { span: expression.span() });
            }
            let span: Span = Span::new(expression.span().start, value.span().end);
            let (_, u) = self.expect(r, TokenKind::Semicolon)?;
            return Ok((Stmt::Assignment { target: expression, value, span }, u));
        }
        let span: Span = expression.span();
        let (_, r) = self.expect(q, TokenKind::Semicolon)?;
        Ok((Stmt::Expr { expression, span }, r))
    }

    fn starts_variable(&self, p: usize) -> (r: bool)
        requires
            self.ready(p as int),
        ensures
            r == grammar::starts_variable(self.tokens(), p as int),
    {
        if self.at(p, TokenKind::Let) || self.at(p, TokenKind::Var) {
            return true;
        }
        self.at(p, TokenKind::Identifier) && (self.at(p + 1, TokenKind::ColonEqual) || self.at(
            p + 1,
            TokenKind::Colon,
        ) || self.at(p + 1, TokenKind::DoubleColon))
    }

    fn parse_if_statement(&self, p: usize) -> (r: Result<(Stmt, usize), ParseError>)
        requires
            self.ready(p as int),
            grammar::at(self.tokens(), p as int, TokenKind::If),
        ensures
            match r {
                Ok((x, q)) => {
                    &&& grammar::if_statement(self.tokens(), p as int)
                        == Ok::<(StmtView, int), ParseErrorView>((x@, q as int))
                    &&& p < q < self.tokens().len()
                    &&& self.ready(q as int)
                },
                Err(error) => grammar::if_statement(self.tokens(), p as int)
                    == Err::<(StmtView, int), ParseErrorView>(error@),
            },
        decreases self.tokens@.len() - p, 8int,
    {
        let start: usize = self.tokens[p].span.start;
        let (condition, q) = self.parse_expression(p + 1)?;
        let (then_branch, r) = self.parse_block(q)?;
        if self.at(r, TokenKind::Else) {
            let (branch, u) = self.parse_block(r + 1)?;
            let span: Span = Span::new(start, branch.span.end);
            Ok((Stmt::If { condition, then_branch, else_branch: Some(branch), span }, u))
        } else {
            let span: Span = Span::new(start, then_branch.span.end);
            Ok((Stmt::If { condition, then_branch, else_branch: None, span }, r))
        }
    }

    fn parse_while_statement(&self, p: usize) -> (r: Result<(Stmt, usize), ParseError>)
        requires
            self.ready(p as int),
            grammar::at(self.tokens(), p as int, TokenKind::While),
        ensures
            match r {
                Ok((x, q)) => {
                    &&& grammar::while_statement(self.tokens(), p as int)
                        == Ok::<(StmtView, int), ParseErrorView>((x@, q as int))
                    &&& p < q < self.tokens().len()
                    &&& self.ready(q as int)
                },
                Err(error) => grammar::while_statement(self.tokens(), p as int)
                    == Err::<(StmtView, int), ParseErrorView>(error@),
            },
        decreases self.tokens@.len() - p, 8int,
    {
        let start: usize = self.tokens[p].span.start;
        let (condition, q) = self.parse_expression(p + 1)?;
        let (body, r) = self.parse_block(q)?;
        let span: Span = Span::new(start, body.span.end);
        Ok((Stmt::While { condition, body, span }, r))
    }

    fn parse_loop_control_statement(&self, p: usize, is_break: bool) -> (r: Result<
        (Stmt, usize),
        ParseError,
    >)
        requires
            self.ready(p as int),
            is_break == grammar::at(self.tokens(), p as int, TokenKind::Break),
            is_break || grammar::at(self.tokens(), p as int, TokenKind::Continue),
        ensures
            match r {
                Ok((x, q)) => {
                    &&& grammar::statement(self.tokens(), p as int)
                        == Ok::<(StmtView, int), ParseErrorView>((x@, q as int))
                    &&& p < q < self.tokens().len()
                    &&& self.ready(q as int)
                },
                Err(error) => grammar::statement(self.tokens(), p as int)
                    == Err::<(StmtView, int), ParseErrorView>(error@),
            },
    {
        let (semicolon, q) = self.expect(p + 1, TokenKind::Semicolon)?;
        let span: Span = Span::new(self.tokens[p].span.start, semicolon.end);
        if is_break {
            Ok((Stmt::Break { span }, q))
        } else {
            Ok((Stmt::Continue { span }, q))
        }
    }

    fn parse_return_statement(&self, p: usize) -> (r: Result<(Stmt, usize), ParseError>)
        requires
            self.ready(p as int),
            grammar::at(self.tokens(), p as int, TokenKind::Return),
        ensures
            match r {
                Ok((x, q)) => {
                    &&& grammar::return_statement(self.tokens(), p as int)
                        == Ok::<(StmtView, int), ParseErrorView>((x@, q as int))
                    &&& p < q < self.tokens().len()
                    &&& self.ready(q as int)
                },
                Err(error) => grammar::return_statement(self.tokens(), p as int)
                    == Err::<(StmtView, int), ParseErrorView>(error@),
            },
        decreases self.tokens@.len() - p, 8int,
    {
        let start: usize = self.tokens[p].span.start;
        if self.at(p + 1, TokenKind::Semicolon) {
            let span: Span = Span::new(start, self.tokens[p + 1].span.end);
            return Ok((Stmt::Return { value: None, span }, p + 2));
        }
        let (value, q) = self.parse_expression(p + 1)?;
        let span: Span = Span::new(start, value.span().end);
        let (_, r) = self.expect(q, TokenKind::Semicolon)?;
        Ok((Stmt::Return { value: Some(value), span }, r))
    }

    fn parse_variable_statement(&self, p: usize) -> (r: Result<(Stmt, usize), ParseError>)
        requires
            self.ready(p as int),
            grammar::starts_variable(self.tokens(), p as int),
        ensures
            match r {
                Ok((x, q)) => {
                    &&& grammar::variable_statement(self.tokens(), p as int)
                        == Ok::<(StmtView, int), ParseErrorView>((x@, q as int))
                    &&& p < q < self.tokens().len()
                    &&& self.ready(q as int)
                },
                Err(error) => grammar::variable_statement(self.tokens(), p as int)
                    == Err::<(StmtView, int), ParseErrorView>(error@),
            },
        decreases self.tokens@.len() - p, 8int,
    {
        let is_let: bool = self.at(p, TokenKind::Let);
        let (name, kind, ty, needs_equal, q): (
            Token,
            VariableKind,
            Option<Type>,
            bool,
            usize,
        ) = if is_let || self.at(p, TokenKind::Var) {
            let (name, after) = self.expect_identifier(p + 1)?;
            let typed: bool = self.at(after, TokenKind::Colon);
            let from: usize = if typed {
                after + 1
            } else {
                after
            };
            let (ty, q) = self.parse_optional_type(from, typed)?;
            let kind: VariableKind = if is_let {
                VariableKind::Immutable
            } else if typed {
                VariableKind::MutableTyped
            } else {
                VariableKind::MutableInferred
            };
            (name, kind, ty, true, q)
        } else {
            let name: Token = self.tokens[p].clone();
            if self.at(p + 1, TokenKind::ColonEqual) {
                (name, VariableKind::MutableInferred, None, false, p + 2)
            } else if self.at(p + 1, TokenKind::Colon) {
                let (ty, q) = self.parse_optional_type(p + 2, true)?;
                (name, VariableKind::MutableTyped, ty, true, q)
            } else {
                let typed: bool = self.looks_like_typed_declaration(p + 2);
                let (ty, q) = self.parse_optional_type(p + 2, typed)?;
                (name, VariableKind::Immutable, ty, typed, q)
            }
        };
        let r: usize = if needs_equal {
            self.expect(q, TokenKind::Equal)?.1
        } else {
            q
        };
        let (value, u) = self.parse_expression(r)?;
        let span: Span = Span::new(name.span.start, value.span().end);
        let (_, v) = self.expect(u, TokenKind::Semicolon)?;
        Ok(
            (
                Stmt::Variable(
                    VariableDecl { name: name.lexeme, kind, ty, value, span, exported: false },
                ),
                v,
            ),
        )
    }

    fn parse_expression(&self, p: usize) -> (r: Result<(Expr, usize), ParseError>)
        requires
            self.ready(p as int),
        ensures
            match r {
                Ok((x, q)) => {
                    &&& grammar::expression(self.tokens(), p as int)
                        == Ok::<(ExprView, int), ParseErrorView>((x@, q as int))
                    &&& p < q < self.tokens().len()
                    &&& self.ready(q as int)
                },
                Err(error) => grammar::expression(self.tokens(), p as int)
                    == Err::<(ExprView, int), ParseErrorView>(error@),
            },
        decreases self.tokens@.len() - p, 6int,
    {
        self.parse_binary_expression(p, 0)
    }

    fn parse_binary_expression(&self, p: usize, minimum_precedence: u8) -> (r: Result<
        (Expr, usize),
        ParseError,
    >)
        requires
            self.ready(p as int),
            minimum_precedence <= 11,
        ensures
            match r {
                Ok((x, q)) => {
                    &&& grammar::binary(self.tokens(), p as int, minimum_precedence as int)
                        == Ok::<(ExprView, int), ParseErrorView>((x@, q as int))
                    &&& p < q < self.tokens().len()
                    &&& self.ready(q as int)
                },
                Err(error) => grammar::binary(self.tokens(), p as int, minimum_precedence as int)
                    == Err::<(ExprView, int), ParseErrorView>(error@),
            },
        decreases self.tokens@.len() - p, 5int,
    {
        let ghost ts = self.tokens();
        let (mut left, mut q) = self.parse_unary_expression(p)?;
        let ghost first = left@;
        let ghost start = q as int;
        loop
            invariant
                ts == self.tokens(),
                self.ready(q as int),
                p < start <= q,
                q < ts.len(),
                grammar::unary(ts, p as int) == Ok::<(ExprView, int), ParseErrorView>(
                    (first, start),
                ),
                grammar::binary_rest(ts, start, first, minimum_precedence as int)
                    == grammar::binary_rest(ts, q as int, left@, minimum_precedence as int),
            decreases ts.len() - q,
        {
            assert(grammar::at(ts, q as int, ts[q as int].kind));
            let operator: BinaryOp = match binary_operator(self.tokens[q].kind) {
                Some(operator) => operator,
                None => {
                    return Ok((left, q));
                },
            };
            let precedence: u8 = operator.precedence();
            if precedence < minimum_precedence {
                return Ok((left, q));
            }
            let (right, r) = self.parse_binary_expression(q + 1, precedence + 1)?;
            let span: Span = Span::new(left.span().start, right.span().end);
            left = Expr::Binary { left: Box::new(left), operator, right: Box::new(right), span };
            q = r;
        }
    }

    fn parse_unary_expression(&self, p: usize) -> (r: Result<(Expr, usize), ParseError>)
        requires
            self.ready(p as int),
        ensures
            match r {
                Ok((x, q)) => {
                    &&& grammar::unary(self.tokens(), p as int)
                        == Ok::<(ExprView, int), ParseErrorView>((x@, q as int))
                    &&& p < q < self.tokens().len()
                    &&& self.ready(q as int)
                },
                Err(error) => grammar::unary(self.tokens(), p as int)
                    == Err::<(ExprView, int), ParseErrorView>(error@),
            },
        decreases self.tokens@.len() - p, 3int,
    {
        assert(grammar::at(self.tokens(), p as int, self.tokens()[p as int].kind));
        match unary_operator(self.tokens[p].kind) {
            Some(operator) => {
                let (operand, q) = self.parse_unary_expression(p + 1)?;
                let span: Span = Span::new(self.tokens[p].span.start, operand.span().end);
                Ok((Expr::Unary { operator, operand: Box::new(operand), span }, q))
            },
            None => self.parse_postfix_expression(p),
        }
    }

    fn parse_postfix_expression(&self, p: usize) -> (r: Result<(Expr, usize), ParseError>)
        requires
            self.ready(p as int),
        ensures
            match r {
                Ok((x, q)) => {
                    &&& grammar::postfix(self.tokens(), p as int)
                        == Ok::<(ExprView, int), ParseErrorView>((x@, q as int))
                    &&& p < q < self.tokens().len()
                    &&& self.ready(q as int)
                },
                Err(error) => grammar::postfix(self.tokens(), p as int)
                    == Err::<(ExprView, int), ParseErrorView>(error@),
            },
        decreases self.tokens@.len() - p, 2int,
    {
        let ghost ts = self.tokens();
        let (mut expression, mut q) = self.parse_primary_expression(p)?;
        let ghost first = expression@;
        let ghost begin = q as int;
        loop
            invariant
                ts == self.tokens(),
                self.ready(q as int),
                p < begin <= q,
                q < ts.len(),
                grammar::primary(ts, p as int) == Ok::<(ExprView, int), ParseErrorView>(
                    (first, begin),
                ),
                grammar::postfix_rest(ts, begin, first) == grammar::postfix_rest(
                    ts,
                    q as int,
                    expression@,
                ),
            decreases ts.len() - q,
        {
            let start: usize = expression.span().start;
            if self.at(q, TokenKind::Dot) {
                let (field, r) = self.expect_identifier(q + 1)?;
                let span: Span = Span::new(start, field.span.end);
                expression = Expr::Field { base: Box::new(expression), name: field.lexeme, span };
                q = r;
            } else if self.at(q, TokenKind::LBracket) {
                let (index, r) = self.parse_expression(q + 1)?;
                let (closing, u) = self.expect(r, TokenKind::RBracket)?;
                let span: Span = Span::new(start, closing.end);
                expression = Expr::Index {
                    base: Box::new(expression),
                    index: Box::new(index),
                    span,
                };
                q = u;
            } else if self.at(q, TokenKind::Question) {
                let span: Span = Span::new(start, self.tokens[q].span.end);
                expression = Expr::Propagate { expression: Box::new(expression), span };
                q = q + 1;
            } else if self.at(q, TokenKind::LParen) {
                let (call, r) = self.parse_call(q, expression)?;
                expression = call;
                q = r;
            } else {
                return Ok((expression, q));
            }
        }
    }

    /// A call of `base`: the parenthesis stands at `q`.
    fn parse_call(&self, q: usize, base: Expr) -> (r: Result<(Expr, usize), ParseError>)
        requires
            self.ready(q as int),
            grammar::at(self.tokens(), q as int, TokenKind::LParen),
        ensures
            match r {
                Ok((x, u)) => {
                    &&& grammar::call_at(self.tokens(), q as int, base@)
                        == Ok::<(ExprView, int), ParseErrorView>((x@, u as int))
                    &&& q < u < self.tokens().len()
                    &&& self.ready(u as int)
                },
                Err(error) => grammar::call_at(self.tokens(), q as int, base@)
                    == Err::<(ExprView, int), ParseErrorView>(error@),
            },
        decreases self.tokens@.len() - q, 1int,
    {
        let start: usize = base.span().start;
        let sizes: bool = is_name(&base, "size_of");
        if sizes || is_name(&base, "align_of") {
            let (ty, r) = self.parse_type(q + 1)?;
            let (closing, u) = self.expect(r, TokenKind::RParen)?;
            let span: Span = Span::new(start, closing.end);
            return if sizes {
                Ok((Expr::SizeOf { ty, span }, u))
            } else {
                Ok((Expr::AlignOf { ty, span }, u))
            };
        }
        if is_name(&base, "offset_of") {
            let (ty, r) = self.parse_type(q + 1)?;
            let (_, u) = self.expect(r, TokenKind::Comma)?;
            let (field, v) = self.expect_identifier(u)?;
            let (closing, w) = self.expect(v, TokenKind::RParen)?;
            let span: Span = Span::new(start, closing.end);
            return Ok((Expr::OffsetOf { ty, field: field.lexeme, span }, w));
        }
        let (mut arguments, r) = self.parse_arguments(q)?;
        let (closing, u) = self.expect(r, TokenKind::RParen)?;
        let span: Span = Span::new(start, closing.end);
        if is_name(&base, "unchecked_index") {
            if arguments.len() != 2 {
                return Err(
                    ParseError::UnexpectedToken {
                        expected: "two arguments".to_owned(),
                        found: TokenKind::RParen,
                        span: closing,
                    },
                );
            }
            let ghost found = arguments@;
            let first: Expr = arguments.remove(0);
            let second: Expr = arguments.remove(0);
            assert(exprs_view(found)[0] == first@);
            assert(exprs_view(found)[1] == second@);
            return Ok(
                (
                    Expr::UncheckedIndex { base: Box::new(first), index: Box::new(second), span },
                    u,
                ),
            );
        }
        Ok((Expr::Call { callee: Box::new(base), arguments, span }, u))
    }

    /// The arguments after the parenthesis at `q`, up to the closing one.
    fn parse_arguments(&self, q: usize) -> (r: Result<(Vec<Expr>, usize), ParseError>)
        requires
            self.ready(q as int),
            grammar::at(self.tokens(), q as int, TokenKind::LParen),
        ensures
            match r {
                Ok((x, u)) => {
                    &&& (if grammar::at(self.tokens(), q
                        + 1, TokenKind::RParen) { Ok((Seq::<ExprView>::empty(), q
                            + 1)) } else { grammar::arguments(self.tokens(), q
                                + 1, Seq::empty()) })
                                    == Ok::<(Seq<ExprView>, int),
                                        ParseErrorView>((exprs_view(x@), u as int))
                    &&& q < u < self.tokens().len()
                    &&& self.ready(u as int)
                },
                Err(error) =>
                    (if grammar::at(self.tokens(), q
                        + 1, TokenKind::RParen) { Ok((Seq::<ExprView>::empty(), q
                            + 1)) } else { grammar::arguments(self.tokens(), q
                                + 1, Seq::empty()) })
                                    == Err::<(Seq<ExprView>, int), ParseErrorView>(error@),
            },
        decreases self.tokens@.len() - q, 0int,
    {
        let ghost ts = self.tokens();
        let mut found: Vec<Expr> = Vec::new();
        assert(exprs_view(found@) =~= Seq::empty());
        let mut p: usize = q + 1;
        if self.at(p, TokenKind::RParen) {
            return Ok((found, p));
        }
        loop
            invariant
                ts == self.tokens(),
                self.ready(p as int),
                q < p < ts.len(),
                !grammar::at(ts, q + 1, TokenKind::RParen),
                grammar::arguments(ts, q + 1, Seq::empty()) == grammar::arguments(
                    ts,
                    p as int,
                    exprs_view(found@),
                ),
            decreases ts.len() - p,
        {
            let (argument, r) = self.parse_expression(p)?;
            found.push(argument);
            if !self.at(r, TokenKind::Comma) {
                return Ok((found, r));
            }
            p = r + 1;
            if self.at(p, TokenKind::RParen) {
                return Ok((found, p));
            }
        }
    }

    fn parse_primary_expression(&self, p: usize) -> (r: Result<(Expr, usize), ParseError>)
        requires
            self.ready(p as int),
        ensures
            match r {
                Ok((x, q)) => {
                    &&& grammar::primary(self.tokens(), p as int)
                        == Ok::<(ExprView, int), ParseErrorView>((x@, q as int))
                    &&& p < q < self.tokens().len()
                    &&& self.ready(q as int)
                },
                Err(error) => grammar::primary(self.tokens(), p as int)
                    == Err::<(ExprView, int), ParseErrorView>(error@),
            },
        decreases self.tokens@.len() - p, 1int,
    {
        let kind: TokenKind = self.tokens[p].kind;
        let span: Span = self.tokens[p].span;
        assert(grammar::at(self.tokens(), p as int, kind));
        match kind {
            TokenKind::Hash => {
                let (expression, q) = self.parse_unary_expression(p + 1)?;
                let whole: Span = Span::new(span.start, expression.span().end);
                Ok((Expr::Comptime { expression: Box::new(expression), span: whole }, q))
            },
            TokenKind::Integer => {
                let cleaned: String = remove_char(&self.tokens[p].lexeme, '_');
                match parse_signed(&cleaned) {
                    Some(value) => Ok((Expr::Integer { value, span }, p + 1)),
                    None => Err(
                        ParseError::InvalidInteger { lexeme: self.tokens[p].lexeme.clone(), span },
                    ),
                }
            },
            TokenKind::Float => {
                let cleaned: String = remove_char(&self.tokens[p].lexeme, '_');
                if float_text_is_valid(&cleaned) {
                    Ok((Expr::Float { value: cleaned, span }, p + 1))
                } else {
                    Err(ParseError::InvalidFloat { lexeme: self.tokens[p].lexeme.clone(), span })
                }
            },
            TokenKind::String => {
                let value: String = trim_char(&self.tokens[p].lexeme, '"');
                Ok((Expr::String { value, span }, p + 1))
            },
            TokenKind::True => Ok((Expr::Bool { value: true, span }, p + 1)),
            TokenKind::False => Ok((Expr::Bool { value: false, span }, p + 1)),
            TokenKind::Null => Ok((Expr::Null { span }, p + 1)),
            TokenKind::Identifier => self.parse_named(p),
            TokenKind::LBracket => {
                let (count, q) = self.expect(p + 1, TokenKind::Integer)?;
                let length: u64 = length_of(&self.tokens[p + 1])?;
                let (_, r) = self.expect(q, TokenKind::RBracket)?;
                let (element, u) = self.parse_type(r)?;
                let (_, v) = self.expect(u, TokenKind::LBrace)?;
                let (elements, closing, w) = self.parse_elements(v)?;
                let ty: Type = Type::Array { length, element: Box::new(element) };
                assert(grammar::has_room_before(self.tokens(), p + 1));
                let whole: Span = Span::new(count.start - 1, closing.end);
                Ok((Expr::ArrayLiteral { ty, elements, span: whole }, w))
            },
            TokenKind::LParen => {
                let (inner, q) = self.parse_expression(p + 1)?;
                let (_, r) = self.expect(q, TokenKind::RParen)?;
                Ok((inner, r))
            },
            _ => Err(
                ParseError::UnexpectedToken {
                    expected: "expression".to_owned(),
                    found: kind,
                    span,
                },
            ),
        }
    }

    /// The elements of an array literal, its closing brace and what follows.
    fn parse_elements(&self, p: usize) -> (r: Result<(Vec<Expr>, Span, usize), ParseError>)
        requires
            self.ready(p as int),
        ensures
            match r {
                Ok((x, closing, q)) => {
                    &&& grammar::elements(self.tokens(), p as int, Seq::empty()) matches Ok(found)
                    &&& found.0.0 == exprs_view(x@)
                    &&& found.0.1.span == closing
                    &&& found.1 == q
                    &&& p < q < self.tokens().len()
                    &&& self.ready(q as int)
                },
                Err(error) => grammar::elements(self.tokens(), p as int, Seq::empty()) == Err::<
                    ((Seq<ExprView>, TokenView), int),
                    ParseErrorView,
                >(error@),
            },
        decreases self.tokens@.len() - p, 7int,
    {
        let ghost ts = self.tokens();
        let mut found: Vec<Expr> = Vec::new();
        assert(exprs_view(found@) =~= Seq::empty());
        let mut q: usize = p;
        while !self.at(q, TokenKind::RBrace) && !self.at(q, TokenKind::Eof)
            invariant
                ts == self.tokens(),
                self.ready(q as int),
                p <= q < ts.len(),
                grammar::elements(ts, p as int, Seq::empty()) == grammar::elements(
                    ts,
                    q as int,
                    exprs_view(found@),
                ),
            decreases ts.len() - q,
        {
            let (element, r) = self.parse_expression(q)?;
            found.push(element);
            if self.at(r, TokenKind::Comma) {
                q = r + 1;
            } else {
                let (closing, u) = self.expect(r, TokenKind::RBrace)?;
                return Ok((found, closing, u));
            }
        }
        let (closing, u) = self.expect(q, TokenKind::RBrace)?;
        Ok((found, closing, u))
    }

    /// A name, a qualified name, or a struct literal of either.
    fn parse_named(&self, p: usize) -> (r: Result<(Expr, usize), ParseError>)
        requires
            self.ready(p as int),
        ensures
            match r {
                Ok((x, q)) => {
                    &&& grammar::named(self.tokens(), p as int)
                        == Ok::<(ExprView, int), ParseErrorView>((x@, q as int))
                    &&& p < q < self.tokens().len()
                    &&& self.ready(q as int)
                },
                Err(error) => grammar::named(self.tokens(), p as int)
                    == Err::<(ExprView, int), ParseErrorView>(error@),
            },
        decreases self.tokens@.len() - p, 0int,
    {
        let (name, q) = self.parse_qualified_name(p)?;
        let start: usize = self.tokens[p].span.start;
        if self.opens_literal(q) {
            let (fields, r) = self.parse_field_values(q + 1)?;
            let (closing, u) = self.expect(r, TokenKind::RBrace)?;
            let span: Span = Span::new(start, closing.end);
            return Ok((Expr::StructLiteral { name, fields, span }, u));
        }
        let first: String = self.tokens[p].lexeme.clone();
        let base: Expr = Expr::Identifier { name: first, span: self.tokens[p].span };
        let ghost token = self.tokens()[p as int];
        assert(base@ == ExprView::Identifier { name: token.lexeme, span: token.span });
        if q == p + 1 {
            return Ok((base, q));
        }
        let chars: Vec<char> = chars_of(name.as_str());
        proof {
            lemma_find_from_hit(self.tokens()[p as int].lexeme, self.tokens()[p + 2].lexeme);
        }
        let dot: usize = find_char(&chars, 0, '.');
        let next: usize = find_char(&chars, dot + 1, '.');
        let part: String = text_between(&chars, dot + 1, next);
        assert(part@ == grammar::after_first_dot(name@));
        let span: Span = Span::new(start, self.tokens[q - 1].span.end);
        Ok((Expr::Field { base: Box::new(base), name: part, span }, q))
    }

    fn opens_literal(&self, q: usize) -> (r: bool)
        requires
            self.ready(q as int),
        ensures
            r == grammar::opens_literal(self.tokens(), q as int),
    {
        if !self.at(q, TokenKind::LBrace) {
            return false;
        }
        if self.at(q + 1, TokenKind::RBrace) {
            return true;
        }
        self.at(q + 1, TokenKind::Identifier) && self.at(q + 2, TokenKind::Equal)
    }

    fn parse_field_values(&self, p: usize) -> (r: Result<(Vec<StructInit>, usize), ParseError>)
        requires
            self.ready(p as int),
        ensures
            match r {
                Ok((x, q)) => {
                    &&& grammar::field_values(self.tokens(), p as int, Seq::empty())
                        == Ok::<(Seq<StructInitView>, int),
                            ParseErrorView>((inits_view(x@), q as int))
                    &&& p <= q < self.tokens().len()
                    &&& self.ready(q as int)
                },
                Err(error) => grammar::field_values(self.tokens(), p as int, Seq::empty())
                    == Err::<(Seq<StructInitView>, int), ParseErrorView>(error@),
            },
        decreases self.tokens@.len() - p, 7int,
    {
        let ghost ts = self.tokens();
        let mut found: Vec<StructInit> = Vec::new();
        assert(inits_view(found@) =~= Seq::empty());
        let mut q: usize = p;
        while !self.at(q, TokenKind::RBrace) && !self.at(q, TokenKind::Eof)
            invariant
                ts == self.tokens(),
                self.ready(q as int),
                p <= q < ts.len(),
                grammar::field_values(ts, p as int, Seq::empty()) == grammar::field_values(
                    ts,
                    q as int,
                    inits_view(found@),
                ),
            decreases ts.len() - q,
        {
            let (field, r) = self.expect_identifier(q)?;
            let (_, u) = self.expect(r, TokenKind::Equal)?;
            let (value, v) = self.parse_expression(u)?;
            let span: Span = Span::new(field.span.start, value.span().end);
            found.push(StructInit { name: field.lexeme, value, span });
            if self.at(v, TokenKind::Comma) || self.at(v, TokenKind::Semicolon) {
                q = v + 1;
            } else if self.at(v, TokenKind::RBrace) {
                return Ok((found, v));
            } else {
                return Err(
                    ParseError::UnexpectedToken {
                        expected: "field separator".to_owned(),
                        found: self.tokens[v].kind,
                        span: self.tokens[v].span,
                    },
                );
            }
        }
        Ok((found, q))
    }

    fn looks_like_typed_declaration(&self, p: usize) -> (r: bool)
        requires
            self.ready(p as int),
        ensures
            r == grammar::is_typed_declaration(self.tokens(), p as int),
    {
        let ghost ts = self.tokens();
        let mut q: usize = p;
        loop
            invariant
                ts == self.tokens(),
                self.ready(q as int),
                grammar::simple_type_end(ts, p as int) == grammar::simple_type_end(ts, q as int),
            decreases ts.len() - q,
        {
            if self.at(q, TokenKind::Identifier) {
                return self.at(q + 1, TokenKind::Equal);
            }
            if self.at(q, TokenKind::Star) || self.at(q, TokenKind::Pipe) {
                q = q + 1;
            } else if self.at(q, TokenKind::LBracket) {
                if self.at(q + 1, TokenKind::RBracket) {
                    q = q + 2;
                } else if self.at(q + 1, TokenKind::Integer) && self.at(
                    q + 2,
                    TokenKind::RBracket,
                ) {
                    q = q + 3;
                } else {
                    return false;
                }
            } else {
                return false;
            }
        }
    }

    fn at(&self, p: usize, kind: TokenKind) -> (r: bool)
        requires
            self.ready(p as int),
        ensures
            r == grammar::at(self.tokens(), p as int, kind),
    {
        assert(self.tokens@[p as int]@ == self.tokens()[p as int]);
        self.tokens[p].kind == kind
    }

    /// The span of a token of the kind, and what follows it.
    fn expect(&self, p: usize, kind: TokenKind) -> (r: Result<(Span, usize), ParseError>)
        requires
            self.ready(p as int),
            kind != TokenKind::Eof,
        ensures
            match r {
                Ok((span, q)) => {
                    &&& grammar::token_of(self.tokens(), p as int, kind) == Ok::<
                        (TokenView, int),
                        ParseErrorView,
                    >((self.tokens()[p as int], q as int))
                    &&& self.tokens()[p as int].span == span
                    &&& q == p + 1
                    &&& q < self.tokens().len()
                    &&& self.ready(q as int)
                },
                Err(error) => {
                    &&& grammar::token_of(self.tokens(), p as int, kind) == Err::<
                        (TokenView, int),
                        ParseErrorView,
                    >(error@)
                    &&& error@ == grammar::expected(self.tokens(), p as int, kind.name())
                },
            },
    {
        if self.at(p, kind) {
            Ok((self.tokens[p].span, p + 1))
        } else {
            Err(self.expected(p, kind.to_string()))
        }
    }

    fn expect_identifier(&self, p: usize) -> (r: Result<(Token, usize), ParseError>)
        requires
            self.ready(p as int),
        ensures
            match r {
                Ok((token, q)) => {
                    &&& grammar::identifier(self.tokens(), p as int) == Ok::<
                        (TokenView, int),
                        ParseErrorView,
                    >((token@, q as int))
                    &&& q == p + 1
                    &&& q < self.tokens().len()
                    &&& self.ready(q as int)
                },
                Err(error) => grammar::identifier(self.tokens(), p as int) == Err::<
                    (TokenView, int),
                    ParseErrorView,
                >(error@),
            },
    {
        if self.at(p, TokenKind::Identifier) {
            assert(self.tokens@[p as int]@ == self.tokens()[p as int]);
            Ok((self.tokens[p].clone(), p + 1))
        } else {
            Err(self.expected(p, "identifier".to_owned()))
        }
    }

    fn expected(&self, p: usize, what: String) -> (r: ParseError)
        requires
            p < self.tokens().len(),
        ensures
            r@ == grammar::expected(self.tokens(), p as int, what@),
    {
        assert(self.tokens@[p as int]@ == self.tokens()[p as int]);
        let kind: TokenKind = self.tokens[p].kind;
        let span: Span = self.tokens[p].span;
        if kind == TokenKind::Eof {
            ParseError::UnexpectedEof { expected: what, span }
        } else {
            ParseError::UnexpectedToken { expected: what, found: kind, span }
        }
    }
}

/// What an optional type holds.
pub open spec fn option_type_view(ty: Option<Type>) -> Option<TypeView> {
    match ty {
        Some(ty) => Some(ty@),
        None => None,
    }
}

/// `a.b` has a dot, at the latest where the two are joined.
proof fn lemma_find_from_hit(a: Seq<char>, b: Seq<char>)
    ensures
        crate::text::find_from(a + "."@ + b, 0, '.') < (a + "."@ + b).len(),
{
    reveal_strlit(".");
    let s = a + "."@ + b;
    assert(s[a.len() as int] == '.');
    lemma_found_before(s, 0, a.len() as int);
}

proof fn lemma_found_before(s: Seq<char>, i: int, k: int)
    requires
        0 <= i <= k < s.len(),
        s[k] == '.',
    ensures
        crate::text::find_from(s, i, '.') <= k,
    decreases k - i,
{
    if s[i] != '.' {
        lemma_found_before(s, i + 1, k);
    }
}

fn length_of(token: &Token) -> (r: Result<u64, ParseError>)
    ensures
        match r {
            Ok(length) => grammar::length_of(token@) == Ok::<u64, ParseErrorView>(length),
            Err(error) => grammar::length_of(token@) == Err::<u64, ParseErrorView>(error@),
        },
{
    let cleaned: String = remove_char(&token.lexeme, '_');
    match parse_unsigned(&cleaned) {
        Some(length) => Ok(length),
        None => Err(ParseError::InvalidInteger { lexeme: token.lexeme.clone(), span: token.span }),
    }
}

/// Parts the type parameters from the others.
fn split_parameters(all: Vec<Parameter>) -> (r: (Vec<GenericParam>, Vec<Parameter>))
    ensures
        generics_view(r.0@) == grammar::type_parameters(parameters_view(all@)),
        parameters_view(r.1@) == grammar::value_parameters(parameters_view(all@)),
{
    let ghost whole = parameters_view(all@);
    let mut generic_params: Vec<GenericParam> = Vec::new();
    let mut params: Vec<Parameter> = Vec::new();
    assert(generics_view(generic_params@) =~= Seq::empty());
    assert(parameters_view(params@) =~= Seq::empty());
    let marker: Type = Type::Named("type".to_owned());
    for i in 0..all.len()
        invariant
            whole == parameters_view(all@),
            marker@ == TypeView::Named("type"@),
            generics_view(generic_params@) == grammar::type_parameters(whole.take(i as int)),
            parameters_view(params@) == grammar::value_parameters(whole.take(i as int)),
    {
        assert(whole.take(i + 1).drop_last() =~= whole.take(i as int));
        assert(whole.take(i + 1).last() == all@[i as int]@);
        if all[i].ty.same(&marker) {
            generic_params.push(GenericParam { name: all[i].name.clone(), span: all[i].span });
        } else {
            params.push(all[i].clone());
        }
    }
    assert(whole.take(whole.len() as int) =~= whole);
    (generic_params, params)
}

fn alias_of_path(path: &String) -> (r: String)
    ensures
        r@ == grammar::alias_of(path@),
{
    let chars: Vec<char> = chars_of(path.as_str());
    let mut start: usize = chars.len();
    while start > 0 && chars[start - 1] != '/'
        invariant
            chars@ == path@,
            start <= chars.len(),
            grammar::file_name_start(path@, path@.len() as int) == grammar::file_name_start(
                path@,
                start as int,
            ),
        decreases start,
    {
        start -= 1;
    }
    let ghost name = path@.skip(start as int);
    let mut end: usize = chars.len();
    assert(name.take(end - start) =~= name);
    let extension: String = ".compy".to_owned();
    while end - start >= 6 && text_between(&chars, end - 6, end) == extension
        invariant
            chars@ == path@,
            start <= end <= chars.len(),
            name == path@.skip(start as int),
            extension@ == ".compy"@,
            grammar::without_extension(name) == grammar::without_extension(
                name.take(end - start),
            ),
        decreases end,
    {
        proof {
            let part = name.take(end - start);
            assert(part.skip(part.len() - 6) =~= path@.subrange(end - 6, end as int));
            assert(part.take(part.len() - 6) =~= name.take(end - 6 - start));
        }
        end -= 6;
    }
    proof {
        let part = name.take(end - start);
        if part.len() >= 6 {
            assert(part.skip(part.len() - 6) =~= path@.subrange(end - 6, end as int));
        }
        assert(part =~= path@.subrange(start as int, end as int));
    }
    text_between(&chars, start, end)
}

fn is_name(expression: &Expr, name: &str) -> (r: bool)
    ensures
        r == grammar::is_name(expression@, name@),
{
    match expression {
        Expr::Identifier { name: found, .. } => text_is(found, name),
        _ => false,
    }
}

fn is_assignable(expression: &Expr) -> (r: bool)
    ensures
        r == grammar::assignable(expression@),
{
    match expression {
        Expr::Identifier { .. } => true,
        Expr::Field { .. } => true,
        Expr::Index { .. } => true,
        Expr::UncheckedIndex { .. } => true,
        Expr::Unary { operator, .. } => *operator == UnaryOp::Dereference,
        _ => false,
    }
}

fn binary_operator(kind: TokenKind) -> (r: Option<BinaryOp>)
    ensures
        r == grammar::binary_operator(kind),
{
    match kind {
        TokenKind::Plus => Some(BinaryOp::Add),
        TokenKind::Minus => Some(BinaryOp::Subtract),
        TokenKind::Star => Some(BinaryOp::Multiply),
        TokenKind::Slash => Some(BinaryOp::Divide),
        TokenKind::Percent => Some(BinaryOp::Modulo),
        TokenKind::EqualEqual => Some(BinaryOp::Equal),
        TokenKind::BangEqual => Some(BinaryOp::NotEqual),
        TokenKind::Less => Some(BinaryOp::Less),
        TokenKind::LessEqual => Some(BinaryOp::LessEqual),
        TokenKind::Greater => Some(BinaryOp::Greater),
        TokenKind::GreaterEqual => Some(BinaryOp::GreaterEqual),
        TokenKind::ShiftLeft => Some(BinaryOp::ShiftLeft),
        TokenKind::ShiftRight => Some(BinaryOp::ShiftRight),
        TokenKind::AmpersandAmpersand => Some(BinaryOp::LogicalAnd),
        TokenKind::PipePipe => Some(BinaryOp::LogicalOr),
        TokenKind::Ampersand => Some(BinaryOp::BitwiseAnd),
        TokenKind::Pipe => Some(BinaryOp::BitwiseOr),
        TokenKind::Caret => Some(BinaryOp::BitwiseXor),
        _ => None,
    }
}

fn unary_operator(kind: TokenKind) -> (r: Option<UnaryOp>)
    ensures
        r == grammar::unary_operator(kind),
{
    match kind {
        TokenKind::Minus => Some(UnaryOp::Negate),
        TokenKind::Bang => Some(UnaryOp::Not),
        TokenKind::Tilde => Some(UnaryOp::BitwiseNot),
        TokenKind::Ampersand => Some(UnaryOp::AddressOf),
        TokenKind::Star => Some(UnaryOp::Dereference),
        _ => None,
    }
}

impl BinaryOp {
    fn precedence(self) -> (r: u8)
        ensures
            r == grammar::precedence(self),
            r <= 10,
    {
        match self {
            BinaryOp::LogicalOr => 1,
            BinaryOp::LogicalAnd => 2,
            BinaryOp::BitwiseOr => 3,
            BinaryOp::BitwiseXor => 4,
            BinaryOp::BitwiseAnd => 5,
            BinaryOp::Equal => 6,
            BinaryOp::NotEqual => 6,
            BinaryOp::Less => 7,
            BinaryOp::LessEqual => 7,
            BinaryOp::Greater => 7,
            BinaryOp::GreaterEqual => 7,
            BinaryOp::ShiftLeft => 8,
            BinaryOp::ShiftRight => 8,
            BinaryOp::Add => 9,
            BinaryOp::Subtract => 9,
            BinaryOp::Multiply => 10,
            BinaryOp::Divide => 10,
            BinaryOp::Modulo => 10,
        }
    }
}

} // verus!
