//! The stages from source text to the typed program and its blocks.
use crate::ast::{Program, ProgramView};
use crate::comptime;
use crate::comptime::default_limits;
use crate::expansion::expansion;
use crate::floats::{answers, float_model, FloatAnswer, FloatModel, FloatOp};
use crate::grammar;
use crate::grammar::{ended, has_room_before, is_token_stream};
use crate::lexer::{
    lex_from, show_span, span_text, tokens_view, LexError, Lexer, Span, Token, TokenKind, TokenView,
};
use crate::mir;
use crate::mir::{MirError, MirProgram, MirProgramView};
use crate::modules::{project_analyzed, ModuleGraph};
use crate::parser::{ParseError, ParseErrorView, Parser};
use crate::semantic;
use crate::semantic::{known_view, SemanticError, SemanticErrorView};
use crate::text::{chars_of, joined, text_between};
use crate::typed::{DefId, TypedProgram, TypedProgramView};
use crate::typing::{context_of, lowered_program};
use vstd::prelude::*;

verus! {

/// Why a source text has no typed program.
#[allow(inconsistent_fields)]
#[derive(Debug, PartialEq)]
pub enum FrontendError {
    Lexer(LexError),
    Parser(ParseError),
    Semantic(SemanticError),
    Comptime(comptime::Error),
    Mir(MirError),
}

/// What a `FrontendError` holds.
#[allow(inconsistent_fields)]
pub ghost enum FrontendErrorView {
    Lexer(LexError),
    Parser(ParseErrorView),
    Semantic(SemanticErrorView),
    Comptime(comptime::ErrorView),
    Mir(MirError),
}

impl FrontendError {
    pub open spec fn view(&self) -> FrontendErrorView
        decreases self,
    {
        match self {
            FrontendError::Lexer(inner) => FrontendErrorView::Lexer(*inner),
            FrontendError::Parser(inner) => FrontendErrorView::Parser(inner.view()),
            FrontendError::Semantic(inner) => FrontendErrorView::Semantic(inner.view()),
            FrontendError::Comptime(inner) => FrontendErrorView::Comptime(inner.view()),
            FrontendError::Mir(inner) => FrontendErrorView::Mir(*inner),
        }
    }
}

impl Clone for FrontendError {
    fn clone(&self) -> (r: Self)
        ensures
            r@ == self@,
        decreases self,
    {
        match self {
            FrontendError::Lexer(inner) => FrontendError::Lexer(*inner),
            FrontendError::Parser(inner) => FrontendError::Parser(inner.clone()),
            FrontendError::Semantic(inner) => FrontendError::Semantic(inner.clone()),
            FrontendError::Comptime(inner) => FrontendError::Comptime(inner.clone()),
            FrontendError::Mir(inner) => FrontendError::Mir(*inner),
        }
    }
}


/// What a message reads without the place at its end.
pub open spec fn without_place(message: Seq<char>, span: Span) -> Seq<char> {
    let ending = " at "@ + span_text(span);
    if message.len() >= ending.len() && message.skip(message.len() - ending.len()) == ending {
        message.take(message.len() - ending.len())
    } else {
        message
    }
}

impl FrontendErrorView {
    pub open spec fn stage(self) -> Seq<char> {
        match self {
            FrontendErrorView::Lexer(_) => "lexer"@,
            FrontendErrorView::Parser(_) => "parser"@,
            FrontendErrorView::Semantic(_) => "semantic"@,
            FrontendErrorView::Comptime(_) => "comptime"@,
            FrontendErrorView::Mir(_) => "mir"@,
        }
    }

    /// Where the error stands in its source.
    pub open spec fn span(self) -> Span {
        match self {
            FrontendErrorView::Lexer(error) => match error {
                LexError::UnexpectedCharacter { span, .. } => span,
                LexError::UnterminatedBlockComment { span } => span,
            },
            FrontendErrorView::Parser(error) => error.span(),
            FrontendErrorView::Semantic(error) => error.span(),
            FrontendErrorView::Comptime(error) => error.span(),
            FrontendErrorView::Mir(error) => error.place(),
        }
    }

    /// What the stage's own message reads.
    pub open spec fn inner_message(self) -> Seq<char> {
        match self {
            FrontendErrorView::Lexer(error) => error.message(),
            FrontendErrorView::Parser(error) => error.message(),
            FrontendErrorView::Semantic(error) => error.message(),
            FrontendErrorView::Comptime(error) => error.text(),
            FrontendErrorView::Mir(error) => error.message(),
        }
    }

    /// What the error's message reads.
    pub open spec fn message(self) -> Seq<char> {
        self.stage() + " error: "@ + without_place(self.inner_message(), self.span())
    }
}

impl FrontendError {
    pub fn stage(&self) -> (r: &'static str)
        ensures
            r@ == self@.stage(),
    {
        match self {
            FrontendError::Lexer(_) => "lexer",
            FrontendError::Parser(_) => "parser",
            FrontendError::Semantic(_) => "semantic",
            FrontendError::Comptime(_) => "comptime",
            FrontendError::Mir(_) => "mir",
        }
    }

    /// Where the error stands in its source.
    pub fn span(&self) -> (r: Span)
        ensures
            r == self@.span(),
    {
        match self {
            FrontendError::Lexer(error) => match error {
                LexError::UnexpectedCharacter { span, .. } => *span,
                LexError::UnterminatedBlockComment { span } => *span,
            },
            FrontendError::Parser(error) => error.span(),
            FrontendError::Semantic(error) => error.span(),
            FrontendError::Comptime(error) => error.span(),
            FrontendError::Mir(error) => error.span(),
        }
    }

    fn to_string_inner(&self) -> (r: String)
        ensures
            r@ == self@.inner_message(),
    {
        match self {
            FrontendError::Lexer(error) => error.to_string(),
            FrontendError::Parser(error) => error.to_string(),
            FrontendError::Semantic(error) => error.to_string(),
            FrontendError::Comptime(error) => error.to_string(),
            FrontendError::Mir(error) => error.to_string(),
        }
    }

    pub fn to_string(&self) -> (r: String)
        ensures
            r@ == self@.message(),
    {
        let inner: String = self.to_string_inner();
        let text: String = trim_byte_location(&inner, self.span());
        joined(joined(self.stage().to_owned(), " error: "), text.as_str())
    }
}

fn trim_byte_location(message: &String, span: Span) -> (r: String)
    ensures
        r@ == without_place(message@, span),
{
    let place: String = show_span(span);
    let ending: String = joined(" at ".to_owned(), place.as_str());
    let chars: Vec<char> = chars_of(message.as_str());
    let last: Vec<char> = chars_of(ending.as_str());
    if chars.len() >= last.len() {
        let cut: usize = chars.len() - last.len();
        let tail: String = text_between(&chars, cut, chars.len());
        assert(tail@ =~= message@.skip(cut as int));
        if tail == ending {
            let head: String = text_between(&chars, 0, cut);
            assert(head@ =~= message@.take(cut as int));
            return head;
        }
    }
    message.clone()
}

// ---------------------------------------------------------------------------
// What the stages give
// ---------------------------------------------------------------------------

/// The tokens of a source text.
pub open spec fn lexed(source: Seq<char>) -> Result<Seq<TokenView>, FrontendErrorView> {
    match lex_from(source, 0) {
        Ok(tokens) => Ok(tokens),
        Err(error) => Err(FrontendErrorView::Lexer(error)),
    }
}

/// The module that a source text is.
pub open spec fn parsed(source: Seq<char>) -> Result<ProgramView, FrontendErrorView> {
    match lexed(source) {
        Err(error) => Err(error),
        Ok(tokens) => match grammar::module(tokens, 0, Seq::empty(), Seq::empty()) {
            Ok((program, _)) => Ok(program),
            Err(error) => Err(FrontendErrorView::Parser(error)),
        },
    }
}

/// The typed program that a program expands to, where some names have
/// identities already.
pub open spec fn analyzed(
    floats: FloatModel,
    program: ProgramView,
    pointer_width: u32,
    known: Seq<(Seq<char>, DefId)>,
) -> Result<TypedProgramView, FrontendErrorView> {
    match expansion(floats, program, pointer_width, default_limits()) {
        Err(error) => Err(FrontendErrorView::Comptime(error)),
        Ok(expanded) => match lowered_program(floats, context_of(expanded, known)) {
            Err(error) => Err(FrontendErrorView::Semantic(error)),
            Ok(typed) => Ok(typed),
        },
    }
}

/// The typed program of a source text.
pub open spec fn analyzed_source(floats: FloatModel, source: Seq<char>) -> Result<
    TypedProgramView,
    FrontendErrorView,
> {
    match parsed(source) {
        Err(error) => Err(error),
        Ok(program) => analyzed(floats, program, usize::BITS, Seq::empty()),
    }
}

pub open spec fn typed_outcome(r: Result<TypedProgram, FrontendError>) -> Result<
    TypedProgramView,
    FrontendErrorView,
> {
    match r {
        Ok(program) => Ok(program@),
        Err(error) => Err(error@),
    }
}

/// The tokens of a source text, up to and with the end marker.
pub fn lex_source(source: &str) -> (r: Result<Vec<Token>, FrontendError>)
    ensures
        match r {
            Ok(tokens) => lexed(source@) == Ok::<Seq<TokenView>, FrontendErrorView>(
                tokens_view(tokens@),
            ) && is_token_stream(tokens_view(tokens@)) && tokens@.len() > 0
                && tokens@.last().kind == TokenKind::Eof,
            Err(error) => lexed(source@) == Err::<Seq<TokenView>, FrontendErrorView>(error@),
        },
{
    let mut lexer: Lexer = Lexer::new(source);
    let mut tokens: Vec<Token> = Vec::new();
    assert(tokens_view(tokens@) =~= Seq::empty());
    assert(lex_from(source@, 0) is Ok ==> tokens_view(tokens@) + lex_from(source@, 0)->Ok_0
        =~= lex_from(source@, 0)->Ok_0);
    loop
        invariant
            lexer.wf(),
            lexer.text() == source@,
            0 <= lexer.index() <= source@.len(),
            tokens@.len() > 0 ==> lexer.index() > 0,
            forall|i: int|
                1 <= i < tokens@.len() ==> #[trigger] has_room_before(tokens_view(tokens@), i),
            match lex_from(source@, lexer.index()) {
                Ok(rest) => lex_from(source@, 0) == Ok::<Seq<TokenView>, LexError>(
                    tokens_view(tokens@) + rest,
                ),
                Err(error) => lex_from(source@, 0) == Err::<Seq<TokenView>, LexError>(error),
            },
        decreases source@.len() - lexer.index() + 1,
    {
        let ghost index = lexer.index();
        let ghost before = tokens_view(tokens@);
        let token: Token = match lexer.next_token() {
            Ok(token) => token,
            Err(error) => {
                return Err(FrontendError::Lexer(error));
            },
        };
        let eof: bool = token.kind == TokenKind::Eof;
        let ghost found = token@;
        let ghost old_tokens = tokens@;
        tokens.push(token);
        proof {
            let now = tokens_view(tokens@);
            assert(now =~= before.push(found));
            assert forall|i: int| 1 <= i < tokens@.len() implies #[trigger] has_room_before(
                now,
                i,
            ) by {
                if i < old_tokens.len() {
                    assert(has_room_before(before, i));
                    assert(now[i] == before[i] && now[i - 1] == before[i - 1]);
                }
            }
            match lex_from(source@, index) {
                Ok(all) => {
                    if eof {
                        assert(before + all =~= now);
                    } else {
                        assert(lex_from(source@, lexer.index()) is Ok);
                        let rest = lex_from(source@, lexer.index())->Ok_0;
                        assert(before + all =~= now + rest);
                    }
                },
                Err(_) => {},
            }
        }
        if eof {
            proof {
                reveal(ended);
                let ts = tokens_view(tokens@);
                assert(ts[ts.len() - 1].kind == TokenKind::Eof);
            }
            return Ok(tokens);
        }
    }
}

/// The module that a source text is.
pub fn parse_source(source: &str) -> (r: Result<Program, FrontendError>)
    ensures
        match r {
            Ok(program) => parsed(source@) == Ok::<ProgramView, FrontendErrorView>(program@),
            Err(error) => parsed(source@) == Err::<ProgramView, FrontendErrorView>(error@),
        },
{
    let tokens: Vec<Token> = lex_source(source)?;
    let mut parser: Parser = Parser::new(tokens);
    match parser.parse() {
        Ok(program) => Ok(program),
        Err(error) => Err(FrontendError::Parser(error)),
    }
}

pub fn analyze_program<F: Fn(FloatOp, String, String) -> FloatAnswer>(
    program: &Program,
    floats: &F,
) -> (r: Result<TypedProgram, FrontendError>)
    requires
        answers(*floats),
    ensures
        typed_outcome(r) == analyzed(
            float_model(*floats),
            program@,
            usize::BITS,
            Seq::empty(),
        ),
{
    analyze_program_with_pointer_width(program, usize::BITS, floats)
}

/// Expands a program and analyzes what it expands to.
pub fn analyze_program_with_pointer_width<F: Fn(FloatOp, String, String) -> FloatAnswer>(
    program: &Program,
    pointer_width: u32,
    floats: &F,
) -> (r: Result<TypedProgram, FrontendError>)
    requires
        answers(*floats),
    ensures
        typed_outcome(r) == analyzed(
            float_model(*floats),
            program@,
            pointer_width,
            Seq::empty(),
        ),
{
    let known: Vec<(String, DefId)> = Vec::new();
    assert(known_view(known@) =~= Seq::empty());
    analyze_program_with_ids(program, &known, pointer_width, floats)
}

/// As before, where some names have identities already.
pub fn analyze_program_with_ids<F: Fn(FloatOp, String, String) -> FloatAnswer>(
    program: &Program,
    known: &Vec<(String, DefId)>,
    pointer_width: u32,
    floats: &F,
) -> (r: Result<TypedProgram, FrontendError>)
    requires
        answers(*floats),
    ensures
        typed_outcome(r) == analyzed(
            float_model(*floats),
            program@,
            pointer_width,
            known_view(known@),
        ),
{
    let expanded: Program = match comptime::expand(program, pointer_width, floats) {
        Ok(expanded) => expanded,
        Err(error) => {
            return Err(FrontendError::Comptime(error));
        },
    };
    match semantic::analyze_typed_with_ids(&expanded, known, floats) {
        Ok(typed) => Ok(typed),
        Err(error) => Err(FrontendError::Semantic(error)),
    }
}

/// As before, where a graph of modules gives the identities.
pub fn analyze_resolved_program<F: Fn(FloatOp, String, String) -> FloatAnswer>(
    program: &Program,
    graph: &ModuleGraph,
    pointer_width: u32,
    floats: &F,
) -> (r: Result<TypedProgram, FrontendError>)
    requires
        answers(*floats),
    ensures
        typed_outcome(r) == project_analyzed(
            float_model(*floats),
            program@,
            graph@,
            pointer_width,
        ),
{
    let expanded: Program = match comptime::expand(program, pointer_width, floats) {
        Ok(expanded) => expanded,
        Err(error) => {
            return Err(FrontendError::Comptime(error));
        },
    };
    match semantic::analyze_typed_with_graph(&expanded, graph, pointer_width, floats) {
        Ok(typed) => Ok(typed),
        Err(error) => Err(FrontendError::Semantic(error)),
    }
}

/// The typed program of a source text.
pub fn analyze_source<F: Fn(FloatOp, String, String) -> FloatAnswer>(
    source: &str,
    floats: &F,
) -> (r: Result<TypedProgram, FrontendError>)
    requires
        answers(*floats),
    ensures
        typed_outcome(r) == analyzed_source(float_model(*floats), source@),
{
    let program: Program = parse_source(source)?;
    analyze_program(&program, floats)
}

/// The blocks of a program.
pub fn lower_mir<F: Fn(FloatOp, String, String) -> FloatAnswer>(
    program: &Program,
    floats: &F,
) -> (r: Result<MirProgram, FrontendError>)
    requires
        answers(*floats),
    ensures
        match r {
            Ok(blocks) => analyzed(
                float_model(*floats),
                program@,
                usize::BITS,
                Seq::empty(),
            ) matches Ok(typed) && mir::lowered_program(typed) == Ok::<MirProgramView, MirError>(
                blocks@,
            ),
            Err(error) => match analyzed(
                float_model(*floats),
                program@,
                usize::BITS,
                Seq::empty(),
            ) {
                Err(problem) => error@ == problem,
                Ok(typed) => mir::lowered_program(typed) matches Err(problem) && error@
                    == FrontendErrorView::Mir(problem),
            },
        },
{
    let typed: TypedProgram = analyze_program(program, floats)?;
    lower_typed_mir(&typed)
}

/// The blocks of a program that is typed already.
pub fn lower_typed_mir(program: &TypedProgram) -> (r: Result<MirProgram, FrontendError>)
    ensures
        match r {
            Ok(blocks) => mir::lowered_program(program@) == Ok::<MirProgramView, MirError>(
                blocks@,
            ),
            Err(error) => mir::lowered_program(program@) matches Err(problem) && error@
                == FrontendErrorView::Mir(problem),
        },
{
    match MirProgram::lower(program) {
        Ok(blocks) => Ok(blocks),
        Err(error) => Err(FrontendError::Mir(error)),
    }
}

} // verus!
