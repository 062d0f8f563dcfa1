//! Tokens of the language, and the lexer that cuts a source text into them.
use crate::text::{
    byte_offset, char_is_digit, char_is_letter, char_is_space, char_width, chars_of, decimal,
    decimal_text, is_digit, is_letter, is_space, joined, lemma_byte_offset_increases,
    lemma_byte_offset_total, lemma_bytes_between, quoted_char, text_between, text_is,
};
use vstd::prelude::*;

verus! {

/// A half-open range of byte offsets into a source text: the end is exclusive.
#[derive(Debug, Clone, Copy, PartialEq, Eq, Structural)]
pub struct Span {
    pub start: usize,
    pub end: usize,
}

impl Span {
    pub fn new(start: usize, end: usize) -> (r: Self)
        ensures
            r == (Span { start, end }),
    {
        Span { start, end }
    }
}

#[derive(Debug, Clone, Copy, PartialEq, Eq, Structural)]
pub enum TokenKind {
    Eof,
    Identifier,
    Integer,
    Float,
    String,
    Ellipsis,
    Fn,
    Import,
    Extern,
    Export,
    Let,
    Var,
    If,
    Else,
    Return,
    Struct,
    Enum,
    Union,
    While,
    Break,
    Continue,
    Defer,
    For,
    True,
    False,
    Null,
    Hash,
    Plus,
    Minus,
    Star,
    Slash,
    Percent,
    Equal,
    EqualEqual,
    Bang,
    BangEqual,
    Less,
    LessEqual,
    ShiftLeft,
    Greater,
    GreaterEqual,
    ShiftRight,
    Ampersand,
    AmpersandAmpersand,
    Pipe,
    PipePipe,
    Caret,
    Tilde,
    Arrow,
    FatArrow,
    Question,
    ColonEqual,
    DoubleColon,
    Dot,
    Comma,
    Semicolon,
    Colon,
    LParen,
    RParen,
    LBracket,
    RBracket,
    LBrace,
    RBrace,
}

impl TokenKind {
    /// The kind's name.
    pub open spec fn name(self) -> Seq<char> {
        match self {
            TokenKind::Eof => "Eof"@,
            TokenKind::Identifier => "Identifier"@,
            TokenKind::Integer => "Integer"@,
            TokenKind::Float => "Float"@,
            TokenKind::String => "String"@,
            TokenKind::Ellipsis => "Ellipsis"@,
            TokenKind::Fn => "Fn"@,
            TokenKind::Import => "Import"@,
            TokenKind::Extern => "Extern"@,
            TokenKind::Export => "Export"@,
            TokenKind::Let => "Let"@,
            TokenKind::Var => "Var"@,
            TokenKind::If => "If"@,
            TokenKind::Else => "Else"@,
            TokenKind::Return => "Return"@,
            TokenKind::Struct => "Struct"@,
            TokenKind::Enum => "Enum"@,
            TokenKind::Union => "Union"@,
            TokenKind::While => "While"@,
            TokenKind::Break => "Break"@,
            TokenKind::Continue => "Continue"@,
            TokenKind::Defer => "Defer"@,
            TokenKind::For => "For"@,
            TokenKind::True => "True"@,
            TokenKind::False => "False"@,
            TokenKind::Null => "Null"@,
            TokenKind::Hash => "Hash"@,
            TokenKind::Plus => "Plus"@,
            TokenKind::Minus => "Minus"@,
            TokenKind::Star => "Star"@,
            TokenKind::Slash => "Slash"@,
            TokenKind::Percent => "Percent"@,
            TokenKind::Equal => "Equal"@,
            TokenKind::EqualEqual => "EqualEqual"@,
            TokenKind::Bang => "Bang"@,
            TokenKind::BangEqual => "BangEqual"@,
            TokenKind::Less => "Less"@,
            TokenKind::LessEqual => "LessEqual"@,
            TokenKind::ShiftLeft => "ShiftLeft"@,
            TokenKind::Greater => "Greater"@,
            TokenKind::GreaterEqual => "GreaterEqual"@,
            TokenKind::ShiftRight => "ShiftRight"@,
            TokenKind::Ampersand => "Ampersand"@,
            TokenKind::AmpersandAmpersand => "AmpersandAmpersand"@,
            TokenKind::Pipe => "Pipe"@,
            TokenKind::PipePipe => "PipePipe"@,
            TokenKind::Caret => "Caret"@,
            TokenKind::Tilde => "Tilde"@,
            TokenKind::Arrow => "Arrow"@,
            TokenKind::FatArrow => "FatArrow"@,
            TokenKind::Question => "Question"@,
            TokenKind::ColonEqual => "ColonEqual"@,
            TokenKind::DoubleColon => "DoubleColon"@,
            TokenKind::Dot => "Dot"@,
            TokenKind::Comma => "Comma"@,
            TokenKind::Semicolon => "Semicolon"@,
            TokenKind::Colon => "Colon"@,
            TokenKind::LParen => "LParen"@,
            TokenKind::RParen => "RParen"@,
            TokenKind::LBracket => "LBracket"@,
            TokenKind::RBracket => "RBracket"@,
            TokenKind::LBrace => "LBrace"@,
            TokenKind::RBrace => "RBrace"@,
        }
    }

    pub fn to_string(&self) -> (r: String)
        ensures
            r@ == self.name(),
    {
        let name: &str = match self {
            TokenKind::Eof => "Eof",
            TokenKind::Identifier => "Identifier",
            TokenKind::Integer => "Integer",
            TokenKind::Float => "Float",
            TokenKind::String => "String",
            TokenKind::Ellipsis => "Ellipsis",
            TokenKind::Fn => "Fn",
            TokenKind::Import => "Import",
            TokenKind::Extern => "Extern",
            TokenKind::Export => "Export",
            TokenKind::Let => "Let",
            TokenKind::Var => "Var",
            TokenKind::If => "If",
            TokenKind::Else => "Else",
            TokenKind::Return => "Return",
            TokenKind::Struct => "Struct",
            TokenKind::Enum => "Enum",
            TokenKind::Union => "Union",
            TokenKind::While => "While",
            TokenKind::Break => "Break",
            TokenKind::Continue => "Continue",
            TokenKind::Defer => "Defer",
            TokenKind::For => "For",
            TokenKind::True => "True",
            TokenKind::False => "False",
            TokenKind::Null => "Null",
            TokenKind::Hash => "Hash",
            TokenKind::Plus => "Plus",
            TokenKind::Minus => "Minus",
            TokenKind::Star => "Star",
            TokenKind::Slash => "Slash",
            TokenKind::Percent => "Percent",
            TokenKind::Equal => "Equal",
            TokenKind::EqualEqual => "EqualEqual",
            TokenKind::Bang => "Bang",
            TokenKind::BangEqual => "BangEqual",
            TokenKind::Less => "Less",
            TokenKind::LessEqual => "LessEqual",
            TokenKind::ShiftLeft => "ShiftLeft",
            TokenKind::Greater => "Greater",
            TokenKind::GreaterEqual => "GreaterEqual",
            TokenKind::ShiftRight => "ShiftRight",
            TokenKind::Ampersand => "Ampersand",
            TokenKind::AmpersandAmpersand => "AmpersandAmpersand",
            TokenKind::Pipe => "Pipe",
            TokenKind::PipePipe => "PipePipe",
            TokenKind::Caret => "Caret",
            TokenKind::Tilde => "Tilde",
            TokenKind::Arrow => "Arrow",
            TokenKind::FatArrow => "FatArrow",
            TokenKind::Question => "Question",
            TokenKind::ColonEqual => "ColonEqual",
            TokenKind::DoubleColon => "DoubleColon",
            TokenKind::Dot => "Dot",
            TokenKind::Comma => "Comma",
            TokenKind::Semicolon => "Semicolon",
            TokenKind::Colon => "Colon",
            TokenKind::LParen => "LParen",
            TokenKind::RParen => "RParen",
            TokenKind::LBracket => "LBracket",
            TokenKind::RBracket => "RBracket",
            TokenKind::LBrace => "LBrace",
            TokenKind::RBrace => "RBrace",
        };
        name.to_owned()
    }
}

/// The keyword that a word is, if it is one.
pub open spec fn keyword(text: Seq<char>) -> Option<TokenKind> {
    if text == "fn"@ {
        Some(TokenKind::Fn)
    } else if text == "import"@ {
        Some(TokenKind::Import)
    } else if text == "extern"@ {
        Some(TokenKind::Extern)
    } else if text == "export"@ {
        Some(TokenKind::Export)
    } else if text == "let"@ {
        Some(TokenKind::Let)
    } else if text == "var"@ {
        Some(TokenKind::Var)
    } else if text == "if"@ {
        Some(TokenKind::If)
    } else if text == "else"@ {
        Some(TokenKind::Else)
    } else if text == "return"@ {
        Some(TokenKind::Return)
    } else if text == "struct"@ {
        Some(TokenKind::Struct)
    } else if text == "enum"@ {
        Some(TokenKind::Enum)
    } else if text == "union"@ {
        Some(TokenKind::Union)
    } else if text == "while"@ {
        Some(TokenKind::While)
    } else if text == "break"@ {
        Some(TokenKind::Break)
    } else if text == "continue"@ {
        Some(TokenKind::Continue)
    } else if text == "defer"@ {
        Some(TokenKind::Defer)
    } else if text == "for"@ {
        Some(TokenKind::For)
    } else if text == "true"@ {
        Some(TokenKind::True)
    } else if text == "false"@ {
        Some(TokenKind::False)
    } else if text == "null"@ {
        Some(TokenKind::Null)
    } else {
        None
    }
}

fn keyword_kind(text: &String) -> (r: Option<TokenKind>)
    ensures
        r == keyword(text@),
{
    if text_is(text, "fn") {
        Some(TokenKind::Fn)
    } else if text_is(text, "import") {
        Some(TokenKind::Import)
    } else if text_is(text, "extern") {
        Some(TokenKind::Extern)
    } else if text_is(text, "export") {
        Some(TokenKind::Export)
    } else if text_is(text, "let") {
        Some(TokenKind::Let)
    } else if text_is(text, "var") {
        Some(TokenKind::Var)
    } else if text_is(text, "if") {
        Some(TokenKind::If)
    } else if text_is(text, "else") {
        Some(TokenKind::Else)
    } else if text_is(text, "return") {
        Some(TokenKind::Return)
    } else if text_is(text, "struct") {
        Some(TokenKind::Struct)
    } else if text_is(text, "enum") {
        Some(TokenKind::Enum)
    } else if text_is(text, "union") {
        Some(TokenKind::Union)
    } else if text_is(text, "while") {
        Some(TokenKind::While)
    } else if text_is(text, "break") {
        Some(TokenKind::Break)
    } else if text_is(text, "continue") {
        Some(TokenKind::Continue)
    } else if text_is(text, "defer") {
        Some(TokenKind::Defer)
    } else if text_is(text, "for") {
        Some(TokenKind::For)
    } else if text_is(text, "true") {
        Some(TokenKind::True)
    } else if text_is(text, "false") {
        Some(TokenKind::False)
    } else if text_is(text, "null") {
        Some(TokenKind::Null)
    } else {
        None
    }
}

/// A token: its kind, the text it was cut from and where that text stands.
#[derive(Debug, PartialEq, Eq)]
pub struct Token {
    pub kind: TokenKind,
    pub lexeme: String,
    pub span: Span,
}

/// What a token holds.
pub ghost struct TokenView {
    pub kind: TokenKind,
    pub lexeme: Seq<char>,
    pub span: Span,
}

impl Token {
    pub open spec fn view(&self) -> TokenView {
        TokenView { kind: self.kind, lexeme: self.lexeme@, span: self.span }
    }
}

impl Clone for Token {
    fn clone(&self) -> (r: Self)
        ensures
            r@ == self@,
    {
        Token { kind: self.kind, lexeme: self.lexeme.clone(), span: self.span }
    }
}

/// What a list of tokens holds.
pub open spec fn tokens_view(tokens: Seq<Token>) -> Seq<TokenView> {
    Seq::new(tokens.len(), |i: int| tokens[i]@)
}

/// Produced while lexing.
#[derive(Debug, Clone, Copy, PartialEq, Eq, Structural)]
pub enum LexError {
    UnexpectedCharacter { character: char, span: Span },
    UnterminatedBlockComment { span: Span },
}

/// `start..end`, as messages print a span.
pub open spec fn span_text(span: Span) -> Seq<char> {
    decimal(span.start as nat) + ".."@ + decimal(span.end as nat)
}

/// `start..end`, as messages print a span.
pub fn show_span(span: Span) -> (r: String)
    ensures
        r@ == span_text(span),
{
    let start: String = decimal_text(span.start as u128);
    let end: String = decimal_text(span.end as u128);
    joined(joined(start, ".."), end.as_str())
}

impl LexError {
    /// What the error's message reads.
    pub open spec fn message(self) -> Seq<char> {
        match self {
            LexError::UnexpectedCharacter { character, span } => "unexpected character "@
                + crate::text::char_debug(character) + " at "@ + span_text(span),
            LexError::UnterminatedBlockComment { span } => "unterminated block comment at "@
                + span_text(span),
        }
    }

    pub fn to_string(&self) -> (r: String)
        ensures
            r@ == self.message(),
    {
        match self {
            LexError::UnexpectedCharacter { character, span } => {
                let quoted: String = quoted_char(*character);
                let place: String = show_span(*span);
                joined(
                    joined(
                        joined("unexpected character ".to_owned(), quoted.as_str()),
                        " at ",
                    ),
                    place.as_str(),
                )
            },
            LexError::UnterminatedBlockComment { span } => {
                let place: String = show_span(*span);
                joined("unterminated block comment at ".to_owned(), place.as_str())
            },
        }
    }
}

// ---------------------------------------------------------------------------
// What the lexer accepts, over the characters of the source
// ---------------------------------------------------------------------------

/// Whether character `i` of `s` exists and is `c`.
pub open spec fn at(s: Seq<char>, i: int, c: char) -> bool {
    0 <= i < s.len() && s[i] == c
}

pub open spec fn is_identifier_start(c: char) -> bool {
    is_letter(c) || c == '_'
}

pub open spec fn is_identifier_part(c: char) -> bool {
    is_letter(c) || is_digit(c) || c == '_'
}

/// The end of the run of identifier characters from `i` on.
pub open spec fn word_end(s: Seq<char>, i: int) -> int
    decreases s.len() - i,
{
    if 0 <= i < s.len() && is_identifier_part(s[i]) {
        word_end(s, i + 1)
    } else {
        i
    }
}

/// The end of the run of digits and underscores from `i` on.
pub open spec fn digits_end(s: Seq<char>, i: int) -> int
    decreases s.len() - i,
{
    if 0 <= i < s.len() && (is_digit(s[i]) || s[i] == '_') {
        digits_end(s, i + 1)
    } else {
        i
    }
}

/// Just after the first `"` from `i` on, or the end of the text.
pub open spec fn string_end(s: Seq<char>, i: int) -> int
    decreases s.len() - i,
{
    if 0 <= i < s.len() {
        if s[i] == '"' {
            i + 1
        } else {
            string_end(s, i + 1)
        }
    } else {
        i
    }
}

/// Just after the first line feed from `i` on, or the end of the text.
pub open spec fn line_end(s: Seq<char>, i: int) -> int
    decreases s.len() - i,
{
    if 0 <= i < s.len() {
        if s[i] == '\n' {
            i + 1
        } else {
            line_end(s, i + 1)
        }
    } else {
        i
    }
}

/// Just after the first `*/` from `i` on, if there is one.
pub open spec fn block_end(s: Seq<char>, i: int) -> Option<int>
    decreases s.len() - i,
{
    if 0 <= i < s.len() {
        if s[i] == '*' && at(s, i + 1, '/') {
            Some(i + 2)
        } else {
            block_end(s, i + 1)
        }
    } else {
        None
    }
}

/// The span of the characters `start..end`, in bytes.
pub open spec fn span_of(s: Seq<char>, start: int, end: int) -> Span {
    Span { start: byte_offset(s, start) as usize, end: byte_offset(s, end) as usize }
}

/// Where the first token from `i` on starts, after white space and comments;
/// or the error of a block comment that nothing closes.
pub open spec fn token_start(s: Seq<char>, i: int) -> Result<int, LexError>
    decreases s.len() - i,
{
    if i < 0 || i >= s.len() {
        Ok(i)
    } else if is_space(s[i]) {
        token_start(s, i + 1)
    } else if s[i] == '/' && at(s, i + 1, '/') {
        let end = line_end(s, i + 2);
        if i < end <= s.len() {
            token_start(s, end)
        } else {
            Ok(i)
        }
    } else if s[i] == '/' && at(s, i + 1, '*') {
        match block_end(s, i + 2) {
            Some(end) => if i < end <= s.len() {
                token_start(s, end)
            } else {
                Ok(i)
            },
            None => Err(
                LexError::UnterminatedBlockComment { span: span_of(s, i, s.len() as int) },
            ),
        }
    } else {
        Ok(i)
    }
}

/// The kind and end of the token that starts at `i`, if one does.
pub open spec fn token_at(s: Seq<char>, i: int) -> Option<(TokenKind, int)> {
    let c = s[i];
    if is_identifier_start(c) {
        let end = word_end(s, i + 1);
        let kind = match keyword(s.subrange(i, end)) {
            Some(kind) => kind,
            None => TokenKind::Identifier,
        };
        Some((kind, end))
    } else if is_digit(c) {
        let end = digits_end(s, i);
        if at(s, end, '.') && end + 1 < s.len() && is_digit(s[end + 1]) {
            Some((TokenKind::Float, digits_end(s, end + 1)))
        } else {
            Some((TokenKind::Integer, end))
        }
    } else if c == '"' {
        Some((TokenKind::String, string_end(s, i + 1)))
    } else {
        match operator_at(s, i) {
            Some((kind, width)) => Some((kind, i + width)),
            None => None,
        }
    }
}

/// The longest operator or punctuation mark at `i`, with its width.
pub open spec fn operator_at(s: Seq<char>, i: int) -> Option<(TokenKind, int)> {
    let c = s[i];
    if c == '.' && at(s, i + 1, '.') && at(s, i + 2, '.') {
        Some((TokenKind::Ellipsis, 3))
    } else if c == '-' && at(s, i + 1, '>') {
        Some((TokenKind::Arrow, 2))
    } else if c == '=' && at(s, i + 1, '=') {
        Some((TokenKind::EqualEqual, 2))
    } else if c == '=' && at(s, i + 1, '>') {
        Some((TokenKind::FatArrow, 2))
    } else if c == '!' && at(s, i + 1, '=') {
        Some((TokenKind::BangEqual, 2))
    } else if c == '<' && at(s, i + 1, '=') {
        Some((TokenKind::LessEqual, 2))
    } else if c == '<' && at(s, i + 1, '<') {
        Some((TokenKind::ShiftLeft, 2))
    } else if c == '>' && at(s, i + 1, '=') {
        Some((TokenKind::GreaterEqual, 2))
    } else if c == '>' && at(s, i + 1, '>') {
        Some((TokenKind::ShiftRight, 2))
    } else if c == '&' && at(s, i + 1, '&') {
        Some((TokenKind::AmpersandAmpersand, 2))
    } else if c == '|' && at(s, i + 1, '|') {
        Some((TokenKind::PipePipe, 2))
    } else if c == ':' && at(s, i + 1, ':') {
        Some((TokenKind::DoubleColon, 2))
    } else if c == ':' && at(s, i + 1, '=') {
        Some((TokenKind::ColonEqual, 2))
    } else {
        match mark(c) {
            Some(kind) => Some((kind, 1)),
            None => None,
        }
    }
}

/// The operator or punctuation mark that one character is.
pub open spec fn mark(c: char) -> Option<TokenKind> {
    match c {
        '+' => Some(TokenKind::Plus),
        '-' => Some(TokenKind::Minus),
        '*' => Some(TokenKind::Star),
        '/' => Some(TokenKind::Slash),
        '%' => Some(TokenKind::Percent),
        '=' => Some(TokenKind::Equal),
        '!' => Some(TokenKind::Bang),
        '#' => Some(TokenKind::Hash),
        '?' => Some(TokenKind::Question),
        '<' => Some(TokenKind::Less),
        '>' => Some(TokenKind::Greater),
        '&' => Some(TokenKind::Ampersand),
        '|' => Some(TokenKind::Pipe),
        '^' => Some(TokenKind::Caret),
        '~' => Some(TokenKind::Tilde),
        '.' => Some(TokenKind::Dot),
        ',' => Some(TokenKind::Comma),
        ';' => Some(TokenKind::Semicolon),
        ':' => Some(TokenKind::Colon),
        '(' => Some(TokenKind::LParen),
        ')' => Some(TokenKind::RParen),
        '[' => Some(TokenKind::LBracket),
        ']' => Some(TokenKind::RBracket),
        '{' => Some(TokenKind::LBrace),
        '}' => Some(TokenKind::RBrace),
        _ => None,
    }
}

/// One step of the lexer from character `i`: the token or error, and the
/// character at which the next step starts.
pub open spec fn lex_step(s: Seq<char>, i: int) -> (Result<TokenView, LexError>, int) {
    match token_start(s, i) {
        Err(error) => (Err(error), s.len() as int),
        Ok(start) => if start >= s.len() {
            (
                Ok(
                    TokenView {
                        kind: TokenKind::Eof,
                        lexeme: Seq::empty(),
                        span: span_of(s, start, start),
                    },
                ),
                start,
            )
        } else {
            match token_at(s, start) {
                Some((kind, end)) => (
                    Ok(
                        TokenView {
                            kind,
                            lexeme: s.subrange(start, end),
                            span: span_of(s, start, end),
                        },
                    ),
                    end,
                ),
                None => (
                    Err(
                        LexError::UnexpectedCharacter {
                            character: s[start],
                            span: span_of(s, start, start + 1),
                        },
                    ),
                    start + 1,
                ),
            }
        },
    }
}

/// The tokens from character `i` on, up to and with the end marker; or the
/// first error.
pub open spec fn lex_from(s: Seq<char>, i: int) -> Result<Seq<TokenView>, LexError>
    decreases s.len() - i,
{
    match lex_step(s, i) {
        (Err(error), _) => Err(error),
        (Ok(token), next) => if token.kind == TokenKind::Eof || next <= i || next > s.len() {
            Ok(seq![token])
        } else {
            match lex_from(s, next) {
                Err(error) => Err(error),
                Ok(rest) => Ok(seq![token] + rest),
            }
        },
    }
}

/// Cuts a source text into tokens, one at a time.
pub struct Lexer<'a> {
    source: &'a str,
    chars: Vec<char>,
    index: usize,
    position: usize,
}

impl<'a> Lexer<'a> {
    /// The characters of the source text.
    pub closed spec fn text(&self) -> Seq<char> {
        self.source@
    }

    /// The character at which the next step starts.
    pub closed spec fn index(&self) -> int {
        self.index as int
    }

    /// The lexer stands within its text, and its byte position belongs to the
    /// character it stands at.
    pub closed spec fn wf(&self) -> bool {
        &&& self.chars@ == self.source@
        &&& self.index <= self.chars@.len()
        &&& self.position == byte_offset(self.source@, self.index as int)
        &&& byte_offset(self.source@, self.source@.len() as int) <= usize::MAX
    }

    pub fn new(source: &'a str) -> (r: Self)
        ensures
            r.wf(),
            r.text() == source@,
            r.index() == 0,
    {
        let chars: Vec<char> = chars_of(source);
        let length: usize = source.as_bytes().len();
        proof {
            lemma_byte_offset_total(source@);
        }
        Lexer { source, chars, index: 0, position: 0 }
    }

    /// The next token; the end marker, again and again, once nothing is left.
    pub fn next_token(&mut self) -> (r: Result<Token, LexError>)
        requires
            old(self).wf(),
        ensures
            final(self).wf(),
            final(self).text() == old(self).text(),
            final(self).index() == lex_step(old(self).text(), old(self).index()).1,
            match r {
                Ok(token) => lex_step(old(self).text(), old(self).index()).0 == Ok::<
                    TokenView,
                    LexError,
                >(token@),
                Err(error) => lex_step(old(self).text(), old(self).index()).0 == Err::<
                    TokenView,
                    LexError,
                >(error),
            },
            old(self).index() <= final(self).index() <= final(self).text().len(),
            r matches Ok(token) ==> (token.kind != TokenKind::Eof ==> old(self).index()
                < final(self).index()),
            r matches Ok(token) ==> (old(self).index() > 0 ==> token.span.start >= 1),
    {
        let ghost s = self.source@;
        let ghost first = self.index as int;
        match self.skip_whitespace_and_comments() {
            Err(error) => {
                return Err(error);
            },
            Ok(()) => {},
        }
        let start: usize = self.index;
        proof {
            lemma_byte_offset_increases(s, 0, start as int);
        }
        if start >= self.chars.len() {
            let token: Token = self.token_from(start, self.position, TokenKind::Eof);
            assert(s.subrange(start as int, start as int) =~= Seq::<char>::empty());
            return Ok(token);
        }
        let offset: usize = self.position;
        let c: char = self.chars[start];
        if char_is_letter(c) || c == '_' {
            self.bump();
            self.consume_word();
            let word: String = text_between(&self.chars, start, self.index);
            let kind: TokenKind = match keyword_kind(&word) {
                Some(kind) => kind,
                None => TokenKind::Identifier,
            };
            proof {
                lemma_keyword_is_no_end(word@);
            }
            Ok(self.token_from(start, offset, kind))
        } else if char_is_digit(c) {
            let kind: TokenKind = self.lex_number();
            Ok(self.token_from(start, offset, kind))
        } else if c == '"' {
            self.bump();
            self.consume_string();
            Ok(self.token_from(start, offset, TokenKind::String))
        } else {
            match self.lex_operator() {
                Some(kind) => Ok(self.token_from(start, offset, kind)),
                None => {
                    self.bump();
                    Err(
                        LexError::UnexpectedCharacter {
                            character: c,
                            span: Span::new(offset, self.position),
                        },
                    )
                },
            }
        }
    }

    /// The token from character `start`, at byte `offset`, up to the lexer.
    fn token_from(&self, start: usize, offset: usize, kind: TokenKind) -> (r: Token)
        requires
            self.wf(),
            start <= self.index,
            offset == byte_offset(self.source@, start as int),
        ensures
            r@ == (TokenView {
                kind,
                lexeme: self.source@.subrange(start as int, self.index as int),
                span: span_of(self.source@, start as int, self.index as int),
            }),
    {
        Token {
            kind,
            lexeme: text_between(&self.chars, start, self.index),
            span: Span::new(offset, self.position),
        }
    }

    fn consume_word(&mut self)
        requires
            old(self).wf(),
        ensures
            final(self).wf(),
            final(self).source == old(self).source,
            final(self).index == word_end(old(self).source@, old(self).index as int),
            final(self).index >= old(self).index,
    {
        let ghost first = self.index as int;
        while self.index < self.chars.len() && (char_is_letter(self.chars[self.index])
            || char_is_digit(self.chars[self.index]) || self.chars[self.index] == '_')
            invariant
                self.wf(),
                self.source == old(self).source,
                first == old(self).index,
                first <= self.index,
                word_end(self.source@, first) == word_end(self.source@, self.index as int),
            decreases self.chars.len() - self.index,
        {
            self.bump();
        }
    }

    fn consume_digits(&mut self)
        requires
            old(self).wf(),
        ensures
            final(self).wf(),
            final(self).source == old(self).source,
            final(self).index == digits_end(old(self).source@, old(self).index as int),
            final(self).index >= old(self).index,
    {
        let ghost first = self.index as int;
        while self.index < self.chars.len() && (char_is_digit(self.chars[self.index])
            || self.chars[self.index] == '_')
            invariant
                self.wf(),
                self.source == old(self).source,
                first == old(self).index,
                first <= self.index,
                digits_end(self.source@, first) == digits_end(self.source@, self.index as int),
            decreases self.chars.len() - self.index,
        {
            self.bump();
        }
    }

    fn consume_string(&mut self)
        requires
            old(self).wf(),
        ensures
            final(self).wf(),
            final(self).source == old(self).source,
            final(self).index == string_end(old(self).source@, old(self).index as int),
            final(self).index >= old(self).index,
    {
        let ghost first = self.index as int;
        while self.index < self.chars.len()
            invariant
                self.wf(),
                self.source == old(self).source,
                first == old(self).index,
                first <= self.index,
                string_end(self.source@, first) == string_end(self.source@, self.index as int),
            decreases self.chars.len() - self.index,
        {
            let c: char = self.chars[self.index];
            self.bump();
            if c == '"' {
                return ;
            }
        }
    }

    /// Reads an integer or floating-point literal.
    fn lex_number(&mut self) -> (r: TokenKind)
        requires
            old(self).wf(),
            old(self).index < old(self).source@.len(),
            is_digit(old(self).source@[old(self).index as int]),
        ensures
            final(self).wf(),
            final(self).source == old(self).source,
            token_at(old(self).source@, old(self).index as int) == Some(
                (r, final(self).index as int),
            ),
            final(self).index > old(self).index,
            r != TokenKind::Eof,
    {
        assert(digits_end(self.source@, self.index as int) == digits_end(
            self.source@,
            self.index + 1,
        ));
        let ghost s = self.source@;
        let ghost first = self.index as int;
        proof {
            lemma_digits_end(s, first + 1);
        }
        self.consume_digits();
        let i: usize = self.index;
        if i < self.chars.len() && self.chars[i] == '.' && self.chars.len() - i > 1
            && char_is_digit(self.chars[i + 1]) {
            self.bump();
            self.consume_digits();
            TokenKind::Float
        } else {
            TokenKind::Integer
        }
    }

    /// Reads the longest operator or punctuation mark, if there is one.
    fn lex_operator(&mut self) -> (r: Option<TokenKind>)
        requires
            old(self).wf(),
            old(self).index < old(self).source@.len(),
        ensures
            final(self).wf(),
            final(self).source == old(self).source,
            match r {
                Some(kind) => operator_at(old(self).source@, old(self).index as int) == Some(
                    (kind, final(self).index - old(self).index),
                ) && kind != TokenKind::Eof,
                None => operator_at(old(self).source@, old(self).index as int) is None
                    && final(self).index == old(self).index,
            },
    {
        let c: char = self.chars[self.index];
        let next: Option<char> = self.peek_at(1);
        let pair: Option<TokenKind> = match (c, next) {
            ('-', Some('>')) => Some(TokenKind::Arrow),
            ('=', Some('=')) => Some(TokenKind::EqualEqual),
            ('=', Some('>')) => Some(TokenKind::FatArrow),
            ('!', Some('=')) => Some(TokenKind::BangEqual),
            ('<', Some('=')) => Some(TokenKind::LessEqual),
            ('<', Some('<')) => Some(TokenKind::ShiftLeft),
            ('>', Some('=')) => Some(TokenKind::GreaterEqual),
            ('>', Some('>')) => Some(TokenKind::ShiftRight),
            ('&', Some('&')) => Some(TokenKind::AmpersandAmpersand),
            ('|', Some('|')) => Some(TokenKind::PipePipe),
            (':', Some(':')) => Some(TokenKind::DoubleColon),
            (':', Some('=')) => Some(TokenKind::ColonEqual),
            _ => None,
        };
        match (c, next, self.peek_at(2)) {
            ('.', Some('.'), Some('.')) => {
                self.bump();
                self.bump();
                self.bump();
                return Some(TokenKind::Ellipsis);
            },
            _ => {},
        }
        match pair {
            Some(kind) => {
                self.bump();
                self.bump();
                Some(kind)
            },
            None => {
                let single: Option<TokenKind> = single_character_token(c);
                if single.is_some() {
                    self.bump();
                }
                single
            },
        }
    }

    fn skip_whitespace_and_comments(&mut self) -> (r: Result<(), LexError>)
        requires
            old(self).wf(),
        ensures
            final(self).wf(),
            final(self).source == old(self).source,
            final(self).index >= old(self).index,
            match r {
                Ok(()) => token_start(old(self).source@, old(self).index as int) == Ok::<
                    int,
                    LexError,
                >(final(self).index as int),
                Err(error) => token_start(old(self).source@, old(self).index as int) == Err::<
                    int,
                    LexError,
                >(error) && final(self).index == final(self).source@.len(),
            },
    {
        let ghost first = self.index as int;
        while self.index < self.chars.len()
            invariant
                self.wf(),
                self.source == old(self).source,
                first <= self.index,
                token_start(self.source@, first) == token_start(self.source@, self.index as int),
                first == old(self).index,
            decreases self.chars.len() - self.index,
        {
            let c: char = self.chars[self.index];
            let next: Option<char> = self.peek_at(1);
            if char_is_space(c) {
                self.bump();
            } else if c == '/' && next == Some('/') {
                self.skip_line_comment();
            } else if c == '/' && next == Some('*') {
                match self.skip_block_comment() {
                    Ok(()) => {},
                    Err(error) => {
                        return Err(error);
                    },
                }
            } else {
                return Ok(());
            }
        }
        Ok(())
    }

    fn skip_line_comment(&mut self)
        requires
            old(self).wf(),
            old(self).index + 1 < old(self).source@.len(),
        ensures
            final(self).wf(),
            final(self).source == old(self).source,
            final(self).index == line_end(old(self).source@, old(self).index + 2),
            final(self).index > old(self).index,
    {
        self.bump();
        self.bump();
        let ghost first = self.index as int;
        while self.index < self.chars.len()
            invariant
                self.wf(),
                self.source == old(self).source,
                first <= self.index,
                first == old(self).index + 2,
                line_end(self.source@, first) == line_end(self.source@, self.index as int),
            decreases self.chars.len() - self.index,
        {
            let c: char = self.chars[self.index];
            self.bump();
            if c == '\n' {
                return ;
            }
        }
    }

    fn skip_block_comment(&mut self) -> (r: Result<(), LexError>)
        requires
            old(self).wf(),
            old(self).index + 1 < old(self).source@.len(),
        ensures
            final(self).wf(),
            final(self).source == old(self).source,
            final(self).index > old(self).index,
            match r {
                Ok(()) => block_end(old(self).source@, old(self).index + 2) == Some(
                    final(self).index as int,
                ),
                Err(error) => {
                    &&& block_end(old(self).source@, old(self).index + 2) is None
                    &&& final(self).index == final(self).source@.len()
                    &&& error == (LexError::UnterminatedBlockComment {
                        span: span_of(
                            old(self).source@,
                            old(self).index as int,
                            old(self).source@.len() as int,
                        ),
                    })
                },
            },
    {
        let start: usize = self.position;
        self.bump();
        self.bump();
        let ghost first = self.index as int;
        while self.index < self.chars.len()
            invariant
                self.wf(),
                self.source == old(self).source,
                first <= self.index,
                first == old(self).index + 2,
                block_end(self.source@, first) == block_end(self.source@, self.index as int),
            decreases self.chars.len() - self.index,
        {
            if self.chars[self.index] == '*' && self.peek_at(1) == Some('/') {
                self.bump();
                self.bump();
                return Ok(());
            }
            self.bump();
        }
        Err(LexError::UnterminatedBlockComment { span: Span::new(start, self.position) })
    }

    /// The character `ahead` places on, without consuming it.
    fn peek_at(&self, ahead: usize) -> (r: Option<char>)
        requires
            self.wf(),
        ensures
            r == (if self.index + ahead < self.source@.len() {
                Some(self.source@[self.index + ahead])
            } else {
                None
            }),
    {
        if ahead < self.chars.len() - self.index {
            Some(self.chars[self.index + ahead])
        } else {
            None
        }
    }

    /// Consumes one character.
    fn bump(&mut self)
        requires
            old(self).wf(),
            old(self).index < old(self).source@.len(),
        ensures
            final(self).wf(),
            final(self).source == old(self).source,
            final(self).index == old(self).index + 1,
    {
        proof {
            lemma_byte_offset_increases(
                self.source@,
                self.index + 1,
                self.source@.len() as int,
            );
        }
        let count: usize = self.chars.len();
        let width: usize = char_width(self.chars[self.index]);
        self.position = self.position + width;
        self.index = self.index + 1;
    }
}

fn single_character_token(c: char) -> (r: Option<TokenKind>)
    ensures
        r == mark(c),
        r != Some(TokenKind::Eof),
{
    match c {
        '+' => Some(TokenKind::Plus),
        '-' => Some(TokenKind::Minus),
        '*' => Some(TokenKind::Star),
        '/' => Some(TokenKind::Slash),
        '%' => Some(TokenKind::Percent),
        '=' => Some(TokenKind::Equal),
        '!' => Some(TokenKind::Bang),
        '#' => Some(TokenKind::Hash),
        '?' => Some(TokenKind::Question),
        '<' => Some(TokenKind::Less),
        '>' => Some(TokenKind::Greater),
        '&' => Some(TokenKind::Ampersand),
        '|' => Some(TokenKind::Pipe),
        '^' => Some(TokenKind::Caret),
        '~' => Some(TokenKind::Tilde),
        '.' => Some(TokenKind::Dot),
        ',' => Some(TokenKind::Comma),
        ';' => Some(TokenKind::Semicolon),
        ':' => Some(TokenKind::Colon),
        '(' => Some(TokenKind::LParen),
        ')' => Some(TokenKind::RParen),
        '[' => Some(TokenKind::LBracket),
        ']' => Some(TokenKind::RBracket),
        '{' => Some(TokenKind::LBrace),
        '}' => Some(TokenKind::RBrace),
        _ => None,
    }
}

/// What a step consumes lies within the text, and a token other than the end
/// marker is never empty.
pub proof fn lemma_step_advances(s: Seq<char>, i: int)
    requires
        0 <= i <= s.len(),
    ensures
        i <= lex_step(s, i).1 <= s.len(),
        lex_step(s, i).0 matches Ok(token) ==> (token.kind != TokenKind::Eof ==> i < lex_step(
            s,
            i,
        ).1),
{
    lemma_token_start(s, i);
    match token_start(s, i) {
        Err(_) => {},
        Ok(start) => {
            if start < s.len() {
                lemma_token_at(s, start);
            }
        },
    }
}

/// A token's text is the source text that its span points at, byte for byte,
/// and nothing of the text after a token is read for the one before.
pub proof fn lemma_token_text_is_source_text(s: Seq<char>, i: int)
    requires
        0 <= i <= s.len(),
        vstd::utf8::encode_utf8(s).len() <= usize::MAX,
    ensures
        lex_step(s, i).0 matches Ok(token) ==> {
            &&& token.span.start <= token.span.end <= vstd::utf8::encode_utf8(s).len()
            &&& vstd::utf8::encode_utf8(s).subrange(
                token.span.start as int,
                token.span.end as int,
            ) == vstd::utf8::encode_utf8(token.lexeme)
        },
{
    lemma_token_start(s, i);
    match token_start(s, i) {
        Err(_) => {},
        Ok(start) => {
            if start >= s.len() {
                lemma_bytes_between(s, start, start);
                assert(s.subrange(start, start) =~= Seq::empty());
            } else {
                lemma_token_at(s, start);
                match token_at(s, start) {
                    Some((_, end)) => {
                        lemma_bytes_between(s, start, end);
                    },
                    None => {},
                }
            }
        },
    }
}

proof fn lemma_line_end(s: Seq<char>, i: int)
    requires
        0 <= i <= s.len(),
    ensures
        i <= line_end(s, i) <= s.len(),
    decreases s.len() - i,
{
    if i < s.len() && s[i] != '\n' {
        lemma_line_end(s, i + 1);
    }
}

proof fn lemma_block_end(s: Seq<char>, i: int)
    requires
        0 <= i <= s.len(),
    ensures
        block_end(s, i) matches Some(end) ==> i <= end <= s.len(),
    decreases s.len() - i,
{
    if i < s.len() && !(s[i] == '*' && at(s, i + 1, '/')) {
        lemma_block_end(s, i + 1);
    }
}

pub proof fn lemma_token_start(s: Seq<char>, i: int)
    requires
        0 <= i <= s.len(),
    ensures
        token_start(s, i) matches Ok(start) ==> i <= start <= s.len(),
    decreases s.len() - i,
{
    if i < s.len() {
        if is_space(s[i]) {
            lemma_token_start(s, i + 1);
        } else if s[i] == '/' && at(s, i + 1, '/') {
            lemma_line_end(s, i + 2);
            lemma_token_start(s, line_end(s, i + 2));
        } else if s[i] == '/' && at(s, i + 1, '*') {
            lemma_block_end(s, i + 2);
            match block_end(s, i + 2) {
                Some(end) => {
                    lemma_token_start(s, end);
                },
                None => {},
            }
        }
    }
}

proof fn lemma_word_end(s: Seq<char>, i: int)
    requires
        0 <= i <= s.len(),
    ensures
        i <= word_end(s, i) <= s.len(),
    decreases s.len() - i,
{
    if i < s.len() && is_identifier_part(s[i]) {
        lemma_word_end(s, i + 1);
    }
}

proof fn lemma_string_end(s: Seq<char>, i: int)
    requires
        0 <= i <= s.len(),
    ensures
        i <= string_end(s, i) <= s.len(),
    decreases s.len() - i,
{
    if i < s.len() && s[i] != '"' {
        lemma_string_end(s, i + 1);
    }
}

pub proof fn lemma_token_at(s: Seq<char>, i: int)
    requires
        0 <= i < s.len(),
    ensures
        token_at(s, i) matches Some((kind, end)) ==> i < end <= s.len() && kind != TokenKind::Eof,
{
    lemma_word_end(s, i + 1);
    lemma_string_end(s, i + 1);
    if is_digit(s[i]) {
        lemma_digits_end(s, i + 1);
        let end = digits_end(s, i);
        assert(end == digits_end(s, i + 1));
        if end + 1 < s.len() {
            lemma_digits_end(s, end + 1);
        }
    }
}

proof fn lemma_keyword_is_no_end(text: Seq<char>)
    ensures
        keyword(text) != Some(TokenKind::Eof),
{
}

proof fn lemma_digits_end(s: Seq<char>, i: int)
    requires
        0 <= i <= s.len(),
    ensures
        i <= digits_end(s, i) <= s.len(),
    decreases s.len() - i,
{
    if i < s.len() && (is_digit(s[i]) || s[i] == '_') {
        lemma_digits_end(s, i + 1);
    }
}

} // verus!
