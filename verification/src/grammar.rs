//! The grammar: which syntax tree, or which error, a list of tokens stands for.
//!
//! Each function reads from token `p` on and gives the tree with the place
//! just after its last token.
use crate::ast::{
    BinaryOp, BlockView, DeclView, ExprView, FunctionDeclView, GenericParamView, ImportDeclView,
    ParameterView, ProgramView, StmtView, StructDeclView, StructFieldView, StructInitView, TypeView,
    UnaryOp, VariableDeclView, VariableKind,
};
use crate::lexer::{Span, TokenKind, TokenView};
use crate::names::spelled;
use crate::parser::ParseErrorView;
use crate::text::{find_from, is_float_text, signed_value, trimmed, unsigned_value, without};
use vstd::prelude::*;

verus! {

pub type Parsed<T> = Result<(T, int), ParseErrorView>;

/// Whether token `p` is of the kind.
pub open spec fn at(ts: Seq<TokenView>, p: int, kind: TokenKind) -> bool {
    0 <= p < ts.len() && ts[p].kind == kind
}

/// Whether `q` lies after `p`, within the tokens.
pub open spec fn onward(ts: Seq<TokenView>, p: int, q: int) -> bool {
    p < q <= ts.len()
}

/// What is reported where something named `what` was looked for at `p`.
pub open spec fn expected(ts: Seq<TokenView>, p: int, what: Seq<char>) -> ParseErrorView {
    if ts[p].kind == TokenKind::Eof {
        ParseErrorView::UnexpectedEof { expected: what, span: ts[p].span }
    } else {
        ParseErrorView::UnexpectedToken { expected: what, found: ts[p].kind, span: ts[p].span }
    }
}

/// One token of the kind.
pub open spec fn token_of(ts: Seq<TokenView>, p: int, kind: TokenKind) -> Parsed<TokenView> {
    if at(ts, p, kind) {
        Ok((ts[p], p + 1))
    } else {
        Err(expected(ts, p, kind.name()))
    }
}

/// An identifier.
pub open spec fn identifier(ts: Seq<TokenView>, p: int) -> Parsed<TokenView> {
    if at(ts, p, TokenKind::Identifier) {
        Ok((ts[p], p + 1))
    } else {
        Err(expected(ts, p, "identifier"@))
    }
}

/// The number that a length stands for: digits, `_` between them ignored.
pub open spec fn length_of(token: TokenView) -> Result<u64, ParseErrorView> {
    match unsigned_value(without(token.lexeme, '_')) {
        Some(n) => if n <= u64::MAX {
            Ok(n as u64)
        } else {
            Err(ParseErrorView::InvalidInteger { lexeme: token.lexeme, span: token.span })
        },
        None => Err(ParseErrorView::InvalidInteger { lexeme: token.lexeme, span: token.span }),
    }
}

// ---------------------------------------------------------------------------
// Types
// ---------------------------------------------------------------------------

/// `atom | type`, or an atom alone. The bar associates to the right.
pub open spec fn type_at(ts: Seq<TokenView>, p: int) -> Parsed<TypeView>
    decreases ts.len() - p, 1int,
{
    match type_atom(ts, p) {
        Err(error) => Err(error),
        Ok((ty, q)) => if at(ts, q, TokenKind::Pipe) && p <= q {
            match type_at(ts, q + 1) {
                Err(error) => Err(error),
                Ok((error, r)) => Ok(
                    (TypeView::Result { success: Box::new(ty), error: Box::new(error) }, r),
                ),
            }
        } else {
            Ok((ty, q))
        },
    }
}

/// `*atom`, `[]atom`, `[length]atom`, `name`, `module.name`, and a name with
/// type arguments in parentheses.
pub open spec fn type_atom(ts: Seq<TokenView>, p: int) -> Parsed<TypeView>
    decreases ts.len() - p, 0int,
{
    if at(ts, p, TokenKind::Star) {
        match type_atom(ts, p + 1) {
            Err(error) => Err(error),
            Ok((ty, q)) => Ok((TypeView::Pointer(Box::new(ty)), q)),
        }
    } else if at(ts, p, TokenKind::LBracket) {
        if at(ts, p + 1, TokenKind::RBracket) {
            match type_atom(ts, p + 2) {
                Err(error) => Err(error),
                Ok((ty, q)) => Ok((TypeView::Slice(Box::new(ty)), q)),
            }
        } else {
            match token_of(ts, p + 1, TokenKind::Integer) {
                Err(error) => Err(error),
                Ok((token, _)) => match length_of(token) {
                    Err(error) => Err(error),
                    Ok(length) => match token_of(ts, p + 2, TokenKind::RBracket) {
                        Err(error) => Err(error),
                        Ok(_) => match type_atom(ts, p + 3) {
                            Err(error) => Err(error),
                            Ok((ty, q)) => Ok(
                                (TypeView::Array { length, element: Box::new(ty) }, q),
                            ),
                        },
                    },
                },
            }
        }
    } else {
        match qualified_name(ts, p) {
            Err(error) => Err(error),
            Ok((name, q)) => if at(ts, q, TokenKind::LParen) && p <= q {
                match type_arguments(ts, q + 1, name) {
                    Err(error) => Err(error),
                    Ok((full, r)) => Ok((TypeView::Named(full), r)),
                }
            } else {
                Ok((TypeView::Named(name), q))
            },
        }
    }
}

/// `name` or `module.name`.
pub open spec fn qualified_name(ts: Seq<TokenView>, p: int) -> Parsed<Seq<char>> {
    match identifier(ts, p) {
        Err(error) => Err(error),
        Ok((first, q)) => if at(ts, q, TokenKind::Dot) {
            match identifier(ts, q + 1) {
                Err(error) => Err(error),
                Ok((second, r)) => Ok((first.lexeme + "."@ + second.lexeme, r)),
            }
        } else {
            Ok((first.lexeme, q))
        },
    }
}

/// The type arguments up to the closing parenthesis, each added to the name.
pub open spec fn type_arguments(ts: Seq<TokenView>, p: int, name: Seq<char>) -> Parsed<Seq<char>>
    decreases ts.len() - p, 2int,
{
    match type_at(ts, p) {
        Err(error) => Err(error),
        Ok((ty, q)) => {
            let longer = name + "__"@ + spelled(ty);
            if at(ts, q, TokenKind::Comma) && onward(ts, p, q) {
                type_arguments(ts, q + 1, longer)
            } else {
                match token_of(ts, q, TokenKind::RParen) {
                    Err(error) => Err(error),
                    Ok((_, r)) => Ok((longer, r)),
                }
            }
        },
    }
}

/// Where the simple type at `p` ends, if one stands there.
pub open spec fn simple_type_end(ts: Seq<TokenView>, p: int) -> Option<int>
    decreases ts.len() - p,
{
    if at(ts, p, TokenKind::Identifier) {
        Some(p + 1)
    } else if at(ts, p, TokenKind::Star) || at(ts, p, TokenKind::Pipe) {
        simple_type_end(ts, p + 1)
    } else if at(ts, p, TokenKind::LBracket) && at(ts, p + 1, TokenKind::RBracket) {
        simple_type_end(ts, p + 2)
    } else if at(ts, p, TokenKind::LBracket) && at(ts, p + 1, TokenKind::Integer) && at(
        ts,
        p + 2,
        TokenKind::RBracket,
    ) {
        simple_type_end(ts, p + 3)
    } else {
        None
    }
}

/// Whether a type and an equals sign stand at `p`.
pub open spec fn is_typed_declaration(ts: Seq<TokenView>, p: int) -> bool {
    match simple_type_end(ts, p) {
        Some(q) => at(ts, q, TokenKind::Equal),
        None => false,
    }
}

// ---------------------------------------------------------------------------
// Expressions
// ---------------------------------------------------------------------------

pub open spec fn binary_operator(kind: TokenKind) -> Option<BinaryOp> {
    match kind {
        TokenKind::Plus => Some(BinaryOp::Add),
        TokenKind::Minus => Some(BinaryOp::Subtract),
        TokenKind::Star => Some(BinaryOp::Multiply),
        TokenKind::Slash => Some(BinaryOp::Divide),
        TokenKind::Percent => Some(BinaryOp::Modulo),
        TokenKind::EqualEqual => Some(BinaryOp::Equal),
        TokenKind::BangEqual => Some(BinaryOp::NotEqual),
        TokenKind::Less => Some(BinaryOp::Less),
        TokenKind::LessEqual => Some(BinaryOp::LessEqual),
        TokenKind::Greater => Some(BinaryOp::Greater),
        TokenKind::GreaterEqual => Some(BinaryOp::GreaterEqual),
        TokenKind::ShiftLeft => Some(BinaryOp::ShiftLeft),
        TokenKind::ShiftRight => Some(BinaryOp::ShiftRight),
        TokenKind::AmpersandAmpersand => Some(BinaryOp::LogicalAnd),
        TokenKind::PipePipe => Some(BinaryOp::LogicalOr),
        TokenKind::Ampersand => Some(BinaryOp::BitwiseAnd),
        TokenKind::Pipe => Some(BinaryOp::BitwiseOr),
        TokenKind::Caret => Some(BinaryOp::BitwiseXor),
        _ => None,
    }
}

pub open spec fn unary_operator(kind: TokenKind) -> Option<UnaryOp> {
    match kind {
        TokenKind::Minus => Some(UnaryOp::Negate),
        TokenKind::Bang => Some(UnaryOp::Not),
        TokenKind::Tilde => Some(UnaryOp::BitwiseNot),
        TokenKind::Ampersand => Some(UnaryOp::AddressOf),
        TokenKind::Star => Some(UnaryOp::Dereference),
        _ => None,
    }
}

/// How tightly an operator binds: the higher, the tighter.
pub open spec fn precedence(operator: BinaryOp) -> int {
    match operator {
        BinaryOp::LogicalOr => 1,
        BinaryOp::LogicalAnd => 2,
        BinaryOp::BitwiseOr => 3,
        BinaryOp::BitwiseXor => 4,
        BinaryOp::BitwiseAnd => 5,
        BinaryOp::Equal => 6,
        BinaryOp::NotEqual => 6,
        BinaryOp::Less => 7,
        BinaryOp::LessEqual => 7,
        BinaryOp::Greater => 7,
        BinaryOp::GreaterEqual => 7,
        BinaryOp::ShiftLeft => 8,
        BinaryOp::ShiftRight => 8,
        BinaryOp::Add => 9,
        BinaryOp::Subtract => 9,
        BinaryOp::Multiply => 10,
        BinaryOp::Divide => 10,
        BinaryOp::Modulo => 10,
    }
}

/// An expression.
pub open spec fn expression(ts: Seq<TokenView>, p: int) -> Parsed<ExprView>
    decreases ts.len() - p, 6int,
{
    binary(ts, p, 0)
}

/// Operands joined by operators that bind at least as tightly as `minimum`.
pub open spec fn binary(ts: Seq<TokenView>, p: int, minimum: int) -> Parsed<ExprView>
    decreases ts.len() - p, 5int,
{
    match unary(ts, p) {
        Err(error) => Err(error),
        Ok((left, q)) => if onward(ts, p, q) {
            binary_rest(ts, q, left, minimum)
        } else {
            Err(arbitrary())
        },
    }
}

/// What follows `left`: operators of one level associate to the left.
pub open spec fn binary_rest(
    ts: Seq<TokenView>,
    q: int,
    left: ExprView,
    minimum: int,
) -> Parsed<ExprView>
    decreases ts.len() - q, 4int,
{
    if !(0 <= q < ts.len()) {
        Ok((left, q))
    } else {
        match binary_operator(ts[q].kind) {
            None => Ok((left, q)),
            Some(operator) => if precedence(operator) < minimum {
                Ok((left, q))
            } else {
                match binary(ts, q + 1, precedence(operator) + 1) {
                    Err(error) => Err(error),
                    Ok((right, r)) => if onward(ts, q, r) {
                        binary_rest(
                            ts,
                            r,
                            ExprView::Binary {
                                left: Box::new(left),
                                operator,
                                right: Box::new(right),
                                span: Span { start: left.span().start, end: right.span().end },
                            },
                            minimum,
                        )
                    } else {
                        Err(arbitrary())
                    },
                }
            },
        }
    }
}

/// Prefix operators before a postfix expression.
pub open spec fn unary(ts: Seq<TokenView>, p: int) -> Parsed<ExprView>
    decreases ts.len() - p, 3int,
{
    if !(0 <= p < ts.len()) {
        Err(arbitrary())
    } else {
        match unary_operator(ts[p].kind) {
            None => postfix(ts, p),
            Some(operator) => match unary(ts, p + 1) {
                Err(error) => Err(error),
                Ok((operand, q)) => Ok(
                    (
                        ExprView::Unary {
                            operator,
                            operand: Box::new(operand),
                            span: Span { start: ts[p].span.start, end: operand.span().end },
                        },
                        q,
                    ),
                ),
            },
        }
    }
}

/// A primary expression with fields, indices, calls and `?` after it.
pub open spec fn postfix(ts: Seq<TokenView>, p: int) -> Parsed<ExprView>
    decreases ts.len() - p, 2int,
{
    match primary(ts, p) {
        Err(error) => Err(error),
        Ok((expression, q)) => if onward(ts, p, q) {
            postfix_rest(ts, q, expression)
        } else {
            Err(arbitrary())
        },
    }
}

/// Whether the expression is the plain name.
pub open spec fn is_name(expression: ExprView, name: Seq<char>) -> bool {
    expression matches ExprView::Identifier { name: found, .. } && found == name
}

pub open spec fn postfix_rest(ts: Seq<TokenView>, q: int, base: ExprView) -> Parsed<ExprView>
    decreases ts.len() - q, 1int,
{
    let start = base.span().start;
    if at(ts, q, TokenKind::Dot) {
        match identifier(ts, q + 1) {
            Err(error) => Err(error),
            Ok((field, r)) => postfix_rest(
                ts,
                r,
                ExprView::Field {
                    base: Box::new(base),
                    name: field.lexeme,
                    span: Span { start, end: field.span.end },
                },
            ),
        }
    } else if at(ts, q, TokenKind::LBracket) {
        match expression(ts, q + 1) {
            Err(error) => Err(error),
            Ok((index, r)) => match token_of(ts, r, TokenKind::RBracket) {
                Err(error) => Err(error),
                Ok((closing, u)) => if onward(ts, q, u) {
                    postfix_rest(
                        ts,
                        u,
                        ExprView::Index {
                            base: Box::new(base),
                            index: Box::new(index),
                            span: Span { start, end: closing.span.end },
                        },
                    )
                } else {
                    Err(arbitrary())
                },
            },
        }
    } else if at(ts, q, TokenKind::Question) {
        postfix_rest(
            ts,
            q + 1,
            ExprView::Propagate {
                expression: Box::new(base),
                span: Span { start, end: ts[q].span.end },
            },
        )
    } else if at(ts, q, TokenKind::LParen) {
        match call_at(ts, q, base) {
            Err(error) => Err(error),
            Ok((call, r)) => if onward(ts, q, r) {
                postfix_rest(ts, r, call)
            } else {
                Err(arbitrary())
            },
        }
    } else {
        Ok((base, q))
    }
}

/// A call of `base`: the parenthesis stands at `q`. The layout queries take a
/// type in place of arguments.
pub open spec fn call_at(ts: Seq<TokenView>, q: int, base: ExprView) -> Parsed<ExprView>
    decreases ts.len() - q, 0int,
{
    let start = base.span().start;
    if !at(ts, q, TokenKind::LParen) {
        Err(arbitrary())
    } else if is_name(base, "size_of"@) || is_name(base, "align_of"@) {
        match type_at(ts, q + 1) {
            Err(error) => Err(error),
            Ok((ty, r)) => match token_of(ts, r, TokenKind::RParen) {
                Err(error) => Err(error),
                Ok((closing, u)) => {
                    let span = Span { start, end: closing.span.end };
                    if is_name(base, "size_of"@) {
                        Ok((ExprView::SizeOf { ty, span }, u))
                    } else {
                        Ok((ExprView::AlignOf { ty, span }, u))
                    }
                },
            },
        }
    } else if is_name(base, "offset_of"@) {
        match type_at(ts, q + 1) {
            Err(error) => Err(error),
            Ok((ty, r)) => match token_of(ts, r, TokenKind::Comma) {
                Err(error) => Err(error),
                Ok((_, u)) => match identifier(ts, u) {
                    Err(error) => Err(error),
                    Ok((field, v)) => match token_of(ts, v, TokenKind::RParen) {
                        Err(error) => Err(error),
                        Ok((closing, w)) => Ok(
                            (
                                ExprView::OffsetOf {
                                    ty,
                                    field: field.lexeme,
                                    span: Span { start, end: closing.span.end },
                                },
                                w,
                            ),
                        ),
                    },
                },
            },
        }
    } else {
        match (if at(ts, q + 1, TokenKind::RParen) {
            Ok((Seq::<ExprView>::empty(), q + 1))
        } else {
            arguments(ts, q + 1, Seq::empty())
        }) {
            Err(error) => Err(error),
            Ok((found, r)) => match token_of(ts, r, TokenKind::RParen) {
                Err(error) => Err(error),
                Ok((closing, u)) => {
                    let span = Span { start, end: closing.span.end };
                    if is_name(base, "unchecked_index"@) {
                        if found.len() != 2 {
                            Err(
                                ParseErrorView::UnexpectedToken {
                                    expected: "two arguments"@,
                                    found: TokenKind::RParen,
                                    span: closing.span,
                                },
                            )
                        } else {
                            Ok(
                                (
                                    ExprView::UncheckedIndex {
                                        base: Box::new(found[0]),
                                        index: Box::new(found[1]),
                                        span,
                                    },
                                    u,
                                ),
                            )
                        }
                    } else {
                        Ok(
                            (
                                ExprView::Call { callee: Box::new(base), arguments: found, span },
                                u,
                            ),
                        )
                    }
                },
            },
        }
    }
}

/// Expressions with commas between them; a comma may stand before the `)`.
pub open spec fn arguments(
    ts: Seq<TokenView>,
    p: int,
    before: Seq<ExprView>,
) -> Parsed<Seq<ExprView>>
    decreases ts.len() - p, 7int,
{
    match expression(ts, p) {
        Err(error) => Err(error),
        Ok((argument, q)) => {
            let found = before.push(argument);
            if at(ts, q, TokenKind::Comma) && onward(ts, p, q) {
                if at(ts, q + 1, TokenKind::RParen) {
                    Ok((found, q + 1))
                } else {
                    arguments(ts, q + 1, found)
                }
            } else {
                Ok((found, q))
            }
        },
    }
}

/// The fields of a struct literal, up to its closing brace.
pub open spec fn field_values(
    ts: Seq<TokenView>,
    p: int,
    before: Seq<StructInitView>,
) -> Parsed<Seq<StructInitView>>
    decreases ts.len() - p, 7int,
{
    if at(ts, p, TokenKind::RBrace) || at(ts, p, TokenKind::Eof) {
        Ok((before, p))
    } else {
        match identifier(ts, p) {
            Err(error) => Err(error),
            Ok((field, q)) => match token_of(ts, q, TokenKind::Equal) {
                Err(error) => Err(error),
                Ok((_, r)) => match expression(ts, r) {
                    Err(error) => Err(error),
                    Ok((value, u)) => {
                        let found = before.push(
                            StructInitView {
                                name: field.lexeme,
                                value,
                                span: Span { start: field.span.start, end: value.span().end },
                            },
                        );
                        if !onward(ts, p, u) {
                            Err(arbitrary())
                        } else if at(ts, u, TokenKind::Comma) || at(ts, u, TokenKind::Semicolon) {
                            field_values(ts, u + 1, found)
                        } else if at(ts, u, TokenKind::RBrace) {
                            Ok((found, u))
                        } else {
                            Err(
                                ParseErrorView::UnexpectedToken {
                                    expected: "field separator"@,
                                    found: ts[u].kind,
                                    span: ts[u].span,
                                },
                            )
                        }
                    },
                },
            },
        }
    }
}

/// The elements of an array literal, its closing brace and where that stands.
pub open spec fn elements(
    ts: Seq<TokenView>,
    p: int,
    before: Seq<ExprView>,
) -> Parsed<(Seq<ExprView>, TokenView)>
    decreases ts.len() - p, 7int,
{
    if at(ts, p, TokenKind::RBrace) || at(ts, p, TokenKind::Eof) {
        match token_of(ts, p, TokenKind::RBrace) {
            Err(error) => Err(error),
            Ok((closing, q)) => Ok(((before, closing), q)),
        }
    } else {
        match expression(ts, p) {
            Err(error) => Err(error),
            Ok((element, q)) => {
                let found = before.push(element);
                if at(ts, q, TokenKind::Comma) && onward(ts, p, q) {
                    elements(ts, q + 1, found)
                } else {
                    match token_of(ts, q, TokenKind::RBrace) {
                        Err(error) => Err(error),
                        Ok((closing, r)) => Ok(((found, closing), r)),
                    }
                }
            },
        }
    }
}

/// The part of a name between its first dot and the next.
pub open spec fn after_first_dot(name: Seq<char>) -> Seq<char> {
    let first = find_from(name, 0, '.');
    name.subrange(first + 1, find_from(name, first + 1, '.'))
}

/// Whether the brace at `q` opens a struct literal.
pub open spec fn opens_literal(ts: Seq<TokenView>, q: int) -> bool {
    &&& at(ts, q, TokenKind::LBrace)
    &&& at(ts, q + 1, TokenKind::RBrace) || (at(ts, q + 1, TokenKind::Identifier) && at(
        ts,
        q + 2,
        TokenKind::Equal,
    ))
}

/// A literal, a name, a struct or array literal, an expression in parentheses,
/// or an expression to evaluate while compiling.
pub open spec fn primary(ts: Seq<TokenView>, p: int) -> Parsed<ExprView>
    decreases ts.len() - p, 1int,
{
    let token = ts[p];
    let span = token.span;
    if !(0 <= p < ts.len()) {
        Err(arbitrary())
    } else {
        match token.kind {
            TokenKind::Hash => match unary(ts, p + 1) {
                Err(error) => Err(error),
                Ok((expression, q)) => Ok(
                    (
                        ExprView::Comptime {
                            expression: Box::new(expression),
                            span: Span { start: span.start, end: expression.span().end },
                        },
                        q,
                    ),
                ),
            },
            TokenKind::Integer => match signed_value(without(token.lexeme, '_')) {
                Some(n) => if i128::MIN <= n <= i128::MAX {
                    Ok((ExprView::Integer { value: n as i128, span }, p + 1))
                } else {
                    Err(ParseErrorView::InvalidInteger { lexeme: token.lexeme, span })
                },
                None => Err(ParseErrorView::InvalidInteger { lexeme: token.lexeme, span }),
            },
            TokenKind::Float => if is_float_text(without(token.lexeme, '_')) {
                Ok((ExprView::Float { value: without(token.lexeme, '_'), span }, p + 1))
            } else {
                Err(ParseErrorView::InvalidFloat { lexeme: token.lexeme, span })
            },
            TokenKind::String => Ok(
                (ExprView::String { value: trimmed(token.lexeme, '"'), span }, p + 1),
            ),
            TokenKind::True => Ok((ExprView::Bool { value: true, span }, p + 1)),
            TokenKind::False => Ok((ExprView::Bool { value: false, span }, p + 1)),
            TokenKind::Null => Ok((ExprView::Null { span }, p + 1)),
            TokenKind::Identifier => named(ts, p),
            TokenKind::LBracket => match token_of(ts, p + 1, TokenKind::Integer) {
                Err(error) => Err(error),
                Ok((count, _)) => match length_of(count) {
                    Err(error) => Err(error),
                    Ok(length) => match token_of(ts, p + 2, TokenKind::RBracket) {
                        Err(error) => Err(error),
                        Ok(_) => match type_at(ts, p + 3) {
                            Err(error) => Err(error),
                            Ok((element, q)) => match token_of(ts, q, TokenKind::LBrace) {
                                Err(error) => Err(error),
                                Ok((_, r)) => if !onward(ts, p, r) {
                                    Err(arbitrary())
                                } else {
                                    match elements(ts, r, Seq::empty()) {
                                        Err(error) => Err(error),
                                        Ok(((found, closing), u)) => Ok(
                                            (
                                                ExprView::ArrayLiteral {
                                                    ty: TypeView::Array {
                                                        length,
                                                        element: Box::new(element),
                                                    },
                                                    elements: found,
                                                    span: Span {
                                                        start: (count.span.start - 1) as usize,
                                                        end: closing.span.end,
                                                    },
                                                },
                                                u,
                                            ),
                                        ),
                                    }
                                },
                            },
                        },
                    },
                },
            },
            TokenKind::LParen => match expression(ts, p + 1) {
                Err(error) => Err(error),
                Ok((inner, q)) => match token_of(ts, q, TokenKind::RParen) {
                    Err(error) => Err(error),
                    Ok((_, r)) => Ok((inner, r)),
                },
            },
            kind => Err(
                ParseErrorView::UnexpectedToken { expected: "expression"@, found: kind, span },
            ),
        }
    }
}

/// A name, a qualified name, or a struct literal of either.
pub open spec fn named(ts: Seq<TokenView>, p: int) -> Parsed<ExprView>
    decreases ts.len() - p, 0int,
{
    let token = ts[p];
    match qualified_name(ts, p) {
        Err(error) => Err(error),
        Ok((name, q)) => if !onward(ts, p, q) {
            Err(arbitrary())
        } else if opens_literal(ts, q) {
            match field_values(ts, q + 1, Seq::empty()) {
                Err(error) => Err(error),
                Ok((fields, r)) => match token_of(ts, r, TokenKind::RBrace) {
                    Err(error) => Err(error),
                    Ok((closing, u)) => Ok(
                        (
                            ExprView::StructLiteral {
                                name,
                                fields,
                                span: Span { start: token.span.start, end: closing.span.end },
                            },
                            u,
                        ),
                    ),
                },
            }
        } else if q == p + 1 {
            Ok((ExprView::Identifier { name: token.lexeme, span: token.span }, q))
        } else {
            Ok(
                (
                    ExprView::Field {
                        base: Box::new(
                            ExprView::Identifier { name: token.lexeme, span: token.span },
                        ),
                        name: after_first_dot(name),
                        span: Span { start: token.span.start, end: ts[q - 1].span.end },
                    },
                    q,
                ),
            )
        },
    }
}

/// Whether an expression names a place that can be assigned to.
pub open spec fn assignable(expression: ExprView) -> bool {
    match expression {
        ExprView::Identifier { .. } => true,
        ExprView::Field { .. } => true,
        ExprView::Index { .. } => true,
        ExprView::UncheckedIndex { .. } => true,
        ExprView::Unary { operator, .. } => operator == UnaryOp::Dereference,
        _ => false,
    }
}

// ---------------------------------------------------------------------------
// Statements
// ---------------------------------------------------------------------------

/// Statements in braces.
pub open spec fn block(ts: Seq<TokenView>, p: int) -> Parsed<BlockView>
    decreases ts.len() - p, 8int,
{
    if at(ts, p, TokenKind::LBrace) {
        match statements(ts, p + 1, Seq::empty()) {
            Err(error) => Err(error),
            Ok((found, q)) => match token_of(ts, q, TokenKind::RBrace) {
                Err(error) => Err(error),
                Ok((closing, r)) => Ok(
                    (
                        BlockView {
                            statements: found,
                            span: Span { start: ts[p].span.start, end: closing.span.end },
                        },
                        r,
                    ),
                ),
            },
        }
    } else {
        Err(expected(ts, p, TokenKind::LBrace.name()))
    }
}

pub open spec fn statements(
    ts: Seq<TokenView>,
    p: int,
    before: Seq<StmtView>,
) -> Parsed<Seq<StmtView>>
    decreases ts.len() - p, 10int,
{
    if at(ts, p, TokenKind::RBrace) || at(ts, p, TokenKind::Eof) {
        Ok((before, p))
    } else {
        match statement(ts, p) {
            Err(error) => Err(error),
            Ok((found, q)) => if onward(ts, p, q) {
                statements(ts, q, before.push(found))
            } else {
                Err(arbitrary())
            },
        }
    }
}

/// Whether a declaration of a local variable starts at `p`.
pub open spec fn starts_variable(ts: Seq<TokenView>, p: int) -> bool {
    ||| at(ts, p, TokenKind::Let)
    ||| at(ts, p, TokenKind::Var)
    ||| at(ts, p, TokenKind::Identifier) && (at(ts, p + 1, TokenKind::ColonEqual) || at(
        ts,
        p + 1,
        TokenKind::Colon,
    ) || at(ts, p + 1, TokenKind::DoubleColon))
}

pub open spec fn statement(ts: Seq<TokenView>, p: int) -> Parsed<StmtView>
    decreases ts.len() - p, 9int,
{
    if at(ts, p, TokenKind::Return) {
        return_statement(ts, p)
    } else if at(ts, p, TokenKind::If) {
        if_statement(ts, p)
    } else if at(ts, p, TokenKind::While) {
        while_statement(ts, p)
    } else if at(ts, p, TokenKind::Break) || at(ts, p, TokenKind::Continue) {
        match token_of(ts, p + 1, TokenKind::Semicolon) {
            Err(error) => Err(error),
            Ok((semicolon, q)) => {
                let span = Span { start: ts[p].span.start, end: semicolon.span.end };
                if at(ts, p, TokenKind::Break) {
                    Ok((StmtView::Break { span }, q))
                } else {
                    Ok((StmtView::Continue { span }, q))
                }
            },
        }
    } else if at(ts, p, TokenKind::Defer) {
        match expression(ts, p + 1) {
            Err(error) => Err(error),
            Ok((call, q)) => if !(call is Call) {
                Err(
                    ParseErrorView::UnexpectedToken {
                        expected: "deferred function call"@,
                        found: ts[q].kind,
                        span: call.span(),
                    },
                )
            } else {
                match token_of(ts, q, TokenKind::Semicolon) {
                    Err(error) => Err(error),
                    Ok((semicolon, r)) => Ok(
                        (
                            StmtView::Defer {
                                call,
                                span: Span { start: ts[p].span.start, end: semicolon.span.end },
                            },
                            r,
                        ),
                    ),
                }
            },
        }
    } else if starts_variable(ts, p) {
        variable_statement(ts, p)
    } else {
        match expression(ts, p) {
            Err(error) => Err(error),
            Ok((target, q)) => if at(ts, q, TokenKind::Equal) && onward(ts, p, q) {
                match expression(ts, q + 1) {
                    Err(error) => Err(error),
                    Ok((value, r)) => if !assignable(target) {
                        Err(ParseErrorView::InvalidAssignmentTarget { span: target.span() })
                    } else {
                        match token_of(ts, r, TokenKind::Semicolon) {
                            Err(error) => Err(error),
                            Ok((_, u)) => Ok(
                                (
                                    StmtView::Assignment {
                                        target,
                                        value,
                                        span: Span {
                                            start: target.span().start,
                                            end: value.span().end,
                                        },
                                    },
                                    u,
                                ),
                            ),
                        }
                    },
                }
            } else {
                match token_of(ts, q, TokenKind::Semicolon) {
                    Err(error) => Err(error),
                    Ok((_, r)) => Ok(
                        (StmtView::Expr { expression: target, span: target.span() }, r),
                    ),
                }
            },
        }
    }
}

/// `return;` or `return value;`, with the keyword at `p`.
pub open spec fn return_statement(ts: Seq<TokenView>, p: int) -> Parsed<StmtView>
    decreases ts.len() - p, 8int,
{
    let start = ts[p].span.start;
    if at(ts, p + 1, TokenKind::Semicolon) {
        Ok(
            (
                StmtView::Return {
                    value: None,
                    span: Span { start, end: ts[p + 1].span.end },
                },
                p + 2,
            ),
        )
    } else {
        match expression(ts, p + 1) {
            Err(error) => Err(error),
            Ok((value, q)) => match token_of(ts, q, TokenKind::Semicolon) {
                Err(error) => Err(error),
                Ok((_, r)) => Ok(
                    (
                        StmtView::Return {
                            value: Some(value),
                            span: Span { start, end: value.span().end },
                        },
                        r,
                    ),
                ),
            },
        }
    }
}

/// `if condition { .. }`, with or without `else { .. }`.
pub open spec fn if_statement(ts: Seq<TokenView>, p: int) -> Parsed<StmtView>
    decreases ts.len() - p, 8int,
{
    let start = ts[p].span.start;
    match expression(ts, p + 1) {
        Err(error) => Err(error),
        Ok((condition, q)) => if !onward(ts, p, q) {
            Err(arbitrary())
        } else {
            match block(ts, q) {
                Err(error) => Err(error),
                Ok((then_branch, r)) => if at(ts, r, TokenKind::Else) && onward(ts, p, r) {
                    match block(ts, r + 1) {
                        Err(error) => Err(error),
                        Ok((branch, u)) => Ok(
                            (
                                StmtView::If {
                                    condition,
                                    then_branch,
                                    else_branch: Some(branch),
                                    span: Span { start, end: branch.span.end },
                                },
                                u,
                            ),
                        ),
                    }
                } else {
                    Ok(
                        (
                            StmtView::If {
                                condition,
                                then_branch,
                                else_branch: None,
                                span: Span { start, end: then_branch.span.end },
                            },
                            r,
                        ),
                    )
                },
            }
        },
    }
}

/// `while condition { .. }`.
pub open spec fn while_statement(ts: Seq<TokenView>, p: int) -> Parsed<StmtView>
    decreases ts.len() - p, 8int,
{
    match expression(ts, p + 1) {
        Err(error) => Err(error),
        Ok((condition, q)) => if !onward(ts, p, q) {
            Err(arbitrary())
        } else {
            match block(ts, q) {
                Err(error) => Err(error),
                Ok((body, r)) => Ok(
                    (
                        StmtView::While {
                            condition,
                            body,
                            span: Span { start: ts[p].span.start, end: body.span.end },
                        },
                        r,
                    ),
                ),
            }
        },
    }
}

/// What the part of a local declaration before its value says.
pub ghost struct VariableHead {
    pub name: TokenView,
    pub kind: VariableKind,
    pub ty: Option<TypeView>,
    pub needs_equal: bool,
}

/// A type that is there only where `present` says so.
pub open spec fn optional_type(
    ts: Seq<TokenView>,
    p: int,
    present: bool,
) -> Parsed<Option<TypeView>> {
    if present {
        match type_at(ts, p) {
            Err(error) => Err(error),
            Ok((ty, q)) => Ok((Some(ty), q)),
        }
    } else {
        Ok((None, p))
    }
}

/// A type after a colon, or nothing.
pub open spec fn type_after_colon(ts: Seq<TokenView>, p: int) -> Parsed<Option<TypeView>> {
    if at(ts, p, TokenKind::Colon) {
        optional_type(ts, p + 1, true)
    } else {
        Ok((None, p))
    }
}

pub open spec fn variable_head(ts: Seq<TokenView>, p: int) -> Parsed<VariableHead> {
    if at(ts, p, TokenKind::Let) || at(ts, p, TokenKind::Var) {
        match identifier(ts, p + 1) {
            Err(error) => Err(error),
            Ok((name, q)) => match type_after_colon(ts, q) {
                Err(error) => Err(error),
                Ok((ty, r)) => {
                    let kind = if at(ts, p, TokenKind::Let) {
                        VariableKind::Immutable
                    } else if ty is Some {
                        VariableKind::MutableTyped
                    } else {
                        VariableKind::MutableInferred
                    };
                    Ok((VariableHead { name, kind, ty, needs_equal: true }, r))
                },
            },
        }
    } else {
        let name = ts[p];
        if at(ts, p + 1, TokenKind::ColonEqual) {
            Ok(
                (
                    VariableHead {
                        name,
                        kind: VariableKind::MutableInferred,
                        ty: None,
                        needs_equal: false,
                    },
                    p + 2,
                ),
            )
        } else if at(ts, p + 1, TokenKind::Colon) {
            match optional_type(ts, p + 2, true) {
                Err(error) => Err(error),
                Ok((ty, q)) => Ok(
                    (
                        VariableHead {
                            name,
                            kind: VariableKind::MutableTyped,
                            ty,
                            needs_equal: true,
                        },
                        q,
                    ),
                ),
            }
        } else {
            match optional_type(ts, p + 2, is_typed_declaration(ts, p + 2)) {
                Err(error) => Err(error),
                Ok((ty, q)) => Ok(
                    (
                        VariableHead {
                            name,
                            kind: VariableKind::Immutable,
                            ty,
                            needs_equal: ty is Some,
                        },
                        q,
                    ),
                ),
            }
        }
    }
}

/// A declaration of a local variable.
pub open spec fn variable_statement(ts: Seq<TokenView>, p: int) -> Parsed<StmtView>
    decreases ts.len() - p, 8int,
{
    match variable_head(ts, p) {
        Err(error) => Err(error),
        Ok((head, q)) => match (if head.needs_equal {
            token_of(ts, q, TokenKind::Equal)
        } else {
            Ok((ts[q], q))
        }) {
            Err(error) => Err(error),
            Ok((_, r)) => if !onward(ts, p, r) {
                Err(arbitrary())
            } else {
                match expression(ts, r) {
                    Err(error) => Err(error),
                    Ok((value, u)) => match token_of(ts, u, TokenKind::Semicolon) {
                        Err(error) => Err(error),
                        Ok((_, v)) => Ok(
                            (
                                StmtView::Variable(
                                    VariableDeclView {
                                        name: head.name.lexeme,
                                        kind: head.kind,
                                        ty: head.ty,
                                        value,
                                        span: Span {
                                            start: head.name.span.start,
                                            end: value.span().end,
                                        },
                                        exported: false,
                                    },
                                ),
                                v,
                            ),
                        ),
                    },
                }
            },
        },
    }
}

// ---------------------------------------------------------------------------
// Declarations
// ---------------------------------------------------------------------------

/// `name: type`.
pub open spec fn parameter(ts: Seq<TokenView>, p: int) -> Parsed<ParameterView> {
    match identifier(ts, p) {
        Err(error) => Err(error),
        Ok((name, q)) => match token_of(ts, q, TokenKind::Colon) {
            Err(error) => Err(error),
            Ok((_, r)) => match type_at(ts, r) {
                Err(error) => Err(error),
                Ok((ty, u)) => Ok(
                    (
                        ParameterView {
                            name: name.lexeme,
                            ty,
                            span: Span { start: name.span.start, end: ts[u - 1].span.end },
                        },
                        u,
                    ),
                ),
            },
        },
    }
}

/// Parameters with commas between them; a comma may stand before the `)`.
pub open spec fn parameters(
    ts: Seq<TokenView>,
    p: int,
    before: Seq<ParameterView>,
) -> Parsed<Seq<ParameterView>>
    decreases ts.len() - p,
{
    if at(ts, p, TokenKind::Ellipsis) {
        Err(
            ParseErrorView::Unsupported {
                message: "variadic foreign functions are not implemented"@,
                span: ts[p].span,
            },
        )
    } else {
        match parameter(ts, p) {
            Err(error) => Err(error),
            Ok((found, q)) => if at(ts, q, TokenKind::Comma) && onward(ts, p, q) {
                if at(ts, q + 1, TokenKind::RParen) {
                    Ok((before.push(found), q + 1))
                } else {
                    parameters(ts, q + 1, before.push(found))
                }
            } else {
                Ok((before.push(found), q))
            },
        }
    }
}

/// Parameters in parentheses.
pub open spec fn parameter_list(ts: Seq<TokenView>, p: int) -> Parsed<Seq<ParameterView>> {
    match token_of(ts, p, TokenKind::LParen) {
        Err(error) => Err(error),
        Ok((_, q)) => match (if at(ts, q, TokenKind::RParen) {
            Ok((Seq::<ParameterView>::empty(), q))
        } else {
            parameters(ts, q, Seq::empty())
        }) {
            Err(error) => Err(error),
            Ok((found, r)) => match token_of(ts, r, TokenKind::RParen) {
                Err(error) => Err(error),
                Ok((_, u)) => Ok((found, u)),
            },
        },
    }
}

/// Whether a parameter is a type parameter, written `T: type`.
pub open spec fn is_type_parameter(parameter: ParameterView) -> bool {
    parameter.ty == TypeView::Named("type"@)
}

/// The type parameters among parameters, in order.
pub open spec fn type_parameters(parameters: Seq<ParameterView>) -> Seq<GenericParamView>
    decreases parameters.len(),
{
    if parameters.len() == 0 {
        Seq::empty()
    } else {
        let before = type_parameters(parameters.drop_last());
        let last = parameters.last();
        if is_type_parameter(last) {
            before.push(GenericParamView { name: last.name, span: last.span })
        } else {
            before
        }
    }
}

/// The parameters that are no type parameters, in order.
pub open spec fn value_parameters(parameters: Seq<ParameterView>) -> Seq<ParameterView>
    decreases parameters.len(),
{
    if parameters.len() == 0 {
        Seq::empty()
    } else {
        let before = value_parameters(parameters.drop_last());
        if is_type_parameter(parameters.last()) {
            before
        } else {
            before.push(parameters.last())
        }
    }
}

/// What stands before the parameters of a function.
pub ghost struct FunctionHead {
    pub name: Seq<char>,
    pub start: usize,
    pub foreign: bool,
    pub abi: Option<Seq<char>>,
    pub exported: bool,
}

/// A function's parameters, return type and body; a foreign one ends in a
/// semicolon in place of the body.
pub open spec fn function_rest(
    ts: Seq<TokenView>,
    p: int,
    head: FunctionHead,
) -> Parsed<FunctionDeclView> {
    match parameter_list(ts, p) {
        Err(error) => Err(error),
        Ok((all, q)) => match (if at(ts, q, TokenKind::Arrow) {
            type_at(ts, q + 1)
        } else {
            Ok((TypeView::Unit, q))
        }) {
            Err(error) => Err(error),
            Ok((return_type, r)) => match (if head.foreign {
                match token_of(ts, r, TokenKind::Semicolon) {
                    Err(error) => Err(error),
                    Ok((semicolon, u)) => Ok(
                        (
                            BlockView {
                                statements: Seq::empty(),
                                span: Span { start: head.start, end: semicolon.span.end },
                            },
                            u,
                        ),
                    ),
                }
            } else {
                block(ts, r)
            }) {
                Err(error) => Err(error),
                Ok((body, v)) => Ok(
                    (
                        FunctionDeclView {
                            name: head.name,
                            generic_params: type_parameters(all),
                            params: value_parameters(all),
                            return_type,
                            body,
                            span: Span { start: head.start, end: body.span.end },
                            is_extern: head.foreign,
                            abi: head.abi,
                            link_name: if head.foreign || head.exported {
                                Some(head.name)
                            } else {
                                None
                            },
                            exported: head.exported,
                        },
                        v,
                    ),
                ),
            },
        },
    }
}

/// The fields of a struct, up to its closing brace.
pub open spec fn struct_fields(
    ts: Seq<TokenView>,
    p: int,
    before: Seq<StructFieldView>,
) -> Parsed<Seq<StructFieldView>>
    decreases ts.len() - p,
{
    if at(ts, p, TokenKind::RBrace) || at(ts, p, TokenKind::Eof) {
        Ok((before, p))
    } else {
        match parameter(ts, p) {
            Err(error) => Err(error),
            Ok((field, q)) => {
                let found = before.push(
                    StructFieldView { name: field.name, ty: field.ty, span: field.span },
                );
                if !onward(ts, p, q) {
                    Err(arbitrary())
                } else if at(ts, q, TokenKind::Semicolon) || at(ts, q, TokenKind::Comma) {
                    struct_fields(ts, q + 1, found)
                } else {
                    Err(expected(ts, q, TokenKind::Comma.name()))
                }
            },
        }
    }
}

/// The type parameters of a struct: nothing, or a list in parentheses that
/// holds type parameters only.
pub open spec fn struct_parameters(ts: Seq<TokenView>, p: int) -> Parsed<Seq<GenericParamView>> {
    if at(ts, p, TokenKind::LParen) {
        match parameter_list(ts, p) {
            Err(error) => Err(error),
            Ok((all, q)) => if value_parameters(all).len() > 0 {
                Err(
                    ParseErrorView::Unsupported {
                        message: "struct parameters must be types"@,
                        span: value_parameters(all)[0].span,
                    },
                )
            } else {
                Ok((type_parameters(all), q))
            },
        }
    } else {
        Ok((Seq::empty(), p))
    }
}

/// A struct, from its keyword on; a semicolon may follow it.
pub open spec fn struct_rest(
    ts: Seq<TokenView>,
    p: int,
    name: Seq<char>,
    start: usize,
    exported: bool,
) -> Parsed<StructDeclView> {
    match struct_parameters(ts, p + 1) {
        Err(error) => Err(error),
        Ok((generic_params, q)) => match token_of(ts, q, TokenKind::LBrace) {
            Err(error) => Err(error),
            Ok((_, r)) => match struct_fields(ts, r, Seq::empty()) {
                Err(error) => Err(error),
                Ok((fields, u)) => match token_of(ts, u, TokenKind::RBrace) {
                    Err(error) => Err(error),
                    Ok((closing, v)) => Ok(
                        (
                            StructDeclView {
                                name,
                                generic_params,
                                fields,
                                span: Span { start, end: closing.span.end },
                                exported,
                            },
                            if at(ts, v, TokenKind::Semicolon) {
                                v + 1
                            } else {
                                v
                            },
                        ),
                    ),
                },
            },
        },
    }
}

/// A global variable, from what follows its `:` or `::` on.
pub open spec fn global_rest(
    ts: Seq<TokenView>,
    p: int,
    name: Seq<char>,
    start: usize,
    kind: VariableKind,
    exported: bool,
) -> Parsed<VariableDeclView> {
    match optional_type(ts, p, is_typed_declaration(ts, p)) {
        Err(error) => Err(error),
        Ok((ty, q)) => match (if ty is Some {
            token_of(ts, q, TokenKind::Equal)
        } else {
            Ok((ts[q], q))
        }) {
            Err(error) => Err(error),
            Ok((_, r)) => match expression(ts, r) {
                Err(error) => Err(error),
                Ok((value, u)) => match token_of(ts, u, TokenKind::Semicolon) {
                    Err(error) => Err(error),
                    Ok((_, v)) => Ok(
                        (
                            VariableDeclView {
                                name,
                                kind,
                                ty,
                                value,
                                span: Span { start, end: value.span().end },
                                exported,
                            },
                            v,
                        ),
                    ),
                },
            },
        },
    }
}

/// The `extern` and `export` marks from `p` on: whether each is there, and
/// where they end.
pub open spec fn marks(
    ts: Seq<TokenView>,
    p: int,
    foreign: bool,
    exported: bool,
) -> (bool, bool, int)
    decreases ts.len() - p,
{
    if at(ts, p, TokenKind::Extern) {
        marks(ts, p + 1, true, exported)
    } else if at(ts, p, TokenKind::Export) {
        marks(ts, p + 1, foreign, true)
    } else {
        (foreign, exported, p)
    }
}

/// A function, struct or global variable.
#[verifier::opaque]
pub open spec fn declaration(ts: Seq<TokenView>, p: int) -> Parsed<DeclView> {
    let (foreign, exported, q) = marks(ts, p, false, false);
    let has_abi = (foreign || exported) && at(ts, q, TokenKind::String);
    let abi = if has_abi {
        Some(trimmed(ts[q].lexeme, '"'))
    } else {
        None
    };
    let r = if has_abi {
        q + 1
    } else {
        q
    };
    let has_keyword = at(ts, r, TokenKind::Fn);
    let u = if has_keyword {
        r + 1
    } else {
        r
    };
    match identifier(ts, u) {
        Err(error) => Err(error),
        Ok((token, v)) => {
            let name = token.lexeme;
            let start = if has_keyword || foreign || exported {
                ts[p].span.start
            } else {
                token.span.start
            };
            if has_keyword || foreign {
                match function_rest(ts, v, FunctionHead { name, start, foreign, abi, exported }) {
                    Err(error) => Err(error),
                    Ok((function, w)) => Ok((DeclView::Function(function), w)),
                }
            } else if has_abi && (!at(ts, v, TokenKind::DoubleColon) || !at(
                ts,
                v + 1,
                TokenKind::LParen,
            )) {
                Err(
                    ParseErrorView::Unsupported {
                        message: "an ABI string is only valid on exported functions"@,
                        span: ts[p].span,
                    },
                )
            } else if at(ts, v, TokenKind::DoubleColon) {
                if at(ts, v + 1, TokenKind::LParen) {
                    match function_rest(
                        ts,
                        v + 1,
                        FunctionHead { name, start, foreign: false, abi, exported },
                    ) {
                        Err(error) => Err(error),
                        Ok((function, w)) => Ok((DeclView::Function(function), w)),
                    }
                } else if at(ts, v + 1, TokenKind::Struct) {
                    match struct_rest(ts, v + 1, name, start, exported) {
                        Err(error) => Err(error),
                        Ok((structure, w)) => Ok((DeclView::Struct(structure), w)),
                    }
                } else {
                    match global_rest(ts, v + 1, name, start, VariableKind::Immutable, exported) {
                        Err(error) => Err(error),
                        Ok((variable, w)) => Ok((DeclView::Variable(variable), w)),
                    }
                }
            } else if exported {
                Err(expected(ts, v, TokenKind::DoubleColon.name()))
            } else {
                match token_of(ts, v, TokenKind::Colon) {
                    Err(error) => Err(error),
                    Ok((_, w)) => match global_rest(
                        ts,
                        w,
                        name,
                        start,
                        VariableKind::MutableTyped,
                        false,
                    ) {
                        Err(error) => Err(error),
                        Ok((variable, x)) => Ok((DeclView::Variable(variable), x)),
                    },
                }
            }
        },
    }
}

/// Where the last `/` of a path stands, plus one; zero without one.
pub open spec fn file_name_start(path: Seq<char>, end: int) -> int
    decreases end,
{
    if end <= 0 {
        0
    } else if path[end - 1] == '/' {
        end
    } else {
        file_name_start(path, end - 1)
    }
}

/// `s` without the extensions `.compy` at its end.
pub open spec fn without_extension(s: Seq<char>) -> Seq<char>
    decreases s.len(),
{
    if s.len() >= 6 && s.skip(s.len() - 6) == ".compy"@ {
        without_extension(s.take(s.len() - 6))
    } else {
        s
    }
}

/// The name that a path's module is known by: its file name.
pub open spec fn alias_of(path: Seq<char>) -> Seq<char> {
    without_extension(path.skip(file_name_start(path, path.len() as int)))
}

/// `import name;` or `import "path";`.
pub open spec fn import(ts: Seq<TokenView>, p: int) -> Parsed<ImportDeclView> {
    if at(ts, p + 1, TokenKind::String) || at(ts, p + 1, TokenKind::Identifier) {
        let path = trimmed(ts[p + 1].lexeme, '"');
        match token_of(ts, p + 2, TokenKind::Semicolon) {
            Err(error) => Err(error),
            Ok((semicolon, q)) => Ok(
                (
                    ImportDeclView {
                        path,
                        alias: alias_of(path),
                        span: Span { start: ts[p].span.start, end: semicolon.span.end },
                    },
                    q,
                ),
            ),
        }
    } else {
        Err(
            ParseErrorView::UnexpectedToken {
                expected: "module name or string path"@,
                found: ts[p + 1].kind,
                span: ts[p + 1].span,
            },
        )
    }
}

/// A whole module from `p` on: imports, declarations and expressions to
/// evaluate while compiling, in any order.
pub open spec fn module(
    ts: Seq<TokenView>,
    p: int,
    imports: Seq<ImportDeclView>,
    declarations: Seq<DeclView>,
) -> Parsed<ProgramView>
    decreases ts.len() - p,
{
    if at(ts, p, TokenKind::Eof) {
        Ok((ProgramView { imports, declarations }, p))
    } else if at(ts, p, TokenKind::Import) {
        match import(ts, p) {
            Err(error) => Err(error),
            Ok((found, q)) => if onward(ts, p, q) {
                module(ts, q, imports.push(found), declarations)
            } else {
                Err(arbitrary())
            },
        }
    } else if at(ts, p, TokenKind::Hash) {
        match expression(ts, p) {
            Err(error) => Err(error),
            Ok((found, q)) => match token_of(ts, q, TokenKind::Semicolon) {
                Err(error) => Err(error),
                Ok((semicolon, r)) => if onward(ts, p, r) {
                    module(
                        ts,
                        r,
                        imports,
                        declarations.push(
                            DeclView::Comptime {
                                expression: found,
                                span: Span { start: ts[p].span.start, end: semicolon.span.end },
                            },
                        ),
                    )
                } else {
                    Err(arbitrary())
                },
            },
        }
    } else {
        match declaration(ts, p) {
            Err(error) => Err(error),
            Ok((found, q)) => if onward(ts, p, q) {
                module(ts, q, imports, declarations.push(found))
            } else {
                Err(arbitrary())
            },
        }
    }
}

// ---------------------------------------------------------------------------
// Token streams
// ---------------------------------------------------------------------------

/// Whether an end marker stands at `p` or after it.
#[verifier::opaque]
pub open spec fn ended(ts: Seq<TokenView>, p: int) -> bool {
    0 <= p && exists|k: int| p <= k < ts.len() && (#[trigger] ts[k]).kind == TokenKind::Eof
}

/// What the parser asks of its tokens: an end marker, and before a number in
/// brackets room for the bracket.
pub open spec fn is_token_stream(ts: Seq<TokenView>) -> bool {
    &&& ended(ts, 0)
    &&& forall|i: int| 1 <= i < ts.len() ==> #[trigger] has_room_before(ts, i)
}

/// Whether a number in brackets at `i` does not start at offset zero.
pub open spec fn has_room_before(ts: Seq<TokenView>, i: int) -> bool {
    ts[i].kind == TokenKind::Integer && ts[i - 1].kind == TokenKind::LBracket ==> ts[i].span.start
        >= 1
}

pub broadcast proof fn lemma_ended_within(ts: Seq<TokenView>, p: int)
    requires
        #[trigger] ended(ts, p),
    ensures
        0 <= p < ts.len(),
{
    reveal(ended);
}

pub broadcast proof fn lemma_ended_after(ts: Seq<TokenView>, p: int, kind: TokenKind)
    requires
        #[trigger] ended(ts, p),
        #[trigger] at(ts, p, kind),
        kind != TokenKind::Eof,
    ensures
        ended(ts, p + 1),
{
    reveal(ended);
}

pub broadcast group group_ended {
    lemma_ended_within,
    lemma_ended_after,
}

} // verus!
