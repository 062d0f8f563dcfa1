//! The tokens of a program that parses can be told apart, so formatting it
//! twice changes nothing.
use crate::ast::{
    ExprView, ImportDeclView, DeclView, ParameterView, StmtView, StructFieldView, StructInitView,
    VariableKind,
};
use crate::formatter::{comments_from, formatted, items_of, merged, CommentView, ItemView};
use crate::grammar::{
    arguments, at, binary, binary_operator, binary_rest, block, call_at, declaration, elements,
    expression, field_values, function_rest, global_rest, if_statement, import,
    is_typed_declaration, marks, module, named, optional_type, parameter, parameter_list,
    parameters, postfix, postfix_rest, primary, qualified_name, return_statement, starts_variable,
    statement, statements, struct_fields, struct_parameters, struct_rest, type_arguments, type_at,
    type_atom, unary, unary_operator, variable_head, variable_statement, while_statement,
    precedence, FunctionHead,
};
use crate::lexer::{
    lemma_token_at, lemma_token_start, lex_from, string_end, token_at, token_start, Span, TokenKind,
    TokenView,
};
use crate::names::spelled;
use crate::pipeline::parsed;
use crate::reformatting::{
    can_be_told_apart, follows, is_closed, is_kind, lemma_formatting_twice_changes_nothing,
    lemma_strings, normals, stands_apart,
};
use crate::text::byte_offset;
use vstd::prelude::*;

verus! {

// ---------------------------------------------------------------------------
// Dots and colons
// ---------------------------------------------------------------------------

/// Whether token `i`, if it is a dot, has a name behind it, and if it is a
/// colon, no other colon.
pub open spec fn is_followed(ts: Seq<TokenView>, i: int) -> bool {
    &&& at(ts, i, TokenKind::Dot) ==> at(ts, i + 1, TokenKind::Identifier)
    &&& at(ts, i, TokenKind::Colon) ==> !at(ts, i + 1, TokenKind::Colon)
}

/// Whether this holds of the tokens from `p` up to `q`.
#[verifier::opaque]
pub open spec fn neat(ts: Seq<TokenView>, p: int, q: int) -> bool {
    forall|i: int| p <= i < q ==> #[trigger] is_followed(ts, i)
}

broadcast proof fn lemma_neat_join(ts: Seq<TokenView>, p: int, q: int, r: int)
    requires
        #[trigger] neat(ts, p, q),
        #[trigger] neat(ts, q, r),
    ensures
        neat(ts, p, r),
{
    reveal(neat);
    assert forall|i: int| p <= i < r implies #[trigger] is_followed(ts, i) by {
        assert(i < q || q <= i);
    }
}

broadcast proof fn lemma_neat_token(ts: Seq<TokenView>, p: int, kind: TokenKind)
    requires
        #[trigger] at(ts, p, kind),
        kind != TokenKind::Dot,
        kind != TokenKind::Colon,
    ensures
        neat(ts, p, p + 1),
{
    reveal(neat);
}

proof fn lemma_neat_dot(ts: Seq<TokenView>, p: int)
    requires
        at(ts, p, TokenKind::Dot),
        at(ts, p + 1, TokenKind::Identifier),
    ensures
        neat(ts, p, p + 2),
{
    reveal(neat);
}

proof fn lemma_neat_colon(ts: Seq<TokenView>, p: int)
    requires
        !at(ts, p + 1, TokenKind::Colon),
        at(ts, p, TokenKind::Colon),
    ensures
        neat(ts, p, p + 1),
{
    reveal(neat);
}

proof fn lemma_neat_nothing(ts: Seq<TokenView>, p: int)
    ensures
        neat(ts, p, p),
{
    reveal(neat);
}

/// Whether something neat that starts with no colon stands between `p` and `q`.
pub open spec fn neatly(ts: Seq<TokenView>, p: int, q: int) -> bool {
    p < q <= ts.len() && neat(ts, p, q) && !at(ts, p, TokenKind::Colon)
}

/// Whether a semicolon or a closing brace stands before `q`.
pub open spec fn closes(ts: Seq<TokenView>, q: int) -> bool {
    at(ts, q - 1, TokenKind::Semicolon) || at(ts, q - 1, TokenKind::RBrace)
}

proof fn lemma_qualified_name(ts: Seq<TokenView>, p: int)
    requires
        0 <= p,
    ensures
        qualified_name(ts, p) matches Ok((_, q)) ==> neatly(ts, p, q),
{
    broadcast use {lemma_neat_join, lemma_neat_token};

    if at(ts, p + 1, TokenKind::Dot) && at(ts, p + 2, TokenKind::Identifier) {
        lemma_neat_dot(ts, p + 1);
    }
}

proof fn lemma_type_at(ts: Seq<TokenView>, p: int)
    requires
        0 <= p,
    ensures
        type_at(ts, p) matches Ok((_, q)) ==> neatly(ts, p, q),
    decreases ts.len() - p, 1int,
{
    broadcast use {lemma_neat_join, lemma_neat_token};

    lemma_type_atom(ts, p);
    if let Ok((_, q)) = type_atom(ts, p) {
        if at(ts, q, TokenKind::Pipe) {
            lemma_type_at(ts, q + 1);
        }
    }
}

proof fn lemma_type_atom(ts: Seq<TokenView>, p: int)
    requires
        0 <= p,
    ensures
        type_atom(ts, p) matches Ok((_, q)) ==> neatly(ts, p, q),
    decreases ts.len() - p, 0int,
{
    broadcast use {lemma_neat_join, lemma_neat_token};

    if at(ts, p, TokenKind::Star) {
        lemma_type_atom(ts, p + 1);
    } else if at(ts, p, TokenKind::LBracket) {
        if at(ts, p + 1, TokenKind::RBracket) {
            lemma_type_atom(ts, p + 2);
        } else if at(ts, p + 1, TokenKind::Integer) && at(ts, p + 2, TokenKind::RBracket) {
            lemma_type_atom(ts, p + 3);
        }
    } else {
        lemma_qualified_name(ts, p);
        if let Ok((name, q)) = qualified_name(ts, p) {
            if at(ts, q, TokenKind::LParen) {
                lemma_type_arguments(ts, q + 1, name);
            }
        }
    }
}

proof fn lemma_type_arguments(ts: Seq<TokenView>, p: int, name: Seq<char>)
    requires
        0 <= p,
    ensures
        type_arguments(ts, p, name) matches Ok((_, q)) ==> neatly(ts, p, q),
    decreases ts.len() - p, 2int,
{
    broadcast use {lemma_neat_join, lemma_neat_token};

    lemma_type_at(ts, p);
    if let Ok((ty, q)) = type_at(ts, p) {
        let longer = name + "__"@ + spelled(ty);
        if at(ts, q, TokenKind::Comma) {
            lemma_type_arguments(ts, q + 1, longer);
        }
    }
}

// ---------------------------------------------------------------------------
// Expressions
// ---------------------------------------------------------------------------

proof fn lemma_expression(ts: Seq<TokenView>, p: int)
    requires
        0 <= p,
    ensures
        expression(ts, p) matches Ok((_, q)) ==> neatly(ts, p, q),
    decreases ts.len() - p, 6int,
{
    broadcast use {lemma_neat_join, lemma_neat_token};

    lemma_binary(ts, p, 0);
}

proof fn lemma_binary(ts: Seq<TokenView>, p: int, minimum: int)
    requires
        0 <= p,
    ensures
        binary(ts, p, minimum) matches Ok((_, q)) ==> neatly(ts, p, q),
    decreases ts.len() - p, 5int,
{
    broadcast use {lemma_neat_join, lemma_neat_token};

    lemma_unary(ts, p);
    if let Ok((left, q)) = unary(ts, p) {
        lemma_binary_rest(ts, q, left, minimum);
    }
}

proof fn lemma_binary_rest(ts: Seq<TokenView>, p: int, left: ExprView, minimum: int)
    requires
        0 <= p <= ts.len(),
    ensures
        binary_rest(ts, p, left, minimum) matches Ok((_, q))
            ==> p <= q <= ts.len() && neat(ts, p, q),
    decreases ts.len() - p, 4int,
{
    broadcast use {lemma_neat_join, lemma_neat_token};

    lemma_neat_nothing(ts, p);
    if p < ts.len() {
        if let Some(operator) = binary_operator(ts[p].kind) {
            assert(at(ts, p, ts[p].kind));
            if precedence(operator) >= minimum {
                lemma_binary(ts, p + 1, precedence(operator) + 1);
                if let Ok((right, r)) = binary(ts, p + 1, precedence(operator) + 1) {
                    lemma_binary_rest(
                        ts,
                        r,
                        ExprView::Binary {
                            left: Box::new(left),
                            operator,
                            right: Box::new(right),
                            span: Span { start: left.span().start, end: right.span().end },
                        },
                        minimum,
                    );
                }
            }
        }
    }
}

proof fn lemma_unary(ts: Seq<TokenView>, p: int)
    requires
        0 <= p,
    ensures
        unary(ts, p) matches Ok((_, q)) ==> neatly(ts, p, q),
    decreases ts.len() - p, 3int,
{
    broadcast use {lemma_neat_join, lemma_neat_token};

    if p < ts.len() {
        assert(at(ts, p, ts[p].kind));
        if unary_operator(ts[p].kind) is Some {
            lemma_unary(ts, p + 1);
        } else {
            lemma_postfix(ts, p);
        }
    }
}

proof fn lemma_postfix(ts: Seq<TokenView>, p: int)
    requires
        0 <= p,
    ensures
        postfix(ts, p) matches Ok((_, q)) ==> neatly(ts, p, q),
    decreases ts.len() - p, 2int,
{
    broadcast use {lemma_neat_join, lemma_neat_token};

    lemma_primary(ts, p);
    if let Ok((found, q)) = primary(ts, p) {
        lemma_postfix_rest(ts, q, found);
    }
}

proof fn lemma_postfix_rest(ts: Seq<TokenView>, p: int, base: ExprView)
    requires
        0 <= p <= ts.len(),
    ensures
        postfix_rest(ts, p, base) matches Ok((_, q)) ==> p <= q <= ts.len() && neat(ts, p, q),
    decreases ts.len() - p, 1int,
{
    broadcast use {lemma_neat_join, lemma_neat_token};

    lemma_neat_nothing(ts, p);
    let start = base.span().start;
    if at(ts, p, TokenKind::Dot) {
        if at(ts, p + 1, TokenKind::Identifier) {
            lemma_neat_dot(ts, p);
            lemma_postfix_rest(
                ts,
                p + 2,
                ExprView::Field {
                    base: Box::new(base),
                    name: ts[p + 1].lexeme,
                    span: Span { start, end: ts[p + 1].span.end },
                },
            );
        }
    } else if at(ts, p, TokenKind::LBracket) {
        lemma_expression(ts, p + 1);
        if let Ok((index, r)) = expression(ts, p + 1) {
            if at(ts, r, TokenKind::RBracket) {
                lemma_postfix_rest(
                    ts,
                    r + 1,
                    ExprView::Index {
                        base: Box::new(base),
                        index: Box::new(index),
                        span: Span { start, end: ts[r].span.end },
                    },
                );
            }
        }
    } else if at(ts, p, TokenKind::Question) {
        lemma_postfix_rest(
            ts,
            p + 1,
            ExprView::Propagate {
                expression: Box::new(base),
                span: Span { start, end: ts[p].span.end },
            },
        );
    } else if at(ts, p, TokenKind::LParen) {
        lemma_call_at(ts, p, base);
        if let Ok((call, r)) = call_at(ts, p, base) {
            lemma_postfix_rest(ts, r, call);
        }
    }
}

proof fn lemma_call_at(ts: Seq<TokenView>, p: int, base: ExprView)
    requires
        0 <= p,
    ensures
        call_at(ts, p, base) matches Ok((_, q)) ==> neatly(ts, p, q),
    decreases ts.len() - p, 0int,
{
    broadcast use {lemma_neat_join, lemma_neat_token};

    if at(ts, p, TokenKind::LParen) {
        lemma_type_at(ts, p + 1);
        if !at(ts, p + 1, TokenKind::RParen) {
            lemma_arguments(ts, p + 1, Seq::empty());
        }
    }
}

proof fn lemma_arguments(ts: Seq<TokenView>, p: int, before: Seq<ExprView>)
    requires
        0 <= p,
    ensures
        arguments(ts, p, before) matches Ok((_, q)) ==> neatly(ts, p, q),
    decreases ts.len() - p, 7int,
{
    broadcast use {lemma_neat_join, lemma_neat_token};

    lemma_expression(ts, p);
    if let Ok((argument, q)) = expression(ts, p) {
        if at(ts, q, TokenKind::Comma) && !at(ts, q + 1, TokenKind::RParen) {
            lemma_arguments(ts, q + 1, before.push(argument));
        }
    }
}

proof fn lemma_field_values(ts: Seq<TokenView>, p: int, before: Seq<StructInitView>)
    requires
        0 <= p <= ts.len(),
    ensures
        field_values(ts, p, before) matches Ok((_, q)) ==> p <= q <= ts.len() && neat(ts, p, q),
    decreases ts.len() - p, 7int,
{
    broadcast use {lemma_neat_join, lemma_neat_token};

    lemma_neat_nothing(ts, p);
    if at(ts, p, TokenKind::Identifier) && at(ts, p + 1, TokenKind::Equal) {
        lemma_expression(ts, p + 2);
        if let Ok((value, u)) = expression(ts, p + 2) {
            let found = before.push(
                StructInitView {
                    name: ts[p].lexeme,
                    value,
                    span: Span { start: ts[p].span.start, end: value.span().end },
                },
            );
            if at(ts, u, TokenKind::Comma) || at(ts, u, TokenKind::Semicolon) {
                lemma_field_values(ts, u + 1, found);
            }
        }
    }
}

proof fn lemma_elements(ts: Seq<TokenView>, p: int, before: Seq<ExprView>)
    requires
        0 <= p,
    ensures
        elements(ts, p, before) matches Ok((_, q)) ==> neatly(ts, p, q),
    decreases ts.len() - p, 7int,
{
    broadcast use {lemma_neat_join, lemma_neat_token};

    if !(at(ts, p, TokenKind::RBrace) || at(ts, p, TokenKind::Eof)) {
        lemma_expression(ts, p);
        if let Ok((element, q)) = expression(ts, p) {
            if at(ts, q, TokenKind::Comma) {
                lemma_elements(ts, q + 1, before.push(element));
            }
        }
    }
}

proof fn lemma_primary(ts: Seq<TokenView>, p: int)
    requires
        0 <= p,
    ensures
        primary(ts, p) matches Ok((_, q)) ==> neatly(ts, p, q),
    decreases ts.len() - p, 1int,
{
    broadcast use {lemma_neat_join, lemma_neat_token};

    if p < ts.len() {
        assert(at(ts, p, ts[p].kind));
        match ts[p].kind {
            TokenKind::Hash => {
                lemma_unary(ts, p + 1);
            },
            TokenKind::Identifier => {
                lemma_named(ts, p);
            },
            TokenKind::LBracket => {
                if at(ts, p + 1, TokenKind::Integer) && at(ts, p + 2, TokenKind::RBracket) {
                    lemma_type_at(ts, p + 3);
                    if let Ok((_, q)) = type_at(ts, p + 3) {
                        if at(ts, q, TokenKind::LBrace) {
                            lemma_elements(ts, q + 1, Seq::empty());
                        }
                    }
                }
            },
            TokenKind::LParen => {
                lemma_expression(ts, p + 1);
            },
            _ => {},
        }
    }
}

proof fn lemma_named(ts: Seq<TokenView>, p: int)
    requires
        0 <= p,
    ensures
        named(ts, p) matches Ok((_, q)) ==> neatly(ts, p, q),
    decreases ts.len() - p, 0int,
{
    broadcast use {lemma_neat_join, lemma_neat_token};

    lemma_qualified_name(ts, p);
    if let Ok((_, q)) = qualified_name(ts, p) {
        if at(ts, q, TokenKind::LBrace) {
            lemma_field_values(ts, q + 1, Seq::empty());
        }
    }
}

// ---------------------------------------------------------------------------
// Statements
// ---------------------------------------------------------------------------

proof fn lemma_block(ts: Seq<TokenView>, p: int)
    requires
        0 <= p,
    ensures
        block(ts, p) matches Ok((_, q)) ==> neatly(ts, p, q) && closes(ts, q),
    decreases ts.len() - p, 8int,
{
    broadcast use {lemma_neat_join, lemma_neat_token};

    if at(ts, p, TokenKind::LBrace) {
        lemma_statements(ts, p + 1, Seq::empty());
    }
}

proof fn lemma_statements(ts: Seq<TokenView>, p: int, before: Seq<StmtView>)
    requires
        0 <= p <= ts.len(),
    ensures
        statements(ts, p, before) matches Ok((_, q)) ==> p <= q <= ts.len() && neat(ts, p, q),
    decreases ts.len() - p, 10int,
{
    broadcast use {lemma_neat_join, lemma_neat_token};

    lemma_neat_nothing(ts, p);
    if !(at(ts, p, TokenKind::RBrace) || at(ts, p, TokenKind::Eof)) {
        lemma_statement(ts, p);
        if let Ok((found, q)) = statement(ts, p) {
            lemma_statements(ts, q, before.push(found));
        }
    }
}

proof fn lemma_statement(ts: Seq<TokenView>, p: int)
    requires
        0 <= p,
    ensures
        statement(ts, p) matches Ok((_, q)) ==> neatly(ts, p, q),
    decreases ts.len() - p, 9int,
{
    broadcast use {lemma_neat_join, lemma_neat_token};

    if at(ts, p, TokenKind::Return) {
        lemma_return_statement(ts, p);
    } else if at(ts, p, TokenKind::If) {
        lemma_if_statement(ts, p);
    } else if at(ts, p, TokenKind::While) {
        lemma_while_statement(ts, p);
    } else if at(ts, p, TokenKind::Defer) {
        lemma_expression(ts, p + 1);
    } else if starts_variable(ts, p) {
        lemma_variable_statement(ts, p);
    } else {
        lemma_expression(ts, p);
        if let Ok((_, q)) = expression(ts, p) {
            if at(ts, q, TokenKind::Equal) {
                lemma_expression(ts, q + 1);
            }
        }
    }
}

proof fn lemma_return_statement(ts: Seq<TokenView>, p: int)
    requires
        0 <= p,
        at(ts,
        p,
        TokenKind::Return),
    ensures
        return_statement(ts, p) matches Ok((_, q)) ==> neatly(ts, p, q),
    decreases ts.len() - p, 8int,
{
    broadcast use {lemma_neat_join, lemma_neat_token};

    if !at(ts, p + 1, TokenKind::Semicolon) {
        lemma_expression(ts, p + 1);
    }
}

proof fn lemma_if_statement(ts: Seq<TokenView>, p: int)
    requires
        0 <= p,
        at(ts,
        p,
        TokenKind::If),
    ensures
        if_statement(ts, p) matches Ok((_, q)) ==> neatly(ts, p, q),
    decreases ts.len() - p, 8int,
{
    broadcast use {lemma_neat_join, lemma_neat_token};

    lemma_expression(ts, p + 1);
    if let Ok((_, q)) = expression(ts, p + 1) {
        lemma_block(ts, q);
        if let Ok((_, r)) = block(ts, q) {
            if at(ts, r, TokenKind::Else) {
                lemma_block(ts, r + 1);
            }
        }
    }
}

proof fn lemma_while_statement(ts: Seq<TokenView>, p: int)
    requires
        0 <= p,
        at(ts,
        p,
        TokenKind::While),
    ensures
        while_statement(ts, p) matches Ok((_, q)) ==> neatly(ts, p, q),
    decreases ts.len() - p, 8int,
{
    broadcast use {lemma_neat_join, lemma_neat_token};

    lemma_expression(ts, p + 1);
    if let Ok((_, q)) = expression(ts, p + 1) {
        lemma_block(ts, q);
    }
}

proof fn lemma_variable_head(ts: Seq<TokenView>, p: int)
    requires
        0 <= p,
        starts_variable(ts,
        p),
    ensures
        variable_head(ts, p) matches Ok((_, q)) ==> neatly(ts, p, q),
{
    broadcast use {lemma_neat_join, lemma_neat_token};

    if at(ts, p, TokenKind::Let) || at(ts, p, TokenKind::Var) {
        if at(ts, p + 1, TokenKind::Identifier) && at(ts, p + 2, TokenKind::Colon) {
            lemma_type_at(ts, p + 3);
            if type_at(ts, p + 3) is Ok {
                lemma_neat_colon(ts, p + 2);
            }
        }
    } else if at(ts, p + 1, TokenKind::Colon) {
        lemma_type_at(ts, p + 2);
        if type_at(ts, p + 2) is Ok {
            lemma_neat_colon(ts, p + 1);
        }
    } else {
        lemma_type_at(ts, p + 2);
    }
}

proof fn lemma_variable_statement(ts: Seq<TokenView>, p: int)
    requires
        0 <= p,
        starts_variable(ts,
        p),
    ensures
        variable_statement(ts, p) matches Ok((_, q)) ==> neatly(ts, p, q),
    decreases ts.len() - p, 8int,
{
    broadcast use {lemma_neat_join, lemma_neat_token};

    lemma_variable_head(ts, p);
    if let Ok((head, q)) = variable_head(ts, p) {
        let r = if head.needs_equal {
            q + 1
        } else {
            q
        };
        if !head.needs_equal || at(ts, q, TokenKind::Equal) {
            lemma_expression(ts, r);
        }
    }
}

// ---------------------------------------------------------------------------
// Declarations
// ---------------------------------------------------------------------------

proof fn lemma_parameter(ts: Seq<TokenView>, p: int)
    requires
        0 <= p,
    ensures
        parameter(ts, p) matches Ok((_, q)) ==> neatly(ts, p, q),
{
    broadcast use {lemma_neat_join, lemma_neat_token};

    if at(ts, p, TokenKind::Identifier) && at(ts, p + 1, TokenKind::Colon) {
        lemma_type_at(ts, p + 2);
        if type_at(ts, p + 2) is Ok {
            lemma_neat_colon(ts, p + 1);
        }
    }
}

proof fn lemma_parameters(ts: Seq<TokenView>, p: int, before: Seq<ParameterView>)
    requires
        0 <= p,
    ensures
        parameters(ts, p, before) matches Ok((_, q)) ==> neatly(ts, p, q),
    decreases ts.len() - p,
{
    broadcast use {lemma_neat_join, lemma_neat_token};

    lemma_parameter(ts, p);
    if let Ok((found, q)) = parameter(ts, p) {
        if at(ts, q, TokenKind::Comma) && !at(ts, q + 1, TokenKind::RParen) {
            lemma_parameters(ts, q + 1, before.push(found));
        }
    }
}

proof fn lemma_parameter_list(ts: Seq<TokenView>, p: int)
    requires
        0 <= p,
    ensures
        parameter_list(ts, p) matches Ok((_, q)) ==> neatly(ts, p, q),
{
    broadcast use {lemma_neat_join, lemma_neat_token};

    if at(ts, p, TokenKind::LParen) {
        if !at(ts, p + 1, TokenKind::RParen) {
            lemma_parameters(ts, p + 1, Seq::empty());
        }
    }
}

proof fn lemma_function_rest(ts: Seq<TokenView>, p: int, head: FunctionHead)
    requires
        0 <= p,
    ensures
        function_rest(ts, p, head) matches Ok((_, q)) ==> neatly(ts, p, q) && closes(ts, q),
{
    broadcast use {lemma_neat_join, lemma_neat_token};

    lemma_parameter_list(ts, p);
    if let Ok((_, q)) = parameter_list(ts, p) {
        let r = if at(ts, q, TokenKind::Arrow) {
            lemma_type_at(ts, q + 1);
            match type_at(ts, q + 1) {
                Ok((_, r)) => r,
                Err(_) => q,
            }
        } else {
            q
        };
        if !head.foreign {
            lemma_block(ts, r);
        }
    }
}

proof fn lemma_struct_fields(ts: Seq<TokenView>, p: int, before: Seq<StructFieldView>)
    requires
        0 <= p <= ts.len(),
    ensures
        struct_fields(ts, p, before) matches Ok((_, q)) ==> p <= q <= ts.len() && neat(ts, p, q),
    decreases ts.len() - p,
{
    broadcast use {lemma_neat_join, lemma_neat_token};

    lemma_neat_nothing(ts, p);
    if !(at(ts, p, TokenKind::RBrace) || at(ts, p, TokenKind::Eof)) {
        lemma_parameter(ts, p);
        if let Ok((field, q)) = parameter(ts, p) {
            let found = before.push(
                StructFieldView { name: field.name, ty: field.ty, span: field.span },
            );
            if at(ts, q, TokenKind::Semicolon) || at(ts, q, TokenKind::Comma) {
                lemma_struct_fields(ts, q + 1, found);
            }
        }
    }
}

proof fn lemma_struct_rest(
    ts: Seq<TokenView>,
    p: int,
    name: Seq<char>,
    start: usize,
    exported: bool,
)
    requires
        0 <= p,
        at(ts,
        p,
        TokenKind::Struct),
    ensures
        struct_rest(ts, p, name, start, exported) matches Ok((_, q))
            ==> neatly(ts, p, q) && closes(ts, q),
{
    broadcast use {lemma_neat_join, lemma_neat_token};

    lemma_neat_nothing(ts, p + 1);
    lemma_parameter_list(ts, p + 1);
    if let Ok((_, q)) = struct_parameters(ts, p + 1) {
        if at(ts, q, TokenKind::LBrace) {
            lemma_struct_fields(ts, q + 1, Seq::empty());
        }
    }
}

proof fn lemma_global_rest(
    ts: Seq<TokenView>,
    p: int,
    name: Seq<char>,
    start: usize,
    kind: VariableKind,
    exported: bool,
)
    requires
        0 <= p,
    ensures
        global_rest(ts, p, name, start, kind, exported) matches Ok((_, q))
            ==> neatly(ts, p, q) && closes(ts, q),
{
    broadcast use {lemma_neat_join, lemma_neat_token};

    lemma_type_at(ts, p);
    if let Ok((ty, q)) = optional_type(ts, p, is_typed_declaration(ts, p)) {
        if ty is Some {
            if at(ts, q, TokenKind::Equal) {
                lemma_expression(ts, q + 1);
            }
        } else {
            lemma_expression(ts, q);
        }
    }
}

proof fn lemma_marks(ts: Seq<TokenView>, p: int, foreign: bool, exported: bool)
    requires
        0 <= p <= ts.len(),
    ensures
        p <= marks(ts, p, foreign, exported).2 <= ts.len(),
        neat(ts, p, marks(ts, p, foreign, exported).2),
    decreases ts.len() - p,
{
    broadcast use {lemma_neat_join, lemma_neat_token};

    lemma_neat_nothing(ts, p);
    if at(ts, p, TokenKind::Extern) {
        lemma_marks(ts, p + 1, true, exported);
    } else if at(ts, p, TokenKind::Export) {
        lemma_marks(ts, p + 1, foreign, true);
    }
}

proof fn lemma_declaration(ts: Seq<TokenView>, p: int)
    requires
        0 <= p <= ts.len(),
    ensures
        declaration(ts, p) matches Ok((_, q))
            ==> p < q <= ts.len() && neat(ts, p, q) && closes(ts, q),
{
    broadcast use {lemma_neat_join, lemma_neat_token};

    reveal(declaration);
    lemma_marks(ts, p, false, false);
    let (foreign, exported, q) = marks(ts, p, false, false);
    let has_abi = (foreign || exported) && at(ts, q, TokenKind::String);
    let r = if has_abi {
        q + 1
    } else {
        q
    };
    let has_keyword = at(ts, r, TokenKind::Fn);
    let u = if has_keyword {
        r + 1
    } else {
        r
    };
    let abi = if has_abi {
        Some(crate::text::trimmed(ts[q].lexeme, '"'))
    } else {
        None
    };
    assert(neat(ts, p, u));
    if at(ts, u, TokenKind::Identifier) {
        let name = ts[u].lexeme;
        let start = if has_keyword || foreign || exported {
            ts[p].span.start
        } else {
            ts[u].span.start
        };
        let v = u + 1;
        assert(neat(ts, p, v));
        if has_keyword || foreign {
            lemma_function_rest(ts, v, FunctionHead { name, start, foreign, abi, exported });
        } else if at(ts, v, TokenKind::DoubleColon) {
            if at(ts, v + 1, TokenKind::LParen) {
                lemma_function_rest(
                    ts,
                    v + 1,
                    FunctionHead { name, start, foreign: false, abi, exported },
                );
            } else if at(ts, v + 1, TokenKind::Struct) {
                lemma_struct_rest(ts, v + 1, name, start, exported);
            } else {
                lemma_global_rest(ts, v + 1, name, start, VariableKind::Immutable, exported);
            }
        } else if at(ts, v, TokenKind::Colon) {
            lemma_global_rest(ts, v + 1, name, start, VariableKind::MutableTyped, false);
            if global_rest(ts, v + 1, name, start, VariableKind::MutableTyped, false) is Ok {
                lemma_neat_colon(ts, v);
            }
        }
    }
}

proof fn lemma_module(
    ts: Seq<TokenView>,
    p: int,
    imports: Seq<ImportDeclView>,
    declarations: Seq<DeclView>,
)
    requires
        0 <= p <= ts.len(),
    ensures
        module(ts, p, imports, declarations) matches Ok((_, q))
            ==> p <= q && at(ts, q, TokenKind::Eof) && neat(ts, p, q) && (p == q || closes(ts, q)),
    decreases ts.len() - p,
{
    broadcast use {lemma_neat_join, lemma_neat_token};

    lemma_neat_nothing(ts, p);
    if at(ts, p, TokenKind::Import) {
        if let Ok((found, q)) = import(ts, p) {
            if at(ts, p + 1, TokenKind::String) || at(ts, p + 1, TokenKind::Identifier) {
                assert(neat(ts, p, p + 2));
            }
            assert(neat(ts, p, q));
            lemma_module(ts, q, imports.push(found), declarations);
        }
    } else if at(ts, p, TokenKind::Hash) {
        lemma_expression(ts, p);
        if let Ok((found, q)) = expression(ts, p) {
            if at(ts, q, TokenKind::Semicolon) {
                lemma_module(
                    ts,
                    q + 1,
                    imports,
                    declarations.push(
                        DeclView::Comptime {
                            expression: found,
                            span: Span { start: ts[p].span.start, end: ts[q].span.end },
                        },
                    ),
                );
            }
        }
    } else {
        lemma_declaration(ts, p);
        if let Ok((found, q)) = declaration(ts, p) {
            lemma_module(ts, q, imports, declarations.push(found));
        }
    }
}

// ---------------------------------------------------------------------------
// Whole programs
// ---------------------------------------------------------------------------

/// Only the last token is the end marker, and a string without its closing
/// quote can only stand right before it.
proof fn lemma_lexed(s: Seq<char>, i: int)
    requires
        0 <= i <= s.len(),
    ensures
        lex_from(s, i) matches Ok(ts) ==> {
            &&& ts.len() > 0
            &&& ts.last().kind == TokenKind::Eof
            &&& forall|k: int|
                0 <= k < ts.len() - 1 ==> (#[trigger] ts[k]).kind != TokenKind::Eof && (is_closed(
                    ts[k].kind,
                    ts[k].lexeme,
                ) || k == ts.len() - 2)
        },
    decreases s.len() - i,
{
    lemma_token_start(s, i);
    if let Ok(start) = token_start(s, i) {
        if start < s.len() {
            lemma_token_at(s, start);
            if let Some((kind, end)) = token_at(s, start) {
                lemma_lexed(s, end);
                if kind == TokenKind::String {
                    lemma_string_tokens(s, start);
                }
                if let Ok(rest) = lex_from(s, end) {
                    let ts = lex_from(s, i)->Ok_0;
                    assert(ts == seq![ts[0]] + rest);
                    assert forall|k: int| 0 <= k < ts.len() - 1 implies (#[trigger] ts[k]).kind
                        != TokenKind::Eof && (is_closed(ts[k].kind, ts[k].lexeme) || k == ts.len()
                        - 2) by {
                        if k > 0 {
                            assert(ts[k] == rest[k - 1]);
                        }
                    }
                }
            }
        }
    }
}

/// A string token that has no closing quote ends with the text.
proof fn lemma_string_tokens(s: Seq<char>, start: int)
    requires
        0 <= start < s.len(),
    ensures
        token_at(s, start) matches Some((kind, end)) ==> (kind == TokenKind::String ==> start < end
            <= s.len() && (is_closed(kind, s.subrange(start, end)) || end == s.len())),
{
    lemma_token_at(s, start);
    lemma_keywords(s, start);
    lemma_strings(s, start + 1);
}

/// Only a quote starts a string.
proof fn lemma_keywords(s: Seq<char>, start: int)
    requires
        0 <= start < s.len(),
    ensures
        token_at(s, start) matches Some((kind, end)) ==> (kind == TokenKind::String ==> s[start]
            == '"' && end == string_end(s, start + 1)),
{
}

pub open spec fn item_of(t: TokenView) -> ItemView {
    ItemView::Token { kind: t.kind, lexeme: t.lexeme }
}

/// Whether an item is a token of the list.
pub open spec fn is_one_of(ts: Seq<TokenView>, item: ItemView) -> bool {
    exists|t: int| 0 <= t < ts.len() - 1 && item_of(#[trigger] ts[t]) == item
}

/// Whether two items are neighbours in the list.
pub open spec fn are_neighbours(ts: Seq<TokenView>, a: ItemView, b: ItemView) -> bool {
    exists|t: int|
        0 <= t < ts.len() - 2 && item_of(#[trigger] ts[t]) == a && item_of(ts[t + 1]) == b
}

/// Two tokens that stand side by side among tokens and comments are neighbours.
proof fn lemma_neighbours(ts: Seq<TokenView>, i: int, cs: Seq<CommentView>, j: int)
    requires
        0 <= i,
        ts.len() > 0,
        ts.last().kind == TokenKind::Eof,
        forall|k: int| 0 <= k < ts.len() - 1 ==> (#[trigger] ts[k]).kind != TokenKind::Eof,
    ensures
        ({
            let items = merged(ts, i, cs, j);
            &&& items.len() > 0 && items[0] is Token ==> i < ts.len() - 1 && items[0] == item_of(
                ts[i],
            )
            &&& forall|k: int|
                0 <= k < items.len() && (#[trigger] items[k]) is Token ==> is_one_of(ts, items[k])
            &&& forall|k: int|
                0 <= k < items.len() - 1 && (#[trigger] items[k]) is Token && items[k + 1] is Token
                    ==> are_neighbours(ts, items[k], items[k + 1])
        }),
    decreases ts.len() - i, cs.len() - j,
{
    let items = merged(ts, i, cs, j);
    if 0 <= i < ts.len() && ts[i].kind == TokenKind::Eof {
        lemma_neighbours(ts, i + 1, cs, j);
    } else if 0 <= j < cs.len() && (i >= ts.len() || cs[j].end <= ts[i].span.start) {
        lemma_neighbours(ts, i, cs, j + 1);
        let rest = merged(ts, i, cs, j + 1);
        let first = ItemView::Comment { text: cs[j].text };
        assert(items == seq![first] + rest);
        lemma_behind_first(ts, first, rest);
    } else if i < ts.len() {
        lemma_neighbours(ts, i + 1, cs, j);
        let rest = merged(ts, i + 1, cs, j);
        let first = item_of(ts[i]);
        assert(items == seq![first] + rest);
        assert(is_one_of(ts, first));
        lemma_behind_first(ts, first, rest);
    }
}

proof fn lemma_behind_first(ts: Seq<TokenView>, first: ItemView, rest: Seq<ItemView>)
    requires
        first is Token ==> is_one_of(ts, first),
        first is Token && rest.len() > 0 && rest[0] is Token ==> are_neighbours(ts, first, rest[0]),
        forall|k: int|
            0 <= k < rest.len() && (#[trigger] rest[k]) is Token ==> is_one_of(ts, rest[k]),
        forall|k: int|
            0 <= k < rest.len() - 1 && (#[trigger] rest[k]) is Token && rest[k + 1] is Token
                ==> are_neighbours(ts, rest[k], rest[k + 1]),
    ensures
        ({
            let items = seq![first] + rest;
            &&& forall|k: int|
                0 <= k < items.len() && (#[trigger] items[k]) is Token ==> is_one_of(ts, items[k])
            &&& forall|k: int|
                0 <= k < items.len() - 1 && (#[trigger] items[k]) is Token && items[k + 1] is Token
                    ==> are_neighbours(ts, items[k], items[k + 1])
        }),
{
    let items = seq![first] + rest;
    assert forall|k: int| 0 <= k < items.len() && (#[trigger] items[k]) is Token implies is_one_of(
        ts,
        items[k],
    ) by {
        if k > 0 {
            assert(items[k] == rest[k - 1]);
        }
    }
    assert forall|k: int|
        0 <= k < items.len() - 1 && (#[trigger] items[k]) is Token && items[k
            + 1] is Token implies are_neighbours(ts, items[k], items[k + 1]) by {
        assert(items[k + 1] == rest[k]);
        if k > 0 {
            assert(items[k] == rest[k - 1]);
        }
    }
}

/// Whether no token that goes right behind what stands before it stands behind
/// a line comment.
pub open spec fn comments_end_lines(items: Seq<ItemView>) -> bool {
    forall|i: int| 1 <= i < items.len() ==> #[trigger] follows(items, i)
}

/// The tokens and comments of a program that parses can be told apart, where
/// line comments stand at the ends of lines that stay.
pub proof fn lemma_parsed_programs_can_be_told_apart(source: Seq<char>)
    requires
        parsed(source) is Ok,
        comments_end_lines(items_of(source, lex_from(source, 0)->Ok_0)),
    ensures
        lex_from(source, 0) is Ok,
        can_be_told_apart(items_of(source, lex_from(source, 0)->Ok_0)),
{
    let ts = lex_from(source, 0)->Ok_0;
    lemma_lexed(source, 0);
    lemma_module(ts, 0, Seq::empty(), Seq::empty());
    let q = module(ts, 0, Seq::empty(), Seq::empty())->Ok_0.1;
    assert(q == ts.len() - 1) by {
        if q < ts.len() - 1 {
            assert(ts[q].kind != TokenKind::Eof);
        }
    }
    let cs = comments_from(source, 0);
    lemma_neighbours(ts, 0, cs, 0);
    let items = items_of(source, ts);
    reveal(neat);
    assert forall|i: int| 0 <= i < items.len() implies #[trigger] stands_apart(items, i) && (
    items[i] matches ItemView::Token { kind, lexeme } ==> is_closed(kind, lexeme)) by {
        if i + 1 < items.len() {
            assert(follows(items, i + 1));
            lemma_pair(ts, items, i);
        }
        if i + 2 < items.len() {
            lemma_pair(ts, items, i + 1);
        }
        if items[i] is Token {
            let t = choose|t: int|
                0 <= t < ts.len() - 1 && item_of(#[trigger] ts[t]) == items[i];
            assert(item_of(ts[t]) == items[i]);
        }
    }
}

/// What is known of two neighbours.
proof fn lemma_pair(ts: Seq<TokenView>, items: Seq<ItemView>, i: int)
    requires
        0 <= i < items.len() - 1,
        neat(ts, 0, ts.len() - 1),
        items[i] is Token && items[i + 1] is Token ==> are_neighbours(ts, items[i], items[i + 1]),
    ensures
        is_kind(items[i], TokenKind::Dot) && items[i + 1] is Token ==> is_kind(
            items[i + 1],
            TokenKind::Identifier,
        ),
        !(is_kind(items[i], TokenKind::Colon) && is_kind(items[i + 1], TokenKind::Colon)),
{
    reveal(neat);
    if items[i] is Token && items[i + 1] is Token {
        let t = choose|t: int|
            0 <= t < ts.len() - 2 && item_of(#[trigger] ts[t]) == items[i] && item_of(ts[t + 1])
                == items[i + 1];
        assert(is_followed(ts, t));
    }
}

/// Formatting a program twice gives what formatting it once gives, and changes
/// nothing but white space, where line comments stand at the ends of lines that
/// stay.
pub proof fn lemma_programs_are_formatted_once(source: Seq<char>, text: Seq<char>)
    requires
        byte_offset(source, source.len() as int) <= usize::MAX,
        byte_offset(text, text.len() as int) <= usize::MAX,
        parsed(source) is Ok,
        comments_end_lines(items_of(source, lex_from(source, 0)->Ok_0)),
        formatted(source) == Ok::<Seq<char>, Seq<char>>(text),
    ensures
        formatted(text) == Ok::<Seq<char>, Seq<char>>(text),
        lex_from(text, 0) matches Ok(again) && items_of(text, again) == normals(
            items_of(source, lex_from(source, 0)->Ok_0),
        ),
{
    lemma_parsed_programs_can_be_told_apart(source);
    lemma_formatting_twice_changes_nothing(source, text);
}

/// The kinds and texts of tokens.
pub open spec fn words(ts: Seq<TokenView>) -> Seq<(TokenKind, Seq<char>)> {
    Seq::new(ts.len(), |i: int| (ts[i].kind, ts[i].lexeme))
}

/// Formatting a program without comments changes only white space, and
/// formatting it twice gives what formatting it once gives: every program that
/// parses can be formatted, the formatted text has the same tokens, and it is
/// formatted already.
pub proof fn lemma_plain_programs_are_formatted_once(source: Seq<char>, text: Seq<char>)
    requires
        byte_offset(source, source.len() as int) <= usize::MAX,
        byte_offset(text, text.len() as int) <= usize::MAX,
        parsed(source) is Ok,
        comments_from(source, 0).len() == 0,
        formatted(source) == Ok::<Seq<char>, Seq<char>>(text),
    ensures
        formatted(text) == Ok::<Seq<char>, Seq<char>>(text),
        lex_from(text, 0) matches Ok(again) && words(again) == words(
            lex_from(source, 0)->Ok_0,
        ),
{
    let ts = lex_from(source, 0)->Ok_0;
    let items = items_of(source, ts);
    lemma_lexed(source, 0);
    lemma_tokens_alone(ts, 0, comments_from(source, 0));
    assert(comments_end_lines(items));
    lemma_programs_are_formatted_once(source, text);
    let again = lex_from(text, 0)->Ok_0;
    lemma_lexed(text, 0);
    let cs = comments_from(text, 0);
    assert(normals(items) =~= items);
    lemma_no_comments(again, 0, cs, 0);
    lemma_tokens_alone(again, 0, cs);
    lemma_ends(source, 0);
    lemma_ends(text, 0);
    assert(items_of(text, again).len() == again.len() - 1);
    assert(again.last().lexeme =~= ts.last().lexeme);
    assert forall|k: int| 0 <= k < ts.len() implies words(again)[k] == #[trigger] words(ts)[k] by {
        if k < ts.len() - 1 {
            assert(items_of(text, again)[k] == items[k]);
        }
    }
    assert(words(again) =~= words(ts));
}

/// The end marker has no text.
proof fn lemma_ends(s: Seq<char>, i: int)
    requires
        0 <= i <= s.len(),
    ensures
        lex_from(s, i) matches Ok(ts) ==> ts.len() > 0 && ts.last().lexeme.len() == 0,
    decreases s.len() - i,
{
    lemma_token_start(s, i);
    if let Ok(start) = token_start(s, i) {
        if start < s.len() {
            lemma_token_at(s, start);
            if let Some((_, end)) = token_at(s, start) {
                lemma_ends(s, end);
            }
        }
    }
}

/// Without comments the items are the tokens, but for the end marker.
proof fn lemma_tokens_alone(ts: Seq<TokenView>, i: int, cs: Seq<CommentView>)
    requires
        0 <= i < ts.len(),
        ts.last().kind == TokenKind::Eof,
        forall|k: int| 0 <= k < ts.len() - 1 ==> (#[trigger] ts[k]).kind != TokenKind::Eof,
        cs.len() == 0,
    ensures
        merged(ts, i, cs, 0) == Seq::new((ts.len() - 1 - i) as nat, |k: int| item_of(ts[i + k])),
    decreases ts.len() - i,
{
    let items = Seq::new((ts.len() - 1 - i) as nat, |k: int| item_of(ts[i + k]));
    if i < ts.len() - 1 {
        lemma_tokens_alone(ts, i + 1, cs);
        assert(merged(ts, i, cs, 0) =~= items);
    } else {
        assert(merged(ts, i + 1, cs, 0) =~= Seq::empty());
        assert(items =~= Seq::empty());
    }
}

/// Where no item is a comment, there are none.
proof fn lemma_no_comments(ts: Seq<TokenView>, i: int, cs: Seq<CommentView>, j: int)
    requires
        0 <= i,
        0 <= j <= cs.len(),
        forall|k: int|
            0 <= k < merged(ts, i, cs, j).len() ==> (#[trigger] merged(ts, i, cs, j)[k]) is Token,
    ensures
        j == cs.len(),
    decreases ts.len() - i,
{
    let items = merged(ts, i, cs, j);
    if j < cs.len() {
        if i < ts.len() && ts[i].kind == TokenKind::Eof {
            lemma_no_comments(ts, i + 1, cs, j);
        } else if i >= ts.len() || cs[j].end <= ts[i].span.start {
            assert(items[0] is Comment);
        } else {
            let rest = merged(ts, i + 1, cs, j);
            assert forall|k: int| 0 <= k < rest.len() implies (#[trigger] rest[k]) is Token by {
                assert(items[k + 1] == rest[k]);
            }
            lemma_no_comments(ts, i + 1, cs, j);
        }
    }
}

} // verus!
