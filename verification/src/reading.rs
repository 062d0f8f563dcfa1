//! Source text is read as it is written.
use crate::ast::{BinaryOp, ExprView, UnaryOp};
use crate::grammar::{
    after_first_dot, arguments, at, binary, binary_operator, binary_rest, call_at, expression,
    is_name, named, onward, postfix, postfix_rest, primary, qualified_name, unary, unary_operator,
};
use crate::lexer::{
    lemma_token_start, lex_from, lex_step, token_at, token_start, word_end, TokenKind, TokenView,
};
use crate::text::{find_from, signed_value, without};
use vstd::prelude::*;

verus! {

// ---------------------------------------------------------------------------
// Tokens
// ---------------------------------------------------------------------------

/// How a token of a kind is written, where there is only one way.
pub open spec fn spelling(kind: TokenKind) -> Option<Seq<char>> {
    match kind {
        TokenKind::Ellipsis => Some(seq!['.', '.', '.']),
        TokenKind::Fn => Some("fn"@),
        TokenKind::Import => Some("import"@),
        TokenKind::Extern => Some("extern"@),
        TokenKind::Export => Some("export"@),
        TokenKind::Let => Some("let"@),
        TokenKind::Var => Some("var"@),
        TokenKind::If => Some("if"@),
        TokenKind::Else => Some("else"@),
        TokenKind::Return => Some("return"@),
        TokenKind::Struct => Some("struct"@),
        TokenKind::Enum => Some("enum"@),
        TokenKind::Union => Some("union"@),
        TokenKind::While => Some("while"@),
        TokenKind::Break => Some("break"@),
        TokenKind::Continue => Some("continue"@),
        TokenKind::Defer => Some("defer"@),
        TokenKind::For => Some("for"@),
        TokenKind::True => Some("true"@),
        TokenKind::False => Some("false"@),
        TokenKind::Null => Some("null"@),
        TokenKind::Hash => Some(seq!['#']),
        TokenKind::Plus => Some(seq!['+']),
        TokenKind::Minus => Some(seq!['-']),
        TokenKind::Star => Some(seq!['*']),
        TokenKind::Slash => Some(seq!['/']),
        TokenKind::Percent => Some(seq!['%']),
        TokenKind::Equal => Some(seq!['=']),
        TokenKind::EqualEqual => Some(seq!['=', '=']),
        TokenKind::Bang => Some(seq!['!']),
        TokenKind::BangEqual => Some(seq!['!', '=']),
        TokenKind::Less => Some(seq!['<']),
        TokenKind::LessEqual => Some(seq!['<', '=']),
        TokenKind::ShiftLeft => Some(seq!['<', '<']),
        TokenKind::Greater => Some(seq!['>']),
        TokenKind::GreaterEqual => Some(seq!['>', '=']),
        TokenKind::ShiftRight => Some(seq!['>', '>']),
        TokenKind::Ampersand => Some(seq!['&']),
        TokenKind::AmpersandAmpersand => Some(seq!['&', '&']),
        TokenKind::Pipe => Some(seq!['|']),
        TokenKind::PipePipe => Some(seq!['|', '|']),
        TokenKind::Caret => Some(seq!['^']),
        TokenKind::Tilde => Some(seq!['~']),
        TokenKind::Arrow => Some(seq!['-', '>']),
        TokenKind::FatArrow => Some(seq!['=', '>']),
        TokenKind::Question => Some(seq!['?']),
        TokenKind::ColonEqual => Some(seq![':', '=']),
        TokenKind::DoubleColon => Some(seq![':', ':']),
        TokenKind::Dot => Some(seq!['.']),
        TokenKind::Comma => Some(seq![',']),
        TokenKind::Semicolon => Some(seq![';']),
        TokenKind::Colon => Some(seq![':']),
        TokenKind::LParen => Some(seq!['(']),
        TokenKind::RParen => Some(seq![')']),
        TokenKind::LBracket => Some(seq!['[']),
        TokenKind::RBracket => Some(seq![']']),
        TokenKind::LBrace => Some(seq!['{']),
        TokenKind::RBrace => Some(seq!['}']),
        _ => None,
    }
}

/// Whether a token is of the kind that its text is: an operator, a mark or a
/// keyword is written in its one way, and a name has no dot.
pub open spec fn is_spelled(token: TokenView) -> bool {
    &&& spelling(token.kind) matches Some(text) ==> token.lexeme == text
    &&& token.kind == TokenKind::Identifier ==> !token.lexeme.contains('.')
}

pub open spec fn are_spelled(ts: Seq<TokenView>) -> bool {
    forall|i: int| 0 <= i < ts.len() ==> is_spelled(#[trigger] ts[i])
}

proof fn lemma_words_have_no_dots(s: Seq<char>, i: int)
    requires
        0 <= i <= s.len(),
    ensures
        i <= word_end(s, i) <= s.len(),
        forall|j: int| i <= j < word_end(s, i) ==> #[trigger] s[j] != '.',
    decreases s.len() - i,
{
    if i < s.len() && crate::lexer::is_identifier_part(s[i]) {
        lemma_words_have_no_dots(s, i + 1);
    }
}

proof fn lemma_token_is_spelled(s: Seq<char>, i: int)
    requires
        0 <= i < s.len(),
    ensures
        token_at(s, i) matches Some((kind, end)) ==> is_spelled(
            TokenView {
                kind,
                lexeme: s.subrange(i, end),
                span: crate::lexer::span_of(s, i, end),
            },
        ),
{
    if let Some((kind, end)) = token_at(s, i) {
        let text = s.subrange(i, end);
        if crate::lexer::is_identifier_start(s[i]) {
            lemma_words_have_no_dots(s, i + 1);
            assert forall|j: int| 0 <= j < text.len() implies #[trigger] text[j] != '.' by {
                assert(text[j] == s[i + j]);
            }
        } else if let Some(written) = spelling(kind) {
            assert(text =~= written);
        }
    }
}

/// Every token is of the kind that its text is.
pub proof fn lemma_tokens_are_spelled(s: Seq<char>, i: int)
    requires
        0 <= i <= s.len(),
    ensures
        lex_from(s, i) matches Ok(ts) ==> are_spelled(ts),
    decreases s.len() - i,
{
    lemma_token_start(s, i);
    if let (Ok(token), end) = lex_step(s, i) {
        if let Ok(start) = token_start(s, i) {
            if start < s.len() {
                lemma_token_is_spelled(s, start);
            }
        }
        assert(is_spelled(token));
        if !(token.kind == TokenKind::Eof || end <= i || end > s.len()) {
            lemma_tokens_are_spelled(s, end);
            if let Ok(rest) = lex_from(s, end) {
                let ts = seq![token] + rest;
                assert forall|k: int| 0 <= k < ts.len() implies is_spelled(#[trigger] ts[k]) by {
                    if k > 0 {
                        assert(ts[k] == rest[k - 1]);
                    }
                }
            }
        }
    }
}

// ---------------------------------------------------------------------------
// Expressions
// ---------------------------------------------------------------------------

/// How an operator between two operands is written.
pub open spec fn symbol(op: BinaryOp) -> Seq<char> {
    match op {
        BinaryOp::Add => seq!['+'],
        BinaryOp::Subtract => seq!['-'],
        BinaryOp::Multiply => seq!['*'],
        BinaryOp::Divide => seq!['/'],
        BinaryOp::Modulo => seq!['%'],
        BinaryOp::Equal => seq!['=', '='],
        BinaryOp::NotEqual => seq!['!', '='],
        BinaryOp::Less => seq!['<'],
        BinaryOp::LessEqual => seq!['<', '='],
        BinaryOp::Greater => seq!['>'],
        BinaryOp::GreaterEqual => seq!['>', '='],
        BinaryOp::ShiftLeft => seq!['<', '<'],
        BinaryOp::ShiftRight => seq!['>', '>'],
        BinaryOp::LogicalAnd => seq!['&', '&'],
        BinaryOp::LogicalOr => seq!['|', '|'],
        BinaryOp::BitwiseAnd => seq!['&'],
        BinaryOp::BitwiseOr => seq!['|'],
        BinaryOp::BitwiseXor => seq!['^'],
    }
}

/// How an operator before its operand is written.
pub open spec fn prefix(op: UnaryOp) -> Seq<char> {
    match op {
        UnaryOp::Negate => seq!['-'],
        UnaryOp::Not => seq!['!'],
        UnaryOp::BitwiseNot => seq!['~'],
        UnaryOp::AddressOf => seq!['&'],
        UnaryOp::Dereference => seq!['*'],
    }
}

/// How tightly operators bind: products before sums, sums before shifts, shifts
/// before orderings, orderings before equality, and equality before `&`, `^`,
/// `|`, `&&` and `||`, in that order.
pub open spec fn tightness(op: BinaryOp) -> int {
    match op {
        BinaryOp::Multiply => 10,
        BinaryOp::Divide => 10,
        BinaryOp::Modulo => 10,
        BinaryOp::Add => 9,
        BinaryOp::Subtract => 9,
        BinaryOp::ShiftLeft => 8,
        BinaryOp::ShiftRight => 8,
        BinaryOp::Less => 7,
        BinaryOp::LessEqual => 7,
        BinaryOp::Greater => 7,
        BinaryOp::GreaterEqual => 7,
        BinaryOp::Equal => 6,
        BinaryOp::NotEqual => 6,
        BinaryOp::BitwiseAnd => 5,
        BinaryOp::BitwiseXor => 4,
        BinaryOp::BitwiseOr => 3,
        BinaryOp::LogicalAnd => 2,
        BinaryOp::LogicalOr => 1,
    }
}

/// The level of what stands behind a prefix operator.
pub open spec fn prefixed() -> int {
    11
}

/// The level of what stands before a dot, a bracket, a parenthesis or `?`.
pub open spec fn postfixed() -> int {
    12
}

/// Whether the tokens from `p` up to `q` are written for an expression that
/// binds at least as tightly as a level says, or that stands in parentheses. Of
/// some expressions only that they end there is said.
pub open spec fn reads(ts: Seq<TokenView>, p: int, q: int, e: ExprView, level: int) -> bool
    decreases q - p, 0int,
{
    &&& 0 <= p < q <= ts.len()
    &&& (p + 2 < q && ts[p].lexeme == seq!['('] && ts[q - 1].lexeme == seq![')'] && reads(
        ts,
        p + 1,
        q - 1,
        e,
        0,
    )) || match e {
        ExprView::Binary { left, operator, right, .. } => {
            &&& tightness(operator) >= level
            &&& exists|m: int|
                p < m && m + 1 < q && (#[trigger] ts[m]).lexeme == symbol(operator) && reads(
                    ts,
                    p,
                    m,
                    *left,
                    tightness(operator),
                ) && reads(ts, m + 1, q, *right, tightness(operator) + 1)
        },
        ExprView::Unary { operator, operand, .. } => {
            &&& prefixed() >= level
            &&& ts[p].lexeme == prefix(operator)
            &&& p + 1 < q && reads(ts, p + 1, q, *operand, prefixed())
        },
        ExprView::Integer { value, .. } => p + 1 == q && signed_value(without(ts[p].lexeme, '_'))
            == Some(value as int),
        ExprView::Bool { value, .. } => p + 1 == q && ts[p].lexeme == if value {
            "true"@
        } else {
            "false"@
        },
        ExprView::Null { .. } => p + 1 == q && ts[p].lexeme == "null"@,
        ExprView::Identifier { name, .. } => p + 1 == q && ts[p].lexeme == name,
        ExprView::Field { base, name, .. } => {
            &&& ts[q - 1].lexeme == name
            &&& p + 2 < q && ts[q - 2].lexeme == seq!['.'] && reads(
                ts,
                p,
                q - 2,
                *base,
                postfixed(),
            )
        },
        ExprView::Index { base, index, .. } => {
            &&& ts[q - 1].lexeme == seq![']']
            &&& exists|m: int|
                p < m && m + 2 < q && (#[trigger] ts[m]).lexeme == seq!['['] && reads(
                    ts,
                    p,
                    m,
                    *base,
                    postfixed(),
                ) && reads(ts, m + 1, q - 1, *index, 0)
        },
        ExprView::Propagate { expression: base, .. } => {
            &&& ts[q - 1].lexeme == seq!['?']
            &&& p + 1 < q && reads(ts, p, q - 1, *base, postfixed())
        },
        ExprView::Call { callee, arguments: given, .. } => {
            &&& ts[q - 1].lexeme == seq![')']
            &&& exists|m: int|
                p < m && m + 1 < q && (#[trigger] ts[m]).lexeme == seq!['('] && reads(
                    ts,
                    p,
                    m,
                    *callee,
                    postfixed(),
                ) && reads_all(ts, m + 1, q - 1, given)
        },
        ExprView::Comptime { expression: inner, .. } => {
            &&& ts[p].lexeme == seq!['#']
            &&& p + 1 < q && reads(ts, p + 1, q, *inner, prefixed())
        },
        _ => true,
    }
}

/// Whether the tokens from `p` up to `q` are written for expressions with commas
/// between them, and perhaps one behind the last.
pub open spec fn reads_all(ts: Seq<TokenView>, p: int, q: int, es: Seq<ExprView>) -> bool
    decreases q - p, 1int,
{
    if es.len() == 0 {
        p == q
    } else {
        exists|m: int|
            p < m <= q && reads(ts, p, m, es[0], 0) && if m == q {
                es.len() == 1
            } else {
                (#[trigger] ts[m]).lexeme == seq![','] && reads_all(ts, m + 1, q, es.drop_first())
            }
    }
}

/// What binds tightly binds less tightly too.
proof fn lemma_looser(ts: Seq<TokenView>, p: int, q: int, e: ExprView, level: int, less: int)
    requires
        reads(ts, p, q, e, level),
        less <= level,
    ensures
        reads(ts, p, q, e, less),
{
}

/// Whether no operator that binds as tightly as a level stands at `q`.
spec fn stops(ts: Seq<TokenView>, q: int, level: int) -> bool {
    0 <= q < ts.len() ==> (binary_operator(ts[q].kind) matches Some(op) ==> tightness(op) < level)
}

/// An expression is read as its tokens are written: operands and arguments stand
/// in order, each operator is the one that is written, and it joins what it
/// binds most tightly, from left to right.
pub proof fn lemma_expressions_are_read_as_written(ts: Seq<TokenView>, p: int)
    requires
        are_spelled(ts),
    ensures
        expression(ts, p) matches Ok((e, q)) ==> reads(ts, p, q, e, 0),
    decreases ts.len() - p, 6int,
{
    lemma_binary(ts, p, 0);
}

proof fn lemma_binary(ts: Seq<TokenView>, p: int, minimum: int)
    requires
        are_spelled(ts),
        minimum <= prefixed(),
    ensures
        binary(ts, p, minimum) matches Ok((e, q)) ==> reads(ts, p, q, e, minimum) && stops(
            ts,
            q,
            minimum,
        ),
    decreases ts.len() - p, 5int,
{
    lemma_unary(ts, p);
    if let Ok((left, q)) = unary(ts, p) {
        if onward(ts, p, q) {
            lemma_binary_rest(ts, p, q, left, prefixed(), minimum);
        }
    }
}

proof fn lemma_binary_rest(
    ts: Seq<TokenView>,
    p: int,
    q: int,
    left: ExprView,
    level: int,
    minimum: int,
)
    requires
        are_spelled(ts),
        reads(ts, p, q, left, level),
        minimum <= level,
        stops(ts, q, level + 1),
    ensures
        binary_rest(ts, q, left, minimum) matches Ok((e, r)) ==> reads(ts, p, r, e, minimum)
            && stops(ts, r, minimum),
    decreases ts.len() - q, 4int,
{
    if !(0 <= q < ts.len()) {
        lemma_looser(ts, p, q, left, level, minimum);
    } else {
        match binary_operator(ts[q].kind) {
            None => {
                lemma_looser(ts, p, q, left, level, minimum);
            },
            Some(operator) => {
                let own = tightness(operator);
                assert(is_spelled(ts[q]));
                assert(ts[q].lexeme == symbol(operator));
                if own < minimum {
                    lemma_looser(ts, p, q, left, level, minimum);
                } else {
                    lemma_binary(ts, q + 1, own + 1);
                    if let Ok((right, r)) = binary(ts, q + 1, own + 1) {
                        if onward(ts, q, r) {
                            let whole = ExprView::Binary {
                                left: Box::new(left),
                                operator,
                                right: Box::new(right),
                                span: crate::lexer::Span {
                                    start: left.span().start,
                                    end: right.span().end,
                                },
                            };
                            lemma_looser(ts, p, q, left, level, own);
                            assert(reads(ts, p, r, whole, own));
                            lemma_binary_rest(ts, p, r, whole, own, minimum);
                        }
                    }
                }
            },
        }
    }
}

proof fn lemma_unary(ts: Seq<TokenView>, p: int)
    requires
        are_spelled(ts),
    ensures
        unary(ts, p) matches Ok((e, q)) ==> reads(ts, p, q, e, prefixed()),
    decreases ts.len() - p, 3int,
{
    if 0 <= p < ts.len() {
        assert(is_spelled(ts[p]));
        match unary_operator(ts[p].kind) {
            None => {
                lemma_postfix(ts, p);
                if let Ok((e, q)) = postfix(ts, p) {
                    lemma_looser(ts, p, q, e, postfixed(), prefixed());
                }
            },
            Some(operator) => {
                lemma_unary(ts, p + 1);
            },
        }
    }
}

proof fn lemma_postfix(ts: Seq<TokenView>, p: int)
    requires
        are_spelled(ts),
    ensures
        postfix(ts, p) matches Ok((e, q)) ==> reads(ts, p, q, e, postfixed()),
    decreases ts.len() - p, 2int,
{
    lemma_primary(ts, p);
    if let Ok((e, q)) = primary(ts, p) {
        if onward(ts, p, q) {
            lemma_postfix_rest(ts, p, q, e);
        }
    }
}

proof fn lemma_postfix_rest(ts: Seq<TokenView>, p: int, q: int, base: ExprView)
    requires
        are_spelled(ts),
        reads(ts, p, q, base, postfixed()),
    ensures
        postfix_rest(ts, q, base) matches Ok((e, r)) ==> reads(ts, p, r, e, postfixed()),
    decreases ts.len() - q, 1int,
{
    let start = base.span().start;
    if 0 <= q < ts.len() {
        assert(is_spelled(ts[q]));
    }
    if at(ts, q, TokenKind::Dot) {
        if let Ok((field, r)) = crate::grammar::identifier(ts, q + 1) {
            let whole = ExprView::Field {
                base: Box::new(base),
                name: field.lexeme,
                span: crate::lexer::Span { start, end: field.span.end },
            };
            assert(reads(ts, p, r, whole, postfixed()));
            lemma_postfix_rest(ts, p, r, whole);
        }
    } else if at(ts, q, TokenKind::LBracket) {
        lemma_expressions_are_read_as_written(ts, q + 1);
        if let Ok((index, r)) = expression(ts, q + 1) {
            if let Ok((closing, u)) = crate::grammar::token_of(ts, r, TokenKind::RBracket) {
                if onward(ts, q, u) {
                    assert(is_spelled(ts[r]));
                    let whole = ExprView::Index {
                        base: Box::new(base),
                        index: Box::new(index),
                        span: crate::lexer::Span { start, end: closing.span.end },
                    };
                    assert(reads(ts, p, u, whole, postfixed()));
                    lemma_postfix_rest(ts, p, u, whole);
                }
            }
        }
    } else if at(ts, q, TokenKind::Question) {
        let whole = ExprView::Propagate {
            expression: Box::new(base),
            span: crate::lexer::Span { start, end: ts[q].span.end },
        };
        assert(reads(ts, p, q + 1, whole, postfixed()));
        lemma_postfix_rest(ts, p, q + 1, whole);
    } else if at(ts, q, TokenKind::LParen) {
        lemma_call(ts, p, q, base);
        if let Ok((call, r)) = call_at(ts, q, base) {
            if onward(ts, q, r) {
                lemma_postfix_rest(ts, p, r, call);
            }
        }
    }
}

proof fn lemma_call(ts: Seq<TokenView>, p: int, q: int, base: ExprView)
    requires
        are_spelled(ts),
        reads(ts, p, q, base, postfixed()),
    ensures
        call_at(ts, q, base) matches Ok((e, r)) ==> (onward(ts, q, r) ==> reads(
            ts,
            p,
            r,
            e,
            postfixed(),
        )),
    decreases ts.len() - q, 0int,
{
    if at(ts, q, TokenKind::LParen) {
        assert(is_spelled(ts[q]));
        if !is_name(base, "size_of"@) && !is_name(base, "align_of"@) && !is_name(
            base,
            "offset_of"@,
        ) {
            if at(ts, q + 1, TokenKind::RParen) {
                assert(is_spelled(ts[q + 1]));
                assert(reads_all(ts, q + 1, q + 1, Seq::<ExprView>::empty()));
            } else {
                lemma_arguments(ts, q + 1, Seq::empty());
                if let Ok((found, r)) = arguments(ts, q + 1, Seq::empty()) {
                    assert(found.skip(0) =~= found);
                    if at(ts, r, TokenKind::RParen) {
                        assert(is_spelled(ts[r]));
                    }
                }
            }
        }
    }
}

proof fn lemma_arguments(ts: Seq<TokenView>, p: int, before: Seq<ExprView>)
    requires
        are_spelled(ts),
    ensures
        arguments(ts, p, before) matches Ok((found, q)) ==> {
            &&& before.len() < found.len()
            &&& found.take(before.len() as int) == before
            &&& p < q <= ts.len()
            &&& reads_all(ts, p, q, found.skip(before.len() as int))
        },
    decreases ts.len() - p, 7int,
{
    let n = before.len() as int;
    lemma_expressions_are_read_as_written(ts, p);
    if let Ok((argument, q)) = expression(ts, p) {
        let more = before.push(argument);
        assert(more.take(n) =~= before);
        let one = more.skip(n);
        assert(one =~= seq![argument]);
        assert(one.drop_first() =~= Seq::<ExprView>::empty());
        if at(ts, q, TokenKind::Comma) && onward(ts, p, q) {
            assert(is_spelled(ts[q]));
            if at(ts, q + 1, TokenKind::RParen) {
                assert(reads(ts, p, q, one[0], 0));
                assert(reads_all(ts, q + 1, q + 1, one.drop_first()));
                assert(reads_all(ts, p, q + 1, one));
            } else {
                lemma_arguments(ts, q + 1, more);
                if let Ok((found, r)) = arguments(ts, q + 1, more) {
                    let all = found.skip(n);
                    assert(found.take(n) =~= before) by {
                        assert(found.take(n) =~= found.take(n + 1).take(n));
                    }
                    assert(all[0] == argument) by {
                        assert(found.take(n + 1)[n] == more[n]);
                    }
                    assert(all.drop_first() =~= found.skip(n + 1));
                    assert(reads(ts, p, q, all[0], 0));
                    assert(reads_all(ts, p, r, all));
                }
            }
        } else {
            assert(reads(ts, p, q, one[0], 0));
            assert(reads_all(ts, p, q, one)) by {
                let behind = ts[q];
            }
        }
    }
}

proof fn lemma_primary(ts: Seq<TokenView>, p: int)
    requires
        are_spelled(ts),
    ensures
        primary(ts, p) matches Ok((e, q)) ==> (onward(ts, p, q) ==> reads(
            ts,
            p,
            q,
            e,
            postfixed(),
        )),
    decreases ts.len() - p, 1int,
{
    if 0 <= p < ts.len() {
        assert(is_spelled(ts[p]));
        match ts[p].kind {
            TokenKind::Hash => {
                lemma_unary(ts, p + 1);
            },
            TokenKind::Identifier => {
                lemma_named(ts, p);
            },
            TokenKind::LParen => {
                lemma_expressions_are_read_as_written(ts, p + 1);
                if let Ok((inner, q)) = expression(ts, p + 1) {
                    if at(ts, q, TokenKind::RParen) {
                        assert(is_spelled(ts[q]));
                        assert(reads(ts, p, q + 1, inner, postfixed()));
                    }
                }
            },
            _ => {},
        }
    }
}

proof fn lemma_named(ts: Seq<TokenView>, p: int)
    requires
        are_spelled(ts),
        at(ts, p, TokenKind::Identifier),
    ensures
        named(ts, p) matches Ok((e, q)) ==> (onward(ts, p, q) ==> reads(
            ts,
            p,
            q,
            e,
            postfixed(),
        )),
{
    if let Ok((name, q)) = qualified_name(ts, p) {
        assert(is_spelled(ts[p]));
        if q != p + 1 {
            assert(is_spelled(ts[p + 1]) && is_spelled(ts[p + 2]));
            lemma_after_dot(ts[p].lexeme, ts[p + 2].lexeme);
            let first = ExprView::Identifier { name: ts[p].lexeme, span: ts[p].span };
            assert(reads(ts, p, p + 1, first, postfixed()));
        }
    }
}

/// The part behind the dot of a name of two parts.
proof fn lemma_after_dot(a: Seq<char>, b: Seq<char>)
    requires
        !a.contains('.'),
        !b.contains('.'),
    ensures
        after_first_dot(a + "."@ + b) == b,
{
    reveal_strlit(".");
    let name = a + "."@ + b;
    let n = a.len() as int;
    assert("."@ =~= seq!['.']);
    assert(name[n] == '.');
    assert forall|i: int| 0 <= i < n implies #[trigger] name[i] != '.' by {
        assert(name[i] == a[i]);
        assert(a.contains(a[i]));
    }
    assert forall|i: int| n + 1 <= i < name.len() implies #[trigger] name[i] != '.' by {
        assert(name[i] == b[i - n - 1]);
        assert(b.contains(b[i - n - 1]));
    }
    lemma_found_at(name, 0, n);
    lemma_not_found(name, n + 1);
    assert(name.subrange(n + 1, name.len() as int) =~= b);
}

proof fn lemma_found_at(s: Seq<char>, i: int, k: int)
    requires
        0 <= i <= k < s.len(),
        s[k] == '.',
        forall|j: int| i <= j < k ==> #[trigger] s[j] != '.',
    ensures
        find_from(s, i, '.') == k,
    decreases k - i,
{
    if i < k {
        assert(s[i] != '.');
        lemma_found_at(s, i + 1, k);
    }
}

proof fn lemma_not_found(s: Seq<char>, i: int)
    requires
        0 <= i <= s.len(),
        forall|j: int| i <= j < s.len() ==> #[trigger] s[j] != '.',
    ensures
        find_from(s, i, '.') == s.len(),
    decreases s.len() - i,
{
    if i < s.len() {
        assert(s[i] != '.');
        lemma_not_found(s, i + 1);
    }
}

} // verus!
