//! Formatting twice: what the formatter writes, it reads back as it was.
use crate::formatter::{
    comments_from, comment_placed, ends_with, formatted, indented, is_spaced, is_white, items_of,
    laid_out, lemma_stripped, lemma_stripped_twice, line_broken, merged, placed, run_end, shown,
    spaces, starts_comment, stripped, token_placed, with, CommentView, ItemView, LayoutView,
};
use crate::lexer::{
    at, block_end, digits_end, is_identifier_part, is_identifier_start, lemma_token_at,
    lemma_token_start, lex_from, line_end, operator_at, span_of, string_end, token_at, token_start,
    word_end, TokenKind, TokenView,
};
use crate::text::{byte_offset, find_from, is_digit, is_space, lemma_byte_offset_increases};
use vstd::prelude::*;

verus! {

// ---------------------------------------------------------------------------
// Reading tokens and comments in one go
// ---------------------------------------------------------------------------

pub open spec fn preceded(item: ItemView, rest: Option<Seq<ItemView>>) -> Option<Seq<ItemView>> {
    match rest {
        Some(items) => Some(seq![item] + items),
        None => None,
    }
}

/// The tokens and comments from character `i` on, if all of it can be read.
pub open spec fn scanned(s: Seq<char>, i: int) -> Option<Seq<ItemView>>
    decreases s.len() - i,
{
    if i < 0 || i >= s.len() {
        Some(Seq::empty())
    } else if is_space(s[i]) {
        scanned(s, i + 1)
    } else if s[i] == '/' && at(s, i + 1, '/') {
        let end = find_from(s, i + 2, '\n');
        if i < end <= s.len() {
            preceded(ItemView::Comment { text: s.subrange(i, end) }, scanned(s, end))
        } else {
            None
        }
    } else if s[i] == '/' && at(s, i + 1, '*') {
        match block_end(s, i + 2) {
            Some(end) => if i < end <= s.len() {
                preceded(ItemView::Comment { text: s.subrange(i, end) }, scanned(s, end))
            } else {
                None
            },
            None => None,
        }
    } else {
        match token_at(s, i) {
            Some((kind, end)) => if i < end <= s.len() {
                preceded(
                    ItemView::Token { kind, lexeme: s.subrange(i, end) },
                    scanned(s, end),
                )
            } else {
                None
            },
            None => None,
        }
    }
}

proof fn lemma_find(s: Seq<char>, i: int, c: char)
    requires
        0 <= i <= s.len(),
    ensures
        i <= find_from(s, i, c) <= s.len(),
        find_from(s, i, c) < s.len() ==> s[find_from(s, i, c)] == c,
        forall|j: int| i <= j < find_from(s, i, c) ==> #[trigger] s[j] != c,
    decreases s.len() - i,
{
    if i < s.len() && s[i] != c {
        lemma_find(s, i + 1, c);
    }
}

proof fn lemma_line_end(s: Seq<char>, i: int)
    requires
        0 <= i <= s.len(),
    ensures
        ({
            let e = find_from(s, i, '\n');
            line_end(s, i) == if e < s.len() {
                e + 1
            } else {
                e
            }
        }),
    decreases s.len() - i,
{
    if i < s.len() && s[i] != '\n' {
        lemma_line_end(s, i + 1);
    }
}

proof fn lemma_block(s: Seq<char>, i: int)
    requires
        0 <= i,
    ensures
        block_end(s, i) matches Some(end) ==> i + 2 <= end <= s.len() && s[end - 1] == '/' && s[end
            - 2] == '*' && forall|j: int|
            i <= j < end - 2 ==> !(#[trigger] s[j] == '*' && at(s, j + 1, '/')),
    decreases s.len() - i,
{
    if i < s.len() && !(s[i] == '*' && at(s, i + 1, '/')) {
        lemma_block(s, i + 1);
    }
}

/// A string ends behind the first quote, or with the text.
pub proof fn lemma_strings(s: Seq<char>, i: int)
    requires
        0 <= i <= s.len(),
    ensures
        i <= string_end(s, i) <= s.len(),
        i < s.len() ==> i < string_end(s, i),
        forall|j: int| i <= j < string_end(s, i) - 1 ==> #[trigger] s[j] != '"',
        string_end(s, i) > i && s[string_end(s, i) - 1] != '"' ==> string_end(s, i) == s.len(),
    decreases s.len() - i,
{
    if i < s.len() && s[i] != '"' {
        lemma_strings(s, i + 1);
    }
}

proof fn lemma_words(s: Seq<char>, i: int)
    requires
        0 <= i <= s.len(),
    ensures
        i <= word_end(s, i) <= s.len(),
        forall|j: int| i <= j < word_end(s, i) ==> is_identifier_part(#[trigger] s[j]),
        word_end(s, i) < s.len() ==> !is_identifier_part(s[word_end(s, i)]),
    decreases s.len() - i,
{
    if i < s.len() && is_identifier_part(s[i]) {
        lemma_words(s, i + 1);
    }
}

proof fn lemma_digits(s: Seq<char>, i: int)
    requires
        0 <= i <= s.len(),
    ensures
        i <= digits_end(s, i) <= s.len(),
        forall|j: int|
            i <= j < digits_end(s, i) ==> is_digit(#[trigger] s[j]) || s[j] == '_',
        digits_end(s, i) < s.len() ==> !(is_digit(s[digits_end(s, i)]) || s[digits_end(s, i)]
            == '_'),
    decreases s.len() - i,
{
    if i < s.len() && (is_digit(s[i]) || s[i] == '_') {
        lemma_digits(s, i + 1);
    }
}

/// Lexing only looks at where the next token starts.
proof fn lemma_same_start(s: Seq<char>, i: int, j: int)
    requires
        0 <= i <= j <= s.len(),
        token_start(s, i) == token_start(s, j),
    ensures
        lex_from(s, i) == lex_from(s, j),
{
    lemma_token_start(s, j);
    if let Ok(start) = token_start(s, j) {
        if start < s.len() {
            lemma_token_at(s, start);
        }
    }
}

proof fn lemma_merged_tokens(
    t: TokenView,
    ts: Seq<TokenView>,
    k: int,
    cs: Seq<CommentView>,
    j: int,
)
    requires
        0 <= k,
    ensures
        merged(seq![t] + ts, k + 1, cs, j) == merged(ts, k, cs, j),
    decreases ts.len() - k, cs.len() - j,
{
    let all = seq![t] + ts;
    if k < ts.len() {
        assert(all[k + 1] == ts[k]);
        if ts[k].kind == TokenKind::Eof {
            lemma_merged_tokens(t, ts, k + 1, cs, j);
        } else if 0 <= j < cs.len() && cs[j].end <= ts[k].span.start {
            lemma_merged_tokens(t, ts, k, cs, j + 1);
        } else {
            lemma_merged_tokens(t, ts, k + 1, cs, j);
        }
    } else if 0 <= j < cs.len() {
        lemma_merged_tokens(t, ts, k, cs, j + 1);
    }
}

proof fn lemma_merged_comments(
    ts: Seq<TokenView>,
    k: int,
    c: CommentView,
    cs: Seq<CommentView>,
    j: int,
)
    requires
        0 <= k,
        0 <= j,
    ensures
        merged(ts, k, seq![c] + cs, j + 1) == merged(ts, k, cs, j),
    decreases ts.len() - k, cs.len() - j,
{
    let all = seq![c] + cs;
    if j < cs.len() {
        assert(all[j + 1] == cs[j]);
    }
    if k < ts.len() && ts[k].kind == TokenKind::Eof {
        lemma_merged_comments(ts, k + 1, c, cs, j);
    } else if j < cs.len() && (k >= ts.len() || cs[j].end <= ts[k].span.start) {
        lemma_merged_comments(ts, k, c, cs, j + 1);
    } else if k < ts.len() {
        lemma_merged_comments(ts, k + 1, c, cs, j);
    }
}

/// Comments end behind where they are looked for.
proof fn lemma_comment_ends(s: Seq<char>, i: int)
    requires
        0 <= i <= s.len(),
    ensures
        forall|j: int|
            0 <= j < comments_from(s, i).len() ==> (#[trigger] comments_from(s, i)[j]).end
                > byte_offset(s, i),
    decreases s.len() - i,
{
    if i < s.len() {
        let end = run_end(s, i);
        if i < end <= s.len() {
            lemma_comment_ends(s, end);
            lemma_byte_offset_increases(s, i, end);
            let all = comments_from(s, i);
            let rest = comments_from(s, end);
            if starts_comment(s, i) {
                assert forall|j: int| 0 <= j < all.len() implies (#[trigger] all[j]).end
                    > byte_offset(s, i) by {
                    if j > 0 {
                        assert(all[j] == rest[j - 1]);
                    }
                }
            }
        }
    }
}

/// No comment starts within a run of characters that are neither a quote nor
/// a slash.
proof fn lemma_no_comments_within(s: Seq<char>, i: int, end: int)
    requires
        0 <= i <= end <= s.len(),
        forall|j: int| i <= j < end ==> #[trigger] s[j] != '"' && s[j] != '/',
    ensures
        comments_from(s, i) == comments_from(s, end),
    decreases end - i,
{
    if i < end {
        assert(s[i] != '"' && s[i] != '/');
        lemma_no_comments_within(s, i + 1, end);
    }
}

/// No comment starts within a token.
proof fn lemma_no_comments_in_token(s: Seq<char>, i: int)
    requires
        0 <= i < s.len(),
        !starts_comment(s, i),
    ensures
        token_at(s, i) matches Some((_, end)) ==> comments_from(s, i) == comments_from(s, end),
{
    lemma_token_at(s, i);
    if let Some((kind, end)) = token_at(s, i) {
        let c = s[i];
        if is_identifier_start(c) {
            lemma_words(s, i + 1);
            lemma_no_comments_within(s, i, end);
        } else if is_digit(c) {
            lemma_digits(s, i);
            let whole = digits_end(s, i);
            if whole + 1 < s.len() {
                lemma_digits(s, whole + 1);
            }
            lemma_no_comments_within(s, i, end);
        } else if c == '"' {
            assert(run_end(s, i) == end);
        } else if c == '/' {
            assert(run_end(s, i) == i + 1);
        } else {
            assert(end <= i + 3);
            lemma_no_comments_within(s, i, end);
        }
    }
}

/// Reading in one go gives what lexing, looking for comments and merging give.
proof fn lemma_scanned(s: Seq<char>, i: int)
    requires
        0 <= i <= s.len(),
        byte_offset(s, s.len() as int) <= usize::MAX,
    ensures
        match lex_from(s, i) {
            Ok(tokens) => scanned(s, i) == Some(merged(tokens, 0, comments_from(s, i), 0)),
            Err(_) => scanned(s, i) is None,
        },
    decreases s.len() - i,
{
    if i == s.len() {
        let tokens = lex_from(s, i)->Ok_0;
        assert(comments_from(s, i) =~= Seq::empty());
        assert(merged(tokens, 1, comments_from(s, i), 0) =~= Seq::empty());
    } else if is_space(s[i]) {
        lemma_scanned(s, i + 1);
        lemma_same_start(s, i, i + 1);
        assert(!starts_comment(s, i) && run_end(s, i) == i + 1);
    } else if s[i] == '/' && at(s, i + 1, '/') {
        let end = find_from(s, i + 2, '\n');
        lemma_find(s, i + 2, '\n');
        lemma_line_end(s, i + 2);
        lemma_token_start(s, line_end(s, i + 2));
        if end < s.len() {
            assert(token_start(s, end) == token_start(s, end + 1));
        }
        lemma_same_start(s, i, end);
        lemma_scanned(s, end);
        lemma_comment_scanned(s, i, end);
    } else if s[i] == '/' && at(s, i + 1, '*') {
        lemma_block(s, i + 2);
        match block_end(s, i + 2) {
            Some(end) => {
                lemma_same_start(s, i, end);
                lemma_scanned(s, end);
                lemma_comment_scanned(s, i, end);
            },
            None => {
                assert(lex_from(s, i) is Err);
            },
        }
    } else {
        assert(token_start(s, i) == Ok::<int, crate::lexer::LexError>(i));
        lemma_token_at(s, i);
        if let Some((kind, end)) = token_at(s, i) {
            lemma_scanned(s, end);
            lemma_no_comments_in_token(s, i);
            if let Ok(rest) = lex_from(s, end) {
                let token = TokenView {
                    kind,
                    lexeme: s.subrange(i, end),
                    span: span_of(s, i, end),
                };
                let cs = comments_from(s, i);
                lemma_comment_ends(s, end);
                lemma_byte_offset_increases(s, i, end);
                lemma_byte_offset_increases(s, i, s.len() as int);
                lemma_merged_tokens(token, rest, 0, cs, 0);
                assert(lex_from(s, i) == Ok::<Seq<TokenView>, crate::lexer::LexError>(
                    seq![token] + rest,
                ));
                assert((seq![token] + rest)[0] == token);
            }
        }
    }
}

/// A comment is merged before what follows it.
proof fn lemma_comment_scanned(s: Seq<char>, i: int, end: int)
    requires
        0 <= i < end <= s.len(),
        byte_offset(s, s.len() as int) <= usize::MAX,
        starts_comment(s, i),
        run_end(s, i) == end,
        lex_from(s, i) == lex_from(s, end),
    ensures
        lex_from(s, i) matches Ok(tokens) ==> merged(tokens, 0, comments_from(s, i), 0) == seq![
            ItemView::Comment { text: s.subrange(i, end) },
        ] + merged(tokens, 0, comments_from(s, end), 0),
{
    if let Ok(tokens) = lex_from(s, end) {
        let c = CommentView { end: byte_offset(s, end), text: s.subrange(i, end) };
        let cs = comments_from(s, end);
        let all = seq![c] + cs;
        assert(comments_from(s, i) == all);
        assert(all[0] == c);
        lemma_token_start(s, end);
        let start = token_start(s, end)->Ok_0;
        lemma_byte_offset_increases(s, end, start);
        lemma_byte_offset_increases(s, start, s.len() as int);
        if start < s.len() {
            lemma_token_at(s, start);
        }
        assert(tokens[0].span.start == byte_offset(s, start));
        if tokens[0].kind == TokenKind::Eof {
            assert(start >= s.len());
            assert(tokens.len() == 1);
            lemma_merged_comments(tokens, 1, c, cs, 0);
            assert(merged(tokens, 0, all, 0) == merged(tokens, 1, all, 0));
            assert(merged(tokens, 1, all, 0) == seq![ItemView::Comment { text: c.text }]
                + merged(tokens, 1, all, 1));
            assert(merged(tokens, 0, cs, 0) == merged(tokens, 1, cs, 0));
        } else {
            lemma_merged_comments(tokens, 0, c, cs, 0);
        }
    }
}

// ---------------------------------------------------------------------------
// What items read by themselves
// ---------------------------------------------------------------------------

pub open spec fn is_line_comment(text: Seq<char>) -> bool {
    &&& text.len() >= 2
    &&& text[0] == '/' && text[1] == '/'
    &&& forall|j: int| 0 <= j < text.len() ==> #[trigger] text[j] != '\n'
}

pub open spec fn is_block_comment(text: Seq<char>) -> bool {
    &&& text.len() >= 4
    &&& text[0] == '/' && text[1] == '*'
    &&& block_end(text, 2) == Some(text.len() as int)
}

/// Whether a text is a token of the kind, and nothing else.
pub open spec fn is_whole_token(kind: TokenKind, lexeme: Seq<char>) -> bool {
    &&& lexeme.len() > 0
    &&& !is_space(lexeme[0])
    &&& !starts_comment(lexeme, 0)
    &&& token_at(lexeme, 0) == Some((kind, lexeme.len() as int))
}

/// Whether a string literal has its closing quote.
pub open spec fn is_closed(kind: TokenKind, lexeme: Seq<char>) -> bool {
    kind == TokenKind::String ==> lexeme.len() >= 2 && lexeme.last() == '"'
}

/// Whether an item reads as itself.
pub open spec fn reads_alone(item: ItemView) -> bool {
    match item {
        ItemView::Comment { text } => is_line_comment(text) || is_block_comment(text),
        ItemView::Token { kind, lexeme } => is_whole_token(kind, lexeme),
    }
}

proof fn lemma_word_local(s: Seq<char>, i: int, end: int, j: int)
    requires
        0 <= i <= j <= end <= s.len(),
        word_end(s, j) == end,
    ensures
        word_end(s.subrange(i, end), j - i) == end - i,
    decreases end - j,
{
    let t = s.subrange(i, end);
    lemma_words(s, j);
    if j < end {
        assert(is_identifier_part(s[j]));
        assert(t[j - i] == s[j]);
        lemma_word_local(s, i, end, j + 1);
    }
}

proof fn lemma_digits_local(s: Seq<char>, i: int, end: int, j: int, stop: int)
    requires
        0 <= i <= j <= stop <= end <= s.len(),
        digits_end(s, j) == stop,
    ensures
        digits_end(s.subrange(i, end), j - i) == stop - i,
    decreases stop - j,
{
    let t = s.subrange(i, end);
    lemma_digits(s, j);
    if j < stop {
        assert(t[j - i] == s[j]);
        lemma_digits_local(s, i, end, j + 1, stop);
    } else if stop < end {
        assert(t[j - i] == s[j]);
    }
}

proof fn lemma_string_local(s: Seq<char>, i: int, end: int, j: int)
    requires
        0 <= i <= j <= end <= s.len(),
        string_end(s, j) == end,
    ensures
        string_end(s.subrange(i, end), j - i) == end - i,
    decreases end - j,
{
    let t = s.subrange(i, end);
    lemma_strings(s, j);
    if j < end {
        assert(t[j - i] == s[j]);
        if s[j] != '"' {
            lemma_string_local(s, i, end, j + 1);
        }
    }
}

/// A token reads the same without what stands around it.
proof fn lemma_token_local(s: Seq<char>, i: int)
    requires
        0 <= i < s.len(),
        !is_space(s[i]),
        !starts_comment(s, i),
    ensures
        token_at(s, i) matches Some((kind, end)) ==> is_whole_token(kind, s.subrange(i, end)),
{
    lemma_token_at(s, i);
    if let Some((kind, end)) = token_at(s, i) {
        let t = s.subrange(i, end);
        let c = s[i];
        assert(t[0] == c);
        assert(t.len() > 1 ==> t[1] == s[i + 1]);
        assert(t.len() > 2 ==> t[2] == s[i + 2]);
        if is_identifier_start(c) {
            lemma_word_local(s, i, end, i + 1);
            assert(t.subrange(0, end - i) =~= s.subrange(i, end));
        } else if is_digit(c) {
            let whole = digits_end(s, i);
            lemma_digits(s, i);
            if whole + 1 < s.len() {
                lemma_digits(s, whole + 1);
            }
            lemma_digits_local(s, i, end, i, whole);
            if at(s, whole, '.') && whole + 1 < s.len() && is_digit(s[whole + 1]) {
                lemma_digits_local(s, i, end, whole + 1, end);
                assert(t[whole - i] == s[whole]);
                assert(t[whole + 1 - i] == s[whole + 1]);
            } else {
                assert(end == whole);
            }
        } else if c == '"' {
            lemma_string_local(s, i, end, i + 1);
        }
    }
}

proof fn lemma_block_local(s: Seq<char>, i: int, end: int, j: int)
    requires
        0 <= i <= j <= end <= s.len(),
        block_end(s, j) == Some(end),
    ensures
        block_end(s.subrange(i, end), j - i) == Some(end - i),
    decreases end - j,
{
    let t = s.subrange(i, end);
    lemma_block(s, j);
    assert(t[j - i] == s[j]);
    assert(j + 1 < end ==> t[j + 1 - i] == s[j + 1]);
    if !(s[j] == '*' && at(s, j + 1, '/')) {
        lemma_block_local(s, i, end, j + 1);
    }
}

/// Every item that is read reads as itself.
proof fn lemma_scanned_reads_alone(s: Seq<char>, i: int)
    requires
        0 <= i,
    ensures
        scanned(s, i) matches Some(items) ==> forall|k: int|
            0 <= k < items.len() ==> reads_alone(#[trigger] items[k]),
    decreases s.len() - i,
{
    if i < s.len() {
        if is_space(s[i]) {
            lemma_scanned_reads_alone(s, i + 1);
        } else if s[i] == '/' && at(s, i + 1, '/') {
            let end = find_from(s, i + 2, '\n');
            lemma_find(s, i + 2, '\n');
            lemma_scanned_reads_alone(s, end);
            let text = s.subrange(i, end);
            assert forall|j: int| 0 <= j < text.len() implies #[trigger] text[j] != '\n' by {
                assert(text[j] == s[i + j]);
            }
            lemma_preceded(ItemView::Comment { text }, scanned(s, end));
        } else if s[i] == '/' && at(s, i + 1, '*') {
            lemma_block(s, i + 2);
            if let Some(end) = block_end(s, i + 2) {
                lemma_scanned_reads_alone(s, end);
                lemma_block_local(s, i, end, i + 2);
                let text = s.subrange(i, end);
                assert(text[0] == '/' && text[1] == '*');
                lemma_preceded(ItemView::Comment { text }, scanned(s, end));
            }
        } else {
            lemma_token_at(s, i);
            lemma_token_local(s, i);
            if let Some((kind, end)) = token_at(s, i) {
                lemma_scanned_reads_alone(s, end);
                lemma_preceded(
                    ItemView::Token { kind, lexeme: s.subrange(i, end) },
                    scanned(s, end),
                );
            }
        }
    }
}

proof fn lemma_preceded(item: ItemView, rest: Option<Seq<ItemView>>)
    requires
        reads_alone(item),
        rest matches Some(items) ==> forall|k: int|
            0 <= k < items.len() ==> reads_alone(#[trigger] items[k]),
    ensures
        preceded(item, rest) matches Some(items) ==> forall|k: int|
            0 <= k < items.len() ==> reads_alone(#[trigger] items[k]),
{
    if let Some(items) = rest {
        let all = seq![item] + items;
        assert forall|k: int| 0 <= k < all.len() implies reads_alone(#[trigger] all[k]) by {
            if k > 0 {
                assert(all[k] == items[k - 1]);
            }
        }
    }
}

// ---------------------------------------------------------------------------
// What may follow a token
// ---------------------------------------------------------------------------

/// Whether a token of a text keeps its end where `d` follows it, and `e`
/// behind that, if anything does.
pub open spec fn keeps_its_end(
    kind: TokenKind,
    lexeme: Seq<char>,
    d: char,
    e: Option<char>,
) -> bool {
    let c = lexeme[0];
    if is_identifier_start(c) {
        !is_identifier_part(d)
    } else if kind == TokenKind::Integer {
        !is_digit(d) && d != '_' && !(d == '.' && (e matches Some(x) && is_digit(x)))
    } else if kind == TokenKind::Float {
        !is_digit(d) && d != '_'
    } else if kind == TokenKind::String {
        true
    } else if lexeme.len() >= 2 {
        true
    } else {
        &&& c == '.' ==> !(d == '.' && e == Some('.'))
        &&& c == '/' ==> d != '/' && d != '*'
        &&& c == '-' || c == '=' ==> d != '>'
        &&& c == '=' || c == '!' || c == '<' || c == '>' || c == ':' ==> d != '='
        &&& c == '<' || c == '>' || c == '&' || c == '|' || c == ':' ==> d != c
    }
}

/// The character at a place, if the text is that long.
pub open spec fn char_at(s: Seq<char>, i: int) -> Option<char> {
    if 0 <= i < s.len() {
        Some(s[i])
    } else {
        None
    }
}

/// Whether a text stands at a place of another one.
pub open spec fn stands_at(s: Seq<char>, q: int, text: Seq<char>) -> bool {
    0 <= q && q + text.len() <= s.len() && s.subrange(q, q + text.len()) == text
}

proof fn lemma_word_extends(s: Seq<char>, q: int, t: Seq<char>, j: int)
    requires
        stands_at(s, q, t),
        0 <= j <= t.len(),
        word_end(t, j) == t.len(),
        q + t.len() < s.len(),
        !is_identifier_part(s[q + t.len()]),
    ensures
        word_end(s, q + j) == q + t.len(),
    decreases t.len() - j,
{
    lemma_words(t, j);
    if j < t.len() {
        assert(t[j] == s.subrange(q, q + t.len())[j]);
        assert(is_identifier_part(t[j]));
        lemma_word_extends(s, q, t, j + 1);
    }
}

proof fn lemma_digits_extend(s: Seq<char>, q: int, t: Seq<char>, j: int, stop: int)
    requires
        stands_at(s, q, t),
        0 <= j <= stop <= t.len(),
        digits_end(t, j) == stop,
        stop == t.len() ==> q + t.len() < s.len() && !is_digit(s[q + t.len()]) && s[q + t.len()]
            != '_',
    ensures
        digits_end(s, q + j) == q + stop,
    decreases stop - j,
{
    lemma_digits(t, j);
    if j < t.len() {
        assert(t[j] == s.subrange(q, q + t.len())[j]);
    }
    if j < stop {
        lemma_digits_extend(s, q, t, j + 1, stop);
    }
}

proof fn lemma_string_extends(s: Seq<char>, q: int, t: Seq<char>, j: int)
    requires
        stands_at(s, q, t),
        1 <= j < t.len(),
        string_end(t, j) == t.len(),
        t.last() == '"',
    ensures
        string_end(s, q + j) == q + t.len(),
    decreases t.len() - j,
{
    lemma_strings(t, j);
    assert(t[j] == s.subrange(q, q + t.len())[j]);
    if j + 1 < t.len() {
        assert(t[j] != '"');
        lemma_string_extends(s, q, t, j + 1);
    }
}

/// A token reads the same where something follows that it keeps its end by.
proof fn lemma_token_extends(s: Seq<char>, q: int, kind: TokenKind, t: Seq<char>)
    requires
        is_whole_token(kind, t),
        is_closed(kind, t),
        stands_at(s, q, t),
        q + t.len() < s.len(),
        keeps_its_end(kind, t, s[q + t.len()], char_at(s, q + t.len() + 1)),
    ensures
        token_at(s, q) == Some((kind, q + t.len())),
        !is_space(s[q]),
        !starts_comment(s, q),
{
    let n = t.len() as int;
    let sub = s.subrange(q, q + n);
    assert(sub == t);
    assert(t[0] == sub[0]);
    assert(n > 1 ==> t[1] == sub[1]);
    assert(n > 2 ==> t[2] == sub[2]);
    let c = t[0];
    if is_identifier_start(c) {
        lemma_word_extends(s, q, t, 1);
        assert(t.subrange(0, n) =~= t);
    } else if is_digit(c) {
        let whole = digits_end(t, 0);
        lemma_digits(t, 0);
        if at(t, whole, '.') && whole + 1 < n && is_digit(t[whole + 1]) {
            lemma_digits(t, whole + 1);
            lemma_digits_extend(s, q, t, 0, whole);
            assert(t[whole] == sub[whole]);
            assert(t[whole + 1] == sub[whole + 1]);
            lemma_digits_extend(s, q, t, whole + 1, n);
        } else {
            assert(kind == TokenKind::Integer && whole == n);
            lemma_digits_extend(s, q, t, 0, n);
        }
    } else if c == '"' {
        lemma_string_extends(s, q, t, 1);
    } else {
        assert(operator_at(t, 0) is Some);
    }
}

// ---------------------------------------------------------------------------
// How items stand in what is laid out
// ---------------------------------------------------------------------------

/// White space as the formatter writes it.
pub open spec fn is_plain(c: char) -> bool {
    c == ' ' || c == '\n'
}

/// The text of an item as it is written.
pub open spec fn written(item: ItemView) -> Seq<char> {
    match item {
        ItemView::Comment { text } => stripped(text),
        ItemView::Token { lexeme, .. } => lexeme,
    }
}

/// Whether an item goes right behind what stands before it.
pub open spec fn pulls_back(item: ItemView) -> bool {
    match item {
        ItemView::Comment { .. } => false,
        ItemView::Token { kind: k, .. } => k == TokenKind::Semicolon || k == TokenKind::Comma || k
            == TokenKind::RParen || k == TokenKind::RBracket || k == TokenKind::Dot || k
            == TokenKind::Colon,
    }
}

pub open spec fn is_kind(item: ItemView, kind: TokenKind) -> bool {
    item matches ItemView::Token { kind: k, .. } && k == kind
}

/// Whether nothing is written between two items only if they may stand
/// together.
pub open spec fn may_touch(a: ItemView, b: ItemView) -> bool {
    ||| pulls_back(b)
    ||| is_kind(b, TokenKind::LBracket)
    ||| is_kind(a, TokenKind::LParen)
    ||| is_kind(a, TokenKind::LBracket)
    ||| is_kind(a, TokenKind::RParen)
    ||| is_kind(a, TokenKind::RBracket)
    ||| is_kind(a, TokenKind::Dot)
    ||| is_kind(a, TokenKind::Fn) && is_kind(b, TokenKind::LParen)
}

pub open spec fn is_line(item: ItemView) -> bool {
    item matches ItemView::Comment { text } && is_line_comment(text)
}

/// Where item `i` ends; the start of the text for the item before the first.
pub open spec fn end_of(items: Seq<ItemView>, places: Seq<int>, i: int) -> int {
    if i < 0 {
        0
    } else {
        places[i] + written(items[i]).len()
    }
}

/// Whether item `i` stands at its place, behind the one before it, with plain
/// white space between.
pub open spec fn stands(s: Seq<char>, items: Seq<ItemView>, places: Seq<int>, i: int) -> bool {
    let before = end_of(items, places, i - 1);
    &&& 0 <= before <= places[i]
    &&& stands_at(s, places[i], written(items[i]))
    &&& forall|j: int| before <= j < places[i] ==> is_plain(#[trigger] s[j])
    &&& i > 0 && before == places[i] ==> may_touch(items[i - 1], items[i])
    &&& i > 0 && is_line(items[i - 1]) ==> before < places[i] && s[before] == '\n'
}

/// Whether the text is the first `n` items at their places.
pub open spec fn spells(s: Seq<char>, items: Seq<ItemView>, places: Seq<int>, n: int) -> bool {
    &&& 0 <= n <= items.len()
    &&& places.len() == n
    &&& forall|i: int| 0 <= i < n ==> #[trigger] stands(s, items, places, i)
    &&& 0 <= end_of(items, places, n - 1) <= s.len()
    &&& forall|j: int|
        end_of(items, places, n - 1) <= j < s.len() ==> is_plain(#[trigger] s[j])
}

/// Whether an item ends in something solid, so that stripping stops there.
pub open spec fn ends_solid(item: ItemView) -> bool {
    written(item).len() > 0 && !is_white(written(item).last())
}

proof fn lemma_strip_to(s: Seq<char>, end: int)
    requires
        0 <= end <= s.len(),
        end > 0 ==> !is_white(s[end - 1]),
        forall|j: int| end <= j < s.len() ==> is_plain(#[trigger] s[j]),
    ensures
        stripped(s) == s.take(end),
    decreases s.len(),
{
    if s.len() > end {
        assert(is_plain(s[s.len() - 1]));
        assert forall|j: int| end <= j < s.drop_last().len() implies is_plain(
            #[trigger] s.drop_last()[j],
        ) by {
            assert(s.drop_last()[j] == s[j]);
        }
        lemma_strip_to(s.drop_last(), end);
        assert(s.drop_last().take(end) =~= s.take(end));
    } else {
        assert(s.take(end) =~= s);
    }
}

/// Stripping a text that is spelled stops at the last item.
proof fn lemma_strip_spelled(s: Seq<char>, items: Seq<ItemView>, places: Seq<int>, n: int)
    requires
        spells(s, items, places, n),
        n > 0 ==> ends_solid(items[n - 1]),
    ensures
        stripped(s) == s.take(end_of(items, places, n - 1)),
        spells(stripped(s), items, places, n),
{
    let end = end_of(items, places, n - 1);
    if n > 0 {
        assert(stands(s, items, places, n - 1));
        let t = written(items[n - 1]);
        assert(s.subrange(places[n - 1], end)[t.len() - 1] == s[end - 1]);
    }
    lemma_strip_to(s, end);
    lemma_same_start_spells(s, s.take(end), items, places, n);
}

/// Spelling only looks at the text up to the last item, and at white space
/// behind it.
proof fn lemma_same_start_spells(
    s: Seq<char>,
    t: Seq<char>,
    items: Seq<ItemView>,
    places: Seq<int>,
    n: int,
)
    requires
        spells(s, items, places, n),
        end_of(items, places, n - 1) <= t.len(),
        forall|j: int| 0 <= j < end_of(items, places, n - 1) ==> #[trigger] t[j] == s[j],
        forall|j: int|
            end_of(items, places, n - 1) <= j < t.len() ==> is_plain(#[trigger] t[j]),
    ensures
        spells(t, items, places, n),
{
    let last = end_of(items, places, n - 1);
    assert forall|i: int| 0 <= i < n implies #[trigger] stands(t, items, places, i) by {
        assert(stands(s, items, places, i));
        lemma_ends_grow(s, items, places, n, i);
        let q = places[i];
        let w = written(items[i]);
        let before = end_of(items, places, i - 1);
        assert(t.subrange(q, q + w.len()) =~= s.subrange(q, q + w.len()));
        assert forall|j: int| before <= j < q implies is_plain(#[trigger] t[j]) by {
            assert(is_plain(s[j]));
        }
    }
}

proof fn lemma_ends_grow(s: Seq<char>, items: Seq<ItemView>, places: Seq<int>, n: int, i: int)
    requires
        spells(s, items, places, n),
        0 <= i < n,
    ensures
        end_of(items, places, i) <= end_of(items, places, n - 1),
    decreases n - i,
{
    if i < n - 1 {
        assert(stands(s, items, places, i + 1));
        lemma_ends_grow(s, items, places, n, i + 1);
    }
}

/// One more item behind what is spelled: white space, the item, and white
/// space again.
proof fn lemma_spells_more(
    s: Seq<char>,
    items: Seq<ItemView>,
    places: Seq<int>,
    n: int,
    gap: Seq<char>,
    tail: Seq<char>,
)
    requires
        spells(s, items, places, n),
        n < items.len(),
        forall|j: int| 0 <= j < gap.len() ==> is_plain(#[trigger] gap[j]),
        forall|j: int| 0 <= j < tail.len() ==> is_plain(#[trigger] tail[j]),
        n > 0 && end_of(items, places, n - 1) == s.len() + gap.len() ==> may_touch(
            items[n - 1],
            items[n],
        ),
        n > 0 && is_line(items[n - 1]) ==> end_of(items, places, n - 1) < s.len() && s[end_of(
            items,
            places,
            n - 1,
        )] == '\n',
    ensures
        spells(
            s + gap + written(items[n]) + tail,
            items,
            places.push((s.len() + gap.len()) as int),
            n + 1,
        ),
{
    let w = written(items[n]);
    let q = (s.len() + gap.len()) as int;
    let t = s + gap + w + tail;
    let more = places.push(q);
    let last = end_of(items, places, n - 1);
    assert forall|i: int| 0 <= i < n + 1 implies #[trigger] stands(t, items, more, i) by {
        if i < n {
            assert(stands(s, items, places, i));
            lemma_ends_grow(s, items, places, n, i);
            let p = places[i];
            let x = written(items[i]);
            assert(more[i] == p);
            assert(i > 0 ==> more[i - 1] == places[i - 1]);
            let before = end_of(items, more, i - 1);
            assert(before == end_of(items, places, i - 1));
            assert(t.subrange(p, p + x.len()) =~= s.subrange(p, p + x.len()));
            assert forall|j: int| before <= j < p implies is_plain(#[trigger] t[j]) by {
                assert(is_plain(s[j]));
                assert(t[j] == s[j]);
            }
        } else {
            assert(n > 0 ==> more[n - 1] == places[n - 1]);
            let before = end_of(items, more, n - 1);
            assert(before == last);
            assert(t.subrange(q, q + w.len()) =~= w);
            assert forall|j: int| before <= j < q implies is_plain(#[trigger] t[j]) by {
                if j < s.len() {
                    assert(is_plain(s[j]));
                    assert(t[j] == s[j]);
                } else {
                    assert(is_plain(gap[j - s.len()]));
                    assert(t[j] == gap[j - s.len()]);
                }
            }
            if n > 0 && is_line(items[n - 1]) {
                assert(t[before] == s[before]);
            }
        }
    }
    let end = end_of(items, more, n);
    assert(end == q + w.len());
    assert forall|j: int| end <= j < t.len() implies is_plain(#[trigger] t[j]) by {
        assert(t[j] == tail[j - end]);
    }
}

/// What a layout's flags say of its text.
pub open spec fn flags_fit(l: LayoutView, items: Seq<ItemView>, places: Seq<int>, n: int) -> bool {
    let solid = n > 0 && end_of(items, places, n - 1) == l.out.len();
    &&& solid && l.line_start ==> is_kind(items[n - 1], TokenKind::RParen) || is_kind(
        items[n - 1],
        TokenKind::RBracket,
    ) || is_kind(items[n - 1], TokenKind::Dot)
    &&& solid && !l.need_space ==> is_kind(items[n - 1], TokenKind::LParen) || is_kind(
        items[n - 1],
        TokenKind::LBracket,
    ) || is_kind(items[n - 1], TokenKind::Dot)
    &&& l.prev matches Some(k) ==> n > 0 && is_kind(items[n - 1], k)
    &&& n > 0 && is_line(items[n - 1]) ==> end_of(items, places, n - 1) < l.out.len()
        && l.out[end_of(items, places, n - 1)] == '\n'
}

/// Whether an item does not go behind a line comment that would swallow it.
pub open spec fn follows(items: Seq<ItemView>, n: int) -> bool {
    n > 0 && is_line(items[n - 1]) ==> !pulls_back(items[n]) && !(items[n] matches
        ItemView::Token { kind, .. } && is_spaced(kind))
}

pub open spec fn fits(l: LayoutView, items: Seq<ItemView>, places: Seq<int>, n: int) -> bool {
    spells(l.out, items, places, n) && flags_fit(l, items, places, n)
}

/// Whether tokens of one character are written as that character.
pub open spec fn spelled_right(item: ItemView) -> bool {
    match item {
        ItemView::Comment { .. } => true,
        ItemView::Token { kind, lexeme } => {
            &&& kind == TokenKind::LBrace ==> lexeme == seq!['{']
            &&& kind == TokenKind::RBrace ==> lexeme == seq!['}']
            &&& kind == TokenKind::Semicolon ==> lexeme == seq![';']
            &&& kind == TokenKind::Comma ==> lexeme == seq![',']
            &&& kind == TokenKind::LParen ==> lexeme == seq!['(']
            &&& kind == TokenKind::LBracket ==> lexeme == seq!['[']
            &&& kind == TokenKind::Dot ==> lexeme == seq!['.']
            &&& kind == TokenKind::Colon ==> lexeme == seq![':']
            &&& kind == TokenKind::RParen ==> lexeme == seq![')']
            &&& kind == TokenKind::RBracket ==> lexeme == seq![']']
        },
    }
}

/// The gap that `with` and the indent make before an item.
pub open spec fn gap_of(l: LayoutView, wanted: bool, c: char) -> Seq<char> {
    let first = if wanted {
        seq![c]
    } else {
        Seq::empty()
    };
    if l.line_start {
        first + spaces(4 * l.indent)
    } else {
        first
    }
}

proof fn lemma_gap(l: LayoutView, wanted: bool, c: char)
    requires
        is_plain(c),
    ensures
        forall|j: int|
            0 <= j < gap_of(l, wanted, c).len() ==> is_plain(#[trigger] gap_of(l, wanted, c)[j]),
        indented(LayoutView { out: with(l.out, wanted, c), ..l }) =~= l.out + gap_of(l, wanted, c),
{
}

/// A line break adds white space only.
proof fn lemma_broken_fits(
    l: LayoutView,
    k: TokenKind,
    items: Seq<ItemView>,
    places: Seq<int>,
    n: int,
)
    requires
        fits(l, items, places, n),
    ensures
        fits(line_broken(l, k), items, places, n),
        line_broken(l, k).prev == Some(TokenKind::RBrace) && !line_broken(l, k).line_start
            ==> crate::formatter::stays_behind_brace(k),
{
    let b = line_broken(l, k);
    if b.out != l.out {
        lemma_same_start_spells(l.out, b.out, items, places, n);
    }
}

/// A text that ends with an item ends solid.
proof fn lemma_solid_end(s: Seq<char>, items: Seq<ItemView>, places: Seq<int>, n: int)
    requires
        spells(s, items, places, n),
        n > 0,
        ends_solid(items[n - 1]),
        end_of(items, places, n - 1) == s.len(),
    ensures
        s.len() > 0,
        !is_white(s.last()),
{
    let q = places[n - 1];
    let x = written(items[n - 1]);
    assert(stands(s, items, places, n - 1));
    assert(s.subrange(q, q + x.len())[x.len() - 1] == s[s.len() - 1]);
}

proof fn lemma_comment_fits(
    l: LayoutView,
    text: Seq<char>,
    items: Seq<ItemView>,
    places: Seq<int>,
    n: int,
) -> (more: Seq<int>)
    requires
        0 <= n < items.len(),
        fits(l, items, places, n),
        n > 0 ==> ends_solid(items[n - 1]),
        ends_solid(items[n]),
        spelled_right(items[n]),
        follows(items, n),
        items[n] == (ItemView::Comment { text }),
    ensures
        fits(comment_placed(l, text), items, more, n + 1),
{
    let w = written(items[n]);
    let wanted = !l.line_start && !ends_with(l.out, '\n');
    let gap = gap_of(l, wanted, ' ');
    lemma_gap(l, wanted, ' ');
    let tail = seq!['\n'];
    if n > 0 && end_of(items, places, n - 1) == l.out.len() {
        lemma_solid_end(l.out, items, places, n);
    }
    lemma_spells_more(l.out, items, places, n, gap, tail);
    let more = places.push((l.out.len() + gap.len()) as int);
    let after = comment_placed(l, text);
    assert(after.out =~= l.out + gap + w + tail);
    assert(end_of(items, more, n) == l.out.len() + gap.len() + w.len());
    assert(after.out[end_of(items, more, n)] == '\n');
    more
}

/// What placing a token comes to, once the line is broken.
pub open spec fn settled(b: LayoutView, k: TokenKind, lexeme: Seq<char>) -> LayoutView {
    let prev = Some(k);
    if k == TokenKind::LBrace {
        let wanted = !b.line_start && !ends_with(b.out, ' ');
        LayoutView {
            out: (b.out + gap_of(b, wanted, ' ')).push('{').push('\n'),
            indent: b.indent + 1,
            line_start: true,
            need_space: false,
            prev,
        }
    } else if k == TokenKind::RBrace {
        let closed = closed_layout(b);
        LayoutView {
            out: (b.out + gap_of(closed, !b.line_start, '\n')).push('}'),
            line_start: false,
            need_space: true,
            prev,
            ..closed
        }
    } else if k == TokenKind::LParen {
        let wanted = b.need_space && b.prev != Some(TokenKind::Fn);
        LayoutView {
            out: with(b.out + gap_of(b, false, ' '), wanted, ' ').push('('),
            line_start: false,
            need_space: false,
            prev,
            ..b
        }
    } else if k == TokenKind::LBracket {
        LayoutView {
            out: (b.out + gap_of(b, false, ' ')).push('['),
            line_start: false,
            need_space: false,
            prev,
            ..b
        }
    } else {
        let shown = b.out + gap_of(b, false, ' ');
        let wanted = (b.need_space || b.prev == Some(TokenKind::RBrace)) && !ends_with(shown, ' ')
            && !ends_with(shown, '\n');
        LayoutView {
            out: with(shown, wanted, ' ') + lexeme,
            line_start: false,
            need_space: true,
            prev,
            ..b
        }
    }
}

pub open spec fn closed_layout(b: LayoutView) -> LayoutView {
    LayoutView {
        indent: if b.indent == 0 {
            0
        } else {
            (b.indent - 1) as nat
        },
        line_start: true,
        ..b
    }
}

proof fn lemma_brace_fits(
    b: LayoutView,
    k: TokenKind,
    lexeme: Seq<char>,
    items: Seq<ItemView>,
    places: Seq<int>,
    n: int,
) -> (more: Seq<int>)
    requires
        0 <= n < items.len(),
        fits(b, items, places, n),
        n > 0 ==> ends_solid(items[n - 1]),
        ends_solid(items[n]),
        spelled_right(items[n]),
        follows(items, n),
        items[n] == (ItemView::Token { kind: k, lexeme }),
        k == TokenKind::LBrace,
    ensures
        fits(settled(b, k, lexeme), items, more, n + 1),
{
    let w = written(items[n]);
    let none = Seq::<char>::empty();
    let after = settled(b, k, lexeme);
    assert(w == lexeme);
    let wanted = !b.line_start && !ends_with(b.out, ' ');
    let gap = gap_of(b, wanted, ' ');
    lemma_gap(b, wanted, ' ');
    let tail = seq!['\n'];
    if n > 0 && end_of(items, places, n - 1) == b.out.len() {
        lemma_solid_end(b.out, items, places, n);
    }
    lemma_spells_more(b.out, items, places, n, gap, tail);
    assert(after.out =~= b.out + gap + w + tail);
    let more = places.push((b.out.len() + gap.len()) as int);
    assert(end_of(items, more, n) == b.out.len() + gap.len() + w.len());
    more
}

proof fn lemma_closing_fits(
    b: LayoutView,
    k: TokenKind,
    lexeme: Seq<char>,
    items: Seq<ItemView>,
    places: Seq<int>,
    n: int,
) -> (more: Seq<int>)
    requires
        0 <= n < items.len(),
        fits(b, items, places, n),
        n > 0 ==> ends_solid(items[n - 1]),
        ends_solid(items[n]),
        spelled_right(items[n]),
        follows(items, n),
        items[n] == (ItemView::Token { kind: k, lexeme }),
        k == TokenKind::RBrace,
    ensures
        fits(settled(b, k, lexeme), items, more, n + 1),
{
    let w = written(items[n]);
    let none = Seq::<char>::empty();
    let after = settled(b, k, lexeme);
    assert(w == lexeme);
    let closed = closed_layout(b);
    let gap = gap_of(closed, !b.line_start, '\n');
    lemma_gap(closed, !b.line_start, '\n');
    lemma_spells_more(b.out, items, places, n, gap, none);
    assert(after.out =~= b.out + gap + w + none);
    let more = places.push((b.out.len() + gap.len()) as int);
    assert(end_of(items, more, n) == b.out.len() + gap.len() + w.len());
    more
}

proof fn lemma_paren_fits(
    b: LayoutView,
    k: TokenKind,
    lexeme: Seq<char>,
    items: Seq<ItemView>,
    places: Seq<int>,
    n: int,
) -> (more: Seq<int>)
    requires
        0 <= n < items.len(),
        fits(b, items, places, n),
        n > 0 ==> ends_solid(items[n - 1]),
        ends_solid(items[n]),
        spelled_right(items[n]),
        follows(items, n),
        items[n] == (ItemView::Token { kind: k, lexeme }),
        k == TokenKind::LParen,
    ensures
        fits(settled(b, k, lexeme), items, more, n + 1),
{
    let w = written(items[n]);
    let none = Seq::<char>::empty();
    let after = settled(b, k, lexeme);
    assert(w == lexeme);
    let wanted = b.need_space && b.prev != Some(TokenKind::Fn);
    let indent = gap_of(b, false, ' ');
    lemma_gap(b, false, ' ');
    let gap = with(indent, wanted, ' ');
    lemma_spells_more(b.out, items, places, n, gap, none);
    assert(after.out =~= b.out + gap + w + none);
    let more = places.push((b.out.len() + gap.len()) as int);
    assert(end_of(items, more, n) == b.out.len() + gap.len() + w.len());
    more
}

proof fn lemma_bracket_fits(
    b: LayoutView,
    k: TokenKind,
    lexeme: Seq<char>,
    items: Seq<ItemView>,
    places: Seq<int>,
    n: int,
) -> (more: Seq<int>)
    requires
        0 <= n < items.len(),
        fits(b, items, places, n),
        n > 0 ==> ends_solid(items[n - 1]),
        ends_solid(items[n]),
        spelled_right(items[n]),
        follows(items, n),
        items[n] == (ItemView::Token { kind: k, lexeme }),
        k == TokenKind::LBracket,
    ensures
        fits(settled(b, k, lexeme), items, more, n + 1),
{
    let w = written(items[n]);
    let none = Seq::<char>::empty();
    let after = settled(b, k, lexeme);
    assert(w == lexeme);
    let gap = gap_of(b, false, ' ');
    lemma_gap(b, false, ' ');
    lemma_spells_more(b.out, items, places, n, gap, none);
    assert(after.out =~= b.out + gap + w + none);
    let more = places.push((b.out.len() + gap.len()) as int);
    assert(end_of(items, more, n) == b.out.len() + gap.len() + w.len());
    more
}

pub open spec fn pulled_tail(k: TokenKind) -> Seq<char> {
    if k == TokenKind::Semicolon {
        seq!['\n']
    } else if k == TokenKind::Comma || k == TokenKind::Colon {
        seq![' ']
    } else {
        Seq::empty()
    }
}

/// What placing a token comes to that goes right behind what stands before it.
pub open spec fn pulled(b: LayoutView, k: TokenKind, lexeme: Seq<char>) -> LayoutView {
    LayoutView {
        out: stripped(b.out) + lexeme + pulled_tail(k),
        line_start: if k == TokenKind::Semicolon {
            true
        } else if k == TokenKind::Comma {
            false
        } else {
            b.line_start
        },
        need_space: k == TokenKind::RParen || k == TokenKind::RBracket,
        prev: Some(k),
        ..b
    }
}

proof fn lemma_pulled_fits(
    b: LayoutView,
    k: TokenKind,
    lexeme: Seq<char>,
    items: Seq<ItemView>,
    places: Seq<int>,
    n: int,
) -> (more: Seq<int>)
    requires
        0 <= n < items.len(),
        fits(b, items, places, n),
        n > 0 ==> ends_solid(items[n - 1]),
        ends_solid(items[n]),
        spelled_right(items[n]),
        follows(items, n),
        items[n] == (ItemView::Token { kind: k, lexeme }),
        pulls_back(items[n]),
    ensures
        fits(pulled(b, k, lexeme), items, more, n + 1),
{
    let w = written(items[n]);
    let none = Seq::<char>::empty();
    let after = pulled(b, k, lexeme);
    assert(w == lexeme);
    lemma_strip_spelled(b.out, items, places, n);
    let body = stripped(b.out);
    let tail = pulled_tail(k);
    lemma_spells_more(body, items, places, n, none, tail);
    assert(after.out =~= body + none + w + tail);
    let more = places.push(body.len() as int);
    assert(end_of(items, more, n) == body.len() + w.len());
    more
}

proof fn lemma_spaced_fits(
    b: LayoutView,
    k: TokenKind,
    lexeme: Seq<char>,
    items: Seq<ItemView>,
    places: Seq<int>,
    n: int,
) -> (more: Seq<int>)
    requires
        0 <= n < items.len(),
        fits(b, items, places, n),
        n > 0 ==> ends_solid(items[n - 1]),
        ends_solid(items[n]),
        spelled_right(items[n]),
        follows(items, n),
        items[n] == (ItemView::Token { kind: k, lexeme }),
        is_spaced(k),
    ensures
        fits((LayoutView {
                out: (stripped(b.out).push(' ') + lexeme).push(' '),
                need_space: false,
                prev: Some(k),
                ..b
            }), items, more, n + 1),
{
    let w = written(items[n]);
    let none = Seq::<char>::empty();
    let after = (LayoutView {
                out: (stripped(b.out).push(' ') + lexeme).push(' '),
                need_space: false,
                prev: Some(k),
                ..b
            });
    assert(w == lexeme);
    lemma_strip_spelled(b.out, items, places, n);
    let body = stripped(b.out);
    let gap = seq![' '];
    lemma_spells_more(body, items, places, n, gap, gap);
    assert(after.out =~= body + gap + w + gap);
    let more = places.push((body.len() + 1) as int);
    assert(end_of(items, more, n) == body.len() + 1 + w.len());
    more
}

proof fn lemma_other_fits(
    b: LayoutView,
    k: TokenKind,
    lexeme: Seq<char>,
    items: Seq<ItemView>,
    places: Seq<int>,
    n: int,
) -> (more: Seq<int>)
    requires
        0 <= n < items.len(),
        fits(b, items, places, n),
        n > 0 ==> ends_solid(items[n - 1]),
        ends_solid(items[n]),
        spelled_right(items[n]),
        follows(items, n),
        items[n] == (ItemView::Token { kind: k, lexeme }),
        k != TokenKind::LBrace && k != TokenKind::RBrace && k != TokenKind::LParen && k
            != TokenKind::LBracket && !pulls_back(items[n]) && !is_spaced(k),
    ensures
        fits(settled(b, k, lexeme), items, more, n + 1),
{
    let w = written(items[n]);
    let none = Seq::<char>::empty();
    let after = settled(b, k, lexeme);
    assert(w == lexeme);
    let indent = gap_of(b, false, ' ');
    lemma_gap(b, false, ' ');
    let shown = b.out + indent;
    let wanted = (b.need_space || b.prev == Some(TokenKind::RBrace)) && !ends_with(shown, ' ')
        && !ends_with(shown, '\n');
    let gap = with(indent, wanted, ' ');
    if n > 0 && end_of(items, places, n - 1) == b.out.len() + gap.len() {
        assert(shown =~= b.out);
        lemma_solid_end(b.out, items, places, n);
    }
    lemma_spells_more(b.out, items, places, n, gap, none);
    assert(after.out =~= b.out + gap + w + none);
    let more = places.push((b.out.len() + gap.len()) as int);
    assert(end_of(items, more, n) == b.out.len() + gap.len() + w.len());
    more
}

proof fn lemma_placed_fits(l: LayoutView, items: Seq<ItemView>, places: Seq<int>, n: int) -> (more:
    Seq<int>)
    requires
        0 <= n < items.len(),
        fits(l, items, places, n),
        n > 0 ==> ends_solid(items[n - 1]),
        ends_solid(items[n]),
        spelled_right(items[n]),
        follows(items, n),
    ensures
        fits(placed(l, items[n]), items, more, n + 1),
{
    match items[n] {
        ItemView::Comment { text } => lemma_comment_fits(l, text, items, places, n),
        ItemView::Token { kind: k, lexeme } => {
            let b = line_broken(l, k);
            lemma_broken_fits(l, k, items, places, n);
            lemma_token_placed(l, k, lexeme);
            if k == TokenKind::LBrace {
                lemma_brace_fits(b, k, lexeme, items, places, n)
            } else if k == TokenKind::RBrace {
                lemma_closing_fits(b, k, lexeme, items, places, n)
            } else if k == TokenKind::LParen {
                lemma_paren_fits(b, k, lexeme, items, places, n)
            } else if k == TokenKind::LBracket {
                lemma_bracket_fits(b, k, lexeme, items, places, n)
            } else if pulls_back(items[n]) {
                lemma_pulled_fits(b, k, lexeme, items, places, n)
            } else if is_spaced(k) {
                lemma_spaced_fits(b, k, lexeme, items, places, n)
            } else {
                lemma_other_fits(b, k, lexeme, items, places, n)
            }
        },
    }
}

/// How `token_placed` reads with the gaps spelled out.
proof fn lemma_token_placed(l: LayoutView, k: TokenKind, lexeme: Seq<char>)
    requires
        spelled_right(ItemView::Token { kind: k, lexeme }),
    ensures
        ({
            let b = line_broken(l, k);
            let after = token_placed(l, k, lexeme);
            if pulls_back(ItemView::Token { kind: k, lexeme }) {
                after == pulled(b, k, lexeme)
            } else if is_spaced(k) {
                after == (LayoutView {
                    out: (stripped(b.out).push(' ') + lexeme).push(' '),
                    need_space: false,
                    prev: Some(k),
                    ..b
                })
            } else {
                after == settled(b, k, lexeme)
            }
        }),
{
    let b = line_broken(l, k);
    let after = token_placed(l, k, lexeme);
    lemma_gap(b, false, ' ');
    assert(with(b.out, false, ' ') == b.out);
    assert(LayoutView { out: with(b.out, false, ' '), ..b } == b);
    assert(indented(b) =~= b.out + gap_of(b, false, ' '));
    if k == TokenKind::LBrace {
        lemma_gap(b, !b.line_start && !ends_with(b.out, ' '), ' ');
    } else if k == TokenKind::RBrace {
        lemma_gap(closed_layout(b), !b.line_start, '\n');
        assert(closed_layout(b).out == b.out);
    } else if pulls_back(ItemView::Token { kind: k, lexeme }) {
        assert(after.out =~= pulled(b, k, lexeme).out);
    }
}

// ---------------------------------------------------------------------------
// Reading what was laid out
// ---------------------------------------------------------------------------

proof fn lemma_whole_token_facts(kind: TokenKind, lexeme: Seq<char>)
    requires
        is_whole_token(kind, lexeme),
        is_closed(kind, lexeme),
    ensures
        ends_solid(ItemView::Token { kind, lexeme }),
        spelled_right(ItemView::Token { kind, lexeme }),
        is_digit(lexeme[0]) <==> kind == TokenKind::Integer || kind == TokenKind::Float,
        lexeme[0] == '.' ==> kind == TokenKind::Dot || kind == TokenKind::Ellipsis,
        lexeme[0] == ':' && lexeme.len() == 1 ==> kind == TokenKind::Colon,
        kind == TokenKind::Fn ==> is_identifier_start(lexeme[0]),
{
    let c = lexeme[0];
    let n = lexeme.len() as int;
    if is_identifier_start(c) {
        lemma_words(lexeme, 1);
        if n > 1 {
            assert(is_identifier_part(lexeme[n - 1]));
        }
    } else if is_digit(c) {
        lemma_digits(lexeme, 0);
        let whole = digits_end(lexeme, 0);
        if whole < n {
            lemma_digits(lexeme, whole + 1);
            assert(is_digit(lexeme[n - 1]) || lexeme[n - 1] == '_');
        } else {
            assert(is_digit(lexeme[n - 1]) || lexeme[n - 1] == '_');
        }
    } else if c != '"' {
        assert(operator_at(lexeme, 0) is Some);
        if n == 1 {
            assert(lexeme =~= seq![c]);
        }
    }
}

proof fn lemma_comment_facts(text: Seq<char>)
    requires
        is_line_comment(text) || is_block_comment(text),
    ensures
        ends_solid(ItemView::Comment { text }),
        stripped(text).len() >= 2,
        stripped(text)[0] == '/',
        stripped(text)[1] == text[1],
        is_line_comment(text) ==> is_line_comment(stripped(text)),
        is_block_comment(text) ==> stripped(text) == text,
{
    lemma_stripped(text);
    let k = stripped(text).len() as int;
    if k < 2 {
        assert(is_white(text.skip(k)[1 - k]));
        assert(text.skip(k)[1 - k] == text[1]);
    }
    if is_block_comment(text) {
        lemma_block(text, 2);
        assert(!is_white(text.last()));
    }
}

/// Whether an item reads as itself, and has its closing quote.
pub open spec fn is_proper(item: ItemView) -> bool {
    reads_alone(item) && (item matches ItemView::Token { kind, lexeme } ==> is_closed(
        kind,
        lexeme,
    ))
}

proof fn lemma_proper_facts(item: ItemView)
    requires
        is_proper(item),
    ensures
        ends_solid(item),
        spelled_right(item),
{
    match item {
        ItemView::Comment { text } => {
            lemma_comment_facts(text);
        },
        ItemView::Token { kind, lexeme } => {
            lemma_whole_token_facts(kind, lexeme);
        },
    }
}

/// Whether an item is a number.
pub open spec fn is_number(item: ItemView) -> bool {
    is_kind(item, TokenKind::Integer) || is_kind(item, TokenKind::Float)
}

/// Whether the items from `i` on do not run together when they stand side by
/// side: nothing that goes right behind what stands before it follows a line
/// comment, no number follows a number and a dot, three dots are not three
/// tokens, and two colons are not two.
pub open spec fn stands_apart(items: Seq<ItemView>, i: int) -> bool {
    &&& i + 1 < items.len() ==> follows(items, i + 1)
    &&& i + 1 < items.len() ==> !(is_kind(items[i], TokenKind::Colon) && is_kind(
        items[i + 1],
        TokenKind::Colon,
    ))
    &&& i + 1 < items.len() ==> !(is_kind(items[i], TokenKind::Dot) && is_kind(
        items[i + 1],
        TokenKind::Ellipsis,
    ))
    &&& i + 2 < items.len() ==> !(is_kind(items[i], TokenKind::Dot) && is_kind(
        items[i + 1],
        TokenKind::Dot,
    ) && is_kind(items[i + 2], TokenKind::Dot))
    &&& i + 2 < items.len() ==> !(is_kind(items[i], TokenKind::Integer) && is_kind(
        items[i + 1],
        TokenKind::Dot,
    ) && is_number(items[i + 2]))
}

/// Whether the items can be told apart however they are laid out.
pub open spec fn are_distinct(items: Seq<ItemView>) -> bool {
    &&& forall|i: int| 0 <= i < items.len() ==> is_proper(#[trigger] items[i])
    &&& forall|i: int| 0 <= i < items.len() ==> #[trigger] stands_apart(items, i)
}

proof fn lemma_all_fit(items: Seq<ItemView>, n: int) -> (places: Seq<int>)
    requires
        are_distinct(items),
        0 <= n <= items.len(),
    ensures
        fits(laid_out(items, n), items, places, n),
    decreases n,
{
    if n == 0 {
        Seq::empty()
    } else {
        let places = lemma_all_fit(items, n - 1);
        lemma_proper_facts(items[n - 1]);
        if n > 1 {
            lemma_proper_facts(items[n - 2]);
            assert(stands_apart(items, n - 2));
        }
        lemma_placed_fits(laid_out(items, n - 1), items, places, n - 1)
    }
}

/// Whether the text is all the items at their places, and a line feed.
pub open spec fn is_page(s: Seq<char>, items: Seq<ItemView>, places: Seq<int>) -> bool {
    &&& spells(s, items, places, items.len() as int)
    &&& s.len() == end_of(items, places, items.len() - 1) + 1
    &&& s.last() == '\n'
}

proof fn lemma_shown_is_a_page(items: Seq<ItemView>) -> (places: Seq<int>)
    requires
        are_distinct(items),
    ensures
        is_page(shown(items), items, places),
{
    let n = items.len() as int;
    let places = lemma_all_fit(items, n);
    let out = laid_out(items, n).out;
    if n > 0 {
        lemma_proper_facts(items[n - 1]);
    }
    lemma_strip_spelled(out, items, places, n);
    let body = stripped(out);
    lemma_same_start_spells(body, body.push('\n'), items, places, n);
    places
}

proof fn lemma_scan_plain(s: Seq<char>, i: int, end: int)
    requires
        0 <= i <= end <= s.len(),
        forall|j: int| i <= j < end ==> is_plain(#[trigger] s[j]),
    ensures
        scanned(s, i) == scanned(s, end),
    decreases end - i,
{
    if i < end {
        assert(is_plain(s[i]));
        lemma_scan_plain(s, i + 1, end);
    }
}

proof fn lemma_find_extends(s: Seq<char>, i: int, end: int, c: char)
    requires
        0 <= i <= end < s.len(),
        s[end] == c,
        forall|j: int| i <= j < end ==> #[trigger] s[j] != c,
    ensures
        find_from(s, i, c) == end,
    decreases end - i,
{
    if i < end {
        assert(s[i] != c);
        lemma_find_extends(s, i + 1, end, c);
    }
}

proof fn lemma_block_extends(s: Seq<char>, q: int, t: Seq<char>, j: int)
    requires
        stands_at(s, q, t),
        0 <= j <= t.len(),
        block_end(t, j) == Some(t.len() as int),
    ensures
        block_end(s, q + j) == Some(q + t.len()),
    decreases t.len() - j,
{
    lemma_block(t, j);
    let sub = s.subrange(q, q + t.len());
    assert(sub == t);
    assert(t[j] == sub[j]);
    assert(j + 1 < t.len() ==> t[j + 1] == sub[j + 1]);
    if !(t[j] == '*' && at(t, j + 1, '/')) {
        lemma_block_extends(s, q, t, j + 1);
    }
}

/// What stands behind item `i`: a line feed, plain white space, or the start
/// of the next item, if the two may touch.
proof fn lemma_behind(s: Seq<char>, items: Seq<ItemView>, places: Seq<int>, i: int)
    requires
        are_distinct(items),
        is_page(s, items, places),
        0 <= i < items.len(),
    ensures
        ({
            let end = end_of(items, places, i);
            &&& 0 <= end < s.len()
            &&& is_plain(s[end]) || (i + 1 < items.len() && may_touch(items[i], items[i + 1])
                && places[i + 1] == end && s[end] == written(items[i + 1])[0])
            &&& is_line(items[i]) ==> s[end] == '\n'
        }),
{
    let n = items.len() as int;
    let end = end_of(items, places, i);
    lemma_ends_grow(s, items, places, n, i);
    assert(stands(s, items, places, i));
    if i + 1 < n {
        assert(stands(s, items, places, i + 1));
        lemma_proper_facts(items[i + 1]);
        if end == places[i + 1] {
            let w = written(items[i + 1]);
            assert(s.subrange(places[i + 1], places[i + 1] + w.len())[0] == s[end]);
        } else {
            assert(is_plain(s[end]));
        }
    } else {
        assert(s[end] == s.last());
    }
}

/// Every token of a page keeps its end.
proof fn lemma_keeps(
    s: Seq<char>,
    items: Seq<ItemView>,
    places: Seq<int>,
    i: int,
    kind: TokenKind,
    lexeme: Seq<char>,
)
    requires
        are_distinct(items),
        is_page(s, items, places),
        0 <= i < items.len(),
        items[i] == (ItemView::Token { kind, lexeme }),
    ensures
        ({
            let end = end_of(items, places, i);
            0 <= end < s.len() && keeps_its_end(kind, lexeme, s[end], char_at(s, end + 1))
        }),
{
    let n = items.len() as int;
    let end = end_of(items, places, i);
    lemma_behind(s, items, places, i);
    assert(is_proper(items[i]));
    lemma_whole_token_facts(kind, lexeme);
    if !is_plain(s[end]) {
        let b = items[i + 1];
        assert(is_proper(b));
        lemma_proper_facts(b);
        assert(stands_apart(items, i));
        lemma_first_char(b);
        lemma_behind(s, items, places, i + 1);
        if i + 2 < n {
            assert(is_proper(items[i + 2]));
            lemma_proper_facts(items[i + 2]);
            lemma_first_char(items[i + 2]);
            assert(stands_apart(items, i + 1));
        }
        if s[end] == '.' {
            assert(is_kind(b, TokenKind::Dot) || is_kind(b, TokenKind::Ellipsis));
            if is_kind(b, TokenKind::Dot) {
                assert(end_of(items, places, i + 1) == end + 1);
            }
        }
    }
}

/// What the first character of an item tells.
proof fn lemma_first_char(item: ItemView)
    requires
        is_proper(item),
    ensures
        ({
            let c = written(item)[0];
            &&& c == '.' ==> is_kind(item, TokenKind::Dot) || is_kind(item, TokenKind::Ellipsis)
            &&& is_digit(c) ==> is_number(item)
            &&& pulls_back(item) ==> c == ';' || c == ',' || c == ')' || c == ']' || c == '.' || c
                == ':'
            &&& pulls_back(item) && c == ':' ==> is_kind(item, TokenKind::Colon)
            &&& is_kind(item, TokenKind::LBracket) ==> c == '['
            &&& is_kind(item, TokenKind::LParen) ==> c == '('
            &&& is_kind(item, TokenKind::Dot) ==> written(item).len() == 1
        }),
{
    match item {
        ItemView::Comment { text } => {
            lemma_comment_facts(text);
        },
        ItemView::Token { kind, lexeme } => {
            lemma_whole_token_facts(kind, lexeme);
        },
    }
}

/// An item as it is read back.
pub open spec fn normal(item: ItemView) -> ItemView {
    match item {
        ItemView::Comment { text } => ItemView::Comment { text: stripped(text) },
        ItemView::Token { .. } => item,
    }
}

pub open spec fn normals(items: Seq<ItemView>) -> Seq<ItemView> {
    Seq::new(items.len(), |i: int| normal(items[i]))
}

/// A page reads as the items it was made of.
proof fn lemma_page_reads_back(s: Seq<char>, items: Seq<ItemView>, places: Seq<int>, i: int)
    requires
        are_distinct(items),
        is_page(s, items, places),
        0 <= i <= items.len(),
    ensures
        scanned(s, end_of(items, places, i - 1)) == Some(normals(items).skip(i)),
    decreases items.len() - i,
{
    let n = items.len() as int;
    let p = end_of(items, places, i - 1);
    if i == n {
        assert forall|j: int| p <= j < s.len() implies is_plain(#[trigger] s[j]) by {}
        lemma_scan_plain(s, p, s.len() as int);
        assert(normals(items).skip(i) =~= Seq::empty());
    } else {
        assert(stands(s, items, places, i));
        let q = places[i];
        let w = written(items[i]);
        let end = end_of(items, places, i);
        lemma_scan_plain(s, p, q);
        lemma_behind(s, items, places, i);
        lemma_page_reads_back(s, items, places, i + 1);
        assert(normals(items).skip(i) =~= seq![normal(items[i])] + normals(items).skip(i + 1));
        assert(is_proper(items[i]));
        lemma_proper_facts(items[i]);
        let sub = s.subrange(q, q + w.len());
        assert(sub == w);
        assert(sub[0] == s[q]);
        match items[i] {
            ItemView::Comment { text } => {
                lemma_comment_facts(text);
                assert(sub[1] == s[q + 1]);
                if is_line_comment(text) {
                    assert forall|j: int| q + 2 <= j < end implies #[trigger] s[j] != '\n' by {
                        assert(w[j - q] == sub[j - q]);
                    }
                    lemma_find_extends(s, q + 2, end, '\n');
                } else {
                    lemma_block_extends(s, q, text, 2);
                }
            },
            ItemView::Token { kind, lexeme } => {
                lemma_keeps(s, items, places, i, kind, lexeme);
                lemma_token_extends(s, q, kind, lexeme);
            },
        }
    }
}

/// Laying out looks at comments only without the white space at their ends.
proof fn lemma_laid_out_normal(items: Seq<ItemView>, n: int)
    requires
        0 <= n <= items.len(),
    ensures
        laid_out(normals(items), n) == laid_out(items, n),
    decreases n,
{
    if n > 0 {
        lemma_laid_out_normal(items, n - 1);
        if let ItemView::Comment { text } = items[n - 1] {
            lemma_stripped_twice(text);
        }
    }
}

/// Whether every string literal has its closing quote, and no neighbours run
/// together when they stand side by side.
pub open spec fn can_be_told_apart(items: Seq<ItemView>) -> bool {
    forall|i: int|
        0 <= i < items.len() ==> #[trigger] stands_apart(items, i) && (items[i] matches
            ItemView::Token { kind, lexeme } ==> is_closed(kind, lexeme))
}

proof fn lemma_items_distinct(source: Seq<char>)
    requires
        byte_offset(source, source.len() as int) <= usize::MAX,
        lex_from(source, 0) matches Ok(tokens) && can_be_told_apart(items_of(source, tokens)),
    ensures
        are_distinct(items_of(source, lex_from(source, 0)->Ok_0)),
{
    lemma_scanned(source, 0);
    lemma_scanned_reads_alone(source, 0);
    let items = scanned(source, 0)->Some_0;
    assert(items == items_of(source, lex_from(source, 0)->Ok_0));
    assert forall|i: int| 0 <= i < items.len() implies is_proper(#[trigger] items[i]) by {
        assert(reads_alone(items[i]));
        assert(stands_apart(items, i));
    }
}

/// Formatting what is formatted changes nothing, where the tokens and comments
/// of the source can be told apart however they are laid out: the formatted
/// text has the same tokens and comments.
pub proof fn lemma_formatting_twice_changes_nothing(source: Seq<char>, text: Seq<char>)
    requires
        byte_offset(source, source.len() as int) <= usize::MAX,
        byte_offset(text, text.len() as int) <= usize::MAX,
        formatted(source) == Ok::<Seq<char>, Seq<char>>(text),
        lex_from(source, 0) matches Ok(tokens) && can_be_told_apart(items_of(source, tokens)),
    ensures
        formatted(text) == Ok::<Seq<char>, Seq<char>>(text),
        lex_from(text, 0) matches Ok(again) && lex_from(source, 0) matches Ok(tokens) && items_of(
            text,
            again,
        ) == normals(items_of(source, tokens)),
{
    let tokens = lex_from(source, 0)->Ok_0;
    let items = items_of(source, tokens);
    lemma_items_distinct(source);
    let places = lemma_shown_is_a_page(items);
    lemma_page_reads_back(text, items, places, 0);
    assert(normals(items).skip(0) =~= normals(items));
    lemma_scanned(text, 0);
    lemma_laid_out_normal(items, items.len() as int);
}

} // verus!
