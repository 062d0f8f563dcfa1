//! The source formatter. It lays out tokens and comments, not the syntax
//! tree, so it also takes programs that do not parse.
use crate::lexer::{
    at, block_end, lemma_token_at, lemma_token_start, lex_from, lex_step, string_end, token_at,
    token_start, tokens_view, Token, TokenKind, TokenView,
};
use crate::pipeline::{lex_source, FrontendError};
use crate::text::{
    byte_offset, char_width, chars_of, ends, find_char, find_from, lemma_byte_offset_increases,
    lemma_byte_offset_total, text_between,
};
use vstd::prelude::*;

verus! {

// ---------------------------------------------------------------------------
// White space
// ---------------------------------------------------------------------------

/// White space as Unicode has it.
pub open spec fn is_white(c: char) -> bool {
    let code = c as u32;
    (0x9 <= code <= 0xD) || code == 0x20 || code == 0x85 || code == 0xA0 || code == 0x1680 || (
    0x2000 <= code <= 0x200A) || code == 0x2028 || code == 0x2029 || code == 0x202F || code
        == 0x205F || code == 0x3000
}

fn char_is_white(c: char) -> (r: bool)
    ensures
        r == is_white(c),
{
    let code: u32 = c as u32;
    (0x9 <= code && code <= 0xD) || code == 0x20 || code == 0x85 || code == 0xA0 || code == 0x1680
        || (0x2000 <= code && code <= 0x200A) || code == 0x2028 || code == 0x2029 || code == 0x202F
        || code == 0x205F || code == 0x3000
}

/// The text without the white space at its end.
pub open spec fn stripped(s: Seq<char>) -> Seq<char>
    decreases s.len(),
{
    if s.len() > 0 && is_white(s.last()) {
        stripped(s.drop_last())
    } else {
        s
    }
}

fn strip(out: &mut Vec<char>)
    ensures
        final(out)@ == stripped(old(out)@),
{
    let ghost all = out@;
    while out.len() > 0 && char_is_white(out[out.len() - 1])
        invariant
            stripped(all) == stripped(out@),
        decreases out.len(),
    {
        let ghost before = out@;
        out.pop();
        assert(out@ =~= before.drop_last());
    }
}

// ---------------------------------------------------------------------------
// Comments
// ---------------------------------------------------------------------------

/// A comment: the byte at which it ends, and its text.
#[derive(Debug)]
pub struct Comment {
    pub end: usize,
    pub text: String,
}

pub ghost struct CommentView {
    pub end: nat,
    pub text: Seq<char>,
}

impl Comment {
    pub open spec fn view(&self) -> CommentView {
        CommentView { end: self.end as nat, text: self.text@ }
    }
}

pub open spec fn comments_view(s: Seq<Comment>) -> Seq<CommentView> {
    Seq::new(s.len(), |i: int| s[i]@)
}

/// Where the comment or string that starts at `i` ends; the next character
/// where none starts there.
pub open spec fn run_end(s: Seq<char>, i: int) -> int {
    if s[i] == '"' {
        string_end(s, i + 1)
    } else if s[i] == '/' && at(s, i + 1, '/') {
        find_from(s, i + 2, '\n')
    } else if s[i] == '/' && at(s, i + 1, '*') {
        match block_end(s, i + 2) {
            Some(end) => end,
            None => s.len() as int,
        }
    } else {
        i + 1
    }
}

/// Whether a comment starts at `i`.
pub open spec fn starts_comment(s: Seq<char>, i: int) -> bool {
    s[i] == '/' && (at(s, i + 1, '/') || at(s, i + 1, '*'))
}

/// The comments from character `i` on.
pub open spec fn comments_from(s: Seq<char>, i: int) -> Seq<CommentView>
    decreases s.len() - i,
{
    if i < 0 || i >= s.len() {
        Seq::empty()
    } else {
        let end = run_end(s, i);
        if end <= i || end > s.len() {
            Seq::empty()
        } else if starts_comment(s, i) {
            seq![CommentView { end: byte_offset(s, end), text: s.subrange(i, end) }]
                + comments_from(s, end)
        } else {
            comments_from(s, end)
        }
    }
}

/// The byte offset of every character, and of the end.
fn offsets(source: &str, chars: &Vec<char>) -> (r: Vec<usize>)
    requires
        chars@ == source@,
    ensures
        r@.len() == chars@.len() + 1,
        forall|i: int| 0 <= i <= chars@.len() ==> #[trigger] r@[i] == byte_offset(chars@, i),
{
    let ghost s = chars@;
    let length: usize = source.as_bytes().len();
    proof {
        lemma_byte_offset_total(s);
    }
    let mut out: Vec<usize> = Vec::new();
    let mut position: usize = 0;
    out.push(0);
    for i in 0..chars.len()
        invariant
            s == chars@,
            byte_offset(s, s.len() as int) == length,
            position == byte_offset(s, i as int),
            out@.len() == i + 1,
            forall|j: int| 0 <= j <= i ==> #[trigger] out@[j] == byte_offset(s, j),
    {
        proof {
            lemma_byte_offset_increases(s, i + 1, s.len() as int);
        }
        position += char_width(chars[i]);
        out.push(position);
    }
    out
}

fn char_at(chars: &Vec<char>, i: usize, c: char) -> (r: bool)
    requires
        i <= chars.len(),
    ensures
        r == at(chars@, i as int, c),
{
    i < chars.len() && chars[i] == c
}

/// Where the string, whose first quote stands before `start`, ends.
fn string_close(chars: &Vec<char>, start: usize) -> (r: usize)
    requires
        start <= chars.len(),
    ensures
        r == string_end(chars@, start as int),
        start <= r <= chars.len(),
{
    let mut i: usize = start;
    while i < chars.len()
        invariant
            start <= i <= chars.len(),
            string_end(chars@, start as int) == string_end(chars@, i as int),
        decreases chars.len() - i,
    {
        if chars[i] == '"' {
            return i + 1;
        }
        i += 1;
    }
    i
}

/// Where the block comment, whose `/*` stands before `start`, ends.
fn block_close(chars: &Vec<char>, start: usize) -> (r: usize)
    requires
        start <= chars.len(),
    ensures
        r == match block_end(chars@, start as int) {
            Some(end) => end,
            None => chars@.len() as int,
        },
        start <= r <= chars.len(),
{
    let mut i: usize = start;
    while i < chars.len()
        invariant
            start <= i <= chars.len(),
            block_end(chars@, start as int) == block_end(chars@, i as int),
        decreases chars.len() - i,
    {
        if chars[i] == '*' && char_at(chars, i + 1, '/') {
            return i + 2;
        }
        i += 1;
    }
    i
}

/// The comments of a source text. What they say is not looked into.
pub fn comments(source: &str) -> (r: Vec<Comment>)
    ensures
        comments_view(r@) == comments_from(source@, 0),
{
    let chars: Vec<char> = chars_of(source);
    let places: Vec<usize> = offsets(source, &chars);
    let ghost s = source@;
    let mut out: Vec<Comment> = Vec::new();
    let mut i: usize = 0;
    assert(comments_view(out@) + comments_from(s, 0) =~= comments_from(s, 0));
    while i < chars.len()
        invariant
            s == chars@,
            i <= chars.len(),
            places@.len() == chars@.len() + 1,
            forall|j: int| 0 <= j <= s.len() ==> #[trigger] places@[j] == byte_offset(s, j),
            comments_view(out@) + comments_from(s, i as int) == comments_from(s, 0),
        decreases chars.len() - i,
    {
        let start: usize = i;
        let ghost before = comments_view(out@);
        let mut is_comment: bool = false;
        if chars[i] == '"' {
            i = string_close(&chars, i + 1);
        } else if chars[i] == '/' && char_at(&chars, i + 1, '/') {
            i = find_char(&chars, i + 2, '\n');
            is_comment = true;
        } else if chars[i] == '/' && char_at(&chars, i + 1, '*') {
            i = block_close(&chars, i + 2);
            is_comment = true;
        } else {
            i += 1;
        }
        assert(i == run_end(s, start as int));
        if is_comment {
            let comment: Comment = Comment {
                end: places[i],
                text: text_between(&chars, start, i),
            };
            let ghost view = comment@;
            out.push(comment);
            assert(comments_view(out@) =~= before.push(view));
            assert(before + (seq![view] + comments_from(s, i as int)) =~= before.push(view)
                + comments_from(s, i as int));
        }
    }
    assert(comments_view(out@) + Seq::<CommentView>::empty() =~= comments_view(out@));
    out
}

// ---------------------------------------------------------------------------
// What is laid out
// ---------------------------------------------------------------------------

/// A token or a comment.
pub enum Item {
    Token { kind: TokenKind, lexeme: String },
    Comment { text: String },
}

pub ghost enum ItemView {
    Token { kind: TokenKind, lexeme: Seq<char> },
    Comment { text: Seq<char> },
}

impl Item {
    pub open spec fn view(&self) -> ItemView {
        match self {
            Item::Token { kind, lexeme } => ItemView::Token { kind: *kind, lexeme: lexeme@ },
            Item::Comment { text } => ItemView::Comment { text: text@ },
        }
    }
}

pub open spec fn items_view(s: Seq<Item>) -> Seq<ItemView> {
    Seq::new(s.len(), |i: int| s[i]@)
}

/// The tokens from `i` on but for the end marker, and the comments from `j`
/// on: each comment before the first token that starts at its end or later.
pub open spec fn merged(
    tokens: Seq<TokenView>,
    i: int,
    comments: Seq<CommentView>,
    j: int,
) -> Seq<ItemView>
    decreases tokens.len() - i, comments.len() - j,
{
    if 0 <= i < tokens.len() && tokens[i].kind == TokenKind::Eof {
        merged(tokens, i + 1, comments, j)
    } else if 0 <= j < comments.len() && (i < 0 || i >= tokens.len() || comments[j].end
        <= tokens[i].span.start) {
        seq![ItemView::Comment { text: comments[j].text }] + merged(tokens, i, comments, j + 1)
    } else if 0 <= i < tokens.len() {
        seq![ItemView::Token { kind: tokens[i].kind, lexeme: tokens[i].lexeme }] + merged(
            tokens,
            i + 1,
            comments,
            j,
        )
    } else {
        Seq::empty()
    }
}

fn merge(tokens: &Vec<Token>, comments: &Vec<Comment>) -> (r: Vec<Item>)
    ensures
        items_view(r@) == merged(tokens_view(tokens@), 0, comments_view(comments@), 0),
{
    let ghost ts = tokens_view(tokens@);
    let ghost cs = comments_view(comments@);
    let mut out: Vec<Item> = Vec::new();
    let mut i: usize = 0;
    let mut j: usize = 0;
    assert(items_view(out@) + merged(ts, 0, cs, 0) =~= merged(ts, 0, cs, 0));
    while i < tokens.len() || j < comments.len()
        invariant
            ts == tokens_view(tokens@),
            cs == comments_view(comments@),
            i <= tokens.len(),
            j <= comments.len(),
            items_view(out@) + merged(ts, i as int, cs, j as int) == merged(ts, 0, cs, 0),
        decreases tokens.len() - i, comments.len() - j,
    {
        let ghost before = items_view(out@);
        assert(i < tokens.len() ==> ts[i as int] == tokens@[i as int]@);
        assert(j < comments.len() ==> cs[j as int] == comments@[j as int]@);
        if i < tokens.len() && tokens[i].kind == TokenKind::Eof {
            i += 1;
        } else if j < comments.len() && (i >= tokens.len() || comments[j].end
            <= tokens[i].span.start) {
            let item: Item = Item::Comment { text: comments[j].text.clone() };
            let ghost view = item@;
            out.push(item);
            j += 1;
            assert(items_view(out@) =~= before.push(view));
            assert(before + (seq![view] + merged(ts, i as int, cs, j as int)) =~= before.push(view)
                + merged(ts, i as int, cs, j as int));
        } else {
            let item: Item = Item::Token { kind: tokens[i].kind, lexeme: tokens[i].lexeme.clone() };
            let ghost view = item@;
            out.push(item);
            i += 1;
            assert(items_view(out@) =~= before.push(view));
            assert(before + (seq![view] + merged(ts, i as int, cs, j as int)) =~= before.push(view)
                + merged(ts, i as int, cs, j as int));
        }
    }
    assert(items_view(out@) + Seq::<ItemView>::empty() =~= items_view(out@));
    out
}

// ---------------------------------------------------------------------------
// Laying out
// ---------------------------------------------------------------------------

/// The text so far and what is to be known of it to go on.
pub struct Layout {
    out: Vec<char>,
    indent: usize,
    line_start: bool,
    need_space: bool,
    prev: Option<TokenKind>,
}

pub ghost struct LayoutView {
    pub out: Seq<char>,
    pub indent: nat,
    pub line_start: bool,
    pub need_space: bool,
    pub prev: Option<TokenKind>,
}

pub open spec fn blank_layout() -> LayoutView {
    LayoutView {
        out: Seq::empty(),
        indent: 0,
        line_start: true,
        need_space: false,
        prev: None,
    }
}

pub open spec fn ends_with(s: Seq<char>, c: char) -> bool {
    s.len() > 0 && s.last() == c
}

pub open spec fn spaces(n: nat) -> Seq<char> {
    Seq::new(n, |i: int| ' ')
}

/// The text, with the indent where a line starts.
pub open spec fn indented(l: LayoutView) -> Seq<char> {
    if l.line_start {
        l.out + spaces(4 * l.indent)
    } else {
        l.out
    }
}

/// The text with `c` behind it if `wanted`.
pub open spec fn with(s: Seq<char>, wanted: bool, c: char) -> Seq<char> {
    if wanted {
        s.push(c)
    } else {
        s
    }
}

/// A comment ends its line.
pub open spec fn comment_placed(l: LayoutView, text: Seq<char>) -> LayoutView {
    let spaced = LayoutView {
        out: with(l.out, !l.line_start && !ends_with(l.out, '\n'), ' '),
        ..l
    };
    LayoutView {
        out: (indented(spaced) + stripped(text)).push('\n'),
        indent: l.indent,
        line_start: true,
        need_space: false,
        prev: None,
    }
}

/// Whether the token stands on the line of a closing brace before it.
pub open spec fn stays_behind_brace(k: TokenKind) -> bool {
    k == TokenKind::Else || k == TokenKind::Semicolon || k == TokenKind::Comma || k
        == TokenKind::RParen || k == TokenKind::RBracket
}

/// Whether a token has a space on both sides.
pub open spec fn is_spaced(k: TokenKind) -> bool {
    k == TokenKind::DoubleColon || k == TokenKind::Arrow || k == TokenKind::Equal || k
        == TokenKind::EqualEqual || k == TokenKind::BangEqual || k == TokenKind::Less || k
        == TokenKind::LessEqual || k == TokenKind::Greater || k == TokenKind::GreaterEqual || k
        == TokenKind::Plus || k == TokenKind::Minus || k == TokenKind::Star || k
        == TokenKind::Slash || k == TokenKind::Percent || k == TokenKind::AmpersandAmpersand || k
        == TokenKind::PipePipe || k == TokenKind::Ampersand || k == TokenKind::Pipe || k
        == TokenKind::Caret || k == TokenKind::ShiftLeft || k == TokenKind::ShiftRight
}

/// After a closing brace a new line starts, but for some tokens.
pub open spec fn line_broken(l: LayoutView, k: TokenKind) -> LayoutView {
    if l.prev == Some(TokenKind::RBrace) && !stays_behind_brace(k) && !l.line_start {
        LayoutView { out: l.out.push('\n'), line_start: true, need_space: false, ..l }
    } else {
        l
    }
}

/// A token behind what is laid out.
pub open spec fn token_placed(given: LayoutView, k: TokenKind, lexeme: Seq<char>) -> LayoutView {
    let l = line_broken(given, k);
    let prev = Some(k);
    if k == TokenKind::LBrace {
        let spaced = LayoutView {
            out: with(l.out, !l.line_start && !ends_with(l.out, ' '), ' '),
            ..l
        };
        LayoutView {
            out: indented(spaced).push('{').push('\n'),
            indent: l.indent + 1,
            line_start: true,
            need_space: false,
            prev,
        }
    } else if k == TokenKind::RBrace {
        let closed = LayoutView {
            out: with(l.out, !l.line_start, '\n'),
            indent: if l.indent == 0 {
                0
            } else {
                (l.indent - 1) as nat
            },
            line_start: true,
            ..l
        };
        LayoutView {
            out: indented(closed).push('}'),
            line_start: false,
            need_space: true,
            prev,
            ..closed
        }
    } else if k == TokenKind::Semicolon {
        LayoutView {
            out: stripped(l.out).push(';').push('\n'),
            line_start: true,
            need_space: false,
            prev,
            ..l
        }
    } else if k == TokenKind::Comma {
        LayoutView {
            out: stripped(l.out).push(',').push(' '),
            line_start: false,
            need_space: false,
            prev,
            ..l
        }
    } else if k == TokenKind::LParen {
        let wanted = l.need_space && l.prev != Some(TokenKind::Fn);
        LayoutView {
            out: with(indented(l), wanted, ' ').push('('),
            line_start: false,
            need_space: false,
            prev,
            ..l
        }
    } else if k == TokenKind::RParen || k == TokenKind::RBracket {
        LayoutView { out: stripped(l.out) + lexeme, need_space: true, prev, ..l }
    } else if k == TokenKind::LBracket {
        LayoutView {
            out: indented(l).push('['),
            line_start: false,
            need_space: false,
            prev,
            ..l
        }
    } else if k == TokenKind::Dot {
        LayoutView { out: stripped(l.out).push('.'), need_space: false, prev, ..l }
    } else if k == TokenKind::Colon {
        LayoutView { out: stripped(l.out).push(':').push(' '), need_space: false, prev, ..l }
    } else if is_spaced(k) {
        LayoutView {
            out: (stripped(l.out).push(' ') + lexeme).push(' '),
            need_space: false,
            prev,
            ..l
        }
    } else {
        let shown = indented(l);
        let wanted = (l.need_space || l.prev == Some(TokenKind::RBrace)) && !ends_with(shown, ' ')
            && !ends_with(shown, '\n');
        LayoutView {
            out: with(shown, wanted, ' ') + lexeme,
            line_start: false,
            need_space: true,
            prev,
            ..l
        }
    }
}

pub open spec fn placed(l: LayoutView, item: ItemView) -> LayoutView {
    match item {
        ItemView::Comment { text } => comment_placed(l, text),
        ItemView::Token { kind, lexeme } => token_placed(l, kind, lexeme),
    }
}

/// The first `n` items, laid out.
pub open spec fn laid_out(items: Seq<ItemView>, n: int) -> LayoutView
    decreases n,
{
    if n <= 0 || n > items.len() {
        blank_layout()
    } else {
        placed(laid_out(items, n - 1), items[n - 1])
    }
}

/// The tokens and comments of a text that has these tokens.
pub open spec fn items_of(source: Seq<char>, tokens: Seq<TokenView>) -> Seq<ItemView> {
    merged(tokens, 0, comments_from(source, 0), 0)
}

/// The items laid out as a text.
pub open spec fn shown(items: Seq<ItemView>) -> Seq<char> {
    stripped(laid_out(items, items.len() as int).out).push('\n')
}

/// The formatted text, or why the text has no tokens.
pub open spec fn formatted(source: Seq<char>) -> Result<Seq<char>, Seq<char>> {
    match lex_from(source, 0) {
        Err(error) => Err(error.message()),
        Ok(tokens) => Ok(shown(items_of(source, tokens))),
    }
}

fn append(out: &mut Vec<char>, text: &String)
    ensures
        final(out)@ == old(out)@ + text@,
{
    let chars: Vec<char> = chars_of(text.as_str());
    let ghost before = out@;
    assert(before + chars@.take(0) =~= before);
    for i in 0..chars.len()
        invariant
            out@ == before + chars@.take(i as int),
    {
        out.push(chars[i]);
        assert(before + chars@.take(i + 1) =~= (before + chars@.take(i as int)).push(
            chars@[i as int],
        ));
    }
    assert(chars@.take(chars@.len() as int) =~= chars@);
}

fn stays(k: TokenKind) -> (r: bool)
    ensures
        r == stays_behind_brace(k),
{
    k == TokenKind::Else || k == TokenKind::Semicolon || k == TokenKind::Comma || k
        == TokenKind::RParen || k == TokenKind::RBracket
}

fn wants_spaces(k: TokenKind) -> (r: bool)
    ensures
        r == is_spaced(k),
{
    match k {
        TokenKind::DoubleColon | TokenKind::Arrow | TokenKind::Equal | TokenKind::EqualEqual
        | TokenKind::BangEqual | TokenKind::Less | TokenKind::LessEqual | TokenKind::Greater
        | TokenKind::GreaterEqual | TokenKind::Plus | TokenKind::Minus | TokenKind::Star
        | TokenKind::Slash | TokenKind::Percent | TokenKind::AmpersandAmpersand
        | TokenKind::PipePipe | TokenKind::Ampersand | TokenKind::Pipe | TokenKind::Caret
        | TokenKind::ShiftLeft | TokenKind::ShiftRight => true,
        _ => false,
    }
}

impl Layout {
    pub closed spec fn view(&self) -> LayoutView {
        LayoutView {
            out: self.out@,
            indent: self.indent as nat,
            line_start: self.line_start,
            need_space: self.need_space,
            prev: self.prev,
        }
    }

    fn new() -> (r: Self)
        ensures
            r@ == blank_layout(),
    {
        let r: Layout = Layout {
            out: Vec::new(),
            indent: 0,
            line_start: true,
            need_space: false,
            prev: None,
        };
        assert(r@.out =~= Seq::empty());
        r
    }

    fn ends_with(&self, c: char) -> (r: bool)
        ensures
            r == ends_with(self@.out, c),
    {
        self.out.len() > 0 && self.out[self.out.len() - 1] == c
    }

    /// Writes the indent where a line starts.
    fn write_indent(&mut self)
        ensures
            final(self)@ == (LayoutView {
                out: indented(old(self)@),
                line_start: false,
                ..old(self)@
            }),
    {
        let ghost before = self@;
        if self.line_start {
            let depth: usize = self.indent;
            assert(self@.out =~= before.out + spaces(0));
            for i in 0..depth
                invariant
                    self@ == (LayoutView { out: self.out@, ..before }),
                    self.out@ == before.out + spaces((4 * i) as nat),
            {
                let ghost now = self.out@;
                self.out.push(' ');
                self.out.push(' ');
                self.out.push(' ');
                self.out.push(' ');
                assert(spaces((4 * (i + 1)) as nat) =~= spaces((4 * i) as nat).push(' ').push(
                    ' ',
                ).push(' ').push(' '));
                assert(self.out@ =~= before.out + spaces((4 * (i + 1)) as nat));
            }
            self.line_start = false;
        }
        assert(self@.out =~= indented(before));
    }

    fn place_comment(&mut self, text: &String)
        ensures
            final(self)@ == comment_placed(old(self)@, text@),
    {
        if !self.line_start && !self.ends_with('\n') {
            self.out.push(' ');
        }
        self.write_indent();
        let mut chars: Vec<char> = chars_of(text.as_str());
        strip(&mut chars);
        let shown: String = text_between(&chars, 0, chars.len());
        assert(shown@ =~= chars@);
        append(&mut self.out, &shown);
        self.out.push('\n');
        self.line_start = true;
        self.need_space = false;
        self.prev = None;
    }

    fn place_token(&mut self, k: TokenKind, lexeme: &String)
        requires
            old(self)@.indent < usize::MAX,
        ensures
            final(self)@ == token_placed(old(self)@, k, lexeme@),
    {
        if self.prev == Some(TokenKind::RBrace) && !stays(k) && !self.line_start {
            self.out.push('\n');
            self.line_start = true;
            self.need_space = false;
        }
        assert(self@ == line_broken(old(self)@, k));
        if k == TokenKind::LBrace {
            if !self.line_start && !self.ends_with(' ') {
                self.out.push(' ');
            }
            self.write_indent();
            self.out.push('{');
            self.out.push('\n');
            self.line_start = true;
            self.indent = self.indent + 1;
            self.need_space = false;
        } else if k == TokenKind::RBrace {
            if !self.line_start {
                self.out.push('\n');
            }
            if self.indent > 0 {
                self.indent = self.indent - 1;
            }
            self.line_start = true;
            self.write_indent();
            self.out.push('}');
            self.need_space = true;
        } else if k == TokenKind::Semicolon {
            strip(&mut self.out);
            self.out.push(';');
            self.out.push('\n');
            self.line_start = true;
            self.need_space = false;
        } else if k == TokenKind::Comma {
            strip(&mut self.out);
            self.out.push(',');
            self.out.push(' ');
            self.line_start = false;
            self.need_space = false;
        } else if k == TokenKind::LParen {
            self.write_indent();
            if self.need_space && self.prev != Some(TokenKind::Fn) {
                self.out.push(' ');
            }
            self.out.push('(');
            self.need_space = false;
        } else if k == TokenKind::RParen || k == TokenKind::RBracket {
            strip(&mut self.out);
            append(&mut self.out, lexeme);
            self.need_space = true;
        } else if k == TokenKind::LBracket {
            self.write_indent();
            self.out.push('[');
            self.need_space = false;
        } else if k == TokenKind::Dot {
            strip(&mut self.out);
            self.out.push('.');
            self.need_space = false;
        } else if k == TokenKind::Colon {
            strip(&mut self.out);
            self.out.push(':');
            self.out.push(' ');
            self.need_space = false;
        } else if wants_spaces(k) {
            strip(&mut self.out);
            self.out.push(' ');
            append(&mut self.out, lexeme);
            self.out.push(' ');
            self.need_space = false;
        } else {
            self.write_indent();
            if (self.need_space || self.prev == Some(TokenKind::RBrace)) && !self.ends_with(' ')
                && !self.ends_with('\n') {
                self.out.push(' ');
            }
            append(&mut self.out, lexeme);
            self.need_space = true;
        }
        self.prev = Some(k);
    }
}

/// The formatted text, or why the text has no tokens.
pub fn format_source(source: &str) -> (r: Result<String, String>)
    ensures
        match r {
            Ok(text) => formatted(source@) == Ok::<Seq<char>, Seq<char>>(text@),
            Err(message) => formatted(source@) == Err::<Seq<char>, Seq<char>>(message@),
        },
{
    let tokens: Vec<Token> = match lex_source(source) {
        Ok(tokens) => tokens,
        Err(error) => {
            return match error {
                FrontendError::Lexer(error) => Err(error.to_string()),
                other => Err(other.to_string()),
            };
        },
    };
    let found: Vec<Comment> = comments(source);
    let items: Vec<Item> = merge(&tokens, &found);
    let ghost all = items_view(items@);
    let mut layout: Layout = Layout::new();
    for i in 0..items.len()
        invariant
            all == items_view(items@),
            layout@ == laid_out(all, i as int),
            layout@.indent <= i,
    {
        assert(all[i as int] == items@[i as int]@);
        match &items[i] {
            Item::Comment { text } => {
                layout.place_comment(text);
            },
            Item::Token { kind, lexeme } => {
                layout.place_token(*kind, lexeme);
            },
        }
    }
    let mut out: Vec<char> = layout.out;
    strip(&mut out);
    out.push('\n');
    let text: String = text_between(&out, 0, out.len());
    assert(text@ =~= out@);
    Ok(text)
}

// ---------------------------------------------------------------------------
// Nothing is lost
// ---------------------------------------------------------------------------

pub open spec fn all_white(s: Seq<char>) -> bool {
    forall|i: int| 0 <= i < s.len() ==> is_white(#[trigger] s[i])
}

/// What is kept of an item.
pub open spec fn kept(item: ItemView) -> Seq<char> {
    match item {
        ItemView::Comment { text } => stripped(text),
        ItemView::Token { lexeme, .. } => stripped(lexeme),
    }
}

/// Whether a text is what is kept of the first `n` items, in order, with only
/// white space before, between and behind.
pub open spec fn holds_in_order(s: Seq<char>, items: Seq<ItemView>, n: int) -> bool
    decreases n,
{
    if n <= 0 || n > items.len() {
        all_white(s)
    } else {
        let body = stripped(s);
        let last = kept(items[n - 1]);
        ends(body, last) && holds_in_order(body.take(body.len() - last.len()), items, n - 1)
    }
}

pub proof fn lemma_stripped(s: Seq<char>)
    ensures
        stripped(s).len() <= s.len(),
        stripped(s) == s.take(stripped(s).len() as int),
        stripped(s).len() > 0 ==> !is_white(stripped(s).last()),
        all_white(s.skip(stripped(s).len() as int)),
        all_white(s) <==> stripped(s).len() == 0,
    decreases s.len(),
{
    if s.len() > 0 && is_white(s.last()) {
        let t = s.drop_last();
        lemma_stripped(t);
        let n = stripped(t).len() as int;
        assert(s.take(n) =~= t.take(n));
        assert forall|i: int| 0 <= i < s.skip(n).len() implies is_white(
            #[trigger] s.skip(n)[i],
        ) by {
            if i < s.skip(n).len() - 1 {
                assert(s.skip(n)[i] == t.skip(n)[i]);
            }
        }
        if n == 0 {
            assert(s.skip(n) =~= s);
        } else {
            assert(!is_white(s[n - 1]));
        }
    } else {
        assert(s.take(s.len() as int) =~= s);
        if s.len() > 0 {
            assert(!is_white(s[s.len() - 1]));
        }
    }
}

/// White space at the end is all that stripping looks at.
proof fn lemma_stripped_behind(s: Seq<char>, white: Seq<char>)
    requires
        all_white(white),
    ensures
        stripped(s + white) == stripped(s),
    decreases white.len(),
{
    if white.len() > 0 {
        assert((s + white).drop_last() =~= s + white.drop_last());
        assert(is_white(white[white.len() - 1]));
        assert forall|i: int| 0 <= i < white.drop_last().len() implies is_white(
            #[trigger] white.drop_last()[i],
        ) by {
            assert(white.drop_last()[i] == white[i]);
        }
        lemma_stripped_behind(s, white.drop_last());
    } else {
        assert(s + white =~= s);
    }
}

pub proof fn lemma_stripped_twice(s: Seq<char>)
    ensures
        stripped(stripped(s)) == stripped(s),
{
    lemma_stripped(s);
}

/// A text that ends in something solid keeps what stands before it.
proof fn lemma_stripped_joined(s: Seq<char>, solid: Seq<char>)
    requires
        stripped(solid).len() > 0,
    ensures
        stripped(s + solid) == s + stripped(solid),
{
    lemma_stripped(solid);
    let n = stripped(solid).len() as int;
    let white = solid.skip(n);
    assert(s + solid =~= (s + solid.take(n)) + white);
    lemma_stripped_behind(s + solid.take(n), white);
    let t = s + stripped(solid);
    assert(t.last() == stripped(solid).last());
}

proof fn lemma_more_white(s: Seq<char>, white: Seq<char>, items: Seq<ItemView>, n: int)
    requires
        holds_in_order(s, items, n),
        all_white(white),
    ensures
        holds_in_order(s + white, items, n),
{
    lemma_stripped_behind(s, white);
    lemma_stripped(s);
    lemma_stripped(s + white);
}

proof fn lemma_less_white(s: Seq<char>, items: Seq<ItemView>, n: int)
    requires
        holds_in_order(s, items, n),
    ensures
        holds_in_order(stripped(s), items, n),
{
    lemma_stripped_twice(s);
    lemma_stripped(s);
    lemma_stripped(stripped(s));
}

/// One item more behind what holds those before it.
proof fn lemma_one_more(s: Seq<char>, text: Seq<char>, items: Seq<ItemView>, n: int)
    requires
        0 <= n < items.len(),
        holds_in_order(s, items, n),
        kept(items[n]) == stripped(text),
        stripped(text).len() > 0,
    ensures
        holds_in_order(s + text, items, n + 1),
{
    lemma_stripped_joined(s, text);
    let body = stripped(s + text);
    let last = stripped(text);
    assert(body.skip(body.len() - last.len()) =~= last);
    assert(body.take(body.len() - last.len()) =~= s);
}

/// Whether an item is solid: it is not all white space, and a token of one
/// character reads that character.
pub open spec fn is_solid(item: ItemView) -> bool {
    match item {
        ItemView::Comment { text } => stripped(text).len() > 0,
        ItemView::Token { kind, lexeme } => {
            &&& stripped(lexeme).len() > 0
            &&& kind == TokenKind::LBrace ==> lexeme == seq!['{']
            &&& kind == TokenKind::RBrace ==> lexeme == seq!['}']
            &&& kind == TokenKind::Semicolon ==> lexeme == seq![';']
            &&& kind == TokenKind::Comma ==> lexeme == seq![',']
            &&& kind == TokenKind::LParen ==> lexeme == seq!['(']
            &&& kind == TokenKind::LBracket ==> lexeme == seq!['[']
            &&& kind == TokenKind::Dot ==> lexeme == seq!['.']
            &&& kind == TokenKind::Colon ==> lexeme == seq![':']
        },
    }
}

proof fn lemma_with_white(s: Seq<char>, wanted: bool, c: char, items: Seq<ItemView>, n: int)
    requires
        holds_in_order(s, items, n),
        is_white(c),
    ensures
        holds_in_order(with(s, wanted, c), items, n),
{
    if wanted {
        assert(s.push(c) =~= s + seq![c]);
        lemma_more_white(s, seq![c], items, n);
    }
}

proof fn lemma_indented(l: LayoutView, items: Seq<ItemView>, n: int)
    requires
        holds_in_order(l.out, items, n),
    ensures
        holds_in_order(indented(l), items, n),
{
    if l.line_start {
        lemma_more_white(l.out, spaces(4 * l.indent), items, n);
    }
}

proof fn lemma_placed(l: LayoutView, items: Seq<ItemView>, n: int)
    requires
        0 <= n < items.len(),
        is_solid(items[n]),
        holds_in_order(l.out, items, n),
    ensures
        holds_in_order(placed(l, items[n]).out, items, n + 1),
{
    match items[n] {
        ItemView::Comment { text } => {
            let wanted = !l.line_start && !ends_with(l.out, '\n');
            lemma_with_white(l.out, wanted, ' ', items, n);
            let spaced = LayoutView { out: with(l.out, wanted, ' '), ..l };
            lemma_indented(spaced, items, n);
            lemma_stripped_twice(text);
            let shown = indented(spaced);
            lemma_one_more(shown, stripped(text), items, n);
            lemma_with_white(shown + stripped(text), true, '\n', items, n + 1);
        },
        ItemView::Token { kind: k, lexeme } => {
            let b = line_broken(l, k);
            if b.out != l.out {
                lemma_with_white(l.out, true, '\n', items, n);
            }
            if k == TokenKind::LBrace {
                let wanted = !b.line_start && !ends_with(b.out, ' ');
                lemma_with_white(b.out, wanted, ' ', items, n);
                let spaced = LayoutView { out: with(b.out, wanted, ' '), ..b };
                lemma_indented(spaced, items, n);
                lemma_one_more(indented(spaced), lexeme, items, n);
                assert(indented(spaced).push('{') =~= indented(spaced) + lexeme);
                lemma_with_white(indented(spaced).push('{'), true, '\n', items, n + 1);
            } else if k == TokenKind::RBrace {
                lemma_with_white(b.out, !b.line_start, '\n', items, n);
                let closed = LayoutView {
                    out: with(b.out, !b.line_start, '\n'),
                    indent: if b.indent == 0 {
                        0
                    } else {
                        (b.indent - 1) as nat
                    },
                    line_start: true,
                    ..b
                };
                lemma_indented(closed, items, n);
                lemma_one_more(indented(closed), lexeme, items, n);
                assert(indented(closed).push('}') =~= indented(closed) + lexeme);
            } else if k == TokenKind::LParen {
                lemma_indented(b, items, n);
                let wanted = b.need_space && b.prev != Some(TokenKind::Fn);
                lemma_with_white(indented(b), wanted, ' ', items, n);
                lemma_one_more(with(indented(b), wanted, ' '), lexeme, items, n);
                assert(with(indented(b), wanted, ' ').push('(') =~= with(
                    indented(b),
                    wanted,
                    ' ',
                ) + lexeme);
            } else if k == TokenKind::LBracket {
                lemma_indented(b, items, n);
                lemma_one_more(indented(b), lexeme, items, n);
                assert(indented(b).push('[') =~= indented(b) + lexeme);
            } else if k == TokenKind::Semicolon || k == TokenKind::Comma || k
                == TokenKind::Dot || k == TokenKind::Colon || k == TokenKind::RParen || k
                == TokenKind::RBracket {
                let body = stripped(b.out);
                lemma_less_white(b.out, items, n);
                lemma_one_more(body, lexeme, items, n);
                assert(lexeme.len() == 1 ==> body.push(lexeme[0]) =~= body + lexeme);
                if k == TokenKind::Semicolon {
                    lemma_with_white(body + lexeme, true, '\n', items, n + 1);
                } else if k == TokenKind::Comma || k == TokenKind::Colon {
                    lemma_with_white(body + lexeme, true, ' ', items, n + 1);
                }
            } else if is_spaced(k) {
                let body = stripped(b.out);
                lemma_less_white(b.out, items, n);
                lemma_with_white(body, true, ' ', items, n);
                lemma_one_more(body.push(' '), lexeme, items, n);
                lemma_with_white(body.push(' ') + lexeme, true, ' ', items, n + 1);
            } else {
                let shown = indented(b);
                let wanted = (b.need_space || b.prev == Some(TokenKind::RBrace)) && !ends_with(
                    shown,
                    ' ',
                ) && !ends_with(shown, '\n');
                lemma_indented(b, items, n);
                lemma_with_white(shown, wanted, ' ', items, n);
                lemma_one_more(with(shown, wanted, ' '), lexeme, items, n);
            }
        },
    }
}

proof fn lemma_laid_out(items: Seq<ItemView>, n: int)
    requires
        0 <= n <= items.len(),
        forall|i: int| 0 <= i < items.len() ==> is_solid(#[trigger] items[i]),
    ensures
        holds_in_order(laid_out(items, n).out, items, n),
    decreases n,
{
    if n > 0 {
        lemma_laid_out(items, n - 1);
        lemma_placed(laid_out(items, n - 1), items, n - 1);
    }
}

/// Whether every token and comment of a list is solid.
pub open spec fn solid_tokens(tokens: Seq<TokenView>) -> bool {
    forall|i: int|
        0 <= i < tokens.len() && (#[trigger] tokens[i]).kind != TokenKind::Eof ==> is_solid(
            ItemView::Token { kind: tokens[i].kind, lexeme: tokens[i].lexeme },
        )
}

proof fn lemma_solid_start(s: Seq<char>)
    requires
        s.len() > 0,
        !is_white(s[0]),
    ensures
        stripped(s).len() > 0,
{
    lemma_stripped(s);
    if all_white(s) {
        assert(is_white(s[0]));
    }
}

proof fn lemma_step_solid(s: Seq<char>, i: int)
    requires
        0 <= i <= s.len(),
    ensures
        lex_step(s, i).0 matches Ok(token) ==> token.kind != TokenKind::Eof ==> is_solid(
            ItemView::Token { kind: token.kind, lexeme: token.lexeme },
        ),
{
    lemma_token_start(s, i);
    if let Ok(start) = token_start(s, i) {
        if start < s.len() {
            lemma_token_at(s, start);
            if let Some((kind, end)) = token_at(s, start) {
                let lexeme = s.subrange(start, end);
                lemma_solid_start(lexeme);
                if end == start + 1 {
                    assert(lexeme =~= seq![s[start]]);
                }
            }
        }
    }
}

proof fn lemma_tokens_solid(s: Seq<char>, i: int)
    requires
        0 <= i <= s.len(),
    ensures
        lex_from(s, i) matches Ok(tokens) ==> solid_tokens(tokens),
    decreases s.len() - i,
{
    lemma_step_solid(s, i);
    if let (Ok(token), next) = lex_step(s, i) {
        if token.kind != TokenKind::Eof && i < next <= s.len() {
            lemma_tokens_solid(s, next);
            if let Ok(rest) = lex_from(s, next) {
                let tokens = seq![token] + rest;
                assert forall|j: int|
                    0 <= j < tokens.len() && (#[trigger] tokens[j]).kind
                        != TokenKind::Eof implies is_solid(
                    ItemView::Token { kind: tokens[j].kind, lexeme: tokens[j].lexeme },
                ) by {
                    if j > 0 {
                        assert(tokens[j] == rest[j - 1]);
                    }
                }
            }
        }
    }
}

proof fn lemma_comments_solid(s: Seq<char>, i: int)
    requires
        0 <= i,
    ensures
        forall|j: int|
            0 <= j < comments_from(s, i).len() ==> stripped(
                (#[trigger] comments_from(s, i)[j]).text,
            ).len() > 0,
    decreases s.len() - i,
{
    if i < s.len() {
        let end = run_end(s, i);
        if i < end <= s.len() {
            lemma_comments_solid(s, end);
            if starts_comment(s, i) {
                let text = s.subrange(i, end);
                lemma_solid_start(text);
                let all = comments_from(s, i);
                assert forall|j: int| 0 <= j < all.len() implies stripped(
                    (#[trigger] all[j]).text,
                ).len() > 0 by {
                    if j > 0 {
                        assert(all[j] == comments_from(s, end)[j - 1]);
                    }
                }
            }
        }
    }
}

proof fn lemma_merged_solid(tokens: Seq<TokenView>, i: int, comments: Seq<CommentView>, j: int)
    requires
        0 <= i,
        0 <= j,
        solid_tokens(tokens),
        forall|k: int| 0 <= k < comments.len()
            ==> stripped((#[trigger] comments[k]).text).len() > 0,
    ensures
        forall|k: int|
            0 <= k < merged(tokens, i, comments, j).len() ==> is_solid(
                #[trigger] merged(tokens, i, comments, j)[k],
            ),
    decreases tokens.len() - i, comments.len() - j,
{
    let all = merged(tokens, i, comments, j);
    if i < tokens.len() && tokens[i].kind == TokenKind::Eof {
        lemma_merged_solid(tokens, i + 1, comments, j);
        let rest = merged(tokens, i + 1, comments, j);
        assert(all == rest);
        assert forall|k: int| 0 <= k < all.len() implies is_solid(#[trigger] all[k]) by {
            assert(is_solid(rest[k]));
        }
    } else if j < comments.len() && (i >= tokens.len() || comments[j].end
        <= tokens[i].span.start) {
        lemma_merged_solid(tokens, i, comments, j + 1);
        let rest = merged(tokens, i, comments, j + 1);
        assert forall|k: int| 0 <= k < all.len() implies is_solid(#[trigger] all[k]) by {
            if k > 0 {
                assert(all[k] == rest[k - 1]);
            } else {
                assert(stripped(comments[j].text).len() > 0);
            }
        }
    } else if i < tokens.len() {
        lemma_merged_solid(tokens, i + 1, comments, j);
        let rest = merged(tokens, i + 1, comments, j);
        assert forall|k: int| 0 <= k < all.len() implies is_solid(#[trigger] all[k]) by {
            if k > 0 {
                assert(all[k] == rest[k - 1]);
            } else {
                assert(tokens[i].kind != TokenKind::Eof);
            }
        }
    }
}

/// The formatted text holds every token and every comment of the source, in
/// order, each in one piece, and else only white space.
pub proof fn lemma_formatting_keeps_tokens_and_comments(source: Seq<char>)
    ensures
        lex_from(source, 0) matches Ok(tokens) ==> {
            let items = items_of(source, tokens);
            formatted(source) matches Ok(text) && holds_in_order(text, items, items.len() as int)
        },
{
    if let Ok(tokens) = lex_from(source, 0) {
        let items = items_of(source, tokens);
        lemma_tokens_solid(source, 0);
        lemma_comments_solid(source, 0);
        lemma_merged_solid(tokens, 0, comments_from(source, 0), 0);
        let n = items.len() as int;
        lemma_laid_out(items, n);
        lemma_less_white(laid_out(items, n).out, items, n);
        lemma_with_white(stripped(laid_out(items, n).out), true, '\n', items, n);
    }
}

/// What a text holds in order stands somewhere in it.
pub proof fn lemma_held_stands_somewhere(s: Seq<char>, items: Seq<ItemView>, n: int, k: int)
    requires
        0 <= k < n <= items.len(),
        holds_in_order(s, items, n),
    ensures
        exists|i: int|
            0 <= i && i + kept(items[k]).len() <= s.len() && #[trigger] s.subrange(
                i,
                i + kept(items[k]).len(),
            ) == kept(items[k]),
    decreases n,
{
    let body = stripped(s);
    let last = kept(items[n - 1]);
    lemma_stripped(s);
    if k == n - 1 {
        let i = body.len() - last.len();
        assert(s.subrange(i, i + last.len()) =~= body.skip(i));
    } else {
        let head = body.take(body.len() - last.len());
        lemma_held_stands_somewhere(head, items, n - 1, k);
        let i = choose|i: int|
            0 <= i && i + kept(items[k]).len() <= head.len() && #[trigger] head.subrange(
                i,
                i + kept(items[k]).len(),
            ) == kept(items[k]);
        assert(s.subrange(i, i + kept(items[k]).len()) =~= head.subrange(
            i,
            i + kept(items[k]).len(),
        ));
    }
}

} // verus!
