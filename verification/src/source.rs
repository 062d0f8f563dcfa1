//! Source positions: byte offsets as lines and columns.
use crate::lexer::Span;
use vstd::prelude::*;

verus! {

/// One-based source position. Columns count UTF-8 bytes.
#[derive(Debug, Clone, Copy, PartialEq, Eq, Structural)]
pub struct SourcePosition {
    pub line: usize,
    pub column: usize,
}

/// Maps byte offsets to lines and columns.
#[derive(Debug)]
pub struct SourceMap {
    line_starts: Vec<usize>,
}

/// The offsets at which the lines of a text start: zero, and one past each
/// line feed.
pub open spec fn line_starts(bytes: Seq<u8>) -> Seq<usize>
    decreases bytes.len(),
{
    if bytes.len() == 0 {
        seq![0usize]
    } else if bytes.last() == 10u8 {
        line_starts(bytes.drop_last()).push(bytes.len() as usize)
    } else {
        line_starts(bytes.drop_last())
    }
}

/// How many of the lines start at `offset` or before it.
pub open spec fn lines_up_to(starts: Seq<usize>, offset: int) -> nat
    decreases starts.len(),
{
    if starts.len() == 0 {
        0
    } else {
        lines_up_to(starts.drop_last(), offset) + (if starts.last() <= offset {
            1nat
        } else {
            0nat
        })
    }
}

/// The first line starts at zero, and each line starts after the one before.
pub open spec fn ordered_starts(starts: Seq<usize>) -> bool {
    &&& starts.len() > 0
    &&& starts[0] == 0
    &&& forall|i: int, j: int| 0 <= i < j < starts.len() ==> starts[i] < starts[j]
}

/// The position of `offset` among lines that start at `starts`.
pub open spec fn position_in(starts: Seq<usize>, offset: int) -> (int, int) {
    let line = lines_up_to(starts, offset) as int;
    (line, offset - starts[line - 1] + 1)
}

/// How many line feeds a text holds.
pub open spec fn line_feeds(bytes: Seq<u8>) -> nat
    decreases bytes.len(),
{
    if bytes.len() == 0 {
        0
    } else {
        line_feeds(bytes.drop_last()) + (if bytes.last() == 10u8 {
            1nat
        } else {
            0nat
        })
    }
}

/// One past the last line feed of a text; zero where there is none.
pub open spec fn last_line_start(bytes: Seq<u8>) -> int
    decreases bytes.len(),
{
    if bytes.len() == 0 {
        0
    } else if bytes.last() == 10u8 {
        bytes.len() as int
    } else {
        last_line_start(bytes.drop_last())
    }
}

impl SourceMap {
    /// The offsets at which the lines start.
    pub closed spec fn view(&self) -> Seq<usize> {
        self.line_starts@
    }

    pub closed spec fn wf(&self) -> bool {
        ordered_starts(self.line_starts@)
    }

    pub fn new(source: &str) -> (r: Self)
        ensures
            r.wf(),
            r@ == line_starts(vstd::utf8::encode_utf8(source@)),
    {
        let bytes: &[u8] = source.as_bytes();
        let mut starts: Vec<usize> = Vec::new();
        starts.push(0);
        assert(starts@ =~= line_starts(bytes@.take(0)));
        for i in 0..bytes.len()
            invariant
                starts@ == line_starts(bytes@.take(i as int)),
        {
            assert(bytes@.take(i + 1).drop_last() =~= bytes@.take(i as int));
            if bytes[i] == 10 {
                starts.push(i + 1);
            }
        }
        assert(bytes@.take(bytes@.len() as int) =~= bytes@);
        proof {
            lemma_line_starts_ordered(bytes@);
        }
        SourceMap { line_starts: starts }
    }

    /// The line and column of a byte offset.
    pub fn position(&self, byte_offset: usize) -> (r: SourcePosition)
        requires
            self.wf(),
            position_in(self@, byte_offset as int).1 <= usize::MAX,
        ensures
            (r.line as int, r.column as int) == position_in(self@, byte_offset as int),
    {
        let ghost starts = self.line_starts@;
        let mut low: usize = 1;
        let mut high: usize = self.line_starts.len();
        while low < high
            invariant
                1 <= low <= high <= starts.len(),
                starts == self.line_starts@,
                ordered_starts(starts),
                forall|i: int| 0 <= i < low ==> starts[i] <= byte_offset,
                forall|i: int| high <= i < starts.len() ==> starts[i] > byte_offset,
            decreases high - low,
        {
            let middle: usize = low + (high - low) / 2;
            if self.line_starts[middle] <= byte_offset {
                low = middle + 1;
            } else {
                high = middle;
            }
        }
        proof {
            lemma_lines_up_to(starts, byte_offset as int, low as int);
        }
        SourcePosition { line: low, column: byte_offset - self.line_starts[low - 1] + 1 }
    }

    /// The positions of a span's two ends.
    pub fn span_positions(&self, span: Span) -> (r: (SourcePosition, SourcePosition))
        requires
            self.wf(),
            position_in(self@, span.start as int).1 <= usize::MAX,
            position_in(self@, span.end as int).1 <= usize::MAX,
        ensures
            (r.0.line as int, r.0.column as int) == position_in(self@, span.start as int),
            (r.1.line as int, r.1.column as int) == position_in(self@, span.end as int),
    {
        (self.position(span.start), self.position(span.end))
    }
}

impl Clone for SourceMap {
    fn clone(&self) -> (r: Self)
        ensures
            r@ == self@,
            r.wf() == self.wf(),
    {
        let mut starts: Vec<usize> = Vec::new();
        for i in 0..self.line_starts.len()
            invariant
                starts@ == self.line_starts@.take(i as int),
        {
            assert(self.line_starts@.take(i + 1) =~= self.line_starts@.take(i as int).push(
                self.line_starts@[i as int],
            ));
            starts.push(self.line_starts[i]);
        }
        assert(self.line_starts@.take(self.line_starts@.len() as int) =~= self.line_starts@);
        SourceMap { line_starts: starts }
    }
}

proof fn lemma_line_starts_ordered(bytes: Seq<u8>)
    requires
        bytes.len() <= usize::MAX,
    ensures
        ordered_starts(line_starts(bytes)),
        line_starts(bytes).last() <= bytes.len(),
    decreases bytes.len(),
{
    if bytes.len() > 0 {
        lemma_line_starts_ordered(bytes.drop_last());
    }
}

proof fn lemma_lines_up_to(starts: Seq<usize>, offset: int, count: int)
    requires
        0 <= count <= starts.len(),
        forall|i: int| 0 <= i < count ==> starts[i] <= offset,
        forall|i: int| count <= i < starts.len() ==> starts[i] > offset,
    ensures
        lines_up_to(starts, offset) == count,
    decreases starts.len(),
{
    if starts.len() > 0 {
        if count == starts.len() {
            lemma_lines_up_to(starts.drop_last(), offset, count - 1);
        } else {
            lemma_lines_up_to(starts.drop_last(), offset, count);
        }
    }
}

proof fn lemma_lines_of_prefix(bytes: Seq<u8>, offset: int)
    requires
        bytes.len() <= usize::MAX,
        bytes.len() <= offset,
    ensures
        lines_up_to(line_starts(bytes), offset) == line_starts(bytes).len(),
        line_starts(bytes).len() == line_feeds(bytes) + 1,
        line_starts(bytes).last() == last_line_start(bytes),
    decreases bytes.len(),
{
    lemma_line_starts_ordered(bytes);
    if bytes.len() > 0 {
        lemma_lines_of_prefix(bytes.drop_last(), offset);
        if bytes.last() == 10u8 {
            assert(line_starts(bytes).drop_last() =~= line_starts(bytes.drop_last()));
        }
    } else {
        reveal_with_fuel(lines_up_to, 2);
    }
}

/// The text before an offset; all of it for an offset behind its end.
pub open spec fn text_before(bytes: Seq<u8>, offset: int) -> Seq<u8> {
    if offset <= bytes.len() {
        bytes.take(offset)
    } else {
        bytes
    }
}

/// A position is told by the text before it: its line counts the line feeds
/// before the offset, its column the bytes since the last of them.
pub proof fn lemma_position_reads_the_text_before(bytes: Seq<u8>, offset: int)
    requires
        0 <= offset,
        bytes.len() <= usize::MAX,
    ensures
        position_in(line_starts(bytes), offset) == (
            (line_feeds(text_before(bytes, offset)) + 1) as int,
            offset - last_line_start(text_before(bytes, offset)) + 1,
        ),
    decreases bytes.len(),
{
    lemma_line_starts_ordered(bytes);
    if offset >= bytes.len() {
        assert(text_before(bytes, offset) =~= bytes);
        lemma_lines_of_prefix(bytes, offset);
    } else {
        let before = bytes.drop_last();
        assert(text_before(before, offset) =~= text_before(bytes, offset));
        lemma_position_reads_the_text_before(before, offset);
        lemma_line_starts_ordered(before);
        lemma_lines_bound(line_starts(before), offset);
        if bytes.last() == 10u8 {
            assert(line_starts(bytes).drop_last() =~= line_starts(before));
        }
    }
}

proof fn lemma_lines_bound(starts: Seq<usize>, offset: int)
    requires
        ordered_starts(starts),
        0 <= offset,
    ensures
        1 <= lines_up_to(starts, offset) <= starts.len(),
    decreases starts.len(),
{
    if starts.len() > 1 {
        lemma_lines_bound(starts.drop_last(), offset);
    } else {
        reveal_with_fuel(lines_up_to, 2);
    }
}

} // verus!
