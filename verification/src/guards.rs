//! Checks at run time stand before what they guard.
use crate::emission::{element_pointed, number, Emission, Surroundings};
use crate::instructions::{CommandView, IntTest, OperandView, ValueView};
use crate::lexer::Span;
use crate::typed::ResolvedType;
use vstd::prelude::*;

verus! {

/// Whether the commands from `k` on compare an index with a limit, trap where
/// it is not below it, and otherwise go on behind the trap.
pub open spec fn is_checked_at(
    commands: Seq<CommandView>,
    k: int,
    index: OperandView,
    limit: OperandView,
) -> bool {
    &&& 0 <= k && k + 8 <= commands.len() <= usize::MAX
    &&& commands[k] matches CommandView::Compare { test, left, right, .. } && test
        == IntTest::LessUnsigned && left == index && right == limit
    &&& commands[k + 1] is Append
    &&& commands[k + 2] is Append
    &&& commands[k + 3] == (CommandView::Branch {
        condition: OperandView::Register(k as usize),
        yes: (k + 2) as usize,
        no: (k + 1) as usize,
    })
    &&& commands[k + 4] == (CommandView::Position { block: (k + 1) as usize })
    &&& commands[k + 5] == CommandView::Trap
    &&& commands[k + 6] == CommandView::Unreachable
    &&& commands[k + 7] == (CommandView::Position { block: (k + 2) as usize })
}

/// The index of an element that a command points to.
pub open spec fn indexes(c: CommandView, index: OperandView) -> bool {
    match c {
        CommandView::ArrayElement { index: i, .. } => i == index,
        CommandView::Element { index: i, .. } => i == index,
        _ => false,
    }
}

/// Checked indexing is checked at run time: right before the command that points
/// to an element of an array or of a slice, the index is compared with the
/// number of elements, and the program traps where it is not below it. The
/// number of elements of a slice is the one that the slice carries.
pub proof fn lemma_checked_indexing_is_guarded(
    m: Surroundings,
    s: Emission,
    pointer: OperandView,
    index: ValueView,
    ty: ResolvedType,
    length: Option<u64>,
    span: Span,
)
    requires
        ty is Slice || (ty is Array && length is Some),
    ensures
        element_pointed(m, s, pointer, index, ty, length, true, span) matches Ok((t, found))
            ==> (t.commands.len() <= usize::MAX ==> {
            let k = t.commands.len() - 9;
            &&& found == OperandView::Register((k + 8) as usize)
            &&& indexes(t.commands[k + 8], index.operand)
            &&& ty is Array ==> index.ty is Int && is_checked_at(
                t.commands,
                k,
                index.operand,
                number(length->Some_0, index.ty->Int_0),
            )
            &&& ty is Slice ==> is_checked_at(
                t.commands,
                k,
                index.operand,
                OperandView::Register((k - 1) as usize),
            ) && t.commands[k - 1] is Extract && t.commands[k - 1]->Extract_index == 1
                && t.commands[k - 3] is Load && t.commands[k - 3]->Load_pointer == pointer
                && t.commands[k - 1]->Extract_aggregate == OperandView::Register((k - 3) as usize)
        }),
{
    reveal(element_pointed);
}

} // verus!
