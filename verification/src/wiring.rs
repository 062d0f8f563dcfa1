//! What commands refer to: every command uses only what earlier commands gave.
use crate::emission::Emission;
use crate::instructions::{CommandView, LowType, OperandView};
use crate::typed::LocalId;
use vstd::prelude::*;

verus! {

/// Whether a command has a result.
pub open spec fn gives_value(c: CommandView) -> bool {
    match c {
        CommandView::Append { .. } => false,
        CommandView::Position { .. } => false,
        CommandView::Locate { .. } => false,
        CommandView::Store { .. } => false,
        CommandView::Jump { .. } => false,
        CommandView::Branch { .. } => false,
        CommandView::Return { .. } => false,
        CommandView::Unreachable => false,
        CommandView::Trap => false,
        _ => true,
    }
}

/// Whether an operand is no result, or that of one of the commands.
pub open spec fn known(cs: Seq<CommandView>, o: OperandView) -> bool {
    match o {
        OperandView::Register(r) => r < cs.len() && gives_value(cs[r as int]),
        _ => true,
    }
}

/// Whether one of the commands appends the block.
pub open spec fn has_block(cs: Seq<CommandView>, b: int) -> bool {
    0 <= b < cs.len() && cs[b] is Append
}

pub open spec fn all_known(cs: Seq<CommandView>, os: Seq<OperandView>) -> bool {
    forall|i: int| 0 <= i < os.len() ==> known(cs, #[trigger] os[i])
}

/// Whether a command uses only what the commands gave.
pub open spec fn fits_behind(cs: Seq<CommandView>, c: CommandView) -> bool {
    match c {
        CommandView::Append { .. } => true,
        CommandView::Position { block } => has_block(cs, block as int),
        CommandView::Locate { .. } => true,
        CommandView::Alloca { .. } => true,
        CommandView::Store { pointer, value } => known(cs, pointer) && known(cs, value),
        CommandView::Load { pointer, .. } => known(cs, pointer),
        CommandView::Insert { aggregate, value, .. } => known(cs, aggregate) && known(cs, value),
        CommandView::Extract { aggregate, .. } => known(cs, aggregate),
        CommandView::Jump { block } => has_block(cs, block as int),
        CommandView::Branch { condition, yes, no } => known(cs, condition) && has_block(
            cs,
            yes as int,
        ) && has_block(cs, no as int),
        CommandView::Return { value } => match value {
            Some(v) => known(cs, v),
            None => true,
        },
        CommandView::Unreachable => true,
        CommandView::Call { arguments, .. } => all_known(cs, arguments),
        CommandView::Trap => true,
        CommandView::Unary { operand, .. } => known(cs, operand),
        CommandView::Binary { left, right, .. } => known(cs, left) && known(cs, right),
        CommandView::Compare { left, right, .. } => known(cs, left) && known(cs, right),
        CommandView::CompareFloats { left, right, .. } => known(cs, left) && known(cs, right),
        CommandView::Element { pointer, index, .. } => known(cs, pointer) && known(cs, index),
        CommandView::ArrayElement { pointer, index, .. } => known(cs, pointer) && known(cs, index),
        CommandView::Member { pointer, .. } => known(cs, pointer),
        CommandView::Distance { left, right, .. } => known(cs, left) && known(cs, right),
        CommandView::Address { pointer, .. } => known(cs, pointer),
        CommandView::NotNull { pointer, .. } => known(cs, pointer),
        CommandView::Choose { left, left_block, right, right_block, .. } => known(cs, left)
            && known(cs, right) && has_block(cs, left_block as int) && has_block(
            cs,
            right_block as int,
        ),
    }
}

/// Whether every command uses only what those before it gave.
pub open spec fn well_wired(cs: Seq<CommandView>) -> bool
    decreases cs.len(),
{
    cs.len() == 0 || (well_wired(cs.drop_last()) && fits_behind(cs.drop_last(), cs.last()))
}

pub open spec fn locals_known(
    cs: Seq<CommandView>,
    locals: Seq<(LocalId, OperandView, LowType)>,
) -> bool {
    forall|i: int| 0 <= i < locals.len() ==> known(cs, (#[trigger] locals[i]).1)
}

/// Whether the commands are well wired, the block they go to is there, and so
/// is what the locals stand for.
#[verifier::opaque]
pub open spec fn sound(s: Emission) -> bool {
    &&& s.commands.len() <= usize::MAX
    &&& well_wired(s.commands)
    &&& has_block(s.commands, s.block)
    &&& locals_known(s.commands, s.locals)
}

/// Whether the commands of `t` are those of `s` and more.
#[verifier::opaque]
pub open spec fn extends(s: Emission, t: Emission) -> bool {
    &&& s.commands.len() <= t.commands.len()
    &&& forall|i: int| 0 <= i < s.commands.len() ==> #[trigger] t.commands[i] == s.commands[i]
}

pub open spec fn knows(s: Emission, o: OperandView) -> bool {
    known(s.commands, o)
}

pub open spec fn reaches(s: Emission, b: int) -> bool {
    has_block(s.commands, b)
}

/// Whether the step from `s` to `t` only adds commands, and keeps `t` sound if
/// `s` is, what it uses is known, and there are not too many commands.
pub open spec fn goes_on(s: Emission, uses: bool, t: Emission) -> bool {
    extends(s, t) && (sound(s) && uses && t.commands.len() <= usize::MAX ==> sound(t))
}

pub broadcast proof fn lemma_knows_more(s: Emission, t: Emission, o: OperandView)
    requires
        #[trigger] extends(s, t),
        knows(s, o),
    ensures
        #[trigger] knows(t, o),
{
    reveal(extends);
}

pub broadcast proof fn lemma_has_more(s: Emission, t: Emission, b: int)
    requires
        #[trigger] extends(s, t),
        reaches(s, b),
    ensures
        #[trigger] reaches(t, b),
{
    reveal(extends);
}

pub broadcast proof fn lemma_extends_twice(s: Emission, t: Emission, u: Emission)
    requires
        #[trigger] extends(s, t),
        #[trigger] extends(t, u),
    ensures
        extends(s, u),
{
    reveal(extends);
}

pub broadcast proof fn lemma_fewer(s: Emission, t: Emission)
    requires
        #[trigger] extends(s, t),
    ensures
        s.commands.len() <= t.commands.len(),
{
    reveal(extends);
}

pub broadcast group group_wiring {
    lemma_knows_more,
    lemma_has_more,
    lemma_extends_twice,
    lemma_fewer,
}

} // verus!
