//! What commands do when the code they build runs.
use crate::instructions::{CommandView, IntTest, LowBinary, LowType, LowUnary, OperandView};
use crate::integers::{quotient, remainder};
use vstd::arithmetic::power2::pow2;
use vstd::prelude::*;

verus! {

/// A value of the machine: bits, read as a number from zero on; the address of
/// a part of what a command made room for; parts with their places; or anything
/// else.
pub ghost enum Val {
    Bits { width: nat, value: nat },
    Address { room: int, path: Seq<nat> },
    Parts(Map<nat, Val>),
    Other,
}

/// Where a run is: at a command of a block, having come from another block, with
/// the results of commands, what is stored, and the arguments.
pub ghost struct State {
    pub pc: int,
    pub block: int,
    pub from: int,
    pub results: Map<int, Val>,
    pub rooms: Map<int, Val>,
    pub arguments: Seq<Val>,
}

/// What comes next: another command, the end of the program, or a value that is
/// given back. Nothing is said of commands whose operands make no sense.
pub ghost enum Next {
    Go(State),
    Trapped,
    Gave(Option<Val>),
    Senseless,
}

/// A number as bits.
pub open spec fn bits(width: nat, n: int) -> Val {
    Val::Bits { width, value: (n % (pow2(width) as int)) as nat }
}

pub open spec fn truth(b: bool) -> Val {
    Val::Bits {
        width: 1,
        value: if b {
            1
        } else {
            0
        },
    }
}

/// Bits read as a number with a sign.
pub open spec fn signed_value(width: nat, value: nat) -> int {
    if 2 * value >= pow2(width) {
        value - pow2(width)
    } else {
        value as int
    }
}

pub open spec fn operand_value(st: State, o: OperandView) -> Val {
    match o {
        OperandView::Register(r) => st.results[r as int],
        OperandView::Parameter(i) => st.arguments[i as int],
        OperandView::Integer { value, ty } => match ty {
            LowType::Int(width) => bits(width as nat, value as int),
            _ => Val::Other,
        },
        OperandView::Number { value, bits: width } => bits(width as nat, value as int),
        OperandView::AllOnes { bits: width } => bits(width as nat, -1),
        OperandView::Undefined(_) => Val::Parts(Map::empty()),
        _ => Val::Other,
    }
}

/// What an operation makes of two numbers of a width, where it has a result.
pub open spec fn operation_result(op: LowBinary, width: nat, x: nat, y: nat) -> Option<Val> {
    let a = signed_value(width, x);
    let b = signed_value(width, y);
    match op {
        LowBinary::Add => Some(bits(width, (x + y) as int)),
        LowBinary::Subtract => Some(bits(width, x - y)),
        LowBinary::Multiply => Some(bits(width, (x * y) as int)),
        LowBinary::DivideUnsigned => if y == 0 {
            None
        } else {
            Some(bits(width, (x / y) as int))
        },
        LowBinary::RemainderUnsigned => if y == 0 {
            None
        } else {
            Some(bits(width, (x % y) as int))
        },
        LowBinary::DivideSigned => if y == 0 {
            None
        } else {
            Some(bits(width, quotient(a, b)))
        },
        LowBinary::RemainderSigned => if y == 0 {
            None
        } else {
            Some(bits(width, remainder(a, b)))
        },
        LowBinary::And => Some(bits(width, ((x as u128) & (y as u128)) as int)),
        LowBinary::Or => Some(bits(width, ((x as u128) | (y as u128)) as int)),
        LowBinary::Xor => Some(bits(width, ((x as u128) ^ (y as u128)) as int)),
        LowBinary::ShiftLeft => if y < width {
            Some(bits(width, (x * pow2(y)) as int))
        } else {
            None
        },
        LowBinary::ShiftRightUnsigned => if y < width {
            Some(bits(width, x as int / pow2(y) as int))
        } else {
            None
        },
        LowBinary::ShiftRightSigned => if y < width {
            Some(bits(width, a / pow2(y) as int))
        } else {
            None
        },
        _ => None,
    }
}

/// Whether a comparison of two numbers of a width holds.
pub open spec fn test_holds(test: IntTest, width: nat, x: nat, y: nat) -> bool {
    let a = signed_value(width, x);
    let b = signed_value(width, y);
    match test {
        IntTest::Equal => x == y,
        IntTest::NotEqual => x != y,
        IntTest::LessUnsigned => x < y,
        IntTest::LessEqualUnsigned => x <= y,
        IntTest::GreaterUnsigned => x > y,
        IntTest::GreaterEqualUnsigned => x >= y,
        IntTest::LessSigned => a < b,
        IntTest::LessEqualSigned => a <= b,
        IntTest::GreaterSigned => a > b,
        IntTest::GreaterEqualSigned => a >= b,
    }
}

/// The part of a value at a path.
pub open spec fn part_at(v: Val, path: Seq<nat>) -> Val
    decreases path.len(),
{
    if path.len() == 0 {
        v
    } else {
        match v {
            Val::Parts(parts) => part_at(parts[path[0]], path.drop_first()),
            _ => Val::Other,
        }
    }
}

/// A value with another part at a path.
pub open spec fn with_part(v: Val, path: Seq<nat>, part: Val) -> Val
    decreases path.len(),
{
    if path.len() == 0 {
        part
    } else {
        match v {
            Val::Parts(parts) => Val::Parts(
                parts.insert(path[0], with_part(parts[path[0]], path.drop_first(), part)),
            ),
            _ => Val::Other,
        }
    }
}

/// Where the commands of a block start: behind the first command that goes on
/// in it.
pub open spec fn start_of(cs: Seq<CommandView>, block: int, i: int) -> int
    decreases cs.len() - i,
{
    if i < 0 || i >= cs.len() {
        cs.len() as int
    } else if cs[i] matches CommandView::Position { block: b } && b == block {
        i + 1
    } else {
        start_of(cs, block, i + 1)
    }
}

/// The state at the start of a block.
pub open spec fn gone_to(cs: Seq<CommandView>, st: State, block: int) -> State {
    State { pc: start_of(cs, block, 0), block, from: st.block, ..st }
}

/// The state behind a command with a result.
pub open spec fn with_result(st: State, v: Val) -> State {
    State { pc: st.pc + 1, results: st.results.insert(st.pc, v), ..st }
}

pub open spec fn gone_on(st: State) -> State {
    State { pc: st.pc + 1, ..st }
}

/// One step.
pub open spec fn step(cs: Seq<CommandView>, st: State) -> Next {
    if !(0 <= st.pc < cs.len()) {
        Next::Senseless
    } else {
        match cs[st.pc] {
            CommandView::Append { .. } => Next::Go(gone_on(st)),
            CommandView::Locate { .. } => Next::Go(gone_on(st)),
            CommandView::Position { block } => if block == st.block {
                Next::Go(gone_on(st))
            } else {
                Next::Senseless
            },
            CommandView::Alloca { .. } => Next::Go(
                State {
                    rooms: st.rooms.insert(st.pc, Val::Other),
                    ..with_result(st, Val::Address { room: st.pc, path: Seq::empty() })
                },
            ),
            CommandView::Store { pointer, value } => match operand_value(st, pointer) {
                Val::Address { room, path } => Next::Go(
                    State {
                        rooms: st.rooms.insert(
                            room,
                            with_part(st.rooms[room], path, operand_value(st, value)),
                        ),
                        ..gone_on(st)
                    },
                ),
                _ => Next::Senseless,
            },
            CommandView::Load { pointer, .. } => match operand_value(st, pointer) {
                Val::Address { room, path } => Next::Go(
                    with_result(st, part_at(st.rooms[room], path)),
                ),
                _ => Next::Senseless,
            },
            CommandView::Insert { aggregate, value, index, .. } => match operand_value(
                st,
                aggregate,
            ) {
                Val::Parts(parts) => Next::Go(
                    with_result(
                        st,
                        Val::Parts(parts.insert(index as nat, operand_value(st, value))),
                    ),
                ),
                _ => Next::Senseless,
            },
            CommandView::Extract { aggregate, index, .. } => match operand_value(st, aggregate) {
                Val::Parts(parts) => Next::Go(with_result(st, parts[index as nat])),
                _ => Next::Senseless,
            },
            CommandView::Member { pointer, index, .. } => match operand_value(st, pointer) {
                Val::Address { room, path } => Next::Go(
                    with_result(st, Val::Address { room, path: path.push(index as nat) }),
                ),
                _ => Next::Senseless,
            },
            CommandView::ArrayElement { pointer, index, .. } => match (
                operand_value(st, pointer),
                operand_value(st, index),
            ) {
                (Val::Address { room, path }, Val::Bits { value, .. }) => Next::Go(
                    with_result(st, Val::Address { room, path: path.push(value) }),
                ),
                _ => Next::Senseless,
            },
            CommandView::Jump { block } => Next::Go(gone_to(cs, st, block as int)),
            CommandView::Branch { condition, yes, no } => match operand_value(st, condition) {
                Val::Bits { value, .. } => Next::Go(
                    gone_to(
                        cs,
                        st,
                        if value == 1 {
                            yes as int
                        } else {
                            no as int
                        },
                    ),
                ),
                _ => Next::Senseless,
            },
            CommandView::Return { value } => Next::Gave(
                match value {
                    Some(v) => Some(operand_value(st, v)),
                    None => None,
                },
            ),
            CommandView::Trap => Next::Trapped,
            CommandView::Unary { operation, operand, .. } => match operand_value(st, operand) {
                Val::Bits { width, value } => match operation {
                    LowUnary::Negate => Next::Go(with_result(st, bits(width, -value))),
                    LowUnary::Not => Next::Go(with_result(st, bits(width, -1 - value))),
                    _ => Next::Senseless,
                },
                _ => Next::Senseless,
            },
            CommandView::Binary { operation, left, right, .. } => match (
                operand_value(st, left),
                operand_value(st, right),
            ) {
                (
                    Val::Bits { width, value: x },
                    Val::Bits { value: y, .. },
                ) => match operation_result(operation, width, x, y) {
                    Some(v) => Next::Go(with_result(st, v)),
                    None => Next::Senseless,
                },
                _ => Next::Senseless,
            },
            CommandView::Compare { test, left, right, .. } => match (
                operand_value(st, left),
                operand_value(st, right),
            ) {
                (Val::Bits { width, value: x }, Val::Bits { value: y, .. }) => Next::Go(
                    with_result(st, truth(test_holds(test, width, x, y))),
                ),
                _ => Next::Senseless,
            },
            CommandView::Choose { left, left_block, right, .. } => Next::Go(
                with_result(
                    st,
                    if st.from == left_block {
                        operand_value(st, left)
                    } else {
                        operand_value(st, right)
                    },
                ),
            ),
            _ => Next::Senseless,
        }
    }
}

/// At most `n` steps.
pub open spec fn run(cs: Seq<CommandView>, st: State, n: nat) -> Next
    decreases n,
{
    if n == 0 {
        Next::Go(st)
    } else {
        match step(cs, st) {
            Next::Go(after) => run(cs, after, (n - 1) as nat),
            other => other,
        }
    }
}

/// Steps add up.
pub proof fn lemma_steps_add_up(cs: Seq<CommandView>, st: State, a: nat, b: nat)
    ensures
        run(cs, st, a) matches Next::Go(after) ==> run(cs, st, a + b) == run(cs, after, b),
        !(run(cs, st, a) is Go) ==> run(cs, st, a + b) == run(cs, st, a),
    decreases a,
{
    if a > 0 {
        if let Next::Go(after) = step(cs, st) {
            lemma_steps_add_up(cs, after, (a - 1) as nat, b);
        }
    }
}

} // verus!
