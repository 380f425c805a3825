//! What follows from the instruction set, stated for every machine.

use vstd::prelude::*;
use crate::intcoder::{IntMode, IntResponse};
use crate::model::{
    arithmetic_of, decode_word, is_arithmetic, is_jump, jump_taken, Fault, Machine,
};

verus! {

/// Whether the machine is about to execute the instruction
/// `(code, first, second, third)`: it has not halted and the word at its
/// instruction pointer decodes to that.
pub open spec fn at_instruction(
    m: Machine,
    code: i64,
    first: IntMode,
    second: IntMode,
    third: IntMode,
) -> bool {
    &&& !m.halted
    &&& m.in_memory(m.ip)
    &&& decode_word(m.mem[m.ip]) == Ok::<_, Fault>((code, first, second, third))
}

/// An add, multiply, less-than or equals instruction that executes puts the
/// sum, the product or the outcome of the comparison (1 or 0) of its two
/// operands into the cell that its third parameter names, whatever the modes
/// of the operands. Reading that cell afterwards gives that value. No other
/// cell changes, and the machine goes on behind the instruction's four words.
pub proof fn theorem_arithmetic_stores_result(
    m: Machine,
    code: i64,
    first: IntMode,
    second: IntMode,
    third: IntMode,
)
    requires
        at_instruction(m, code, first, second, third),
        is_arithmetic(code as int),
        m.step().1 is Ok,
    ensures
        m.step().1 == Ok::<Option<IntResponse>, Fault>(None),
        m.in_memory(m.address(3, third)),
        m.step().0.mem[m.address(3, third)] == arithmetic_of(
            code as int,
            m.value(1, first) as int,
            m.value(2, second) as int,
        ),
        m.step().0.mem.len() == m.mem.len(),
        forall|at: int|
            m.in_memory(at) && at != m.address(3, third) ==> m.step().0.mem[at] == m.mem[at],
        m.step().0.ip == m.ip + 4,
        m.step().0.rel == m.rel,
        m.step().0.input == m.input,
{
}

/// A jump instruction that executes changes nothing but the instruction
/// pointer. Where its condition asks for no jump (zero for jump-if-true,
/// nonzero for jump-if-false) the machine goes on behind the instruction's
/// three words; where it asks for the jump, the instruction pointer becomes
/// exactly the value of the second parameter.
pub proof fn theorem_jump_moves_ip(
    m: Machine,
    code: i64,
    first: IntMode,
    second: IntMode,
    third: IntMode,
)
    requires
        at_instruction(m, code, first, second, third),
        is_jump(code as int),
        m.step().1 is Ok,
    ensures
        m.step().1 == Ok::<Option<IntResponse>, Fault>(None),
        m.step().0 == (Machine { ip: m.step().0.ip, ..m }),
        jump_taken(code as int, m.value(1, first) as int) ==> m.step().0.ip == m.value(2, second),
        !jump_taken(code as int, m.value(1, first) as int) ==> m.step().0.ip == m.ip + 3,
        code == 5 ==> (jump_taken(code as int, m.value(1, first) as int) <==> m.value(1, first)
            != 0),
        code == 6 ==> (jump_taken(code as int, m.value(1, first) as int) <==> m.value(1, first)
            == 0),
{
}

/// Of two values offered in a row to an empty slot, the first is buffered and
/// the second is turned away: after the first offer the slot is no longer
/// empty, which is what makes an offer fail, and the machine after the second
/// offer is the machine after the first.
pub proof fn theorem_second_input_rejected(m: Machine, first: i64, second: i64)
    requires
        m.input is None,
    ensures
        m.supply(first) == (Machine { input: Some(first), ..m }),
        !(m.supply(first).input is None),
        m.supply(first).supply(second) == m.supply(first),
        m.supply(first).supply(second).input == Some(first),
{
}

/// An offer never touches anything but the input slot, and never replaces a
/// value that is pending.
pub proof fn theorem_input_keeps_pending(m: Machine, value: i64)
    ensures
        m.supply(value) == (Machine { input: m.supply(value).input, ..m }),
        m.input is Some ==> m.supply(value) == m,
        m.supply(value).input is Some,
{
}

/// An input instruction that finds the slot empty suspends the machine with
/// `Input` and leaves it exactly as it was, the instruction pointer still at
/// that instruction. Once a value is supplied, the same instruction executes
/// once: it stores exactly that value where its parameter points, empties the
/// slot and moves on by its two words, so the value cannot be consumed again.
pub proof fn theorem_input_resumes(
    m: Machine,
    first: IntMode,
    second: IntMode,
    third: IntMode,
    value: i64,
)
    requires
        at_instruction(m, 3, first, second, third),
        first != IntMode::Imm,
        m.input is None,
    ensures
        m.step() == (m, Ok::<Option<IntResponse>, Fault>(Some(IntResponse::Input))),
        m.suspends(),
        m.run() == (m, IntResponse::Input),
        m.addressable(1, first) ==> m.supply(value).step() == (
            Machine { mem: m.mem.update(m.address(1, first), value), ip: m.ip + 2, ..m },
            Ok::<Option<IntResponse>, Fault>(None),
        ),
        !m.addressable(1, first) ==> m.supply(value).step().1 == Err::<
            Option<IntResponse>,
            Fault,
        >(Fault::Address),
{
    m.lemma_run_unfold();
}

/// An output instruction that executes reports the value of its parameter and
/// leaves the machine behind its two words, otherwise unchanged.
pub proof fn theorem_output_reports(
    m: Machine,
    first: IntMode,
    second: IntMode,
    third: IntMode,
)
    requires
        at_instruction(m, 4, first, second, third),
        m.readable(1, first),
    ensures
        m.suspends(),
        m.run() == (Machine { ip: m.ip + 2, ..m }, IntResponse::Output(m.value(1, first))),
{
    m.lemma_run_unfold();
}

/// The adjust instruction adds the value of its parameter to the relative
/// base and changes nothing else but the instruction pointer. A parameter of
/// the next instruction that is in relative mode and holds the offset `k`
/// then names the cell at exactly the old relative base plus that value plus
/// `k`. Here `at` is the parameter's position in its instruction, 1, 2 or 3.
pub proof fn theorem_relative_base(
    m: Machine,
    first: IntMode,
    second: IntMode,
    third: IntMode,
    at: int,
)
    requires
        at_instruction(m, 9, first, second, third),
        m.step().1 is Ok,
    ensures
        m.step().1 == Ok::<Option<IntResponse>, Fault>(None),
        m.step().0 == (Machine { rel: (m.rel + m.value(1, first)) as i64, ip: m.ip + 2, ..m }),
        m.step().0.rel == m.rel + m.value(1, first),
        m.step().0.address(at, IntMode::Rel) == m.rel + m.value(1, first) + m.step().0.param(at),
{
}

/// In relative mode a parameter that holds the offset `k` names the cell at
/// exactly the relative base plus `k`: that cell is what a fetch reads and
/// what a store writes, and no other cell is written. Here `at` is the
/// parameter's position in its instruction and `k` is `m.param(at)`.
pub proof fn theorem_relative_access(m: Machine, at: int, value: i64, width: int)
    ensures
        m.address(at, IntMode::Rel) == m.rel + m.param(at),
        m.readable(at, IntMode::Rel) ==> m.in_memory(m.rel + m.param(at)) && m.value(
            at,
            IntMode::Rel,
        ) == m.mem[m.rel + m.param(at)],
        m.addressable(at, IntMode::Rel) ==> m.stored(at, IntMode::Rel, value, width).mem[m.rel
            + m.param(at)] == value,
        m.stored(at, IntMode::Rel, value, width).mem == m.mem.update(m.rel + m.param(at), value),
{
}

/// An output instruction in relative mode reports the cell at the relative
/// base plus its offset, and an input instruction in relative mode fills that
/// cell.
pub proof fn theorem_relative_instructions(m: Machine, second: IntMode, third: IntMode, value: i64)
    requires
        !m.halted,
        m.in_memory(m.ip),
        m.addressable(1, IntMode::Rel),
    ensures
        decode_word(m.mem[m.ip]) == Ok::<_, Fault>((4i64, IntMode::Rel, second, third)) ==> m.step()
            == (
            Machine { ip: m.ip + 2, ..m },
            Ok::<Option<IntResponse>, Fault>(
                Some(IntResponse::Output(m.mem[m.rel + m.param(1)])),
            ),
        ),
        decode_word(m.mem[m.ip]) == Ok::<_, Fault>((3i64, IntMode::Rel, second, third)) ==> m.supply(
            value,
        ).step().0.mem == m.mem.update(m.rel + m.param(1), m.supply(value).input->Some_0),
{
}

/// A machine that cannot execute its instruction is stuck: however long it is
/// run, it stays as it is and reports the same fault, and it has no suspend
/// point.
pub proof fn theorem_fault_is_final(m: Machine, limit: nat)
    requires
        m.step().1 is Err,
        limit > 0,
    ensures
        m.step().0 == m,
        m.run_for(limit) == m.step(),
        !m.suspends(),
{
    m.lemma_run_unfold();
}

/// The halt instruction suspends the machine with `Halt`, and a halted machine
/// executes nothing more: every further step reports `Fault::Halted`.
pub proof fn theorem_halt_is_final(m: Machine, first: IntMode, second: IntMode, third: IntMode)
    requires
        at_instruction(m, 99, first, second, third),
    ensures
        m.suspends(),
        m.run().1 == IntResponse::Halt,
        m.run().0.halted,
        m.run().0.step() == (m.run().0, Err::<Option<IntResponse>, Fault>(Fault::Halted)),
        !m.run().0.suspends(),
{
    m.lemma_run_unfold();
    m.run().0.lemma_run_unfold();
}

} // verus!
