//! The mathematical machine: a state, the effect of one instruction on it, and
//! what it means to run until the next suspend point.
//!
//! Everything here is specification. The executable machine in
//! [`crate::intcoder`] is proved to follow it instruction by instruction.

use vstd::prelude::*;
use crate::intcoder::{IntMode, IntResponse};

verus! {

/// Why an instruction could not be executed. A faulting instruction leaves the
/// machine exactly as it was, so the same fault comes back on every later
/// attempt: the machine is stuck for good.
#[derive(Debug, Clone, Copy, PartialEq, Eq)]
pub enum Fault {
    /// The machine has halted already.
    Halted,
    /// The instruction pointer, a parameter or an effective address lies
    /// outside memory.
    Address,
    /// The instruction word is negative or its opcode is not one of the ten.
    Opcode,
    /// One of the three mode digits is not 0, 1 or 2.
    Mode,
    /// A parameter that is written to is in immediate mode.
    ImmediateStore,
    /// A sum or product, or the new relative base, does not fit in 64 bits.
    Overflow,
}

/// What one attempt to execute an instruction reports: a fault, an event for
/// the caller, or nothing because the machine can simply go on.
pub type Signal = Result<Option<IntResponse>, Fault>;

/// One decoded instruction word: the opcode and the modes of the first, second
/// and third parameter.
pub type Decoded = (i64, IntMode, IntMode, IntMode);

/// The number of zero cells that follow the program in a fresh machine.
pub const PADDING: usize = 3000;

/// The mode that a decimal digit of an instruction word stands for.
pub open spec fn mode_of(digit: int) -> Option<IntMode> {
    if digit == 0 {
        Some(IntMode::Pos)
    } else if digit == 1 {
        Some(IntMode::Imm)
    } else if digit == 2 {
        Some(IntMode::Rel)
    } else {
        None
    }
}

/// The decimal digit of `word` that holds the mode of parameter `k` (counted
/// from 1): the hundreds for the first parameter, the thousands for the
/// second, the ten-thousands for the third.
pub open spec fn mode_digit(word: int, k: int) -> int {
    if k == 1 {
        (word / 100) % 10
    } else if k == 2 {
        (word / 1000) % 10
    } else {
        (word / 10000) % 10
    }
}

/// Splits an instruction word into its opcode (the two lowest decimal digits)
/// and three parameter modes. A missing digit is a zero and so means
/// positional mode; digits above the fifth are ignored. All three mode digits
/// must be valid, whether or not the opcode uses that many parameters.
pub open spec fn decode_word(word: i64) -> Result<Decoded, Fault> {
    if word < 0 {
        Err(Fault::Opcode)
    } else {
        match (
            mode_of(mode_digit(word as int, 1)),
            mode_of(mode_digit(word as int, 2)),
            mode_of(mode_digit(word as int, 3)),
        ) {
            (Some(first), Some(second), Some(third)) => Ok(
                ((word % 100) as i64, first, second, third),
            ),
            _ => Err(Fault::Mode),
        }
    }
}

/// Whether `code` names one of the four instructions that compute a value
/// from two operands and store it.
pub open spec fn is_arithmetic(code: int) -> bool {
    code == 1 || code == 2 || code == 7 || code == 8
}

/// Whether `code` names one of the two conditional jumps.
pub open spec fn is_jump(code: int) -> bool {
    code == 5 || code == 6
}

/// The value that an arithmetic instruction stores: the sum for 1, the product
/// for 2, and 1 or 0 for the comparisons 7 (less than) and 8 (equal).
pub open spec fn arithmetic_of(code: int, left: int, right: int) -> int {
    if code == 1 {
        left + right
    } else if code == 2 {
        left * right
    } else if code == 7 {
        if left < right {
            1
        } else {
            0
        }
    } else {
        if left == right {
            1
        } else {
            0
        }
    }
}

/// Whether a jump instruction jumps: 5 on a nonzero condition, 6 on zero.
pub open spec fn jump_taken(code: int, condition: int) -> bool {
    if code == 5 {
        condition != 0
    } else {
        condition == 0
    }
}

/// Whether `value` can be held in a memory cell.
pub open spec fn fits(value: int) -> bool {
    i64::MIN <= value <= i64::MAX
}

/// The state of a machine.
pub struct Machine {
    /// The memory: the program followed by zero cells.
    pub mem: Seq<i64>,
    /// The index of the next instruction word.
    pub ip: int,
    /// The relative base.
    pub rel: i64,
    /// The value that the caller supplied and no instruction has consumed yet.
    pub input: Option<i64>,
    /// Whether the halt instruction has run.
    pub halted: bool,
}

impl Machine {
    /// A fresh machine for `program`: the program, then `PADDING` zeros.
    pub open spec fn load(program: Seq<i64>) -> Machine {
        Machine {
            mem: program + Seq::new(PADDING as nat, |i: int| 0i64),
            ip: 0,
            rel: 0,
            input: None,
            halted: false,
        }
    }

    /// The machine after the caller offers `value`: buffered if the slot is
    /// empty, otherwise unchanged.
    pub open spec fn supply(self, value: i64) -> Machine {
        if self.input is None {
            Machine { input: Some(value), ..self }
        } else {
            self
        }
    }

    /// Whether `at` is an index into memory.
    pub open spec fn in_memory(self, at: int) -> bool {
        0 <= at < self.mem.len()
    }

    /// The `k`-th parameter word of the current instruction.
    pub open spec fn param(self, k: int) -> i64 {
        self.mem[self.ip + k]
    }

    /// The address that the `k`-th parameter names in positional or relative
    /// mode.
    pub open spec fn address(self, k: int, mode: IntMode) -> int {
        match mode {
            IntMode::Rel => self.param(k) + self.rel,
            _ => self.param(k) as int,
        }
    }

    /// Whether the place that the `k`-th parameter names in positional or
    /// relative mode exists: the parameter word and the cell it names both lie
    /// in memory.
    pub open spec fn addressable(self, k: int, mode: IntMode) -> bool {
        self.in_memory(self.ip + k) && self.in_memory(self.address(k, mode))
    }

    /// Whether the `k`-th parameter can be read under `mode`.
    pub open spec fn readable(self, k: int, mode: IntMode) -> bool {
        match mode {
            IntMode::Imm => self.in_memory(self.ip + k),
            _ => self.addressable(k, mode),
        }
    }

    /// The value of the `k`-th parameter under `mode`.
    pub open spec fn value(self, k: int, mode: IntMode) -> i64
        recommends
            self.readable(k, mode),
    {
        match mode {
            IntMode::Imm => self.param(k),
            _ => self.mem[self.address(k, mode)],
        }
    }

    /// The machine after an instruction of `width` words has stored `value`
    /// where its `k`-th parameter points.
    pub open spec fn stored(self, k: int, mode: IntMode, value: i64, width: int) -> Machine {
        Machine { mem: self.mem.update(self.address(k, mode), value), ip: self.ip + width, ..self }
    }

    /// Executes a decoded instruction.
    ///
    /// A fault is found in this order: an immediate-mode destination, then the
    /// operands from first to last, then the result's size, then the place
    /// that is written or jumped to.
    pub open spec fn execute(self, instruction: Decoded) -> (Machine, Signal) {
        let (code, first, second, third) = instruction;
        if is_arithmetic(code as int) {
            let result = arithmetic_of(
                code as int,
                self.value(1, first) as int,
                self.value(2, second) as int,
            );
            if third == IntMode::Imm {
                (self, Err(Fault::ImmediateStore))
            } else if !self.readable(1, first) || !self.readable(2, second) {
                (self, Err(Fault::Address))
            } else if !fits(result) {
                (self, Err(Fault::Overflow))
            } else if !self.addressable(3, third) {
                (self, Err(Fault::Address))
            } else {
                (self.stored(3, third, result as i64, 4), Ok(None))
            }
        } else if code == 3 {
            if first == IntMode::Imm {
                (self, Err(Fault::ImmediateStore))
            } else {
                match self.input {
                    None => (self, Ok(Some(IntResponse::Input))),
                    Some(value) => if !self.addressable(1, first) {
                        (self, Err(Fault::Address))
                    } else {
                        (Machine { input: None, ..self.stored(1, first, value, 2) }, Ok(None))
                    },
                }
            }
        } else if code == 4 {
            if !self.readable(1, first) {
                (self, Err(Fault::Address))
            } else {
                (
                    Machine { ip: self.ip + 2, ..self },
                    Ok(Some(IntResponse::Output(self.value(1, first)))),
                )
            }
        } else if is_jump(code as int) {
            let target = self.value(2, second) as int;
            if !self.readable(1, first) || !self.readable(2, second) {
                (self, Err(Fault::Address))
            } else if !jump_taken(code as int, self.value(1, first) as int) {
                (Machine { ip: self.ip + 3, ..self }, Ok(None))
            } else if !self.in_memory(target) {
                (self, Err(Fault::Address))
            } else {
                (Machine { ip: target, ..self }, Ok(None))
            }
        } else if code == 9 {
            let base = self.rel + self.value(1, first);
            if !self.readable(1, first) {
                (self, Err(Fault::Address))
            } else if !fits(base) {
                (self, Err(Fault::Overflow))
            } else {
                (Machine { rel: base as i64, ip: self.ip + 2, ..self }, Ok(None))
            }
        } else if code == 99 {
            (Machine { halted: true, ip: self.ip + 1, ..self }, Ok(Some(IntResponse::Halt)))
        } else {
            (self, Err(Fault::Opcode))
        }
    }

    /// One attempt to execute the instruction at `ip`: the machine afterwards
    /// and what the attempt reports. On a fault the machine is unchanged.
    pub open spec fn step(self) -> (Machine, Signal) {
        if self.halted {
            (self, Err(Fault::Halted))
        } else if !self.in_memory(self.ip) {
            (self, Err(Fault::Address))
        } else {
            match decode_word(self.mem[self.ip]) {
                Err(fault) => (self, Err(fault)),
                Ok(instruction) => self.execute(instruction),
            }
        }
    }

    /// Executes instructions until one of them reports an event or a fault,
    /// but at most `limit` of them.
    pub open spec fn run_for(self, limit: nat) -> (Machine, Signal)
        decreases limit,
    {
        if limit == 0 {
            (self, Ok(None))
        } else {
            let (next, signal) = self.step();
            if signal == Ok::<Option<IntResponse>, Fault>(None) {
                next.run_for((limit - 1) as nat)
            } else {
                (next, signal)
            }
        }
    }

    /// Whether the machine reaches a suspend point within `limit`
    /// instructions, without a fault on the way.
    pub open spec fn suspends_within(self, limit: nat) -> bool {
        self.run_for(limit).1 matches Ok(Some(_))
    }

    /// Whether the machine reaches a suspend point at all: it neither faults
    /// nor computes forever.
    pub open spec fn suspends(self) -> bool {
        exists|limit: nat| self.suspends_within(limit)
    }

    /// The machine at its next suspend point, and the event it reports there.
    pub open spec fn run(self) -> (Machine, IntResponse)
        recommends
            self.suspends(),
    {
        let limit = choose|limit: nat| self.suspends_within(limit);
        let (next, signal) = self.run_for(limit);
        (next, signal->Ok_0->Some_0)
    }

    /// The machine after the caller offers `value` and lets it run, and the
    /// event it reports.
    pub open spec fn start(self, value: i64) -> (Machine, IntResponse)
        recommends
            self.supply(value).suspends(),
    {
        self.supply(value).run()
    }

    /// Once a run has ended in an event or a fault, a larger limit changes
    /// nothing.
    pub proof fn lemma_run_for_stable(self, limit: nat, larger: nat)
        requires
            limit <= larger,
            self.run_for(limit).1 != Ok::<Option<IntResponse>, Fault>(None),
        ensures
            self.run_for(larger) == self.run_for(limit),
        decreases limit,
    {
        if limit > 0 {
            let (next, signal) = self.step();
            if signal == Ok::<Option<IntResponse>, Fault>(None) {
                next.lemma_run_for_stable((limit - 1) as nat, (larger - 1) as nat);
            }
        }
    }

    /// A run that reaches a suspend point within some limit determines what
    /// `run` is: the machine and the event at that point.
    pub proof fn lemma_run_is(self, limit: nat)
        requires
            self.suspends_within(limit),
        ensures
            self.suspends(),
            self.run_for(limit) == (self.run().0, Ok::<Option<IntResponse>, Fault>(Some(self.run().1))),
    {
        let chosen = choose|chosen: nat| self.suspends_within(chosen);
        if chosen <= limit {
            self.lemma_run_for_stable(chosen, limit);
        } else {
            self.lemma_run_for_stable(limit, chosen);
        }
    }

    /// A run that ends in `Halt` leaves a halted machine, and a run that ends
    /// in another event leaves one that has not halted.
    pub proof fn lemma_run_for_halt(self, limit: nat)
        requires
            self.suspends_within(limit),
        ensures
            self.run_for(limit).0.halted == (self.run_for(limit).1 == Ok::<
                Option<IntResponse>,
                Fault,
            >(Some(IntResponse::Halt))),
        decreases limit,
    {
        if limit > 0 {
            let (next, signal) = self.step();
            if signal == Ok::<Option<IntResponse>, Fault>(None) {
                next.lemma_run_for_halt((limit - 1) as nat);
            }
        }
    }

    /// Only a machine that has not halted reaches a suspend point, and it is
    /// halted there exactly if the event is `Halt`.
    pub proof fn lemma_run_halt(self)
        requires
            self.suspends(),
        ensures
            !self.halted,
            self.run().0.halted == (self.run().1 == IntResponse::Halt),
    {
        let limit = choose|limit: nat| self.suspends_within(limit);
        self.lemma_run_is(limit);
        self.lemma_run_for_halt(limit);
        assert(limit > 0);
    }

    /// How a run unfolds by one instruction: an event ends it there, a fault
    /// means that there is no suspend point, and after a quiet instruction the
    /// run is the run of the machine that the instruction left.
    pub proof fn lemma_run_unfold(self)
        ensures
            match self.step().1 {
                Ok(Some(event)) => self.suspends() && self.run() == (self.step().0, event),
                Ok(None) => self.suspends() == self.step().0.suspends() && (self.suspends()
                    ==> self.run() == self.step().0.run()),
                Err(_) => !self.suspends(),
            },
    {
        let (next, signal) = self.step();
        match signal {
            Ok(Some(event)) => {
                assert(self.run_for(1) == (next, signal));
                self.lemma_run_is(1);
            },
            Ok(None) => {
                if next.suspends() {
                    let limit = choose|limit: nat| next.suspends_within(limit);
                    next.lemma_run_is(limit);
                    assert(self.run_for(limit + 1) == next.run_for(limit));
                    self.lemma_run_is(limit + 1);
                }
                if self.suspends() {
                    let limit = choose|limit: nat| self.suspends_within(limit);
                    assert(limit > 0);
                    assert(self.run_for(limit) == next.run_for((limit - 1) as nat));
                    next.lemma_run_is((limit - 1) as nat);
                }
            },
            Err(_) => {
                if self.suspends() {
                    let limit = choose|limit: nat| self.suspends_within(limit);
                    assert(limit > 0);
                    assert(self.run_for(limit) == (next, signal));
                }
            },
        }
    }
}

} // verus!
