//! The executable machine.
//!
//! `Intcode` owns its memory and is driven from outside: `run` executes
//! instructions until the program halts, emits a value or needs a value, and
//! hands control back with that event. `step` executes one instruction and is
//! defined on every machine, a stuck one included.

use vstd::prelude::*;
use vstd::pervasive::unreached;
use crate::model::{
    arithmetic_of, decode_word, fits, is_arithmetic, is_jump, jump_taken, mode_of, Decoded, Fault,
    Machine, Signal, PADDING,
};

verus! {

/// How a parameter word is turned into a value or a place in memory.
#[derive(Debug, Clone, Copy, PartialEq, Eq)]
pub enum IntMode {
    /// The word is an address.
    Pos,
    /// The word is the value itself; never a place to write to.
    Imm,
    /// The word plus the relative base is an address.
    Rel,
}

/// Why the machine handed control back to its caller.
#[derive(Debug, Clone, Copy, PartialEq, Eq)]
pub enum IntResponse {
    /// The halt instruction ran. The machine is finished for good.
    Halt,
    /// An input instruction found the input slot empty. The instruction
    /// pointer still names that instruction.
    Input,
    /// An output instruction produced this value. The instruction pointer is
    /// already behind it.
    Output(i64),
}

/// A machine: memory, instruction pointer, relative base and a slot for one
/// pending input value.
pub struct Intcode {
    prog: Vec<i64>,
    ip: usize,
    rel: i64,
    input: Option<i64>,
    halted: bool,
}

impl View for Intcode {
    type V = Machine;

    closed spec fn view(&self) -> Machine {
        Machine {
            mem: self.prog@,
            ip: self.ip as int,
            rel: self.rel,
            input: self.input,
            halted: self.halted,
        }
    }
}

impl Intcode {
    /// Builds a machine for `to_copy`: the program followed by `PADDING` zero
    /// cells, ready to execute its first word, with no input pending. The
    /// padding bounds the addresses that the program may touch.
    pub fn new(to_copy: &Vec<i64>) -> (machine: Intcode)
        requires
            to_copy.len() + PADDING <= usize::MAX,
        ensures
            machine@ == Machine::load(to_copy@),
    {
        let mut prog = to_copy.clone();
        prog.resize(to_copy.len() + PADDING, 0);
        assert(prog@ =~= to_copy@ + Seq::new(PADDING as nat, |i: int| 0i64)) by {
            assert(prog@.subrange(0, to_copy.len() as int) == to_copy@);
            assert forall|i: int| 0 <= i < to_copy.len() implies prog@[i] == to_copy@[i] by {
                assert(prog@.subrange(0, to_copy.len() as int)[i] == prog@[i]);
            }
        }
        Intcode { prog, ip: 0, rel: 0, input: None, halted: false }
    }

    /// Offers `num` as the next input. Returns `true` and buffers it if the
    /// slot was empty; returns `false` and changes nothing if a value was
    /// already pending.
    pub fn input(&mut self, num: i64) -> (accepted: bool)
        ensures
            accepted == (old(self)@.input is None),
            final(self)@ == old(self)@.supply(num),
    {
        match self.input {
            Some(_) => false,
            None => {
                self.input = Some(num);
                true
            },
        }
    }

    /// Offers `input`, which is dropped if a value is already pending, and
    /// runs the machine to its next event.
    pub fn start(&mut self, input: i64) -> (response: IntResponse)
        requires
            old(self)@.supply(input).suspends(),
        ensures
            (final(self)@, response) == old(self)@.start(input),
    {
        self.input(input);
        self.run()
    }

    /// Runs the machine until it halts, emits a value or needs a value, and
    /// returns that event.
    ///
    /// After `Output` the instruction pointer is behind the output
    /// instruction; after `Input` it still names the input instruction, which
    /// is executed again by the next call. After `Halt` the machine must not
    /// be run again.
    ///
    /// The caller owes a machine that reaches such a point: one that has not
    /// halted, whose instructions on the way are all executable, and which
    /// does not compute forever. `step` and `run_for` ask for nothing and
    /// report a fault as a value.
    pub fn run(&mut self) -> (response: IntResponse)
        requires
            old(self)@.suspends(),
        ensures
            (final(self)@, response) == old(self)@.run(),
    {
        let ghost mut left: nat = choose|limit: nat| old(self)@.suspends_within(limit);
        proof {
            old(self)@.lemma_run_is(left);
        }
        loop
            invariant
                self@.suspends_within(left),
                self@.run_for(left) == (
                    old(self)@.run().0,
                    Ok::<Option<IntResponse>, Fault>(Some(old(self)@.run().1)),
                ),
            decreases left,
        {
            match self.step() {
                Ok(Some(response)) => {
                    return response;
                },
                Ok(None) => {
                    proof {
                        left = (left - 1) as nat;
                    }
                },
                Err(_) => {
                    return unreached();
                },
            }
        }
    }

    /// Executes instructions until one of them reports an event or a fault,
    /// but at most `limit` of them. `Ok(None)` means that the limit was
    /// reached first; the machine can be run further.
    pub fn run_for(&mut self, limit: usize) -> (signal: Signal)
        ensures
            (final(self)@, signal) == old(self)@.run_for(limit as nat),
    {
        let mut left: usize = limit;
        while left > 0
            invariant
                self@.run_for(left as nat) == old(self)@.run_for(limit as nat),
            decreases left,
        {
            let signal = self.step();
            match signal {
                Ok(None) => {},
                _ => {
                    return signal;
                },
            }
            left = left - 1;
        }
        Ok(None)
    }

    /// Executes the instruction at the instruction pointer, if it can be
    /// executed.
    ///
    /// `Ok(None)` means that the instruction ran and the next one can follow,
    /// `Ok(Some(event))` that the machine stopped for its caller, and
    /// `Err(fault)` that the instruction cannot run. After a fault the machine
    /// is exactly as before, so it is stuck: every later step gives the same
    /// fault. A halted machine gives `Fault::Halted`.
    pub fn step(&mut self) -> (signal: Signal)
        ensures
            (final(self)@, signal) == old(self)@.step(),
    {
        if self.halted {
            return Err(Fault::Halted);
        }
        if self.ip >= self.prog.len() {
            return Err(Fault::Address);
        }
        let (code, first_mode, second_mode, third_mode) = match Intcode::decode(self.prog[self.ip]) {
            Ok(instruction) => instruction,
            Err(fault) => {
                return Err(fault);
            },
        };
        match code {
            1 | 2 | 7 | 8 => {
                if let IntMode::Imm = third_mode {
                    return Err(Fault::ImmediateStore);
                }
                let first = match self.fetch(1, first_mode) {
                    Some(value) => value,
                    None => {
                        return Err(Fault::Address);
                    },
                };
                let second = match self.fetch(2, second_mode) {
                    Some(value) => value,
                    None => {
                        return Err(Fault::Address);
                    },
                };
                match Intcode::arithmetic(code, first, second) {
                    None => Err(Fault::Overflow),
                    Some(value) => {
                        if self.store(3, third_mode, value, 4) {
                            Ok(None)
                        } else {
                            Err(Fault::Address)
                        }
                    },
                }
            },
            3 => {
                if let IntMode::Imm = first_mode {
                    return Err(Fault::ImmediateStore);
                }
                match self.input {
                    None => Ok(Some(IntResponse::Input)),
                    Some(value) => {
                        if self.store(1, first_mode, value, 2) {
                            self.input = None;
                            Ok(None)
                        } else {
                            Err(Fault::Address)
                        }
                    },
                }
            },
            4 => match self.fetch(1, first_mode) {
                None => Err(Fault::Address),
                Some(value) => {
                    self.ip = self.ip + 2;
                    Ok(Some(IntResponse::Output(value)))
                },
            },
            5 | 6 => {
                let first = match self.fetch(1, first_mode) {
                    Some(value) => value,
                    None => {
                        return Err(Fault::Address);
                    },
                };
                let second = match self.fetch(2, second_mode) {
                    Some(value) => value,
                    None => {
                        return Err(Fault::Address);
                    },
                };
                match self.jmp(code, first, second) {
                    None => Err(Fault::Address),
                    Some(dest) => {
                        self.ip = dest;
                        Ok(None)
                    },
                }
            },
            9 => match self.fetch(1, first_mode) {
                None => Err(Fault::Address),
                Some(value) => match self.rel.checked_add(value) {
                    None => Err(Fault::Overflow),
                    Some(base) => {
                        self.rel = base;
                        self.ip = self.ip + 2;
                        Ok(None)
                    },
                },
            },
            99 => {
                self.halted = true;
                self.ip = self.ip + 1;
                Ok(Some(IntResponse::Halt))
            },
            _ => Err(Fault::Opcode),
        }
    }

    /// Splits an instruction word into its opcode, the two lowest decimal
    /// digits, and the modes of three parameters, the next three digits from
    /// the lowest up. A negative word is no instruction, and every one of the
    /// three mode digits must be a mode.
    pub fn decode(instruction: i64) -> (r: Result<Decoded, Fault>)
        ensures
            r == decode_word(instruction),
    {
        if instruction < 0 {
            return Err(Fault::Opcode);
        }
        let code: i64 = instruction % 100;
        let first = Intcode::mode((instruction / 100) % 10);
        let second = Intcode::mode((instruction / 1000) % 10);
        let third = Intcode::mode((instruction / 10000) % 10);
        match (first, second, third) {
            (Some(first), Some(second), Some(third)) => Ok((code, first, second, third)),
            _ => Err(Fault::Mode),
        }
    }

    /// Reads one mode digit of an instruction word: 0 is positional, 1
    /// immediate, 2 relative, and nothing else is a mode.
    pub fn mode(bit: i64) -> (m: Option<IntMode>)
        ensures
            m == mode_of(bit as int),
    {
        match bit {
            0 => Some(IntMode::Pos),
            1 => Some(IntMode::Imm),
            2 => Some(IntMode::Rel),
            _ => None,
        }
    }

    /// The address that the `k`-th parameter names in positional or relative
    /// mode, if both the parameter and that address lie in memory.
    fn place(&self, k: usize, mode: IntMode) -> (at: Option<usize>)
        requires
            1 <= k <= 3,
            self@.in_memory(self@.ip),
        ensures
            match at {
                Some(at) => self@.addressable(k as int, mode) && at == self@.address(
                    k as int,
                    mode,
                ),
                None => !self@.addressable(k as int, mode),
            },
    {
        if k >= self.prog.len() - self.ip {
            return None;
        }
        let word = self.prog[self.ip + k];
        let base: i64 = match mode {
            IntMode::Rel => self.rel,
            _ => 0,
        };
        let at: i128 = word as i128 + base as i128;
        if at < 0 || at >= self.prog.len() as i128 {
            None
        } else {
            Some(at as usize)
        }
    }

    /// Reads the `k`-th parameter under `mode`; `None` where it cannot be
    /// read.
    fn fetch(&self, k: usize, mode: IntMode) -> (value: Option<i64>)
        requires
            1 <= k <= 3,
            self@.in_memory(self@.ip),
        ensures
            match value {
                Some(value) => self@.readable(k as int, mode) && value == self@.value(
                    k as int,
                    mode,
                ),
                None => !self@.readable(k as int, mode),
            },
    {
        match mode {
            IntMode::Imm => {
                if k >= self.prog.len() - self.ip {
                    None
                } else {
                    Some(self.prog[self.ip + k])
                }
            },
            _ => match self.place(k, mode) {
                Some(at) => Some(self.prog[at]),
                None => None,
            },
        }
    }

    /// Writes `val` where the `k`-th parameter, the instruction's last, points
    /// and moves on by the instruction's `width` words. Returns `false`, with
    /// nothing changed, where that place does not exist.
    fn store(&mut self, k: usize, mode: IntMode, val: i64, width: usize) -> (done: bool)
        requires
            1 <= k <= 3,
            width == k + 1,
            mode != IntMode::Imm,
            old(self)@.in_memory(old(self)@.ip),
        ensures
            done == old(self)@.addressable(k as int, mode),
            done ==> final(self)@ == old(self)@.stored(k as int, mode, val, width as int),
            !done ==> final(self)@ == old(self)@,
    {
        match self.place(k, mode) {
            Some(at) => {
                assert(self.ip + k < self.prog.len());
                self.prog[at] = val;
                self.ip = self.ip + width;
                true
            },
            None => false,
        }
    }

    /// Where a jump instruction continues: at the target if it jumps, behind
    /// its own three words if it does not; `None` where it would jump out of
    /// memory.
    fn jmp(&self, code: i64, left: i64, right: i64) -> (dest: Option<usize>)
        requires
            is_jump(code as int),
            self@.in_memory(self@.ip + 2),
            self@.in_memory(self@.ip),
        ensures
            dest == (if !jump_taken(code as int, left as int) {
                Some((self@.ip + 3) as usize)
            } else if self@.in_memory(right as int) {
                Some(right as usize)
            } else {
                None
            }),
    {
        let jump = if code == 5 {
            left != 0
        } else {
            left == 0
        };
        if !jump {
            assert(self.ip + 2 < self.prog.len());
            Some(self.ip + 3)
        } else if right < 0 || right as i128 >= self.prog.len() as i128 {
            None
        } else {
            Some(right as usize)
        }
    }

    /// Computes what an arithmetic instruction stores; `None` where the sum or
    /// product does not fit in 64 bits.
    pub fn arithmetic(code: i64, val1: i64, val2: i64) -> (r: Option<i64>)
        requires
            is_arithmetic(code as int),
        ensures
            match r {
                Some(value) => value == arithmetic_of(code as int, val1 as int, val2 as int),
                None => !fits(arithmetic_of(code as int, val1 as int, val2 as int)),
            },
    {
        if code == 1 {
            val1.checked_add(val2)
        } else if code == 2 {
            val1.checked_mul(val2)
        } else if code == 7 {
            if val1 < val2 {
                Some(1)
            } else {
                Some(0)
            }
        } else {
            if val1 == val2 {
                Some(1)
            } else {
                Some(0)
            }
        }
    }

    /// The index of the word that is executed next.
    pub fn ip(&self) -> (ip: usize)
        ensures
            ip == self@.ip,
    {
        self.ip
    }

    /// The relative base.
    pub fn relative_base(&self) -> (rel: i64)
        ensures
            rel == self@.rel,
    {
        self.rel
    }

    /// The value that was supplied and not consumed yet.
    pub fn pending(&self) -> (input: Option<i64>)
        ensures
            input == self@.input,
    {
        self.input
    }

    /// Whether the halt instruction has run. A halted machine executes nothing
    /// more.
    pub fn halted(&self) -> (halted: bool)
        ensures
            halted == self@.halted,
    {
        self.halted
    }

    /// The whole memory, the program's cells first.
    pub fn dump(&self) -> (mem: &Vec<i64>)
        ensures
            mem@ == self@.mem,
    {
        &self.prog
    }
}

} // verus!
