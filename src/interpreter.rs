//! The execution engine: one program, its tape and its two pointers.
use crate::machine::{
    current, exec, initial_machine, machine_ok, next, printed, Halt, Machine, MEMORY_SIZE,
};
use crate::translate::{translate, translation};
use crate::program::{balanced, check_balanced, find_close, find_open, tokenize, tokens};
use vstd::prelude::*;

verus! {

/// Why a run or a translation stopped short.
#[derive(Clone, Copy, Debug, PartialEq, Eq, Structural)]
pub enum EngineError {
    /// A `[` or `]` has no partner.
    UnbalancedLoop,
    /// A `,` found no input byte left.
    InputExhausted,
    /// The allowed number of steps ran out before the program ended.
    StepLimit,
}

/// What one step did, as seen from outside.
#[derive(Clone, Copy, Debug, PartialEq, Eq, Structural)]
pub enum Action {
    /// The program had already ended; nothing changed.
    Halted,
    /// An instruction ran and wrote nothing.
    Continue,
    /// A `.` ran and wrote this byte.
    Output(u8),
}

/// A program loaded for execution, with its tape and pointers.
pub struct Interpreter {
    memory: Vec<u8>,
    data_pointer: usize,
    instruction_pointer: usize,
    instructions: Vec<char>,
    balanced: bool,
}

impl View for Interpreter {
    type V = Machine;

    closed spec fn view(&self) -> Machine {
        Machine {
            tape: self.memory@,
            dp: self.data_pointer as int,
            ip: self.instruction_pointer as int,
        }
    }
}

impl Interpreter {
    /// The instruction sequence being run.
    pub closed spec fn program(&self) -> Seq<char> {
        self.instructions@
    }

    /// The tape has its fixed length, the pointers are in range, and the
    /// recorded bracket check is the program's.
    pub closed spec fn wf(&self) -> bool {
        &&& machine_ok(self@)
        &&& self.instruction_pointer <= self.instructions.len()
        &&& self.balanced == balanced(self.instructions@)
    }

    /// Loads `source`: keeps its instruction symbols, zeroes the tape and
    /// puts both pointers at the start.
    pub fn new(source: &str) -> (r: Self)
        ensures
            r.wf(),
            r.program() == tokens(source@),
            r@ == initial_machine(),
    {
        let instructions = tokenize(source);
        let balanced = check_balanced(&instructions);
        let mut memory: Vec<u8> = Vec::new();
        while memory.len() < MEMORY_SIZE
            invariant
                memory.len() <= MEMORY_SIZE,
                forall|i: int| 0 <= i < memory.len() ==> memory@[i] == 0u8,
            decreases MEMORY_SIZE - memory.len(),
        {
            memory.push(0u8);
        }
        let r = Interpreter {
            memory,
            data_pointer: 0,
            instruction_pointer: 0,
            instructions,
            balanced,
        };
        assert(r@.tape =~= initial_machine().tape);
        r
    }

    /// Whether every bracket of the program has a partner.
    pub fn is_balanced(&self) -> (r: bool)
        requires
            self.wf(),
        ensures
            r == balanced(self.program()),
    {
        self.balanced
    }

    /// Whether the program has run to its end.
    pub fn is_halted(&self) -> (r: bool)
        requires
            self.wf(),
        ensures
            r == (self@.ip >= self.program().len()),
    {
        self.instruction_pointer >= self.instructions.len()
    }

    /// Whether the next instruction is a `,`, which reads one input byte.
    pub fn wants_input(&self) -> (r: bool)
        requires
            self.wf(),
        ensures
            r == (self@.ip < self.program().len() && self.program()[self@.ip] == ','),
    {
        self.instruction_pointer < self.instructions.len()
            && self.instructions[self.instruction_pointer] == ','
    }

    /// The instruction symbols of the loaded program.
    pub fn instructions(&self) -> (r: &Vec<char>)
        ensures
            r@ == self.program(),
    {
        &self.instructions
    }

    /// The position of the data pointer.
    pub fn data_pointer(&self) -> (r: usize)
        ensures
            r == self@.dp,
    {
        self.data_pointer
    }

    /// The position of the instruction pointer.
    pub fn instruction_pointer(&self) -> (r: usize)
        ensures
            r == self@.ip,
    {
        self.instruction_pointer
    }

    /// The value of tape cell `i`.
    pub fn cell(&self, i: usize) -> (r: u8)
        requires
            self.wf(),
            i < MEMORY_SIZE,
        ensures
            r == self@.tape[i as int],
    {
        self.memory[i]
    }

    /// Executes one instruction. `input` is the byte that a `,` reads; it is
    /// ignored by every other instruction. A `,` given no byte stores nothing
    /// and reports `InputExhausted`, with the machine left as it was.
    pub fn step(&mut self, input: Option<u8>) -> (r: Result<Action, EngineError>)
        requires
            old(self).wf(),
        ensures
            final(self).wf(),
            final(self).program() == old(self).program(),
            !balanced(old(self).program()) ==> r == Err::<Action, EngineError>(
                EngineError::UnbalancedLoop,
            ) && final(self)@ == old(self)@,
            balanced(old(self).program()) && old(self)@.ip >= old(self).program().len() ==> r
                == Ok::<Action, EngineError>(Action::Halted) && final(self)@ == old(self)@,
            balanced(old(self).program()) && old(self)@.ip < old(self).program().len() && old(
                self,
            ).program()[old(self)@.ip] == ',' && input is None ==> r == Err::<
                Action,
                EngineError,
            >(EngineError::InputExhausted) && final(self)@ == old(self)@,
            balanced(old(self).program()) && old(self)@.ip < old(self).program().len() && !(old(
                self,
            ).program()[old(self)@.ip] == ',' && input is None) ==> {
                &&& final(self)@ == next(
                    old(self).program(),
                    old(self)@,
                    match input {
                        Some(b) => b,
                        None => 0u8,
                    },
                )
                &&& old(self).program()[old(self)@.ip] == '.' ==> r == Ok::<Action, EngineError>(
                    Action::Output(current(old(self)@)),
                )
                &&& old(self).program()[old(self)@.ip] != '.' ==> r == Ok::<Action, EngineError>(
                    Action::Continue,
                )
            },
    {
        if !self.balanced {
            return Err(EngineError::UnbalancedLoop);
        }
        if self.instruction_pointer >= self.instructions.len() {
            return Ok(Action::Halted);
        }
        let ghost m0 = self@;
        let ghost prog = self.instructions@;
        let ip = self.instruction_pointer;
        let dp = self.data_pointer;
        let c = self.instructions[ip];
        let cellv = self.memory[dp];
        if c == '>' {
            self.data_pointer = if dp + 1 == MEMORY_SIZE { 0 } else { dp + 1 };
            self.instruction_pointer = ip + 1;
        } else if c == '<' {
            self.data_pointer = if dp == 0 { MEMORY_SIZE - 1 } else { dp - 1 };
            self.instruction_pointer = ip + 1;
        } else if c == '+' {
            self.memory[dp] = if cellv == 255 { 0 } else { cellv + 1 };
            self.instruction_pointer = ip + 1;
        } else if c == '-' {
            self.memory[dp] = if cellv == 0 { 255 } else { cellv - 1 };
            self.instruction_pointer = ip + 1;
        } else if c == '.' {
            self.instruction_pointer = ip + 1;
            return Ok(Action::Output(cellv));
        } else if c == ',' {
            match input {
                Some(b) => {
                    self.memory[dp] = b;
                    self.instruction_pointer = ip + 1;
                },
                None => {
                    return Err(EngineError::InputExhausted);
                },
            }
        } else if c == '[' {
            if cellv == 0 {
                let j = find_close(&self.instructions, ip);
                self.instruction_pointer = j + 1;
            } else {
                self.instruction_pointer = ip + 1;
            }
        } else if c == ']' {
            if cellv != 0 {
                let i = find_open(&self.instructions, ip);
                self.instruction_pointer = i + 1;
            } else {
                self.instruction_pointer = ip + 1;
            }
        } else {
            self.instruction_pointer = ip + 1;
        }
        assert(self@ =~= next(
            prog,
            m0,
            match input {
                Some(b) => b,
                None => 0u8,
            },
        ));
        Ok(Action::Continue)
    }

    /// Runs the program from its current state for at most `max_steps`
    /// instructions, taking the bytes that `,` reads from `input` in order, and
    /// returns the bytes that `.` wrote. A `,` that finds `input` used up ends
    /// the run with `InputExhausted`; no substitute byte is stored.
    pub fn run(&mut self, input: &[u8], max_steps: u64) -> (r: Result<Vec<u8>, EngineError>)
        requires
            old(self).wf(),
        ensures
            final(self).wf(),
            final(self).program() == old(self).program(),
            !balanced(old(self).program()) ==> r == Err::<Vec<u8>, EngineError>(
                EngineError::UnbalancedLoop,
            ) && final(self)@ == old(self)@,
            balanced(old(self).program()) ==> {
                let t = exec(old(self).program(), old(self)@, input@, max_steps as nat);
                &&& final(self)@ == t.machine
                &&& t.halt == Halt::Finished ==> r is Ok && r->Ok_0@ == t.output
                &&& t.halt == Halt::InputExhausted ==> r == Err::<Vec<u8>, EngineError>(
                    EngineError::InputExhausted,
                )
                &&& t.halt == Halt::OutOfSteps ==> r == Err::<Vec<u8>, EngineError>(
                    EngineError::StepLimit,
                )
            },
    {
        if !self.balanced {
            return Err(EngineError::UnbalancedLoop);
        }
        let ghost prog = self.instructions@;
        let ghost t0 = exec(prog, self@, input@, max_steps as nat);
        let mut out: Vec<u8> = Vec::new();
        let mut pos: usize = 0;
        let mut left: u64 = max_steps;
        assert(input@.subrange(0, input@.len() as int) =~= input@);
        assert(out@ + t0.output =~= t0.output);
        loop
            invariant
                self.wf(),
                old(self).program() == prog,
                t0 == exec(prog, old(self)@, input@, max_steps as nat),
                self.instructions@ == prog,
                balanced(prog),
                pos <= input.len(),
                t0.machine == exec(prog, self@, input@.subrange(pos as int, input@.len() as int), left as nat).machine,
                t0.halt == exec(prog, self@, input@.subrange(pos as int, input@.len() as int), left as nat).halt,
                t0.output == out@ + exec(prog, self@, input@.subrange(pos as int, input@.len() as int), left as nat).output,
            decreases left,
        {
            let ghost rest = input@.subrange(pos as int, input@.len() as int);
            let ghost m = self@;
            if self.is_halted() {
                proof {
                    assert(m.ip >= prog.len());
                    assert(exec(prog, m, rest, left as nat).machine == m);
                    assert(exec(prog, m, rest, left as nat).output == Seq::<u8>::empty());
                    assert(out@ + Seq::<u8>::empty() =~= out@);
                }
                return Ok(out);
            }
            if left == 0 {
                assert(exec(prog, m, rest, left as nat).halt == Halt::OutOfSteps);
                return Err(EngineError::StepLimit);
            }
            let reads = self.wants_input();
            if reads && pos >= input.len() {
                assert(rest.len() == 0);
                assert(exec(prog, m, rest, left as nat).halt == Halt::InputExhausted);
                assert(exec(prog, m, rest, left as nat).machine == m);
                return Err(EngineError::InputExhausted);
            }
            let byte: Option<u8> = if reads { Some(input[pos]) } else { None };
            let a = self.step(byte);
            proof {
                let b: u8 = if reads { rest[0] } else { 0 };
                assert(next(prog, m, b) == self@);
                let nrest = if reads { rest.drop_first() } else { rest };
                if reads {
                    assert(nrest =~= input@.subrange(pos + 1, input@.len() as int));
                }
                let t = exec(prog, self@, nrest, (left - 1) as nat);
                assert(exec(prog, m, rest, left as nat).output == printed(prog, m) + t.output);
            }
            let ghost out0 = out@;
            match a {
                Ok(Action::Output(v)) => {
                    out.push(v);
                },
                _ => {},
            }
            if reads {
                pos = pos + 1;
            }
            left = left - 1;
            proof {
                let t = exec(prog, self@, input@.subrange(pos as int, input@.len() as int), left as nat);
                assert(out@ =~= out0 + printed(prog, m));
                assert(out0 + (printed(prog, m) + t.output) =~= out@ + t.output);
            }
        }
    }

    /// The program translated to C, or an error when a bracket has no partner.
    pub fn gen(&self) -> (r: Result<String, EngineError>)
        ensures
            balanced(self.program()) ==> r is Ok && r->Ok_0@ == translation(self.program()),
            !balanced(self.program()) ==> r == Err::<String, EngineError>(
                EngineError::UnbalancedLoop,
            ),
    {
        match translate(&self.instructions) {
            Some(code) => Ok(code),
            None => Err(EngineError::UnbalancedLoop),
        }
    }
}

} // verus!
