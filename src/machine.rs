//! The abstract machine: tape, data pointer and instruction pointer, and what
//! each instruction does to them.
use crate::program::{close_of, open_of};
use vstd::prelude::*;

verus! {

/// Number of cells on the tape.
pub const MEMORY_SIZE: usize = 30000;

/// The state of a run: the tape's cells, the data pointer and the instruction pointer.
pub struct Machine {
    pub tape: Seq<u8>,
    pub dp: int,
    pub ip: int,
}

/// How a run came to an end.
pub enum Halt {
    /// The instruction pointer reached the end of the program.
    Finished,
    /// A `,` found no input byte left.
    InputExhausted,
    /// The allowed number of steps ran out first.
    OutOfSteps,
}

/// What a run of at most some number of steps leaves behind.
pub struct Trace {
    pub machine: Machine,
    pub input: Seq<u8>,
    pub output: Seq<u8>,
    pub halt: Halt,
}

/// A fresh machine: every cell zero, both pointers at the start.
pub open spec fn initial_machine() -> Machine {
    Machine { tape: Seq::new(MEMORY_SIZE as nat, |i: int| 0u8), dp: 0, ip: 0 }
}

/// The tape has its fixed length and the pointers are in range.
pub open spec fn machine_ok(m: Machine) -> bool {
    &&& m.tape.len() == MEMORY_SIZE
    &&& 0 <= m.dp < MEMORY_SIZE
    &&& 0 <= m.ip
}

/// The cell under the data pointer.
pub open spec fn current(m: Machine) -> u8 {
    m.tape[m.dp]
}

/// The machine after executing the instruction at `m.ip`; `input` is the byte a `,` reads.
pub open spec fn next(prog: Seq<char>, m: Machine, input: u8) -> Machine {
    let c = prog[m.ip];
    if c == '>' {
        Machine { dp: (m.dp + 1) % (MEMORY_SIZE as int), ip: m.ip + 1, ..m }
    } else if c == '<' {
        Machine { dp: (m.dp + MEMORY_SIZE - 1) % (MEMORY_SIZE as int), ip: m.ip + 1, ..m }
    } else if c == '+' {
        Machine { tape: m.tape.update(m.dp, ((current(m) + 1) % 256) as u8), ip: m.ip + 1, ..m }
    } else if c == '-' {
        Machine { tape: m.tape.update(m.dp, ((current(m) - 1) % 256) as u8), ip: m.ip + 1, ..m }
    } else if c == ',' {
        Machine { tape: m.tape.update(m.dp, input), ip: m.ip + 1, ..m }
    } else if c == '[' && current(m) == 0 {
        Machine { ip: close_of(prog, m.ip) + 1, ..m }
    } else if c == ']' && current(m) != 0 {
        Machine { ip: open_of(prog, m.ip) + 1, ..m }
    } else {
        Machine { ip: m.ip + 1, ..m }
    }
}

/// The bytes written by the instruction at `m.ip`.
pub open spec fn printed(prog: Seq<char>, m: Machine) -> Seq<u8> {
    if prog[m.ip] == '.' {
        seq![current(m)]
    } else {
        Seq::empty()
    }
}

/// Runs `prog` from `m` for at most `steps` instructions, reading from `input`.
pub open spec fn exec(prog: Seq<char>, m: Machine, input: Seq<u8>, steps: nat) -> Trace
    decreases steps,
{
    if m.ip >= prog.len() {
        Trace { machine: m, input, output: Seq::empty(), halt: Halt::Finished }
    } else if steps == 0 {
        Trace { machine: m, input, output: Seq::empty(), halt: Halt::OutOfSteps }
    } else if prog[m.ip] == ',' && input.len() == 0 {
        Trace { machine: m, input, output: Seq::empty(), halt: Halt::InputExhausted }
    } else {
        let reads = prog[m.ip] == ',';
        let byte: u8 = if reads { input[0] } else { 0 };
        let rest = if reads { input.drop_first() } else { input };
        let t = exec(prog, next(prog, m, byte), rest, (steps - 1) as nat);
        Trace { output: printed(prog, m) + t.output, ..t }
    }
}

} // verus!
