//! A simple brainfuck interpreter.
//!
//! A program is turned into instructions with matched jumps and run on a tape
//! of 8-bit wrapping cells. The machine does no input or output itself: it
//! stops at each byte that it writes and before each byte that it reads, and
//! its caller does the rest.

pub mod adequacy;
pub mod loops;
pub mod reading;
pub mod semantics;
pub mod tree;

use vstd::prelude::*;
use crate::lexer::chars_of;

verus! {

/// The number of cells of the tape.
pub const N: usize = 30_000;

/// The condition of a jump.
#[derive(Clone, Copy, Debug, PartialEq, Eq, Structural)]
pub enum Condition {
    Zero,
    NotZero,
}

impl Condition {
    /// Whether `value` meets the condition.
    pub fn check(&self, value: u8) -> (r: bool)
        ensures
            r == self.holds(value),
    {
        match self {
            Condition::Zero => value == 0,
            Condition::NotZero => value != 0,
        }
    }

    pub open spec fn holds(self, value: u8) -> bool {
        match self {
            Condition::Zero => value == 0,
            Condition::NotZero => value != 0,
        }
    }
}

/// An instruction of the machine.
#[derive(Clone, Copy, Debug, PartialEq, Eq, Structural)]
pub enum Instruction {
    Plus,
    Minus,
    Left,
    Right,
    PutChar,
    GetChar,
    /// Jumps behind the instruction at the index where the cell under the
    /// head meets the condition.
    JumpIf(Condition, usize),
}

/// Why a machine has stopped.
#[derive(Clone, Copy, Debug, PartialEq, Eq, Structural)]
pub enum Event {
    /// It has written this byte.
    Output(u8),
    /// It stands before a read and waits for the byte.
    Input,
    /// It has reached the end of its program.
    Halted,
    /// The head has left the tape.
    Fault,
    /// It has run as many instructions as it was allowed.
    Paused,
}

/// Turns the text from `i` on into instructions, after `code`. `open` holds
/// the indices of the `[` that are not closed yet. `None` where a bracket
/// has no partner.
pub open spec fn assemble(text: Seq<char>, i: int, code: Seq<Instruction>, open: Seq<usize>) -> Option<
    Seq<Instruction>,
>
    decreases text.len() - i,
{
    if !(0 <= i < text.len()) {
        if open.len() == 0 {
            Some(code)
        } else {
            None
        }
    } else if text[i] == '+' {
        assemble(text, i + 1, code.push(Instruction::Plus), open)
    } else if text[i] == '-' {
        assemble(text, i + 1, code.push(Instruction::Minus), open)
    } else if text[i] == '<' {
        assemble(text, i + 1, code.push(Instruction::Left), open)
    } else if text[i] == '>' {
        assemble(text, i + 1, code.push(Instruction::Right), open)
    } else if text[i] == '.' {
        assemble(text, i + 1, code.push(Instruction::PutChar), open)
    } else if text[i] == ',' {
        assemble(text, i + 1, code.push(Instruction::GetChar), open)
    } else if text[i] == '[' {
        assemble(text, i + 1, code.push(Instruction::Plus), open.push(code.len() as usize))
    } else if text[i] == ']' {
        if open.len() == 0 {
            None
        } else {
            let start = open.last();
            assemble(
                text,
                i + 1,
                code.push(Instruction::JumpIf(Condition::NotZero, start)).update(
                    start as int,
                    Instruction::JumpIf(Condition::Zero, code.len() as usize),
                ),
                open.drop_last(),
            )
        }
    } else {
        assemble(text, i + 1, code, open)
    }
}

/// The instructions of the program `text`; `None` where its brackets do not
/// match.
pub open spec fn instructions_of(text: Seq<char>) -> Option<Seq<Instruction>> {
    assemble(text, 0, Seq::empty(), Seq::empty())
}

/// The state of a machine.
pub struct MachineView {
    pub code: Seq<Instruction>,
    pub cells: Seq<u8>,
    pub ptr: int,
    pub pc: int,
}

/// A state and why the machine stopped in it, or `None` where it goes on.
pub struct Step {
    pub machine: MachineView,
    pub event: Option<Event>,
}

pub open spec fn plus(value: u8) -> u8 {
    if value == 255 {
        0
    } else {
        (value + 1) as u8
    }
}

pub open spec fn minus(value: u8) -> u8 {
    if value == 0 {
        255
    } else {
        (value - 1) as u8
    }
}

impl MachineView {
    /// Whether the head is on the tape.
    pub open spec fn on_tape(self) -> bool {
        0 <= self.ptr < self.cells.len()
    }

    /// The state with `value` in the cell under the head and the next
    /// instruction ahead.
    pub open spec fn store(self, value: u8) -> MachineView {
        MachineView { cells: self.cells.update(self.ptr, value), pc: self.pc + 1, ..self }
    }

    /// What one instruction does. The machine halts behind its last
    /// instruction, waits before a read, and faults where an instruction
    /// needs the cell under a head that is not on the tape, or moves the
    /// head to the left of the first cell.
    pub open spec fn step(self) -> Step {
        if !(0 <= self.pc < self.code.len()) {
            Step { machine: self, event: Some(Event::Halted) }
        } else {
            match self.code[self.pc] {
                Instruction::Left => if self.ptr <= 0 {
                    Step { machine: self, event: Some(Event::Fault) }
                } else {
                    Step {
                        machine: MachineView { ptr: self.ptr - 1, pc: self.pc + 1, ..self },
                        event: None,
                    }
                },
                Instruction::Right => if self.ptr >= usize::MAX {
                    Step { machine: self, event: Some(Event::Fault) }
                } else {
                    Step {
                        machine: MachineView { ptr: self.ptr + 1, pc: self.pc + 1, ..self },
                        event: None,
                    }
                },
                instruction => if !self.on_tape() {
                    Step { machine: self, event: Some(Event::Fault) }
                } else {
                    let value = self.cells[self.ptr];
                    match instruction {
                        Instruction::Plus => Step { machine: self.store(plus(value)), event: None },
                        Instruction::Minus => Step {
                            machine: self.store(minus(value)),
                            event: None,
                        },
                        Instruction::PutChar => Step {
                            machine: MachineView { pc: self.pc + 1, ..self },
                            event: Some(Event::Output(value)),
                        },
                        Instruction::GetChar => Step { machine: self, event: Some(Event::Input) },
                        Instruction::JumpIf(condition, target) => Step {
                            machine: MachineView {
                                pc: if condition.holds(value) {
                                    target + 1
                                } else {
                                    self.pc + 1
                                },
                                ..self
                            },
                            event: None,
                        },
                        _ => Step { machine: self, event: None },
                    }
                },
            }
        }
    }

    /// What at most `limit` instructions do: the state in which the machine
    /// stops, and why.
    pub open spec fn run(self, limit: nat) -> Step
        decreases limit,
    {
        if limit == 0 {
            Step { machine: self, event: Some(Event::Paused) }
        } else {
            let step = self.step();
            if step.event is Some {
                step
            } else {
                step.machine.run((limit - 1) as nat)
            }
        }
    }
}

/// A machine at work: the machine, the bytes that it has still to read and
/// the bytes that it has written.
pub struct Work {
    pub machine: MachineView,
    pub input: Seq<u8>,
    pub output: Seq<u8>,
}

impl Work {
    /// The work after one instruction: a byte that the machine writes goes to
    /// the output, and a byte that it waits for comes from the input, or is
    /// 255 at its end. `None` where the machine has halted or faults.
    pub open spec fn next(self) -> Option<Work> {
        let step = self.machine.step();
        match step.event {
            None => Some(Work { machine: step.machine, ..self }),
            Some(Event::Output(byte)) => Some(
                Work { machine: step.machine, output: self.output.push(byte), ..self },
            ),
            Some(Event::Input) => Some(
                if self.input.len() > 0 {
                    Work {
                        machine: self.machine.store(self.input[0]),
                        input: self.input.drop_first(),
                        ..self
                    }
                } else {
                    Work { machine: self.machine.store(255), ..self }
                },
            ),
            _ => None,
        }
    }

    /// The work of a machine that is driven for at most `limit` instructions,
    /// and why it has stopped: it has halted, it faults, or it has run `limit`
    /// instructions.
    pub open spec fn drive(self, limit: nat) -> (Work, Event)
        decreases limit,
    {
        if limit == 0 {
            (self, Event::Paused)
        } else {
            match self.next() {
                Some(work) => work.drive((limit - 1) as nat),
                None => (
                    self,
                    if self.machine.step().event == Some(Event::Halted) {
                        Event::Halted
                    } else {
                        Event::Fault
                    },
                ),
            }
        }
    }

    /// The work after `n` instructions; `None` where the machine halts or
    /// faults before.
    pub open spec fn after(self, n: nat) -> Option<Work>
        decreases n,
    {
        if n == 0 {
            Some(self)
        } else {
            match self.next() {
                None => None,
                Some(work) => work.after((n - 1) as nat),
            }
        }
    }
}

/// A Brainfuck machine: a program, a tape of [`N`] cells, a head and the
/// index of the next instruction.
pub struct Machine {
    code: Vec<Instruction>,
    cells: Vec<u8>,
    ptr: usize,
    pc: usize,
}

impl View for Machine {
    type V = MachineView;

    closed spec fn view(&self) -> MachineView {
        MachineView {
            code: self.code@,
            cells: self.cells@,
            ptr: self.ptr as int,
            pc: self.pc as int,
        }
    }
}

/// Whether every jump of `code` leads to an instruction of `code`.
pub open spec fn jumps_inside(code: Seq<Instruction>) -> bool {
    forall|k: int|
        0 <= k < code.len() ==> match #[trigger] code[k] {
            Instruction::JumpIf(_, target) => target < code.len(),
            _ => true,
        }
}

/// The machine that is about to run `code` on a tape of zeros.
pub open spec fn loaded(code: Seq<Instruction>) -> MachineView {
    MachineView { code, cells: Seq::new(N as nat, |i: int| 0u8), ptr: 0, pc: 0 }
}

fn zero_cells() -> (cells: Vec<u8>)
    ensures
        cells@ == Seq::new(N as nat, |i: int| 0u8),
{
    let mut cells: Vec<u8> = Vec::new();
    let mut i: usize = 0;
    while i < N
        invariant
            i <= N,
            cells@ == Seq::new(i as nat, |k: int| 0u8),
        decreases N - i,
    {
        cells.push(0);
        proof {
            assert(cells@ =~= Seq::new((i + 1) as nat, |k: int| 0u8));
        }
        i = i + 1;
    }
    cells
}

/// Turns the program `text` into instructions; `None` where its brackets do
/// not match.
fn assemble_text(text: &Vec<char>) -> (r: Option<Vec<Instruction>>)
    ensures
        match r {
            Some(code) => instructions_of(text@) == Some(code@) && jumps_inside(code@),
            None => instructions_of(text@) is None,
        },
{
    let mut loop_stack: Vec<usize> = Vec::new();
    let mut code: Vec<Instruction> = Vec::new();
    let mut i: usize = 0;
    while i < text.len()
        invariant
            i <= text.len(),
            code.len() <= i,
            jumps_inside(code@),
            forall|k: int| 0 <= k < loop_stack.len() ==> #[trigger] loop_stack@[k] < code.len(),
            assemble(text@, i as int, code@, loop_stack@) == instructions_of(text@),
        decreases text.len() - i,
    {
        let c = text[i];
        if c == '+' {
            code.push(Instruction::Plus);
        } else if c == '-' {
            code.push(Instruction::Minus);
        } else if c == '<' {
            code.push(Instruction::Left);
        } else if c == '>' {
            code.push(Instruction::Right);
        } else if c == '.' {
            code.push(Instruction::PutChar);
        } else if c == ',' {
            code.push(Instruction::GetChar);
        } else if c == '[' {
            loop_stack.push(code.len());
            code.push(Instruction::Plus);  // dummy instruction, will get replaced
        } else if c == ']' {
            let start = match loop_stack.pop() {
                Some(start) => start,
                None => {
                    return None;
                },
            };
            let end = code.len();
            code.push(Instruction::JumpIf(Condition::NotZero, start));
            code[start] = Instruction::JumpIf(Condition::Zero, end);
        }
        i = i + 1;
    }
    if loop_stack.len() > 0 {
        None
    } else {
        Some(code)
    }
}

impl Machine {
    /// The invariant of a machine: its tape has [`N`] cells, its jumps lead
    /// into its program, and so does the index of the next instruction, or
    /// just behind it.
    pub closed spec fn wf(&self) -> bool {
        &&& self.cells.len() == N
        &&& self.pc <= self.code.len()
        &&& jumps_inside(self.code@)
    }

    /// The machine that is about to run `program` on a tape of zeros, with
    /// the head on the first cell. `None` where the brackets of `program` do
    /// not match.
    pub fn new(program: &str) -> (r: Option<Self>)
        ensures
            match r {
                Some(machine) => machine.wf() && instructions_of(program@) is Some && machine@
                    == loaded(instructions_of(program@)->Some_0),
                None => instructions_of(program@) is None,
            },
    {
        let text = chars_of(program);
        match assemble_text(&text) {
            Some(code) => Some(Machine { code, cells: zero_cells(), ptr: 0, pc: 0 }),
            None => None,
        }
    }

    /// Runs one instruction. Returns why the machine has stopped, or `None`
    /// where it goes on.
    fn step(&mut self) -> (event: Option<Event>)
        requires
            old(self).wf(),
        ensures
            final(self).wf(),
            (Step { machine: final(self)@, event }) == old(self)@.step(),
    {
        if self.pc >= self.code.len() {
            return Some(Event::Halted);
        }
        match self.code[self.pc] {
            Instruction::Left => {
                if self.ptr == 0 {
                    return Some(Event::Fault);
                }
                self.ptr = self.ptr - 1;
                self.pc = self.pc + 1;
                None
            },
            Instruction::Right => {
                if self.ptr == usize::MAX {
                    return Some(Event::Fault);
                }
                self.ptr = self.ptr + 1;
                self.pc = self.pc + 1;
                None
            },
            instruction => {
                if self.ptr >= self.cells.len() {
                    return Some(Event::Fault);
                }
                let value = self.cells[self.ptr];
                match instruction {
                    Instruction::Plus => {
                        self.cells[self.ptr] = if value == 255 {
                            0
                        } else {
                            value + 1
                        };
                        self.pc = self.pc + 1;
                        None
                    },
                    Instruction::Minus => {
                        self.cells[self.ptr] = if value == 0 {
                            255
                        } else {
                            value - 1
                        };
                        self.pc = self.pc + 1;
                        None
                    },
                    Instruction::PutChar => {
                        self.pc = self.pc + 1;
                        Some(Event::Output(value))
                    },
                    Instruction::GetChar => Some(Event::Input),
                    Instruction::JumpIf(condition, target) => {
                        if condition.check(value) {
                            self.pc = target + 1;
                        } else {
                            self.pc = self.pc + 1;
                        }
                        None
                    },
                    _ => None,
                }
            },
        }
    }

    /// Runs at most `limit` instructions, and returns why the machine has
    /// stopped.
    pub fn run(&mut self, limit: usize) -> (event: Event)
        requires
            old(self).wf(),
        ensures
            final(self).wf(),
            old(self)@.run(limit as nat) == (Step { machine: final(self)@, event: Some(event) }),
    {
        let mut left: usize = limit;
        while left > 0
            invariant
                self.wf(),
                self@.run(left as nat) == old(self)@.run(limit as nat),
            decreases left,
        {
            match self.step() {
                Some(event) => {
                    return event;
                },
                None => {},
            }
            left = left - 1;
        }
        Event::Paused
    }

    /// Hands the byte `value` to a machine that stands before a read: the
    /// byte goes into the cell under the head, and the machine goes on behind
    /// the read. A machine that does not stand before a read stays as it is.
    /// Returns whether the byte was taken.
    pub fn input(&mut self, value: u8) -> (taken: bool)
        requires
            old(self).wf(),
        ensures
            final(self).wf(),
            taken == (old(self)@.step().event == Some(Event::Input)),
            final(self)@ == if taken {
                old(self)@.store(value)
            } else {
                old(self)@
            },
    {
        if self.pc < self.code.len() && self.ptr < self.cells.len() {
            match self.code[self.pc] {
                Instruction::GetChar => {
                    self.cells[self.ptr] = value;
                    self.pc = self.pc + 1;
                    true
                },
                _ => false,
            }
        } else {
            false
        }
    }

    /// The cell of the head.
    pub fn head(&self) -> (ptr: usize)
        ensures
            ptr == self@.ptr,
    {
        self.ptr
    }

    /// The value of the cell `index`, or `None` where the tape has no such
    /// cell.
    pub fn cell(&self, index: usize) -> (value: Option<u8>)
        ensures
            value == if index < self@.cells.len() {
                Some(self@.cells[index as int])
            } else {
                None
            },
    {
        if index < self.cells.len() {
            Some(self.cells[index])
        } else {
            None
        }
    }

    /// Drives the machine for at most `limit` instructions: the bytes that it
    /// reads come from `input`, and 255 at its end. Returns the bytes that it
    /// has written, and why it has stopped: `Halted`, `Fault` or `Paused`.
    pub fn execute(&mut self, input: &Vec<u8>, limit: usize) -> (r: (Vec<u8>, Event))
        requires
            old(self).wf(),
        ensures
            final(self).wf(),
            ({
                let end = (Work { machine: old(self)@, input: input@, output: Seq::empty() }).drive(
                    limit as nat,
                );
                &&& final(self)@ == end.0.machine
                &&& r.0@ == end.0.output
                &&& r.1 == end.1
            }),
    {
        let mut output: Vec<u8> = Vec::new();
        let mut next: usize = 0;
        let mut left: usize = limit;
        let ghost first = Work { machine: self@, input: input@, output: Seq::empty() };
        proof {
            assert(input@.skip(0) =~= input@);
        }
        while left > 0
            invariant
                self.wf(),
                next <= input.len(),
                first == (Work { machine: old(self)@, input: input@, output: Seq::empty() }),
                (Work { machine: self@, input: input@.skip(next as int), output: output@ }).drive(
                    left as nat,
                ) == first.drive(limit as nat),
            decreases left,
        {
            let ghost now = Work { machine: self@, input: input@.skip(next as int), output: output@ };
            match self.step() {
                None => {},
                Some(Event::Output(byte)) => {
                    output.push(byte);
                },
                Some(Event::Input) => {
                    if next < input.len() {
                        self.cells[self.ptr] = input[next];
                        self.pc = self.pc + 1;
                        proof {
                            assert(input@.skip(next as int)[0] == input@[next as int]);
                            assert(input@.skip(next as int).drop_first() =~= input@.skip(next + 1));
                        }
                        next = next + 1;
                    } else {
                        self.cells[self.ptr] = 255;
                        self.pc = self.pc + 1;
                    }
                },
                Some(Event::Halted) => {
                    return (output, Event::Halted);
                },
                Some(event) => {
                    return (output, Event::Fault);
                },
            }
            left = left - 1;
        }
        (output, Event::Paused)
    }
}

} // verus!
