//! Brainfuck programs as trees: a loop holds its body.

use vstd::prelude::*;

verus! {

/// An operation of a Brainfuck program.
pub enum Op {
    /// Moves the head by so many cells, to the right where positive.
    Move(int),
    /// Adds so much to the cell under the head, modulo 256.
    Add(int),
    /// Writes the cell under the head.
    PutChar,
    /// Reads a byte into the cell under the head.
    GetChar,
    /// Runs its body while the cell under the head is not zero.
    Loop(Seq<Op>),
}

/// Operations and the index up to which the text has been read.
pub struct Read {
    pub ops: Seq<Op>,
    pub next: int,
}

/// The operation of a command character other than the brackets.
pub open spec fn command(c: char) -> Option<Op> {
    if c == '+' {
        Some(Op::Add(1))
    } else if c == '-' {
        Some(Op::Add(-1))
    } else if c == '>' {
        Some(Op::Move(1))
    } else if c == '<' {
        Some(Op::Move(-1))
    } else if c == '.' {
        Some(Op::PutChar)
    } else if c == ',' {
        Some(Op::GetChar)
    } else {
        None
    }
}

/// Reads the operations of `code` from `i` on, after `ops`, up to and with
/// the `]` that closes the loop in which `i` lies, or up to the end of the
/// text. Characters that are no commands are skipped.
pub open spec fn read(code: Seq<char>, i: int, ops: Seq<Op>) -> Read
    decreases code.len() - i,
{
    if !(0 <= i < code.len()) {
        Read { ops, next: i }
    } else if code[i] == '[' {
        let body = read(code, i + 1, Seq::empty());
        if i < body.next <= code.len() {
            read(code, body.next, ops.push(Op::Loop(body.ops)))
        } else {
            Read { ops, next: body.next }
        }
    } else if code[i] == ']' {
        Read { ops, next: i + 1 }
    } else {
        match command(code[i]) {
            Some(op) => read(code, i + 1, ops.push(op)),
            None => read(code, i + 1, ops),
        }
    }
}

/// The operations of the program `code`.
pub open spec fn parse(code: Seq<char>) -> Seq<Op> {
    read(code, 0, Seq::empty()).ops
}

/// `n` times the character `c`.
pub open spec fn repeat(c: char, n: nat) -> Seq<char> {
    Seq::new(n, |i: int| c)
}

/// The text of operations: a move or an addition as so many commands, a
/// loop in brackets.
pub open spec fn render(ops: Seq<Op>) -> Seq<char>
    decreases ops, 1int,
{
    if ops.len() == 0 {
        Seq::empty()
    } else {
        render(ops.drop_last()) + render_op(ops.last())
    }
}

/// The text of one operation.
pub open spec fn render_op(op: Op) -> Seq<char>
    decreases op, 0int,
{
    match op {
        Op::Move(n) => if n >= 0 {
            repeat('>', n as nat)
        } else {
            repeat('<', (-n) as nat)
        },
        Op::Add(n) => if n >= 0 {
            repeat('+', n as nat)
        } else {
            repeat('-', (-n) as nat)
        },
        Op::PutChar => seq!['.'],
        Op::GetChar => seq![','],
        Op::Loop(body) => seq!['['] + render(body) + seq![']'],
    }
}

} // verus!
