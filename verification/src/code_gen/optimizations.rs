//! The peephole optimizer.
//!
//! It reads Brainfuck text into a tree of instructions, in which runs of
//! moves and of additions are one instruction each, and writes the tree back
//! as text.

use vstd::prelude::*;
use crate::brainfuck::tree::{command, render, render_op, repeat, Op, Read};
use crate::lexer::chars_of;

verus! {

broadcast use vstd::std_specs::vec::group_vec_axioms;

/// An instruction of the optimizer.
#[derive(Debug)]
pub enum Instruction {
    Move(i128),
    Add(i8),
    PutChar,
    GetChar,
    Loop(Vec<Instruction>),
}

/// The operations of the instructions of `instrs`, in order.
pub open spec fn instruction_views(instrs: Seq<Instruction>) -> Seq<Op>
    decreases instrs,
{
    if instrs.len() == 0 {
        Seq::empty()
    } else {
        instruction_views(instrs.drop_last()).push(instruction_view(instrs.last()))
    }
}

/// The operation of the instruction `instr`.
pub open spec fn instruction_view(instr: Instruction) -> Op
    decreases instr,
{
    match instr {
        Instruction::Move(n) => Op::Move(n as int),
        Instruction::Add(n) => Op::Add(n as int),
        Instruction::PutChar => Op::PutChar,
        Instruction::GetChar => Op::GetChar,
        Instruction::Loop(body) => Op::Loop(instruction_views(body@)),
    }
}

impl View for Instruction {
    type V = Op;

    open spec fn view(&self) -> Op {
        instruction_view(*self)
    }
}

/// The views of instructions are the views of each of them.
pub proof fn lemma_instruction_views(instrs: Seq<Instruction>)
    ensures
        instruction_views(instrs).len() == instrs.len(),
        forall|i: int|
            0 <= i < instrs.len() ==> instruction_views(instrs)[i] == #[trigger] instrs[i]@,
    decreases instrs.len(),
{
    if instrs.len() > 0 {
        let front = instrs.drop_last();
        lemma_instruction_views(front);
        assert forall|i: int| 0 <= i < instrs.len() implies instruction_views(instrs)[i]
            == #[trigger] instrs[i]@ by {
            if i < front.len() {
                assert(front[i] == instrs[i]);
                assert(instruction_views(front)[i] == front[i]@);
            }
        }
    }
}

/// `n` as a signed byte, modulo 256.
pub open spec fn wrap(n: int) -> int {
    if n > 127 {
        n - 256
    } else if n < -128 {
        n + 256
    } else {
        n
    }
}

/// The operations `ops` followed by one step `d` of a move: the step merges
/// into a move at the end of `ops`, and a move by nothing disappears.
pub open spec fn adjust_move(ops: Seq<Op>, d: int) -> Seq<Op> {
    if ops.len() > 0 && ops.last() is Move {
        let n = ops.last()->Move_0;
        if n == -d {
            ops.drop_last()
        } else {
            ops.drop_last().push(Op::Move(n + d))
        }
    } else {
        ops.push(Op::Move(d))
    }
}

/// The operations `ops` followed by one step `d` of an addition: the step
/// merges into an addition at the end of `ops`, as a signed byte, and an
/// addition of nothing disappears.
pub open spec fn adjust_add(ops: Seq<Op>, d: int) -> Seq<Op> {
    if ops.len() > 0 && ops.last() is Add {
        let n = ops.last()->Add_0;
        if n == -d {
            ops.drop_last()
        } else {
            ops.drop_last().push(Op::Add(wrap(n + d)))
        }
    } else {
        ops.push(Op::Add(d))
    }
}

/// The operations `ops` followed by the loop `body`: a loop that follows a
/// loop never runs and is left out.
pub open spec fn append_loop(ops: Seq<Op>, body: Seq<Op>) -> Seq<Op> {
    if ops.len() > 0 && ops.last() is Loop {
        ops
    } else {
        ops.push(Op::Loop(body))
    }
}

/// Reads the operations of `code` from `i` on, after `ops`, as `read` of the
/// tree module does, and simplifies them on the way.
pub open spec fn fold(code: Seq<char>, i: int, ops: Seq<Op>) -> Read
    decreases code.len() - i,
{
    if !(0 <= i < code.len()) {
        Read { ops, next: i }
    } else if code[i] == '[' {
        let body = fold(code, i + 1, Seq::empty());
        if i < body.next <= code.len() {
            fold(code, body.next, append_loop(ops, body.ops))
        } else {
            Read { ops, next: body.next }
        }
    } else if code[i] == ']' {
        Read { ops, next: i + 1 }
    } else {
        match command(code[i]) {
            Some(Op::Move(d)) => fold(code, i + 1, adjust_move(ops, d)),
            Some(Op::Add(d)) => fold(code, i + 1, adjust_add(ops, d)),
            Some(op) => fold(code, i + 1, ops.push(op)),
            None => fold(code, i + 1, ops),
        }
    }
}

/// The text of the simplified operations of `code`.
pub open spec fn optimized(code: Seq<char>) -> Seq<char> {
    render(fold(code, 0, Seq::empty()).ops)
}

/// Whether each move of `ops` is a move by at most `bound` cells.
pub open spec fn moves_within(ops: Seq<Op>, bound: int) -> bool {
    forall|k: int|
        0 <= k < ops.len() && (#[trigger] ops[k]) is Move ==> -bound <= ops[k]->Move_0 <= bound
}

/// The views of instructions with one more are the views with one more.
pub proof fn lemma_views_push(instrs: Seq<Instruction>, instr: Instruction)
    ensures
        instruction_views(instrs.push(instr)) == instruction_views(instrs).push(instr@),
{
    assert(instrs.push(instr).drop_last() =~= instrs);
}

fn adjust_move_exec(instructions: &mut Vec<Instruction>, d: i128, Ghost(bound): Ghost<int>)
    requires
        d == 1 || d == -1,
        0 <= bound <= usize::MAX,
        moves_within(instruction_views(old(instructions)@), bound),
    ensures
        instruction_views(final(instructions)@) == adjust_move(
            instruction_views(old(instructions)@),
            d as int,
        ),
        moves_within(instruction_views(final(instructions)@), bound + 1),
{
    let ghost before = instruction_views(instructions@);
    match instructions.pop() {
        Some(Instruction::Move(n)) => {
            let ghost rest = instructions@;
            proof {
                assert(old(instructions)@ =~= rest.push(Instruction::Move(n)));
                lemma_views_push(rest, Instruction::Move(n));
                assert(before.drop_last() =~= instruction_views(rest));
            }
            if n == -d {
            } else {
                proof {
                    lemma_views_push(rest, Instruction::Move((n + d) as i128));
                }
                instructions.push(Instruction::Move(n + d));
            }
        },
        Some(other) => {
            let ghost rest = instructions@;
            proof {
                assert(old(instructions)@ =~= rest.push(other));
                lemma_views_push(rest, other);
                lemma_views_push(rest.push(other), Instruction::Move(d));
            }
            instructions.push(other);
            instructions.push(Instruction::Move(d));
        },
        None => {
            proof {
                lemma_views_push(instructions@, Instruction::Move(d));
            }
            instructions.push(Instruction::Move(d));
        },
    }
}

fn adjust_add_exec(instructions: &mut Vec<Instruction>, d: i8)
    requires
        d == 1 || d == -1,
    ensures
        instruction_views(final(instructions)@) == adjust_add(
            instruction_views(old(instructions)@),
            d as int,
        ),
{
    let ghost before = instruction_views(instructions@);
    match instructions.pop() {
        Some(Instruction::Add(n)) => {
            let ghost rest = instructions@;
            proof {
                assert(old(instructions)@ =~= rest.push(Instruction::Add(n)));
                lemma_views_push(rest, Instruction::Add(n));
                assert(before.drop_last() =~= instruction_views(rest));
            }
            if n == -d {
            } else {
                let sum: i8 = if n == 127 && d == 1 {
                    -128
                } else if n == -128 && d == -1 {
                    127
                } else {
                    n + d
                };
                proof {
                    lemma_views_push(rest, Instruction::Add(sum));
                }
                instructions.push(Instruction::Add(sum));
            }
        },
        Some(other) => {
            let ghost rest = instructions@;
            proof {
                assert(old(instructions)@ =~= rest.push(other));
                lemma_views_push(rest, other);
                lemma_views_push(rest.push(other), Instruction::Add(d));
            }
            instructions.push(other);
            instructions.push(Instruction::Add(d));
        },
        None => {
            proof {
                lemma_views_push(instructions@, Instruction::Add(d));
            }
            instructions.push(Instruction::Add(d));
        },
    }
}

/// Reads the instructions of `code` from `start` on, up to and with the `]`
/// that closes the loop in which `start` lies, or up to the end. Returns
/// them with the index after them.
fn to_instructions(code: &Vec<char>, start: usize) -> (r: (Vec<Instruction>, usize))
    requires
        start <= code.len(),
    ensures
        fold(code@, start as int, Seq::empty()) == (Read {
            ops: instruction_views(r.0@),
            next: r.1 as int,
        }),
        start <= r.1 <= code.len(),
    decreases code.len() - start,
{
    let mut instructions: Vec<Instruction> = Vec::new();
    let mut i: usize = start;
    while i < code.len()
        invariant
            start <= i <= code.len(),
            moves_within(instruction_views(instructions@), i as int),
            fold(code@, i as int, instruction_views(instructions@)) == fold(
                code@,
                start as int,
                Seq::empty(),
            ),
        decreases code.len() - i,
    {
        let c = code[i];
        if c == '+' {
            adjust_add_exec(&mut instructions, 1);
        } else if c == '-' {
            adjust_add_exec(&mut instructions, -1);
        } else if c == '>' {
            adjust_move_exec(&mut instructions, 1, Ghost(i as int));
        } else if c == '<' {
            adjust_move_exec(&mut instructions, -1, Ghost(i as int));
        } else if c == '.' {
            proof {
                lemma_views_push(instructions@, Instruction::PutChar);
            }
            instructions.push(Instruction::PutChar);
        } else if c == ',' {
            proof {
                lemma_views_push(instructions@, Instruction::GetChar);
            }
            instructions.push(Instruction::GetChar);
        } else if c == '[' {
            let (body, next) = to_instructions(code, i + 1);
            // a loop after another loop will never be run
            let after_loop = instructions.len() > 0 && matches!(
                instructions[instructions.len() - 1],
                Instruction::Loop(_)
            );
            proof {
                if instructions.len() > 0 {
                    lemma_instruction_views(instructions@);
                    assert(instruction_views(instructions@).last() == instructions@.last()@);
                }
            }
            if !after_loop {
                proof {
                    lemma_views_push(instructions@, Instruction::Loop(body));
                }
                instructions.push(Instruction::Loop(body));
            }
            i = next;
            continue ;
        } else if c == ']' {
            return (instructions, i + 1);
        }
        i = i + 1;
    }
    (instructions, i)
}

/// Appends to `buffer` the character `c`, `n` times.
fn push_repeated(buffer: &mut String, c: char, n: u128)
    ensures
        final(buffer)@ == old(buffer)@ + repeat(c, n as nat),
{
    let mut k: u128 = 0;
    proof {
        assert(buffer@ =~= old(buffer)@ + repeat(c, 0));
    }
    while k < n
        invariant
            k <= n,
            buffer@ == old(buffer)@ + repeat(c, k as nat),
        decreases n - k,
    {
        buffer.push(c);
        proof {
            assert(buffer@ =~= old(buffer)@ + repeat(c, (k + 1) as nat));
        }
        k = k + 1;
    }
}

/// Appends the text of `instructions` to `buffer`.
fn from_instructions(buffer: &mut String, instructions: &Vec<Instruction>)
    ensures
        final(buffer)@ == old(buffer)@ + render(instruction_views(instructions@)),
    decreases instructions,
{
    let mut i: usize = 0;
    proof {
        assert(instructions@.take(0) =~= Seq::empty());
        assert(buffer@ =~= old(buffer)@ + render(instruction_views(instructions@.take(0))));
    }
    while i < instructions.len()
        invariant
            i <= instructions.len(),
            buffer@ == old(buffer)@ + render(instruction_views(instructions@.take(i as int))),
            forall|k: int| 0 <= k < instructions.len() ==> decreases_to!(instructions => instructions[k]),
        decreases instructions.len() - i,
    {
        let ghost before = buffer@;
        match &instructions[i] {
            Instruction::Move(n) => {
                if *n >= 0 {
                    push_repeated(buffer, '>', *n as u128);
                } else {
                    push_repeated(buffer, '<', (-(*n + 1)) as u128 + 1);
                }
            },
            Instruction::Add(n) => {
                if *n >= 0 {
                    push_repeated(buffer, '+', *n as u128);
                } else {
                    push_repeated(buffer, '-', (-(*n as i16)) as u128);
                }
            },
            Instruction::PutChar => {
                buffer.push('.');
            },
            Instruction::GetChar => {
                buffer.push(',');
            },
            Instruction::Loop(body) => {
                buffer.push('[');
                from_instructions(buffer, body);
                buffer.push(']');
            },
        }
        proof {
            let next = instructions@.take(i + 1);
            assert(next.drop_last() =~= instructions@.take(i as int));
            assert(next.last() == instructions@[i as int]);
            lemma_views_push(instructions@.take(i as int), instructions@[i as int]);
            assert(next =~= instructions@.take(i as int).push(instructions@[i as int]));
            assert(instruction_views(next).drop_last() =~= instruction_views(
                instructions@.take(i as int),
            ));
            assert(buffer@ =~= before + render_op(instructions@[i as int]@));
            assert(buffer@ =~= old(buffer)@ + render(instruction_views(next)));
        }
        i = i + 1;
    }
    proof {
        assert(instructions@.take(i as int) =~= instructions@);
    }
}

/// Optimizes the given code: cancelling and repeated moves and additions
/// become one instruction each or none, and a loop that follows a loop is
/// removed. This assumes 8-bit wrapping cells, and that cells to the left
/// of the start are not accessed.
pub fn optimize_code(code: &mut String)
    ensures
        final(code)@ == optimized(old(code)@),
{
    // "><" => ""
    // "<>" => ""
    // "+-" => ""
    // "-+" => ""
    // "[1][2]" => "[1]"
    let chars = chars_of(code.as_str());
    let (instructions, _) = to_instructions(&chars, 0);
    let mut text = String::new();
    from_instructions(&mut text, &instructions);
    proof {
        assert(text@ =~= optimized(old(code)@));
    }
    *code = text;
}

} // verus!
