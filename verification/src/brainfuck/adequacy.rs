//! The machine does what the operations of its program mean.

use vstd::prelude::*;
use crate::brainfuck::reading::{ends_inside, runs_out};
use crate::brainfuck::semantics::{run, run_loop, run_op, State};
use crate::brainfuck::tree::{command, parse, read, Op};
use crate::brainfuck::{
    assemble, instructions_of, loaded, Condition, Event, Instruction, Work, N,
};

verus! {

/// Whether `ops` are operations as they are read from text: single steps,
/// reads, writes and loops of such operations.
pub open spec fn unit(ops: Seq<Op>) -> bool
    decreases ops, 1int,
{
    forall|k: int| 0 <= k < ops.len() ==> unit_op(#[trigger] ops[k])
}

/// Whether `op` is an operation as it is read from text.
pub open spec fn unit_op(op: Op) -> bool
    decreases op, 0int,
{
    match op {
        Op::Move(n) => n == 1 || n == -1,
        Op::Add(n) => n == 1 || n == -1,
        Op::PutChar => true,
        Op::GetChar => true,
        Op::Loop(body) => unit(body),
    }
}

/// The instructions of `ops`, the first of which stands at the index `base`
/// of the program: a loop begins with a jump behind its end for the case of
/// zero, and ends with a jump behind its begin for the other case.
pub open spec fn flat(ops: Seq<Op>, base: int) -> Seq<Instruction>
    decreases ops, 1int,
{
    if ops.len() == 0 {
        Seq::empty()
    } else {
        let front = flat(ops.drop_last(), base);
        front + flat_op(ops.last(), base + front.len())
    }
}

/// The instructions of `op`, the first of which stands at the index `base`.
pub open spec fn flat_op(op: Op, base: int) -> Seq<Instruction>
    decreases op, 0int,
{
    match op {
        Op::Move(n) => if n == 1 {
            seq![Instruction::Right]
        } else {
            seq![Instruction::Left]
        },
        Op::Add(n) => if n == 1 {
            seq![Instruction::Plus]
        } else {
            seq![Instruction::Minus]
        },
        Op::PutChar => seq![Instruction::PutChar],
        Op::GetChar => seq![Instruction::GetChar],
        Op::Loop(body) => {
            let inner = flat(body, base + 1);
            seq![Instruction::JumpIf(Condition::Zero, (base + 1 + inner.len()) as usize)] + inner
                + seq![Instruction::JumpIf(Condition::NotZero, base as usize)]
        },
    }
}

/// The state that a machine at work stands for: the cells of its tape, and
/// zero beside the tape.
pub open spec fn state_of(work: Work) -> State {
    State {
        cells: |i: int|
            if 0 <= i < work.machine.cells.len() {
                work.machine.cells[i]
            } else {
                0u8
            },
        head: work.machine.ptr,
        input: work.input,
        output: work.output,
    }
}

/// The number of instructions that the machine runs for `ops` from `state`
/// on a tape of `cells` cells; `None` where a loop runs more than `limit`
/// times, where the head leaves the tape to the left, or where an operation
/// needs a cell that is not on the tape.
pub open spec fn cost(ops: Seq<Op>, state: State, limit: nat, cells: nat) -> Option<nat>
    decreases limit, 2int, ops.len(),
{
    if ops.len() == 0 {
        Some(0nat)
    } else {
        match cost(ops.drop_last(), state, limit, cells) {
            None => None,
            Some(first) => match run(ops.drop_last(), state, limit) {
                None => None,
                Some(before) => match cost_op(ops.last(), before, limit, cells) {
                    None => None,
                    Some(second) => Some(first + second),
                },
            },
        }
    }
}

/// The number of instructions that the machine runs for `op`.
pub open spec fn cost_op(op: Op, state: State, limit: nat, cells: nat) -> Option<nat>
    decreases limit, 1int, 0nat,
{
    match op {
        Op::Move(n) => if n == 1 {
            if 0 <= state.head < usize::MAX {
                Some(1nat)
            } else {
                None
            }
        } else {
            if 0 < state.head <= usize::MAX {
                Some(1nat)
            } else {
                None
            }
        },
        Op::Loop(body) => if !(0 <= state.head < cells) {
            None
        } else if state.cell() == 0 {
            Some(1nat)
        } else {
            match cost_rounds(body, state, limit, cells) {
                None => None,
                Some(rounds) => Some(1 + rounds),
            }
        },
        _ => if 0 <= state.head < cells {
            Some(1nat)
        } else {
            None
        },
    }
}

/// The number of instructions that the machine runs for the rounds of a
/// loop, from the first instruction of its body on, where the cell under
/// the head is not zero.
pub open spec fn cost_rounds(body: Seq<Op>, state: State, limit: nat, cells: nat) -> Option<nat>
    decreases limit, 0int, 0nat,
{
    if limit == 0 {
        None
    } else {
        match cost(body, state, (limit - 1) as nat, cells) {
            None => None,
            Some(round) => match run(body, state, (limit - 1) as nat) {
                None => None,
                Some(after) => if !(0 <= after.head < cells) {
                    None
                } else if after.cell() == 0 {
                    Some(round + 1)
                } else {
                    match cost_rounds(body, after, (limit - 1) as nat, cells) {
                        None => None,
                        Some(more) => Some(round + 1 + more),
                    }
                },
            },
        }
    }
}

/// Whether `part` stands in `code` at `base`.
pub open spec fn placed(code: Seq<Instruction>, base: int, part: Seq<Instruction>) -> bool {
    0 <= base && base + part.len() <= code.len() && code.subrange(base, base + part.len()) == part
}

/// The parts of instructions that stand in `code` stand in it.
pub proof fn lemma_placed_parts(
    code: Seq<Instruction>,
    base: int,
    first: Seq<Instruction>,
    second: Seq<Instruction>,
)
    requires
        placed(code, base, first + second),
    ensures
        placed(code, base, first),
        placed(code, base + first.len(), second),
{
    let whole = first + second;
    assert(code.subrange(base, base + first.len()) =~= first) by {
        assert forall|k: int| 0 <= k < first.len() implies code.subrange(
            base,
            base + first.len(),
        )[k] == first[k] by {
            assert(code.subrange(base, base + whole.len())[k] == whole[k]);
        }
    }
    assert(code.subrange(base + first.len(), base + first.len() + second.len()) =~= second) by {
        assert forall|k: int| 0 <= k < second.len() implies code.subrange(
            base + first.len(),
            base + first.len() + second.len(),
        )[k] == second[k] by {
            assert(code.subrange(base, base + whole.len())[first.len() + k] == whole[first.len()
                + k]);
        }
    }
}

/// Work goes on: the work after `first` and then `second` instructions is
/// the work after both.
pub proof fn lemma_after_sum(work: Work, first: nat, second: nat)
    ensures
        work.after(first + second) == match work.after(first) {
            None => None,
            Some(between) => between.after(second),
        },
    decreases first,
{
    if first > 0 {
        match work.next() {
            None => {},
            Some(next) => {
                lemma_after_sum(next, (first - 1) as nat, second);
                assert((first + second - 1) as nat == (first - 1) as nat + second);
            },
        }
    }
}

/// What it means that the machine has run the instructions of `ops` from
/// `before` to `after`: it stands behind them, and its state is the state
/// after the operations.
pub open spec fn ran(before: Work, after: Work, ops: Seq<Op>, base: int, limit: nat) -> bool {
    &&& after.machine.code == before.machine.code
    &&& after.machine.cells.len() == before.machine.cells.len()
    &&& after.machine.pc == base + flat(ops, base).len()
    &&& run(ops, state_of(before), limit) == Some(state_of(after))
}

/// The machine runs the instructions of operations as the operations mean:
/// where the operations end and stay on the tape, the machine reaches the
/// end of their instructions in the state after the operations.
pub proof fn lemma_machine_runs(work: Work, ops: Seq<Op>, base: int, limit: nat)
    requires
        unit(ops),
        placed(work.machine.code, base, flat(ops, base)),
        work.machine.pc == base,
        work.machine.code.len() <= usize::MAX,
        cost(ops, state_of(work), limit, work.machine.cells.len()) is Some,
    ensures
        work.after(cost(ops, state_of(work), limit, work.machine.cells.len())->Some_0) is Some,
        ran(
            work,
            work.after(cost(ops, state_of(work), limit, work.machine.cells.len())->Some_0)->Some_0,
            ops,
            base,
            limit,
        ),
    decreases limit, 2int, ops.len(),
{
    let cells = work.machine.cells.len();
    if ops.len() == 0 {
    } else {
        let front = ops.drop_last();
        let last = ops.last();
        let first = flat(front, base);
        assert(unit(front)) by {
            assert forall|k: int| 0 <= k < front.len() implies unit_op(#[trigger] front[k]) by {
                assert(front[k] == ops[k]);
            }
        }
        assert(unit_op(last));
        lemma_placed_parts(work.machine.code, base, first, flat_op(last, base + first.len()));
        lemma_machine_runs(work, front, base, limit);
        let n1 = cost(front, state_of(work), limit, cells)->Some_0;
        let mid = work.after(n1)->Some_0;
        lemma_machine_runs_op(mid, last, base + first.len(), limit);
        let n2 = cost_op(last, state_of(mid), limit, cells)->Some_0;
        lemma_after_sum(work, n1, n2);
    }
}

/// What it means that the machine has run the instructions of `op`.
pub open spec fn ran_op(before: Work, after: Work, op: Op, base: int, limit: nat) -> bool {
    &&& after.machine.code == before.machine.code
    &&& after.machine.cells.len() == before.machine.cells.len()
    &&& after.machine.pc == base + flat_op(op, base).len()
    &&& run_op(op, state_of(before), limit) == Some(state_of(after))
}

/// The machine runs the instructions of an operation as the operation
/// means.
pub proof fn lemma_machine_runs_op(work: Work, op: Op, base: int, limit: nat)
    requires
        unit_op(op),
        placed(work.machine.code, base, flat_op(op, base)),
        work.machine.pc == base,
        work.machine.code.len() <= usize::MAX,
        cost_op(op, state_of(work), limit, work.machine.cells.len()) is Some,
    ensures
        work.after(cost_op(op, state_of(work), limit, work.machine.cells.len())->Some_0) is Some,
        ran_op(
            work,
            work.after(
                cost_op(op, state_of(work), limit, work.machine.cells.len())->Some_0,
            )->Some_0,
            op,
            base,
            limit,
        ),
    decreases limit, 1int, 0nat,
{
    let code = work.machine.code;
    let part = flat_op(op, base);
    let state = state_of(work);
    assert(code[base] == code.subrange(base, base + part.len())[0]);
    reveal_with_fuel(Work::after, 2);
    match op {
        Op::Loop(body) => {
            let inner = flat(body, base + 1);
            let end = base + 1 + inner.len();
            assert(part.len() == inner.len() + 2);
            assert(code[end] == code.subrange(base, base + part.len())[1 + inner.len() as int]);
            lemma_placed_parts(
                code,
                base,
                seq![Instruction::JumpIf(Condition::Zero, end as usize)] + inner,
                seq![Instruction::JumpIf(Condition::NotZero, base as usize)],
            );
            lemma_placed_parts(
                code,
                base,
                seq![Instruction::JumpIf(Condition::Zero, end as usize)],
                inner,
            );
            if state.cell() != 0 {
                let entered = work.next()->Some_0;
                assert(state_of(entered) =~= state);
                lemma_machine_rounds(entered, body, base, limit);
                let rounds = cost_rounds(body, state, limit, work.machine.cells.len())->Some_0;
                lemma_after_sum(work, 1, rounds);
            } else {
                let left = work.next()->Some_0;
                assert(state_of(left) =~= state);
            }
        },
        Op::Move(n) => {
            let next = work.next()->Some_0;
            assert(state_of(next) =~= state.moved(n));
        },
        Op::Add(n) => {
            let next = work.next()->Some_0;
            assert(state_of(next) =~= state.added(n));
        },
        Op::PutChar => {
            let next = work.next()->Some_0;
            assert(state_of(next) =~= state.put());
        },
        Op::GetChar => {
            let next = work.next()->Some_0;
            assert(state_of(next) =~= state.get());
        },
    }
}

/// The machine runs the rounds of a loop as the loop means, from the first
/// instruction of the body on.
pub proof fn lemma_machine_rounds(work: Work, body: Seq<Op>, base: int, limit: nat)
    requires
        unit(body),
        placed(work.machine.code, base + 1, flat(body, base + 1)),
        0 <= base,
        base + 1 + flat(body, base + 1).len() < work.machine.code.len(),
        work.machine.code[base + 1 + flat(body, base + 1).len()] == Instruction::JumpIf(
            Condition::NotZero,
            base as usize,
        ),
        work.machine.pc == base + 1,
        work.machine.code.len() <= usize::MAX,
        state_of(work).cell() != 0,
        cost_rounds(body, state_of(work), limit, work.machine.cells.len()) is Some,
    ensures
        work.after(cost_rounds(body, state_of(work), limit, work.machine.cells.len())->Some_0)
            is Some,
        ({
            let after = work.after(
                cost_rounds(body, state_of(work), limit, work.machine.cells.len())->Some_0,
            )->Some_0;
            &&& after.machine.code == work.machine.code
            &&& after.machine.cells.len() == work.machine.cells.len()
            &&& after.machine.pc == base + 2 + flat(body, base + 1).len()
            &&& run_loop(body, state_of(work), limit) == Some(state_of(after))
        }),
    decreases limit, 0int, 0nat,
{
    let cells = work.machine.cells.len();
    let state = state_of(work);
    let less = (limit - 1) as nat;
    let inner = flat(body, base + 1);
    lemma_machine_runs(work, body, base + 1, less);
    let round = cost(body, state, less, cells)->Some_0;
    let ended = work.after(round)->Some_0;
    let jumped = ended.next()->Some_0;
    assert(state_of(jumped) =~= state_of(ended));
    reveal_with_fuel(Work::after, 2);
    assert(ended.after(1) == Some(jumped));
    lemma_after_sum(work, round, 1);
    if state_of(ended).cell() != 0 {
        lemma_machine_rounds(jumped, body, base, less);
        let more = cost_rounds(body, state_of(ended), less, cells)->Some_0;
        lemma_after_sum(work, round + 1, more);
    }
}

/// The instruction of a command.
pub open spec fn instruction(c: char) -> Instruction {
    if c == '+' {
        Instruction::Plus
    } else if c == '-' {
        Instruction::Minus
    } else if c == '<' {
        Instruction::Left
    } else if c == '>' {
        Instruction::Right
    } else if c == '.' {
        Instruction::PutChar
    } else {
        Instruction::GetChar
    }
}

/// The instructions of operations with one more are those of the
/// operations and those of the one.
pub proof fn lemma_flat_push(ops: Seq<Op>, op: Op, base: int)
    ensures
        flat(ops.push(op), base) == flat(ops, base) + flat_op(op, base + flat(ops, base).len()),
{
    assert(ops.push(op).drop_last() =~= ops);
}

/// What is read from text are operations as they are read from text.
pub proof fn lemma_read_unit(text: Seq<char>, i: int, before: Seq<Op>)
    requires
        0 <= i <= text.len(),
        unit(before),
    ensures
        unit(read(text, i, before).ops),
    decreases text.len() - i,
{
    if i < text.len() {
        if text[i] == '[' {
            assert(unit(Seq::<Op>::empty()));
            lemma_read_unit(text, i + 1, Seq::empty());
            let body = read(text, i + 1, Seq::empty());
            if i < body.next <= text.len() {
                let next = before.push(Op::Loop(body.ops));
                assert(unit(next)) by {
                    assert forall|k: int| 0 <= k < next.len() implies unit_op(
                        #[trigger] next[k],
                    ) by {
                        if k < before.len() {
                            assert(next[k] == before[k]);
                        }
                    }
                }
                lemma_read_unit(text, body.next, next);
            }
        } else if text[i] == ']' {
        } else {
            match command(text[i]) {
                Some(op) => {
                    let next = before.push(op);
                    assert(unit(next)) by {
                        assert forall|k: int| 0 <= k < next.len() implies unit_op(
                            #[trigger] next[k],
                        ) by {
                            if k < before.len() {
                                assert(next[k] == before[k]);
                            }
                        }
                    }
                    lemma_read_unit(text, i + 1, next);
                },
                None => lemma_read_unit(text, i + 1, before),
            }
        }
    }
}

/// The instructions of a loop that stands behind `front`.
pub open spec fn with_loop(front: Seq<Instruction>, body: Seq<Op>) -> Seq<Instruction> {
    front + flat_op(Op::Loop(body), front.len() as int)
}

/// Inside of a loop, the machine's program grows as the operations are
/// read: up to the `]` that closes the loop, the instructions of the body
/// are added, and the two jumps of the loop are set.
pub proof fn lemma_assemble_inside(
    text: Seq<char>,
    i: int,
    front: Seq<Instruction>,
    open: Seq<usize>,
    body: Seq<Op>,
)
    requires
        0 <= i <= text.len() <= usize::MAX,
        ends_inside(text, i),
        front.len() + 1 + flat(body, front.len() as int + 1).len() <= i,
        open.len() > 0,
        open.last() == front.len(),
    ensures
        assemble(
            text,
            i,
            front.push(Instruction::Plus) + flat(body, front.len() as int + 1),
            open,
        ) == assemble(
            text,
            read(text, i, body).next,
            with_loop(front, read(text, i, body).ops),
            open.drop_last(),
        ),
        front.len() + 2 + flat(read(text, i, body).ops, front.len() as int + 1).len() <= read(
            text,
            i,
            body,
        ).next <= text.len(),
    decreases text.len() - i,
{
    let start = front.len() as int;
    let code = front.push(Instruction::Plus) + flat(body, start + 1);
    if text[i] == '[' {
        let inner = read(text, i + 1, Seq::empty());
        assert(code.push(Instruction::Plus) =~= code.push(Instruction::Plus) + flat(
            Seq::<Op>::empty(),
            code.len() as int + 1,
        ));
        assert(open.push(code.len() as usize).drop_last() =~= open);
        lemma_assemble_inside(text, i + 1, code, open.push(code.len() as usize), Seq::empty());
        let next = body.push(Op::Loop(inner.ops));
        lemma_flat_push(body, Op::Loop(inner.ops), start + 1);
        assert(with_loop(code, inner.ops) =~= front.push(Instruction::Plus) + flat(
            next,
            start + 1,
        ));
        lemma_assemble_inside(text, inner.next, front, open, next);
    } else if text[i] == ']' {
        let end = code.len() as int;
        let done = code.push(Instruction::JumpIf(Condition::NotZero, open.last())).update(
            open.last() as int,
            Instruction::JumpIf(Condition::Zero, code.len() as usize),
        );
        assert(done =~= with_loop(front, body));
    } else {
        match command(text[i]) {
            Some(op) => {
                lemma_flat_push(body, op, start + 1);
                assert(flat_op(op, start + 1 + flat(body, start + 1).len()) =~= seq![
                    instruction(text[i]),
                ]);
                assert(code.push(instruction(text[i])) =~= front.push(Instruction::Plus) + flat(
                    body.push(op),
                    start + 1,
                ));
                lemma_assemble_inside(text, i + 1, front, open, body.push(op));
            },
            None => {
                lemma_assemble_inside(text, i + 1, front, open, body);
            },
        }
    }
}

/// Outside of all loops, the machine's program grows as the operations are
/// read, up to the end of the text.
pub proof fn lemma_assemble_out(text: Seq<char>, i: int, ops: Seq<Op>)
    requires
        0 <= i <= text.len() <= usize::MAX,
        runs_out(text, i),
        flat(ops, 0).len() <= i,
    ensures
        assemble(text, i, flat(ops, 0), Seq::empty()) == Some(flat(read(text, i, ops).ops, 0)),
        flat(read(text, i, ops).ops, 0).len() <= text.len(),
    decreases text.len() - i,
{
    let code = flat(ops, 0);
    if i < text.len() {
        if text[i] == '[' {
            let inner = read(text, i + 1, Seq::empty());
            let open = Seq::<usize>::empty().push(code.len() as usize);
            assert(code.push(Instruction::Plus) =~= code.push(Instruction::Plus) + flat(
                Seq::<Op>::empty(),
                code.len() as int + 1,
            ));
            assert(open.drop_last() =~= Seq::<usize>::empty());
            lemma_assemble_inside(text, i + 1, code, open, Seq::empty());
            let next = ops.push(Op::Loop(inner.ops));
            lemma_flat_push(ops, Op::Loop(inner.ops), 0);
            assert(with_loop(code, inner.ops) =~= flat(next, 0));
            lemma_assemble_out(text, inner.next, next);
        } else {
            match command(text[i]) {
                Some(op) => {
                    lemma_flat_push(ops, op, 0);
                    assert(flat_op(op, flat(ops, 0).len() as int) =~= seq![instruction(text[i])]);
                    assert(code.push(instruction(text[i])) =~= flat(ops.push(op), 0));
                    lemma_assemble_out(text, i + 1, ops.push(op));
                },
                None => {
                    lemma_assemble_out(text, i + 1, ops);
                },
            }
        }
    }
}

/// The program of the machine for a text each loop of which is closed is
/// made of the instructions of the operations of the text.
pub proof fn lemma_instructions_of(text: Seq<char>)
    requires
        text.len() <= usize::MAX,
        runs_out(text, 0),
    ensures
        instructions_of(text) == Some(flat(parse(text), 0)),
        flat(parse(text), 0).len() <= text.len(),
        unit(parse(text)),
{
    lemma_assemble_out(text, 0, Seq::empty());
    assert(unit(Seq::<Op>::empty()));
    lemma_read_unit(text, 0, Seq::empty());
}

/// The work of a machine that is about to run `code` on `input`.
pub open spec fn start(code: Seq<Instruction>, input: Seq<u8>) -> Work {
    Work { machine: loaded(code), input, output: Seq::empty() }
}

/// The state of a run that is about to begin: a tape of zeros with the head
/// on the first cell, and nothing written.
pub open spec fn initial(input: Seq<u8>) -> State {
    State { cells: |i: int| 0u8, head: 0, input, output: Seq::empty() }
}

/// The interpreter does what the program means. Where each loop of the
/// text is closed, and where the operations of the text, run on a tape of
/// zeros, end and stay on the tape of the machine, the machine reaches the
/// end of its program after so many instructions, with the cells, the head,
/// the rest of the input and the output that the operations leave.
pub proof fn lemma_interpreter_adequate(text: Seq<char>, input: Seq<u8>, limit: nat)
    requires
        text.len() <= usize::MAX,
        runs_out(text, 0),
        cost(parse(text), initial(input), limit, N as nat) is Some,
    ensures
        instructions_of(text) is Some,
        run(parse(text), initial(input), limit) is Some,
        ({
            let code = instructions_of(text)->Some_0;
            let steps = cost(parse(text), initial(input), limit, N as nat)->Some_0;
            let end = start(code, input).drive((steps + 1) as nat);
            &&& end.1 == Event::Halted
            &&& state_of(end.0) == run(parse(text), initial(input), limit)->Some_0
        }),
{
    lemma_instructions_of(text);
    let ops = parse(text);
    let code = flat(ops, 0);
    let work = start(code, input);
    assert(state_of(work) =~= initial(input));
    assert(code.subrange(0, code.len() as int) =~= code);
    lemma_machine_runs(work, ops, 0, limit);
    let steps = cost(ops, initial(input), limit, N as nat)->Some_0;
    lemma_drive_halts(work, steps, (steps + 1) as nat);
}

/// A machine that halts after `steps` instructions is driven to that end
/// where it may run more instructions than that.
pub proof fn lemma_drive_halts(work: Work, steps: nat, limit: nat)
    requires
        work.after(steps) is Some,
        work.after(steps)->Some_0.machine.pc >= work.after(steps)->Some_0.machine.code.len(),
        steps < limit,
    ensures
        work.drive(limit) == (work.after(steps)->Some_0, Event::Halted),
    decreases steps,
{
    if steps > 0 {
        lemma_drive_halts(work.next()->Some_0, (steps - 1) as nat, (limit - 1) as nat);
    }
}

} // verus!
