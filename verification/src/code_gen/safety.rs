//! The optimizer keeps a program on the tape: where the machine runs the
//! code without a fault, it runs the optimized code without one.

use vstd::prelude::*;
use crate::brainfuck::adequacy::{
    cost, cost_op, cost_rounds, initial, lemma_interpreter_adequate, start, state_of,
};
use crate::brainfuck::reading::{ends_inside, lemma_reads_parse, repeat_op, runs_out};
use crate::brainfuck::semantics::{lemma_run_concat, lemma_run_push, run, run_op, same, State};
use crate::brainfuck::tree::{command, parse, read, render, render_op, Op};
use crate::brainfuck::{instructions_of, Event, N};
use crate::code_gen::optimizations::{adjust_add, adjust_move, append_loop, fold, optimized, wrap};
use crate::code_gen::soundness::{
    expand, expand_op, lemma_expand_same, lemma_fold_same, lemma_optimized_closed,
    lemma_optimizer_sound, lemma_render_same, lemma_run_steps,
};

verus! {

/// Whether the machine runs `second` without a fault wherever it runs
/// `first` without one: from every state, on every tape.
pub open spec fn safer(second: Seq<Op>, first: Seq<Op>) -> bool {
    forall|state: State, limit: nat, cells: nat|
        cost(first, state, limit, cells) is Some ==> #[trigger] cost(
            second,
            state,
            limit,
            cells,
        ) is Some
}

/// One more operation at the end costs what it costs after the others.
pub proof fn lemma_cost_push(ops: Seq<Op>, op: Op, state: State, limit: nat, cells: nat)
    ensures
        cost(ops.push(op), state, limit, cells) == match cost(ops, state, limit, cells) {
            None => None,
            Some(first) => match run(ops, state, limit) {
                None => None,
                Some(before) => match cost_op(op, before, limit, cells) {
                    None => None,
                    Some(second) => Some(first + second),
                },
            },
        },
{
    assert(ops.push(op).drop_last() =~= ops);
}

/// Operations that run without a fault begin without a fault.
pub proof fn lemma_cost_begins(
    first: Seq<Op>,
    second: Seq<Op>,
    state: State,
    limit: nat,
    cells: nat,
)
    requires
        cost(first + second, state, limit, cells) is Some,
    ensures
        cost(first, state, limit, cells) is Some,
    decreases second.len(),
{
    if second.len() == 0 {
        assert(first + second =~= first);
    } else {
        assert((first + second).drop_last() =~= first + second.drop_last());
        lemma_cost_begins(first, second.drop_last(), state, limit, cells);
    }
}

/// Steps of an addition run without a fault where the head is on the tape.
pub proof fn lemma_cost_adds(
    ops: Seq<Op>,
    d: int,
    n: nat,
    state: State,
    limit: nat,
    cells: nat,
)
    requires
        cost(ops, state, limit, cells) is Some,
        run(ops, state, limit) is Some,
        0 <= run(ops, state, limit)->Some_0.head < cells,
    ensures
        cost(ops + repeat_op(Op::Add(d), n), state, limit, cells) is Some,
    decreases n,
{
    if n == 0 {
        assert(ops + repeat_op(Op::Add(d), n) =~= ops);
    } else {
        let less = (n - 1) as nat;
        let front = ops + repeat_op(Op::Add(d), less);
        lemma_cost_adds(ops, d, less, state, limit, cells);
        assert(front.push(Op::Add(d)) =~= ops + repeat_op(Op::Add(d), n));
        lemma_cost_push(front, Op::Add(d), state, limit, cells);
        lemma_run_concat(ops, repeat_op(Op::Add(d), less), state, limit);
        lemma_run_steps(d, less, run(ops, state, limit)->Some_0, limit);
    }
}

/// The rounds of a loop run without a fault where those of another loop
/// do, whose body does the same and runs without a fault no more often.
pub proof fn lemma_rounds_safer(
    second: Seq<Op>,
    first: Seq<Op>,
    state: State,
    limit: nat,
    cells: nat,
)
    requires
        same(second, first),
        safer(second, first),
        cost_rounds(first, state, limit, cells) is Some,
    ensures
        cost_rounds(second, state, limit, cells) is Some,
    decreases limit,
{
    let less = (limit - 1) as nat;
    assert(cost(second, state, less, cells) is Some);
    assert(run(second, state, less) == run(first, state, less));
    let after = run(first, state, less)->Some_0;
    if after.cell() != 0 {
        lemma_rounds_safer(second, first, after, less, cells);
    }
}

/// The expansion of operations with one more is the expansion with that
/// of the one more.
pub proof fn lemma_expand_push(ops: Seq<Op>, op: Op)
    ensures
        expand(ops.push(op)) == expand(ops) + expand_op(op),
{
    assert(ops.push(op).drop_last() =~= ops);
}

/// A step of a move that is merged into the operations before it keeps
/// them on the tape where the step after them stays on it.
pub proof fn lemma_safer_move(folded: Seq<Op>, plain: Seq<Op>, d: int)
    requires
        d == 1 || d == -1,
        same(folded, plain),
        safer(expand(folded), plain),
    ensures
        safer(expand(adjust_move(folded, d)), plain.push(Op::Move(d))),
{
    let next = expand(adjust_move(folded, d));
    let all = expand(folded);
    let step = Op::Move(d);
    if folded.len() > 0 && folded.last() is Move {
        let n = folded.last()->Move_0;
        let front = folded.drop_last();
        let one = if n >= 0 {
            Op::Move(1)
        } else {
            Op::Move(-1)
        };
        let count = if n >= 0 {
            n as nat
        } else {
            (-n) as nat
        };
        assert(expand_op(folded.last()) == repeat_op(one, count));
        if n != -d {
            lemma_expand_push(front, Op::Move(n + d));
        }
        if (n >= 0 && d == 1) || (n < 0 && d == -1) || n == 0 {
            assert(expand_op(Op::Move(n + d)) =~= repeat_op(one, count).push(step));
            assert(next =~= all.push(step));
        } else {
            assert(count >= 1);
            if n != -d {
                assert(expand_op(Op::Move(n + d)) =~= repeat_op(one, count).drop_last());
            }
            assert(next =~= all.drop_last());
        }
    } else {
        lemma_expand_push(folded, step);
        assert(expand_op(step) =~= Seq::<Op>::empty().push(step));
        assert(next =~= all.push(step));
    }
    assert forall|state: State, limit: nat, cells: nat|
        cost(plain.push(step), state, limit, cells) is Some implies #[trigger] cost(
        next,
        state,
        limit,
        cells,
    ) is Some by {
        lemma_cost_push(plain, step, state, limit, cells);
        assert(cost(all, state, limit, cells) is Some);
        if next == all.push(step) {
            lemma_cost_push(all, step, state, limit, cells);
            lemma_expand_same(folded, state, limit);
            assert(run(folded, state, limit) == run(plain, state, limit));
        }
    }
}

/// A step of an addition that is merged into the operations before it
/// keeps them on the tape where the step after them stays on it.
pub proof fn lemma_safer_add(folded: Seq<Op>, plain: Seq<Op>, d: int)
    requires
        same(folded, plain),
        safer(expand(folded), plain),
    ensures
        safer(expand(adjust_add(folded, d)), plain.push(Op::Add(d))),
{
    let next = expand(adjust_add(folded, d));
    let all = expand(folded);
    let step = Op::Add(d);
    assert forall|state: State, limit: nat, cells: nat|
        cost(plain.push(step), state, limit, cells) is Some implies #[trigger] cost(
        next,
        state,
        limit,
        cells,
    ) is Some by {
        lemma_cost_push(plain, step, state, limit, cells);
        assert(cost(all, state, limit, cells) is Some);
        assert(run(folded, state, limit) == run(plain, state, limit));
        let before = run(plain, state, limit)->Some_0;
        assert(0 <= before.head < cells);
        if folded.len() > 0 && folded.last() is Add {
            let n = folded.last()->Add_0;
            let front = folded.drop_last();
            lemma_cost_begins(expand(front), expand_op(folded.last()), state, limit, cells);
            lemma_expand_same(front, state, limit);
            assert(run(folded, state, limit) == match run(front, state, limit) {
                None => None,
                Some(s) => run_op(folded.last(), s, limit),
            });
            if n != -d {
                let m = wrap(n + d);
                lemma_expand_push(front, Op::Add(m));
                if m >= 0 {
                    lemma_cost_adds(expand(front), 1, m as nat, state, limit, cells);
                } else {
                    lemma_cost_adds(expand(front), -1, (-m) as nat, state, limit, cells);
                }
            }
        } else {
            lemma_expand_push(folded, step);
            lemma_expand_same(folded, state, limit);
            if d >= 0 {
                lemma_cost_adds(all, 1, d as nat, state, limit, cells);
            } else {
                lemma_cost_adds(all, -1, (-d) as nat, state, limit, cells);
            }
        }
    }
}

/// A loop that is appended to operations, or left out after a loop, keeps
/// them on the tape where the loop after them stays on it.
pub proof fn lemma_safer_loop(
    folded: Seq<Op>,
    plain: Seq<Op>,
    folded_body: Seq<Op>,
    plain_body: Seq<Op>,
)
    requires
        same(folded, plain),
        safer(expand(folded), plain),
        same(folded_body, plain_body),
        safer(expand(folded_body), plain_body),
    ensures
        safer(expand(append_loop(folded, folded_body)), plain.push(Op::Loop(plain_body))),
{
    let next = expand(append_loop(folded, folded_body));
    let all = expand(folded);
    let body = expand(folded_body);
    assert forall|state: State, limit: nat| #[trigger]
        run(body, state, limit) == run(plain_body, state, limit) by {
        lemma_expand_same(folded_body, state, limit);
        assert(run(folded_body, state, limit) == run(plain_body, state, limit));
    }
    assert forall|state: State, limit: nat, cells: nat|
        cost(plain.push(Op::Loop(plain_body)), state, limit, cells) is Some implies #[trigger] cost(
        next,
        state,
        limit,
        cells,
    ) is Some by {
        lemma_cost_push(plain, Op::Loop(plain_body), state, limit, cells);
        assert(cost(all, state, limit, cells) is Some);
        if !(folded.len() > 0 && folded.last() is Loop) {
            lemma_expand_push(folded, Op::Loop(folded_body));
            assert(expand_op(Op::Loop(folded_body)) =~= Seq::<Op>::empty().push(Op::Loop(body)));
            assert(next =~= all.push(Op::Loop(body)));
            lemma_cost_push(all, Op::Loop(body), state, limit, cells);
            lemma_expand_same(folded, state, limit);
            assert(run(folded, state, limit) == run(plain, state, limit));
            let before = run(plain, state, limit)->Some_0;
            if before.cell() != 0 {
                lemma_rounds_safer(body, plain_body, before, limit, cells);
            }
        }
    }
}

/// An operation that is appended as it is keeps the operations on the tape
/// where it stays on it after them.
pub proof fn lemma_safer_push(folded: Seq<Op>, plain: Seq<Op>, op: Op)
    requires
        op is PutChar || op is GetChar,
        same(folded, plain),
        safer(expand(folded), plain),
    ensures
        safer(expand(folded.push(op)), plain.push(op)),
{
    let all = expand(folded);
    lemma_expand_push(folded, op);
    assert(expand_op(op) =~= Seq::<Op>::empty().push(op));
    assert(expand(folded.push(op)) =~= all.push(op));
    assert forall|state: State, limit: nat, cells: nat|
        cost(plain.push(op), state, limit, cells) is Some implies #[trigger] cost(
        expand(folded.push(op)),
        state,
        limit,
        cells,
    ) is Some by {
        lemma_cost_push(plain, op, state, limit, cells);
        assert(cost(all, state, limit, cells) is Some);
        lemma_cost_push(all, op, state, limit, cells);
        lemma_expand_same(folded, state, limit);
        assert(run(folded, state, limit) == run(plain, state, limit));
    }
}

/// The simplified operations of a text stay on the tape where its
/// operations do.
pub proof fn lemma_fold_safer(code: Seq<char>, i: int, folded: Seq<Op>, plain: Seq<Op>)
    requires
        0 <= i <= code.len(),
        same(folded, plain),
        safer(expand(folded), plain),
    ensures
        safer(expand(fold(code, i, folded).ops), read(code, i, plain).ops),
    decreases code.len() - i,
{
    let none = Seq::<Op>::empty();
    if !(0 <= i < code.len()) {
    } else if code[i] == '[' {
        assert(same(none, none));
        assert(safer(expand(none), none));
        lemma_fold_same(code, i + 1, none, none);
        lemma_fold_safer(code, i + 1, none, none);
        let folded_body = fold(code, i + 1, none);
        let plain_body = read(code, i + 1, none);
        if i < folded_body.next <= code.len() {
            let next_folded = append_loop(folded, folded_body.ops);
            let next_plain = plain.push(Op::Loop(plain_body.ops));
            lemma_safer_loop(folded, plain, folded_body.ops, plain_body.ops);
            assert forall|state: State, limit: nat| #[trigger]
                run(next_folded, state, limit) == run(next_plain, state, limit) by {
                crate::code_gen::soundness::lemma_append_loop(
                    folded,
                    folded_body.ops,
                    plain_body.ops,
                    state,
                    limit,
                );
                lemma_run_push(plain, Op::Loop(plain_body.ops), state, limit);
                assert(run(folded, state, limit) == run(plain, state, limit));
            }
            lemma_fold_safer(code, folded_body.next, next_folded, next_plain);
        }
    } else if code[i] == ']' {
    } else {
        match command(code[i]) {
            Some(Op::Move(d)) => {
                let next_folded = adjust_move(folded, d);
                let next_plain = plain.push(Op::Move(d));
                lemma_safer_move(folded, plain, d);
                assert forall|state: State, limit: nat| #[trigger]
                    run(next_folded, state, limit) == run(next_plain, state, limit) by {
                    crate::code_gen::soundness::lemma_adjust_move(folded, d, state, limit);
                    lemma_run_push(plain, Op::Move(d), state, limit);
                    assert(run(folded, state, limit) == run(plain, state, limit));
                }
                lemma_fold_safer(code, i + 1, next_folded, next_plain);
            },
            Some(Op::Add(d)) => {
                let next_folded = adjust_add(folded, d);
                let next_plain = plain.push(Op::Add(d));
                lemma_safer_add(folded, plain, d);
                assert forall|state: State, limit: nat| #[trigger]
                    run(next_folded, state, limit) == run(next_plain, state, limit) by {
                    crate::code_gen::soundness::lemma_adjust_add(folded, d, state, limit);
                    lemma_run_push(plain, Op::Add(d), state, limit);
                    assert(run(folded, state, limit) == run(plain, state, limit));
                }
                lemma_fold_safer(code, i + 1, next_folded, next_plain);
            },
            Some(op) => {
                lemma_safer_push(folded, plain, op);
                assert forall|state: State, limit: nat| #[trigger]
                    run(folded.push(op), state, limit) == run(plain.push(op), state, limit) by {
                    lemma_run_push(folded, op, state, limit);
                    lemma_run_push(plain, op, state, limit);
                    assert(run(folded, state, limit) == run(plain, state, limit));
                }
                lemma_fold_safer(code, i + 1, folded.push(op), plain.push(op));
            },
            None => {
                lemma_fold_safer(code, i + 1, folded, plain);
            },
        }
    }
}

/// Where the machine runs the code without a fault, on a tape of `cells`
/// cells from `state`, it runs the optimized code without one.
pub proof fn lemma_optimized_stays(code: Seq<char>, state: State, limit: nat, cells: nat)
    requires
        cost(parse(code), state, limit, cells) is Some,
    ensures
        cost(parse(optimized(code)), state, limit, cells) is Some,
{
    let none = Seq::<Op>::empty();
    let folded = fold(code, 0, none).ops;
    assert(same(none, none));
    assert(safer(expand(none), none));
    lemma_fold_safer(code, 0, none, none);
    lemma_render_same(folded);
    lemma_reads_parse(optimized(code), expand(folded));
}

/// The length of the text of `op`.
pub open spec fn span(op: Op) -> int {
    render_op(op).len() as int
}

/// The text of operations with one more is the text with that of the one
/// more.
pub proof fn lemma_render_push(ops: Seq<Op>, op: Op)
    ensures
        render(ops.push(op)) == render(ops) + render_op(op),
{
    assert(ops.push(op).drop_last() =~= ops);
}

/// A step that is merged into the operations before it makes their text
/// longer by one character at most, and so does an operation that is
/// appended as it is.
pub proof fn lemma_step_length(ops: Seq<Op>, d: int, op: Op)
    requires
        d == 1 || d == -1,
        op is PutChar || op is GetChar,
    ensures
        render(adjust_move(ops, d)).len() <= render(ops).len() + 1,
        render(adjust_add(ops, d)).len() <= render(ops).len() + 1,
        render(ops.push(op)).len() <= render(ops).len() + 1,
{
    lemma_render_push(ops, op);
    if ops.len() > 0 {
        assert(render(ops) == render(ops.drop_last()) + render_op(ops.last()));
    }
    if ops.len() > 0 && ops.last() is Move {
        let n = ops.last()->Move_0;
        if n != -d {
            lemma_render_push(ops.drop_last(), Op::Move(n + d));
            assert(span(Op::Move(n + d)) <= span(Op::Move(n)) + 1);
        }
    } else {
        lemma_render_push(ops, Op::Move(d));
        assert(span(Op::Move(d)) == 1);
    }
    if ops.len() > 0 && ops.last() is Add {
        let n = ops.last()->Add_0;
        if n != -d {
            lemma_render_push(ops.drop_last(), Op::Add(wrap(n + d)));
            assert(span(Op::Add(wrap(n + d))) <= span(Op::Add(n)) + 1);
        }
    } else {
        lemma_render_push(ops, Op::Add(d));
        assert(span(Op::Add(d)) == 1);
    }
    assert(span(op) == 1);
}

/// A loop that is appended, or left out after a loop, makes the text longer
/// by the text of its body and two brackets at most.
pub proof fn lemma_loop_length(ops: Seq<Op>, body: Seq<Op>)
    ensures
        render(append_loop(ops, body)).len() <= render(ops).len() + render(body).len() + 2,
{
    if !(ops.len() > 0 && ops.last() is Loop) {
        lemma_render_push(ops, Op::Loop(body));
    }
}

/// The text of the simplified operations of a text is no longer than the
/// text, bracket for bracket: where the text from `i` on closes each loop
/// that it opens, and where it ends at a `]` that it has not opened.
pub proof fn lemma_fold_length(code: Seq<char>, i: int, ops: Seq<Op>)
    requires
        0 <= i <= code.len(),
    ensures
        runs_out(code, i) ==> render(fold(code, i, ops).ops).len() <= render(ops).len() + (
        code.len() - i),
        ends_inside(code, i) ==> fold(code, i, ops).next <= code.len() && render(
            fold(code, i, ops).ops,
        ).len() + 1 <= render(ops).len() + (fold(code, i, ops).next - i),
    decreases code.len() - i,
{
    let none = Seq::<Op>::empty();
    if !(0 <= i < code.len()) {
    } else if code[i] == '[' {
        assert(same(none, none));
        lemma_fold_same(code, i + 1, none, none);
        lemma_fold_length(code, i + 1, none);
        let body = fold(code, i + 1, none);
        if i < body.next <= code.len() {
            lemma_loop_length(ops, body.ops);
            lemma_fold_length(code, body.next, append_loop(ops, body.ops));
        }
    } else if code[i] == ']' {
    } else {
        match command(code[i]) {
            Some(Op::Move(d)) => {
                lemma_step_length(ops, d, Op::PutChar);
                lemma_fold_length(code, i + 1, adjust_move(ops, d));
            },
            Some(Op::Add(d)) => {
                lemma_step_length(ops, d, Op::PutChar);
                lemma_fold_length(code, i + 1, adjust_add(ops, d));
            },
            Some(op) => {
                lemma_step_length(ops, 1, op);
                lemma_fold_length(code, i + 1, ops.push(op));
            },
            None => {
                lemma_fold_length(code, i + 1, ops);
            },
        }
    }
}

/// Optimized code is no longer than the code, where each loop of the code
/// is closed.
pub proof fn lemma_optimized_shorter(code: Seq<char>)
    requires
        runs_out(code, 0),
    ensures
        optimized(code).len() <= code.len(),
{
    lemma_fold_length(code, 0, Seq::empty());
}

/// On the interpreter, optimized code does what the code did. Where each
/// loop of the code is closed, and where the code, run on a tape of zeros
/// with `input` ahead, ends and stays on the tape of the machine, so does
/// the optimized code, and the two machines halt with the same output, the
/// same cells and the head on the same cell.
pub proof fn lemma_optimizer_sound_on_machine(code: Seq<char>, input: Seq<u8>, limit: nat)
    requires
        code.len() <= usize::MAX,
        runs_out(code, 0),
        cost(parse(code), initial(input), limit, N as nat) is Some,
    ensures
        optimized(code).len() <= code.len(),
        instructions_of(code) is Some,
        instructions_of(optimized(code)) is Some,
        cost(parse(optimized(code)), initial(input), limit, N as nat) is Some,
        ({
            let plain = start(instructions_of(code)->Some_0, input).drive(
                (cost(parse(code), initial(input), limit, N as nat)->Some_0 + 1) as nat,
            );
            let better = start(instructions_of(optimized(code))->Some_0, input).drive(
                (cost(parse(optimized(code)), initial(input), limit, N as nat)->Some_0 + 1) as nat,
            );
            &&& plain.1 == Event::Halted
            &&& better.1 == Event::Halted
            &&& state_of(better.0) == state_of(plain.0)
        }),
{
    lemma_optimized_shorter(code);
    lemma_optimized_stays(code, initial(input), limit, N as nat);
    lemma_optimized_closed(code);
    lemma_interpreter_adequate(code, input, limit);
    lemma_interpreter_adequate(optimized(code), input, limit);
    lemma_optimizer_sound(code, initial(input), limit);
}

} // verus!
