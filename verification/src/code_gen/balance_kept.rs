//! The optimizer keeps the balance of code: optimized code has matching
//! brackets and, outside of its loops, moves the head as far as the code
//! did.

use vstd::prelude::*;
use crate::brainfuck::loops::shift;
use crate::brainfuck::tree::{command, render, render_op, Op};
use crate::code_gen::balance::{
    after, lemma_passes_concat, lemma_passes_neutral, lemma_walk_concat, lemma_walk_repeat,
    neutral, passes, walk, Walk,
};
use crate::code_gen::optimizations::{adjust_add, adjust_move, append_loop, fold, optimized};

verus! {

/// How far `op` moves the head where it stands outside of all loops.
pub open spec fn step(op: Op) -> int {
    match op {
        Op::Move(n) => n,
        _ => 0,
    }
}

/// The text of an operation passes, and moves the head as far as the
/// operation does.
pub proof fn lemma_render_op_passes(op: Op)
    ensures
        passes(render_op(op), step(op)),
    decreases op, 0int,
{
    match op {
        Op::Move(n) => {
            assert forall|at: Walk| #[trigger] walk(render_op(op), 0, at) == after(at, 0, n) by {
                if n >= 0 {
                    lemma_walk_repeat('>', n as nat, at);
                } else {
                    lemma_walk_repeat('<', (-n) as nat, at);
                }
            }
        },
        Op::Add(n) => {
            assert forall|at: Walk| #[trigger] walk(render_op(op), 0, at) == after(at, 0, 0) by {
                if n >= 0 {
                    lemma_walk_repeat('+', n as nat, at);
                } else {
                    lemma_walk_repeat('-', (-n) as nat, at);
                }
            }
        },
        Op::PutChar => {
            reveal_with_fuel(walk, 2);
        },
        Op::GetChar => {
            reveal_with_fuel(walk, 2);
        },
        Op::Loop(body) => {
            lemma_render_passes(body);
            let inner = render(body);
            assert forall|at: Walk| #[trigger] walk(render_op(op), 0, at) == after(at, 0, 0) by {
                let open = Walk { depth: at.depth + 1, net: at.net };
                assert(walk(seq!['['], 0, at) == Some(open)) by {
                    reveal_with_fuel(walk, 2);
                }
                lemma_walk_concat(seq!['['], inner, at);
                assert(walk(inner, 0, open) == after(open, 0, shift(body)));
                lemma_walk_concat(seq!['['] + inner, seq![']'], at);
                assert(walk(seq![']'], 0, open) == Some(at)) by {
                    reveal_with_fuel(walk, 2);
                }
            }
        },
    }
}

/// The text of operations passes, and moves the head as far as the
/// operations do outside of their loops.
pub proof fn lemma_render_passes(ops: Seq<Op>)
    ensures
        passes(render(ops), shift(ops)),
    decreases ops, 1int,
{
    if ops.len() == 0 {
    } else {
        lemma_render_passes(ops.drop_last());
        lemma_render_op_passes(ops.last());
        lemma_passes_concat(
            render(ops.drop_last()),
            render_op(ops.last()),
            shift(ops.drop_last()),
            step(ops.last()),
        );
    }
}

/// A step of a move that is merged moves the head as far as it does alone;
/// a step of an addition moves it not at all; a loop, appended or left
/// out, moves it not at all.
pub proof fn lemma_shift_adjusted(ops: Seq<Op>, d: int, body: Seq<Op>, op: Op)
    requires
        !(op is Move),
    ensures
        shift(adjust_move(ops, d)) == shift(ops) + d,
        shift(adjust_add(ops, d)) == shift(ops),
        shift(append_loop(ops, body)) == shift(ops),
        shift(ops.push(op)) == shift(ops),
{
    reveal_with_fuel(shift, 2);
    assert(ops.push(Op::Move(d)).drop_last() =~= ops);
    assert(ops.push(Op::Add(d)).drop_last() =~= ops);
    assert(ops.push(Op::Loop(body)).drop_last() =~= ops);
    assert(ops.push(op).drop_last() =~= ops);
    if ops.len() > 0 {
        let front = ops.drop_last();
        match ops.last() {
            Op::Move(n) => {
                assert(front.push(Op::Move(n + d)).drop_last() =~= front);
            },
            Op::Add(n) => {
                assert(front.push(Op::Add(crate::code_gen::optimizations::wrap(n + d))).drop_last()
                    =~= front);
            },
            _ => {},
        }
    }
}

/// The simplified operations of a text move the head as far as the text
/// does. Where a walk over `code` from `i` on ends with no loop open: at
/// the top level, the walk has moved as far as the simplified operations
/// that were added to `ops`; inside a loop, the simplified operations end
/// at the `]` that closes the loop, behind which the walk goes on.
pub proof fn lemma_fold_walk(code: Seq<char>, i: int, ops: Seq<Op>, at: Walk, end: Walk)
    requires
        0 <= i <= code.len(),
        walk(code, i, at) == Some(end),
        end.depth == 0,
    ensures
        i <= fold(code, i, ops).next <= code.len(),
        at.depth == 0 ==> end.net == at.net + shift(fold(code, i, ops).ops) - shift(ops),
        at.depth > 0 ==> i < fold(code, i, ops).next && walk(
            code,
            fold(code, i, ops).next,
            Walk { depth: (at.depth - 1) as nat, net: at.net },
        ) == Some(end),
    decreases code.len() - i,
{
    let none = Seq::<Op>::empty();
    if !(0 <= i < code.len()) {
    } else if code[i] == '[' {
        let open = Walk { depth: at.depth + 1, net: at.net };
        lemma_fold_walk(code, i + 1, none, open, end);
        let body = fold(code, i + 1, none);
        lemma_shift_adjusted(ops, 0, body.ops, Op::PutChar);
        lemma_fold_walk(code, body.next, append_loop(ops, body.ops), at, end);
    } else if code[i] == ']' {
    } else {
        let next = if code[i] == '>' && at.depth == 0 {
            Walk { depth: at.depth, net: at.net + 1 }
        } else if code[i] == '<' && at.depth == 0 {
            Walk { depth: at.depth, net: at.net - 1 }
        } else {
            at
        };
        match command(code[i]) {
            Some(Op::Move(d)) => {
                lemma_shift_adjusted(ops, d, none, Op::PutChar);
                lemma_fold_walk(code, i + 1, adjust_move(ops, d), next, end);
            },
            Some(Op::Add(d)) => {
                lemma_shift_adjusted(ops, d, none, Op::PutChar);
                lemma_fold_walk(code, i + 1, adjust_add(ops, d), next, end);
            },
            Some(op) => {
                lemma_shift_adjusted(ops, 0, none, op);
                lemma_fold_walk(code, i + 1, ops.push(op), next, end);
            },
            None => {
                lemma_fold_walk(code, i + 1, ops, next, end);
            },
        }
    }
}

/// Optimized code is balanced as the code was: where the brackets of the
/// code match, those of the optimized code match, and outside of its loops
/// it moves the head as far.
pub proof fn lemma_optimized_neutral(code: Seq<char>, net: int)
    requires
        neutral(code, net),
    ensures
        neutral(optimized(code), net),
        passes(optimized(code), net),
{
    let none = Seq::<Op>::empty();
    let from = Walk { depth: 0, net: 0 };
    lemma_fold_walk(code, 0, none, from, Walk { depth: 0, net });
    lemma_render_passes(fold(code, 0, none).ops);
    lemma_passes_neutral(optimized(code), net);
}

} // verus!
