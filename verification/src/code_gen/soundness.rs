//! The optimizer keeps what a program does.

use vstd::prelude::*;
use crate::brainfuck::semantics::{
    lemma_loop_ends_at_zero, lemma_loops_same, lemma_run_concat, lemma_run_push, run, run_loop,
    run_op, same, State,
};
use crate::brainfuck::reading::{
    covers, lemma_covers_join, lemma_covers_loop, lemma_covers_nothing, lemma_covers_repeat,
    lemma_covers_step, lemma_occurs_char, lemma_occurs_parts, lemma_reads_parse, occurs, reads,
    repeat_op, runs_out,
};
use crate::brainfuck::tree::{command, parse, read, render, render_op, Op};
use crate::code_gen::optimizations::{adjust_add, adjust_move, append_loop, fold, optimized, wrap};

verus! {

/// The steps of an addition add up, modulo 256.
pub proof fn lemma_added_twice(state: State, n: int, m: int)
    ensures
        state.added(n).added(m) == state.added(n + m),
        state.added(0) == state,
        state.added(n + 256) == state.added(n),
        state.added(n - 256) == state.added(n),
{
    assert(state.added(n).added(m) =~= state.added(n + m));
    assert(state.added(0) =~= state);
    assert(state.added(n + 256) =~= state.added(n));
    assert(state.added(n - 256) =~= state.added(n));
}

/// The steps of a move add up.
pub proof fn lemma_moved_twice(state: State, n: int, m: int)
    ensures
        state.moved(n).moved(m) == state.moved(n + m),
        state.moved(0) == state,
{
    assert(state.moved(n).moved(m) =~= state.moved(n + m));
    assert(state.moved(0) =~= state);
}

/// A step of an addition that is merged into the operations before it does
/// what it does alone.
pub proof fn lemma_adjust_add(ops: Seq<Op>, d: int, state: State, limit: nat)
    ensures
        run(adjust_add(ops, d), state, limit) == match run(ops, state, limit) {
            None => None,
            Some(before) => Some(before.added(d)),
        },
{
    if ops.len() > 0 && ops.last() is Add {
        let n = ops.last()->Add_0;
        let front = ops.drop_last();
        assert(run(ops, state, limit) == match run(front, state, limit) {
            None => None,
            Some(before) => run_op(ops.last(), before, limit),
        });
        if run(front, state, limit) is Some {
            let before = run(front, state, limit)->Some_0;
            lemma_added_twice(before, n, d);
            lemma_added_twice(before, n + d, 0);
            if n != -d {
                lemma_run_push(front, Op::Add(wrap(n + d)), state, limit);
            }
        } else {
            if n != -d {
                lemma_run_push(front, Op::Add(wrap(n + d)), state, limit);
            }
        }
    } else {
        lemma_run_push(ops, Op::Add(d), state, limit);
    }
}

/// A step of a move that is merged into the operations before it does what
/// it does alone.
pub proof fn lemma_adjust_move(ops: Seq<Op>, d: int, state: State, limit: nat)
    ensures
        run(adjust_move(ops, d), state, limit) == match run(ops, state, limit) {
            None => None,
            Some(before) => Some(before.moved(d)),
        },
{
    if ops.len() > 0 && ops.last() is Move {
        let n = ops.last()->Move_0;
        let front = ops.drop_last();
        assert(run(ops, state, limit) == match run(front, state, limit) {
            None => None,
            Some(before) => run_op(ops.last(), before, limit),
        });
        if run(front, state, limit) is Some {
            let before = run(front, state, limit)->Some_0;
            lemma_moved_twice(before, n, d);
        }
        if n != -d {
            lemma_run_push(front, Op::Move(n + d), state, limit);
        }
    } else {
        lemma_run_push(ops, Op::Move(d), state, limit);
    }
}

/// A loop that is left out after a loop would not have run.
pub proof fn lemma_append_loop(
    ops: Seq<Op>,
    folded: Seq<Op>,
    plain: Seq<Op>,
    state: State,
    limit: nat,
)
    requires
        same(folded, plain),
    ensures
        run(append_loop(ops, folded), state, limit) == match run(ops, state, limit) {
            None => None,
            Some(before) => run_loop(plain, before, limit),
        },
{
    if ops.len() > 0 && ops.last() is Loop {
        let front = ops.drop_last();
        let body = ops.last()->Loop_0;
        assert(run(ops, state, limit) == match run(front, state, limit) {
            None => None,
            Some(before) => run_op(ops.last(), before, limit),
        });
        if run(ops, state, limit) is Some {
            let before = run(front, state, limit)->Some_0;
            assert(run_op(ops.last(), before, limit) == run_loop(body, before, limit));
            lemma_loop_ends_at_zero(body, before, limit);
        }
    } else {
        lemma_run_push(ops, Op::Loop(folded), state, limit);
        if run(ops, state, limit) is Some {
            lemma_loops_same(folded, plain, run(ops, state, limit)->Some_0, limit);
        }
    }
}

/// The simplified operations of a text do what its operations do.
pub proof fn lemma_fold_same(code: Seq<char>, i: int, folded: Seq<Op>, plain: Seq<Op>)
    requires
        0 <= i <= code.len(),
        same(folded, plain),
    ensures
        fold(code, i, folded).next == read(code, i, plain).next,
        same(fold(code, i, folded).ops, read(code, i, plain).ops),
    decreases code.len() - i,
{
    if !(0 <= i < code.len()) {
    } else if code[i] == '[' {
        assert(same(Seq::<Op>::empty(), Seq::<Op>::empty()));
        lemma_fold_same(code, i + 1, Seq::empty(), Seq::empty());
        let folded_body = fold(code, i + 1, Seq::empty());
        let plain_body = read(code, i + 1, Seq::empty());
        if i < folded_body.next <= code.len() {
            let next_folded = append_loop(folded, folded_body.ops);
            let next_plain = plain.push(Op::Loop(plain_body.ops));
            assert forall|state: State, limit: nat| #[trigger]
                run(next_folded, state, limit) == run(next_plain, state, limit) by {
                lemma_append_loop(folded, folded_body.ops, plain_body.ops, state, limit);
                lemma_run_push(plain, Op::Loop(plain_body.ops), state, limit);
                assert(run(folded, state, limit) == run(plain, state, limit));
            }
            lemma_fold_same(code, folded_body.next, next_folded, next_plain);
        }
    } else if code[i] == ']' {
    } else {
        match command(code[i]) {
            Some(Op::Move(d)) => {
                let next_folded = adjust_move(folded, d);
                let next_plain = plain.push(Op::Move(d));
                assert forall|state: State, limit: nat| #[trigger]
                    run(next_folded, state, limit) == run(next_plain, state, limit) by {
                    lemma_adjust_move(folded, d, state, limit);
                    lemma_run_push(plain, Op::Move(d), state, limit);
                    assert(run(folded, state, limit) == run(plain, state, limit));
                }
                lemma_fold_same(code, i + 1, next_folded, next_plain);
            },
            Some(Op::Add(d)) => {
                let next_folded = adjust_add(folded, d);
                let next_plain = plain.push(Op::Add(d));
                assert forall|state: State, limit: nat| #[trigger]
                    run(next_folded, state, limit) == run(next_plain, state, limit) by {
                    lemma_adjust_add(folded, d, state, limit);
                    lemma_run_push(plain, Op::Add(d), state, limit);
                    assert(run(folded, state, limit) == run(plain, state, limit));
                }
                lemma_fold_same(code, i + 1, next_folded, next_plain);
            },
            Some(op) => {
                assert forall|state: State, limit: nat| #[trigger]
                    run(folded.push(op), state, limit) == run(plain.push(op), state, limit) by {
                    lemma_run_push(folded, op, state, limit);
                    lemma_run_push(plain, op, state, limit);
                    assert(run(folded, state, limit) == run(plain, state, limit));
                }
                lemma_fold_same(code, i + 1, folded.push(op), plain.push(op));
            },
            None => {
                lemma_fold_same(code, i + 1, folded, plain);
            },
        }
    }
}

/// The operations that the text of `op` is read as: one step for each
/// command of a move or an addition.
pub open spec fn expand_op(op: Op) -> Seq<Op>
    decreases op, 0int,
{
    match op {
        Op::Move(n) => if n >= 0 {
            repeat_op(Op::Move(1), n as nat)
        } else {
            repeat_op(Op::Move(-1), (-n) as nat)
        },
        Op::Add(n) => if n >= 0 {
            repeat_op(Op::Add(1), n as nat)
        } else {
            repeat_op(Op::Add(-1), (-n) as nat)
        },
        Op::PutChar => seq![Op::PutChar],
        Op::GetChar => seq![Op::GetChar],
        Op::Loop(body) => seq![Op::Loop(expand(body))],
    }
}

/// The operations that the text of `ops` is read as.
pub open spec fn expand(ops: Seq<Op>) -> Seq<Op>
    decreases ops, 1int,
{
    if ops.len() == 0 {
        Seq::empty()
    } else {
        expand(ops.drop_last()) + expand_op(ops.last())
    }
}

/// The text of operations that stands in `code` is read there as their
/// expansion, and closes each loop that it opens.
pub proof fn lemma_covers_rendered(code: Seq<char>, i: int, ops: Seq<Op>)
    requires
        occurs(code, i, render(ops)),
    ensures
        covers(code, i, i + render(ops).len(), expand(ops)),
    decreases ops, 1int,
{
    if ops.len() == 0 {
        lemma_covers_nothing(code, i);
    } else {
        let front = ops.drop_last();
        let last = ops.last();
        lemma_occurs_parts(code, i, render(front), render_op(last));
        lemma_covers_rendered(code, i, front);
        lemma_covers_rendered_op(code, i + render(front).len(), last);
        lemma_covers_join(
            code,
            i,
            i + render(front).len(),
            i + render(ops).len(),
            expand(front),
            expand_op(last),
        );
    }
}

/// The text of an operation that stands in `code` is read there as its
/// expansion.
pub proof fn lemma_covers_rendered_op(code: Seq<char>, i: int, op: Op)
    requires
        occurs(code, i, render_op(op)),
    ensures
        covers(code, i, i + render_op(op).len(), expand_op(op)),
    decreases op, 0int,
{
    let none = Seq::<Op>::empty();
    match op {
        Op::Move(n) => {
            if n >= 0 {
                lemma_covers_repeat(code, i, '>', n as nat);
            } else {
                lemma_covers_repeat(code, i, '<', (-n) as nat);
            }
        },
        Op::Add(n) => {
            if n >= 0 {
                lemma_covers_repeat(code, i, '+', n as nat);
            } else {
                lemma_covers_repeat(code, i, '-', (-n) as nat);
            }
        },
        Op::PutChar => {
            lemma_occurs_char(code, i, render_op(op), 0);
            lemma_covers_nothing(code, i);
            lemma_covers_step(code, i, i, none, Op::PutChar);
            assert(none.push(Op::PutChar) =~= expand_op(op));
        },
        Op::GetChar => {
            lemma_occurs_char(code, i, render_op(op), 0);
            lemma_covers_nothing(code, i);
            lemma_covers_step(code, i, i, none, Op::GetChar);
            assert(none.push(Op::GetChar) =~= expand_op(op));
        },
        Op::Loop(body) => {
            let inner = render(body);
            let text = render_op(op);
            assert(text.len() == inner.len() + 2);
            let close = i + 1 + inner.len();
            lemma_occurs_char(code, i, text, 0);
            lemma_occurs_char(code, i, text, 1 + inner.len() as int);
            lemma_occurs_parts(code, i, seq!['['] + inner, seq![']']);
            lemma_occurs_parts(code, i, seq!['['], inner);
            lemma_covers_rendered(code, i + 1, body);
            lemma_covers_nothing(code, i);
            lemma_covers_loop(code, i, i, none, close, expand(body));
            assert(none.push(Op::Loop(expand(body))) =~= expand_op(op));
        },
    }
}

/// So many single steps of an addition add so much.
pub proof fn lemma_run_steps(d: int, n: nat, state: State, limit: nat)
    ensures
        run(repeat_op(Op::Add(d), n), state, limit) == Some(state.added(d * n)),
        run(repeat_op(Op::Move(d), n), state, limit) == Some(state.moved(d * n)),
    decreases n,
{
    let adds = repeat_op(Op::Add(d), n);
    let moves = repeat_op(Op::Move(d), n);
    if n == 0 {
        lemma_added_twice(state, 0, 0);
        lemma_moved_twice(state, 0, 0);
        assert(d * n == 0) by (nonlinear_arith)
            requires
                n == 0,
        ;
    } else {
        let less = (n - 1) as nat;
        lemma_run_steps(d, less, state, limit);
        assert(adds.drop_last() =~= repeat_op(Op::Add(d), less));
        assert(moves.drop_last() =~= repeat_op(Op::Move(d), less));
        assert(adds.last() == Op::Add(d));
        assert(moves.last() == Op::Move(d));
        lemma_added_twice(state, d * less, d);
        lemma_moved_twice(state, d * less, d);
        assert(d * less + d == d * n) by (nonlinear_arith)
            requires
                less == n - 1,
        ;
        assert(run(adds, state, limit) == run_op(Op::Add(d), state.added(d * less), limit));
        assert(run(moves, state, limit) == run_op(Op::Move(d), state.moved(d * less), limit));
    }
}

/// The expansion of an operation does what the operation does.
pub proof fn lemma_expand_op_same(op: Op, state: State, limit: nat)
    ensures
        run(expand_op(op), state, limit) == run_op(op, state, limit),
    decreases op, 0int,
{
    match op {
        Op::Move(n) => {
            if n >= 0 {
                lemma_run_steps(1, n as nat, state, limit);
            } else {
                lemma_run_steps(-1, (-n) as nat, state, limit);
            }
        },
        Op::Add(n) => {
            if n >= 0 {
                lemma_run_steps(1, n as nat, state, limit);
            } else {
                lemma_run_steps(-1, (-n) as nat, state, limit);
            }
        },
        Op::PutChar => {
            lemma_run_push(Seq::empty(), Op::PutChar, state, limit);
            assert(Seq::<Op>::empty().push(Op::PutChar) =~= seq![Op::PutChar]);
        },
        Op::GetChar => {
            lemma_run_push(Seq::empty(), Op::GetChar, state, limit);
            assert(Seq::<Op>::empty().push(Op::GetChar) =~= seq![Op::GetChar]);
        },
        Op::Loop(body) => {
            let expanded = Op::Loop(expand(body));
            lemma_run_push(Seq::empty(), expanded, state, limit);
            assert(Seq::<Op>::empty().push(expanded) =~= seq![expanded]);
            assert forall|s: State, l: nat| #[trigger]
                run(expand(body), s, l) == run(body, s, l) by {
                lemma_expand_same(body, s, l);
            }
            lemma_loops_same(expand(body), body, state, limit);
        },
    }
}

/// The expansion of operations does what the operations do.
pub proof fn lemma_expand_same(ops: Seq<Op>, state: State, limit: nat)
    ensures
        run(expand(ops), state, limit) == run(ops, state, limit),
    decreases ops, 1int,
{
    if ops.len() > 0 {
        let front = ops.drop_last();
        lemma_expand_same(front, state, limit);
        lemma_run_concat(expand(front), expand_op(ops.last()), state, limit);
        if run(front, state, limit) is Some {
            lemma_expand_op_same(ops.last(), run(front, state, limit)->Some_0, limit);
        }
    }
}

/// The text of operations is a program each loop of which is closed, and
/// it does what the operations do.
pub proof fn lemma_render_same(ops: Seq<Op>)
    ensures
        reads(render(ops), expand(ops)),
        same(parse(render(ops)), ops),
{
    let text = render(ops);
    assert(text.subrange(0, text.len() as int) =~= text);
    lemma_covers_rendered(text, 0, ops);
    lemma_reads_parse(text, expand(ops));
    assert forall|state: State, limit: nat| #[trigger]
        run(parse(text), state, limit) == run(ops, state, limit) by {
        lemma_expand_same(ops, state, limit);
    }
}

/// Optimized code does what the code did: from every state, with every
/// input ahead, the two programs write the same and end in the same state,
/// or neither ends.
pub proof fn lemma_optimizer_sound(code: Seq<char>, state: State, limit: nat)
    ensures
        run(parse(optimized(code)), state, limit) == run(parse(code), state, limit),
{
    let folded = fold(code, 0, Seq::empty()).ops;
    assert(same(Seq::<Op>::empty(), Seq::<Op>::empty()));
    lemma_fold_same(code, 0, Seq::empty(), Seq::empty());
    lemma_render_same(folded);
    assert(run(parse(render(folded)), state, limit) == run(folded, state, limit));
    assert(run(folded, state, limit) == run(parse(code), state, limit));
}

/// Optimized code is a program each loop of which is closed.
pub proof fn lemma_optimized_closed(code: Seq<char>)
    ensures
        runs_out(optimized(code), 0),
{
    lemma_render_same(fold(code, 0, Seq::empty()).ops);
    lemma_reads_parse(optimized(code), expand(fold(code, 0, Seq::empty()).ops));
}

} // verus!
