//! What loops of two common forms do: a loop that counts a cell down and
//! adds to other cells on the way, and a loop that runs at most once.

use vstd::prelude::*;
use crate::brainfuck::semantics::{lemma_run_more, run, run_loop, run_op, wrap, State};
use crate::brainfuck::tree::Op;

verus! {

/// Whether `ops` are moves and additions only.
pub open spec fn linear(ops: Seq<Op>) -> bool {
    forall|k: int| 0 <= k < ops.len() ==> ((#[trigger] ops[k]) is Move || ops[k] is Add)
}

/// How far `ops`, which are linear, move the head.
pub open spec fn shift(ops: Seq<Op>) -> int
    decreases ops.len(),
{
    if ops.len() == 0 {
        0
    } else {
        shift(ops.drop_last()) + match ops.last() {
            Op::Move(n) => n,
            _ => 0,
        }
    }
}

/// How much `ops`, which are linear, add to the cell `at` cells right of
/// where the head stands before them.
pub open spec fn delta(ops: Seq<Op>, at: int) -> int
    decreases ops.len(),
{
    if ops.len() == 0 {
        0
    } else {
        delta(ops.drop_last(), at) + match ops.last() {
            Op::Add(n) => if shift(ops.drop_last()) == at {
                n
            } else {
                0
            },
            _ => 0,
        }
    }
}

/// The state after linear operations: each cell has got what was added to
/// it, and the head has moved.
pub open spec fn after_linear(state: State, ops: Seq<Op>) -> State {
    State {
        cells: |i: int| wrap(state.at(i) + delta(ops, i - state.head)),
        head: state.head + shift(ops),
        ..state
    }
}

/// Linear operations add to each cell what they add to it, and move the
/// head.
pub proof fn lemma_run_linear(ops: Seq<Op>, state: State, limit: nat)
    requires
        linear(ops),
    ensures
        run(ops, state, limit) == Some(after_linear(state, ops)),
    decreases ops.len(),
{
    if ops.len() == 0 {
        assert(after_linear(state, ops) =~= state);
    } else {
        let front = ops.drop_last();
        assert(linear(front)) by {
            assert forall|k: int| 0 <= k < front.len() implies ((#[trigger] front[k]) is Move
                || front[k] is Add) by {
                assert(front[k] == ops[k]);
            }
        }
        lemma_run_linear(front, state, limit);
        let before = after_linear(state, front);
        assert(ops.last() == ops[ops.len() - 1]);
        assert(run(ops, state, limit) == run_op(ops.last(), before, limit));
        match ops.last() {
            Op::Move(n) => {
                assert(run_op(ops.last(), before, limit) == Some(before.moved(n)));
                assert(before.moved(n) =~= after_linear(state, ops));
            },
            Op::Add(n) => {
                assert(run_op(ops.last(), before, limit) == Some(before.added(n)));
                assert(before.added(n) =~= after_linear(state, ops));
            },
            _ => {},
        }
    }
}

/// The state after a loop that counts the cell under the head down: each
/// cell has got what one round adds to it, as often as the loop has run.
pub open spec fn after_counting(state: State, body: Seq<Op>) -> State {
    State { cells: |i: int| wrap(state.at(i) + delta(body, i - state.head) * state.cell()), ..state }
}

/// A loop whose body is linear, ends where it began and takes one from the
/// cell under the head runs as often as that cell says.
pub proof fn lemma_counting_loop(body: Seq<Op>, state: State, limit: nat)
    requires
        linear(body),
        shift(body) == 0,
        delta(body, 0) == -1,
        limit >= state.cell(),
    ensures
        run_loop(body, state, limit) == Some(after_counting(state, body)),
        after_counting(state, body).cell() == 0,
    decreases state.cell(),
{
    let count = state.cell() as int;
    if count == 0 {
        assert forall|i: int| wrap(#[trigger] state.at(i) + delta(body, i - state.head) * count)
            == state.at(i) by {
            assert(delta(body, i - state.head) * 0 == 0) by (nonlinear_arith);
        }
        assert(after_counting(state, body) =~= state);
    } else {
        let less = (limit - 1) as nat;
        lemma_run_linear(body, state, less);
        let next = after_linear(state, body);
        assert(next.cell() == count - 1);
        lemma_counting_loop(body, next, less);
        assert forall|i: int|
            wrap(next.at(i) + delta(body, i - next.head) * next.cell()) == wrap(
                #[trigger] state.at(i) + delta(body, i - state.head) * count,
            ) by {
            let d = delta(body, i - state.head);
            assert(d + d * (count - 1) == d * count) by (nonlinear_arith);
        }
        assert(after_counting(next, body) =~= after_counting(state, body));
        assert(-1 * count == -count) by (nonlinear_arith);
    }
}

/// A loop whose body leaves zero under the head runs once, or not at all
/// where there is zero under the head before it.
pub proof fn lemma_loop_once(body: Seq<Op>, state: State, limit: nat, inner: nat)
    requires
        state.cell() != 0 ==> run(body, state, inner) is Some && run(
            body,
            state,
            inner,
        )->Some_0.cell() == 0,
        limit > inner,
    ensures
        run_loop(body, state, limit) == if state.cell() == 0 {
            Some(state)
        } else {
            run(body, state, inner)
        },
{
    if state.cell() != 0 {
        let less = (limit - 1) as nat;
        lemma_run_more(body, state, inner, less);
        let after = run(body, state, inner)->Some_0;
        assert(run(body, state, less) == Some(after));
        assert(run_loop(body, after, less) == Some(after));
        assert(run_loop(body, state, limit) == run_loop(body, after, less));
    }
}

/// A loop whose body keeps `inv` and counts the cell under the head down
/// ends, with `inv` and with zero under the head. `inner` is the limit that
/// one round of the body needs.
pub proof fn lemma_loop_invariant(
    body: Seq<Op>,
    state: State,
    limit: nat,
    inner: nat,
    inv: spec_fn(State) -> bool,
)
    requires
        inv(state),
        forall|t: State|
            #[trigger] inv(t) && t.cell() != 0 ==> {
                &&& run(body, t, inner) is Some
                &&& inv(run(body, t, inner)->Some_0)
                &&& run(body, t, inner)->Some_0.cell() < t.cell()
            },
        limit >= inner + state.cell(),
    ensures
        run_loop(body, state, limit) is Some,
        inv(run_loop(body, state, limit)->Some_0),
        run_loop(body, state, limit)->Some_0.cell() == 0,
    decreases state.cell(),
{
    if state.cell() != 0 {
        let less = (limit - 1) as nat;
        assert(inv(state) && state.cell() != 0);
        lemma_run_more(body, state, inner, less);
        let next = run(body, state, inner)->Some_0;
        assert(run(body, state, less) == Some(next));
        lemma_loop_invariant(body, next, less, inner, inv);
        assert(run_loop(body, state, limit) == run_loop(body, next, less));
    }
}

/// The body of `[-]`.
pub open spec fn clear_body() -> Seq<Op> {
    Seq::<Op>::empty().push(Op::Add(-1))
}

/// The loop `[-]` leaves zero under the head.
pub proof fn lemma_clear(state: State, limit: nat)
    requires
        limit >= 255,
    ensures
        run_loop(clear_body(), state, limit) == Some(state.write(0)),
{
    reveal_with_fuel(shift, 3);
    reveal_with_fuel(delta, 3);
    lemma_counting_loop(clear_body(), state, limit);
    assert(after_counting(state, clear_body()) =~= state.write(0)) by {
        assert forall|i: int| #[trigger]
            after_counting(state, clear_body()).at(i) == state.write(0).at(i) by {
            let c = state.cell() as int;
            assert(-1 * c == -c);
            assert(0 * c == 0);
        }
    }
}

} // verus!
