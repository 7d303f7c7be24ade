//! What the pieces of code that the generator emits do, loop by loop.

use vstd::prelude::*;
use crate::brainfuck::loops::{
    after_counting, delta, lemma_clear, lemma_counting_loop, lemma_loop_invariant,
    lemma_loop_once, linear, shift,
};
use crate::brainfuck::reading::repeat_op;
use crate::brainfuck::semantics::{lemma_run_concat, lemma_run_push, run, run_loop, wrap, State};
use crate::brainfuck::tree::Op;
use crate::code_gen::compound::{
    divide_far, lemma_divide_far, lemma_multiply_far, lemma_remainder_far, multiply_far,
    remainder_far,
};
use crate::code_gen::soundness::lemma_run_steps;
use crate::code_gen::counting::{
    lemma_multiply, lemma_wear_left, lemma_wear_right, multiply, wear_left, wear_right,
};
use crate::code_gen::division::{divide, lemma_divide, lemma_remainder, remainder};
use crate::code_gen::templates::{and_ops, assign_eq_ops, assign_minus_ops, assign_percent_ops, assign_plus_ops, assign_slash_ops, assign_star_ops, clear_ops, eq_eq_ops, greater_eq_ops, greater_ops, less_eq_ops, less_ops, minus_ops, negate_close_ops, negate_open_ops, not_close_ops, not_eq_ops, not_open_ops, or_ops, percent_ops, plus_ops, read_var_ops, slash_ops, star_ops};

verus! {

/// The body of a loop that counts the cell under the head down and adds
/// to other cells.
pub open spec fn transfer_1_body() -> Seq<Op> {
    Seq::<Op>::empty().push(Op::Add(-1)).push(Op::Move(-1)).push(Op::Add(1)).push(Op::Move(1))
}

/// What the loop of `transfer_1_body` leaves: zero under the head, and the sums in the
/// other cells.
pub open spec fn transfer_1(state: State) -> State {
    state.set(state.head - 1, wrap(state.at(state.head - 1) + state.cell())).set(state.head, 0)
}

/// The loop of `transfer_1_body` does what `transfer_1` says.
pub proof fn lemma_transfer_1(state: State, limit: nat)
    requires
        limit >= 255,
    ensures
        run_loop(transfer_1_body(), state, limit) == Some(transfer_1(state)),
{
    let body = transfer_1_body();
    assert(linear(body));
    assert(shift(body) == 0) by {
        reveal_with_fuel(shift, 6);
    }
    assert(delta(body, -1) == 1) by {
        reveal_with_fuel(shift, 6);
        reveal_with_fuel(delta, 6);
    }
    assert(delta(body, 0) == -1) by {
        reveal_with_fuel(shift, 6);
        reveal_with_fuel(delta, 6);
    }
    assert forall|k: int| k != -1 && k != 0 implies #[trigger] delta(body, k) == 0 by {
        reveal_with_fuel(shift, 6);
        reveal_with_fuel(delta, 6);
    }
    lemma_counting_loop(body, state, limit);
    let count = state.cell() as int;
    assert(0 * count == 0);
    assert(1 * count == count);
    assert(-1 * count == -count);
    assert forall|i: int| #[trigger] after_counting(state, body).at(i) == transfer_1(state).at(i) by {
        let k = i - state.head;
        if k == -1 {
            assert(delta(body, k) == 1);
        } else if k == 0 {
            assert(delta(body, k) == -1);
        } else {
            assert(delta(body, k) == 0);
        }
    }
    assert(after_counting(state, body) =~= transfer_1(state));
}

/// The state after the code of `+`.
pub open spec fn plus_effect(state: State) -> State {
    transfer_1(state)
}

/// The operations of `plus_ops` do what `plus_effect` says.
pub proof fn lemma_plus_effect(state: State, limit: nat)
    requires
        limit >= 255,
    ensures
        run(plus_ops(), state, limit) == Some(plus_effect(state)),
{
    let p0 = Seq::<Op>::empty();
    let s0 = state;
    let p1 = p0.push(Op::Loop(Seq::<Op>::empty().push(Op::Add(-1)).push(Op::Move(-1)).push(Op::Add(1)).push(Op::Move(1))));
    lemma_transfer_1(s0, limit);
    let s1 = transfer_1(s0);
    lemma_run_push(p0, Op::Loop(Seq::<Op>::empty().push(Op::Add(-1)).push(Op::Move(-1)).push(Op::Add(1)).push(Op::Move(1))), state, limit);
    assert(run(p1, state, limit) == Some(s1));
}

/// The body of a loop that counts the cell under the head down and adds
/// to other cells.
pub open spec fn transfer_2_body() -> Seq<Op> {
    Seq::<Op>::empty().push(Op::Add(-1)).push(Op::Move(-1)).push(Op::Add(-1)).push(Op::Move(1))
}

/// What the loop of `transfer_2_body` leaves: zero under the head, and the sums in the
/// other cells.
pub open spec fn transfer_2(state: State) -> State {
    state.set(state.head - 1, wrap(state.at(state.head - 1) - state.cell())).set(state.head, 0)
}

/// The loop of `transfer_2_body` does what `transfer_2` says.
pub proof fn lemma_transfer_2(state: State, limit: nat)
    requires
        limit >= 255,
    ensures
        run_loop(transfer_2_body(), state, limit) == Some(transfer_2(state)),
{
    let body = transfer_2_body();
    assert(linear(body));
    assert(shift(body) == 0) by {
        reveal_with_fuel(shift, 6);
    }
    assert(delta(body, -1) == -1) by {
        reveal_with_fuel(shift, 6);
        reveal_with_fuel(delta, 6);
    }
    assert(delta(body, 0) == -1) by {
        reveal_with_fuel(shift, 6);
        reveal_with_fuel(delta, 6);
    }
    assert forall|k: int| k != -1 && k != 0 implies #[trigger] delta(body, k) == 0 by {
        reveal_with_fuel(shift, 6);
        reveal_with_fuel(delta, 6);
    }
    lemma_counting_loop(body, state, limit);
    let count = state.cell() as int;
    assert(0 * count == 0);
    assert(1 * count == count);
    assert(-1 * count == -count);
    assert forall|i: int| #[trigger] after_counting(state, body).at(i) == transfer_2(state).at(i) by {
        let k = i - state.head;
        if k == -1 {
            assert(delta(body, k) == -1);
        } else if k == 0 {
            assert(delta(body, k) == -1);
        } else {
            assert(delta(body, k) == 0);
        }
    }
    assert(after_counting(state, body) =~= transfer_2(state));
}

/// The state after the code of `-`.
pub open spec fn minus_effect(state: State) -> State {
    transfer_2(state)
}

/// The operations of `minus_ops` do what `minus_effect` says.
pub proof fn lemma_minus_effect(state: State, limit: nat)
    requires
        limit >= 255,
    ensures
        run(minus_ops(), state, limit) == Some(minus_effect(state)),
{
    let p0 = Seq::<Op>::empty();
    let s0 = state;
    let p1 = p0.push(Op::Loop(Seq::<Op>::empty().push(Op::Add(-1)).push(Op::Move(-1)).push(Op::Add(-1)).push(Op::Move(1))));
    lemma_transfer_2(s0, limit);
    let s1 = transfer_2(s0);
    lemma_run_push(p0, Op::Loop(Seq::<Op>::empty().push(Op::Add(-1)).push(Op::Move(-1)).push(Op::Add(-1)).push(Op::Move(1))), state, limit);
    assert(run(p1, state, limit) == Some(s1));
}

/// The body of a loop that counts the cell under the head down and adds
/// to other cells.
pub open spec fn transfer_3_body() -> Seq<Op> {
    Seq::<Op>::empty().push(Op::Add(-1)).push(Op::Move(1)).push(Op::Add(-1)).push(Op::Move(-1))
}

/// What the loop of `transfer_3_body` leaves: zero under the head, and the sums in the
/// other cells.
pub open spec fn transfer_3(state: State) -> State {
    state.set(state.head + 1, wrap(state.at(state.head + 1) - state.cell())).set(state.head, 0)
}

/// The loop of `transfer_3_body` does what `transfer_3` says.
pub proof fn lemma_transfer_3(state: State, limit: nat)
    requires
        limit >= 255,
    ensures
        run_loop(transfer_3_body(), state, limit) == Some(transfer_3(state)),
{
    let body = transfer_3_body();
    assert(linear(body));
    assert(shift(body) == 0) by {
        reveal_with_fuel(shift, 6);
    }
    assert(delta(body, 0) == -1) by {
        reveal_with_fuel(shift, 6);
        reveal_with_fuel(delta, 6);
    }
    assert(delta(body, 1) == -1) by {
        reveal_with_fuel(shift, 6);
        reveal_with_fuel(delta, 6);
    }
    assert forall|k: int| k != 0 && k != 1 implies #[trigger] delta(body, k) == 0 by {
        reveal_with_fuel(shift, 6);
        reveal_with_fuel(delta, 6);
    }
    lemma_counting_loop(body, state, limit);
    let count = state.cell() as int;
    assert(0 * count == 0);
    assert(1 * count == count);
    assert(-1 * count == -count);
    assert forall|i: int| #[trigger] after_counting(state, body).at(i) == transfer_3(state).at(i) by {
        let k = i - state.head;
        if k == 0 {
            assert(delta(body, k) == -1);
        } else if k == 1 {
            assert(delta(body, k) == -1);
        } else {
            assert(delta(body, k) == 0);
        }
    }
    assert(after_counting(state, body) =~= transfer_3(state));
}

/// The body of a loop that runs at most once.
pub open spec fn once_4_body() -> Seq<Op> {
    Seq::<Op>::empty().push(Op::Move(-1)).push(Op::Add(-1)).push(Op::Move(1)).push(Op::Loop(Seq::<Op>::empty().push(Op::Add(-1))))
}

/// What the loop of `once_4_body` leaves: the state as it was where there is zero
/// under the head, and else the state after one round.
pub open spec fn once_4(state: State) -> State {
    if state.cell() == 0 {
        state
    } else {
        state.moved(-1).added(-1).moved(1).write(0)
    }
}

/// The loop of `once_4_body` does what `once_4` says.
pub proof fn lemma_once_4(state: State, limit: nat)
    requires
        limit >= 256,
    ensures
        run_loop(once_4_body(), state, limit) == Some(once_4(state)),
{
    let inner: nat = 255;
    let p0 = Seq::<Op>::empty();
    let s0 = state;
    let p1 = p0.push(Op::Move(-1));
    let s1 = s0.moved(-1);
    lemma_run_push(p0, Op::Move(-1), state, inner);
    assert(run(p1, state, inner) == Some(s1));
    let p2 = p1.push(Op::Add(-1));
    let s2 = s1.added(-1);
    lemma_run_push(p1, Op::Add(-1), state, inner);
    assert(run(p2, state, inner) == Some(s2));
    let p3 = p2.push(Op::Move(1));
    let s3 = s2.moved(1);
    lemma_run_push(p2, Op::Move(1), state, inner);
    assert(run(p3, state, inner) == Some(s3));
    let p4 = p3.push(Op::Loop(Seq::<Op>::empty().push(Op::Add(-1))));
    lemma_clear(s3, inner);
    let s4 = s3.write(0);
    lemma_run_push(p3, Op::Loop(Seq::<Op>::empty().push(Op::Add(-1))), state, inner);
    assert(run(p4, state, inner) == Some(s4));
    assert(run(once_4_body(), state, inner) == Some(state.moved(-1).added(-1).moved(1).write(0)));
    lemma_loop_once(once_4_body(), state, limit, inner);
}

/// The state after the code of `==`.
pub open spec fn eq_eq_effect(state: State) -> State {
    once_4(transfer_3(state.moved(-1)).added(1).moved(1))
}

/// The operations of `eq_eq_ops` do what `eq_eq_effect` says.
pub proof fn lemma_eq_eq_effect(state: State, limit: nat)
    requires
        limit >= 256,
    ensures
        run(eq_eq_ops(), state, limit) == Some(eq_eq_effect(state)),
{
    let p0 = Seq::<Op>::empty();
    let s0 = state;
    let p1 = p0.push(Op::Move(-1));
    let s1 = s0.moved(-1);
    lemma_run_push(p0, Op::Move(-1), state, limit);
    assert(run(p1, state, limit) == Some(s1));
    let p2 = p1.push(Op::Loop(Seq::<Op>::empty().push(Op::Add(-1)).push(Op::Move(1)).push(Op::Add(-1)).push(Op::Move(-1))));
    lemma_transfer_3(s1, limit);
    let s2 = transfer_3(s1);
    lemma_run_push(p1, Op::Loop(Seq::<Op>::empty().push(Op::Add(-1)).push(Op::Move(1)).push(Op::Add(-1)).push(Op::Move(-1))), state, limit);
    assert(run(p2, state, limit) == Some(s2));
    let p3 = p2.push(Op::Add(1));
    let s3 = s2.added(1);
    lemma_run_push(p2, Op::Add(1), state, limit);
    assert(run(p3, state, limit) == Some(s3));
    let p4 = p3.push(Op::Move(1));
    let s4 = s3.moved(1);
    lemma_run_push(p3, Op::Move(1), state, limit);
    assert(run(p4, state, limit) == Some(s4));
    let p5 = p4.push(Op::Loop(Seq::<Op>::empty().push(Op::Move(-1)).push(Op::Add(-1)).push(Op::Move(1)).push(Op::Loop(Seq::<Op>::empty().push(Op::Add(-1))))));
    lemma_once_4(s4, limit);
    let s5 = once_4(s4);
    lemma_run_push(p4, Op::Loop(Seq::<Op>::empty().push(Op::Move(-1)).push(Op::Add(-1)).push(Op::Move(1)).push(Op::Loop(Seq::<Op>::empty().push(Op::Add(-1))))), state, limit);
    assert(run(p5, state, limit) == Some(s5));
}

/// The body of a loop that runs at most once.
pub open spec fn once_5_body() -> Seq<Op> {
    Seq::<Op>::empty().push(Op::Move(-1)).push(Op::Add(1)).push(Op::Move(1)).push(Op::Loop(Seq::<Op>::empty().push(Op::Add(-1))))
}

/// What the loop of `once_5_body` leaves: the state as it was where there is zero
/// under the head, and else the state after one round.
pub open spec fn once_5(state: State) -> State {
    if state.cell() == 0 {
        state
    } else {
        state.moved(-1).added(1).moved(1).write(0)
    }
}

/// The loop of `once_5_body` does what `once_5` says.
pub proof fn lemma_once_5(state: State, limit: nat)
    requires
        limit >= 256,
    ensures
        run_loop(once_5_body(), state, limit) == Some(once_5(state)),
{
    let inner: nat = 255;
    let p0 = Seq::<Op>::empty();
    let s0 = state;
    let p1 = p0.push(Op::Move(-1));
    let s1 = s0.moved(-1);
    lemma_run_push(p0, Op::Move(-1), state, inner);
    assert(run(p1, state, inner) == Some(s1));
    let p2 = p1.push(Op::Add(1));
    let s2 = s1.added(1);
    lemma_run_push(p1, Op::Add(1), state, inner);
    assert(run(p2, state, inner) == Some(s2));
    let p3 = p2.push(Op::Move(1));
    let s3 = s2.moved(1);
    lemma_run_push(p2, Op::Move(1), state, inner);
    assert(run(p3, state, inner) == Some(s3));
    let p4 = p3.push(Op::Loop(Seq::<Op>::empty().push(Op::Add(-1))));
    lemma_clear(s3, inner);
    let s4 = s3.write(0);
    lemma_run_push(p3, Op::Loop(Seq::<Op>::empty().push(Op::Add(-1))), state, inner);
    assert(run(p4, state, inner) == Some(s4));
    assert(run(once_5_body(), state, inner) == Some(state.moved(-1).added(1).moved(1).write(0)));
    lemma_loop_once(once_5_body(), state, limit, inner);
}

/// The state after the code of `!=`.
pub open spec fn not_eq_effect(state: State) -> State {
    once_5(transfer_3(state.moved(-1)).moved(1))
}

/// The operations of `not_eq_ops` do what `not_eq_effect` says.
pub proof fn lemma_not_eq_effect(state: State, limit: nat)
    requires
        limit >= 256,
    ensures
        run(not_eq_ops(), state, limit) == Some(not_eq_effect(state)),
{
    let p0 = Seq::<Op>::empty();
    let s0 = state;
    let p1 = p0.push(Op::Move(-1));
    let s1 = s0.moved(-1);
    lemma_run_push(p0, Op::Move(-1), state, limit);
    assert(run(p1, state, limit) == Some(s1));
    let p2 = p1.push(Op::Loop(Seq::<Op>::empty().push(Op::Add(-1)).push(Op::Move(1)).push(Op::Add(-1)).push(Op::Move(-1))));
    lemma_transfer_3(s1, limit);
    let s2 = transfer_3(s1);
    lemma_run_push(p1, Op::Loop(Seq::<Op>::empty().push(Op::Add(-1)).push(Op::Move(1)).push(Op::Add(-1)).push(Op::Move(-1))), state, limit);
    assert(run(p2, state, limit) == Some(s2));
    let p3 = p2.push(Op::Move(1));
    let s3 = s2.moved(1);
    lemma_run_push(p2, Op::Move(1), state, limit);
    assert(run(p3, state, limit) == Some(s3));
    let p4 = p3.push(Op::Loop(Seq::<Op>::empty().push(Op::Move(-1)).push(Op::Add(1)).push(Op::Move(1)).push(Op::Loop(Seq::<Op>::empty().push(Op::Add(-1))))));
    lemma_once_5(s3, limit);
    let s4 = once_5(s3);
    lemma_run_push(p3, Op::Loop(Seq::<Op>::empty().push(Op::Move(-1)).push(Op::Add(1)).push(Op::Move(1)).push(Op::Loop(Seq::<Op>::empty().push(Op::Add(-1))))), state, limit);
    assert(run(p4, state, limit) == Some(s4));
}

/// The body of a loop that runs at most once.
pub open spec fn once_7_body() -> Seq<Op> {
    Seq::<Op>::empty().push(Op::Move(1)).push(Op::Move(1)).push(Op::Add(1)).push(Op::Move(-1)).push(Op::Move(-1)).push(Op::Loop(Seq::<Op>::empty().push(Op::Add(-1))))
}

/// What the loop of `once_7_body` leaves: the state as it was where there is zero
/// under the head, and else the state after one round.
pub open spec fn once_7(state: State) -> State {
    if state.cell() == 0 {
        state
    } else {
        state.moved(1).moved(1).added(1).moved(-1).moved(-1).write(0)
    }
}

/// The loop of `once_7_body` does what `once_7` says.
pub proof fn lemma_once_7(state: State, limit: nat)
    requires
        limit >= 256,
    ensures
        run_loop(once_7_body(), state, limit) == Some(once_7(state)),
{
    let inner: nat = 255;
    let p0 = Seq::<Op>::empty();
    let s0 = state;
    let p1 = p0.push(Op::Move(1));
    let s1 = s0.moved(1);
    lemma_run_push(p0, Op::Move(1), state, inner);
    assert(run(p1, state, inner) == Some(s1));
    let p2 = p1.push(Op::Move(1));
    let s2 = s1.moved(1);
    lemma_run_push(p1, Op::Move(1), state, inner);
    assert(run(p2, state, inner) == Some(s2));
    let p3 = p2.push(Op::Add(1));
    let s3 = s2.added(1);
    lemma_run_push(p2, Op::Add(1), state, inner);
    assert(run(p3, state, inner) == Some(s3));
    let p4 = p3.push(Op::Move(-1));
    let s4 = s3.moved(-1);
    lemma_run_push(p3, Op::Move(-1), state, inner);
    assert(run(p4, state, inner) == Some(s4));
    let p5 = p4.push(Op::Move(-1));
    let s5 = s4.moved(-1);
    lemma_run_push(p4, Op::Move(-1), state, inner);
    assert(run(p5, state, inner) == Some(s5));
    let p6 = p5.push(Op::Loop(Seq::<Op>::empty().push(Op::Add(-1))));
    lemma_clear(s5, inner);
    let s6 = s5.write(0);
    lemma_run_push(p5, Op::Loop(Seq::<Op>::empty().push(Op::Add(-1))), state, inner);
    assert(run(p6, state, inner) == Some(s6));
    assert(run(once_7_body(), state, inner) == Some(state.moved(1).moved(1).added(1).moved(-1).moved(-1).write(0)));
    lemma_loop_once(once_7_body(), state, limit, inner);
}

/// The body of a loop that runs at most once.
pub open spec fn once_6_body() -> Seq<Op> {
    Seq::<Op>::empty().push(Op::Move(-1)).push(Op::Loop(Seq::<Op>::empty().push(Op::Move(1)).push(Op::Move(1)).push(Op::Add(1)).push(Op::Move(-1)).push(Op::Move(-1)).push(Op::Loop(Seq::<Op>::empty().push(Op::Add(-1)))))).push(Op::Move(1)).push(Op::Loop(Seq::<Op>::empty().push(Op::Add(-1))))
}

/// What the loop of `once_6_body` leaves: the state as it was where there is zero
/// under the head, and else the state after one round.
pub open spec fn once_6(state: State) -> State {
    if state.cell() == 0 {
        state
    } else {
        once_7(state.moved(-1)).moved(1).write(0)
    }
}

/// The loop of `once_6_body` does what `once_6` says.
pub proof fn lemma_once_6(state: State, limit: nat)
    requires
        limit >= 257,
    ensures
        run_loop(once_6_body(), state, limit) == Some(once_6(state)),
{
    let inner: nat = 256;
    let p0 = Seq::<Op>::empty();
    let s0 = state;
    let p1 = p0.push(Op::Move(-1));
    let s1 = s0.moved(-1);
    lemma_run_push(p0, Op::Move(-1), state, inner);
    assert(run(p1, state, inner) == Some(s1));
    let p2 = p1.push(Op::Loop(Seq::<Op>::empty().push(Op::Move(1)).push(Op::Move(1)).push(Op::Add(1)).push(Op::Move(-1)).push(Op::Move(-1)).push(Op::Loop(Seq::<Op>::empty().push(Op::Add(-1))))));
    lemma_once_7(s1, inner);
    let s2 = once_7(s1);
    lemma_run_push(p1, Op::Loop(Seq::<Op>::empty().push(Op::Move(1)).push(Op::Move(1)).push(Op::Add(1)).push(Op::Move(-1)).push(Op::Move(-1)).push(Op::Loop(Seq::<Op>::empty().push(Op::Add(-1))))), state, inner);
    assert(run(p2, state, inner) == Some(s2));
    let p3 = p2.push(Op::Move(1));
    let s3 = s2.moved(1);
    lemma_run_push(p2, Op::Move(1), state, inner);
    assert(run(p3, state, inner) == Some(s3));
    let p4 = p3.push(Op::Loop(Seq::<Op>::empty().push(Op::Add(-1))));
    lemma_clear(s3, inner);
    let s4 = s3.write(0);
    lemma_run_push(p3, Op::Loop(Seq::<Op>::empty().push(Op::Add(-1))), state, inner);
    assert(run(p4, state, inner) == Some(s4));
    assert(run(once_6_body(), state, inner) == Some(once_7(state.moved(-1)).moved(1).write(0)));
    lemma_loop_once(once_6_body(), state, limit, inner);
}

/// The body of a loop that counts the cell under the head down and adds
/// to other cells.
pub open spec fn transfer_8_body() -> Seq<Op> {
    Seq::<Op>::empty().push(Op::Add(-1)).push(Op::Move(-1)).push(Op::Move(-1)).push(Op::Add(1)).push(Op::Move(1)).push(Op::Move(1))
}

/// What the loop of `transfer_8_body` leaves: zero under the head, and the sums in the
/// other cells.
pub open spec fn transfer_8(state: State) -> State {
    state.set(state.head - 2, wrap(state.at(state.head - 2) + state.cell())).set(state.head, 0)
}

/// The loop of `transfer_8_body` does what `transfer_8` says.
pub proof fn lemma_transfer_8(state: State, limit: nat)
    requires
        limit >= 255,
    ensures
        run_loop(transfer_8_body(), state, limit) == Some(transfer_8(state)),
{
    let body = transfer_8_body();
    assert(linear(body));
    assert(shift(body) == 0) by {
        reveal_with_fuel(shift, 8);
    }
    assert(delta(body, -2) == 1) by {
        reveal_with_fuel(shift, 8);
        reveal_with_fuel(delta, 8);
    }
    assert(delta(body, 0) == -1) by {
        reveal_with_fuel(shift, 8);
        reveal_with_fuel(delta, 8);
    }
    assert forall|k: int| k != -2 && k != 0 implies #[trigger] delta(body, k) == 0 by {
        reveal_with_fuel(shift, 8);
        reveal_with_fuel(delta, 8);
    }
    lemma_counting_loop(body, state, limit);
    let count = state.cell() as int;
    assert(0 * count == 0);
    assert(1 * count == count);
    assert(-1 * count == -count);
    assert forall|i: int| #[trigger] after_counting(state, body).at(i) == transfer_8(state).at(i) by {
        let k = i - state.head;
        if k == -2 {
            assert(delta(body, k) == 1);
        } else if k == 0 {
            assert(delta(body, k) == -1);
        } else {
            assert(delta(body, k) == 0);
        }
    }
    assert(after_counting(state, body) =~= transfer_8(state));
}

/// The state after the code of `and`.
pub open spec fn and_effect(state: State) -> State {
    transfer_8(once_6(state.moved(1).write(0).moved(-1)).moved(-1).write(0).moved(1).moved(1)).moved(-1)
}

/// The operations of `and_ops` do what `and_effect` says.
pub proof fn lemma_and_effect(state: State, limit: nat)
    requires
        limit >= 257,
    ensures
        run(and_ops(), state, limit) == Some(and_effect(state)),
{
    let p0 = Seq::<Op>::empty();
    let s0 = state;
    let p1 = p0.push(Op::Move(1));
    let s1 = s0.moved(1);
    lemma_run_push(p0, Op::Move(1), state, limit);
    assert(run(p1, state, limit) == Some(s1));
    let p2 = p1.push(Op::Loop(Seq::<Op>::empty().push(Op::Add(-1))));
    lemma_clear(s1, limit);
    let s2 = s1.write(0);
    lemma_run_push(p1, Op::Loop(Seq::<Op>::empty().push(Op::Add(-1))), state, limit);
    assert(run(p2, state, limit) == Some(s2));
    let p3 = p2.push(Op::Move(-1));
    let s3 = s2.moved(-1);
    lemma_run_push(p2, Op::Move(-1), state, limit);
    assert(run(p3, state, limit) == Some(s3));
    let p4 = p3.push(Op::Loop(Seq::<Op>::empty().push(Op::Move(-1)).push(Op::Loop(Seq::<Op>::empty().push(Op::Move(1)).push(Op::Move(1)).push(Op::Add(1)).push(Op::Move(-1)).push(Op::Move(-1)).push(Op::Loop(Seq::<Op>::empty().push(Op::Add(-1)))))).push(Op::Move(1)).push(Op::Loop(Seq::<Op>::empty().push(Op::Add(-1))))));
    lemma_once_6(s3, limit);
    let s4 = once_6(s3);
    lemma_run_push(p3, Op::Loop(Seq::<Op>::empty().push(Op::Move(-1)).push(Op::Loop(Seq::<Op>::empty().push(Op::Move(1)).push(Op::Move(1)).push(Op::Add(1)).push(Op::Move(-1)).push(Op::Move(-1)).push(Op::Loop(Seq::<Op>::empty().push(Op::Add(-1)))))).push(Op::Move(1)).push(Op::Loop(Seq::<Op>::empty().push(Op::Add(-1))))), state, limit);
    assert(run(p4, state, limit) == Some(s4));
    let p5 = p4.push(Op::Move(-1));
    let s5 = s4.moved(-1);
    lemma_run_push(p4, Op::Move(-1), state, limit);
    assert(run(p5, state, limit) == Some(s5));
    let p6 = p5.push(Op::Loop(Seq::<Op>::empty().push(Op::Add(-1))));
    lemma_clear(s5, limit);
    let s6 = s5.write(0);
    lemma_run_push(p5, Op::Loop(Seq::<Op>::empty().push(Op::Add(-1))), state, limit);
    assert(run(p6, state, limit) == Some(s6));
    let p7 = p6.push(Op::Move(1));
    let s7 = s6.moved(1);
    lemma_run_push(p6, Op::Move(1), state, limit);
    assert(run(p7, state, limit) == Some(s7));
    let p8 = p7.push(Op::Move(1));
    let s8 = s7.moved(1);
    lemma_run_push(p7, Op::Move(1), state, limit);
    assert(run(p8, state, limit) == Some(s8));
    let p9 = p8.push(Op::Loop(Seq::<Op>::empty().push(Op::Add(-1)).push(Op::Move(-1)).push(Op::Move(-1)).push(Op::Add(1)).push(Op::Move(1)).push(Op::Move(1))));
    lemma_transfer_8(s8, limit);
    let s9 = transfer_8(s8);
    lemma_run_push(p8, Op::Loop(Seq::<Op>::empty().push(Op::Add(-1)).push(Op::Move(-1)).push(Op::Move(-1)).push(Op::Add(1)).push(Op::Move(1)).push(Op::Move(1))), state, limit);
    assert(run(p9, state, limit) == Some(s9));
    let p10 = p9.push(Op::Move(-1));
    let s10 = s9.moved(-1);
    lemma_run_push(p9, Op::Move(-1), state, limit);
    assert(run(p10, state, limit) == Some(s10));
}

/// The body of a loop that runs at most once.
pub open spec fn once_9_body() -> Seq<Op> {
    Seq::<Op>::empty().push(Op::Move(1)).push(Op::Add(1)).push(Op::Move(-1)).push(Op::Loop(Seq::<Op>::empty().push(Op::Add(-1))))
}

/// What the loop of `once_9_body` leaves: the state as it was where there is zero
/// under the head, and else the state after one round.
pub open spec fn once_9(state: State) -> State {
    if state.cell() == 0 {
        state
    } else {
        state.moved(1).added(1).moved(-1).write(0)
    }
}

/// The loop of `once_9_body` does what `once_9` says.
pub proof fn lemma_once_9(state: State, limit: nat)
    requires
        limit >= 256,
    ensures
        run_loop(once_9_body(), state, limit) == Some(once_9(state)),
{
    let inner: nat = 255;
    let p0 = Seq::<Op>::empty();
    let s0 = state;
    let p1 = p0.push(Op::Move(1));
    let s1 = s0.moved(1);
    lemma_run_push(p0, Op::Move(1), state, inner);
    assert(run(p1, state, inner) == Some(s1));
    let p2 = p1.push(Op::Add(1));
    let s2 = s1.added(1);
    lemma_run_push(p1, Op::Add(1), state, inner);
    assert(run(p2, state, inner) == Some(s2));
    let p3 = p2.push(Op::Move(-1));
    let s3 = s2.moved(-1);
    lemma_run_push(p2, Op::Move(-1), state, inner);
    assert(run(p3, state, inner) == Some(s3));
    let p4 = p3.push(Op::Loop(Seq::<Op>::empty().push(Op::Add(-1))));
    lemma_clear(s3, inner);
    let s4 = s3.write(0);
    lemma_run_push(p3, Op::Loop(Seq::<Op>::empty().push(Op::Add(-1))), state, inner);
    assert(run(p4, state, inner) == Some(s4));
    assert(run(once_9_body(), state, inner) == Some(state.moved(1).added(1).moved(-1).write(0)));
    lemma_loop_once(once_9_body(), state, limit, inner);
}

/// The body of a loop that runs at most once.
pub open spec fn once_10_body() -> Seq<Op> {
    Seq::<Op>::empty().push(Op::Move(1)).push(Op::Move(1)).push(Op::Loop(Seq::<Op>::empty().push(Op::Add(-1)))).push(Op::Add(1)).push(Op::Move(-1)).push(Op::Move(-1)).push(Op::Loop(Seq::<Op>::empty().push(Op::Add(-1))))
}

/// What the loop of `once_10_body` leaves: the state as it was where there is zero
/// under the head, and else the state after one round.
pub open spec fn once_10(state: State) -> State {
    if state.cell() == 0 {
        state
    } else {
        state.moved(1).moved(1).write(0).added(1).moved(-1).moved(-1).write(0)
    }
}

/// The loop of `once_10_body` does what `once_10` says.
pub proof fn lemma_once_10(state: State, limit: nat)
    requires
        limit >= 256,
    ensures
        run_loop(once_10_body(), state, limit) == Some(once_10(state)),
{
    let inner: nat = 255;
    let p0 = Seq::<Op>::empty();
    let s0 = state;
    let p1 = p0.push(Op::Move(1));
    let s1 = s0.moved(1);
    lemma_run_push(p0, Op::Move(1), state, inner);
    assert(run(p1, state, inner) == Some(s1));
    let p2 = p1.push(Op::Move(1));
    let s2 = s1.moved(1);
    lemma_run_push(p1, Op::Move(1), state, inner);
    assert(run(p2, state, inner) == Some(s2));
    let p3 = p2.push(Op::Loop(Seq::<Op>::empty().push(Op::Add(-1))));
    lemma_clear(s2, inner);
    let s3 = s2.write(0);
    lemma_run_push(p2, Op::Loop(Seq::<Op>::empty().push(Op::Add(-1))), state, inner);
    assert(run(p3, state, inner) == Some(s3));
    let p4 = p3.push(Op::Add(1));
    let s4 = s3.added(1);
    lemma_run_push(p3, Op::Add(1), state, inner);
    assert(run(p4, state, inner) == Some(s4));
    let p5 = p4.push(Op::Move(-1));
    let s5 = s4.moved(-1);
    lemma_run_push(p4, Op::Move(-1), state, inner);
    assert(run(p5, state, inner) == Some(s5));
    let p6 = p5.push(Op::Move(-1));
    let s6 = s5.moved(-1);
    lemma_run_push(p5, Op::Move(-1), state, inner);
    assert(run(p6, state, inner) == Some(s6));
    let p7 = p6.push(Op::Loop(Seq::<Op>::empty().push(Op::Add(-1))));
    lemma_clear(s6, inner);
    let s7 = s6.write(0);
    lemma_run_push(p6, Op::Loop(Seq::<Op>::empty().push(Op::Add(-1))), state, inner);
    assert(run(p7, state, inner) == Some(s7));
    assert(run(once_10_body(), state, inner) == Some(state.moved(1).moved(1).write(0).added(1).moved(-1).moved(-1).write(0)));
    lemma_loop_once(once_10_body(), state, limit, inner);
}

/// The state after the code of `or`.
pub open spec fn or_effect(state: State) -> State {
    transfer_8(once_10(once_9(state.moved(1).write(0).moved(-1)).moved(-1)).moved(1).moved(1)).moved(-1)
}

/// The operations of `or_ops` do what `or_effect` says.
pub proof fn lemma_or_effect(state: State, limit: nat)
    requires
        limit >= 256,
    ensures
        run(or_ops(), state, limit) == Some(or_effect(state)),
{
    let p0 = Seq::<Op>::empty();
    let s0 = state;
    let p1 = p0.push(Op::Move(1));
    let s1 = s0.moved(1);
    lemma_run_push(p0, Op::Move(1), state, limit);
    assert(run(p1, state, limit) == Some(s1));
    let p2 = p1.push(Op::Loop(Seq::<Op>::empty().push(Op::Add(-1))));
    lemma_clear(s1, limit);
    let s2 = s1.write(0);
    lemma_run_push(p1, Op::Loop(Seq::<Op>::empty().push(Op::Add(-1))), state, limit);
    assert(run(p2, state, limit) == Some(s2));
    let p3 = p2.push(Op::Move(-1));
    let s3 = s2.moved(-1);
    lemma_run_push(p2, Op::Move(-1), state, limit);
    assert(run(p3, state, limit) == Some(s3));
    let p4 = p3.push(Op::Loop(Seq::<Op>::empty().push(Op::Move(1)).push(Op::Add(1)).push(Op::Move(-1)).push(Op::Loop(Seq::<Op>::empty().push(Op::Add(-1))))));
    lemma_once_9(s3, limit);
    let s4 = once_9(s3);
    lemma_run_push(p3, Op::Loop(Seq::<Op>::empty().push(Op::Move(1)).push(Op::Add(1)).push(Op::Move(-1)).push(Op::Loop(Seq::<Op>::empty().push(Op::Add(-1))))), state, limit);
    assert(run(p4, state, limit) == Some(s4));
    let p5 = p4.push(Op::Move(-1));
    let s5 = s4.moved(-1);
    lemma_run_push(p4, Op::Move(-1), state, limit);
    assert(run(p5, state, limit) == Some(s5));
    let p6 = p5.push(Op::Loop(Seq::<Op>::empty().push(Op::Move(1)).push(Op::Move(1)).push(Op::Loop(Seq::<Op>::empty().push(Op::Add(-1)))).push(Op::Add(1)).push(Op::Move(-1)).push(Op::Move(-1)).push(Op::Loop(Seq::<Op>::empty().push(Op::Add(-1))))));
    lemma_once_10(s5, limit);
    let s6 = once_10(s5);
    lemma_run_push(p5, Op::Loop(Seq::<Op>::empty().push(Op::Move(1)).push(Op::Move(1)).push(Op::Loop(Seq::<Op>::empty().push(Op::Add(-1)))).push(Op::Add(1)).push(Op::Move(-1)).push(Op::Move(-1)).push(Op::Loop(Seq::<Op>::empty().push(Op::Add(-1))))), state, limit);
    assert(run(p6, state, limit) == Some(s6));
    let p7 = p6.push(Op::Move(1));
    let s7 = s6.moved(1);
    lemma_run_push(p6, Op::Move(1), state, limit);
    assert(run(p7, state, limit) == Some(s7));
    let p8 = p7.push(Op::Move(1));
    let s8 = s7.moved(1);
    lemma_run_push(p7, Op::Move(1), state, limit);
    assert(run(p8, state, limit) == Some(s8));
    let p9 = p8.push(Op::Loop(Seq::<Op>::empty().push(Op::Add(-1)).push(Op::Move(-1)).push(Op::Move(-1)).push(Op::Add(1)).push(Op::Move(1)).push(Op::Move(1))));
    lemma_transfer_8(s8, limit);
    let s9 = transfer_8(s8);
    lemma_run_push(p8, Op::Loop(Seq::<Op>::empty().push(Op::Add(-1)).push(Op::Move(-1)).push(Op::Move(-1)).push(Op::Add(1)).push(Op::Move(1)).push(Op::Move(1))), state, limit);
    assert(run(p9, state, limit) == Some(s9));
    let p10 = p9.push(Op::Move(-1));
    let s10 = s9.moved(-1);
    lemma_run_push(p9, Op::Move(-1), state, limit);
    assert(run(p10, state, limit) == Some(s10));
}

/// The body of a loop that counts the cell under the head down and adds
/// to other cells.
pub open spec fn transfer_11_body() -> Seq<Op> {
    Seq::<Op>::empty().push(Op::Add(-1)).push(Op::Move(1)).push(Op::Add(1)).push(Op::Move(1)).push(Op::Add(1)).push(Op::Move(-1)).push(Op::Move(-1))
}

/// What the loop of `transfer_11_body` leaves: zero under the head, and the sums in the
/// other cells.
pub open spec fn transfer_11(state: State) -> State {
    state.set(state.head + 1, wrap(state.at(state.head + 1) + state.cell())).set(state.head + 2, wrap(state.at(state.head + 2) + state.cell())).set(state.head, 0)
}

/// The loop of `transfer_11_body` does what `transfer_11` says.
pub proof fn lemma_transfer_11(state: State, limit: nat)
    requires
        limit >= 255,
    ensures
        run_loop(transfer_11_body(), state, limit) == Some(transfer_11(state)),
{
    let body = transfer_11_body();
    assert(linear(body));
    assert(shift(body) == 0) by {
        reveal_with_fuel(shift, 9);
    }
    assert(delta(body, 0) == -1) by {
        reveal_with_fuel(shift, 9);
        reveal_with_fuel(delta, 9);
    }
    assert(delta(body, 1) == 1) by {
        reveal_with_fuel(shift, 9);
        reveal_with_fuel(delta, 9);
    }
    assert(delta(body, 2) == 1) by {
        reveal_with_fuel(shift, 9);
        reveal_with_fuel(delta, 9);
    }
    assert forall|k: int| k != 0 && k != 1 && k != 2 implies #[trigger] delta(body, k) == 0 by {
        reveal_with_fuel(shift, 9);
        reveal_with_fuel(delta, 9);
    }
    lemma_counting_loop(body, state, limit);
    let count = state.cell() as int;
    assert(0 * count == 0);
    assert(1 * count == count);
    assert(-1 * count == -count);
    assert forall|i: int| #[trigger] after_counting(state, body).at(i) == transfer_11(state).at(i) by {
        let k = i - state.head;
        if k == 0 {
            assert(delta(body, k) == -1);
        } else if k == 1 {
            assert(delta(body, k) == 1);
        } else if k == 2 {
            assert(delta(body, k) == 1);
        } else {
            assert(delta(body, k) == 0);
        }
    }
    assert(after_counting(state, body) =~= transfer_11(state));
}

/// The body of a loop that runs at most once.
pub open spec fn once_12_body() -> Seq<Op> {
    Seq::<Op>::empty().push(Op::Move(-1)).push(Op::Move(-1)).push(Op::Add(-1)).push(Op::Move(1)).push(Op::Move(1)).push(Op::Loop(Seq::<Op>::empty().push(Op::Add(-1))))
}

/// What the loop of `once_12_body` leaves: the state as it was where there is zero
/// under the head, and else the state after one round.
pub open spec fn once_12(state: State) -> State {
    if state.cell() == 0 {
        state
    } else {
        state.moved(-1).moved(-1).added(-1).moved(1).moved(1).write(0)
    }
}

/// The loop of `once_12_body` does what `once_12` says.
pub proof fn lemma_once_12(state: State, limit: nat)
    requires
        limit >= 256,
    ensures
        run_loop(once_12_body(), state, limit) == Some(once_12(state)),
{
    let inner: nat = 255;
    let p0 = Seq::<Op>::empty();
    let s0 = state;
    let p1 = p0.push(Op::Move(-1));
    let s1 = s0.moved(-1);
    lemma_run_push(p0, Op::Move(-1), state, inner);
    assert(run(p1, state, inner) == Some(s1));
    let p2 = p1.push(Op::Move(-1));
    let s2 = s1.moved(-1);
    lemma_run_push(p1, Op::Move(-1), state, inner);
    assert(run(p2, state, inner) == Some(s2));
    let p3 = p2.push(Op::Add(-1));
    let s3 = s2.added(-1);
    lemma_run_push(p2, Op::Add(-1), state, inner);
    assert(run(p3, state, inner) == Some(s3));
    let p4 = p3.push(Op::Move(1));
    let s4 = s3.moved(1);
    lemma_run_push(p3, Op::Move(1), state, inner);
    assert(run(p4, state, inner) == Some(s4));
    let p5 = p4.push(Op::Move(1));
    let s5 = s4.moved(1);
    lemma_run_push(p4, Op::Move(1), state, inner);
    assert(run(p5, state, inner) == Some(s5));
    let p6 = p5.push(Op::Loop(Seq::<Op>::empty().push(Op::Add(-1))));
    lemma_clear(s5, inner);
    let s6 = s5.write(0);
    lemma_run_push(p5, Op::Loop(Seq::<Op>::empty().push(Op::Add(-1))), state, inner);
    assert(run(p6, state, inner) == Some(s6));
    assert(run(once_12_body(), state, inner) == Some(state.moved(-1).moved(-1).added(-1).moved(1).moved(1).write(0)));
    lemma_loop_once(once_12_body(), state, limit, inner);
}

/// One round of the loop that takes one from the cell right of the head, unless it is zero, for each unit of the cell under the head.
pub open spec fn wear_right_body() -> Seq<Op> {
    Seq::<Op>::empty().push(Op::Add(-1)).push(Op::Move(1)).push(Op::Loop(Seq::<Op>::empty().push(Op::Add(-1)).push(Op::Move(1)).push(Op::Add(1)).push(Op::Move(1)).push(Op::Add(1)).push(Op::Move(-1)).push(Op::Move(-1)))).push(Op::Move(1)).push(Op::Loop(Seq::<Op>::empty().push(Op::Add(-1)).push(Op::Move(-1)).push(Op::Add(1)).push(Op::Move(1)))).push(Op::Move(1)).push(Op::Loop(Seq::<Op>::empty().push(Op::Move(-1)).push(Op::Move(-1)).push(Op::Add(-1)).push(Op::Move(1)).push(Op::Move(1)).push(Op::Loop(Seq::<Op>::empty().push(Op::Add(-1)))))).push(Op::Move(-1)).push(Op::Move(-1)).push(Op::Move(-1))
}

/// The state after one round of `wear_right_body`.
pub open spec fn wear_right_body_effect(state: State) -> State {
    once_12(transfer_1(transfer_11(state.added(-1).moved(1)).moved(1)).moved(1)).moved(-1).moved(-1).moved(-1)
}

/// One round of `wear_right_body` does what `wear_right_body_effect` says.
pub proof fn lemma_wear_right_body(state: State, limit: nat)
    requires
        limit >= 256,
    ensures
        run(wear_right_body(), state, limit) == Some(wear_right_body_effect(state)),
{
    let p0 = Seq::<Op>::empty();
    let s0 = state;
    let p1 = p0.push(Op::Add(-1));
    let s1 = s0.added(-1);
    lemma_run_push(p0, Op::Add(-1), state, limit);
    assert(run(p1, state, limit) == Some(s1));
    let p2 = p1.push(Op::Move(1));
    let s2 = s1.moved(1);
    lemma_run_push(p1, Op::Move(1), state, limit);
    assert(run(p2, state, limit) == Some(s2));
    let p3 = p2.push(Op::Loop(Seq::<Op>::empty().push(Op::Add(-1)).push(Op::Move(1)).push(Op::Add(1)).push(Op::Move(1)).push(Op::Add(1)).push(Op::Move(-1)).push(Op::Move(-1))));
    lemma_transfer_11(s2, limit);
    let s3 = transfer_11(s2);
    lemma_run_push(p2, Op::Loop(Seq::<Op>::empty().push(Op::Add(-1)).push(Op::Move(1)).push(Op::Add(1)).push(Op::Move(1)).push(Op::Add(1)).push(Op::Move(-1)).push(Op::Move(-1))), state, limit);
    assert(run(p3, state, limit) == Some(s3));
    let p4 = p3.push(Op::Move(1));
    let s4 = s3.moved(1);
    lemma_run_push(p3, Op::Move(1), state, limit);
    assert(run(p4, state, limit) == Some(s4));
    let p5 = p4.push(Op::Loop(Seq::<Op>::empty().push(Op::Add(-1)).push(Op::Move(-1)).push(Op::Add(1)).push(Op::Move(1))));
    lemma_transfer_1(s4, limit);
    let s5 = transfer_1(s4);
    lemma_run_push(p4, Op::Loop(Seq::<Op>::empty().push(Op::Add(-1)).push(Op::Move(-1)).push(Op::Add(1)).push(Op::Move(1))), state, limit);
    assert(run(p5, state, limit) == Some(s5));
    let p6 = p5.push(Op::Move(1));
    let s6 = s5.moved(1);
    lemma_run_push(p5, Op::Move(1), state, limit);
    assert(run(p6, state, limit) == Some(s6));
    let p7 = p6.push(Op::Loop(Seq::<Op>::empty().push(Op::Move(-1)).push(Op::Move(-1)).push(Op::Add(-1)).push(Op::Move(1)).push(Op::Move(1)).push(Op::Loop(Seq::<Op>::empty().push(Op::Add(-1))))));
    lemma_once_12(s6, limit);
    let s7 = once_12(s6);
    lemma_run_push(p6, Op::Loop(Seq::<Op>::empty().push(Op::Move(-1)).push(Op::Move(-1)).push(Op::Add(-1)).push(Op::Move(1)).push(Op::Move(1)).push(Op::Loop(Seq::<Op>::empty().push(Op::Add(-1))))), state, limit);
    assert(run(p7, state, limit) == Some(s7));
    let p8 = p7.push(Op::Move(-1));
    let s8 = s7.moved(-1);
    lemma_run_push(p7, Op::Move(-1), state, limit);
    assert(run(p8, state, limit) == Some(s8));
    let p9 = p8.push(Op::Move(-1));
    let s9 = s8.moved(-1);
    lemma_run_push(p8, Op::Move(-1), state, limit);
    assert(run(p9, state, limit) == Some(s9));
    let p10 = p9.push(Op::Move(-1));
    let s10 = s9.moved(-1);
    lemma_run_push(p9, Op::Move(-1), state, limit);
    assert(run(p10, state, limit) == Some(s10));
}

/// The state after the code of `<`.
pub open spec fn less_effect(state: State) -> State {
    once_5(wear_right(state.moved(1).write(0).moved(1).write(0).moved(-1).moved(-1).moved(-1)).moved(1))
}

/// The operations of `less_ops` do what `less_effect` says.
pub proof fn lemma_less_effect(state: State, limit: nat)
    requires
        limit >= 512,
    ensures
        run(less_ops(), state, limit) == Some(less_effect(state)),
{
    let p0 = Seq::<Op>::empty();
    let s0 = state;
    let p1 = p0.push(Op::Move(1));
    let s1 = s0.moved(1);
    lemma_run_push(p0, Op::Move(1), state, limit);
    assert(run(p1, state, limit) == Some(s1));
    let p2 = p1.push(Op::Loop(Seq::<Op>::empty().push(Op::Add(-1))));
    lemma_clear(s1, limit);
    let s2 = s1.write(0);
    lemma_run_push(p1, Op::Loop(Seq::<Op>::empty().push(Op::Add(-1))), state, limit);
    assert(run(p2, state, limit) == Some(s2));
    let p3 = p2.push(Op::Move(1));
    let s3 = s2.moved(1);
    lemma_run_push(p2, Op::Move(1), state, limit);
    assert(run(p3, state, limit) == Some(s3));
    let p4 = p3.push(Op::Loop(Seq::<Op>::empty().push(Op::Add(-1))));
    lemma_clear(s3, limit);
    let s4 = s3.write(0);
    lemma_run_push(p3, Op::Loop(Seq::<Op>::empty().push(Op::Add(-1))), state, limit);
    assert(run(p4, state, limit) == Some(s4));
    let p5 = p4.push(Op::Move(-1));
    let s5 = s4.moved(-1);
    lemma_run_push(p4, Op::Move(-1), state, limit);
    assert(run(p5, state, limit) == Some(s5));
    let p6 = p5.push(Op::Move(-1));
    let s6 = s5.moved(-1);
    lemma_run_push(p5, Op::Move(-1), state, limit);
    assert(run(p6, state, limit) == Some(s6));
    let p7 = p6.push(Op::Move(-1));
    let s7 = s6.moved(-1);
    lemma_run_push(p6, Op::Move(-1), state, limit);
    assert(run(p7, state, limit) == Some(s7));
    let p8 = p7.push(Op::Loop(Seq::<Op>::empty().push(Op::Add(-1)).push(Op::Move(1)).push(Op::Loop(Seq::<Op>::empty().push(Op::Add(-1)).push(Op::Move(1)).push(Op::Add(1)).push(Op::Move(1)).push(Op::Add(1)).push(Op::Move(-1)).push(Op::Move(-1)))).push(Op::Move(1)).push(Op::Loop(Seq::<Op>::empty().push(Op::Add(-1)).push(Op::Move(-1)).push(Op::Add(1)).push(Op::Move(1)))).push(Op::Move(1)).push(Op::Loop(Seq::<Op>::empty().push(Op::Move(-1)).push(Op::Move(-1)).push(Op::Add(-1)).push(Op::Move(1)).push(Op::Move(1)).push(Op::Loop(Seq::<Op>::empty().push(Op::Add(-1)))))).push(Op::Move(-1)).push(Op::Move(-1)).push(Op::Move(-1))));
    lemma_wear_right(s7, limit);
    let s8 = wear_right(s7);
    lemma_run_push(p7, Op::Loop(Seq::<Op>::empty().push(Op::Add(-1)).push(Op::Move(1)).push(Op::Loop(Seq::<Op>::empty().push(Op::Add(-1)).push(Op::Move(1)).push(Op::Add(1)).push(Op::Move(1)).push(Op::Add(1)).push(Op::Move(-1)).push(Op::Move(-1)))).push(Op::Move(1)).push(Op::Loop(Seq::<Op>::empty().push(Op::Add(-1)).push(Op::Move(-1)).push(Op::Add(1)).push(Op::Move(1)))).push(Op::Move(1)).push(Op::Loop(Seq::<Op>::empty().push(Op::Move(-1)).push(Op::Move(-1)).push(Op::Add(-1)).push(Op::Move(1)).push(Op::Move(1)).push(Op::Loop(Seq::<Op>::empty().push(Op::Add(-1)))))).push(Op::Move(-1)).push(Op::Move(-1)).push(Op::Move(-1))), state, limit);
    assert(run(p8, state, limit) == Some(s8));
    let p9 = p8.push(Op::Move(1));
    let s9 = s8.moved(1);
    lemma_run_push(p8, Op::Move(1), state, limit);
    assert(run(p9, state, limit) == Some(s9));
    let p10 = p9.push(Op::Loop(Seq::<Op>::empty().push(Op::Move(-1)).push(Op::Add(1)).push(Op::Move(1)).push(Op::Loop(Seq::<Op>::empty().push(Op::Add(-1))))));
    lemma_once_5(s9, limit);
    let s10 = once_5(s9);
    lemma_run_push(p9, Op::Loop(Seq::<Op>::empty().push(Op::Move(-1)).push(Op::Add(1)).push(Op::Move(1)).push(Op::Loop(Seq::<Op>::empty().push(Op::Add(-1))))), state, limit);
    assert(run(p10, state, limit) == Some(s10));
}

/// The state after the code of `>=`.
pub open spec fn greater_eq_effect(state: State) -> State {
    once_4(wear_right(state.moved(1).write(0).moved(1).write(0).moved(-1).moved(-1).moved(-1)).added(1).moved(1))
}

/// The operations of `greater_eq_ops` do what `greater_eq_effect` says.
pub proof fn lemma_greater_eq_effect(state: State, limit: nat)
    requires
        limit >= 512,
    ensures
        run(greater_eq_ops(), state, limit) == Some(greater_eq_effect(state)),
{
    let p0 = Seq::<Op>::empty();
    let s0 = state;
    let p1 = p0.push(Op::Move(1));
    let s1 = s0.moved(1);
    lemma_run_push(p0, Op::Move(1), state, limit);
    assert(run(p1, state, limit) == Some(s1));
    let p2 = p1.push(Op::Loop(Seq::<Op>::empty().push(Op::Add(-1))));
    lemma_clear(s1, limit);
    let s2 = s1.write(0);
    lemma_run_push(p1, Op::Loop(Seq::<Op>::empty().push(Op::Add(-1))), state, limit);
    assert(run(p2, state, limit) == Some(s2));
    let p3 = p2.push(Op::Move(1));
    let s3 = s2.moved(1);
    lemma_run_push(p2, Op::Move(1), state, limit);
    assert(run(p3, state, limit) == Some(s3));
    let p4 = p3.push(Op::Loop(Seq::<Op>::empty().push(Op::Add(-1))));
    lemma_clear(s3, limit);
    let s4 = s3.write(0);
    lemma_run_push(p3, Op::Loop(Seq::<Op>::empty().push(Op::Add(-1))), state, limit);
    assert(run(p4, state, limit) == Some(s4));
    let p5 = p4.push(Op::Move(-1));
    let s5 = s4.moved(-1);
    lemma_run_push(p4, Op::Move(-1), state, limit);
    assert(run(p5, state, limit) == Some(s5));
    let p6 = p5.push(Op::Move(-1));
    let s6 = s5.moved(-1);
    lemma_run_push(p5, Op::Move(-1), state, limit);
    assert(run(p6, state, limit) == Some(s6));
    let p7 = p6.push(Op::Move(-1));
    let s7 = s6.moved(-1);
    lemma_run_push(p6, Op::Move(-1), state, limit);
    assert(run(p7, state, limit) == Some(s7));
    let p8 = p7.push(Op::Loop(Seq::<Op>::empty().push(Op::Add(-1)).push(Op::Move(1)).push(Op::Loop(Seq::<Op>::empty().push(Op::Add(-1)).push(Op::Move(1)).push(Op::Add(1)).push(Op::Move(1)).push(Op::Add(1)).push(Op::Move(-1)).push(Op::Move(-1)))).push(Op::Move(1)).push(Op::Loop(Seq::<Op>::empty().push(Op::Add(-1)).push(Op::Move(-1)).push(Op::Add(1)).push(Op::Move(1)))).push(Op::Move(1)).push(Op::Loop(Seq::<Op>::empty().push(Op::Move(-1)).push(Op::Move(-1)).push(Op::Add(-1)).push(Op::Move(1)).push(Op::Move(1)).push(Op::Loop(Seq::<Op>::empty().push(Op::Add(-1)))))).push(Op::Move(-1)).push(Op::Move(-1)).push(Op::Move(-1))));
    lemma_wear_right(s7, limit);
    let s8 = wear_right(s7);
    lemma_run_push(p7, Op::Loop(Seq::<Op>::empty().push(Op::Add(-1)).push(Op::Move(1)).push(Op::Loop(Seq::<Op>::empty().push(Op::Add(-1)).push(Op::Move(1)).push(Op::Add(1)).push(Op::Move(1)).push(Op::Add(1)).push(Op::Move(-1)).push(Op::Move(-1)))).push(Op::Move(1)).push(Op::Loop(Seq::<Op>::empty().push(Op::Add(-1)).push(Op::Move(-1)).push(Op::Add(1)).push(Op::Move(1)))).push(Op::Move(1)).push(Op::Loop(Seq::<Op>::empty().push(Op::Move(-1)).push(Op::Move(-1)).push(Op::Add(-1)).push(Op::Move(1)).push(Op::Move(1)).push(Op::Loop(Seq::<Op>::empty().push(Op::Add(-1)))))).push(Op::Move(-1)).push(Op::Move(-1)).push(Op::Move(-1))), state, limit);
    assert(run(p8, state, limit) == Some(s8));
    let p9 = p8.push(Op::Add(1));
    let s9 = s8.added(1);
    lemma_run_push(p8, Op::Add(1), state, limit);
    assert(run(p9, state, limit) == Some(s9));
    let p10 = p9.push(Op::Move(1));
    let s10 = s9.moved(1);
    lemma_run_push(p9, Op::Move(1), state, limit);
    assert(run(p10, state, limit) == Some(s10));
    let p11 = p10.push(Op::Loop(Seq::<Op>::empty().push(Op::Move(-1)).push(Op::Add(-1)).push(Op::Move(1)).push(Op::Loop(Seq::<Op>::empty().push(Op::Add(-1))))));
    lemma_once_4(s10, limit);
    let s11 = once_4(s10);
    lemma_run_push(p10, Op::Loop(Seq::<Op>::empty().push(Op::Move(-1)).push(Op::Add(-1)).push(Op::Move(1)).push(Op::Loop(Seq::<Op>::empty().push(Op::Add(-1))))), state, limit);
    assert(run(p11, state, limit) == Some(s11));
}

/// The body of a loop that counts the cell under the head down and adds
/// to other cells.
pub open spec fn transfer_13_body() -> Seq<Op> {
    Seq::<Op>::empty().push(Op::Add(-1)).push(Op::Move(1)).push(Op::Move(1)).push(Op::Add(1)).push(Op::Move(1)).push(Op::Add(1)).push(Op::Move(-1)).push(Op::Move(-1)).push(Op::Move(-1))
}

/// What the loop of `transfer_13_body` leaves: zero under the head, and the sums in the
/// other cells.
pub open spec fn transfer_13(state: State) -> State {
    state.set(state.head + 2, wrap(state.at(state.head + 2) + state.cell())).set(state.head + 3, wrap(state.at(state.head + 3) + state.cell())).set(state.head, 0)
}

/// The loop of `transfer_13_body` does what `transfer_13` says.
pub proof fn lemma_transfer_13(state: State, limit: nat)
    requires
        limit >= 255,
    ensures
        run_loop(transfer_13_body(), state, limit) == Some(transfer_13(state)),
{
    let body = transfer_13_body();
    assert(linear(body));
    assert(shift(body) == 0) by {
        reveal_with_fuel(shift, 11);
    }
    assert(delta(body, 0) == -1) by {
        reveal_with_fuel(shift, 11);
        reveal_with_fuel(delta, 11);
    }
    assert(delta(body, 2) == 1) by {
        reveal_with_fuel(shift, 11);
        reveal_with_fuel(delta, 11);
    }
    assert(delta(body, 3) == 1) by {
        reveal_with_fuel(shift, 11);
        reveal_with_fuel(delta, 11);
    }
    assert forall|k: int| k != 0 && k != 2 && k != 3 implies #[trigger] delta(body, k) == 0 by {
        reveal_with_fuel(shift, 11);
        reveal_with_fuel(delta, 11);
    }
    lemma_counting_loop(body, state, limit);
    let count = state.cell() as int;
    assert(0 * count == 0);
    assert(1 * count == count);
    assert(-1 * count == -count);
    assert forall|i: int| #[trigger] after_counting(state, body).at(i) == transfer_13(state).at(i) by {
        let k = i - state.head;
        if k == 0 {
            assert(delta(body, k) == -1);
        } else if k == 2 {
            assert(delta(body, k) == 1);
        } else if k == 3 {
            assert(delta(body, k) == 1);
        } else {
            assert(delta(body, k) == 0);
        }
    }
    assert(after_counting(state, body) =~= transfer_13(state));
}

/// The body of a loop that runs at most once.
pub open spec fn once_14_body() -> Seq<Op> {
    Seq::<Op>::empty().push(Op::Move(-1)).push(Op::Move(-1)).push(Op::Move(-1)).push(Op::Add(-1)).push(Op::Move(1)).push(Op::Move(1)).push(Op::Move(1)).push(Op::Loop(Seq::<Op>::empty().push(Op::Add(-1))))
}

/// What the loop of `once_14_body` leaves: the state as it was where there is zero
/// under the head, and else the state after one round.
pub open spec fn once_14(state: State) -> State {
    if state.cell() == 0 {
        state
    } else {
        state.moved(-1).moved(-1).moved(-1).added(-1).moved(1).moved(1).moved(1).write(0)
    }
}

/// The loop of `once_14_body` does what `once_14` says.
pub proof fn lemma_once_14(state: State, limit: nat)
    requires
        limit >= 256,
    ensures
        run_loop(once_14_body(), state, limit) == Some(once_14(state)),
{
    let inner: nat = 255;
    let p0 = Seq::<Op>::empty();
    let s0 = state;
    let p1 = p0.push(Op::Move(-1));
    let s1 = s0.moved(-1);
    lemma_run_push(p0, Op::Move(-1), state, inner);
    assert(run(p1, state, inner) == Some(s1));
    let p2 = p1.push(Op::Move(-1));
    let s2 = s1.moved(-1);
    lemma_run_push(p1, Op::Move(-1), state, inner);
    assert(run(p2, state, inner) == Some(s2));
    let p3 = p2.push(Op::Move(-1));
    let s3 = s2.moved(-1);
    lemma_run_push(p2, Op::Move(-1), state, inner);
    assert(run(p3, state, inner) == Some(s3));
    let p4 = p3.push(Op::Add(-1));
    let s4 = s3.added(-1);
    lemma_run_push(p3, Op::Add(-1), state, inner);
    assert(run(p4, state, inner) == Some(s4));
    let p5 = p4.push(Op::Move(1));
    let s5 = s4.moved(1);
    lemma_run_push(p4, Op::Move(1), state, inner);
    assert(run(p5, state, inner) == Some(s5));
    let p6 = p5.push(Op::Move(1));
    let s6 = s5.moved(1);
    lemma_run_push(p5, Op::Move(1), state, inner);
    assert(run(p6, state, inner) == Some(s6));
    let p7 = p6.push(Op::Move(1));
    let s7 = s6.moved(1);
    lemma_run_push(p6, Op::Move(1), state, inner);
    assert(run(p7, state, inner) == Some(s7));
    let p8 = p7.push(Op::Loop(Seq::<Op>::empty().push(Op::Add(-1))));
    lemma_clear(s7, inner);
    let s8 = s7.write(0);
    lemma_run_push(p7, Op::Loop(Seq::<Op>::empty().push(Op::Add(-1))), state, inner);
    assert(run(p8, state, inner) == Some(s8));
    assert(run(once_14_body(), state, inner) == Some(state.moved(-1).moved(-1).moved(-1).added(-1).moved(1).moved(1).moved(1).write(0)));
    lemma_loop_once(once_14_body(), state, limit, inner);
}

/// One round of the loop that takes one from the cell left of the head, unless it is zero, for each unit of the cell under the head.
pub open spec fn wear_left_body() -> Seq<Op> {
    Seq::<Op>::empty().push(Op::Add(-1)).push(Op::Move(-1)).push(Op::Loop(Seq::<Op>::empty().push(Op::Add(-1)).push(Op::Move(1)).push(Op::Move(1)).push(Op::Add(1)).push(Op::Move(1)).push(Op::Add(1)).push(Op::Move(-1)).push(Op::Move(-1)).push(Op::Move(-1)))).push(Op::Move(1)).push(Op::Move(1)).push(Op::Loop(Seq::<Op>::empty().push(Op::Add(-1)).push(Op::Move(-1)).push(Op::Move(-1)).push(Op::Add(1)).push(Op::Move(1)).push(Op::Move(1)))).push(Op::Move(1)).push(Op::Loop(Seq::<Op>::empty().push(Op::Move(-1)).push(Op::Move(-1)).push(Op::Move(-1)).push(Op::Add(-1)).push(Op::Move(1)).push(Op::Move(1)).push(Op::Move(1)).push(Op::Loop(Seq::<Op>::empty().push(Op::Add(-1)))))).push(Op::Move(-1)).push(Op::Move(-1))
}

/// The state after one round of `wear_left_body`.
pub open spec fn wear_left_body_effect(state: State) -> State {
    once_14(transfer_8(transfer_13(state.added(-1).moved(-1)).moved(1).moved(1)).moved(1)).moved(-1).moved(-1)
}

/// One round of `wear_left_body` does what `wear_left_body_effect` says.
pub proof fn lemma_wear_left_body(state: State, limit: nat)
    requires
        limit >= 256,
    ensures
        run(wear_left_body(), state, limit) == Some(wear_left_body_effect(state)),
{
    let p0 = Seq::<Op>::empty();
    let s0 = state;
    let p1 = p0.push(Op::Add(-1));
    let s1 = s0.added(-1);
    lemma_run_push(p0, Op::Add(-1), state, limit);
    assert(run(p1, state, limit) == Some(s1));
    let p2 = p1.push(Op::Move(-1));
    let s2 = s1.moved(-1);
    lemma_run_push(p1, Op::Move(-1), state, limit);
    assert(run(p2, state, limit) == Some(s2));
    let p3 = p2.push(Op::Loop(Seq::<Op>::empty().push(Op::Add(-1)).push(Op::Move(1)).push(Op::Move(1)).push(Op::Add(1)).push(Op::Move(1)).push(Op::Add(1)).push(Op::Move(-1)).push(Op::Move(-1)).push(Op::Move(-1))));
    lemma_transfer_13(s2, limit);
    let s3 = transfer_13(s2);
    lemma_run_push(p2, Op::Loop(Seq::<Op>::empty().push(Op::Add(-1)).push(Op::Move(1)).push(Op::Move(1)).push(Op::Add(1)).push(Op::Move(1)).push(Op::Add(1)).push(Op::Move(-1)).push(Op::Move(-1)).push(Op::Move(-1))), state, limit);
    assert(run(p3, state, limit) == Some(s3));
    let p4 = p3.push(Op::Move(1));
    let s4 = s3.moved(1);
    lemma_run_push(p3, Op::Move(1), state, limit);
    assert(run(p4, state, limit) == Some(s4));
    let p5 = p4.push(Op::Move(1));
    let s5 = s4.moved(1);
    lemma_run_push(p4, Op::Move(1), state, limit);
    assert(run(p5, state, limit) == Some(s5));
    let p6 = p5.push(Op::Loop(Seq::<Op>::empty().push(Op::Add(-1)).push(Op::Move(-1)).push(Op::Move(-1)).push(Op::Add(1)).push(Op::Move(1)).push(Op::Move(1))));
    lemma_transfer_8(s5, limit);
    let s6 = transfer_8(s5);
    lemma_run_push(p5, Op::Loop(Seq::<Op>::empty().push(Op::Add(-1)).push(Op::Move(-1)).push(Op::Move(-1)).push(Op::Add(1)).push(Op::Move(1)).push(Op::Move(1))), state, limit);
    assert(run(p6, state, limit) == Some(s6));
    let p7 = p6.push(Op::Move(1));
    let s7 = s6.moved(1);
    lemma_run_push(p6, Op::Move(1), state, limit);
    assert(run(p7, state, limit) == Some(s7));
    let p8 = p7.push(Op::Loop(Seq::<Op>::empty().push(Op::Move(-1)).push(Op::Move(-1)).push(Op::Move(-1)).push(Op::Add(-1)).push(Op::Move(1)).push(Op::Move(1)).push(Op::Move(1)).push(Op::Loop(Seq::<Op>::empty().push(Op::Add(-1))))));
    lemma_once_14(s7, limit);
    let s8 = once_14(s7);
    lemma_run_push(p7, Op::Loop(Seq::<Op>::empty().push(Op::Move(-1)).push(Op::Move(-1)).push(Op::Move(-1)).push(Op::Add(-1)).push(Op::Move(1)).push(Op::Move(1)).push(Op::Move(1)).push(Op::Loop(Seq::<Op>::empty().push(Op::Add(-1))))), state, limit);
    assert(run(p8, state, limit) == Some(s8));
    let p9 = p8.push(Op::Move(-1));
    let s9 = s8.moved(-1);
    lemma_run_push(p8, Op::Move(-1), state, limit);
    assert(run(p9, state, limit) == Some(s9));
    let p10 = p9.push(Op::Move(-1));
    let s10 = s9.moved(-1);
    lemma_run_push(p9, Op::Move(-1), state, limit);
    assert(run(p10, state, limit) == Some(s10));
}

/// The state after the code of `>`.
pub open spec fn greater_effect(state: State) -> State {
    transfer_1(once_9(wear_left(state.moved(1).write(0).moved(1).write(0).moved(-1).moved(-1)).moved(-1)).moved(1))
}

/// The operations of `greater_ops` do what `greater_effect` says.
pub proof fn lemma_greater_effect(state: State, limit: nat)
    requires
        limit >= 512,
    ensures
        run(greater_ops(), state, limit) == Some(greater_effect(state)),
{
    let p0 = Seq::<Op>::empty();
    let s0 = state;
    let p1 = p0.push(Op::Move(1));
    let s1 = s0.moved(1);
    lemma_run_push(p0, Op::Move(1), state, limit);
    assert(run(p1, state, limit) == Some(s1));
    let p2 = p1.push(Op::Loop(Seq::<Op>::empty().push(Op::Add(-1))));
    lemma_clear(s1, limit);
    let s2 = s1.write(0);
    lemma_run_push(p1, Op::Loop(Seq::<Op>::empty().push(Op::Add(-1))), state, limit);
    assert(run(p2, state, limit) == Some(s2));
    let p3 = p2.push(Op::Move(1));
    let s3 = s2.moved(1);
    lemma_run_push(p2, Op::Move(1), state, limit);
    assert(run(p3, state, limit) == Some(s3));
    let p4 = p3.push(Op::Loop(Seq::<Op>::empty().push(Op::Add(-1))));
    lemma_clear(s3, limit);
    let s4 = s3.write(0);
    lemma_run_push(p3, Op::Loop(Seq::<Op>::empty().push(Op::Add(-1))), state, limit);
    assert(run(p4, state, limit) == Some(s4));
    let p5 = p4.push(Op::Move(-1));
    let s5 = s4.moved(-1);
    lemma_run_push(p4, Op::Move(-1), state, limit);
    assert(run(p5, state, limit) == Some(s5));
    let p6 = p5.push(Op::Move(-1));
    let s6 = s5.moved(-1);
    lemma_run_push(p5, Op::Move(-1), state, limit);
    assert(run(p6, state, limit) == Some(s6));
    let p7 = p6.push(Op::Loop(Seq::<Op>::empty().push(Op::Add(-1)).push(Op::Move(-1)).push(Op::Loop(Seq::<Op>::empty().push(Op::Add(-1)).push(Op::Move(1)).push(Op::Move(1)).push(Op::Add(1)).push(Op::Move(1)).push(Op::Add(1)).push(Op::Move(-1)).push(Op::Move(-1)).push(Op::Move(-1)))).push(Op::Move(1)).push(Op::Move(1)).push(Op::Loop(Seq::<Op>::empty().push(Op::Add(-1)).push(Op::Move(-1)).push(Op::Move(-1)).push(Op::Add(1)).push(Op::Move(1)).push(Op::Move(1)))).push(Op::Move(1)).push(Op::Loop(Seq::<Op>::empty().push(Op::Move(-1)).push(Op::Move(-1)).push(Op::Move(-1)).push(Op::Add(-1)).push(Op::Move(1)).push(Op::Move(1)).push(Op::Move(1)).push(Op::Loop(Seq::<Op>::empty().push(Op::Add(-1)))))).push(Op::Move(-1)).push(Op::Move(-1))));
    lemma_wear_left(s6, limit);
    let s7 = wear_left(s6);
    lemma_run_push(p6, Op::Loop(Seq::<Op>::empty().push(Op::Add(-1)).push(Op::Move(-1)).push(Op::Loop(Seq::<Op>::empty().push(Op::Add(-1)).push(Op::Move(1)).push(Op::Move(1)).push(Op::Add(1)).push(Op::Move(1)).push(Op::Add(1)).push(Op::Move(-1)).push(Op::Move(-1)).push(Op::Move(-1)))).push(Op::Move(1)).push(Op::Move(1)).push(Op::Loop(Seq::<Op>::empty().push(Op::Add(-1)).push(Op::Move(-1)).push(Op::Move(-1)).push(Op::Add(1)).push(Op::Move(1)).push(Op::Move(1)))).push(Op::Move(1)).push(Op::Loop(Seq::<Op>::empty().push(Op::Move(-1)).push(Op::Move(-1)).push(Op::Move(-1)).push(Op::Add(-1)).push(Op::Move(1)).push(Op::Move(1)).push(Op::Move(1)).push(Op::Loop(Seq::<Op>::empty().push(Op::Add(-1)))))).push(Op::Move(-1)).push(Op::Move(-1))), state, limit);
    assert(run(p7, state, limit) == Some(s7));
    let p8 = p7.push(Op::Move(-1));
    let s8 = s7.moved(-1);
    lemma_run_push(p7, Op::Move(-1), state, limit);
    assert(run(p8, state, limit) == Some(s8));
    let p9 = p8.push(Op::Loop(Seq::<Op>::empty().push(Op::Move(1)).push(Op::Add(1)).push(Op::Move(-1)).push(Op::Loop(Seq::<Op>::empty().push(Op::Add(-1))))));
    lemma_once_9(s8, limit);
    let s9 = once_9(s8);
    lemma_run_push(p8, Op::Loop(Seq::<Op>::empty().push(Op::Move(1)).push(Op::Add(1)).push(Op::Move(-1)).push(Op::Loop(Seq::<Op>::empty().push(Op::Add(-1))))), state, limit);
    assert(run(p9, state, limit) == Some(s9));
    let p10 = p9.push(Op::Move(1));
    let s10 = s9.moved(1);
    lemma_run_push(p9, Op::Move(1), state, limit);
    assert(run(p10, state, limit) == Some(s10));
    let p11 = p10.push(Op::Loop(Seq::<Op>::empty().push(Op::Add(-1)).push(Op::Move(-1)).push(Op::Add(1)).push(Op::Move(1))));
    lemma_transfer_1(s10, limit);
    let s11 = transfer_1(s10);
    lemma_run_push(p10, Op::Loop(Seq::<Op>::empty().push(Op::Add(-1)).push(Op::Move(-1)).push(Op::Add(1)).push(Op::Move(1))), state, limit);
    assert(run(p11, state, limit) == Some(s11));
}

/// The state after the code of `<=`.
pub open spec fn less_eq_effect(state: State) -> State {
    transfer_2(once_9(wear_left(state.moved(1).write(0).moved(1).write(0).moved(-1).moved(-1)).moved(-1)).added(1).moved(1))
}

/// The operations of `less_eq_ops` do what `less_eq_effect` says.
pub proof fn lemma_less_eq_effect(state: State, limit: nat)
    requires
        limit >= 512,
    ensures
        run(less_eq_ops(), state, limit) == Some(less_eq_effect(state)),
{
    let p0 = Seq::<Op>::empty();
    let s0 = state;
    let p1 = p0.push(Op::Move(1));
    let s1 = s0.moved(1);
    lemma_run_push(p0, Op::Move(1), state, limit);
    assert(run(p1, state, limit) == Some(s1));
    let p2 = p1.push(Op::Loop(Seq::<Op>::empty().push(Op::Add(-1))));
    lemma_clear(s1, limit);
    let s2 = s1.write(0);
    lemma_run_push(p1, Op::Loop(Seq::<Op>::empty().push(Op::Add(-1))), state, limit);
    assert(run(p2, state, limit) == Some(s2));
    let p3 = p2.push(Op::Move(1));
    let s3 = s2.moved(1);
    lemma_run_push(p2, Op::Move(1), state, limit);
    assert(run(p3, state, limit) == Some(s3));
    let p4 = p3.push(Op::Loop(Seq::<Op>::empty().push(Op::Add(-1))));
    lemma_clear(s3, limit);
    let s4 = s3.write(0);
    lemma_run_push(p3, Op::Loop(Seq::<Op>::empty().push(Op::Add(-1))), state, limit);
    assert(run(p4, state, limit) == Some(s4));
    let p5 = p4.push(Op::Move(-1));
    let s5 = s4.moved(-1);
    lemma_run_push(p4, Op::Move(-1), state, limit);
    assert(run(p5, state, limit) == Some(s5));
    let p6 = p5.push(Op::Move(-1));
    let s6 = s5.moved(-1);
    lemma_run_push(p5, Op::Move(-1), state, limit);
    assert(run(p6, state, limit) == Some(s6));
    let p7 = p6.push(Op::Loop(Seq::<Op>::empty().push(Op::Add(-1)).push(Op::Move(-1)).push(Op::Loop(Seq::<Op>::empty().push(Op::Add(-1)).push(Op::Move(1)).push(Op::Move(1)).push(Op::Add(1)).push(Op::Move(1)).push(Op::Add(1)).push(Op::Move(-1)).push(Op::Move(-1)).push(Op::Move(-1)))).push(Op::Move(1)).push(Op::Move(1)).push(Op::Loop(Seq::<Op>::empty().push(Op::Add(-1)).push(Op::Move(-1)).push(Op::Move(-1)).push(Op::Add(1)).push(Op::Move(1)).push(Op::Move(1)))).push(Op::Move(1)).push(Op::Loop(Seq::<Op>::empty().push(Op::Move(-1)).push(Op::Move(-1)).push(Op::Move(-1)).push(Op::Add(-1)).push(Op::Move(1)).push(Op::Move(1)).push(Op::Move(1)).push(Op::Loop(Seq::<Op>::empty().push(Op::Add(-1)))))).push(Op::Move(-1)).push(Op::Move(-1))));
    lemma_wear_left(s6, limit);
    let s7 = wear_left(s6);
    lemma_run_push(p6, Op::Loop(Seq::<Op>::empty().push(Op::Add(-1)).push(Op::Move(-1)).push(Op::Loop(Seq::<Op>::empty().push(Op::Add(-1)).push(Op::Move(1)).push(Op::Move(1)).push(Op::Add(1)).push(Op::Move(1)).push(Op::Add(1)).push(Op::Move(-1)).push(Op::Move(-1)).push(Op::Move(-1)))).push(Op::Move(1)).push(Op::Move(1)).push(Op::Loop(Seq::<Op>::empty().push(Op::Add(-1)).push(Op::Move(-1)).push(Op::Move(-1)).push(Op::Add(1)).push(Op::Move(1)).push(Op::Move(1)))).push(Op::Move(1)).push(Op::Loop(Seq::<Op>::empty().push(Op::Move(-1)).push(Op::Move(-1)).push(Op::Move(-1)).push(Op::Add(-1)).push(Op::Move(1)).push(Op::Move(1)).push(Op::Move(1)).push(Op::Loop(Seq::<Op>::empty().push(Op::Add(-1)))))).push(Op::Move(-1)).push(Op::Move(-1))), state, limit);
    assert(run(p7, state, limit) == Some(s7));
    let p8 = p7.push(Op::Move(-1));
    let s8 = s7.moved(-1);
    lemma_run_push(p7, Op::Move(-1), state, limit);
    assert(run(p8, state, limit) == Some(s8));
    let p9 = p8.push(Op::Loop(Seq::<Op>::empty().push(Op::Move(1)).push(Op::Add(1)).push(Op::Move(-1)).push(Op::Loop(Seq::<Op>::empty().push(Op::Add(-1))))));
    lemma_once_9(s8, limit);
    let s9 = once_9(s8);
    lemma_run_push(p8, Op::Loop(Seq::<Op>::empty().push(Op::Move(1)).push(Op::Add(1)).push(Op::Move(-1)).push(Op::Loop(Seq::<Op>::empty().push(Op::Add(-1))))), state, limit);
    assert(run(p9, state, limit) == Some(s9));
    let p10 = p9.push(Op::Add(1));
    let s10 = s9.added(1);
    lemma_run_push(p9, Op::Add(1), state, limit);
    assert(run(p10, state, limit) == Some(s10));
    let p11 = p10.push(Op::Move(1));
    let s11 = s10.moved(1);
    lemma_run_push(p10, Op::Move(1), state, limit);
    assert(run(p11, state, limit) == Some(s11));
    let p12 = p11.push(Op::Loop(Seq::<Op>::empty().push(Op::Add(-1)).push(Op::Move(-1)).push(Op::Add(-1)).push(Op::Move(1))));
    lemma_transfer_2(s11, limit);
    let s12 = transfer_2(s11);
    lemma_run_push(p11, Op::Loop(Seq::<Op>::empty().push(Op::Add(-1)).push(Op::Move(-1)).push(Op::Add(-1)).push(Op::Move(1))), state, limit);
    assert(run(p12, state, limit) == Some(s12));
}

/// The body of a loop that counts the cell under the head down and adds
/// to other cells.
pub open spec fn transfer_15_body() -> Seq<Op> {
    Seq::<Op>::empty().push(Op::Add(-1)).push(Op::Move(1)).push(Op::Move(1)).push(Op::Add(1)).push(Op::Move(-1)).push(Op::Move(-1))
}

/// What the loop of `transfer_15_body` leaves: zero under the head, and the sums in the
/// other cells.
pub open spec fn transfer_15(state: State) -> State {
    state.set(state.head + 2, wrap(state.at(state.head + 2) + state.cell())).set(state.head, 0)
}

/// The loop of `transfer_15_body` does what `transfer_15` says.
pub proof fn lemma_transfer_15(state: State, limit: nat)
    requires
        limit >= 255,
    ensures
        run_loop(transfer_15_body(), state, limit) == Some(transfer_15(state)),
{
    let body = transfer_15_body();
    assert(linear(body));
    assert(shift(body) == 0) by {
        reveal_with_fuel(shift, 8);
    }
    assert(delta(body, 0) == -1) by {
        reveal_with_fuel(shift, 8);
        reveal_with_fuel(delta, 8);
    }
    assert(delta(body, 2) == 1) by {
        reveal_with_fuel(shift, 8);
        reveal_with_fuel(delta, 8);
    }
    assert forall|k: int| k != 0 && k != 2 implies #[trigger] delta(body, k) == 0 by {
        reveal_with_fuel(shift, 8);
        reveal_with_fuel(delta, 8);
    }
    lemma_counting_loop(body, state, limit);
    let count = state.cell() as int;
    assert(0 * count == 0);
    assert(1 * count == count);
    assert(-1 * count == -count);
    assert forall|i: int| #[trigger] after_counting(state, body).at(i) == transfer_15(state).at(i) by {
        let k = i - state.head;
        if k == 0 {
            assert(delta(body, k) == -1);
        } else if k == 2 {
            assert(delta(body, k) == 1);
        } else {
            assert(delta(body, k) == 0);
        }
    }
    assert(after_counting(state, body) =~= transfer_15(state));
}

/// The body of a loop that counts the cell under the head down and adds
/// to other cells.
pub open spec fn transfer_16_body() -> Seq<Op> {
    Seq::<Op>::empty().push(Op::Add(-1)).push(Op::Move(1)).push(Op::Add(1)).push(Op::Move(-1)).push(Op::Move(-1)).push(Op::Move(-1)).push(Op::Add(1)).push(Op::Move(1)).push(Op::Move(1))
}

/// What the loop of `transfer_16_body` leaves: zero under the head, and the sums in the
/// other cells.
pub open spec fn transfer_16(state: State) -> State {
    state.set(state.head - 2, wrap(state.at(state.head - 2) + state.cell())).set(state.head + 1, wrap(state.at(state.head + 1) + state.cell())).set(state.head, 0)
}

/// The loop of `transfer_16_body` does what `transfer_16` says.
pub proof fn lemma_transfer_16(state: State, limit: nat)
    requires
        limit >= 255,
    ensures
        run_loop(transfer_16_body(), state, limit) == Some(transfer_16(state)),
{
    let body = transfer_16_body();
    assert(linear(body));
    assert(shift(body) == 0) by {
        reveal_with_fuel(shift, 11);
    }
    assert(delta(body, -2) == 1) by {
        reveal_with_fuel(shift, 11);
        reveal_with_fuel(delta, 11);
    }
    assert(delta(body, 0) == -1) by {
        reveal_with_fuel(shift, 11);
        reveal_with_fuel(delta, 11);
    }
    assert(delta(body, 1) == 1) by {
        reveal_with_fuel(shift, 11);
        reveal_with_fuel(delta, 11);
    }
    assert forall|k: int| k != -2 && k != 0 && k != 1 implies #[trigger] delta(body, k) == 0 by {
        reveal_with_fuel(shift, 11);
        reveal_with_fuel(delta, 11);
    }
    lemma_counting_loop(body, state, limit);
    let count = state.cell() as int;
    assert(0 * count == 0);
    assert(1 * count == count);
    assert(-1 * count == -count);
    assert forall|i: int| #[trigger] after_counting(state, body).at(i) == transfer_16(state).at(i) by {
        let k = i - state.head;
        if k == -2 {
            assert(delta(body, k) == 1);
        } else if k == 0 {
            assert(delta(body, k) == -1);
        } else if k == 1 {
            assert(delta(body, k) == 1);
        } else {
            assert(delta(body, k) == 0);
        }
    }
    assert(after_counting(state, body) =~= transfer_16(state));
}

/// One round of the loop that adds the cell right of the head to the cell left of it for each unit of the cell under the head.
pub open spec fn multiply_body() -> Seq<Op> {
    Seq::<Op>::empty().push(Op::Add(-1)).push(Op::Move(1)).push(Op::Loop(Seq::<Op>::empty().push(Op::Add(-1)).push(Op::Move(1)).push(Op::Add(1)).push(Op::Move(-1)).push(Op::Move(-1)).push(Op::Move(-1)).push(Op::Add(1)).push(Op::Move(1)).push(Op::Move(1)))).push(Op::Move(1)).push(Op::Loop(Seq::<Op>::empty().push(Op::Add(-1)).push(Op::Move(-1)).push(Op::Add(1)).push(Op::Move(1)))).push(Op::Move(-1)).push(Op::Move(-1))
}

/// The state after one round of `multiply_body`.
pub open spec fn multiply_body_effect(state: State) -> State {
    transfer_1(transfer_16(state.added(-1).moved(1)).moved(1)).moved(-1).moved(-1)
}

/// One round of `multiply_body` does what `multiply_body_effect` says.
pub proof fn lemma_multiply_body(state: State, limit: nat)
    requires
        limit >= 255,
    ensures
        run(multiply_body(), state, limit) == Some(multiply_body_effect(state)),
{
    let p0 = Seq::<Op>::empty();
    let s0 = state;
    let p1 = p0.push(Op::Add(-1));
    let s1 = s0.added(-1);
    lemma_run_push(p0, Op::Add(-1), state, limit);
    assert(run(p1, state, limit) == Some(s1));
    let p2 = p1.push(Op::Move(1));
    let s2 = s1.moved(1);
    lemma_run_push(p1, Op::Move(1), state, limit);
    assert(run(p2, state, limit) == Some(s2));
    let p3 = p2.push(Op::Loop(Seq::<Op>::empty().push(Op::Add(-1)).push(Op::Move(1)).push(Op::Add(1)).push(Op::Move(-1)).push(Op::Move(-1)).push(Op::Move(-1)).push(Op::Add(1)).push(Op::Move(1)).push(Op::Move(1))));
    lemma_transfer_16(s2, limit);
    let s3 = transfer_16(s2);
    lemma_run_push(p2, Op::Loop(Seq::<Op>::empty().push(Op::Add(-1)).push(Op::Move(1)).push(Op::Add(1)).push(Op::Move(-1)).push(Op::Move(-1)).push(Op::Move(-1)).push(Op::Add(1)).push(Op::Move(1)).push(Op::Move(1))), state, limit);
    assert(run(p3, state, limit) == Some(s3));
    let p4 = p3.push(Op::Move(1));
    let s4 = s3.moved(1);
    lemma_run_push(p3, Op::Move(1), state, limit);
    assert(run(p4, state, limit) == Some(s4));
    let p5 = p4.push(Op::Loop(Seq::<Op>::empty().push(Op::Add(-1)).push(Op::Move(-1)).push(Op::Add(1)).push(Op::Move(1))));
    lemma_transfer_1(s4, limit);
    let s5 = transfer_1(s4);
    lemma_run_push(p4, Op::Loop(Seq::<Op>::empty().push(Op::Add(-1)).push(Op::Move(-1)).push(Op::Add(1)).push(Op::Move(1))), state, limit);
    assert(run(p5, state, limit) == Some(s5));
    let p6 = p5.push(Op::Move(-1));
    let s6 = s5.moved(-1);
    lemma_run_push(p5, Op::Move(-1), state, limit);
    assert(run(p6, state, limit) == Some(s6));
    let p7 = p6.push(Op::Move(-1));
    let s7 = s6.moved(-1);
    lemma_run_push(p6, Op::Move(-1), state, limit);
    assert(run(p7, state, limit) == Some(s7));
}

/// The state after the code of `*`.
pub open spec fn star_effect(state: State) -> State {
    multiply(transfer_15(state.moved(1).write(0).moved(1).write(0).moved(-1).moved(-1).moved(-1)).moved(1)).moved(1).write(0).moved(-1)
}

/// The operations of `star_ops` do what `star_effect` says.
pub proof fn lemma_star_effect(state: State, limit: nat)
    requires
        limit >= 512,
    ensures
        run(star_ops(), state, limit) == Some(star_effect(state)),
{
    let p0 = Seq::<Op>::empty();
    let s0 = state;
    let p1 = p0.push(Op::Move(1));
    let s1 = s0.moved(1);
    lemma_run_push(p0, Op::Move(1), state, limit);
    assert(run(p1, state, limit) == Some(s1));
    let p2 = p1.push(Op::Loop(Seq::<Op>::empty().push(Op::Add(-1))));
    lemma_clear(s1, limit);
    let s2 = s1.write(0);
    lemma_run_push(p1, Op::Loop(Seq::<Op>::empty().push(Op::Add(-1))), state, limit);
    assert(run(p2, state, limit) == Some(s2));
    let p3 = p2.push(Op::Move(1));
    let s3 = s2.moved(1);
    lemma_run_push(p2, Op::Move(1), state, limit);
    assert(run(p3, state, limit) == Some(s3));
    let p4 = p3.push(Op::Loop(Seq::<Op>::empty().push(Op::Add(-1))));
    lemma_clear(s3, limit);
    let s4 = s3.write(0);
    lemma_run_push(p3, Op::Loop(Seq::<Op>::empty().push(Op::Add(-1))), state, limit);
    assert(run(p4, state, limit) == Some(s4));
    let p5 = p4.push(Op::Move(-1));
    let s5 = s4.moved(-1);
    lemma_run_push(p4, Op::Move(-1), state, limit);
    assert(run(p5, state, limit) == Some(s5));
    let p6 = p5.push(Op::Move(-1));
    let s6 = s5.moved(-1);
    lemma_run_push(p5, Op::Move(-1), state, limit);
    assert(run(p6, state, limit) == Some(s6));
    let p7 = p6.push(Op::Move(-1));
    let s7 = s6.moved(-1);
    lemma_run_push(p6, Op::Move(-1), state, limit);
    assert(run(p7, state, limit) == Some(s7));
    let p8 = p7.push(Op::Loop(Seq::<Op>::empty().push(Op::Add(-1)).push(Op::Move(1)).push(Op::Move(1)).push(Op::Add(1)).push(Op::Move(-1)).push(Op::Move(-1))));
    lemma_transfer_15(s7, limit);
    let s8 = transfer_15(s7);
    lemma_run_push(p7, Op::Loop(Seq::<Op>::empty().push(Op::Add(-1)).push(Op::Move(1)).push(Op::Move(1)).push(Op::Add(1)).push(Op::Move(-1)).push(Op::Move(-1))), state, limit);
    assert(run(p8, state, limit) == Some(s8));
    let p9 = p8.push(Op::Move(1));
    let s9 = s8.moved(1);
    lemma_run_push(p8, Op::Move(1), state, limit);
    assert(run(p9, state, limit) == Some(s9));
    let p10 = p9.push(Op::Loop(Seq::<Op>::empty().push(Op::Add(-1)).push(Op::Move(1)).push(Op::Loop(Seq::<Op>::empty().push(Op::Add(-1)).push(Op::Move(1)).push(Op::Add(1)).push(Op::Move(-1)).push(Op::Move(-1)).push(Op::Move(-1)).push(Op::Add(1)).push(Op::Move(1)).push(Op::Move(1)))).push(Op::Move(1)).push(Op::Loop(Seq::<Op>::empty().push(Op::Add(-1)).push(Op::Move(-1)).push(Op::Add(1)).push(Op::Move(1)))).push(Op::Move(-1)).push(Op::Move(-1))));
    lemma_multiply(s9, limit);
    let s10 = multiply(s9);
    lemma_run_push(p9, Op::Loop(Seq::<Op>::empty().push(Op::Add(-1)).push(Op::Move(1)).push(Op::Loop(Seq::<Op>::empty().push(Op::Add(-1)).push(Op::Move(1)).push(Op::Add(1)).push(Op::Move(-1)).push(Op::Move(-1)).push(Op::Move(-1)).push(Op::Add(1)).push(Op::Move(1)).push(Op::Move(1)))).push(Op::Move(1)).push(Op::Loop(Seq::<Op>::empty().push(Op::Add(-1)).push(Op::Move(-1)).push(Op::Add(1)).push(Op::Move(1)))).push(Op::Move(-1)).push(Op::Move(-1))), state, limit);
    assert(run(p10, state, limit) == Some(s10));
    let p11 = p10.push(Op::Move(1));
    let s11 = s10.moved(1);
    lemma_run_push(p10, Op::Move(1), state, limit);
    assert(run(p11, state, limit) == Some(s11));
    let p12 = p11.push(Op::Loop(Seq::<Op>::empty().push(Op::Add(-1))));
    lemma_clear(s11, limit);
    let s12 = s11.write(0);
    lemma_run_push(p11, Op::Loop(Seq::<Op>::empty().push(Op::Add(-1))), state, limit);
    assert(run(p12, state, limit) == Some(s12));
    let p13 = p12.push(Op::Move(-1));
    let s13 = s12.moved(-1);
    lemma_run_push(p12, Op::Move(-1), state, limit);
    assert(run(p13, state, limit) == Some(s13));
}

/// The body of a loop that runs at most once and ends on another cell.
pub open spec fn jump_17_body() -> Seq<Op> {
    Seq::<Op>::empty().push(Op::Move(1)).push(Op::Add(1)).push(Op::Move(1)).push(Op::Move(1))
}

/// What the loop of `jump_17_body` leaves where the cell on which a round ends is
/// zero: the state as it was where there is zero under the head, and else
/// the state after one round.
pub open spec fn jump_17(state: State) -> State {
    if state.cell() == 0 {
        state
    } else {
        state.moved(1).added(1).moved(1).moved(1)
    }
}

/// The loop of `jump_17_body` does what `jump_17` says.
pub proof fn lemma_jump_17(state: State, limit: nat)
    requires
        limit >= 1,
        state.cell() != 0 ==> state.at(state.head + 3) == 0,
    ensures
        run_loop(jump_17_body(), state, limit) == Some(jump_17(state)),
{
    let inner: nat = 0;
    let p0 = Seq::<Op>::empty();
    let s0 = state;
    let p1 = p0.push(Op::Move(1));
    let s1 = s0.moved(1);
    lemma_run_push(p0, Op::Move(1), state, inner);
    assert(run(p1, state, inner) == Some(s1));
    let p2 = p1.push(Op::Add(1));
    let s2 = s1.added(1);
    lemma_run_push(p1, Op::Add(1), state, inner);
    assert(run(p2, state, inner) == Some(s2));
    let p3 = p2.push(Op::Move(1));
    let s3 = s2.moved(1);
    lemma_run_push(p2, Op::Move(1), state, inner);
    assert(run(p3, state, inner) == Some(s3));
    let p4 = p3.push(Op::Move(1));
    let s4 = s3.moved(1);
    lemma_run_push(p3, Op::Move(1), state, inner);
    assert(run(p4, state, inner) == Some(s4));
    assert(run(jump_17_body(), state, inner) == Some(state.moved(1).added(1).moved(1).moved(1)));
    lemma_loop_once(jump_17_body(), state, limit, inner);
}

/// The body of a loop that runs at most once and ends on another cell.
pub open spec fn jump_18_body() -> Seq<Op> {
    Seq::<Op>::empty().push(Op::Loop(Seq::<Op>::empty().push(Op::Add(-1)).push(Op::Move(-1)).push(Op::Add(1)).push(Op::Move(1)))).push(Op::Add(1)).push(Op::Move(1)).push(Op::Add(1)).push(Op::Move(1)).push(Op::Move(1))
}

/// What the loop of `jump_18_body` leaves where the cell on which a round ends is
/// zero: the state as it was where there is zero under the head, and else
/// the state after one round.
pub open spec fn jump_18(state: State) -> State {
    if state.cell() == 0 {
        state
    } else {
        transfer_1(state).added(1).moved(1).added(1).moved(1).moved(1)
    }
}

/// The loop of `jump_18_body` does what `jump_18` says.
pub proof fn lemma_jump_18(state: State, limit: nat)
    requires
        limit >= 256,
        state.cell() != 0 ==> state.at(state.head + 3) == 0,
    ensures
        run_loop(jump_18_body(), state, limit) == Some(jump_18(state)),
{
    let inner: nat = 255;
    let p0 = Seq::<Op>::empty();
    let s0 = state;
    let p1 = p0.push(Op::Loop(Seq::<Op>::empty().push(Op::Add(-1)).push(Op::Move(-1)).push(Op::Add(1)).push(Op::Move(1))));
    lemma_transfer_1(s0, inner);
    let s1 = transfer_1(s0);
    lemma_run_push(p0, Op::Loop(Seq::<Op>::empty().push(Op::Add(-1)).push(Op::Move(-1)).push(Op::Add(1)).push(Op::Move(1))), state, inner);
    assert(run(p1, state, inner) == Some(s1));
    let p2 = p1.push(Op::Add(1));
    let s2 = s1.added(1);
    lemma_run_push(p1, Op::Add(1), state, inner);
    assert(run(p2, state, inner) == Some(s2));
    let p3 = p2.push(Op::Move(1));
    let s3 = s2.moved(1);
    lemma_run_push(p2, Op::Move(1), state, inner);
    assert(run(p3, state, inner) == Some(s3));
    let p4 = p3.push(Op::Add(1));
    let s4 = s3.added(1);
    lemma_run_push(p3, Op::Add(1), state, inner);
    assert(run(p4, state, inner) == Some(s4));
    let p5 = p4.push(Op::Move(1));
    let s5 = s4.moved(1);
    lemma_run_push(p4, Op::Move(1), state, inner);
    assert(run(p5, state, inner) == Some(s5));
    let p6 = p5.push(Op::Move(1));
    let s6 = s5.moved(1);
    lemma_run_push(p5, Op::Move(1), state, inner);
    assert(run(p6, state, inner) == Some(s6));
    assert(run(jump_18_body(), state, inner) == Some(transfer_1(state).added(1).moved(1).added(1).moved(1).moved(1)));
    lemma_loop_once(jump_18_body(), state, limit, inner);
}

/// One round of the loop that divides: it takes one from the divisor right of the head, and where nothing is left of it, restores it and counts one quotient more.
pub open spec fn divide_body() -> Seq<Op> {
    Seq::<Op>::empty().push(Op::Add(-1)).push(Op::Move(1)).push(Op::Add(-1)).push(Op::Loop(Seq::<Op>::empty().push(Op::Move(1)).push(Op::Add(1)).push(Op::Move(1)).push(Op::Move(1)))).push(Op::Move(1)).push(Op::Loop(Seq::<Op>::empty().push(Op::Loop(Seq::<Op>::empty().push(Op::Add(-1)).push(Op::Move(-1)).push(Op::Add(1)).push(Op::Move(1)))).push(Op::Add(1)).push(Op::Move(1)).push(Op::Add(1)).push(Op::Move(1)).push(Op::Move(1)))).push(Op::Move(-1)).push(Op::Move(-1)).push(Op::Move(-1)).push(Op::Move(-1)).push(Op::Move(-1))
}

/// The state after one round of `divide_body`.
pub open spec fn divide_body_effect(state: State) -> State {
    jump_18(jump_17(state.added(-1).moved(1).added(-1)).moved(1)).moved(-1).moved(-1).moved(-1).moved(-1).moved(-1)
}

/// One round of `divide_body` does what `divide_body_effect` says.
pub proof fn lemma_divide_body(state: State, limit: nat)
    requires
        limit >= 256,
        state.at(state.head + 4) == 0,
        state.at(state.head + 5) == 0,
    ensures
        run(divide_body(), state, limit) == Some(divide_body_effect(state)),
{
    let p0 = Seq::<Op>::empty();
    let s0 = state;
    let p1 = p0.push(Op::Add(-1));
    let s1 = s0.added(-1);
    lemma_run_push(p0, Op::Add(-1), state, limit);
    assert(run(p1, state, limit) == Some(s1));
    let p2 = p1.push(Op::Move(1));
    let s2 = s1.moved(1);
    lemma_run_push(p1, Op::Move(1), state, limit);
    assert(run(p2, state, limit) == Some(s2));
    let p3 = p2.push(Op::Add(-1));
    let s3 = s2.added(-1);
    lemma_run_push(p2, Op::Add(-1), state, limit);
    assert(run(p3, state, limit) == Some(s3));
    let p4 = p3.push(Op::Loop(Seq::<Op>::empty().push(Op::Move(1)).push(Op::Add(1)).push(Op::Move(1)).push(Op::Move(1))));
    lemma_jump_17(s3, limit);
    let s4 = jump_17(s3);
    lemma_run_push(p3, Op::Loop(Seq::<Op>::empty().push(Op::Move(1)).push(Op::Add(1)).push(Op::Move(1)).push(Op::Move(1))), state, limit);
    assert(run(p4, state, limit) == Some(s4));
    let p5 = p4.push(Op::Move(1));
    let s5 = s4.moved(1);
    lemma_run_push(p4, Op::Move(1), state, limit);
    assert(run(p5, state, limit) == Some(s5));
    let p6 = p5.push(Op::Loop(Seq::<Op>::empty().push(Op::Loop(Seq::<Op>::empty().push(Op::Add(-1)).push(Op::Move(-1)).push(Op::Add(1)).push(Op::Move(1)))).push(Op::Add(1)).push(Op::Move(1)).push(Op::Add(1)).push(Op::Move(1)).push(Op::Move(1))));
    lemma_jump_18(s5, limit);
    let s6 = jump_18(s5);
    lemma_run_push(p5, Op::Loop(Seq::<Op>::empty().push(Op::Loop(Seq::<Op>::empty().push(Op::Add(-1)).push(Op::Move(-1)).push(Op::Add(1)).push(Op::Move(1)))).push(Op::Add(1)).push(Op::Move(1)).push(Op::Add(1)).push(Op::Move(1)).push(Op::Move(1))), state, limit);
    assert(run(p6, state, limit) == Some(s6));
    let p7 = p6.push(Op::Move(-1));
    let s7 = s6.moved(-1);
    lemma_run_push(p6, Op::Move(-1), state, limit);
    assert(run(p7, state, limit) == Some(s7));
    let p8 = p7.push(Op::Move(-1));
    let s8 = s7.moved(-1);
    lemma_run_push(p7, Op::Move(-1), state, limit);
    assert(run(p8, state, limit) == Some(s8));
    let p9 = p8.push(Op::Move(-1));
    let s9 = s8.moved(-1);
    lemma_run_push(p8, Op::Move(-1), state, limit);
    assert(run(p9, state, limit) == Some(s9));
    let p10 = p9.push(Op::Move(-1));
    let s10 = s9.moved(-1);
    lemma_run_push(p9, Op::Move(-1), state, limit);
    assert(run(p10, state, limit) == Some(s10));
    let p11 = p10.push(Op::Move(-1));
    let s11 = s10.moved(-1);
    lemma_run_push(p10, Op::Move(-1), state, limit);
    assert(run(p11, state, limit) == Some(s11));
}

/// The body of a loop that counts the cell under the head down and adds
/// to other cells.
pub open spec fn transfer_19_body() -> Seq<Op> {
    Seq::<Op>::empty().push(Op::Add(-1)).push(Op::Move(-1)).push(Op::Move(-1)).push(Op::Move(-1)).push(Op::Add(1)).push(Op::Move(1)).push(Op::Move(1)).push(Op::Move(1))
}

/// What the loop of `transfer_19_body` leaves: zero under the head, and the sums in the
/// other cells.
pub open spec fn transfer_19(state: State) -> State {
    state.set(state.head - 3, wrap(state.at(state.head - 3) + state.cell())).set(state.head, 0)
}

/// The loop of `transfer_19_body` does what `transfer_19` says.
pub proof fn lemma_transfer_19(state: State, limit: nat)
    requires
        limit >= 255,
    ensures
        run_loop(transfer_19_body(), state, limit) == Some(transfer_19(state)),
{
    let body = transfer_19_body();
    assert(linear(body));
    assert(shift(body) == 0) by {
        reveal_with_fuel(shift, 10);
    }
    assert(delta(body, -3) == 1) by {
        reveal_with_fuel(shift, 10);
        reveal_with_fuel(delta, 10);
    }
    assert(delta(body, 0) == -1) by {
        reveal_with_fuel(shift, 10);
        reveal_with_fuel(delta, 10);
    }
    assert forall|k: int| k != -3 && k != 0 implies #[trigger] delta(body, k) == 0 by {
        reveal_with_fuel(shift, 10);
        reveal_with_fuel(delta, 10);
    }
    lemma_counting_loop(body, state, limit);
    let count = state.cell() as int;
    assert(0 * count == 0);
    assert(1 * count == count);
    assert(-1 * count == -count);
    assert forall|i: int| #[trigger] after_counting(state, body).at(i) == transfer_19(state).at(i) by {
        let k = i - state.head;
        if k == -3 {
            assert(delta(body, k) == 1);
        } else if k == 0 {
            assert(delta(body, k) == -1);
        } else {
            assert(delta(body, k) == 0);
        }
    }
    assert(after_counting(state, body) =~= transfer_19(state));
}

/// The state after the code of `/`.
pub open spec fn slash_effect(state: State) -> State {
    transfer_19(divide(state.moved(1).write(0).added(1).moved(1).write(0).moved(1).write(0).moved(1).write(0).moved(-1).moved(-1).moved(-1).moved(-1).moved(-1)).moved(1).moved(1).moved(1)).moved(-1).moved(-1).write(0).moved(1).write(0).moved(-1)
}

/// The operations of `slash_ops` do what `slash_effect` says.
pub proof fn lemma_slash_effect(state: State, limit: nat)
    requires
        limit >= 520,
    ensures
        run(slash_ops(), state, limit) == Some(slash_effect(state)),
{
    let p0 = Seq::<Op>::empty();
    let s0 = state;
    let p1 = p0.push(Op::Move(1));
    let s1 = s0.moved(1);
    lemma_run_push(p0, Op::Move(1), state, limit);
    assert(run(p1, state, limit) == Some(s1));
    let p2 = p1.push(Op::Loop(Seq::<Op>::empty().push(Op::Add(-1))));
    lemma_clear(s1, limit);
    let s2 = s1.write(0);
    lemma_run_push(p1, Op::Loop(Seq::<Op>::empty().push(Op::Add(-1))), state, limit);
    assert(run(p2, state, limit) == Some(s2));
    let p3 = p2.push(Op::Add(1));
    let s3 = s2.added(1);
    lemma_run_push(p2, Op::Add(1), state, limit);
    assert(run(p3, state, limit) == Some(s3));
    let p4 = p3.push(Op::Move(1));
    let s4 = s3.moved(1);
    lemma_run_push(p3, Op::Move(1), state, limit);
    assert(run(p4, state, limit) == Some(s4));
    let p5 = p4.push(Op::Loop(Seq::<Op>::empty().push(Op::Add(-1))));
    lemma_clear(s4, limit);
    let s5 = s4.write(0);
    lemma_run_push(p4, Op::Loop(Seq::<Op>::empty().push(Op::Add(-1))), state, limit);
    assert(run(p5, state, limit) == Some(s5));
    let p6 = p5.push(Op::Move(1));
    let s6 = s5.moved(1);
    lemma_run_push(p5, Op::Move(1), state, limit);
    assert(run(p6, state, limit) == Some(s6));
    let p7 = p6.push(Op::Loop(Seq::<Op>::empty().push(Op::Add(-1))));
    lemma_clear(s6, limit);
    let s7 = s6.write(0);
    lemma_run_push(p6, Op::Loop(Seq::<Op>::empty().push(Op::Add(-1))), state, limit);
    assert(run(p7, state, limit) == Some(s7));
    let p8 = p7.push(Op::Move(1));
    let s8 = s7.moved(1);
    lemma_run_push(p7, Op::Move(1), state, limit);
    assert(run(p8, state, limit) == Some(s8));
    let p9 = p8.push(Op::Loop(Seq::<Op>::empty().push(Op::Add(-1))));
    lemma_clear(s8, limit);
    let s9 = s8.write(0);
    lemma_run_push(p8, Op::Loop(Seq::<Op>::empty().push(Op::Add(-1))), state, limit);
    assert(run(p9, state, limit) == Some(s9));
    let p10 = p9.push(Op::Move(-1));
    let s10 = s9.moved(-1);
    lemma_run_push(p9, Op::Move(-1), state, limit);
    assert(run(p10, state, limit) == Some(s10));
    let p11 = p10.push(Op::Move(-1));
    let s11 = s10.moved(-1);
    lemma_run_push(p10, Op::Move(-1), state, limit);
    assert(run(p11, state, limit) == Some(s11));
    let p12 = p11.push(Op::Move(-1));
    let s12 = s11.moved(-1);
    lemma_run_push(p11, Op::Move(-1), state, limit);
    assert(run(p12, state, limit) == Some(s12));
    let p13 = p12.push(Op::Move(-1));
    let s13 = s12.moved(-1);
    lemma_run_push(p12, Op::Move(-1), state, limit);
    assert(run(p13, state, limit) == Some(s13));
    let p14 = p13.push(Op::Move(-1));
    let s14 = s13.moved(-1);
    lemma_run_push(p13, Op::Move(-1), state, limit);
    assert(run(p14, state, limit) == Some(s14));
    let p15 = p14.push(Op::Loop(Seq::<Op>::empty().push(Op::Add(-1)).push(Op::Move(1)).push(Op::Add(-1)).push(Op::Loop(Seq::<Op>::empty().push(Op::Move(1)).push(Op::Add(1)).push(Op::Move(1)).push(Op::Move(1)))).push(Op::Move(1)).push(Op::Loop(Seq::<Op>::empty().push(Op::Loop(Seq::<Op>::empty().push(Op::Add(-1)).push(Op::Move(-1)).push(Op::Add(1)).push(Op::Move(1)))).push(Op::Add(1)).push(Op::Move(1)).push(Op::Add(1)).push(Op::Move(1)).push(Op::Move(1)))).push(Op::Move(-1)).push(Op::Move(-1)).push(Op::Move(-1)).push(Op::Move(-1)).push(Op::Move(-1))));
    lemma_divide(s14, limit);
    let s15 = divide(s14);
    lemma_run_push(p14, Op::Loop(Seq::<Op>::empty().push(Op::Add(-1)).push(Op::Move(1)).push(Op::Add(-1)).push(Op::Loop(Seq::<Op>::empty().push(Op::Move(1)).push(Op::Add(1)).push(Op::Move(1)).push(Op::Move(1)))).push(Op::Move(1)).push(Op::Loop(Seq::<Op>::empty().push(Op::Loop(Seq::<Op>::empty().push(Op::Add(-1)).push(Op::Move(-1)).push(Op::Add(1)).push(Op::Move(1)))).push(Op::Add(1)).push(Op::Move(1)).push(Op::Add(1)).push(Op::Move(1)).push(Op::Move(1)))).push(Op::Move(-1)).push(Op::Move(-1)).push(Op::Move(-1)).push(Op::Move(-1)).push(Op::Move(-1))), state, limit);
    assert(run(p15, state, limit) == Some(s15));
    let p16 = p15.push(Op::Move(1));
    let s16 = s15.moved(1);
    lemma_run_push(p15, Op::Move(1), state, limit);
    assert(run(p16, state, limit) == Some(s16));
    let p17 = p16.push(Op::Move(1));
    let s17 = s16.moved(1);
    lemma_run_push(p16, Op::Move(1), state, limit);
    assert(run(p17, state, limit) == Some(s17));
    let p18 = p17.push(Op::Move(1));
    let s18 = s17.moved(1);
    lemma_run_push(p17, Op::Move(1), state, limit);
    assert(run(p18, state, limit) == Some(s18));
    let p19 = p18.push(Op::Loop(Seq::<Op>::empty().push(Op::Add(-1)).push(Op::Move(-1)).push(Op::Move(-1)).push(Op::Move(-1)).push(Op::Add(1)).push(Op::Move(1)).push(Op::Move(1)).push(Op::Move(1))));
    lemma_transfer_19(s18, limit);
    let s19 = transfer_19(s18);
    lemma_run_push(p18, Op::Loop(Seq::<Op>::empty().push(Op::Add(-1)).push(Op::Move(-1)).push(Op::Move(-1)).push(Op::Move(-1)).push(Op::Add(1)).push(Op::Move(1)).push(Op::Move(1)).push(Op::Move(1))), state, limit);
    assert(run(p19, state, limit) == Some(s19));
    let p20 = p19.push(Op::Move(-1));
    let s20 = s19.moved(-1);
    lemma_run_push(p19, Op::Move(-1), state, limit);
    assert(run(p20, state, limit) == Some(s20));
    let p21 = p20.push(Op::Move(-1));
    let s21 = s20.moved(-1);
    lemma_run_push(p20, Op::Move(-1), state, limit);
    assert(run(p21, state, limit) == Some(s21));
    let p22 = p21.push(Op::Loop(Seq::<Op>::empty().push(Op::Add(-1))));
    lemma_clear(s21, limit);
    let s22 = s21.write(0);
    lemma_run_push(p21, Op::Loop(Seq::<Op>::empty().push(Op::Add(-1))), state, limit);
    assert(run(p22, state, limit) == Some(s22));
    let p23 = p22.push(Op::Move(1));
    let s23 = s22.moved(1);
    lemma_run_push(p22, Op::Move(1), state, limit);
    assert(run(p23, state, limit) == Some(s23));
    let p24 = p23.push(Op::Loop(Seq::<Op>::empty().push(Op::Add(-1))));
    lemma_clear(s23, limit);
    let s24 = s23.write(0);
    lemma_run_push(p23, Op::Loop(Seq::<Op>::empty().push(Op::Add(-1))), state, limit);
    assert(run(p24, state, limit) == Some(s24));
    let p25 = p24.push(Op::Move(-1));
    let s25 = s24.moved(-1);
    lemma_run_push(p24, Op::Move(-1), state, limit);
    assert(run(p25, state, limit) == Some(s25));
}

/// The body of a loop that runs at most once and ends on another cell.
pub open spec fn jump_20_body() -> Seq<Op> {
    Seq::<Op>::empty().push(Op::Loop(Seq::<Op>::empty().push(Op::Add(-1)).push(Op::Move(-1)).push(Op::Add(1)).push(Op::Move(1)))).push(Op::Add(1)).push(Op::Move(1)).push(Op::Move(1)).push(Op::Move(1))
}

/// What the loop of `jump_20_body` leaves where the cell on which a round ends is
/// zero: the state as it was where there is zero under the head, and else
/// the state after one round.
pub open spec fn jump_20(state: State) -> State {
    if state.cell() == 0 {
        state
    } else {
        transfer_1(state).added(1).moved(1).moved(1).moved(1)
    }
}

/// The loop of `jump_20_body` does what `jump_20` says.
pub proof fn lemma_jump_20(state: State, limit: nat)
    requires
        limit >= 256,
        state.cell() != 0 ==> state.at(state.head + 3) == 0,
    ensures
        run_loop(jump_20_body(), state, limit) == Some(jump_20(state)),
{
    let inner: nat = 255;
    let p0 = Seq::<Op>::empty();
    let s0 = state;
    let p1 = p0.push(Op::Loop(Seq::<Op>::empty().push(Op::Add(-1)).push(Op::Move(-1)).push(Op::Add(1)).push(Op::Move(1))));
    lemma_transfer_1(s0, inner);
    let s1 = transfer_1(s0);
    lemma_run_push(p0, Op::Loop(Seq::<Op>::empty().push(Op::Add(-1)).push(Op::Move(-1)).push(Op::Add(1)).push(Op::Move(1))), state, inner);
    assert(run(p1, state, inner) == Some(s1));
    let p2 = p1.push(Op::Add(1));
    let s2 = s1.added(1);
    lemma_run_push(p1, Op::Add(1), state, inner);
    assert(run(p2, state, inner) == Some(s2));
    let p3 = p2.push(Op::Move(1));
    let s3 = s2.moved(1);
    lemma_run_push(p2, Op::Move(1), state, inner);
    assert(run(p3, state, inner) == Some(s3));
    let p4 = p3.push(Op::Move(1));
    let s4 = s3.moved(1);
    lemma_run_push(p3, Op::Move(1), state, inner);
    assert(run(p4, state, inner) == Some(s4));
    let p5 = p4.push(Op::Move(1));
    let s5 = s4.moved(1);
    lemma_run_push(p4, Op::Move(1), state, inner);
    assert(run(p5, state, inner) == Some(s5));
    assert(run(jump_20_body(), state, inner) == Some(transfer_1(state).added(1).moved(1).moved(1).moved(1)));
    lemma_loop_once(jump_20_body(), state, limit, inner);
}

/// One round of the loop that takes a remainder: it takes one from the divisor right of the head, and where nothing is left of it, restores it.
pub open spec fn remainder_body() -> Seq<Op> {
    Seq::<Op>::empty().push(Op::Add(-1)).push(Op::Move(1)).push(Op::Add(-1)).push(Op::Loop(Seq::<Op>::empty().push(Op::Move(1)).push(Op::Add(1)).push(Op::Move(1)).push(Op::Move(1)))).push(Op::Move(1)).push(Op::Loop(Seq::<Op>::empty().push(Op::Loop(Seq::<Op>::empty().push(Op::Add(-1)).push(Op::Move(-1)).push(Op::Add(1)).push(Op::Move(1)))).push(Op::Add(1)).push(Op::Move(1)).push(Op::Move(1)).push(Op::Move(1)))).push(Op::Move(-1)).push(Op::Move(-1)).push(Op::Move(-1)).push(Op::Move(-1)).push(Op::Move(-1))
}

/// The state after one round of `remainder_body`.
pub open spec fn remainder_body_effect(state: State) -> State {
    jump_20(jump_17(state.added(-1).moved(1).added(-1)).moved(1)).moved(-1).moved(-1).moved(-1).moved(-1).moved(-1)
}

/// One round of `remainder_body` does what `remainder_body_effect` says.
pub proof fn lemma_remainder_body(state: State, limit: nat)
    requires
        limit >= 256,
        state.at(state.head + 4) == 0,
        state.at(state.head + 5) == 0,
    ensures
        run(remainder_body(), state, limit) == Some(remainder_body_effect(state)),
{
    let p0 = Seq::<Op>::empty();
    let s0 = state;
    let p1 = p0.push(Op::Add(-1));
    let s1 = s0.added(-1);
    lemma_run_push(p0, Op::Add(-1), state, limit);
    assert(run(p1, state, limit) == Some(s1));
    let p2 = p1.push(Op::Move(1));
    let s2 = s1.moved(1);
    lemma_run_push(p1, Op::Move(1), state, limit);
    assert(run(p2, state, limit) == Some(s2));
    let p3 = p2.push(Op::Add(-1));
    let s3 = s2.added(-1);
    lemma_run_push(p2, Op::Add(-1), state, limit);
    assert(run(p3, state, limit) == Some(s3));
    let p4 = p3.push(Op::Loop(Seq::<Op>::empty().push(Op::Move(1)).push(Op::Add(1)).push(Op::Move(1)).push(Op::Move(1))));
    lemma_jump_17(s3, limit);
    let s4 = jump_17(s3);
    lemma_run_push(p3, Op::Loop(Seq::<Op>::empty().push(Op::Move(1)).push(Op::Add(1)).push(Op::Move(1)).push(Op::Move(1))), state, limit);
    assert(run(p4, state, limit) == Some(s4));
    let p5 = p4.push(Op::Move(1));
    let s5 = s4.moved(1);
    lemma_run_push(p4, Op::Move(1), state, limit);
    assert(run(p5, state, limit) == Some(s5));
    let p6 = p5.push(Op::Loop(Seq::<Op>::empty().push(Op::Loop(Seq::<Op>::empty().push(Op::Add(-1)).push(Op::Move(-1)).push(Op::Add(1)).push(Op::Move(1)))).push(Op::Add(1)).push(Op::Move(1)).push(Op::Move(1)).push(Op::Move(1))));
    lemma_jump_20(s5, limit);
    let s6 = jump_20(s5);
    lemma_run_push(p5, Op::Loop(Seq::<Op>::empty().push(Op::Loop(Seq::<Op>::empty().push(Op::Add(-1)).push(Op::Move(-1)).push(Op::Add(1)).push(Op::Move(1)))).push(Op::Add(1)).push(Op::Move(1)).push(Op::Move(1)).push(Op::Move(1))), state, limit);
    assert(run(p6, state, limit) == Some(s6));
    let p7 = p6.push(Op::Move(-1));
    let s7 = s6.moved(-1);
    lemma_run_push(p6, Op::Move(-1), state, limit);
    assert(run(p7, state, limit) == Some(s7));
    let p8 = p7.push(Op::Move(-1));
    let s8 = s7.moved(-1);
    lemma_run_push(p7, Op::Move(-1), state, limit);
    assert(run(p8, state, limit) == Some(s8));
    let p9 = p8.push(Op::Move(-1));
    let s9 = s8.moved(-1);
    lemma_run_push(p8, Op::Move(-1), state, limit);
    assert(run(p9, state, limit) == Some(s9));
    let p10 = p9.push(Op::Move(-1));
    let s10 = s9.moved(-1);
    lemma_run_push(p9, Op::Move(-1), state, limit);
    assert(run(p10, state, limit) == Some(s10));
    let p11 = p10.push(Op::Move(-1));
    let s11 = s10.moved(-1);
    lemma_run_push(p10, Op::Move(-1), state, limit);
    assert(run(p11, state, limit) == Some(s11));
}

/// The state after the code of `%`.
pub open spec fn percent_effect(state: State) -> State {
    transfer_8(remainder(state.moved(1).write(0).added(1).moved(1).write(0).moved(1).write(0).moved(1).write(0).moved(-1).moved(-1).moved(-1).moved(-1).moved(-1)).moved(1).moved(1).added(-1)).moved(-1).write(0)
}

/// The operations of `percent_ops` do what `percent_effect` says.
pub proof fn lemma_percent_effect(state: State, limit: nat)
    requires
        limit >= 520,
    ensures
        run(percent_ops(), state, limit) == Some(percent_effect(state)),
{
    let p0 = Seq::<Op>::empty();
    let s0 = state;
    let p1 = p0.push(Op::Move(1));
    let s1 = s0.moved(1);
    lemma_run_push(p0, Op::Move(1), state, limit);
    assert(run(p1, state, limit) == Some(s1));
    let p2 = p1.push(Op::Loop(Seq::<Op>::empty().push(Op::Add(-1))));
    lemma_clear(s1, limit);
    let s2 = s1.write(0);
    lemma_run_push(p1, Op::Loop(Seq::<Op>::empty().push(Op::Add(-1))), state, limit);
    assert(run(p2, state, limit) == Some(s2));
    let p3 = p2.push(Op::Add(1));
    let s3 = s2.added(1);
    lemma_run_push(p2, Op::Add(1), state, limit);
    assert(run(p3, state, limit) == Some(s3));
    let p4 = p3.push(Op::Move(1));
    let s4 = s3.moved(1);
    lemma_run_push(p3, Op::Move(1), state, limit);
    assert(run(p4, state, limit) == Some(s4));
    let p5 = p4.push(Op::Loop(Seq::<Op>::empty().push(Op::Add(-1))));
    lemma_clear(s4, limit);
    let s5 = s4.write(0);
    lemma_run_push(p4, Op::Loop(Seq::<Op>::empty().push(Op::Add(-1))), state, limit);
    assert(run(p5, state, limit) == Some(s5));
    let p6 = p5.push(Op::Move(1));
    let s6 = s5.moved(1);
    lemma_run_push(p5, Op::Move(1), state, limit);
    assert(run(p6, state, limit) == Some(s6));
    let p7 = p6.push(Op::Loop(Seq::<Op>::empty().push(Op::Add(-1))));
    lemma_clear(s6, limit);
    let s7 = s6.write(0);
    lemma_run_push(p6, Op::Loop(Seq::<Op>::empty().push(Op::Add(-1))), state, limit);
    assert(run(p7, state, limit) == Some(s7));
    let p8 = p7.push(Op::Move(1));
    let s8 = s7.moved(1);
    lemma_run_push(p7, Op::Move(1), state, limit);
    assert(run(p8, state, limit) == Some(s8));
    let p9 = p8.push(Op::Loop(Seq::<Op>::empty().push(Op::Add(-1))));
    lemma_clear(s8, limit);
    let s9 = s8.write(0);
    lemma_run_push(p8, Op::Loop(Seq::<Op>::empty().push(Op::Add(-1))), state, limit);
    assert(run(p9, state, limit) == Some(s9));
    let p10 = p9.push(Op::Move(-1));
    let s10 = s9.moved(-1);
    lemma_run_push(p9, Op::Move(-1), state, limit);
    assert(run(p10, state, limit) == Some(s10));
    let p11 = p10.push(Op::Move(-1));
    let s11 = s10.moved(-1);
    lemma_run_push(p10, Op::Move(-1), state, limit);
    assert(run(p11, state, limit) == Some(s11));
    let p12 = p11.push(Op::Move(-1));
    let s12 = s11.moved(-1);
    lemma_run_push(p11, Op::Move(-1), state, limit);
    assert(run(p12, state, limit) == Some(s12));
    let p13 = p12.push(Op::Move(-1));
    let s13 = s12.moved(-1);
    lemma_run_push(p12, Op::Move(-1), state, limit);
    assert(run(p13, state, limit) == Some(s13));
    let p14 = p13.push(Op::Move(-1));
    let s14 = s13.moved(-1);
    lemma_run_push(p13, Op::Move(-1), state, limit);
    assert(run(p14, state, limit) == Some(s14));
    let p15 = p14.push(Op::Loop(Seq::<Op>::empty().push(Op::Add(-1)).push(Op::Move(1)).push(Op::Add(-1)).push(Op::Loop(Seq::<Op>::empty().push(Op::Move(1)).push(Op::Add(1)).push(Op::Move(1)).push(Op::Move(1)))).push(Op::Move(1)).push(Op::Loop(Seq::<Op>::empty().push(Op::Loop(Seq::<Op>::empty().push(Op::Add(-1)).push(Op::Move(-1)).push(Op::Add(1)).push(Op::Move(1)))).push(Op::Add(1)).push(Op::Move(1)).push(Op::Move(1)).push(Op::Move(1)))).push(Op::Move(-1)).push(Op::Move(-1)).push(Op::Move(-1)).push(Op::Move(-1)).push(Op::Move(-1))));
    lemma_remainder(s14, limit);
    let s15 = remainder(s14);
    lemma_run_push(p14, Op::Loop(Seq::<Op>::empty().push(Op::Add(-1)).push(Op::Move(1)).push(Op::Add(-1)).push(Op::Loop(Seq::<Op>::empty().push(Op::Move(1)).push(Op::Add(1)).push(Op::Move(1)).push(Op::Move(1)))).push(Op::Move(1)).push(Op::Loop(Seq::<Op>::empty().push(Op::Loop(Seq::<Op>::empty().push(Op::Add(-1)).push(Op::Move(-1)).push(Op::Add(1)).push(Op::Move(1)))).push(Op::Add(1)).push(Op::Move(1)).push(Op::Move(1)).push(Op::Move(1)))).push(Op::Move(-1)).push(Op::Move(-1)).push(Op::Move(-1)).push(Op::Move(-1)).push(Op::Move(-1))), state, limit);
    assert(run(p15, state, limit) == Some(s15));
    let p16 = p15.push(Op::Move(1));
    let s16 = s15.moved(1);
    lemma_run_push(p15, Op::Move(1), state, limit);
    assert(run(p16, state, limit) == Some(s16));
    let p17 = p16.push(Op::Move(1));
    let s17 = s16.moved(1);
    lemma_run_push(p16, Op::Move(1), state, limit);
    assert(run(p17, state, limit) == Some(s17));
    let p18 = p17.push(Op::Add(-1));
    let s18 = s17.added(-1);
    lemma_run_push(p17, Op::Add(-1), state, limit);
    assert(run(p18, state, limit) == Some(s18));
    let p19 = p18.push(Op::Loop(Seq::<Op>::empty().push(Op::Add(-1)).push(Op::Move(-1)).push(Op::Move(-1)).push(Op::Add(1)).push(Op::Move(1)).push(Op::Move(1))));
    lemma_transfer_8(s18, limit);
    let s19 = transfer_8(s18);
    lemma_run_push(p18, Op::Loop(Seq::<Op>::empty().push(Op::Add(-1)).push(Op::Move(-1)).push(Op::Move(-1)).push(Op::Add(1)).push(Op::Move(1)).push(Op::Move(1))), state, limit);
    assert(run(p19, state, limit) == Some(s19));
    let p20 = p19.push(Op::Move(-1));
    let s20 = s19.moved(-1);
    lemma_run_push(p19, Op::Move(-1), state, limit);
    assert(run(p20, state, limit) == Some(s20));
    let p21 = p20.push(Op::Loop(Seq::<Op>::empty().push(Op::Add(-1))));
    lemma_clear(s20, limit);
    let s21 = s20.write(0);
    lemma_run_push(p20, Op::Loop(Seq::<Op>::empty().push(Op::Add(-1))), state, limit);
    assert(run(p21, state, limit) == Some(s21));
}

/// The state after `[-]`.
pub open spec fn clear_effect(state: State) -> State {
    state.write(0)
}

/// The operations of `clear_ops` do what `clear_effect` says.
pub proof fn lemma_clear_effect(state: State, limit: nat)
    requires
        limit >= 255,
    ensures
        run(clear_ops(), state, limit) == Some(clear_effect(state)),
{
    let p0 = Seq::<Op>::empty();
    let s0 = state;
    let p1 = p0.push(Op::Loop(Seq::<Op>::empty().push(Op::Add(-1))));
    lemma_clear(s0, limit);
    let s1 = s0.write(0);
    lemma_run_push(p0, Op::Loop(Seq::<Op>::empty().push(Op::Add(-1))), state, limit);
    assert(run(p1, state, limit) == Some(s1));
}

/// The state after the code before the operand of a negation.
pub open spec fn negate_open_effect(state: State) -> State {
    state.write(0).moved(1)
}

/// The operations of `negate_open_ops` do what `negate_open_effect` says.
pub proof fn lemma_negate_open_effect(state: State, limit: nat)
    requires
        limit >= 255,
    ensures
        run(negate_open_ops(), state, limit) == Some(negate_open_effect(state)),
{
    let p0 = Seq::<Op>::empty();
    let s0 = state;
    let p1 = p0.push(Op::Loop(Seq::<Op>::empty().push(Op::Add(-1))));
    lemma_clear(s0, limit);
    let s1 = s0.write(0);
    lemma_run_push(p0, Op::Loop(Seq::<Op>::empty().push(Op::Add(-1))), state, limit);
    assert(run(p1, state, limit) == Some(s1));
    let p2 = p1.push(Op::Move(1));
    let s2 = s1.moved(1);
    lemma_run_push(p1, Op::Move(1), state, limit);
    assert(run(p2, state, limit) == Some(s2));
}

/// The state after the code behind the operand of a negation.
pub open spec fn negate_close_effect(state: State) -> State {
    transfer_2(state).moved(-1)
}

/// The operations of `negate_close_ops` do what `negate_close_effect` says.
pub proof fn lemma_negate_close_effect(state: State, limit: nat)
    requires
        limit >= 255,
    ensures
        run(negate_close_ops(), state, limit) == Some(negate_close_effect(state)),
{
    let p0 = Seq::<Op>::empty();
    let s0 = state;
    let p1 = p0.push(Op::Loop(Seq::<Op>::empty().push(Op::Add(-1)).push(Op::Move(-1)).push(Op::Add(-1)).push(Op::Move(1))));
    lemma_transfer_2(s0, limit);
    let s1 = transfer_2(s0);
    lemma_run_push(p0, Op::Loop(Seq::<Op>::empty().push(Op::Add(-1)).push(Op::Move(-1)).push(Op::Add(-1)).push(Op::Move(1))), state, limit);
    assert(run(p1, state, limit) == Some(s1));
    let p2 = p1.push(Op::Move(-1));
    let s2 = s1.moved(-1);
    lemma_run_push(p1, Op::Move(-1), state, limit);
    assert(run(p2, state, limit) == Some(s2));
}

/// The state after the code before the operand of `not`.
pub open spec fn not_open_effect(state: State) -> State {
    state.write(0).added(1).moved(1)
}

/// The operations of `not_open_ops` do what `not_open_effect` says.
pub proof fn lemma_not_open_effect(state: State, limit: nat)
    requires
        limit >= 255,
    ensures
        run(not_open_ops(), state, limit) == Some(not_open_effect(state)),
{
    let p0 = Seq::<Op>::empty();
    let s0 = state;
    let p1 = p0.push(Op::Loop(Seq::<Op>::empty().push(Op::Add(-1))));
    lemma_clear(s0, limit);
    let s1 = s0.write(0);
    lemma_run_push(p0, Op::Loop(Seq::<Op>::empty().push(Op::Add(-1))), state, limit);
    assert(run(p1, state, limit) == Some(s1));
    let p2 = p1.push(Op::Add(1));
    let s2 = s1.added(1);
    lemma_run_push(p1, Op::Add(1), state, limit);
    assert(run(p2, state, limit) == Some(s2));
    let p3 = p2.push(Op::Move(1));
    let s3 = s2.moved(1);
    lemma_run_push(p2, Op::Move(1), state, limit);
    assert(run(p3, state, limit) == Some(s3));
}

/// The state after the code behind the operand of `not`.
pub open spec fn not_close_effect(state: State) -> State {
    once_4(state).moved(-1)
}

/// The operations of `not_close_ops` do what `not_close_effect` says.
pub proof fn lemma_not_close_effect(state: State, limit: nat)
    requires
        limit >= 256,
    ensures
        run(not_close_ops(), state, limit) == Some(not_close_effect(state)),
{
    let p0 = Seq::<Op>::empty();
    let s0 = state;
    let p1 = p0.push(Op::Loop(Seq::<Op>::empty().push(Op::Move(-1)).push(Op::Add(-1)).push(Op::Move(1)).push(Op::Loop(Seq::<Op>::empty().push(Op::Add(-1))))));
    lemma_once_4(s0, limit);
    let s1 = once_4(s0);
    lemma_run_push(p0, Op::Loop(Seq::<Op>::empty().push(Op::Move(-1)).push(Op::Add(-1)).push(Op::Move(1)).push(Op::Loop(Seq::<Op>::empty().push(Op::Add(-1))))), state, limit);
    assert(run(p1, state, limit) == Some(s1));
    let p2 = p1.push(Op::Move(-1));
    let s2 = s1.moved(-1);
    lemma_run_push(p1, Op::Move(-1), state, limit);
    assert(run(p2, state, limit) == Some(s2));
}

/// The body of a loop that counts the cell under the head down and adds to
/// cells of which some lie `rel` cells away.
pub open spec fn carry_1_body(rel: nat) -> Seq<Op> {
    ((Seq::<Op>::empty().push(Op::Add(-1)) + repeat_op(Op::Move(1), rel)).push(Op::Add(1)).push(Op::Move(1)).push(Op::Add(1)).push(Op::Move(-1)) + repeat_op(Op::Move(-1), rel))
}

/// The state after one round of `carry_1_body`.
pub open spec fn carry_1_body_effect(state: State, rel: nat) -> State {
    state.added(-1).moved(rel as int).added(1).moved(1).added(1).moved(-1).moved(-(rel as int))
}

/// One round of `carry_1_body` does what `carry_1_body_effect` says.
pub proof fn lemma_carry_1_body(state: State, rel: nat, limit: nat)
    requires
        limit >= 0,
        rel >= 1,
    ensures
        run(carry_1_body(rel), state, limit) == Some(carry_1_body_effect(state, rel)),
{
    let p0 = Seq::<Op>::empty();
    let s0 = state;
    let p1 = p0.push(Op::Add(-1));
    let s1 = s0.added(-1);
    lemma_run_push(p0, Op::Add(-1), state, limit);
    assert(run(p1, state, limit) == Some(s1));
    let p2 = p1 + repeat_op(Op::Move(1), rel);
    lemma_run_steps(1, rel, s1, limit);
    let s2 = s1.moved(rel as int);
    assert(1 * rel == rel);
    lemma_run_concat(p1, repeat_op(Op::Move(1), rel), state, limit);
    assert(run(p2, state, limit) == Some(s2));
    let p3 = p2.push(Op::Add(1));
    let s3 = s2.added(1);
    lemma_run_push(p2, Op::Add(1), state, limit);
    assert(run(p3, state, limit) == Some(s3));
    let p4 = p3.push(Op::Move(1));
    let s4 = s3.moved(1);
    lemma_run_push(p3, Op::Move(1), state, limit);
    assert(run(p4, state, limit) == Some(s4));
    let p5 = p4.push(Op::Add(1));
    let s5 = s4.added(1);
    lemma_run_push(p4, Op::Add(1), state, limit);
    assert(run(p5, state, limit) == Some(s5));
    let p6 = p5.push(Op::Move(-1));
    let s6 = s5.moved(-1);
    lemma_run_push(p5, Op::Move(-1), state, limit);
    assert(run(p6, state, limit) == Some(s6));
    let p7 = p6 + repeat_op(Op::Move(-1), rel);
    lemma_run_steps(-1, rel, s6, limit);
    let s7 = s6.moved(-(rel as int));
    assert(-1 * rel == -rel);
    lemma_run_concat(p6, repeat_op(Op::Move(-1), rel), state, limit);
    assert(run(p7, state, limit) == Some(s7));
}

/// What the loop of `carry_1_body` leaves: zero under the head, and the sums in the
/// other cells.
pub open spec fn carry_1(state: State, rel: nat) -> State {
    state.set(state.head + rel, wrap(state.at(state.head + rel) + state.cell())).set(state.head + rel + 1, wrap(state.at(state.head + rel + 1) + state.cell())).set(state.head, 0)
}

/// What holds before each round of the loop of `carry_1_body`, from `start` on.
pub open spec fn carry_1_inv(start: State, now: State, rel: nat) -> bool {
    &&& now.head == start.head
    &&& now.input == start.input
    &&& now.output == start.output
    &&& now.cell() <= start.cell()
    &&& now.at(start.head + rel) == wrap(start.at(start.head + rel) + 1 * (start.cell() - now.cell()))
    &&& now.at(start.head + rel + 1) == wrap(start.at(start.head + rel + 1) + 1 * (start.cell() - now.cell()))
    &&& forall|i: int| i != start.head && i != start.head + rel && i != start.head + rel + 1 ==> #[trigger] now.at(i) == start.at(i)
}

#[verifier::rlimit(50)]
proof fn lemma_carry_1_round(start: State, now: State, rel: nat)
    requires
        rel >= 1,
        carry_1_inv(start, now, rel),
        now.cell() != 0,
    ensures
        carry_1_inv(start, carry_1_body_effect(now, rel), rel),
        carry_1_body_effect(now, rel).cell() == now.cell() - 1,
{
    let next = carry_1_body_effect(now, rel);
    assert(next.head == now.head);
    assert(next.cell() == now.cell() - 1);
    assert(next.at(start.head + rel) == wrap(now.at(start.head + rel) + 1));
    assert(next.at(start.head + rel + 1) == wrap(now.at(start.head + rel + 1) + 1));
    assert forall|i: int| i != start.head && i != start.head + rel && i != start.head + rel + 1 implies #[trigger] next.at(i) == start.at(i) by {
        assert(now.at(i) == start.at(i));
    }
}

/// The loop of `carry_1_body` does what `carry_1` says.
pub proof fn lemma_carry_1(state: State, rel: nat, limit: nat)
    requires
        limit >= 255,
        rel >= 1,
    ensures
        run_loop(carry_1_body(rel), state, limit) == Some(carry_1(state, rel)),
{
    let inv = |now: State| carry_1_inv(state, now, rel);
    assert(inv(state));
    assert forall|now: State| #[trigger] inv(now) && now.cell() != 0 implies ({
        &&& run(carry_1_body(rel), now, 0) is Some
        &&& inv(run(carry_1_body(rel), now, 0)->Some_0)
        &&& run(carry_1_body(rel), now, 0)->Some_0.cell() < now.cell()
    }) by {
        lemma_carry_1_body(now, rel, 0);
        lemma_carry_1_round(state, now, rel);
    }
    lemma_loop_invariant(carry_1_body(rel), state, limit, 0, inv);
    let end = run_loop(carry_1_body(rel), state, limit)->Some_0;
    assert(inv(end));
    let expected = carry_1(state, rel);
    assert forall|i: int| #[trigger] (end.cells)(i) == (expected.cells)(i) by {
        if i != state.head && i != state.head + rel && i != state.head + rel + 1 {
            assert(end.at(i) == state.at(i));
        }
        assert(end.at(i) == expected.at(i));
    }
    assert(end.cells =~= expected.cells);
    assert(end =~= expected);
}

/// The body of a loop that counts the cell under the head down and adds to
/// cells of which some lie `rel` cells away.
pub open spec fn carry_2_body(rel: nat) -> Seq<Op> {
    ((Seq::<Op>::empty().push(Op::Add(-1)).push(Op::Move(-1)) + repeat_op(Op::Move(-1), rel)).push(Op::Add(1)) + repeat_op(Op::Move(1), rel)).push(Op::Move(1))
}

/// The state after one round of `carry_2_body`.
pub open spec fn carry_2_body_effect(state: State, rel: nat) -> State {
    state.added(-1).moved(-1).moved(-(rel as int)).added(1).moved(rel as int).moved(1)
}

/// One round of `carry_2_body` does what `carry_2_body_effect` says.
pub proof fn lemma_carry_2_body(state: State, rel: nat, limit: nat)
    requires
        limit >= 0,
        rel >= 1,
    ensures
        run(carry_2_body(rel), state, limit) == Some(carry_2_body_effect(state, rel)),
{
    let p0 = Seq::<Op>::empty();
    let s0 = state;
    let p1 = p0.push(Op::Add(-1));
    let s1 = s0.added(-1);
    lemma_run_push(p0, Op::Add(-1), state, limit);
    assert(run(p1, state, limit) == Some(s1));
    let p2 = p1.push(Op::Move(-1));
    let s2 = s1.moved(-1);
    lemma_run_push(p1, Op::Move(-1), state, limit);
    assert(run(p2, state, limit) == Some(s2));
    let p3 = p2 + repeat_op(Op::Move(-1), rel);
    lemma_run_steps(-1, rel, s2, limit);
    let s3 = s2.moved(-(rel as int));
    assert(-1 * rel == -rel);
    lemma_run_concat(p2, repeat_op(Op::Move(-1), rel), state, limit);
    assert(run(p3, state, limit) == Some(s3));
    let p4 = p3.push(Op::Add(1));
    let s4 = s3.added(1);
    lemma_run_push(p3, Op::Add(1), state, limit);
    assert(run(p4, state, limit) == Some(s4));
    let p5 = p4 + repeat_op(Op::Move(1), rel);
    lemma_run_steps(1, rel, s4, limit);
    let s5 = s4.moved(rel as int);
    assert(1 * rel == rel);
    lemma_run_concat(p4, repeat_op(Op::Move(1), rel), state, limit);
    assert(run(p5, state, limit) == Some(s5));
    let p6 = p5.push(Op::Move(1));
    let s6 = s5.moved(1);
    lemma_run_push(p5, Op::Move(1), state, limit);
    assert(run(p6, state, limit) == Some(s6));
}

/// What the loop of `carry_2_body` leaves: zero under the head, and the sums in the
/// other cells.
pub open spec fn carry_2(state: State, rel: nat) -> State {
    state.set(state.head - rel - 1, wrap(state.at(state.head - rel - 1) + state.cell())).set(state.head, 0)
}

/// What holds before each round of the loop of `carry_2_body`, from `start` on.
pub open spec fn carry_2_inv(start: State, now: State, rel: nat) -> bool {
    &&& now.head == start.head
    &&& now.input == start.input
    &&& now.output == start.output
    &&& now.cell() <= start.cell()
    &&& now.at(start.head - rel - 1) == wrap(start.at(start.head - rel - 1) + 1 * (start.cell() - now.cell()))
    &&& forall|i: int| i != start.head && i != start.head - rel - 1 ==> #[trigger] now.at(i) == start.at(i)
}

#[verifier::rlimit(50)]
proof fn lemma_carry_2_round(start: State, now: State, rel: nat)
    requires
        rel >= 1,
        carry_2_inv(start, now, rel),
        now.cell() != 0,
    ensures
        carry_2_inv(start, carry_2_body_effect(now, rel), rel),
        carry_2_body_effect(now, rel).cell() == now.cell() - 1,
{
    let next = carry_2_body_effect(now, rel);
    assert(next.head == now.head);
    assert(next.cell() == now.cell() - 1);
    assert(next.at(start.head - rel - 1) == wrap(now.at(start.head - rel - 1) + 1));
    assert forall|i: int| i != start.head && i != start.head - rel - 1 implies #[trigger] next.at(i) == start.at(i) by {
        assert(now.at(i) == start.at(i));
    }
}

/// The loop of `carry_2_body` does what `carry_2` says.
pub proof fn lemma_carry_2(state: State, rel: nat, limit: nat)
    requires
        limit >= 255,
        rel >= 1,
    ensures
        run_loop(carry_2_body(rel), state, limit) == Some(carry_2(state, rel)),
{
    let inv = |now: State| carry_2_inv(state, now, rel);
    assert(inv(state));
    assert forall|now: State| #[trigger] inv(now) && now.cell() != 0 implies ({
        &&& run(carry_2_body(rel), now, 0) is Some
        &&& inv(run(carry_2_body(rel), now, 0)->Some_0)
        &&& run(carry_2_body(rel), now, 0)->Some_0.cell() < now.cell()
    }) by {
        lemma_carry_2_body(now, rel, 0);
        lemma_carry_2_round(state, now, rel);
    }
    lemma_loop_invariant(carry_2_body(rel), state, limit, 0, inv);
    let end = run_loop(carry_2_body(rel), state, limit)->Some_0;
    assert(inv(end));
    let expected = carry_2(state, rel);
    assert forall|i: int| #[trigger] (end.cells)(i) == (expected.cells)(i) by {
        if i != state.head && i != state.head - rel - 1 {
            assert(end.at(i) == state.at(i));
        }
        assert(end.at(i) == expected.at(i));
    }
    assert(end.cells =~= expected.cells);
    assert(end =~= expected);
}

/// The state after the code that reads a variable `rel` cells left of the head.
pub open spec fn read_var_effect(state: State, rel: nat) -> State {
    carry_2(carry_1(state.write(0).moved(1).write(0).moved(-1).moved(-(rel as int)), rel).moved(rel as int).moved(1), rel).moved(-1)
}

/// The operations of `read_var_ops` do what `read_var_effect` says.
pub proof fn lemma_read_var_effect(state: State, rel: nat, limit: nat)
    requires
        limit >= 255,
        rel >= 1,
    ensures
        run(read_var_ops(rel), state, limit) == Some(read_var_effect(state, rel)),
{
    let p0 = Seq::<Op>::empty();
    let s0 = state;
    let p1 = p0.push(Op::Loop(Seq::<Op>::empty().push(Op::Add(-1))));
    lemma_clear(s0, limit);
    let s1 = s0.write(0);
    lemma_run_push(p0, Op::Loop(Seq::<Op>::empty().push(Op::Add(-1))), state, limit);
    assert(run(p1, state, limit) == Some(s1));
    let p2 = p1.push(Op::Move(1));
    let s2 = s1.moved(1);
    lemma_run_push(p1, Op::Move(1), state, limit);
    assert(run(p2, state, limit) == Some(s2));
    let p3 = p2.push(Op::Loop(Seq::<Op>::empty().push(Op::Add(-1))));
    lemma_clear(s2, limit);
    let s3 = s2.write(0);
    lemma_run_push(p2, Op::Loop(Seq::<Op>::empty().push(Op::Add(-1))), state, limit);
    assert(run(p3, state, limit) == Some(s3));
    let p4 = p3.push(Op::Move(-1));
    let s4 = s3.moved(-1);
    lemma_run_push(p3, Op::Move(-1), state, limit);
    assert(run(p4, state, limit) == Some(s4));
    let p5 = p4 + repeat_op(Op::Move(-1), rel);
    lemma_run_steps(-1, rel, s4, limit);
    let s5 = s4.moved(-(rel as int));
    assert(-1 * rel == -rel);
    lemma_run_concat(p4, repeat_op(Op::Move(-1), rel), state, limit);
    assert(run(p5, state, limit) == Some(s5));
    let p6 = p5.push(Op::Loop(((Seq::<Op>::empty().push(Op::Add(-1)) + repeat_op(Op::Move(1), rel)).push(Op::Add(1)).push(Op::Move(1)).push(Op::Add(1)).push(Op::Move(-1)) + repeat_op(Op::Move(-1), rel))));
    lemma_carry_1(s5, rel, limit);
    let s6 = carry_1(s5, rel);
    lemma_run_push(p5, Op::Loop(((Seq::<Op>::empty().push(Op::Add(-1)) + repeat_op(Op::Move(1), rel)).push(Op::Add(1)).push(Op::Move(1)).push(Op::Add(1)).push(Op::Move(-1)) + repeat_op(Op::Move(-1), rel))), state, limit);
    assert(run(p6, state, limit) == Some(s6));
    let p7 = p6 + repeat_op(Op::Move(1), rel);
    lemma_run_steps(1, rel, s6, limit);
    let s7 = s6.moved(rel as int);
    assert(1 * rel == rel);
    lemma_run_concat(p6, repeat_op(Op::Move(1), rel), state, limit);
    assert(run(p7, state, limit) == Some(s7));
    let p8 = p7.push(Op::Move(1));
    let s8 = s7.moved(1);
    lemma_run_push(p7, Op::Move(1), state, limit);
    assert(run(p8, state, limit) == Some(s8));
    let p9 = p8.push(Op::Loop(((Seq::<Op>::empty().push(Op::Add(-1)).push(Op::Move(-1)) + repeat_op(Op::Move(-1), rel)).push(Op::Add(1)) + repeat_op(Op::Move(1), rel)).push(Op::Move(1))));
    lemma_carry_2(s8, rel, limit);
    let s9 = carry_2(s8, rel);
    lemma_run_push(p8, Op::Loop(((Seq::<Op>::empty().push(Op::Add(-1)).push(Op::Move(-1)) + repeat_op(Op::Move(-1), rel)).push(Op::Add(1)) + repeat_op(Op::Move(1), rel)).push(Op::Move(1))), state, limit);
    assert(run(p9, state, limit) == Some(s9));
    let p10 = p9.push(Op::Move(-1));
    let s10 = s9.moved(-1);
    lemma_run_push(p9, Op::Move(-1), state, limit);
    assert(run(p10, state, limit) == Some(s10));
}

/// The body of a loop that counts the cell under the head down and adds to
/// cells of which some lie `rel` cells away.
pub open spec fn carry_3_body(rel: nat) -> Seq<Op> {
    ((Seq::<Op>::empty().push(Op::Add(-1)) + repeat_op(Op::Move(-1), rel)).push(Op::Add(1)) + repeat_op(Op::Move(1), rel))
}

/// The state after one round of `carry_3_body`.
pub open spec fn carry_3_body_effect(state: State, rel: nat) -> State {
    state.added(-1).moved(-(rel as int)).added(1).moved(rel as int)
}

/// One round of `carry_3_body` does what `carry_3_body_effect` says.
pub proof fn lemma_carry_3_body(state: State, rel: nat, limit: nat)
    requires
        limit >= 0,
        rel >= 1,
    ensures
        run(carry_3_body(rel), state, limit) == Some(carry_3_body_effect(state, rel)),
{
    let p0 = Seq::<Op>::empty();
    let s0 = state;
    let p1 = p0.push(Op::Add(-1));
    let s1 = s0.added(-1);
    lemma_run_push(p0, Op::Add(-1), state, limit);
    assert(run(p1, state, limit) == Some(s1));
    let p2 = p1 + repeat_op(Op::Move(-1), rel);
    lemma_run_steps(-1, rel, s1, limit);
    let s2 = s1.moved(-(rel as int));
    assert(-1 * rel == -rel);
    lemma_run_concat(p1, repeat_op(Op::Move(-1), rel), state, limit);
    assert(run(p2, state, limit) == Some(s2));
    let p3 = p2.push(Op::Add(1));
    let s3 = s2.added(1);
    lemma_run_push(p2, Op::Add(1), state, limit);
    assert(run(p3, state, limit) == Some(s3));
    let p4 = p3 + repeat_op(Op::Move(1), rel);
    lemma_run_steps(1, rel, s3, limit);
    let s4 = s3.moved(rel as int);
    assert(1 * rel == rel);
    lemma_run_concat(p3, repeat_op(Op::Move(1), rel), state, limit);
    assert(run(p4, state, limit) == Some(s4));
}

/// What the loop of `carry_3_body` leaves: zero under the head, and the sums in the
/// other cells.
pub open spec fn carry_3(state: State, rel: nat) -> State {
    state.set(state.head - rel, wrap(state.at(state.head - rel) + state.cell())).set(state.head, 0)
}

/// What holds before each round of the loop of `carry_3_body`, from `start` on.
pub open spec fn carry_3_inv(start: State, now: State, rel: nat) -> bool {
    &&& now.head == start.head
    &&& now.input == start.input
    &&& now.output == start.output
    &&& now.cell() <= start.cell()
    &&& now.at(start.head - rel) == wrap(start.at(start.head - rel) + 1 * (start.cell() - now.cell()))
    &&& forall|i: int| i != start.head && i != start.head - rel ==> #[trigger] now.at(i) == start.at(i)
}

#[verifier::rlimit(50)]
proof fn lemma_carry_3_round(start: State, now: State, rel: nat)
    requires
        rel >= 1,
        carry_3_inv(start, now, rel),
        now.cell() != 0,
    ensures
        carry_3_inv(start, carry_3_body_effect(now, rel), rel),
        carry_3_body_effect(now, rel).cell() == now.cell() - 1,
{
    let next = carry_3_body_effect(now, rel);
    assert(next.head == now.head);
    assert(next.cell() == now.cell() - 1);
    assert(next.at(start.head - rel) == wrap(now.at(start.head - rel) + 1));
    assert forall|i: int| i != start.head && i != start.head - rel implies #[trigger] next.at(i) == start.at(i) by {
        assert(now.at(i) == start.at(i));
    }
}

/// The loop of `carry_3_body` does what `carry_3` says.
pub proof fn lemma_carry_3(state: State, rel: nat, limit: nat)
    requires
        limit >= 255,
        rel >= 1,
    ensures
        run_loop(carry_3_body(rel), state, limit) == Some(carry_3(state, rel)),
{
    let inv = |now: State| carry_3_inv(state, now, rel);
    assert(inv(state));
    assert forall|now: State| #[trigger] inv(now) && now.cell() != 0 implies ({
        &&& run(carry_3_body(rel), now, 0) is Some
        &&& inv(run(carry_3_body(rel), now, 0)->Some_0)
        &&& run(carry_3_body(rel), now, 0)->Some_0.cell() < now.cell()
    }) by {
        lemma_carry_3_body(now, rel, 0);
        lemma_carry_3_round(state, now, rel);
    }
    lemma_loop_invariant(carry_3_body(rel), state, limit, 0, inv);
    let end = run_loop(carry_3_body(rel), state, limit)->Some_0;
    assert(inv(end));
    let expected = carry_3(state, rel);
    assert forall|i: int| #[trigger] (end.cells)(i) == (expected.cells)(i) by {
        if i != state.head && i != state.head - rel {
            assert(end.at(i) == state.at(i));
        }
        assert(end.at(i) == expected.at(i));
    }
    assert(end.cells =~= expected.cells);
    assert(end =~= expected);
}

/// The state after the code of `=` for a variable `rel` cells left of the head.
pub open spec fn assign_eq_effect(state: State, rel: nat) -> State {
    carry_3(state.moved(-(rel as int)).write(0).moved(rel as int), rel)
}

/// The operations of `assign_eq_ops` do what `assign_eq_effect` says.
pub proof fn lemma_assign_eq_effect(state: State, rel: nat, limit: nat)
    requires
        limit >= 255,
        rel >= 1,
    ensures
        run(assign_eq_ops(rel), state, limit) == Some(assign_eq_effect(state, rel)),
{
    let p0 = Seq::<Op>::empty();
    let s0 = state;
    let p1 = p0 + repeat_op(Op::Move(-1), rel);
    lemma_run_steps(-1, rel, s0, limit);
    let s1 = s0.moved(-(rel as int));
    assert(-1 * rel == -rel);
    lemma_run_concat(p0, repeat_op(Op::Move(-1), rel), state, limit);
    assert(run(p1, state, limit) == Some(s1));
    let p2 = p1.push(Op::Loop(Seq::<Op>::empty().push(Op::Add(-1))));
    lemma_clear(s1, limit);
    let s2 = s1.write(0);
    lemma_run_push(p1, Op::Loop(Seq::<Op>::empty().push(Op::Add(-1))), state, limit);
    assert(run(p2, state, limit) == Some(s2));
    let p3 = p2 + repeat_op(Op::Move(1), rel);
    lemma_run_steps(1, rel, s2, limit);
    let s3 = s2.moved(rel as int);
    assert(1 * rel == rel);
    lemma_run_concat(p2, repeat_op(Op::Move(1), rel), state, limit);
    assert(run(p3, state, limit) == Some(s3));
    let p4 = p3.push(Op::Loop(((Seq::<Op>::empty().push(Op::Add(-1)) + repeat_op(Op::Move(-1), rel)).push(Op::Add(1)) + repeat_op(Op::Move(1), rel))));
    lemma_carry_3(s3, rel, limit);
    let s4 = carry_3(s3, rel);
    lemma_run_push(p3, Op::Loop(((Seq::<Op>::empty().push(Op::Add(-1)) + repeat_op(Op::Move(-1), rel)).push(Op::Add(1)) + repeat_op(Op::Move(1), rel))), state, limit);
    assert(run(p4, state, limit) == Some(s4));
}

/// The state after the code of `+=` for a variable `rel` cells left of the head.
pub open spec fn assign_plus_effect(state: State, rel: nat) -> State {
    carry_3(state, rel)
}

/// The operations of `assign_plus_ops` do what `assign_plus_effect` says.
pub proof fn lemma_assign_plus_effect(state: State, rel: nat, limit: nat)
    requires
        limit >= 255,
        rel >= 1,
    ensures
        run(assign_plus_ops(rel), state, limit) == Some(assign_plus_effect(state, rel)),
{
    let p0 = Seq::<Op>::empty();
    let s0 = state;
    let p1 = p0.push(Op::Loop(((Seq::<Op>::empty().push(Op::Add(-1)) + repeat_op(Op::Move(-1), rel)).push(Op::Add(1)) + repeat_op(Op::Move(1), rel))));
    lemma_carry_3(s0, rel, limit);
    let s1 = carry_3(s0, rel);
    lemma_run_push(p0, Op::Loop(((Seq::<Op>::empty().push(Op::Add(-1)) + repeat_op(Op::Move(-1), rel)).push(Op::Add(1)) + repeat_op(Op::Move(1), rel))), state, limit);
    assert(run(p1, state, limit) == Some(s1));
}

/// The body of a loop that counts the cell under the head down and adds to
/// cells of which some lie `rel` cells away.
pub open spec fn carry_4_body(rel: nat) -> Seq<Op> {
    ((Seq::<Op>::empty().push(Op::Add(-1)) + repeat_op(Op::Move(-1), rel)).push(Op::Add(-1)) + repeat_op(Op::Move(1), rel))
}

/// The state after one round of `carry_4_body`.
pub open spec fn carry_4_body_effect(state: State, rel: nat) -> State {
    state.added(-1).moved(-(rel as int)).added(-1).moved(rel as int)
}

/// One round of `carry_4_body` does what `carry_4_body_effect` says.
pub proof fn lemma_carry_4_body(state: State, rel: nat, limit: nat)
    requires
        limit >= 0,
        rel >= 1,
    ensures
        run(carry_4_body(rel), state, limit) == Some(carry_4_body_effect(state, rel)),
{
    let p0 = Seq::<Op>::empty();
    let s0 = state;
    let p1 = p0.push(Op::Add(-1));
    let s1 = s0.added(-1);
    lemma_run_push(p0, Op::Add(-1), state, limit);
    assert(run(p1, state, limit) == Some(s1));
    let p2 = p1 + repeat_op(Op::Move(-1), rel);
    lemma_run_steps(-1, rel, s1, limit);
    let s2 = s1.moved(-(rel as int));
    assert(-1 * rel == -rel);
    lemma_run_concat(p1, repeat_op(Op::Move(-1), rel), state, limit);
    assert(run(p2, state, limit) == Some(s2));
    let p3 = p2.push(Op::Add(-1));
    let s3 = s2.added(-1);
    lemma_run_push(p2, Op::Add(-1), state, limit);
    assert(run(p3, state, limit) == Some(s3));
    let p4 = p3 + repeat_op(Op::Move(1), rel);
    lemma_run_steps(1, rel, s3, limit);
    let s4 = s3.moved(rel as int);
    assert(1 * rel == rel);
    lemma_run_concat(p3, repeat_op(Op::Move(1), rel), state, limit);
    assert(run(p4, state, limit) == Some(s4));
}

/// What the loop of `carry_4_body` leaves: zero under the head, and the sums in the
/// other cells.
pub open spec fn carry_4(state: State, rel: nat) -> State {
    state.set(state.head - rel, wrap(state.at(state.head - rel) - state.cell())).set(state.head, 0)
}

/// What holds before each round of the loop of `carry_4_body`, from `start` on.
pub open spec fn carry_4_inv(start: State, now: State, rel: nat) -> bool {
    &&& now.head == start.head
    &&& now.input == start.input
    &&& now.output == start.output
    &&& now.cell() <= start.cell()
    &&& now.at(start.head - rel) == wrap(start.at(start.head - rel) + -1 * (start.cell() - now.cell()))
    &&& forall|i: int| i != start.head && i != start.head - rel ==> #[trigger] now.at(i) == start.at(i)
}

#[verifier::rlimit(50)]
proof fn lemma_carry_4_round(start: State, now: State, rel: nat)
    requires
        rel >= 1,
        carry_4_inv(start, now, rel),
        now.cell() != 0,
    ensures
        carry_4_inv(start, carry_4_body_effect(now, rel), rel),
        carry_4_body_effect(now, rel).cell() == now.cell() - 1,
{
    let next = carry_4_body_effect(now, rel);
    assert(next.head == now.head);
    assert(next.cell() == now.cell() - 1);
    assert(next.at(start.head - rel) == wrap(now.at(start.head - rel) + -1));
    assert forall|i: int| i != start.head && i != start.head - rel implies #[trigger] next.at(i) == start.at(i) by {
        assert(now.at(i) == start.at(i));
    }
}

/// The loop of `carry_4_body` does what `carry_4` says.
pub proof fn lemma_carry_4(state: State, rel: nat, limit: nat)
    requires
        limit >= 255,
        rel >= 1,
    ensures
        run_loop(carry_4_body(rel), state, limit) == Some(carry_4(state, rel)),
{
    let inv = |now: State| carry_4_inv(state, now, rel);
    assert(inv(state));
    assert forall|now: State| #[trigger] inv(now) && now.cell() != 0 implies ({
        &&& run(carry_4_body(rel), now, 0) is Some
        &&& inv(run(carry_4_body(rel), now, 0)->Some_0)
        &&& run(carry_4_body(rel), now, 0)->Some_0.cell() < now.cell()
    }) by {
        lemma_carry_4_body(now, rel, 0);
        lemma_carry_4_round(state, now, rel);
    }
    lemma_loop_invariant(carry_4_body(rel), state, limit, 0, inv);
    let end = run_loop(carry_4_body(rel), state, limit)->Some_0;
    assert(inv(end));
    let expected = carry_4(state, rel);
    assert forall|i: int| #[trigger] (end.cells)(i) == (expected.cells)(i) by {
        if i != state.head && i != state.head - rel {
            assert(end.at(i) == state.at(i));
        }
        assert(end.at(i) == expected.at(i));
    }
    assert(end.cells =~= expected.cells);
    assert(end =~= expected);
}

/// The state after the code of `-=` for a variable `rel` cells left of the head.
pub open spec fn assign_minus_effect(state: State, rel: nat) -> State {
    carry_4(state, rel)
}

/// The operations of `assign_minus_ops` do what `assign_minus_effect` says.
pub proof fn lemma_assign_minus_effect(state: State, rel: nat, limit: nat)
    requires
        limit >= 255,
        rel >= 1,
    ensures
        run(assign_minus_ops(rel), state, limit) == Some(assign_minus_effect(state, rel)),
{
    let p0 = Seq::<Op>::empty();
    let s0 = state;
    let p1 = p0.push(Op::Loop(((Seq::<Op>::empty().push(Op::Add(-1)) + repeat_op(Op::Move(-1), rel)).push(Op::Add(-1)) + repeat_op(Op::Move(1), rel))));
    lemma_carry_4(s0, rel, limit);
    let s1 = carry_4(s0, rel);
    lemma_run_push(p0, Op::Loop(((Seq::<Op>::empty().push(Op::Add(-1)) + repeat_op(Op::Move(-1), rel)).push(Op::Add(-1)) + repeat_op(Op::Move(1), rel))), state, limit);
    assert(run(p1, state, limit) == Some(s1));
}

/// The body of a loop that counts the cell under the head down and adds to
/// cells of which some lie `rel` cells away.
pub open spec fn carry_5_body(rel: nat) -> Seq<Op> {
    ((Seq::<Op>::empty().push(Op::Add(-1)) + repeat_op(Op::Move(1), rel)).push(Op::Move(1)).push(Op::Add(1)).push(Op::Move(-1)) + repeat_op(Op::Move(-1), rel))
}

/// The state after one round of `carry_5_body`.
pub open spec fn carry_5_body_effect(state: State, rel: nat) -> State {
    state.added(-1).moved(rel as int).moved(1).added(1).moved(-1).moved(-(rel as int))
}

/// One round of `carry_5_body` does what `carry_5_body_effect` says.
pub proof fn lemma_carry_5_body(state: State, rel: nat, limit: nat)
    requires
        limit >= 0,
        rel >= 1,
    ensures
        run(carry_5_body(rel), state, limit) == Some(carry_5_body_effect(state, rel)),
{
    let p0 = Seq::<Op>::empty();
    let s0 = state;
    let p1 = p0.push(Op::Add(-1));
    let s1 = s0.added(-1);
    lemma_run_push(p0, Op::Add(-1), state, limit);
    assert(run(p1, state, limit) == Some(s1));
    let p2 = p1 + repeat_op(Op::Move(1), rel);
    lemma_run_steps(1, rel, s1, limit);
    let s2 = s1.moved(rel as int);
    assert(1 * rel == rel);
    lemma_run_concat(p1, repeat_op(Op::Move(1), rel), state, limit);
    assert(run(p2, state, limit) == Some(s2));
    let p3 = p2.push(Op::Move(1));
    let s3 = s2.moved(1);
    lemma_run_push(p2, Op::Move(1), state, limit);
    assert(run(p3, state, limit) == Some(s3));
    let p4 = p3.push(Op::Add(1));
    let s4 = s3.added(1);
    lemma_run_push(p3, Op::Add(1), state, limit);
    assert(run(p4, state, limit) == Some(s4));
    let p5 = p4.push(Op::Move(-1));
    let s5 = s4.moved(-1);
    lemma_run_push(p4, Op::Move(-1), state, limit);
    assert(run(p5, state, limit) == Some(s5));
    let p6 = p5 + repeat_op(Op::Move(-1), rel);
    lemma_run_steps(-1, rel, s5, limit);
    let s6 = s5.moved(-(rel as int));
    assert(-1 * rel == -rel);
    lemma_run_concat(p5, repeat_op(Op::Move(-1), rel), state, limit);
    assert(run(p6, state, limit) == Some(s6));
}

/// What the loop of `carry_5_body` leaves: zero under the head, and the sums in the
/// other cells.
pub open spec fn carry_5(state: State, rel: nat) -> State {
    state.set(state.head + rel + 1, wrap(state.at(state.head + rel + 1) + state.cell())).set(state.head, 0)
}

/// What holds before each round of the loop of `carry_5_body`, from `start` on.
pub open spec fn carry_5_inv(start: State, now: State, rel: nat) -> bool {
    &&& now.head == start.head
    &&& now.input == start.input
    &&& now.output == start.output
    &&& now.cell() <= start.cell()
    &&& now.at(start.head + rel + 1) == wrap(start.at(start.head + rel + 1) + 1 * (start.cell() - now.cell()))
    &&& forall|i: int| i != start.head && i != start.head + rel + 1 ==> #[trigger] now.at(i) == start.at(i)
}

#[verifier::rlimit(50)]
proof fn lemma_carry_5_round(start: State, now: State, rel: nat)
    requires
        rel >= 1,
        carry_5_inv(start, now, rel),
        now.cell() != 0,
    ensures
        carry_5_inv(start, carry_5_body_effect(now, rel), rel),
        carry_5_body_effect(now, rel).cell() == now.cell() - 1,
{
    let next = carry_5_body_effect(now, rel);
    assert(next.head == now.head);
    assert(next.cell() == now.cell() - 1);
    assert(next.at(start.head + rel + 1) == wrap(now.at(start.head + rel + 1) + 1));
    assert forall|i: int| i != start.head && i != start.head + rel + 1 implies #[trigger] next.at(i) == start.at(i) by {
        assert(now.at(i) == start.at(i));
    }
}

/// The loop of `carry_5_body` does what `carry_5` says.
pub proof fn lemma_carry_5(state: State, rel: nat, limit: nat)
    requires
        limit >= 255,
        rel >= 1,
    ensures
        run_loop(carry_5_body(rel), state, limit) == Some(carry_5(state, rel)),
{
    let inv = |now: State| carry_5_inv(state, now, rel);
    assert(inv(state));
    assert forall|now: State| #[trigger] inv(now) && now.cell() != 0 implies ({
        &&& run(carry_5_body(rel), now, 0) is Some
        &&& inv(run(carry_5_body(rel), now, 0)->Some_0)
        &&& run(carry_5_body(rel), now, 0)->Some_0.cell() < now.cell()
    }) by {
        lemma_carry_5_body(now, rel, 0);
        lemma_carry_5_round(state, now, rel);
    }
    lemma_loop_invariant(carry_5_body(rel), state, limit, 0, inv);
    let end = run_loop(carry_5_body(rel), state, limit)->Some_0;
    assert(inv(end));
    let expected = carry_5(state, rel);
    assert forall|i: int| #[trigger] (end.cells)(i) == (expected.cells)(i) by {
        if i != state.head && i != state.head + rel + 1 {
            assert(end.at(i) == state.at(i));
        }
        assert(end.at(i) == expected.at(i));
    }
    assert(end.cells =~= expected.cells);
    assert(end =~= expected);
}

/// The body of a loop that counts the cell under the head down and adds to
/// cells of which some lie `rel` cells away.
pub open spec fn carry_6_body(rel: nat) -> Seq<Op> {
    ((Seq::<Op>::empty().push(Op::Add(-1)).push(Op::Move(1)).push(Op::Add(1)).push(Op::Move(-1)).push(Op::Move(-1)) + repeat_op(Op::Move(-1), rel)).push(Op::Add(1)) + repeat_op(Op::Move(1), rel)).push(Op::Move(1))
}

/// The state after one round of `carry_6_body`.
pub open spec fn carry_6_body_effect(state: State, rel: nat) -> State {
    state.added(-1).moved(1).added(1).moved(-1).moved(-1).moved(-(rel as int)).added(1).moved(rel as int).moved(1)
}

/// One round of `carry_6_body` does what `carry_6_body_effect` says.
pub proof fn lemma_carry_6_body(state: State, rel: nat, limit: nat)
    requires
        limit >= 0,
        rel >= 1,
    ensures
        run(carry_6_body(rel), state, limit) == Some(carry_6_body_effect(state, rel)),
{
    let p0 = Seq::<Op>::empty();
    let s0 = state;
    let p1 = p0.push(Op::Add(-1));
    let s1 = s0.added(-1);
    lemma_run_push(p0, Op::Add(-1), state, limit);
    assert(run(p1, state, limit) == Some(s1));
    let p2 = p1.push(Op::Move(1));
    let s2 = s1.moved(1);
    lemma_run_push(p1, Op::Move(1), state, limit);
    assert(run(p2, state, limit) == Some(s2));
    let p3 = p2.push(Op::Add(1));
    let s3 = s2.added(1);
    lemma_run_push(p2, Op::Add(1), state, limit);
    assert(run(p3, state, limit) == Some(s3));
    let p4 = p3.push(Op::Move(-1));
    let s4 = s3.moved(-1);
    lemma_run_push(p3, Op::Move(-1), state, limit);
    assert(run(p4, state, limit) == Some(s4));
    let p5 = p4.push(Op::Move(-1));
    let s5 = s4.moved(-1);
    lemma_run_push(p4, Op::Move(-1), state, limit);
    assert(run(p5, state, limit) == Some(s5));
    let p6 = p5 + repeat_op(Op::Move(-1), rel);
    lemma_run_steps(-1, rel, s5, limit);
    let s6 = s5.moved(-(rel as int));
    assert(-1 * rel == -rel);
    lemma_run_concat(p5, repeat_op(Op::Move(-1), rel), state, limit);
    assert(run(p6, state, limit) == Some(s6));
    let p7 = p6.push(Op::Add(1));
    let s7 = s6.added(1);
    lemma_run_push(p6, Op::Add(1), state, limit);
    assert(run(p7, state, limit) == Some(s7));
    let p8 = p7 + repeat_op(Op::Move(1), rel);
    lemma_run_steps(1, rel, s7, limit);
    let s8 = s7.moved(rel as int);
    assert(1 * rel == rel);
    lemma_run_concat(p7, repeat_op(Op::Move(1), rel), state, limit);
    assert(run(p8, state, limit) == Some(s8));
    let p9 = p8.push(Op::Move(1));
    let s9 = s8.moved(1);
    lemma_run_push(p8, Op::Move(1), state, limit);
    assert(run(p9, state, limit) == Some(s9));
}

/// What the loop of `carry_6_body` leaves: zero under the head, and the sums in the
/// other cells.
pub open spec fn carry_6(state: State, rel: nat) -> State {
    state.set(state.head - rel - 1, wrap(state.at(state.head - rel - 1) + state.cell())).set(state.head + 1, wrap(state.at(state.head + 1) + state.cell())).set(state.head, 0)
}

/// What holds before each round of the loop of `carry_6_body`, from `start` on.
pub open spec fn carry_6_inv(start: State, now: State, rel: nat) -> bool {
    &&& now.head == start.head
    &&& now.input == start.input
    &&& now.output == start.output
    &&& now.cell() <= start.cell()
    &&& now.at(start.head - rel - 1) == wrap(start.at(start.head - rel - 1) + 1 * (start.cell() - now.cell()))
    &&& now.at(start.head + 1) == wrap(start.at(start.head + 1) + 1 * (start.cell() - now.cell()))
    &&& forall|i: int| i != start.head && i != start.head - rel - 1 && i != start.head + 1 ==> #[trigger] now.at(i) == start.at(i)
}

#[verifier::rlimit(50)]
proof fn lemma_carry_6_round(start: State, now: State, rel: nat)
    requires
        rel >= 1,
        carry_6_inv(start, now, rel),
        now.cell() != 0,
    ensures
        carry_6_inv(start, carry_6_body_effect(now, rel), rel),
        carry_6_body_effect(now, rel).cell() == now.cell() - 1,
{
    let next = carry_6_body_effect(now, rel);
    assert(next.head == now.head);
    assert(next.cell() == now.cell() - 1);
    assert(next.at(start.head - rel - 1) == wrap(now.at(start.head - rel - 1) + 1));
    assert(next.at(start.head + 1) == wrap(now.at(start.head + 1) + 1));
    assert forall|i: int| i != start.head && i != start.head - rel - 1 && i != start.head + 1 implies #[trigger] next.at(i) == start.at(i) by {
        assert(now.at(i) == start.at(i));
    }
}

/// The loop of `carry_6_body` does what `carry_6` says.
pub proof fn lemma_carry_6(state: State, rel: nat, limit: nat)
    requires
        limit >= 255,
        rel >= 1,
    ensures
        run_loop(carry_6_body(rel), state, limit) == Some(carry_6(state, rel)),
{
    let inv = |now: State| carry_6_inv(state, now, rel);
    assert(inv(state));
    assert forall|now: State| #[trigger] inv(now) && now.cell() != 0 implies ({
        &&& run(carry_6_body(rel), now, 0) is Some
        &&& inv(run(carry_6_body(rel), now, 0)->Some_0)
        &&& run(carry_6_body(rel), now, 0)->Some_0.cell() < now.cell()
    }) by {
        lemma_carry_6_body(now, rel, 0);
        lemma_carry_6_round(state, now, rel);
    }
    lemma_loop_invariant(carry_6_body(rel), state, limit, 0, inv);
    let end = run_loop(carry_6_body(rel), state, limit)->Some_0;
    assert(inv(end));
    let expected = carry_6(state, rel);
    assert forall|i: int| #[trigger] (end.cells)(i) == (expected.cells)(i) by {
        if i != state.head && i != state.head - rel - 1 && i != state.head + 1 {
            assert(end.at(i) == state.at(i));
        }
        assert(end.at(i) == expected.at(i));
    }
    assert(end.cells =~= expected.cells);
    assert(end =~= expected);
}

/// One round of the loop that adds the cell right of the head to a cell `rel` cells left of it for each unit of the cell under the head.
pub open spec fn multiply_far_body(rel: nat) -> Seq<Op> {
    Seq::<Op>::empty().push(Op::Add(-1)).push(Op::Move(1)).push(Op::Loop(((Seq::<Op>::empty().push(Op::Add(-1)).push(Op::Move(1)).push(Op::Add(1)).push(Op::Move(-1)).push(Op::Move(-1)) + repeat_op(Op::Move(-1), rel)).push(Op::Add(1)) + repeat_op(Op::Move(1), rel)).push(Op::Move(1)))).push(Op::Move(1)).push(Op::Loop(Seq::<Op>::empty().push(Op::Add(-1)).push(Op::Move(-1)).push(Op::Add(1)).push(Op::Move(1)))).push(Op::Move(-1)).push(Op::Move(-1))
}

/// The state after one round of `multiply_far_body`.
pub open spec fn multiply_far_body_effect(state: State, rel: nat) -> State {
    transfer_1(carry_6(state.added(-1).moved(1), rel).moved(1)).moved(-1).moved(-1)
}

/// One round of `multiply_far_body` does what `multiply_far_body_effect` says.
pub proof fn lemma_multiply_far_body(state: State, rel: nat, limit: nat)
    requires
        limit >= 255,
        rel >= 1,
    ensures
        run(multiply_far_body(rel), state, limit) == Some(multiply_far_body_effect(state, rel)),
{
    let p0 = Seq::<Op>::empty();
    let s0 = state;
    let p1 = p0.push(Op::Add(-1));
    let s1 = s0.added(-1);
    lemma_run_push(p0, Op::Add(-1), state, limit);
    assert(run(p1, state, limit) == Some(s1));
    let p2 = p1.push(Op::Move(1));
    let s2 = s1.moved(1);
    lemma_run_push(p1, Op::Move(1), state, limit);
    assert(run(p2, state, limit) == Some(s2));
    let p3 = p2.push(Op::Loop(((Seq::<Op>::empty().push(Op::Add(-1)).push(Op::Move(1)).push(Op::Add(1)).push(Op::Move(-1)).push(Op::Move(-1)) + repeat_op(Op::Move(-1), rel)).push(Op::Add(1)) + repeat_op(Op::Move(1), rel)).push(Op::Move(1))));
    lemma_carry_6(s2, rel, limit);
    let s3 = carry_6(s2, rel);
    lemma_run_push(p2, Op::Loop(((Seq::<Op>::empty().push(Op::Add(-1)).push(Op::Move(1)).push(Op::Add(1)).push(Op::Move(-1)).push(Op::Move(-1)) + repeat_op(Op::Move(-1), rel)).push(Op::Add(1)) + repeat_op(Op::Move(1), rel)).push(Op::Move(1))), state, limit);
    assert(run(p3, state, limit) == Some(s3));
    let p4 = p3.push(Op::Move(1));
    let s4 = s3.moved(1);
    lemma_run_push(p3, Op::Move(1), state, limit);
    assert(run(p4, state, limit) == Some(s4));
    let p5 = p4.push(Op::Loop(Seq::<Op>::empty().push(Op::Add(-1)).push(Op::Move(-1)).push(Op::Add(1)).push(Op::Move(1))));
    lemma_transfer_1(s4, limit);
    let s5 = transfer_1(s4);
    lemma_run_push(p4, Op::Loop(Seq::<Op>::empty().push(Op::Add(-1)).push(Op::Move(-1)).push(Op::Add(1)).push(Op::Move(1))), state, limit);
    assert(run(p5, state, limit) == Some(s5));
    let p6 = p5.push(Op::Move(-1));
    let s6 = s5.moved(-1);
    lemma_run_push(p5, Op::Move(-1), state, limit);
    assert(run(p6, state, limit) == Some(s6));
    let p7 = p6.push(Op::Move(-1));
    let s7 = s6.moved(-1);
    lemma_run_push(p6, Op::Move(-1), state, limit);
    assert(run(p7, state, limit) == Some(s7));
}

/// The state after the code of `*=` for a variable `rel` cells left of the head.
pub open spec fn assign_star_effect(state: State, rel: nat) -> State {
    multiply_far(carry_5(state.moved(1).write(0).moved(1).write(0).moved(-1).moved(-1).moved(-(rel as int)), rel).moved(rel as int), rel).moved(1).write(0).moved(-1)
}

/// The operations of `assign_star_ops` do what `assign_star_effect` says.
pub proof fn lemma_assign_star_effect(state: State, rel: nat, limit: nat)
    requires
        limit >= 512,
        rel >= 1,
    ensures
        run(assign_star_ops(rel), state, limit) == Some(assign_star_effect(state, rel)),
{
    let p0 = Seq::<Op>::empty();
    let s0 = state;
    let p1 = p0.push(Op::Move(1));
    let s1 = s0.moved(1);
    lemma_run_push(p0, Op::Move(1), state, limit);
    assert(run(p1, state, limit) == Some(s1));
    let p2 = p1.push(Op::Loop(Seq::<Op>::empty().push(Op::Add(-1))));
    lemma_clear(s1, limit);
    let s2 = s1.write(0);
    lemma_run_push(p1, Op::Loop(Seq::<Op>::empty().push(Op::Add(-1))), state, limit);
    assert(run(p2, state, limit) == Some(s2));
    let p3 = p2.push(Op::Move(1));
    let s3 = s2.moved(1);
    lemma_run_push(p2, Op::Move(1), state, limit);
    assert(run(p3, state, limit) == Some(s3));
    let p4 = p3.push(Op::Loop(Seq::<Op>::empty().push(Op::Add(-1))));
    lemma_clear(s3, limit);
    let s4 = s3.write(0);
    lemma_run_push(p3, Op::Loop(Seq::<Op>::empty().push(Op::Add(-1))), state, limit);
    assert(run(p4, state, limit) == Some(s4));
    let p5 = p4.push(Op::Move(-1));
    let s5 = s4.moved(-1);
    lemma_run_push(p4, Op::Move(-1), state, limit);
    assert(run(p5, state, limit) == Some(s5));
    let p6 = p5.push(Op::Move(-1));
    let s6 = s5.moved(-1);
    lemma_run_push(p5, Op::Move(-1), state, limit);
    assert(run(p6, state, limit) == Some(s6));
    let p7 = p6 + repeat_op(Op::Move(-1), rel);
    lemma_run_steps(-1, rel, s6, limit);
    let s7 = s6.moved(-(rel as int));
    assert(-1 * rel == -rel);
    lemma_run_concat(p6, repeat_op(Op::Move(-1), rel), state, limit);
    assert(run(p7, state, limit) == Some(s7));
    let p8 = p7.push(Op::Loop(((Seq::<Op>::empty().push(Op::Add(-1)) + repeat_op(Op::Move(1), rel)).push(Op::Move(1)).push(Op::Add(1)).push(Op::Move(-1)) + repeat_op(Op::Move(-1), rel))));
    lemma_carry_5(s7, rel, limit);
    let s8 = carry_5(s7, rel);
    lemma_run_push(p7, Op::Loop(((Seq::<Op>::empty().push(Op::Add(-1)) + repeat_op(Op::Move(1), rel)).push(Op::Move(1)).push(Op::Add(1)).push(Op::Move(-1)) + repeat_op(Op::Move(-1), rel))), state, limit);
    assert(run(p8, state, limit) == Some(s8));
    let p9 = p8 + repeat_op(Op::Move(1), rel);
    lemma_run_steps(1, rel, s8, limit);
    let s9 = s8.moved(rel as int);
    assert(1 * rel == rel);
    lemma_run_concat(p8, repeat_op(Op::Move(1), rel), state, limit);
    assert(run(p9, state, limit) == Some(s9));
    let p10 = p9.push(Op::Loop(Seq::<Op>::empty().push(Op::Add(-1)).push(Op::Move(1)).push(Op::Loop(((Seq::<Op>::empty().push(Op::Add(-1)).push(Op::Move(1)).push(Op::Add(1)).push(Op::Move(-1)).push(Op::Move(-1)) + repeat_op(Op::Move(-1), rel)).push(Op::Add(1)) + repeat_op(Op::Move(1), rel)).push(Op::Move(1)))).push(Op::Move(1)).push(Op::Loop(Seq::<Op>::empty().push(Op::Add(-1)).push(Op::Move(-1)).push(Op::Add(1)).push(Op::Move(1)))).push(Op::Move(-1)).push(Op::Move(-1))));
    lemma_multiply_far(s9, rel, limit);
    let s10 = multiply_far(s9, rel);
    lemma_run_push(p9, Op::Loop(Seq::<Op>::empty().push(Op::Add(-1)).push(Op::Move(1)).push(Op::Loop(((Seq::<Op>::empty().push(Op::Add(-1)).push(Op::Move(1)).push(Op::Add(1)).push(Op::Move(-1)).push(Op::Move(-1)) + repeat_op(Op::Move(-1), rel)).push(Op::Add(1)) + repeat_op(Op::Move(1), rel)).push(Op::Move(1)))).push(Op::Move(1)).push(Op::Loop(Seq::<Op>::empty().push(Op::Add(-1)).push(Op::Move(-1)).push(Op::Add(1)).push(Op::Move(1)))).push(Op::Move(-1)).push(Op::Move(-1))), state, limit);
    assert(run(p10, state, limit) == Some(s10));
    let p11 = p10.push(Op::Move(1));
    let s11 = s10.moved(1);
    lemma_run_push(p10, Op::Move(1), state, limit);
    assert(run(p11, state, limit) == Some(s11));
    let p12 = p11.push(Op::Loop(Seq::<Op>::empty().push(Op::Add(-1))));
    lemma_clear(s11, limit);
    let s12 = s11.write(0);
    lemma_run_push(p11, Op::Loop(Seq::<Op>::empty().push(Op::Add(-1))), state, limit);
    assert(run(p12, state, limit) == Some(s12));
    let p13 = p12.push(Op::Move(-1));
    let s13 = s12.moved(-1);
    lemma_run_push(p12, Op::Move(-1), state, limit);
    assert(run(p13, state, limit) == Some(s13));
}

/// One round of the loop that divides the cell under the head by a divisor `rel` cells right of it.
pub open spec fn divide_far_body(rel: nat) -> Seq<Op> {
    ((Seq::<Op>::empty().push(Op::Add(-1)) + repeat_op(Op::Move(1), rel)).push(Op::Add(-1)).push(Op::Loop(Seq::<Op>::empty().push(Op::Move(1)).push(Op::Add(1)).push(Op::Move(1)).push(Op::Move(1)))).push(Op::Move(1)).push(Op::Loop(Seq::<Op>::empty().push(Op::Loop(Seq::<Op>::empty().push(Op::Add(-1)).push(Op::Move(-1)).push(Op::Add(1)).push(Op::Move(1)))).push(Op::Add(1)).push(Op::Move(1)).push(Op::Add(1)).push(Op::Move(1)).push(Op::Move(1)))).push(Op::Move(-1)).push(Op::Move(-1)).push(Op::Move(-1)).push(Op::Move(-1)) + repeat_op(Op::Move(-1), rel))
}

/// The state after one round of `divide_far_body`.
pub open spec fn divide_far_body_effect(state: State, rel: nat) -> State {
    jump_18(jump_17(state.added(-1).moved(rel as int).added(-1)).moved(1)).moved(-1).moved(-1).moved(-1).moved(-1).moved(-(rel as int))
}

/// One round of `divide_far_body` does what `divide_far_body_effect` says.
pub proof fn lemma_divide_far_body(state: State, rel: nat, limit: nat)
    requires
        limit >= 256,
        rel >= 1,
        state.at(state.head + rel + 3) == 0,
        state.at(state.head + rel + 4) == 0,
    ensures
        run(divide_far_body(rel), state, limit) == Some(divide_far_body_effect(state, rel)),
{
    let p0 = Seq::<Op>::empty();
    let s0 = state;
    let p1 = p0.push(Op::Add(-1));
    let s1 = s0.added(-1);
    lemma_run_push(p0, Op::Add(-1), state, limit);
    assert(run(p1, state, limit) == Some(s1));
    let p2 = p1 + repeat_op(Op::Move(1), rel);
    lemma_run_steps(1, rel, s1, limit);
    let s2 = s1.moved(rel as int);
    assert(1 * rel == rel);
    lemma_run_concat(p1, repeat_op(Op::Move(1), rel), state, limit);
    assert(run(p2, state, limit) == Some(s2));
    let p3 = p2.push(Op::Add(-1));
    let s3 = s2.added(-1);
    lemma_run_push(p2, Op::Add(-1), state, limit);
    assert(run(p3, state, limit) == Some(s3));
    let p4 = p3.push(Op::Loop(Seq::<Op>::empty().push(Op::Move(1)).push(Op::Add(1)).push(Op::Move(1)).push(Op::Move(1))));
    lemma_jump_17(s3, limit);
    let s4 = jump_17(s3);
    lemma_run_push(p3, Op::Loop(Seq::<Op>::empty().push(Op::Move(1)).push(Op::Add(1)).push(Op::Move(1)).push(Op::Move(1))), state, limit);
    assert(run(p4, state, limit) == Some(s4));
    let p5 = p4.push(Op::Move(1));
    let s5 = s4.moved(1);
    lemma_run_push(p4, Op::Move(1), state, limit);
    assert(run(p5, state, limit) == Some(s5));
    let p6 = p5.push(Op::Loop(Seq::<Op>::empty().push(Op::Loop(Seq::<Op>::empty().push(Op::Add(-1)).push(Op::Move(-1)).push(Op::Add(1)).push(Op::Move(1)))).push(Op::Add(1)).push(Op::Move(1)).push(Op::Add(1)).push(Op::Move(1)).push(Op::Move(1))));
    lemma_jump_18(s5, limit);
    let s6 = jump_18(s5);
    lemma_run_push(p5, Op::Loop(Seq::<Op>::empty().push(Op::Loop(Seq::<Op>::empty().push(Op::Add(-1)).push(Op::Move(-1)).push(Op::Add(1)).push(Op::Move(1)))).push(Op::Add(1)).push(Op::Move(1)).push(Op::Add(1)).push(Op::Move(1)).push(Op::Move(1))), state, limit);
    assert(run(p6, state, limit) == Some(s6));
    let p7 = p6.push(Op::Move(-1));
    let s7 = s6.moved(-1);
    lemma_run_push(p6, Op::Move(-1), state, limit);
    assert(run(p7, state, limit) == Some(s7));
    let p8 = p7.push(Op::Move(-1));
    let s8 = s7.moved(-1);
    lemma_run_push(p7, Op::Move(-1), state, limit);
    assert(run(p8, state, limit) == Some(s8));
    let p9 = p8.push(Op::Move(-1));
    let s9 = s8.moved(-1);
    lemma_run_push(p8, Op::Move(-1), state, limit);
    assert(run(p9, state, limit) == Some(s9));
    let p10 = p9.push(Op::Move(-1));
    let s10 = s9.moved(-1);
    lemma_run_push(p9, Op::Move(-1), state, limit);
    assert(run(p10, state, limit) == Some(s10));
    let p11 = p10 + repeat_op(Op::Move(-1), rel);
    lemma_run_steps(-1, rel, s10, limit);
    let s11 = s10.moved(-(rel as int));
    assert(-1 * rel == -rel);
    lemma_run_concat(p10, repeat_op(Op::Move(-1), rel), state, limit);
    assert(run(p11, state, limit) == Some(s11));
}

/// The body of a loop that counts the cell under the head down and adds to
/// cells of which some lie `rel` cells away.
pub open spec fn carry_7_body(rel: nat) -> Seq<Op> {
    ((Seq::<Op>::empty().push(Op::Add(-1)).push(Op::Move(-1)).push(Op::Move(-1)) + repeat_op(Op::Move(-1), rel)).push(Op::Add(1)) + repeat_op(Op::Move(1), rel)).push(Op::Move(1)).push(Op::Move(1))
}

/// The state after one round of `carry_7_body`.
pub open spec fn carry_7_body_effect(state: State, rel: nat) -> State {
    state.added(-1).moved(-1).moved(-1).moved(-(rel as int)).added(1).moved(rel as int).moved(1).moved(1)
}

/// One round of `carry_7_body` does what `carry_7_body_effect` says.
pub proof fn lemma_carry_7_body(state: State, rel: nat, limit: nat)
    requires
        limit >= 0,
        rel >= 1,
    ensures
        run(carry_7_body(rel), state, limit) == Some(carry_7_body_effect(state, rel)),
{
    let p0 = Seq::<Op>::empty();
    let s0 = state;
    let p1 = p0.push(Op::Add(-1));
    let s1 = s0.added(-1);
    lemma_run_push(p0, Op::Add(-1), state, limit);
    assert(run(p1, state, limit) == Some(s1));
    let p2 = p1.push(Op::Move(-1));
    let s2 = s1.moved(-1);
    lemma_run_push(p1, Op::Move(-1), state, limit);
    assert(run(p2, state, limit) == Some(s2));
    let p3 = p2.push(Op::Move(-1));
    let s3 = s2.moved(-1);
    lemma_run_push(p2, Op::Move(-1), state, limit);
    assert(run(p3, state, limit) == Some(s3));
    let p4 = p3 + repeat_op(Op::Move(-1), rel);
    lemma_run_steps(-1, rel, s3, limit);
    let s4 = s3.moved(-(rel as int));
    assert(-1 * rel == -rel);
    lemma_run_concat(p3, repeat_op(Op::Move(-1), rel), state, limit);
    assert(run(p4, state, limit) == Some(s4));
    let p5 = p4.push(Op::Add(1));
    let s5 = s4.added(1);
    lemma_run_push(p4, Op::Add(1), state, limit);
    assert(run(p5, state, limit) == Some(s5));
    let p6 = p5 + repeat_op(Op::Move(1), rel);
    lemma_run_steps(1, rel, s5, limit);
    let s6 = s5.moved(rel as int);
    assert(1 * rel == rel);
    lemma_run_concat(p5, repeat_op(Op::Move(1), rel), state, limit);
    assert(run(p6, state, limit) == Some(s6));
    let p7 = p6.push(Op::Move(1));
    let s7 = s6.moved(1);
    lemma_run_push(p6, Op::Move(1), state, limit);
    assert(run(p7, state, limit) == Some(s7));
    let p8 = p7.push(Op::Move(1));
    let s8 = s7.moved(1);
    lemma_run_push(p7, Op::Move(1), state, limit);
    assert(run(p8, state, limit) == Some(s8));
}

/// What the loop of `carry_7_body` leaves: zero under the head, and the sums in the
/// other cells.
pub open spec fn carry_7(state: State, rel: nat) -> State {
    state.set(state.head - rel - 2, wrap(state.at(state.head - rel - 2) + state.cell())).set(state.head, 0)
}

/// What holds before each round of the loop of `carry_7_body`, from `start` on.
pub open spec fn carry_7_inv(start: State, now: State, rel: nat) -> bool {
    &&& now.head == start.head
    &&& now.input == start.input
    &&& now.output == start.output
    &&& now.cell() <= start.cell()
    &&& now.at(start.head - rel - 2) == wrap(start.at(start.head - rel - 2) + 1 * (start.cell() - now.cell()))
    &&& forall|i: int| i != start.head && i != start.head - rel - 2 ==> #[trigger] now.at(i) == start.at(i)
}

#[verifier::rlimit(50)]
proof fn lemma_carry_7_round(start: State, now: State, rel: nat)
    requires
        rel >= 1,
        carry_7_inv(start, now, rel),
        now.cell() != 0,
    ensures
        carry_7_inv(start, carry_7_body_effect(now, rel), rel),
        carry_7_body_effect(now, rel).cell() == now.cell() - 1,
{
    let next = carry_7_body_effect(now, rel);
    assert(next.head == now.head);
    assert(next.cell() == now.cell() - 1);
    assert(next.at(start.head - rel - 2) == wrap(now.at(start.head - rel - 2) + 1));
    assert forall|i: int| i != start.head && i != start.head - rel - 2 implies #[trigger] next.at(i) == start.at(i) by {
        assert(now.at(i) == start.at(i));
    }
}

/// The loop of `carry_7_body` does what `carry_7` says.
pub proof fn lemma_carry_7(state: State, rel: nat, limit: nat)
    requires
        limit >= 255,
        rel >= 1,
    ensures
        run_loop(carry_7_body(rel), state, limit) == Some(carry_7(state, rel)),
{
    let inv = |now: State| carry_7_inv(state, now, rel);
    assert(inv(state));
    assert forall|now: State| #[trigger] inv(now) && now.cell() != 0 implies ({
        &&& run(carry_7_body(rel), now, 0) is Some
        &&& inv(run(carry_7_body(rel), now, 0)->Some_0)
        &&& run(carry_7_body(rel), now, 0)->Some_0.cell() < now.cell()
    }) by {
        lemma_carry_7_body(now, rel, 0);
        lemma_carry_7_round(state, now, rel);
    }
    lemma_loop_invariant(carry_7_body(rel), state, limit, 0, inv);
    let end = run_loop(carry_7_body(rel), state, limit)->Some_0;
    assert(inv(end));
    let expected = carry_7(state, rel);
    assert forall|i: int| #[trigger] (end.cells)(i) == (expected.cells)(i) by {
        if i != state.head && i != state.head - rel - 2 {
            assert(end.at(i) == state.at(i));
        }
        assert(end.at(i) == expected.at(i));
    }
    assert(end.cells =~= expected.cells);
    assert(end =~= expected);
}

/// The state after the code of `/=` for a variable `rel` cells left of the head.
pub open spec fn assign_slash_effect(state: State, rel: nat) -> State {
    carry_7(divide_far(state.moved(1).write(0).added(1).moved(1).write(0).moved(1).write(0).moved(1).write(0).moved(-1).moved(-1).moved(-1).moved(-1).moved(-(rel as int)), rel).moved(rel as int).moved(1).moved(1), rel).moved(-1).moved(-1).write(0).moved(1).write(0).moved(-1)
}

/// The operations of `assign_slash_ops` do what `assign_slash_effect` says.
pub proof fn lemma_assign_slash_effect(state: State, rel: nat, limit: nat)
    requires
        limit >= 520,
        rel >= 1,
    ensures
        run(assign_slash_ops(rel), state, limit) == Some(assign_slash_effect(state, rel)),
{
    let p0 = Seq::<Op>::empty();
    let s0 = state;
    let p1 = p0.push(Op::Move(1));
    let s1 = s0.moved(1);
    lemma_run_push(p0, Op::Move(1), state, limit);
    assert(run(p1, state, limit) == Some(s1));
    let p2 = p1.push(Op::Loop(Seq::<Op>::empty().push(Op::Add(-1))));
    lemma_clear(s1, limit);
    let s2 = s1.write(0);
    lemma_run_push(p1, Op::Loop(Seq::<Op>::empty().push(Op::Add(-1))), state, limit);
    assert(run(p2, state, limit) == Some(s2));
    let p3 = p2.push(Op::Add(1));
    let s3 = s2.added(1);
    lemma_run_push(p2, Op::Add(1), state, limit);
    assert(run(p3, state, limit) == Some(s3));
    let p4 = p3.push(Op::Move(1));
    let s4 = s3.moved(1);
    lemma_run_push(p3, Op::Move(1), state, limit);
    assert(run(p4, state, limit) == Some(s4));
    let p5 = p4.push(Op::Loop(Seq::<Op>::empty().push(Op::Add(-1))));
    lemma_clear(s4, limit);
    let s5 = s4.write(0);
    lemma_run_push(p4, Op::Loop(Seq::<Op>::empty().push(Op::Add(-1))), state, limit);
    assert(run(p5, state, limit) == Some(s5));
    let p6 = p5.push(Op::Move(1));
    let s6 = s5.moved(1);
    lemma_run_push(p5, Op::Move(1), state, limit);
    assert(run(p6, state, limit) == Some(s6));
    let p7 = p6.push(Op::Loop(Seq::<Op>::empty().push(Op::Add(-1))));
    lemma_clear(s6, limit);
    let s7 = s6.write(0);
    lemma_run_push(p6, Op::Loop(Seq::<Op>::empty().push(Op::Add(-1))), state, limit);
    assert(run(p7, state, limit) == Some(s7));
    let p8 = p7.push(Op::Move(1));
    let s8 = s7.moved(1);
    lemma_run_push(p7, Op::Move(1), state, limit);
    assert(run(p8, state, limit) == Some(s8));
    let p9 = p8.push(Op::Loop(Seq::<Op>::empty().push(Op::Add(-1))));
    lemma_clear(s8, limit);
    let s9 = s8.write(0);
    lemma_run_push(p8, Op::Loop(Seq::<Op>::empty().push(Op::Add(-1))), state, limit);
    assert(run(p9, state, limit) == Some(s9));
    let p10 = p9.push(Op::Move(-1));
    let s10 = s9.moved(-1);
    lemma_run_push(p9, Op::Move(-1), state, limit);
    assert(run(p10, state, limit) == Some(s10));
    let p11 = p10.push(Op::Move(-1));
    let s11 = s10.moved(-1);
    lemma_run_push(p10, Op::Move(-1), state, limit);
    assert(run(p11, state, limit) == Some(s11));
    let p12 = p11.push(Op::Move(-1));
    let s12 = s11.moved(-1);
    lemma_run_push(p11, Op::Move(-1), state, limit);
    assert(run(p12, state, limit) == Some(s12));
    let p13 = p12.push(Op::Move(-1));
    let s13 = s12.moved(-1);
    lemma_run_push(p12, Op::Move(-1), state, limit);
    assert(run(p13, state, limit) == Some(s13));
    let p14 = p13 + repeat_op(Op::Move(-1), rel);
    lemma_run_steps(-1, rel, s13, limit);
    let s14 = s13.moved(-(rel as int));
    assert(-1 * rel == -rel);
    lemma_run_concat(p13, repeat_op(Op::Move(-1), rel), state, limit);
    assert(run(p14, state, limit) == Some(s14));
    let p15 = p14.push(Op::Loop(((Seq::<Op>::empty().push(Op::Add(-1)) + repeat_op(Op::Move(1), rel)).push(Op::Add(-1)).push(Op::Loop(Seq::<Op>::empty().push(Op::Move(1)).push(Op::Add(1)).push(Op::Move(1)).push(Op::Move(1)))).push(Op::Move(1)).push(Op::Loop(Seq::<Op>::empty().push(Op::Loop(Seq::<Op>::empty().push(Op::Add(-1)).push(Op::Move(-1)).push(Op::Add(1)).push(Op::Move(1)))).push(Op::Add(1)).push(Op::Move(1)).push(Op::Add(1)).push(Op::Move(1)).push(Op::Move(1)))).push(Op::Move(-1)).push(Op::Move(-1)).push(Op::Move(-1)).push(Op::Move(-1)) + repeat_op(Op::Move(-1), rel))));
    lemma_divide_far(s14, rel, limit);
    let s15 = divide_far(s14, rel);
    lemma_run_push(p14, Op::Loop(((Seq::<Op>::empty().push(Op::Add(-1)) + repeat_op(Op::Move(1), rel)).push(Op::Add(-1)).push(Op::Loop(Seq::<Op>::empty().push(Op::Move(1)).push(Op::Add(1)).push(Op::Move(1)).push(Op::Move(1)))).push(Op::Move(1)).push(Op::Loop(Seq::<Op>::empty().push(Op::Loop(Seq::<Op>::empty().push(Op::Add(-1)).push(Op::Move(-1)).push(Op::Add(1)).push(Op::Move(1)))).push(Op::Add(1)).push(Op::Move(1)).push(Op::Add(1)).push(Op::Move(1)).push(Op::Move(1)))).push(Op::Move(-1)).push(Op::Move(-1)).push(Op::Move(-1)).push(Op::Move(-1)) + repeat_op(Op::Move(-1), rel))), state, limit);
    assert(run(p15, state, limit) == Some(s15));
    let p16 = p15 + repeat_op(Op::Move(1), rel);
    lemma_run_steps(1, rel, s15, limit);
    let s16 = s15.moved(rel as int);
    assert(1 * rel == rel);
    lemma_run_concat(p15, repeat_op(Op::Move(1), rel), state, limit);
    assert(run(p16, state, limit) == Some(s16));
    let p17 = p16.push(Op::Move(1));
    let s17 = s16.moved(1);
    lemma_run_push(p16, Op::Move(1), state, limit);
    assert(run(p17, state, limit) == Some(s17));
    let p18 = p17.push(Op::Move(1));
    let s18 = s17.moved(1);
    lemma_run_push(p17, Op::Move(1), state, limit);
    assert(run(p18, state, limit) == Some(s18));
    let p19 = p18.push(Op::Loop(((Seq::<Op>::empty().push(Op::Add(-1)).push(Op::Move(-1)).push(Op::Move(-1)) + repeat_op(Op::Move(-1), rel)).push(Op::Add(1)) + repeat_op(Op::Move(1), rel)).push(Op::Move(1)).push(Op::Move(1))));
    lemma_carry_7(s18, rel, limit);
    let s19 = carry_7(s18, rel);
    lemma_run_push(p18, Op::Loop(((Seq::<Op>::empty().push(Op::Add(-1)).push(Op::Move(-1)).push(Op::Move(-1)) + repeat_op(Op::Move(-1), rel)).push(Op::Add(1)) + repeat_op(Op::Move(1), rel)).push(Op::Move(1)).push(Op::Move(1))), state, limit);
    assert(run(p19, state, limit) == Some(s19));
    let p20 = p19.push(Op::Move(-1));
    let s20 = s19.moved(-1);
    lemma_run_push(p19, Op::Move(-1), state, limit);
    assert(run(p20, state, limit) == Some(s20));
    let p21 = p20.push(Op::Move(-1));
    let s21 = s20.moved(-1);
    lemma_run_push(p20, Op::Move(-1), state, limit);
    assert(run(p21, state, limit) == Some(s21));
    let p22 = p21.push(Op::Loop(Seq::<Op>::empty().push(Op::Add(-1))));
    lemma_clear(s21, limit);
    let s22 = s21.write(0);
    lemma_run_push(p21, Op::Loop(Seq::<Op>::empty().push(Op::Add(-1))), state, limit);
    assert(run(p22, state, limit) == Some(s22));
    let p23 = p22.push(Op::Move(1));
    let s23 = s22.moved(1);
    lemma_run_push(p22, Op::Move(1), state, limit);
    assert(run(p23, state, limit) == Some(s23));
    let p24 = p23.push(Op::Loop(Seq::<Op>::empty().push(Op::Add(-1))));
    lemma_clear(s23, limit);
    let s24 = s23.write(0);
    lemma_run_push(p23, Op::Loop(Seq::<Op>::empty().push(Op::Add(-1))), state, limit);
    assert(run(p24, state, limit) == Some(s24));
    let p25 = p24.push(Op::Move(-1));
    let s25 = s24.moved(-1);
    lemma_run_push(p24, Op::Move(-1), state, limit);
    assert(run(p25, state, limit) == Some(s25));
}

/// One round of the loop that takes the remainder of the cell under the head by a divisor `rel` cells right of it.
pub open spec fn remainder_far_body(rel: nat) -> Seq<Op> {
    ((Seq::<Op>::empty().push(Op::Add(-1)) + repeat_op(Op::Move(1), rel)).push(Op::Add(-1)).push(Op::Loop(Seq::<Op>::empty().push(Op::Move(1)).push(Op::Add(1)).push(Op::Move(1)).push(Op::Move(1)))).push(Op::Move(1)).push(Op::Loop(Seq::<Op>::empty().push(Op::Loop(Seq::<Op>::empty().push(Op::Add(-1)).push(Op::Move(-1)).push(Op::Add(1)).push(Op::Move(1)))).push(Op::Add(1)).push(Op::Move(1)).push(Op::Move(1)).push(Op::Move(1)))).push(Op::Move(-1)).push(Op::Move(-1)).push(Op::Move(-1)).push(Op::Move(-1)) + repeat_op(Op::Move(-1), rel))
}

/// The state after one round of `remainder_far_body`.
pub open spec fn remainder_far_body_effect(state: State, rel: nat) -> State {
    jump_20(jump_17(state.added(-1).moved(rel as int).added(-1)).moved(1)).moved(-1).moved(-1).moved(-1).moved(-1).moved(-(rel as int))
}

/// One round of `remainder_far_body` does what `remainder_far_body_effect` says.
pub proof fn lemma_remainder_far_body(state: State, rel: nat, limit: nat)
    requires
        limit >= 256,
        rel >= 1,
        state.at(state.head + rel + 3) == 0,
        state.at(state.head + rel + 4) == 0,
    ensures
        run(remainder_far_body(rel), state, limit) == Some(remainder_far_body_effect(state, rel)),
{
    let p0 = Seq::<Op>::empty();
    let s0 = state;
    let p1 = p0.push(Op::Add(-1));
    let s1 = s0.added(-1);
    lemma_run_push(p0, Op::Add(-1), state, limit);
    assert(run(p1, state, limit) == Some(s1));
    let p2 = p1 + repeat_op(Op::Move(1), rel);
    lemma_run_steps(1, rel, s1, limit);
    let s2 = s1.moved(rel as int);
    assert(1 * rel == rel);
    lemma_run_concat(p1, repeat_op(Op::Move(1), rel), state, limit);
    assert(run(p2, state, limit) == Some(s2));
    let p3 = p2.push(Op::Add(-1));
    let s3 = s2.added(-1);
    lemma_run_push(p2, Op::Add(-1), state, limit);
    assert(run(p3, state, limit) == Some(s3));
    let p4 = p3.push(Op::Loop(Seq::<Op>::empty().push(Op::Move(1)).push(Op::Add(1)).push(Op::Move(1)).push(Op::Move(1))));
    lemma_jump_17(s3, limit);
    let s4 = jump_17(s3);
    lemma_run_push(p3, Op::Loop(Seq::<Op>::empty().push(Op::Move(1)).push(Op::Add(1)).push(Op::Move(1)).push(Op::Move(1))), state, limit);
    assert(run(p4, state, limit) == Some(s4));
    let p5 = p4.push(Op::Move(1));
    let s5 = s4.moved(1);
    lemma_run_push(p4, Op::Move(1), state, limit);
    assert(run(p5, state, limit) == Some(s5));
    let p6 = p5.push(Op::Loop(Seq::<Op>::empty().push(Op::Loop(Seq::<Op>::empty().push(Op::Add(-1)).push(Op::Move(-1)).push(Op::Add(1)).push(Op::Move(1)))).push(Op::Add(1)).push(Op::Move(1)).push(Op::Move(1)).push(Op::Move(1))));
    lemma_jump_20(s5, limit);
    let s6 = jump_20(s5);
    lemma_run_push(p5, Op::Loop(Seq::<Op>::empty().push(Op::Loop(Seq::<Op>::empty().push(Op::Add(-1)).push(Op::Move(-1)).push(Op::Add(1)).push(Op::Move(1)))).push(Op::Add(1)).push(Op::Move(1)).push(Op::Move(1)).push(Op::Move(1))), state, limit);
    assert(run(p6, state, limit) == Some(s6));
    let p7 = p6.push(Op::Move(-1));
    let s7 = s6.moved(-1);
    lemma_run_push(p6, Op::Move(-1), state, limit);
    assert(run(p7, state, limit) == Some(s7));
    let p8 = p7.push(Op::Move(-1));
    let s8 = s7.moved(-1);
    lemma_run_push(p7, Op::Move(-1), state, limit);
    assert(run(p8, state, limit) == Some(s8));
    let p9 = p8.push(Op::Move(-1));
    let s9 = s8.moved(-1);
    lemma_run_push(p8, Op::Move(-1), state, limit);
    assert(run(p9, state, limit) == Some(s9));
    let p10 = p9.push(Op::Move(-1));
    let s10 = s9.moved(-1);
    lemma_run_push(p9, Op::Move(-1), state, limit);
    assert(run(p10, state, limit) == Some(s10));
    let p11 = p10 + repeat_op(Op::Move(-1), rel);
    lemma_run_steps(-1, rel, s10, limit);
    let s11 = s10.moved(-(rel as int));
    assert(-1 * rel == -rel);
    lemma_run_concat(p10, repeat_op(Op::Move(-1), rel), state, limit);
    assert(run(p11, state, limit) == Some(s11));
}

/// The state after the code of `%=` for a variable `rel` cells left of the head.
pub open spec fn assign_percent_effect(state: State, rel: nat) -> State {
    carry_2(remainder_far(state.moved(1).write(0).added(1).moved(1).write(0).moved(1).write(0).moved(1).write(0).moved(-1).moved(-1).moved(-1).moved(-1).moved(-(rel as int)), rel).moved(rel as int).moved(1).added(-1), rel).moved(-1).write(0)
}

/// The operations of `assign_percent_ops` do what `assign_percent_effect` says.
pub proof fn lemma_assign_percent_effect(state: State, rel: nat, limit: nat)
    requires
        limit >= 520,
        rel >= 1,
    ensures
        run(assign_percent_ops(rel), state, limit) == Some(assign_percent_effect(state, rel)),
{
    let p0 = Seq::<Op>::empty();
    let s0 = state;
    let p1 = p0.push(Op::Move(1));
    let s1 = s0.moved(1);
    lemma_run_push(p0, Op::Move(1), state, limit);
    assert(run(p1, state, limit) == Some(s1));
    let p2 = p1.push(Op::Loop(Seq::<Op>::empty().push(Op::Add(-1))));
    lemma_clear(s1, limit);
    let s2 = s1.write(0);
    lemma_run_push(p1, Op::Loop(Seq::<Op>::empty().push(Op::Add(-1))), state, limit);
    assert(run(p2, state, limit) == Some(s2));
    let p3 = p2.push(Op::Add(1));
    let s3 = s2.added(1);
    lemma_run_push(p2, Op::Add(1), state, limit);
    assert(run(p3, state, limit) == Some(s3));
    let p4 = p3.push(Op::Move(1));
    let s4 = s3.moved(1);
    lemma_run_push(p3, Op::Move(1), state, limit);
    assert(run(p4, state, limit) == Some(s4));
    let p5 = p4.push(Op::Loop(Seq::<Op>::empty().push(Op::Add(-1))));
    lemma_clear(s4, limit);
    let s5 = s4.write(0);
    lemma_run_push(p4, Op::Loop(Seq::<Op>::empty().push(Op::Add(-1))), state, limit);
    assert(run(p5, state, limit) == Some(s5));
    let p6 = p5.push(Op::Move(1));
    let s6 = s5.moved(1);
    lemma_run_push(p5, Op::Move(1), state, limit);
    assert(run(p6, state, limit) == Some(s6));
    let p7 = p6.push(Op::Loop(Seq::<Op>::empty().push(Op::Add(-1))));
    lemma_clear(s6, limit);
    let s7 = s6.write(0);
    lemma_run_push(p6, Op::Loop(Seq::<Op>::empty().push(Op::Add(-1))), state, limit);
    assert(run(p7, state, limit) == Some(s7));
    let p8 = p7.push(Op::Move(1));
    let s8 = s7.moved(1);
    lemma_run_push(p7, Op::Move(1), state, limit);
    assert(run(p8, state, limit) == Some(s8));
    let p9 = p8.push(Op::Loop(Seq::<Op>::empty().push(Op::Add(-1))));
    lemma_clear(s8, limit);
    let s9 = s8.write(0);
    lemma_run_push(p8, Op::Loop(Seq::<Op>::empty().push(Op::Add(-1))), state, limit);
    assert(run(p9, state, limit) == Some(s9));
    let p10 = p9.push(Op::Move(-1));
    let s10 = s9.moved(-1);
    lemma_run_push(p9, Op::Move(-1), state, limit);
    assert(run(p10, state, limit) == Some(s10));
    let p11 = p10.push(Op::Move(-1));
    let s11 = s10.moved(-1);
    lemma_run_push(p10, Op::Move(-1), state, limit);
    assert(run(p11, state, limit) == Some(s11));
    let p12 = p11.push(Op::Move(-1));
    let s12 = s11.moved(-1);
    lemma_run_push(p11, Op::Move(-1), state, limit);
    assert(run(p12, state, limit) == Some(s12));
    let p13 = p12.push(Op::Move(-1));
    let s13 = s12.moved(-1);
    lemma_run_push(p12, Op::Move(-1), state, limit);
    assert(run(p13, state, limit) == Some(s13));
    let p14 = p13 + repeat_op(Op::Move(-1), rel);
    lemma_run_steps(-1, rel, s13, limit);
    let s14 = s13.moved(-(rel as int));
    assert(-1 * rel == -rel);
    lemma_run_concat(p13, repeat_op(Op::Move(-1), rel), state, limit);
    assert(run(p14, state, limit) == Some(s14));
    let p15 = p14.push(Op::Loop(((Seq::<Op>::empty().push(Op::Add(-1)) + repeat_op(Op::Move(1), rel)).push(Op::Add(-1)).push(Op::Loop(Seq::<Op>::empty().push(Op::Move(1)).push(Op::Add(1)).push(Op::Move(1)).push(Op::Move(1)))).push(Op::Move(1)).push(Op::Loop(Seq::<Op>::empty().push(Op::Loop(Seq::<Op>::empty().push(Op::Add(-1)).push(Op::Move(-1)).push(Op::Add(1)).push(Op::Move(1)))).push(Op::Add(1)).push(Op::Move(1)).push(Op::Move(1)).push(Op::Move(1)))).push(Op::Move(-1)).push(Op::Move(-1)).push(Op::Move(-1)).push(Op::Move(-1)) + repeat_op(Op::Move(-1), rel))));
    lemma_remainder_far(s14, rel, limit);
    let s15 = remainder_far(s14, rel);
    lemma_run_push(p14, Op::Loop(((Seq::<Op>::empty().push(Op::Add(-1)) + repeat_op(Op::Move(1), rel)).push(Op::Add(-1)).push(Op::Loop(Seq::<Op>::empty().push(Op::Move(1)).push(Op::Add(1)).push(Op::Move(1)).push(Op::Move(1)))).push(Op::Move(1)).push(Op::Loop(Seq::<Op>::empty().push(Op::Loop(Seq::<Op>::empty().push(Op::Add(-1)).push(Op::Move(-1)).push(Op::Add(1)).push(Op::Move(1)))).push(Op::Add(1)).push(Op::Move(1)).push(Op::Move(1)).push(Op::Move(1)))).push(Op::Move(-1)).push(Op::Move(-1)).push(Op::Move(-1)).push(Op::Move(-1)) + repeat_op(Op::Move(-1), rel))), state, limit);
    assert(run(p15, state, limit) == Some(s15));
    let p16 = p15 + repeat_op(Op::Move(1), rel);
    lemma_run_steps(1, rel, s15, limit);
    let s16 = s15.moved(rel as int);
    assert(1 * rel == rel);
    lemma_run_concat(p15, repeat_op(Op::Move(1), rel), state, limit);
    assert(run(p16, state, limit) == Some(s16));
    let p17 = p16.push(Op::Move(1));
    let s17 = s16.moved(1);
    lemma_run_push(p16, Op::Move(1), state, limit);
    assert(run(p17, state, limit) == Some(s17));
    let p18 = p17.push(Op::Add(-1));
    let s18 = s17.added(-1);
    lemma_run_push(p17, Op::Add(-1), state, limit);
    assert(run(p18, state, limit) == Some(s18));
    let p19 = p18.push(Op::Loop(((Seq::<Op>::empty().push(Op::Add(-1)).push(Op::Move(-1)) + repeat_op(Op::Move(-1), rel)).push(Op::Add(1)) + repeat_op(Op::Move(1), rel)).push(Op::Move(1))));
    lemma_carry_2(s18, rel, limit);
    let s19 = carry_2(s18, rel);
    lemma_run_push(p18, Op::Loop(((Seq::<Op>::empty().push(Op::Add(-1)).push(Op::Move(-1)) + repeat_op(Op::Move(-1), rel)).push(Op::Add(1)) + repeat_op(Op::Move(1), rel)).push(Op::Move(1))), state, limit);
    assert(run(p19, state, limit) == Some(s19));
    let p20 = p19.push(Op::Move(-1));
    let s20 = s19.moved(-1);
    lemma_run_push(p19, Op::Move(-1), state, limit);
    assert(run(p20, state, limit) == Some(s20));
    let p21 = p20.push(Op::Loop(Seq::<Op>::empty().push(Op::Add(-1))));
    lemma_clear(s20, limit);
    let s21 = s20.write(0);
    lemma_run_push(p20, Op::Loop(Seq::<Op>::empty().push(Op::Add(-1))), state, limit);
    assert(run(p21, state, limit) == Some(s21));
}

} // verus!
