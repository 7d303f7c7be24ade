//! What the loops of the generated code do that count one cell down and
//! change another on the way, by more than an addition.

use vstd::prelude::*;
use crate::brainfuck::loops::lemma_loop_invariant;
use crate::brainfuck::semantics::{run, run_loop, wrap, State};
use crate::code_gen::effects::{
    lemma_multiply_body, lemma_wear_left_body, lemma_wear_right_body, multiply_body,
    multiply_body_effect, wear_left_body, wear_left_body_effect, wear_right_body,
    wear_right_body_effect,
};

verus! {

/// `value` less `amount`, but not less than zero.
pub open spec fn worn(value: u8, amount: int) -> u8 {
    if value > amount {
        (value - amount) as u8
    } else {
        0
    }
}

/// Whether `after` is as `before` outside of the cells from `low` to `high`:
/// those cells are the same, and nothing has been read or written.
pub open spec fn same_outside(before: State, after: State, low: int, high: int) -> bool {
    &&& after.input == before.input
    &&& after.output == before.output
    &&& forall|i: int| (i < low || i > high) ==> #[trigger] after.at(i) == before.at(i)
}

/// The state after the loop that wears the cell right of the head down by
/// the cell under the head.
pub open spec fn wear_right(state: State) -> State {
    state.set(state.head + 1, worn(state.at(state.head + 1), state.cell() as int)).set(
        state.head,
        0,
    )
}

/// What holds before each round of the loop that wears the cell right of
/// the head down, from `start` on.
pub open spec fn wearing_right(start: State, now: State) -> bool {
    let p = start.head;
    &&& now.head == p
    &&& now.at(p + 2) == 0
    &&& now.at(p + 3) == 0
    &&& now.cell() <= start.cell()
    &&& now.at(p + 1) == worn(start.at(p + 1), start.cell() - now.cell())
    &&& same_outside(start, now, p, p + 3)
}

proof fn lemma_wear_right_round(start: State, now: State)
    requires
        wearing_right(start, now),
        now.cell() != 0,
    ensures
        wearing_right(start, wear_right_body_effect(now)),
        wear_right_body_effect(now).cell() == now.cell() - 1,
{
    let next = wear_right_body_effect(now);
    let p = start.head;
    assert forall|i: int| (i < p || i > p + 3) implies #[trigger] next.at(i) == start.at(i) by {
        assert(now.at(i) == start.at(i));
    }
}

/// The loop that wears the cell right of the head down takes from it what
/// is under the head, but leaves it at zero at least. It needs zero in the
/// two cells behind that cell.
pub proof fn lemma_wear_right(state: State, limit: nat)
    requires
        limit >= 512,
        state.at(state.head + 2) == 0,
        state.at(state.head + 3) == 0,
    ensures
        run_loop(wear_right_body(), state, limit) == Some(wear_right(state)),
{
    let inv = |now: State| wearing_right(state, now);
    assert forall|now: State| #[trigger] inv(now) && now.cell() != 0 implies ({
        &&& run(wear_right_body(), now, 256) is Some
        &&& inv(run(wear_right_body(), now, 256)->Some_0)
        &&& run(wear_right_body(), now, 256)->Some_0.cell() < now.cell()
    }) by {
        lemma_wear_right_body(now, 256);
        lemma_wear_right_round(state, now);
    }
    lemma_loop_invariant(wear_right_body(), state, limit, 256, inv);
    let end = run_loop(wear_right_body(), state, limit)->Some_0;
    assert(inv(end));
    let p = state.head;
    let expected = wear_right(state);
    assert forall|i: int| #[trigger] (end.cells)(i) == (expected.cells)(i) by {
        if i < p || i > p + 3 {
            assert(end.at(i) == state.at(i));
        }
        assert(end.at(i) == expected.at(i));
    }
    assert(end.cells =~= expected.cells);
    assert(end =~= expected);
}

/// The state after the loop that wears the cell left of the head down by
/// the cell under the head.
pub open spec fn wear_left(state: State) -> State {
    state.set(state.head - 1, worn(state.at(state.head - 1), state.cell() as int)).set(
        state.head,
        0,
    )
}

/// What holds before each round of the loop that wears the cell left of the
/// head down, from `start` on.
pub open spec fn wearing_left(start: State, now: State) -> bool {
    let p = start.head;
    &&& now.head == p
    &&& now.at(p + 1) == 0
    &&& now.at(p + 2) == 0
    &&& now.cell() <= start.cell()
    &&& now.at(p - 1) == worn(start.at(p - 1), start.cell() - now.cell())
    &&& same_outside(start, now, p - 1, p + 2)
}

proof fn lemma_wear_left_round(start: State, now: State)
    requires
        wearing_left(start, now),
        now.cell() != 0,
    ensures
        wearing_left(start, wear_left_body_effect(now)),
        wear_left_body_effect(now).cell() == now.cell() - 1,
{
    let next = wear_left_body_effect(now);
    let p = start.head;
    assert forall|i: int| (i < p - 1 || i > p + 2) implies #[trigger] next.at(i) == start.at(
        i,
    ) by {
        assert(now.at(i) == start.at(i));
    }
}

/// The loop that wears the cell left of the head down takes from it what is
/// under the head, but leaves it at zero at least. It needs zero in the two
/// cells right of the head.
pub proof fn lemma_wear_left(state: State, limit: nat)
    requires
        limit >= 512,
        state.at(state.head + 1) == 0,
        state.at(state.head + 2) == 0,
    ensures
        run_loop(wear_left_body(), state, limit) == Some(wear_left(state)),
{
    let inv = |now: State| wearing_left(state, now);
    assert forall|now: State| #[trigger] inv(now) && now.cell() != 0 implies ({
        &&& run(wear_left_body(), now, 256) is Some
        &&& inv(run(wear_left_body(), now, 256)->Some_0)
        &&& run(wear_left_body(), now, 256)->Some_0.cell() < now.cell()
    }) by {
        lemma_wear_left_body(now, 256);
        lemma_wear_left_round(state, now);
    }
    lemma_loop_invariant(wear_left_body(), state, limit, 256, inv);
    let end = run_loop(wear_left_body(), state, limit)->Some_0;
    assert(inv(end));
    let p = state.head;
    let expected = wear_left(state);
    assert forall|i: int| #[trigger] (end.cells)(i) == (expected.cells)(i) by {
        if i < p - 1 || i > p + 2 {
            assert(end.at(i) == state.at(i));
        }
        assert(end.at(i) == expected.at(i));
    }
    assert(end.cells =~= expected.cells);
    assert(end =~= expected);
}

/// The state after the loop that adds the cell right of the head to the
/// cell left of it for each unit of the cell under the head.
pub open spec fn multiply(state: State) -> State {
    state.set(
        state.head - 1,
        wrap(state.at(state.head - 1) + state.at(state.head + 1) * state.cell()),
    ).set(state.head, 0)
}

/// What holds before each round of the loop that multiplies, from `start`
/// on.
pub open spec fn multiplying(start: State, now: State) -> bool {
    let p = start.head;
    &&& now.head == p
    &&& now.at(p + 1) == start.at(p + 1)
    &&& now.at(p + 2) == 0
    &&& now.cell() <= start.cell()
    &&& now.at(p - 1) == wrap(
        start.at(p - 1) + start.at(p + 1) * (start.cell() - now.cell()),
    )
    &&& same_outside(start, now, p - 1, p + 2)
}

proof fn lemma_multiply_round(start: State, now: State)
    requires
        multiplying(start, now),
        now.cell() != 0,
    ensures
        multiplying(start, multiply_body_effect(now)),
        multiply_body_effect(now).cell() == now.cell() - 1,
{
    let next = multiply_body_effect(now);
    let p = start.head;
    let m = start.at(p + 1) as int;
    let done = start.cell() - now.cell();
    assert(m * (done + 1) == m * done + m) by (nonlinear_arith);
    assert(next.at(p - 1) == wrap(now.at(p - 1) + m));
    assert forall|i: int| (i < p - 1 || i > p + 2) implies #[trigger] next.at(i) == start.at(
        i,
    ) by {
        assert(now.at(i) == start.at(i));
    }
}

/// The loop that multiplies adds to the cell left of the head the product
/// of the cell right of the head and the cell under it. It needs zero in
/// the second cell right of the head.
pub proof fn lemma_multiply(state: State, limit: nat)
    requires
        limit >= 512,
        state.at(state.head + 2) == 0,
    ensures
        run_loop(multiply_body(), state, limit) == Some(multiply(state)),
{
    let inv = |now: State| multiplying(state, now);
    assert(state.at(state.head + 1) * (state.cell() - state.cell()) == 0) by (nonlinear_arith);
    assert forall|now: State| #[trigger] inv(now) && now.cell() != 0 implies ({
        &&& run(multiply_body(), now, 256) is Some
        &&& inv(run(multiply_body(), now, 256)->Some_0)
        &&& run(multiply_body(), now, 256)->Some_0.cell() < now.cell()
    }) by {
        lemma_multiply_body(now, 256);
        lemma_multiply_round(state, now);
    }
    lemma_loop_invariant(multiply_body(), state, limit, 256, inv);
    let end = run_loop(multiply_body(), state, limit)->Some_0;
    assert(inv(end));
    let p = state.head;
    let expected = multiply(state);
    assert forall|i: int| #[trigger] (end.cells)(i) == (expected.cells)(i) by {
        if i < p - 1 || i > p + 2 {
            assert(end.at(i) == state.at(i));
        }
        assert(end.at(i) == expected.at(i));
    }
    assert(end.cells =~= expected.cells);
    assert(end =~= expected);
}

} // verus!
