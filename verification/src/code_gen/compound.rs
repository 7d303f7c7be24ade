//! What the loops of the compound assignments do that multiply and divide.
//!
//! They are the loops of `*`, `/` and `%`, but the variable lies `rel`
//! cells left of the cells on which they work.

use vstd::prelude::*;
use crate::brainfuck::loops::lemma_loop_invariant;
use crate::brainfuck::semantics::{run, run_loop, wrap, State};
use crate::code_gen::division::{counted, lemma_division_step};
use crate::code_gen::effects::{
    divide_far_body, divide_far_body_effect, lemma_divide_far_body, lemma_multiply_far_body,
    lemma_remainder_far_body, multiply_far_body, multiply_far_body_effect, remainder_far_body,
    remainder_far_body_effect,
};

verus! {

/// Whether `after` is as `before` in every cell but `other` and the cells
/// from `low` to `high`, and nothing has been read or written.
pub open spec fn same_but(before: State, after: State, low: int, high: int, other: int) -> bool {
    &&& after.input == before.input
    &&& after.output == before.output
    &&& forall|i: int| (i < low || i > high) && i != other ==> #[trigger] after.at(i) == before.at(i)
}

/// The state after the loop that adds the cell right of the head to the
/// cell `rel` cells left of it for each unit of the cell under the head.
pub open spec fn multiply_far(state: State, rel: nat) -> State {
    state.set(
        state.head - rel,
        wrap(state.at(state.head - rel) + state.at(state.head + 1) * state.cell()),
    ).set(state.head, 0)
}

/// What holds before each round of that loop, from `start` on.
pub open spec fn multiplying_far(start: State, now: State, rel: nat) -> bool {
    let p = start.head;
    &&& now.head == p
    &&& now.at(p + 1) == start.at(p + 1)
    &&& now.at(p + 2) == 0
    &&& now.cell() <= start.cell()
    &&& now.at(p - rel) == wrap(
        start.at(p - rel) + start.at(p + 1) * (start.cell() - now.cell()),
    )
    &&& same_but(start, now, p, p + 2, p - rel)
}

proof fn lemma_multiply_far_round(start: State, now: State, rel: nat)
    requires
        rel >= 1,
        multiplying_far(start, now, rel),
        now.cell() != 0,
    ensures
        multiplying_far(start, multiply_far_body_effect(now, rel), rel),
        multiply_far_body_effect(now, rel).cell() == now.cell() - 1,
{
    let next = multiply_far_body_effect(now, rel);
    let p = start.head;
    let m = start.at(p + 1) as int;
    let done = start.cell() - now.cell();
    assert(m * (done + 1) == m * done + m) by (nonlinear_arith);
    assert(next.at(p - rel) == wrap(now.at(p - rel) + m));
    assert forall|i: int| (i < p || i > p + 2) && i != p - rel implies #[trigger] next.at(i)
        == start.at(i) by {
        assert(now.at(i) == start.at(i));
    }
}

/// The loop adds to the cell `rel` cells left of the head the product of
/// the cell right of the head and the cell under it. It needs zero in the
/// second cell right of the head.
pub proof fn lemma_multiply_far(state: State, rel: nat, limit: nat)
    requires
        limit >= 512,
        rel >= 1,
        state.at(state.head + 2) == 0,
    ensures
        run_loop(multiply_far_body(rel), state, limit) == Some(multiply_far(state, rel)),
{
    let p = state.head;
    let inv = |now: State| multiplying_far(state, now, rel);
    assert(state.at(p + 1) * (state.cell() - state.cell()) == 0) by (nonlinear_arith);
    assert(inv(state));
    assert forall|now: State| #[trigger] inv(now) && now.cell() != 0 implies ({
        &&& run(multiply_far_body(rel), now, 256) is Some
        &&& inv(run(multiply_far_body(rel), now, 256)->Some_0)
        &&& run(multiply_far_body(rel), now, 256)->Some_0.cell() < now.cell()
    }) by {
        lemma_multiply_far_body(now, rel, 256);
        lemma_multiply_far_round(state, now, rel);
    }
    lemma_loop_invariant(multiply_far_body(rel), state, limit, 256, inv);
    let end = run_loop(multiply_far_body(rel), state, limit)->Some_0;
    assert(inv(end));
    let expected = multiply_far(state, rel);
    assert forall|i: int| #[trigger] (end.cells)(i) == (expected.cells)(i) by {
        if (i < p || i > p + 2) && i != p - rel {
            assert(end.at(i) == state.at(i));
        }
        assert(end.at(i) == expected.at(i));
    }
    assert(end.cells =~= expected.cells);
    assert(end =~= expected);
}

/// The state after the loop that divides the cell under the head by the
/// divisor `rel` cells right of it: zero under the head, and from the cell
/// of the divisor on what is left of the divisor, one more than the
/// remainder, and the quotient.
pub open spec fn divide_far(state: State, rel: nat) -> State {
    let w = state.head + rel;
    let n = state.cell() as int;
    let d = counted(state.at(w) as int);
    state.set(w, ((d - n % d) % 256) as u8).set(w + 1, ((1 + n % d) % 256) as u8).set(
        w + 2,
        (n / d) as u8,
    ).set(state.head, 0)
}

/// The state after the loop that takes the remainder of the cell under the
/// head by the divisor `rel` cells right of it.
pub open spec fn remainder_far(state: State, rel: nat) -> State {
    let w = state.head + rel;
    let n = state.cell() as int;
    let d = counted(state.at(w) as int);
    state.set(w, ((d - n % d) % 256) as u8).set(w + 1, ((1 + n % d) % 256) as u8).set(
        state.head,
        0,
    )
}

/// What holds before each round of the two loops, from `start` on. With
/// `counting`, the rounds that have ended are counted.
pub open spec fn dividing_far(start: State, now: State, rel: nat, counting: bool) -> bool {
    let p = start.head;
    let w = p + rel;
    let n = start.cell() as int;
    let d = counted(start.at(w) as int);
    let r = n - now.cell();
    &&& now.head == p
    &&& now.at(w + 3) == 0
    &&& now.at(w + 4) == 0
    &&& now.cell() <= n
    &&& now.at(w) == (d - r % d) % 256
    &&& now.at(w + 1) == (1 + r % d) % 256
    &&& now.at(w + 2) == if counting {
        r / d
    } else {
        0
    }
    &&& same_but(start, now, w, w + 4, p)
}

proof fn lemma_divide_far_round(start: State, now: State, rel: nat)
    requires
        rel >= 1,
        dividing_far(start, now, rel, true),
        now.cell() != 0,
    ensures
        dividing_far(start, divide_far_body_effect(now, rel), rel, true),
        divide_far_body_effect(now, rel).cell() == now.cell() - 1,
{
    let next = divide_far_body_effect(now, rel);
    let p = start.head;
    let w = p + rel;
    let d = counted(start.at(w) as int);
    let r = start.cell() - now.cell();
    lemma_division_step(r, d);
    assert forall|i: int| (i < w || i > w + 4) && i != p implies #[trigger] next.at(i)
        == start.at(i) by {
        assert(now.at(i) == start.at(i));
    }
}

proof fn lemma_remainder_far_round(start: State, now: State, rel: nat)
    requires
        rel >= 1,
        dividing_far(start, now, rel, false),
        now.cell() != 0,
    ensures
        dividing_far(start, remainder_far_body_effect(now, rel), rel, false),
        remainder_far_body_effect(now, rel).cell() == now.cell() - 1,
{
    let next = remainder_far_body_effect(now, rel);
    let p = start.head;
    let w = p + rel;
    let d = counted(start.at(w) as int);
    let r = start.cell() - now.cell();
    lemma_division_step(r, d);
    assert forall|i: int| (i < w || i > w + 4) && i != p implies #[trigger] next.at(i)
        == start.at(i) by {
        assert(now.at(i) == start.at(i));
    }
}

/// The loop that divides counts how often the divisor goes into the cell
/// under the head. It needs 1 behind the divisor, and zero in the three
/// cells behind that.
pub proof fn lemma_divide_far(state: State, rel: nat, limit: nat)
    requires
        limit >= 520,
        rel >= 1,
        state.at(state.head + rel + 1) == 1,
        state.at(state.head + rel + 2) == 0,
        state.at(state.head + rel + 3) == 0,
        state.at(state.head + rel + 4) == 0,
    ensures
        run_loop(divide_far_body(rel), state, limit) == Some(divide_far(state, rel)),
{
    let p = state.head;
    let w = p + rel;
    let d = counted(state.at(w) as int);
    lemma_division_step(0, d);
    lemma_division_step(state.cell() as int, d);
    let inv = |now: State| dividing_far(state, now, rel, true);
    assert(inv(state));
    assert forall|now: State| #[trigger] inv(now) && now.cell() != 0 implies ({
        &&& run(divide_far_body(rel), now, 257) is Some
        &&& inv(run(divide_far_body(rel), now, 257)->Some_0)
        &&& run(divide_far_body(rel), now, 257)->Some_0.cell() < now.cell()
    }) by {
        lemma_divide_far_body(now, rel, 257);
        lemma_divide_far_round(state, now, rel);
    }
    lemma_loop_invariant(divide_far_body(rel), state, limit, 257, inv);
    let end = run_loop(divide_far_body(rel), state, limit)->Some_0;
    assert(inv(end));
    let expected = divide_far(state, rel);
    assert forall|i: int| #[trigger] (end.cells)(i) == (expected.cells)(i) by {
        if (i < w || i > w + 4) && i != p {
            assert(end.at(i) == state.at(i));
        }
        assert(end.at(i) == expected.at(i));
    }
    assert(end.cells =~= expected.cells);
    assert(end =~= expected);
}

/// The loop that takes a remainder leaves one more than the remainder of
/// the cell under the head by the divisor. It needs 1 behind the divisor,
/// and zero in the three cells behind that.
pub proof fn lemma_remainder_far(state: State, rel: nat, limit: nat)
    requires
        limit >= 520,
        rel >= 1,
        state.at(state.head + rel + 1) == 1,
        state.at(state.head + rel + 2) == 0,
        state.at(state.head + rel + 3) == 0,
        state.at(state.head + rel + 4) == 0,
    ensures
        run_loop(remainder_far_body(rel), state, limit) == Some(remainder_far(state, rel)),
{
    let p = state.head;
    let w = p + rel;
    let d = counted(state.at(w) as int);
    lemma_division_step(0, d);
    lemma_division_step(state.cell() as int, d);
    let inv = |now: State| dividing_far(state, now, rel, false);
    assert(inv(state));
    assert forall|now: State| #[trigger] inv(now) && now.cell() != 0 implies ({
        &&& run(remainder_far_body(rel), now, 257) is Some
        &&& inv(run(remainder_far_body(rel), now, 257)->Some_0)
        &&& run(remainder_far_body(rel), now, 257)->Some_0.cell() < now.cell()
    }) by {
        lemma_remainder_far_body(now, rel, 257);
        lemma_remainder_far_round(state, now, rel);
    }
    lemma_loop_invariant(remainder_far_body(rel), state, limit, 257, inv);
    let end = run_loop(remainder_far_body(rel), state, limit)->Some_0;
    assert(inv(end));
    let expected = remainder_far(state, rel);
    assert forall|i: int| #[trigger] (end.cells)(i) == (expected.cells)(i) by {
        if (i < w || i > w + 4) && i != p {
            assert(end.at(i) == state.at(i));
        }
        assert(end.at(i) == expected.at(i));
    }
    assert(end.cells =~= expected.cells);
    assert(end =~= expected);
}

} // verus!
