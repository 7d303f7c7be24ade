//! What the loops of the code of `/` and `%` do.
//!
//! Both count the dividend under the head down. Right of the head stands
//! what is left of the divisor in the current round, behind it one more than
//! what has been taken from it, and behind that the number of rounds that
//! have ended. Two cells behind these stay zero.

use vstd::prelude::*;
use vstd::arithmetic::div_mod::{lemma_fundamental_div_mod, lemma_fundamental_div_mod_converse};
use crate::brainfuck::loops::lemma_loop_invariant;
use crate::brainfuck::semantics::{run, run_loop, State};
use crate::code_gen::counting::same_outside;
use crate::code_gen::effects::{
    divide_body, divide_body_effect, lemma_divide_body, lemma_remainder_body, remainder_body,
    remainder_body_effect,
};

verus! {

/// One more unit of the dividend ends a round where the remainder was one
/// less than the divisor, and else makes the remainder one larger.
pub proof fn lemma_division_step(r: int, d: int)
    requires
        0 <= r,
        1 <= d,
    ensures
        0 <= r % d < d,
        0 <= r / d <= r,
        r % d == d - 1 ==> (r + 1) % d == 0 && (r + 1) / d == r / d + 1,
        r % d != d - 1 ==> (r + 1) % d == r % d + 1 && (r + 1) / d == r / d,
{
    lemma_fundamental_div_mod(r, d);
    let q = r / d;
    let m = r % d;
    assert(0 <= m < d) by (nonlinear_arith)
        requires
            m == r % d,
            1 <= d,
    ;
    assert(0 <= q <= r) by (nonlinear_arith)
        requires
            r == d * q + m,
            0 <= m < d,
            1 <= d,
            0 <= r,
    ;
    if m == d - 1 {
        assert(r + 1 == (q + 1) * d + 0) by (nonlinear_arith)
            requires
                r == d * q + m,
                m == d - 1,
        ;
        lemma_fundamental_div_mod_converse(r + 1, d, q + 1, 0);
    } else {
        assert(r + 1 == q * d + (m + 1)) by (nonlinear_arith)
            requires
                r == d * q + m,
        ;
        lemma_fundamental_div_mod_converse(r + 1, d, q, m + 1);
    }
}

/// The divisor that the loops count with: a divisor of zero counts as 256,
/// because the cell of the divisor is taken from before it is looked at.
pub open spec fn counted(d: int) -> int {
    if d == 0 {
        256
    } else {
        d
    }
}

/// The state after the loop that divides: zero under the head, right of it
/// what is left of the divisor, one more than the remainder, and the
/// quotient.
pub open spec fn divide(state: State) -> State {
    let p = state.head;
    let n = state.cell() as int;
    let d = counted(state.at(p + 1) as int);
    state.set(p + 1, ((d - n % d) % 256) as u8).set(p + 2, ((1 + n % d) % 256) as u8).set(
        p + 3,
        (n / d) as u8,
    ).set(p, 0)
}

/// The state after the loop that takes a remainder: zero under the head,
/// right of it what is left of the divisor, and one more than the remainder.
pub open spec fn remainder(state: State) -> State {
    let p = state.head;
    let n = state.cell() as int;
    let d = counted(state.at(p + 1) as int);
    state.set(p + 1, ((d - n % d) % 256) as u8).set(p + 2, ((1 + n % d) % 256) as u8).set(p, 0)
}

/// What holds before each round of the two loops, from `start` on. With
/// `counting`, the rounds that have ended are counted.
pub open spec fn dividing(start: State, now: State, counting: bool) -> bool {
    let p = start.head;
    let n = start.cell() as int;
    let d = counted(start.at(p + 1) as int);
    let r = n - now.cell();
    &&& now.head == p
    &&& now.at(p + 4) == 0
    &&& now.at(p + 5) == 0
    &&& now.cell() <= n
    &&& now.at(p + 1) == (d - r % d) % 256
    &&& now.at(p + 2) == (1 + r % d) % 256
    &&& now.at(p + 3) == if counting {
        r / d
    } else {
        0
    }
    &&& same_outside(start, now, p, p + 5)
}

proof fn lemma_divide_round(start: State, now: State)
    requires
        dividing(start, now, true),
        now.cell() != 0,
    ensures
        dividing(start, divide_body_effect(now), true),
        divide_body_effect(now).cell() == now.cell() - 1,
{
    let next = divide_body_effect(now);
    let p = start.head;
    let d = counted(start.at(p + 1) as int);
    let r = start.cell() - now.cell();
    lemma_division_step(r, d);
    assert forall|i: int| (i < p || i > p + 5) implies #[trigger] next.at(i) == start.at(i) by {
        assert(now.at(i) == start.at(i));
    }
}

proof fn lemma_remainder_round(start: State, now: State)
    requires
        dividing(start, now, false),
        now.cell() != 0,
    ensures
        dividing(start, remainder_body_effect(now), false),
        remainder_body_effect(now).cell() == now.cell() - 1,
{
    let next = remainder_body_effect(now);
    let p = start.head;
    let d = counted(start.at(p + 1) as int);
    let r = start.cell() - now.cell();
    lemma_division_step(r, d);
    assert forall|i: int| (i < p || i > p + 5) implies #[trigger] next.at(i) == start.at(i) by {
        assert(now.at(i) == start.at(i));
    }
}

/// The loop that divides counts how often the divisor right of the head
/// goes into the dividend under the head. It needs 1 behind the divisor,
/// and zero in the three cells behind that.
pub proof fn lemma_divide(state: State, limit: nat)
    requires
        limit >= 520,
        state.at(state.head + 2) == 1,
        state.at(state.head + 3) == 0,
        state.at(state.head + 4) == 0,
        state.at(state.head + 5) == 0,
    ensures
        run_loop(divide_body(), state, limit) == Some(divide(state)),
{
    let p = state.head;
    let d = counted(state.at(p + 1) as int);
    lemma_division_step(0, d);
    lemma_division_step(state.cell() as int, d);
    let inv = |now: State| dividing(state, now, true);
    assert(inv(state));
    assert forall|now: State| #[trigger] inv(now) && now.cell() != 0 implies ({
        &&& run(divide_body(), now, 257) is Some
        &&& inv(run(divide_body(), now, 257)->Some_0)
        &&& run(divide_body(), now, 257)->Some_0.cell() < now.cell()
    }) by {
        lemma_divide_body(now, 257);
        lemma_divide_round(state, now);
    }
    lemma_loop_invariant(divide_body(), state, limit, 257, inv);
    let end = run_loop(divide_body(), state, limit)->Some_0;
    assert(inv(end));
    let expected = divide(state);
    assert forall|i: int| #[trigger] (end.cells)(i) == (expected.cells)(i) by {
        if i < p || i > p + 5 {
            assert(end.at(i) == state.at(i));
        }
        assert(end.at(i) == expected.at(i));
    }
    assert(end.cells =~= expected.cells);
    assert(end =~= expected);
}

/// The loop that takes a remainder leaves one more than the remainder of
/// the dividend under the head by the divisor right of it. It needs 1
/// behind the divisor, and zero in the three cells behind that.
pub proof fn lemma_remainder(state: State, limit: nat)
    requires
        limit >= 520,
        state.at(state.head + 2) == 1,
        state.at(state.head + 3) == 0,
        state.at(state.head + 4) == 0,
        state.at(state.head + 5) == 0,
    ensures
        run_loop(remainder_body(), state, limit) == Some(remainder(state)),
{
    let p = state.head;
    let d = counted(state.at(p + 1) as int);
    lemma_division_step(0, d);
    lemma_division_step(state.cell() as int, d);
    let inv = |now: State| dividing(state, now, false);
    assert(inv(state));
    assert forall|now: State| #[trigger] inv(now) && now.cell() != 0 implies ({
        &&& run(remainder_body(), now, 257) is Some
        &&& inv(run(remainder_body(), now, 257)->Some_0)
        &&& run(remainder_body(), now, 257)->Some_0.cell() < now.cell()
    }) by {
        lemma_remainder_body(now, 257);
        lemma_remainder_round(state, now);
    }
    lemma_loop_invariant(remainder_body(), state, limit, 257, inv);
    let end = run_loop(remainder_body(), state, limit)->Some_0;
    assert(inv(end));
    let expected = remainder(state);
    assert forall|i: int| #[trigger] (end.cells)(i) == (expected.cells)(i) by {
        if i < p || i > p + 5 {
            assert(end.at(i) == state.at(i));
        }
        assert(end.at(i) == expected.at(i));
    }
    assert(end.cells =~= expected.cells);
    assert(end =~= expected);
}

} // verus!
