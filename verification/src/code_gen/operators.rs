//! What the code of the operators does.

use vstd::prelude::*;
use crate::ast::BinaryOpKind;
use crate::brainfuck::semantics::{run, wrap, State};
use crate::code_gen::templates::binary_ops;
use crate::code_gen::effects::{
    and_effect, eq_eq_effect, greater_effect, greater_eq_effect, less_effect, less_eq_effect, minus_effect, not_eq_effect, or_effect, percent_effect, plus_effect, slash_effect, star_effect,
};

verus! {

/// The value of `left op right` for cells of 8 bits that wrap. The
/// comparisons and the logical operators yield 1 or 0. Where `right` is
/// zero, a quotient and a remainder have no value that is meant: the code
/// leaves 0 as the quotient and the dividend as the remainder.
pub open spec fn binary_value(kind: BinaryOpKind, left: u8, right: u8) -> u8 {
    match kind {
        BinaryOpKind::Plus => wrap(left + right),
        BinaryOpKind::Minus => wrap(left - right),
        BinaryOpKind::Star => wrap(left * right),
        BinaryOpKind::Slash => if right == 0 {
            0
        } else {
            (left / right) as u8
        },
        BinaryOpKind::Percent => if right == 0 {
            left
        } else {
            (left % right) as u8
        },
        BinaryOpKind::EqEq => if left == right {
            1
        } else {
            0
        },
        BinaryOpKind::NotEq => if left != right {
            1
        } else {
            0
        },
        BinaryOpKind::Greater => if left > right {
            1
        } else {
            0
        },
        BinaryOpKind::GreaterEq => if left >= right {
            1
        } else {
            0
        },
        BinaryOpKind::Less => if left < right {
            1
        } else {
            0
        },
        BinaryOpKind::LessEq => if left <= right {
            1
        } else {
            0
        },
        BinaryOpKind::And => if left != 0 && right != 0 {
            1
        } else {
            0
        },
        BinaryOpKind::Or => if left != 0 || right != 0 {
            1
        } else {
            0
        },
    }
}

/// Whether `after` is `before` with `value` in the cell `at`: the head
/// stands where it stood, the cells left of `at` are as they were, and
/// nothing has been read or written.
pub open spec fn leaves(before: State, after: State, at: int, value: u8) -> bool {
    &&& after.head == before.head
    &&& after.at(at) == value
    &&& forall|i: int| i < at ==> #[trigger] after.at(i) == before.at(i)
    &&& after.input == before.input
    &&& after.output == before.output
}

/// Whether the cells right of `at` are zero.
pub open spec fn clean(state: State, at: int) -> bool {
    forall|i: int| i > at ==> #[trigger] state.at(i) == 0
}

/// A limit that is enough for the code of every operator.
pub open spec fn enough() -> nat {
    1000
}

/// What the code of a binary operator has to do: it finds the left operand
/// left of the head and the right operand under it, and leaves the value in
/// the cell of the left operand, and zero right of it where there was zero
/// right of the head.
pub open spec fn computes(kind: BinaryOpKind, before: State, after: State) -> bool {
    &&& leaves(
        before,
        after,
        before.head - 1,
        binary_value(kind, before.at(before.head - 1), before.cell()),
    )
    &&& clean(before, before.head) ==> clean(after, before.head - 1)
}

/// The code of `+` computes its value.
pub proof fn lemma_plus_computes(state: State)
    ensures
        computes(BinaryOpKind::Plus, state, plus_effect(state)),
{
    let after = plus_effect(state);
    if clean(state, state.head) {
        assert forall|i: int| i > state.head - 1 implies #[trigger] after.at(i) == 0 by {
            assert(i > state.head ==> state.at(i) == 0);
        }
    }
}

/// The code of `-` computes its value.
pub proof fn lemma_minus_computes(state: State)
    ensures
        computes(BinaryOpKind::Minus, state, minus_effect(state)),
{
    let after = minus_effect(state);
    if clean(state, state.head) {
        assert forall|i: int| i > state.head - 1 implies #[trigger] after.at(i) == 0 by {
            assert(i > state.head ==> state.at(i) == 0);
        }
    }
}

/// The code of `==` computes its value.
pub proof fn lemma_eq_eq_computes(state: State)
    ensures
        computes(BinaryOpKind::EqEq, state, eq_eq_effect(state)),
{
    let after = eq_eq_effect(state);
    if clean(state, state.head) {
        assert forall|i: int| i > state.head - 1 implies #[trigger] after.at(i) == 0 by {
            assert(i > state.head ==> state.at(i) == 0);
        }
    }
}

/// The code of `!=` computes its value.
pub proof fn lemma_not_eq_computes(state: State)
    ensures
        computes(BinaryOpKind::NotEq, state, not_eq_effect(state)),
{
    let after = not_eq_effect(state);
    if clean(state, state.head) {
        assert forall|i: int| i > state.head - 1 implies #[trigger] after.at(i) == 0 by {
            assert(i > state.head ==> state.at(i) == 0);
        }
    }
}

/// The code of `and` computes its value.
pub proof fn lemma_and_computes(state: State)
    ensures
        computes(BinaryOpKind::And, state, and_effect(state)),
{
    let after = and_effect(state);
    if clean(state, state.head) {
        assert forall|i: int| i > state.head - 1 implies #[trigger] after.at(i) == 0 by {
            assert(i > state.head ==> state.at(i) == 0);
        }
    }
}

/// The code of `or` computes its value.
pub proof fn lemma_or_computes(state: State)
    ensures
        computes(BinaryOpKind::Or, state, or_effect(state)),
{
    let after = or_effect(state);
    if clean(state, state.head) {
        assert forall|i: int| i > state.head - 1 implies #[trigger] after.at(i) == 0 by {
            assert(i > state.head ==> state.at(i) == 0);
        }
    }
}

/// The code of `<` computes its value.
pub proof fn lemma_less_computes(state: State)
    ensures
        computes(BinaryOpKind::Less, state, less_effect(state)),
{
    let after = less_effect(state);
    if clean(state, state.head) {
        assert forall|i: int| i > state.head - 1 implies #[trigger] after.at(i) == 0 by {
            assert(i > state.head ==> state.at(i) == 0);
        }
    }
}

/// The code of `>=` computes its value.
pub proof fn lemma_greater_eq_computes(state: State)
    ensures
        computes(BinaryOpKind::GreaterEq, state, greater_eq_effect(state)),
{
    let after = greater_eq_effect(state);
    if clean(state, state.head) {
        assert forall|i: int| i > state.head - 1 implies #[trigger] after.at(i) == 0 by {
            assert(i > state.head ==> state.at(i) == 0);
        }
    }
}

/// The code of `>` computes its value.
pub proof fn lemma_greater_computes(state: State)
    ensures
        computes(BinaryOpKind::Greater, state, greater_effect(state)),
{
    let after = greater_effect(state);
    if clean(state, state.head) {
        assert forall|i: int| i > state.head - 1 implies #[trigger] after.at(i) == 0 by {
            assert(i > state.head ==> state.at(i) == 0);
        }
    }
}

/// The code of `<=` computes its value.
pub proof fn lemma_less_eq_computes(state: State)
    ensures
        computes(BinaryOpKind::LessEq, state, less_eq_effect(state)),
{
    let after = less_eq_effect(state);
    if clean(state, state.head) {
        assert forall|i: int| i > state.head - 1 implies #[trigger] after.at(i) == 0 by {
            assert(i > state.head ==> state.at(i) == 0);
        }
    }
}

/// The code of `*` computes its value.
pub proof fn lemma_star_computes(state: State)
    ensures
        computes(BinaryOpKind::Star, state, star_effect(state)),
{
    let after = star_effect(state);
    if clean(state, state.head) {
        assert forall|i: int| i > state.head - 1 implies #[trigger] after.at(i) == 0 by {
            assert(i > state.head ==> state.at(i) == 0);
        }
    }
}

/// The code of `/` computes its value.
pub proof fn lemma_slash_computes(state: State)
    ensures
        computes(BinaryOpKind::Slash, state, slash_effect(state)),
{
    crate::code_gen::division::lemma_division_step(
        state.at(state.head - 1) as int,
        crate::code_gen::division::counted(state.cell() as int),
    );
    let after = slash_effect(state);
    if clean(state, state.head) {
        assert forall|i: int| i > state.head - 1 implies #[trigger] after.at(i) == 0 by {
            assert(i > state.head ==> state.at(i) == 0);
        }
    }
}

/// The code of `%` computes its value.
pub proof fn lemma_percent_computes(state: State)
    ensures
        computes(BinaryOpKind::Percent, state, percent_effect(state)),
{
    crate::code_gen::division::lemma_division_step(
        state.at(state.head - 1) as int,
        crate::code_gen::division::counted(state.cell() as int),
    );
    let after = percent_effect(state);
    if clean(state, state.head) {
        assert forall|i: int| i > state.head - 1 implies #[trigger] after.at(i) == 0 by {
            assert(i > state.head ==> state.at(i) == 0);
        }
    }
}

/// The state after the code of the binary operator `kind`.
pub open spec fn binary_effect(kind: BinaryOpKind, state: State) -> State {
    match kind {
        BinaryOpKind::Plus => plus_effect(state),
        BinaryOpKind::Minus => minus_effect(state),
        BinaryOpKind::Star => star_effect(state),
        BinaryOpKind::Slash => slash_effect(state),
        BinaryOpKind::Percent => percent_effect(state),
        BinaryOpKind::EqEq => eq_eq_effect(state),
        BinaryOpKind::NotEq => not_eq_effect(state),
        BinaryOpKind::Greater => greater_effect(state),
        BinaryOpKind::GreaterEq => greater_eq_effect(state),
        BinaryOpKind::Less => less_effect(state),
        BinaryOpKind::LessEq => less_eq_effect(state),
        BinaryOpKind::And => and_effect(state),
        BinaryOpKind::Or => or_effect(state),
    }
}

/// The code of each binary operator computes the value of the operator.
pub proof fn lemma_binary_runs(kind: BinaryOpKind, state: State, limit: nat)
    requires
        limit >= enough(),
    ensures
        run(binary_ops(kind), state, limit) == Some(binary_effect(kind, state)),
        computes(kind, state, binary_effect(kind, state)),
{
    match kind {
        BinaryOpKind::Plus => {
            crate::code_gen::effects::lemma_plus_effect(state, limit);
            lemma_plus_computes(state);
        },
        BinaryOpKind::Minus => {
            crate::code_gen::effects::lemma_minus_effect(state, limit);
            lemma_minus_computes(state);
        },
        BinaryOpKind::Star => {
            crate::code_gen::effects::lemma_star_effect(state, limit);
            lemma_star_computes(state);
        },
        BinaryOpKind::Slash => {
            crate::code_gen::effects::lemma_slash_effect(state, limit);
            lemma_slash_computes(state);
        },
        BinaryOpKind::Percent => {
            crate::code_gen::effects::lemma_percent_effect(state, limit);
            lemma_percent_computes(state);
        },
        BinaryOpKind::EqEq => {
            crate::code_gen::effects::lemma_eq_eq_effect(state, limit);
            lemma_eq_eq_computes(state);
        },
        BinaryOpKind::NotEq => {
            crate::code_gen::effects::lemma_not_eq_effect(state, limit);
            lemma_not_eq_computes(state);
        },
        BinaryOpKind::Greater => {
            crate::code_gen::effects::lemma_greater_effect(state, limit);
            lemma_greater_computes(state);
        },
        BinaryOpKind::GreaterEq => {
            crate::code_gen::effects::lemma_greater_eq_effect(state, limit);
            lemma_greater_eq_computes(state);
        },
        BinaryOpKind::Less => {
            crate::code_gen::effects::lemma_less_effect(state, limit);
            lemma_less_computes(state);
        },
        BinaryOpKind::LessEq => {
            crate::code_gen::effects::lemma_less_eq_effect(state, limit);
            lemma_less_eq_computes(state);
        },
        BinaryOpKind::And => {
            crate::code_gen::effects::lemma_and_effect(state, limit);
            lemma_and_computes(state);
        },
        BinaryOpKind::Or => {
            crate::code_gen::effects::lemma_or_effect(state, limit);
            lemma_or_computes(state);
        },
    }
}

} // verus!
