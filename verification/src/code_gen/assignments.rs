//! What the code of an assignment does: it folds the value of its
//! expression into the variable.

use vstd::prelude::*;
use crate::ast::{AssignOp, AssignOpKind, ExprView, NameView, StatementView};
use crate::brainfuck::reading::{lemma_reads_concat, lemma_reads_parse, reads};
use crate::brainfuck::semantics::{lemma_run_concat, run, wrap, State};
use crate::brainfuck::tree::{parse, Op};
use crate::code_gen::division::lemma_division_step;
use crate::code_gen::effects::{
    assign_eq_effect, assign_minus_effect, assign_percent_effect, assign_plus_effect,
    assign_slash_effect, assign_star_effect, lemma_assign_eq_effect, lemma_assign_minus_effect,
    lemma_assign_percent_effect, lemma_assign_plus_effect, lemma_assign_slash_effect,
    lemma_assign_star_effect,
};
use crate::code_gen::expressions::{
    expr_ops, grounded, lemma_expr_reads, lemma_expr_runs, value_in,
};
use crate::code_gen::operators::{clean, enough};
use crate::code_gen::rules::{assign_template, gen_expr, gen_nested, lookup_var, Env};
use crate::code_gen::templates::{
    assign_eq_ops, assign_minus_ops, assign_percent_ops, assign_plus_ops, assign_slash_ops,
    assign_star_ops, lemma_assign_eq_reads, lemma_assign_minus_reads,
    lemma_assign_percent_reads, lemma_assign_plus_reads, lemma_assign_slash_reads,
    lemma_assign_star_reads,
};

verus! {

/// The value of a variable that held `old` after `op` with `right`, for
/// cells of 8 bits that wrap. Where `right` is zero, `/=` and `%=` have no
/// value that is meant: the code leaves 0 for `/=` and the old value for
/// `%=`.
pub open spec fn assign_value(kind: AssignOpKind, old: u8, right: u8) -> u8 {
    match kind {
        AssignOpKind::Eq => right,
        AssignOpKind::PlusEq => wrap(old + right),
        AssignOpKind::MinusEq => wrap(old - right),
        AssignOpKind::StarEq => wrap(old * right),
        AssignOpKind::SlashEq => if right == 0 {
            0
        } else {
            (old / right) as u8
        },
        AssignOpKind::PercentEq => if right == 0 {
            old
        } else {
            (old % right) as u8
        },
    }
}

/// The operations of the code that folds the value under the head into the
/// variable `rel` cells left of it.
pub open spec fn assign_ops(kind: AssignOpKind, rel: nat) -> Seq<Op> {
    match kind {
        AssignOpKind::Eq => assign_eq_ops(rel),
        AssignOpKind::PlusEq => assign_plus_ops(rel),
        AssignOpKind::MinusEq => assign_minus_ops(rel),
        AssignOpKind::StarEq => assign_star_ops(rel),
        AssignOpKind::SlashEq => assign_slash_ops(rel),
        AssignOpKind::PercentEq => assign_percent_ops(rel),
    }
}

/// The state after that code.
pub open spec fn assign_effect(kind: AssignOpKind, state: State, rel: nat) -> State {
    match kind {
        AssignOpKind::Eq => assign_eq_effect(state, rel),
        AssignOpKind::PlusEq => assign_plus_effect(state, rel),
        AssignOpKind::MinusEq => assign_minus_effect(state, rel),
        AssignOpKind::StarEq => assign_star_effect(state, rel),
        AssignOpKind::SlashEq => assign_slash_effect(state, rel),
        AssignOpKind::PercentEq => assign_percent_effect(state, rel),
    }
}

/// What the code of an assignment has to do: it finds the value under the
/// head and leaves the new value in the variable `rel` cells left of the
/// head. The head stands where it stood, the other cells left of it are as
/// they were, nothing has been read or written, and where there was zero
/// right of the head, there is zero under the head and right of it.
pub open spec fn assigns(kind: AssignOpKind, before: State, after: State, rel: nat) -> bool {
    let var = before.head - rel;
    &&& after.head == before.head
    &&& after.at(var) == assign_value(kind, before.at(var), before.cell())
    &&& forall|i: int| i < before.head && i != var ==> #[trigger] after.at(i) == before.at(i)
    &&& after.input == before.input
    &&& after.output == before.output
    &&& clean(before, before.head) ==> clean(after, before.head - 1)
}

/// The code of each assignment is a program of its operations.
pub proof fn lemma_assign_reads(kind: AssignOpKind, rel: nat)
    ensures
        reads(assign_template(kind, rel), assign_ops(kind, rel)),
{
    match kind {
        AssignOpKind::Eq => lemma_assign_eq_reads(rel),
        AssignOpKind::PlusEq => lemma_assign_plus_reads(rel),
        AssignOpKind::MinusEq => lemma_assign_minus_reads(rel),
        AssignOpKind::StarEq => lemma_assign_star_reads(rel),
        AssignOpKind::SlashEq => lemma_assign_slash_reads(rel),
        AssignOpKind::PercentEq => lemma_assign_percent_reads(rel),
    }
}

/// The code of each assignment does what the assignment means.
pub proof fn lemma_assign_runs(kind: AssignOpKind, state: State, rel: nat, limit: nat)
    requires
        limit >= enough(),
        rel >= 1,
    ensures
        run(assign_ops(kind, rel), state, limit) == Some(assign_effect(kind, state, rel)),
        assigns(kind, state, assign_effect(kind, state, rel), rel),
{
    match kind {
        AssignOpKind::Eq => lemma_assign_eq_effect(state, rel, limit),
        AssignOpKind::PlusEq => lemma_assign_plus_effect(state, rel, limit),
        AssignOpKind::MinusEq => lemma_assign_minus_effect(state, rel, limit),
        AssignOpKind::StarEq => lemma_assign_star_effect(state, rel, limit),
        AssignOpKind::SlashEq => {
            lemma_assign_slash_effect(state, rel, limit);
            lemma_division_step(
                state.at(state.head - rel) as int,
                crate::code_gen::division::counted(state.cell() as int),
            );
        },
        AssignOpKind::PercentEq => {
            lemma_assign_percent_effect(state, rel, limit);
            lemma_division_step(
                state.at(state.head - rel) as int,
                crate::code_gen::division::counted(state.cell() as int),
            );
        },
    }
    let after = assign_effect(kind, state, rel);
    if clean(state, state.head) {
        assert forall|i: int| i > state.head - 1 implies #[trigger] after.at(i) == 0 by {
            assert(i > state.head ==> state.at(i) == 0);
        }
    }
}

/// The statement `name op expr`.
pub open spec fn assignment(name: NameView, op: AssignOp, expr: ExprView) -> StatementView {
    StatementView::Assign { name, op, expr }
}

/// The code of a compound assignment, run from any state, leaves in the
/// variable the value of the operator for the old value of the variable and
/// the value of the expression: for every assignment operator, every
/// variable below the head and every expression without calls that has a
/// value, but for a quotient or a remainder by zero. The head ends where it began, the
/// other cells left of it are as they were, and nothing is read or written.
pub proof fn lemma_assignment_correct(
    env: Env,
    name: NameView,
    op: AssignOp,
    expr: ExprView,
    state: State,
    limit: nat,
)
    requires
        limit >= enough(),
        lookup_var(env.scopes, name.name) is Some,
        lookup_var(env.scopes, name.name)->Some_0 < env.stack_ptr,
        grounded(env.scopes, env.stack_ptr, expr),
        value_in(env, expr, state) is Some,
        op.kind is SlashEq || op.kind is PercentEq ==> value_in(env, expr, state)->Some_0 != 0,
    ensures
        gen_nested(env, assignment(name, op, expr)) is Ok,
        run(parse(gen_nested(env, assignment(name, op, expr))->Ok_0), state, limit) is Some,
        ({
            let rel = (env.stack_ptr - lookup_var(env.scopes, name.name)->Some_0) as nat;
            let var = state.head - rel;
            let after = run(
                parse(gen_nested(env, assignment(name, op, expr))->Ok_0),
                state,
                limit,
            )->Some_0;
            &&& after.head == state.head
            &&& after.at(var) == assign_value(
                op.kind,
                state.at(var),
                value_in(env, expr, state)->Some_0,
            )
            &&& forall|i: int| i < state.head && i != var ==> #[trigger] after.at(i) == state.at(i)
            &&& after.input == state.input
            &&& after.output == state.output
            &&& clean(state, state.head) ==> clean(after, state.head - 1)
        }),
{
    let rel = (env.stack_ptr - lookup_var(env.scopes, name.name)->Some_0) as nat;
    let var = state.head - rel;
    lemma_expr_reads(env, env.stack_ptr, expr);
    lemma_assign_reads(op.kind, rel);
    let first = gen_expr(env, expr)->Ok_0;
    lemma_reads_concat(
        first,
        assign_template(op.kind, rel),
        expr_ops(env, expr),
        assign_ops(op.kind, rel),
    );
    let code = gen_nested(env, assignment(name, op, expr))->Ok_0;
    assert(code == first + assign_template(op.kind, rel));
    lemma_reads_parse(code, expr_ops(env, expr) + assign_ops(op.kind, rel));
    lemma_expr_runs(env, env.stack_ptr, expr, state, limit);
    let s1 = run(expr_ops(env, expr), state, limit)->Some_0;
    lemma_assign_runs(op.kind, s1, rel, limit);
    let s2 = assign_effect(op.kind, s1, rel);
    lemma_run_concat(expr_ops(env, expr), assign_ops(op.kind, rel), state, limit);
    assert(s1.at(var) == state.at(var));
    assert forall|i: int| i < state.head && i != var implies #[trigger] s2.at(i) == state.at(
        i,
    ) by {
        assert(s1.at(i) == state.at(i));
    }
}

/// The code of an assignment folds into the variable the value that the
/// code of its expression has left under the head, whatever that code is,
/// calls included: where that code has left `between`, the code of the
/// assignment leaves what the assignment makes of `between`.
pub proof fn lemma_assignment_after(
    env: Env,
    name: NameView,
    op: AssignOp,
    expr: ExprView,
    value_ops: Seq<Op>,
    state: State,
    between: State,
    limit: nat,
)
    requires
        limit >= enough(),
        lookup_var(env.scopes, name.name) is Some,
        lookup_var(env.scopes, name.name)->Some_0 < env.stack_ptr,
        gen_expr(env, expr) is Ok,
        reads(gen_expr(env, expr)->Ok_0, value_ops),
        run(value_ops, state, limit) == Some(between),
    ensures
        gen_nested(env, assignment(name, op, expr)) is Ok,
        run(parse(gen_nested(env, assignment(name, op, expr))->Ok_0), state, limit) is Some,
        assigns(
            op.kind,
            between,
            run(parse(gen_nested(env, assignment(name, op, expr))->Ok_0), state, limit)->Some_0,
            (env.stack_ptr - lookup_var(env.scopes, name.name)->Some_0) as nat,
        ),
{
    let rel = (env.stack_ptr - lookup_var(env.scopes, name.name)->Some_0) as nat;
    lemma_assign_reads(op.kind, rel);
    let first = gen_expr(env, expr)->Ok_0;
    lemma_reads_concat(first, assign_template(op.kind, rel), value_ops, assign_ops(op.kind, rel));
    let code = gen_nested(env, assignment(name, op, expr))->Ok_0;
    assert(code == first + assign_template(op.kind, rel));
    lemma_reads_parse(code, value_ops + assign_ops(op.kind, rel));
    lemma_assign_runs(op.kind, between, rel, limit);
    lemma_run_concat(value_ops, assign_ops(op.kind, rel), state, limit);
}

} // verus!
