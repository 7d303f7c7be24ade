//! What the code of an expression does: it leaves the value of the
//! expression under the head.

use vstd::prelude::*;
use crate::ast::{BinaryOp, BinaryOpKind, ExprView, UnaryOp, UnaryOpKind};
use crate::brainfuck::adequacy::{cost, initial, lemma_interpreter_adequate, start, state_of};
use crate::brainfuck::reading::{
    lemma_reads_concat, lemma_reads_parse, lemma_reads_repeat, reads, repeat_op,
};
use crate::brainfuck::semantics::{lemma_run_concat, run, wrap, State};
use crate::brainfuck::tree::{parse, Op};
use crate::brainfuck::{instructions_of, Event, N};
use crate::code_gen::effects::{
    clear_effect, lemma_clear_effect, lemma_negate_close_effect, lemma_negate_open_effect,
    lemma_not_close_effect, lemma_not_open_effect, lemma_read_var_effect, negate_close_effect,
    negate_open_effect, not_close_effect, not_open_effect, read_var_effect,
};
use crate::code_gen::operators::{
    binary_effect, binary_value, clean, enough, leaves, lemma_binary_runs,
};
use crate::code_gen::rules::{gen_expr, lookup_var, Env, Scope};
use crate::code_gen::soundness::lemma_run_steps;
use crate::code_gen::templates::{
    binary_ops, clear_ops, left_ops, lemma_binary_reads, lemma_clear_reads, lemma_left_reads,
    lemma_negate_close_reads, lemma_negate_open_reads, lemma_not_close_reads,
    lemma_not_open_reads, lemma_read_var_reads, lemma_right_reads, negate_close_ops,
    negate_open_ops, not_close_ops, not_open_ops, read_var_ops, right_ops,
};
use crate::code_gen::{fits, lemma_lookup_below};
use crate::util::Position;

verus! {

/// Whether `expr` is made of numbers, operators and variables that are
/// declared in `scopes` with cells below `below`. It has no calls.
pub open spec fn grounded(scopes: Seq<Scope>, below: nat, expr: ExprView) -> bool
    decreases expr,
{
    match expr {
        ExprView::Binary { left, op, right } => grounded(scopes, below, *left) && grounded(
            scopes,
            below,
            *right,
        ),
        ExprView::Unary { op, right } => grounded(scopes, below, *right),
        ExprView::Var { name } => lookup_var(scopes, name.name) is Some && lookup_var(
            scopes,
            name.name,
        )->Some_0 < below,
        ExprView::Int { pos, value } => true,
        ExprView::Call { name, args } => false,
    }
}

/// Whether `expr` has no calls.
pub open spec fn call_free(expr: ExprView) -> bool
    decreases expr,
{
    match expr {
        ExprView::Binary { left, op, right } => call_free(*left) && call_free(*right),
        ExprView::Unary { op, right } => call_free(*right),
        ExprView::Call { name, args } => false,
        _ => true,
    }
}

/// The value of `op operand` for cells of 8 bits that wrap.
pub open spec fn unary_value(kind: UnaryOpKind, operand: u8) -> u8 {
    match kind {
        UnaryOpKind::Plus => operand,
        UnaryOpKind::Minus => wrap(-operand),
        UnaryOpKind::Not => if operand == 0 {
            1
        } else {
            0
        },
    }
}

/// The value of an expression without calls, where the variable with the
/// cell `c` of `scopes` has the value of the cell `base + c` of `state`.
/// `None` where the expression divides by zero, names a variable that is
/// not declared, or calls a function.
pub open spec fn value(scopes: Seq<Scope>, expr: ExprView, state: State, base: int) -> Option<u8>
    decreases expr,
{
    match expr {
        ExprView::Binary { left, op, right } => match value(scopes, *left, state, base) {
            None => None,
            Some(a) => match value(scopes, *right, state, base) {
                None => None,
                Some(b) => if (op.kind is Slash || op.kind is Percent) && b == 0 {
                    None
                } else {
                    Some(binary_value(op.kind, a, b))
                },
            },
        },
        ExprView::Unary { op, right } => match value(scopes, *right, state, base) {
            None => None,
            Some(operand) => Some(unary_value(op.kind, operand)),
        },
        ExprView::Var { name } => match lookup_var(scopes, name.name) {
            Some(cell) => Some(state.at(base + cell)),
            None => None,
        },
        ExprView::Int { pos, value } => Some(value),
        ExprView::Call { name, args } => None,
    }
}

/// The value of `expr` where its code starts in `state`: the head stands on
/// the cell that the generator knows as `env.stack_ptr`.
pub open spec fn value_in(env: Env, expr: ExprView, state: State) -> Option<u8> {
    value(env.scopes, expr, state, state.head - env.stack_ptr)
}

/// The operations of the code of an expression without calls.
pub open spec fn expr_ops(env: Env, expr: ExprView) -> Seq<Op>
    decreases expr,
{
    match expr {
        ExprView::Binary { left, op, right } => expr_ops(env, *left) + right_ops() + expr_ops(
            env.bump(1),
            *right,
        ) + binary_ops(op.kind) + left_ops(),
        ExprView::Unary { op, right } => match op.kind {
            UnaryOpKind::Plus => expr_ops(env, *right),
            UnaryOpKind::Minus => negate_open_ops() + expr_ops(env.bump(1), *right)
                + negate_close_ops(),
            UnaryOpKind::Not => not_open_ops() + expr_ops(env.bump(1), *right) + not_close_ops(),
        },
        ExprView::Var { name } => read_var_ops(
            (env.stack_ptr - lookup_var(env.scopes, name.name)->Some_0) as nat,
        ),
        ExprView::Int { pos, value } => clear_ops() + repeat_op(Op::Add(1), value as nat),
        ExprView::Call { name, args } => Seq::empty(),
    }
}

/// An expression without calls for which the generator has code is
/// grounded below a head below which the variables fit.
pub proof fn lemma_generated_grounded(env: Env, bump: nat, expr: ExprView)
    requires
        call_free(expr),
        fits(env.scopes, env.stack_ptr),
        gen_expr(env.bump(bump), expr) is Ok,
    ensures
        grounded(env.scopes, env.stack_ptr, expr),
    decreases expr,
{
    match expr {
        ExprView::Binary { left, op, right } => {
            lemma_generated_grounded(env, bump, *left);
            assert(env.bump(bump).bump(1) == env.bump(bump + 1));
            lemma_generated_grounded(env, bump + 1, *right);
        },
        ExprView::Unary { op, right } => {
            match op.kind {
                UnaryOpKind::Plus => lemma_generated_grounded(env, bump, *right),
                _ => {
                    assert(env.bump(bump).bump(1) == env.bump(bump + 1));
                    lemma_generated_grounded(env, bump + 1, *right);
                },
            }
        },
        ExprView::Var { name } => {
            lemma_lookup_below(env.scopes, env.stack_ptr, name.name);
        },
        _ => {},
    }
}

/// The code of a grounded expression is a program of the operations of the
/// expression.
pub proof fn lemma_expr_reads(env: Env, below: nat, expr: ExprView)
    requires
        grounded(env.scopes, below, expr),
    ensures
        gen_expr(env, expr) is Ok,
        reads(gen_expr(env, expr)->Ok_0, expr_ops(env, expr)),
    decreases expr,
{
    match expr {
        ExprView::Binary { left, op, right } => {
            lemma_expr_reads(env, below, *left);
            lemma_expr_reads(env.bump(1), below, *right);
            let l = gen_expr(env, *left)->Ok_0;
            let r = gen_expr(env.bump(1), *right)->Ok_0;
            let lo = expr_ops(env, *left);
            let ro = expr_ops(env.bump(1), *right);
            lemma_right_reads();
            lemma_binary_reads(op.kind);
            lemma_left_reads();
            lemma_reads_concat(l, ">"@, lo, right_ops());
            lemma_reads_concat(l + ">"@, r, lo + right_ops(), ro);
            lemma_reads_concat(
                l + ">"@ + r,
                crate::code_gen::rules::binary_template(op.kind),
                lo + right_ops() + ro,
                binary_ops(op.kind),
            );
            lemma_reads_concat(
                l + ">"@ + r + crate::code_gen::rules::binary_template(op.kind),
                "<"@,
                lo + right_ops() + ro + binary_ops(op.kind),
                left_ops(),
            );
        },
        ExprView::Unary { op, right } => {
            match op.kind {
                UnaryOpKind::Plus => {
                    lemma_expr_reads(env, below, *right);
                },
                UnaryOpKind::Minus => {
                    lemma_expr_reads(env.bump(1), below, *right);
                    let r = gen_expr(env.bump(1), *right)->Ok_0;
                    let ro = expr_ops(env.bump(1), *right);
                    lemma_negate_open_reads();
                    lemma_negate_close_reads();
                    lemma_reads_concat("[-]>"@, r, negate_open_ops(), ro);
                    lemma_reads_concat(
                        "[-]>"@ + r,
                        "[-<->]<"@,
                        negate_open_ops() + ro,
                        negate_close_ops(),
                    );
                },
                UnaryOpKind::Not => {
                    lemma_expr_reads(env.bump(1), below, *right);
                    let r = gen_expr(env.bump(1), *right)->Ok_0;
                    let ro = expr_ops(env.bump(1), *right);
                    lemma_not_open_reads();
                    lemma_not_close_reads();
                    lemma_reads_concat("[-]+>"@, r, not_open_ops(), ro);
                    lemma_reads_concat(
                        "[-]+>"@ + r,
                        "[<->[-]]<"@,
                        not_open_ops() + ro,
                        not_close_ops(),
                    );
                },
            }
        },
        ExprView::Var { name } => {
            lemma_read_var_reads(
                (env.stack_ptr - lookup_var(env.scopes, name.name)->Some_0) as nat,
            );
        },
        ExprView::Int { pos, value } => {
            lemma_clear_reads();
            lemma_reads_repeat('+', value as nat);
            lemma_reads_concat(
                "[-]"@,
                crate::brainfuck::tree::repeat('+', value as nat),
                clear_ops(),
                repeat_op(Op::Add(1), value as nat),
            );
        },
        _ => {},
    }
}

/// The value of a grounded expression depends only on the cells in which
/// its variables can lie.
pub proof fn lemma_value_frame(
    scopes: Seq<Scope>,
    below: nat,
    expr: ExprView,
    first: State,
    second: State,
    base: int,
)
    requires
        grounded(scopes, below, expr),
        forall|i: int| i < base + below ==> #[trigger] first.at(i) == second.at(i),
    ensures
        value(scopes, expr, first, base) == value(scopes, expr, second, base),
    decreases expr,
{
    match expr {
        ExprView::Binary { left, op, right } => {
            lemma_value_frame(scopes, below, *left, first, second, base);
            lemma_value_frame(scopes, below, *right, first, second, base);
        },
        ExprView::Unary { op, right } => {
            lemma_value_frame(scopes, below, *right, first, second, base);
        },
        ExprView::Var { name } => {
            let cell = lookup_var(scopes, name.name)->Some_0;
            assert(first.at(base + cell) == second.at(base + cell));
        },
        _ => {},
    }
}

/// The code that reads a variable copies it into the cell under the head.
/// The variable and the other cells left of the head are as they were, and
/// the cell right of the head is zero.
pub proof fn lemma_read_var_computes(state: State, rel: nat)
    requires
        rel >= 1,
    ensures
        leaves(state, read_var_effect(state, rel), state.head, state.at(state.head - rel)),
        clean(state, state.head) ==> clean(read_var_effect(state, rel), state.head),
{
    let after = read_var_effect(state, rel);
    if clean(state, state.head) {
        assert forall|i: int| i > state.head implies #[trigger] after.at(i) == 0 by {
            assert(state.at(i) == 0);
        }
    }
}

/// The operations of a grounded expression that has a value leave the value
/// under the head. The head ends where it began, the cells left of it are
/// as they were, nothing is read or written, and where there was zero right
/// of the head, there is zero right of it again.
pub proof fn lemma_expr_runs(env: Env, below: nat, expr: ExprView, state: State, limit: nat)
    requires
        grounded(env.scopes, below, expr),
        below <= env.stack_ptr,
        value_in(env, expr, state) is Some,
        limit >= enough(),
    ensures
        run(expr_ops(env, expr), state, limit) is Some,
        leaves(
            state,
            run(expr_ops(env, expr), state, limit)->Some_0,
            state.head,
            value_in(env, expr, state)->Some_0,
        ),
        clean(state, state.head) ==> clean(
            run(expr_ops(env, expr), state, limit)->Some_0,
            state.head,
        ),
    decreases expr,
{
    let h = state.head;
    let base = h - env.stack_ptr;
    let scopes = env.scopes;
    match expr {
        ExprView::Binary { left, op, right } => {
            let a = value(scopes, *left, state, base)->Some_0;
            let b = value(scopes, *right, state, base)->Some_0;
            let lo = expr_ops(env, *left);
            let ro = expr_ops(env.bump(1), *right);
            lemma_expr_runs(env, below, *left, state, limit);
            let s1 = run(lo, state, limit)->Some_0;
            lemma_run_concat(lo, right_ops(), state, limit);
            lemma_right_runs(s1, limit);
            let s2 = s1.moved(1);
            assert forall|i: int| i < base + below implies #[trigger] state.at(i) == s2.at(i) by {
                assert(s1.at(i) == state.at(i));
            }
            lemma_value_frame(scopes, below, *right, state, s2, base);
            lemma_expr_runs(env.bump(1), below, *right, s2, limit);
            let s3 = run(ro, s2, limit)->Some_0;
            lemma_run_concat(lo + right_ops(), ro, state, limit);
            assert(s3.at(h) == a) by {
                assert(s3.at(h) == s2.at(h));
            }
            lemma_binary_runs(op.kind, s3, limit);
            let s4 = binary_effect(op.kind, s3);
            lemma_run_concat(lo + right_ops() + ro, binary_ops(op.kind), state, limit);
            lemma_left_runs(s4, limit);
            let s5 = s4.moved(-1);
            lemma_run_concat(
                lo + right_ops() + ro + binary_ops(op.kind),
                left_ops(),
                state,
                limit,
            );
            assert(run(expr_ops(env, expr), state, limit) == Some(s5));
            assert forall|i: int| i < h implies #[trigger] s5.at(i) == state.at(i) by {
                assert(s4.at(i) == s3.at(i));
                assert(s3.at(i) == s2.at(i));
                assert(s1.at(i) == state.at(i));
            }
            if clean(state, h) {
                assert(clean(s1, h));
                assert forall|i: int| i > h + 1 implies #[trigger] s2.at(i) == 0 by {
                    assert(s1.at(i) == 0);
                }
                assert(clean(s3, h + 1));
                assert(clean(s4, h));
                assert forall|i: int| i > h implies #[trigger] s5.at(i) == 0 by {
                    assert(s4.at(i) == 0);
                }
            }
        },
        ExprView::Unary { op, right } => {
            let operand = value(scopes, *right, state, base)->Some_0;
            match op.kind {
                UnaryOpKind::Plus => {
                    lemma_expr_runs(env, below, *right, state, limit);
                },
                UnaryOpKind::Minus => {
                    let ro = expr_ops(env.bump(1), *right);
                    lemma_negate_open_effect(state, limit);
                    let s1 = negate_open_effect(state);
                    lemma_value_frame(scopes, below, *right, state, s1, base);
                    lemma_expr_runs(env.bump(1), below, *right, s1, limit);
                    let s2 = run(ro, s1, limit)->Some_0;
                    lemma_run_concat(negate_open_ops(), ro, state, limit);
                    lemma_negate_close_effect(s2, limit);
                    let s3 = negate_close_effect(s2);
                    lemma_run_concat(negate_open_ops() + ro, negate_close_ops(), state, limit);
                    assert(run(expr_ops(env, expr), state, limit) == Some(s3));
                    assert(s2.at(h) == 0) by {
                        assert(s2.at(h) == s1.at(h));
                    }
                    assert forall|i: int| i < h implies #[trigger] s3.at(i) == state.at(i) by {
                        assert(s2.at(i) == s1.at(i));
                    }
                    if clean(state, h) {
                        assert forall|i: int| i > h + 1 implies #[trigger] s1.at(i) == 0 by {
                            assert(state.at(i) == 0);
                        }
                        assert(clean(s2, h + 1));
                        assert forall|i: int| i > h implies #[trigger] s3.at(i) == 0 by {
                            assert(i > h + 1 ==> s2.at(i) == 0);
                        }
                    }
                },
                UnaryOpKind::Not => {
                    let ro = expr_ops(env.bump(1), *right);
                    lemma_not_open_effect(state, limit);
                    let s1 = not_open_effect(state);
                    lemma_value_frame(scopes, below, *right, state, s1, base);
                    lemma_expr_runs(env.bump(1), below, *right, s1, limit);
                    let s2 = run(ro, s1, limit)->Some_0;
                    lemma_run_concat(not_open_ops(), ro, state, limit);
                    lemma_not_close_effect(s2, limit);
                    let s3 = not_close_effect(s2);
                    lemma_run_concat(not_open_ops() + ro, not_close_ops(), state, limit);
                    assert(run(expr_ops(env, expr), state, limit) == Some(s3));
                    assert(s2.at(h) == 1) by {
                        assert(s2.at(h) == s1.at(h));
                    }
                    assert forall|i: int| i < h implies #[trigger] s3.at(i) == state.at(i) by {
                        assert(s2.at(i) == s1.at(i));
                    }
                    if clean(state, h) {
                        assert forall|i: int| i > h + 1 implies #[trigger] s1.at(i) == 0 by {
                            assert(state.at(i) == 0);
                        }
                        assert(clean(s2, h + 1));
                        assert forall|i: int| i > h implies #[trigger] s3.at(i) == 0 by {
                            assert(i > h + 1 ==> s2.at(i) == 0);
                        }
                    }
                },
            }
        },
        ExprView::Var { name } => {
            let cell = lookup_var(scopes, name.name)->Some_0;
            let rel = (env.stack_ptr - cell) as nat;
            lemma_read_var_effect(state, rel, limit);
            lemma_read_var_computes(state, rel);
        },
        ExprView::Int { pos, value } => {
            lemma_clear_effect(state, limit);
            let s1 = clear_effect(state);
            lemma_run_steps(1, value as nat, s1, limit);
            lemma_run_concat(clear_ops(), repeat_op(Op::Add(1), value as nat), state, limit);
            let s2 = s1.added(value as int);
            assert(1 * (value as nat) == value);
            assert(run(expr_ops(env, expr), state, limit) == Some(s2));
            if clean(state, h) {
                assert forall|i: int| i > h implies #[trigger] s2.at(i) == 0 by {
                    assert(state.at(i) == 0);
                }
            }
        },
        _ => {},
    }
}

/// `>` moves the head one cell to the right.
pub proof fn lemma_right_runs(state: State, limit: nat)
    ensures
        run(right_ops(), state, limit) == Some(state.moved(1)),
{
    reveal_with_fuel(run, 3);
}

/// `<` moves the head one cell to the left.
pub proof fn lemma_left_runs(state: State, limit: nat)
    ensures
        run(left_ops(), state, limit) == Some(state.moved(-1)),
{
    reveal_with_fuel(run, 3);
}

/// The code of an expression without calls, run from any state in which the
/// expression has a value, leaves the value under the head: the variables
/// are read from their cells below the head. The head ends where it began,
/// the cells left of it are as they were, and nothing is read or written.
pub proof fn lemma_expression_leaves_value(env: Env, expr: ExprView, state: State, limit: nat)
    requires
        grounded(env.scopes, env.stack_ptr, expr),
        value_in(env, expr, state) is Some,
        limit >= enough(),
    ensures
        gen_expr(env, expr) is Ok,
        run(parse(gen_expr(env, expr)->Ok_0), state, limit) is Some,
        leaves(
            state,
            run(parse(gen_expr(env, expr)->Ok_0), state, limit)->Some_0,
            state.head,
            value_in(env, expr, state)->Some_0,
        ),
{
    lemma_expr_reads(env, env.stack_ptr, expr);
    lemma_reads_parse(gen_expr(env, expr)->Ok_0, expr_ops(env, expr));
    lemma_expr_runs(env, env.stack_ptr, expr, state, limit);
}

/// The tape with zero in every cell and the head on the cell `head`, before
/// anything is read or written.
pub open spec fn zero_tape(head: int, input: Seq<u8>) -> State {
    State { cells: |i: int| 0u8, head, input, output: Seq::empty() }
}

/// The code of an expression without calls that has a value, run on a tape
/// of zeros, leaves the value of the expression under the head, which ends
/// where it began, and zero in every other cell.
pub proof fn lemma_tape_discipline(
    env: Env,
    expr: ExprView,
    head: int,
    input: Seq<u8>,
    limit: nat,
)
    requires
        grounded(env.scopes, env.stack_ptr, expr),
        value_in(env, expr, zero_tape(head, input)) is Some,
        limit >= enough(),
    ensures
        gen_expr(env, expr) is Ok,
        run(parse(gen_expr(env, expr)->Ok_0), zero_tape(head, input), limit) is Some,
        ({
            let after = run(parse(gen_expr(env, expr)->Ok_0), zero_tape(head, input), limit)->Some_0;
            &&& after.head == head
            &&& after.cell() == value_in(env, expr, zero_tape(head, input))->Some_0
            &&& forall|i: int| i != head ==> #[trigger] after.at(i) == 0
        }),
{
    let state = zero_tape(head, input);
    lemma_expr_reads(env, env.stack_ptr, expr);
    lemma_reads_parse(gen_expr(env, expr)->Ok_0, expr_ops(env, expr));
    lemma_expr_runs(env, env.stack_ptr, expr, state, limit);
    let after = run(expr_ops(env, expr), state, limit)->Some_0;
    assert(clean(state, head));
    assert forall|i: int| i != head implies #[trigger] after.at(i) == 0 by {
        if i < head {
            assert(after.at(i) == state.at(i));
        }
    }
}

/// The expression `left op right` of two numbers.
pub open spec fn operation(kind: BinaryOpKind, left: u8, right: u8, pos: Position) -> ExprView {
    ExprView::Binary {
        left: Box::new(ExprView::Int { pos, value: left }),
        op: BinaryOp { pos, kind },
        right: Box::new(ExprView::Int { pos, value: right }),
    }
}

/// The code of `left op right`, run from any state, leaves the value of the
/// operator for cells of 8 bits that wrap under the head: for every binary
/// operator and all bytes, but for a quotient or a remainder by zero.
pub proof fn lemma_operator_correct(
    env: Env,
    kind: BinaryOpKind,
    left: u8,
    right: u8,
    pos: Position,
    state: State,
    limit: nat,
)
    requires
        limit >= enough(),
        kind is Slash || kind is Percent ==> right != 0,
    ensures
        gen_expr(env, operation(kind, left, right, pos)) is Ok,
        run(parse(gen_expr(env, operation(kind, left, right, pos))->Ok_0), state, limit) is Some,
        leaves(
            state,
            run(parse(gen_expr(env, operation(kind, left, right, pos))->Ok_0), state, limit)->Some_0,
            state.head,
            binary_value(kind, left, right),
        ),
{
    let expr = operation(kind, left, right, pos);
    reveal_with_fuel(grounded, 3);
    reveal_with_fuel(value, 3);
    assert(grounded(env.scopes, env.stack_ptr, expr));
    assert(value_in(env, expr, state) == Some(binary_value(kind, left, right)));
    lemma_expression_leaves_value(env, expr, state, limit);
}

/// Whether `kind` is a comparison.
pub open spec fn relational(kind: BinaryOpKind) -> bool {
    kind is EqEq || kind is NotEq || kind is Less || kind is LessEq || kind is Greater
        || kind is GreaterEq
}

/// The code of a comparison of two numbers leaves 0 or 1 under the head,
/// for every comparison and all bytes.
pub proof fn lemma_comparison_is_boolean(
    env: Env,
    kind: BinaryOpKind,
    left: u8,
    right: u8,
    pos: Position,
    state: State,
    limit: nat,
)
    requires
        limit >= enough(),
        relational(kind),
    ensures
        gen_expr(env, operation(kind, left, right, pos)) is Ok,
        run(parse(gen_expr(env, operation(kind, left, right, pos))->Ok_0), state, limit) is Some,
        ({
            let after = run(
                parse(gen_expr(env, operation(kind, left, right, pos))->Ok_0),
                state,
                limit,
            )->Some_0;
            after.cell() == 0 || after.cell() == 1
        }),
{
    lemma_operator_correct(env, kind, left, right, pos, state, limit);
}

/// The operations of `left op right`, whatever the operations of the
/// operands are.
pub open spec fn joined_ops(first: Seq<Op>, kind: BinaryOpKind, second: Seq<Op>) -> Seq<Op> {
    first + right_ops() + second + binary_ops(kind) + left_ops()
}

/// The code of `left op right` is a program of its operations, where the
/// code of each operand is a program: for operands with calls too.
pub proof fn lemma_operator_reads(
    env: Env,
    left: ExprView,
    op: BinaryOp,
    right: ExprView,
    first_ops: Seq<Op>,
    second_ops: Seq<Op>,
)
    requires
        gen_expr(env, left) is Ok,
        reads(gen_expr(env, left)->Ok_0, first_ops),
        gen_expr(env.bump(1), right) is Ok,
        reads(gen_expr(env.bump(1), right)->Ok_0, second_ops),
    ensures
        gen_expr(env, ExprView::Binary { left: Box::new(left), op, right: Box::new(right) }) is Ok,
        reads(
            gen_expr(
                env,
                ExprView::Binary { left: Box::new(left), op, right: Box::new(right) },
            )->Ok_0,
            joined_ops(first_ops, op.kind, second_ops),
        ),
{
    let l = gen_expr(env, left)->Ok_0;
    let r = gen_expr(env.bump(1), right)->Ok_0;
    lemma_right_reads();
    lemma_binary_reads(op.kind);
    lemma_left_reads();
    lemma_reads_concat(l, ">"@, first_ops, right_ops());
    lemma_reads_concat(l + ">"@, r, first_ops + right_ops(), second_ops);
    lemma_reads_concat(
        l + ">"@ + r,
        crate::code_gen::rules::binary_template(op.kind),
        first_ops + right_ops() + second_ops,
        binary_ops(op.kind),
    );
    lemma_reads_concat(
        l + ">"@ + r + crate::code_gen::rules::binary_template(op.kind),
        "<"@,
        first_ops + right_ops() + second_ops + binary_ops(op.kind),
        left_ops(),
    );
}

/// The code of `left op right` leaves the value of the operator for the
/// values that the code of its operands has left, whatever that code is,
/// calls included: the left operand is to leave the head where it was, the
/// right one is to leave it one cell further right and the value of the
/// left operand as it is. The head ends where it began, a comparison
/// leaves 0 or 1, and where the right operand has left zero right of the
/// head, there is zero right of the value.
pub proof fn lemma_operator_after(
    kind: BinaryOpKind,
    first_ops: Seq<Op>,
    second_ops: Seq<Op>,
    state: State,
    first: State,
    second: State,
    limit: nat,
)
    requires
        limit >= enough(),
        run(first_ops, state, limit) == Some(first),
        first.head == state.head,
        run(second_ops, first.moved(1), limit) == Some(second),
        second.head == state.head + 1,
        second.at(state.head) == first.cell(),
    ensures
        run(joined_ops(first_ops, kind, second_ops), state, limit) is Some,
        ({
            let after = run(joined_ops(first_ops, kind, second_ops), state, limit)->Some_0;
            &&& leaves(
                second.moved(-1),
                after,
                state.head,
                binary_value(kind, first.cell(), second.cell()),
            )
            &&& relational(kind) ==> after.cell() == 0 || after.cell() == 1
            &&& clean(second, second.head) ==> clean(after, state.head)
        }),
{
    let h = state.head;
    lemma_run_concat(first_ops, right_ops(), state, limit);
    lemma_right_runs(first, limit);
    lemma_run_concat(first_ops + right_ops(), second_ops, state, limit);
    lemma_binary_runs(kind, second, limit);
    let s4 = binary_effect(kind, second);
    lemma_run_concat(first_ops + right_ops() + second_ops, binary_ops(kind), state, limit);
    lemma_left_runs(s4, limit);
    let s5 = s4.moved(-1);
    lemma_run_concat(
        first_ops + right_ops() + second_ops + binary_ops(kind),
        left_ops(),
        state,
        limit,
    );
    assert(run(joined_ops(first_ops, kind, second_ops), state, limit) == Some(s5));
    assert forall|i: int| i < h implies #[trigger] s5.at(i) == second.moved(-1).at(i) by {
        assert(s4.at(i) == second.at(i));
    }
    if clean(second, second.head) {
        assert(clean(s4, h));
        assert forall|i: int| i > h implies #[trigger] s5.at(i) == 0 by {
            assert(s4.at(i) == 0);
        }
    }
}

/// The operations of `op right`, whatever the operations of the operand
/// are.
pub open spec fn prefixed_ops(kind: UnaryOpKind, operand: Seq<Op>) -> Seq<Op> {
    match kind {
        UnaryOpKind::Plus => operand,
        UnaryOpKind::Minus => negate_open_ops() + operand + negate_close_ops(),
        UnaryOpKind::Not => not_open_ops() + operand + not_close_ops(),
    }
}

/// The state in which the operand of a prefix operator is evaluated: for
/// `-` and `not`, one cell further right, behind a cell of zero or of one.
pub open spec fn opened(kind: UnaryOpKind, state: State) -> State {
    match kind {
        UnaryOpKind::Plus => state,
        UnaryOpKind::Minus => negate_open_effect(state),
        UnaryOpKind::Not => not_open_effect(state),
    }
}

/// The code of `op right` is a program of its operations, where the code
/// of the operand is a program: for an operand with calls too.
pub proof fn lemma_prefix_reads(env: Env, op: UnaryOp, right: ExprView, operand_ops: Seq<Op>)
    requires
        gen_expr(if op.kind is Plus { env } else { env.bump(1) }, right) is Ok,
        reads(gen_expr(if op.kind is Plus { env } else { env.bump(1) }, right)->Ok_0, operand_ops),
    ensures
        gen_expr(env, ExprView::Unary { op, right: Box::new(right) }) is Ok,
        reads(
            gen_expr(env, ExprView::Unary { op, right: Box::new(right) })->Ok_0,
            prefixed_ops(op.kind, operand_ops),
        ),
{
    match op.kind {
        UnaryOpKind::Plus => {},
        UnaryOpKind::Minus => {
            let r = gen_expr(env.bump(1), right)->Ok_0;
            lemma_negate_open_reads();
            lemma_negate_close_reads();
            lemma_reads_concat("[-]>"@, r, negate_open_ops(), operand_ops);
            lemma_reads_concat(
                "[-]>"@ + r,
                "[-<->]<"@,
                negate_open_ops() + operand_ops,
                negate_close_ops(),
            );
        },
        UnaryOpKind::Not => {
            let r = gen_expr(env.bump(1), right)->Ok_0;
            lemma_not_open_reads();
            lemma_not_close_reads();
            lemma_reads_concat("[-]+>"@, r, not_open_ops(), operand_ops);
            lemma_reads_concat(
                "[-]+>"@ + r,
                "[<->[-]]<"@,
                not_open_ops() + operand_ops,
                not_close_ops(),
            );
        },
    }
}

/// The code of `op right` leaves the value of the prefix operator for the
/// value that the code of its operand has left, whatever that code is,
/// calls included: for `-` and `not` the operand is to leave the head where
/// it found it, and the cell left of it as it is. The head ends where it
/// began, the cells left of it are as the operand has left them, and where
/// the operand has left zero right of the head, there is zero right of the
/// value.
pub proof fn lemma_prefix_after(
    kind: UnaryOpKind,
    operand_ops: Seq<Op>,
    state: State,
    operand: State,
    limit: nat,
)
    requires
        limit >= enough(),
        run(operand_ops, opened(kind, state), limit) == Some(operand),
        operand.head == opened(kind, state).head,
        !(kind is Plus) ==> operand.at(state.head) == opened(kind, state).at(state.head),
    ensures
        run(prefixed_ops(kind, operand_ops), state, limit) is Some,
        ({
            let after = run(prefixed_ops(kind, operand_ops), state, limit)->Some_0;
            &&& after.head == state.head
            &&& after.cell() == unary_value(kind, operand.cell())
            &&& forall|i: int| i < state.head ==> #[trigger] after.at(i) == operand.at(i)
            &&& after.input == operand.input
            &&& after.output == operand.output
            &&& clean(operand, operand.head) ==> clean(after, state.head)
        }),
{
    let h = state.head;
    match kind {
        UnaryOpKind::Plus => {},
        UnaryOpKind::Minus => {
            lemma_negate_open_effect(state, limit);
            lemma_run_concat(negate_open_ops(), operand_ops, state, limit);
            lemma_negate_close_effect(operand, limit);
            let s3 = negate_close_effect(operand);
            lemma_run_concat(negate_open_ops() + operand_ops, negate_close_ops(), state, limit);
            assert(run(prefixed_ops(kind, operand_ops), state, limit) == Some(s3));
            assert(operand.at(h) == 0);
            if clean(operand, operand.head) {
                assert forall|i: int| i > h implies #[trigger] s3.at(i) == 0 by {
                    assert(i > h + 1 ==> operand.at(i) == 0);
                }
            }
        },
        UnaryOpKind::Not => {
            lemma_not_open_effect(state, limit);
            lemma_run_concat(not_open_ops(), operand_ops, state, limit);
            lemma_not_close_effect(operand, limit);
            let s3 = not_close_effect(operand);
            lemma_run_concat(not_open_ops() + operand_ops, not_close_ops(), state, limit);
            assert(run(prefixed_ops(kind, operand_ops), state, limit) == Some(s3));
            assert(operand.at(h) == 1);
            if clean(operand, operand.head) {
                assert forall|i: int| i > h implies #[trigger] s3.at(i) == 0 by {
                    assert(i > h + 1 ==> operand.at(i) == 0);
                }
            }
        },
    }
}

/// On the interpreter, the code of `left op right`, run as a program,
/// leaves the value of the operator in the first cell, with the head on it:
/// for every binary operator and all bytes, but for a quotient or a
/// remainder by zero, where the run stays on the tape of the machine.
pub proof fn lemma_operator_correct_on_machine(
    env: Env,
    kind: BinaryOpKind,
    left: u8,
    right: u8,
    pos: Position,
    input: Seq<u8>,
    limit: nat,
)
    requires
        limit >= enough(),
        kind is Slash || kind is Percent ==> right != 0,
        gen_expr(env, operation(kind, left, right, pos)) is Ok ==> {
            let code = gen_expr(env, operation(kind, left, right, pos))->Ok_0;
            code.len() <= usize::MAX && cost(parse(code), initial(input), limit, N as nat) is Some
        },
    ensures
        gen_expr(env, operation(kind, left, right, pos)) is Ok,
        instructions_of(gen_expr(env, operation(kind, left, right, pos))->Ok_0) is Some,
        ({
            let code = gen_expr(env, operation(kind, left, right, pos))->Ok_0;
            let end = start(instructions_of(code)->Some_0, input).drive(
                (cost(parse(code), initial(input), limit, N as nat)->Some_0 + 1) as nat,
            );
            &&& end.1 == Event::Halted
            &&& state_of(end.0).head == 0
            &&& state_of(end.0).cell() == binary_value(kind, left, right)
            &&& state_of(end.0).output == Seq::<u8>::empty()
        }),
{
    let expr = operation(kind, left, right, pos);
    lemma_operator_correct(env, kind, left, right, pos, initial(input), limit);
    reveal_with_fuel(grounded, 3);
    lemma_expr_reads(env, env.stack_ptr, expr);
    let code = gen_expr(env, expr)->Ok_0;
    lemma_reads_parse(code, expr_ops(env, expr));
    lemma_interpreter_adequate(code, input, limit);
}

} // verus!
