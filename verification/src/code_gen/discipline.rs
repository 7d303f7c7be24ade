//! The tape discipline of expressions, calls included: the code of an
//! expression leaves the head where it found it and the cells left of it as
//! they were, where the code of each function that it calls does.

use vstd::prelude::*;
use crate::ast::{
    AssignOp, AssignOpKind, BinaryOp, ExprView, NameView, UnaryOp, UnaryOpKind,
};
use crate::brainfuck::reading::{
    ends_inside, lemma_read_after, lemma_reads_concat, lemma_reads_parse, reads, repeat_op,
    runs_out,
};
use crate::brainfuck::semantics::{lemma_run_concat, lemma_run_more, run, run_loop, State};
use crate::brainfuck::tree::{parse, read, Op};
use crate::code_gen::balance::{
    lemma_expr_passes, lemma_function_found_passes, lemma_passes_concat, lemma_passes_empty,
    passes, table_passes, walk, Walk,
};
use crate::code_gen::calls::{call_ops, lemma_call_reads, lemma_call_runs};
use crate::code_gen::assignments::{
    assign_ops, assign_value, assignment, lemma_assign_reads, lemma_assign_runs,
};
use crate::code_gen::effects::{
    lemma_clear_effect, lemma_negate_open_effect, lemma_not_open_effect,
};
use crate::code_gen::soundness::lemma_run_steps;
use crate::code_gen::statements::{
    lemma_loop_ops_run, lemma_minus_runs, loop_ops, minus_ops,
};
use crate::code_gen::expressions::{
    expr_ops, joined_ops, lemma_expr_reads, lemma_expr_runs, lemma_left_runs,
    lemma_operator_after,
    lemma_operator_reads, lemma_prefix_after, lemma_prefix_reads, lemma_right_runs, opened,
    prefixed_ops, relational, unary_value, zero_tape,
};
use crate::code_gen::operators::{binary_value, clean, enough};
use crate::code_gen::rules::{
    assign_template, function_find, gen_args, gen_call, gen_expr, gen_nested, lookup_var, Env,
    Table,
};
use crate::code_gen::templates::{
    binary_ops, clear_ops, left_ops, lemma_right_reads, negate_close_ops, negate_open_ops,
    not_close_ops, not_open_ops, right_ops,
};
use crate::code_gen::{fits, lemma_fits_higher, lemma_lookup_below};

verus! {

/// A walk over `code` that ends with no loop open goes as the reading of
/// the code goes: from the top level the text runs out with each of its
/// loops closed; from inside a loop the reading ends at the `]` that closes
/// the loop, behind which the walk goes on.
pub proof fn lemma_walk_read(code: Seq<char>, i: int, at: Walk, end: Walk)
    requires
        0 <= i <= code.len(),
        walk(code, i, at) == Some(end),
        end.depth == 0,
    ensures
        at.depth == 0 ==> runs_out(code, i) && !ends_inside(code, i) && read(
            code,
            i,
            Seq::empty(),
        ).next == code.len(),
        at.depth > 0 ==> ends_inside(code, i) && !runs_out(code, i) && i < read(
            code,
            i,
            Seq::empty(),
        ).next <= code.len() && walk(
            code,
            read(code, i, Seq::empty()).next,
            Walk { depth: (at.depth - 1) as nat, net: at.net },
        ) == Some(end),
    decreases code.len() - i,
{
    let none = Seq::<Op>::empty();
    if !(0 <= i < code.len()) {
    } else if code[i] == '[' {
        let open = Walk { depth: at.depth + 1, net: at.net };
        lemma_walk_read(code, i + 1, open, end);
        let body = read(code, i + 1, none);
        lemma_walk_read(code, body.next, at, end);
        lemma_read_after(code, body.next, none.push(Op::Loop(body.ops)));
    } else if code[i] == ']' {
    } else {
        let next = if code[i] == '>' && at.depth == 0 {
            Walk { depth: at.depth, net: at.net + 1 }
        } else if code[i] == '<' && at.depth == 0 {
            Walk { depth: at.depth, net: at.net - 1 }
        } else {
            at
        };
        lemma_walk_read(code, i + 1, next, end);
        match crate::brainfuck::tree::command(code[i]) {
            Some(op) => lemma_read_after(code, i + 1, none.push(op)),
            None => {},
        }
    }
}

/// Code that passes is a program: each of its loops is closed.
pub proof fn lemma_passes_reads(code: Seq<char>, net: int)
    requires
        passes(code, net),
    ensures
        reads(code, parse(code)),
{
    let at = Walk { depth: 0, net: 0 };
    assert(walk(code, 0, at) == crate::code_gen::balance::after(at, 0, net));
    lemma_walk_read(code, 0, at, Walk { depth: 0, net });
}

/// Programs in a row are run as their operations in a row.
pub proof fn lemma_parse_concat(first: Seq<char>, second: Seq<char>, m: int, n: int)
    requires
        passes(first, m),
        passes(second, n),
    ensures
        parse(first + second) == parse(first) + parse(second),
{
    lemma_passes_reads(first, m);
    lemma_passes_reads(second, n);
    lemma_reads_concat(first, second, parse(first), parse(second));
    lemma_reads_parse(first + second, parse(first) + parse(second));
}

/// Whether `after` has the head where `before` has it, and the cells left
/// of the head as `before` has them.
pub open spec fn kept(before: State, after: State) -> bool {
    &&& after.head == before.head
    &&& forall|i: int| i < before.head ==> #[trigger] after.at(i) == before.at(i)
}

/// Whether the program `code`, wherever a run of it ends, has left the head
/// where it found it and the cells left of the head as they were.
pub open spec fn proper(code: Seq<char>) -> bool {
    forall|state: State, limit: nat| #[trigger]
        run(parse(code), state, limit) is Some ==> kept(
            state,
            run(parse(code), state, limit)->Some_0,
        )
}

/// Whether the code of each function of `table` is proper.
pub open spec fn table_proper(table: Table) -> bool {
    forall|i: int| 0 <= i < table.len() ==> proper((#[trigger] table[i]).1.code)
}

/// Whether the code of a function of `arity` parameters is tidy: wherever a
/// run of it ends that began with zero right of the arguments, and right of
/// the head where there are none, it has left zero right of the head.
pub open spec fn tidy(code: Seq<char>, arity: nat) -> bool {
    forall|state: State, limit: nat| #[trigger]
        run(parse(code), state, limit) is Some && clean_from(state, arity) ==> clean(
            run(parse(code), state, limit)->Some_0,
            state.head,
        )
}

/// Whether the cells of `state` are zero that lie right of the head and of
/// the `arity` cells from the head on.
pub open spec fn clean_from(state: State, arity: nat) -> bool {
    forall|i: int| i > state.head && i >= state.head + arity ==> #[trigger] state.at(i) == 0
}

/// Whether the code of each function of `table` is tidy.
pub open spec fn table_tidy(table: Table) -> bool {
    forall|i: int| 0 <= i < table.len() ==> tidy((#[trigger] table[i]).1.code, table[i].1.arity)
}

/// The state that the code of `expr` leaves, if its run ends.
pub open spec fn left_by(env: Env, expr: ExprView, state: State, limit: nat) -> Option<State> {
    run(parse(gen_expr(env, expr)->Ok_0), state, limit)
}

/// The code of the arguments from `i` on: each argument, then `>`.
pub open spec fn args_text(env: Env, args: Seq<ExprView>, i: int) -> Seq<char>
    decreases args.len() - i,
{
    if !(0 <= i < args.len()) {
        Seq::empty()
    } else {
        gen_expr(env.bump(i as nat), args[i])->Ok_0 + ">"@ + args_text(env, args, i + 1)
    }
}

/// The code of arguments is the code before them and the code of each.
pub proof fn lemma_args_text(env: Env, args: Seq<ExprView>, i: int, code: Seq<char>)
    requires
        0 <= i <= args.len(),
        gen_args(env, args, i, code) is Ok,
    ensures
        gen_args(env, args, i, code)->Ok_0 == code + args_text(env, args, i),
        forall|k: int| i <= k < args.len() ==> gen_expr(env.bump(k as nat), #[trigger] args[k]) is Ok,
    decreases args.len() - i,
{
    if i < args.len() {
        let arg = gen_expr(env.bump(i as nat), args[i])->Ok_0;
        lemma_args_text(env, args, i + 1, code + arg + ">"@);
        assert(code + arg + ">"@ + args_text(env, args, i + 1) =~= code + args_text(env, args, i));
    } else {
        assert(code + args_text(env, args, i) =~= code);
    }
}

/// The code of the arguments from `i` on passes, and moves the head one
/// cell to the right for each.
pub proof fn lemma_args_text_passes(env: Env, args: Seq<ExprView>, i: int)
    requires
        0 <= i <= args.len(),
        table_passes(env.functions),
        forall|k: int| i <= k < args.len() ==> gen_expr(env.bump(k as nat), #[trigger] args[k]) is Ok,
    ensures
        passes(args_text(env, args, i), args.len() - i),
    decreases args.len() - i,
{
    if i < args.len() {
        let arg = gen_expr(env.bump(i as nat), args[i])->Ok_0;
        lemma_expr_passes(env.bump(i as nat), args[i]);
        lemma_right_passes();
        lemma_args_text_passes(env, args, i + 1);
        lemma_passes_concat(arg, ">"@, 0, 1);
        lemma_passes_concat(arg + ">"@, args_text(env, args, i + 1), 1, args.len() - i - 1);
    } else {
        lemma_passes_empty();
    }
}

/// The code `>` passes.
pub proof fn lemma_right_passes()
    ensures
        passes(">"@, 1),
        passes("<"@, -1),
{
    reveal_strlit(">");
    reveal_strlit("<");
    reveal_with_fuel(walk, 2);
}

/// The code of a run at a higher limit is the run: a run that has ended
/// ends the same way where loops may run more often.
proof fn lemma_ended(ops: Seq<Op>, state: State, limit: nat)
    requires
        run(ops, state, limit) is Some,
    ensures
        run(ops, state, limit + enough()) == run(ops, state, limit),
{
    lemma_run_more(ops, state, limit, limit + enough());
}

/// The tape discipline of every expression, calls included: wherever a run
/// of the code of an expression ends, the head stands where it stood and
/// the cells left of it are as they were. The variables lie below the head,
/// and the code of each function that can be called passes and is proper.
pub proof fn lemma_expression_keeps(env: Env, expr: ExprView, state: State, limit: nat)
    requires
        fits(env.scopes, env.stack_ptr),
        table_passes(env.functions),
        table_proper(env.functions),
        gen_expr(env, expr) is Ok,
        left_by(env, expr, state, limit) is Some,
    ensures
        kept(state, left_by(env, expr, state, limit)->Some_0),
        table_tidy(env.functions) && clean(state, state.head) ==> clean(
            left_by(env, expr, state, limit)->Some_0,
            state.head,
        ),
    decreases expr, 1int,
{
    let code = gen_expr(env, expr)->Ok_0;
    let after = left_by(env, expr, state, limit)->Some_0;
    let more = limit + enough();
    match expr {
        ExprView::Binary { left, op, right } => {
            lemma_operator_general(env, *left, op, *right, state, limit);
        },
        ExprView::Unary { op, right } => {
            lemma_prefix_general(env, op, *right, state, limit);
        },
        ExprView::Call { name, args } => {
            lemma_call_keeps(env, name, args, true, state, limit);
        },
        ExprView::Var { name } => {
            lemma_lookup_below(env.scopes, env.stack_ptr, name.name);
            lemma_ended(parse(code), state, limit);
            lemma_expr_reads(env, env.stack_ptr, expr);
            lemma_reads_parse(code, expr_ops(env, expr));
            lemma_expr_runs(env, env.stack_ptr, expr, state, more);
        },
        ExprView::Int { pos, value } => {
            lemma_ended(parse(code), state, limit);
            lemma_expr_reads(env, env.stack_ptr, expr);
            lemma_reads_parse(code, expr_ops(env, expr));
            lemma_expr_runs(env, env.stack_ptr, expr, state, more);
        },
    }
}

/// The code of `left op right`, for any two well-formed operands, calls
/// included, leaves the value of the operator for the values that the code
/// of its operands has left: wherever its run ends, the head stands where
/// it stood, the cells left of it are as they were, and a comparison has
/// left 0 or 1.
pub proof fn lemma_operator_general(
    env: Env,
    left: ExprView,
    op: BinaryOp,
    right: ExprView,
    state: State,
    limit: nat,
)
    requires
        fits(env.scopes, env.stack_ptr),
        table_passes(env.functions),
        table_proper(env.functions),
        gen_expr(env, binary_of(left, op, right)) is Ok,
        left_by(env, binary_of(left, op, right), state, limit) is Some,
    ensures
        left_by(env, left, state, limit) is Some,
        left_by(env.bump(1), right, left_by(env, left, state, limit)->Some_0.moved(1), limit) is Some,
        ({
            let first = left_by(env, left, state, limit)->Some_0;
            let second = left_by(env.bump(1), right, first.moved(1), limit)->Some_0;
            let after = left_by(env, binary_of(left, op, right), state, limit)->Some_0;
            &&& kept(state, after)
            &&& after.cell() == binary_value(op.kind, first.cell(), second.cell())
            &&& relational(op.kind) ==> after.cell() == 0 || after.cell() == 1
            &&& table_tidy(env.functions) && clean(state, state.head) ==> clean(after, state.head)
        }),
    decreases binary_of(left, op, right), 0int,
{
    let expr = binary_of(left, op, right);
    let more = limit + enough();
    let l = gen_expr(env, left)->Ok_0;
    let r = gen_expr(env.bump(1), right)->Ok_0;
    lemma_expr_passes(env, left);
    lemma_expr_passes(env.bump(1), right);
    lemma_passes_reads(l, 0);
    lemma_passes_reads(r, 0);
    let lo = parse(l);
    let ro = parse(r);
    lemma_operator_reads(env, left, op, right, lo, ro);
    let code = gen_expr(env, expr)->Ok_0;
    lemma_reads_parse(code, joined_ops(lo, op.kind, ro));
    lemma_run_concat(lo, right_ops(), state, limit);
    lemma_run_concat(lo + right_ops(), ro, state, limit);
    lemma_run_concat(lo + right_ops() + ro, binary_ops(op.kind), state, limit);
    lemma_run_concat(lo + right_ops() + ro + binary_ops(op.kind), left_ops(), state, limit);
    let first = run(lo, state, limit)->Some_0;
    lemma_right_runs(first, limit);
    let second = run(ro, first.moved(1), limit)->Some_0;
    lemma_expression_keeps(env, left, state, limit);
    lemma_fits_higher(env.scopes, env.stack_ptr, env.stack_ptr + 1);
    if table_tidy(env.functions) && clean(state, state.head) {
        assert forall|i: int| i > state.head + 1 implies #[trigger] first.moved(1).at(i) == 0 by {
            assert(first.at(i) == 0);
        }
    }
    lemma_expression_keeps(env.bump(1), right, first.moved(1), limit);
    assert(second.at(state.head) == first.cell());
    lemma_ended(lo, state, limit);
    lemma_ended(ro, first.moved(1), limit);
    lemma_ended(joined_ops(lo, op.kind, ro), state, limit);
    lemma_operator_after(op.kind, lo, ro, state, first, second, more);
    let after = run(joined_ops(lo, op.kind, ro), state, limit)->Some_0;
    assert forall|i: int| i < state.head implies #[trigger] after.at(i) == state.at(i) by {
        assert(after.at(i) == second.moved(-1).at(i));
        assert(second.at(i) == first.moved(1).at(i));
        assert(first.at(i) == state.at(i));
    }
}

/// The code of `left op right` ends where the code of its operands ends,
/// the right one run from where the left one has left the tape: for any
/// two well-formed operands, calls included, and a limit that is enough for
/// the code of the operator.
pub proof fn lemma_operator_ends(
    env: Env,
    left: ExprView,
    op: BinaryOp,
    right: ExprView,
    state: State,
    limit: nat,
)
    requires
        fits(env.scopes, env.stack_ptr),
        table_passes(env.functions),
        table_proper(env.functions),
        gen_expr(env, binary_of(left, op, right)) is Ok,
        limit >= enough(),
        left_by(env, left, state, limit) is Some,
        left_by(env.bump(1), right, left_by(env, left, state, limit)->Some_0.moved(1), limit) is Some,
    ensures
        left_by(env, binary_of(left, op, right), state, limit) is Some,
{
    let l = gen_expr(env, left)->Ok_0;
    let r = gen_expr(env.bump(1), right)->Ok_0;
    lemma_expr_passes(env, left);
    lemma_expr_passes(env.bump(1), right);
    lemma_passes_reads(l, 0);
    lemma_passes_reads(r, 0);
    lemma_operator_reads(env, left, op, right, parse(l), parse(r));
    lemma_reads_parse(
        gen_expr(env, binary_of(left, op, right))->Ok_0,
        joined_ops(parse(l), op.kind, parse(r)),
    );
    let first = run(parse(l), state, limit)->Some_0;
    let second = run(parse(r), first.moved(1), limit)->Some_0;
    lemma_expression_keeps(env, left, state, limit);
    lemma_fits_higher(env.scopes, env.stack_ptr, env.stack_ptr + 1);
    lemma_expression_keeps(env.bump(1), right, first.moved(1), limit);
    assert(second.at(state.head) == first.cell());
    lemma_operator_after(op.kind, parse(l), parse(r), state, first, second, limit);
}

/// The code of `op right` ends where the code of its operand ends: for any
/// well-formed operand, calls included, and a limit that is enough for the
/// code of the operator.
pub proof fn lemma_prefix_ends(env: Env, op: UnaryOp, right: ExprView, state: State, limit: nat)
    requires
        fits(env.scopes, env.stack_ptr),
        table_passes(env.functions),
        table_proper(env.functions),
        gen_expr(env, unary_of(op, right)) is Ok,
        limit >= enough(),
        left_by(inner(env, op.kind), right, opened(op.kind, state), limit) is Some,
    ensures
        left_by(env, unary_of(op, right), state, limit) is Some,
{
    let within = inner(env, op.kind);
    let r = gen_expr(within, right)->Ok_0;
    lemma_fits_higher(env.scopes, env.stack_ptr, env.stack_ptr + 1);
    lemma_expr_passes(within, right);
    lemma_passes_reads(r, 0);
    lemma_prefix_reads(env, op, right, parse(r));
    lemma_reads_parse(gen_expr(env, unary_of(op, right))->Ok_0, prefixed_ops(op.kind, parse(r)));
    let from = opened(op.kind, state);
    let operand = run(parse(r), from, limit)->Some_0;
    lemma_expression_keeps(within, right, from, limit);
    match op.kind {
        UnaryOpKind::Plus => {},
        _ => {
            assert(operand.at(state.head) == from.at(state.head));
        },
    }
    lemma_prefix_after(op.kind, parse(r), state, operand, limit);
}

/// The code of a call ends where the code of its arguments ends and the
/// code of the function ends, run with the head on the first argument.
pub proof fn lemma_call_ends(
    env: Env,
    name: NameView,
    args: Seq<ExprView>,
    is_expr: bool,
    state: State,
    limit: nat,
)
    requires
        table_passes(env.functions),
        gen_call(env, name, args, is_expr) is Ok,
        run(parse(args_text(env, args, 0)), state, limit) is Some,
        run(
            parse(function_find(env.functions, name.name, 0)->Some_0.code),
            run(parse(args_text(env, args, 0)), state, limit)->Some_0.moved(-(args.len() as int)),
            limit,
        ) is Some,
    ensures
        run(parse(gen_call(env, name, args, is_expr)->Ok_0), state, limit) == run(
            parse(function_find(env.functions, name.name, 0)->Some_0.code),
            run(parse(args_text(env, args, 0)), state, limit)->Some_0.moved(-(args.len() as int)),
            limit,
        ),
{
    let n = args.len();
    let function = function_find(env.functions, name.name, 0)->Some_0.code;
    lemma_args_text(env, args, 0, Seq::empty());
    let pushing = args_text(env, args, 0);
    assert(Seq::<char>::empty() + pushing =~= pushing);
    lemma_args_text_passes(env, args, 0);
    lemma_function_found_passes(env.functions, name.name, 0);
    lemma_passes_reads(pushing, n as int);
    lemma_passes_reads(function, 0);
    lemma_call_reads(env, name, args, is_expr, parse(pushing), parse(function));
    lemma_reads_parse(
        gen_call(env, name, args, is_expr)->Ok_0,
        call_ops(parse(pushing), n, parse(function)),
    );
    let pushed = run(parse(pushing), state, limit)->Some_0;
    lemma_call_runs(parse(pushing), n, parse(function), state, pushed, limit);
}

/// The expression `left op right`.
pub open spec fn binary_of(left: ExprView, op: BinaryOp, right: ExprView) -> ExprView {
    ExprView::Binary { left: Box::new(left), op, right: Box::new(right) }
}

/// The expression `op right`.
pub open spec fn unary_of(op: UnaryOp, right: ExprView) -> ExprView {
    ExprView::Unary { op, right: Box::new(right) }
}

/// The code of `op right`, for any well-formed operand, calls included,
/// leaves the value of the prefix operator for the value that the code of
/// its operand has left: wherever its run ends, the head stands where it
/// stood and the cells left of it are as they were.
pub proof fn lemma_prefix_general(env: Env, op: UnaryOp, right: ExprView, state: State, limit: nat)
    requires
        fits(env.scopes, env.stack_ptr),
        table_passes(env.functions),
        table_proper(env.functions),
        gen_expr(env, unary_of(op, right)) is Ok,
        left_by(env, unary_of(op, right), state, limit) is Some,
    ensures
        left_by(inner(env, op.kind), right, opened(op.kind, state), limit) is Some,
        ({
            let operand = left_by(inner(env, op.kind), right, opened(op.kind, state), limit)->Some_0;
            let after = left_by(env, unary_of(op, right), state, limit)->Some_0;
            &&& kept(state, after)
            &&& after.cell() == unary_value(op.kind, operand.cell())
            &&& table_tidy(env.functions) && clean(state, state.head) ==> clean(after, state.head)
        }),
    decreases unary_of(op, right), 0int,
{
    let expr = unary_of(op, right);
    let more = limit + enough();
    let within = inner(env, op.kind);
    let r = gen_expr(within, right)->Ok_0;
    lemma_fits_higher(env.scopes, env.stack_ptr, env.stack_ptr + 1);
    lemma_expr_passes(within, right);
    lemma_passes_reads(r, 0);
    let ro = parse(r);
    lemma_prefix_reads(env, op, right, ro);
    let code = gen_expr(env, expr)->Ok_0;
    lemma_reads_parse(code, prefixed_ops(op.kind, ro));
    let from = opened(op.kind, state);
    match op.kind {
        UnaryOpKind::Plus => {},
        UnaryOpKind::Minus => {
            lemma_run_concat(negate_open_ops(), ro, state, limit);
            lemma_run_concat(negate_open_ops() + ro, negate_close_ops(), state, limit);
            lemma_ended(negate_open_ops(), state, limit);
            lemma_negate_open_effect(state, more);
        },
        UnaryOpKind::Not => {
            lemma_run_concat(not_open_ops(), ro, state, limit);
            lemma_run_concat(not_open_ops() + ro, not_close_ops(), state, limit);
            lemma_ended(not_open_ops(), state, limit);
            lemma_not_open_effect(state, more);
        },
    }
    let operand = run(ro, from, limit)->Some_0;
    if table_tidy(env.functions) && clean(state, state.head) && !(op.kind is Plus) {
        assert forall|i: int| i > state.head + 1 implies #[trigger] from.at(i) == 0 by {
            assert(state.at(i) == 0);
        }
    }
    lemma_expression_keeps(within, right, from, limit);
    lemma_ended(ro, from, limit);
    lemma_ended(prefixed_ops(op.kind, ro), state, limit);
    lemma_prefix_after(op.kind, ro, state, operand, more);
    let after = run(prefixed_ops(op.kind, ro), state, limit)->Some_0;
    assert forall|i: int| i < state.head implies #[trigger] after.at(i) == state.at(i) by {
        assert(after.at(i) == operand.at(i));
        assert(operand.at(i) == from.at(i));
    }
}

/// The environment in which the operand of a prefix operator is compiled.
pub open spec fn inner(env: Env, kind: UnaryOpKind) -> Env {
    if kind is Plus {
        env
    } else {
        env.bump(1)
    }
}

/// The code of the arguments from `i` on, wherever its run ends, has left
/// the head one cell further right for each argument, and the cells left
/// of where the head stood as they were.
pub proof fn lemma_args_keep(env: Env, args: Seq<ExprView>, i: int, state: State, limit: nat)
    requires
        0 <= i <= args.len(),
        fits(env.scopes, env.stack_ptr),
        table_passes(env.functions),
        table_proper(env.functions),
        forall|k: int| i <= k < args.len() ==> gen_expr(env.bump(k as nat), #[trigger] args[k]) is Ok,
        run(parse(args_text(env, args, i)), state, limit) is Some,
    ensures
        run(parse(args_text(env, args, i)), state, limit)->Some_0.head == state.head + args.len()
            - i,
        forall|j: int|
            j < state.head ==> #[trigger] run(
                parse(args_text(env, args, i)),
                state,
                limit,
            )->Some_0.at(j) == state.at(j),
        table_tidy(env.functions) && clean(state, state.head) ==> forall|j: int|
            j > state.head && j >= state.head + args.len() - i ==> #[trigger] run(
                parse(args_text(env, args, i)),
                state,
                limit,
            )->Some_0.at(j) == 0,
    decreases args, args.len() - i,
{
    if i < args.len() {
        let within = env.bump(i as nat);
        let arg = gen_expr(within, args[i])->Ok_0;
        let rest = args_text(env, args, i + 1);
        lemma_expr_passes(within, args[i]);
        lemma_right_passes();
        lemma_args_text_passes(env, args, i + 1);
        lemma_passes_concat(arg, ">"@, 0, 1);
        lemma_parse_concat(arg, ">"@, 0, 1);
        lemma_parse_concat(arg + ">"@, rest, 1, args.len() - i - 1);
        lemma_right_reads();
        lemma_reads_parse(">"@, right_ops());
        lemma_run_concat(parse(arg), right_ops(), state, limit);
        lemma_run_concat(parse(arg) + right_ops(), parse(rest), state, limit);
        let pushed = run(parse(arg), state, limit)->Some_0;
        lemma_right_runs(pushed, limit);
        lemma_fits_higher(env.scopes, env.stack_ptr, env.stack_ptr + i as nat);
        lemma_expression_keeps(within, args[i], state, limit);
        if table_tidy(env.functions) && clean(state, state.head) {
            assert forall|j: int| j > state.head + 1 implies #[trigger] pushed.moved(1).at(j)
                == 0 by {
                assert(pushed.at(j) == 0);
            }
        }
        lemma_args_keep(env, args, i + 1, pushed.moved(1), limit);
        let end = run(parse(rest), pushed.moved(1), limit)->Some_0;
        if table_tidy(env.functions) && clean(state, state.head) {
            assert forall|j: int| j > state.head && j >= state.head + args.len() - i implies (
            #[trigger] end.at(j)) == 0 by {
                if args.len() - i == 1 {
                    assert(end == pushed.moved(1));
                    assert(pushed.at(j) == 0);
                }
            }
        }
        assert forall|j: int| j < state.head implies #[trigger] end.at(j) == state.at(j) by {
            assert(end.at(j) == pushed.moved(1).at(j));
            assert(pushed.at(j) == state.at(j));
        }
    } else {
        assert(parse(Seq::<char>::empty()) =~= Seq::<Op>::empty());
    }
}

/// The code of a call, wherever its run ends, has left the head where it
/// stood and the cells left of it as they were.
pub proof fn lemma_call_keeps(
    env: Env,
    name: NameView,
    args: Seq<ExprView>,
    is_expr: bool,
    state: State,
    limit: nat,
)
    requires
        fits(env.scopes, env.stack_ptr),
        table_passes(env.functions),
        table_proper(env.functions),
        gen_call(env, name, args, is_expr) is Ok,
        run(parse(gen_call(env, name, args, is_expr)->Ok_0), state, limit) is Some,
    ensures
        kept(state, run(parse(gen_call(env, name, args, is_expr)->Ok_0), state, limit)->Some_0),
        table_tidy(env.functions) && clean(state, state.head) ==> clean(
            run(parse(gen_call(env, name, args, is_expr)->Ok_0), state, limit)->Some_0,
            state.head,
        ),
    decreases args, args.len() + 1,
{
    let n = args.len();
    let function = function_find(env.functions, name.name, 0)->Some_0.code;
    lemma_args_text(env, args, 0, Seq::empty());
    let pushing = args_text(env, args, 0);
    assert(Seq::<char>::empty() + pushing =~= pushing);
    lemma_args_text_passes(env, args, 0);
    lemma_function_found_passes(env.functions, name.name, 0);
    lemma_passes_reads(pushing, n as int);
    lemma_passes_reads(function, 0);
    lemma_call_reads(env, name, args, is_expr, parse(pushing), parse(function));
    let code = gen_call(env, name, args, is_expr)->Ok_0;
    lemma_reads_parse(code, call_ops(parse(pushing), n, parse(function)));
    lemma_run_concat(parse(pushing), repeat_op(Op::Move(-1), n), state, limit);
    lemma_run_concat(parse(pushing) + repeat_op(Op::Move(-1), n), parse(function), state, limit);
    let pushed = run(parse(pushing), state, limit)->Some_0;
    lemma_args_keep(env, args, 0, state, limit);
    lemma_call_runs(parse(pushing), n, parse(function), state, pushed, limit);
    let entered = pushed.moved(-(n as int));
    lemma_function_found_proper(env.functions, name.name, 0);
    let after = run(parse(function), entered, limit)->Some_0;
    assert(kept(entered, after));
    if table_tidy(env.functions) && clean(state, state.head) {
        lemma_function_found_tidy(env.functions, name.name, 0);
        assert(function_find(env.functions, name.name, 0)->Some_0.arity == n);
        assert forall|i: int| i > entered.head && i >= entered.head + n implies #[trigger] entered.at(
            i,
        ) == 0 by {
            assert(pushed.at(i) == 0);
        }
        assert(clean_from(entered, n));
    }
    assert forall|i: int| i < state.head implies #[trigger] after.at(i) == state.at(i) by {
        assert(after.at(i) == entered.at(i));
        assert(pushed.at(i) == state.at(i));
    }
}

/// The function that is found in a tidy table is tidy.
pub proof fn lemma_function_found_tidy(table: Table, name: Seq<char>, i: int)
    requires
        0 <= i,
        table_tidy(table),
        function_find(table, name, i) is Some,
    ensures
        tidy(
            function_find(table, name, i)->Some_0.code,
            function_find(table, name, i)->Some_0.arity,
        ),
    decreases table.len() - i,
{
    if table[i].0 != name {
        lemma_function_found_tidy(table, name, i + 1);
    }
}

/// The function that is found in a proper table is proper.
pub proof fn lemma_function_found_proper(table: Table, name: Seq<char>, i: int)
    requires
        0 <= i,
        table_proper(table),
        function_find(table, name, i) is Some,
    ensures
        proper(function_find(table, name, i)->Some_0.code),
    decreases table.len() - i,
{
    if table[i].0 != name {
        lemma_function_found_proper(table, name, i + 1);
    }
}

/// Whether operations, wherever a run of them ends, have moved the head
/// by `shift` cells and left the cells as they were that lie more than
/// `depth` cells left of where the head stood.
pub open spec fn holds(ops: Seq<Op>, depth: int, shift: int) -> bool {
    forall|state: State, limit: nat| #[trigger]
        run(ops, state, limit) is Some ==> held(
            state,
            run(ops, state, limit)->Some_0,
            depth,
            shift,
        )
}

/// Whether `after` has the head `shift` cells right of where `before` has
/// it, and the cells as `before` has them that lie more than `depth` cells
/// left of the head of `before`.
pub open spec fn held(before: State, after: State, depth: int, shift: int) -> bool {
    &&& after.head == before.head + shift
    &&& forall|i: int| i < before.head - depth ==> #[trigger] after.at(i) == before.at(i)
}

/// Operations in a row hold where each of them holds from where the ones
/// before it have left the head.
pub proof fn lemma_holds_concat(first: Seq<Op>, second: Seq<Op>, depth: int, m: int, n: int)
    requires
        holds(first, depth, m),
        holds(second, depth + m, n),
    ensures
        holds(first + second, depth, m + n),
{
    assert forall|state: State, limit: nat| #[trigger]
        run(first + second, state, limit) is Some implies held(
        state,
        run(first + second, state, limit)->Some_0,
        depth,
        m + n,
    ) by {
        lemma_run_concat(first, second, state, limit);
        let between = run(first, state, limit)->Some_0;
        assert(held(state, between, depth, m));
        let after = run(second, between, limit)->Some_0;
        assert(held(between, after, depth + m, n));
        assert forall|i: int| i < state.head - depth implies #[trigger] after.at(i) == state.at(
            i,
        ) by {
            assert(after.at(i) == between.at(i));
        }
    }
}

/// Operations that hold at a depth hold at a greater one.
pub proof fn lemma_holds_deeper(ops: Seq<Op>, depth: int, deeper: int, shift: int)
    requires
        holds(ops, depth, shift),
        depth <= deeper,
    ensures
        holds(ops, deeper, shift),
{
    assert forall|state: State, limit: nat| #[trigger]
        run(ops, state, limit) is Some implies held(
        state,
        run(ops, state, limit)->Some_0,
        deeper,
        shift,
    ) by {
        assert(held(state, run(ops, state, limit)->Some_0, depth, shift));
    }
}

/// The rounds of a loop hold where its body holds and leaves the head
/// where it found it.
pub proof fn lemma_rounds_hold(body: Seq<Op>, depth: int, state: State, limit: nat)
    requires
        holds(body, depth, 0),
        run_loop(body, state, limit) is Some,
    ensures
        held(state, run_loop(body, state, limit)->Some_0, depth, 0),
    decreases limit,
{
    if state.cell() != 0 {
        let less = (limit - 1) as nat;
        let next = run(body, state, less)->Some_0;
        assert(held(state, next, depth, 0));
        lemma_rounds_hold(body, depth, next, less);
        let after = run_loop(body, next, less)->Some_0;
        assert forall|i: int| i < state.head - depth implies #[trigger] after.at(i) == state.at(
            i,
        ) by {
            assert(after.at(i) == next.at(i));
        }
    }
}

/// A loop holds where its body holds and leaves the head where it found
/// it.
pub proof fn lemma_holds_loop(body: Seq<Op>, depth: int)
    requires
        holds(body, depth, 0),
    ensures
        holds(loop_ops(body), depth, 0),
{
    assert forall|state: State, limit: nat| #[trigger]
        run(loop_ops(body), state, limit) is Some implies held(
        state,
        run(loop_ops(body), state, limit)->Some_0,
        depth,
        0,
    ) by {
        lemma_loop_ops_run(body, state, limit);
        lemma_rounds_hold(body, depth, state, limit);
    }
}

/// The small pieces of code hold: a step to the right or to the left, `-`,
/// the code that clears the cell under the head, the first piece of the
/// code of `not`, and a row of steps.
pub proof fn lemma_pieces_hold(n: nat)
    ensures
        holds(right_ops(), 0, 1),
        holds(left_ops(), 0, -1),
        holds(minus_ops(), 0, 0),
        holds(clear_ops(), 0, 0),
        holds(not_open_ops(), 0, 1),
        holds(repeat_op(Op::Move(1), n), 0, n as int),
        holds(repeat_op(Op::Move(-1), n), 0, -(n as int)),
        holds(Seq::<Op>::empty(), 0, 0),
{
    assert forall|state: State, limit: nat| #[trigger]
        run(right_ops(), state, limit) is Some implies held(
        state,
        run(right_ops(), state, limit)->Some_0,
        0,
        1,
    ) by {
        lemma_right_runs(state, limit);
    }
    assert forall|state: State, limit: nat| #[trigger]
        run(left_ops(), state, limit) is Some implies held(
        state,
        run(left_ops(), state, limit)->Some_0,
        0,
        -1,
    ) by {
        lemma_left_runs(state, limit);
    }
    assert forall|state: State, limit: nat| #[trigger]
        run(minus_ops(), state, limit) is Some implies held(
        state,
        run(minus_ops(), state, limit)->Some_0,
        0,
        0,
    ) by {
        lemma_minus_runs(state, limit);
    }
    assert forall|state: State, limit: nat| #[trigger]
        run(clear_ops(), state, limit) is Some implies held(
        state,
        run(clear_ops(), state, limit)->Some_0,
        0,
        0,
    ) by {
        lemma_ended(clear_ops(), state, limit);
        lemma_clear_effect(state, limit + enough());
    }
    assert forall|state: State, limit: nat| #[trigger]
        run(not_open_ops(), state, limit) is Some implies held(
        state,
        run(not_open_ops(), state, limit)->Some_0,
        0,
        1,
    ) by {
        lemma_ended(not_open_ops(), state, limit);
        lemma_not_open_effect(state, limit + enough());
    }
    assert forall|state: State, limit: nat| #[trigger]
        run(repeat_op(Op::Move(1), n), state, limit) is Some implies held(
        state,
        run(repeat_op(Op::Move(1), n), state, limit)->Some_0,
        0,
        n as int,
    ) by {
        lemma_run_steps(1, n, state, limit);
        assert(1 * n == n);
    }
    assert forall|state: State, limit: nat| #[trigger]
        run(repeat_op(Op::Move(-1), n), state, limit) is Some implies held(
        state,
        run(repeat_op(Op::Move(-1), n), state, limit)->Some_0,
        0,
        -(n as int),
    ) by {
        lemma_run_steps(-1, n, state, limit);
        assert(-1 * n == -(n as int));
    }
}

/// The code of an assignment holds: it changes the variable, `rel` cells
/// left of the head, and nothing left of it.
pub proof fn lemma_assign_holds(kind: AssignOpKind, rel: nat)
    requires
        rel >= 1,
    ensures
        holds(assign_ops(kind, rel), rel as int, 0),
{
    assert forall|state: State, limit: nat| #[trigger]
        run(assign_ops(kind, rel), state, limit) is Some implies held(
        state,
        run(assign_ops(kind, rel), state, limit)->Some_0,
        rel as int,
        0,
    ) by {
        lemma_ended(assign_ops(kind, rel), state, limit);
        lemma_assign_runs(kind, state, rel, limit + enough());
    }
}

/// Proper code holds, and so does the code of each expression.
pub proof fn lemma_expression_holds(env: Env, expr: ExprView)
    requires
        fits(env.scopes, env.stack_ptr),
        table_passes(env.functions),
        table_proper(env.functions),
        gen_expr(env, expr) is Ok,
    ensures
        holds(parse(gen_expr(env, expr)->Ok_0), 0, 0),
        passes(gen_expr(env, expr)->Ok_0, 0),
{
    lemma_expr_passes(env, expr);
    assert forall|state: State, limit: nat| #[trigger]
        run(parse(gen_expr(env, expr)->Ok_0), state, limit) is Some implies held(
        state,
        run(parse(gen_expr(env, expr)->Ok_0), state, limit)->Some_0,
        0,
        0,
    ) by {
        lemma_expression_keeps(env, expr, state, limit);
    }
}

/// The code of `variable op expr`, for any well-formed expression, calls
/// included, leaves in the variable the value of the operator for the old
/// value of the variable and the value that the code of the expression has
/// left: wherever its run ends, the head stands where it stood, and the
/// other cells left of it are as they were.
pub proof fn lemma_assignment_general(
    env: Env,
    name: NameView,
    op: AssignOp,
    expr: ExprView,
    state: State,
    limit: nat,
)
    requires
        fits(env.scopes, env.stack_ptr),
        table_passes(env.functions),
        table_proper(env.functions),
        gen_nested(env, assignment(name, op, expr)) is Ok,
        run(parse(gen_nested(env, assignment(name, op, expr))->Ok_0), state, limit) is Some,
    ensures
        left_by(env, expr, state, limit) is Some,
        ({
            let cell = state.head - (env.stack_ptr - lookup_var(env.scopes, name.name)->Some_0);
            let between = left_by(env, expr, state, limit)->Some_0;
            let after = run(
                parse(gen_nested(env, assignment(name, op, expr))->Ok_0),
                state,
                limit,
            )->Some_0;
            &&& cell < state.head
            &&& after.head == state.head
            &&& after.at(cell) == assign_value(op.kind, state.at(cell), between.cell())
            &&& forall|i: int| i < state.head && i != cell ==> #[trigger] after.at(i) == state.at(i)
        }),
{
    let addr = lookup_var(env.scopes, name.name)->Some_0;
    let rel = (env.stack_ptr - addr) as nat;
    let cell = state.head - rel;
    let value = gen_expr(env, expr)->Ok_0;
    let code = gen_nested(env, assignment(name, op, expr))->Ok_0;
    lemma_lookup_below(env.scopes, env.stack_ptr, name.name);
    lemma_expr_passes(env, expr);
    lemma_passes_reads(value, 0);
    lemma_assign_reads(op.kind, rel);
    lemma_reads_concat(value, assign_template(op.kind, rel), parse(value), assign_ops(op.kind, rel));
    lemma_reads_parse(code, parse(value) + assign_ops(op.kind, rel));
    lemma_run_concat(parse(value), assign_ops(op.kind, rel), state, limit);
    let between = run(parse(value), state, limit)->Some_0;
    lemma_expression_keeps(env, expr, state, limit);
    lemma_ended(assign_ops(op.kind, rel), between, limit);
    lemma_assign_runs(op.kind, between, rel, limit + enough());
    let after = run(assign_ops(op.kind, rel), between, limit)->Some_0;
    assert(between.at(cell) == state.at(cell));
    assert forall|i: int| i < state.head && i != cell implies #[trigger] after.at(i) == state.at(
        i,
    ) by {
        assert(after.at(i) == between.at(i));
    }
}

/// The tape discipline on a tape of zeros, for every expression, calls
/// included, whose functions are proper and tidy: wherever a run of the
/// code of the expression ends, the head stands where it stood, and every
/// other cell is zero.
pub proof fn lemma_tape_discipline_general(
    env: Env,
    expr: ExprView,
    head: int,
    input: Seq<u8>,
    limit: nat,
)
    requires
        fits(env.scopes, env.stack_ptr),
        table_passes(env.functions),
        table_proper(env.functions),
        table_tidy(env.functions),
        gen_expr(env, expr) is Ok,
        left_by(env, expr, zero_tape(head, input), limit) is Some,
    ensures
        left_by(env, expr, zero_tape(head, input), limit)->Some_0.head == head,
        forall|i: int|
            i != head ==> #[trigger] left_by(env, expr, zero_tape(head, input), limit)->Some_0.at(i)
                == 0,
{
    let state = zero_tape(head, input);
    assert(clean(state, head));
    lemma_expression_keeps(env, expr, state, limit);
    let after = left_by(env, expr, state, limit)->Some_0;
    assert forall|i: int| i != head implies #[trigger] after.at(i) == 0 by {
        if i < head {
            assert(after.at(i) == state.at(i));
        }
    }
}

} // verus!
