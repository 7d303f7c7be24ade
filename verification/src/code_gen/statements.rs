//! What the code of a statement does when it runs: a declaration, a block,
//! `if` with and without `else`, `while` and `repeat`.
//!
//! The laws hold whatever the code of the parts of the statement is: they
//! speak of the states that this code leaves.

use vstd::prelude::*;
use crate::ast::{DeclarationView, ExprView, StatementView};
use crate::brainfuck::loops::lemma_loop_once;
use crate::brainfuck::reading::{
    lemma_covers_loop, lemma_covers_nothing, lemma_reads_concat, lemma_reads_inside,
    lemma_reads_repeat, reads, repeat_op,
};
use crate::brainfuck::semantics::{
    lemma_run_concat, lemma_run_more, lemma_run_push, run, run_loop, State,
};
use crate::brainfuck::tree::{repeat, Op};
use crate::code_gen::effects::{lemma_clear_effect, lemma_not_open_effect, not_open_effect};
use crate::code_gen::expressions::{lemma_left_runs, lemma_right_runs};
use crate::code_gen::rules::{gen_block, gen_declaration, gen_expr, gen_nested, left, Env};
use crate::code_gen::soundness::lemma_run_steps;
use crate::code_gen::templates::{
    clear_ops, left_ops, lemma_clear_reads, lemma_left_reads, lemma_not_open_reads,
    lemma_right_reads, not_open_ops, right_ops,
};
use crate::util::Position;

verus! {

/// The one operation of a loop with the body `body`.
pub open spec fn loop_ops(body: Seq<Op>) -> Seq<Op> {
    Seq::<Op>::empty().push(Op::Loop(body))
}

/// A program in brackets is a program of one loop.
pub proof fn lemma_reads_loop(body: Seq<char>, ops: Seq<Op>)
    requires
        reads(body, ops),
    ensures
        reads("["@ + body + "]"@, loop_ops(ops)),
{
    reveal_strlit("[");
    reveal_strlit("]");
    let code = "["@ + body + "]"@;
    let end = body.len() as int + 1;
    assert(code.subrange(1, end) =~= body);
    lemma_reads_inside(code, 1, body, ops);
    lemma_covers_nothing(code, 0);
    lemma_covers_loop(code, 0, 0, Seq::empty(), end, ops);
}

/// The state after a loop whose body runs as one loop does.
pub proof fn lemma_loop_ops_run(body: Seq<Op>, state: State, limit: nat)
    ensures
        run(loop_ops(body), state, limit) == run_loop(body, state, limit),
{
    lemma_run_push(Seq::empty(), Op::Loop(body), state, limit);
}

/// The operations of `if` without `else`: the condition, then a loop that
/// holds the statement and ends with zero under the head.
pub open spec fn if_ops(condition: Seq<Op>, then: Seq<Op>) -> Seq<Op> {
    condition + loop_ops(then + clear_ops())
}

/// The statement `if (condition) then_statement`.
pub open spec fn if_then(pos: Position, condition: ExprView, then: StatementView) -> StatementView {
    StatementView::If { pos, condition, then_statement: Box::new(then), else_statement: None }
}

/// The code of `if` without `else` is a program of its operations, where
/// the code of the condition and that of the statement are programs.
pub proof fn lemma_if_reads(
    env: Env,
    pos: Position,
    condition: ExprView,
    then: StatementView,
    condition_ops: Seq<Op>,
    then_ops: Seq<Op>,
)
    requires
        gen_expr(env, condition) is Ok,
        reads(gen_expr(env, condition)->Ok_0, condition_ops),
        gen_nested(env, then) is Ok,
        reads(gen_nested(env, then)->Ok_0, then_ops),
    ensures
        gen_nested(env, if_then(pos, condition, then)) is Ok,
        reads(
            gen_nested(env, if_then(pos, condition, then))->Ok_0,
            if_ops(condition_ops, then_ops),
        ),
{
    let c = gen_expr(env, condition)->Ok_0;
    let t = gen_nested(env, then)->Ok_0;
    reveal_strlit("[");
    reveal_strlit("]");
    reveal_strlit("[-]");
    reveal_strlit("[-]]");
    lemma_clear_reads();
    lemma_reads_concat(t, "[-]"@, then_ops, clear_ops());
    lemma_reads_loop(t + "[-]"@, then_ops + clear_ops());
    lemma_reads_concat(
        c,
        "["@ + (t + "[-]"@) + "]"@,
        condition_ops,
        loop_ops(then_ops + clear_ops()),
    );
    assert(c + ("["@ + (t + "[-]"@) + "]"@) =~= c + "["@ + t + "[-]]"@);
}

/// Where the condition has left zero under the head, the code of `if` does
/// no more. Where it has left another value, the statement runs once, and
/// the cell under the head is zero after it.
pub proof fn lemma_if_runs(
    condition_ops: Seq<Op>,
    then_ops: Seq<Op>,
    state: State,
    tested: State,
    finished: State,
    limit: nat,
    inner: nat,
)
    requires
        run(condition_ops, state, limit) == Some(tested),
        tested.cell() != 0 ==> run(then_ops, tested, inner) == Some(finished),
        limit > inner >= 255,
    ensures
        run(if_ops(condition_ops, then_ops), state, limit) == Some(
            if tested.cell() == 0 {
                tested
            } else {
                finished.write(0)
            },
        ),
{
    let body = then_ops + clear_ops();
    lemma_run_concat(condition_ops, loop_ops(body), state, limit);
    lemma_loop_ops_run(body, tested, limit);
    if tested.cell() != 0 {
        lemma_run_concat(then_ops, clear_ops(), tested, inner);
        lemma_clear_effect(finished, inner);
        assert(finished.write(0).cell() == 0);
    }
    lemma_loop_once(body, tested, limit, inner);
}

/// The operation `-`.
pub open spec fn minus_ops() -> Seq<Op> {
    repeat_op(Op::Add(-1), 1)
}

/// The code `-` is a program of its operation.
pub proof fn lemma_minus_reads()
    ensures
        reads("-"@, minus_ops()),
{
    reveal_strlit("-");
    lemma_reads_repeat('-', 1);
    assert(repeat('-', 1) =~= "-"@);
}

/// `-` takes one from the cell under the head.
pub proof fn lemma_minus_runs(state: State, limit: nat)
    ensures
        run(minus_ops(), state, limit) == Some(state.added(-1)),
{
    assert(minus_ops() =~= Seq::<Op>::empty().push(Op::Add(-1)));
    lemma_run_push(Seq::empty(), Op::Add(-1), state, limit);
}

/// The operations that end the first branch of `if` with `else`: they
/// take one from the flag left of the head, and clear the condition.
pub open spec fn taken_ops() -> Seq<Op> {
    left_ops() + minus_ops() + right_ops() + clear_ops()
}

/// The operations of `if` with `else`: a flag of one, right of it the
/// condition, a loop that holds the first statement and clears the flag,
/// and on the flag a loop that holds the second statement.
pub open spec fn if_else_ops(condition: Seq<Op>, then: Seq<Op>, other: Seq<Op>) -> Seq<Op> {
    not_open_ops() + condition + loop_ops(then + taken_ops()) + left_ops() + loop_ops(
        other + clear_ops(),
    )
}

/// The statement `if (condition) then_statement else else_statement`.
pub open spec fn if_else(
    pos: Position,
    condition: ExprView,
    then: StatementView,
    other: StatementView,
) -> StatementView {
    StatementView::If {
        pos,
        condition,
        then_statement: Box::new(then),
        else_statement: Some(Box::new(other)),
    }
}

/// The code of `if` with `else` is a program of its operations, where the
/// code of the condition and that of the two statements are programs.
pub proof fn lemma_if_else_reads(
    env: Env,
    pos: Position,
    condition: ExprView,
    then: StatementView,
    other: StatementView,
    condition_ops: Seq<Op>,
    then_ops: Seq<Op>,
    other_ops: Seq<Op>,
)
    requires
        gen_expr(env.bump(1), condition) is Ok,
        reads(gen_expr(env.bump(1), condition)->Ok_0, condition_ops),
        gen_nested(env.bump(1), then) is Ok,
        reads(gen_nested(env.bump(1), then)->Ok_0, then_ops),
        gen_nested(env, other) is Ok,
        reads(gen_nested(env, other)->Ok_0, other_ops),
    ensures
        gen_nested(env, if_else(pos, condition, then, other)) is Ok,
        reads(
            gen_nested(env, if_else(pos, condition, then, other))->Ok_0,
            if_else_ops(condition_ops, then_ops, other_ops),
        ),
{
    let c = gen_expr(env.bump(1), condition)->Ok_0;
    let t = gen_nested(env.bump(1), then)->Ok_0;
    let o = gen_nested(env, other)->Ok_0;
    reveal_strlit("[");
    reveal_strlit("]");
    reveal_strlit("<");
    reveal_strlit(">");
    reveal_strlit("-");
    reveal_strlit("[-]");
    reveal_strlit("[-]]");
    reveal_strlit("<->[-]]<[");
    lemma_clear_reads();
    lemma_left_reads();
    lemma_right_reads();
    lemma_minus_reads();
    lemma_not_open_reads();
    lemma_reads_concat("<"@, "-"@, left_ops(), minus_ops());
    lemma_reads_concat("<"@ + "-"@, ">"@, left_ops() + minus_ops(), right_ops());
    lemma_reads_concat(
        "<"@ + "-"@ + ">"@,
        "[-]"@,
        left_ops() + minus_ops() + right_ops(),
        clear_ops(),
    );
    let taken = "<"@ + "-"@ + ">"@ + "[-]"@;
    lemma_reads_concat(t, taken, then_ops, taken_ops());
    lemma_reads_loop(t + taken, then_ops + taken_ops());
    lemma_reads_concat(o, "[-]"@, other_ops, clear_ops());
    lemma_reads_loop(o + "[-]"@, other_ops + clear_ops());
    let first = "["@ + (t + taken) + "]"@;
    let second = "["@ + (o + "[-]"@) + "]"@;
    lemma_reads_concat("[-]+>"@, c, not_open_ops(), condition_ops);
    lemma_reads_concat(
        "[-]+>"@ + c,
        first,
        not_open_ops() + condition_ops,
        loop_ops(then_ops + taken_ops()),
    );
    lemma_reads_concat(
        "[-]+>"@ + c + first,
        "<"@,
        not_open_ops() + condition_ops + loop_ops(then_ops + taken_ops()),
        left_ops(),
    );
    lemma_reads_concat(
        "[-]+>"@ + c + first + "<"@,
        second,
        not_open_ops() + condition_ops + loop_ops(then_ops + taken_ops()) + left_ops(),
        loop_ops(other_ops + clear_ops()),
    );
    assert("[-]+>"@ + c + first + "<"@ + second =~= "[-]+>"@ + c + "["@ + t + "<->[-]]<["@ + o
        + "[-]]"@);
}

/// The state after the first branch of `if` with `else`, where the
/// statement has left `finished`: the flag and the condition are zero, and
/// the head is on the flag.
pub open spec fn taken(finished: State) -> State {
    finished.moved(-1).write(0).moved(1).write(0).moved(-1)
}

/// The code of `if` with `else` runs the first statement where the
/// condition has left a value that is not zero, and the second statement
/// where it has left zero; never both. The condition is evaluated one cell
/// right of the head, and is to leave the head there and the flag left of it
/// as it is, and so is the first statement. The second statement runs on the
/// flag, and the cell under the head is zero after it.
pub proof fn lemma_if_else_runs(
    condition_ops: Seq<Op>,
    then_ops: Seq<Op>,
    other_ops: Seq<Op>,
    state: State,
    tested: State,
    finished: State,
    limit: nat,
    inner: nat,
)
    requires
        run(condition_ops, not_open_effect(state), limit) == Some(tested),
        tested.head == state.head + 1,
        tested.at(state.head) == 1,
        tested.cell() != 0 ==> run(then_ops, tested, inner) == Some(finished) && finished.head
            == tested.head && finished.at(state.head) == 1,
        tested.cell() == 0 ==> run(other_ops, tested.moved(-1), inner) == Some(finished),
        limit > inner >= 255,
    ensures
        run(if_else_ops(condition_ops, then_ops, other_ops), state, limit) == Some(
            if tested.cell() != 0 {
                taken(finished)
            } else {
                finished.write(0)
            },
        ),
{
    let first = then_ops + taken_ops();
    let second = other_ops + clear_ops();
    let p1 = not_open_ops() + condition_ops;
    let p2 = p1 + loop_ops(first);
    let p3 = p2 + left_ops();
    lemma_not_open_effect(state, limit);
    lemma_run_concat(not_open_ops(), condition_ops, state, limit);
    lemma_run_concat(p1, loop_ops(first), state, limit);
    lemma_loop_ops_run(first, tested, limit);
    lemma_run_concat(p2, left_ops(), state, limit);
    lemma_run_concat(p3, loop_ops(second), state, limit);
    if tested.cell() != 0 {
        let f1 = finished.moved(-1);
        let f2 = f1.added(-1);
        let f3 = f2.moved(1);
        let f4 = f3.write(0);
        lemma_left_runs(finished, inner);
        lemma_minus_runs(f1, inner);
        lemma_right_runs(f2, inner);
        lemma_clear_effect(f3, inner);
        lemma_run_concat(left_ops(), minus_ops(), finished, inner);
        lemma_run_concat(left_ops() + minus_ops(), right_ops(), finished, inner);
        lemma_run_concat(left_ops() + minus_ops() + right_ops(), clear_ops(), finished, inner);
        lemma_run_concat(then_ops, taken_ops(), tested, inner);
        assert(run(first, tested, inner) == Some(f4));
        assert(f4.cell() == 0);
        lemma_loop_once(first, tested, limit, inner);
        lemma_left_runs(f4, limit);
        let f5 = f4.moved(-1);
        assert(f1.cell() == 1);
        assert(f2 == f1.write(0));
        assert(f5.cell() == 0);
        lemma_loop_ops_run(second, f5, limit);
        assert(run_loop(second, f5, limit) == Some(f5));
    } else {
        lemma_loop_once(first, tested, limit, inner);
        lemma_left_runs(tested, limit);
        let e = tested.moved(-1);
        assert(e.cell() == 1);
        lemma_run_concat(other_ops, clear_ops(), e, inner);
        lemma_clear_effect(finished, inner);
        assert(finished.write(0).cell() == 0);
        lemma_loop_ops_run(second, e, limit);
        lemma_loop_once(second, e, limit, inner);
    }
}

/// The operations of `while`: the condition, then a loop that holds the
/// statement and the condition again.
pub open spec fn while_ops(condition: Seq<Op>, body: Seq<Op>) -> Seq<Op> {
    condition + loop_ops(body + condition)
}

/// The statement `while (condition) statement`.
pub open spec fn while_do(pos: Position, condition: ExprView, body: StatementView) -> StatementView {
    StatementView::While { pos, condition, statement: Box::new(body) }
}

/// The code of `while` is a program of its operations, where the code of
/// the condition and that of the statement are programs.
pub proof fn lemma_while_reads(
    env: Env,
    pos: Position,
    condition: ExprView,
    body: StatementView,
    condition_ops: Seq<Op>,
    body_ops: Seq<Op>,
)
    requires
        gen_expr(env, condition) is Ok,
        reads(gen_expr(env, condition)->Ok_0, condition_ops),
        gen_nested(env, body) is Ok,
        reads(gen_nested(env, body)->Ok_0, body_ops),
    ensures
        gen_nested(env, while_do(pos, condition, body)) is Ok,
        reads(
            gen_nested(env, while_do(pos, condition, body))->Ok_0,
            while_ops(condition_ops, body_ops),
        ),
{
    let c = gen_expr(env, condition)->Ok_0;
    let b = gen_nested(env, body)->Ok_0;
    reveal_strlit("[");
    reveal_strlit("]");
    lemma_reads_concat(b, c, body_ops, condition_ops);
    lemma_reads_loop(b + c, body_ops + condition_ops);
    lemma_reads_concat(c, "["@ + (b + c) + "]"@, condition_ops, loop_ops(body_ops + condition_ops));
    assert(c + ("["@ + (b + c) + "]"@) =~= c + "["@ + b + c + "]"@);
}

/// The code of `while` ends where the condition has left zero under the
/// head. Where it has left another value, the statement runs, and the code
/// of `while` runs again from the state that the statement has left.
pub proof fn lemma_while_runs(condition_ops: Seq<Op>, body_ops: Seq<Op>, state: State, limit: nat)
    requires
        limit > 0,
    ensures
        run(while_ops(condition_ops, body_ops), state, limit) == match run(
            condition_ops,
            state,
            limit,
        ) {
            None => None,
            Some(tested) => if tested.cell() == 0 {
                Some(tested)
            } else {
                match run(body_ops, tested, (limit - 1) as nat) {
                    None => None,
                    Some(next) => run(
                        while_ops(condition_ops, body_ops),
                        next,
                        (limit - 1) as nat,
                    ),
                }
            },
        },
{
    let round = body_ops + condition_ops;
    let less = (limit - 1) as nat;
    lemma_run_concat(condition_ops, loop_ops(round), state, limit);
    if run(condition_ops, state, limit) is Some {
        let tested = run(condition_ops, state, limit)->Some_0;
        lemma_loop_ops_run(round, tested, limit);
        lemma_run_concat(body_ops, condition_ops, tested, less);
        if run(body_ops, tested, less) is Some {
            let next = run(body_ops, tested, less)->Some_0;
            lemma_run_concat(condition_ops, loop_ops(round), next, less);
            if run(condition_ops, next, less) is Some {
                lemma_loop_ops_run(round, run(condition_ops, next, less)->Some_0, less);
            }
        }
    }
}

/// The operations of one round of `repeat`: the statement runs one cell
/// right of the count, and the count goes down by one.
pub open spec fn round_ops(body: Seq<Op>) -> Seq<Op> {
    right_ops() + body + left_ops() + minus_ops()
}

/// The operations of `repeat`: the count, then a loop of rounds.
pub open spec fn repeat_ops(count: Seq<Op>, body: Seq<Op>) -> Seq<Op> {
    count + loop_ops(round_ops(body))
}

/// The statement `repeat (count) statement`.
pub open spec fn repeat_do(pos: Position, count: ExprView, body: StatementView) -> StatementView {
    StatementView::Repeat { pos, expr: count, statement: Box::new(body) }
}

/// The code of `repeat` is a program of its operations, where the code of
/// the count and that of the statement are programs.
pub proof fn lemma_repeat_reads(
    env: Env,
    pos: Position,
    count: ExprView,
    body: StatementView,
    count_ops: Seq<Op>,
    body_ops: Seq<Op>,
)
    requires
        gen_expr(env, count) is Ok,
        reads(gen_expr(env, count)->Ok_0, count_ops),
        gen_nested(env.bump(1), body) is Ok,
        reads(gen_nested(env.bump(1), body)->Ok_0, body_ops),
    ensures
        gen_nested(env, repeat_do(pos, count, body)) is Ok,
        reads(gen_nested(env, repeat_do(pos, count, body))->Ok_0, repeat_ops(count_ops, body_ops)),
{
    let c = gen_expr(env, count)->Ok_0;
    let b = gen_nested(env.bump(1), body)->Ok_0;
    reveal_strlit("[");
    reveal_strlit("]");
    reveal_strlit("<");
    reveal_strlit(">");
    reveal_strlit("-");
    reveal_strlit("[>");
    reveal_strlit("<-]");
    lemma_left_reads();
    lemma_right_reads();
    lemma_minus_reads();
    lemma_reads_concat(">"@, b, right_ops(), body_ops);
    lemma_reads_concat(">"@ + b, "<"@, right_ops() + body_ops, left_ops());
    lemma_reads_concat(">"@ + b + "<"@, "-"@, right_ops() + body_ops + left_ops(), minus_ops());
    let round = ">"@ + b + "<"@ + "-"@;
    lemma_reads_loop(round, round_ops(body_ops));
    lemma_reads_concat(c, "["@ + round + "]"@, count_ops, loop_ops(round_ops(body_ops)));
    assert(c + ("["@ + round + "]"@) =~= c + "[>"@ + b + "<-]"@);
}

/// The state after the statement with the operations `body` has run `n`
/// times from `state`, each time one cell right of the head, with the count
/// under the head going down by one after it. `None` where the statement
/// does not end within `limit`, does not leave the head where it found it,
/// or changes the count.
pub open spec fn times(body: Seq<Op>, state: State, n: nat, limit: nat) -> Option<State>
    decreases n,
{
    if n == 0 {
        Some(state)
    } else {
        match run(body, state.moved(1), limit) {
            None => None,
            Some(after) => if after.head == state.head + 1 && after.at(state.head)
                == state.cell() {
                times(body, after.moved(-1).added(-1), (n - 1) as nat, limit)
            } else {
                None
            },
        }
    }
}

/// A loop of rounds runs the statement as often as the cell under the head
/// says.
pub proof fn lemma_rounds_run(body: Seq<Op>, state: State, limit: nat, inner: nat)
    requires
        times(body, state, state.cell() as nat, inner) is Some,
        limit >= inner + state.cell(),
    ensures
        run_loop(round_ops(body), state, limit) == times(body, state, state.cell() as nat, inner),
    decreases state.cell(),
{
    if state.cell() != 0 {
        let less = (limit - 1) as nat;
        let s1 = state.moved(1);
        let s2 = run(body, s1, inner)->Some_0;
        let s3 = s2.moved(-1);
        let s4 = s3.added(-1);
        lemma_run_more(body, s1, inner, less);
        lemma_right_runs(state, less);
        lemma_left_runs(s2, less);
        lemma_minus_runs(s3, less);
        lemma_run_concat(right_ops(), body, state, less);
        lemma_run_concat(right_ops() + body, left_ops(), state, less);
        lemma_run_concat(right_ops() + body + left_ops(), minus_ops(), state, less);
        assert(run(round_ops(body), state, less) == Some(s4));
        assert(s4.cell() == state.cell() - 1);
        lemma_rounds_run(body, s4, less, inner);
    }
}

/// The code of `repeat` runs the statement as often as the count says that
/// the code of the count has left under the head: the count is evaluated
/// once, before the first round.
pub proof fn lemma_repeat_runs(
    count_ops: Seq<Op>,
    body_ops: Seq<Op>,
    state: State,
    counted: State,
    limit: nat,
    inner: nat,
)
    requires
        run(count_ops, state, limit) == Some(counted),
        times(body_ops, counted, counted.cell() as nat, inner) is Some,
        limit >= inner + counted.cell(),
    ensures
        run(repeat_ops(count_ops, body_ops), state, limit) == times(
            body_ops,
            counted,
            counted.cell() as nat,
            inner,
        ),
{
    lemma_run_concat(count_ops, loop_ops(round_ops(body_ops)), state, limit);
    lemma_loop_ops_run(round_ops(body_ops), counted, limit);
    lemma_rounds_run(body_ops, counted, limit, inner);
}

/// The operations of a declaration with an initial value: those of the
/// value, and a step to the right.
pub open spec fn declaration_ops(value: Seq<Op>) -> Seq<Op> {
    value + right_ops()
}

/// The code of a declaration with an initial value is a program of its
/// operations, where the code of the value is a program; the variable gets
/// the cell of the head.
pub proof fn lemma_declaration_reads(
    env: Env,
    decl: DeclarationView,
    init: ExprView,
    value_ops: Seq<Op>,
)
    requires
        decl.type_.name != "void"@,
        !env.declared(decl.name.name),
        decl.init == Some(init),
        gen_expr(env, init) is Ok,
        reads(gen_expr(env, init)->Ok_0, value_ops),
    ensures
        gen_declaration(env, decl) is Ok,
        gen_declaration(env, decl)->Ok_0.env == env.define(decl.name.name),
        reads(gen_declaration(env, decl)->Ok_0.code, declaration_ops(value_ops)),
{
    lemma_right_reads();
    lemma_reads_concat(gen_expr(env, init)->Ok_0, ">"@, value_ops, right_ops());
}

/// The code of a declaration with an initial value leaves the value that
/// the code of the expression has left under the head, and the head one
/// cell further right.
pub proof fn lemma_declaration_runs(value_ops: Seq<Op>, state: State, between: State, limit: nat)
    requires
        run(value_ops, state, limit) == Some(between),
    ensures
        run(declaration_ops(value_ops), state, limit) == Some(between.moved(1)),
{
    lemma_right_runs(between, limit);
    lemma_run_concat(value_ops, right_ops(), state, limit);
}

/// The operations of a block: those of its statements, and one step to the
/// left for each variable that it has declared.
pub open spec fn block_ops(body: Seq<Op>, locals: nat) -> Seq<Op> {
    body + repeat_op(Op::Move(-1), locals)
}

/// The code of a block is a program of its operations, where the code of
/// its statements, compiled in a scope of their own, is a program.
pub proof fn lemma_block_reads(env: Env, stmts: Seq<StatementView>, body_ops: Seq<Op>)
    requires
        gen_block(env.enter(), stmts, 0, Seq::empty()) is Ok,
        reads(gen_block(env.enter(), stmts, 0, Seq::empty())->Ok_0.code, body_ops),
    ensures
        gen_nested(env, StatementView::Block(stmts)) is Ok,
        reads(
            gen_nested(env, StatementView::Block(stmts))->Ok_0,
            block_ops(
                body_ops,
                gen_block(env.enter(), stmts, 0, Seq::empty())->Ok_0.env.locals(),
            ),
        ),
{
    let block = gen_block(env.enter(), stmts, 0, Seq::empty())->Ok_0;
    lemma_reads_repeat('<', block.env.locals());
    lemma_reads_concat(
        block.code,
        left(block.env.locals()),
        body_ops,
        repeat_op(Op::Move(-1), block.env.locals()),
    );
}

/// The code of a block runs its statements and moves the head back by the
/// number of the variables that the block has declared: their cells are
/// left as they are.
pub proof fn lemma_block_runs(
    body_ops: Seq<Op>,
    locals: nat,
    state: State,
    arrived: State,
    limit: nat,
)
    requires
        run(body_ops, state, limit) == Some(arrived),
    ensures
        run(block_ops(body_ops, locals), state, limit) == Some(arrived.moved(-(locals as int))),
{
    lemma_run_steps(-1, locals, arrived, limit);
    assert(-1 * locals == -(locals as int));
    lemma_run_concat(body_ops, repeat_op(Op::Move(-1), locals), state, limit);
}

} // verus!
