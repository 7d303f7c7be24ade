//! What the code of a call and of a `return` does: the arguments are
//! evaluated from left to right, each one cell further right, the code of
//! the function runs with the head on the first of them, and a `return`
//! moves its value into the first cell of the frame.

use vstd::prelude::*;
use crate::ast::{
    AssignOp, AssignOpKind, DeclarationView, ExprView, NameView, StatementView,
};
use crate::brainfuck::reading::{
    lemma_covers_nothing, lemma_reads_concat, lemma_reads_parse, lemma_reads_repeat, reads,
    repeat_op,
};
use crate::brainfuck::semantics::{lemma_run_concat, run, State};
use crate::brainfuck::tree::{parse, Op};
use crate::code_gen::assignments::{
    assign_value, assignment, assigns, lemma_assign_runs, lemma_assignment_after,
};
use crate::code_gen::effects::assign_eq_effect;
use crate::code_gen::expressions::{
    expr_ops, grounded, lemma_expr_reads, lemma_expr_runs, lemma_right_runs, lemma_value_frame,
    value, value_in,
};
use crate::code_gen::operators::{enough, leaves};
use crate::code_gen::rules::{
    call_error, function_find, gen_args, gen_block, gen_body, gen_body_step, gen_call, gen_expr,
    gen_function, gen_nested, gen_params, gen_statement, left, lookup_var, return_move, right,
    Body, Env, Scope,
};
use crate::code_gen::soundness::{lemma_moved_twice, lemma_run_steps};
use crate::code_gen::templates::{
    assign_eq_ops, lemma_assign_eq_reads, lemma_right_reads, right_ops,
};
use crate::util::{ErrorView, Position};

verus! {

/// The operations of a call: those of the arguments, the way back to the
/// first argument, and those of the function.
pub open spec fn call_ops(args: Seq<Op>, arity: nat, function: Seq<Op>) -> Seq<Op> {
    args + repeat_op(Op::Move(-1), arity) + function
}

/// The code of a call that is in order is a program of its operations,
/// where the code of the arguments and the code of the function are
/// programs.
pub proof fn lemma_call_reads(
    env: Env,
    name: NameView,
    args: Seq<ExprView>,
    is_expr: bool,
    args_ops: Seq<Op>,
    function_ops: Seq<Op>,
)
    requires
        call_error(env, name, args.len(), is_expr) is None,
        gen_args(env, args, 0, Seq::empty()) is Ok,
        reads(gen_args(env, args, 0, Seq::empty())->Ok_0, args_ops),
        reads(function_find(env.functions, name.name, 0)->Some_0.code, function_ops),
    ensures
        gen_call(env, name, args, is_expr) is Ok,
        reads(
            gen_call(env, name, args, is_expr)->Ok_0,
            call_ops(args_ops, args.len(), function_ops),
        ),
{
    let code = gen_args(env, args, 0, Seq::empty())->Ok_0;
    let function = function_find(env.functions, name.name, 0)->Some_0.code;
    lemma_reads_repeat('<', args.len());
    lemma_reads_concat(code, left(args.len()), args_ops, repeat_op(Op::Move(-1), args.len()));
    lemma_reads_concat(
        code + left(args.len()),
        function,
        args_ops + repeat_op(Op::Move(-1), args.len()),
        function_ops,
    );
}

/// The code of the function runs after the arguments, with the head on the
/// first of them: where the code of the arguments has left `pushed`, with
/// the head behind the last argument, the call does what the code of the
/// function does from there.
pub proof fn lemma_call_runs(
    args_ops: Seq<Op>,
    arity: nat,
    function_ops: Seq<Op>,
    state: State,
    pushed: State,
    limit: nat,
)
    requires
        run(args_ops, state, limit) == Some(pushed),
    ensures
        run(call_ops(args_ops, arity, function_ops), state, limit) == run(
            function_ops,
            pushed.moved(-(arity as int)),
            limit,
        ),
{
    let back = repeat_op(Op::Move(-1), arity);
    lemma_run_steps(-1, arity, pushed, limit);
    assert(-1 * arity == -(arity as int));
    lemma_run_concat(args_ops, back, state, limit);
    lemma_run_concat(args_ops + back, function_ops, state, limit);
}

/// The operations of `return` at the top of a function body with `locals`
/// parameters and variables: those of the value, and the move of the value
/// into the first cell of the frame.
pub open spec fn return_ops(value: Seq<Op>, locals: nat) -> Seq<Op> {
    if locals > 0 {
        value + assign_eq_ops(locals)
    } else {
        value
    }
}

/// The statement `return expr`.
pub open spec fn return_of(pos: Position, expr: ExprView) -> StatementView {
    StatementView::Return { pos, expr }
}

/// The code of `return` is a program of its operations, where the code of
/// its expression is a program.
pub proof fn lemma_return_reads(env: Env, pos: Position, expr: ExprView, value_ops: Seq<Op>)
    requires
        gen_expr(env, expr) is Ok,
        reads(gen_expr(env, expr)->Ok_0, value_ops),
    ensures
        gen_body_step(env, return_of(pos, expr), false) is Ok,
        gen_body_step(env, return_of(pos, expr), false)->Ok_0.returned,
        reads(
            gen_body_step(env, return_of(pos, expr), false)->Ok_0.code,
            return_ops(value_ops, env.locals()),
        ),
{
    let value = gen_expr(env, expr)->Ok_0;
    let locals = env.locals();
    if locals > 0 {
        lemma_assign_eq_reads(locals);
        lemma_reads_concat(
            value,
            crate::code_gen::rules::assign_template(AssignOpKind::Eq, locals),
            value_ops,
            assign_eq_ops(locals),
        );
    } else {
        assert(value + Seq::<char>::empty() =~= value);
    }
}

/// The code of `return` moves the value that the code of its expression
/// has left under the head into the first cell of the frame, `locals`
/// cells left of the head, as an assignment with `=` does.
pub proof fn lemma_return_runs(
    value_ops: Seq<Op>,
    locals: nat,
    state: State,
    between: State,
    limit: nat,
)
    requires
        run(value_ops, state, limit) == Some(between),
        limit >= enough(),
    ensures
        run(return_ops(value_ops, locals), state, limit) == Some(
            if locals > 0 {
                assign_eq_effect(between, locals)
            } else {
                between
            },
        ),
        locals > 0 ==> assigns(
            AssignOpKind::Eq,
            between,
            assign_eq_effect(between, locals),
            locals,
        ),
{
    if locals > 0 {
        lemma_assign_runs(AssignOpKind::Eq, between, locals, limit);
        lemma_run_concat(value_ops, assign_eq_ops(locals), state, limit);
    }
}

/// The operations of the first `upto` arguments of a call, for arguments
/// without calls: each argument, then a step to the right.
pub open spec fn args_ops(env: Env, args: Seq<ExprView>, upto: nat) -> Seq<Op>
    decreases upto,
{
    if upto == 0 {
        Seq::empty()
    } else {
        args_ops(env, args, (upto - 1) as nat) + expr_ops(
            env.bump((upto - 1) as nat),
            args[upto - 1],
        ) + right_ops()
    }
}

/// Whether each of `args` is grounded.
pub open spec fn all_grounded(scopes: Seq<Scope>, below: nat, args: Seq<ExprView>) -> bool {
    forall|k: int| 0 <= k < args.len() ==> grounded(scopes, below, #[trigger] args[k])
}

/// Whether each of `args` has a value in `state`.
pub open spec fn all_valued(env: Env, args: Seq<ExprView>, state: State) -> bool {
    forall|k: int| 0 <= k < args.len() ==> value_in(env, #[trigger] args[k], state) is Some
}

/// The code of grounded arguments is a program of their operations.
pub proof fn lemma_args_reads(env: Env, below: nat, args: Seq<ExprView>, i: nat, code: Seq<char>)
    requires
        all_grounded(env.scopes, below, args),
        i <= args.len(),
        reads(code, args_ops(env, args, i)),
    ensures
        gen_args(env, args, i as int, code) is Ok,
        reads(gen_args(env, args, i as int, code)->Ok_0, args_ops(env, args, args.len())),
    decreases args.len() - i,
{
    if i < args.len() {
        assert(grounded(env.scopes, below, args[i as int]));
        lemma_expr_reads(env.bump(i), below, args[i as int]);
        let arg = gen_expr(env.bump(i), args[i as int])->Ok_0;
        let ops = expr_ops(env.bump(i), args[i as int]);
        lemma_right_reads();
        lemma_reads_concat(code, arg, args_ops(env, args, i), ops);
        lemma_reads_concat(code + arg, ">"@, args_ops(env, args, i) + ops, right_ops());
        lemma_args_reads(env, below, args, i + 1, code + arg + ">"@);
    }
}

/// The operations of grounded arguments that have values leave the values
/// in a row from where the head stood, and the head behind the last value.
/// The cells left of the first value are as they were, and nothing is read
/// or written.
pub proof fn lemma_args_run(
    env: Env,
    below: nat,
    args: Seq<ExprView>,
    upto: nat,
    state: State,
    limit: nat,
)
    requires
        all_grounded(env.scopes, below, args),
        all_valued(env, args, state),
        below <= env.stack_ptr,
        upto <= args.len(),
        limit >= enough(),
    ensures
        run(args_ops(env, args, upto), state, limit) is Some,
        ({
            let after = run(args_ops(env, args, upto), state, limit)->Some_0;
            &&& after.head == state.head + upto
            &&& forall|k: int|
                0 <= k < upto ==> after.at(state.head + k) == value_in(
                    env,
                    #[trigger] args[k],
                    state,
                )->Some_0
            &&& forall|i: int| i < state.head ==> #[trigger] after.at(i) == state.at(i)
            &&& after.input == state.input
            &&& after.output == state.output
        }),
    decreases upto,
{
    if upto > 0 {
        let less = (upto - 1) as nat;
        let h = state.head;
        let base = h - env.stack_ptr;
        let arg = args[less as int];
        lemma_args_run(env, below, args, less, state, limit);
        let s1 = run(args_ops(env, args, less), state, limit)->Some_0;
        assert(grounded(env.scopes, below, arg));
        assert(value_in(env, arg, state) is Some);
        assert forall|i: int| i < base + below implies #[trigger] state.at(i) == s1.at(i) by {
            assert(s1.at(i) == state.at(i));
        }
        lemma_value_frame(env.scopes, below, arg, state, s1, base);
        lemma_expr_runs(env.bump(less), below, arg, s1, limit);
        let ops = expr_ops(env.bump(less), arg);
        let s2 = run(ops, s1, limit)->Some_0;
        lemma_right_runs(s2, limit);
        let s3 = s2.moved(1);
        lemma_run_concat(args_ops(env, args, less), ops, state, limit);
        lemma_run_concat(args_ops(env, args, less) + ops, right_ops(), state, limit);
        assert(run(args_ops(env, args, upto), state, limit) == Some(s3));
        assert forall|k: int| 0 <= k < upto implies s3.at(h + k) == value_in(
            env,
            #[trigger] args[k],
            state,
        )->Some_0 by {
            if k < less {
                assert(s2.at(h + k) == s1.at(h + k));
            }
        }
        assert forall|i: int| i < h implies #[trigger] s3.at(i) == state.at(i) by {
            assert(s2.at(i) == s1.at(i));
            assert(s1.at(i) == state.at(i));
        }
    }
}

/// The body of a function up to its first `return`, which is the statement
/// `k`: the statements before it are compiled as those of a block, then
/// the `return`; the statements after it are not compiled.
pub proof fn lemma_body_returns(
    env: Env,
    stmts: Seq<StatementView>,
    k: int,
    pos: Position,
    expr: ExprView,
    i: int,
    code: Seq<char>,
)
    requires
        0 <= i <= k < stmts.len(),
        stmts[k] == return_of(pos, expr),
        forall|j: int| i <= j < k ==> !(#[trigger] stmts[j] is Return),
        gen_block(env, stmts.subrange(0, k), i, code) is Ok,
        gen_expr(gen_block(env, stmts.subrange(0, k), i, code)->Ok_0.env, expr) is Ok,
    ensures
        gen_body(env, stmts, i, code, false) == Ok::<Body, ErrorView>(
            Body {
                code: gen_block(env, stmts.subrange(0, k), i, code)->Ok_0.code + gen_expr(
                    gen_block(env, stmts.subrange(0, k), i, code)->Ok_0.env,
                    expr,
                )->Ok_0 + return_move(
                    gen_block(env, stmts.subrange(0, k), i, code)->Ok_0.env.locals(),
                ),
                env: gen_block(env, stmts.subrange(0, k), i, code)->Ok_0.env,
                returned: true,
            },
        ),
    decreases k - i,
{
    let before = stmts.subrange(0, k);
    if i < k {
        assert(before[i] == stmts[i]);
        assert(!(stmts[i] is Return));
        let generated = gen_statement(env, stmts[i])->Ok_0;
        lemma_body_returns(generated.env, stmts, k, pos, expr, i + 1, code + generated.code);
    } else {
        let value = gen_expr(env, expr)->Ok_0;
        assert(code + (value + return_move(env.locals())) =~= code + value + return_move(
            env.locals(),
        ));
    }
}

/// The body of a function without a `return` at its top is compiled as the
/// statements of a block.
pub proof fn lemma_body_ends(
    env: Env,
    stmts: Seq<StatementView>,
    i: int,
    code: Seq<char>,
    void: bool,
)
    requires
        0 <= i <= stmts.len(),
        forall|j: int| i <= j < stmts.len() ==> !(#[trigger] stmts[j] is Return),
        gen_block(env, stmts, i, code) is Ok,
    ensures
        gen_body(env, stmts, i, code, void) == Ok::<Body, ErrorView>(
            Body {
                code: gen_block(env, stmts, i, code)->Ok_0.code,
                env: gen_block(env, stmts, i, code)->Ok_0.env,
                returned: false,
            },
        ),
    decreases stmts.len() - i,
{
    if i < stmts.len() {
        assert(!(stmts[i] is Return));
        let generated = gen_statement(env, stmts[i])->Ok_0;
        lemma_body_ends(generated.env, stmts, i + 1, code + generated.code, void);
    }
}

/// The scope of the parameters of a function: the parameter `k` has the
/// cell `base + k`.
pub proof fn lemma_params_scope(params: Seq<DeclarationView>, i: nat, scope: Scope, base: nat)
    requires
        i <= params.len(),
        scope.len() == i,
        forall|k: int| 0 <= k < i ==> scope[k] == (params[k].name.name, (base + k) as nat),
        gen_params(params, i as int, scope, base) is Ok,
    ensures
        gen_params(params, i as int, scope, base)->Ok_0.len() == params.len(),
        forall|k: int|
            0 <= k < params.len() ==> gen_params(params, i as int, scope, base)->Ok_0[k] == (
                params[k].name.name,
                (base + k) as nat,
            ),
    decreases params.len() - i,
{
    if i < params.len() {
        let param = params[i as int];
        lemma_params_scope(params, i + 1, scope.push((param.name.name, base + scope.len())), base);
    }
}

/// The environment in which the body of a function is compiled: one scope
/// with the parameters, and the head behind them.
pub open spec fn body_env(def: Env, name: NameView, params: Seq<DeclarationView>) -> Env {
    Env {
        scopes: seq![gen_params(params, 0, Seq::empty(), def.stack_ptr)->Ok_0],
        functions: def.functions,
        stack_ptr: def.stack_ptr + params.len(),
        current: Some(name.name),
    }
}

/// The operations of the code of a function of `arity` parameters whose
/// body is `return expr`, for an expression without calls: the way behind
/// the parameters, the `return`, and the way back.
pub open spec fn returning_ops(inner: Env, arity: nat, expr: ExprView) -> Seq<Op> {
    repeat_op(Op::Move(1), arity) + return_ops(expr_ops(inner, expr), arity) + repeat_op(
        Op::Move(-1),
        arity,
    )
}

/// The definition of a function whose body is `return expr`, the
/// expression grounded in the parameters, is compiled, and the code is a
/// program of its operations.
pub proof fn lemma_returning_reads(
    def: Env,
    name: NameView,
    return_type: NameView,
    params: Seq<DeclarationView>,
    pos: Position,
    expr: ExprView,
)
    requires
        function_find(def.functions, name.name, 0) is None,
        return_type.name != "void"@,
        gen_params(params, 0, Seq::empty(), def.stack_ptr) is Ok,
        grounded(body_env(def, name, params).scopes, body_env(def, name, params).stack_ptr, expr),
    ensures
        gen_function(def, name, return_type, params, seq![return_of(pos, expr)]) is Ok,
        ({
            let function = gen_function(
                def,
                name,
                return_type,
                params,
                seq![return_of(pos, expr)],
            )->Ok_0;
            &&& !function.void
            &&& function.arity == params.len()
            &&& reads(
                function.code,
                returning_ops(body_env(def, name, params), params.len(), expr),
            )
        }),
{
    let inner = body_env(def, name, params);
    let n = params.len();
    let stmts = seq![return_of(pos, expr)];
    lemma_params_scope(params, 0, Seq::empty(), def.stack_ptr);
    assert(inner.locals() == n);
    lemma_expr_reads(inner, inner.stack_ptr, expr);
    let value_ops = expr_ops(inner, expr);
    lemma_return_reads(inner, pos, expr, value_ops);
    let step = gen_body_step(inner, return_of(pos, expr), false)->Ok_0;
    assert(stmts[0] == return_of(pos, expr));
    assert(gen_body(inner, stmts, 0, right(n), false) == Ok::<Body, ErrorView>(
        Body { code: right(n) + step.code, env: inner, returned: true },
    ));
    lemma_reads_repeat('>', n);
    lemma_reads_repeat('<', n);
    lemma_reads_concat(right(n), step.code, repeat_op(Op::Move(1), n), return_ops(value_ops, n));
    lemma_reads_concat(
        right(n) + step.code,
        left(n),
        repeat_op(Op::Move(1), n) + return_ops(value_ops, n),
        repeat_op(Op::Move(-1), n),
    );
}

/// The code of a function whose body is `return expr`, run with the head
/// on the first parameter, leaves the value of the expression there, the
/// parameters read from their cells. The head ends where it began, the
/// cells left of it are as they were, and nothing is read or written.
pub proof fn lemma_returning_runs(inner: Env, arity: nat, expr: ExprView, state: State, limit: nat)
    requires
        grounded(inner.scopes, inner.stack_ptr, expr),
        value_in(inner, expr, state.moved(arity as int)) is Some,
        limit >= enough(),
    ensures
        run(returning_ops(inner, arity, expr), state, limit) is Some,
        leaves(
            state,
            run(returning_ops(inner, arity, expr), state, limit)->Some_0,
            state.head,
            value_in(inner, expr, state.moved(arity as int))->Some_0,
        ),
{
    let h = state.head;
    let n = arity as int;
    let value_ops = expr_ops(inner, expr);
    let there = repeat_op(Op::Move(1), arity);
    let back = repeat_op(Op::Move(-1), arity);
    lemma_run_steps(1, arity, state, limit);
    assert(1 * arity == n);
    let s1 = state.moved(n);
    lemma_expr_runs(inner, inner.stack_ptr, expr, s1, limit);
    let s2 = run(value_ops, s1, limit)->Some_0;
    lemma_return_runs(value_ops, arity, s1, s2, limit);
    let s3 = run(return_ops(value_ops, arity), s1, limit)->Some_0;
    lemma_run_steps(-1, arity, s3, limit);
    assert(-1 * arity == -n);
    let s4 = s3.moved(-n);
    lemma_run_concat(there, return_ops(value_ops, arity), state, limit);
    lemma_run_concat(there + return_ops(value_ops, arity), back, state, limit);
    assert(run(returning_ops(inner, arity, expr), state, limit) == Some(s4));
    assert forall|i: int| i < h implies #[trigger] s4.at(i) == state.at(i) by {
        assert(s3.at(i) == s2.at(i));
        assert(s2.at(i) == s1.at(i));
    }
}

/// The operations of the code of a function that returns a value: those
/// of the statements before the `return`, which begin with one step to the
/// right for each parameter; those of the `return`; and the way back to the
/// first cell of the frame of `locals` parameters and variables.
pub open spec fn function_ops(body: Seq<Op>, value: Seq<Op>, locals: nat) -> Seq<Op> {
    body + return_ops(value, locals) + repeat_op(Op::Move(-1), locals)
}

/// The definition of a function whose first `return` is its statement `k`
/// is compiled, and its code is a program of its operations, where the code
/// of the statements before the `return` and that of the returned
/// expression are programs.
pub proof fn lemma_function_reads(
    def: Env,
    name: NameView,
    return_type: NameView,
    params: Seq<DeclarationView>,
    stmts: Seq<StatementView>,
    k: int,
    pos: Position,
    expr: ExprView,
    body_ops: Seq<Op>,
    value_ops: Seq<Op>,
)
    requires
        function_find(def.functions, name.name, 0) is None,
        return_type.name != "void"@,
        gen_params(params, 0, Seq::empty(), def.stack_ptr) is Ok,
        0 <= k < stmts.len(),
        stmts[k] == return_of(pos, expr),
        forall|j: int| 0 <= j < k ==> !(#[trigger] stmts[j] is Return),
        gen_block(body_env(def, name, params), stmts.subrange(0, k), 0, right(params.len())) is Ok,
        reads(
            gen_block(
                body_env(def, name, params),
                stmts.subrange(0, k),
                0,
                right(params.len()),
            )->Ok_0.code,
            body_ops,
        ),
        gen_expr(
            gen_block(
                body_env(def, name, params),
                stmts.subrange(0, k),
                0,
                right(params.len()),
            )->Ok_0.env,
            expr,
        ) is Ok,
        reads(
            gen_expr(
                gen_block(
                    body_env(def, name, params),
                    stmts.subrange(0, k),
                    0,
                    right(params.len()),
                )->Ok_0.env,
                expr,
            )->Ok_0,
            value_ops,
        ),
    ensures
        gen_function(def, name, return_type, params, stmts) is Ok,
        ({
            let function = gen_function(def, name, return_type, params, stmts)->Ok_0;
            let block = gen_block(
                body_env(def, name, params),
                stmts.subrange(0, k),
                0,
                right(params.len()),
            )->Ok_0;
            &&& !function.void
            &&& function.arity == params.len()
            &&& reads(function.code, function_ops(body_ops, value_ops, block.env.locals()))
        }),
{
    let inner = body_env(def, name, params);
    let n = params.len();
    let block = gen_block(inner, stmts.subrange(0, k), 0, right(n))->Ok_0;
    let locals = block.env.locals();
    lemma_body_returns(inner, stmts, k, pos, expr, 0, right(n));
    lemma_return_reads(block.env, pos, expr, value_ops);
    let step = gen_body_step(block.env, return_of(pos, expr), false)->Ok_0;
    lemma_reads_repeat('<', locals);
    lemma_reads_concat(block.code, step.code, body_ops, return_ops(value_ops, locals));
    lemma_reads_concat(
        block.code + step.code,
        left(locals),
        body_ops + return_ops(value_ops, locals),
        repeat_op(Op::Move(-1), locals),
    );
    let value = gen_expr(block.env, expr)->Ok_0;
    assert(block.code + step.code =~= block.code + value + return_move(locals));
}

/// The code of a function that returns a value leaves the value in the
/// first cell of its frame, with the head on it: the value that the code of
/// the returned expression has left under the head, `locals` cells right
/// of where the head stood at the call. The cells left of the frame, the
/// input and the output are as that code has left them.
pub proof fn lemma_function_runs(
    body_ops: Seq<Op>,
    value_ops: Seq<Op>,
    locals: nat,
    state: State,
    arrived: State,
    between: State,
    limit: nat,
)
    requires
        run(body_ops, state, limit) == Some(arrived),
        run(value_ops, arrived, limit) == Some(between),
        between.head == state.head + locals,
        limit >= enough(),
    ensures
        run(function_ops(body_ops, value_ops, locals), state, limit) is Some,
        leaves(
            State { head: state.head, ..between },
            run(function_ops(body_ops, value_ops, locals), state, limit)->Some_0,
            state.head,
            between.cell(),
        ),
{
    let n = locals as int;
    let back = repeat_op(Op::Move(-1), locals);
    lemma_run_concat(body_ops, value_ops, state, limit);
    lemma_return_runs(value_ops, locals, arrived, between, limit);
    let s3 = run(return_ops(value_ops, locals), arrived, limit)->Some_0;
    lemma_run_steps(-1, locals, s3, limit);
    assert(-1 * locals == -n);
    let s4 = s3.moved(-n);
    lemma_run_concat(body_ops, return_ops(value_ops, locals), state, limit);
    lemma_run_concat(body_ops + return_ops(value_ops, locals), back, state, limit);
    assert(run(function_ops(body_ops, value_ops, locals), state, limit) == Some(s4));
    assert forall|i: int| i < state.head implies #[trigger] s4.at(i) == between.at(i) by {
        assert(s3.at(i) == between.at(i));
    }
}

/// The operations of the code of a function without a value: those of its
/// statements, which begin with one step to the right for each parameter,
/// and the way back to the first cell of the frame.
pub open spec fn procedure_ops(body: Seq<Op>, locals: nat) -> Seq<Op> {
    body + repeat_op(Op::Move(-1), locals)
}

/// The definition of a function of type `void` without a `return` at the
/// top of its body is compiled, and its code is a program of its
/// operations, where the code of its statements is a program.
pub proof fn lemma_procedure_reads(
    def: Env,
    name: NameView,
    return_type: NameView,
    params: Seq<DeclarationView>,
    stmts: Seq<StatementView>,
    body_ops: Seq<Op>,
)
    requires
        function_find(def.functions, name.name, 0) is None,
        return_type.name == "void"@,
        gen_params(params, 0, Seq::empty(), def.stack_ptr) is Ok,
        forall|j: int| 0 <= j < stmts.len() ==> !(#[trigger] stmts[j] is Return),
        gen_block(body_env(def, name, params), stmts, 0, right(params.len())) is Ok,
        reads(
            gen_block(body_env(def, name, params), stmts, 0, right(params.len()))->Ok_0.code,
            body_ops,
        ),
    ensures
        gen_function(def, name, return_type, params, stmts) is Ok,
        ({
            let function = gen_function(def, name, return_type, params, stmts)->Ok_0;
            let block = gen_block(body_env(def, name, params), stmts, 0, right(params.len()))->Ok_0;
            &&& function.void
            &&& function.arity == params.len()
            &&& reads(function.code, procedure_ops(body_ops, block.env.locals()))
        }),
{
    let inner = body_env(def, name, params);
    let n = params.len();
    let block = gen_block(inner, stmts, 0, right(n))->Ok_0;
    lemma_body_ends(inner, stmts, 0, right(n), true);
    lemma_reads_repeat('<', block.env.locals());
    lemma_reads_concat(
        block.code,
        left(block.env.locals()),
        body_ops,
        repeat_op(Op::Move(-1), block.env.locals()),
    );
}

/// The code of a function without a value runs its statements and moves
/// the head back by the number of its parameters and variables.
pub proof fn lemma_procedure_runs(
    body_ops: Seq<Op>,
    locals: nat,
    state: State,
    arrived: State,
    limit: nat,
)
    requires
        run(body_ops, state, limit) == Some(arrived),
    ensures
        run(procedure_ops(body_ops, locals), state, limit) == Some(
            arrived.moved(-(locals as int)),
        ),
{
    lemma_run_steps(-1, locals, arrived, limit);
    assert(-1 * locals == -(locals as int));
    lemma_run_concat(body_ops, repeat_op(Op::Move(-1), locals), state, limit);
}

/// `state` with the values of `args` in the cells from the head on, where
/// the code of the arguments leaves them.
pub open spec fn with_arguments(env: Env, args: Seq<ExprView>, state: State) -> State {
    State {
        cells: |i: int|
            if state.head <= i < state.head + args.len() {
                value_in(env, args[i - state.head], state)->Some_0
            } else {
                state.at(i)
            },
        ..state
    }
}

/// The code of a call of a function whose body is `return body`, run from
/// any state, leaves under the head the value of `body` for the values of
/// the arguments: for arguments and a body without calls that have values.
/// The head ends where it began, the cells left of it are as they were,
/// and nothing is read or written. The function was defined in `def`, and
/// is called in `env`.
pub proof fn lemma_call_returns(
    def: Env,
    env: Env,
    name: NameView,
    return_type: NameView,
    params: Seq<DeclarationView>,
    pos: Position,
    body: ExprView,
    args: Seq<ExprView>,
    state: State,
    limit: nat,
)
    requires
        function_find(def.functions, name.name, 0) is None,
        return_type.name != "void"@,
        gen_params(params, 0, Seq::empty(), def.stack_ptr) is Ok,
        grounded(body_env(def, name, params).scopes, body_env(def, name, params).stack_ptr, body),
        function_find(env.functions, name.name, 0) == Some(
            gen_function(def, name, return_type, params, seq![return_of(pos, body)])->Ok_0,
        ),
        env.current != Some(name.name),
        args.len() == params.len(),
        all_grounded(env.scopes, env.stack_ptr, args),
        all_valued(env, args, state),
        value(
            body_env(def, name, params).scopes,
            body,
            with_arguments(env, args, state),
            state.head - def.stack_ptr,
        ) is Some,
        limit >= enough(),
    ensures
        gen_expr(env, ExprView::Call { name, args }) is Ok,
        reads(
            gen_expr(env, ExprView::Call { name, args })->Ok_0,
            parse(gen_expr(env, ExprView::Call { name, args })->Ok_0),
        ),
        run(parse(gen_expr(env, ExprView::Call { name, args })->Ok_0), state, limit) is Some,
        leaves(
            state,
            run(parse(gen_expr(env, ExprView::Call { name, args })->Ok_0), state, limit)->Some_0,
            state.head,
            value(
                body_env(def, name, params).scopes,
                body,
                with_arguments(env, args, state),
                state.head - def.stack_ptr,
            )->Some_0,
        ),
{
    let inner = body_env(def, name, params);
    let n = args.len();
    let h = state.head;
    let base = h - def.stack_ptr;
    let bound = with_arguments(env, args, state);
    lemma_returning_reads(def, name, return_type, params, pos, body);
    let function_ops = returning_ops(inner, n, body);
    lemma_covers_nothing(Seq::<char>::empty(), 0);
    lemma_args_reads(env, env.stack_ptr, args, 0, Seq::empty());
    let pushing = args_ops(env, args, n);
    lemma_call_reads(env, name, args, true, pushing, function_ops);
    let code = gen_expr(env, ExprView::Call { name, args })->Ok_0;
    lemma_reads_parse(code, call_ops(pushing, n, function_ops));
    lemma_args_run(env, env.stack_ptr, args, n, state, limit);
    let pushed = run(pushing, state, limit)->Some_0;
    lemma_call_runs(pushing, n, function_ops, state, pushed, limit);
    let entered = pushed.moved(-(n as int));
    lemma_moved_twice(pushed, -(n as int), n as int);
    lemma_moved_twice(pushed, 0, 0);
    assert(entered.moved(n as int) == pushed);
    assert forall|i: int| i < base + inner.stack_ptr implies #[trigger] pushed.at(i) == bound.at(
        i,
    ) by {
        if i >= h {
            let k = i - h;
            assert(pushed.at(h + k) == value_in(env, args[k], state)->Some_0);
        }
    }
    lemma_value_frame(inner.scopes, inner.stack_ptr, body, pushed, bound, base);
    lemma_returning_runs(inner, n, body, entered, limit);
    let after = run(function_ops, entered, limit)->Some_0;
    assert(pushed.head - inner.stack_ptr == base);
    assert(value_in(inner, body, pushed) == value(inner.scopes, body, bound, base));
    assert(run(parse(code), state, limit) == Some(after));
    assert forall|i: int| i < h implies #[trigger] after.at(i) == state.at(i) by {
        assert(after.at(i) == entered.at(i));
        assert(pushed.at(i) == state.at(i));
    }
}

/// The code of `variable op f(args)`, for a function whose body is
/// `return body`, leaves in the variable the value of the operator for the
/// old value of the variable and the value of `body` for the values of the
/// arguments: for every assignment operator, and for arguments and a body
/// without calls that have values, but for a quotient or a remainder by
/// zero. The head ends where it began, the other cells left of it are as
/// they were, and nothing is read or written.
pub proof fn lemma_assignment_of_call(
    def: Env,
    env: Env,
    variable: NameView,
    op: AssignOp,
    name: NameView,
    return_type: NameView,
    params: Seq<DeclarationView>,
    pos: Position,
    body: ExprView,
    args: Seq<ExprView>,
    state: State,
    limit: nat,
)
    requires
        lookup_var(env.scopes, variable.name) is Some,
        lookup_var(env.scopes, variable.name)->Some_0 < env.stack_ptr,
        function_find(def.functions, name.name, 0) is None,
        return_type.name != "void"@,
        gen_params(params, 0, Seq::empty(), def.stack_ptr) is Ok,
        grounded(body_env(def, name, params).scopes, body_env(def, name, params).stack_ptr, body),
        function_find(env.functions, name.name, 0) == Some(
            gen_function(def, name, return_type, params, seq![return_of(pos, body)])->Ok_0,
        ),
        env.current != Some(name.name),
        args.len() == params.len(),
        all_grounded(env.scopes, env.stack_ptr, args),
        all_valued(env, args, state),
        value(
            body_env(def, name, params).scopes,
            body,
            with_arguments(env, args, state),
            state.head - def.stack_ptr,
        ) is Some,
        op.kind is SlashEq || op.kind is PercentEq ==> value(
            body_env(def, name, params).scopes,
            body,
            with_arguments(env, args, state),
            state.head - def.stack_ptr,
        )->Some_0 != 0,
        limit >= enough(),
    ensures
        gen_nested(env, assignment(variable, op, ExprView::Call { name, args })) is Ok,
        run(
            parse(gen_nested(env, assignment(variable, op, ExprView::Call { name, args }))->Ok_0),
            state,
            limit,
        ) is Some,
        ({
            let cell = state.head - (env.stack_ptr - lookup_var(env.scopes, variable.name)->Some_0);
            let after = run(
                parse(
                    gen_nested(env, assignment(variable, op, ExprView::Call { name, args }))->Ok_0,
                ),
                state,
                limit,
            )->Some_0;
            &&& after.head == state.head
            &&& after.at(cell) == assign_value(
                op.kind,
                state.at(cell),
                value(
                    body_env(def, name, params).scopes,
                    body,
                    with_arguments(env, args, state),
                    state.head - def.stack_ptr,
                )->Some_0,
            )
            &&& forall|i: int| i < state.head && i != cell ==> #[trigger] after.at(i) == state.at(i)
            &&& after.input == state.input
            &&& after.output == state.output
        }),
{
    let call = ExprView::Call { name, args };
    lemma_call_returns(def, env, name, return_type, params, pos, body, args, state, limit);
    let value_ops = parse(gen_expr(env, call)->Ok_0);
    let between = run(value_ops, state, limit)->Some_0;
    lemma_assignment_after(env, variable, op, call, value_ops, state, between, limit);
    let cell = state.head - (env.stack_ptr - lookup_var(env.scopes, variable.name)->Some_0);
    let after = run(parse(gen_nested(env, assignment(variable, op, call))->Ok_0), state, limit)->Some_0;
    assert(between.at(cell) == state.at(cell));
    assert forall|i: int| i < state.head && i != cell implies #[trigger] after.at(i) == state.at(
        i,
    ) by {
        assert(between.at(i) == state.at(i));
    }
}

} // verus!
