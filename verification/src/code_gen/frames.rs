//! The tape discipline of statements and functions: between statements the
//! head stands where the generator expects it, a statement changes no cell
//! left of the variables that it can see, and the code of a function
//! leaves the head on the first cell of its frame and the cells left of it
//! as they were.

use vstd::prelude::*;
use crate::ast::shape::{in_block, item_shaped, nestable, shaped};
use crate::ast::{DeclarationView, ItemView, NameView, StatementView};
use crate::brainfuck::reading::{lemma_reads_concat, lemma_reads_parse, repeat_op};
use crate::brainfuck::semantics::{run, State};
use crate::brainfuck::tree::{parse, Op};
use crate::code_gen::assignments::{assign_ops, lemma_assign_reads};
use crate::code_gen::balance::{
    inline_passes, inlines_pass, lemma_function_passes, lemma_nested_passes,
    lemma_passes_concat, lemma_passes_empty, lemma_return_move_passes, lemma_statement_passes,
    passes, table_passes,
};
use crate::code_gen::calls::{body_env, return_of};
use crate::code_gen::discipline::{
    held, holds, kept, lemma_assign_holds, lemma_call_keeps, lemma_expression_holds,
    lemma_holds_concat, lemma_holds_deeper, lemma_holds_loop, lemma_parse_concat,
    clean_from, lemma_passes_reads, lemma_pieces_hold, lemma_right_passes, proper, table_proper,
    table_tidy, tidy,
};
use crate::ast::ExprView;
use crate::code_gen::operators::clean;
use crate::code_gen::rules::{
    assign_template, bytes_chars, compile, gen_block, gen_body, gen_declaration,
    gen_expr, gen_function, gen_item, gen_items, gen_nested, gen_params, gen_statement, initial,
    left, lookup_var, optimized_program, optimized_table, return_move, right, scope_find,
    Compiled, Env, Scope, Table,
};
use crate::code_gen::balance::neutral;
use crate::code_gen::balance_kept::lemma_optimized_neutral;
use crate::code_gen::statements::{
    block_ops, declaration_ops, if_else, if_else_ops, if_ops, if_then, lemma_block_reads,
    lemma_declaration_reads, lemma_if_else_reads, lemma_if_reads, lemma_repeat_reads,
    lemma_while_reads, loop_ops, minus_ops, repeat_do, repeat_ops, round_ops, taken_ops,
    while_do, while_ops,
};
use crate::code_gen::templates::{clear_ops, left_ops, lemma_right_reads, not_open_ops, right_ops};
use crate::code_gen::{fits, lemma_fits_higher, lemma_lookup_below};

verus! {

/// Whether each variable of `scopes` has a cell from `low` on.
pub open spec fn above(scopes: Seq<Scope>, low: nat) -> bool {
    forall|k: int, j: int|
        0 <= k < scopes.len() && 0 <= j < scopes[k].len() ==> (#[trigger] scopes[k][j]).1 >= low
}

/// Whether every piece of inline code in `stmt` holds where the statement
/// stands `depth` cells right of the lowest variable that it can see:
/// wherever a run of the inline code ends, it has left the head where it
/// found it, and the cells left of those variables as they were.
pub open spec fn inline_within(stmt: StatementView, depth: int) -> bool
    decreases stmt, 0int,
{
    match stmt {
        StatementView::Block(stmts) => stmts_within(stmts, 0, depth),
        StatementView::If { pos, condition, then_statement, else_statement } => match else_statement {
            Some(stmt) => inline_within(*then_statement, depth + 1) && inline_within(*stmt, depth),
            None => inline_within(*then_statement, depth),
        },
        StatementView::While { pos, condition, statement } => inline_within(*statement, depth),
        StatementView::Repeat { pos, expr, statement } => inline_within(*statement, depth + 1),
        StatementView::Inline { pos, code } => holds(parse(bytes_chars(code)), depth, 0),
        _ => true,
    }
}

/// Whether every piece of inline code in the statements from `i` on holds,
/// the statement `i` standing `depth` cells right of the lowest variable:
/// each declaration takes one cell more.
pub open spec fn stmts_within(stmts: Seq<StatementView>, i: int, depth: int) -> bool
    decreases stmts, stmts.len() - i,
{
    if !(0 <= i < stmts.len()) {
        true
    } else {
        inline_within(stmts[i], depth) && stmts_within(
            stmts,
            i + 1,
            if stmts[i] is Declaration {
                depth + 1
            } else {
                depth
            },
        )
    }
}

/// Whether every piece of inline code in the items from `i` on holds, the
/// item `i` standing behind `depth` variables of the top level. The body of
/// a function stands behind its parameters.
pub open spec fn items_within(items: Seq<ItemView>, i: int, depth: int) -> bool
    decreases items.len() - i,
{
    if !(0 <= i < items.len()) {
        true
    } else {
        match items[i] {
            ItemView::Function { name, return_type, parameters, statements } => stmts_within(
                statements,
                0,
                parameters.len() as int,
            ) && items_within(items, i + 1, depth),
            ItemView::Statement(stmt) => inline_within(stmt, depth) && items_within(
                items,
                i + 1,
                if stmt is Declaration {
                    depth + 1
                } else {
                    depth
                },
            ),
        }
    }
}

/// What the generator keeps of an environment: there is a scope, the
/// variables fit below the head, and each has a cell from `low` on, which
/// is not behind the head.
pub open spec fn sound(env: Env, low: nat) -> bool {
    &&& env.scopes.len() > 0
    &&& fits(env.scopes, env.stack_ptr)
    &&& above(env.scopes, low)
    &&& low <= env.stack_ptr
    &&& table_passes(env.functions)
    &&& table_proper(env.functions)
}

proof fn lemma_scope_find_above(scope: Scope, name: Seq<char>, i: int, low: nat)
    requires
        0 <= i,
        forall|j: int| 0 <= j < scope.len() ==> (#[trigger] scope[j]).1 >= low,
        scope_find(scope, name, i) is Some,
    ensures
        scope_find(scope, name, i)->Some_0 >= low,
    decreases scope.len() - i,
{
    if scope[i].0 != name {
        lemma_scope_find_above(scope, name, i + 1, low);
    }
}

/// A variable that is found has a cell from `low` on.
pub proof fn lemma_lookup_above(scopes: Seq<Scope>, low: nat, name: Seq<char>)
    requires
        above(scopes, low),
        lookup_var(scopes, name) is Some,
    ensures
        lookup_var(scopes, name)->Some_0 >= low,
    decreases scopes.len(),
{
    let last = scopes.last();
    if scope_find(last, name, 0) is Some {
        assert forall|j: int| 0 <= j < last.len() implies (#[trigger] last[j]).1 >= low by {
            assert(scopes[scopes.len() - 1][j].1 >= low);
        }
        lemma_scope_find_above(last, name, 0, low);
    } else {
        let front = scopes.drop_last();
        assert forall|k: int, j: int| 0 <= k < front.len() && 0 <= j < front[k].len() implies (
        #[trigger] front[k][j]).1 >= low by {
            assert(scopes[k][j].1 >= low);
        }
        lemma_lookup_above(front, low, name);
    }
}

/// The environment stays sound where the head moves on, where a scope is
/// entered, and where a variable is declared.
pub proof fn lemma_sound_steps(env: Env, low: nat, name: Seq<char>, n: nat)
    requires
        sound(env, low),
    ensures
        sound(env.bump(n), low),
        sound(env.enter(), low),
        sound(env.define(name), low),
        env.enter().locals() == 0,
        env.define(name).locals() == env.locals() + 1,
{
    lemma_fits_higher(env.scopes, env.stack_ptr, env.stack_ptr + n);
    let entered = env.enter().scopes;
    assert(entered.drop_last() =~= env.scopes);
    assert forall|k: int, j: int| 0 <= k < entered.len() && 0 <= j < entered[k].len() implies (
    #[trigger] entered[k][j]).1 >= low by {
        assert(env.scopes[k][j].1 >= low);
    }
    let defined = env.define(name).scopes;
    let last = env.scopes.last();
    assert(defined.drop_last() =~= env.scopes.drop_last());
    assert(defined.last() == last.push((name, env.stack_ptr)));
    assert forall|k: int, j: int| 0 <= k < defined.len() && 0 <= j < defined[k].len() implies (
    #[trigger] defined[k][j]).1 >= low by {
        if k < defined.len() - 1 {
            assert(defined[k] == env.scopes[k]);
            assert(env.scopes[k][j].1 >= low);
        } else if j < last.len() {
            assert(defined[k][j] == env.scopes[k][j]);
            assert(env.scopes[k][j].1 >= low);
        }
    }
    assert forall|j: int| 0 <= j < defined.last().len() implies (#[trigger] defined.last()[j]).1
        + defined.last().len() - j <= env.stack_ptr + 1 by {
        if j < last.len() {
            assert(defined.last()[j] == last[j]);
        }
    }
}

/// The pieces between the two branches of `if` with `else` hold one cell
/// deep: they change the flag left of the head.
pub proof fn lemma_taken_holds()
    ensures
        holds(taken_ops(), 1, 0),
{
    lemma_pieces_hold(0);
    lemma_holds_deeper(left_ops(), 0, 1, -1);
    lemma_holds_concat(left_ops(), minus_ops(), 1, -1, 0);
    lemma_holds_concat(left_ops() + minus_ops(), right_ops(), 1, -1, 1);
    lemma_holds_deeper(clear_ops(), 0, 1, 0);
    lemma_holds_concat(left_ops() + minus_ops() + right_ops(), clear_ops(), 1, 0, 0);
}

/// The code of a statement other than a declaration holds: wherever a run
/// of it ends, the head stands where it stood, and the cells left of the
/// variables are as they were.
pub proof fn lemma_nested_holds(env: Env, stmt: StatementView, low: nat)
    requires
        sound(env, low),
        inline_passes(stmt),
        inline_within(stmt, env.stack_ptr - low),
        nestable(stmt),
        gen_nested(env, stmt) is Ok,
    ensures
        holds(parse(gen_nested(env, stmt)->Ok_0), env.stack_ptr - low, 0),
        passes(gen_nested(env, stmt)->Ok_0, 0),
    decreases stmt, 0int,
{
    let depth = env.stack_ptr - low;
    let code = gen_nested(env, stmt)->Ok_0;
    lemma_nested_passes(env, stmt);
    lemma_pieces_hold(0);
    lemma_sound_steps(env, low, Seq::empty(), 1);
    match stmt {
        StatementView::Declaration(decl) => {},
        StatementView::Block(stmts) => {
            let inner = env.enter();
            lemma_passes_empty();
            assert(parse(Seq::<char>::empty()) =~= Seq::<Op>::empty());
            lemma_block_holds(inner, stmts, 0, Seq::empty(), low, depth, 0);
            let block = gen_block(inner, stmts, 0, Seq::empty())->Ok_0;
            let locals = block.env.locals();
            lemma_passes_reads(block.code, locals as int);
            lemma_block_reads(env, stmts, parse(block.code));
            lemma_reads_parse(code, block_ops(parse(block.code), locals));
            lemma_pieces_hold(locals);
            lemma_holds_deeper(repeat_op(Op::Move(-1), locals), 0, depth + locals, -(locals as int));
            lemma_holds_concat(
                parse(block.code),
                repeat_op(Op::Move(-1), locals),
                depth,
                locals as int,
                -(locals as int),
            );
        },
        StatementView::If { pos, condition, then_statement, else_statement } => {
            match else_statement {
                None => {
                    let c = gen_expr(env, condition)->Ok_0;
                    let t = gen_nested(env, *then_statement)->Ok_0;
                    lemma_expression_holds(env, condition);
                    lemma_nested_holds(env, *then_statement, low);
                    lemma_passes_reads(c, 0);
                    lemma_passes_reads(t, 0);
                    lemma_if_reads(env, pos, condition, *then_statement, parse(c), parse(t));
                    assert(stmt == if_then(pos, condition, *then_statement));
                    lemma_reads_parse(code, if_ops(parse(c), parse(t)));
                    lemma_holds_deeper(clear_ops(), 0, depth, 0);
                    lemma_holds_concat(parse(t), clear_ops(), depth, 0, 0);
                    lemma_holds_loop(parse(t) + clear_ops(), depth);
                    lemma_holds_deeper(parse(c), 0, depth, 0);
                    lemma_holds_concat(parse(c), loop_ops(parse(t) + clear_ops()), depth, 0, 0);
                },
                Some(other) => {
                    let within = env.bump(1);
                    let c = gen_expr(within, condition)->Ok_0;
                    let t = gen_nested(within, *then_statement)->Ok_0;
                    let o = gen_nested(env, *other)->Ok_0;
                    lemma_expression_holds(within, condition);
                    lemma_nested_holds(within, *then_statement, low);
                    lemma_nested_holds(env, *other, low);
                    lemma_passes_reads(c, 0);
                    lemma_passes_reads(t, 0);
                    lemma_passes_reads(o, 0);
                    lemma_if_else_reads(
                        env,
                        pos,
                        condition,
                        *then_statement,
                        *other,
                        parse(c),
                        parse(t),
                        parse(o),
                    );
                    assert(stmt == if_else(pos, condition, *then_statement, *other));
                    lemma_reads_parse(code, if_else_ops(parse(c), parse(t), parse(o)));
                    lemma_taken_holds();
                    // the flag, and the condition one cell right of it
                    lemma_holds_deeper(not_open_ops(), 0, depth, 1);
                    lemma_holds_deeper(parse(c), 0, depth + 1, 0);
                    lemma_holds_concat(not_open_ops(), parse(c), depth, 1, 0);
                    // the first branch
                    lemma_holds_deeper(taken_ops(), 1, depth + 1, 0);
                    lemma_holds_concat(parse(t), taken_ops(), depth + 1, 0, 0);
                    lemma_holds_loop(parse(t) + taken_ops(), depth + 1);
                    lemma_holds_concat(
                        not_open_ops() + parse(c),
                        loop_ops(parse(t) + taken_ops()),
                        depth,
                        1,
                        0,
                    );
                    // back on the flag, and the second branch
                    lemma_holds_deeper(left_ops(), 0, depth + 1, -1);
                    lemma_holds_concat(
                        not_open_ops() + parse(c) + loop_ops(parse(t) + taken_ops()),
                        left_ops(),
                        depth,
                        1,
                        -1,
                    );
                    lemma_holds_deeper(clear_ops(), 0, depth, 0);
                    lemma_holds_concat(parse(o), clear_ops(), depth, 0, 0);
                    lemma_holds_loop(parse(o) + clear_ops(), depth);
                    lemma_holds_concat(
                        not_open_ops() + parse(c) + loop_ops(parse(t) + taken_ops()) + left_ops(),
                        loop_ops(parse(o) + clear_ops()),
                        depth,
                        0,
                        0,
                    );
                },
            }
        },
        StatementView::While { pos, condition, statement } => {
            let c = gen_expr(env, condition)->Ok_0;
            let b = gen_nested(env, *statement)->Ok_0;
            lemma_expression_holds(env, condition);
            lemma_nested_holds(env, *statement, low);
            lemma_passes_reads(c, 0);
            lemma_passes_reads(b, 0);
            lemma_while_reads(env, pos, condition, *statement, parse(c), parse(b));
            assert(stmt == while_do(pos, condition, *statement));
            lemma_reads_parse(code, while_ops(parse(c), parse(b)));
            lemma_holds_deeper(parse(c), 0, depth, 0);
            lemma_holds_concat(parse(b), parse(c), depth, 0, 0);
            lemma_holds_loop(parse(b) + parse(c), depth);
            lemma_holds_concat(parse(c), loop_ops(parse(b) + parse(c)), depth, 0, 0);
        },
        StatementView::Repeat { pos, expr, statement } => {
            let within = env.bump(1);
            let c = gen_expr(env, expr)->Ok_0;
            let b = gen_nested(within, *statement)->Ok_0;
            lemma_expression_holds(env, expr);
            lemma_nested_holds(within, *statement, low);
            lemma_passes_reads(c, 0);
            lemma_passes_reads(b, 0);
            lemma_repeat_reads(env, pos, expr, *statement, parse(c), parse(b));
            assert(stmt == repeat_do(pos, expr, *statement));
            lemma_reads_parse(code, repeat_ops(parse(c), parse(b)));
            lemma_holds_deeper(right_ops(), 0, depth, 1);
            lemma_holds_concat(right_ops(), parse(b), depth, 1, 0);
            lemma_holds_deeper(left_ops(), 0, depth + 1, -1);
            lemma_holds_concat(right_ops() + parse(b), left_ops(), depth, 1, -1);
            lemma_holds_deeper(minus_ops(), 0, depth, 0);
            lemma_holds_concat(right_ops() + parse(b) + left_ops(), minus_ops(), depth, 0, 0);
            lemma_holds_loop(round_ops(parse(b)), depth);
            lemma_holds_deeper(parse(c), 0, depth, 0);
            lemma_holds_concat(parse(c), loop_ops(round_ops(parse(b))), depth, 0, 0);
        },
        StatementView::Return { pos, expr } => {},
        StatementView::Inline { pos, code: bytes } => {
        },
        StatementView::Assign { name, op, expr } => {
            let addr = lookup_var(env.scopes, name.name)->Some_0;
            let rel = (env.stack_ptr - addr) as nat;
            let value = gen_expr(env, expr)->Ok_0;
            lemma_lookup_below(env.scopes, env.stack_ptr, name.name);
            lemma_lookup_above(env.scopes, low, name.name);
            lemma_expression_holds(env, expr);
            lemma_passes_reads(value, 0);
            lemma_assign_reads(op.kind, rel);
            lemma_reads_concat(
                value,
                assign_template(op.kind, rel),
                parse(value),
                assign_ops(op.kind, rel),
            );
            lemma_reads_parse(code, parse(value) + assign_ops(op.kind, rel));
            lemma_assign_holds(op.kind, rel);
            lemma_holds_deeper(assign_ops(op.kind, rel), rel as int, depth, 0);
            lemma_holds_deeper(parse(value), 0, depth, 0);
            lemma_holds_concat(parse(value), assign_ops(op.kind, rel), depth, 0, 0);
        },
        StatementView::Call { name, args } => {
            assert forall|state: State, limit: nat| #[trigger]
                run(parse(code), state, limit) is Some implies held(
                state,
                run(parse(code), state, limit)->Some_0,
                0,
                0,
            ) by {
                lemma_call_keeps(env, name, args, false, state, limit);
            }
            lemma_holds_deeper(parse(code), 0, depth, 0);
        },
    }
}

/// The code of a statement of a block holds: a declaration moves the head
/// one cell to the right, behind its variable; any other statement leaves
/// it where it stood. The environment after the statement is sound.
pub proof fn lemma_statement_holds(env: Env, stmt: StatementView, low: nat)
    requires
        sound(env, low),
        inline_passes(stmt),
        inline_within(stmt, env.stack_ptr - low),
        in_block(stmt),
        gen_statement(env, stmt) is Ok,
    ensures
        sound(gen_statement(env, stmt)->Ok_0.env, low),
        gen_statement(env, stmt)->Ok_0.env.stack_ptr - env.stack_ptr == gen_statement(
            env,
            stmt,
        )->Ok_0.env.locals() - env.locals(),
        gen_statement(env, stmt)->Ok_0.env.stack_ptr >= env.stack_ptr,
        holds(
            parse(gen_statement(env, stmt)->Ok_0.code),
            env.stack_ptr - low,
            gen_statement(env, stmt)->Ok_0.env.stack_ptr - env.stack_ptr,
        ),
        passes(
            gen_statement(env, stmt)->Ok_0.code,
            gen_statement(env, stmt)->Ok_0.env.stack_ptr - env.stack_ptr,
        ),
    decreases stmt, 1int,
{
    let depth = env.stack_ptr - low;
    lemma_statement_passes(env, stmt);
    match stmt {
        StatementView::Declaration(decl) => {
            let code = gen_declaration(env, decl)->Ok_0.code;
            lemma_sound_steps(env, low, decl.name.name, 1);
            lemma_pieces_hold(0);
            lemma_holds_deeper(right_ops(), 0, depth, 1);
            match decl.init {
                Some(init) => {
                    let value = gen_expr(env, init)->Ok_0;
                    lemma_expression_holds(env, init);
                    lemma_passes_reads(value, 0);
                    lemma_declaration_reads(env, decl, init, parse(value));
                    lemma_reads_parse(code, declaration_ops(parse(value)));
                    lemma_holds_deeper(parse(value), 0, depth, 0);
                    lemma_holds_concat(parse(value), right_ops(), depth, 0, 1);
                },
                None => {
                    lemma_right_reads();
                    lemma_reads_parse(">"@, right_ops());
                },
            }
        },
        _ => {
            lemma_nested_holds(env, stmt, low);
        },
    }
}

/// The code of the statements of a block from `i` on holds after `code`,
/// which has moved the head by `moved` cells from where it stood `depth`
/// cells right of the lowest variable.
pub proof fn lemma_block_holds(
    env: Env,
    stmts: Seq<StatementView>,
    i: int,
    code: Seq<char>,
    low: nat,
    depth: int,
    moved: int,
)
    requires
        0 <= i <= stmts.len(),
        sound(env, low),
        env.stack_ptr - low == depth + moved,
        forall|k: int| 0 <= k < stmts.len() ==> inline_passes(#[trigger] stmts[k]),
        stmts_within(stmts, i, env.stack_ptr - low),
        forall|k: int| 0 <= k < stmts.len() ==> in_block(#[trigger] stmts[k]),
        passes(code, moved),
        holds(parse(code), depth, moved),
        gen_block(env, stmts, i, code) is Ok,
    ensures
        sound(gen_block(env, stmts, i, code)->Ok_0.env, low),
        gen_block(env, stmts, i, code)->Ok_0.env.stack_ptr - env.stack_ptr == gen_block(
            env,
            stmts,
            i,
            code,
        )->Ok_0.env.locals() - env.locals(),
        passes(
            gen_block(env, stmts, i, code)->Ok_0.code,
            moved + gen_block(env, stmts, i, code)->Ok_0.env.stack_ptr - env.stack_ptr,
        ),
        holds(
            parse(gen_block(env, stmts, i, code)->Ok_0.code),
            depth,
            moved + gen_block(env, stmts, i, code)->Ok_0.env.stack_ptr - env.stack_ptr,
        ),
    decreases stmts, stmts.len() - i,
{
    if i < stmts.len() {
        lemma_statement_holds(env, stmts[i], low);
        let generated = gen_statement(env, stmts[i])->Ok_0;
        let step = generated.env.stack_ptr - env.stack_ptr;
        lemma_passes_concat(code, generated.code, moved, step);
        lemma_parse_concat(code, generated.code, moved, step);
        lemma_holds_concat(parse(code), parse(generated.code), depth, moved, step);
        lemma_block_holds(
            generated.env,
            stmts,
            i + 1,
            code + generated.code,
            low,
            depth,
            moved + step,
        );
    }
}

/// The code of the statements of a function body from `i` on holds after
/// `code`, which has moved the head from the first cell of the frame
/// behind the parameters and variables of the body.
pub proof fn lemma_body_holds(
    env: Env,
    stmts: Seq<StatementView>,
    i: int,
    code: Seq<char>,
    low: nat,
    void: bool,
)
    requires
        0 <= i <= stmts.len(),
        sound(env, low),
        env.stack_ptr - low == env.locals(),
        forall|k: int| 0 <= k < stmts.len() ==> inline_passes(#[trigger] stmts[k]),
        stmts_within(stmts, i, env.stack_ptr - low),
        forall|k: int| 0 <= k < stmts.len() ==> in_block(#[trigger] stmts[k]),
        passes(code, env.locals() as int),
        holds(parse(code), 0, env.locals() as int),
        gen_body(env, stmts, i, code, void) is Ok,
    ensures
        passes(
            gen_body(env, stmts, i, code, void)->Ok_0.code,
            gen_body(env, stmts, i, code, void)->Ok_0.env.locals() as int,
        ),
        holds(
            parse(gen_body(env, stmts, i, code, void)->Ok_0.code),
            0,
            gen_body(env, stmts, i, code, void)->Ok_0.env.locals() as int,
        ),
    decreases stmts.len() - i,
{
    let moved = env.locals() as int;
    if i < stmts.len() {
        match stmts[i] {
            StatementView::Return { pos, expr } => {
                let value = gen_expr(env, expr)->Ok_0;
                let locals = env.locals();
                lemma_expression_holds(env, expr);
                lemma_passes_reads(value, 0);
                lemma_return_move_passes(locals);
                lemma_passes_concat(value, return_move(locals), 0, 0);
                let last = value + return_move(locals);
                assert(stmts[i] == return_of(pos, expr));
                crate::code_gen::calls::lemma_return_reads(env, pos, expr, parse(value));
                lemma_reads_parse(last, crate::code_gen::calls::return_ops(parse(value), locals));
                lemma_holds_deeper(parse(value), 0, moved, 0);
                if locals > 0 {
                    lemma_assign_holds(crate::ast::AssignOpKind::Eq, locals);
                    lemma_holds_concat(
                        parse(value),
                        assign_ops(crate::ast::AssignOpKind::Eq, locals),
                        moved,
                        0,
                        0,
                    );
                }
                lemma_passes_concat(code, last, moved, 0);
                lemma_parse_concat(code, last, moved, 0);
                lemma_holds_concat(parse(code), parse(last), 0, moved, 0);
            },
            stmt => {
                lemma_statement_holds(env, stmt, low);
                let generated = gen_statement(env, stmt)->Ok_0;
                let step = generated.env.stack_ptr - env.stack_ptr;
                lemma_passes_concat(code, generated.code, moved, step);
                lemma_parse_concat(code, generated.code, moved, step);
                lemma_holds_concat(parse(code), parse(generated.code), 0, moved, step);
                lemma_body_holds(generated.env, stmts, i + 1, code + generated.code, low, void);
            },
        }
    }
}

/// The code of a function is proper: wherever a run of it ends, the head
/// stands on the first cell of the frame, where it stood, and the cells
/// left of the frame are as they were. The functions that it can call are
/// proper, and so is its inline code.
pub proof fn lemma_function_proper(
    env: Env,
    name: NameView,
    return_type: NameView,
    params: Seq<DeclarationView>,
    stmts: Seq<StatementView>,
)
    requires
        table_passes(env.functions),
        table_proper(env.functions),
        forall|k: int| 0 <= k < stmts.len() ==> inline_passes(#[trigger] stmts[k]),
        stmts_within(stmts, 0, params.len() as int),
        forall|k: int| 0 <= k < stmts.len() ==> in_block(#[trigger] stmts[k]),
        gen_function(env, name, return_type, params, stmts) is Ok,
    ensures
        proper(gen_function(env, name, return_type, params, stmts)->Ok_0.code),
        passes(gen_function(env, name, return_type, params, stmts)->Ok_0.code, 0),
{
    let n = params.len();
    let scope = gen_params(params, 0, Seq::empty(), env.stack_ptr)->Ok_0;
    crate::code_gen::calls::lemma_params_scope(params, 0, Seq::empty(), env.stack_ptr);
    let inner = Env {
        scopes: seq![scope],
        functions: env.functions,
        stack_ptr: env.stack_ptr + n,
        current: Some(name.name),
    };
    let low = env.stack_ptr;
    let void = return_type.name == "void"@;
    assert(inner.scopes.drop_last() =~= Seq::<Scope>::empty());
    assert(inner.scopes.last() == scope);
    assert(fits(inner.scopes.drop_last(), low));
    assert(fits(inner.scopes, inner.stack_ptr));
    assert(sound(inner, low));
    lemma_function_passes(env, name, return_type, params, stmts);
    lemma_pieces_hold(n);
    crate::brainfuck::reading::lemma_reads_repeat('>', n);
    lemma_reads_parse(right(n), repeat_op(Op::Move(1), n));
    assert(passes(right(n), n as int)) by {
        assert forall|at: crate::code_gen::balance::Walk| #[trigger]
            crate::code_gen::balance::walk(right(n), 0, at) == crate::code_gen::balance::after(
                at,
                0,
                n as int,
            ) by {
            crate::code_gen::balance::lemma_walk_repeat('>', n, at);
        }
    }
    lemma_body_holds(inner, stmts, 0, right(n), low, void);
    let body = gen_body(inner, stmts, 0, right(n), void)->Ok_0;
    let locals = body.env.locals();
    let code = body.code + left(locals);
    lemma_pieces_hold(locals);
    crate::brainfuck::reading::lemma_reads_repeat('<', locals);
    lemma_reads_parse(left(locals), repeat_op(Op::Move(-1), locals));
    assert(passes(left(locals), -(locals as int))) by {
        assert forall|at: crate::code_gen::balance::Walk| #[trigger]
            crate::code_gen::balance::walk(left(locals), 0, at)
                == crate::code_gen::balance::after(at, 0, -(locals as int)) by {
            crate::code_gen::balance::lemma_walk_repeat('<', locals, at);
        }
    }
    lemma_parse_concat(body.code, left(locals), locals as int, -(locals as int));
    lemma_holds_deeper(repeat_op(Op::Move(-1), locals), 0, locals as int, -(locals as int));
    lemma_holds_concat(
        parse(body.code),
        repeat_op(Op::Move(-1), locals),
        0,
        locals as int,
        -(locals as int),
    );
    assert forall|state: State, limit: nat| #[trigger]
        run(parse(code), state, limit) is Some implies kept(
        state,
        run(parse(code), state, limit)->Some_0,
    ) by {
        assert(held(state, run(parse(code), state, limit)->Some_0, 0, 0));
    }
}

/// The functions and the code of the items from `i` on hold after `code`,
/// which has moved the head behind the variables of the top level.
pub proof fn lemma_items_hold(env: Env, items: Seq<ItemView>, i: int, code: Seq<char>)
    requires
        0 <= i <= items.len(),
        sound(env, 0),
        env.stack_ptr == env.locals(),
        shaped(items),
        inlines_pass(items),
        items_within(items, i, env.locals() as int),
        passes(code, env.locals() as int),
        holds(parse(code), 0, env.locals() as int),
        gen_items(env, items, i, code) is Ok,
    ensures
        proper(gen_items(env, items, i, code)->Ok_0.code),
        table_proper(gen_items(env, items, i, code)->Ok_0.functions),
        table_passes(gen_items(env, items, i, code)->Ok_0.functions),
    decreases items.len() - i,
{
    reveal(gen_item);
    let moved = env.locals() as int;
    if i < items.len() {
        assert(item_shaped(items[i]));
        let generated = gen_item(env, items[i])->Ok_0;
        match items[i] {
            ItemView::Function { name, return_type, parameters, statements } => {
                lemma_function_proper(env, name, return_type, parameters, statements);
                let function = gen_function(env, name, return_type, parameters, statements)->Ok_0;
                let table = env.functions.push((name.name, function));
                assert forall|k: int| 0 <= k < table.len() implies proper(
                    (#[trigger] table[k]).1.code,
                ) && passes(table[k].1.code, 0) by {
                    if k < env.functions.len() {
                        assert(table[k] == env.functions[k]);
                    }
                }
                assert(code + generated.code =~= code);
                lemma_items_hold(generated.env, items, i + 1, code);
            },
            ItemView::Statement(stmt) => {
                lemma_statement_holds(env, stmt, 0);
                let step = generated.env.stack_ptr - env.stack_ptr;
                lemma_passes_concat(code, generated.code, moved, step);
                lemma_parse_concat(code, generated.code, moved, step);
                lemma_holds_concat(parse(code), parse(generated.code), 0, moved, step);
                lemma_items_hold(generated.env, items, i + 1, code + generated.code);
            },
        }
    } else {
        let locals = env.locals();
        let end = code + left(locals);
        lemma_pieces_hold(locals);
        crate::brainfuck::reading::lemma_reads_repeat('<', locals);
        lemma_reads_parse(left(locals), repeat_op(Op::Move(-1), locals));
        assert(passes(left(locals), -(locals as int))) by {
            assert forall|at: crate::code_gen::balance::Walk| #[trigger]
                crate::code_gen::balance::walk(left(locals), 0, at)
                    == crate::code_gen::balance::after(at, 0, -(locals as int)) by {
                crate::code_gen::balance::lemma_walk_repeat('<', locals, at);
            }
        }
        lemma_parse_concat(code, left(locals), moved, -moved);
        lemma_holds_deeper(repeat_op(Op::Move(-1), locals), 0, moved, -moved);
        lemma_holds_concat(parse(code), repeat_op(Op::Move(-1), locals), 0, moved, -moved);
        assert forall|state: State, limit: nat| #[trigger]
            run(parse(end), state, limit) is Some implies kept(
            state,
            run(parse(end), state, limit)->Some_0,
        ) by {
            assert(held(state, run(parse(end), state, limit)->Some_0, 0, 0));
        }
    }
}

/// The tape discipline of a compiled program. Where declarations stand only
/// at the top level, in function bodies and in blocks, where inline code is
/// balanced and holds, and where the functions that the program starts
/// with are balanced and proper: wherever a run of the code of the program
/// or of one of its functions ends, the head stands where it stood, and the
/// cells left of it are as they were.
pub proof fn lemma_program_discipline(items: Seq<ItemView>, std: Table)
    requires
        shaped(items),
        inlines_pass(items),
        items_within(items, 0, 0),
        table_passes(std),
        table_proper(std),
        compile(items, std) is Ok,
    ensures
        proper(compile(items, std)->Ok_0.code),
        table_proper(compile(items, std)->Ok_0.functions),
{
    let env = initial(std);
    assert(env.scopes.drop_last() =~= Seq::<Scope>::empty());
    assert(fits(env.scopes.drop_last(), 0));
    assert(fits(env.scopes, 0));
    lemma_passes_empty();
    lemma_pieces_hold(0);
    assert(parse(Seq::<char>::empty()) =~= Seq::<Op>::empty());
    lemma_items_hold(env, items, 0, Seq::empty());
}

/// Optimized code is proper where the code is: the two do the same.
pub proof fn lemma_optimized_proper(code: Seq<char>)
    requires
        proper(code),
    ensures
        proper(crate::code_gen::optimizations::optimized(code)),
{
    let better = crate::code_gen::optimizations::optimized(code);
    assert forall|state: State, limit: nat| #[trigger]
        run(parse(better), state, limit) is Some implies kept(
        state,
        run(parse(better), state, limit)->Some_0,
    ) by {
        crate::code_gen::soundness::lemma_optimizer_sound(code, state, limit);
        assert(kept(state, run(parse(code), state, limit)->Some_0));
    }
}

/// What a compilation yields under `optimize`: the compiled program, or
/// the compiled program with all of its code optimized.
pub open spec fn yielded(items: Seq<ItemView>, std: Table, optimize: bool) -> Compiled {
    if optimize {
        optimized_program(compile(items, std)->Ok_0)
    } else {
        compile(items, std)->Ok_0
    }
}

/// The functions of a compiled program pass, optimized or not, so that
/// another program can start with them.
pub proof fn lemma_yielded_passes(items: Seq<ItemView>, std: Table, optimize: bool)
    requires
        shaped(items),
        inlines_pass(items),
        table_passes(std),
        compile(items, std) is Ok,
    ensures
        neutral(yielded(items, std, optimize).code, 0),
        table_passes(yielded(items, std, optimize).functions),
{
    let plain = compile(items, std)->Ok_0;
    crate::code_gen::balance::lemma_scope_balance(items, std);
    if optimize {
        lemma_optimized_neutral(plain.code, 0);
        let table = optimized_table(plain.functions);
        assert forall|k: int| 0 <= k < table.len() implies passes((#[trigger] table[k]).1.code, 0) by {
            assert(passes(plain.functions[k].1.code, 0));
            crate::code_gen::balance::lemma_passes_neutral(plain.functions[k].1.code, 0);
            lemma_optimized_neutral(plain.functions[k].1.code, 0);
        }
    }
}

/// The tape discipline of what a compilation yields, optimized or not:
/// wherever a run of the code of the program or of one of its functions
/// ends, the head stands where it stood, and the cells left of it are as
/// they were.
pub proof fn lemma_yielded_proper(items: Seq<ItemView>, std: Table, optimize: bool)
    requires
        shaped(items),
        inlines_pass(items),
        items_within(items, 0, 0),
        table_passes(std),
        table_proper(std),
        compile(items, std) is Ok,
    ensures
        proper(yielded(items, std, optimize).code),
        table_proper(yielded(items, std, optimize).functions),
{
    let plain = compile(items, std)->Ok_0;
    lemma_program_discipline(items, std);
    if optimize {
        lemma_optimized_proper(plain.code);
        let table = optimized_table(plain.functions);
        assert forall|k: int| 0 <= k < table.len() implies proper((#[trigger] table[k]).1.code) by {
            assert(proper(plain.functions[k].1.code));
            lemma_optimized_proper(plain.functions[k].1.code);
        }
    }
}

/// Whether `stmt` holds no inline code.
pub open spec fn inline_free(stmt: StatementView) -> bool
    decreases stmt,
{
    match stmt {
        StatementView::Block(stmts) => forall|i: int|
            0 <= i < stmts.len() ==> inline_free(#[trigger] stmts[i]),
        StatementView::If { pos, condition, then_statement, else_statement } => inline_free(
            *then_statement,
        ) && match else_statement {
            Some(stmt) => inline_free(*stmt),
            None => true,
        },
        StatementView::While { pos, condition, statement } => inline_free(*statement),
        StatementView::Repeat { pos, expr, statement } => inline_free(*statement),
        StatementView::Inline { pos, code } => false,
        _ => true,
    }
}

/// Whether `items` hold no inline code.
pub open spec fn without_inline(items: Seq<ItemView>) -> bool {
    forall|i: int|
        0 <= i < items.len() ==> match #[trigger] items[i] {
            ItemView::Function { name, return_type, parameters, statements } => forall|k: int|
                0 <= k < statements.len() ==> inline_free(#[trigger] statements[k]),
            ItemView::Statement(stmt) => inline_free(stmt),
        }
}

/// A statement without inline code asks nothing of inline code.
pub proof fn lemma_inline_free(stmt: StatementView, depth: int)
    requires
        inline_free(stmt),
    ensures
        inline_passes(stmt),
        inline_within(stmt, depth),
    decreases stmt, 0int,
{
    match stmt {
        StatementView::Block(stmts) => {
            lemma_stmts_inline_free(stmts, 0, depth);
            assert forall|i: int| 0 <= i < stmts.len() implies inline_passes(
                #[trigger] stmts[i],
            ) by {
                lemma_inline_free(stmts[i], depth);
            }
        },
        StatementView::If { pos, condition, then_statement, else_statement } => {
            lemma_inline_free(*then_statement, depth);
            lemma_inline_free(*then_statement, depth + 1);
            match else_statement {
                Some(other) => lemma_inline_free(*other, depth),
                None => {},
            }
        },
        StatementView::While { pos, condition, statement } => {
            lemma_inline_free(*statement, depth);
        },
        StatementView::Repeat { pos, expr, statement } => {
            lemma_inline_free(*statement, depth + 1);
        },
        _ => {},
    }
}

/// Statements without inline code ask nothing of inline code.
pub proof fn lemma_stmts_inline_free(stmts: Seq<StatementView>, i: int, depth: int)
    requires
        0 <= i <= stmts.len(),
        forall|k: int| 0 <= k < stmts.len() ==> inline_free(#[trigger] stmts[k]),
    ensures
        stmts_within(stmts, i, depth),
    decreases stmts, stmts.len() - i,
{
    if i < stmts.len() {
        lemma_inline_free(stmts[i], depth);
        lemma_stmts_inline_free(
            stmts,
            i + 1,
            if stmts[i] is Declaration {
                depth + 1
            } else {
                depth
            },
        );
    }
}

/// Items without inline code ask nothing of inline code.
pub proof fn lemma_items_inline_free(items: Seq<ItemView>, i: int, depth: int)
    requires
        0 <= i <= items.len(),
        without_inline(items),
    ensures
        items_within(items, i, depth),
        inlines_pass(items),
    decreases items.len() - i,
{
    assert forall|k: int| 0 <= k < items.len() implies match #[trigger] items[k] {
        ItemView::Function { name, return_type, parameters, statements } => forall|j: int|
            0 <= j < statements.len() ==> inline_passes(#[trigger] statements[j]),
        ItemView::Statement(stmt) => inline_passes(stmt),
    } by {
        match items[k] {
            ItemView::Function { name, return_type, parameters, statements } => {
                assert forall|j: int| 0 <= j < statements.len() implies inline_passes(
                    #[trigger] statements[j],
                ) by {
                    lemma_inline_free(statements[j], 0);
                }
            },
            ItemView::Statement(stmt) => {
                lemma_inline_free(stmt, 0);
            },
        }
    }
    if i < items.len() {
        match items[i] {
            ItemView::Function { name, return_type, parameters, statements } => {
                lemma_stmts_inline_free(statements, 0, parameters.len() as int);
                lemma_items_inline_free(items, i + 1, depth);
            },
            ItemView::Statement(stmt) => {
                lemma_inline_free(stmt, depth);
                lemma_items_inline_free(
                    items,
                    i + 1,
                    if stmt is Declaration {
                        depth + 1
                    } else {
                        depth
                    },
                );
            },
        }
    }
}

/// The tape discipline of every well-formed program without inline code
/// that is compiled on its own: wherever a run of its code or of the code
/// of one of its functions ends, the head stands where it stood, and the
/// cells left of it are as they were. The code is balanced.
pub proof fn lemma_discipline_without_inline(items: Seq<ItemView>)
    requires
        shaped(items),
        without_inline(items),
        compile(items, Seq::empty()) is Ok,
    ensures
        proper(compile(items, Seq::empty())->Ok_0.code),
        table_proper(compile(items, Seq::empty())->Ok_0.functions),
        neutral(compile(items, Seq::empty())->Ok_0.code, 0),
        table_passes(compile(items, Seq::empty())->Ok_0.functions),
{
    lemma_items_inline_free(items, 0, 0);
    lemma_program_discipline(items, Seq::empty());
    crate::code_gen::balance::lemma_scope_balance(items, Seq::empty());
}

/// The two pieces of inline code of the standard library, which write and
/// read the cell left of the head, are balanced and hold one cell deep:
/// they stand behind one parameter or variable.
pub proof fn lemma_prelude_inline()
    ensures
        passes("<.>"@, 0),
        passes("<,>"@, 0),
        holds(parse("<.>"@), 1, 0),
        holds(parse("<,>"@), 1, 0),
{
    reveal_strlit("<.>");
    reveal_strlit("<,>");
    reveal_strlit("<");
    reveal_strlit(">");
    reveal_strlit(".");
    reveal_strlit(",");
    let put = Seq::<Op>::empty().push(Op::PutChar);
    let get = Seq::<Op>::empty().push(Op::GetChar);
    assert(passes("."@, 0) && passes(","@, 0)) by {
        reveal_with_fuel(crate::code_gen::balance::walk, 2);
    }
    lemma_right_passes();
    lemma_passes_concat("<"@, "."@, -1, 0);
    lemma_passes_concat("<"@ + "."@, ">"@, -1, 1);
    lemma_passes_concat("<"@, ","@, -1, 0);
    lemma_passes_concat("<"@ + ","@, ">"@, -1, 1);
    assert("<"@ + "."@ + ">"@ =~= "<.>"@);
    assert("<"@ + ","@ + ">"@ =~= "<,>"@);
    lemma_passes_reads("."@, 0);
    lemma_passes_reads(","@, 0);
    assert(parse("."@) =~= put) by {
        reveal_with_fuel(crate::brainfuck::tree::read, 3);
    }
    assert(parse(","@) =~= get) by {
        reveal_with_fuel(crate::brainfuck::tree::read, 3);
    }
    crate::code_gen::templates::lemma_left_reads();
    lemma_right_reads();
    lemma_reads_parse("<"@, left_ops());
    lemma_reads_parse(">"@, right_ops());
    lemma_parse_concat("<"@, "."@, -1, 0);
    lemma_parse_concat("<"@ + "."@, ">"@, -1, 1);
    lemma_parse_concat("<"@, ","@, -1, 0);
    lemma_parse_concat("<"@ + ","@, ">"@, -1, 1);
    lemma_pieces_hold(0);
    assert forall|state: State, limit: nat| #[trigger] run(put, state, limit) is Some implies held(
        state,
        run(put, state, limit)->Some_0,
        0,
        0,
    ) by {
        crate::brainfuck::semantics::lemma_run_push(Seq::empty(), Op::PutChar, state, limit);
    }
    assert forall|state: State, limit: nat| #[trigger] run(get, state, limit) is Some implies held(
        state,
        run(get, state, limit)->Some_0,
        0,
        0,
    ) by {
        crate::brainfuck::semantics::lemma_run_push(Seq::empty(), Op::GetChar, state, limit);
    }
    lemma_holds_deeper(left_ops(), 0, 1, -1);
    lemma_holds_concat(left_ops(), put, 1, -1, 0);
    lemma_holds_concat(left_ops() + put, right_ops(), 1, -1, 1);
    lemma_holds_concat(left_ops(), get, 1, -1, 0);
    lemma_holds_concat(left_ops() + get, right_ops(), 1, -1, 1);
}

/// The code of a function of at most one parameter whose body is
/// `return expr` is tidy, for any well-formed expression over functions
/// that are proper and tidy: where there was zero right of its argument,
/// it leaves zero right of the value.
pub proof fn lemma_returning_tidy(
    def: Env,
    name: NameView,
    return_type: NameView,
    params: Seq<DeclarationView>,
    pos: crate::util::Position,
    expr: ExprView,
)
    requires
        params.len() <= 1,
        table_passes(def.functions),
        table_proper(def.functions),
        table_tidy(def.functions),
        gen_function(def, name, return_type, params, seq![return_of(pos, expr)]) is Ok,
    ensures
        tidy(
            gen_function(def, name, return_type, params, seq![return_of(pos, expr)])->Ok_0.code,
            params.len(),
        ),
{
    let n = params.len();
    let stmts = seq![return_of(pos, expr)];
    let inner = body_env(def, name, params);
    let scope = gen_params(params, 0, Seq::empty(), def.stack_ptr)->Ok_0;
    crate::code_gen::calls::lemma_params_scope(params, 0, Seq::empty(), def.stack_ptr);
    assert(inner.scopes.drop_last() =~= Seq::<Scope>::empty());
    assert(inner.scopes.last() == scope);
    assert(fits(inner.scopes.drop_last(), def.stack_ptr));
    assert(fits(inner.scopes, inner.stack_ptr));
    assert(stmts[0] == return_of(pos, expr));
    assert(stmts.subrange(0, 0) =~= Seq::<StatementView>::empty());
    let value = gen_expr(inner, expr)->Ok_0;
    crate::code_gen::balance::lemma_expr_passes(inner, expr);
    lemma_passes_reads(value, 0);
    crate::brainfuck::reading::lemma_reads_repeat('>', n);
    let there = repeat_op(Op::Move(1), n);
    let back = repeat_op(Op::Move(-1), n);
    crate::code_gen::calls::lemma_function_reads(
        def,
        name,
        return_type,
        params,
        stmts,
        0,
        pos,
        expr,
        there,
        parse(value),
    );
    let code = gen_function(def, name, return_type, params, stmts)->Ok_0.code;
    let ops = crate::code_gen::calls::function_ops(there, parse(value), n);
    lemma_reads_parse(code, ops);
    let returning = crate::code_gen::calls::return_ops(parse(value), n);
    assert forall|state: State, limit: nat| #[trigger]
        run(parse(code), state, limit) is Some && clean_from(state, n) implies clean(
        run(parse(code), state, limit)->Some_0,
        state.head,
    ) by {
        let h = state.head;
        crate::brainfuck::semantics::lemma_run_concat(there, returning, state, limit);
        crate::brainfuck::semantics::lemma_run_concat(there + returning, back, state, limit);
        crate::code_gen::soundness::lemma_run_steps(1, n, state, limit);
        assert(1 * n == n);
        let s1 = state.moved(n as int);
        assert forall|i: int| i > s1.head implies #[trigger] s1.at(i) == 0 by {
            assert(state.at(i) == 0);
        }
        if n > 0 {
            crate::brainfuck::semantics::lemma_run_concat(
                parse(value),
                assign_ops(crate::ast::AssignOpKind::Eq, n),
                s1,
                limit,
            );
        }
        let between = run(parse(value), s1, limit)->Some_0;
        crate::code_gen::discipline::lemma_expression_keeps(inner, expr, s1, limit);
        let s3 = run(returning, s1, limit)->Some_0;
        if n > 0 {
            crate::brainfuck::semantics::lemma_run_more(
                assign_ops(crate::ast::AssignOpKind::Eq, n),
                between,
                limit,
                limit + crate::code_gen::operators::enough(),
            );
            crate::code_gen::assignments::lemma_assign_runs(
                crate::ast::AssignOpKind::Eq,
                between,
                n,
                limit + crate::code_gen::operators::enough(),
            );
        }
        crate::code_gen::soundness::lemma_run_steps(-1, n, s3, limit);
        assert(-1 * n == -(n as int));
        let after = s3.moved(-(n as int));
        assert forall|i: int| i > h implies #[trigger] after.at(i) == 0 by {
            assert(s3.at(i) == 0);
        }
    }
}

/// The statements before the first `return` of a function body that is
/// compiled are compiled as those of a block, and so is the expression of
/// the `return`.
pub proof fn lemma_body_before_return(
    env: Env,
    stmts: Seq<StatementView>,
    k: int,
    pos: crate::util::Position,
    expr: ExprView,
    i: int,
    code: Seq<char>,
)
    requires
        0 <= i <= k < stmts.len(),
        stmts[k] == return_of(pos, expr),
        forall|j: int| i <= j < k ==> !(#[trigger] stmts[j] is Return),
        gen_body(env, stmts, i, code, false) is Ok,
    ensures
        gen_block(env, stmts.subrange(0, k), i, code) is Ok,
        gen_expr(gen_block(env, stmts.subrange(0, k), i, code)->Ok_0.env, expr) is Ok,
    decreases k - i,
{
    let before = stmts.subrange(0, k);
    if i < k {
        assert(before[i] == stmts[i]);
        assert(!(stmts[i] is Return));
        let generated = gen_statement(env, stmts[i])->Ok_0;
        lemma_body_before_return(generated.env, stmts, k, pos, expr, i + 1, code + generated.code);
    }
}

/// What is asked of the inline code of statements is asked of the inline
/// code of the first of them.
pub proof fn lemma_within_before(stmts: Seq<StatementView>, k: int, i: int, depth: int)
    requires
        0 <= i <= k <= stmts.len(),
        stmts_within(stmts, i, depth),
    ensures
        stmts_within(stmts.subrange(0, k), i, depth),
    decreases k - i,
{
    let before = stmts.subrange(0, k);
    if i < k {
        assert(before[i] == stmts[i]);
        lemma_within_before(
            stmts,
            k,
            i + 1,
            if stmts[i] is Declaration {
                depth + 1
            } else {
                depth
            },
        );
    }
}

/// What the code of a function does that returns a value, whatever its
/// body is: wherever a run of it ends, the statements before the first
/// `return` have run, then the code of the returned expression, and the
/// value that this code has left stands in the first cell of the frame,
/// with the head on it. The cells left of the frame are as they were.
pub proof fn lemma_function_general(
    def: Env,
    name: NameView,
    return_type: NameView,
    params: Seq<DeclarationView>,
    stmts: Seq<StatementView>,
    k: int,
    pos: crate::util::Position,
    expr: ExprView,
    state: State,
    limit: nat,
)
    requires
        table_passes(def.functions),
        table_proper(def.functions),
        forall|j: int| 0 <= j < stmts.len() ==> inline_passes(#[trigger] stmts[j]),
        stmts_within(stmts, 0, params.len() as int),
        forall|j: int| 0 <= j < stmts.len() ==> in_block(#[trigger] stmts[j]),
        return_type.name != "void"@,
        gen_function(def, name, return_type, params, stmts) is Ok,
        0 <= k < stmts.len(),
        stmts[k] == return_of(pos, expr),
        forall|j: int| 0 <= j < k ==> !(#[trigger] stmts[j] is Return),
        run(
            parse(gen_function(def, name, return_type, params, stmts)->Ok_0.code),
            state,
            limit,
        ) is Some,
    ensures
        ({
            let block = gen_block(
                body_env(def, name, params),
                stmts.subrange(0, k),
                0,
                right(params.len()),
            )->Ok_0;
            let arrived = run(parse(block.code), state, limit);
            let between = run(parse(gen_expr(block.env, expr)->Ok_0), arrived->Some_0, limit);
            let after = run(
                parse(gen_function(def, name, return_type, params, stmts)->Ok_0.code),
                state,
                limit,
            )->Some_0;
            &&& arrived is Some
            &&& between is Some
            &&& kept(state, after)
            &&& after.cell() == between->Some_0.cell()
        }),
{
    let n = params.len();
    let inner = body_env(def, name, params);
    let before = stmts.subrange(0, k);
    let scope = gen_params(params, 0, Seq::empty(), def.stack_ptr)->Ok_0;
    crate::code_gen::calls::lemma_params_scope(params, 0, Seq::empty(), def.stack_ptr);
    assert(inner.scopes.drop_last() =~= Seq::<Scope>::empty());
    assert(inner.scopes.last() == scope);
    assert(fits(inner.scopes.drop_last(), def.stack_ptr));
    assert(fits(inner.scopes, inner.stack_ptr));
    assert(sound(inner, def.stack_ptr));
    lemma_body_before_return(inner, stmts, k, pos, expr, 0, right(n));
    let block = gen_block(inner, before, 0, right(n))->Ok_0;
    // the statements before the `return`
    lemma_pieces_hold(n);
    crate::brainfuck::reading::lemma_reads_repeat('>', n);
    lemma_reads_parse(right(n), repeat_op(Op::Move(1), n));
    assert(passes(right(n), n as int)) by {
        assert forall|at: crate::code_gen::balance::Walk| #[trigger]
            crate::code_gen::balance::walk(right(n), 0, at) == crate::code_gen::balance::after(
                at,
                0,
                n as int,
            ) by {
            crate::code_gen::balance::lemma_walk_repeat('>', n, at);
        }
    }
    lemma_within_before(stmts, k, 0, n as int);
    assert forall|j: int| 0 <= j < before.len() implies inline_passes(#[trigger] before[j])
        && in_block(before[j]) by {
        assert(before[j] == stmts[j]);
    }
    lemma_block_holds(inner, before, 0, right(n), def.stack_ptr, 0, n as int);
    let locals = block.env.locals();
    assert(locals == block.env.stack_ptr - def.stack_ptr);
    // the expression of the `return`
    let value = gen_expr(block.env, expr)->Ok_0;
    lemma_expression_holds(block.env, expr);
    lemma_passes_reads(block.code, locals as int);
    lemma_passes_reads(value, 0);
    crate::code_gen::calls::lemma_function_reads(
        def,
        name,
        return_type,
        params,
        stmts,
        k,
        pos,
        expr,
        parse(block.code),
        parse(value),
    );
    let code = gen_function(def, name, return_type, params, stmts)->Ok_0.code;
    let ops = crate::code_gen::calls::function_ops(parse(block.code), parse(value), locals);
    lemma_reads_parse(code, ops);
    let returning = crate::code_gen::calls::return_ops(parse(value), locals);
    let back = repeat_op(Op::Move(-1), locals);
    crate::brainfuck::semantics::lemma_run_concat(parse(block.code), returning, state, limit);
    crate::brainfuck::semantics::lemma_run_concat(
        parse(block.code) + returning,
        back,
        state,
        limit,
    );
    let arrived = run(parse(block.code), state, limit)->Some_0;
    assert(held(state, arrived, 0, locals as int));
    if locals > 0 {
        crate::brainfuck::semantics::lemma_run_concat(
            parse(value),
            assign_ops(crate::ast::AssignOpKind::Eq, locals),
            arrived,
            limit,
        );
    }
    let between = run(parse(value), arrived, limit)->Some_0;
    assert(held(arrived, between, 0, 0));
    let more = limit + crate::code_gen::operators::enough();
    crate::brainfuck::semantics::lemma_run_more(parse(block.code), state, limit, more);
    crate::brainfuck::semantics::lemma_run_more(parse(value), arrived, limit, more);
    crate::brainfuck::semantics::lemma_run_more(ops, state, limit, more);
    crate::code_gen::calls::lemma_function_runs(
        parse(block.code),
        parse(value),
        locals,
        state,
        arrived,
        between,
        more,
    );
    let after = run(ops, state, limit)->Some_0;
    assert forall|i: int| i < state.head implies #[trigger] after.at(i) == state.at(i) by {
        assert(after.at(i) == between.at(i));
        assert(between.at(i) == arrived.at(i));
    }
}

} // verus!
