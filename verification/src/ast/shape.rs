//! The shape of the trees that the parser builds: where declarations may
//! stand, and how large a tree is.

use vstd::prelude::*;
use crate::ast::{ExprView, ItemView, ProgramView, StatementView};

verus! {

/// Whether `stmt` may follow `if`, `while` or `repeat`: it is no
/// declaration, and declarations in it stand in blocks.
pub open spec fn nestable(stmt: StatementView) -> bool
    decreases stmt, 0int,
{
    match stmt {
        StatementView::Declaration(_) => false,
        StatementView::Block(stmts) => forall|i: int|
            0 <= i < stmts.len() ==> in_block(#[trigger] stmts[i]),
        StatementView::If { pos, condition, then_statement, else_statement } => nestable(
            *then_statement,
        ) && match else_statement {
            Some(stmt) => nestable(*stmt),
            None => true,
        },
        StatementView::While { pos, condition, statement } => nestable(*statement),
        StatementView::Repeat { pos, expr, statement } => nestable(*statement),
        _ => true,
    }
}

/// Whether `stmt` may stand in a block, in a function body or at the top of
/// a program: it is a declaration or a nestable statement.
pub open spec fn in_block(stmt: StatementView) -> bool
    decreases stmt, 1int,
{
    stmt is Declaration || nestable(stmt)
}

/// Whether declarations in `item` stand only where they may.
pub open spec fn item_shaped(item: ItemView) -> bool {
    match item {
        ItemView::Function { name, return_type, parameters, statements } => forall|i: int|
            0 <= i < statements.len() ==> in_block(#[trigger] statements[i]),
        ItemView::Statement(stmt) => in_block(stmt),
    }
}

/// Whether declarations in `items` stand only at the top level, in function
/// bodies and in blocks.
pub open spec fn shaped(items: Seq<ItemView>) -> bool {
    forall|i: int| 0 <= i < items.len() ==> item_shaped(#[trigger] items[i])
}

/// The number of nodes of `expr`, each argument of a call counted twice.
pub open spec fn expr_size(expr: ExprView) -> nat
    decreases expr, 0int,
{
    match expr {
        ExprView::Binary { left, op, right } => 1 + expr_size(*left) + expr_size(*right),
        ExprView::Unary { op, right } => 1 + expr_size(*right),
        ExprView::Call { name, args } => 1 + args_size(args, 0),
        ExprView::Var { name } => 1,
        ExprView::Int { pos, value } => 1,
    }
}

/// The size of the arguments from `i` on.
pub open spec fn args_size(args: Seq<ExprView>, i: int) -> nat
    decreases args, args.len() - i,
{
    if !(0 <= i < args.len()) {
        0
    } else {
        1 + expr_size(args[i]) + args_size(args, i + 1)
    }
}

/// The number of nodes of `stmt`.
pub open spec fn stmt_size(stmt: StatementView) -> nat
    decreases stmt, 0int,
{
    match stmt {
        StatementView::Declaration(decl) => 1 + match decl.init {
            Some(init) => expr_size(init),
            None => 0,
        },
        StatementView::Block(stmts) => 1 + stmts_size(stmts, 0),
        StatementView::If { pos, condition, then_statement, else_statement } => 1 + expr_size(
            condition,
        ) + stmt_size(*then_statement) + match else_statement {
            Some(stmt) => stmt_size(*stmt),
            None => 0,
        },
        StatementView::While { pos, condition, statement } => 1 + expr_size(condition) + stmt_size(
            *statement,
        ),
        StatementView::Repeat { pos, expr, statement } => 1 + expr_size(expr) + stmt_size(
            *statement,
        ),
        StatementView::Return { pos, expr } => 1 + expr_size(expr),
        StatementView::Inline { pos, code } => 1,
        StatementView::Assign { name, op, expr } => 1 + expr_size(expr),
        StatementView::Call { name, args } => 1 + args_size(args, 0),
    }
}

/// The size of the statements from `i` on.
pub open spec fn stmts_size(stmts: Seq<StatementView>, i: int) -> nat
    decreases stmts, stmts.len() - i,
{
    if !(0 <= i < stmts.len()) {
        0
    } else {
        stmt_size(stmts[i]) + stmts_size(stmts, i + 1)
    }
}

/// The number of nodes of `item`.
pub open spec fn item_size(item: ItemView) -> nat {
    match item {
        ItemView::Function { name, return_type, parameters, statements } => 1 + parameters.len()
            + stmts_size(statements, 0),
        ItemView::Statement(stmt) => stmt_size(stmt),
    }
}

/// The size of the items from `i` on.
pub open spec fn items_size(items: Seq<ItemView>, i: int) -> nat
    decreases items.len() - i,
{
    if !(0 <= i < items.len()) {
        0
    } else {
        item_size(items[i]) + items_size(items, i + 1)
    }
}

impl ProgramView {
    /// Whether the program is one that the generator takes: declarations
    /// stand only at the top level, in function bodies and in blocks, and the
    /// number of its nodes fits into a machine word.
    pub open spec fn well_formed(self) -> bool {
        shaped(self.items) && items_size(self.items, 0) <= usize::MAX
    }
}

/// One more argument adds its size and one.
pub proof fn lemma_args_size_push(args: Seq<ExprView>, arg: ExprView, i: int)
    requires
        0 <= i <= args.len(),
    ensures
        args_size(args.push(arg), i) == args_size(args, i) + 1 + expr_size(arg),
    decreases args.len() - i,
{
    if i < args.len() {
        lemma_args_size_push(args, arg, i + 1);
        assert(args.push(arg)[i] == args[i]);
    } else {
        assert(args.push(arg)[i] == arg);
        assert(args_size(args.push(arg), i + 1) == 0);
    }
}

/// One more statement adds its size.
pub proof fn lemma_stmts_size_push(stmts: Seq<StatementView>, stmt: StatementView, i: int)
    requires
        0 <= i <= stmts.len(),
    ensures
        stmts_size(stmts.push(stmt), i) == stmts_size(stmts, i) + stmt_size(stmt),
    decreases stmts.len() - i,
{
    if i < stmts.len() {
        lemma_stmts_size_push(stmts, stmt, i + 1);
        assert(stmts.push(stmt)[i] == stmts[i]);
    } else {
        assert(stmts.push(stmt)[i] == stmt);
        assert(stmts_size(stmts.push(stmt), i + 1) == 0);
    }
}

/// One more item adds its size.
pub proof fn lemma_items_size_push(items: Seq<ItemView>, item: ItemView, i: int)
    requires
        0 <= i <= items.len(),
    ensures
        items_size(items.push(item), i) == items_size(items, i) + item_size(item),
    decreases items.len() - i,
{
    if i < items.len() {
        lemma_items_size_push(items, item, i + 1);
        assert(items.push(item)[i] == items[i]);
    } else {
        assert(items.push(item)[i] == item);
        assert(items_size(items.push(item), i + 1) == 0);
    }
}

} // verus!
