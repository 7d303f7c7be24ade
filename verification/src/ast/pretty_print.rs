//! Pretty printing for the AST.

use vstd::prelude::*;
use vstd::string::*;
use crate::ast::{
    declaration_views, expr_views, item_views, lemma_expr_views, lemma_statement_views,
    statement_views, AssignOpKind, Declaration, DeclarationView, Expr, ExprView, Item, ItemView,
    Program, ProgramView, Statement, StatementView,
};
use crate::code_gen::rules::bytes_chars;
use crate::util::{decimal, push_decimal};

verus! {

broadcast use vstd::std_specs::vec::group_vec_axioms;

impl AssignOpKind {
    /// The operator as it is written in a program.
    pub open spec fn symbol(self) -> Seq<char> {
        match self {
            AssignOpKind::Eq => "="@,
            AssignOpKind::PlusEq => "+="@,
            AssignOpKind::MinusEq => "-="@,
            AssignOpKind::StarEq => "*="@,
            AssignOpKind::SlashEq => "/="@,
            AssignOpKind::PercentEq => "%="@,
        }
    }

    /// Writes the operator as it is written in a program.
    pub fn to_string(&self) -> (s: String)
        ensures
            s@ == self.symbol(),
    {
        String::from_str(
            match self {
                AssignOpKind::Eq => "=",
                AssignOpKind::PlusEq => "+=",
                AssignOpKind::MinusEq => "-=",
                AssignOpKind::StarEq => "*=",
                AssignOpKind::SlashEq => "/=",
                AssignOpKind::PercentEq => "%=",
            },
        )
    }
}

/// A line: `prefix`, a label, a value and a line feed.
pub open spec fn line(prefix: Seq<char>, label: Seq<char>, value: Seq<char>) -> Seq<char> {
    prefix + label + value + "\n"@
}

/// The lines of the expressions of `exprs`, each under `prefix`.
pub open spec fn exprs_text(exprs: Seq<ExprView>, prefix: Seq<char>) -> Seq<char>
    decreases exprs, 1int,
{
    if exprs.len() == 0 {
        Seq::empty()
    } else {
        exprs_text(exprs.drop_last(), prefix) + expr_text(exprs.last(), prefix)
    }
}

/// The lines of an expression: its kind under `prefix`, and its parts below
/// it, further in.
pub open spec fn expr_text(expr: ExprView, prefix: Seq<char>) -> Seq<char>
    decreases expr, 0int,
{
    match expr {
        ExprView::Binary { left, op, right } => line(prefix, "Binary"@, Seq::empty()) + line(
            prefix,
            "  left:"@,
            Seq::empty(),
        ) + expr_text(*left, prefix + "    "@) + line(prefix, "  operator: "@, op.kind.symbol())
            + line(prefix, "  right:"@, Seq::empty()) + expr_text(*right, prefix + "    "@),
        ExprView::Unary { op, right } => line(prefix, "Unary"@, Seq::empty()) + line(
            prefix,
            "  operator: "@,
            op.kind.symbol(),
        ) + line(prefix, "  right:"@, Seq::empty()) + expr_text(*right, prefix + "    "@),
        ExprView::Call { name, args } => line(prefix, "Call"@, Seq::empty()) + line(
            prefix,
            "  name: "@,
            name.name,
        ) + line(prefix, "  arguments:"@, Seq::empty()) + exprs_text(args, prefix + "    "@),
        ExprView::Var { name } => line(prefix, "Var "@, name.name),
        ExprView::Int { pos, value } => line(prefix, "Int "@, decimal(value as nat)),
    }
}

/// The lines of a declaration.
pub open spec fn declaration_text(decl: DeclarationView, prefix: Seq<char>) -> Seq<char> {
    line(prefix, "Declaration"@, Seq::empty()) + line(prefix, "  type: "@, decl.type_.name) + line(
        prefix,
        "  name: "@,
        decl.name.name,
    ) + match decl.init {
        Some(init) => line(prefix, "  init:"@, Seq::empty()) + expr_text(init, prefix + "    "@),
        None => Seq::empty(),
    }
}

/// The lines of the declarations of `decls`, each under `prefix`.
pub open spec fn declarations_text(decls: Seq<DeclarationView>, prefix: Seq<char>) -> Seq<char>
    decreases decls.len(),
{
    if decls.len() == 0 {
        Seq::empty()
    } else {
        declarations_text(decls.drop_last(), prefix) + declaration_text(decls.last(), prefix)
    }
}

/// The lines of the statements of `stmts`, each under `prefix`.
pub open spec fn statements_text(stmts: Seq<StatementView>, prefix: Seq<char>) -> Seq<char>
    decreases stmts, 1int,
{
    if stmts.len() == 0 {
        Seq::empty()
    } else {
        statements_text(stmts.drop_last(), prefix) + statement_text(stmts.last(), prefix)
    }
}

/// The lines of a statement.
pub open spec fn statement_text(stmt: StatementView, prefix: Seq<char>) -> Seq<char>
    decreases stmt, 0int,
{
    match stmt {
        StatementView::Declaration(decl) => declaration_text(decl, prefix),
        StatementView::Block(stmts) => line(prefix, "Block"@, Seq::empty()) + statements_text(
            stmts,
            prefix + "  "@,
        ),
        StatementView::If { pos, condition, then_statement, else_statement } => line(
            prefix,
            "If"@,
            Seq::empty(),
        ) + line(prefix, "  condition:"@, Seq::empty()) + expr_text(condition, prefix + "    "@)
            + line(prefix, "  then statement:"@, Seq::empty()) + statement_text(
            *then_statement,
            prefix + "    "@,
        ) + match else_statement {
            Some(stmt) => line(prefix, "  else statement:"@, Seq::empty()) + statement_text(
                *stmt,
                prefix + "    "@,
            ),
            None => Seq::empty(),
        },
        StatementView::While { pos, condition, statement } => line(prefix, "While"@, Seq::empty())
            + line(prefix, "  condition:"@, Seq::empty()) + expr_text(condition, prefix + "    "@)
            + line(prefix, "  statement:"@, Seq::empty()) + statement_text(
            *statement,
            prefix + "    "@,
        ),
        StatementView::Repeat { pos, expr, statement } => line(prefix, "Repeat"@, Seq::empty())
            + line(prefix, "  expression:"@, Seq::empty()) + expr_text(expr, prefix + "    "@)
            + line(prefix, "  statement:"@, Seq::empty()) + statement_text(
            *statement,
            prefix + "    "@,
        ),
        StatementView::Return { pos, expr } => line(prefix, "Return"@, Seq::empty()) + expr_text(
            expr,
            prefix + "  "@,
        ),
        StatementView::Inline { pos, code } => line(prefix, "Inline"@, Seq::empty()) + line(
            prefix,
            "  "@,
            bytes_chars(code),
        ),
        StatementView::Assign { name, op, expr } => line(prefix, "Assign"@, Seq::empty()) + line(
            prefix,
            "  name: "@,
            name.name,
        ) + line(prefix, "  operator: "@, op.kind.symbol()) + line(
            prefix,
            "  expression:"@,
            Seq::empty(),
        ) + expr_text(expr, prefix + "  "@),
        StatementView::Call { name, args } => line(prefix, "Call"@, Seq::empty()) + line(
            prefix,
            "  name: "@,
            name.name,
        ) + line(prefix, "  arguments:"@, Seq::empty()) + exprs_text(args, prefix + "    "@),
    }
}

/// The lines of an item.
pub open spec fn item_text(item: ItemView, prefix: Seq<char>) -> Seq<char> {
    match item {
        ItemView::Function { name, return_type, parameters, statements } => line(
            prefix,
            "Function"@,
            Seq::empty(),
        ) + line(prefix, "  name: "@, name.name) + line(prefix, "  return type: "@, return_type.name)
            + line(prefix, "  parameters:"@, Seq::empty()) + declarations_text(
            parameters,
            prefix + "    "@,
        ) + line(prefix, "  statements:"@, Seq::empty()) + statements_text(
            statements,
            prefix + "    "@,
        ),
        ItemView::Statement(stmt) => statement_text(stmt, prefix),
    }
}

/// The lines of the items of `items`, each under `prefix`.
pub open spec fn items_text(items: Seq<ItemView>, prefix: Seq<char>) -> Seq<char>
    decreases items.len(),
{
    if items.len() == 0 {
        Seq::empty()
    } else {
        items_text(items.drop_last(), prefix) + item_text(items.last(), prefix)
    }
}

/// The lines of a program: its name and its items.
pub open spec fn program_text(program: ProgramView) -> Seq<char> {
    line(Seq::empty(), "Program"@, Seq::empty()) + line(Seq::empty(), "  name: "@, program.name)
        + line(Seq::empty(), "  items:"@, Seq::empty()) + items_text(program.items, "    "@)
}

/// Appends a line to `out`.
fn put(out: &mut String, prefix: &String, label: &str, value: &str)
    ensures
        final(out)@ == old(out)@ + line(prefix@, label@, value@),
{
    out.append(prefix.as_str());
    out.append(label);
    out.append(value);
    out.append("\n");
    proof {
        assert(out@ =~= old(out)@ + line(prefix@, label@, value@));
    }
}

/// Appends a line without a value to `out`.
fn put_label(out: &mut String, prefix: &String, label: &str)
    ensures
        final(out)@ == old(out)@ + line(prefix@, label@, Seq::empty()),
{
    out.append(prefix.as_str());
    out.append(label);
    out.append("\n");
    proof {
        assert(out@ =~= old(out)@ + line(prefix@, label@, Seq::empty()));
    }
}

/// `prefix` with `more` after it.
fn deeper(prefix: &String, more: &str) -> (r: String)
    ensures
        r@ == prefix@ + more@,
{
    let mut r = prefix.clone();
    r.append(more);
    r
}

fn write_exprs(out: &mut String, exprs: &Vec<Expr>, prefix: &String)
    ensures
        final(out)@ == old(out)@ + exprs_text(expr_views(exprs@), prefix@),
    decreases exprs, 1int,
{
    let mut i: usize = 0;
    proof {
        assert(exprs@.take(0) =~= Seq::empty());
        assert(out@ =~= old(out)@ + exprs_text(expr_views(exprs@.take(0)), prefix@));
    }
    while i < exprs.len()
        invariant
            i <= exprs.len(),
            out@ == old(out)@ + exprs_text(expr_views(exprs@.take(i as int)), prefix@),
            forall|k: int| 0 <= k < exprs.len() ==> decreases_to!(exprs => exprs[k]),
        decreases exprs.len() - i,
    {
        write_expr(out, &exprs[i], prefix);
        proof {
            let next = exprs@.take(i + 1);
            assert(next.drop_last() =~= exprs@.take(i as int));
            assert(expr_views(next).drop_last() =~= expr_views(exprs@.take(i as int)));
            assert(out@ =~= old(out)@ + exprs_text(expr_views(next), prefix@));
        }
        i = i + 1;
    }
    proof {
        assert(exprs@.take(i as int) =~= exprs@);
    }
}

fn write_expr(out: &mut String, expr: &Expr, prefix: &String)
    ensures
        final(out)@ == old(out)@ + expr_text(expr@, prefix@),
    decreases expr, 0int,
{
    let inner = deeper(prefix, "    ");
    match expr {
        Expr::Binary { left, op, right } => {
            put_label(out, prefix, "Binary");
            put_label(out, prefix, "  left:");
            write_expr(out, left, &inner);
            let symbol = op.kind.to_string();
            put(out, prefix, "  operator: ", symbol.as_str());
            put_label(out, prefix, "  right:");
            write_expr(out, right, &inner);
            proof {
                assert(out@ =~= old(out)@ + expr_text(expr@, prefix@));
            }
        },
        Expr::Unary { op, right } => {
            put_label(out, prefix, "Unary");
            let symbol = op.kind.to_string();
            put(out, prefix, "  operator: ", symbol.as_str());
            put_label(out, prefix, "  right:");
            write_expr(out, right, &inner);
            proof {
                assert(out@ =~= old(out)@ + expr_text(expr@, prefix@));
            }
        },
        Expr::Call { name, args } => {
            put_label(out, prefix, "Call");
            put(out, prefix, "  name: ", name.name.as_str());
            put_label(out, prefix, "  arguments:");
            write_exprs(out, args, &inner);
            proof {
                assert(out@ =~= old(out)@ + expr_text(expr@, prefix@));
            }
        },
        Expr::Var { name } => {
            put(out, prefix, "Var ", name.name.as_str());
        },
        Expr::Int { pos, value } => {
            let mut number = String::new();
            push_decimal(&mut number, *value as usize);
            proof {
                assert(number@ =~= decimal(*value as nat));
            }
            put(out, prefix, "Int ", number.as_str());
        },
    }
}

fn write_declaration(out: &mut String, decl: &Declaration, prefix: &String)
    ensures
        final(out)@ == old(out)@ + declaration_text(decl@, prefix@),
{
    put_label(out, prefix, "Declaration");
    put(out, prefix, "  type: ", decl.type_.name.as_str());
    put(out, prefix, "  name: ", decl.name.name.as_str());
    match &decl.init {
        Some(init) => {
            put_label(out, prefix, "  init:");
            let inner = deeper(prefix, "    ");
            write_expr(out, init, &inner);
        },
        None => {},
    }
    proof {
        assert(out@ =~= old(out)@ + declaration_text(decl@, prefix@));
    }
}

fn write_statements(out: &mut String, stmts: &Vec<Statement>, prefix: &String)
    ensures
        final(out)@ == old(out)@ + statements_text(statement_views(stmts@), prefix@),
    decreases stmts, 1int,
{
    let mut i: usize = 0;
    proof {
        assert(stmts@.take(0) =~= Seq::empty());
        assert(out@ =~= old(out)@ + statements_text(statement_views(stmts@.take(0)), prefix@));
    }
    while i < stmts.len()
        invariant
            i <= stmts.len(),
            out@ == old(out)@ + statements_text(statement_views(stmts@.take(i as int)), prefix@),
            forall|k: int| 0 <= k < stmts.len() ==> decreases_to!(stmts => stmts[k]),
        decreases stmts.len() - i,
    {
        write_statement(out, &stmts[i], prefix);
        proof {
            let next = stmts@.take(i + 1);
            assert(next.drop_last() =~= stmts@.take(i as int));
            assert(statement_views(next).drop_last() =~= statement_views(stmts@.take(i as int)));
            assert(out@ =~= old(out)@ + statements_text(statement_views(next), prefix@));
        }
        i = i + 1;
    }
    proof {
        assert(stmts@.take(i as int) =~= stmts@);
    }
}

/// The bytes of inline code as a string, each byte as the character with
/// its code.
fn inline_text(code: &Vec<u8>) -> (text: String)
    ensures
        text@ == bytes_chars(code@),
{
    let mut text = String::new();
    let mut i: usize = 0;
    while i < code.len()
        invariant
            i <= code.len(),
            text@ == bytes_chars(code@.take(i as int)),
        decreases code.len() - i,
    {
        text.push(code[i] as char);
        proof {
            assert(text@ =~= bytes_chars(code@.take(i + 1)));
        }
        i = i + 1;
    }
    proof {
        assert(code@.take(i as int) =~= code@);
    }
    text
}

fn write_statement(out: &mut String, stmt: &Statement, prefix: &String)
    ensures
        final(out)@ == old(out)@ + statement_text(stmt@, prefix@),
    decreases stmt, 0int,
{
    let inner = deeper(prefix, "    ");
    match stmt {
        Statement::Declaration(decl) => {
            write_declaration(out, decl, prefix);
        },
        Statement::Block(statements) => {
            put_label(out, prefix, "Block");
            let block = deeper(prefix, "  ");
            write_statements(out, statements, &block);
            proof {
                assert(out@ =~= old(out)@ + statement_text(stmt@, prefix@));
            }
        },
        Statement::If { pos, condition, then_statement, else_statement } => {
            put_label(out, prefix, "If");
            put_label(out, prefix, "  condition:");
            write_expr(out, condition, &inner);
            put_label(out, prefix, "  then statement:");
            write_statement(out, then_statement, &inner);
            match else_statement {
                Some(other) => {
                    put_label(out, prefix, "  else statement:");
                    write_statement(out, other, &inner);
                },
                None => {},
            }
            proof {
                assert(out@ =~= old(out)@ + statement_text(stmt@, prefix@));
            }
        },
        Statement::While { pos, condition, statement } => {
            put_label(out, prefix, "While");
            put_label(out, prefix, "  condition:");
            write_expr(out, condition, &inner);
            put_label(out, prefix, "  statement:");
            write_statement(out, statement, &inner);
            proof {
                assert(out@ =~= old(out)@ + statement_text(stmt@, prefix@));
            }
        },
        Statement::Repeat { pos, expr, statement } => {
            put_label(out, prefix, "Repeat");
            put_label(out, prefix, "  expression:");
            write_expr(out, expr, &inner);
            put_label(out, prefix, "  statement:");
            write_statement(out, statement, &inner);
            proof {
                assert(out@ =~= old(out)@ + statement_text(stmt@, prefix@));
            }
        },
        Statement::Return { pos, expr } => {
            put_label(out, prefix, "Return");
            let below = deeper(prefix, "  ");
            write_expr(out, expr, &below);
            proof {
                assert(out@ =~= old(out)@ + statement_text(stmt@, prefix@));
            }
        },
        Statement::Inline { pos, code } => {
            put_label(out, prefix, "Inline");
            let text = inline_text(code);
            put(out, prefix, "  ", text.as_str());
            proof {
                assert(out@ =~= old(out)@ + statement_text(stmt@, prefix@));
            }
        },
        Statement::Assign { name, op, expr } => {
            put_label(out, prefix, "Assign");
            put(out, prefix, "  name: ", name.name.as_str());
            let symbol = op.kind.to_string();
            put(out, prefix, "  operator: ", symbol.as_str());
            put_label(out, prefix, "  expression:");
            let below = deeper(prefix, "  ");
            write_expr(out, expr, &below);
            proof {
                assert(out@ =~= old(out)@ + statement_text(stmt@, prefix@));
            }
        },
        Statement::Call { name, args } => {
            put_label(out, prefix, "Call");
            put(out, prefix, "  name: ", name.name.as_str());
            put_label(out, prefix, "  arguments:");
            write_exprs(out, args, &inner);
            proof {
                assert(out@ =~= old(out)@ + statement_text(stmt@, prefix@));
            }
        },
    }
}

fn write_item(out: &mut String, item: &Item, prefix: &String)
    ensures
        final(out)@ == old(out)@ + item_text(item@, prefix@),
{
    match item {
        Item::Function { name, return_type, parameters, statements } => {
            put_label(out, prefix, "Function");
            put(out, prefix, "  name: ", name.name.as_str());
            put(out, prefix, "  return type: ", return_type.name.as_str());
            put_label(out, prefix, "  parameters:");
            let inner = deeper(prefix, "    ");
            let ghost before = out@;
            let mut i: usize = 0;
            proof {
                assert(parameters@.take(0) =~= Seq::empty());
                assert(declaration_views(parameters@.take(0)) =~= Seq::empty());
                assert(out@ =~= before + declarations_text(
                    declaration_views(parameters@.take(0)),
                    inner@,
                ));
            }
            while i < parameters.len()
                invariant
                    i <= parameters.len(),
                    out@ == before + declarations_text(
                        declaration_views(parameters@.take(i as int)),
                        inner@,
                    ),
                decreases parameters.len() - i,
            {
                write_declaration(out, &parameters[i], &inner);
                proof {
                    let next = declaration_views(parameters@.take(i + 1));
                    assert(next.drop_last() =~= declaration_views(parameters@.take(i as int)));
                    assert(next.last() == parameters@[i as int]@);
                    assert(out@ =~= before + declarations_text(next, inner@));
                }
                i = i + 1;
            }
            proof {
                assert(parameters@.take(i as int) =~= parameters@);
            }
            put_label(out, prefix, "  statements:");
            write_statements(out, statements, &inner);
            proof {
                assert(out@ =~= old(out)@ + item_text(item@, prefix@));
            }
        },
        Item::Statement(stmt) => {
            write_statement(out, stmt, prefix);
        },
    }
}

/// Pretty prints the given AST: returns the text, a line for each node and
/// each of its named parts, the parts further in than the node.
pub fn pretty_print_ast(program: &Program) -> (text: String)
    ensures
        text@ == program_text(program@),
{
    let mut out = String::new();
    let top = String::new();
    put_label(&mut out, &top, "Program");
    put(&mut out, &top, "  name: ", program.name.as_str());
    put_label(&mut out, &top, "  items:");
    let prefix = String::from_str("    ");
    let ghost before = out@;
    let mut i: usize = 0;
    proof {
        assert(item_views(program.items@.take(0)) =~= Seq::empty());
        assert(out@ =~= before + items_text(item_views(program.items@.take(0)), prefix@));
    }
    while i < program.items.len()
        invariant
            i <= program.items.len(),
            prefix@ == "    "@,
            out@ == before + items_text(item_views(program.items@.take(i as int)), prefix@),
        decreases program.items.len() - i,
    {
        write_item(&mut out, &program.items[i], &prefix);
        proof {
            let next = item_views(program.items@.take(i + 1));
            assert(next.drop_last() =~= item_views(program.items@.take(i as int)));
            assert(next.last() == program.items@[i as int]@);
            assert(out@ =~= before + items_text(next, prefix@));
        }
        i = i + 1;
    }
    proof {
        assert(program.items@.take(i as int) =~= program.items@);
        assert(out@ =~= program_text(program@));
    }
    out
}

} // verus!
