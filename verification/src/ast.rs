//! The abstract syntax tree.

pub mod pretty_print;
pub mod sexp;
pub mod shape;

use vstd::prelude::*;
use crate::util::Position;

verus! {

#[derive(Debug)]
pub struct Program {
    pub name: String,
    pub items: Vec<Item>,
}

#[derive(Debug)]
pub enum Item {
    Function { name: Ident, return_type: Type, parameters: Vec<Declaration>, statements: Vec<Statement> },
    Statement(Statement),
}

#[derive(Debug)]
pub struct Declaration {
    pub type_: Type,
    pub name: Ident,
    pub init: Option<Expr>,
}

#[derive(Debug)]
pub struct Type {
    pub pos: Position,
    pub name: String,
}

#[derive(Debug)]
pub struct Ident {
    pub pos: Position,
    pub name: String,
}

// statements
#[derive(Debug)]
pub enum Statement {
    Declaration(Declaration),
    Block(Vec<Statement>),
    If {
        pos: Position,
        condition: Expr,
        then_statement: Box<Statement>,
        else_statement: Option<Box<Statement>>,
    },
    While { pos: Position, condition: Expr, statement: Box<Statement> },
    Repeat { pos: Position, expr: Expr, statement: Box<Statement> },
    Return { pos: Position, expr: Expr },
    Inline { pos: Position, code: Vec<u8> },
    Assign { name: Ident, op: AssignOp, expr: Expr },
    Call { name: Ident, args: Vec<Expr> },
}

#[derive(Clone, Copy, Debug)]
pub struct AssignOp {
    pub pos: Position,
    pub kind: AssignOpKind,
}

#[derive(Clone, Copy, Debug)]
pub enum AssignOpKind {
    Eq,
    PlusEq,
    MinusEq,
    StarEq,
    SlashEq,
    PercentEq,
}

// expressions
#[derive(Debug)]
#[allow(inconsistent_fields)]
pub enum Expr {
    Binary { left: Box<Expr>, op: BinaryOp, right: Box<Expr> },
    Unary { op: UnaryOp, right: Box<Expr> },
    Call { name: Ident, args: Vec<Expr> },
    Var { name: Ident },
    Int { pos: Position, value: u8 },
}

#[derive(Clone, Copy, Debug)]
pub struct BinaryOp {
    pub pos: Position,
    pub kind: BinaryOpKind,
}

#[derive(Clone, Copy, Debug)]
pub enum BinaryOpKind {
    Plus,
    Minus,
    Star,
    Slash,
    Percent,
    EqEq,
    NotEq,
    Greater,
    GreaterEq,
    Less,
    LessEq,
    And,
    Or,
}

#[derive(Clone, Copy, Debug)]
pub struct UnaryOp {
    pub pos: Position,
    pub kind: UnaryOpKind,
}

#[derive(Clone, Copy, Debug)]
pub enum UnaryOpKind {
    Plus,
    Minus,
    Not,
}

// views
/// The mathematical content of a [`Type`] or an [`Ident`]: a name and where
/// it stands.
pub struct NameView {
    pub pos: Position,
    pub name: Seq<char>,
}

/// The mathematical content of an [`Expr`].
#[allow(inconsistent_fields)]
pub enum ExprView {
    Binary { left: Box<ExprView>, op: BinaryOp, right: Box<ExprView> },
    Unary { op: UnaryOp, right: Box<ExprView> },
    Call { name: NameView, args: Seq<ExprView> },
    Var { name: NameView },
    Int { pos: Position, value: u8 },
}

/// The mathematical content of a [`Declaration`].
pub struct DeclarationView {
    pub type_: NameView,
    pub name: NameView,
    pub init: Option<ExprView>,
}

/// The mathematical content of a [`Statement`].
pub enum StatementView {
    Declaration(DeclarationView),
    Block(Seq<StatementView>),
    If {
        pos: Position,
        condition: ExprView,
        then_statement: Box<StatementView>,
        else_statement: Option<Box<StatementView>>,
    },
    While { pos: Position, condition: ExprView, statement: Box<StatementView> },
    Repeat { pos: Position, expr: ExprView, statement: Box<StatementView> },
    Return { pos: Position, expr: ExprView },
    Inline { pos: Position, code: Seq<u8> },
    Assign { name: NameView, op: AssignOp, expr: ExprView },
    Call { name: NameView, args: Seq<ExprView> },
}

/// The mathematical content of an [`Item`].
pub enum ItemView {
    Function {
        name: NameView,
        return_type: NameView,
        parameters: Seq<DeclarationView>,
        statements: Seq<StatementView>,
    },
    Statement(StatementView),
}

/// The mathematical content of a [`Program`].
pub struct ProgramView {
    pub name: Seq<char>,
    pub items: Seq<ItemView>,
}

impl View for Type {
    type V = NameView;

    open spec fn view(&self) -> NameView {
        NameView { pos: self.pos, name: self.name@ }
    }
}

impl View for Ident {
    type V = NameView;

    open spec fn view(&self) -> NameView {
        NameView { pos: self.pos, name: self.name@ }
    }
}

/// The views of the expressions of `exprs`, in order.
pub open spec fn expr_views(exprs: Seq<Expr>) -> Seq<ExprView>
    decreases exprs,
{
    if exprs.len() == 0 {
        Seq::empty()
    } else {
        expr_views(exprs.drop_last()).push(expr_view(exprs.last()))
    }
}

/// The view of the expression `expr`.
pub open spec fn expr_view(expr: Expr) -> ExprView
    decreases expr,
{
    match expr {
        Expr::Binary { left, op, right } => ExprView::Binary {
            left: Box::new(expr_view(*left)),
            op,
            right: Box::new(expr_view(*right)),
        },
        Expr::Unary { op, right } => ExprView::Unary { op, right: Box::new(expr_view(*right)) },
        Expr::Call { name, args } => ExprView::Call { name: name@, args: expr_views(args@) },
        Expr::Var { name } => ExprView::Var { name: name@ },
        Expr::Int { pos, value } => ExprView::Int { pos, value },
    }
}

impl View for Expr {
    type V = ExprView;

    open spec fn view(&self) -> ExprView {
        expr_view(*self)
    }
}

impl View for Declaration {
    type V = DeclarationView;

    open spec fn view(&self) -> DeclarationView {
        DeclarationView {
            type_: self.type_@,
            name: self.name@,
            init: match self.init {
                Some(expr) => Some(expr@),
                None => None,
            },
        }
    }
}

/// The views of the declarations of `decls`, in order.
pub open spec fn declaration_views(decls: Seq<Declaration>) -> Seq<DeclarationView> {
    Seq::new(decls.len(), |i: int| decls[i]@)
}

/// The views of the statements of `stmts`, in order.
pub open spec fn statement_views(stmts: Seq<Statement>) -> Seq<StatementView>
    decreases stmts,
{
    if stmts.len() == 0 {
        Seq::empty()
    } else {
        statement_views(stmts.drop_last()).push(statement_view(stmts.last()))
    }
}

/// The view of the statement `stmt`.
pub open spec fn statement_view(stmt: Statement) -> StatementView
    decreases stmt,
{
    match stmt {
        Statement::Declaration(decl) => StatementView::Declaration(decl@),
        Statement::Block(stmts) => StatementView::Block(statement_views(stmts@)),
        Statement::If { pos, condition, then_statement, else_statement } => StatementView::If {
            pos,
            condition: condition@,
            then_statement: Box::new(statement_view(*then_statement)),
            else_statement: match else_statement {
                Some(stmt) => Some(Box::new(statement_view(*stmt))),
                None => None,
            },
        },
        Statement::While { pos, condition, statement } => StatementView::While {
            pos,
            condition: condition@,
            statement: Box::new(statement_view(*statement)),
        },
        Statement::Repeat { pos, expr, statement } => StatementView::Repeat {
            pos,
            expr: expr@,
            statement: Box::new(statement_view(*statement)),
        },
        Statement::Return { pos, expr } => StatementView::Return { pos, expr: expr@ },
        Statement::Inline { pos, code } => StatementView::Inline { pos, code: code@ },
        Statement::Assign { name, op, expr } => StatementView::Assign { name: name@, op, expr: expr@ },
        Statement::Call { name, args } => StatementView::Call { name: name@, args: expr_views(args@) },
    }
}

impl View for Statement {
    type V = StatementView;

    open spec fn view(&self) -> StatementView {
        statement_view(*self)
    }
}

impl View for Item {
    type V = ItemView;

    open spec fn view(&self) -> ItemView {
        match self {
            Item::Function { name, return_type, parameters, statements } => ItemView::Function {
                name: name@,
                return_type: return_type@,
                parameters: declaration_views(parameters@),
                statements: statement_views(statements@),
            },
            Item::Statement(stmt) => ItemView::Statement(stmt@),
        }
    }
}

/// The views of the items of `items`, in order.
pub open spec fn item_views(items: Seq<Item>) -> Seq<ItemView> {
    Seq::new(items.len(), |i: int| items[i]@)
}

impl View for Program {
    type V = ProgramView;

    open spec fn view(&self) -> ProgramView {
        ProgramView { name: self.name@, items: item_views(self.items@) }
    }
}

/// The views of expressions are the views of each of them.
pub proof fn lemma_expr_views(exprs: Seq<Expr>)
    ensures
        expr_views(exprs).len() == exprs.len(),
        forall|i: int| 0 <= i < exprs.len() ==> expr_views(exprs)[i] == #[trigger] exprs[i]@,
    decreases exprs.len(),
{
    if exprs.len() > 0 {
        let front = exprs.drop_last();
        lemma_expr_views(front);
        assert forall|i: int| 0 <= i < exprs.len() implies expr_views(exprs)[i]
            == #[trigger] exprs[i]@ by {
            if i < front.len() {
                assert(front[i] == exprs[i]);
                assert(expr_views(front)[i] == front[i]@);
            }
        }
    }
}

/// The views of statements are the views of each of them.
pub proof fn lemma_statement_views(stmts: Seq<Statement>)
    ensures
        statement_views(stmts).len() == stmts.len(),
        forall|i: int| 0 <= i < stmts.len() ==> statement_views(stmts)[i] == #[trigger] stmts[i]@,
    decreases stmts.len(),
{
    if stmts.len() > 0 {
        let front = stmts.drop_last();
        lemma_statement_views(front);
        assert forall|i: int| 0 <= i < stmts.len() implies statement_views(stmts)[i]
            == #[trigger] stmts[i]@ by {
            if i < front.len() {
                assert(front[i] == stmts[i]);
                assert(statement_views(front)[i] == front[i]@);
            }
        }
    }
}

} // verus!
