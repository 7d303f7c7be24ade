//! An S-expression based representation for expressions.

use vstd::prelude::*;
use vstd::string::*;
use crate::ast::{expr_views, BinaryOpKind, Expr, ExprView, UnaryOpKind};
use crate::util::{decimal, push_decimal};

verus! {

broadcast use vstd::std_specs::vec::group_vec_axioms;

#[derive(Debug)]
pub enum Sexp {
    Atom(String),
    List(String, Vec<Sexp>),
}

/// The mathematical content of a [`Sexp`].
pub enum SexpView {
    Atom(Seq<char>),
    List(Seq<char>, Seq<SexpView>),
}

/// The views of the S-expressions of `items`, in order.
pub open spec fn sexp_views(items: Seq<Sexp>) -> Seq<SexpView>
    decreases items,
{
    if items.len() == 0 {
        Seq::empty()
    } else {
        sexp_views(items.drop_last()).push(sexp_view(items.last()))
    }
}

/// The view of the S-expression `sexp`.
pub open spec fn sexp_view(sexp: Sexp) -> SexpView
    decreases sexp,
{
    match sexp {
        Sexp::Atom(text) => SexpView::Atom(text@),
        Sexp::List(head, items) => SexpView::List(head@, sexp_views(items@)),
    }
}

impl View for Sexp {
    type V = SexpView;

    open spec fn view(&self) -> SexpView {
        sexp_view(*self)
    }
}

impl BinaryOpKind {
    /// The operator as it is written in a program.
    pub open spec fn symbol(self) -> Seq<char> {
        match self {
            BinaryOpKind::Plus => "+"@,
            BinaryOpKind::Minus => "-"@,
            BinaryOpKind::Star => "*"@,
            BinaryOpKind::Slash => "/"@,
            BinaryOpKind::Percent => "%"@,
            BinaryOpKind::EqEq => "=="@,
            BinaryOpKind::NotEq => "!="@,
            BinaryOpKind::Greater => ">"@,
            BinaryOpKind::GreaterEq => ">="@,
            BinaryOpKind::Less => "<"@,
            BinaryOpKind::LessEq => "<="@,
            BinaryOpKind::And => "and"@,
            BinaryOpKind::Or => "or"@,
        }
    }

    /// Writes the operator as it is written in a program.
    pub fn to_string(&self) -> (s: String)
        ensures
            s@ == self.symbol(),
    {
        String::from_str(
            match self {
                BinaryOpKind::Plus => "+",
                BinaryOpKind::Minus => "-",
                BinaryOpKind::Star => "*",
                BinaryOpKind::Slash => "/",
                BinaryOpKind::Percent => "%",
                BinaryOpKind::EqEq => "==",
                BinaryOpKind::NotEq => "!=",
                BinaryOpKind::Greater => ">",
                BinaryOpKind::GreaterEq => ">=",
                BinaryOpKind::Less => "<",
                BinaryOpKind::LessEq => "<=",
                BinaryOpKind::And => "and",
                BinaryOpKind::Or => "or",
            },
        )
    }
}

impl UnaryOpKind {
    /// The operator as it is written in a program.
    pub open spec fn symbol(self) -> Seq<char> {
        match self {
            UnaryOpKind::Plus => "+"@,
            UnaryOpKind::Minus => "-"@,
            UnaryOpKind::Not => "not"@,
        }
    }

    /// Writes the operator as it is written in a program.
    pub fn to_string(&self) -> (s: String)
        ensures
            s@ == self.symbol(),
    {
        String::from_str(
            match self {
                UnaryOpKind::Plus => "+",
                UnaryOpKind::Minus => "-",
                UnaryOpKind::Not => "not",
            },
        )
    }
}

/// The S-expressions of the expressions of `exprs`, in order.
pub open spec fn sexps_of(exprs: Seq<ExprView>) -> Seq<SexpView>
    decreases exprs,
{
    if exprs.len() == 0 {
        Seq::empty()
    } else {
        sexps_of(exprs.drop_last()).push(sexp_of(exprs.last()))
    }
}

/// The S-expression of an expression: an operator or a call is a list that
/// starts with the operator or the function's name, a variable is its name,
/// and a number is its decimal notation.
pub open spec fn sexp_of(expr: ExprView) -> SexpView
    decreases expr,
{
    match expr {
        ExprView::Binary { left, op, right } => SexpView::List(
            op.kind.symbol(),
            seq![sexp_of(*left), sexp_of(*right)],
        ),
        ExprView::Unary { op, right } => SexpView::List(op.kind.symbol(), seq![sexp_of(*right)]),
        ExprView::Call { name, args } => SexpView::List(name.name, sexps_of(args)),
        ExprView::Var { name } => SexpView::Atom(name.name),
        ExprView::Int { pos, value } => SexpView::Atom(decimal(value as nat)),
    }
}

impl SexpView {
    /// The text of the S-expression: an atom as it is, a list in parentheses
    /// with a space before each item.
    pub open spec fn text(self) -> Seq<char>
        decreases self,
    {
        match self {
            SexpView::Atom(text) => text,
            SexpView::List(head, items) => seq!['('] + head + items_text(items) + seq![')'],
        }
    }
}

/// The texts of `items`, each after a space.
pub open spec fn items_text(items: Seq<SexpView>) -> Seq<char>
    decreases items,
{
    if items.len() == 0 {
        Seq::empty()
    } else {
        items_text(items.drop_last()) + seq![' '] + items.last().text()
    }
}

fn sexp_of_expr(expr: &Expr) -> (sexp: Sexp)
    ensures
        sexp@ == sexp_of(expr@),
    decreases expr,
{
    match expr {
        Expr::Binary { left, op, right } => {
            let mut items: Vec<Sexp> = Vec::new();
            items.push(sexp_of_expr(left));
            items.push(sexp_of_expr(right));
            proof {
                reveal_with_fuel(sexp_views, 3);
                assert(items@.drop_last().drop_last() =~= Seq::<Sexp>::empty());
                assert(sexp_views(items@) =~= seq![sexp_of(left@), sexp_of(right@)]);
            }
            Sexp::List(op.kind.to_string(), items)
        },
        Expr::Unary { op, right } => {
            let mut items: Vec<Sexp> = Vec::new();
            items.push(sexp_of_expr(right));
            proof {
                reveal_with_fuel(sexp_views, 2);
                assert(items@.drop_last() =~= Seq::<Sexp>::empty());
                assert(sexp_views(items@) =~= seq![sexp_of(right@)]);
            }
            Sexp::List(op.kind.to_string(), items)
        },
        Expr::Call { name, args } => {
            let mut items: Vec<Sexp> = Vec::new();
            let mut i: usize = 0;
            while i < args.len()
                invariant
                    i <= args.len(),
                    sexp_views(items@) == sexps_of(expr_views(args@.take(i as int))),
                    forall|k: int| 0 <= k < args.len() ==> decreases_to!(expr => args[k]),
                decreases args.len() - i,
            {
                let item = sexp_of_expr(&args[i]);
                proof {
                    let next = args@.take(i + 1);
                    assert(next.drop_last() =~= args@.take(i as int));
                    assert(expr_views(next).drop_last() =~= expr_views(args@.take(i as int)));
                    assert(items@.push(item).drop_last() =~= items@);
                }
                items.push(item);
                i = i + 1;
            }
            proof {
                assert(args@.take(i as int) =~= args@);
            }
            Sexp::List(name.name.clone(), items)
        },
        Expr::Var { name } => Sexp::Atom(name.name.clone()),
        Expr::Int { pos, value } => {
            let mut text = String::new();
            push_decimal(&mut text, *value as usize);
            proof {
                assert(text@ =~= decimal(*value as nat));
            }
            Sexp::Atom(text)
        },
    }
}

impl Sexp {
    /// The S-expression of `expr`.
    pub fn from_expr(expr: Expr) -> (sexp: Self)
        ensures
            sexp@ == sexp_of(expr@),
    {
        sexp_of_expr(&expr)
    }

    /// Appends the text of the S-expression to `out`.
    fn write(&self, out: &mut String)
        ensures
            final(out)@ == old(out)@ + self@.text(),
        decreases self,
    {
        match self {
            Sexp::Atom(text) => {
                out.append(text.as_str());
            },
            Sexp::List(head, items) => {
                out.push('(');
                out.append(head.as_str());
                let mut i: usize = 0;
                while i < items.len()
                    invariant
                        i <= items.len(),
                        out@ == old(out)@ + seq!['('] + head@ + items_text(
                            sexp_views(items@.take(i as int)),
                        ),
                        forall|k: int| 0 <= k < items.len() ==> decreases_to!(self => items[k]),
                    decreases items.len() - i,
                {
                    out.push(' ');
                    items[i].write(out);
                    proof {
                        let next = items@.take(i + 1);
                        assert(next.drop_last() =~= items@.take(i as int));
                        assert(sexp_views(next).drop_last() =~= sexp_views(items@.take(i as int)));
                        assert(out@ =~= old(out)@ + seq!['('] + head@ + items_text(
                            sexp_views(next),
                        ));
                    }
                    i = i + 1;
                }
                out.push(')');
                proof {
                    assert(items@.take(i as int) =~= items@);
                    assert(out@ =~= old(out)@ + self@.text());
                }
            },
        }
    }

    /// The text of the S-expression.
    pub fn to_string(&self) -> (s: String)
        ensures
            s@ == self@.text(),
    {
        let mut out = String::new();
        self.write(&mut out);
        proof {
            assert(out@ =~= self@.text());
        }
        out
    }
}

} // verus!
