//! The code generation.
//!
//! It assumes that the cells of the brainfuck implementation are unsigned.

pub mod assignments;
pub mod balance;
pub mod balance_kept;
pub mod calls;
pub mod compound;
pub mod counting;
pub mod discipline;
pub mod division;
pub mod effects;
pub mod expressions;
pub mod frames;
pub mod operators;
pub mod optimizations;
pub mod rules;
pub mod safety;
pub mod soundness;
pub mod statements;
pub mod templates;

use vstd::prelude::*;
use vstd::string::*;
use crate::ast::shape::{
    args_size, expr_size, in_block, item_shaped, item_size, items_size, nestable, shaped,
    stmt_size, stmts_size,
};
use crate::ast::{
    declaration_views, expr_views, item_views, lemma_expr_views, lemma_statement_views,
    statement_views, AssignOpKind, BinaryOpKind, Declaration, Expr, Ident, Item, ItemView,
    Statement, StatementView, Type, UnaryOpKind,
};
use crate::code_gen::optimizations::optimize_code;
use crate::brainfuck::tree::repeat;
use crate::code_gen::rules::{
    function_find, gen_args, gen_block, gen_body, gen_call, gen_declaration, gen_expr,
    gen_function, gen_items, gen_nested, gen_params, gen_statement, lookup_var, scope_find,
    Compiled, Env, FunctionView, Scope, Table,
};
use crate::util::{compiler_error, push_decimal, CompilerError, CompilerResult, ErrorView};

verus! {

broadcast use vstd::std_specs::vec::group_vec_axioms;

/// A compiled function.
#[derive(Debug)]
pub struct Function {
    pub void: bool,
    pub arity: usize,
    pub code: String,
}

impl View for Function {
    type V = FunctionView;

    open spec fn view(&self) -> FunctionView {
        FunctionView { void: self.void, arity: self.arity as nat, code: self.code@ }
    }
}

/// A compiled program. Its functions stand in the order of their
/// definitions, each under its name, and no name occurs twice in a program
/// that the generator has made from functions of distinct names.
#[derive(Debug)]
pub struct Program {
    pub name: String,
    pub functions: Vec<(String, Function)>,
    pub code: String,
}

/// The mathematical content of a table of functions.
pub open spec fn table_view(functions: Seq<(String, Function)>) -> Table {
    Seq::new(functions.len(), |i: int| (functions[i].0@, functions[i].1@))
}

/// The mathematical content of a scope.
pub open spec fn scope_view(scope: Seq<(String, usize)>) -> Scope {
    Seq::new(scope.len(), |i: int| (scope[i].0@, scope[i].1 as nat))
}

/// The mathematical content of a stack of scopes.
pub open spec fn scopes_view(scopes: Seq<Vec<(String, usize)>>) -> Seq<Scope> {
    Seq::new(scopes.len(), |i: int| scope_view(scopes[i]@))
}

/// Whether the variables of `scopes` fit below the head at `stack_ptr`: each
/// has a cell of its own, and those declared later lie between it and the
/// head.
pub open spec fn fits(scopes: Seq<Scope>, stack_ptr: nat) -> bool
    decreases scopes.len(),
{
    scopes.len() == 0 || {
        let last = scopes.last();
        &&& last.len() <= stack_ptr
        &&& forall|j: int| 0 <= j < last.len() ==> (#[trigger] last[j]).1 + last.len() - j <= stack_ptr
        &&& fits(scopes.drop_last(), (stack_ptr - last.len()) as nat)
    }
}

pub proof fn lemma_fits_higher(scopes: Seq<Scope>, stack_ptr: nat, higher: nat)
    requires
        fits(scopes, stack_ptr),
        stack_ptr <= higher,
    ensures
        fits(scopes, higher),
    decreases scopes.len(),
{
    if scopes.len() > 0 {
        let last = scopes.last();
        lemma_fits_higher(
            scopes.drop_last(),
            (stack_ptr - last.len()) as nat,
            (higher - last.len()) as nat,
        );
    }
}

proof fn lemma_scope_find_is_entry(scope: Scope, name: Seq<char>, i: int)
    requires
        0 <= i,
        scope_find(scope, name, i) is Some,
    ensures
        exists|j: int| i <= j < scope.len() && (#[trigger] scope[j]).1 == scope_find(scope, name, i)->Some_0,
    decreases scope.len() - i,
{
    if scope[i].0 == name {
        assert(scope[i].1 == scope_find(scope, name, i)->Some_0);
    } else {
        lemma_scope_find_is_entry(scope, name, i + 1);
    }
}

/// A variable that is found lies below the head.
pub proof fn lemma_lookup_below(scopes: Seq<Scope>, stack_ptr: nat, name: Seq<char>)
    requires
        fits(scopes, stack_ptr),
        lookup_var(scopes, name) is Some,
    ensures
        lookup_var(scopes, name)->Some_0 < stack_ptr,
    decreases scopes.len(),
{
    let last = scopes.last();
    if scope_find(last, name, 0) is Some {
        lemma_scope_find_is_entry(last, name, 0);
    } else {
        lemma_lookup_below(scopes.drop_last(), (stack_ptr - last.len()) as nat, name);
    }
}

/// A string of `n` times the character `c`.
fn repeated(c: char, n: usize) -> (s: String)
    ensures
        s@ == repeat(c, n as nat),
{
    let mut s = String::new();
    let mut i: usize = 0;
    while i < n
        invariant
            i <= n,
            s@ == repeat(c, i as nat),
        decreases n - i,
    {
        s.push(c);
        proof {
            assert(s@ =~= repeat(c, (i + 1) as nat));
        }
        i = i + 1;
    }
    s
}

/// The message `prefix`, `name`, `suffix`.
fn message(prefix: &str, name: &String, suffix: &str) -> (m: String)
    ensures
        m@ == prefix@ + name@ + suffix@,
{
    let mut m = String::from_str(prefix);
    m.append(name.as_str());
    m.append(suffix);
    m
}

/// The cell of `name` in `scope`.
fn find_in_scope(scope: &Vec<(String, usize)>, name: &String) -> (r: Option<usize>)
    ensures
        match r {
            Some(addr) => scope_find(scope_view(scope@), name@, 0) == Some(addr as nat),
            None => scope_find(scope_view(scope@), name@, 0) is None,
        },
{
    let mut i: usize = 0;
    while i < scope.len()
        invariant
            i <= scope.len(),
            scope_find(scope_view(scope@), name@, i as int) == scope_find(
                scope_view(scope@),
                name@,
                0,
            ),
        decreases scope.len() - i,
    {
        if scope[i].0 == *name {
            return Some(scope[i].1);
        }
        i = i + 1;
    }
    None
}

/// The function `name` of `functions`, by its index.
fn find_function(functions: &Vec<(String, Function)>, name: &String) -> (r: Option<usize>)
    ensures
        match r {
            Some(index) => index < functions.len() && function_find(
                table_view(functions@),
                name@,
                0,
            ) == Some(functions[index as int].1@),
            None => function_find(table_view(functions@), name@, 0) is None,
        },
{
    let mut i: usize = 0;
    while i < functions.len()
        invariant
            i <= functions.len(),
            function_find(table_view(functions@), name@, i as int) == function_find(
                table_view(functions@),
                name@,
                0,
            ),
        decreases functions.len() - i,
    {
        if functions[i].0 == *name {
            return Some(i);
        }
        i = i + 1;
    }
    None
}

/// The code of the binary operator `kind`.
fn binary_code(kind: BinaryOpKind) -> (code: &'static str)
    ensures
        code@ == rules::binary_template(kind),
{
    match kind {
        BinaryOpKind::Plus => "[-<+>]",
        BinaryOpKind::Minus => "[-<->]",
        BinaryOpKind::Star => ">[-]>[-]<<<[->>+<<]>[->[->+<<<+>>]>[-<+>]<<]>[-]<",
        BinaryOpKind::Slash =>
            ">[-]+>[-]>[-]>[-]<<<<<[->-[>+>>]>[[-<+>]+>+>>]<<<<<]>>>[-<<<+>>>]<<[-]>[-]<",
        BinaryOpKind::Percent => ">[-]+>[-]>[-]>[-]<<<<<[->-[>+>>]>[[-<+>]+> >>]<<<<<]>>-[-<<+>>]<[-]",
        BinaryOpKind::EqEq => "<[->-<]+>[<->[-]]",
        BinaryOpKind::NotEq => "<[->-<]>[<+>[-]]",
        BinaryOpKind::Greater =>
            ">[-]>[-]<<[-<[->>+>+<<<]>>[-<<+>>]>[<<<->>>[-]]<<]<[>+<[-]]>[-<+>]",
        BinaryOpKind::GreaterEq => ">[-]>[-]<<<[->[->+>+<<]>[-<+>]>[<<->>[-]]<<<]+>[<->[-]]",
        BinaryOpKind::Less => ">[-]>[-]<<<[->[->+>+<<]>[-<+>]>[<<->>[-]]<<<]>[<+>[-]]",
        BinaryOpKind::LessEq =>
            ">[-]>[-]<<[-<[->>+>+<<<]>>[-<<+>>]>[<<<->>>[-]]<<]<[>+<[-]]+>[-<->]",
        BinaryOpKind::And => ">[-]<[<[>>+<<[-]]>[-]]<[-]>>[-<<+>>]<",
        BinaryOpKind::Or => ">[-]<[>+<[-]]<[>>[-]+<<[-]]>>[-<<+>>]<",
    }
}

/// The code that copies the variable `rel` cells left of the head into the
/// cell of the head.
fn read_var_code(rel: usize) -> (code: String)
    ensures
        code@ == rules::read_var(rel as nat),
{
    let l = repeated('<', rel);
    let r = repeated('>', rel);
    let mut code = String::from_str("[-]>[-]<");
    code.append(l.as_str());
    code.append("[-");
    code.append(r.as_str());
    code.append("+>+<");
    code.append(l.as_str());
    code.append("]");
    code.append(r.as_str());
    code.append(">[-<");
    code.append(l.as_str());
    code.append("+");
    code.append(r.as_str());
    code.append(">]<");
    code
}

/// The state of the code generator.
pub struct CodeGen {
    pub variables: Vec<Vec<(String, usize)>>,
    pub functions: Vec<(String, Function)>,
    pub stack_ptr: usize,
    pub code: String,
    pub current_function: Option<String>,
}

impl CodeGen {
    /// What the generator knows at this point.
    pub open spec fn env(&self) -> Env {
        Env {
            scopes: scopes_view(self.variables@),
            functions: table_view(self.functions@),
            stack_ptr: self.stack_ptr as nat,
            current: match self.current_function {
                Some(name) => Some(name@),
                None => None,
            },
        }
    }

    /// The invariant of the generator: there is a scope, no scope has two
    /// variables of one name, and the variables fit below the head.
    pub open spec fn wf(&self) -> bool {
        &&& self.variables.len() > 0
        &&& rules::scopes_distinct(scopes_view(self.variables@))
        &&& fits(scopes_view(self.variables@), self.stack_ptr as nat)
    }

    /// The generator has emitted `code` and is otherwise as `before`.
    pub open spec fn emitted(&self, before: &CodeGen, code: Seq<char>) -> bool {
        &&& self.env() == before.env()
        &&& self.code@ == before.code@ + code
        &&& self.wf()
    }

    pub fn new() -> (r: Self)
        ensures
            r.wf(),
            r.env() == rules::initial(Seq::empty()),
            r.code@ == Seq::<char>::empty(),
    {
        let r = CodeGen {
            variables: Self::new_var_map(),
            functions: Vec::new(),
            stack_ptr: 0,
            code: String::new(),
            current_function: None,
        };
        proof {
            assert(scope_view(r.variables@[0]@) =~= Seq::empty());
            assert(scopes_view(r.variables@) =~= seq![Seq::empty()]);
            assert(table_view(r.functions@) =~= Seq::empty());
            let scopes = scopes_view(r.variables@);
            assert(scopes.drop_last() =~= Seq::empty());
            assert(scopes.last().len() == 0);
            assert(fits(scopes.drop_last(), 0));
            assert(fits(scopes, 0));
        }
        r
    }

    // variables
    fn new_var_map() -> (r: Vec<Vec<(String, usize)>>)
        ensures
            r@.len() == 1,
            r@[0]@.len() == 0,
    {
        let mut r: Vec<Vec<(String, usize)>> = Vec::new();
        r.push(Vec::new());
        r
    }

    pub fn declared(&self, var: &String) -> (r: bool)
        requires
            self.variables.len() > 0,
        ensures
            r == self.env().declared(var@),
    {
        find_in_scope(&self.variables[self.variables.len() - 1], var).is_some()
    }

    fn define_var(&mut self, name: String)
        requires
            old(self).wf(),
            old(self).stack_ptr < usize::MAX,
            !old(self).env().declared(name@),
        ensures
            final(self).wf(),
            final(self).env() == old(self).env().define(name@),
            final(self).code@ == old(self).code@ + ">"@,
    {
        let ghost before = scopes_view(self.variables@);
        let mut scope = match self.variables.pop() {
            Some(scope) => scope,
            None => Vec::new(),
        };
        let ghost rest = scopes_view(self.variables@);
        let ghost last = scope_view(scope@);
        scope.push((name, self.stack_ptr));
        self.variables.push(scope);
        self.stack_ptr = self.stack_ptr + 1;
        self.code.append(">");
        proof {
            let after = scopes_view(self.variables@);
            let added = last.push((name@, old(self).stack_ptr as nat));
            assert(rest =~= before.drop_last());
            assert(last == before.last());
            assert(after.last() =~= added);
            assert(after =~= before.update(before.len() - 1, added));
            assert(after.drop_last() =~= before.drop_last());
            rules::lemma_scope_distinct_push(last, name@, old(self).stack_ptr as nat);
            assert forall|k: int| 0 <= k < after.len() implies rules::scope_distinct(
                #[trigger] after[k],
            ) by {
                if k < after.len() - 1 {
                    assert(after[k] == before[k]);
                }
            }
        }
    }

    pub fn lookup_var(&self, name: &String) -> (r: Option<usize>)
        requires
            self.wf(),
        ensures
            match r {
                Some(addr) => lookup_var(self.env().scopes, name@) == Some(addr as nat) && addr
                    < self.stack_ptr,
                None => lookup_var(self.env().scopes, name@) is None,
            },
    {
        let ghost scopes = scopes_view(self.variables@);
        let mut k: usize = self.variables.len();
        proof {
            assert(scopes.take(k as int) =~= scopes);
        }
        while k > 0
            invariant
                self.wf(),
                k <= self.variables.len(),
                scopes == scopes_view(self.variables@),
                lookup_var(scopes.take(k as int), name@) == lookup_var(scopes, name@),
            decreases k,
        {
            proof {
                assert(scopes.take(k as int).drop_last() =~= scopes.take(k - 1));
                assert(scopes.take(k as int).last() == scope_view(self.variables@[k - 1]@));
            }
            match find_in_scope(&self.variables[k - 1], name) {
                Some(addr) => {
                    proof {
                        lemma_lookup_below(scopes, self.stack_ptr as nat, name@);
                    }
                    return Some(addr);
                },
                None => {},
            }
            k = k - 1;
        }
        None
    }

    pub fn enter_scope(&mut self)
        requires
            old(self).wf(),
        ensures
            final(self).wf(),
            final(self).env() == old(self).env().enter(),
            final(self).code@ == old(self).code@,
    {
        let ghost before = scopes_view(self.variables@);
        self.variables.push(Vec::new());
        proof {
            let after = scopes_view(self.variables@);
            assert(scope_view(self.variables@.last()@) =~= Seq::empty());
            assert(after =~= before.push(Seq::empty()));
            assert(after.drop_last() =~= before);
        }
    }

    pub fn exit_scope(&mut self)
        requires
            old(self).wf(),
        ensures
            fits(final(self).env().scopes, final(self).stack_ptr as nat),
            rules::scopes_distinct(final(self).env().scopes),
            final(self).variables.len() == old(self).variables.len() - 1,
            final(self).env() == (Env {
                scopes: old(self).env().scopes.drop_last(),
                stack_ptr: (old(self).env().stack_ptr - old(self).env().locals()) as nat,
                ..old(self).env()
            }),
            final(self).code@ == old(self).code@ + rules::left(old(self).env().locals()),
    {
        let ghost before = scopes_view(self.variables@);
        let old_vars = match self.variables.pop() {
            Some(scope) => scope.len(),
            None => 0,
        };
        proof {
            assert(scopes_view(self.variables@) =~= before.drop_last());
            assert(old_vars == before.last().len());
        }
        self.stack_ptr = self.stack_ptr - old_vars;
        let moves = repeated('<', old_vars);
        self.code.append(moves.as_str());
    }

    // generate
    pub fn generate_expr(&mut self, expr: &Expr) -> (r: CompilerResult<()>)
        requires
            old(self).wf(),
            old(self).stack_ptr + expr_size(expr@) <= usize::MAX,
        ensures
            final(self).env().functions == old(self).env().functions,
            r is Err && rules::refused_expr(old(self).env(), expr@) ==> final(self).code@ == old(
                self,
            ).code@ && final(self).env() == old(self).env(),
            match r {
                Ok(_) => gen_expr(old(self).env(), expr@) is Ok && final(self).emitted(
                    old(self),
                    gen_expr(old(self).env(), expr@)->Ok_0,
                ),
                Err(error) => gen_expr(old(self).env(), expr@) == Err::<Seq<char>, ErrorView>(
                    error@,
                ),
            },
        decreases expr, 0int,
    {
        match expr {
            Expr::Binary { left, op, right } => {
                match self.generate_expr(left) {
                    Ok(_) => {},
                    Err(error) => {
                        return Err(error);
                    },
                }
                self.code.append(">");
                self.stack_ptr = self.stack_ptr + 1;
                proof {
                    lemma_fits_higher(
                        scopes_view(self.variables@),
                        old(self).stack_ptr as nat,
                        self.stack_ptr as nat,
                    );
                }
                match self.generate_expr(right) {
                    Ok(_) => {},
                    Err(error) => {
                        return Err(error);
                    },
                }
                self.stack_ptr = self.stack_ptr - 1;
                self.code.append(binary_code(op.kind));
                self.code.append("<");
                proof {
                    let l = gen_expr(old(self).env(), left@)->Ok_0;
                    let r = gen_expr(old(self).env().bump(1), right@)->Ok_0;
                    assert(self.code@ =~= old(self).code@ + (l + ">"@ + r + rules::binary_template(
                        op.kind,
                    ) + "<"@));
                }
                Ok(())
            },
            Expr::Unary { op, right } => {
                match op.kind {
                    UnaryOpKind::Plus => self.generate_expr(right),
                    UnaryOpKind::Minus => {
                        // "[-]>{right}[-<->]<"
                        self.code.append("[-]>");
                        self.stack_ptr = self.stack_ptr + 1;
                        proof {
                            lemma_fits_higher(
                                scopes_view(self.variables@),
                                old(self).stack_ptr as nat,
                                self.stack_ptr as nat,
                            );
                        }
                        match self.generate_expr(right) {
                            Ok(_) => {},
                            Err(error) => {
                                return Err(error);
                            },
                        }
                        self.stack_ptr = self.stack_ptr - 1;
                        self.code.append("[-<->]<");
                        proof {
                            let r = gen_expr(old(self).env().bump(1), right@)->Ok_0;
                            assert(self.code@ =~= old(self).code@ + ("[-]>"@ + r + "[-<->]<"@));
                        }
                        Ok(())
                    },
                    UnaryOpKind::Not => {
                        // "[-]+>{right}[<->[-]]<"
                        self.code.append("[-]+>");
                        self.stack_ptr = self.stack_ptr + 1;
                        proof {
                            lemma_fits_higher(
                                scopes_view(self.variables@),
                                old(self).stack_ptr as nat,
                                self.stack_ptr as nat,
                            );
                        }
                        match self.generate_expr(right) {
                            Ok(_) => {},
                            Err(error) => {
                                return Err(error);
                            },
                        }
                        self.stack_ptr = self.stack_ptr - 1;
                        self.code.append("[<->[-]]<");
                        proof {
                            let r = gen_expr(old(self).env().bump(1), right@)->Ok_0;
                            assert(self.code@ =~= old(self).code@ + ("[-]+>"@ + r + "[<->[-]]<"@));
                        }
                        Ok(())
                    },
                }
            },
            Expr::Call { name, args } => {
                proof {
                    lemma_expr_views(args@);
                }
                self.generate_call(name, args, true)
            },
            Expr::Var { name } => {
                let rel_addr = match self.lookup_var(&name.name) {
                    Some(addr) => self.stack_ptr - addr,
                    None => {
                        return compiler_error(
                            name.pos,
                            message("undeclared variable `", &name.name, "`"),
                        );
                    },
                };
                let code = read_var_code(rel_addr);
                self.code.append(code.as_str());
                Ok(())
            },
            Expr::Int { pos, value } => {
                let plus = repeated('+', *value as usize);
                self.code.append("[-]");
                self.code.append(plus.as_str());
                proof {
                    assert(self.code@ =~= old(self).code@ + ("[-]"@ + repeat('+', *value as nat)));
                }
                Ok(())
            },
        }
    }

    pub fn generate_call(&mut self, name: &Ident, args: &Vec<Expr>, expr: bool) -> (r: CompilerResult<
        (),
    >)
        requires
            old(self).wf(),
            old(self).stack_ptr + args_size(expr_views(args@), 0) <= usize::MAX,
        ensures
            final(self).env().functions == old(self).env().functions,
            r is Err && rules::call_error(
                old(self).env(),
                name@,
                expr_views(args@).len(),
                expr,
            ) is Some ==> final(self).code@ == old(self).code@ && final(self).env() == old(
                self,
            ).env(),
            match r {
                Ok(_) => gen_call(old(self).env(), name@, expr_views(args@), expr) is Ok
                    && final(self).emitted(
                    old(self),
                    gen_call(old(self).env(), name@, expr_views(args@), expr)->Ok_0,
                ),
                Err(error) => gen_call(old(self).env(), name@, expr_views(args@), expr) == Err::<
                    Seq<char>,
                    ErrorView,
                >(error@),
            },
        decreases args, args.len() + 1,
    {
        match &self.current_function {
            Some(current) => {
                if *current == name.name {
                    return compiler_error(
                        name.pos,
                        message("recursive function `", &name.name, "`"),
                    );
                }
            },
            None => {},
        }
        let index = match find_function(&self.functions, &name.name) {
            Some(index) => index,
            None => {
                return compiler_error(name.pos, message("undefined function `", &name.name, "`"));
            },
        };
        if expr && self.functions[index].1.void {
            return compiler_error(
                name.pos,
                message("function `", &name.name, "` has return type void"),
            );
        }
        let arity = self.functions[index].1.arity;
        if args.len() != arity {
            let mut text = String::from_str("expected ");
            push_decimal(&mut text, args.len());
            text.append(" arguments, got ");
            push_decimal(&mut text, arity);
            proof {
                lemma_expr_views(args@);
            }
            return compiler_error(name.pos, text);
        }
        let code = self.functions[index].1.code.clone();
        let ghost views = expr_views(args@);
        let ghost env = self.env();
        let ghost mut acc: Seq<char> = Seq::empty();
        proof {
            lemma_expr_views(args@);
            assert(self.code@ =~= old(self).code@ + acc);
        }
        let mut i: usize = 0;
        while i < args.len()
            invariant
                i <= args.len(),
                views == expr_views(args@),
                views.len() == args.len(),
                forall|k: int| 0 <= k < args.len() ==> views[k] == #[trigger] args@[k]@,
                forall|k: int| 0 <= k < args.len() ==> decreases_to!(args => args[k]),
                self.wf(),
                self.env() == env.bump(i as nat),
                env == old(self).env(),
                rules::call_error(env, name@, views.len(), expr) is None,
                function_find(env.functions, name@.name, 0) is Some,
                function_find(env.functions, name@.name, 0)->Some_0.code == code@,
                self.code@ == old(self).code@ + acc,
                self.stack_ptr + args_size(views, i as int) <= usize::MAX,
                gen_args(env, views, i as int, acc) == gen_args(env, views, 0, Seq::empty()),
            decreases args.len() - i,
        {
            let ghost before = self.code@;
            match self.generate_expr(&args[i]) {
                Ok(_) => {},
                Err(error) => {
                    return Err(error);
                },
            }
            self.code.append(">");
            self.stack_ptr = self.stack_ptr + 1;
            proof {
                let arg = gen_expr(env.bump(i as nat), views[i as int])->Ok_0;
                lemma_fits_higher(
                    scopes_view(self.variables@),
                    (self.stack_ptr - 1) as nat,
                    self.stack_ptr as nat,
                );
                assert(self.code@ =~= old(self).code@ + (acc + arg + ">"@));
                acc = acc + arg + ">"@;
            }
            i = i + 1;
        }
        let back = repeated('<', args.len());
        self.code.append(back.as_str());
        self.stack_ptr = self.stack_ptr - args.len();
        self.code.append(code.as_str());
        proof {
            assert(self.code@ =~= old(self).code@ + (acc + rules::left(views.len()) + code@));
        }
        Ok(())
    }

    pub fn generate_declaration(&mut self, decl: &Declaration) -> (r: CompilerResult<()>)
        requires
            old(self).wf(),
            old(self).stack_ptr + stmt_size(StatementView::Declaration(decl@)) <= usize::MAX,
        ensures
            r is Err && rules::refused(
                old(self).env(),
                StatementView::Declaration(decl@),
            ) ==> final(self).code@ == old(self).code@ && final(self).env() == old(self).env(),
            final(self).env().functions == old(self).env().functions,
            match r {
                Ok(_) => {
                    &&& gen_declaration(old(self).env(), decl@) is Ok
                    &&& final(self).env() == gen_declaration(old(self).env(), decl@)->Ok_0.env
                    &&& final(self).code@ == old(self).code@ + gen_declaration(
                        old(self).env(),
                        decl@,
                    )->Ok_0.code
                    &&& final(self).wf()
                },
                Err(error) => gen_declaration(old(self).env(), decl@) == Err::<
                    rules::Generated,
                    ErrorView,
                >(error@),
            },
    {
        if decl.type_.name == String::from_str("void") {
            return compiler_error(
                decl.type_.pos,
                message("variable `", &decl.name.name, "` has type `void`"),
            );
        } else if self.declared(&decl.name.name) {
            return compiler_error(
                decl.type_.pos,
                message("parameter `", &decl.name.name, "` is declared multiple times"),
            );
        }
        match &decl.init {
            Some(expr) => {
                match self.generate_expr(expr) {
                    Ok(_) => {},
                    Err(error) => {
                        return Err(error);
                    },
                }
            },
            None => {},
        }
        self.define_var(decl.name.name.clone());
        proof {
            match decl@.init {
                Some(init) => {
                    let code = gen_expr(old(self).env(), init)->Ok_0;
                    assert(self.code@ =~= old(self).code@ + (code + ">"@));
                },
                None => {},
            }
        }
        Ok(())
    }

    /// Generates the code of a statement of a block: a declaration, or a
    /// statement as it may follow `if`, `while` or `repeat`.
    pub fn generate_statement(&mut self, stmt: &Statement) -> (r: CompilerResult<()>)
        requires
            old(self).wf(),
            in_block(stmt@),
            old(self).stack_ptr + stmt_size(stmt@) <= usize::MAX,
        ensures
            final(self).env().functions == old(self).env().functions,
            r is Err && rules::refused(old(self).env(), stmt@) ==> final(self).code@ == old(
                self,
            ).code@ && final(self).env() == old(self).env(),
            match r {
                Ok(_) => {
                    &&& gen_statement(old(self).env(), stmt@) is Ok
                    &&& final(self).env() == gen_statement(old(self).env(), stmt@)->Ok_0.env
                    &&& final(self).code@ == old(self).code@ + gen_statement(
                        old(self).env(),
                        stmt@,
                    )->Ok_0.code
                    &&& final(self).wf()
                },
                Err(error) => gen_statement(old(self).env(), stmt@) == Err::<
                    rules::Generated,
                    ErrorView,
                >(error@),
            },
        decreases stmt, 2int,
    {
        match stmt {
            Statement::Declaration(decl) => self.generate_declaration(decl),
            _ => self.generate_nested(stmt),
        }
    }

    /// Generates the code of a block: its statements in a scope of their
    /// own, and the way back over the variables of that scope.
    fn generate_block(&mut self, stmt: &Statement, statements: &Vec<Statement>) -> (r:
        CompilerResult<()>)
        requires
            old(self).wf(),
            nestable(stmt@),
            stmt@ == StatementView::Block(statement_views(statements@)),
            forall|k: int| 0 <= k < statements.len() ==> decreases_to!(stmt => statements[k]),
            old(self).stack_ptr + stmt_size(stmt@) <= usize::MAX,
        ensures
            final(self).env().functions == old(self).env().functions,
            match r {
                Ok(_) => gen_nested(old(self).env(), stmt@) is Ok && final(self).emitted(
                    old(self),
                    gen_nested(old(self).env(), stmt@)->Ok_0,
                ),
                Err(error) => gen_nested(old(self).env(), stmt@) == Err::<Seq<char>, ErrorView>(
                    error@,
                ),
            },
        decreases stmt, 0int,
    {
        self.enter_scope();
        let ghost views = statement_views(statements@);
        let ghost inner = self.env();
        let ghost mut acc: Seq<char> = Seq::empty();
        proof {
            lemma_statement_views(statements@);
            assert(self.code@ =~= old(self).code@ + acc);
            assert(inner.scopes.drop_last() =~= old(self).env().scopes);
            assert forall|k: int| 0 <= k < views.len() implies in_block(#[trigger] views[k]) by {}
        }
        let mut i: usize = 0;
        while i < statements.len()
            invariant
                i <= statements.len(),
                stmt@ == StatementView::Block(views),
                views == statement_views(statements@),
                views.len() == statements.len(),
                forall|k: int| 0 <= k < statements.len() ==> views[k] == #[trigger] statements@[k]@,
                forall|k: int| 0 <= k < statements.len() ==> decreases_to!(stmt => statements[k]),
                forall|k: int| 0 <= k < views.len() ==> in_block(#[trigger] views[k]),
                self.wf(),
                inner == old(self).env().enter(),
                self.env().scopes.len() == inner.scopes.len(),
                self.env().scopes.drop_last() == old(self).env().scopes,
                self.env().functions == inner.functions,
                self.env().current == inner.current,
                self.stack_ptr == old(self).stack_ptr + self.env().locals(),
                self.code@ == old(self).code@ + acc,
                self.stack_ptr + stmts_size(views, i as int) <= usize::MAX,
                gen_block(self.env(), views, i as int, acc) == gen_block(
                    inner,
                    views,
                    0,
                    Seq::empty(),
                ),
            decreases statements.len() - i,
        {
            let ghost env = self.env();
            proof {
                assert(in_block(views[i as int]));
                assert(stmts_size(views, i as int) == stmt_size(views[i as int]) + stmts_size(
                    views,
                    i + 1,
                ));
                assert(stmt_size(views[i as int]) >= 1);
            }
            match self.generate_statement(&statements[i]) {
                Ok(_) => {},
                Err(error) => {
                    return Err(error);
                },
            }
            proof {
                let generated = gen_statement(env, views[i as int])->Ok_0;
                if views[i as int] is Declaration {
                    assert(generated.env == env.define(views[i as int]->Declaration_0.name.name));
                } else {
                    assert(generated.env == env);
                }
                assert(self.env().scopes.drop_last() =~= env.scopes.drop_last());
                assert(self.code@ =~= old(self).code@ + (acc + generated.code));
                acc = acc + generated.code;
            }
            i = i + 1;
        }
        self.exit_scope();
        proof {
            let block = gen_block(inner, views, 0, Seq::empty())->Ok_0;
            assert(self.code@ =~= old(self).code@ + (block.code + rules::left(block.env.locals())));
        }
        Ok(())
    }

    /// Generates the code of an `if` with an `else`: exactly one of the two
    /// statements runs.
    fn generate_if_else(
        &mut self,
        stmt: &Statement,
        condition: &Expr,
        then_statement: &Statement,
        else_statement: &Statement,
    ) -> (r: CompilerResult<()>)
        requires
            old(self).wf(),
            nestable(stmt@),
            stmt@ matches StatementView::If { pos, condition: c, then_statement: t, else_statement: e }
                && c == condition@ && *t == then_statement@ && e == Some(
                Box::new(else_statement@),
            ),
            decreases_to!(stmt => then_statement),
            decreases_to!(stmt => else_statement),
            old(self).stack_ptr + stmt_size(stmt@) <= usize::MAX,
        ensures
            final(self).env().functions == old(self).env().functions,
            match r {
                Ok(_) => gen_nested(old(self).env(), stmt@) is Ok && final(self).emitted(
                    old(self),
                    gen_nested(old(self).env(), stmt@)->Ok_0,
                ),
                Err(error) => gen_nested(old(self).env(), stmt@) == Err::<Seq<char>, ErrorView>(
                    error@,
                ),
            },
        decreases stmt, 0int,
    {
        // "[-]+>{condition}[{statement}<->[-]]<[{else_statement}[-]]"
        self.code.append("[-]+>");
        self.stack_ptr = self.stack_ptr + 1;
        proof {
            lemma_fits_higher(
                scopes_view(self.variables@),
                old(self).stack_ptr as nat,
                self.stack_ptr as nat,
            );
        }
        match self.generate_expr(condition) {
            Ok(_) => {},
            Err(error) => {
                return Err(error);
            },
        }
        self.code.append("[");
        match self.generate_nested(then_statement) {
            Ok(_) => {},
            Err(error) => {
                return Err(error);
            },
        }
        self.stack_ptr = self.stack_ptr - 1;
        self.code.append("<->[-]]<[");
        match self.generate_nested(else_statement) {
            Ok(_) => {},
            Err(error) => {
                return Err(error);
            },
        }
        self.code.append("[-]]");
        proof {
            let env = old(self).env();
            let cond = gen_expr(env.bump(1), condition@)->Ok_0;
            let then = gen_nested(env.bump(1), then_statement@)->Ok_0;
            let other = gen_nested(env, else_statement@)->Ok_0;
            assert(self.code@ =~= old(self).code@ + ("[-]+>"@ + cond + "["@ + then + "<->[-]]<["@
                + other + "[-]]"@));
        }
        Ok(())
    }

    /// Generates the code of an `if` without `else`, of a `while` or of a
    /// `repeat`, each of which has an expression and one statement.
    fn generate_loop(&mut self, stmt: &Statement, expr: &Expr, statement: &Statement) -> (r:
        CompilerResult<()>)
        requires
            old(self).wf(),
            nestable(stmt@),
            match stmt@ {
                StatementView::If { pos, condition, then_statement, else_statement } => condition
                    == expr@ && *then_statement == statement@ && else_statement is None,
                StatementView::While { pos, condition, statement: body } => condition == expr@
                    && *body == statement@,
                StatementView::Repeat { pos, expr: count, statement: body } => count == expr@
                    && *body == statement@,
                _ => false,
            },
            decreases_to!(stmt => statement),
            old(self).stack_ptr + stmt_size(stmt@) <= usize::MAX,
        ensures
            final(self).env().functions == old(self).env().functions,
            match r {
                Ok(_) => gen_nested(old(self).env(), stmt@) is Ok && final(self).emitted(
                    old(self),
                    gen_nested(old(self).env(), stmt@)->Ok_0,
                ),
                Err(error) => gen_nested(old(self).env(), stmt@) == Err::<Seq<char>, ErrorView>(
                    error@,
                ),
            },
        decreases stmt, 0int,
    {
        match stmt {
            Statement::If { .. } => {
                // "{condition}[{statement}[-]]"
                match self.generate_expr(expr) {
                    Ok(_) => {},
                    Err(error) => {
                        return Err(error);
                    },
                }
                self.code.append("[");
                match self.generate_nested(statement) {
                    Ok(_) => {},
                    Err(error) => {
                        return Err(error);
                    },
                }
                self.code.append("[-]]");
                proof {
                    let env = old(self).env();
                    let cond = gen_expr(env, expr@)->Ok_0;
                    let then = gen_nested(env, statement@)->Ok_0;
                    assert(self.code@ =~= old(self).code@ + (cond + "["@ + then + "[-]]"@));
                }
                Ok(())
            },
            Statement::While { .. } => {
                // "{condition}[{statement}{condition}]"
                let mut cond = String::new();
                core::mem::swap(&mut self.code, &mut cond);  // temporarily replace self.code
                match self.generate_expr(expr) {
                    Ok(_) => {},
                    Err(error) => {
                        return Err(error);
                    },
                }
                core::mem::swap(&mut self.code, &mut cond);
                self.code.append(cond.as_str());
                self.code.append("[");
                match self.generate_nested(statement) {
                    Ok(_) => {},
                    Err(error) => {
                        return Err(error);
                    },
                }
                self.code.append(cond.as_str());
                self.code.append("]");
                proof {
                    let env = old(self).env();
                    let c = gen_expr(env, expr@)->Ok_0;
                    let body = gen_nested(env, statement@)->Ok_0;
                    assert(cond@ =~= c);
                    assert(self.code@ =~= old(self).code@ + (c + "["@ + body + c + "]"@));
                }
                Ok(())
            },
            _ => {
                // "{expr}[>{statement}<-]"
                match self.generate_expr(expr) {
                    Ok(_) => {},
                    Err(error) => {
                        return Err(error);
                    },
                }
                self.code.append("[>");
                self.stack_ptr = self.stack_ptr + 1;
                proof {
                    lemma_fits_higher(
                        scopes_view(self.variables@),
                        old(self).stack_ptr as nat,
                        self.stack_ptr as nat,
                    );
                }
                match self.generate_nested(statement) {
                    Ok(_) => {},
                    Err(error) => {
                        return Err(error);
                    },
                }
                self.stack_ptr = self.stack_ptr - 1;
                self.code.append("<-]");
                proof {
                    let env = old(self).env();
                    let count = gen_expr(env, expr@)->Ok_0;
                    let body = gen_nested(env.bump(1), statement@)->Ok_0;
                    assert(self.code@ =~= old(self).code@ + (count + "[>"@ + body + "<-]"@));
                }
                Ok(())
            },
        }
    }

    /// Generates the code of an assignment: the value, and its fold into the
    /// variable.
    pub fn generate_assign(&mut self, name: &Ident, kind: AssignOpKind, expr: &Expr) -> (r:
        CompilerResult<()>)
        requires
            old(self).wf(),
            old(self).stack_ptr + expr_size(expr@) <= usize::MAX,
        ensures
            r is Err && lookup_var(old(self).env().scopes, name@.name) is None
                ==> final(self).code@ == old(self).code@ && final(self).env() == old(self).env(),
            final(self).env().functions == old(self).env().functions,
            match r {
                Ok(_) => lookup_var(old(self).env().scopes, name@.name) is Some && gen_expr(
                    old(self).env(),
                    expr@,
                ) is Ok && final(self).emitted(
                    old(self),
                    gen_expr(old(self).env(), expr@)->Ok_0 + rules::assign_template(
                        kind,
                        (old(self).env().stack_ptr - lookup_var(
                            old(self).env().scopes,
                            name@.name,
                        )->Some_0) as nat,
                    ),
                ),
                Err(error) => match lookup_var(old(self).env().scopes, name@.name) {
                    None => error@ == rules::undeclared(name@),
                    Some(_) => gen_expr(old(self).env(), expr@) == Err::<Seq<char>, ErrorView>(
                        error@,
                    ),
                },
            },
    {
        let rel_addr = match self.lookup_var(&name.name) {
            Some(addr) => self.stack_ptr - addr,
            None => {
                return compiler_error(name.pos, message("undeclared variable `", &name.name, "`"));
            },
        };
        match self.generate_expr(expr) {
            Ok(_) => {},
            Err(error) => {
                return Err(error);
            },
        }
        let code = assign_code(kind, rel_addr);
        self.code.append(code.as_str());
        proof {
            let value = gen_expr(old(self).env(), expr@)->Ok_0;
            assert(self.code@ =~= old(self).code@ + (value + rules::assign_template(
                kind,
                rel_addr as nat,
            )));
        }
        Ok(())
    }

    /// Generates the code of a statement other than a declaration.
    pub fn generate_nested(&mut self, stmt: &Statement) -> (r: CompilerResult<()>)
        requires
            old(self).wf(),
            nestable(stmt@),
            old(self).stack_ptr + stmt_size(stmt@) <= usize::MAX,
        ensures
            final(self).env().functions == old(self).env().functions,
            r is Err && rules::refused(old(self).env(), stmt@) ==> final(self).code@ == old(
                self,
            ).code@ && final(self).env() == old(self).env(),
            match r {
                Ok(_) => gen_nested(old(self).env(), stmt@) is Ok && final(self).emitted(
                    old(self),
                    gen_nested(old(self).env(), stmt@)->Ok_0,
                ),
                Err(error) => gen_nested(old(self).env(), stmt@) == Err::<Seq<char>, ErrorView>(
                    error@,
                ),
            },
        decreases stmt, 1int,
    {
        match stmt {
            Statement::Declaration(decl) => {
                proof {
                    assert(false);
                }
                Ok(())
            },
            Statement::Block(statements) => self.generate_block(stmt, statements),
            Statement::If { pos, condition, then_statement, else_statement } => {
                match else_statement {
                    Some(else_statement) => self.generate_if_else(
                        stmt,
                        condition,
                        then_statement,
                        else_statement,
                    ),
                    None => self.generate_loop(stmt, condition, then_statement),
                }
            },
            Statement::While { pos, condition, statement } => self.generate_loop(
                stmt,
                condition,
                statement,
            ),
            Statement::Repeat { pos, expr, statement } => self.generate_loop(stmt, expr, statement),
            Statement::Return { pos, expr } => compiler_error(
                *pos,
                String::from_str("invalid `return` statement"),
            ),
            Statement::Inline { pos, code } => {
                let text = inline_code(code);
                self.code.append(text.as_str());
                Ok(())
            },
            Statement::Assign { name, op, expr } => self.generate_assign(name, op.kind, expr),
            Statement::Call { name, args } => {
                proof {
                    lemma_expr_views(args@);
                }
                self.generate_call(name, args, false)
            },
        }
    }

    /// Ends the compilation of the function `name`, whose body has been
    /// generated: leaves the scope of the function, stores its code under its
    /// name, and restores the variables and the code of the caller.
    fn finish_function(
        &mut self,
        name: &Ident,
        void: bool,
        arity: usize,
        has_return: bool,
        saved_variables: Vec<Vec<(String, usize)>>,
        saved_code: String,
    ) -> (r: CompilerResult<()>)
        requires
            old(self).wf(),
            old(self).variables.len() == 1,
            saved_variables.len() > 0,
            rules::scopes_distinct(scopes_view(saved_variables@)),
            fits(
                scopes_view(saved_variables@),
                (old(self).stack_ptr - old(self).env().locals()) as nat,
            ),
        ensures
            r is Err ==> final(self).env().functions == old(self).env().functions,
            match r {
                Ok(_) => {
                    &&& has_return || void
                    &&& final(self).wf()
                    &&& final(self).code@ == saved_code@
                    &&& final(self).env() == (Env {
                        scopes: scopes_view(saved_variables@),
                        functions: old(self).env().functions.push(
                            (
                                name@.name,
                                FunctionView {
                                    void,
                                    arity: arity as nat,
                                    code: old(self).code@ + rules::left(old(self).env().locals()),
                                },
                            ),
                        ),
                        stack_ptr: (old(self).stack_ptr - old(self).env().locals()) as nat,
                        current: None,
                    })
                },
                Err(error) => !(has_return || void) && error@ == rules::error_at(
                    name@,
                    "function `"@ + name@.name + "` has no `return` statement"@,
                ),
            },
    {
        self.current_function = None;
        if !(has_return || void) {
            return compiler_error(
                name.pos,
                message("function `", &name.name, "` has no `return` statement"),
            );
        }
        self.exit_scope();
        let mut code = saved_code;
        core::mem::swap(&mut self.code, &mut code);
        self.variables = saved_variables;
        let ghost before = table_view(self.functions@);
        self.functions.push((name.name.clone(), Function { void, arity, code }));
        proof {
            assert(table_view(self.functions@) =~= before.push(
                (
                    name@.name,
                    FunctionView {
                        void,
                        arity: arity as nat,
                        code: old(self).code@ + rules::left(old(self).env().locals()),
                    },
                ),
            ));
        }
        Ok(())
    }

    /// Declares the parameters of a function in the scope of the function,
    /// which is empty.
    fn generate_parameters(&mut self, parameters: &Vec<Declaration>) -> (r: CompilerResult<()>)
        requires
            old(self).wf(),
            old(self).variables.len() == 1,
            old(self).env().locals() == 0,
            old(self).code@ == Seq::<char>::empty(),
            old(self).stack_ptr + parameters.len() <= usize::MAX,
        ensures
            final(self).env().functions == old(self).env().functions,
            match r {
                Ok(_) => {
                    &&& gen_params(
                        declaration_views(parameters@),
                        0,
                        Seq::empty(),
                        old(self).stack_ptr as nat,
                    ) is Ok
                    &&& final(self).wf()
                    &&& final(self).variables.len() == 1
                    &&& final(self).code@ == rules::right(parameters.len() as nat)
                    &&& final(self).env() == (Env {
                        scopes: seq![
                            gen_params(
                                declaration_views(parameters@),
                                0,
                                Seq::empty(),
                                old(self).stack_ptr as nat,
                            )->Ok_0,
                        ],
                        stack_ptr: (old(self).env().stack_ptr + parameters.len()) as nat,
                        ..old(self).env()
                    })
                    &&& final(self).env().locals() == parameters.len()
                },
                Err(error) => gen_params(
                    declaration_views(parameters@),
                    0,
                    Seq::empty(),
                    old(self).stack_ptr as nat,
                ) == Err::<Scope, ErrorView>(error@),
            },
    {
        let ghost base = self.stack_ptr as nat;
        let ghost params = declaration_views(parameters@);
        proof {
            assert(self.code@ =~= rules::right(0));
            assert(self.env().scopes[0] =~= Seq::empty());
        }
        let mut i: usize = 0;
        while i < parameters.len()
            invariant
                i <= parameters.len(),
                params == declaration_views(parameters@),
                self.wf(),
                self.variables.len() == 1,
                self.stack_ptr == base + i,
                base == old(self).stack_ptr,
                base + parameters.len() <= usize::MAX,
                self.env().locals() == i,
                self.code@ == rules::right(i as nat),
                self.env().functions == old(self).env().functions,
                self.env().current == old(self).env().current,
                gen_params(params, i as int, self.env().scopes[0], base) == gen_params(
                    params,
                    0,
                    Seq::empty(),
                    base,
                ),
            decreases parameters.len() - i,
        {
            let param = &parameters[i];
            if param.type_.name == String::from_str("void") {
                return compiler_error(
                    param.type_.pos,
                    message("parameter `", &param.name.name, "` has type `void`"),
                );
            } else if self.declared(&param.name.name) {
                return compiler_error(
                    param.type_.pos,
                    message("parameter `", &param.name.name, "` is declared multiple times"),
                );
            }
            self.define_var(param.name.name.clone());
            proof {
                reveal_strlit(">");
                assert(self.code@ =~= rules::right((i + 1) as nat));
            }
            i = i + 1;
        }
        proof {
            assert(self.env().scopes =~= seq![gen_params(params, 0, Seq::empty(), base)->Ok_0]);
        }
        Ok(())
    }

    /// The code that moves the value under the head into the first cell of
    /// the frame.
    fn return_code(locals: usize) -> (code: String)
        ensures
            code@ == rules::return_move(locals as nat),
    {
        if locals > 0 {
            let left = repeated('<', locals);
            let right = repeated('>', locals);
            let mut code = repeated('<', locals);
            code.append("[-]");
            code.append(right.as_str());
            code.append("[-");
            code.append(left.as_str());
            code.append("+");
            code.append(right.as_str());
            code.append("]");
            code
        } else {
            String::new()
        }
    }

    /// Generates the code of one statement at the top of a function body.
    /// Returns whether it was a `return`.
    fn generate_body_statement(&mut self, stmt: &Statement, void: bool) -> (r: CompilerResult<
        bool,
    >)
        requires
            old(self).wf(),
            old(self).variables.len() == 1,
            in_block(stmt@),
            old(self).stack_ptr + stmt_size(stmt@) <= usize::MAX,
        ensures
            r is Err && (stmt@ is Return ==> void) && rules::refused(old(self).env(), stmt@)
                ==> final(self).code@ == old(self).code@ && final(self).env() == old(self).env(),
            final(self).env().functions == old(self).env().functions,
            match r {
                Ok(returned) => {
                    &&& rules::gen_body_step(old(self).env(), stmt@, void) is Ok
                    &&& (rules::Body {
                        code: rules::gen_body_step(old(self).env(), stmt@, void)->Ok_0.code,
                        env: final(self).env(),
                        returned,
                    }) == rules::gen_body_step(old(self).env(), stmt@, void)->Ok_0
                    &&& final(self).code@ == old(self).code@ + rules::gen_body_step(
                        old(self).env(),
                        stmt@,
                        void,
                    )->Ok_0.code
                    &&& final(self).wf()
                    &&& final(self).variables.len() == 1
                    &&& final(self).stack_ptr - final(self).env().locals() == old(self).stack_ptr
                        - old(self).env().locals()
                    &&& final(self).stack_ptr <= old(self).stack_ptr + 1
                    &&& final(self).env().functions == old(self).env().functions
                    &&& final(self).env().current == old(self).env().current
                },
                Err(error) => rules::gen_body_step(old(self).env(), stmt@, void) == Err::<
                    rules::Body,
                    ErrorView,
                >(error@),
            },
    {
        let ghost env = self.env();
        match stmt {
            Statement::Return { pos, expr } => {
                if void {
                    return compiler_error(
                        *pos,
                        String::from_str(
                            "unexpected `return` statement in function returning `void`",
                        ),
                    );
                }
                match self.generate_expr(expr) {
                    Ok(_) => {},
                    Err(error) => {
                        return Err(error);
                    },
                }
                // move return value
                let moves = Self::return_code(self.variables[0].len());
                self.code.append(moves.as_str());
                proof {
                    let value = gen_expr(env, expr@)->Ok_0;
                    assert(self.code@ =~= old(self).code@ + (value + rules::return_move(
                        env.locals(),
                    )));
                }
                Ok(true)
            },
            stmt => {
                match self.generate_statement(stmt) {
                    Ok(_) => {},
                    Err(error) => {
                        return Err(error);
                    },
                }
                proof {
                    let generated = gen_statement(env, stmt@)->Ok_0;
                    if stmt@ is Declaration {
                        assert(generated.env == env.define(stmt@->Declaration_0.name.name));
                    } else {
                        assert(generated.env == env);
                    }
                }
                Ok(false)
            },
        }
    }

    /// Generates the code of the statements of a function body, up to and
    /// with the first `return` at its top. Returns whether there was one.
    fn generate_body(&mut self, statements: &Vec<Statement>, void: bool) -> (r: CompilerResult<
        bool,
    >)
        requires
            old(self).wf(),
            old(self).variables.len() == 1,
            forall|k: int|
                0 <= k < statements.len() ==> in_block(#[trigger] statement_views(statements@)[k]),
            old(self).stack_ptr + stmts_size(statement_views(statements@), 0) <= usize::MAX,
        ensures
            final(self).env().functions == old(self).env().functions,
            match r {
                Ok(returned) => {
                    &&& gen_body(
                        old(self).env(),
                        statement_views(statements@),
                        0,
                        old(self).code@,
                        void,
                    ) is Ok
                    &&& (rules::Body { code: final(self).code@, env: final(self).env(), returned })
                        == gen_body(
                        old(self).env(),
                        statement_views(statements@),
                        0,
                        old(self).code@,
                        void,
                    )->Ok_0
                    &&& final(self).wf()
                    &&& final(self).variables.len() == 1
                    &&& final(self).stack_ptr - final(self).env().locals() == old(self).stack_ptr
                        - old(self).env().locals()
                    &&& final(self).env().functions == old(self).env().functions
                },
                Err(error) => gen_body(
                    old(self).env(),
                    statement_views(statements@),
                    0,
                    old(self).code@,
                    void,
                ) == Err::<rules::Body, ErrorView>(error@),
            },
    {
        let ghost views = statement_views(statements@);
        proof {
            lemma_statement_views(statements@);
        }
        let mut k: usize = 0;
        while k < statements.len()
            invariant
                k <= statements.len(),
                views == statement_views(statements@),
                views.len() == statements.len(),
                forall|j: int| 0 <= j < statements.len() ==> views[j] == #[trigger] statements@[j]@,
                forall|j: int| 0 <= j < views.len() ==> in_block(#[trigger] views[j]),
                self.wf(),
                self.variables.len() == 1,
                self.stack_ptr - self.env().locals() == old(self).stack_ptr - old(
                    self,
                ).env().locals(),
                self.env().functions == old(self).env().functions,
                self.stack_ptr + stmts_size(views, k as int) <= usize::MAX,
                gen_body(self.env(), views, k as int, self.code@, void) == gen_body(
                    old(self).env(),
                    views,
                    0,
                    old(self).code@,
                    void,
                ),
            decreases statements.len() - k,
        {
            proof {
                assert(in_block(views[k as int]));
                assert(stmts_size(views, k as int) == stmt_size(views[k as int]) + stmts_size(
                    views,
                    k + 1,
                ));
            }
            match self.generate_body_statement(&statements[k], void) {
                Ok(returned) => {
                    if returned {
                        return Ok(true);
                    }
                },
                Err(error) => {
                    return Err(error);
                },
            }
            k = k + 1;
        }
        Ok(false)
    }

    /// Compiles a function definition and stores the function under its name.
    pub fn generate_function(
        &mut self,
        name: &Ident,
        return_type: &Type,
        parameters: &Vec<Declaration>,
        statements: &Vec<Statement>,
    ) -> (r: CompilerResult<()>)
        requires
            old(self).wf(),
            old(self).current_function is None,
            forall|k: int|
                0 <= k < statements.len() ==> in_block(#[trigger] statement_views(statements@)[k]),
            old(self).stack_ptr + parameters.len() + stmts_size(statement_views(statements@), 0)
                <= usize::MAX,
        ensures
            r is Err && function_find(old(self).env().functions, name@.name, 0) is Some
                ==> final(self).code@ == old(self).code@ && final(self).env() == old(self).env(),
            r is Err ==> final(self).env().functions == old(self).env().functions,
            match r {
                Ok(_) => {
                    &&& gen_function(
                        old(self).env(),
                        name@,
                        return_type@,
                        declaration_views(parameters@),
                        statement_views(statements@),
                    ) is Ok
                    &&& final(self).wf()
                    &&& final(self).code@ == old(self).code@
                    &&& final(self).env() == (Env {
                        functions: old(self).env().functions.push(
                            (
                                name@.name,
                                gen_function(
                                    old(self).env(),
                                    name@,
                                    return_type@,
                                    declaration_views(parameters@),
                                    statement_views(statements@),
                                )->Ok_0,
                            ),
                        ),
                        ..old(self).env()
                    })
                },
                Err(error) => gen_function(
                    old(self).env(),
                    name@,
                    return_type@,
                    declaration_views(parameters@),
                    statement_views(statements@),
                ) == Err::<FunctionView, ErrorView>(error@),
            },
    {
        if find_function(&self.functions, &name.name).is_some() {
            return compiler_error(
                name.pos,
                message("function `", &name.name, "` is defined multiple times"),
            );
        }
        let mut old_variables = Self::new_var_map();
        core::mem::swap(&mut self.variables, &mut old_variables);
        let mut old_code = String::new();
        core::mem::swap(&mut self.code, &mut old_code);
        proof {
            let scopes = scopes_view(self.variables@);
            assert(scope_view(self.variables@[0]@) =~= Seq::empty());
            assert(scopes =~= seq![Seq::empty()]);
            assert(scopes.drop_last() =~= Seq::empty());
            assert(fits(scopes.drop_last(), self.stack_ptr as nat));
            assert(fits(scopes, self.stack_ptr as nat));
        }

        // check parameters
        let arity = parameters.len();
        match self.generate_parameters(parameters) {
            Ok(_) => {},
            Err(error) => {
                return Err(error);
            },
        }

        // generate body
        self.current_function = Some(name.name.clone());
        let void = return_type.name == String::from_str("void");
        let has_return = match self.generate_body(statements, void) {
            Ok(has_return) => has_return,
            Err(error) => {
                return Err(error);
            },
        };
        self.finish_function(name, void, arity, has_return, old_variables, old_code)
    }

    /// Compiles an item: a function definition or a statement of the top
    /// level.
    pub fn generate_item(&mut self, item: &Item) -> (r: CompilerResult<()>)
        requires
            old(self).wf(),
            old(self).current_function is None,
            item_shaped(item@),
            old(self).stack_ptr + item_size(item@) <= usize::MAX,
        ensures
            r is Err ==> final(self).env().functions == old(self).env().functions,
            match r {
                Ok(_) => {
                    &&& rules::gen_item(old(self).env(), item@) is Ok
                    &&& final(self).env() == rules::gen_item(old(self).env(), item@)->Ok_0.env
                    &&& final(self).code@ == old(self).code@ + rules::gen_item(
                        old(self).env(),
                        item@,
                    )->Ok_0.code
                    &&& final(self).wf()
                    &&& final(self).current_function is None
                    &&& final(self).stack_ptr <= old(self).stack_ptr + item_size(item@)
                },
                Err(error) => rules::gen_item(old(self).env(), item@) == Err::<
                    rules::Generated,
                    ErrorView,
                >(error@),
            },
    {
        let ghost env = self.env();
        reveal(rules::gen_item);
        match item {
            Item::Function { name, return_type, parameters, statements } => {
                proof {
                    lemma_statement_views(statements@);
                    assert(declaration_views(parameters@).len() == parameters.len());
                }
                match self.generate_function(name, return_type, parameters, statements) {
                    Ok(_) => {
                        proof {
                            assert(self.code@ =~= old(self).code@ + Seq::<char>::empty());
                        }
                        Ok(())
                    },
                    Err(error) => Err(error),
                }
            },
            Item::Statement(stmt) => {
                match self.generate_statement(stmt) {
                    Ok(_) => {
                        proof {
                            let generated = gen_statement(env, stmt@)->Ok_0;
                            assert(stmt_size(stmt@) >= 1);
                            if stmt@ is Declaration {
                                assert(generated.env == env.define(
                                    stmt@->Declaration_0.name.name,
                                ));
                            } else {
                                assert(generated.env == env);
                            }
                        }
                        Ok(())
                    },
                    Err(error) => Err(error),
                }
            },
        }
    }
}

/// The functions that a compilation starts with: those of `std`, if there
/// is one.
pub open spec fn std_table(std: Option<Program>) -> Table {
    match std {
        Some(program) => table_view(program.functions@),
        None => Seq::empty(),
    }
}

/// The functions and the code of `program`.
pub open spec fn compiled_view(program: Program) -> Compiled {
    Compiled { functions: table_view(program.functions@), code: program.code@ }
}

/// Whether the code of `program` and of each of its functions is balanced:
/// the brackets match, and outside of its loops the code moves the head as
/// often to the left as to the right, wherever it stands.
pub open spec fn balanced(program: Program) -> bool {
    &&& balance::neutral(program.code@, 0)
    &&& balance::table_passes(table_view(program.functions@))
}

/// Whether the code of `program` and of each of its functions keeps the
/// tape discipline: wherever a run of it ends, the head stands where it
/// stood, and the cells left of it are as they were.
pub open spec fn disciplined(program: Program) -> bool {
    &&& discipline::proper(program.code@)
    &&& discipline::table_proper(table_view(program.functions@))
}

/// The functions of `functions`, the code of each optimized.
fn optimize_functions(functions: &Vec<(String, Function)>) -> (r: Vec<(String, Function)>)
    ensures
        table_view(r@) == rules::optimized_table(table_view(functions@)),
{
    let mut r: Vec<(String, Function)> = Vec::new();
    let mut i: usize = 0;
    while i < functions.len()
        invariant
            i <= functions.len(),
            r.len() == i,
            forall|k: int|
                0 <= k < i ==> (#[trigger] r@[k]).0@ == functions@[k].0@ && r@[k].1@ == (
                FunctionView {
                    code: optimizations::optimized(functions@[k].1.code@),
                    ..functions@[k].1@
                }),
        decreases functions.len() - i,
    {
        let mut code = functions[i].1.code.clone();
        optimize_code(&mut code);
        r.push(
            (
                functions[i].0.clone(),
                Function { void: functions[i].1.void, arity: functions[i].1.arity, code },
            ),
        );
        i = i + 1;
    }
    proof {
        assert(table_view(r@) =~= rules::optimized_table(table_view(functions@)));
    }
    r
}

/// Generates a [`Program`] from an [`ast::Program`], while doing semantic
/// analysis. The functions of `std` can be called in the program. At its end
/// the program leaves its scope: the head moves back over the variables of
/// the top level. With `optimize`, the code of every function and of the
/// top level is optimized.
pub fn generate_code(ast: crate::ast::Program, std: Option<Program>, optimize: bool) -> (r:
    CompilerResult<Program>)
    requires
        ast@.well_formed(),
    ensures
        match r {
            Ok(program) => {
                &&& rules::compile(ast@.items, std_table(std)) is Ok
                &&& rules::distinct(std_table(std)) ==> rules::distinct(
                    table_view(program.functions@),
                )
                &&& program.name@ == ast@.name
                &&& balance::inlines_pass(ast@.items) && balance::table_passes(std_table(std))
                    ==> balanced(program)
                &&& balance::inlines_pass(ast@.items) && balance::table_passes(std_table(std))
                    && frames::items_within(ast@.items, 0, 0) && discipline::table_proper(
                    std_table(std),
                ) ==> disciplined(program)
                &&& compiled_view(program) == if optimize {
                    rules::optimized_program(rules::compile(ast@.items, std_table(std))->Ok_0)
                } else {
                    rules::compile(ast@.items, std_table(std))->Ok_0
                }
            },
            Err(error) => rules::compile(ast@.items, std_table(std)) == Err::<Compiled, ErrorView>(
                error@,
            ),
        },
{
    let mut code_gen = CodeGen::new();
    match std {
        Some(std_program) => {
            code_gen.functions = std_program.functions;
        },
        None => {
            proof {
                assert(table_view(code_gen.functions@) =~= Seq::empty());
            }
        },
    }
    let ghost views = item_views(ast.items@);
    let ghost first = code_gen.env();
    let mut i: usize = 0;
    while i < ast.items.len()
        invariant
            i <= ast.items.len(),
            views == item_views(ast.items@),
            views == ast@.items,
            first == rules::initial(std_table(std)),
            shaped(views),
            code_gen.wf(),
            code_gen.current_function is None,
            code_gen.stack_ptr + items_size(views, i as int) <= usize::MAX,
            gen_items(code_gen.env(), views, i as int, code_gen.code@) == gen_items(
                first,
                views,
                0,
                Seq::empty(),
            ),
        decreases ast.items.len() - i,
    {
        proof {
            assert(item_shaped(views[i as int]));
            assert(views[i as int] == ast.items@[i as int]@);
        }
        match code_gen.generate_item(&ast.items[i]) {
            Ok(_) => {},
            Err(error) => {
                return Err(error);
            },
        }
        i = i + 1;
    }
    code_gen.exit_scope();
    let CodeGen { variables, functions, stack_ptr, code, current_function } = code_gen;
    proof {
        if rules::distinct(std_table(std)) {
            rules::lemma_items_distinct(first, views, 0, Seq::empty());
            rules::lemma_optimized_distinct(table_view(functions@));
        }
    }
    let program = if optimize {
        let functions = optimize_functions(&functions);
        let mut code = code;
        optimize_code(&mut code);
        Program { name: ast.name, functions, code }
    } else {
        Program { name: ast.name, functions, code }
    };
    proof {
        assert(compiled_view(program) == frames::yielded(ast@.items, std_table(std), optimize));
        if balance::inlines_pass(ast@.items) && balance::table_passes(std_table(std)) {
            frames::lemma_yielded_passes(ast@.items, std_table(std), optimize);
            if frames::items_within(ast@.items, 0, 0) && discipline::table_proper(
                std_table(std),
            ) {
                frames::lemma_yielded_proper(ast@.items, std_table(std), optimize);
            }
        }
    }
    Ok(program)
}

/// The bytes of inline code as a string, each byte as the character with
/// its code.
fn inline_code(code: &Vec<u8>) -> (text: String)
    ensures
        text@ == rules::bytes_chars(code@),
{
    let mut text = String::new();
    let mut i: usize = 0;
    while i < code.len()
        invariant
            i <= code.len(),
            text@ == rules::bytes_chars(code@.take(i as int)),
        decreases code.len() - i,
    {
        text.push(code[i] as char);
        proof {
            assert(text@ =~= rules::bytes_chars(code@.take(i + 1)));
        }
        i = i + 1;
    }
    proof {
        assert(code@.take(i as int) =~= code@);
    }
    text
}

/// The code that folds the value under the head into the variable `rel`
/// cells left of it.
fn assign_code(kind: AssignOpKind, rel: usize) -> (code: String)
    ensures
        code@ == rules::assign_template(kind, rel as nat),
{
    let l = repeated('<', rel);
    let r = repeated('>', rel);
    match kind {
        AssignOpKind::Eq => {
            let mut code = repeated('<', rel);
            code.append("[-]");
            code.append(r.as_str());
            code.append("[-");
            code.append(l.as_str());
            code.append("+");
            code.append(r.as_str());
            code.append("]");
            code
        },
        AssignOpKind::PlusEq => {
            let mut code = String::from_str("[-");
            code.append(l.as_str());
            code.append("+");
            code.append(r.as_str());
            code.append("]");
            code
        },
        AssignOpKind::MinusEq => {
            let mut code = String::from_str("[-");
            code.append(l.as_str());
            code.append("-");
            code.append(r.as_str());
            code.append("]");
            code
        },
        AssignOpKind::StarEq => {
            let mut code = String::from_str(">[-]>[-]<<");
            code.append(l.as_str());
            code.append("[-");
            code.append(r.as_str());
            code.append(">+<");
            code.append(l.as_str());
            code.append("]");
            code.append(r.as_str());
            code.append("[->[->+<<");
            code.append(l.as_str());
            code.append("+");
            code.append(r.as_str());
            code.append(">]>[-<+>]<<]>[-]<");
            code
        },
        AssignOpKind::SlashEq => {
            let mut code = String::from_str(">[-]+>[-]>[-]>[-]<<<<");
            code.append(l.as_str());
            code.append("[-");
            code.append(r.as_str());
            code.append("-[>+>>]>[[-<+>]+>+>>]<<<<");
            code.append(l.as_str());
            code.append("]");
            code.append(r.as_str());
            code.append(">>[-<<");
            code.append(l.as_str());
            code.append("+");
            code.append(r.as_str());
            code.append(">>]<<[-]>[-]<");
            code
        },
        AssignOpKind::PercentEq => {
            let mut code = String::from_str(">[-]+>[-]>[-]>[-]<<<<");
            code.append(l.as_str());
            code.append("[-");
            code.append(r.as_str());
            code.append("-[>+>>]>[[-<+>]+> >>]<<<<");
            code.append(l.as_str());
            code.append("]");
            code.append(r.as_str());
            code.append(">-[-<");
            code.append(l.as_str());
            code.append("+");
            code.append(r.as_str());
            code.append(">]<[-]");
            code
        },
    }
}

} // verus!
