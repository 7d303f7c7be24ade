//! What the code generator emits, as functions on the views of syntax trees.
//!
//! The generator keeps a model of the tape: `stack_ptr` is the cell at which
//! the head stands between statements, and every variable has a cell of its
//! own below it. The code of an expression leaves its value in the cell at
//! `stack_ptr` and the head on that cell.

use vstd::prelude::*;
use crate::ast::{
    AssignOpKind, BinaryOpKind, DeclarationView, ExprView, ItemView, NameView, StatementView,
    UnaryOpKind,
};
use crate::brainfuck::tree::repeat;
use crate::code_gen::optimizations::optimized;
use crate::util::{decimal, ErrorView};

verus! {

/// The mathematical content of a compiled function.
pub struct FunctionView {
    pub void: bool,
    pub arity: nat,
    pub code: Seq<char>,
}

/// A scope: the variables declared in it with their cells, in the order of
/// their declarations.
pub type Scope = Seq<(Seq<char>, nat)>;

/// The functions compiled so far, by name, in the order of their definitions.
pub type Table = Seq<(Seq<char>, FunctionView)>;

/// What the generator knows at a point of the program.
pub struct Env {
    /// The scopes, the innermost last.
    pub scopes: Seq<Scope>,
    /// The functions compiled so far.
    pub functions: Table,
    /// The cell of the head.
    pub stack_ptr: nat,
    /// The function whose body is being compiled.
    pub current: Option<Seq<char>>,
}

/// Code and the environment after it.
pub struct Generated {
    pub code: Seq<char>,
    pub env: Env,
}

/// The code of a function body, the environment after it, and whether it
/// ended in a `return`.
pub struct Body {
    pub code: Seq<char>,
    pub env: Env,
    pub returned: bool,
}

/// What a compilation yields: the functions and the code of the top level.
pub struct Compiled {
    pub functions: Table,
    pub code: Seq<char>,
}

pub open spec fn left(n: nat) -> Seq<char> {
    repeat('<', n)
}

pub open spec fn right(n: nat) -> Seq<char> {
    repeat('>', n)
}

/// The bytes of inline code as characters, each with the code of its byte.
pub open spec fn bytes_chars(code: Seq<u8>) -> Seq<char> {
    Seq::new(code.len(), |i: int| code[i] as char)
}

/// The error `message` at the position of `name`.
pub open spec fn error_at(name: NameView, message: Seq<char>) -> ErrorView {
    ErrorView { pos: name.pos, message }
}

/// The cell of `name` in `scope`, from the entry `i` on.
pub open spec fn scope_find(scope: Scope, name: Seq<char>, i: int) -> Option<nat>
    decreases scope.len() - i,
{
    if !(0 <= i < scope.len()) {
        None
    } else if scope[i].0 == name {
        Some(scope[i].1)
    } else {
        scope_find(scope, name, i + 1)
    }
}

/// The cell of the variable `name`: that of the innermost scope that
/// declares it.
pub open spec fn lookup_var(scopes: Seq<Scope>, name: Seq<char>) -> Option<nat>
    decreases scopes.len(),
{
    if scopes.len() == 0 {
        None
    } else {
        match scope_find(scopes.last(), name, 0) {
            Some(addr) => Some(addr),
            None => lookup_var(scopes.drop_last(), name),
        }
    }
}

/// The function `name` of `table`, from the entry `i` on.
pub open spec fn function_find(table: Table, name: Seq<char>, i: int) -> Option<FunctionView>
    decreases table.len() - i,
{
    if !(0 <= i < table.len()) {
        None
    } else if table[i].0 == name {
        Some(table[i].1)
    } else {
        function_find(table, name, i + 1)
    }
}

impl Env {
    /// Whether the innermost scope declares `name`.
    pub open spec fn declared(self, name: Seq<char>) -> bool {
        self.scopes.len() > 0 && scope_find(self.scopes.last(), name, 0) is Some
    }

    /// The environment with the head `n` cells further to the right.
    pub open spec fn bump(self, n: nat) -> Env {
        Env { stack_ptr: self.stack_ptr + n, ..self }
    }

    /// The environment inside a new scope.
    pub open spec fn enter(self) -> Env {
        Env { scopes: self.scopes.push(Seq::empty()), ..self }
    }

    /// The environment after the declaration of `name` in the innermost
    /// scope: the variable gets the cell of the head, which moves on.
    pub open spec fn define(self, name: Seq<char>) -> Env {
        Env {
            scopes: self.scopes.update(
                self.scopes.len() - 1,
                self.scopes.last().push((name, self.stack_ptr)),
            ),
            stack_ptr: self.stack_ptr + 1,
            ..self
        }
    }

    /// The number of variables of the innermost scope.
    pub open spec fn locals(self) -> nat {
        if self.scopes.len() > 0 {
            self.scopes.last().len()
        } else {
            0
        }
    }
}

/// The code of a binary operator. It finds the left operand in the cell left
/// of the head and the right operand under the head, and leaves the result in
/// the cell of the left operand, and zero in every cell right of it that it
/// has used.
pub open spec fn binary_template(kind: BinaryOpKind) -> Seq<char> {
    match kind {
        BinaryOpKind::Plus => "[-<+>]"@,
        BinaryOpKind::Minus => "[-<->]"@,
        BinaryOpKind::Star => ">[-]>[-]<<<[->>+<<]>[->[->+<<<+>>]>[-<+>]<<]>[-]<"@,
        BinaryOpKind::Slash =>
            ">[-]+>[-]>[-]>[-]<<<<<[->-[>+>>]>[[-<+>]+>+>>]<<<<<]>>>[-<<<+>>>]<<[-]>[-]<"@,
        BinaryOpKind::Percent =>
            ">[-]+>[-]>[-]>[-]<<<<<[->-[>+>>]>[[-<+>]+> >>]<<<<<]>>-[-<<+>>]<[-]"@,
        BinaryOpKind::EqEq => "<[->-<]+>[<->[-]]"@,
        BinaryOpKind::NotEq => "<[->-<]>[<+>[-]]"@,
        BinaryOpKind::Greater =>
            ">[-]>[-]<<[-<[->>+>+<<<]>>[-<<+>>]>[<<<->>>[-]]<<]<[>+<[-]]>[-<+>]"@,
        BinaryOpKind::GreaterEq => ">[-]>[-]<<<[->[->+>+<<]>[-<+>]>[<<->>[-]]<<<]+>[<->[-]]"@,
        BinaryOpKind::Less => ">[-]>[-]<<<[->[->+>+<<]>[-<+>]>[<<->>[-]]<<<]>[<+>[-]]"@,
        BinaryOpKind::LessEq =>
            ">[-]>[-]<<[-<[->>+>+<<<]>>[-<<+>>]>[<<<->>>[-]]<<]<[>+<[-]]+>[-<->]"@,
        BinaryOpKind::And => ">[-]<[<[>>+<<[-]]>[-]]<[-]>>[-<<+>>]<"@,
        BinaryOpKind::Or => ">[-]<[>+<[-]]<[>>[-]+<<[-]]>>[-<<+>>]<"@,
    }
}

/// The code that copies the variable `rel` cells left of the head into the
/// cell of the head, through the cell right of it.
pub open spec fn read_var(rel: nat) -> Seq<char> {
    "[-]>[-]<"@ + left(rel) + "[-"@ + right(rel) + "+>+<"@ + left(rel) + "]"@ + right(rel)
        + ">[-<"@ + left(rel) + "+"@ + right(rel) + ">]<"@
}

/// The code that folds the value under the head into the variable `rel`
/// cells left of it.
pub open spec fn assign_template(kind: AssignOpKind, rel: nat) -> Seq<char> {
    match kind {
        AssignOpKind::Eq => left(rel) + "[-]"@ + right(rel) + "[-"@ + left(rel) + "+"@ + right(rel)
            + "]"@,
        AssignOpKind::PlusEq => "[-"@ + left(rel) + "+"@ + right(rel) + "]"@,
        AssignOpKind::MinusEq => "[-"@ + left(rel) + "-"@ + right(rel) + "]"@,
        AssignOpKind::StarEq => ">[-]>[-]<<"@ + left(rel) + "[-"@ + right(rel) + ">+<"@ + left(rel)
            + "]"@ + right(rel) + "[->[->+<<"@ + left(rel) + "+"@ + right(rel)
            + ">]>[-<+>]<<]>[-]<"@,
        AssignOpKind::SlashEq => ">[-]+>[-]>[-]>[-]<<<<"@ + left(rel) + "[-"@ + right(rel)
            + "-[>+>>]>[[-<+>]+>+>>]<<<<"@ + left(rel) + "]"@ + right(rel) + ">>[-<<"@ + left(
            rel,
        ) + "+"@ + right(rel) + ">>]<<[-]>[-]<"@,
        AssignOpKind::PercentEq => ">[-]+>[-]>[-]>[-]<<<<"@ + left(rel) + "[-"@ + right(rel)
            + "-[>+>>]>[[-<+>]+> >>]<<<<"@ + left(rel) + "]"@ + right(rel) + ">-[-<"@ + left(rel)
            + "+"@ + right(rel) + ">]<[-]"@,
    }
}

/// The code that moves the value under the head into the first cell of a
/// frame of `locals` variables.
pub open spec fn return_move(locals: nat) -> Seq<char> {
    if locals > 0 {
        left(locals) + "[-]"@ + right(locals) + "[-"@ + left(locals) + "+"@ + right(locals) + "]"@
    } else {
        Seq::empty()
    }
}

pub open spec fn undeclared(name: NameView) -> ErrorView {
    error_at(name, "undeclared variable `"@ + name.name + "`"@)
}

/// The message for a call with `given` arguments of a function of `arity`
/// parameters.
pub open spec fn arity_message(given: nat, arity: nat) -> Seq<char> {
    "expected "@ + decimal(given) + " arguments, got "@ + decimal(arity)
}

/// What stands in the way of a call of `name` with `given` arguments, if
/// anything: the function is the one being compiled, is not defined, has no
/// value where one is needed, or takes another number of arguments.
pub open spec fn call_error(env: Env, name: NameView, given: nat, is_expr: bool) -> Option<
    ErrorView,
> {
    if env.current == Some(name.name) {
        Some(error_at(name, "recursive function `"@ + name.name + "`"@))
    } else {
        match function_find(env.functions, name.name, 0) {
            None => Some(error_at(name, "undefined function `"@ + name.name + "`"@)),
            Some(func) => if is_expr && func.void {
                Some(error_at(name, "function `"@ + name.name + "` has return type void"@))
            } else if given != func.arity {
                Some(error_at(name, arity_message(given, func.arity)))
            } else {
                None
            },
        }
    }
}

/// The code of an expression.
pub open spec fn gen_expr(env: Env, expr: ExprView) -> Result<Seq<char>, ErrorView>
    decreases expr, 0int,
{
    match expr {
        ExprView::Binary { left, op, right } => match gen_expr(env, *left) {
            Err(error) => Err(error),
            Ok(l) => match gen_expr(env.bump(1), *right) {
                Err(error) => Err(error),
                Ok(r) => Ok(l + ">"@ + r + binary_template(op.kind) + "<"@),
            },
        },
        ExprView::Unary { op, right } => match op.kind {
            UnaryOpKind::Plus => gen_expr(env, *right),
            UnaryOpKind::Minus => match gen_expr(env.bump(1), *right) {
                Err(error) => Err(error),
                Ok(r) => Ok("[-]>"@ + r + "[-<->]<"@),
            },
            UnaryOpKind::Not => match gen_expr(env.bump(1), *right) {
                Err(error) => Err(error),
                Ok(r) => Ok("[-]+>"@ + r + "[<->[-]]<"@),
            },
        },
        ExprView::Call { name, args } => gen_call(env, name, args, true),
        ExprView::Var { name } => match lookup_var(env.scopes, name.name) {
            Some(addr) => Ok(read_var((env.stack_ptr - addr) as nat)),
            None => Err(undeclared(name)),
        },
        ExprView::Int { pos, value } => Ok("[-]"@ + repeat('+', value as nat)),
    }
}

/// The code of the arguments from `i` on, after `code`: each argument is
/// evaluated under the head, which then moves one cell to the right.
pub open spec fn gen_args(env: Env, args: Seq<ExprView>, i: int, code: Seq<char>) -> Result<
    Seq<char>,
    ErrorView,
>
    decreases args, args.len() - i,
{
    if !(0 <= i < args.len()) {
        Ok(code)
    } else {
        match gen_expr(env.bump(i as nat), args[i]) {
            Err(error) => Err(error),
            Ok(arg) => gen_args(env, args, i + 1, code + arg + ">"@),
        }
    }
}

/// The code of a call: the arguments, the way back to the first of them,
/// and the code of the function.
pub open spec fn gen_call(env: Env, name: NameView, args: Seq<ExprView>, is_expr: bool) -> Result<
    Seq<char>,
    ErrorView,
>
    decreases args, args.len() + 1,
{
    match call_error(env, name, args.len(), is_expr) {
        Some(error) => Err(error),
        None => match gen_args(env, args, 0, Seq::empty()) {
            Err(error) => Err(error),
            Ok(code) => Ok(
                code + left(args.len()) + function_find(env.functions, name.name, 0)->Some_0.code,
            ),
        },
    }
}

/// The code of a declaration, and the environment with the new variable.
pub open spec fn gen_declaration(env: Env, decl: DeclarationView) -> Result<Generated, ErrorView> {
    if decl.type_.name == "void"@ {
        Err(error_at(decl.type_, "variable `"@ + decl.name.name + "` has type `void`"@))
    } else if env.declared(decl.name.name) {
        Err(
            error_at(
                decl.type_,
                "parameter `"@ + decl.name.name + "` is declared multiple times"@,
            ),
        )
    } else {
        match decl.init {
            Some(init) => match gen_expr(env, init) {
                Err(error) => Err(error),
                Ok(code) => Ok(Generated { code: code + ">"@, env: env.define(decl.name.name) }),
            },
            None => Ok(Generated { code: ">"@, env: env.define(decl.name.name) }),
        }
    }
}

/// The code of a statement other than a declaration. Such a statement leaves
/// the environment as it was.
pub open spec fn gen_nested(env: Env, stmt: StatementView) -> Result<Seq<char>, ErrorView>
    decreases stmt, 0int,
{
    match stmt {
        StatementView::Declaration(decl) => match gen_declaration(env, decl) {
            Err(error) => Err(error),
            Ok(generated) => Ok(generated.code),
        },
        StatementView::Block(stmts) => match gen_block(env.enter(), stmts, 0, Seq::empty()) {
            Err(error) => Err(error),
            Ok(block) => Ok(block.code + left(block.env.locals())),
        },
        StatementView::If { pos, condition, then_statement, else_statement } => match else_statement {
            Some(else_statement) => match gen_expr(env.bump(1), condition) {
                Err(error) => Err(error),
                Ok(cond) => match gen_nested(env.bump(1), *then_statement) {
                    Err(error) => Err(error),
                    Ok(then) => match gen_nested(env, *else_statement) {
                        Err(error) => Err(error),
                        Ok(other) => Ok(
                            "[-]+>"@ + cond + "["@ + then + "<->[-]]<["@ + other + "[-]]"@,
                        ),
                    },
                },
            },
            None => match gen_expr(env, condition) {
                Err(error) => Err(error),
                Ok(cond) => match gen_nested(env, *then_statement) {
                    Err(error) => Err(error),
                    Ok(then) => Ok(cond + "["@ + then + "[-]]"@),
                },
            },
        },
        StatementView::While { pos, condition, statement } => match gen_expr(env, condition) {
            Err(error) => Err(error),
            Ok(cond) => match gen_nested(env, *statement) {
                Err(error) => Err(error),
                Ok(body) => Ok(cond + "["@ + body + cond + "]"@),
            },
        },
        StatementView::Repeat { pos, expr, statement } => match gen_expr(env, expr) {
            Err(error) => Err(error),
            Ok(count) => match gen_nested(env.bump(1), *statement) {
                Err(error) => Err(error),
                Ok(body) => Ok(count + "[>"@ + body + "<-]"@),
            },
        },
        StatementView::Return { pos, expr } => Err(
            ErrorView { pos, message: "invalid `return` statement"@ },
        ),
        StatementView::Inline { pos, code } => Ok(bytes_chars(code)),
        StatementView::Assign { name, op, expr } => match lookup_var(env.scopes, name.name) {
            None => Err(undeclared(name)),
            Some(addr) => match gen_expr(env, expr) {
                Err(error) => Err(error),
                Ok(value) => Ok(value + assign_template(op.kind, (env.stack_ptr - addr) as nat)),
            },
        },
        StatementView::Call { name, args } => gen_call(env, name, args, false),
    }
}

/// The code of a statement of a block, and the environment after it: a
/// declaration adds a variable, any other statement leaves the environment
/// as it was.
pub open spec fn gen_statement(env: Env, stmt: StatementView) -> Result<Generated, ErrorView>
    decreases stmt, 1int,
{
    match stmt {
        StatementView::Declaration(decl) => gen_declaration(env, decl),
        _ => match gen_nested(env, stmt) {
            Err(error) => Err(error),
            Ok(code) => Ok(Generated { code, env }),
        },
    }
}

/// The code of the statements of a block from `i` on, after `code`.
pub open spec fn gen_block(env: Env, stmts: Seq<StatementView>, i: int, code: Seq<char>) -> Result<
    Generated,
    ErrorView,
>
    decreases stmts, stmts.len() - i,
{
    if !(0 <= i < stmts.len()) {
        Ok(Generated { code, env })
    } else {
        match gen_statement(env, stmts[i]) {
            Err(error) => Err(error),
            Ok(generated) => gen_block(generated.env, stmts, i + 1, code + generated.code),
        }
    }
}

/// The scope of the parameters from `i` on, added to `scope`. The first
/// parameter has the cell `base`, the next ones follow it.
pub open spec fn gen_params(params: Seq<DeclarationView>, i: int, scope: Scope, base: nat) -> Result<
    Scope,
    ErrorView,
>
    decreases params.len() - i,
{
    if !(0 <= i < params.len()) {
        Ok(scope)
    } else {
        let param = params[i];
        if param.type_.name == "void"@ {
            Err(error_at(param.type_, "parameter `"@ + param.name.name + "` has type `void`"@))
        } else if scope_find(scope, param.name.name, 0) is Some {
            Err(
                error_at(
                    param.type_,
                    "parameter `"@ + param.name.name + "` is declared multiple times"@,
                ),
            )
        } else {
            gen_params(params, i + 1, scope.push((param.name.name, base + scope.len())), base)
        }
    }
}

/// The code of one statement at the top of a function body. A `return`
/// evaluates its expression and moves the value into the first cell of the
/// frame.
pub open spec fn gen_body_step(env: Env, stmt: StatementView, void: bool) -> Result<
    Body,
    ErrorView,
> {
    match stmt {
        StatementView::Return { pos, expr } => if void {
            Err(
                ErrorView {
                    pos,
                    message: "unexpected `return` statement in function returning `void`"@,
                },
            )
        } else {
            match gen_expr(env, expr) {
                Err(error) => Err(error),
                Ok(value) => Ok(
                    Body { code: value + return_move(env.locals()), env, returned: true },
                ),
            }
        },
        stmt => match gen_statement(env, stmt) {
            Err(error) => Err(error),
            Ok(generated) => Ok(Body { code: generated.code, env: generated.env, returned: false }),
        },
    }
}

/// The code of the statements of a function body from `i` on, after `code`.
/// A `return` ends the body: the statements after it are not compiled.
pub open spec fn gen_body(
    env: Env,
    stmts: Seq<StatementView>,
    i: int,
    code: Seq<char>,
    void: bool,
) -> Result<Body, ErrorView>
    decreases stmts.len() - i,
{
    if !(0 <= i < stmts.len()) {
        Ok(Body { code, env, returned: false })
    } else {
        match gen_body_step(env, stmts[i], void) {
            Err(error) => Err(error),
            Ok(step) => if step.returned {
                Ok(Body { code: code + step.code, env: step.env, returned: true })
            } else {
                gen_body(step.env, stmts, i + 1, code + step.code, void)
            },
        }
    }
}

/// The compiled function of a definition. Its code expects the head on the
/// cell of the first parameter and leaves it there.
pub open spec fn gen_function(
    env: Env,
    name: NameView,
    return_type: NameView,
    params: Seq<DeclarationView>,
    stmts: Seq<StatementView>,
) -> Result<FunctionView, ErrorView> {
    if function_find(env.functions, name.name, 0) is Some {
        Err(error_at(name, "function `"@ + name.name + "` is defined multiple times"@))
    } else {
        match gen_params(params, 0, Seq::empty(), env.stack_ptr) {
            Err(error) => Err(error),
            Ok(scope) => {
                let inner = Env {
                    scopes: seq![scope],
                    functions: env.functions,
                    stack_ptr: env.stack_ptr + params.len(),
                    current: Some(name.name),
                };
                let void = return_type.name == "void"@;
                match gen_body(inner, stmts, 0, right(params.len()), void) {
                    Err(error) => Err(error),
                    Ok(body) => if !(body.returned || void) {
                        Err(
                            error_at(
                                name,
                                "function `"@ + name.name + "` has no `return` statement"@,
                            ),
                        )
                    } else {
                        Ok(
                            FunctionView {
                                void,
                                arity: params.len(),
                                code: body.code + left(body.env.locals()),
                            },
                        )
                    },
                }
            },
        }
    }
}

/// The code of an item and the environment after it: a function definition
/// adds a function and no code, a statement is generated where it stands.
#[verifier::opaque]
pub open spec fn gen_item(env: Env, item: ItemView) -> Result<Generated, ErrorView> {
    match item {
        ItemView::Function { name, return_type, parameters, statements } => match gen_function(
            env,
            name,
            return_type,
            parameters,
            statements,
        ) {
            Err(error) => Err(error),
            Ok(function) => Ok(
                Generated {
                    code: Seq::empty(),
                    env: Env { functions: env.functions.push((name.name, function)), ..env },
                },
            ),
        },
        ItemView::Statement(stmt) => gen_statement(env, stmt),
    }
}

/// The functions and the top-level code of the items from `i` on, after
/// `code`. Behind the last item the program leaves its scope, as a block
/// does: the head moves back over the variables of the top level.
pub open spec fn gen_items(env: Env, items: Seq<ItemView>, i: int, code: Seq<char>) -> Result<
    Compiled,
    ErrorView,
>
    decreases items.len() - i,
{
    if !(0 <= i < items.len()) {
        Ok(Compiled { functions: env.functions, code: code + left(env.locals()) })
    } else {
        match gen_item(env, items[i]) {
            Err(error) => Err(error),
            Ok(generated) => gen_items(generated.env, items, i + 1, code + generated.code),
        }
    }
}

/// The environment at the start of a program that knows the functions of
/// `functions`.
pub open spec fn initial(functions: Table) -> Env {
    Env { scopes: seq![Seq::empty()], functions, stack_ptr: 0, current: None }
}

/// What the program with the items `items` compiles to, where the functions
/// of `functions` have been compiled before it.
pub open spec fn compile(items: Seq<ItemView>, functions: Table) -> Result<Compiled, ErrorView> {
    gen_items(initial(functions), items, 0, Seq::empty())
}

/// Whether the generator refuses `expr` before it emits any code: a variable
/// that is not declared, or a call that `call_error` refuses.
pub open spec fn refused_expr(env: Env, expr: ExprView) -> bool {
    match expr {
        ExprView::Var { name } => lookup_var(env.scopes, name.name) is None,
        ExprView::Call { name, args } => call_error(env, name, args.len(), true) is Some,
        _ => false,
    }
}

/// Whether the generator refuses `stmt` before it emits any code: a `return`
/// where none may stand, a declaration of type `void` or of a name that the
/// scope has, an assignment to a variable that is not declared, or a call
/// that `call_error` refuses.
pub open spec fn refused(env: Env, stmt: StatementView) -> bool {
    match stmt {
        StatementView::Declaration(decl) => decl.type_.name == "void"@ || env.declared(
            decl.name.name,
        ),
        StatementView::Return { pos, expr } => true,
        StatementView::Assign { name, op, expr } => lookup_var(env.scopes, name.name) is None,
        StatementView::Call { name, args } => call_error(env, name, args.len(), false) is Some,
        _ => false,
    }
}

/// The functions of `table`, the code of each optimized.
pub open spec fn optimized_table(table: Table) -> Table {
    Seq::new(
        table.len(),
        |i: int| (table[i].0, FunctionView { code: optimized(table[i].1.code), ..table[i].1 }),
    )
}

/// The compiled program `compiled` with all of its code optimized.
pub open spec fn optimized_program(compiled: Compiled) -> Compiled {
    Compiled { functions: optimized_table(compiled.functions), code: optimized(compiled.code) }
}

/// Whether no two variables of `scope` have the same name.
pub open spec fn scope_distinct(scope: Scope) -> bool {
    forall|i: int, j: int| 0 <= i < j < scope.len() ==> (#[trigger] scope[i]).0 != (#[trigger] scope[j]).0
}

/// Whether no scope of `scopes` has two variables of the same name.
pub open spec fn scopes_distinct(scopes: Seq<Scope>) -> bool {
    forall|k: int| 0 <= k < scopes.len() ==> scope_distinct(#[trigger] scopes[k])
}

/// A name that is not found in a scope is the name of no variable of it.
pub proof fn lemma_not_declared(scope: Scope, name: Seq<char>, i: int, k: int)
    requires
        0 <= i <= k < scope.len(),
        scope_find(scope, name, i) is None,
    ensures
        scope[k].0 != name,
    decreases scope.len() - i,
{
    if i < k {
        lemma_not_declared(scope, name, i + 1, k);
    }
}

/// A scope of distinct names with a variable of a name that it has not is
/// a scope of distinct names.
pub proof fn lemma_scope_distinct_push(scope: Scope, name: Seq<char>, cell: nat)
    requires
        scope_distinct(scope),
        scope_find(scope, name, 0) is None,
    ensures
        scope_distinct(scope.push((name, cell))),
{
    let next = scope.push((name, cell));
    assert forall|i: int, j: int| 0 <= i < j < next.len() implies (#[trigger] next[i]).0 != (
    #[trigger] next[j]).0 by {
        if j == scope.len() {
            lemma_not_declared(scope, name, 0, i);
        } else {
            assert(next[i] == scope[i]);
            assert(next[j] == scope[j]);
        }
    }
}

/// Whether no two functions of `table` have the same name.
pub open spec fn distinct(table: Table) -> bool {
    forall|i: int, j: int| 0 <= i < j < table.len() ==> (#[trigger] table[i]).0 != (#[trigger] table[j]).0
}

/// A name that is not found is the name of no function of the table.
pub proof fn lemma_not_found(table: Table, name: Seq<char>, i: int, k: int)
    requires
        0 <= i <= k < table.len(),
        function_find(table, name, i) is None,
    ensures
        table[k].0 != name,
    decreases table.len() - i,
{
    if i < k {
        lemma_not_found(table, name, i + 1, k);
    }
}

/// A table of distinct names with a function of a name that it has not is a
/// table of distinct names.
pub proof fn lemma_distinct_push(table: Table, name: Seq<char>, function: FunctionView)
    requires
        distinct(table),
        function_find(table, name, 0) is None,
    ensures
        distinct(table.push((name, function))),
{
    let next = table.push((name, function));
    assert forall|i: int, j: int| 0 <= i < j < next.len() implies (#[trigger] next[i]).0 != (
    #[trigger] next[j]).0 by {
        if j == table.len() {
            lemma_not_found(table, name, 0, i);
        } else {
            assert(next[i] == table[i]);
            assert(next[j] == table[j]);
        }
    }
}

/// The functions of a program have distinct names where those that it
/// starts with have.
pub proof fn lemma_items_distinct(env: Env, items: Seq<ItemView>, i: int, code: Seq<char>)
    requires
        0 <= i <= items.len(),
        distinct(env.functions),
        gen_items(env, items, i, code) is Ok,
    ensures
        distinct(gen_items(env, items, i, code)->Ok_0.functions),
    decreases items.len() - i,
{
    reveal(gen_item);
    if i < items.len() {
        let generated = gen_item(env, items[i])->Ok_0;
        match items[i] {
            ItemView::Function { name, return_type, parameters, statements } => {
                let function = gen_function(env, name, return_type, parameters, statements)->Ok_0;
                lemma_distinct_push(env.functions, name.name, function);
            },
            ItemView::Statement(stmt) => {
                assert(generated.env.functions == env.functions);
            },
        }
        lemma_items_distinct(generated.env, items, i + 1, code + generated.code);
    }
}

/// Optimization keeps the names of the functions.
pub proof fn lemma_optimized_distinct(table: Table)
    requires
        distinct(table),
    ensures
        distinct(optimized_table(table)),
{
    let next = optimized_table(table);
    assert forall|i: int, j: int| 0 <= i < j < next.len() implies (#[trigger] next[i]).0 != (
    #[trigger] next[j]).0 by {
        assert(next[i].0 == table[i].0);
        assert(next[j].0 == table[j].0);
    }
}

} // verus!
