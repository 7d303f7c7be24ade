//! The moves of generated code are balanced: outside of loops, the code of a
//! statement moves the head as far to the left as to the right, but for the
//! one cell that a declaration takes.

use vstd::prelude::*;
use crate::ast::shape::{in_block, item_shaped, nestable, shaped};
use crate::ast::{
    AssignOpKind, BinaryOpKind, DeclarationView, ExprView, ItemView, NameView, StatementView,
    UnaryOpKind,
};
use crate::brainfuck::tree::repeat;
use crate::code_gen::rules::{
    assign_template, binary_template, bytes_chars, call_error, compile, function_find, gen_args,
    gen_block, gen_body, gen_body_step, gen_call, gen_declaration, gen_expr, gen_function,
    gen_item, gen_items, gen_nested, gen_params, gen_statement, initial, left, read_var,
    return_move, right, Body, Compiled, Env, FunctionView, Generated, Scope, Table,
};

verus! {

/// Where a walk over code stands: how many loops are open, and how far the
/// moves outside of all loops have led to the right.
pub struct Walk {
    pub depth: nat,
    pub net: int,
}

/// Walks over `code` from `i` on. `None` where a `]` closes no loop.
pub open spec fn walk(code: Seq<char>, i: int, at: Walk) -> Option<Walk>
    decreases code.len() - i,
{
    if !(0 <= i < code.len()) {
        Some(at)
    } else if code[i] == '[' {
        walk(code, i + 1, Walk { depth: at.depth + 1, net: at.net })
    } else if code[i] == ']' {
        if at.depth == 0 {
            None
        } else {
            walk(code, i + 1, Walk { depth: (at.depth - 1) as nat, net: at.net })
        }
    } else if code[i] == '>' && at.depth == 0 {
        walk(code, i + 1, Walk { depth: at.depth, net: at.net + 1 })
    } else if code[i] == '<' && at.depth == 0 {
        walk(code, i + 1, Walk { depth: at.depth, net: at.net - 1 })
    } else {
        walk(code, i + 1, at)
    }
}

/// Whether the brackets of `code` match and its moves outside of loops lead
/// `net` cells to the right.
pub open spec fn neutral(code: Seq<char>, net: int) -> bool {
    walk(code, 0, Walk { depth: 0, net: 0 }) == Some(Walk { depth: 0, net })
}

/// Where a walk stands after code that opens `up` loops more than it closes
/// and moves `net` cells to the right outside of all loops.
pub open spec fn after(at: Walk, up: int, net: int) -> Option<Walk> {
    Some(
        Walk {
            depth: (at.depth + up) as nat,
            net: if at.depth == 0 {
                at.net + net
            } else {
                at.net
            },
        },
    )
}

/// Whether `code` can stand anywhere: in every walk its brackets match, and
/// outside of all loops its moves lead `net` cells to the right.
pub open spec fn passes(code: Seq<char>, net: int) -> bool {
    forall|at: Walk| #[trigger] walk(code, 0, at) == after(at, 0, net)
}

proof fn lemma_walk_second(first: Seq<char>, second: Seq<char>, j: int, at: Walk)
    requires
        0 <= j <= second.len(),
    ensures
        walk(first + second, first.len() + j, at) == walk(second, j, at),
    decreases second.len() - j,
{
    let code = first + second;
    if j < second.len() {
        assert(code[first.len() + j] == second[j]);
        if second[j] == '[' {
            lemma_walk_second(first, second, j + 1, Walk { depth: at.depth + 1, net: at.net });
        } else if second[j] == ']' {
            if at.depth > 0 {
                lemma_walk_second(
                    first,
                    second,
                    j + 1,
                    Walk { depth: (at.depth - 1) as nat, net: at.net },
                );
            }
        } else if second[j] == '>' && at.depth == 0 {
            lemma_walk_second(first, second, j + 1, Walk { depth: at.depth, net: at.net + 1 });
        } else if second[j] == '<' && at.depth == 0 {
            lemma_walk_second(first, second, j + 1, Walk { depth: at.depth, net: at.net - 1 });
        } else {
            lemma_walk_second(first, second, j + 1, at);
        }
    }
}

proof fn lemma_walk_first(first: Seq<char>, second: Seq<char>, i: int, at: Walk)
    requires
        0 <= i <= first.len(),
    ensures
        walk(first + second, i, at) == match walk(first, i, at) {
            None => None,
            Some(between) => walk(second, 0, between),
        },
    decreases first.len() - i,
{
    let code = first + second;
    if i < first.len() {
        assert(code[i] == first[i]);
        if first[i] == '[' {
            lemma_walk_first(first, second, i + 1, Walk { depth: at.depth + 1, net: at.net });
        } else if first[i] == ']' {
            if at.depth > 0 {
                lemma_walk_first(
                    first,
                    second,
                    i + 1,
                    Walk { depth: (at.depth - 1) as nat, net: at.net },
                );
            }
        } else if first[i] == '>' && at.depth == 0 {
            lemma_walk_first(first, second, i + 1, Walk { depth: at.depth, net: at.net + 1 });
        } else if first[i] == '<' && at.depth == 0 {
            lemma_walk_first(first, second, i + 1, Walk { depth: at.depth, net: at.net - 1 });
        } else {
            lemma_walk_first(first, second, i + 1, at);
        }
    } else {
        lemma_walk_second(first, second, 0, at);
    }
}

/// A walk over two pieces of code is a walk over the first and then over the
/// second.
pub proof fn lemma_walk_concat(first: Seq<char>, second: Seq<char>, at: Walk)
    ensures
        walk(first + second, 0, at) == match walk(first, 0, at) {
            None => None,
            Some(between) => walk(second, 0, between),
        },
{
    lemma_walk_first(first, second, 0, at);
}

/// A run of one command moves the head at most outside of all loops.
pub proof fn lemma_walk_repeat(c: char, n: nat, at: Walk)
    requires
        c != '[',
        c != ']',
    ensures
        walk(repeat(c, n), 0, at) == after(
            at,
            0,
            if c == '>' {
                n as int
            } else if c == '<' {
                -(n as int)
            } else {
                0
            },
        ),
    decreases n,
{
    if n > 0 {
        let less = (n - 1) as nat;
        assert(repeat(c, n) =~= seq![c] + repeat(c, less));
        lemma_walk_concat(seq![c], repeat(c, less), at);
        reveal_with_fuel(walk, 2);
        let between = walk(seq![c], 0, at)->Some_0;
        lemma_walk_repeat(c, less, between);
    }
}

/// Code that passes, one piece after the other, passes.
pub proof fn lemma_passes_concat(first: Seq<char>, second: Seq<char>, m: int, n: int)
    requires
        passes(first, m),
        passes(second, n),
    ensures
        passes(first + second, m + n),
{
    assert forall|at: Walk| #[trigger] walk(first + second, 0, at) == after(at, 0, m + n) by {
        lemma_walk_concat(first, second, at);
        let between = walk(first, 0, at)->Some_0;
        assert(walk(second, 0, between) == after(between, 0, n));
    }
}

/// Empty code passes.
pub proof fn lemma_passes_empty()
    ensures
        passes(Seq::empty(), 0),
{
}

/// Code that passes is neutral.
pub proof fn lemma_passes_neutral(code: Seq<char>, net: int)
    requires
        passes(code, net),
    ensures
        neutral(code, net),
{
    let at = Walk { depth: 0, net: 0 };
    assert(walk(code, 0, at) == after(at, 0, net));
}

proof fn lemma_binary_plus()
    ensures
        passes("[-<+>]"@, 0),
{
    reveal_strlit("[-<+>]");
    reveal_with_fuel(walk, 8);
}

proof fn lemma_binary_minus()
    ensures
        passes("[-<->]"@, 0),
{
    reveal_strlit("[-<->]");
    reveal_with_fuel(walk, 8);
}

proof fn lemma_binary_star()
    ensures
        passes(">[-]>[-]<<<[->>+<<]>[->[->+<<<+>>]>[-<+>]<<]>[-]<"@, 0),
{
    reveal_strlit(">[-]>[-]<<<[->>+<<]>[->[->+<<<+>>]>[-<+>]<<]>[-]<");
    reveal_with_fuel(walk, 51);
}

proof fn lemma_binary_slash()
    ensures
        passes(">[-]+>[-]>[-]>[-]<<<<<[->-[>+>>]>[[-<+>]+>+>>]<<<<<]>>>[-<<<+>>>]<<[-]>[-]<"@, 0),
{
    reveal_strlit(">[-]+>[-]>[-]>[-]<<<<<[->-[>+>>]>[[-<+>]+>+>>]<<<<<]>>>[-<<<+>>>]<<[-]>[-]<");
    reveal_with_fuel(walk, 77);
}

proof fn lemma_binary_percent()
    ensures
        passes(">[-]+>[-]>[-]>[-]<<<<<[->-[>+>>]>[[-<+>]+> >>]<<<<<]>>-[-<<+>>]<[-]"@, 0),
{
    reveal_strlit(">[-]+>[-]>[-]>[-]<<<<<[->-[>+>>]>[[-<+>]+> >>]<<<<<]>>-[-<<+>>]<[-]");
    reveal_with_fuel(walk, 69);
}

proof fn lemma_binary_eqeq()
    ensures
        passes("<[->-<]+>[<->[-]]"@, 0),
{
    reveal_strlit("<[->-<]+>[<->[-]]");
    reveal_with_fuel(walk, 19);
}

proof fn lemma_binary_noteq()
    ensures
        passes("<[->-<]>[<+>[-]]"@, 0),
{
    reveal_strlit("<[->-<]>[<+>[-]]");
    reveal_with_fuel(walk, 18);
}

proof fn lemma_binary_greater()
    ensures
        passes(">[-]>[-]<<[-<[->>+>+<<<]>>[-<<+>>]>[<<<->>>[-]]<<]<[>+<[-]]>[-<+>]"@, 0),
{
    reveal_strlit(">[-]>[-]<<[-<[->>+>+<<<]>>[-<<+>>]>[<<<->>>[-]]<<]<[>+<[-]]>[-<+>]");
    reveal_with_fuel(walk, 68);
}

proof fn lemma_binary_greatereq()
    ensures
        passes(">[-]>[-]<<<[->[->+>+<<]>[-<+>]>[<<->>[-]]<<<]+>[<->[-]]"@, 0),
{
    reveal_strlit(">[-]>[-]<<<[->[->+>+<<]>[-<+>]>[<<->>[-]]<<<]+>[<->[-]]");
    reveal_with_fuel(walk, 57);
}

proof fn lemma_binary_less()
    ensures
        passes(">[-]>[-]<<<[->[->+>+<<]>[-<+>]>[<<->>[-]]<<<]>[<+>[-]]"@, 0),
{
    reveal_strlit(">[-]>[-]<<<[->[->+>+<<]>[-<+>]>[<<->>[-]]<<<]>[<+>[-]]");
    reveal_with_fuel(walk, 56);
}

proof fn lemma_binary_lesseq()
    ensures
        passes(">[-]>[-]<<[-<[->>+>+<<<]>>[-<<+>>]>[<<<->>>[-]]<<]<[>+<[-]]+>[-<->]"@, 0),
{
    reveal_strlit(">[-]>[-]<<[-<[->>+>+<<<]>>[-<<+>>]>[<<<->>>[-]]<<]<[>+<[-]]+>[-<->]");
    reveal_with_fuel(walk, 69);
}

proof fn lemma_binary_and()
    ensures
        passes(">[-]<[<[>>+<<[-]]>[-]]<[-]>>[-<<+>>]<"@, 0),
{
    reveal_strlit(">[-]<[<[>>+<<[-]]>[-]]<[-]>>[-<<+>>]<");
    reveal_with_fuel(walk, 39);
}

proof fn lemma_binary_or()
    ensures
        passes(">[-]<[>+<[-]]<[>>[-]+<<[-]]>>[-<<+>>]<"@, 0),
{
    reveal_strlit(">[-]<[>+<[-]]<[>>[-]+<<[-]]>>[-<<+>>]<");
    reveal_with_fuel(walk, 40);
}

/// The code of each binary operator passes, and ends where it began.
pub proof fn lemma_binary_template_passes(kind: BinaryOpKind)
    ensures
        passes(binary_template(kind), 0),
{
    match kind {
        BinaryOpKind::Plus => lemma_binary_plus(),
        BinaryOpKind::Minus => lemma_binary_minus(),
        BinaryOpKind::Star => lemma_binary_star(),
        BinaryOpKind::Slash => lemma_binary_slash(),
        BinaryOpKind::Percent => lemma_binary_percent(),
        BinaryOpKind::EqEq => lemma_binary_eqeq(),
        BinaryOpKind::NotEq => lemma_binary_noteq(),
        BinaryOpKind::Greater => lemma_binary_greater(),
        BinaryOpKind::GreaterEq => lemma_binary_greatereq(),
        BinaryOpKind::Less => lemma_binary_less(),
        BinaryOpKind::LessEq => lemma_binary_lesseq(),
        BinaryOpKind::And => lemma_binary_and(),
        BinaryOpKind::Or => lemma_binary_or(),
    }
}


/// The code that reads a variable passes, and ends where it began.
pub proof fn lemma_read_var_passes(rel: nat)
    ensures
        passes(read_var(rel), 0),
{
    assert forall|at: Walk| #[trigger] walk(read_var(rel), 0, at) == after(at, 0, 0) by {
        let d = at.depth;
        let m = at.net;
        let w0 = Walk { depth: (d + 0) as nat, net: if d == 0 { m + 0 } else { m } };
        assert(walk("[-]>[-]<"@, 0, at) == Some(w0)) by {
            reveal_strlit("[-]>[-]<");
            reveal_with_fuel(walk, 10);
        }
        let w1 = Walk { depth: (d + 0) as nat, net: if d == 0 { m + (-(rel)) } else { m } };
        lemma_walk_repeat('<', rel, w0);
        assert(walk(repeat('<', rel), 0, w0) == Some(w1));
        lemma_walk_concat("[-]>[-]<"@, repeat('<', rel), at);
        assert(walk("[-]>[-]<"@ + repeat('<', rel), 0, at) == Some(w1));
        let w2 = Walk { depth: (d + 1) as nat, net: if d == 0 { m + (-(rel)) } else { m } };
        assert(walk("[-"@, 0, w1) == Some(w2)) by {
            reveal_strlit("[-");
            reveal_with_fuel(walk, 4);
        }
        lemma_walk_concat("[-]>[-]<"@ + repeat('<', rel), "[-"@, at);
        assert(walk("[-]>[-]<"@ + repeat('<', rel) + "[-"@, 0, at) == Some(w2));
        let w3 = Walk { depth: (d + 1) as nat, net: if d == 0 { m + (-(rel)) } else { m } };
        lemma_walk_repeat('>', rel, w2);
        assert(walk(repeat('>', rel), 0, w2) == Some(w3));
        lemma_walk_concat("[-]>[-]<"@ + repeat('<', rel) + "[-"@, repeat('>', rel), at);
        assert(walk("[-]>[-]<"@ + repeat('<', rel) + "[-"@ + repeat('>', rel), 0, at) == Some(w3));
        let w4 = Walk { depth: (d + 1) as nat, net: if d == 0 { m + (-(rel)) } else { m } };
        assert(walk("+>+<"@, 0, w3) == Some(w4)) by {
            reveal_strlit("+>+<");
            reveal_with_fuel(walk, 6);
        }
        lemma_walk_concat("[-]>[-]<"@ + repeat('<', rel) + "[-"@ + repeat('>', rel), "+>+<"@, at);
        assert(walk("[-]>[-]<"@ + repeat('<', rel) + "[-"@ + repeat('>', rel) + "+>+<"@, 0, at) == Some(w4));
        let w5 = Walk { depth: (d + 1) as nat, net: if d == 0 { m + (-(rel)) } else { m } };
        lemma_walk_repeat('<', rel, w4);
        assert(walk(repeat('<', rel), 0, w4) == Some(w5));
        lemma_walk_concat("[-]>[-]<"@ + repeat('<', rel) + "[-"@ + repeat('>', rel) + "+>+<"@, repeat('<', rel), at);
        assert(walk("[-]>[-]<"@ + repeat('<', rel) + "[-"@ + repeat('>', rel) + "+>+<"@ + repeat('<', rel), 0, at) == Some(w5));
        let w6 = Walk { depth: (d + 0) as nat, net: if d == 0 { m + (-(rel)) } else { m } };
        assert(walk("]"@, 0, w5) == Some(w6)) by {
            reveal_strlit("]");
            reveal_with_fuel(walk, 3);
        }
        lemma_walk_concat("[-]>[-]<"@ + repeat('<', rel) + "[-"@ + repeat('>', rel) + "+>+<"@ + repeat('<', rel), "]"@, at);
        assert(walk("[-]>[-]<"@ + repeat('<', rel) + "[-"@ + repeat('>', rel) + "+>+<"@ + repeat('<', rel) + "]"@, 0, at) == Some(w6));
        let w7 = Walk { depth: (d + 0) as nat, net: if d == 0 { m + (-(rel)) + (rel) } else { m } };
        lemma_walk_repeat('>', rel, w6);
        assert(walk(repeat('>', rel), 0, w6) == Some(w7));
        lemma_walk_concat("[-]>[-]<"@ + repeat('<', rel) + "[-"@ + repeat('>', rel) + "+>+<"@ + repeat('<', rel) + "]"@, repeat('>', rel), at);
        assert(walk("[-]>[-]<"@ + repeat('<', rel) + "[-"@ + repeat('>', rel) + "+>+<"@ + repeat('<', rel) + "]"@ + repeat('>', rel), 0, at) == Some(w7));
        let w8 = Walk { depth: (d + 1) as nat, net: if d == 0 { m + (-(rel)) + (rel) + (1) } else { m } };
        assert(walk(">[-<"@, 0, w7) == Some(w8)) by {
            reveal_strlit(">[-<");
            reveal_with_fuel(walk, 6);
        }
        lemma_walk_concat("[-]>[-]<"@ + repeat('<', rel) + "[-"@ + repeat('>', rel) + "+>+<"@ + repeat('<', rel) + "]"@ + repeat('>', rel), ">[-<"@, at);
        assert(walk("[-]>[-]<"@ + repeat('<', rel) + "[-"@ + repeat('>', rel) + "+>+<"@ + repeat('<', rel) + "]"@ + repeat('>', rel) + ">[-<"@, 0, at) == Some(w8));
        let w9 = Walk { depth: (d + 1) as nat, net: if d == 0 { m + (-(rel)) + (rel) + (1) } else { m } };
        lemma_walk_repeat('<', rel, w8);
        assert(walk(repeat('<', rel), 0, w8) == Some(w9));
        lemma_walk_concat("[-]>[-]<"@ + repeat('<', rel) + "[-"@ + repeat('>', rel) + "+>+<"@ + repeat('<', rel) + "]"@ + repeat('>', rel) + ">[-<"@, repeat('<', rel), at);
        assert(walk("[-]>[-]<"@ + repeat('<', rel) + "[-"@ + repeat('>', rel) + "+>+<"@ + repeat('<', rel) + "]"@ + repeat('>', rel) + ">[-<"@ + repeat('<', rel), 0, at) == Some(w9));
        let w10 = Walk { depth: (d + 1) as nat, net: if d == 0 { m + (-(rel)) + (rel) + (1) } else { m } };
        assert(walk("+"@, 0, w9) == Some(w10)) by {
            reveal_strlit("+");
            reveal_with_fuel(walk, 3);
        }
        lemma_walk_concat("[-]>[-]<"@ + repeat('<', rel) + "[-"@ + repeat('>', rel) + "+>+<"@ + repeat('<', rel) + "]"@ + repeat('>', rel) + ">[-<"@ + repeat('<', rel), "+"@, at);
        assert(walk("[-]>[-]<"@ + repeat('<', rel) + "[-"@ + repeat('>', rel) + "+>+<"@ + repeat('<', rel) + "]"@ + repeat('>', rel) + ">[-<"@ + repeat('<', rel) + "+"@, 0, at) == Some(w10));
        let w11 = Walk { depth: (d + 1) as nat, net: if d == 0 { m + (-(rel)) + (rel) + (1) } else { m } };
        lemma_walk_repeat('>', rel, w10);
        assert(walk(repeat('>', rel), 0, w10) == Some(w11));
        lemma_walk_concat("[-]>[-]<"@ + repeat('<', rel) + "[-"@ + repeat('>', rel) + "+>+<"@ + repeat('<', rel) + "]"@ + repeat('>', rel) + ">[-<"@ + repeat('<', rel) + "+"@, repeat('>', rel), at);
        assert(walk("[-]>[-]<"@ + repeat('<', rel) + "[-"@ + repeat('>', rel) + "+>+<"@ + repeat('<', rel) + "]"@ + repeat('>', rel) + ">[-<"@ + repeat('<', rel) + "+"@ + repeat('>', rel), 0, at) == Some(w11));
        let w12 = Walk { depth: (d + 0) as nat, net: if d == 0 { m + (-(rel)) + (rel) + (1) + (-1) } else { m } };
        assert(walk(">]<"@, 0, w11) == Some(w12)) by {
            reveal_strlit(">]<");
            reveal_with_fuel(walk, 5);
        }
        lemma_walk_concat("[-]>[-]<"@ + repeat('<', rel) + "[-"@ + repeat('>', rel) + "+>+<"@ + repeat('<', rel) + "]"@ + repeat('>', rel) + ">[-<"@ + repeat('<', rel) + "+"@ + repeat('>', rel), ">]<"@, at);
        assert(walk("[-]>[-]<"@ + repeat('<', rel) + "[-"@ + repeat('>', rel) + "+>+<"@ + repeat('<', rel) + "]"@ + repeat('>', rel) + ">[-<"@ + repeat('<', rel) + "+"@ + repeat('>', rel) + ">]<"@, 0, at) == Some(w12));
    }
}

/// The code of `Eq` passes.
proof fn lemma_assign_eq(rel: nat)
    ensures
        passes(repeat('<', rel) + "[-]"@ + repeat('>', rel) + "[-"@ + repeat('<', rel) + "+"@ + repeat('>', rel) + "]"@, 0),
{
    assert forall|at: Walk| #[trigger] walk(repeat('<', rel) + "[-]"@ + repeat('>', rel) + "[-"@ + repeat('<', rel) + "+"@ + repeat('>', rel) + "]"@, 0, at) == after(at, 0, 0) by {
        let d = at.depth;
        let m = at.net;
        let w0 = Walk { depth: (d + 0) as nat, net: if d == 0 { m + (-(rel)) } else { m } };
        lemma_walk_repeat('<', rel, at);
        assert(walk(repeat('<', rel), 0, at) == Some(w0));
        let w1 = Walk { depth: (d + 0) as nat, net: if d == 0 { m + (-(rel)) } else { m } };
        assert(walk("[-]"@, 0, w0) == Some(w1)) by {
            reveal_strlit("[-]");
            reveal_with_fuel(walk, 5);
        }
        lemma_walk_concat(repeat('<', rel), "[-]"@, at);
        assert(walk(repeat('<', rel) + "[-]"@, 0, at) == Some(w1));
        let w2 = Walk { depth: (d + 0) as nat, net: if d == 0 { m + (-(rel)) + (rel) } else { m } };
        lemma_walk_repeat('>', rel, w1);
        assert(walk(repeat('>', rel), 0, w1) == Some(w2));
        lemma_walk_concat(repeat('<', rel) + "[-]"@, repeat('>', rel), at);
        assert(walk(repeat('<', rel) + "[-]"@ + repeat('>', rel), 0, at) == Some(w2));
        let w3 = Walk { depth: (d + 1) as nat, net: if d == 0 { m + (-(rel)) + (rel) } else { m } };
        assert(walk("[-"@, 0, w2) == Some(w3)) by {
            reveal_strlit("[-");
            reveal_with_fuel(walk, 4);
        }
        lemma_walk_concat(repeat('<', rel) + "[-]"@ + repeat('>', rel), "[-"@, at);
        assert(walk(repeat('<', rel) + "[-]"@ + repeat('>', rel) + "[-"@, 0, at) == Some(w3));
        let w4 = Walk { depth: (d + 1) as nat, net: if d == 0 { m + (-(rel)) + (rel) } else { m } };
        lemma_walk_repeat('<', rel, w3);
        assert(walk(repeat('<', rel), 0, w3) == Some(w4));
        lemma_walk_concat(repeat('<', rel) + "[-]"@ + repeat('>', rel) + "[-"@, repeat('<', rel), at);
        assert(walk(repeat('<', rel) + "[-]"@ + repeat('>', rel) + "[-"@ + repeat('<', rel), 0, at) == Some(w4));
        let w5 = Walk { depth: (d + 1) as nat, net: if d == 0 { m + (-(rel)) + (rel) } else { m } };
        assert(walk("+"@, 0, w4) == Some(w5)) by {
            reveal_strlit("+");
            reveal_with_fuel(walk, 3);
        }
        lemma_walk_concat(repeat('<', rel) + "[-]"@ + repeat('>', rel) + "[-"@ + repeat('<', rel), "+"@, at);
        assert(walk(repeat('<', rel) + "[-]"@ + repeat('>', rel) + "[-"@ + repeat('<', rel) + "+"@, 0, at) == Some(w5));
        let w6 = Walk { depth: (d + 1) as nat, net: if d == 0 { m + (-(rel)) + (rel) } else { m } };
        lemma_walk_repeat('>', rel, w5);
        assert(walk(repeat('>', rel), 0, w5) == Some(w6));
        lemma_walk_concat(repeat('<', rel) + "[-]"@ + repeat('>', rel) + "[-"@ + repeat('<', rel) + "+"@, repeat('>', rel), at);
        assert(walk(repeat('<', rel) + "[-]"@ + repeat('>', rel) + "[-"@ + repeat('<', rel) + "+"@ + repeat('>', rel), 0, at) == Some(w6));
        let w7 = Walk { depth: (d + 0) as nat, net: if d == 0 { m + (-(rel)) + (rel) } else { m } };
        assert(walk("]"@, 0, w6) == Some(w7)) by {
            reveal_strlit("]");
            reveal_with_fuel(walk, 3);
        }
        lemma_walk_concat(repeat('<', rel) + "[-]"@ + repeat('>', rel) + "[-"@ + repeat('<', rel) + "+"@ + repeat('>', rel), "]"@, at);
        assert(walk(repeat('<', rel) + "[-]"@ + repeat('>', rel) + "[-"@ + repeat('<', rel) + "+"@ + repeat('>', rel) + "]"@, 0, at) == Some(w7));
    }
}

/// The code of `PlusEq` passes.
proof fn lemma_assign_pluseq(rel: nat)
    ensures
        passes("[-"@ + repeat('<', rel) + "+"@ + repeat('>', rel) + "]"@, 0),
{
    assert forall|at: Walk| #[trigger] walk("[-"@ + repeat('<', rel) + "+"@ + repeat('>', rel) + "]"@, 0, at) == after(at, 0, 0) by {
        let d = at.depth;
        let m = at.net;
        let w0 = Walk { depth: (d + 1) as nat, net: if d == 0 { m + 0 } else { m } };
        assert(walk("[-"@, 0, at) == Some(w0)) by {
            reveal_strlit("[-");
            reveal_with_fuel(walk, 4);
        }
        let w1 = Walk { depth: (d + 1) as nat, net: if d == 0 { m + 0 } else { m } };
        lemma_walk_repeat('<', rel, w0);
        assert(walk(repeat('<', rel), 0, w0) == Some(w1));
        lemma_walk_concat("[-"@, repeat('<', rel), at);
        assert(walk("[-"@ + repeat('<', rel), 0, at) == Some(w1));
        let w2 = Walk { depth: (d + 1) as nat, net: if d == 0 { m + 0 } else { m } };
        assert(walk("+"@, 0, w1) == Some(w2)) by {
            reveal_strlit("+");
            reveal_with_fuel(walk, 3);
        }
        lemma_walk_concat("[-"@ + repeat('<', rel), "+"@, at);
        assert(walk("[-"@ + repeat('<', rel) + "+"@, 0, at) == Some(w2));
        let w3 = Walk { depth: (d + 1) as nat, net: if d == 0 { m + 0 } else { m } };
        lemma_walk_repeat('>', rel, w2);
        assert(walk(repeat('>', rel), 0, w2) == Some(w3));
        lemma_walk_concat("[-"@ + repeat('<', rel) + "+"@, repeat('>', rel), at);
        assert(walk("[-"@ + repeat('<', rel) + "+"@ + repeat('>', rel), 0, at) == Some(w3));
        let w4 = Walk { depth: (d + 0) as nat, net: if d == 0 { m + 0 } else { m } };
        assert(walk("]"@, 0, w3) == Some(w4)) by {
            reveal_strlit("]");
            reveal_with_fuel(walk, 3);
        }
        lemma_walk_concat("[-"@ + repeat('<', rel) + "+"@ + repeat('>', rel), "]"@, at);
        assert(walk("[-"@ + repeat('<', rel) + "+"@ + repeat('>', rel) + "]"@, 0, at) == Some(w4));
    }
}

/// The code of `MinusEq` passes.
proof fn lemma_assign_minuseq(rel: nat)
    ensures
        passes("[-"@ + repeat('<', rel) + "-"@ + repeat('>', rel) + "]"@, 0),
{
    assert forall|at: Walk| #[trigger] walk("[-"@ + repeat('<', rel) + "-"@ + repeat('>', rel) + "]"@, 0, at) == after(at, 0, 0) by {
        let d = at.depth;
        let m = at.net;
        let w0 = Walk { depth: (d + 1) as nat, net: if d == 0 { m + 0 } else { m } };
        assert(walk("[-"@, 0, at) == Some(w0)) by {
            reveal_strlit("[-");
            reveal_with_fuel(walk, 4);
        }
        let w1 = Walk { depth: (d + 1) as nat, net: if d == 0 { m + 0 } else { m } };
        lemma_walk_repeat('<', rel, w0);
        assert(walk(repeat('<', rel), 0, w0) == Some(w1));
        lemma_walk_concat("[-"@, repeat('<', rel), at);
        assert(walk("[-"@ + repeat('<', rel), 0, at) == Some(w1));
        let w2 = Walk { depth: (d + 1) as nat, net: if d == 0 { m + 0 } else { m } };
        assert(walk("-"@, 0, w1) == Some(w2)) by {
            reveal_strlit("-");
            reveal_with_fuel(walk, 3);
        }
        lemma_walk_concat("[-"@ + repeat('<', rel), "-"@, at);
        assert(walk("[-"@ + repeat('<', rel) + "-"@, 0, at) == Some(w2));
        let w3 = Walk { depth: (d + 1) as nat, net: if d == 0 { m + 0 } else { m } };
        lemma_walk_repeat('>', rel, w2);
        assert(walk(repeat('>', rel), 0, w2) == Some(w3));
        lemma_walk_concat("[-"@ + repeat('<', rel) + "-"@, repeat('>', rel), at);
        assert(walk("[-"@ + repeat('<', rel) + "-"@ + repeat('>', rel), 0, at) == Some(w3));
        let w4 = Walk { depth: (d + 0) as nat, net: if d == 0 { m + 0 } else { m } };
        assert(walk("]"@, 0, w3) == Some(w4)) by {
            reveal_strlit("]");
            reveal_with_fuel(walk, 3);
        }
        lemma_walk_concat("[-"@ + repeat('<', rel) + "-"@ + repeat('>', rel), "]"@, at);
        assert(walk("[-"@ + repeat('<', rel) + "-"@ + repeat('>', rel) + "]"@, 0, at) == Some(w4));
    }
}

/// The code of `StarEq` passes.
proof fn lemma_assign_stareq(rel: nat)
    ensures
        passes(">[-]>[-]<<"@ + repeat('<', rel) + "[-"@ + repeat('>', rel) + ">+<"@ + repeat('<', rel) + "]"@ + repeat('>', rel) + "[->[->+<<"@ + repeat('<', rel) + "+"@ + repeat('>', rel) + ">]>[-<+>]<<]>[-]<"@, 0),
{
    assert forall|at: Walk| #[trigger] walk(">[-]>[-]<<"@ + repeat('<', rel) + "[-"@ + repeat('>', rel) + ">+<"@ + repeat('<', rel) + "]"@ + repeat('>', rel) + "[->[->+<<"@ + repeat('<', rel) + "+"@ + repeat('>', rel) + ">]>[-<+>]<<]>[-]<"@, 0, at) == after(at, 0, 0) by {
        let d = at.depth;
        let m = at.net;
        let w0 = Walk { depth: (d + 0) as nat, net: if d == 0 { m + 0 } else { m } };
        assert(walk(">[-]>[-]<<"@, 0, at) == Some(w0)) by {
            reveal_strlit(">[-]>[-]<<");
            reveal_with_fuel(walk, 12);
        }
        let w1 = Walk { depth: (d + 0) as nat, net: if d == 0 { m + (-(rel)) } else { m } };
        lemma_walk_repeat('<', rel, w0);
        assert(walk(repeat('<', rel), 0, w0) == Some(w1));
        lemma_walk_concat(">[-]>[-]<<"@, repeat('<', rel), at);
        assert(walk(">[-]>[-]<<"@ + repeat('<', rel), 0, at) == Some(w1));
        let w2 = Walk { depth: (d + 1) as nat, net: if d == 0 { m + (-(rel)) } else { m } };
        assert(walk("[-"@, 0, w1) == Some(w2)) by {
            reveal_strlit("[-");
            reveal_with_fuel(walk, 4);
        }
        lemma_walk_concat(">[-]>[-]<<"@ + repeat('<', rel), "[-"@, at);
        assert(walk(">[-]>[-]<<"@ + repeat('<', rel) + "[-"@, 0, at) == Some(w2));
        let w3 = Walk { depth: (d + 1) as nat, net: if d == 0 { m + (-(rel)) } else { m } };
        lemma_walk_repeat('>', rel, w2);
        assert(walk(repeat('>', rel), 0, w2) == Some(w3));
        lemma_walk_concat(">[-]>[-]<<"@ + repeat('<', rel) + "[-"@, repeat('>', rel), at);
        assert(walk(">[-]>[-]<<"@ + repeat('<', rel) + "[-"@ + repeat('>', rel), 0, at) == Some(w3));
        let w4 = Walk { depth: (d + 1) as nat, net: if d == 0 { m + (-(rel)) } else { m } };
        assert(walk(">+<"@, 0, w3) == Some(w4)) by {
            reveal_strlit(">+<");
            reveal_with_fuel(walk, 5);
        }
        lemma_walk_concat(">[-]>[-]<<"@ + repeat('<', rel) + "[-"@ + repeat('>', rel), ">+<"@, at);
        assert(walk(">[-]>[-]<<"@ + repeat('<', rel) + "[-"@ + repeat('>', rel) + ">+<"@, 0, at) == Some(w4));
        let w5 = Walk { depth: (d + 1) as nat, net: if d == 0 { m + (-(rel)) } else { m } };
        lemma_walk_repeat('<', rel, w4);
        assert(walk(repeat('<', rel), 0, w4) == Some(w5));
        lemma_walk_concat(">[-]>[-]<<"@ + repeat('<', rel) + "[-"@ + repeat('>', rel) + ">+<"@, repeat('<', rel), at);
        assert(walk(">[-]>[-]<<"@ + repeat('<', rel) + "[-"@ + repeat('>', rel) + ">+<"@ + repeat('<', rel), 0, at) == Some(w5));
        let w6 = Walk { depth: (d + 0) as nat, net: if d == 0 { m + (-(rel)) } else { m } };
        assert(walk("]"@, 0, w5) == Some(w6)) by {
            reveal_strlit("]");
            reveal_with_fuel(walk, 3);
        }
        lemma_walk_concat(">[-]>[-]<<"@ + repeat('<', rel) + "[-"@ + repeat('>', rel) + ">+<"@ + repeat('<', rel), "]"@, at);
        assert(walk(">[-]>[-]<<"@ + repeat('<', rel) + "[-"@ + repeat('>', rel) + ">+<"@ + repeat('<', rel) + "]"@, 0, at) == Some(w6));
        let w7 = Walk { depth: (d + 0) as nat, net: if d == 0 { m + (-(rel)) + (rel) } else { m } };
        lemma_walk_repeat('>', rel, w6);
        assert(walk(repeat('>', rel), 0, w6) == Some(w7));
        lemma_walk_concat(">[-]>[-]<<"@ + repeat('<', rel) + "[-"@ + repeat('>', rel) + ">+<"@ + repeat('<', rel) + "]"@, repeat('>', rel), at);
        assert(walk(">[-]>[-]<<"@ + repeat('<', rel) + "[-"@ + repeat('>', rel) + ">+<"@ + repeat('<', rel) + "]"@ + repeat('>', rel), 0, at) == Some(w7));
        let w8 = Walk { depth: (d + 2) as nat, net: if d == 0 { m + (-(rel)) + (rel) } else { m } };
        assert(walk("[->[->+<<"@, 0, w7) == Some(w8)) by {
            reveal_strlit("[->[->+<<");
            reveal_with_fuel(walk, 11);
        }
        lemma_walk_concat(">[-]>[-]<<"@ + repeat('<', rel) + "[-"@ + repeat('>', rel) + ">+<"@ + repeat('<', rel) + "]"@ + repeat('>', rel), "[->[->+<<"@, at);
        assert(walk(">[-]>[-]<<"@ + repeat('<', rel) + "[-"@ + repeat('>', rel) + ">+<"@ + repeat('<', rel) + "]"@ + repeat('>', rel) + "[->[->+<<"@, 0, at) == Some(w8));
        let w9 = Walk { depth: (d + 2) as nat, net: if d == 0 { m + (-(rel)) + (rel) } else { m } };
        lemma_walk_repeat('<', rel, w8);
        assert(walk(repeat('<', rel), 0, w8) == Some(w9));
        lemma_walk_concat(">[-]>[-]<<"@ + repeat('<', rel) + "[-"@ + repeat('>', rel) + ">+<"@ + repeat('<', rel) + "]"@ + repeat('>', rel) + "[->[->+<<"@, repeat('<', rel), at);
        assert(walk(">[-]>[-]<<"@ + repeat('<', rel) + "[-"@ + repeat('>', rel) + ">+<"@ + repeat('<', rel) + "]"@ + repeat('>', rel) + "[->[->+<<"@ + repeat('<', rel), 0, at) == Some(w9));
        let w10 = Walk { depth: (d + 2) as nat, net: if d == 0 { m + (-(rel)) + (rel) } else { m } };
        assert(walk("+"@, 0, w9) == Some(w10)) by {
            reveal_strlit("+");
            reveal_with_fuel(walk, 3);
        }
        lemma_walk_concat(">[-]>[-]<<"@ + repeat('<', rel) + "[-"@ + repeat('>', rel) + ">+<"@ + repeat('<', rel) + "]"@ + repeat('>', rel) + "[->[->+<<"@ + repeat('<', rel), "+"@, at);
        assert(walk(">[-]>[-]<<"@ + repeat('<', rel) + "[-"@ + repeat('>', rel) + ">+<"@ + repeat('<', rel) + "]"@ + repeat('>', rel) + "[->[->+<<"@ + repeat('<', rel) + "+"@, 0, at) == Some(w10));
        let w11 = Walk { depth: (d + 2) as nat, net: if d == 0 { m + (-(rel)) + (rel) } else { m } };
        lemma_walk_repeat('>', rel, w10);
        assert(walk(repeat('>', rel), 0, w10) == Some(w11));
        lemma_walk_concat(">[-]>[-]<<"@ + repeat('<', rel) + "[-"@ + repeat('>', rel) + ">+<"@ + repeat('<', rel) + "]"@ + repeat('>', rel) + "[->[->+<<"@ + repeat('<', rel) + "+"@, repeat('>', rel), at);
        assert(walk(">[-]>[-]<<"@ + repeat('<', rel) + "[-"@ + repeat('>', rel) + ">+<"@ + repeat('<', rel) + "]"@ + repeat('>', rel) + "[->[->+<<"@ + repeat('<', rel) + "+"@ + repeat('>', rel), 0, at) == Some(w11));
        let w12 = Walk { depth: (d + 0) as nat, net: if d == 0 { m + (-(rel)) + (rel) } else { m } };
        assert(walk(">]>[-<+>]<<]>[-]<"@, 0, w11) == Some(w12)) by {
            reveal_strlit(">]>[-<+>]<<]>[-]<");
            reveal_with_fuel(walk, 19);
        }
        lemma_walk_concat(">[-]>[-]<<"@ + repeat('<', rel) + "[-"@ + repeat('>', rel) + ">+<"@ + repeat('<', rel) + "]"@ + repeat('>', rel) + "[->[->+<<"@ + repeat('<', rel) + "+"@ + repeat('>', rel), ">]>[-<+>]<<]>[-]<"@, at);
        assert(walk(">[-]>[-]<<"@ + repeat('<', rel) + "[-"@ + repeat('>', rel) + ">+<"@ + repeat('<', rel) + "]"@ + repeat('>', rel) + "[->[->+<<"@ + repeat('<', rel) + "+"@ + repeat('>', rel) + ">]>[-<+>]<<]>[-]<"@, 0, at) == Some(w12));
    }
}

/// The code of `SlashEq` passes.
proof fn lemma_assign_slasheq(rel: nat)
    ensures
        passes(">[-]+>[-]>[-]>[-]<<<<"@ + repeat('<', rel) + "[-"@ + repeat('>', rel) + "-[>+>>]>[[-<+>]+>+>>]<<<<"@ + repeat('<', rel) + "]"@ + repeat('>', rel) + ">>[-<<"@ + repeat('<', rel) + "+"@ + repeat('>', rel) + ">>]<<[-]>[-]<"@, 0),
{
    assert forall|at: Walk| #[trigger] walk(">[-]+>[-]>[-]>[-]<<<<"@ + repeat('<', rel) + "[-"@ + repeat('>', rel) + "-[>+>>]>[[-<+>]+>+>>]<<<<"@ + repeat('<', rel) + "]"@ + repeat('>', rel) + ">>[-<<"@ + repeat('<', rel) + "+"@ + repeat('>', rel) + ">>]<<[-]>[-]<"@, 0, at) == after(at, 0, 0) by {
        let d = at.depth;
        let m = at.net;
        let w0 = Walk { depth: (d + 0) as nat, net: if d == 0 { m + 0 } else { m } };
        assert(walk(">[-]+>[-]>[-]>[-]<<<<"@, 0, at) == Some(w0)) by {
            reveal_strlit(">[-]+>[-]>[-]>[-]<<<<");
            reveal_with_fuel(walk, 23);
        }
        let w1 = Walk { depth: (d + 0) as nat, net: if d == 0 { m + (-(rel)) } else { m } };
        lemma_walk_repeat('<', rel, w0);
        assert(walk(repeat('<', rel), 0, w0) == Some(w1));
        lemma_walk_concat(">[-]+>[-]>[-]>[-]<<<<"@, repeat('<', rel), at);
        assert(walk(">[-]+>[-]>[-]>[-]<<<<"@ + repeat('<', rel), 0, at) == Some(w1));
        let w2 = Walk { depth: (d + 1) as nat, net: if d == 0 { m + (-(rel)) } else { m } };
        assert(walk("[-"@, 0, w1) == Some(w2)) by {
            reveal_strlit("[-");
            reveal_with_fuel(walk, 4);
        }
        lemma_walk_concat(">[-]+>[-]>[-]>[-]<<<<"@ + repeat('<', rel), "[-"@, at);
        assert(walk(">[-]+>[-]>[-]>[-]<<<<"@ + repeat('<', rel) + "[-"@, 0, at) == Some(w2));
        let w3 = Walk { depth: (d + 1) as nat, net: if d == 0 { m + (-(rel)) } else { m } };
        lemma_walk_repeat('>', rel, w2);
        assert(walk(repeat('>', rel), 0, w2) == Some(w3));
        lemma_walk_concat(">[-]+>[-]>[-]>[-]<<<<"@ + repeat('<', rel) + "[-"@, repeat('>', rel), at);
        assert(walk(">[-]+>[-]>[-]>[-]<<<<"@ + repeat('<', rel) + "[-"@ + repeat('>', rel), 0, at) == Some(w3));
        let w4 = Walk { depth: (d + 1) as nat, net: if d == 0 { m + (-(rel)) } else { m } };
        assert(walk("-[>+>>]>[[-<+>]+>+>>]<<<<"@, 0, w3) == Some(w4)) by {
            reveal_strlit("-[>+>>]>[[-<+>]+>+>>]<<<<");
            reveal_with_fuel(walk, 27);
        }
        lemma_walk_concat(">[-]+>[-]>[-]>[-]<<<<"@ + repeat('<', rel) + "[-"@ + repeat('>', rel), "-[>+>>]>[[-<+>]+>+>>]<<<<"@, at);
        assert(walk(">[-]+>[-]>[-]>[-]<<<<"@ + repeat('<', rel) + "[-"@ + repeat('>', rel) + "-[>+>>]>[[-<+>]+>+>>]<<<<"@, 0, at) == Some(w4));
        let w5 = Walk { depth: (d + 1) as nat, net: if d == 0 { m + (-(rel)) } else { m } };
        lemma_walk_repeat('<', rel, w4);
        assert(walk(repeat('<', rel), 0, w4) == Some(w5));
        lemma_walk_concat(">[-]+>[-]>[-]>[-]<<<<"@ + repeat('<', rel) + "[-"@ + repeat('>', rel) + "-[>+>>]>[[-<+>]+>+>>]<<<<"@, repeat('<', rel), at);
        assert(walk(">[-]+>[-]>[-]>[-]<<<<"@ + repeat('<', rel) + "[-"@ + repeat('>', rel) + "-[>+>>]>[[-<+>]+>+>>]<<<<"@ + repeat('<', rel), 0, at) == Some(w5));
        let w6 = Walk { depth: (d + 0) as nat, net: if d == 0 { m + (-(rel)) } else { m } };
        assert(walk("]"@, 0, w5) == Some(w6)) by {
            reveal_strlit("]");
            reveal_with_fuel(walk, 3);
        }
        lemma_walk_concat(">[-]+>[-]>[-]>[-]<<<<"@ + repeat('<', rel) + "[-"@ + repeat('>', rel) + "-[>+>>]>[[-<+>]+>+>>]<<<<"@ + repeat('<', rel), "]"@, at);
        assert(walk(">[-]+>[-]>[-]>[-]<<<<"@ + repeat('<', rel) + "[-"@ + repeat('>', rel) + "-[>+>>]>[[-<+>]+>+>>]<<<<"@ + repeat('<', rel) + "]"@, 0, at) == Some(w6));
        let w7 = Walk { depth: (d + 0) as nat, net: if d == 0 { m + (-(rel)) + (rel) } else { m } };
        lemma_walk_repeat('>', rel, w6);
        assert(walk(repeat('>', rel), 0, w6) == Some(w7));
        lemma_walk_concat(">[-]+>[-]>[-]>[-]<<<<"@ + repeat('<', rel) + "[-"@ + repeat('>', rel) + "-[>+>>]>[[-<+>]+>+>>]<<<<"@ + repeat('<', rel) + "]"@, repeat('>', rel), at);
        assert(walk(">[-]+>[-]>[-]>[-]<<<<"@ + repeat('<', rel) + "[-"@ + repeat('>', rel) + "-[>+>>]>[[-<+>]+>+>>]<<<<"@ + repeat('<', rel) + "]"@ + repeat('>', rel), 0, at) == Some(w7));
        let w8 = Walk { depth: (d + 1) as nat, net: if d == 0 { m + (-(rel)) + (rel) + (2) } else { m } };
        assert(walk(">>[-<<"@, 0, w7) == Some(w8)) by {
            reveal_strlit(">>[-<<");
            reveal_with_fuel(walk, 8);
        }
        lemma_walk_concat(">[-]+>[-]>[-]>[-]<<<<"@ + repeat('<', rel) + "[-"@ + repeat('>', rel) + "-[>+>>]>[[-<+>]+>+>>]<<<<"@ + repeat('<', rel) + "]"@ + repeat('>', rel), ">>[-<<"@, at);
        assert(walk(">[-]+>[-]>[-]>[-]<<<<"@ + repeat('<', rel) + "[-"@ + repeat('>', rel) + "-[>+>>]>[[-<+>]+>+>>]<<<<"@ + repeat('<', rel) + "]"@ + repeat('>', rel) + ">>[-<<"@, 0, at) == Some(w8));
        let w9 = Walk { depth: (d + 1) as nat, net: if d == 0 { m + (-(rel)) + (rel) + (2) } else { m } };
        lemma_walk_repeat('<', rel, w8);
        assert(walk(repeat('<', rel), 0, w8) == Some(w9));
        lemma_walk_concat(">[-]+>[-]>[-]>[-]<<<<"@ + repeat('<', rel) + "[-"@ + repeat('>', rel) + "-[>+>>]>[[-<+>]+>+>>]<<<<"@ + repeat('<', rel) + "]"@ + repeat('>', rel) + ">>[-<<"@, repeat('<', rel), at);
        assert(walk(">[-]+>[-]>[-]>[-]<<<<"@ + repeat('<', rel) + "[-"@ + repeat('>', rel) + "-[>+>>]>[[-<+>]+>+>>]<<<<"@ + repeat('<', rel) + "]"@ + repeat('>', rel) + ">>[-<<"@ + repeat('<', rel), 0, at) == Some(w9));
        let w10 = Walk { depth: (d + 1) as nat, net: if d == 0 { m + (-(rel)) + (rel) + (2) } else { m } };
        assert(walk("+"@, 0, w9) == Some(w10)) by {
            reveal_strlit("+");
            reveal_with_fuel(walk, 3);
        }
        lemma_walk_concat(">[-]+>[-]>[-]>[-]<<<<"@ + repeat('<', rel) + "[-"@ + repeat('>', rel) + "-[>+>>]>[[-<+>]+>+>>]<<<<"@ + repeat('<', rel) + "]"@ + repeat('>', rel) + ">>[-<<"@ + repeat('<', rel), "+"@, at);
        assert(walk(">[-]+>[-]>[-]>[-]<<<<"@ + repeat('<', rel) + "[-"@ + repeat('>', rel) + "-[>+>>]>[[-<+>]+>+>>]<<<<"@ + repeat('<', rel) + "]"@ + repeat('>', rel) + ">>[-<<"@ + repeat('<', rel) + "+"@, 0, at) == Some(w10));
        let w11 = Walk { depth: (d + 1) as nat, net: if d == 0 { m + (-(rel)) + (rel) + (2) } else { m } };
        lemma_walk_repeat('>', rel, w10);
        assert(walk(repeat('>', rel), 0, w10) == Some(w11));
        lemma_walk_concat(">[-]+>[-]>[-]>[-]<<<<"@ + repeat('<', rel) + "[-"@ + repeat('>', rel) + "-[>+>>]>[[-<+>]+>+>>]<<<<"@ + repeat('<', rel) + "]"@ + repeat('>', rel) + ">>[-<<"@ + repeat('<', rel) + "+"@, repeat('>', rel), at);
        assert(walk(">[-]+>[-]>[-]>[-]<<<<"@ + repeat('<', rel) + "[-"@ + repeat('>', rel) + "-[>+>>]>[[-<+>]+>+>>]<<<<"@ + repeat('<', rel) + "]"@ + repeat('>', rel) + ">>[-<<"@ + repeat('<', rel) + "+"@ + repeat('>', rel), 0, at) == Some(w11));
        let w12 = Walk { depth: (d + 0) as nat, net: if d == 0 { m + (-(rel)) + (rel) + (2) + (-2) } else { m } };
        assert(walk(">>]<<[-]>[-]<"@, 0, w11) == Some(w12)) by {
            reveal_strlit(">>]<<[-]>[-]<");
            reveal_with_fuel(walk, 15);
        }
        lemma_walk_concat(">[-]+>[-]>[-]>[-]<<<<"@ + repeat('<', rel) + "[-"@ + repeat('>', rel) + "-[>+>>]>[[-<+>]+>+>>]<<<<"@ + repeat('<', rel) + "]"@ + repeat('>', rel) + ">>[-<<"@ + repeat('<', rel) + "+"@ + repeat('>', rel), ">>]<<[-]>[-]<"@, at);
        assert(walk(">[-]+>[-]>[-]>[-]<<<<"@ + repeat('<', rel) + "[-"@ + repeat('>', rel) + "-[>+>>]>[[-<+>]+>+>>]<<<<"@ + repeat('<', rel) + "]"@ + repeat('>', rel) + ">>[-<<"@ + repeat('<', rel) + "+"@ + repeat('>', rel) + ">>]<<[-]>[-]<"@, 0, at) == Some(w12));
    }
}

/// The code of `PercentEq` passes.
proof fn lemma_assign_percenteq(rel: nat)
    ensures
        passes(">[-]+>[-]>[-]>[-]<<<<"@ + repeat('<', rel) + "[-"@ + repeat('>', rel) + "-[>+>>]>[[-<+>]+> >>]<<<<"@ + repeat('<', rel) + "]"@ + repeat('>', rel) + ">-[-<"@ + repeat('<', rel) + "+"@ + repeat('>', rel) + ">]<[-]"@, 0),
{
    assert forall|at: Walk| #[trigger] walk(">[-]+>[-]>[-]>[-]<<<<"@ + repeat('<', rel) + "[-"@ + repeat('>', rel) + "-[>+>>]>[[-<+>]+> >>]<<<<"@ + repeat('<', rel) + "]"@ + repeat('>', rel) + ">-[-<"@ + repeat('<', rel) + "+"@ + repeat('>', rel) + ">]<[-]"@, 0, at) == after(at, 0, 0) by {
        let d = at.depth;
        let m = at.net;
        let w0 = Walk { depth: (d + 0) as nat, net: if d == 0 { m + 0 } else { m } };
        assert(walk(">[-]+>[-]>[-]>[-]<<<<"@, 0, at) == Some(w0)) by {
            reveal_strlit(">[-]+>[-]>[-]>[-]<<<<");
            reveal_with_fuel(walk, 23);
        }
        let w1 = Walk { depth: (d + 0) as nat, net: if d == 0 { m + (-(rel)) } else { m } };
        lemma_walk_repeat('<', rel, w0);
        assert(walk(repeat('<', rel), 0, w0) == Some(w1));
        lemma_walk_concat(">[-]+>[-]>[-]>[-]<<<<"@, repeat('<', rel), at);
        assert(walk(">[-]+>[-]>[-]>[-]<<<<"@ + repeat('<', rel), 0, at) == Some(w1));
        let w2 = Walk { depth: (d + 1) as nat, net: if d == 0 { m + (-(rel)) } else { m } };
        assert(walk("[-"@, 0, w1) == Some(w2)) by {
            reveal_strlit("[-");
            reveal_with_fuel(walk, 4);
        }
        lemma_walk_concat(">[-]+>[-]>[-]>[-]<<<<"@ + repeat('<', rel), "[-"@, at);
        assert(walk(">[-]+>[-]>[-]>[-]<<<<"@ + repeat('<', rel) + "[-"@, 0, at) == Some(w2));
        let w3 = Walk { depth: (d + 1) as nat, net: if d == 0 { m + (-(rel)) } else { m } };
        lemma_walk_repeat('>', rel, w2);
        assert(walk(repeat('>', rel), 0, w2) == Some(w3));
        lemma_walk_concat(">[-]+>[-]>[-]>[-]<<<<"@ + repeat('<', rel) + "[-"@, repeat('>', rel), at);
        assert(walk(">[-]+>[-]>[-]>[-]<<<<"@ + repeat('<', rel) + "[-"@ + repeat('>', rel), 0, at) == Some(w3));
        let w4 = Walk { depth: (d + 1) as nat, net: if d == 0 { m + (-(rel)) } else { m } };
        assert(walk("-[>+>>]>[[-<+>]+> >>]<<<<"@, 0, w3) == Some(w4)) by {
            reveal_strlit("-[>+>>]>[[-<+>]+> >>]<<<<");
            reveal_with_fuel(walk, 27);
        }
        lemma_walk_concat(">[-]+>[-]>[-]>[-]<<<<"@ + repeat('<', rel) + "[-"@ + repeat('>', rel), "-[>+>>]>[[-<+>]+> >>]<<<<"@, at);
        assert(walk(">[-]+>[-]>[-]>[-]<<<<"@ + repeat('<', rel) + "[-"@ + repeat('>', rel) + "-[>+>>]>[[-<+>]+> >>]<<<<"@, 0, at) == Some(w4));
        let w5 = Walk { depth: (d + 1) as nat, net: if d == 0 { m + (-(rel)) } else { m } };
        lemma_walk_repeat('<', rel, w4);
        assert(walk(repeat('<', rel), 0, w4) == Some(w5));
        lemma_walk_concat(">[-]+>[-]>[-]>[-]<<<<"@ + repeat('<', rel) + "[-"@ + repeat('>', rel) + "-[>+>>]>[[-<+>]+> >>]<<<<"@, repeat('<', rel), at);
        assert(walk(">[-]+>[-]>[-]>[-]<<<<"@ + repeat('<', rel) + "[-"@ + repeat('>', rel) + "-[>+>>]>[[-<+>]+> >>]<<<<"@ + repeat('<', rel), 0, at) == Some(w5));
        let w6 = Walk { depth: (d + 0) as nat, net: if d == 0 { m + (-(rel)) } else { m } };
        assert(walk("]"@, 0, w5) == Some(w6)) by {
            reveal_strlit("]");
            reveal_with_fuel(walk, 3);
        }
        lemma_walk_concat(">[-]+>[-]>[-]>[-]<<<<"@ + repeat('<', rel) + "[-"@ + repeat('>', rel) + "-[>+>>]>[[-<+>]+> >>]<<<<"@ + repeat('<', rel), "]"@, at);
        assert(walk(">[-]+>[-]>[-]>[-]<<<<"@ + repeat('<', rel) + "[-"@ + repeat('>', rel) + "-[>+>>]>[[-<+>]+> >>]<<<<"@ + repeat('<', rel) + "]"@, 0, at) == Some(w6));
        let w7 = Walk { depth: (d + 0) as nat, net: if d == 0 { m + (-(rel)) + (rel) } else { m } };
        lemma_walk_repeat('>', rel, w6);
        assert(walk(repeat('>', rel), 0, w6) == Some(w7));
        lemma_walk_concat(">[-]+>[-]>[-]>[-]<<<<"@ + repeat('<', rel) + "[-"@ + repeat('>', rel) + "-[>+>>]>[[-<+>]+> >>]<<<<"@ + repeat('<', rel) + "]"@, repeat('>', rel), at);
        assert(walk(">[-]+>[-]>[-]>[-]<<<<"@ + repeat('<', rel) + "[-"@ + repeat('>', rel) + "-[>+>>]>[[-<+>]+> >>]<<<<"@ + repeat('<', rel) + "]"@ + repeat('>', rel), 0, at) == Some(w7));
        let w8 = Walk { depth: (d + 1) as nat, net: if d == 0 { m + (-(rel)) + (rel) + (1) } else { m } };
        assert(walk(">-[-<"@, 0, w7) == Some(w8)) by {
            reveal_strlit(">-[-<");
            reveal_with_fuel(walk, 7);
        }
        lemma_walk_concat(">[-]+>[-]>[-]>[-]<<<<"@ + repeat('<', rel) + "[-"@ + repeat('>', rel) + "-[>+>>]>[[-<+>]+> >>]<<<<"@ + repeat('<', rel) + "]"@ + repeat('>', rel), ">-[-<"@, at);
        assert(walk(">[-]+>[-]>[-]>[-]<<<<"@ + repeat('<', rel) + "[-"@ + repeat('>', rel) + "-[>+>>]>[[-<+>]+> >>]<<<<"@ + repeat('<', rel) + "]"@ + repeat('>', rel) + ">-[-<"@, 0, at) == Some(w8));
        let w9 = Walk { depth: (d + 1) as nat, net: if d == 0 { m + (-(rel)) + (rel) + (1) } else { m } };
        lemma_walk_repeat('<', rel, w8);
        assert(walk(repeat('<', rel), 0, w8) == Some(w9));
        lemma_walk_concat(">[-]+>[-]>[-]>[-]<<<<"@ + repeat('<', rel) + "[-"@ + repeat('>', rel) + "-[>+>>]>[[-<+>]+> >>]<<<<"@ + repeat('<', rel) + "]"@ + repeat('>', rel) + ">-[-<"@, repeat('<', rel), at);
        assert(walk(">[-]+>[-]>[-]>[-]<<<<"@ + repeat('<', rel) + "[-"@ + repeat('>', rel) + "-[>+>>]>[[-<+>]+> >>]<<<<"@ + repeat('<', rel) + "]"@ + repeat('>', rel) + ">-[-<"@ + repeat('<', rel), 0, at) == Some(w9));
        let w10 = Walk { depth: (d + 1) as nat, net: if d == 0 { m + (-(rel)) + (rel) + (1) } else { m } };
        assert(walk("+"@, 0, w9) == Some(w10)) by {
            reveal_strlit("+");
            reveal_with_fuel(walk, 3);
        }
        lemma_walk_concat(">[-]+>[-]>[-]>[-]<<<<"@ + repeat('<', rel) + "[-"@ + repeat('>', rel) + "-[>+>>]>[[-<+>]+> >>]<<<<"@ + repeat('<', rel) + "]"@ + repeat('>', rel) + ">-[-<"@ + repeat('<', rel), "+"@, at);
        assert(walk(">[-]+>[-]>[-]>[-]<<<<"@ + repeat('<', rel) + "[-"@ + repeat('>', rel) + "-[>+>>]>[[-<+>]+> >>]<<<<"@ + repeat('<', rel) + "]"@ + repeat('>', rel) + ">-[-<"@ + repeat('<', rel) + "+"@, 0, at) == Some(w10));
        let w11 = Walk { depth: (d + 1) as nat, net: if d == 0 { m + (-(rel)) + (rel) + (1) } else { m } };
        lemma_walk_repeat('>', rel, w10);
        assert(walk(repeat('>', rel), 0, w10) == Some(w11));
        lemma_walk_concat(">[-]+>[-]>[-]>[-]<<<<"@ + repeat('<', rel) + "[-"@ + repeat('>', rel) + "-[>+>>]>[[-<+>]+> >>]<<<<"@ + repeat('<', rel) + "]"@ + repeat('>', rel) + ">-[-<"@ + repeat('<', rel) + "+"@, repeat('>', rel), at);
        assert(walk(">[-]+>[-]>[-]>[-]<<<<"@ + repeat('<', rel) + "[-"@ + repeat('>', rel) + "-[>+>>]>[[-<+>]+> >>]<<<<"@ + repeat('<', rel) + "]"@ + repeat('>', rel) + ">-[-<"@ + repeat('<', rel) + "+"@ + repeat('>', rel), 0, at) == Some(w11));
        let w12 = Walk { depth: (d + 0) as nat, net: if d == 0 { m + (-(rel)) + (rel) + (1) + (-1) } else { m } };
        assert(walk(">]<[-]"@, 0, w11) == Some(w12)) by {
            reveal_strlit(">]<[-]");
            reveal_with_fuel(walk, 8);
        }
        lemma_walk_concat(">[-]+>[-]>[-]>[-]<<<<"@ + repeat('<', rel) + "[-"@ + repeat('>', rel) + "-[>+>>]>[[-<+>]+> >>]<<<<"@ + repeat('<', rel) + "]"@ + repeat('>', rel) + ">-[-<"@ + repeat('<', rel) + "+"@ + repeat('>', rel), ">]<[-]"@, at);
        assert(walk(">[-]+>[-]>[-]>[-]<<<<"@ + repeat('<', rel) + "[-"@ + repeat('>', rel) + "-[>+>>]>[[-<+>]+> >>]<<<<"@ + repeat('<', rel) + "]"@ + repeat('>', rel) + ">-[-<"@ + repeat('<', rel) + "+"@ + repeat('>', rel) + ">]<[-]"@, 0, at) == Some(w12));
    }
}

/// The code of each assignment passes, and ends where it began.
pub proof fn lemma_assign_template_passes(kind: AssignOpKind, rel: nat)
    ensures
        passes(assign_template(kind, rel), 0),
{
    match kind {
        AssignOpKind::Eq => lemma_assign_eq(rel),
        AssignOpKind::PlusEq => lemma_assign_pluseq(rel),
        AssignOpKind::MinusEq => lemma_assign_minuseq(rel),
        AssignOpKind::StarEq => lemma_assign_stareq(rel),
        AssignOpKind::SlashEq => lemma_assign_slasheq(rel),
        AssignOpKind::PercentEq => lemma_assign_percenteq(rel),
    }
}

/// The code that moves a value to the start of a frame passes.
proof fn lemma_return_move_some(n: nat)
    ensures
        passes(repeat('<', n) + "[-]"@ + repeat('>', n) + "[-"@ + repeat('<', n) + "+"@ + repeat('>', n) + "]"@, 0),
{
    assert forall|at: Walk| #[trigger] walk(repeat('<', n) + "[-]"@ + repeat('>', n) + "[-"@ + repeat('<', n) + "+"@ + repeat('>', n) + "]"@, 0, at) == after(at, 0, 0) by {
        let d = at.depth;
        let m = at.net;
        let w0 = Walk { depth: (d + 0) as nat, net: if d == 0 { m + (-(n)) } else { m } };
        lemma_walk_repeat('<', n, at);
        assert(walk(repeat('<', n), 0, at) == Some(w0));
        let w1 = Walk { depth: (d + 0) as nat, net: if d == 0 { m + (-(n)) } else { m } };
        assert(walk("[-]"@, 0, w0) == Some(w1)) by {
            reveal_strlit("[-]");
            reveal_with_fuel(walk, 5);
        }
        lemma_walk_concat(repeat('<', n), "[-]"@, at);
        assert(walk(repeat('<', n) + "[-]"@, 0, at) == Some(w1));
        let w2 = Walk { depth: (d + 0) as nat, net: if d == 0 { m + (-(n)) + (n) } else { m } };
        lemma_walk_repeat('>', n, w1);
        assert(walk(repeat('>', n), 0, w1) == Some(w2));
        lemma_walk_concat(repeat('<', n) + "[-]"@, repeat('>', n), at);
        assert(walk(repeat('<', n) + "[-]"@ + repeat('>', n), 0, at) == Some(w2));
        let w3 = Walk { depth: (d + 1) as nat, net: if d == 0 { m + (-(n)) + (n) } else { m } };
        assert(walk("[-"@, 0, w2) == Some(w3)) by {
            reveal_strlit("[-");
            reveal_with_fuel(walk, 4);
        }
        lemma_walk_concat(repeat('<', n) + "[-]"@ + repeat('>', n), "[-"@, at);
        assert(walk(repeat('<', n) + "[-]"@ + repeat('>', n) + "[-"@, 0, at) == Some(w3));
        let w4 = Walk { depth: (d + 1) as nat, net: if d == 0 { m + (-(n)) + (n) } else { m } };
        lemma_walk_repeat('<', n, w3);
        assert(walk(repeat('<', n), 0, w3) == Some(w4));
        lemma_walk_concat(repeat('<', n) + "[-]"@ + repeat('>', n) + "[-"@, repeat('<', n), at);
        assert(walk(repeat('<', n) + "[-]"@ + repeat('>', n) + "[-"@ + repeat('<', n), 0, at) == Some(w4));
        let w5 = Walk { depth: (d + 1) as nat, net: if d == 0 { m + (-(n)) + (n) } else { m } };
        assert(walk("+"@, 0, w4) == Some(w5)) by {
            reveal_strlit("+");
            reveal_with_fuel(walk, 3);
        }
        lemma_walk_concat(repeat('<', n) + "[-]"@ + repeat('>', n) + "[-"@ + repeat('<', n), "+"@, at);
        assert(walk(repeat('<', n) + "[-]"@ + repeat('>', n) + "[-"@ + repeat('<', n) + "+"@, 0, at) == Some(w5));
        let w6 = Walk { depth: (d + 1) as nat, net: if d == 0 { m + (-(n)) + (n) } else { m } };
        lemma_walk_repeat('>', n, w5);
        assert(walk(repeat('>', n), 0, w5) == Some(w6));
        lemma_walk_concat(repeat('<', n) + "[-]"@ + repeat('>', n) + "[-"@ + repeat('<', n) + "+"@, repeat('>', n), at);
        assert(walk(repeat('<', n) + "[-]"@ + repeat('>', n) + "[-"@ + repeat('<', n) + "+"@ + repeat('>', n), 0, at) == Some(w6));
        let w7 = Walk { depth: (d + 0) as nat, net: if d == 0 { m + (-(n)) + (n) } else { m } };
        assert(walk("]"@, 0, w6) == Some(w7)) by {
            reveal_strlit("]");
            reveal_with_fuel(walk, 3);
        }
        lemma_walk_concat(repeat('<', n) + "[-]"@ + repeat('>', n) + "[-"@ + repeat('<', n) + "+"@ + repeat('>', n), "]"@, at);
        assert(walk(repeat('<', n) + "[-]"@ + repeat('>', n) + "[-"@ + repeat('<', n) + "+"@ + repeat('>', n) + "]"@, 0, at) == Some(w7));
    }
}

/// The code that moves a value to the start of a frame passes, and ends
/// where it began.
pub proof fn lemma_return_move_passes(n: nat)
    ensures
        passes(return_move(n), 0),
{
    if n > 0 {
        lemma_return_move_some(n);
    }
}

/// The code of a binary operation passes.
pub proof fn lemma_shape_binary(l: Seq<char>, r: Seq<char>, t: Seq<char>)
    requires
        passes(l, 0),
        passes(r, 0),
        passes(t, 0),
    ensures
        passes(l + ">"@ + r + t + "<"@, 0),
{
    assert forall|at: Walk| #[trigger] walk(l + ">"@ + r + t + "<"@, 0, at) == after(at, 0, 0) by {
        let d = at.depth;
        let m = at.net;
        let w0 = Walk { depth: (d + 0) as nat, net: if d == 0 { m + 0 } else { m } };
        assert(walk(l, 0, at) == after(at, 0, 0));
        assert(walk(l, 0, at) == Some(w0));
        let w1 = Walk { depth: (d + 0) as nat, net: if d == 0 { m + (1) } else { m } };
        assert(walk(">"@, 0, w0) == Some(w1)) by {
            reveal_strlit(">");
            reveal_with_fuel(walk, 3);
        }
        lemma_walk_concat(l, ">"@, at);
        assert(walk(l + ">"@, 0, at) == Some(w1));
        let w2 = Walk { depth: (d + 0) as nat, net: if d == 0 { m + (1) } else { m } };
        assert(walk(r, 0, w1) == after(w1, 0, 0));
        assert(walk(r, 0, w1) == Some(w2));
        lemma_walk_concat(l + ">"@, r, at);
        assert(walk(l + ">"@ + r, 0, at) == Some(w2));
        let w3 = Walk { depth: (d + 0) as nat, net: if d == 0 { m + (1) } else { m } };
        assert(walk(t, 0, w2) == after(w2, 0, 0));
        assert(walk(t, 0, w2) == Some(w3));
        lemma_walk_concat(l + ">"@ + r, t, at);
        assert(walk(l + ">"@ + r + t, 0, at) == Some(w3));
        let w4 = Walk { depth: (d + 0) as nat, net: if d == 0 { m + (1) + (-1) } else { m } };
        assert(walk("<"@, 0, w3) == Some(w4)) by {
            reveal_strlit("<");
            reveal_with_fuel(walk, 3);
        }
        lemma_walk_concat(l + ">"@ + r + t, "<"@, at);
        assert(walk(l + ">"@ + r + t + "<"@, 0, at) == Some(w4));
    }
}

/// The code of a negation passes.
pub proof fn lemma_shape_minus(r: Seq<char>)
    requires
        passes(r, 0),
    ensures
        passes("[-]>"@ + r + "[-<->]<"@, 0),
{
    assert forall|at: Walk| #[trigger] walk("[-]>"@ + r + "[-<->]<"@, 0, at) == after(at, 0, 0) by {
        let d = at.depth;
        let m = at.net;
        let w0 = Walk { depth: (d + 0) as nat, net: if d == 0 { m + (1) } else { m } };
        assert(walk("[-]>"@, 0, at) == Some(w0)) by {
            reveal_strlit("[-]>");
            reveal_with_fuel(walk, 6);
        }
        let w1 = Walk { depth: (d + 0) as nat, net: if d == 0 { m + (1) } else { m } };
        assert(walk(r, 0, w0) == after(w0, 0, 0));
        assert(walk(r, 0, w0) == Some(w1));
        lemma_walk_concat("[-]>"@, r, at);
        assert(walk("[-]>"@ + r, 0, at) == Some(w1));
        let w2 = Walk { depth: (d + 0) as nat, net: if d == 0 { m + (1) + (-1) } else { m } };
        assert(walk("[-<->]<"@, 0, w1) == Some(w2)) by {
            reveal_strlit("[-<->]<");
            reveal_with_fuel(walk, 9);
        }
        lemma_walk_concat("[-]>"@ + r, "[-<->]<"@, at);
        assert(walk("[-]>"@ + r + "[-<->]<"@, 0, at) == Some(w2));
    }
}

/// The code of `not` passes.
pub proof fn lemma_shape_not(r: Seq<char>)
    requires
        passes(r, 0),
    ensures
        passes("[-]+>"@ + r + "[<->[-]]<"@, 0),
{
    assert forall|at: Walk| #[trigger] walk("[-]+>"@ + r + "[<->[-]]<"@, 0, at) == after(at, 0, 0) by {
        let d = at.depth;
        let m = at.net;
        let w0 = Walk { depth: (d + 0) as nat, net: if d == 0 { m + (1) } else { m } };
        assert(walk("[-]+>"@, 0, at) == Some(w0)) by {
            reveal_strlit("[-]+>");
            reveal_with_fuel(walk, 7);
        }
        let w1 = Walk { depth: (d + 0) as nat, net: if d == 0 { m + (1) } else { m } };
        assert(walk(r, 0, w0) == after(w0, 0, 0));
        assert(walk(r, 0, w0) == Some(w1));
        lemma_walk_concat("[-]+>"@, r, at);
        assert(walk("[-]+>"@ + r, 0, at) == Some(w1));
        let w2 = Walk { depth: (d + 0) as nat, net: if d == 0 { m + (1) + (-1) } else { m } };
        assert(walk("[<->[-]]<"@, 0, w1) == Some(w2)) by {
            reveal_strlit("[<->[-]]<");
            reveal_with_fuel(walk, 11);
        }
        lemma_walk_concat("[-]+>"@ + r, "[<->[-]]<"@, at);
        assert(walk("[-]+>"@ + r + "[<->[-]]<"@, 0, at) == Some(w2));
    }
}

/// The code of a number passes.
pub proof fn lemma_shape_int(value: nat)
    ensures
        passes("[-]"@ + repeat('+', value), 0),
{
    assert forall|at: Walk| #[trigger] walk("[-]"@ + repeat('+', value), 0, at) == after(at, 0, 0) by {
        let d = at.depth;
        let m = at.net;
        let w0 = Walk { depth: (d + 0) as nat, net: if d == 0 { m + 0 } else { m } };
        assert(walk("[-]"@, 0, at) == Some(w0)) by {
            reveal_strlit("[-]");
            reveal_with_fuel(walk, 5);
        }
        let w1 = Walk { depth: (d + 0) as nat, net: if d == 0 { m + 0 } else { m } };
        lemma_walk_repeat('+', value, w0);
        assert(walk(repeat('+', value), 0, w0) == Some(w1));
        lemma_walk_concat("[-]"@, repeat('+', value), at);
        assert(walk("[-]"@ + repeat('+', value), 0, at) == Some(w1));
    }
}

/// The code of one more argument leads one cell further.
pub proof fn lemma_shape_argument(code: Seq<char>, arg: Seq<char>, net: int)
    requires
        passes(code, net),
        passes(arg, 0),
    ensures
        passes(code + arg + ">"@, net + 1),
{
    assert forall|at: Walk| #[trigger] walk(code + arg + ">"@, 0, at) == after(at, 0, net + 1) by {
        let d = at.depth;
        let m = at.net;
        let w0 = Walk { depth: (d + 0) as nat, net: if d == 0 { m + (net) } else { m } };
        assert(walk(code, 0, at) == after(at, 0, net));
        assert(walk(code, 0, at) == Some(w0));
        let w1 = Walk { depth: (d + 0) as nat, net: if d == 0 { m + (net) } else { m } };
        assert(walk(arg, 0, w0) == after(w0, 0, 0));
        assert(walk(arg, 0, w0) == Some(w1));
        lemma_walk_concat(code, arg, at);
        assert(walk(code + arg, 0, at) == Some(w1));
        let w2 = Walk { depth: (d + 0) as nat, net: if d == 0 { m + (net) + (1) } else { m } };
        assert(walk(">"@, 0, w1) == Some(w2)) by {
            reveal_strlit(">");
            reveal_with_fuel(walk, 3);
        }
        lemma_walk_concat(code + arg, ">"@, at);
        assert(walk(code + arg + ">"@, 0, at) == Some(w2));
    }
}

/// The code of a call passes.
pub proof fn lemma_shape_call(code: Seq<char>, n: nat, body: Seq<char>)
    requires
        passes(code, n as int),
        passes(body, 0),
    ensures
        passes(code + repeat('<', n) + body, 0),
{
    assert forall|at: Walk| #[trigger] walk(code + repeat('<', n) + body, 0, at) == after(at, 0, 0) by {
        let d = at.depth;
        let m = at.net;
        let w0 = Walk { depth: (d + 0) as nat, net: if d == 0 { m + (n as int) } else { m } };
        assert(walk(code, 0, at) == after(at, 0, n as int));
        assert(walk(code, 0, at) == Some(w0));
        let w1 = Walk { depth: (d + 0) as nat, net: if d == 0 { m + (n as int) + (-(n)) } else { m } };
        lemma_walk_repeat('<', n, w0);
        assert(walk(repeat('<', n), 0, w0) == Some(w1));
        lemma_walk_concat(code, repeat('<', n), at);
        assert(walk(code + repeat('<', n), 0, at) == Some(w1));
        let w2 = Walk { depth: (d + 0) as nat, net: if d == 0 { m + (n as int) + (-(n)) } else { m } };
        assert(walk(body, 0, w1) == after(w1, 0, 0));
        assert(walk(body, 0, w1) == Some(w2));
        lemma_walk_concat(code + repeat('<', n), body, at);
        assert(walk(code + repeat('<', n) + body, 0, at) == Some(w2));
    }
}

/// The code of a declaration with a value leads one cell further.
pub proof fn lemma_shape_declaration(value: Seq<char>)
    requires
        passes(value, 0),
    ensures
        passes(value + ">"@, 1),
{
    assert forall|at: Walk| #[trigger] walk(value + ">"@, 0, at) == after(at, 0, 1) by {
        let d = at.depth;
        let m = at.net;
        let w0 = Walk { depth: (d + 0) as nat, net: if d == 0 { m + 0 } else { m } };
        assert(walk(value, 0, at) == after(at, 0, 0));
        assert(walk(value, 0, at) == Some(w0));
        let w1 = Walk { depth: (d + 0) as nat, net: if d == 0 { m + (1) } else { m } };
        assert(walk(">"@, 0, w0) == Some(w1)) by {
            reveal_strlit(">");
            reveal_with_fuel(walk, 3);
        }
        lemma_walk_concat(value, ">"@, at);
        assert(walk(value + ">"@, 0, at) == Some(w1));
    }
}

/// The code of a declaration without a value leads one cell further.
pub proof fn lemma_shape_plain_declaration()
    ensures
        passes(">"@, 1),
{
    assert forall|at: Walk| #[trigger] walk(">"@, 0, at) == after(at, 0, 1) by {
        let d = at.depth;
        let m = at.net;
        let w0 = Walk { depth: (d + 0) as nat, net: if d == 0 { m + (1) } else { m } };
        assert(walk(">"@, 0, at) == Some(w0)) by {
            reveal_strlit(">");
            reveal_with_fuel(walk, 3);
        }
    }
}

/// The code of a block passes.
pub proof fn lemma_shape_block(code: Seq<char>, n: nat)
    requires
        passes(code, n as int),
    ensures
        passes(code + repeat('<', n), 0),
{
    assert forall|at: Walk| #[trigger] walk(code + repeat('<', n), 0, at) == after(at, 0, 0) by {
        let d = at.depth;
        let m = at.net;
        let w0 = Walk { depth: (d + 0) as nat, net: if d == 0 { m + (n as int) } else { m } };
        assert(walk(code, 0, at) == after(at, 0, n as int));
        assert(walk(code, 0, at) == Some(w0));
        let w1 = Walk { depth: (d + 0) as nat, net: if d == 0 { m + (n as int) + (-(n)) } else { m } };
        lemma_walk_repeat('<', n, w0);
        assert(walk(repeat('<', n), 0, w0) == Some(w1));
        lemma_walk_concat(code, repeat('<', n), at);
        assert(walk(code + repeat('<', n), 0, at) == Some(w1));
    }
}

/// The code of an `if` with an `else` passes.
pub proof fn lemma_shape_if_else(cond: Seq<char>, then: Seq<char>, other: Seq<char>)
    requires
        passes(cond, 0),
        passes(then, 0),
        passes(other, 0),
    ensures
        passes("[-]+>"@ + cond + "["@ + then + "<->[-]]<["@ + other + "[-]]"@, 0),
{
    assert forall|at: Walk| #[trigger] walk("[-]+>"@ + cond + "["@ + then + "<->[-]]<["@ + other + "[-]]"@, 0, at) == after(at, 0, 0) by {
        let d = at.depth;
        let m = at.net;
        let w0 = Walk { depth: (d + 0) as nat, net: if d == 0 { m + (1) } else { m } };
        assert(walk("[-]+>"@, 0, at) == Some(w0)) by {
            reveal_strlit("[-]+>");
            reveal_with_fuel(walk, 7);
        }
        let w1 = Walk { depth: (d + 0) as nat, net: if d == 0 { m + (1) } else { m } };
        assert(walk(cond, 0, w0) == after(w0, 0, 0));
        assert(walk(cond, 0, w0) == Some(w1));
        lemma_walk_concat("[-]+>"@, cond, at);
        assert(walk("[-]+>"@ + cond, 0, at) == Some(w1));
        let w2 = Walk { depth: (d + 1) as nat, net: if d == 0 { m + (1) } else { m } };
        assert(walk("["@, 0, w1) == Some(w2)) by {
            reveal_strlit("[");
            reveal_with_fuel(walk, 3);
        }
        lemma_walk_concat("[-]+>"@ + cond, "["@, at);
        assert(walk("[-]+>"@ + cond + "["@, 0, at) == Some(w2));
        let w3 = Walk { depth: (d + 1) as nat, net: if d == 0 { m + (1) } else { m } };
        assert(walk(then, 0, w2) == after(w2, 0, 0));
        assert(walk(then, 0, w2) == Some(w3));
        lemma_walk_concat("[-]+>"@ + cond + "["@, then, at);
        assert(walk("[-]+>"@ + cond + "["@ + then, 0, at) == Some(w3));
        let w4 = Walk { depth: (d + 1) as nat, net: if d == 0 { m + (1) + (-1) } else { m } };
        assert(walk("<->[-]]<["@, 0, w3) == Some(w4)) by {
            reveal_strlit("<->[-]]<[");
            reveal_with_fuel(walk, 11);
        }
        lemma_walk_concat("[-]+>"@ + cond + "["@ + then, "<->[-]]<["@, at);
        assert(walk("[-]+>"@ + cond + "["@ + then + "<->[-]]<["@, 0, at) == Some(w4));
        let w5 = Walk { depth: (d + 1) as nat, net: if d == 0 { m + (1) + (-1) } else { m } };
        assert(walk(other, 0, w4) == after(w4, 0, 0));
        assert(walk(other, 0, w4) == Some(w5));
        lemma_walk_concat("[-]+>"@ + cond + "["@ + then + "<->[-]]<["@, other, at);
        assert(walk("[-]+>"@ + cond + "["@ + then + "<->[-]]<["@ + other, 0, at) == Some(w5));
        let w6 = Walk { depth: (d + 0) as nat, net: if d == 0 { m + (1) + (-1) } else { m } };
        assert(walk("[-]]"@, 0, w5) == Some(w6)) by {
            reveal_strlit("[-]]");
            reveal_with_fuel(walk, 6);
        }
        lemma_walk_concat("[-]+>"@ + cond + "["@ + then + "<->[-]]<["@ + other, "[-]]"@, at);
        assert(walk("[-]+>"@ + cond + "["@ + then + "<->[-]]<["@ + other + "[-]]"@, 0, at) == Some(w6));
    }
}

/// The code of an `if` passes.
pub proof fn lemma_shape_if(cond: Seq<char>, then: Seq<char>)
    requires
        passes(cond, 0),
        passes(then, 0),
    ensures
        passes(cond + "["@ + then + "[-]]"@, 0),
{
    assert forall|at: Walk| #[trigger] walk(cond + "["@ + then + "[-]]"@, 0, at) == after(at, 0, 0) by {
        let d = at.depth;
        let m = at.net;
        let w0 = Walk { depth: (d + 0) as nat, net: if d == 0 { m + 0 } else { m } };
        assert(walk(cond, 0, at) == after(at, 0, 0));
        assert(walk(cond, 0, at) == Some(w0));
        let w1 = Walk { depth: (d + 1) as nat, net: if d == 0 { m + 0 } else { m } };
        assert(walk("["@, 0, w0) == Some(w1)) by {
            reveal_strlit("[");
            reveal_with_fuel(walk, 3);
        }
        lemma_walk_concat(cond, "["@, at);
        assert(walk(cond + "["@, 0, at) == Some(w1));
        let w2 = Walk { depth: (d + 1) as nat, net: if d == 0 { m + 0 } else { m } };
        assert(walk(then, 0, w1) == after(w1, 0, 0));
        assert(walk(then, 0, w1) == Some(w2));
        lemma_walk_concat(cond + "["@, then, at);
        assert(walk(cond + "["@ + then, 0, at) == Some(w2));
        let w3 = Walk { depth: (d + 0) as nat, net: if d == 0 { m + 0 } else { m } };
        assert(walk("[-]]"@, 0, w2) == Some(w3)) by {
            reveal_strlit("[-]]");
            reveal_with_fuel(walk, 6);
        }
        lemma_walk_concat(cond + "["@ + then, "[-]]"@, at);
        assert(walk(cond + "["@ + then + "[-]]"@, 0, at) == Some(w3));
    }
}

/// The code of a `while` passes.
pub proof fn lemma_shape_while(cond: Seq<char>, body: Seq<char>)
    requires
        passes(cond, 0),
        passes(body, 0),
    ensures
        passes(cond + "["@ + body + cond + "]"@, 0),
{
    assert forall|at: Walk| #[trigger] walk(cond + "["@ + body + cond + "]"@, 0, at) == after(at, 0, 0) by {
        let d = at.depth;
        let m = at.net;
        let w0 = Walk { depth: (d + 0) as nat, net: if d == 0 { m + 0 } else { m } };
        assert(walk(cond, 0, at) == after(at, 0, 0));
        assert(walk(cond, 0, at) == Some(w0));
        let w1 = Walk { depth: (d + 1) as nat, net: if d == 0 { m + 0 } else { m } };
        assert(walk("["@, 0, w0) == Some(w1)) by {
            reveal_strlit("[");
            reveal_with_fuel(walk, 3);
        }
        lemma_walk_concat(cond, "["@, at);
        assert(walk(cond + "["@, 0, at) == Some(w1));
        let w2 = Walk { depth: (d + 1) as nat, net: if d == 0 { m + 0 } else { m } };
        assert(walk(body, 0, w1) == after(w1, 0, 0));
        assert(walk(body, 0, w1) == Some(w2));
        lemma_walk_concat(cond + "["@, body, at);
        assert(walk(cond + "["@ + body, 0, at) == Some(w2));
        let w3 = Walk { depth: (d + 1) as nat, net: if d == 0 { m + 0 } else { m } };
        assert(walk(cond, 0, w2) == after(w2, 0, 0));
        assert(walk(cond, 0, w2) == Some(w3));
        lemma_walk_concat(cond + "["@ + body, cond, at);
        assert(walk(cond + "["@ + body + cond, 0, at) == Some(w3));
        let w4 = Walk { depth: (d + 0) as nat, net: if d == 0 { m + 0 } else { m } };
        assert(walk("]"@, 0, w3) == Some(w4)) by {
            reveal_strlit("]");
            reveal_with_fuel(walk, 3);
        }
        lemma_walk_concat(cond + "["@ + body + cond, "]"@, at);
        assert(walk(cond + "["@ + body + cond + "]"@, 0, at) == Some(w4));
    }
}

/// The code of a `repeat` passes.
pub proof fn lemma_shape_repeat(count: Seq<char>, body: Seq<char>)
    requires
        passes(count, 0),
        passes(body, 0),
    ensures
        passes(count + "[>"@ + body + "<-]"@, 0),
{
    assert forall|at: Walk| #[trigger] walk(count + "[>"@ + body + "<-]"@, 0, at) == after(at, 0, 0) by {
        let d = at.depth;
        let m = at.net;
        let w0 = Walk { depth: (d + 0) as nat, net: if d == 0 { m + 0 } else { m } };
        assert(walk(count, 0, at) == after(at, 0, 0));
        assert(walk(count, 0, at) == Some(w0));
        let w1 = Walk { depth: (d + 1) as nat, net: if d == 0 { m + 0 } else { m } };
        assert(walk("[>"@, 0, w0) == Some(w1)) by {
            reveal_strlit("[>");
            reveal_with_fuel(walk, 4);
        }
        lemma_walk_concat(count, "[>"@, at);
        assert(walk(count + "[>"@, 0, at) == Some(w1));
        let w2 = Walk { depth: (d + 1) as nat, net: if d == 0 { m + 0 } else { m } };
        assert(walk(body, 0, w1) == after(w1, 0, 0));
        assert(walk(body, 0, w1) == Some(w2));
        lemma_walk_concat(count + "[>"@, body, at);
        assert(walk(count + "[>"@ + body, 0, at) == Some(w2));
        let w3 = Walk { depth: (d + 0) as nat, net: if d == 0 { m + 0 } else { m } };
        assert(walk("<-]"@, 0, w2) == Some(w3)) by {
            reveal_strlit("<-]");
            reveal_with_fuel(walk, 5);
        }
        lemma_walk_concat(count + "[>"@ + body, "<-]"@, at);
        assert(walk(count + "[>"@ + body + "<-]"@, 0, at) == Some(w3));
    }
}

/// Whether the code of every function of `table` passes and ends where it
/// began.
pub open spec fn table_passes(table: Table) -> bool {
    forall|i: int| 0 <= i < table.len() ==> passes((#[trigger] table[i]).1.code, 0)
}

/// Whether every piece of inline code in `stmt` passes and ends where it
/// began.
pub open spec fn inline_passes(stmt: StatementView) -> bool
    decreases stmt,
{
    match stmt {
        StatementView::Block(stmts) => forall|i: int|
            0 <= i < stmts.len() ==> inline_passes(#[trigger] stmts[i]),
        StatementView::If { pos, condition, then_statement, else_statement } => inline_passes(
            *then_statement,
        ) && match else_statement {
            Some(stmt) => inline_passes(*stmt),
            None => true,
        },
        StatementView::While { pos, condition, statement } => inline_passes(*statement),
        StatementView::Repeat { pos, expr, statement } => inline_passes(*statement),
        StatementView::Inline { pos, code } => passes(bytes_chars(code), 0),
        _ => true,
    }
}

/// Whether every piece of inline code in `items` passes and ends where it
/// began.
pub open spec fn inlines_pass(items: Seq<ItemView>) -> bool {
    forall|i: int|
        0 <= i < items.len() ==> match #[trigger] items[i] {
            ItemView::Function { name, return_type, parameters, statements } => forall|k: int|
                0 <= k < statements.len() ==> inline_passes(#[trigger] statements[k]),
            ItemView::Statement(stmt) => inline_passes(stmt),
        }
}

pub proof fn lemma_function_found_passes(table: Table, name: Seq<char>, i: int)
    requires
        0 <= i,
        table_passes(table),
        function_find(table, name, i) is Some,
    ensures
        passes(function_find(table, name, i)->Some_0.code, 0),
    decreases table.len() - i,
{
    if table[i].0 != name {
        lemma_function_found_passes(table, name, i + 1);
    }
}

/// The code of an expression passes, and ends where it began.
pub proof fn lemma_expr_passes(env: Env, expr: ExprView)
    requires
        table_passes(env.functions),
        gen_expr(env, expr) is Ok,
    ensures
        passes(gen_expr(env, expr)->Ok_0, 0),
    decreases expr, 0int,
{
    match expr {
        ExprView::Binary { left, op, right } => {
            lemma_expr_passes(env, *left);
            lemma_expr_passes(env.bump(1), *right);
            lemma_binary_template_passes(op.kind);
            lemma_shape_binary(
                gen_expr(env, *left)->Ok_0,
                gen_expr(env.bump(1), *right)->Ok_0,
                binary_template(op.kind),
            );
        },
        ExprView::Unary { op, right } => {
            match op.kind {
                UnaryOpKind::Plus => {
                    lemma_expr_passes(env, *right);
                },
                UnaryOpKind::Minus => {
                    lemma_expr_passes(env.bump(1), *right);
                    lemma_shape_minus(gen_expr(env.bump(1), *right)->Ok_0);
                },
                UnaryOpKind::Not => {
                    lemma_expr_passes(env.bump(1), *right);
                    lemma_shape_not(gen_expr(env.bump(1), *right)->Ok_0);
                },
            }
        },
        ExprView::Call { name, args } => {
            lemma_call_passes(env, name, args, true);
        },
        ExprView::Var { name } => {
            lemma_read_var_passes(
                (env.stack_ptr - crate::code_gen::rules::lookup_var(env.scopes, name.name)->Some_0) as nat,
            );
        },
        ExprView::Int { pos, value } => {
            lemma_shape_int(value as nat);
        },
    }
}

proof fn lemma_args_passes(env: Env, args: Seq<ExprView>, i: int, code: Seq<char>, net: int)
    requires
        0 <= i <= args.len(),
        table_passes(env.functions),
        passes(code, net),
        gen_args(env, args, i, code) is Ok,
    ensures
        passes(gen_args(env, args, i, code)->Ok_0, net + args.len() - i),
    decreases args, args.len() - i,
{
    if i < args.len() {
        lemma_expr_passes(env.bump(i as nat), args[i]);
        let arg = gen_expr(env.bump(i as nat), args[i])->Ok_0;
        lemma_shape_argument(code, arg, net);
        lemma_args_passes(env, args, i + 1, code + arg + ">"@, net + 1);
    }
}

proof fn lemma_call_passes(env: Env, name: NameView, args: Seq<ExprView>, is_expr: bool)
    requires
        table_passes(env.functions),
        gen_call(env, name, args, is_expr) is Ok,
    ensures
        passes(gen_call(env, name, args, is_expr)->Ok_0, 0),
    decreases args, args.len() + 1,
{
    lemma_passes_empty();
    lemma_args_passes(env, args, 0, Seq::empty(), 0);
    lemma_function_found_passes(env.functions, name.name, 0);
    lemma_shape_call(
        gen_args(env, args, 0, Seq::empty())->Ok_0,
        args.len(),
        function_find(env.functions, name.name, 0)->Some_0.code,
    );
}

proof fn lemma_declaration_passes(env: Env, decl: DeclarationView)
    requires
        table_passes(env.functions),
        gen_declaration(env, decl) is Ok,
    ensures
        passes(gen_declaration(env, decl)->Ok_0.code, 1),
        gen_declaration(env, decl)->Ok_0.env == env.define(decl.name.name),
{
    match decl.init {
        Some(init) => {
            lemma_expr_passes(env, init);
            lemma_shape_declaration(gen_expr(env, init)->Ok_0);
        },
        None => {
            lemma_shape_plain_declaration();
        },
    }
}

/// The code of a statement other than a declaration passes, and ends where
/// it began.
pub proof fn lemma_nested_passes(env: Env, stmt: StatementView)
    requires
        table_passes(env.functions),
        inline_passes(stmt),
        nestable(stmt),
        gen_nested(env, stmt) is Ok,
    ensures
        passes(gen_nested(env, stmt)->Ok_0, 0),
    decreases stmt, 0int,
{
    match stmt {
        StatementView::Declaration(decl) => {},
        StatementView::Block(stmts) => {
            lemma_passes_empty();
            assert(env.enter().scopes.last() =~= Seq::empty());
            lemma_block_passes(env.enter(), stmts, 0, Seq::empty(), 0);
            let block = gen_block(env.enter(), stmts, 0, Seq::empty())->Ok_0;
            lemma_shape_block(block.code, block.env.locals());
        },
        StatementView::If { pos, condition, then_statement, else_statement } => {
            match else_statement {
                Some(else_statement) => {
                    lemma_expr_passes(env.bump(1), condition);
                    lemma_nested_passes(env.bump(1), *then_statement);
                    lemma_nested_passes(env, *else_statement);
                    lemma_shape_if_else(
                        gen_expr(env.bump(1), condition)->Ok_0,
                        gen_nested(env.bump(1), *then_statement)->Ok_0,
                        gen_nested(env, *else_statement)->Ok_0,
                    );
                },
                None => {
                    lemma_expr_passes(env, condition);
                    lemma_nested_passes(env, *then_statement);
                    lemma_shape_if(
                        gen_expr(env, condition)->Ok_0,
                        gen_nested(env, *then_statement)->Ok_0,
                    );
                },
            }
        },
        StatementView::While { pos, condition, statement } => {
            lemma_expr_passes(env, condition);
            lemma_nested_passes(env, *statement);
            lemma_shape_while(gen_expr(env, condition)->Ok_0, gen_nested(env, *statement)->Ok_0);
        },
        StatementView::Repeat { pos, expr, statement } => {
            lemma_expr_passes(env, expr);
            lemma_nested_passes(env.bump(1), *statement);
            lemma_shape_repeat(gen_expr(env, expr)->Ok_0, gen_nested(env.bump(1), *statement)->Ok_0);
        },
        StatementView::Return { pos, expr } => {},
        StatementView::Inline { pos, code } => {},
        StatementView::Assign { name, op, expr } => {
            lemma_expr_passes(env, expr);
            let rel = (env.stack_ptr - crate::code_gen::rules::lookup_var(
                env.scopes,
                name.name,
            )->Some_0) as nat;
            lemma_assign_template_passes(op.kind, rel);
            lemma_passes_concat(gen_expr(env, expr)->Ok_0, assign_template(op.kind, rel), 0, 0);
        },
        StatementView::Call { name, args } => {
            lemma_call_passes(env, name, args, false);
        },
    }
}

/// The code of a statement of a block leads as many cells further as the
/// statement declares variables: one for a declaration, none for any other
/// statement.
pub proof fn lemma_statement_passes(env: Env, stmt: StatementView)
    requires
        table_passes(env.functions),
        env.scopes.len() > 0,
        inline_passes(stmt),
        in_block(stmt),
        gen_statement(env, stmt) is Ok,
    ensures
        passes(
            gen_statement(env, stmt)->Ok_0.code,
            gen_statement(env, stmt)->Ok_0.env.locals() - env.locals(),
        ),
        gen_statement(env, stmt)->Ok_0.env.locals() - env.locals() == if stmt is Declaration {
            1int
        } else {
            0int
        },
        gen_statement(env, stmt)->Ok_0.env.scopes.len() == env.scopes.len(),
        gen_statement(env, stmt)->Ok_0.env.functions == env.functions,
    decreases stmt, 1int,
{
    match stmt {
        StatementView::Declaration(decl) => {
            lemma_declaration_passes(env, decl);
        },
        _ => {
            lemma_nested_passes(env, stmt);
        },
    }
}

proof fn lemma_block_passes(env: Env, stmts: Seq<StatementView>, i: int, code: Seq<char>, net: int)
    requires
        0 <= i <= stmts.len(),
        table_passes(env.functions),
        env.scopes.len() > 0,
        forall|k: int| 0 <= k < stmts.len() ==> inline_passes(#[trigger] stmts[k]),
        forall|k: int| 0 <= k < stmts.len() ==> in_block(#[trigger] stmts[k]),
        passes(code, net),
        gen_block(env, stmts, i, code) is Ok,
    ensures
        passes(
            gen_block(env, stmts, i, code)->Ok_0.code,
            net + gen_block(env, stmts, i, code)->Ok_0.env.locals() - env.locals(),
        ),
    decreases stmts, stmts.len() - i,
{
    if i < stmts.len() {
        lemma_statement_passes(env, stmts[i]);
        let generated = gen_statement(env, stmts[i])->Ok_0;
        let step = generated.env.locals() - env.locals();
        lemma_passes_concat(code, generated.code, net, step);
        lemma_block_passes(generated.env, stmts, i + 1, code + generated.code, net + step);
    }
}

proof fn lemma_params_count(params: Seq<DeclarationView>, i: int, scope: Scope, base: nat)
    requires
        0 <= i <= params.len(),
        gen_params(params, i, scope, base) is Ok,
    ensures
        gen_params(params, i, scope, base)->Ok_0.len() == scope.len() + params.len() - i,
    decreases params.len() - i,
{
    if i < params.len() {
        lemma_params_count(
            params,
            i + 1,
            scope.push((params[i].name.name, base + scope.len())),
            base,
        );
    }
}

proof fn lemma_body_passes(
    env: Env,
    stmts: Seq<StatementView>,
    i: int,
    code: Seq<char>,
    net: int,
    void: bool,
)
    requires
        0 <= i <= stmts.len(),
        table_passes(env.functions),
        env.scopes.len() > 0,
        forall|k: int| 0 <= k < stmts.len() ==> inline_passes(#[trigger] stmts[k]),
        forall|k: int| 0 <= k < stmts.len() ==> in_block(#[trigger] stmts[k]),
        passes(code, net),
        gen_body(env, stmts, i, code, void) is Ok,
    ensures
        passes(
            gen_body(env, stmts, i, code, void)->Ok_0.code,
            net + gen_body(env, stmts, i, code, void)->Ok_0.env.locals() - env.locals(),
        ),
    decreases stmts.len() - i,
{
    if i < stmts.len() {
        let step = gen_body_step(env, stmts[i], void)->Ok_0;
        match stmts[i] {
            StatementView::Return { pos, expr } => {
                lemma_expr_passes(env, expr);
                lemma_return_move_passes(env.locals());
                lemma_passes_concat(gen_expr(env, expr)->Ok_0, return_move(env.locals()), 0, 0);
                lemma_passes_concat(code, step.code, net, 0);
            },
            stmt => {
                lemma_statement_passes(env, stmt);
                let moves = step.env.locals() - env.locals();
                lemma_passes_concat(code, step.code, net, moves);
                lemma_body_passes(step.env, stmts, i + 1, code + step.code, net + moves, void);
            },
        }
    }
}

/// The code of a function passes, and ends where it began.
pub proof fn lemma_function_passes(
    env: Env,
    name: NameView,
    return_type: NameView,
    params: Seq<DeclarationView>,
    stmts: Seq<StatementView>,
)
    requires
        table_passes(env.functions),
        forall|k: int| 0 <= k < stmts.len() ==> inline_passes(#[trigger] stmts[k]),
        forall|k: int| 0 <= k < stmts.len() ==> in_block(#[trigger] stmts[k]),
        gen_function(env, name, return_type, params, stmts) is Ok,
    ensures
        passes(gen_function(env, name, return_type, params, stmts)->Ok_0.code, 0),
{
    let scope = gen_params(params, 0, Seq::empty(), env.stack_ptr)->Ok_0;
    lemma_params_count(params, 0, Seq::empty(), env.stack_ptr);
    let inner = Env {
        scopes: seq![scope],
        functions: env.functions,
        stack_ptr: env.stack_ptr + params.len(),
        current: Some(name.name),
    };
    let void = return_type.name == "void"@;
    assert(passes(right(params.len()), params.len() as int)) by {
        assert forall|at: Walk| #[trigger]
            walk(right(params.len()), 0, at) == after(at, 0, params.len() as int) by {
            lemma_walk_repeat('>', params.len(), at);
        }
    }
    assert(inner.locals() == params.len());
    lemma_body_passes(inner, stmts, 0, right(params.len()), params.len() as int, void);
    let body = gen_body(inner, stmts, 0, right(params.len()), void)->Ok_0;
    lemma_shape_block(body.code, body.env.locals());
}

proof fn lemma_items_pass(env: Env, items: Seq<ItemView>, i: int, code: Seq<char>, net: int)
    requires
        0 <= i <= items.len(),
        table_passes(env.functions),
        env.scopes.len() > 0,
        shaped(items),
        inlines_pass(items),
        passes(code, net),
        gen_items(env, items, i, code) is Ok,
    ensures
        passes(gen_items(env, items, i, code)->Ok_0.code, net - env.locals()),
        table_passes(gen_items(env, items, i, code)->Ok_0.functions),
    decreases items.len() - i,
{
    reveal(gen_item);
    if i >= items.len() {
        assert(passes(left(env.locals()), -(env.locals() as int))) by {
            assert forall|at: Walk| #[trigger]
                walk(left(env.locals()), 0, at) == after(at, 0, -(env.locals() as int)) by {
                lemma_walk_repeat('<', env.locals(), at);
            }
        }
        lemma_passes_concat(code, left(env.locals()), net, -(env.locals() as int));
    }
    if i < items.len() {
        assert(item_shaped(items[i]));
        let generated = gen_item(env, items[i])->Ok_0;
        match items[i] {
            ItemView::Function { name, return_type, parameters, statements } => {
                lemma_function_passes(env, name, return_type, parameters, statements);
                let function = gen_function(env, name, return_type, parameters, statements)->Ok_0;
                let table = env.functions.push((name.name, function));
                assert forall|k: int| 0 <= k < table.len() implies passes(
                    (#[trigger] table[k]).1.code,
                    0,
                ) by {
                    if k < env.functions.len() {
                        assert(table[k] == env.functions[k]);
                    }
                }
                assert(code + generated.code =~= code);
                lemma_items_pass(generated.env, items, i + 1, code, net);
            },
            ItemView::Statement(stmt) => {
                lemma_statement_passes(env, stmt);
                let step = generated.env.locals() - env.locals();
                lemma_passes_concat(code, generated.code, net, step);
                lemma_items_pass(generated.env, items, i + 1, code + generated.code, net + step);
            },
        }
    }
}

/// The moves of a compiled program are balanced. Where declarations stand
/// only at the top level, in function bodies and in blocks, where inline
/// code is balanced in itself, and where the functions that the program
/// starts with are balanced, the brackets of the top-level code match, and
/// outside of its loops the code moves the head as often to the left as to
/// the right. The same holds of each function, wherever its code stands:
/// the functions of the program can be those that another program starts
/// with.
pub proof fn lemma_scope_balance(items: Seq<ItemView>, std: Table)
    requires
        shaped(items),
        inlines_pass(items),
        table_passes(std),
        compile(items, std) is Ok,
    ensures
        neutral(compile(items, std)->Ok_0.code, 0),
        forall|i: int|
            0 <= i < compile(items, std)->Ok_0.functions.len() ==> neutral(
                (#[trigger] compile(items, std)->Ok_0.functions[i]).1.code,
                0,
            ),
        table_passes(compile(items, std)->Ok_0.functions),
{
    lemma_passes_empty();
    lemma_items_pass(initial(std), items, 0, Seq::empty(), 0);
    let compiled = compile(items, std)->Ok_0;
    lemma_passes_neutral(compiled.code, 0);
    assert forall|i: int| 0 <= i < compiled.functions.len() implies neutral(
        (#[trigger] compiled.functions[i]).1.code,
        0,
    ) by {
        lemma_passes_neutral(compiled.functions[i].1.code, 0);
    }
}

} // verus!
