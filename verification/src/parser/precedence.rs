//! The precedence of the operators, and what it means for the parser.

use vstd::prelude::*;
use crate::ast::{BinaryOp, BinaryOpKind, ExprView, UnaryOp, UnaryOpKind};
use crate::parser::grammar::{
    at, binary_bp, done, infix_loop, parse_expr, parse_expr_bp, parse_primary, unary_bp,
};
use crate::token::{TokenKindView, TokenView};

verus! {

/// The level of a binary operator in the table of precedence, the loosest
/// first: `or`; `and`; the comparisons; `+` and `-`; `*`, `/` and `%`.
pub open spec fn binary_level(kind: BinaryOpKind) -> nat {
    match kind {
        BinaryOpKind::Or => 1,
        BinaryOpKind::And => 2,
        BinaryOpKind::EqEq => 4,
        BinaryOpKind::NotEq => 4,
        BinaryOpKind::Greater => 4,
        BinaryOpKind::GreaterEq => 4,
        BinaryOpKind::Less => 4,
        BinaryOpKind::LessEq => 4,
        BinaryOpKind::Plus => 5,
        BinaryOpKind::Minus => 5,
        BinaryOpKind::Star => 6,
        BinaryOpKind::Slash => 6,
        BinaryOpKind::Percent => 6,
    }
}

/// The level of a prefix operator in the table of precedence: `not` lies
/// between `and` and the comparisons, `+` and `-` above all binary operators.
pub open spec fn unary_level(kind: UnaryOpKind) -> nat {
    match kind {
        UnaryOpKind::Not => 3,
        UnaryOpKind::Plus => 7,
        UnaryOpKind::Minus => 7,
    }
}

/// The tokens from `i` up to `j` are the operand `x`: a literal, a variable,
/// a call or an expression in parentheses, with no prefix operator before it.
pub open spec fn operand(tokens: Seq<TokenView>, i: int, x: ExprView, j: int) -> bool {
    &&& unary_bp(at(tokens, i).kind) is None
    &&& parse_primary(tokens, i) == done(x, j)
    &&& i < j <= tokens.len()
}

/// The expression `left op right`, the operator being the token `token`.
pub open spec fn binary(left: ExprView, token: TokenView, right: ExprView) -> ExprView {
    ExprView::Binary {
        left: Box::new(left),
        op: BinaryOp { pos: token.pos, kind: binary_bp(token.kind)->Some_0.0 },
        right: Box::new(right),
    }
}

/// The expression `op right`, the operator being the token `token`.
pub open spec fn unary(token: TokenView, right: ExprView) -> ExprView {
    ExprView::Unary {
        op: UnaryOp { pos: token.pos, kind: unary_bp(token.kind)->Some_0.0 },
        right: Box::new(right),
    }
}

/// The binding powers of a binary operator follow its level: the left one
/// is higher for a higher level, and the right one is just above the left.
pub proof fn lemma_binding_follows_level(first: TokenKindView, second: TokenKindView)
    requires
        binary_bp(first) is Some,
        binary_bp(second) is Some,
    ensures
        binary_bp(first)->Some_0.2 == binary_bp(first)->Some_0.1 + 1,
        (binary_bp(second)->Some_0.1 < binary_bp(first)->Some_0.2) == (binary_level(
            binary_bp(second)->Some_0.0,
        ) <= binary_level(binary_bp(first)->Some_0.0)),
{
}

/// Of two binary operators in a row, the one of the higher level binds
/// first; operators of one level bind from the left. So `x op y op' z`,
/// followed by a token that is no binary operator, is `x op (y op' z)` where
/// `op'` is of a higher level than `op`, and `(x op y) op' z` otherwise. The
/// operands are any three operands, wherever in the tokens they stand.
pub proof fn lemma_precedence_of_binary_operators(
    tokens: Seq<TokenView>,
    i: int,
    x: ExprView,
    j: int,
    y: ExprView,
    k: int,
    z: ExprView,
    m: int,
)
    requires
        0 <= i,
        operand(tokens, i, x, j),
        binary_bp(at(tokens, j).kind) is Some,
        operand(tokens, j + 1, y, k),
        binary_bp(at(tokens, k).kind) is Some,
        operand(tokens, k + 1, z, m),
        binary_bp(at(tokens, m).kind) is None,
    ensures
        parse_expr(tokens, i) == done(
            if binary_level(binary_bp(at(tokens, k).kind)->Some_0.0) > binary_level(
                binary_bp(at(tokens, j).kind)->Some_0.0,
            ) {
                binary(x, at(tokens, j), binary(y, at(tokens, k), z))
            } else {
                binary(binary(x, at(tokens, j), y), at(tokens, k), z)
            },
            m,
        ),
{
    let first = at(tokens, j);
    let second = at(tokens, k);
    let (kind1, l1, r1) = binary_bp(first.kind)->Some_0;
    let (kind2, l2, r2) = binary_bp(second.kind)->Some_0;
    lemma_binding_follows_level(first.kind, second.kind);
    reveal_with_fuel(infix_loop, 3);
    reveal_with_fuel(parse_expr_bp, 3);
    assert(forall|lhs: ExprView, min_bp: u8| #[trigger]
        infix_loop(tokens, m, lhs, min_bp) == done(lhs, m));
    assert(forall|min_bp: u8| #[trigger] parse_expr_bp(tokens, k + 1, min_bp) == done(z, m));
    if l2 < r1 {
        assert(parse_expr_bp(tokens, j + 1, r1) == done(y, k));
        assert(infix_loop(tokens, k, binary(x, first, y), 0) == done(
            binary(binary(x, first, y), second, z),
            m,
        ));
    } else {
        assert(infix_loop(tokens, k, y, r1) == done(binary(y, second, z), m));
        assert(parse_expr_bp(tokens, j + 1, r1) == done(binary(y, second, z), m));
    }
}

/// A prefix operator binds before a binary operator of a lower level, and
/// after one of a higher level. So `op x op' y`, followed by a token that is
/// no binary operator, is `(op x) op' y` where the prefix operator `op` is
/// of a higher level than `op'`, and `op (x op' y)` otherwise. The operands
/// are any two operands, wherever in the tokens they stand.
pub proof fn lemma_precedence_of_prefix_operators(
    tokens: Seq<TokenView>,
    i: int,
    x: ExprView,
    j: int,
    y: ExprView,
    k: int,
)
    requires
        0 <= i,
        unary_bp(at(tokens, i).kind) is Some,
        operand(tokens, i + 1, x, j),
        binary_bp(at(tokens, j).kind) is Some,
        operand(tokens, j + 1, y, k),
        binary_bp(at(tokens, k).kind) is None,
    ensures
        parse_expr(tokens, i) == done(
            if unary_level(unary_bp(at(tokens, i).kind)->Some_0.0) > binary_level(
                binary_bp(at(tokens, j).kind)->Some_0.0,
            ) {
                binary(unary(at(tokens, i), x), at(tokens, j), y)
            } else {
                unary(at(tokens, i), binary(x, at(tokens, j), y))
            },
            k,
        ),
{
    let prefix = at(tokens, i);
    let infix = at(tokens, j);
    let (kind, r_bp) = unary_bp(prefix.kind)->Some_0;
    let (kind2, l2, r2) = binary_bp(infix.kind)->Some_0;
    reveal_with_fuel(infix_loop, 3);
    reveal_with_fuel(parse_expr_bp, 3);
    assert(forall|lhs: ExprView, min_bp: u8| #[trigger]
        infix_loop(tokens, k, lhs, min_bp) == done(lhs, k));
    assert(forall|min_bp: u8| #[trigger] parse_expr_bp(tokens, j + 1, min_bp) == done(y, k));
    if l2 < r_bp {
        assert(parse_expr_bp(tokens, i + 1, r_bp) == done(x, j));
    } else {
        assert(infix_loop(tokens, j, x, r_bp) == done(binary(x, infix, y), k));
        assert(parse_expr_bp(tokens, i + 1, r_bp) == done(binary(x, infix, y), k));
    }
}

/// A chain of operands and binary operators in `tokens`, from the token at
/// `start`: the operand `xs[t]` ends before the token at `ends[t]`, which is
/// a binary operator, but for the last one, which is none; the next operand
/// begins behind that operator.
pub open spec fn chain(tokens: Seq<TokenView>, start: int, xs: Seq<ExprView>, ends: Seq<int>) -> bool {
    &&& 0 <= start
    &&& xs.len() > 0
    &&& xs.len() == ends.len()
    &&& forall|t: int|
        0 <= t < xs.len() ==> operand(tokens, begin(start, ends, t), #[trigger] xs[t], ends[t])
    &&& forall|t: int|
        0 <= t < xs.len() - 1 ==> binary_bp(at(tokens, #[trigger] ends[t]).kind) is Some
    &&& binary_bp(at(tokens, ends.last()).kind) is None
}

/// The index of the first token of the operand `t` of a chain.
pub open spec fn begin(start: int, ends: Seq<int>, t: int) -> int {
    if t == 0 {
        start
    } else {
        ends[t - 1] + 1
    }
}

/// The level of the operator behind the operand `t` of a chain.
pub open spec fn level_at(tokens: Seq<TokenView>, ends: Seq<int>, t: int) -> nat {
    binary_level(binary_bp(at(tokens, ends[t]).kind)->Some_0.0)
}

/// The operator that binds last among those behind the operands `lo` up to
/// `hi - 1`: of the operators of the lowest level, the rightmost.
pub open spec fn loosest(tokens: Seq<TokenView>, ends: Seq<int>, lo: int, hi: int) -> int
    decreases hi - lo,
{
    if hi <= lo + 1 {
        lo
    } else {
        let before = loosest(tokens, ends, lo, hi - 1);
        if level_at(tokens, ends, hi - 1) <= level_at(tokens, ends, before) {
            hi - 1
        } else {
            before
        }
    }
}

/// The expression that the operands `lo` up to `hi` of a chain make by the
/// table of precedence: the operator that binds last joins what stands on
/// its left with what stands on its right, and so on within the two.
pub open spec fn tree(
    tokens: Seq<TokenView>,
    xs: Seq<ExprView>,
    ends: Seq<int>,
    lo: int,
    hi: int,
) -> ExprView
    decreases hi - lo,
{
    let split = loosest(tokens, ends, lo, hi);
    if lo <= split < hi {
        binary(
            tree(tokens, xs, ends, lo, split),
            at(tokens, ends[split]),
            tree(tokens, xs, ends, split + 1, hi),
        )
    } else {
        xs[lo]
    }
}

/// The left binding power of the operator behind the operand `t`.
spec fn power_at(tokens: Seq<TokenView>, ends: Seq<int>, t: int) -> u8 {
    binary_bp(at(tokens, ends[t]).kind)->Some_0.1
}

/// The first operand from `t` on whose operator binds less tightly than
/// `min_bp`, or the last operand.
spec fn halt(tokens: Seq<TokenView>, ends: Seq<int>, t: int, min_bp: u8) -> int
    decreases ends.len() - t,
{
    if t >= ends.len() - 1 {
        ends.len() - 1
    } else if power_at(tokens, ends, t) < min_bp {
        t
    } else {
        halt(tokens, ends, t + 1, min_bp)
    }
}

proof fn lemma_halt(tokens: Seq<TokenView>, ends: Seq<int>, t: int, min_bp: u8)
    requires
        0 <= t < ends.len(),
    ensures
        t <= halt(tokens, ends, t, min_bp) < ends.len(),
        forall|q: int|
            t <= q < halt(tokens, ends, t, min_bp) ==> power_at(tokens, ends, q) >= min_bp,
        halt(tokens, ends, t, min_bp) < ends.len() - 1 ==> power_at(
            tokens,
            ends,
            halt(tokens, ends, t, min_bp),
        ) < min_bp,
    decreases ends.len() - t,
{
    if t < ends.len() - 1 && power_at(tokens, ends, t) >= min_bp {
        lemma_halt(tokens, ends, t + 1, min_bp);
    }
}

proof fn lemma_halt_later(tokens: Seq<TokenView>, ends: Seq<int>, t: int, v: int, min_bp: u8)
    requires
        0 <= t <= v < ends.len(),
        forall|q: int| t <= q < v ==> power_at(tokens, ends, q) >= min_bp,
    ensures
        halt(tokens, ends, t, min_bp) == halt(tokens, ends, v, min_bp),
    decreases v - t,
{
    if t < v {
        lemma_halt_later(tokens, ends, t + 1, v, min_bp);
    }
}

proof fn lemma_loosest_within(tokens: Seq<TokenView>, ends: Seq<int>, lo: int, hi: int)
    requires
        lo < hi,
    ensures
        lo <= loosest(tokens, ends, lo, hi) < hi,
    decreases hi - lo,
{
    if hi > lo + 1 {
        lemma_loosest_within(tokens, ends, lo, hi - 1);
    }
}

/// The operator `v` binds last among those from `lo` up to `hi - 1` where
/// none of them binds less tightly and each one on its right binds more
/// tightly.
proof fn lemma_loosest_is(tokens: Seq<TokenView>, ends: Seq<int>, lo: int, hi: int, v: int)
    requires
        0 <= lo <= v < hi < ends.len(),
        forall|q: int| lo <= q < hi ==> binary_bp(at(tokens, #[trigger] ends[q]).kind) is Some,
        forall|q: int| lo <= q < hi ==> power_at(tokens, ends, q) >= power_at(tokens, ends, v),
        forall|q: int| v < q < hi ==> power_at(tokens, ends, q) > power_at(tokens, ends, v),
    ensures
        loosest(tokens, ends, lo, hi) == v,
    decreases hi - lo,
{
    if hi > lo + 1 {
        let before = loosest(tokens, ends, lo, hi - 1);
        lemma_loosest_within(tokens, ends, lo, hi - 1);
        assert(binary_bp(at(tokens, ends[before]).kind) is Some);
        assert(binary_bp(at(tokens, ends[hi - 1]).kind) is Some);
        assert(binary_bp(at(tokens, ends[v]).kind) is Some);
        lemma_binding_follows_level(at(tokens, ends[before]).kind, at(tokens, ends[hi - 1]).kind);
        if v == hi - 1 {
            assert(power_at(tokens, ends, before) >= power_at(tokens, ends, v));
        } else {
            lemma_loosest_is(tokens, ends, lo, hi - 1, v);
            assert(power_at(tokens, ends, hi - 1) > power_at(tokens, ends, v));
        }
    }
}

proof fn lemma_ends_increase(
    tokens: Seq<TokenView>,
    start: int,
    xs: Seq<ExprView>,
    ends: Seq<int>,
    v: int,
    w: int,
)
    requires
        chain(tokens, start, xs, ends),
        0 <= v <= w < ends.len(),
    ensures
        start < ends[v] <= ends[w] <= tokens.len(),
        v < w ==> ends[v] < ends[w],
    decreases w,
{
    assert(operand(tokens, begin(start, ends, w), xs[w], ends[w]));
    if w > 0 {
        lemma_ends_increase(tokens, start, xs, ends, if v < w { v } else { v - 1 }, w - 1);
    }
}

/// What the parser makes of the operators that follow the operands `t` up
/// to `v` of a chain, which it has joined already.
proof fn lemma_chain_goes_on(
    tokens: Seq<TokenView>,
    start: int,
    xs: Seq<ExprView>,
    ends: Seq<int>,
    t: int,
    v: int,
    min_bp: u8,
)
    requires
        chain(tokens, start, xs, ends),
        0 <= t <= v < ends.len(),
        forall|q: int| t <= q < v ==> power_at(tokens, ends, q) >= min_bp,
        v < ends.len() - 1 ==> forall|q: int|
            t <= q < v ==> power_at(tokens, ends, q) >= power_at(tokens, ends, v),
    ensures
        infix_loop(tokens, ends[v], tree(tokens, xs, ends, t, v), min_bp) == done(
            tree(tokens, xs, ends, t, halt(tokens, ends, t, min_bp)),
            ends[halt(tokens, ends, t, min_bp)],
        ),
    decreases ends.len() - v, 1int,
{
    lemma_halt_later(tokens, ends, t, v, min_bp);
    let token = at(tokens, ends[v]);
    if v < ends.len() - 1 && power_at(tokens, ends, v) >= min_bp {
        assert(binary_bp(token.kind) is Some);
        let (kind, l_bp, r_bp) = binary_bp(token.kind)->Some_0;
        let w = halt(tokens, ends, v + 1, r_bp);
        lemma_halt(tokens, ends, v + 1, r_bp);
        lemma_chain_starts(tokens, start, xs, ends, v + 1, r_bp);
        lemma_ends_increase(tokens, start, xs, ends, v, w);
        assert forall|q: int| t <= q < w implies binary_bp(
            at(tokens, #[trigger] ends[q]).kind,
        ) is Some by {}
        lemma_loosest_is(tokens, ends, t, w, v);
        assert(tree(tokens, xs, ends, t, w) == binary(
            tree(tokens, xs, ends, t, v),
            token,
            tree(tokens, xs, ends, v + 1, w),
        ));
        lemma_chain_goes_on(tokens, start, xs, ends, t, w, min_bp);
    }
}

/// What the parser makes of a chain from its operand `t` on.
proof fn lemma_chain_starts(
    tokens: Seq<TokenView>,
    start: int,
    xs: Seq<ExprView>,
    ends: Seq<int>,
    t: int,
    min_bp: u8,
)
    requires
        chain(tokens, start, xs, ends),
        0 <= t < ends.len(),
    ensures
        parse_expr_bp(tokens, begin(start, ends, t), min_bp) == done(
            tree(tokens, xs, ends, t, halt(tokens, ends, t, min_bp)),
            ends[halt(tokens, ends, t, min_bp)],
        ),
    decreases ends.len() - t, 2int,
{
    assert(operand(tokens, begin(start, ends, t), xs[t], ends[t]));
    assert(tree(tokens, xs, ends, t, t) == xs[t]);
    lemma_chain_goes_on(tokens, start, xs, ends, t, t, min_bp);
}

/// The parser reads a chain of operands and binary operators, however long,
/// as the table of precedence says: the operator of the lowest level binds
/// last, the rightmost of them where there are several.
pub proof fn lemma_precedence(tokens: Seq<TokenView>, start: int, xs: Seq<ExprView>, ends: Seq<int>)
    requires
        chain(tokens, start, xs, ends),
    ensures
        parse_expr(tokens, start) == done(tree(tokens, xs, ends, 0, xs.len() - 1), ends.last()),
{
    lemma_chain_starts(tokens, start, xs, ends, 0, 0);
    lemma_halt(tokens, ends, 0, 0);
    let u = halt(tokens, ends, 0, 0);
    if u < ends.len() - 1 {
        assert(power_at(tokens, ends, u) < 0);
    }
}

} // verus!
