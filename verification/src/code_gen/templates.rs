//! The operations of the pieces of code that the generator emits.

use vstd::prelude::*;
use crate::ast::{AssignOpKind, BinaryOpKind};
use crate::brainfuck::reading::{
    lemma_covers_join, lemma_covers_loop, lemma_covers_nothing, lemma_covers_repeat,
    lemma_covers_skip, lemma_covers_step, lemma_occurs_char, lemma_occurs_parts, occurs, reads,
    repeat_op,
};
use crate::brainfuck::tree::{repeat, Op};
use crate::code_gen::rules::{assign_template, binary_template, read_var};

verus! {

/// The operations of the code of `Plus`.
pub open spec fn plus_ops() -> Seq<Op> {
    Seq::<Op>::empty().push(Op::Loop(Seq::<Op>::empty().push(Op::Add(-1)).push(Op::Move(-1)).push(Op::Add(1)).push(Op::Move(1))))
}

/// The code of `Plus` is a program of its operations.
pub proof fn lemma_plus_reads()
    ensures
        reads("[-<+>]"@, plus_ops()),
{
    let code = "[-<+>]"@;
    reveal_strlit("[-<+>]");
    let e = Seq::<Op>::empty();
    lemma_covers_nothing(code, 0);
    lemma_covers_nothing(code, 1);
    let a1 = e.push(Op::Add(-1));
    lemma_covers_step(code, 1, 1, e, Op::Add(-1));
    let a2 = a1.push(Op::Move(-1));
    lemma_covers_step(code, 1, 2, a1, Op::Move(-1));
    let a3 = a2.push(Op::Add(1));
    lemma_covers_step(code, 1, 3, a2, Op::Add(1));
    let a4 = a3.push(Op::Move(1));
    lemma_covers_step(code, 1, 4, a3, Op::Move(1));
    let a5 = e.push(Op::Loop(a4));
    lemma_covers_loop(code, 0, 0, e, 5, a4);
    assert(a5 == plus_ops());
}

/// The operations of the code of `Minus`.
pub open spec fn minus_ops() -> Seq<Op> {
    Seq::<Op>::empty().push(Op::Loop(Seq::<Op>::empty().push(Op::Add(-1)).push(Op::Move(-1)).push(Op::Add(-1)).push(Op::Move(1))))
}

/// The code of `Minus` is a program of its operations.
pub proof fn lemma_minus_reads()
    ensures
        reads("[-<->]"@, minus_ops()),
{
    let code = "[-<->]"@;
    reveal_strlit("[-<->]");
    let e = Seq::<Op>::empty();
    lemma_covers_nothing(code, 0);
    lemma_covers_nothing(code, 1);
    let a1 = e.push(Op::Add(-1));
    lemma_covers_step(code, 1, 1, e, Op::Add(-1));
    let a2 = a1.push(Op::Move(-1));
    lemma_covers_step(code, 1, 2, a1, Op::Move(-1));
    let a3 = a2.push(Op::Add(-1));
    lemma_covers_step(code, 1, 3, a2, Op::Add(-1));
    let a4 = a3.push(Op::Move(1));
    lemma_covers_step(code, 1, 4, a3, Op::Move(1));
    let a5 = e.push(Op::Loop(a4));
    lemma_covers_loop(code, 0, 0, e, 5, a4);
    assert(a5 == minus_ops());
}

/// The operations of the code of `Star`.
pub open spec fn star_ops() -> Seq<Op> {
    Seq::<Op>::empty().push(Op::Move(1)).push(Op::Loop(Seq::<Op>::empty().push(Op::Add(-1)))).push(Op::Move(1)).push(Op::Loop(Seq::<Op>::empty().push(Op::Add(-1)))).push(Op::Move(-1)).push(Op::Move(-1)).push(Op::Move(-1)).push(Op::Loop(Seq::<Op>::empty().push(Op::Add(-1)).push(Op::Move(1)).push(Op::Move(1)).push(Op::Add(1)).push(Op::Move(-1)).push(Op::Move(-1)))).push(Op::Move(1)).push(Op::Loop(Seq::<Op>::empty().push(Op::Add(-1)).push(Op::Move(1)).push(Op::Loop(Seq::<Op>::empty().push(Op::Add(-1)).push(Op::Move(1)).push(Op::Add(1)).push(Op::Move(-1)).push(Op::Move(-1)).push(Op::Move(-1)).push(Op::Add(1)).push(Op::Move(1)).push(Op::Move(1)))).push(Op::Move(1)).push(Op::Loop(Seq::<Op>::empty().push(Op::Add(-1)).push(Op::Move(-1)).push(Op::Add(1)).push(Op::Move(1)))).push(Op::Move(-1)).push(Op::Move(-1)))).push(Op::Move(1)).push(Op::Loop(Seq::<Op>::empty().push(Op::Add(-1)))).push(Op::Move(-1))
}

/// The code of `Star` is a program of its operations.
pub proof fn lemma_star_reads()
    ensures
        reads(">[-]>[-]<<<[->>+<<]>[->[->+<<<+>>]>[-<+>]<<]>[-]<"@, star_ops()),
{
    let code = ">[-]>[-]<<<[->>+<<]>[->[->+<<<+>>]>[-<+>]<<]>[-]<"@;
    reveal_strlit(">[-]>[-]<<<[->>+<<]>[->[->+<<<+>>]>[-<+>]<<]>[-]<");
    let e = Seq::<Op>::empty();
    lemma_covers_nothing(code, 0);
    let a1 = e.push(Op::Move(1));
    lemma_covers_step(code, 0, 0, e, Op::Move(1));
    lemma_covers_nothing(code, 2);
    let a2 = e.push(Op::Add(-1));
    lemma_covers_step(code, 2, 2, e, Op::Add(-1));
    let a3 = a1.push(Op::Loop(a2));
    lemma_covers_loop(code, 0, 1, a1, 3, a2);
    let a4 = a3.push(Op::Move(1));
    lemma_covers_step(code, 0, 4, a3, Op::Move(1));
    lemma_covers_nothing(code, 6);
    let a5 = e.push(Op::Add(-1));
    lemma_covers_step(code, 6, 6, e, Op::Add(-1));
    let a6 = a4.push(Op::Loop(a5));
    lemma_covers_loop(code, 0, 5, a4, 7, a5);
    let a7 = a6.push(Op::Move(-1));
    lemma_covers_step(code, 0, 8, a6, Op::Move(-1));
    let a8 = a7.push(Op::Move(-1));
    lemma_covers_step(code, 0, 9, a7, Op::Move(-1));
    let a9 = a8.push(Op::Move(-1));
    lemma_covers_step(code, 0, 10, a8, Op::Move(-1));
    lemma_covers_nothing(code, 12);
    let a10 = e.push(Op::Add(-1));
    lemma_covers_step(code, 12, 12, e, Op::Add(-1));
    let a11 = a10.push(Op::Move(1));
    lemma_covers_step(code, 12, 13, a10, Op::Move(1));
    let a12 = a11.push(Op::Move(1));
    lemma_covers_step(code, 12, 14, a11, Op::Move(1));
    let a13 = a12.push(Op::Add(1));
    lemma_covers_step(code, 12, 15, a12, Op::Add(1));
    let a14 = a13.push(Op::Move(-1));
    lemma_covers_step(code, 12, 16, a13, Op::Move(-1));
    let a15 = a14.push(Op::Move(-1));
    lemma_covers_step(code, 12, 17, a14, Op::Move(-1));
    let a16 = a9.push(Op::Loop(a15));
    lemma_covers_loop(code, 0, 11, a9, 18, a15);
    let a17 = a16.push(Op::Move(1));
    lemma_covers_step(code, 0, 19, a16, Op::Move(1));
    lemma_covers_nothing(code, 21);
    let a18 = e.push(Op::Add(-1));
    lemma_covers_step(code, 21, 21, e, Op::Add(-1));
    let a19 = a18.push(Op::Move(1));
    lemma_covers_step(code, 21, 22, a18, Op::Move(1));
    lemma_covers_nothing(code, 24);
    let a20 = e.push(Op::Add(-1));
    lemma_covers_step(code, 24, 24, e, Op::Add(-1));
    let a21 = a20.push(Op::Move(1));
    lemma_covers_step(code, 24, 25, a20, Op::Move(1));
    let a22 = a21.push(Op::Add(1));
    lemma_covers_step(code, 24, 26, a21, Op::Add(1));
    let a23 = a22.push(Op::Move(-1));
    lemma_covers_step(code, 24, 27, a22, Op::Move(-1));
    let a24 = a23.push(Op::Move(-1));
    lemma_covers_step(code, 24, 28, a23, Op::Move(-1));
    let a25 = a24.push(Op::Move(-1));
    lemma_covers_step(code, 24, 29, a24, Op::Move(-1));
    let a26 = a25.push(Op::Add(1));
    lemma_covers_step(code, 24, 30, a25, Op::Add(1));
    let a27 = a26.push(Op::Move(1));
    lemma_covers_step(code, 24, 31, a26, Op::Move(1));
    let a28 = a27.push(Op::Move(1));
    lemma_covers_step(code, 24, 32, a27, Op::Move(1));
    let a29 = a19.push(Op::Loop(a28));
    lemma_covers_loop(code, 21, 23, a19, 33, a28);
    let a30 = a29.push(Op::Move(1));
    lemma_covers_step(code, 21, 34, a29, Op::Move(1));
    lemma_covers_nothing(code, 36);
    let a31 = e.push(Op::Add(-1));
    lemma_covers_step(code, 36, 36, e, Op::Add(-1));
    let a32 = a31.push(Op::Move(-1));
    lemma_covers_step(code, 36, 37, a31, Op::Move(-1));
    let a33 = a32.push(Op::Add(1));
    lemma_covers_step(code, 36, 38, a32, Op::Add(1));
    let a34 = a33.push(Op::Move(1));
    lemma_covers_step(code, 36, 39, a33, Op::Move(1));
    let a35 = a30.push(Op::Loop(a34));
    lemma_covers_loop(code, 21, 35, a30, 40, a34);
    let a36 = a35.push(Op::Move(-1));
    lemma_covers_step(code, 21, 41, a35, Op::Move(-1));
    let a37 = a36.push(Op::Move(-1));
    lemma_covers_step(code, 21, 42, a36, Op::Move(-1));
    let a38 = a17.push(Op::Loop(a37));
    lemma_covers_loop(code, 0, 20, a17, 43, a37);
    let a39 = a38.push(Op::Move(1));
    lemma_covers_step(code, 0, 44, a38, Op::Move(1));
    lemma_covers_nothing(code, 46);
    let a40 = e.push(Op::Add(-1));
    lemma_covers_step(code, 46, 46, e, Op::Add(-1));
    let a41 = a39.push(Op::Loop(a40));
    lemma_covers_loop(code, 0, 45, a39, 47, a40);
    let a42 = a41.push(Op::Move(-1));
    lemma_covers_step(code, 0, 48, a41, Op::Move(-1));
    assert(a42 == star_ops());
}

/// The operations of the code of `Slash`.
pub open spec fn slash_ops() -> Seq<Op> {
    Seq::<Op>::empty().push(Op::Move(1)).push(Op::Loop(Seq::<Op>::empty().push(Op::Add(-1)))).push(Op::Add(1)).push(Op::Move(1)).push(Op::Loop(Seq::<Op>::empty().push(Op::Add(-1)))).push(Op::Move(1)).push(Op::Loop(Seq::<Op>::empty().push(Op::Add(-1)))).push(Op::Move(1)).push(Op::Loop(Seq::<Op>::empty().push(Op::Add(-1)))).push(Op::Move(-1)).push(Op::Move(-1)).push(Op::Move(-1)).push(Op::Move(-1)).push(Op::Move(-1)).push(Op::Loop(Seq::<Op>::empty().push(Op::Add(-1)).push(Op::Move(1)).push(Op::Add(-1)).push(Op::Loop(Seq::<Op>::empty().push(Op::Move(1)).push(Op::Add(1)).push(Op::Move(1)).push(Op::Move(1)))).push(Op::Move(1)).push(Op::Loop(Seq::<Op>::empty().push(Op::Loop(Seq::<Op>::empty().push(Op::Add(-1)).push(Op::Move(-1)).push(Op::Add(1)).push(Op::Move(1)))).push(Op::Add(1)).push(Op::Move(1)).push(Op::Add(1)).push(Op::Move(1)).push(Op::Move(1)))).push(Op::Move(-1)).push(Op::Move(-1)).push(Op::Move(-1)).push(Op::Move(-1)).push(Op::Move(-1)))).push(Op::Move(1)).push(Op::Move(1)).push(Op::Move(1)).push(Op::Loop(Seq::<Op>::empty().push(Op::Add(-1)).push(Op::Move(-1)).push(Op::Move(-1)).push(Op::Move(-1)).push(Op::Add(1)).push(Op::Move(1)).push(Op::Move(1)).push(Op::Move(1)))).push(Op::Move(-1)).push(Op::Move(-1)).push(Op::Loop(Seq::<Op>::empty().push(Op::Add(-1)))).push(Op::Move(1)).push(Op::Loop(Seq::<Op>::empty().push(Op::Add(-1)))).push(Op::Move(-1))
}

/// The code of `Slash` is a program of its operations.
pub proof fn lemma_slash_reads()
    ensures
        reads(">[-]+>[-]>[-]>[-]<<<<<[->-[>+>>]>[[-<+>]+>+>>]<<<<<]>>>[-<<<+>>>]<<[-]>[-]<"@, slash_ops()),
{
    let code = ">[-]+>[-]>[-]>[-]<<<<<[->-[>+>>]>[[-<+>]+>+>>]<<<<<]>>>[-<<<+>>>]<<[-]>[-]<"@;
    reveal_strlit(">[-]+>[-]>[-]>[-]<<<<<[->-[>+>>]>[[-<+>]+>+>>]<<<<<]>>>[-<<<+>>>]<<[-]>[-]<");
    let e = Seq::<Op>::empty();
    lemma_covers_nothing(code, 0);
    let a1 = e.push(Op::Move(1));
    lemma_covers_step(code, 0, 0, e, Op::Move(1));
    lemma_covers_nothing(code, 2);
    let a2 = e.push(Op::Add(-1));
    lemma_covers_step(code, 2, 2, e, Op::Add(-1));
    let a3 = a1.push(Op::Loop(a2));
    lemma_covers_loop(code, 0, 1, a1, 3, a2);
    let a4 = a3.push(Op::Add(1));
    lemma_covers_step(code, 0, 4, a3, Op::Add(1));
    let a5 = a4.push(Op::Move(1));
    lemma_covers_step(code, 0, 5, a4, Op::Move(1));
    lemma_covers_nothing(code, 7);
    let a6 = e.push(Op::Add(-1));
    lemma_covers_step(code, 7, 7, e, Op::Add(-1));
    let a7 = a5.push(Op::Loop(a6));
    lemma_covers_loop(code, 0, 6, a5, 8, a6);
    let a8 = a7.push(Op::Move(1));
    lemma_covers_step(code, 0, 9, a7, Op::Move(1));
    lemma_covers_nothing(code, 11);
    let a9 = e.push(Op::Add(-1));
    lemma_covers_step(code, 11, 11, e, Op::Add(-1));
    let a10 = a8.push(Op::Loop(a9));
    lemma_covers_loop(code, 0, 10, a8, 12, a9);
    let a11 = a10.push(Op::Move(1));
    lemma_covers_step(code, 0, 13, a10, Op::Move(1));
    lemma_covers_nothing(code, 15);
    let a12 = e.push(Op::Add(-1));
    lemma_covers_step(code, 15, 15, e, Op::Add(-1));
    let a13 = a11.push(Op::Loop(a12));
    lemma_covers_loop(code, 0, 14, a11, 16, a12);
    let a14 = a13.push(Op::Move(-1));
    lemma_covers_step(code, 0, 17, a13, Op::Move(-1));
    let a15 = a14.push(Op::Move(-1));
    lemma_covers_step(code, 0, 18, a14, Op::Move(-1));
    let a16 = a15.push(Op::Move(-1));
    lemma_covers_step(code, 0, 19, a15, Op::Move(-1));
    let a17 = a16.push(Op::Move(-1));
    lemma_covers_step(code, 0, 20, a16, Op::Move(-1));
    let a18 = a17.push(Op::Move(-1));
    lemma_covers_step(code, 0, 21, a17, Op::Move(-1));
    lemma_covers_nothing(code, 23);
    let a19 = e.push(Op::Add(-1));
    lemma_covers_step(code, 23, 23, e, Op::Add(-1));
    let a20 = a19.push(Op::Move(1));
    lemma_covers_step(code, 23, 24, a19, Op::Move(1));
    let a21 = a20.push(Op::Add(-1));
    lemma_covers_step(code, 23, 25, a20, Op::Add(-1));
    lemma_covers_nothing(code, 27);
    let a22 = e.push(Op::Move(1));
    lemma_covers_step(code, 27, 27, e, Op::Move(1));
    let a23 = a22.push(Op::Add(1));
    lemma_covers_step(code, 27, 28, a22, Op::Add(1));
    let a24 = a23.push(Op::Move(1));
    lemma_covers_step(code, 27, 29, a23, Op::Move(1));
    let a25 = a24.push(Op::Move(1));
    lemma_covers_step(code, 27, 30, a24, Op::Move(1));
    let a26 = a21.push(Op::Loop(a25));
    lemma_covers_loop(code, 23, 26, a21, 31, a25);
    let a27 = a26.push(Op::Move(1));
    lemma_covers_step(code, 23, 32, a26, Op::Move(1));
    lemma_covers_nothing(code, 34);
    lemma_covers_nothing(code, 35);
    let a28 = e.push(Op::Add(-1));
    lemma_covers_step(code, 35, 35, e, Op::Add(-1));
    let a29 = a28.push(Op::Move(-1));
    lemma_covers_step(code, 35, 36, a28, Op::Move(-1));
    let a30 = a29.push(Op::Add(1));
    lemma_covers_step(code, 35, 37, a29, Op::Add(1));
    let a31 = a30.push(Op::Move(1));
    lemma_covers_step(code, 35, 38, a30, Op::Move(1));
    let a32 = e.push(Op::Loop(a31));
    lemma_covers_loop(code, 34, 34, e, 39, a31);
    let a33 = a32.push(Op::Add(1));
    lemma_covers_step(code, 34, 40, a32, Op::Add(1));
    let a34 = a33.push(Op::Move(1));
    lemma_covers_step(code, 34, 41, a33, Op::Move(1));
    let a35 = a34.push(Op::Add(1));
    lemma_covers_step(code, 34, 42, a34, Op::Add(1));
    let a36 = a35.push(Op::Move(1));
    lemma_covers_step(code, 34, 43, a35, Op::Move(1));
    let a37 = a36.push(Op::Move(1));
    lemma_covers_step(code, 34, 44, a36, Op::Move(1));
    let a38 = a27.push(Op::Loop(a37));
    lemma_covers_loop(code, 23, 33, a27, 45, a37);
    let a39 = a38.push(Op::Move(-1));
    lemma_covers_step(code, 23, 46, a38, Op::Move(-1));
    let a40 = a39.push(Op::Move(-1));
    lemma_covers_step(code, 23, 47, a39, Op::Move(-1));
    let a41 = a40.push(Op::Move(-1));
    lemma_covers_step(code, 23, 48, a40, Op::Move(-1));
    let a42 = a41.push(Op::Move(-1));
    lemma_covers_step(code, 23, 49, a41, Op::Move(-1));
    let a43 = a42.push(Op::Move(-1));
    lemma_covers_step(code, 23, 50, a42, Op::Move(-1));
    let a44 = a18.push(Op::Loop(a43));
    lemma_covers_loop(code, 0, 22, a18, 51, a43);
    let a45 = a44.push(Op::Move(1));
    lemma_covers_step(code, 0, 52, a44, Op::Move(1));
    let a46 = a45.push(Op::Move(1));
    lemma_covers_step(code, 0, 53, a45, Op::Move(1));
    let a47 = a46.push(Op::Move(1));
    lemma_covers_step(code, 0, 54, a46, Op::Move(1));
    lemma_covers_nothing(code, 56);
    let a48 = e.push(Op::Add(-1));
    lemma_covers_step(code, 56, 56, e, Op::Add(-1));
    let a49 = a48.push(Op::Move(-1));
    lemma_covers_step(code, 56, 57, a48, Op::Move(-1));
    let a50 = a49.push(Op::Move(-1));
    lemma_covers_step(code, 56, 58, a49, Op::Move(-1));
    let a51 = a50.push(Op::Move(-1));
    lemma_covers_step(code, 56, 59, a50, Op::Move(-1));
    let a52 = a51.push(Op::Add(1));
    lemma_covers_step(code, 56, 60, a51, Op::Add(1));
    let a53 = a52.push(Op::Move(1));
    lemma_covers_step(code, 56, 61, a52, Op::Move(1));
    let a54 = a53.push(Op::Move(1));
    lemma_covers_step(code, 56, 62, a53, Op::Move(1));
    let a55 = a54.push(Op::Move(1));
    lemma_covers_step(code, 56, 63, a54, Op::Move(1));
    let a56 = a47.push(Op::Loop(a55));
    lemma_covers_loop(code, 0, 55, a47, 64, a55);
    let a57 = a56.push(Op::Move(-1));
    lemma_covers_step(code, 0, 65, a56, Op::Move(-1));
    let a58 = a57.push(Op::Move(-1));
    lemma_covers_step(code, 0, 66, a57, Op::Move(-1));
    lemma_covers_nothing(code, 68);
    let a59 = e.push(Op::Add(-1));
    lemma_covers_step(code, 68, 68, e, Op::Add(-1));
    let a60 = a58.push(Op::Loop(a59));
    lemma_covers_loop(code, 0, 67, a58, 69, a59);
    let a61 = a60.push(Op::Move(1));
    lemma_covers_step(code, 0, 70, a60, Op::Move(1));
    lemma_covers_nothing(code, 72);
    let a62 = e.push(Op::Add(-1));
    lemma_covers_step(code, 72, 72, e, Op::Add(-1));
    let a63 = a61.push(Op::Loop(a62));
    lemma_covers_loop(code, 0, 71, a61, 73, a62);
    let a64 = a63.push(Op::Move(-1));
    lemma_covers_step(code, 0, 74, a63, Op::Move(-1));
    assert(a64 == slash_ops());
}

/// The operations of the code of `Percent`.
pub open spec fn percent_ops() -> Seq<Op> {
    Seq::<Op>::empty().push(Op::Move(1)).push(Op::Loop(Seq::<Op>::empty().push(Op::Add(-1)))).push(Op::Add(1)).push(Op::Move(1)).push(Op::Loop(Seq::<Op>::empty().push(Op::Add(-1)))).push(Op::Move(1)).push(Op::Loop(Seq::<Op>::empty().push(Op::Add(-1)))).push(Op::Move(1)).push(Op::Loop(Seq::<Op>::empty().push(Op::Add(-1)))).push(Op::Move(-1)).push(Op::Move(-1)).push(Op::Move(-1)).push(Op::Move(-1)).push(Op::Move(-1)).push(Op::Loop(Seq::<Op>::empty().push(Op::Add(-1)).push(Op::Move(1)).push(Op::Add(-1)).push(Op::Loop(Seq::<Op>::empty().push(Op::Move(1)).push(Op::Add(1)).push(Op::Move(1)).push(Op::Move(1)))).push(Op::Move(1)).push(Op::Loop(Seq::<Op>::empty().push(Op::Loop(Seq::<Op>::empty().push(Op::Add(-1)).push(Op::Move(-1)).push(Op::Add(1)).push(Op::Move(1)))).push(Op::Add(1)).push(Op::Move(1)).push(Op::Move(1)).push(Op::Move(1)))).push(Op::Move(-1)).push(Op::Move(-1)).push(Op::Move(-1)).push(Op::Move(-1)).push(Op::Move(-1)))).push(Op::Move(1)).push(Op::Move(1)).push(Op::Add(-1)).push(Op::Loop(Seq::<Op>::empty().push(Op::Add(-1)).push(Op::Move(-1)).push(Op::Move(-1)).push(Op::Add(1)).push(Op::Move(1)).push(Op::Move(1)))).push(Op::Move(-1)).push(Op::Loop(Seq::<Op>::empty().push(Op::Add(-1))))
}

/// The code of `Percent` is a program of its operations.
pub proof fn lemma_percent_reads()
    ensures
        reads(">[-]+>[-]>[-]>[-]<<<<<[->-[>+>>]>[[-<+>]+> >>]<<<<<]>>-[-<<+>>]<[-]"@, percent_ops()),
{
    let code = ">[-]+>[-]>[-]>[-]<<<<<[->-[>+>>]>[[-<+>]+> >>]<<<<<]>>-[-<<+>>]<[-]"@;
    reveal_strlit(">[-]+>[-]>[-]>[-]<<<<<[->-[>+>>]>[[-<+>]+> >>]<<<<<]>>-[-<<+>>]<[-]");
    let e = Seq::<Op>::empty();
    lemma_covers_nothing(code, 0);
    let a1 = e.push(Op::Move(1));
    lemma_covers_step(code, 0, 0, e, Op::Move(1));
    lemma_covers_nothing(code, 2);
    let a2 = e.push(Op::Add(-1));
    lemma_covers_step(code, 2, 2, e, Op::Add(-1));
    let a3 = a1.push(Op::Loop(a2));
    lemma_covers_loop(code, 0, 1, a1, 3, a2);
    let a4 = a3.push(Op::Add(1));
    lemma_covers_step(code, 0, 4, a3, Op::Add(1));
    let a5 = a4.push(Op::Move(1));
    lemma_covers_step(code, 0, 5, a4, Op::Move(1));
    lemma_covers_nothing(code, 7);
    let a6 = e.push(Op::Add(-1));
    lemma_covers_step(code, 7, 7, e, Op::Add(-1));
    let a7 = a5.push(Op::Loop(a6));
    lemma_covers_loop(code, 0, 6, a5, 8, a6);
    let a8 = a7.push(Op::Move(1));
    lemma_covers_step(code, 0, 9, a7, Op::Move(1));
    lemma_covers_nothing(code, 11);
    let a9 = e.push(Op::Add(-1));
    lemma_covers_step(code, 11, 11, e, Op::Add(-1));
    let a10 = a8.push(Op::Loop(a9));
    lemma_covers_loop(code, 0, 10, a8, 12, a9);
    let a11 = a10.push(Op::Move(1));
    lemma_covers_step(code, 0, 13, a10, Op::Move(1));
    lemma_covers_nothing(code, 15);
    let a12 = e.push(Op::Add(-1));
    lemma_covers_step(code, 15, 15, e, Op::Add(-1));
    let a13 = a11.push(Op::Loop(a12));
    lemma_covers_loop(code, 0, 14, a11, 16, a12);
    let a14 = a13.push(Op::Move(-1));
    lemma_covers_step(code, 0, 17, a13, Op::Move(-1));
    let a15 = a14.push(Op::Move(-1));
    lemma_covers_step(code, 0, 18, a14, Op::Move(-1));
    let a16 = a15.push(Op::Move(-1));
    lemma_covers_step(code, 0, 19, a15, Op::Move(-1));
    let a17 = a16.push(Op::Move(-1));
    lemma_covers_step(code, 0, 20, a16, Op::Move(-1));
    let a18 = a17.push(Op::Move(-1));
    lemma_covers_step(code, 0, 21, a17, Op::Move(-1));
    lemma_covers_nothing(code, 23);
    let a19 = e.push(Op::Add(-1));
    lemma_covers_step(code, 23, 23, e, Op::Add(-1));
    let a20 = a19.push(Op::Move(1));
    lemma_covers_step(code, 23, 24, a19, Op::Move(1));
    let a21 = a20.push(Op::Add(-1));
    lemma_covers_step(code, 23, 25, a20, Op::Add(-1));
    lemma_covers_nothing(code, 27);
    let a22 = e.push(Op::Move(1));
    lemma_covers_step(code, 27, 27, e, Op::Move(1));
    let a23 = a22.push(Op::Add(1));
    lemma_covers_step(code, 27, 28, a22, Op::Add(1));
    let a24 = a23.push(Op::Move(1));
    lemma_covers_step(code, 27, 29, a23, Op::Move(1));
    let a25 = a24.push(Op::Move(1));
    lemma_covers_step(code, 27, 30, a24, Op::Move(1));
    let a26 = a21.push(Op::Loop(a25));
    lemma_covers_loop(code, 23, 26, a21, 31, a25);
    let a27 = a26.push(Op::Move(1));
    lemma_covers_step(code, 23, 32, a26, Op::Move(1));
    lemma_covers_nothing(code, 34);
    lemma_covers_nothing(code, 35);
    let a28 = e.push(Op::Add(-1));
    lemma_covers_step(code, 35, 35, e, Op::Add(-1));
    let a29 = a28.push(Op::Move(-1));
    lemma_covers_step(code, 35, 36, a28, Op::Move(-1));
    let a30 = a29.push(Op::Add(1));
    lemma_covers_step(code, 35, 37, a29, Op::Add(1));
    let a31 = a30.push(Op::Move(1));
    lemma_covers_step(code, 35, 38, a30, Op::Move(1));
    let a32 = e.push(Op::Loop(a31));
    lemma_covers_loop(code, 34, 34, e, 39, a31);
    let a33 = a32.push(Op::Add(1));
    lemma_covers_step(code, 34, 40, a32, Op::Add(1));
    let a34 = a33.push(Op::Move(1));
    lemma_covers_step(code, 34, 41, a33, Op::Move(1));
    lemma_covers_skip(code, 34, 42, a34);
    let a35 = a34.push(Op::Move(1));
    lemma_covers_step(code, 34, 43, a34, Op::Move(1));
    let a36 = a35.push(Op::Move(1));
    lemma_covers_step(code, 34, 44, a35, Op::Move(1));
    let a37 = a27.push(Op::Loop(a36));
    lemma_covers_loop(code, 23, 33, a27, 45, a36);
    let a38 = a37.push(Op::Move(-1));
    lemma_covers_step(code, 23, 46, a37, Op::Move(-1));
    let a39 = a38.push(Op::Move(-1));
    lemma_covers_step(code, 23, 47, a38, Op::Move(-1));
    let a40 = a39.push(Op::Move(-1));
    lemma_covers_step(code, 23, 48, a39, Op::Move(-1));
    let a41 = a40.push(Op::Move(-1));
    lemma_covers_step(code, 23, 49, a40, Op::Move(-1));
    let a42 = a41.push(Op::Move(-1));
    lemma_covers_step(code, 23, 50, a41, Op::Move(-1));
    let a43 = a18.push(Op::Loop(a42));
    lemma_covers_loop(code, 0, 22, a18, 51, a42);
    let a44 = a43.push(Op::Move(1));
    lemma_covers_step(code, 0, 52, a43, Op::Move(1));
    let a45 = a44.push(Op::Move(1));
    lemma_covers_step(code, 0, 53, a44, Op::Move(1));
    let a46 = a45.push(Op::Add(-1));
    lemma_covers_step(code, 0, 54, a45, Op::Add(-1));
    lemma_covers_nothing(code, 56);
    let a47 = e.push(Op::Add(-1));
    lemma_covers_step(code, 56, 56, e, Op::Add(-1));
    let a48 = a47.push(Op::Move(-1));
    lemma_covers_step(code, 56, 57, a47, Op::Move(-1));
    let a49 = a48.push(Op::Move(-1));
    lemma_covers_step(code, 56, 58, a48, Op::Move(-1));
    let a50 = a49.push(Op::Add(1));
    lemma_covers_step(code, 56, 59, a49, Op::Add(1));
    let a51 = a50.push(Op::Move(1));
    lemma_covers_step(code, 56, 60, a50, Op::Move(1));
    let a52 = a51.push(Op::Move(1));
    lemma_covers_step(code, 56, 61, a51, Op::Move(1));
    let a53 = a46.push(Op::Loop(a52));
    lemma_covers_loop(code, 0, 55, a46, 62, a52);
    let a54 = a53.push(Op::Move(-1));
    lemma_covers_step(code, 0, 63, a53, Op::Move(-1));
    lemma_covers_nothing(code, 65);
    let a55 = e.push(Op::Add(-1));
    lemma_covers_step(code, 65, 65, e, Op::Add(-1));
    let a56 = a54.push(Op::Loop(a55));
    lemma_covers_loop(code, 0, 64, a54, 66, a55);
    assert(a56 == percent_ops());
}

/// The operations of the code of `EqEq`.
pub open spec fn eq_eq_ops() -> Seq<Op> {
    Seq::<Op>::empty().push(Op::Move(-1)).push(Op::Loop(Seq::<Op>::empty().push(Op::Add(-1)).push(Op::Move(1)).push(Op::Add(-1)).push(Op::Move(-1)))).push(Op::Add(1)).push(Op::Move(1)).push(Op::Loop(Seq::<Op>::empty().push(Op::Move(-1)).push(Op::Add(-1)).push(Op::Move(1)).push(Op::Loop(Seq::<Op>::empty().push(Op::Add(-1))))))
}

/// The code of `EqEq` is a program of its operations.
pub proof fn lemma_eq_eq_reads()
    ensures
        reads("<[->-<]+>[<->[-]]"@, eq_eq_ops()),
{
    let code = "<[->-<]+>[<->[-]]"@;
    reveal_strlit("<[->-<]+>[<->[-]]");
    let e = Seq::<Op>::empty();
    lemma_covers_nothing(code, 0);
    let a1 = e.push(Op::Move(-1));
    lemma_covers_step(code, 0, 0, e, Op::Move(-1));
    lemma_covers_nothing(code, 2);
    let a2 = e.push(Op::Add(-1));
    lemma_covers_step(code, 2, 2, e, Op::Add(-1));
    let a3 = a2.push(Op::Move(1));
    lemma_covers_step(code, 2, 3, a2, Op::Move(1));
    let a4 = a3.push(Op::Add(-1));
    lemma_covers_step(code, 2, 4, a3, Op::Add(-1));
    let a5 = a4.push(Op::Move(-1));
    lemma_covers_step(code, 2, 5, a4, Op::Move(-1));
    let a6 = a1.push(Op::Loop(a5));
    lemma_covers_loop(code, 0, 1, a1, 6, a5);
    let a7 = a6.push(Op::Add(1));
    lemma_covers_step(code, 0, 7, a6, Op::Add(1));
    let a8 = a7.push(Op::Move(1));
    lemma_covers_step(code, 0, 8, a7, Op::Move(1));
    lemma_covers_nothing(code, 10);
    let a9 = e.push(Op::Move(-1));
    lemma_covers_step(code, 10, 10, e, Op::Move(-1));
    let a10 = a9.push(Op::Add(-1));
    lemma_covers_step(code, 10, 11, a9, Op::Add(-1));
    let a11 = a10.push(Op::Move(1));
    lemma_covers_step(code, 10, 12, a10, Op::Move(1));
    lemma_covers_nothing(code, 14);
    let a12 = e.push(Op::Add(-1));
    lemma_covers_step(code, 14, 14, e, Op::Add(-1));
    let a13 = a11.push(Op::Loop(a12));
    lemma_covers_loop(code, 10, 13, a11, 15, a12);
    let a14 = a8.push(Op::Loop(a13));
    lemma_covers_loop(code, 0, 9, a8, 16, a13);
    assert(a14 == eq_eq_ops());
}

/// The operations of the code of `NotEq`.
pub open spec fn not_eq_ops() -> Seq<Op> {
    Seq::<Op>::empty().push(Op::Move(-1)).push(Op::Loop(Seq::<Op>::empty().push(Op::Add(-1)).push(Op::Move(1)).push(Op::Add(-1)).push(Op::Move(-1)))).push(Op::Move(1)).push(Op::Loop(Seq::<Op>::empty().push(Op::Move(-1)).push(Op::Add(1)).push(Op::Move(1)).push(Op::Loop(Seq::<Op>::empty().push(Op::Add(-1))))))
}

/// The code of `NotEq` is a program of its operations.
pub proof fn lemma_not_eq_reads()
    ensures
        reads("<[->-<]>[<+>[-]]"@, not_eq_ops()),
{
    let code = "<[->-<]>[<+>[-]]"@;
    reveal_strlit("<[->-<]>[<+>[-]]");
    let e = Seq::<Op>::empty();
    lemma_covers_nothing(code, 0);
    let a1 = e.push(Op::Move(-1));
    lemma_covers_step(code, 0, 0, e, Op::Move(-1));
    lemma_covers_nothing(code, 2);
    let a2 = e.push(Op::Add(-1));
    lemma_covers_step(code, 2, 2, e, Op::Add(-1));
    let a3 = a2.push(Op::Move(1));
    lemma_covers_step(code, 2, 3, a2, Op::Move(1));
    let a4 = a3.push(Op::Add(-1));
    lemma_covers_step(code, 2, 4, a3, Op::Add(-1));
    let a5 = a4.push(Op::Move(-1));
    lemma_covers_step(code, 2, 5, a4, Op::Move(-1));
    let a6 = a1.push(Op::Loop(a5));
    lemma_covers_loop(code, 0, 1, a1, 6, a5);
    let a7 = a6.push(Op::Move(1));
    lemma_covers_step(code, 0, 7, a6, Op::Move(1));
    lemma_covers_nothing(code, 9);
    let a8 = e.push(Op::Move(-1));
    lemma_covers_step(code, 9, 9, e, Op::Move(-1));
    let a9 = a8.push(Op::Add(1));
    lemma_covers_step(code, 9, 10, a8, Op::Add(1));
    let a10 = a9.push(Op::Move(1));
    lemma_covers_step(code, 9, 11, a9, Op::Move(1));
    lemma_covers_nothing(code, 13);
    let a11 = e.push(Op::Add(-1));
    lemma_covers_step(code, 13, 13, e, Op::Add(-1));
    let a12 = a10.push(Op::Loop(a11));
    lemma_covers_loop(code, 9, 12, a10, 14, a11);
    let a13 = a7.push(Op::Loop(a12));
    lemma_covers_loop(code, 0, 8, a7, 15, a12);
    assert(a13 == not_eq_ops());
}

/// The operations of the code of `Greater`.
pub open spec fn greater_ops() -> Seq<Op> {
    Seq::<Op>::empty().push(Op::Move(1)).push(Op::Loop(Seq::<Op>::empty().push(Op::Add(-1)))).push(Op::Move(1)).push(Op::Loop(Seq::<Op>::empty().push(Op::Add(-1)))).push(Op::Move(-1)).push(Op::Move(-1)).push(Op::Loop(Seq::<Op>::empty().push(Op::Add(-1)).push(Op::Move(-1)).push(Op::Loop(Seq::<Op>::empty().push(Op::Add(-1)).push(Op::Move(1)).push(Op::Move(1)).push(Op::Add(1)).push(Op::Move(1)).push(Op::Add(1)).push(Op::Move(-1)).push(Op::Move(-1)).push(Op::Move(-1)))).push(Op::Move(1)).push(Op::Move(1)).push(Op::Loop(Seq::<Op>::empty().push(Op::Add(-1)).push(Op::Move(-1)).push(Op::Move(-1)).push(Op::Add(1)).push(Op::Move(1)).push(Op::Move(1)))).push(Op::Move(1)).push(Op::Loop(Seq::<Op>::empty().push(Op::Move(-1)).push(Op::Move(-1)).push(Op::Move(-1)).push(Op::Add(-1)).push(Op::Move(1)).push(Op::Move(1)).push(Op::Move(1)).push(Op::Loop(Seq::<Op>::empty().push(Op::Add(-1)))))).push(Op::Move(-1)).push(Op::Move(-1)))).push(Op::Move(-1)).push(Op::Loop(Seq::<Op>::empty().push(Op::Move(1)).push(Op::Add(1)).push(Op::Move(-1)).push(Op::Loop(Seq::<Op>::empty().push(Op::Add(-1)))))).push(Op::Move(1)).push(Op::Loop(Seq::<Op>::empty().push(Op::Add(-1)).push(Op::Move(-1)).push(Op::Add(1)).push(Op::Move(1))))
}

/// The code of `Greater` is a program of its operations.
pub proof fn lemma_greater_reads()
    ensures
        reads(">[-]>[-]<<[-<[->>+>+<<<]>>[-<<+>>]>[<<<->>>[-]]<<]<[>+<[-]]>[-<+>]"@, greater_ops()),
{
    let code = ">[-]>[-]<<[-<[->>+>+<<<]>>[-<<+>>]>[<<<->>>[-]]<<]<[>+<[-]]>[-<+>]"@;
    reveal_strlit(">[-]>[-]<<[-<[->>+>+<<<]>>[-<<+>>]>[<<<->>>[-]]<<]<[>+<[-]]>[-<+>]");
    let e = Seq::<Op>::empty();
    lemma_covers_nothing(code, 0);
    let a1 = e.push(Op::Move(1));
    lemma_covers_step(code, 0, 0, e, Op::Move(1));
    lemma_covers_nothing(code, 2);
    let a2 = e.push(Op::Add(-1));
    lemma_covers_step(code, 2, 2, e, Op::Add(-1));
    let a3 = a1.push(Op::Loop(a2));
    lemma_covers_loop(code, 0, 1, a1, 3, a2);
    let a4 = a3.push(Op::Move(1));
    lemma_covers_step(code, 0, 4, a3, Op::Move(1));
    lemma_covers_nothing(code, 6);
    let a5 = e.push(Op::Add(-1));
    lemma_covers_step(code, 6, 6, e, Op::Add(-1));
    let a6 = a4.push(Op::Loop(a5));
    lemma_covers_loop(code, 0, 5, a4, 7, a5);
    let a7 = a6.push(Op::Move(-1));
    lemma_covers_step(code, 0, 8, a6, Op::Move(-1));
    let a8 = a7.push(Op::Move(-1));
    lemma_covers_step(code, 0, 9, a7, Op::Move(-1));
    lemma_covers_nothing(code, 11);
    let a9 = e.push(Op::Add(-1));
    lemma_covers_step(code, 11, 11, e, Op::Add(-1));
    let a10 = a9.push(Op::Move(-1));
    lemma_covers_step(code, 11, 12, a9, Op::Move(-1));
    lemma_covers_nothing(code, 14);
    let a11 = e.push(Op::Add(-1));
    lemma_covers_step(code, 14, 14, e, Op::Add(-1));
    let a12 = a11.push(Op::Move(1));
    lemma_covers_step(code, 14, 15, a11, Op::Move(1));
    let a13 = a12.push(Op::Move(1));
    lemma_covers_step(code, 14, 16, a12, Op::Move(1));
    let a14 = a13.push(Op::Add(1));
    lemma_covers_step(code, 14, 17, a13, Op::Add(1));
    let a15 = a14.push(Op::Move(1));
    lemma_covers_step(code, 14, 18, a14, Op::Move(1));
    let a16 = a15.push(Op::Add(1));
    lemma_covers_step(code, 14, 19, a15, Op::Add(1));
    let a17 = a16.push(Op::Move(-1));
    lemma_covers_step(code, 14, 20, a16, Op::Move(-1));
    let a18 = a17.push(Op::Move(-1));
    lemma_covers_step(code, 14, 21, a17, Op::Move(-1));
    let a19 = a18.push(Op::Move(-1));
    lemma_covers_step(code, 14, 22, a18, Op::Move(-1));
    let a20 = a10.push(Op::Loop(a19));
    lemma_covers_loop(code, 11, 13, a10, 23, a19);
    let a21 = a20.push(Op::Move(1));
    lemma_covers_step(code, 11, 24, a20, Op::Move(1));
    let a22 = a21.push(Op::Move(1));
    lemma_covers_step(code, 11, 25, a21, Op::Move(1));
    lemma_covers_nothing(code, 27);
    let a23 = e.push(Op::Add(-1));
    lemma_covers_step(code, 27, 27, e, Op::Add(-1));
    let a24 = a23.push(Op::Move(-1));
    lemma_covers_step(code, 27, 28, a23, Op::Move(-1));
    let a25 = a24.push(Op::Move(-1));
    lemma_covers_step(code, 27, 29, a24, Op::Move(-1));
    let a26 = a25.push(Op::Add(1));
    lemma_covers_step(code, 27, 30, a25, Op::Add(1));
    let a27 = a26.push(Op::Move(1));
    lemma_covers_step(code, 27, 31, a26, Op::Move(1));
    let a28 = a27.push(Op::Move(1));
    lemma_covers_step(code, 27, 32, a27, Op::Move(1));
    let a29 = a22.push(Op::Loop(a28));
    lemma_covers_loop(code, 11, 26, a22, 33, a28);
    let a30 = a29.push(Op::Move(1));
    lemma_covers_step(code, 11, 34, a29, Op::Move(1));
    lemma_covers_nothing(code, 36);
    let a31 = e.push(Op::Move(-1));
    lemma_covers_step(code, 36, 36, e, Op::Move(-1));
    let a32 = a31.push(Op::Move(-1));
    lemma_covers_step(code, 36, 37, a31, Op::Move(-1));
    let a33 = a32.push(Op::Move(-1));
    lemma_covers_step(code, 36, 38, a32, Op::Move(-1));
    let a34 = a33.push(Op::Add(-1));
    lemma_covers_step(code, 36, 39, a33, Op::Add(-1));
    let a35 = a34.push(Op::Move(1));
    lemma_covers_step(code, 36, 40, a34, Op::Move(1));
    let a36 = a35.push(Op::Move(1));
    lemma_covers_step(code, 36, 41, a35, Op::Move(1));
    let a37 = a36.push(Op::Move(1));
    lemma_covers_step(code, 36, 42, a36, Op::Move(1));
    lemma_covers_nothing(code, 44);
    let a38 = e.push(Op::Add(-1));
    lemma_covers_step(code, 44, 44, e, Op::Add(-1));
    let a39 = a37.push(Op::Loop(a38));
    lemma_covers_loop(code, 36, 43, a37, 45, a38);
    let a40 = a30.push(Op::Loop(a39));
    lemma_covers_loop(code, 11, 35, a30, 46, a39);
    let a41 = a40.push(Op::Move(-1));
    lemma_covers_step(code, 11, 47, a40, Op::Move(-1));
    let a42 = a41.push(Op::Move(-1));
    lemma_covers_step(code, 11, 48, a41, Op::Move(-1));
    let a43 = a8.push(Op::Loop(a42));
    lemma_covers_loop(code, 0, 10, a8, 49, a42);
    let a44 = a43.push(Op::Move(-1));
    lemma_covers_step(code, 0, 50, a43, Op::Move(-1));
    lemma_covers_nothing(code, 52);
    let a45 = e.push(Op::Move(1));
    lemma_covers_step(code, 52, 52, e, Op::Move(1));
    let a46 = a45.push(Op::Add(1));
    lemma_covers_step(code, 52, 53, a45, Op::Add(1));
    let a47 = a46.push(Op::Move(-1));
    lemma_covers_step(code, 52, 54, a46, Op::Move(-1));
    lemma_covers_nothing(code, 56);
    let a48 = e.push(Op::Add(-1));
    lemma_covers_step(code, 56, 56, e, Op::Add(-1));
    let a49 = a47.push(Op::Loop(a48));
    lemma_covers_loop(code, 52, 55, a47, 57, a48);
    let a50 = a44.push(Op::Loop(a49));
    lemma_covers_loop(code, 0, 51, a44, 58, a49);
    let a51 = a50.push(Op::Move(1));
    lemma_covers_step(code, 0, 59, a50, Op::Move(1));
    lemma_covers_nothing(code, 61);
    let a52 = e.push(Op::Add(-1));
    lemma_covers_step(code, 61, 61, e, Op::Add(-1));
    let a53 = a52.push(Op::Move(-1));
    lemma_covers_step(code, 61, 62, a52, Op::Move(-1));
    let a54 = a53.push(Op::Add(1));
    lemma_covers_step(code, 61, 63, a53, Op::Add(1));
    let a55 = a54.push(Op::Move(1));
    lemma_covers_step(code, 61, 64, a54, Op::Move(1));
    let a56 = a51.push(Op::Loop(a55));
    lemma_covers_loop(code, 0, 60, a51, 65, a55);
    assert(a56 == greater_ops());
}

/// The operations of the code of `GreaterEq`.
pub open spec fn greater_eq_ops() -> Seq<Op> {
    Seq::<Op>::empty().push(Op::Move(1)).push(Op::Loop(Seq::<Op>::empty().push(Op::Add(-1)))).push(Op::Move(1)).push(Op::Loop(Seq::<Op>::empty().push(Op::Add(-1)))).push(Op::Move(-1)).push(Op::Move(-1)).push(Op::Move(-1)).push(Op::Loop(Seq::<Op>::empty().push(Op::Add(-1)).push(Op::Move(1)).push(Op::Loop(Seq::<Op>::empty().push(Op::Add(-1)).push(Op::Move(1)).push(Op::Add(1)).push(Op::Move(1)).push(Op::Add(1)).push(Op::Move(-1)).push(Op::Move(-1)))).push(Op::Move(1)).push(Op::Loop(Seq::<Op>::empty().push(Op::Add(-1)).push(Op::Move(-1)).push(Op::Add(1)).push(Op::Move(1)))).push(Op::Move(1)).push(Op::Loop(Seq::<Op>::empty().push(Op::Move(-1)).push(Op::Move(-1)).push(Op::Add(-1)).push(Op::Move(1)).push(Op::Move(1)).push(Op::Loop(Seq::<Op>::empty().push(Op::Add(-1)))))).push(Op::Move(-1)).push(Op::Move(-1)).push(Op::Move(-1)))).push(Op::Add(1)).push(Op::Move(1)).push(Op::Loop(Seq::<Op>::empty().push(Op::Move(-1)).push(Op::Add(-1)).push(Op::Move(1)).push(Op::Loop(Seq::<Op>::empty().push(Op::Add(-1))))))
}

/// The code of `GreaterEq` is a program of its operations.
pub proof fn lemma_greater_eq_reads()
    ensures
        reads(">[-]>[-]<<<[->[->+>+<<]>[-<+>]>[<<->>[-]]<<<]+>[<->[-]]"@, greater_eq_ops()),
{
    let code = ">[-]>[-]<<<[->[->+>+<<]>[-<+>]>[<<->>[-]]<<<]+>[<->[-]]"@;
    reveal_strlit(">[-]>[-]<<<[->[->+>+<<]>[-<+>]>[<<->>[-]]<<<]+>[<->[-]]");
    let e = Seq::<Op>::empty();
    lemma_covers_nothing(code, 0);
    let a1 = e.push(Op::Move(1));
    lemma_covers_step(code, 0, 0, e, Op::Move(1));
    lemma_covers_nothing(code, 2);
    let a2 = e.push(Op::Add(-1));
    lemma_covers_step(code, 2, 2, e, Op::Add(-1));
    let a3 = a1.push(Op::Loop(a2));
    lemma_covers_loop(code, 0, 1, a1, 3, a2);
    let a4 = a3.push(Op::Move(1));
    lemma_covers_step(code, 0, 4, a3, Op::Move(1));
    lemma_covers_nothing(code, 6);
    let a5 = e.push(Op::Add(-1));
    lemma_covers_step(code, 6, 6, e, Op::Add(-1));
    let a6 = a4.push(Op::Loop(a5));
    lemma_covers_loop(code, 0, 5, a4, 7, a5);
    let a7 = a6.push(Op::Move(-1));
    lemma_covers_step(code, 0, 8, a6, Op::Move(-1));
    let a8 = a7.push(Op::Move(-1));
    lemma_covers_step(code, 0, 9, a7, Op::Move(-1));
    let a9 = a8.push(Op::Move(-1));
    lemma_covers_step(code, 0, 10, a8, Op::Move(-1));
    lemma_covers_nothing(code, 12);
    let a10 = e.push(Op::Add(-1));
    lemma_covers_step(code, 12, 12, e, Op::Add(-1));
    let a11 = a10.push(Op::Move(1));
    lemma_covers_step(code, 12, 13, a10, Op::Move(1));
    lemma_covers_nothing(code, 15);
    let a12 = e.push(Op::Add(-1));
    lemma_covers_step(code, 15, 15, e, Op::Add(-1));
    let a13 = a12.push(Op::Move(1));
    lemma_covers_step(code, 15, 16, a12, Op::Move(1));
    let a14 = a13.push(Op::Add(1));
    lemma_covers_step(code, 15, 17, a13, Op::Add(1));
    let a15 = a14.push(Op::Move(1));
    lemma_covers_step(code, 15, 18, a14, Op::Move(1));
    let a16 = a15.push(Op::Add(1));
    lemma_covers_step(code, 15, 19, a15, Op::Add(1));
    let a17 = a16.push(Op::Move(-1));
    lemma_covers_step(code, 15, 20, a16, Op::Move(-1));
    let a18 = a17.push(Op::Move(-1));
    lemma_covers_step(code, 15, 21, a17, Op::Move(-1));
    let a19 = a11.push(Op::Loop(a18));
    lemma_covers_loop(code, 12, 14, a11, 22, a18);
    let a20 = a19.push(Op::Move(1));
    lemma_covers_step(code, 12, 23, a19, Op::Move(1));
    lemma_covers_nothing(code, 25);
    let a21 = e.push(Op::Add(-1));
    lemma_covers_step(code, 25, 25, e, Op::Add(-1));
    let a22 = a21.push(Op::Move(-1));
    lemma_covers_step(code, 25, 26, a21, Op::Move(-1));
    let a23 = a22.push(Op::Add(1));
    lemma_covers_step(code, 25, 27, a22, Op::Add(1));
    let a24 = a23.push(Op::Move(1));
    lemma_covers_step(code, 25, 28, a23, Op::Move(1));
    let a25 = a20.push(Op::Loop(a24));
    lemma_covers_loop(code, 12, 24, a20, 29, a24);
    let a26 = a25.push(Op::Move(1));
    lemma_covers_step(code, 12, 30, a25, Op::Move(1));
    lemma_covers_nothing(code, 32);
    let a27 = e.push(Op::Move(-1));
    lemma_covers_step(code, 32, 32, e, Op::Move(-1));
    let a28 = a27.push(Op::Move(-1));
    lemma_covers_step(code, 32, 33, a27, Op::Move(-1));
    let a29 = a28.push(Op::Add(-1));
    lemma_covers_step(code, 32, 34, a28, Op::Add(-1));
    let a30 = a29.push(Op::Move(1));
    lemma_covers_step(code, 32, 35, a29, Op::Move(1));
    let a31 = a30.push(Op::Move(1));
    lemma_covers_step(code, 32, 36, a30, Op::Move(1));
    lemma_covers_nothing(code, 38);
    let a32 = e.push(Op::Add(-1));
    lemma_covers_step(code, 38, 38, e, Op::Add(-1));
    let a33 = a31.push(Op::Loop(a32));
    lemma_covers_loop(code, 32, 37, a31, 39, a32);
    let a34 = a26.push(Op::Loop(a33));
    lemma_covers_loop(code, 12, 31, a26, 40, a33);
    let a35 = a34.push(Op::Move(-1));
    lemma_covers_step(code, 12, 41, a34, Op::Move(-1));
    let a36 = a35.push(Op::Move(-1));
    lemma_covers_step(code, 12, 42, a35, Op::Move(-1));
    let a37 = a36.push(Op::Move(-1));
    lemma_covers_step(code, 12, 43, a36, Op::Move(-1));
    let a38 = a9.push(Op::Loop(a37));
    lemma_covers_loop(code, 0, 11, a9, 44, a37);
    let a39 = a38.push(Op::Add(1));
    lemma_covers_step(code, 0, 45, a38, Op::Add(1));
    let a40 = a39.push(Op::Move(1));
    lemma_covers_step(code, 0, 46, a39, Op::Move(1));
    lemma_covers_nothing(code, 48);
    let a41 = e.push(Op::Move(-1));
    lemma_covers_step(code, 48, 48, e, Op::Move(-1));
    let a42 = a41.push(Op::Add(-1));
    lemma_covers_step(code, 48, 49, a41, Op::Add(-1));
    let a43 = a42.push(Op::Move(1));
    lemma_covers_step(code, 48, 50, a42, Op::Move(1));
    lemma_covers_nothing(code, 52);
    let a44 = e.push(Op::Add(-1));
    lemma_covers_step(code, 52, 52, e, Op::Add(-1));
    let a45 = a43.push(Op::Loop(a44));
    lemma_covers_loop(code, 48, 51, a43, 53, a44);
    let a46 = a40.push(Op::Loop(a45));
    lemma_covers_loop(code, 0, 47, a40, 54, a45);
    assert(a46 == greater_eq_ops());
}

/// The operations of the code of `Less`.
pub open spec fn less_ops() -> Seq<Op> {
    Seq::<Op>::empty().push(Op::Move(1)).push(Op::Loop(Seq::<Op>::empty().push(Op::Add(-1)))).push(Op::Move(1)).push(Op::Loop(Seq::<Op>::empty().push(Op::Add(-1)))).push(Op::Move(-1)).push(Op::Move(-1)).push(Op::Move(-1)).push(Op::Loop(Seq::<Op>::empty().push(Op::Add(-1)).push(Op::Move(1)).push(Op::Loop(Seq::<Op>::empty().push(Op::Add(-1)).push(Op::Move(1)).push(Op::Add(1)).push(Op::Move(1)).push(Op::Add(1)).push(Op::Move(-1)).push(Op::Move(-1)))).push(Op::Move(1)).push(Op::Loop(Seq::<Op>::empty().push(Op::Add(-1)).push(Op::Move(-1)).push(Op::Add(1)).push(Op::Move(1)))).push(Op::Move(1)).push(Op::Loop(Seq::<Op>::empty().push(Op::Move(-1)).push(Op::Move(-1)).push(Op::Add(-1)).push(Op::Move(1)).push(Op::Move(1)).push(Op::Loop(Seq::<Op>::empty().push(Op::Add(-1)))))).push(Op::Move(-1)).push(Op::Move(-1)).push(Op::Move(-1)))).push(Op::Move(1)).push(Op::Loop(Seq::<Op>::empty().push(Op::Move(-1)).push(Op::Add(1)).push(Op::Move(1)).push(Op::Loop(Seq::<Op>::empty().push(Op::Add(-1))))))
}

/// The code of `Less` is a program of its operations.
pub proof fn lemma_less_reads()
    ensures
        reads(">[-]>[-]<<<[->[->+>+<<]>[-<+>]>[<<->>[-]]<<<]>[<+>[-]]"@, less_ops()),
{
    let code = ">[-]>[-]<<<[->[->+>+<<]>[-<+>]>[<<->>[-]]<<<]>[<+>[-]]"@;
    reveal_strlit(">[-]>[-]<<<[->[->+>+<<]>[-<+>]>[<<->>[-]]<<<]>[<+>[-]]");
    let e = Seq::<Op>::empty();
    lemma_covers_nothing(code, 0);
    let a1 = e.push(Op::Move(1));
    lemma_covers_step(code, 0, 0, e, Op::Move(1));
    lemma_covers_nothing(code, 2);
    let a2 = e.push(Op::Add(-1));
    lemma_covers_step(code, 2, 2, e, Op::Add(-1));
    let a3 = a1.push(Op::Loop(a2));
    lemma_covers_loop(code, 0, 1, a1, 3, a2);
    let a4 = a3.push(Op::Move(1));
    lemma_covers_step(code, 0, 4, a3, Op::Move(1));
    lemma_covers_nothing(code, 6);
    let a5 = e.push(Op::Add(-1));
    lemma_covers_step(code, 6, 6, e, Op::Add(-1));
    let a6 = a4.push(Op::Loop(a5));
    lemma_covers_loop(code, 0, 5, a4, 7, a5);
    let a7 = a6.push(Op::Move(-1));
    lemma_covers_step(code, 0, 8, a6, Op::Move(-1));
    let a8 = a7.push(Op::Move(-1));
    lemma_covers_step(code, 0, 9, a7, Op::Move(-1));
    let a9 = a8.push(Op::Move(-1));
    lemma_covers_step(code, 0, 10, a8, Op::Move(-1));
    lemma_covers_nothing(code, 12);
    let a10 = e.push(Op::Add(-1));
    lemma_covers_step(code, 12, 12, e, Op::Add(-1));
    let a11 = a10.push(Op::Move(1));
    lemma_covers_step(code, 12, 13, a10, Op::Move(1));
    lemma_covers_nothing(code, 15);
    let a12 = e.push(Op::Add(-1));
    lemma_covers_step(code, 15, 15, e, Op::Add(-1));
    let a13 = a12.push(Op::Move(1));
    lemma_covers_step(code, 15, 16, a12, Op::Move(1));
    let a14 = a13.push(Op::Add(1));
    lemma_covers_step(code, 15, 17, a13, Op::Add(1));
    let a15 = a14.push(Op::Move(1));
    lemma_covers_step(code, 15, 18, a14, Op::Move(1));
    let a16 = a15.push(Op::Add(1));
    lemma_covers_step(code, 15, 19, a15, Op::Add(1));
    let a17 = a16.push(Op::Move(-1));
    lemma_covers_step(code, 15, 20, a16, Op::Move(-1));
    let a18 = a17.push(Op::Move(-1));
    lemma_covers_step(code, 15, 21, a17, Op::Move(-1));
    let a19 = a11.push(Op::Loop(a18));
    lemma_covers_loop(code, 12, 14, a11, 22, a18);
    let a20 = a19.push(Op::Move(1));
    lemma_covers_step(code, 12, 23, a19, Op::Move(1));
    lemma_covers_nothing(code, 25);
    let a21 = e.push(Op::Add(-1));
    lemma_covers_step(code, 25, 25, e, Op::Add(-1));
    let a22 = a21.push(Op::Move(-1));
    lemma_covers_step(code, 25, 26, a21, Op::Move(-1));
    let a23 = a22.push(Op::Add(1));
    lemma_covers_step(code, 25, 27, a22, Op::Add(1));
    let a24 = a23.push(Op::Move(1));
    lemma_covers_step(code, 25, 28, a23, Op::Move(1));
    let a25 = a20.push(Op::Loop(a24));
    lemma_covers_loop(code, 12, 24, a20, 29, a24);
    let a26 = a25.push(Op::Move(1));
    lemma_covers_step(code, 12, 30, a25, Op::Move(1));
    lemma_covers_nothing(code, 32);
    let a27 = e.push(Op::Move(-1));
    lemma_covers_step(code, 32, 32, e, Op::Move(-1));
    let a28 = a27.push(Op::Move(-1));
    lemma_covers_step(code, 32, 33, a27, Op::Move(-1));
    let a29 = a28.push(Op::Add(-1));
    lemma_covers_step(code, 32, 34, a28, Op::Add(-1));
    let a30 = a29.push(Op::Move(1));
    lemma_covers_step(code, 32, 35, a29, Op::Move(1));
    let a31 = a30.push(Op::Move(1));
    lemma_covers_step(code, 32, 36, a30, Op::Move(1));
    lemma_covers_nothing(code, 38);
    let a32 = e.push(Op::Add(-1));
    lemma_covers_step(code, 38, 38, e, Op::Add(-1));
    let a33 = a31.push(Op::Loop(a32));
    lemma_covers_loop(code, 32, 37, a31, 39, a32);
    let a34 = a26.push(Op::Loop(a33));
    lemma_covers_loop(code, 12, 31, a26, 40, a33);
    let a35 = a34.push(Op::Move(-1));
    lemma_covers_step(code, 12, 41, a34, Op::Move(-1));
    let a36 = a35.push(Op::Move(-1));
    lemma_covers_step(code, 12, 42, a35, Op::Move(-1));
    let a37 = a36.push(Op::Move(-1));
    lemma_covers_step(code, 12, 43, a36, Op::Move(-1));
    let a38 = a9.push(Op::Loop(a37));
    lemma_covers_loop(code, 0, 11, a9, 44, a37);
    let a39 = a38.push(Op::Move(1));
    lemma_covers_step(code, 0, 45, a38, Op::Move(1));
    lemma_covers_nothing(code, 47);
    let a40 = e.push(Op::Move(-1));
    lemma_covers_step(code, 47, 47, e, Op::Move(-1));
    let a41 = a40.push(Op::Add(1));
    lemma_covers_step(code, 47, 48, a40, Op::Add(1));
    let a42 = a41.push(Op::Move(1));
    lemma_covers_step(code, 47, 49, a41, Op::Move(1));
    lemma_covers_nothing(code, 51);
    let a43 = e.push(Op::Add(-1));
    lemma_covers_step(code, 51, 51, e, Op::Add(-1));
    let a44 = a42.push(Op::Loop(a43));
    lemma_covers_loop(code, 47, 50, a42, 52, a43);
    let a45 = a39.push(Op::Loop(a44));
    lemma_covers_loop(code, 0, 46, a39, 53, a44);
    assert(a45 == less_ops());
}

/// The operations of the code of `LessEq`.
pub open spec fn less_eq_ops() -> Seq<Op> {
    Seq::<Op>::empty().push(Op::Move(1)).push(Op::Loop(Seq::<Op>::empty().push(Op::Add(-1)))).push(Op::Move(1)).push(Op::Loop(Seq::<Op>::empty().push(Op::Add(-1)))).push(Op::Move(-1)).push(Op::Move(-1)).push(Op::Loop(Seq::<Op>::empty().push(Op::Add(-1)).push(Op::Move(-1)).push(Op::Loop(Seq::<Op>::empty().push(Op::Add(-1)).push(Op::Move(1)).push(Op::Move(1)).push(Op::Add(1)).push(Op::Move(1)).push(Op::Add(1)).push(Op::Move(-1)).push(Op::Move(-1)).push(Op::Move(-1)))).push(Op::Move(1)).push(Op::Move(1)).push(Op::Loop(Seq::<Op>::empty().push(Op::Add(-1)).push(Op::Move(-1)).push(Op::Move(-1)).push(Op::Add(1)).push(Op::Move(1)).push(Op::Move(1)))).push(Op::Move(1)).push(Op::Loop(Seq::<Op>::empty().push(Op::Move(-1)).push(Op::Move(-1)).push(Op::Move(-1)).push(Op::Add(-1)).push(Op::Move(1)).push(Op::Move(1)).push(Op::Move(1)).push(Op::Loop(Seq::<Op>::empty().push(Op::Add(-1)))))).push(Op::Move(-1)).push(Op::Move(-1)))).push(Op::Move(-1)).push(Op::Loop(Seq::<Op>::empty().push(Op::Move(1)).push(Op::Add(1)).push(Op::Move(-1)).push(Op::Loop(Seq::<Op>::empty().push(Op::Add(-1)))))).push(Op::Add(1)).push(Op::Move(1)).push(Op::Loop(Seq::<Op>::empty().push(Op::Add(-1)).push(Op::Move(-1)).push(Op::Add(-1)).push(Op::Move(1))))
}

/// The code of `LessEq` is a program of its operations.
pub proof fn lemma_less_eq_reads()
    ensures
        reads(">[-]>[-]<<[-<[->>+>+<<<]>>[-<<+>>]>[<<<->>>[-]]<<]<[>+<[-]]+>[-<->]"@, less_eq_ops()),
{
    let code = ">[-]>[-]<<[-<[->>+>+<<<]>>[-<<+>>]>[<<<->>>[-]]<<]<[>+<[-]]+>[-<->]"@;
    reveal_strlit(">[-]>[-]<<[-<[->>+>+<<<]>>[-<<+>>]>[<<<->>>[-]]<<]<[>+<[-]]+>[-<->]");
    let e = Seq::<Op>::empty();
    lemma_covers_nothing(code, 0);
    let a1 = e.push(Op::Move(1));
    lemma_covers_step(code, 0, 0, e, Op::Move(1));
    lemma_covers_nothing(code, 2);
    let a2 = e.push(Op::Add(-1));
    lemma_covers_step(code, 2, 2, e, Op::Add(-1));
    let a3 = a1.push(Op::Loop(a2));
    lemma_covers_loop(code, 0, 1, a1, 3, a2);
    let a4 = a3.push(Op::Move(1));
    lemma_covers_step(code, 0, 4, a3, Op::Move(1));
    lemma_covers_nothing(code, 6);
    let a5 = e.push(Op::Add(-1));
    lemma_covers_step(code, 6, 6, e, Op::Add(-1));
    let a6 = a4.push(Op::Loop(a5));
    lemma_covers_loop(code, 0, 5, a4, 7, a5);
    let a7 = a6.push(Op::Move(-1));
    lemma_covers_step(code, 0, 8, a6, Op::Move(-1));
    let a8 = a7.push(Op::Move(-1));
    lemma_covers_step(code, 0, 9, a7, Op::Move(-1));
    lemma_covers_nothing(code, 11);
    let a9 = e.push(Op::Add(-1));
    lemma_covers_step(code, 11, 11, e, Op::Add(-1));
    let a10 = a9.push(Op::Move(-1));
    lemma_covers_step(code, 11, 12, a9, Op::Move(-1));
    lemma_covers_nothing(code, 14);
    let a11 = e.push(Op::Add(-1));
    lemma_covers_step(code, 14, 14, e, Op::Add(-1));
    let a12 = a11.push(Op::Move(1));
    lemma_covers_step(code, 14, 15, a11, Op::Move(1));
    let a13 = a12.push(Op::Move(1));
    lemma_covers_step(code, 14, 16, a12, Op::Move(1));
    let a14 = a13.push(Op::Add(1));
    lemma_covers_step(code, 14, 17, a13, Op::Add(1));
    let a15 = a14.push(Op::Move(1));
    lemma_covers_step(code, 14, 18, a14, Op::Move(1));
    let a16 = a15.push(Op::Add(1));
    lemma_covers_step(code, 14, 19, a15, Op::Add(1));
    let a17 = a16.push(Op::Move(-1));
    lemma_covers_step(code, 14, 20, a16, Op::Move(-1));
    let a18 = a17.push(Op::Move(-1));
    lemma_covers_step(code, 14, 21, a17, Op::Move(-1));
    let a19 = a18.push(Op::Move(-1));
    lemma_covers_step(code, 14, 22, a18, Op::Move(-1));
    let a20 = a10.push(Op::Loop(a19));
    lemma_covers_loop(code, 11, 13, a10, 23, a19);
    let a21 = a20.push(Op::Move(1));
    lemma_covers_step(code, 11, 24, a20, Op::Move(1));
    let a22 = a21.push(Op::Move(1));
    lemma_covers_step(code, 11, 25, a21, Op::Move(1));
    lemma_covers_nothing(code, 27);
    let a23 = e.push(Op::Add(-1));
    lemma_covers_step(code, 27, 27, e, Op::Add(-1));
    let a24 = a23.push(Op::Move(-1));
    lemma_covers_step(code, 27, 28, a23, Op::Move(-1));
    let a25 = a24.push(Op::Move(-1));
    lemma_covers_step(code, 27, 29, a24, Op::Move(-1));
    let a26 = a25.push(Op::Add(1));
    lemma_covers_step(code, 27, 30, a25, Op::Add(1));
    let a27 = a26.push(Op::Move(1));
    lemma_covers_step(code, 27, 31, a26, Op::Move(1));
    let a28 = a27.push(Op::Move(1));
    lemma_covers_step(code, 27, 32, a27, Op::Move(1));
    let a29 = a22.push(Op::Loop(a28));
    lemma_covers_loop(code, 11, 26, a22, 33, a28);
    let a30 = a29.push(Op::Move(1));
    lemma_covers_step(code, 11, 34, a29, Op::Move(1));
    lemma_covers_nothing(code, 36);
    let a31 = e.push(Op::Move(-1));
    lemma_covers_step(code, 36, 36, e, Op::Move(-1));
    let a32 = a31.push(Op::Move(-1));
    lemma_covers_step(code, 36, 37, a31, Op::Move(-1));
    let a33 = a32.push(Op::Move(-1));
    lemma_covers_step(code, 36, 38, a32, Op::Move(-1));
    let a34 = a33.push(Op::Add(-1));
    lemma_covers_step(code, 36, 39, a33, Op::Add(-1));
    let a35 = a34.push(Op::Move(1));
    lemma_covers_step(code, 36, 40, a34, Op::Move(1));
    let a36 = a35.push(Op::Move(1));
    lemma_covers_step(code, 36, 41, a35, Op::Move(1));
    let a37 = a36.push(Op::Move(1));
    lemma_covers_step(code, 36, 42, a36, Op::Move(1));
    lemma_covers_nothing(code, 44);
    let a38 = e.push(Op::Add(-1));
    lemma_covers_step(code, 44, 44, e, Op::Add(-1));
    let a39 = a37.push(Op::Loop(a38));
    lemma_covers_loop(code, 36, 43, a37, 45, a38);
    let a40 = a30.push(Op::Loop(a39));
    lemma_covers_loop(code, 11, 35, a30, 46, a39);
    let a41 = a40.push(Op::Move(-1));
    lemma_covers_step(code, 11, 47, a40, Op::Move(-1));
    let a42 = a41.push(Op::Move(-1));
    lemma_covers_step(code, 11, 48, a41, Op::Move(-1));
    let a43 = a8.push(Op::Loop(a42));
    lemma_covers_loop(code, 0, 10, a8, 49, a42);
    let a44 = a43.push(Op::Move(-1));
    lemma_covers_step(code, 0, 50, a43, Op::Move(-1));
    lemma_covers_nothing(code, 52);
    let a45 = e.push(Op::Move(1));
    lemma_covers_step(code, 52, 52, e, Op::Move(1));
    let a46 = a45.push(Op::Add(1));
    lemma_covers_step(code, 52, 53, a45, Op::Add(1));
    let a47 = a46.push(Op::Move(-1));
    lemma_covers_step(code, 52, 54, a46, Op::Move(-1));
    lemma_covers_nothing(code, 56);
    let a48 = e.push(Op::Add(-1));
    lemma_covers_step(code, 56, 56, e, Op::Add(-1));
    let a49 = a47.push(Op::Loop(a48));
    lemma_covers_loop(code, 52, 55, a47, 57, a48);
    let a50 = a44.push(Op::Loop(a49));
    lemma_covers_loop(code, 0, 51, a44, 58, a49);
    let a51 = a50.push(Op::Add(1));
    lemma_covers_step(code, 0, 59, a50, Op::Add(1));
    let a52 = a51.push(Op::Move(1));
    lemma_covers_step(code, 0, 60, a51, Op::Move(1));
    lemma_covers_nothing(code, 62);
    let a53 = e.push(Op::Add(-1));
    lemma_covers_step(code, 62, 62, e, Op::Add(-1));
    let a54 = a53.push(Op::Move(-1));
    lemma_covers_step(code, 62, 63, a53, Op::Move(-1));
    let a55 = a54.push(Op::Add(-1));
    lemma_covers_step(code, 62, 64, a54, Op::Add(-1));
    let a56 = a55.push(Op::Move(1));
    lemma_covers_step(code, 62, 65, a55, Op::Move(1));
    let a57 = a52.push(Op::Loop(a56));
    lemma_covers_loop(code, 0, 61, a52, 66, a56);
    assert(a57 == less_eq_ops());
}

/// The operations of the code of `And`.
pub open spec fn and_ops() -> Seq<Op> {
    Seq::<Op>::empty().push(Op::Move(1)).push(Op::Loop(Seq::<Op>::empty().push(Op::Add(-1)))).push(Op::Move(-1)).push(Op::Loop(Seq::<Op>::empty().push(Op::Move(-1)).push(Op::Loop(Seq::<Op>::empty().push(Op::Move(1)).push(Op::Move(1)).push(Op::Add(1)).push(Op::Move(-1)).push(Op::Move(-1)).push(Op::Loop(Seq::<Op>::empty().push(Op::Add(-1)))))).push(Op::Move(1)).push(Op::Loop(Seq::<Op>::empty().push(Op::Add(-1)))))).push(Op::Move(-1)).push(Op::Loop(Seq::<Op>::empty().push(Op::Add(-1)))).push(Op::Move(1)).push(Op::Move(1)).push(Op::Loop(Seq::<Op>::empty().push(Op::Add(-1)).push(Op::Move(-1)).push(Op::Move(-1)).push(Op::Add(1)).push(Op::Move(1)).push(Op::Move(1)))).push(Op::Move(-1))
}

/// The code of `And` is a program of its operations.
pub proof fn lemma_and_reads()
    ensures
        reads(">[-]<[<[>>+<<[-]]>[-]]<[-]>>[-<<+>>]<"@, and_ops()),
{
    let code = ">[-]<[<[>>+<<[-]]>[-]]<[-]>>[-<<+>>]<"@;
    reveal_strlit(">[-]<[<[>>+<<[-]]>[-]]<[-]>>[-<<+>>]<");
    let e = Seq::<Op>::empty();
    lemma_covers_nothing(code, 0);
    let a1 = e.push(Op::Move(1));
    lemma_covers_step(code, 0, 0, e, Op::Move(1));
    lemma_covers_nothing(code, 2);
    let a2 = e.push(Op::Add(-1));
    lemma_covers_step(code, 2, 2, e, Op::Add(-1));
    let a3 = a1.push(Op::Loop(a2));
    lemma_covers_loop(code, 0, 1, a1, 3, a2);
    let a4 = a3.push(Op::Move(-1));
    lemma_covers_step(code, 0, 4, a3, Op::Move(-1));
    lemma_covers_nothing(code, 6);
    let a5 = e.push(Op::Move(-1));
    lemma_covers_step(code, 6, 6, e, Op::Move(-1));
    lemma_covers_nothing(code, 8);
    let a6 = e.push(Op::Move(1));
    lemma_covers_step(code, 8, 8, e, Op::Move(1));
    let a7 = a6.push(Op::Move(1));
    lemma_covers_step(code, 8, 9, a6, Op::Move(1));
    let a8 = a7.push(Op::Add(1));
    lemma_covers_step(code, 8, 10, a7, Op::Add(1));
    let a9 = a8.push(Op::Move(-1));
    lemma_covers_step(code, 8, 11, a8, Op::Move(-1));
    let a10 = a9.push(Op::Move(-1));
    lemma_covers_step(code, 8, 12, a9, Op::Move(-1));
    lemma_covers_nothing(code, 14);
    let a11 = e.push(Op::Add(-1));
    lemma_covers_step(code, 14, 14, e, Op::Add(-1));
    let a12 = a10.push(Op::Loop(a11));
    lemma_covers_loop(code, 8, 13, a10, 15, a11);
    let a13 = a5.push(Op::Loop(a12));
    lemma_covers_loop(code, 6, 7, a5, 16, a12);
    let a14 = a13.push(Op::Move(1));
    lemma_covers_step(code, 6, 17, a13, Op::Move(1));
    lemma_covers_nothing(code, 19);
    let a15 = e.push(Op::Add(-1));
    lemma_covers_step(code, 19, 19, e, Op::Add(-1));
    let a16 = a14.push(Op::Loop(a15));
    lemma_covers_loop(code, 6, 18, a14, 20, a15);
    let a17 = a4.push(Op::Loop(a16));
    lemma_covers_loop(code, 0, 5, a4, 21, a16);
    let a18 = a17.push(Op::Move(-1));
    lemma_covers_step(code, 0, 22, a17, Op::Move(-1));
    lemma_covers_nothing(code, 24);
    let a19 = e.push(Op::Add(-1));
    lemma_covers_step(code, 24, 24, e, Op::Add(-1));
    let a20 = a18.push(Op::Loop(a19));
    lemma_covers_loop(code, 0, 23, a18, 25, a19);
    let a21 = a20.push(Op::Move(1));
    lemma_covers_step(code, 0, 26, a20, Op::Move(1));
    let a22 = a21.push(Op::Move(1));
    lemma_covers_step(code, 0, 27, a21, Op::Move(1));
    lemma_covers_nothing(code, 29);
    let a23 = e.push(Op::Add(-1));
    lemma_covers_step(code, 29, 29, e, Op::Add(-1));
    let a24 = a23.push(Op::Move(-1));
    lemma_covers_step(code, 29, 30, a23, Op::Move(-1));
    let a25 = a24.push(Op::Move(-1));
    lemma_covers_step(code, 29, 31, a24, Op::Move(-1));
    let a26 = a25.push(Op::Add(1));
    lemma_covers_step(code, 29, 32, a25, Op::Add(1));
    let a27 = a26.push(Op::Move(1));
    lemma_covers_step(code, 29, 33, a26, Op::Move(1));
    let a28 = a27.push(Op::Move(1));
    lemma_covers_step(code, 29, 34, a27, Op::Move(1));
    let a29 = a22.push(Op::Loop(a28));
    lemma_covers_loop(code, 0, 28, a22, 35, a28);
    let a30 = a29.push(Op::Move(-1));
    lemma_covers_step(code, 0, 36, a29, Op::Move(-1));
    assert(a30 == and_ops());
}

/// The operations of the code of `Or`.
pub open spec fn or_ops() -> Seq<Op> {
    Seq::<Op>::empty().push(Op::Move(1)).push(Op::Loop(Seq::<Op>::empty().push(Op::Add(-1)))).push(Op::Move(-1)).push(Op::Loop(Seq::<Op>::empty().push(Op::Move(1)).push(Op::Add(1)).push(Op::Move(-1)).push(Op::Loop(Seq::<Op>::empty().push(Op::Add(-1)))))).push(Op::Move(-1)).push(Op::Loop(Seq::<Op>::empty().push(Op::Move(1)).push(Op::Move(1)).push(Op::Loop(Seq::<Op>::empty().push(Op::Add(-1)))).push(Op::Add(1)).push(Op::Move(-1)).push(Op::Move(-1)).push(Op::Loop(Seq::<Op>::empty().push(Op::Add(-1)))))).push(Op::Move(1)).push(Op::Move(1)).push(Op::Loop(Seq::<Op>::empty().push(Op::Add(-1)).push(Op::Move(-1)).push(Op::Move(-1)).push(Op::Add(1)).push(Op::Move(1)).push(Op::Move(1)))).push(Op::Move(-1))
}

/// The code of `Or` is a program of its operations.
pub proof fn lemma_or_reads()
    ensures
        reads(">[-]<[>+<[-]]<[>>[-]+<<[-]]>>[-<<+>>]<"@, or_ops()),
{
    let code = ">[-]<[>+<[-]]<[>>[-]+<<[-]]>>[-<<+>>]<"@;
    reveal_strlit(">[-]<[>+<[-]]<[>>[-]+<<[-]]>>[-<<+>>]<");
    let e = Seq::<Op>::empty();
    lemma_covers_nothing(code, 0);
    let a1 = e.push(Op::Move(1));
    lemma_covers_step(code, 0, 0, e, Op::Move(1));
    lemma_covers_nothing(code, 2);
    let a2 = e.push(Op::Add(-1));
    lemma_covers_step(code, 2, 2, e, Op::Add(-1));
    let a3 = a1.push(Op::Loop(a2));
    lemma_covers_loop(code, 0, 1, a1, 3, a2);
    let a4 = a3.push(Op::Move(-1));
    lemma_covers_step(code, 0, 4, a3, Op::Move(-1));
    lemma_covers_nothing(code, 6);
    let a5 = e.push(Op::Move(1));
    lemma_covers_step(code, 6, 6, e, Op::Move(1));
    let a6 = a5.push(Op::Add(1));
    lemma_covers_step(code, 6, 7, a5, Op::Add(1));
    let a7 = a6.push(Op::Move(-1));
    lemma_covers_step(code, 6, 8, a6, Op::Move(-1));
    lemma_covers_nothing(code, 10);
    let a8 = e.push(Op::Add(-1));
    lemma_covers_step(code, 10, 10, e, Op::Add(-1));
    let a9 = a7.push(Op::Loop(a8));
    lemma_covers_loop(code, 6, 9, a7, 11, a8);
    let a10 = a4.push(Op::Loop(a9));
    lemma_covers_loop(code, 0, 5, a4, 12, a9);
    let a11 = a10.push(Op::Move(-1));
    lemma_covers_step(code, 0, 13, a10, Op::Move(-1));
    lemma_covers_nothing(code, 15);
    let a12 = e.push(Op::Move(1));
    lemma_covers_step(code, 15, 15, e, Op::Move(1));
    let a13 = a12.push(Op::Move(1));
    lemma_covers_step(code, 15, 16, a12, Op::Move(1));
    lemma_covers_nothing(code, 18);
    let a14 = e.push(Op::Add(-1));
    lemma_covers_step(code, 18, 18, e, Op::Add(-1));
    let a15 = a13.push(Op::Loop(a14));
    lemma_covers_loop(code, 15, 17, a13, 19, a14);
    let a16 = a15.push(Op::Add(1));
    lemma_covers_step(code, 15, 20, a15, Op::Add(1));
    let a17 = a16.push(Op::Move(-1));
    lemma_covers_step(code, 15, 21, a16, Op::Move(-1));
    let a18 = a17.push(Op::Move(-1));
    lemma_covers_step(code, 15, 22, a17, Op::Move(-1));
    lemma_covers_nothing(code, 24);
    let a19 = e.push(Op::Add(-1));
    lemma_covers_step(code, 24, 24, e, Op::Add(-1));
    let a20 = a18.push(Op::Loop(a19));
    lemma_covers_loop(code, 15, 23, a18, 25, a19);
    let a21 = a11.push(Op::Loop(a20));
    lemma_covers_loop(code, 0, 14, a11, 26, a20);
    let a22 = a21.push(Op::Move(1));
    lemma_covers_step(code, 0, 27, a21, Op::Move(1));
    let a23 = a22.push(Op::Move(1));
    lemma_covers_step(code, 0, 28, a22, Op::Move(1));
    lemma_covers_nothing(code, 30);
    let a24 = e.push(Op::Add(-1));
    lemma_covers_step(code, 30, 30, e, Op::Add(-1));
    let a25 = a24.push(Op::Move(-1));
    lemma_covers_step(code, 30, 31, a24, Op::Move(-1));
    let a26 = a25.push(Op::Move(-1));
    lemma_covers_step(code, 30, 32, a25, Op::Move(-1));
    let a27 = a26.push(Op::Add(1));
    lemma_covers_step(code, 30, 33, a26, Op::Add(1));
    let a28 = a27.push(Op::Move(1));
    lemma_covers_step(code, 30, 34, a27, Op::Move(1));
    let a29 = a28.push(Op::Move(1));
    lemma_covers_step(code, 30, 35, a28, Op::Move(1));
    let a30 = a23.push(Op::Loop(a29));
    lemma_covers_loop(code, 0, 29, a23, 36, a29);
    let a31 = a30.push(Op::Move(-1));
    lemma_covers_step(code, 0, 37, a30, Op::Move(-1));
    assert(a31 == or_ops());
}

/// The operations of `[-]`, which clear the cell under the head.
pub open spec fn clear_ops() -> Seq<Op> {
    Seq::<Op>::empty().push(Op::Loop(Seq::<Op>::empty().push(Op::Add(-1))))
}

/// The code `[-]` is a program of its operations.
pub proof fn lemma_clear_reads()
    ensures
        reads("[-]"@, clear_ops()),
{
    let code = "[-]"@;
    reveal_strlit("[-]");
    let e = Seq::<Op>::empty();
    lemma_covers_nothing(code, 0);
    lemma_covers_nothing(code, 1);
    let a1 = e.push(Op::Add(-1));
    lemma_covers_step(code, 1, 1, e, Op::Add(-1));
    let a2 = e.push(Op::Loop(a1));
    lemma_covers_loop(code, 0, 0, e, 2, a1);
    assert(a2 == clear_ops());
}

/// The operation of `>`.
pub open spec fn right_ops() -> Seq<Op> {
    Seq::<Op>::empty().push(Op::Move(1))
}

/// The code `>` is a program of its operations.
pub proof fn lemma_right_reads()
    ensures
        reads(">"@, right_ops()),
{
    let code = ">"@;
    reveal_strlit(">");
    let e = Seq::<Op>::empty();
    lemma_covers_nothing(code, 0);
    let a1 = e.push(Op::Move(1));
    lemma_covers_step(code, 0, 0, e, Op::Move(1));
    assert(a1 == right_ops());
}

/// The operation of `<`.
pub open spec fn left_ops() -> Seq<Op> {
    Seq::<Op>::empty().push(Op::Move(-1))
}

/// The code `<` is a program of its operations.
pub proof fn lemma_left_reads()
    ensures
        reads("<"@, left_ops()),
{
    let code = "<"@;
    reveal_strlit("<");
    let e = Seq::<Op>::empty();
    lemma_covers_nothing(code, 0);
    let a1 = e.push(Op::Move(-1));
    lemma_covers_step(code, 0, 0, e, Op::Move(-1));
    assert(a1 == left_ops());
}

/// The operations before the operand of a negation.
pub open spec fn negate_open_ops() -> Seq<Op> {
    Seq::<Op>::empty().push(Op::Loop(Seq::<Op>::empty().push(Op::Add(-1)))).push(Op::Move(1))
}

/// The code `[-]>` is a program of its operations.
pub proof fn lemma_negate_open_reads()
    ensures
        reads("[-]>"@, negate_open_ops()),
{
    let code = "[-]>"@;
    reveal_strlit("[-]>");
    let e = Seq::<Op>::empty();
    lemma_covers_nothing(code, 0);
    lemma_covers_nothing(code, 1);
    let a1 = e.push(Op::Add(-1));
    lemma_covers_step(code, 1, 1, e, Op::Add(-1));
    let a2 = e.push(Op::Loop(a1));
    lemma_covers_loop(code, 0, 0, e, 2, a1);
    let a3 = a2.push(Op::Move(1));
    lemma_covers_step(code, 0, 3, a2, Op::Move(1));
    assert(a3 == negate_open_ops());
}

/// The operations behind the operand of a negation.
pub open spec fn negate_close_ops() -> Seq<Op> {
    Seq::<Op>::empty().push(Op::Loop(Seq::<Op>::empty().push(Op::Add(-1)).push(Op::Move(-1)).push(Op::Add(-1)).push(Op::Move(1)))).push(Op::Move(-1))
}

/// The code `[-<->]<` is a program of its operations.
pub proof fn lemma_negate_close_reads()
    ensures
        reads("[-<->]<"@, negate_close_ops()),
{
    let code = "[-<->]<"@;
    reveal_strlit("[-<->]<");
    let e = Seq::<Op>::empty();
    lemma_covers_nothing(code, 0);
    lemma_covers_nothing(code, 1);
    let a1 = e.push(Op::Add(-1));
    lemma_covers_step(code, 1, 1, e, Op::Add(-1));
    let a2 = a1.push(Op::Move(-1));
    lemma_covers_step(code, 1, 2, a1, Op::Move(-1));
    let a3 = a2.push(Op::Add(-1));
    lemma_covers_step(code, 1, 3, a2, Op::Add(-1));
    let a4 = a3.push(Op::Move(1));
    lemma_covers_step(code, 1, 4, a3, Op::Move(1));
    let a5 = e.push(Op::Loop(a4));
    lemma_covers_loop(code, 0, 0, e, 5, a4);
    let a6 = a5.push(Op::Move(-1));
    lemma_covers_step(code, 0, 6, a5, Op::Move(-1));
    assert(a6 == negate_close_ops());
}

/// The operations before the operand of `not`.
pub open spec fn not_open_ops() -> Seq<Op> {
    Seq::<Op>::empty().push(Op::Loop(Seq::<Op>::empty().push(Op::Add(-1)))).push(Op::Add(1)).push(Op::Move(1))
}

/// The code `[-]+>` is a program of its operations.
pub proof fn lemma_not_open_reads()
    ensures
        reads("[-]+>"@, not_open_ops()),
{
    let code = "[-]+>"@;
    reveal_strlit("[-]+>");
    let e = Seq::<Op>::empty();
    lemma_covers_nothing(code, 0);
    lemma_covers_nothing(code, 1);
    let a1 = e.push(Op::Add(-1));
    lemma_covers_step(code, 1, 1, e, Op::Add(-1));
    let a2 = e.push(Op::Loop(a1));
    lemma_covers_loop(code, 0, 0, e, 2, a1);
    let a3 = a2.push(Op::Add(1));
    lemma_covers_step(code, 0, 3, a2, Op::Add(1));
    let a4 = a3.push(Op::Move(1));
    lemma_covers_step(code, 0, 4, a3, Op::Move(1));
    assert(a4 == not_open_ops());
}

/// The operations behind the operand of `not`.
pub open spec fn not_close_ops() -> Seq<Op> {
    Seq::<Op>::empty().push(Op::Loop(Seq::<Op>::empty().push(Op::Move(-1)).push(Op::Add(-1)).push(Op::Move(1)).push(Op::Loop(Seq::<Op>::empty().push(Op::Add(-1)))))).push(Op::Move(-1))
}

/// The code `[<->[-]]<` is a program of its operations.
pub proof fn lemma_not_close_reads()
    ensures
        reads("[<->[-]]<"@, not_close_ops()),
{
    let code = "[<->[-]]<"@;
    reveal_strlit("[<->[-]]<");
    let e = Seq::<Op>::empty();
    lemma_covers_nothing(code, 0);
    lemma_covers_nothing(code, 1);
    let a1 = e.push(Op::Move(-1));
    lemma_covers_step(code, 1, 1, e, Op::Move(-1));
    let a2 = a1.push(Op::Add(-1));
    lemma_covers_step(code, 1, 2, a1, Op::Add(-1));
    let a3 = a2.push(Op::Move(1));
    lemma_covers_step(code, 1, 3, a2, Op::Move(1));
    lemma_covers_nothing(code, 5);
    let a4 = e.push(Op::Add(-1));
    lemma_covers_step(code, 5, 5, e, Op::Add(-1));
    let a5 = a3.push(Op::Loop(a4));
    lemma_covers_loop(code, 1, 4, a3, 6, a4);
    let a6 = e.push(Op::Loop(a5));
    lemma_covers_loop(code, 0, 0, e, 7, a5);
    let a7 = a6.push(Op::Move(-1));
    lemma_covers_step(code, 0, 8, a6, Op::Move(-1));
    assert(a7 == not_close_ops());
}

/// The operations of the code that reads a variable, for a variable `rel` cells left of the head.
pub open spec fn read_var_ops(rel: nat) -> Seq<Op> {
    ((Seq::<Op>::empty().push(Op::Loop(Seq::<Op>::empty().push(Op::Add(-1)))).push(Op::Move(1)).push(Op::Loop(Seq::<Op>::empty().push(Op::Add(-1)))).push(Op::Move(-1)) + repeat_op(Op::Move(-1), rel)).push(Op::Loop(((Seq::<Op>::empty().push(Op::Add(-1)) + repeat_op(Op::Move(1), rel)).push(Op::Add(1)).push(Op::Move(1)).push(Op::Add(1)).push(Op::Move(-1)) + repeat_op(Op::Move(-1), rel)))) + repeat_op(Op::Move(1), rel)).push(Op::Move(1)).push(Op::Loop(((Seq::<Op>::empty().push(Op::Add(-1)).push(Op::Move(-1)) + repeat_op(Op::Move(-1), rel)).push(Op::Add(1)) + repeat_op(Op::Move(1), rel)).push(Op::Move(1)))).push(Op::Move(-1))
}

proof fn lemma_read_var_reads_length_0(rel: nat)
    ensures
        ("[-]>[-]<"@).len() == 8,
{
    reveal_strlit("[-]>[-]<");
}

proof fn lemma_read_var_reads_length_1(rel: nat)
    ensures
        ("[-]>[-]<"@ + repeat('<', rel)).len() == (rel as int) + 8,
{
    lemma_read_var_reads_length_0(rel);
}

proof fn lemma_read_var_reads_length_2(rel: nat)
    ensures
        ("[-]>[-]<"@ + repeat('<', rel) + "[-"@).len() == (rel as int) + 10,
{
    lemma_read_var_reads_length_1(rel);
    reveal_strlit("[-");
}

proof fn lemma_read_var_reads_length_3(rel: nat)
    ensures
        ("[-]>[-]<"@ + repeat('<', rel) + "[-"@ + repeat('>', rel)).len() == 2 * (rel as int) + 10,
{
    lemma_read_var_reads_length_2(rel);
}

proof fn lemma_read_var_reads_length_4(rel: nat)
    ensures
        ("[-]>[-]<"@ + repeat('<', rel) + "[-"@ + repeat('>', rel) + "+>+<"@).len() == 2 * (rel as int) + 14,
{
    lemma_read_var_reads_length_3(rel);
    reveal_strlit("+>+<");
}

proof fn lemma_read_var_reads_length_5(rel: nat)
    ensures
        ("[-]>[-]<"@ + repeat('<', rel) + "[-"@ + repeat('>', rel) + "+>+<"@ + repeat('<', rel)).len() == 3 * (rel as int) + 14,
{
    lemma_read_var_reads_length_4(rel);
}

proof fn lemma_read_var_reads_length_6(rel: nat)
    ensures
        ("[-]>[-]<"@ + repeat('<', rel) + "[-"@ + repeat('>', rel) + "+>+<"@ + repeat('<', rel) + "]"@).len() == 3 * (rel as int) + 15,
{
    lemma_read_var_reads_length_5(rel);
    reveal_strlit("]");
}

proof fn lemma_read_var_reads_length_7(rel: nat)
    ensures
        ("[-]>[-]<"@ + repeat('<', rel) + "[-"@ + repeat('>', rel) + "+>+<"@ + repeat('<', rel) + "]"@ + repeat('>', rel)).len() == 4 * (rel as int) + 15,
{
    lemma_read_var_reads_length_6(rel);
}

proof fn lemma_read_var_reads_length_8(rel: nat)
    ensures
        ("[-]>[-]<"@ + repeat('<', rel) + "[-"@ + repeat('>', rel) + "+>+<"@ + repeat('<', rel) + "]"@ + repeat('>', rel) + ">[-<"@).len() == 4 * (rel as int) + 19,
{
    lemma_read_var_reads_length_7(rel);
    reveal_strlit(">[-<");
}

proof fn lemma_read_var_reads_length_9(rel: nat)
    ensures
        ("[-]>[-]<"@ + repeat('<', rel) + "[-"@ + repeat('>', rel) + "+>+<"@ + repeat('<', rel) + "]"@ + repeat('>', rel) + ">[-<"@ + repeat('<', rel)).len() == 5 * (rel as int) + 19,
{
    lemma_read_var_reads_length_8(rel);
}

proof fn lemma_read_var_reads_length_10(rel: nat)
    ensures
        ("[-]>[-]<"@ + repeat('<', rel) + "[-"@ + repeat('>', rel) + "+>+<"@ + repeat('<', rel) + "]"@ + repeat('>', rel) + ">[-<"@ + repeat('<', rel) + "+"@).len() == 5 * (rel as int) + 20,
{
    lemma_read_var_reads_length_9(rel);
    reveal_strlit("+");
}

proof fn lemma_read_var_reads_length_11(rel: nat)
    ensures
        ("[-]>[-]<"@ + repeat('<', rel) + "[-"@ + repeat('>', rel) + "+>+<"@ + repeat('<', rel) + "]"@ + repeat('>', rel) + ">[-<"@ + repeat('<', rel) + "+"@ + repeat('>', rel)).len() == 6 * (rel as int) + 20,
{
    lemma_read_var_reads_length_10(rel);
}

proof fn lemma_read_var_reads_length_12(rel: nat)
    ensures
        ("[-]>[-]<"@ + repeat('<', rel) + "[-"@ + repeat('>', rel) + "+>+<"@ + repeat('<', rel) + "]"@ + repeat('>', rel) + ">[-<"@ + repeat('<', rel) + "+"@ + repeat('>', rel) + ">]<"@).len() == 6 * (rel as int) + 23,
{
    lemma_read_var_reads_length_11(rel);
    reveal_strlit(">]<");
}

proof fn lemma_read_var_reads_prefix_12(rel: nat)
    ensures
        occurs(read_var(rel), 0, "[-]>[-]<"@ + repeat('<', rel) + "[-"@ + repeat('>', rel) + "+>+<"@ + repeat('<', rel) + "]"@ + repeat('>', rel) + ">[-<"@ + repeat('<', rel) + "+"@ + repeat('>', rel) + ">]<"@),
{
    let code = read_var(rel);
    assert(code.subrange(0, code.len() as int) =~= code);
}

proof fn lemma_read_var_reads_prefix_11(rel: nat)
    ensures
        occurs(read_var(rel), 0, "[-]>[-]<"@ + repeat('<', rel) + "[-"@ + repeat('>', rel) + "+>+<"@ + repeat('<', rel) + "]"@ + repeat('>', rel) + ">[-<"@ + repeat('<', rel) + "+"@ + repeat('>', rel)),
{
    lemma_read_var_reads_prefix_12(rel);
    lemma_occurs_parts(read_var(rel), 0, "[-]>[-]<"@ + repeat('<', rel) + "[-"@ + repeat('>', rel) + "+>+<"@ + repeat('<', rel) + "]"@ + repeat('>', rel) + ">[-<"@ + repeat('<', rel) + "+"@ + repeat('>', rel), ">]<"@);
}

proof fn lemma_read_var_reads_prefix_10(rel: nat)
    ensures
        occurs(read_var(rel), 0, "[-]>[-]<"@ + repeat('<', rel) + "[-"@ + repeat('>', rel) + "+>+<"@ + repeat('<', rel) + "]"@ + repeat('>', rel) + ">[-<"@ + repeat('<', rel) + "+"@),
{
    lemma_read_var_reads_prefix_11(rel);
    lemma_occurs_parts(read_var(rel), 0, "[-]>[-]<"@ + repeat('<', rel) + "[-"@ + repeat('>', rel) + "+>+<"@ + repeat('<', rel) + "]"@ + repeat('>', rel) + ">[-<"@ + repeat('<', rel) + "+"@, repeat('>', rel));
}

proof fn lemma_read_var_reads_prefix_9(rel: nat)
    ensures
        occurs(read_var(rel), 0, "[-]>[-]<"@ + repeat('<', rel) + "[-"@ + repeat('>', rel) + "+>+<"@ + repeat('<', rel) + "]"@ + repeat('>', rel) + ">[-<"@ + repeat('<', rel)),
{
    lemma_read_var_reads_prefix_10(rel);
    lemma_occurs_parts(read_var(rel), 0, "[-]>[-]<"@ + repeat('<', rel) + "[-"@ + repeat('>', rel) + "+>+<"@ + repeat('<', rel) + "]"@ + repeat('>', rel) + ">[-<"@ + repeat('<', rel), "+"@);
}

proof fn lemma_read_var_reads_prefix_8(rel: nat)
    ensures
        occurs(read_var(rel), 0, "[-]>[-]<"@ + repeat('<', rel) + "[-"@ + repeat('>', rel) + "+>+<"@ + repeat('<', rel) + "]"@ + repeat('>', rel) + ">[-<"@),
{
    lemma_read_var_reads_prefix_9(rel);
    lemma_occurs_parts(read_var(rel), 0, "[-]>[-]<"@ + repeat('<', rel) + "[-"@ + repeat('>', rel) + "+>+<"@ + repeat('<', rel) + "]"@ + repeat('>', rel) + ">[-<"@, repeat('<', rel));
}

proof fn lemma_read_var_reads_prefix_7(rel: nat)
    ensures
        occurs(read_var(rel), 0, "[-]>[-]<"@ + repeat('<', rel) + "[-"@ + repeat('>', rel) + "+>+<"@ + repeat('<', rel) + "]"@ + repeat('>', rel)),
{
    lemma_read_var_reads_prefix_8(rel);
    lemma_occurs_parts(read_var(rel), 0, "[-]>[-]<"@ + repeat('<', rel) + "[-"@ + repeat('>', rel) + "+>+<"@ + repeat('<', rel) + "]"@ + repeat('>', rel), ">[-<"@);
}

proof fn lemma_read_var_reads_prefix_6(rel: nat)
    ensures
        occurs(read_var(rel), 0, "[-]>[-]<"@ + repeat('<', rel) + "[-"@ + repeat('>', rel) + "+>+<"@ + repeat('<', rel) + "]"@),
{
    lemma_read_var_reads_prefix_7(rel);
    lemma_occurs_parts(read_var(rel), 0, "[-]>[-]<"@ + repeat('<', rel) + "[-"@ + repeat('>', rel) + "+>+<"@ + repeat('<', rel) + "]"@, repeat('>', rel));
}

proof fn lemma_read_var_reads_prefix_5(rel: nat)
    ensures
        occurs(read_var(rel), 0, "[-]>[-]<"@ + repeat('<', rel) + "[-"@ + repeat('>', rel) + "+>+<"@ + repeat('<', rel)),
{
    lemma_read_var_reads_prefix_6(rel);
    lemma_occurs_parts(read_var(rel), 0, "[-]>[-]<"@ + repeat('<', rel) + "[-"@ + repeat('>', rel) + "+>+<"@ + repeat('<', rel), "]"@);
}

proof fn lemma_read_var_reads_prefix_4(rel: nat)
    ensures
        occurs(read_var(rel), 0, "[-]>[-]<"@ + repeat('<', rel) + "[-"@ + repeat('>', rel) + "+>+<"@),
{
    lemma_read_var_reads_prefix_5(rel);
    lemma_occurs_parts(read_var(rel), 0, "[-]>[-]<"@ + repeat('<', rel) + "[-"@ + repeat('>', rel) + "+>+<"@, repeat('<', rel));
}

proof fn lemma_read_var_reads_prefix_3(rel: nat)
    ensures
        occurs(read_var(rel), 0, "[-]>[-]<"@ + repeat('<', rel) + "[-"@ + repeat('>', rel)),
{
    lemma_read_var_reads_prefix_4(rel);
    lemma_occurs_parts(read_var(rel), 0, "[-]>[-]<"@ + repeat('<', rel) + "[-"@ + repeat('>', rel), "+>+<"@);
}

proof fn lemma_read_var_reads_prefix_2(rel: nat)
    ensures
        occurs(read_var(rel), 0, "[-]>[-]<"@ + repeat('<', rel) + "[-"@),
{
    lemma_read_var_reads_prefix_3(rel);
    lemma_occurs_parts(read_var(rel), 0, "[-]>[-]<"@ + repeat('<', rel) + "[-"@, repeat('>', rel));
}

proof fn lemma_read_var_reads_prefix_1(rel: nat)
    ensures
        occurs(read_var(rel), 0, "[-]>[-]<"@ + repeat('<', rel)),
{
    lemma_read_var_reads_prefix_2(rel);
    lemma_occurs_parts(read_var(rel), 0, "[-]>[-]<"@ + repeat('<', rel), "[-"@);
}

proof fn lemma_read_var_reads_prefix_0(rel: nat)
    ensures
        occurs(read_var(rel), 0, "[-]>[-]<"@),
{
    lemma_read_var_reads_prefix_1(rel);
    lemma_occurs_parts(read_var(rel), 0, "[-]>[-]<"@, repeat('<', rel));
}

proof fn lemma_read_var_reads_piece_0(rel: nat)
    ensures
        occurs(read_var(rel), 0, "[-]>[-]<"@),
{
    lemma_read_var_reads_prefix_0(rel);
}

proof fn lemma_read_var_reads_piece_1(rel: nat)
    ensures
        occurs(read_var(rel), 8, repeat('<', rel)),
{
    lemma_read_var_reads_prefix_1(rel);
    lemma_read_var_reads_length_0(rel);
    lemma_occurs_parts(read_var(rel), 0, "[-]>[-]<"@, repeat('<', rel));
}

proof fn lemma_read_var_reads_piece_2(rel: nat)
    ensures
        occurs(read_var(rel), (rel as int) + 8, "[-"@),
{
    lemma_read_var_reads_prefix_2(rel);
    lemma_read_var_reads_length_1(rel);
    lemma_occurs_parts(read_var(rel), 0, "[-]>[-]<"@ + repeat('<', rel), "[-"@);
}

proof fn lemma_read_var_reads_piece_3(rel: nat)
    ensures
        occurs(read_var(rel), (rel as int) + 10, repeat('>', rel)),
{
    lemma_read_var_reads_prefix_3(rel);
    lemma_read_var_reads_length_2(rel);
    lemma_occurs_parts(read_var(rel), 0, "[-]>[-]<"@ + repeat('<', rel) + "[-"@, repeat('>', rel));
}

proof fn lemma_read_var_reads_piece_4(rel: nat)
    ensures
        occurs(read_var(rel), 2 * (rel as int) + 10, "+>+<"@),
{
    lemma_read_var_reads_prefix_4(rel);
    lemma_read_var_reads_length_3(rel);
    lemma_occurs_parts(read_var(rel), 0, "[-]>[-]<"@ + repeat('<', rel) + "[-"@ + repeat('>', rel), "+>+<"@);
}

proof fn lemma_read_var_reads_piece_5(rel: nat)
    ensures
        occurs(read_var(rel), 2 * (rel as int) + 14, repeat('<', rel)),
{
    lemma_read_var_reads_prefix_5(rel);
    lemma_read_var_reads_length_4(rel);
    lemma_occurs_parts(read_var(rel), 0, "[-]>[-]<"@ + repeat('<', rel) + "[-"@ + repeat('>', rel) + "+>+<"@, repeat('<', rel));
}

proof fn lemma_read_var_reads_piece_6(rel: nat)
    ensures
        occurs(read_var(rel), 3 * (rel as int) + 14, "]"@),
{
    lemma_read_var_reads_prefix_6(rel);
    lemma_read_var_reads_length_5(rel);
    lemma_occurs_parts(read_var(rel), 0, "[-]>[-]<"@ + repeat('<', rel) + "[-"@ + repeat('>', rel) + "+>+<"@ + repeat('<', rel), "]"@);
}

proof fn lemma_read_var_reads_piece_7(rel: nat)
    ensures
        occurs(read_var(rel), 3 * (rel as int) + 15, repeat('>', rel)),
{
    lemma_read_var_reads_prefix_7(rel);
    lemma_read_var_reads_length_6(rel);
    lemma_occurs_parts(read_var(rel), 0, "[-]>[-]<"@ + repeat('<', rel) + "[-"@ + repeat('>', rel) + "+>+<"@ + repeat('<', rel) + "]"@, repeat('>', rel));
}

proof fn lemma_read_var_reads_piece_8(rel: nat)
    ensures
        occurs(read_var(rel), 4 * (rel as int) + 15, ">[-<"@),
{
    lemma_read_var_reads_prefix_8(rel);
    lemma_read_var_reads_length_7(rel);
    lemma_occurs_parts(read_var(rel), 0, "[-]>[-]<"@ + repeat('<', rel) + "[-"@ + repeat('>', rel) + "+>+<"@ + repeat('<', rel) + "]"@ + repeat('>', rel), ">[-<"@);
}

proof fn lemma_read_var_reads_piece_9(rel: nat)
    ensures
        occurs(read_var(rel), 4 * (rel as int) + 19, repeat('<', rel)),
{
    lemma_read_var_reads_prefix_9(rel);
    lemma_read_var_reads_length_8(rel);
    lemma_occurs_parts(read_var(rel), 0, "[-]>[-]<"@ + repeat('<', rel) + "[-"@ + repeat('>', rel) + "+>+<"@ + repeat('<', rel) + "]"@ + repeat('>', rel) + ">[-<"@, repeat('<', rel));
}

proof fn lemma_read_var_reads_piece_10(rel: nat)
    ensures
        occurs(read_var(rel), 5 * (rel as int) + 19, "+"@),
{
    lemma_read_var_reads_prefix_10(rel);
    lemma_read_var_reads_length_9(rel);
    lemma_occurs_parts(read_var(rel), 0, "[-]>[-]<"@ + repeat('<', rel) + "[-"@ + repeat('>', rel) + "+>+<"@ + repeat('<', rel) + "]"@ + repeat('>', rel) + ">[-<"@ + repeat('<', rel), "+"@);
}

proof fn lemma_read_var_reads_piece_11(rel: nat)
    ensures
        occurs(read_var(rel), 5 * (rel as int) + 20, repeat('>', rel)),
{
    lemma_read_var_reads_prefix_11(rel);
    lemma_read_var_reads_length_10(rel);
    lemma_occurs_parts(read_var(rel), 0, "[-]>[-]<"@ + repeat('<', rel) + "[-"@ + repeat('>', rel) + "+>+<"@ + repeat('<', rel) + "]"@ + repeat('>', rel) + ">[-<"@ + repeat('<', rel) + "+"@, repeat('>', rel));
}

proof fn lemma_read_var_reads_piece_12(rel: nat)
    ensures
        occurs(read_var(rel), 6 * (rel as int) + 20, ">]<"@),
{
    lemma_read_var_reads_prefix_12(rel);
    lemma_read_var_reads_length_11(rel);
    lemma_occurs_parts(read_var(rel), 0, "[-]>[-]<"@ + repeat('<', rel) + "[-"@ + repeat('>', rel) + "+>+<"@ + repeat('<', rel) + "]"@ + repeat('>', rel) + ">[-<"@ + repeat('<', rel) + "+"@ + repeat('>', rel), ">]<"@);
}

proof fn lemma_read_var_reads_chain(code: Seq<char>, rel: nat)
    requires
        code.len() == 6 * (rel as int) + 23,
        occurs(code, 0, "[-]>[-]<"@),
        occurs(code, 8, repeat('<', rel)),
        occurs(code, (rel as int) + 8, "[-"@),
        occurs(code, (rel as int) + 10, repeat('>', rel)),
        occurs(code, 2 * (rel as int) + 10, "+>+<"@),
        occurs(code, 2 * (rel as int) + 14, repeat('<', rel)),
        occurs(code, 3 * (rel as int) + 14, "]"@),
        occurs(code, 3 * (rel as int) + 15, repeat('>', rel)),
        occurs(code, 4 * (rel as int) + 15, ">[-<"@),
        occurs(code, 4 * (rel as int) + 19, repeat('<', rel)),
        occurs(code, 5 * (rel as int) + 19, "+"@),
        occurs(code, 5 * (rel as int) + 20, repeat('>', rel)),
        occurs(code, 6 * (rel as int) + 20, ">]<"@),
    ensures
        reads(code, read_var_ops(rel)),
{
    let r = rel as int;
    reveal_strlit("[-]>[-]<");
    reveal_strlit("[-");
    reveal_strlit("+>+<");
    reveal_strlit("]");
    reveal_strlit(">[-<");
    reveal_strlit("+");
    reveal_strlit(">]<");
    let e = Seq::<Op>::empty();
    lemma_covers_nothing(code, 0);
    lemma_occurs_char(code, 0, "[-]>[-]<"@, 0);
    lemma_covers_nothing(code, 1);
    lemma_occurs_char(code, 0, "[-]>[-]<"@, 1);
    let a1 = e.push(Op::Add(-1));
    lemma_covers_step(code, 1, 1, e, Op::Add(-1));
    lemma_occurs_char(code, 0, "[-]>[-]<"@, 2);
    let a2 = e.push(Op::Loop(a1));
    lemma_covers_loop(code, 0, 0, e, 2, a1);
    lemma_occurs_char(code, 0, "[-]>[-]<"@, 3);
    let a3 = a2.push(Op::Move(1));
    lemma_covers_step(code, 0, 3, a2, Op::Move(1));
    lemma_occurs_char(code, 0, "[-]>[-]<"@, 4);
    lemma_covers_nothing(code, 5);
    lemma_occurs_char(code, 0, "[-]>[-]<"@, 5);
    let a4 = e.push(Op::Add(-1));
    lemma_covers_step(code, 5, 5, e, Op::Add(-1));
    lemma_occurs_char(code, 0, "[-]>[-]<"@, 6);
    let a5 = a3.push(Op::Loop(a4));
    lemma_covers_loop(code, 0, 4, a3, 6, a4);
    lemma_occurs_char(code, 0, "[-]>[-]<"@, 7);
    let a6 = a5.push(Op::Move(-1));
    lemma_covers_step(code, 0, 7, a5, Op::Move(-1));
    lemma_covers_repeat(code, 8, '<', rel);
    let a7 = a6 + repeat_op(Op::Move(-1), rel);
    lemma_covers_join(code, 0, 8, r + 8, a6, repeat_op(Op::Move(-1), rel));
    lemma_occurs_char(code, r + 8, "[-"@, 0);
    lemma_covers_nothing(code, r + 9);
    lemma_occurs_char(code, r + 8, "[-"@, 1);
    let a8 = e.push(Op::Add(-1));
    lemma_covers_step(code, r + 9, r + 9, e, Op::Add(-1));
    lemma_covers_repeat(code, r + 10, '>', rel);
    let a9 = a8 + repeat_op(Op::Move(1), rel);
    lemma_covers_join(code, r + 9, r + 10, 2 * r + 10, a8, repeat_op(Op::Move(1), rel));
    lemma_occurs_char(code, 2 * r + 10, "+>+<"@, 0);
    let a10 = a9.push(Op::Add(1));
    lemma_covers_step(code, r + 9, 2 * r + 10, a9, Op::Add(1));
    lemma_occurs_char(code, 2 * r + 10, "+>+<"@, 1);
    let a11 = a10.push(Op::Move(1));
    lemma_covers_step(code, r + 9, 2 * r + 11, a10, Op::Move(1));
    lemma_occurs_char(code, 2 * r + 10, "+>+<"@, 2);
    let a12 = a11.push(Op::Add(1));
    lemma_covers_step(code, r + 9, 2 * r + 12, a11, Op::Add(1));
    lemma_occurs_char(code, 2 * r + 10, "+>+<"@, 3);
    let a13 = a12.push(Op::Move(-1));
    lemma_covers_step(code, r + 9, 2 * r + 13, a12, Op::Move(-1));
    lemma_covers_repeat(code, 2 * r + 14, '<', rel);
    let a14 = a13 + repeat_op(Op::Move(-1), rel);
    lemma_covers_join(code, r + 9, 2 * r + 14, 3 * r + 14, a13, repeat_op(Op::Move(-1), rel));
    lemma_occurs_char(code, 3 * r + 14, "]"@, 0);
    let a15 = a7.push(Op::Loop(a14));
    lemma_covers_loop(code, 0, r + 8, a7, 3 * r + 14, a14);
    lemma_covers_repeat(code, 3 * r + 15, '>', rel);
    let a16 = a15 + repeat_op(Op::Move(1), rel);
    lemma_covers_join(code, 0, 3 * r + 15, 4 * r + 15, a15, repeat_op(Op::Move(1), rel));
    lemma_occurs_char(code, 4 * r + 15, ">[-<"@, 0);
    let a17 = a16.push(Op::Move(1));
    lemma_covers_step(code, 0, 4 * r + 15, a16, Op::Move(1));
    lemma_occurs_char(code, 4 * r + 15, ">[-<"@, 1);
    lemma_covers_nothing(code, 4 * r + 17);
    lemma_occurs_char(code, 4 * r + 15, ">[-<"@, 2);
    let a18 = e.push(Op::Add(-1));
    lemma_covers_step(code, 4 * r + 17, 4 * r + 17, e, Op::Add(-1));
    lemma_occurs_char(code, 4 * r + 15, ">[-<"@, 3);
    let a19 = a18.push(Op::Move(-1));
    lemma_covers_step(code, 4 * r + 17, 4 * r + 18, a18, Op::Move(-1));
    lemma_covers_repeat(code, 4 * r + 19, '<', rel);
    let a20 = a19 + repeat_op(Op::Move(-1), rel);
    lemma_covers_join(code, 4 * r + 17, 4 * r + 19, 5 * r + 19, a19, repeat_op(Op::Move(-1), rel));
    lemma_occurs_char(code, 5 * r + 19, "+"@, 0);
    let a21 = a20.push(Op::Add(1));
    lemma_covers_step(code, 4 * r + 17, 5 * r + 19, a20, Op::Add(1));
    lemma_covers_repeat(code, 5 * r + 20, '>', rel);
    let a22 = a21 + repeat_op(Op::Move(1), rel);
    lemma_covers_join(code, 4 * r + 17, 5 * r + 20, 6 * r + 20, a21, repeat_op(Op::Move(1), rel));
    lemma_occurs_char(code, 6 * r + 20, ">]<"@, 0);
    let a23 = a22.push(Op::Move(1));
    lemma_covers_step(code, 4 * r + 17, 6 * r + 20, a22, Op::Move(1));
    lemma_occurs_char(code, 6 * r + 20, ">]<"@, 1);
    let a24 = a17.push(Op::Loop(a23));
    lemma_covers_loop(code, 0, 4 * r + 16, a17, 6 * r + 21, a23);
    lemma_occurs_char(code, 6 * r + 20, ">]<"@, 2);
    let a25 = a24.push(Op::Move(-1));
    lemma_covers_step(code, 0, 6 * r + 22, a24, Op::Move(-1));
    assert(a25 == read_var_ops(rel));
}

/// For every distance, the code that reads a variable is a program of its operations.
pub proof fn lemma_read_var_reads(rel: nat)
    ensures
        reads(read_var(rel), read_var_ops(rel)),
{
    lemma_read_var_reads_length_12(rel);
    lemma_read_var_reads_piece_0(rel);
    lemma_read_var_reads_piece_1(rel);
    lemma_read_var_reads_piece_2(rel);
    lemma_read_var_reads_piece_3(rel);
    lemma_read_var_reads_piece_4(rel);
    lemma_read_var_reads_piece_5(rel);
    lemma_read_var_reads_piece_6(rel);
    lemma_read_var_reads_piece_7(rel);
    lemma_read_var_reads_piece_8(rel);
    lemma_read_var_reads_piece_9(rel);
    lemma_read_var_reads_piece_10(rel);
    lemma_read_var_reads_piece_11(rel);
    lemma_read_var_reads_piece_12(rel);
    lemma_read_var_reads_chain(read_var(rel), rel);
}

/// The operations of the code of `=`, for a variable `rel` cells left of the head.
pub open spec fn assign_eq_ops(rel: nat) -> Seq<Op> {
    ((Seq::<Op>::empty() + repeat_op(Op::Move(-1), rel)).push(Op::Loop(Seq::<Op>::empty().push(Op::Add(-1)))) + repeat_op(Op::Move(1), rel)).push(Op::Loop(((Seq::<Op>::empty().push(Op::Add(-1)) + repeat_op(Op::Move(-1), rel)).push(Op::Add(1)) + repeat_op(Op::Move(1), rel))))
}

proof fn lemma_assign_eq_reads_length_0(rel: nat)
    ensures
        (repeat('<', rel)).len() == (rel as int),
{
}

proof fn lemma_assign_eq_reads_length_1(rel: nat)
    ensures
        (repeat('<', rel) + "[-]"@).len() == (rel as int) + 3,
{
    lemma_assign_eq_reads_length_0(rel);
    reveal_strlit("[-]");
}

proof fn lemma_assign_eq_reads_length_2(rel: nat)
    ensures
        (repeat('<', rel) + "[-]"@ + repeat('>', rel)).len() == 2 * (rel as int) + 3,
{
    lemma_assign_eq_reads_length_1(rel);
}

proof fn lemma_assign_eq_reads_length_3(rel: nat)
    ensures
        (repeat('<', rel) + "[-]"@ + repeat('>', rel) + "[-"@).len() == 2 * (rel as int) + 5,
{
    lemma_assign_eq_reads_length_2(rel);
    reveal_strlit("[-");
}

proof fn lemma_assign_eq_reads_length_4(rel: nat)
    ensures
        (repeat('<', rel) + "[-]"@ + repeat('>', rel) + "[-"@ + repeat('<', rel)).len() == 3 * (rel as int) + 5,
{
    lemma_assign_eq_reads_length_3(rel);
}

proof fn lemma_assign_eq_reads_length_5(rel: nat)
    ensures
        (repeat('<', rel) + "[-]"@ + repeat('>', rel) + "[-"@ + repeat('<', rel) + "+"@).len() == 3 * (rel as int) + 6,
{
    lemma_assign_eq_reads_length_4(rel);
    reveal_strlit("+");
}

proof fn lemma_assign_eq_reads_length_6(rel: nat)
    ensures
        (repeat('<', rel) + "[-]"@ + repeat('>', rel) + "[-"@ + repeat('<', rel) + "+"@ + repeat('>', rel)).len() == 4 * (rel as int) + 6,
{
    lemma_assign_eq_reads_length_5(rel);
}

proof fn lemma_assign_eq_reads_length_7(rel: nat)
    ensures
        (repeat('<', rel) + "[-]"@ + repeat('>', rel) + "[-"@ + repeat('<', rel) + "+"@ + repeat('>', rel) + "]"@).len() == 4 * (rel as int) + 7,
{
    lemma_assign_eq_reads_length_6(rel);
    reveal_strlit("]");
}

proof fn lemma_assign_eq_reads_prefix_7(rel: nat)
    ensures
        occurs(assign_template(AssignOpKind::Eq, rel), 0, repeat('<', rel) + "[-]"@ + repeat('>', rel) + "[-"@ + repeat('<', rel) + "+"@ + repeat('>', rel) + "]"@),
{
    let code = assign_template(AssignOpKind::Eq, rel);
    assert(code.subrange(0, code.len() as int) =~= code);
}

proof fn lemma_assign_eq_reads_prefix_6(rel: nat)
    ensures
        occurs(assign_template(AssignOpKind::Eq, rel), 0, repeat('<', rel) + "[-]"@ + repeat('>', rel) + "[-"@ + repeat('<', rel) + "+"@ + repeat('>', rel)),
{
    lemma_assign_eq_reads_prefix_7(rel);
    lemma_occurs_parts(assign_template(AssignOpKind::Eq, rel), 0, repeat('<', rel) + "[-]"@ + repeat('>', rel) + "[-"@ + repeat('<', rel) + "+"@ + repeat('>', rel), "]"@);
}

proof fn lemma_assign_eq_reads_prefix_5(rel: nat)
    ensures
        occurs(assign_template(AssignOpKind::Eq, rel), 0, repeat('<', rel) + "[-]"@ + repeat('>', rel) + "[-"@ + repeat('<', rel) + "+"@),
{
    lemma_assign_eq_reads_prefix_6(rel);
    lemma_occurs_parts(assign_template(AssignOpKind::Eq, rel), 0, repeat('<', rel) + "[-]"@ + repeat('>', rel) + "[-"@ + repeat('<', rel) + "+"@, repeat('>', rel));
}

proof fn lemma_assign_eq_reads_prefix_4(rel: nat)
    ensures
        occurs(assign_template(AssignOpKind::Eq, rel), 0, repeat('<', rel) + "[-]"@ + repeat('>', rel) + "[-"@ + repeat('<', rel)),
{
    lemma_assign_eq_reads_prefix_5(rel);
    lemma_occurs_parts(assign_template(AssignOpKind::Eq, rel), 0, repeat('<', rel) + "[-]"@ + repeat('>', rel) + "[-"@ + repeat('<', rel), "+"@);
}

proof fn lemma_assign_eq_reads_prefix_3(rel: nat)
    ensures
        occurs(assign_template(AssignOpKind::Eq, rel), 0, repeat('<', rel) + "[-]"@ + repeat('>', rel) + "[-"@),
{
    lemma_assign_eq_reads_prefix_4(rel);
    lemma_occurs_parts(assign_template(AssignOpKind::Eq, rel), 0, repeat('<', rel) + "[-]"@ + repeat('>', rel) + "[-"@, repeat('<', rel));
}

proof fn lemma_assign_eq_reads_prefix_2(rel: nat)
    ensures
        occurs(assign_template(AssignOpKind::Eq, rel), 0, repeat('<', rel) + "[-]"@ + repeat('>', rel)),
{
    lemma_assign_eq_reads_prefix_3(rel);
    lemma_occurs_parts(assign_template(AssignOpKind::Eq, rel), 0, repeat('<', rel) + "[-]"@ + repeat('>', rel), "[-"@);
}

proof fn lemma_assign_eq_reads_prefix_1(rel: nat)
    ensures
        occurs(assign_template(AssignOpKind::Eq, rel), 0, repeat('<', rel) + "[-]"@),
{
    lemma_assign_eq_reads_prefix_2(rel);
    lemma_occurs_parts(assign_template(AssignOpKind::Eq, rel), 0, repeat('<', rel) + "[-]"@, repeat('>', rel));
}

proof fn lemma_assign_eq_reads_prefix_0(rel: nat)
    ensures
        occurs(assign_template(AssignOpKind::Eq, rel), 0, repeat('<', rel)),
{
    lemma_assign_eq_reads_prefix_1(rel);
    lemma_occurs_parts(assign_template(AssignOpKind::Eq, rel), 0, repeat('<', rel), "[-]"@);
}

proof fn lemma_assign_eq_reads_piece_0(rel: nat)
    ensures
        occurs(assign_template(AssignOpKind::Eq, rel), 0, repeat('<', rel)),
{
    lemma_assign_eq_reads_prefix_0(rel);
}

proof fn lemma_assign_eq_reads_piece_1(rel: nat)
    ensures
        occurs(assign_template(AssignOpKind::Eq, rel), (rel as int), "[-]"@),
{
    lemma_assign_eq_reads_prefix_1(rel);
    lemma_assign_eq_reads_length_0(rel);
    lemma_occurs_parts(assign_template(AssignOpKind::Eq, rel), 0, repeat('<', rel), "[-]"@);
}

proof fn lemma_assign_eq_reads_piece_2(rel: nat)
    ensures
        occurs(assign_template(AssignOpKind::Eq, rel), (rel as int) + 3, repeat('>', rel)),
{
    lemma_assign_eq_reads_prefix_2(rel);
    lemma_assign_eq_reads_length_1(rel);
    lemma_occurs_parts(assign_template(AssignOpKind::Eq, rel), 0, repeat('<', rel) + "[-]"@, repeat('>', rel));
}

proof fn lemma_assign_eq_reads_piece_3(rel: nat)
    ensures
        occurs(assign_template(AssignOpKind::Eq, rel), 2 * (rel as int) + 3, "[-"@),
{
    lemma_assign_eq_reads_prefix_3(rel);
    lemma_assign_eq_reads_length_2(rel);
    lemma_occurs_parts(assign_template(AssignOpKind::Eq, rel), 0, repeat('<', rel) + "[-]"@ + repeat('>', rel), "[-"@);
}

proof fn lemma_assign_eq_reads_piece_4(rel: nat)
    ensures
        occurs(assign_template(AssignOpKind::Eq, rel), 2 * (rel as int) + 5, repeat('<', rel)),
{
    lemma_assign_eq_reads_prefix_4(rel);
    lemma_assign_eq_reads_length_3(rel);
    lemma_occurs_parts(assign_template(AssignOpKind::Eq, rel), 0, repeat('<', rel) + "[-]"@ + repeat('>', rel) + "[-"@, repeat('<', rel));
}

proof fn lemma_assign_eq_reads_piece_5(rel: nat)
    ensures
        occurs(assign_template(AssignOpKind::Eq, rel), 3 * (rel as int) + 5, "+"@),
{
    lemma_assign_eq_reads_prefix_5(rel);
    lemma_assign_eq_reads_length_4(rel);
    lemma_occurs_parts(assign_template(AssignOpKind::Eq, rel), 0, repeat('<', rel) + "[-]"@ + repeat('>', rel) + "[-"@ + repeat('<', rel), "+"@);
}

proof fn lemma_assign_eq_reads_piece_6(rel: nat)
    ensures
        occurs(assign_template(AssignOpKind::Eq, rel), 3 * (rel as int) + 6, repeat('>', rel)),
{
    lemma_assign_eq_reads_prefix_6(rel);
    lemma_assign_eq_reads_length_5(rel);
    lemma_occurs_parts(assign_template(AssignOpKind::Eq, rel), 0, repeat('<', rel) + "[-]"@ + repeat('>', rel) + "[-"@ + repeat('<', rel) + "+"@, repeat('>', rel));
}

proof fn lemma_assign_eq_reads_piece_7(rel: nat)
    ensures
        occurs(assign_template(AssignOpKind::Eq, rel), 4 * (rel as int) + 6, "]"@),
{
    lemma_assign_eq_reads_prefix_7(rel);
    lemma_assign_eq_reads_length_6(rel);
    lemma_occurs_parts(assign_template(AssignOpKind::Eq, rel), 0, repeat('<', rel) + "[-]"@ + repeat('>', rel) + "[-"@ + repeat('<', rel) + "+"@ + repeat('>', rel), "]"@);
}

proof fn lemma_assign_eq_reads_chain(code: Seq<char>, rel: nat)
    requires
        code.len() == 4 * (rel as int) + 7,
        occurs(code, 0, repeat('<', rel)),
        occurs(code, (rel as int), "[-]"@),
        occurs(code, (rel as int) + 3, repeat('>', rel)),
        occurs(code, 2 * (rel as int) + 3, "[-"@),
        occurs(code, 2 * (rel as int) + 5, repeat('<', rel)),
        occurs(code, 3 * (rel as int) + 5, "+"@),
        occurs(code, 3 * (rel as int) + 6, repeat('>', rel)),
        occurs(code, 4 * (rel as int) + 6, "]"@),
    ensures
        reads(code, assign_eq_ops(rel)),
{
    let r = rel as int;
    reveal_strlit("[-]");
    reveal_strlit("[-");
    reveal_strlit("+");
    reveal_strlit("]");
    let e = Seq::<Op>::empty();
    lemma_covers_nothing(code, 0);
    lemma_covers_repeat(code, 0, '<', rel);
    let a1 = e + repeat_op(Op::Move(-1), rel);
    lemma_covers_join(code, 0, 0, r, e, repeat_op(Op::Move(-1), rel));
    lemma_occurs_char(code, r, "[-]"@, 0);
    lemma_covers_nothing(code, r + 1);
    lemma_occurs_char(code, r, "[-]"@, 1);
    let a2 = e.push(Op::Add(-1));
    lemma_covers_step(code, r + 1, r + 1, e, Op::Add(-1));
    lemma_occurs_char(code, r, "[-]"@, 2);
    let a3 = a1.push(Op::Loop(a2));
    lemma_covers_loop(code, 0, r, a1, r + 2, a2);
    lemma_covers_repeat(code, r + 3, '>', rel);
    let a4 = a3 + repeat_op(Op::Move(1), rel);
    lemma_covers_join(code, 0, r + 3, 2 * r + 3, a3, repeat_op(Op::Move(1), rel));
    lemma_occurs_char(code, 2 * r + 3, "[-"@, 0);
    lemma_covers_nothing(code, 2 * r + 4);
    lemma_occurs_char(code, 2 * r + 3, "[-"@, 1);
    let a5 = e.push(Op::Add(-1));
    lemma_covers_step(code, 2 * r + 4, 2 * r + 4, e, Op::Add(-1));
    lemma_covers_repeat(code, 2 * r + 5, '<', rel);
    let a6 = a5 + repeat_op(Op::Move(-1), rel);
    lemma_covers_join(code, 2 * r + 4, 2 * r + 5, 3 * r + 5, a5, repeat_op(Op::Move(-1), rel));
    lemma_occurs_char(code, 3 * r + 5, "+"@, 0);
    let a7 = a6.push(Op::Add(1));
    lemma_covers_step(code, 2 * r + 4, 3 * r + 5, a6, Op::Add(1));
    lemma_covers_repeat(code, 3 * r + 6, '>', rel);
    let a8 = a7 + repeat_op(Op::Move(1), rel);
    lemma_covers_join(code, 2 * r + 4, 3 * r + 6, 4 * r + 6, a7, repeat_op(Op::Move(1), rel));
    lemma_occurs_char(code, 4 * r + 6, "]"@, 0);
    let a9 = a4.push(Op::Loop(a8));
    lemma_covers_loop(code, 0, 2 * r + 3, a4, 4 * r + 6, a8);
    assert(a9 == assign_eq_ops(rel));
}

/// For every distance, the code of `=` is a program of its operations.
pub proof fn lemma_assign_eq_reads(rel: nat)
    ensures
        reads(assign_template(AssignOpKind::Eq, rel), assign_eq_ops(rel)),
{
    lemma_assign_eq_reads_length_7(rel);
    lemma_assign_eq_reads_piece_0(rel);
    lemma_assign_eq_reads_piece_1(rel);
    lemma_assign_eq_reads_piece_2(rel);
    lemma_assign_eq_reads_piece_3(rel);
    lemma_assign_eq_reads_piece_4(rel);
    lemma_assign_eq_reads_piece_5(rel);
    lemma_assign_eq_reads_piece_6(rel);
    lemma_assign_eq_reads_piece_7(rel);
    lemma_assign_eq_reads_chain(assign_template(AssignOpKind::Eq, rel), rel);
}

/// The operations of the code of `+=`, for a variable `rel` cells left of the head.
pub open spec fn assign_plus_ops(rel: nat) -> Seq<Op> {
    Seq::<Op>::empty().push(Op::Loop(((Seq::<Op>::empty().push(Op::Add(-1)) + repeat_op(Op::Move(-1), rel)).push(Op::Add(1)) + repeat_op(Op::Move(1), rel))))
}

proof fn lemma_assign_plus_reads_length_0(rel: nat)
    ensures
        ("[-"@).len() == 2,
{
    reveal_strlit("[-");
}

proof fn lemma_assign_plus_reads_length_1(rel: nat)
    ensures
        ("[-"@ + repeat('<', rel)).len() == (rel as int) + 2,
{
    lemma_assign_plus_reads_length_0(rel);
}

proof fn lemma_assign_plus_reads_length_2(rel: nat)
    ensures
        ("[-"@ + repeat('<', rel) + "+"@).len() == (rel as int) + 3,
{
    lemma_assign_plus_reads_length_1(rel);
    reveal_strlit("+");
}

proof fn lemma_assign_plus_reads_length_3(rel: nat)
    ensures
        ("[-"@ + repeat('<', rel) + "+"@ + repeat('>', rel)).len() == 2 * (rel as int) + 3,
{
    lemma_assign_plus_reads_length_2(rel);
}

proof fn lemma_assign_plus_reads_length_4(rel: nat)
    ensures
        ("[-"@ + repeat('<', rel) + "+"@ + repeat('>', rel) + "]"@).len() == 2 * (rel as int) + 4,
{
    lemma_assign_plus_reads_length_3(rel);
    reveal_strlit("]");
}

proof fn lemma_assign_plus_reads_prefix_4(rel: nat)
    ensures
        occurs(assign_template(AssignOpKind::PlusEq, rel), 0, "[-"@ + repeat('<', rel) + "+"@ + repeat('>', rel) + "]"@),
{
    let code = assign_template(AssignOpKind::PlusEq, rel);
    assert(code.subrange(0, code.len() as int) =~= code);
}

proof fn lemma_assign_plus_reads_prefix_3(rel: nat)
    ensures
        occurs(assign_template(AssignOpKind::PlusEq, rel), 0, "[-"@ + repeat('<', rel) + "+"@ + repeat('>', rel)),
{
    lemma_assign_plus_reads_prefix_4(rel);
    lemma_occurs_parts(assign_template(AssignOpKind::PlusEq, rel), 0, "[-"@ + repeat('<', rel) + "+"@ + repeat('>', rel), "]"@);
}

proof fn lemma_assign_plus_reads_prefix_2(rel: nat)
    ensures
        occurs(assign_template(AssignOpKind::PlusEq, rel), 0, "[-"@ + repeat('<', rel) + "+"@),
{
    lemma_assign_plus_reads_prefix_3(rel);
    lemma_occurs_parts(assign_template(AssignOpKind::PlusEq, rel), 0, "[-"@ + repeat('<', rel) + "+"@, repeat('>', rel));
}

proof fn lemma_assign_plus_reads_prefix_1(rel: nat)
    ensures
        occurs(assign_template(AssignOpKind::PlusEq, rel), 0, "[-"@ + repeat('<', rel)),
{
    lemma_assign_plus_reads_prefix_2(rel);
    lemma_occurs_parts(assign_template(AssignOpKind::PlusEq, rel), 0, "[-"@ + repeat('<', rel), "+"@);
}

proof fn lemma_assign_plus_reads_prefix_0(rel: nat)
    ensures
        occurs(assign_template(AssignOpKind::PlusEq, rel), 0, "[-"@),
{
    lemma_assign_plus_reads_prefix_1(rel);
    lemma_occurs_parts(assign_template(AssignOpKind::PlusEq, rel), 0, "[-"@, repeat('<', rel));
}

proof fn lemma_assign_plus_reads_piece_0(rel: nat)
    ensures
        occurs(assign_template(AssignOpKind::PlusEq, rel), 0, "[-"@),
{
    lemma_assign_plus_reads_prefix_0(rel);
}

proof fn lemma_assign_plus_reads_piece_1(rel: nat)
    ensures
        occurs(assign_template(AssignOpKind::PlusEq, rel), 2, repeat('<', rel)),
{
    lemma_assign_plus_reads_prefix_1(rel);
    lemma_assign_plus_reads_length_0(rel);
    lemma_occurs_parts(assign_template(AssignOpKind::PlusEq, rel), 0, "[-"@, repeat('<', rel));
}

proof fn lemma_assign_plus_reads_piece_2(rel: nat)
    ensures
        occurs(assign_template(AssignOpKind::PlusEq, rel), (rel as int) + 2, "+"@),
{
    lemma_assign_plus_reads_prefix_2(rel);
    lemma_assign_plus_reads_length_1(rel);
    lemma_occurs_parts(assign_template(AssignOpKind::PlusEq, rel), 0, "[-"@ + repeat('<', rel), "+"@);
}

proof fn lemma_assign_plus_reads_piece_3(rel: nat)
    ensures
        occurs(assign_template(AssignOpKind::PlusEq, rel), (rel as int) + 3, repeat('>', rel)),
{
    lemma_assign_plus_reads_prefix_3(rel);
    lemma_assign_plus_reads_length_2(rel);
    lemma_occurs_parts(assign_template(AssignOpKind::PlusEq, rel), 0, "[-"@ + repeat('<', rel) + "+"@, repeat('>', rel));
}

proof fn lemma_assign_plus_reads_piece_4(rel: nat)
    ensures
        occurs(assign_template(AssignOpKind::PlusEq, rel), 2 * (rel as int) + 3, "]"@),
{
    lemma_assign_plus_reads_prefix_4(rel);
    lemma_assign_plus_reads_length_3(rel);
    lemma_occurs_parts(assign_template(AssignOpKind::PlusEq, rel), 0, "[-"@ + repeat('<', rel) + "+"@ + repeat('>', rel), "]"@);
}

proof fn lemma_assign_plus_reads_chain(code: Seq<char>, rel: nat)
    requires
        code.len() == 2 * (rel as int) + 4,
        occurs(code, 0, "[-"@),
        occurs(code, 2, repeat('<', rel)),
        occurs(code, (rel as int) + 2, "+"@),
        occurs(code, (rel as int) + 3, repeat('>', rel)),
        occurs(code, 2 * (rel as int) + 3, "]"@),
    ensures
        reads(code, assign_plus_ops(rel)),
{
    let r = rel as int;
    reveal_strlit("[-");
    reveal_strlit("+");
    reveal_strlit("]");
    let e = Seq::<Op>::empty();
    lemma_covers_nothing(code, 0);
    lemma_occurs_char(code, 0, "[-"@, 0);
    lemma_covers_nothing(code, 1);
    lemma_occurs_char(code, 0, "[-"@, 1);
    let a1 = e.push(Op::Add(-1));
    lemma_covers_step(code, 1, 1, e, Op::Add(-1));
    lemma_covers_repeat(code, 2, '<', rel);
    let a2 = a1 + repeat_op(Op::Move(-1), rel);
    lemma_covers_join(code, 1, 2, r + 2, a1, repeat_op(Op::Move(-1), rel));
    lemma_occurs_char(code, r + 2, "+"@, 0);
    let a3 = a2.push(Op::Add(1));
    lemma_covers_step(code, 1, r + 2, a2, Op::Add(1));
    lemma_covers_repeat(code, r + 3, '>', rel);
    let a4 = a3 + repeat_op(Op::Move(1), rel);
    lemma_covers_join(code, 1, r + 3, 2 * r + 3, a3, repeat_op(Op::Move(1), rel));
    lemma_occurs_char(code, 2 * r + 3, "]"@, 0);
    let a5 = e.push(Op::Loop(a4));
    lemma_covers_loop(code, 0, 0, e, 2 * r + 3, a4);
    assert(a5 == assign_plus_ops(rel));
}

/// For every distance, the code of `+=` is a program of its operations.
pub proof fn lemma_assign_plus_reads(rel: nat)
    ensures
        reads(assign_template(AssignOpKind::PlusEq, rel), assign_plus_ops(rel)),
{
    lemma_assign_plus_reads_length_4(rel);
    lemma_assign_plus_reads_piece_0(rel);
    lemma_assign_plus_reads_piece_1(rel);
    lemma_assign_plus_reads_piece_2(rel);
    lemma_assign_plus_reads_piece_3(rel);
    lemma_assign_plus_reads_piece_4(rel);
    lemma_assign_plus_reads_chain(assign_template(AssignOpKind::PlusEq, rel), rel);
}

/// The operations of the code of `-=`, for a variable `rel` cells left of the head.
pub open spec fn assign_minus_ops(rel: nat) -> Seq<Op> {
    Seq::<Op>::empty().push(Op::Loop(((Seq::<Op>::empty().push(Op::Add(-1)) + repeat_op(Op::Move(-1), rel)).push(Op::Add(-1)) + repeat_op(Op::Move(1), rel))))
}

proof fn lemma_assign_minus_reads_length_0(rel: nat)
    ensures
        ("[-"@).len() == 2,
{
    reveal_strlit("[-");
}

proof fn lemma_assign_minus_reads_length_1(rel: nat)
    ensures
        ("[-"@ + repeat('<', rel)).len() == (rel as int) + 2,
{
    lemma_assign_minus_reads_length_0(rel);
}

proof fn lemma_assign_minus_reads_length_2(rel: nat)
    ensures
        ("[-"@ + repeat('<', rel) + "-"@).len() == (rel as int) + 3,
{
    lemma_assign_minus_reads_length_1(rel);
    reveal_strlit("-");
}

proof fn lemma_assign_minus_reads_length_3(rel: nat)
    ensures
        ("[-"@ + repeat('<', rel) + "-"@ + repeat('>', rel)).len() == 2 * (rel as int) + 3,
{
    lemma_assign_minus_reads_length_2(rel);
}

proof fn lemma_assign_minus_reads_length_4(rel: nat)
    ensures
        ("[-"@ + repeat('<', rel) + "-"@ + repeat('>', rel) + "]"@).len() == 2 * (rel as int) + 4,
{
    lemma_assign_minus_reads_length_3(rel);
    reveal_strlit("]");
}

proof fn lemma_assign_minus_reads_prefix_4(rel: nat)
    ensures
        occurs(assign_template(AssignOpKind::MinusEq, rel), 0, "[-"@ + repeat('<', rel) + "-"@ + repeat('>', rel) + "]"@),
{
    let code = assign_template(AssignOpKind::MinusEq, rel);
    assert(code.subrange(0, code.len() as int) =~= code);
}

proof fn lemma_assign_minus_reads_prefix_3(rel: nat)
    ensures
        occurs(assign_template(AssignOpKind::MinusEq, rel), 0, "[-"@ + repeat('<', rel) + "-"@ + repeat('>', rel)),
{
    lemma_assign_minus_reads_prefix_4(rel);
    lemma_occurs_parts(assign_template(AssignOpKind::MinusEq, rel), 0, "[-"@ + repeat('<', rel) + "-"@ + repeat('>', rel), "]"@);
}

proof fn lemma_assign_minus_reads_prefix_2(rel: nat)
    ensures
        occurs(assign_template(AssignOpKind::MinusEq, rel), 0, "[-"@ + repeat('<', rel) + "-"@),
{
    lemma_assign_minus_reads_prefix_3(rel);
    lemma_occurs_parts(assign_template(AssignOpKind::MinusEq, rel), 0, "[-"@ + repeat('<', rel) + "-"@, repeat('>', rel));
}

proof fn lemma_assign_minus_reads_prefix_1(rel: nat)
    ensures
        occurs(assign_template(AssignOpKind::MinusEq, rel), 0, "[-"@ + repeat('<', rel)),
{
    lemma_assign_minus_reads_prefix_2(rel);
    lemma_occurs_parts(assign_template(AssignOpKind::MinusEq, rel), 0, "[-"@ + repeat('<', rel), "-"@);
}

proof fn lemma_assign_minus_reads_prefix_0(rel: nat)
    ensures
        occurs(assign_template(AssignOpKind::MinusEq, rel), 0, "[-"@),
{
    lemma_assign_minus_reads_prefix_1(rel);
    lemma_occurs_parts(assign_template(AssignOpKind::MinusEq, rel), 0, "[-"@, repeat('<', rel));
}

proof fn lemma_assign_minus_reads_piece_0(rel: nat)
    ensures
        occurs(assign_template(AssignOpKind::MinusEq, rel), 0, "[-"@),
{
    lemma_assign_minus_reads_prefix_0(rel);
}

proof fn lemma_assign_minus_reads_piece_1(rel: nat)
    ensures
        occurs(assign_template(AssignOpKind::MinusEq, rel), 2, repeat('<', rel)),
{
    lemma_assign_minus_reads_prefix_1(rel);
    lemma_assign_minus_reads_length_0(rel);
    lemma_occurs_parts(assign_template(AssignOpKind::MinusEq, rel), 0, "[-"@, repeat('<', rel));
}

proof fn lemma_assign_minus_reads_piece_2(rel: nat)
    ensures
        occurs(assign_template(AssignOpKind::MinusEq, rel), (rel as int) + 2, "-"@),
{
    lemma_assign_minus_reads_prefix_2(rel);
    lemma_assign_minus_reads_length_1(rel);
    lemma_occurs_parts(assign_template(AssignOpKind::MinusEq, rel), 0, "[-"@ + repeat('<', rel), "-"@);
}

proof fn lemma_assign_minus_reads_piece_3(rel: nat)
    ensures
        occurs(assign_template(AssignOpKind::MinusEq, rel), (rel as int) + 3, repeat('>', rel)),
{
    lemma_assign_minus_reads_prefix_3(rel);
    lemma_assign_minus_reads_length_2(rel);
    lemma_occurs_parts(assign_template(AssignOpKind::MinusEq, rel), 0, "[-"@ + repeat('<', rel) + "-"@, repeat('>', rel));
}

proof fn lemma_assign_minus_reads_piece_4(rel: nat)
    ensures
        occurs(assign_template(AssignOpKind::MinusEq, rel), 2 * (rel as int) + 3, "]"@),
{
    lemma_assign_minus_reads_prefix_4(rel);
    lemma_assign_minus_reads_length_3(rel);
    lemma_occurs_parts(assign_template(AssignOpKind::MinusEq, rel), 0, "[-"@ + repeat('<', rel) + "-"@ + repeat('>', rel), "]"@);
}

proof fn lemma_assign_minus_reads_chain(code: Seq<char>, rel: nat)
    requires
        code.len() == 2 * (rel as int) + 4,
        occurs(code, 0, "[-"@),
        occurs(code, 2, repeat('<', rel)),
        occurs(code, (rel as int) + 2, "-"@),
        occurs(code, (rel as int) + 3, repeat('>', rel)),
        occurs(code, 2 * (rel as int) + 3, "]"@),
    ensures
        reads(code, assign_minus_ops(rel)),
{
    let r = rel as int;
    reveal_strlit("[-");
    reveal_strlit("-");
    reveal_strlit("]");
    let e = Seq::<Op>::empty();
    lemma_covers_nothing(code, 0);
    lemma_occurs_char(code, 0, "[-"@, 0);
    lemma_covers_nothing(code, 1);
    lemma_occurs_char(code, 0, "[-"@, 1);
    let a1 = e.push(Op::Add(-1));
    lemma_covers_step(code, 1, 1, e, Op::Add(-1));
    lemma_covers_repeat(code, 2, '<', rel);
    let a2 = a1 + repeat_op(Op::Move(-1), rel);
    lemma_covers_join(code, 1, 2, r + 2, a1, repeat_op(Op::Move(-1), rel));
    lemma_occurs_char(code, r + 2, "-"@, 0);
    let a3 = a2.push(Op::Add(-1));
    lemma_covers_step(code, 1, r + 2, a2, Op::Add(-1));
    lemma_covers_repeat(code, r + 3, '>', rel);
    let a4 = a3 + repeat_op(Op::Move(1), rel);
    lemma_covers_join(code, 1, r + 3, 2 * r + 3, a3, repeat_op(Op::Move(1), rel));
    lemma_occurs_char(code, 2 * r + 3, "]"@, 0);
    let a5 = e.push(Op::Loop(a4));
    lemma_covers_loop(code, 0, 0, e, 2 * r + 3, a4);
    assert(a5 == assign_minus_ops(rel));
}

/// For every distance, the code of `-=` is a program of its operations.
pub proof fn lemma_assign_minus_reads(rel: nat)
    ensures
        reads(assign_template(AssignOpKind::MinusEq, rel), assign_minus_ops(rel)),
{
    lemma_assign_minus_reads_length_4(rel);
    lemma_assign_minus_reads_piece_0(rel);
    lemma_assign_minus_reads_piece_1(rel);
    lemma_assign_minus_reads_piece_2(rel);
    lemma_assign_minus_reads_piece_3(rel);
    lemma_assign_minus_reads_piece_4(rel);
    lemma_assign_minus_reads_chain(assign_template(AssignOpKind::MinusEq, rel), rel);
}

/// The operations of the code of `*=`, for a variable `rel` cells left of the head.
pub open spec fn assign_star_ops(rel: nat) -> Seq<Op> {
    ((Seq::<Op>::empty().push(Op::Move(1)).push(Op::Loop(Seq::<Op>::empty().push(Op::Add(-1)))).push(Op::Move(1)).push(Op::Loop(Seq::<Op>::empty().push(Op::Add(-1)))).push(Op::Move(-1)).push(Op::Move(-1)) + repeat_op(Op::Move(-1), rel)).push(Op::Loop(((Seq::<Op>::empty().push(Op::Add(-1)) + repeat_op(Op::Move(1), rel)).push(Op::Move(1)).push(Op::Add(1)).push(Op::Move(-1)) + repeat_op(Op::Move(-1), rel)))) + repeat_op(Op::Move(1), rel)).push(Op::Loop(Seq::<Op>::empty().push(Op::Add(-1)).push(Op::Move(1)).push(Op::Loop(((Seq::<Op>::empty().push(Op::Add(-1)).push(Op::Move(1)).push(Op::Add(1)).push(Op::Move(-1)).push(Op::Move(-1)) + repeat_op(Op::Move(-1), rel)).push(Op::Add(1)) + repeat_op(Op::Move(1), rel)).push(Op::Move(1)))).push(Op::Move(1)).push(Op::Loop(Seq::<Op>::empty().push(Op::Add(-1)).push(Op::Move(-1)).push(Op::Add(1)).push(Op::Move(1)))).push(Op::Move(-1)).push(Op::Move(-1)))).push(Op::Move(1)).push(Op::Loop(Seq::<Op>::empty().push(Op::Add(-1)))).push(Op::Move(-1))
}

proof fn lemma_assign_star_reads_length_0(rel: nat)
    ensures
        (">[-]>[-]<<"@).len() == 10,
{
    reveal_strlit(">[-]>[-]<<");
}

proof fn lemma_assign_star_reads_length_1(rel: nat)
    ensures
        (">[-]>[-]<<"@ + repeat('<', rel)).len() == (rel as int) + 10,
{
    lemma_assign_star_reads_length_0(rel);
}

proof fn lemma_assign_star_reads_length_2(rel: nat)
    ensures
        (">[-]>[-]<<"@ + repeat('<', rel) + "[-"@).len() == (rel as int) + 12,
{
    lemma_assign_star_reads_length_1(rel);
    reveal_strlit("[-");
}

proof fn lemma_assign_star_reads_length_3(rel: nat)
    ensures
        (">[-]>[-]<<"@ + repeat('<', rel) + "[-"@ + repeat('>', rel)).len() == 2 * (rel as int) + 12,
{
    lemma_assign_star_reads_length_2(rel);
}

proof fn lemma_assign_star_reads_length_4(rel: nat)
    ensures
        (">[-]>[-]<<"@ + repeat('<', rel) + "[-"@ + repeat('>', rel) + ">+<"@).len() == 2 * (rel as int) + 15,
{
    lemma_assign_star_reads_length_3(rel);
    reveal_strlit(">+<");
}

proof fn lemma_assign_star_reads_length_5(rel: nat)
    ensures
        (">[-]>[-]<<"@ + repeat('<', rel) + "[-"@ + repeat('>', rel) + ">+<"@ + repeat('<', rel)).len() == 3 * (rel as int) + 15,
{
    lemma_assign_star_reads_length_4(rel);
}

proof fn lemma_assign_star_reads_length_6(rel: nat)
    ensures
        (">[-]>[-]<<"@ + repeat('<', rel) + "[-"@ + repeat('>', rel) + ">+<"@ + repeat('<', rel) + "]"@).len() == 3 * (rel as int) + 16,
{
    lemma_assign_star_reads_length_5(rel);
    reveal_strlit("]");
}

proof fn lemma_assign_star_reads_length_7(rel: nat)
    ensures
        (">[-]>[-]<<"@ + repeat('<', rel) + "[-"@ + repeat('>', rel) + ">+<"@ + repeat('<', rel) + "]"@ + repeat('>', rel)).len() == 4 * (rel as int) + 16,
{
    lemma_assign_star_reads_length_6(rel);
}

proof fn lemma_assign_star_reads_length_8(rel: nat)
    ensures
        (">[-]>[-]<<"@ + repeat('<', rel) + "[-"@ + repeat('>', rel) + ">+<"@ + repeat('<', rel) + "]"@ + repeat('>', rel) + "[->[->+<<"@).len() == 4 * (rel as int) + 25,
{
    lemma_assign_star_reads_length_7(rel);
    reveal_strlit("[->[->+<<");
}

proof fn lemma_assign_star_reads_length_9(rel: nat)
    ensures
        (">[-]>[-]<<"@ + repeat('<', rel) + "[-"@ + repeat('>', rel) + ">+<"@ + repeat('<', rel) + "]"@ + repeat('>', rel) + "[->[->+<<"@ + repeat('<', rel)).len() == 5 * (rel as int) + 25,
{
    lemma_assign_star_reads_length_8(rel);
}

proof fn lemma_assign_star_reads_length_10(rel: nat)
    ensures
        (">[-]>[-]<<"@ + repeat('<', rel) + "[-"@ + repeat('>', rel) + ">+<"@ + repeat('<', rel) + "]"@ + repeat('>', rel) + "[->[->+<<"@ + repeat('<', rel) + "+"@).len() == 5 * (rel as int) + 26,
{
    lemma_assign_star_reads_length_9(rel);
    reveal_strlit("+");
}

proof fn lemma_assign_star_reads_length_11(rel: nat)
    ensures
        (">[-]>[-]<<"@ + repeat('<', rel) + "[-"@ + repeat('>', rel) + ">+<"@ + repeat('<', rel) + "]"@ + repeat('>', rel) + "[->[->+<<"@ + repeat('<', rel) + "+"@ + repeat('>', rel)).len() == 6 * (rel as int) + 26,
{
    lemma_assign_star_reads_length_10(rel);
}

proof fn lemma_assign_star_reads_length_12(rel: nat)
    ensures
        (">[-]>[-]<<"@ + repeat('<', rel) + "[-"@ + repeat('>', rel) + ">+<"@ + repeat('<', rel) + "]"@ + repeat('>', rel) + "[->[->+<<"@ + repeat('<', rel) + "+"@ + repeat('>', rel) + ">]>[-<+>]<<]>[-]<"@).len() == 6 * (rel as int) + 43,
{
    lemma_assign_star_reads_length_11(rel);
    reveal_strlit(">]>[-<+>]<<]>[-]<");
}

proof fn lemma_assign_star_reads_prefix_12(rel: nat)
    ensures
        occurs(assign_template(AssignOpKind::StarEq, rel), 0, ">[-]>[-]<<"@ + repeat('<', rel) + "[-"@ + repeat('>', rel) + ">+<"@ + repeat('<', rel) + "]"@ + repeat('>', rel) + "[->[->+<<"@ + repeat('<', rel) + "+"@ + repeat('>', rel) + ">]>[-<+>]<<]>[-]<"@),
{
    let code = assign_template(AssignOpKind::StarEq, rel);
    assert(code.subrange(0, code.len() as int) =~= code);
}

proof fn lemma_assign_star_reads_prefix_11(rel: nat)
    ensures
        occurs(assign_template(AssignOpKind::StarEq, rel), 0, ">[-]>[-]<<"@ + repeat('<', rel) + "[-"@ + repeat('>', rel) + ">+<"@ + repeat('<', rel) + "]"@ + repeat('>', rel) + "[->[->+<<"@ + repeat('<', rel) + "+"@ + repeat('>', rel)),
{
    lemma_assign_star_reads_prefix_12(rel);
    lemma_occurs_parts(assign_template(AssignOpKind::StarEq, rel), 0, ">[-]>[-]<<"@ + repeat('<', rel) + "[-"@ + repeat('>', rel) + ">+<"@ + repeat('<', rel) + "]"@ + repeat('>', rel) + "[->[->+<<"@ + repeat('<', rel) + "+"@ + repeat('>', rel), ">]>[-<+>]<<]>[-]<"@);
}

proof fn lemma_assign_star_reads_prefix_10(rel: nat)
    ensures
        occurs(assign_template(AssignOpKind::StarEq, rel), 0, ">[-]>[-]<<"@ + repeat('<', rel) + "[-"@ + repeat('>', rel) + ">+<"@ + repeat('<', rel) + "]"@ + repeat('>', rel) + "[->[->+<<"@ + repeat('<', rel) + "+"@),
{
    lemma_assign_star_reads_prefix_11(rel);
    lemma_occurs_parts(assign_template(AssignOpKind::StarEq, rel), 0, ">[-]>[-]<<"@ + repeat('<', rel) + "[-"@ + repeat('>', rel) + ">+<"@ + repeat('<', rel) + "]"@ + repeat('>', rel) + "[->[->+<<"@ + repeat('<', rel) + "+"@, repeat('>', rel));
}

proof fn lemma_assign_star_reads_prefix_9(rel: nat)
    ensures
        occurs(assign_template(AssignOpKind::StarEq, rel), 0, ">[-]>[-]<<"@ + repeat('<', rel) + "[-"@ + repeat('>', rel) + ">+<"@ + repeat('<', rel) + "]"@ + repeat('>', rel) + "[->[->+<<"@ + repeat('<', rel)),
{
    lemma_assign_star_reads_prefix_10(rel);
    lemma_occurs_parts(assign_template(AssignOpKind::StarEq, rel), 0, ">[-]>[-]<<"@ + repeat('<', rel) + "[-"@ + repeat('>', rel) + ">+<"@ + repeat('<', rel) + "]"@ + repeat('>', rel) + "[->[->+<<"@ + repeat('<', rel), "+"@);
}

proof fn lemma_assign_star_reads_prefix_8(rel: nat)
    ensures
        occurs(assign_template(AssignOpKind::StarEq, rel), 0, ">[-]>[-]<<"@ + repeat('<', rel) + "[-"@ + repeat('>', rel) + ">+<"@ + repeat('<', rel) + "]"@ + repeat('>', rel) + "[->[->+<<"@),
{
    lemma_assign_star_reads_prefix_9(rel);
    lemma_occurs_parts(assign_template(AssignOpKind::StarEq, rel), 0, ">[-]>[-]<<"@ + repeat('<', rel) + "[-"@ + repeat('>', rel) + ">+<"@ + repeat('<', rel) + "]"@ + repeat('>', rel) + "[->[->+<<"@, repeat('<', rel));
}

proof fn lemma_assign_star_reads_prefix_7(rel: nat)
    ensures
        occurs(assign_template(AssignOpKind::StarEq, rel), 0, ">[-]>[-]<<"@ + repeat('<', rel) + "[-"@ + repeat('>', rel) + ">+<"@ + repeat('<', rel) + "]"@ + repeat('>', rel)),
{
    lemma_assign_star_reads_prefix_8(rel);
    lemma_occurs_parts(assign_template(AssignOpKind::StarEq, rel), 0, ">[-]>[-]<<"@ + repeat('<', rel) + "[-"@ + repeat('>', rel) + ">+<"@ + repeat('<', rel) + "]"@ + repeat('>', rel), "[->[->+<<"@);
}

proof fn lemma_assign_star_reads_prefix_6(rel: nat)
    ensures
        occurs(assign_template(AssignOpKind::StarEq, rel), 0, ">[-]>[-]<<"@ + repeat('<', rel) + "[-"@ + repeat('>', rel) + ">+<"@ + repeat('<', rel) + "]"@),
{
    lemma_assign_star_reads_prefix_7(rel);
    lemma_occurs_parts(assign_template(AssignOpKind::StarEq, rel), 0, ">[-]>[-]<<"@ + repeat('<', rel) + "[-"@ + repeat('>', rel) + ">+<"@ + repeat('<', rel) + "]"@, repeat('>', rel));
}

proof fn lemma_assign_star_reads_prefix_5(rel: nat)
    ensures
        occurs(assign_template(AssignOpKind::StarEq, rel), 0, ">[-]>[-]<<"@ + repeat('<', rel) + "[-"@ + repeat('>', rel) + ">+<"@ + repeat('<', rel)),
{
    lemma_assign_star_reads_prefix_6(rel);
    lemma_occurs_parts(assign_template(AssignOpKind::StarEq, rel), 0, ">[-]>[-]<<"@ + repeat('<', rel) + "[-"@ + repeat('>', rel) + ">+<"@ + repeat('<', rel), "]"@);
}

proof fn lemma_assign_star_reads_prefix_4(rel: nat)
    ensures
        occurs(assign_template(AssignOpKind::StarEq, rel), 0, ">[-]>[-]<<"@ + repeat('<', rel) + "[-"@ + repeat('>', rel) + ">+<"@),
{
    lemma_assign_star_reads_prefix_5(rel);
    lemma_occurs_parts(assign_template(AssignOpKind::StarEq, rel), 0, ">[-]>[-]<<"@ + repeat('<', rel) + "[-"@ + repeat('>', rel) + ">+<"@, repeat('<', rel));
}

proof fn lemma_assign_star_reads_prefix_3(rel: nat)
    ensures
        occurs(assign_template(AssignOpKind::StarEq, rel), 0, ">[-]>[-]<<"@ + repeat('<', rel) + "[-"@ + repeat('>', rel)),
{
    lemma_assign_star_reads_prefix_4(rel);
    lemma_occurs_parts(assign_template(AssignOpKind::StarEq, rel), 0, ">[-]>[-]<<"@ + repeat('<', rel) + "[-"@ + repeat('>', rel), ">+<"@);
}

proof fn lemma_assign_star_reads_prefix_2(rel: nat)
    ensures
        occurs(assign_template(AssignOpKind::StarEq, rel), 0, ">[-]>[-]<<"@ + repeat('<', rel) + "[-"@),
{
    lemma_assign_star_reads_prefix_3(rel);
    lemma_occurs_parts(assign_template(AssignOpKind::StarEq, rel), 0, ">[-]>[-]<<"@ + repeat('<', rel) + "[-"@, repeat('>', rel));
}

proof fn lemma_assign_star_reads_prefix_1(rel: nat)
    ensures
        occurs(assign_template(AssignOpKind::StarEq, rel), 0, ">[-]>[-]<<"@ + repeat('<', rel)),
{
    lemma_assign_star_reads_prefix_2(rel);
    lemma_occurs_parts(assign_template(AssignOpKind::StarEq, rel), 0, ">[-]>[-]<<"@ + repeat('<', rel), "[-"@);
}

proof fn lemma_assign_star_reads_prefix_0(rel: nat)
    ensures
        occurs(assign_template(AssignOpKind::StarEq, rel), 0, ">[-]>[-]<<"@),
{
    lemma_assign_star_reads_prefix_1(rel);
    lemma_occurs_parts(assign_template(AssignOpKind::StarEq, rel), 0, ">[-]>[-]<<"@, repeat('<', rel));
}

proof fn lemma_assign_star_reads_piece_0(rel: nat)
    ensures
        occurs(assign_template(AssignOpKind::StarEq, rel), 0, ">[-]>[-]<<"@),
{
    lemma_assign_star_reads_prefix_0(rel);
}

proof fn lemma_assign_star_reads_piece_1(rel: nat)
    ensures
        occurs(assign_template(AssignOpKind::StarEq, rel), 10, repeat('<', rel)),
{
    lemma_assign_star_reads_prefix_1(rel);
    lemma_assign_star_reads_length_0(rel);
    lemma_occurs_parts(assign_template(AssignOpKind::StarEq, rel), 0, ">[-]>[-]<<"@, repeat('<', rel));
}

proof fn lemma_assign_star_reads_piece_2(rel: nat)
    ensures
        occurs(assign_template(AssignOpKind::StarEq, rel), (rel as int) + 10, "[-"@),
{
    lemma_assign_star_reads_prefix_2(rel);
    lemma_assign_star_reads_length_1(rel);
    lemma_occurs_parts(assign_template(AssignOpKind::StarEq, rel), 0, ">[-]>[-]<<"@ + repeat('<', rel), "[-"@);
}

proof fn lemma_assign_star_reads_piece_3(rel: nat)
    ensures
        occurs(assign_template(AssignOpKind::StarEq, rel), (rel as int) + 12, repeat('>', rel)),
{
    lemma_assign_star_reads_prefix_3(rel);
    lemma_assign_star_reads_length_2(rel);
    lemma_occurs_parts(assign_template(AssignOpKind::StarEq, rel), 0, ">[-]>[-]<<"@ + repeat('<', rel) + "[-"@, repeat('>', rel));
}

proof fn lemma_assign_star_reads_piece_4(rel: nat)
    ensures
        occurs(assign_template(AssignOpKind::StarEq, rel), 2 * (rel as int) + 12, ">+<"@),
{
    lemma_assign_star_reads_prefix_4(rel);
    lemma_assign_star_reads_length_3(rel);
    lemma_occurs_parts(assign_template(AssignOpKind::StarEq, rel), 0, ">[-]>[-]<<"@ + repeat('<', rel) + "[-"@ + repeat('>', rel), ">+<"@);
}

proof fn lemma_assign_star_reads_piece_5(rel: nat)
    ensures
        occurs(assign_template(AssignOpKind::StarEq, rel), 2 * (rel as int) + 15, repeat('<', rel)),
{
    lemma_assign_star_reads_prefix_5(rel);
    lemma_assign_star_reads_length_4(rel);
    lemma_occurs_parts(assign_template(AssignOpKind::StarEq, rel), 0, ">[-]>[-]<<"@ + repeat('<', rel) + "[-"@ + repeat('>', rel) + ">+<"@, repeat('<', rel));
}

proof fn lemma_assign_star_reads_piece_6(rel: nat)
    ensures
        occurs(assign_template(AssignOpKind::StarEq, rel), 3 * (rel as int) + 15, "]"@),
{
    lemma_assign_star_reads_prefix_6(rel);
    lemma_assign_star_reads_length_5(rel);
    lemma_occurs_parts(assign_template(AssignOpKind::StarEq, rel), 0, ">[-]>[-]<<"@ + repeat('<', rel) + "[-"@ + repeat('>', rel) + ">+<"@ + repeat('<', rel), "]"@);
}

proof fn lemma_assign_star_reads_piece_7(rel: nat)
    ensures
        occurs(assign_template(AssignOpKind::StarEq, rel), 3 * (rel as int) + 16, repeat('>', rel)),
{
    lemma_assign_star_reads_prefix_7(rel);
    lemma_assign_star_reads_length_6(rel);
    lemma_occurs_parts(assign_template(AssignOpKind::StarEq, rel), 0, ">[-]>[-]<<"@ + repeat('<', rel) + "[-"@ + repeat('>', rel) + ">+<"@ + repeat('<', rel) + "]"@, repeat('>', rel));
}

proof fn lemma_assign_star_reads_piece_8(rel: nat)
    ensures
        occurs(assign_template(AssignOpKind::StarEq, rel), 4 * (rel as int) + 16, "[->[->+<<"@),
{
    lemma_assign_star_reads_prefix_8(rel);
    lemma_assign_star_reads_length_7(rel);
    lemma_occurs_parts(assign_template(AssignOpKind::StarEq, rel), 0, ">[-]>[-]<<"@ + repeat('<', rel) + "[-"@ + repeat('>', rel) + ">+<"@ + repeat('<', rel) + "]"@ + repeat('>', rel), "[->[->+<<"@);
}

proof fn lemma_assign_star_reads_piece_9(rel: nat)
    ensures
        occurs(assign_template(AssignOpKind::StarEq, rel), 4 * (rel as int) + 25, repeat('<', rel)),
{
    lemma_assign_star_reads_prefix_9(rel);
    lemma_assign_star_reads_length_8(rel);
    lemma_occurs_parts(assign_template(AssignOpKind::StarEq, rel), 0, ">[-]>[-]<<"@ + repeat('<', rel) + "[-"@ + repeat('>', rel) + ">+<"@ + repeat('<', rel) + "]"@ + repeat('>', rel) + "[->[->+<<"@, repeat('<', rel));
}

proof fn lemma_assign_star_reads_piece_10(rel: nat)
    ensures
        occurs(assign_template(AssignOpKind::StarEq, rel), 5 * (rel as int) + 25, "+"@),
{
    lemma_assign_star_reads_prefix_10(rel);
    lemma_assign_star_reads_length_9(rel);
    lemma_occurs_parts(assign_template(AssignOpKind::StarEq, rel), 0, ">[-]>[-]<<"@ + repeat('<', rel) + "[-"@ + repeat('>', rel) + ">+<"@ + repeat('<', rel) + "]"@ + repeat('>', rel) + "[->[->+<<"@ + repeat('<', rel), "+"@);
}

proof fn lemma_assign_star_reads_piece_11(rel: nat)
    ensures
        occurs(assign_template(AssignOpKind::StarEq, rel), 5 * (rel as int) + 26, repeat('>', rel)),
{
    lemma_assign_star_reads_prefix_11(rel);
    lemma_assign_star_reads_length_10(rel);
    lemma_occurs_parts(assign_template(AssignOpKind::StarEq, rel), 0, ">[-]>[-]<<"@ + repeat('<', rel) + "[-"@ + repeat('>', rel) + ">+<"@ + repeat('<', rel) + "]"@ + repeat('>', rel) + "[->[->+<<"@ + repeat('<', rel) + "+"@, repeat('>', rel));
}

proof fn lemma_assign_star_reads_piece_12(rel: nat)
    ensures
        occurs(assign_template(AssignOpKind::StarEq, rel), 6 * (rel as int) + 26, ">]>[-<+>]<<]>[-]<"@),
{
    lemma_assign_star_reads_prefix_12(rel);
    lemma_assign_star_reads_length_11(rel);
    lemma_occurs_parts(assign_template(AssignOpKind::StarEq, rel), 0, ">[-]>[-]<<"@ + repeat('<', rel) + "[-"@ + repeat('>', rel) + ">+<"@ + repeat('<', rel) + "]"@ + repeat('>', rel) + "[->[->+<<"@ + repeat('<', rel) + "+"@ + repeat('>', rel), ">]>[-<+>]<<]>[-]<"@);
}

proof fn lemma_assign_star_reads_chain(code: Seq<char>, rel: nat)
    requires
        code.len() == 6 * (rel as int) + 43,
        occurs(code, 0, ">[-]>[-]<<"@),
        occurs(code, 10, repeat('<', rel)),
        occurs(code, (rel as int) + 10, "[-"@),
        occurs(code, (rel as int) + 12, repeat('>', rel)),
        occurs(code, 2 * (rel as int) + 12, ">+<"@),
        occurs(code, 2 * (rel as int) + 15, repeat('<', rel)),
        occurs(code, 3 * (rel as int) + 15, "]"@),
        occurs(code, 3 * (rel as int) + 16, repeat('>', rel)),
        occurs(code, 4 * (rel as int) + 16, "[->[->+<<"@),
        occurs(code, 4 * (rel as int) + 25, repeat('<', rel)),
        occurs(code, 5 * (rel as int) + 25, "+"@),
        occurs(code, 5 * (rel as int) + 26, repeat('>', rel)),
        occurs(code, 6 * (rel as int) + 26, ">]>[-<+>]<<]>[-]<"@),
    ensures
        reads(code, assign_star_ops(rel)),
{
    let r = rel as int;
    reveal_strlit(">[-]>[-]<<");
    reveal_strlit("[-");
    reveal_strlit(">+<");
    reveal_strlit("]");
    reveal_strlit("[->[->+<<");
    reveal_strlit("+");
    reveal_strlit(">]>[-<+>]<<]>[-]<");
    let e = Seq::<Op>::empty();
    lemma_covers_nothing(code, 0);
    lemma_occurs_char(code, 0, ">[-]>[-]<<"@, 0);
    let a1 = e.push(Op::Move(1));
    lemma_covers_step(code, 0, 0, e, Op::Move(1));
    lemma_occurs_char(code, 0, ">[-]>[-]<<"@, 1);
    lemma_covers_nothing(code, 2);
    lemma_occurs_char(code, 0, ">[-]>[-]<<"@, 2);
    let a2 = e.push(Op::Add(-1));
    lemma_covers_step(code, 2, 2, e, Op::Add(-1));
    lemma_occurs_char(code, 0, ">[-]>[-]<<"@, 3);
    let a3 = a1.push(Op::Loop(a2));
    lemma_covers_loop(code, 0, 1, a1, 3, a2);
    lemma_occurs_char(code, 0, ">[-]>[-]<<"@, 4);
    let a4 = a3.push(Op::Move(1));
    lemma_covers_step(code, 0, 4, a3, Op::Move(1));
    lemma_occurs_char(code, 0, ">[-]>[-]<<"@, 5);
    lemma_covers_nothing(code, 6);
    lemma_occurs_char(code, 0, ">[-]>[-]<<"@, 6);
    let a5 = e.push(Op::Add(-1));
    lemma_covers_step(code, 6, 6, e, Op::Add(-1));
    lemma_occurs_char(code, 0, ">[-]>[-]<<"@, 7);
    let a6 = a4.push(Op::Loop(a5));
    lemma_covers_loop(code, 0, 5, a4, 7, a5);
    lemma_occurs_char(code, 0, ">[-]>[-]<<"@, 8);
    let a7 = a6.push(Op::Move(-1));
    lemma_covers_step(code, 0, 8, a6, Op::Move(-1));
    lemma_occurs_char(code, 0, ">[-]>[-]<<"@, 9);
    let a8 = a7.push(Op::Move(-1));
    lemma_covers_step(code, 0, 9, a7, Op::Move(-1));
    lemma_covers_repeat(code, 10, '<', rel);
    let a9 = a8 + repeat_op(Op::Move(-1), rel);
    lemma_covers_join(code, 0, 10, r + 10, a8, repeat_op(Op::Move(-1), rel));
    lemma_occurs_char(code, r + 10, "[-"@, 0);
    lemma_covers_nothing(code, r + 11);
    lemma_occurs_char(code, r + 10, "[-"@, 1);
    let a10 = e.push(Op::Add(-1));
    lemma_covers_step(code, r + 11, r + 11, e, Op::Add(-1));
    lemma_covers_repeat(code, r + 12, '>', rel);
    let a11 = a10 + repeat_op(Op::Move(1), rel);
    lemma_covers_join(code, r + 11, r + 12, 2 * r + 12, a10, repeat_op(Op::Move(1), rel));
    lemma_occurs_char(code, 2 * r + 12, ">+<"@, 0);
    let a12 = a11.push(Op::Move(1));
    lemma_covers_step(code, r + 11, 2 * r + 12, a11, Op::Move(1));
    lemma_occurs_char(code, 2 * r + 12, ">+<"@, 1);
    let a13 = a12.push(Op::Add(1));
    lemma_covers_step(code, r + 11, 2 * r + 13, a12, Op::Add(1));
    lemma_occurs_char(code, 2 * r + 12, ">+<"@, 2);
    let a14 = a13.push(Op::Move(-1));
    lemma_covers_step(code, r + 11, 2 * r + 14, a13, Op::Move(-1));
    lemma_covers_repeat(code, 2 * r + 15, '<', rel);
    let a15 = a14 + repeat_op(Op::Move(-1), rel);
    lemma_covers_join(code, r + 11, 2 * r + 15, 3 * r + 15, a14, repeat_op(Op::Move(-1), rel));
    lemma_occurs_char(code, 3 * r + 15, "]"@, 0);
    let a16 = a9.push(Op::Loop(a15));
    lemma_covers_loop(code, 0, r + 10, a9, 3 * r + 15, a15);
    lemma_covers_repeat(code, 3 * r + 16, '>', rel);
    let a17 = a16 + repeat_op(Op::Move(1), rel);
    lemma_covers_join(code, 0, 3 * r + 16, 4 * r + 16, a16, repeat_op(Op::Move(1), rel));
    lemma_occurs_char(code, 4 * r + 16, "[->[->+<<"@, 0);
    lemma_covers_nothing(code, 4 * r + 17);
    lemma_occurs_char(code, 4 * r + 16, "[->[->+<<"@, 1);
    let a18 = e.push(Op::Add(-1));
    lemma_covers_step(code, 4 * r + 17, 4 * r + 17, e, Op::Add(-1));
    lemma_occurs_char(code, 4 * r + 16, "[->[->+<<"@, 2);
    let a19 = a18.push(Op::Move(1));
    lemma_covers_step(code, 4 * r + 17, 4 * r + 18, a18, Op::Move(1));
    lemma_occurs_char(code, 4 * r + 16, "[->[->+<<"@, 3);
    lemma_covers_nothing(code, 4 * r + 20);
    lemma_occurs_char(code, 4 * r + 16, "[->[->+<<"@, 4);
    let a20 = e.push(Op::Add(-1));
    lemma_covers_step(code, 4 * r + 20, 4 * r + 20, e, Op::Add(-1));
    lemma_occurs_char(code, 4 * r + 16, "[->[->+<<"@, 5);
    let a21 = a20.push(Op::Move(1));
    lemma_covers_step(code, 4 * r + 20, 4 * r + 21, a20, Op::Move(1));
    lemma_occurs_char(code, 4 * r + 16, "[->[->+<<"@, 6);
    let a22 = a21.push(Op::Add(1));
    lemma_covers_step(code, 4 * r + 20, 4 * r + 22, a21, Op::Add(1));
    lemma_occurs_char(code, 4 * r + 16, "[->[->+<<"@, 7);
    let a23 = a22.push(Op::Move(-1));
    lemma_covers_step(code, 4 * r + 20, 4 * r + 23, a22, Op::Move(-1));
    lemma_occurs_char(code, 4 * r + 16, "[->[->+<<"@, 8);
    let a24 = a23.push(Op::Move(-1));
    lemma_covers_step(code, 4 * r + 20, 4 * r + 24, a23, Op::Move(-1));
    lemma_covers_repeat(code, 4 * r + 25, '<', rel);
    let a25 = a24 + repeat_op(Op::Move(-1), rel);
    lemma_covers_join(code, 4 * r + 20, 4 * r + 25, 5 * r + 25, a24, repeat_op(Op::Move(-1), rel));
    lemma_occurs_char(code, 5 * r + 25, "+"@, 0);
    let a26 = a25.push(Op::Add(1));
    lemma_covers_step(code, 4 * r + 20, 5 * r + 25, a25, Op::Add(1));
    lemma_covers_repeat(code, 5 * r + 26, '>', rel);
    let a27 = a26 + repeat_op(Op::Move(1), rel);
    lemma_covers_join(code, 4 * r + 20, 5 * r + 26, 6 * r + 26, a26, repeat_op(Op::Move(1), rel));
    lemma_occurs_char(code, 6 * r + 26, ">]>[-<+>]<<]>[-]<"@, 0);
    let a28 = a27.push(Op::Move(1));
    lemma_covers_step(code, 4 * r + 20, 6 * r + 26, a27, Op::Move(1));
    lemma_occurs_char(code, 6 * r + 26, ">]>[-<+>]<<]>[-]<"@, 1);
    let a29 = a19.push(Op::Loop(a28));
    lemma_covers_loop(code, 4 * r + 17, 4 * r + 19, a19, 6 * r + 27, a28);
    lemma_occurs_char(code, 6 * r + 26, ">]>[-<+>]<<]>[-]<"@, 2);
    let a30 = a29.push(Op::Move(1));
    lemma_covers_step(code, 4 * r + 17, 6 * r + 28, a29, Op::Move(1));
    lemma_occurs_char(code, 6 * r + 26, ">]>[-<+>]<<]>[-]<"@, 3);
    lemma_covers_nothing(code, 6 * r + 30);
    lemma_occurs_char(code, 6 * r + 26, ">]>[-<+>]<<]>[-]<"@, 4);
    let a31 = e.push(Op::Add(-1));
    lemma_covers_step(code, 6 * r + 30, 6 * r + 30, e, Op::Add(-1));
    lemma_occurs_char(code, 6 * r + 26, ">]>[-<+>]<<]>[-]<"@, 5);
    let a32 = a31.push(Op::Move(-1));
    lemma_covers_step(code, 6 * r + 30, 6 * r + 31, a31, Op::Move(-1));
    lemma_occurs_char(code, 6 * r + 26, ">]>[-<+>]<<]>[-]<"@, 6);
    let a33 = a32.push(Op::Add(1));
    lemma_covers_step(code, 6 * r + 30, 6 * r + 32, a32, Op::Add(1));
    lemma_occurs_char(code, 6 * r + 26, ">]>[-<+>]<<]>[-]<"@, 7);
    let a34 = a33.push(Op::Move(1));
    lemma_covers_step(code, 6 * r + 30, 6 * r + 33, a33, Op::Move(1));
    lemma_occurs_char(code, 6 * r + 26, ">]>[-<+>]<<]>[-]<"@, 8);
    let a35 = a30.push(Op::Loop(a34));
    lemma_covers_loop(code, 4 * r + 17, 6 * r + 29, a30, 6 * r + 34, a34);
    lemma_occurs_char(code, 6 * r + 26, ">]>[-<+>]<<]>[-]<"@, 9);
    let a36 = a35.push(Op::Move(-1));
    lemma_covers_step(code, 4 * r + 17, 6 * r + 35, a35, Op::Move(-1));
    lemma_occurs_char(code, 6 * r + 26, ">]>[-<+>]<<]>[-]<"@, 10);
    let a37 = a36.push(Op::Move(-1));
    lemma_covers_step(code, 4 * r + 17, 6 * r + 36, a36, Op::Move(-1));
    lemma_occurs_char(code, 6 * r + 26, ">]>[-<+>]<<]>[-]<"@, 11);
    let a38 = a17.push(Op::Loop(a37));
    lemma_covers_loop(code, 0, 4 * r + 16, a17, 6 * r + 37, a37);
    lemma_occurs_char(code, 6 * r + 26, ">]>[-<+>]<<]>[-]<"@, 12);
    let a39 = a38.push(Op::Move(1));
    lemma_covers_step(code, 0, 6 * r + 38, a38, Op::Move(1));
    lemma_occurs_char(code, 6 * r + 26, ">]>[-<+>]<<]>[-]<"@, 13);
    lemma_covers_nothing(code, 6 * r + 40);
    lemma_occurs_char(code, 6 * r + 26, ">]>[-<+>]<<]>[-]<"@, 14);
    let a40 = e.push(Op::Add(-1));
    lemma_covers_step(code, 6 * r + 40, 6 * r + 40, e, Op::Add(-1));
    lemma_occurs_char(code, 6 * r + 26, ">]>[-<+>]<<]>[-]<"@, 15);
    let a41 = a39.push(Op::Loop(a40));
    lemma_covers_loop(code, 0, 6 * r + 39, a39, 6 * r + 41, a40);
    lemma_occurs_char(code, 6 * r + 26, ">]>[-<+>]<<]>[-]<"@, 16);
    let a42 = a41.push(Op::Move(-1));
    lemma_covers_step(code, 0, 6 * r + 42, a41, Op::Move(-1));
    assert(a42 == assign_star_ops(rel));
}

/// For every distance, the code of `*=` is a program of its operations.
pub proof fn lemma_assign_star_reads(rel: nat)
    ensures
        reads(assign_template(AssignOpKind::StarEq, rel), assign_star_ops(rel)),
{
    lemma_assign_star_reads_length_12(rel);
    lemma_assign_star_reads_piece_0(rel);
    lemma_assign_star_reads_piece_1(rel);
    lemma_assign_star_reads_piece_2(rel);
    lemma_assign_star_reads_piece_3(rel);
    lemma_assign_star_reads_piece_4(rel);
    lemma_assign_star_reads_piece_5(rel);
    lemma_assign_star_reads_piece_6(rel);
    lemma_assign_star_reads_piece_7(rel);
    lemma_assign_star_reads_piece_8(rel);
    lemma_assign_star_reads_piece_9(rel);
    lemma_assign_star_reads_piece_10(rel);
    lemma_assign_star_reads_piece_11(rel);
    lemma_assign_star_reads_piece_12(rel);
    lemma_assign_star_reads_chain(assign_template(AssignOpKind::StarEq, rel), rel);
}

/// The operations of the code of `/=`, for a variable `rel` cells left of the head.
pub open spec fn assign_slash_ops(rel: nat) -> Seq<Op> {
    ((Seq::<Op>::empty().push(Op::Move(1)).push(Op::Loop(Seq::<Op>::empty().push(Op::Add(-1)))).push(Op::Add(1)).push(Op::Move(1)).push(Op::Loop(Seq::<Op>::empty().push(Op::Add(-1)))).push(Op::Move(1)).push(Op::Loop(Seq::<Op>::empty().push(Op::Add(-1)))).push(Op::Move(1)).push(Op::Loop(Seq::<Op>::empty().push(Op::Add(-1)))).push(Op::Move(-1)).push(Op::Move(-1)).push(Op::Move(-1)).push(Op::Move(-1)) + repeat_op(Op::Move(-1), rel)).push(Op::Loop(((Seq::<Op>::empty().push(Op::Add(-1)) + repeat_op(Op::Move(1), rel)).push(Op::Add(-1)).push(Op::Loop(Seq::<Op>::empty().push(Op::Move(1)).push(Op::Add(1)).push(Op::Move(1)).push(Op::Move(1)))).push(Op::Move(1)).push(Op::Loop(Seq::<Op>::empty().push(Op::Loop(Seq::<Op>::empty().push(Op::Add(-1)).push(Op::Move(-1)).push(Op::Add(1)).push(Op::Move(1)))).push(Op::Add(1)).push(Op::Move(1)).push(Op::Add(1)).push(Op::Move(1)).push(Op::Move(1)))).push(Op::Move(-1)).push(Op::Move(-1)).push(Op::Move(-1)).push(Op::Move(-1)) + repeat_op(Op::Move(-1), rel)))) + repeat_op(Op::Move(1), rel)).push(Op::Move(1)).push(Op::Move(1)).push(Op::Loop(((Seq::<Op>::empty().push(Op::Add(-1)).push(Op::Move(-1)).push(Op::Move(-1)) + repeat_op(Op::Move(-1), rel)).push(Op::Add(1)) + repeat_op(Op::Move(1), rel)).push(Op::Move(1)).push(Op::Move(1)))).push(Op::Move(-1)).push(Op::Move(-1)).push(Op::Loop(Seq::<Op>::empty().push(Op::Add(-1)))).push(Op::Move(1)).push(Op::Loop(Seq::<Op>::empty().push(Op::Add(-1)))).push(Op::Move(-1))
}

proof fn lemma_assign_slash_reads_length_0(rel: nat)
    ensures
        (">[-]+>[-]>[-]>[-]<<<<"@).len() == 21,
{
    reveal_strlit(">[-]+>[-]>[-]>[-]<<<<");
}

proof fn lemma_assign_slash_reads_length_1(rel: nat)
    ensures
        (">[-]+>[-]>[-]>[-]<<<<"@ + repeat('<', rel)).len() == (rel as int) + 21,
{
    lemma_assign_slash_reads_length_0(rel);
}

proof fn lemma_assign_slash_reads_length_2(rel: nat)
    ensures
        (">[-]+>[-]>[-]>[-]<<<<"@ + repeat('<', rel) + "[-"@).len() == (rel as int) + 23,
{
    lemma_assign_slash_reads_length_1(rel);
    reveal_strlit("[-");
}

proof fn lemma_assign_slash_reads_length_3(rel: nat)
    ensures
        (">[-]+>[-]>[-]>[-]<<<<"@ + repeat('<', rel) + "[-"@ + repeat('>', rel)).len() == 2 * (rel as int) + 23,
{
    lemma_assign_slash_reads_length_2(rel);
}

proof fn lemma_assign_slash_reads_length_4(rel: nat)
    ensures
        (">[-]+>[-]>[-]>[-]<<<<"@ + repeat('<', rel) + "[-"@ + repeat('>', rel) + "-[>+>>]>[[-<+>]+>+>>]<<<<"@).len() == 2 * (rel as int) + 48,
{
    lemma_assign_slash_reads_length_3(rel);
    reveal_strlit("-[>+>>]>[[-<+>]+>+>>]<<<<");
}

proof fn lemma_assign_slash_reads_length_5(rel: nat)
    ensures
        (">[-]+>[-]>[-]>[-]<<<<"@ + repeat('<', rel) + "[-"@ + repeat('>', rel) + "-[>+>>]>[[-<+>]+>+>>]<<<<"@ + repeat('<', rel)).len() == 3 * (rel as int) + 48,
{
    lemma_assign_slash_reads_length_4(rel);
}

proof fn lemma_assign_slash_reads_length_6(rel: nat)
    ensures
        (">[-]+>[-]>[-]>[-]<<<<"@ + repeat('<', rel) + "[-"@ + repeat('>', rel) + "-[>+>>]>[[-<+>]+>+>>]<<<<"@ + repeat('<', rel) + "]"@).len() == 3 * (rel as int) + 49,
{
    lemma_assign_slash_reads_length_5(rel);
    reveal_strlit("]");
}

proof fn lemma_assign_slash_reads_length_7(rel: nat)
    ensures
        (">[-]+>[-]>[-]>[-]<<<<"@ + repeat('<', rel) + "[-"@ + repeat('>', rel) + "-[>+>>]>[[-<+>]+>+>>]<<<<"@ + repeat('<', rel) + "]"@ + repeat('>', rel)).len() == 4 * (rel as int) + 49,
{
    lemma_assign_slash_reads_length_6(rel);
}

proof fn lemma_assign_slash_reads_length_8(rel: nat)
    ensures
        (">[-]+>[-]>[-]>[-]<<<<"@ + repeat('<', rel) + "[-"@ + repeat('>', rel) + "-[>+>>]>[[-<+>]+>+>>]<<<<"@ + repeat('<', rel) + "]"@ + repeat('>', rel) + ">>[-<<"@).len() == 4 * (rel as int) + 55,
{
    lemma_assign_slash_reads_length_7(rel);
    reveal_strlit(">>[-<<");
}

proof fn lemma_assign_slash_reads_length_9(rel: nat)
    ensures
        (">[-]+>[-]>[-]>[-]<<<<"@ + repeat('<', rel) + "[-"@ + repeat('>', rel) + "-[>+>>]>[[-<+>]+>+>>]<<<<"@ + repeat('<', rel) + "]"@ + repeat('>', rel) + ">>[-<<"@ + repeat('<', rel)).len() == 5 * (rel as int) + 55,
{
    lemma_assign_slash_reads_length_8(rel);
}

proof fn lemma_assign_slash_reads_length_10(rel: nat)
    ensures
        (">[-]+>[-]>[-]>[-]<<<<"@ + repeat('<', rel) + "[-"@ + repeat('>', rel) + "-[>+>>]>[[-<+>]+>+>>]<<<<"@ + repeat('<', rel) + "]"@ + repeat('>', rel) + ">>[-<<"@ + repeat('<', rel) + "+"@).len() == 5 * (rel as int) + 56,
{
    lemma_assign_slash_reads_length_9(rel);
    reveal_strlit("+");
}

proof fn lemma_assign_slash_reads_length_11(rel: nat)
    ensures
        (">[-]+>[-]>[-]>[-]<<<<"@ + repeat('<', rel) + "[-"@ + repeat('>', rel) + "-[>+>>]>[[-<+>]+>+>>]<<<<"@ + repeat('<', rel) + "]"@ + repeat('>', rel) + ">>[-<<"@ + repeat('<', rel) + "+"@ + repeat('>', rel)).len() == 6 * (rel as int) + 56,
{
    lemma_assign_slash_reads_length_10(rel);
}

proof fn lemma_assign_slash_reads_length_12(rel: nat)
    ensures
        (">[-]+>[-]>[-]>[-]<<<<"@ + repeat('<', rel) + "[-"@ + repeat('>', rel) + "-[>+>>]>[[-<+>]+>+>>]<<<<"@ + repeat('<', rel) + "]"@ + repeat('>', rel) + ">>[-<<"@ + repeat('<', rel) + "+"@ + repeat('>', rel) + ">>]<<[-]>[-]<"@).len() == 6 * (rel as int) + 69,
{
    lemma_assign_slash_reads_length_11(rel);
    reveal_strlit(">>]<<[-]>[-]<");
}

proof fn lemma_assign_slash_reads_prefix_12(rel: nat)
    ensures
        occurs(assign_template(AssignOpKind::SlashEq, rel), 0, ">[-]+>[-]>[-]>[-]<<<<"@ + repeat('<', rel) + "[-"@ + repeat('>', rel) + "-[>+>>]>[[-<+>]+>+>>]<<<<"@ + repeat('<', rel) + "]"@ + repeat('>', rel) + ">>[-<<"@ + repeat('<', rel) + "+"@ + repeat('>', rel) + ">>]<<[-]>[-]<"@),
{
    let code = assign_template(AssignOpKind::SlashEq, rel);
    assert(code.subrange(0, code.len() as int) =~= code);
}

proof fn lemma_assign_slash_reads_prefix_11(rel: nat)
    ensures
        occurs(assign_template(AssignOpKind::SlashEq, rel), 0, ">[-]+>[-]>[-]>[-]<<<<"@ + repeat('<', rel) + "[-"@ + repeat('>', rel) + "-[>+>>]>[[-<+>]+>+>>]<<<<"@ + repeat('<', rel) + "]"@ + repeat('>', rel) + ">>[-<<"@ + repeat('<', rel) + "+"@ + repeat('>', rel)),
{
    lemma_assign_slash_reads_prefix_12(rel);
    lemma_occurs_parts(assign_template(AssignOpKind::SlashEq, rel), 0, ">[-]+>[-]>[-]>[-]<<<<"@ + repeat('<', rel) + "[-"@ + repeat('>', rel) + "-[>+>>]>[[-<+>]+>+>>]<<<<"@ + repeat('<', rel) + "]"@ + repeat('>', rel) + ">>[-<<"@ + repeat('<', rel) + "+"@ + repeat('>', rel), ">>]<<[-]>[-]<"@);
}

proof fn lemma_assign_slash_reads_prefix_10(rel: nat)
    ensures
        occurs(assign_template(AssignOpKind::SlashEq, rel), 0, ">[-]+>[-]>[-]>[-]<<<<"@ + repeat('<', rel) + "[-"@ + repeat('>', rel) + "-[>+>>]>[[-<+>]+>+>>]<<<<"@ + repeat('<', rel) + "]"@ + repeat('>', rel) + ">>[-<<"@ + repeat('<', rel) + "+"@),
{
    lemma_assign_slash_reads_prefix_11(rel);
    lemma_occurs_parts(assign_template(AssignOpKind::SlashEq, rel), 0, ">[-]+>[-]>[-]>[-]<<<<"@ + repeat('<', rel) + "[-"@ + repeat('>', rel) + "-[>+>>]>[[-<+>]+>+>>]<<<<"@ + repeat('<', rel) + "]"@ + repeat('>', rel) + ">>[-<<"@ + repeat('<', rel) + "+"@, repeat('>', rel));
}

proof fn lemma_assign_slash_reads_prefix_9(rel: nat)
    ensures
        occurs(assign_template(AssignOpKind::SlashEq, rel), 0, ">[-]+>[-]>[-]>[-]<<<<"@ + repeat('<', rel) + "[-"@ + repeat('>', rel) + "-[>+>>]>[[-<+>]+>+>>]<<<<"@ + repeat('<', rel) + "]"@ + repeat('>', rel) + ">>[-<<"@ + repeat('<', rel)),
{
    lemma_assign_slash_reads_prefix_10(rel);
    lemma_occurs_parts(assign_template(AssignOpKind::SlashEq, rel), 0, ">[-]+>[-]>[-]>[-]<<<<"@ + repeat('<', rel) + "[-"@ + repeat('>', rel) + "-[>+>>]>[[-<+>]+>+>>]<<<<"@ + repeat('<', rel) + "]"@ + repeat('>', rel) + ">>[-<<"@ + repeat('<', rel), "+"@);
}

proof fn lemma_assign_slash_reads_prefix_8(rel: nat)
    ensures
        occurs(assign_template(AssignOpKind::SlashEq, rel), 0, ">[-]+>[-]>[-]>[-]<<<<"@ + repeat('<', rel) + "[-"@ + repeat('>', rel) + "-[>+>>]>[[-<+>]+>+>>]<<<<"@ + repeat('<', rel) + "]"@ + repeat('>', rel) + ">>[-<<"@),
{
    lemma_assign_slash_reads_prefix_9(rel);
    lemma_occurs_parts(assign_template(AssignOpKind::SlashEq, rel), 0, ">[-]+>[-]>[-]>[-]<<<<"@ + repeat('<', rel) + "[-"@ + repeat('>', rel) + "-[>+>>]>[[-<+>]+>+>>]<<<<"@ + repeat('<', rel) + "]"@ + repeat('>', rel) + ">>[-<<"@, repeat('<', rel));
}

proof fn lemma_assign_slash_reads_prefix_7(rel: nat)
    ensures
        occurs(assign_template(AssignOpKind::SlashEq, rel), 0, ">[-]+>[-]>[-]>[-]<<<<"@ + repeat('<', rel) + "[-"@ + repeat('>', rel) + "-[>+>>]>[[-<+>]+>+>>]<<<<"@ + repeat('<', rel) + "]"@ + repeat('>', rel)),
{
    lemma_assign_slash_reads_prefix_8(rel);
    lemma_occurs_parts(assign_template(AssignOpKind::SlashEq, rel), 0, ">[-]+>[-]>[-]>[-]<<<<"@ + repeat('<', rel) + "[-"@ + repeat('>', rel) + "-[>+>>]>[[-<+>]+>+>>]<<<<"@ + repeat('<', rel) + "]"@ + repeat('>', rel), ">>[-<<"@);
}

proof fn lemma_assign_slash_reads_prefix_6(rel: nat)
    ensures
        occurs(assign_template(AssignOpKind::SlashEq, rel), 0, ">[-]+>[-]>[-]>[-]<<<<"@ + repeat('<', rel) + "[-"@ + repeat('>', rel) + "-[>+>>]>[[-<+>]+>+>>]<<<<"@ + repeat('<', rel) + "]"@),
{
    lemma_assign_slash_reads_prefix_7(rel);
    lemma_occurs_parts(assign_template(AssignOpKind::SlashEq, rel), 0, ">[-]+>[-]>[-]>[-]<<<<"@ + repeat('<', rel) + "[-"@ + repeat('>', rel) + "-[>+>>]>[[-<+>]+>+>>]<<<<"@ + repeat('<', rel) + "]"@, repeat('>', rel));
}

proof fn lemma_assign_slash_reads_prefix_5(rel: nat)
    ensures
        occurs(assign_template(AssignOpKind::SlashEq, rel), 0, ">[-]+>[-]>[-]>[-]<<<<"@ + repeat('<', rel) + "[-"@ + repeat('>', rel) + "-[>+>>]>[[-<+>]+>+>>]<<<<"@ + repeat('<', rel)),
{
    lemma_assign_slash_reads_prefix_6(rel);
    lemma_occurs_parts(assign_template(AssignOpKind::SlashEq, rel), 0, ">[-]+>[-]>[-]>[-]<<<<"@ + repeat('<', rel) + "[-"@ + repeat('>', rel) + "-[>+>>]>[[-<+>]+>+>>]<<<<"@ + repeat('<', rel), "]"@);
}

proof fn lemma_assign_slash_reads_prefix_4(rel: nat)
    ensures
        occurs(assign_template(AssignOpKind::SlashEq, rel), 0, ">[-]+>[-]>[-]>[-]<<<<"@ + repeat('<', rel) + "[-"@ + repeat('>', rel) + "-[>+>>]>[[-<+>]+>+>>]<<<<"@),
{
    lemma_assign_slash_reads_prefix_5(rel);
    lemma_occurs_parts(assign_template(AssignOpKind::SlashEq, rel), 0, ">[-]+>[-]>[-]>[-]<<<<"@ + repeat('<', rel) + "[-"@ + repeat('>', rel) + "-[>+>>]>[[-<+>]+>+>>]<<<<"@, repeat('<', rel));
}

proof fn lemma_assign_slash_reads_prefix_3(rel: nat)
    ensures
        occurs(assign_template(AssignOpKind::SlashEq, rel), 0, ">[-]+>[-]>[-]>[-]<<<<"@ + repeat('<', rel) + "[-"@ + repeat('>', rel)),
{
    lemma_assign_slash_reads_prefix_4(rel);
    lemma_occurs_parts(assign_template(AssignOpKind::SlashEq, rel), 0, ">[-]+>[-]>[-]>[-]<<<<"@ + repeat('<', rel) + "[-"@ + repeat('>', rel), "-[>+>>]>[[-<+>]+>+>>]<<<<"@);
}

proof fn lemma_assign_slash_reads_prefix_2(rel: nat)
    ensures
        occurs(assign_template(AssignOpKind::SlashEq, rel), 0, ">[-]+>[-]>[-]>[-]<<<<"@ + repeat('<', rel) + "[-"@),
{
    lemma_assign_slash_reads_prefix_3(rel);
    lemma_occurs_parts(assign_template(AssignOpKind::SlashEq, rel), 0, ">[-]+>[-]>[-]>[-]<<<<"@ + repeat('<', rel) + "[-"@, repeat('>', rel));
}

proof fn lemma_assign_slash_reads_prefix_1(rel: nat)
    ensures
        occurs(assign_template(AssignOpKind::SlashEq, rel), 0, ">[-]+>[-]>[-]>[-]<<<<"@ + repeat('<', rel)),
{
    lemma_assign_slash_reads_prefix_2(rel);
    lemma_occurs_parts(assign_template(AssignOpKind::SlashEq, rel), 0, ">[-]+>[-]>[-]>[-]<<<<"@ + repeat('<', rel), "[-"@);
}

proof fn lemma_assign_slash_reads_prefix_0(rel: nat)
    ensures
        occurs(assign_template(AssignOpKind::SlashEq, rel), 0, ">[-]+>[-]>[-]>[-]<<<<"@),
{
    lemma_assign_slash_reads_prefix_1(rel);
    lemma_occurs_parts(assign_template(AssignOpKind::SlashEq, rel), 0, ">[-]+>[-]>[-]>[-]<<<<"@, repeat('<', rel));
}

proof fn lemma_assign_slash_reads_piece_0(rel: nat)
    ensures
        occurs(assign_template(AssignOpKind::SlashEq, rel), 0, ">[-]+>[-]>[-]>[-]<<<<"@),
{
    lemma_assign_slash_reads_prefix_0(rel);
}

proof fn lemma_assign_slash_reads_piece_1(rel: nat)
    ensures
        occurs(assign_template(AssignOpKind::SlashEq, rel), 21, repeat('<', rel)),
{
    lemma_assign_slash_reads_prefix_1(rel);
    lemma_assign_slash_reads_length_0(rel);
    lemma_occurs_parts(assign_template(AssignOpKind::SlashEq, rel), 0, ">[-]+>[-]>[-]>[-]<<<<"@, repeat('<', rel));
}

proof fn lemma_assign_slash_reads_piece_2(rel: nat)
    ensures
        occurs(assign_template(AssignOpKind::SlashEq, rel), (rel as int) + 21, "[-"@),
{
    lemma_assign_slash_reads_prefix_2(rel);
    lemma_assign_slash_reads_length_1(rel);
    lemma_occurs_parts(assign_template(AssignOpKind::SlashEq, rel), 0, ">[-]+>[-]>[-]>[-]<<<<"@ + repeat('<', rel), "[-"@);
}

proof fn lemma_assign_slash_reads_piece_3(rel: nat)
    ensures
        occurs(assign_template(AssignOpKind::SlashEq, rel), (rel as int) + 23, repeat('>', rel)),
{
    lemma_assign_slash_reads_prefix_3(rel);
    lemma_assign_slash_reads_length_2(rel);
    lemma_occurs_parts(assign_template(AssignOpKind::SlashEq, rel), 0, ">[-]+>[-]>[-]>[-]<<<<"@ + repeat('<', rel) + "[-"@, repeat('>', rel));
}

proof fn lemma_assign_slash_reads_piece_4(rel: nat)
    ensures
        occurs(assign_template(AssignOpKind::SlashEq, rel), 2 * (rel as int) + 23, "-[>+>>]>[[-<+>]+>+>>]<<<<"@),
{
    lemma_assign_slash_reads_prefix_4(rel);
    lemma_assign_slash_reads_length_3(rel);
    lemma_occurs_parts(assign_template(AssignOpKind::SlashEq, rel), 0, ">[-]+>[-]>[-]>[-]<<<<"@ + repeat('<', rel) + "[-"@ + repeat('>', rel), "-[>+>>]>[[-<+>]+>+>>]<<<<"@);
}

proof fn lemma_assign_slash_reads_piece_5(rel: nat)
    ensures
        occurs(assign_template(AssignOpKind::SlashEq, rel), 2 * (rel as int) + 48, repeat('<', rel)),
{
    lemma_assign_slash_reads_prefix_5(rel);
    lemma_assign_slash_reads_length_4(rel);
    lemma_occurs_parts(assign_template(AssignOpKind::SlashEq, rel), 0, ">[-]+>[-]>[-]>[-]<<<<"@ + repeat('<', rel) + "[-"@ + repeat('>', rel) + "-[>+>>]>[[-<+>]+>+>>]<<<<"@, repeat('<', rel));
}

proof fn lemma_assign_slash_reads_piece_6(rel: nat)
    ensures
        occurs(assign_template(AssignOpKind::SlashEq, rel), 3 * (rel as int) + 48, "]"@),
{
    lemma_assign_slash_reads_prefix_6(rel);
    lemma_assign_slash_reads_length_5(rel);
    lemma_occurs_parts(assign_template(AssignOpKind::SlashEq, rel), 0, ">[-]+>[-]>[-]>[-]<<<<"@ + repeat('<', rel) + "[-"@ + repeat('>', rel) + "-[>+>>]>[[-<+>]+>+>>]<<<<"@ + repeat('<', rel), "]"@);
}

proof fn lemma_assign_slash_reads_piece_7(rel: nat)
    ensures
        occurs(assign_template(AssignOpKind::SlashEq, rel), 3 * (rel as int) + 49, repeat('>', rel)),
{
    lemma_assign_slash_reads_prefix_7(rel);
    lemma_assign_slash_reads_length_6(rel);
    lemma_occurs_parts(assign_template(AssignOpKind::SlashEq, rel), 0, ">[-]+>[-]>[-]>[-]<<<<"@ + repeat('<', rel) + "[-"@ + repeat('>', rel) + "-[>+>>]>[[-<+>]+>+>>]<<<<"@ + repeat('<', rel) + "]"@, repeat('>', rel));
}

proof fn lemma_assign_slash_reads_piece_8(rel: nat)
    ensures
        occurs(assign_template(AssignOpKind::SlashEq, rel), 4 * (rel as int) + 49, ">>[-<<"@),
{
    lemma_assign_slash_reads_prefix_8(rel);
    lemma_assign_slash_reads_length_7(rel);
    lemma_occurs_parts(assign_template(AssignOpKind::SlashEq, rel), 0, ">[-]+>[-]>[-]>[-]<<<<"@ + repeat('<', rel) + "[-"@ + repeat('>', rel) + "-[>+>>]>[[-<+>]+>+>>]<<<<"@ + repeat('<', rel) + "]"@ + repeat('>', rel), ">>[-<<"@);
}

proof fn lemma_assign_slash_reads_piece_9(rel: nat)
    ensures
        occurs(assign_template(AssignOpKind::SlashEq, rel), 4 * (rel as int) + 55, repeat('<', rel)),
{
    lemma_assign_slash_reads_prefix_9(rel);
    lemma_assign_slash_reads_length_8(rel);
    lemma_occurs_parts(assign_template(AssignOpKind::SlashEq, rel), 0, ">[-]+>[-]>[-]>[-]<<<<"@ + repeat('<', rel) + "[-"@ + repeat('>', rel) + "-[>+>>]>[[-<+>]+>+>>]<<<<"@ + repeat('<', rel) + "]"@ + repeat('>', rel) + ">>[-<<"@, repeat('<', rel));
}

proof fn lemma_assign_slash_reads_piece_10(rel: nat)
    ensures
        occurs(assign_template(AssignOpKind::SlashEq, rel), 5 * (rel as int) + 55, "+"@),
{
    lemma_assign_slash_reads_prefix_10(rel);
    lemma_assign_slash_reads_length_9(rel);
    lemma_occurs_parts(assign_template(AssignOpKind::SlashEq, rel), 0, ">[-]+>[-]>[-]>[-]<<<<"@ + repeat('<', rel) + "[-"@ + repeat('>', rel) + "-[>+>>]>[[-<+>]+>+>>]<<<<"@ + repeat('<', rel) + "]"@ + repeat('>', rel) + ">>[-<<"@ + repeat('<', rel), "+"@);
}

proof fn lemma_assign_slash_reads_piece_11(rel: nat)
    ensures
        occurs(assign_template(AssignOpKind::SlashEq, rel), 5 * (rel as int) + 56, repeat('>', rel)),
{
    lemma_assign_slash_reads_prefix_11(rel);
    lemma_assign_slash_reads_length_10(rel);
    lemma_occurs_parts(assign_template(AssignOpKind::SlashEq, rel), 0, ">[-]+>[-]>[-]>[-]<<<<"@ + repeat('<', rel) + "[-"@ + repeat('>', rel) + "-[>+>>]>[[-<+>]+>+>>]<<<<"@ + repeat('<', rel) + "]"@ + repeat('>', rel) + ">>[-<<"@ + repeat('<', rel) + "+"@, repeat('>', rel));
}

proof fn lemma_assign_slash_reads_piece_12(rel: nat)
    ensures
        occurs(assign_template(AssignOpKind::SlashEq, rel), 6 * (rel as int) + 56, ">>]<<[-]>[-]<"@),
{
    lemma_assign_slash_reads_prefix_12(rel);
    lemma_assign_slash_reads_length_11(rel);
    lemma_occurs_parts(assign_template(AssignOpKind::SlashEq, rel), 0, ">[-]+>[-]>[-]>[-]<<<<"@ + repeat('<', rel) + "[-"@ + repeat('>', rel) + "-[>+>>]>[[-<+>]+>+>>]<<<<"@ + repeat('<', rel) + "]"@ + repeat('>', rel) + ">>[-<<"@ + repeat('<', rel) + "+"@ + repeat('>', rel), ">>]<<[-]>[-]<"@);
}

proof fn lemma_assign_slash_reads_chain(code: Seq<char>, rel: nat)
    requires
        code.len() == 6 * (rel as int) + 69,
        occurs(code, 0, ">[-]+>[-]>[-]>[-]<<<<"@),
        occurs(code, 21, repeat('<', rel)),
        occurs(code, (rel as int) + 21, "[-"@),
        occurs(code, (rel as int) + 23, repeat('>', rel)),
        occurs(code, 2 * (rel as int) + 23, "-[>+>>]>[[-<+>]+>+>>]<<<<"@),
        occurs(code, 2 * (rel as int) + 48, repeat('<', rel)),
        occurs(code, 3 * (rel as int) + 48, "]"@),
        occurs(code, 3 * (rel as int) + 49, repeat('>', rel)),
        occurs(code, 4 * (rel as int) + 49, ">>[-<<"@),
        occurs(code, 4 * (rel as int) + 55, repeat('<', rel)),
        occurs(code, 5 * (rel as int) + 55, "+"@),
        occurs(code, 5 * (rel as int) + 56, repeat('>', rel)),
        occurs(code, 6 * (rel as int) + 56, ">>]<<[-]>[-]<"@),
    ensures
        reads(code, assign_slash_ops(rel)),
{
    let r = rel as int;
    reveal_strlit(">[-]+>[-]>[-]>[-]<<<<");
    reveal_strlit("[-");
    reveal_strlit("-[>+>>]>[[-<+>]+>+>>]<<<<");
    reveal_strlit("]");
    reveal_strlit(">>[-<<");
    reveal_strlit("+");
    reveal_strlit(">>]<<[-]>[-]<");
    let e = Seq::<Op>::empty();
    lemma_covers_nothing(code, 0);
    lemma_occurs_char(code, 0, ">[-]+>[-]>[-]>[-]<<<<"@, 0);
    let a1 = e.push(Op::Move(1));
    lemma_covers_step(code, 0, 0, e, Op::Move(1));
    lemma_occurs_char(code, 0, ">[-]+>[-]>[-]>[-]<<<<"@, 1);
    lemma_covers_nothing(code, 2);
    lemma_occurs_char(code, 0, ">[-]+>[-]>[-]>[-]<<<<"@, 2);
    let a2 = e.push(Op::Add(-1));
    lemma_covers_step(code, 2, 2, e, Op::Add(-1));
    lemma_occurs_char(code, 0, ">[-]+>[-]>[-]>[-]<<<<"@, 3);
    let a3 = a1.push(Op::Loop(a2));
    lemma_covers_loop(code, 0, 1, a1, 3, a2);
    lemma_occurs_char(code, 0, ">[-]+>[-]>[-]>[-]<<<<"@, 4);
    let a4 = a3.push(Op::Add(1));
    lemma_covers_step(code, 0, 4, a3, Op::Add(1));
    lemma_occurs_char(code, 0, ">[-]+>[-]>[-]>[-]<<<<"@, 5);
    let a5 = a4.push(Op::Move(1));
    lemma_covers_step(code, 0, 5, a4, Op::Move(1));
    lemma_occurs_char(code, 0, ">[-]+>[-]>[-]>[-]<<<<"@, 6);
    lemma_covers_nothing(code, 7);
    lemma_occurs_char(code, 0, ">[-]+>[-]>[-]>[-]<<<<"@, 7);
    let a6 = e.push(Op::Add(-1));
    lemma_covers_step(code, 7, 7, e, Op::Add(-1));
    lemma_occurs_char(code, 0, ">[-]+>[-]>[-]>[-]<<<<"@, 8);
    let a7 = a5.push(Op::Loop(a6));
    lemma_covers_loop(code, 0, 6, a5, 8, a6);
    lemma_occurs_char(code, 0, ">[-]+>[-]>[-]>[-]<<<<"@, 9);
    let a8 = a7.push(Op::Move(1));
    lemma_covers_step(code, 0, 9, a7, Op::Move(1));
    lemma_occurs_char(code, 0, ">[-]+>[-]>[-]>[-]<<<<"@, 10);
    lemma_covers_nothing(code, 11);
    lemma_occurs_char(code, 0, ">[-]+>[-]>[-]>[-]<<<<"@, 11);
    let a9 = e.push(Op::Add(-1));
    lemma_covers_step(code, 11, 11, e, Op::Add(-1));
    lemma_occurs_char(code, 0, ">[-]+>[-]>[-]>[-]<<<<"@, 12);
    let a10 = a8.push(Op::Loop(a9));
    lemma_covers_loop(code, 0, 10, a8, 12, a9);
    lemma_occurs_char(code, 0, ">[-]+>[-]>[-]>[-]<<<<"@, 13);
    let a11 = a10.push(Op::Move(1));
    lemma_covers_step(code, 0, 13, a10, Op::Move(1));
    lemma_occurs_char(code, 0, ">[-]+>[-]>[-]>[-]<<<<"@, 14);
    lemma_covers_nothing(code, 15);
    lemma_occurs_char(code, 0, ">[-]+>[-]>[-]>[-]<<<<"@, 15);
    let a12 = e.push(Op::Add(-1));
    lemma_covers_step(code, 15, 15, e, Op::Add(-1));
    lemma_occurs_char(code, 0, ">[-]+>[-]>[-]>[-]<<<<"@, 16);
    let a13 = a11.push(Op::Loop(a12));
    lemma_covers_loop(code, 0, 14, a11, 16, a12);
    lemma_occurs_char(code, 0, ">[-]+>[-]>[-]>[-]<<<<"@, 17);
    let a14 = a13.push(Op::Move(-1));
    lemma_covers_step(code, 0, 17, a13, Op::Move(-1));
    lemma_occurs_char(code, 0, ">[-]+>[-]>[-]>[-]<<<<"@, 18);
    let a15 = a14.push(Op::Move(-1));
    lemma_covers_step(code, 0, 18, a14, Op::Move(-1));
    lemma_occurs_char(code, 0, ">[-]+>[-]>[-]>[-]<<<<"@, 19);
    let a16 = a15.push(Op::Move(-1));
    lemma_covers_step(code, 0, 19, a15, Op::Move(-1));
    lemma_occurs_char(code, 0, ">[-]+>[-]>[-]>[-]<<<<"@, 20);
    let a17 = a16.push(Op::Move(-1));
    lemma_covers_step(code, 0, 20, a16, Op::Move(-1));
    lemma_covers_repeat(code, 21, '<', rel);
    let a18 = a17 + repeat_op(Op::Move(-1), rel);
    lemma_covers_join(code, 0, 21, r + 21, a17, repeat_op(Op::Move(-1), rel));
    lemma_occurs_char(code, r + 21, "[-"@, 0);
    lemma_covers_nothing(code, r + 22);
    lemma_occurs_char(code, r + 21, "[-"@, 1);
    let a19 = e.push(Op::Add(-1));
    lemma_covers_step(code, r + 22, r + 22, e, Op::Add(-1));
    lemma_covers_repeat(code, r + 23, '>', rel);
    let a20 = a19 + repeat_op(Op::Move(1), rel);
    lemma_covers_join(code, r + 22, r + 23, 2 * r + 23, a19, repeat_op(Op::Move(1), rel));
    lemma_occurs_char(code, 2 * r + 23, "-[>+>>]>[[-<+>]+>+>>]<<<<"@, 0);
    let a21 = a20.push(Op::Add(-1));
    lemma_covers_step(code, r + 22, 2 * r + 23, a20, Op::Add(-1));
    lemma_occurs_char(code, 2 * r + 23, "-[>+>>]>[[-<+>]+>+>>]<<<<"@, 1);
    lemma_covers_nothing(code, 2 * r + 25);
    lemma_occurs_char(code, 2 * r + 23, "-[>+>>]>[[-<+>]+>+>>]<<<<"@, 2);
    let a22 = e.push(Op::Move(1));
    lemma_covers_step(code, 2 * r + 25, 2 * r + 25, e, Op::Move(1));
    lemma_occurs_char(code, 2 * r + 23, "-[>+>>]>[[-<+>]+>+>>]<<<<"@, 3);
    let a23 = a22.push(Op::Add(1));
    lemma_covers_step(code, 2 * r + 25, 2 * r + 26, a22, Op::Add(1));
    lemma_occurs_char(code, 2 * r + 23, "-[>+>>]>[[-<+>]+>+>>]<<<<"@, 4);
    let a24 = a23.push(Op::Move(1));
    lemma_covers_step(code, 2 * r + 25, 2 * r + 27, a23, Op::Move(1));
    lemma_occurs_char(code, 2 * r + 23, "-[>+>>]>[[-<+>]+>+>>]<<<<"@, 5);
    let a25 = a24.push(Op::Move(1));
    lemma_covers_step(code, 2 * r + 25, 2 * r + 28, a24, Op::Move(1));
    lemma_occurs_char(code, 2 * r + 23, "-[>+>>]>[[-<+>]+>+>>]<<<<"@, 6);
    let a26 = a21.push(Op::Loop(a25));
    lemma_covers_loop(code, r + 22, 2 * r + 24, a21, 2 * r + 29, a25);
    lemma_occurs_char(code, 2 * r + 23, "-[>+>>]>[[-<+>]+>+>>]<<<<"@, 7);
    let a27 = a26.push(Op::Move(1));
    lemma_covers_step(code, r + 22, 2 * r + 30, a26, Op::Move(1));
    lemma_occurs_char(code, 2 * r + 23, "-[>+>>]>[[-<+>]+>+>>]<<<<"@, 8);
    lemma_covers_nothing(code, 2 * r + 32);
    lemma_occurs_char(code, 2 * r + 23, "-[>+>>]>[[-<+>]+>+>>]<<<<"@, 9);
    lemma_covers_nothing(code, 2 * r + 33);
    lemma_occurs_char(code, 2 * r + 23, "-[>+>>]>[[-<+>]+>+>>]<<<<"@, 10);
    let a28 = e.push(Op::Add(-1));
    lemma_covers_step(code, 2 * r + 33, 2 * r + 33, e, Op::Add(-1));
    lemma_occurs_char(code, 2 * r + 23, "-[>+>>]>[[-<+>]+>+>>]<<<<"@, 11);
    let a29 = a28.push(Op::Move(-1));
    lemma_covers_step(code, 2 * r + 33, 2 * r + 34, a28, Op::Move(-1));
    lemma_occurs_char(code, 2 * r + 23, "-[>+>>]>[[-<+>]+>+>>]<<<<"@, 12);
    let a30 = a29.push(Op::Add(1));
    lemma_covers_step(code, 2 * r + 33, 2 * r + 35, a29, Op::Add(1));
    lemma_occurs_char(code, 2 * r + 23, "-[>+>>]>[[-<+>]+>+>>]<<<<"@, 13);
    let a31 = a30.push(Op::Move(1));
    lemma_covers_step(code, 2 * r + 33, 2 * r + 36, a30, Op::Move(1));
    lemma_occurs_char(code, 2 * r + 23, "-[>+>>]>[[-<+>]+>+>>]<<<<"@, 14);
    let a32 = e.push(Op::Loop(a31));
    lemma_covers_loop(code, 2 * r + 32, 2 * r + 32, e, 2 * r + 37, a31);
    lemma_occurs_char(code, 2 * r + 23, "-[>+>>]>[[-<+>]+>+>>]<<<<"@, 15);
    let a33 = a32.push(Op::Add(1));
    lemma_covers_step(code, 2 * r + 32, 2 * r + 38, a32, Op::Add(1));
    lemma_occurs_char(code, 2 * r + 23, "-[>+>>]>[[-<+>]+>+>>]<<<<"@, 16);
    let a34 = a33.push(Op::Move(1));
    lemma_covers_step(code, 2 * r + 32, 2 * r + 39, a33, Op::Move(1));
    lemma_occurs_char(code, 2 * r + 23, "-[>+>>]>[[-<+>]+>+>>]<<<<"@, 17);
    let a35 = a34.push(Op::Add(1));
    lemma_covers_step(code, 2 * r + 32, 2 * r + 40, a34, Op::Add(1));
    lemma_occurs_char(code, 2 * r + 23, "-[>+>>]>[[-<+>]+>+>>]<<<<"@, 18);
    let a36 = a35.push(Op::Move(1));
    lemma_covers_step(code, 2 * r + 32, 2 * r + 41, a35, Op::Move(1));
    lemma_occurs_char(code, 2 * r + 23, "-[>+>>]>[[-<+>]+>+>>]<<<<"@, 19);
    let a37 = a36.push(Op::Move(1));
    lemma_covers_step(code, 2 * r + 32, 2 * r + 42, a36, Op::Move(1));
    lemma_occurs_char(code, 2 * r + 23, "-[>+>>]>[[-<+>]+>+>>]<<<<"@, 20);
    let a38 = a27.push(Op::Loop(a37));
    lemma_covers_loop(code, r + 22, 2 * r + 31, a27, 2 * r + 43, a37);
    lemma_occurs_char(code, 2 * r + 23, "-[>+>>]>[[-<+>]+>+>>]<<<<"@, 21);
    let a39 = a38.push(Op::Move(-1));
    lemma_covers_step(code, r + 22, 2 * r + 44, a38, Op::Move(-1));
    lemma_occurs_char(code, 2 * r + 23, "-[>+>>]>[[-<+>]+>+>>]<<<<"@, 22);
    let a40 = a39.push(Op::Move(-1));
    lemma_covers_step(code, r + 22, 2 * r + 45, a39, Op::Move(-1));
    lemma_occurs_char(code, 2 * r + 23, "-[>+>>]>[[-<+>]+>+>>]<<<<"@, 23);
    let a41 = a40.push(Op::Move(-1));
    lemma_covers_step(code, r + 22, 2 * r + 46, a40, Op::Move(-1));
    lemma_occurs_char(code, 2 * r + 23, "-[>+>>]>[[-<+>]+>+>>]<<<<"@, 24);
    let a42 = a41.push(Op::Move(-1));
    lemma_covers_step(code, r + 22, 2 * r + 47, a41, Op::Move(-1));
    lemma_covers_repeat(code, 2 * r + 48, '<', rel);
    let a43 = a42 + repeat_op(Op::Move(-1), rel);
    lemma_covers_join(code, r + 22, 2 * r + 48, 3 * r + 48, a42, repeat_op(Op::Move(-1), rel));
    lemma_occurs_char(code, 3 * r + 48, "]"@, 0);
    let a44 = a18.push(Op::Loop(a43));
    lemma_covers_loop(code, 0, r + 21, a18, 3 * r + 48, a43);
    lemma_covers_repeat(code, 3 * r + 49, '>', rel);
    let a45 = a44 + repeat_op(Op::Move(1), rel);
    lemma_covers_join(code, 0, 3 * r + 49, 4 * r + 49, a44, repeat_op(Op::Move(1), rel));
    lemma_occurs_char(code, 4 * r + 49, ">>[-<<"@, 0);
    let a46 = a45.push(Op::Move(1));
    lemma_covers_step(code, 0, 4 * r + 49, a45, Op::Move(1));
    lemma_occurs_char(code, 4 * r + 49, ">>[-<<"@, 1);
    let a47 = a46.push(Op::Move(1));
    lemma_covers_step(code, 0, 4 * r + 50, a46, Op::Move(1));
    lemma_occurs_char(code, 4 * r + 49, ">>[-<<"@, 2);
    lemma_covers_nothing(code, 4 * r + 52);
    lemma_occurs_char(code, 4 * r + 49, ">>[-<<"@, 3);
    let a48 = e.push(Op::Add(-1));
    lemma_covers_step(code, 4 * r + 52, 4 * r + 52, e, Op::Add(-1));
    lemma_occurs_char(code, 4 * r + 49, ">>[-<<"@, 4);
    let a49 = a48.push(Op::Move(-1));
    lemma_covers_step(code, 4 * r + 52, 4 * r + 53, a48, Op::Move(-1));
    lemma_occurs_char(code, 4 * r + 49, ">>[-<<"@, 5);
    let a50 = a49.push(Op::Move(-1));
    lemma_covers_step(code, 4 * r + 52, 4 * r + 54, a49, Op::Move(-1));
    lemma_covers_repeat(code, 4 * r + 55, '<', rel);
    let a51 = a50 + repeat_op(Op::Move(-1), rel);
    lemma_covers_join(code, 4 * r + 52, 4 * r + 55, 5 * r + 55, a50, repeat_op(Op::Move(-1), rel));
    lemma_occurs_char(code, 5 * r + 55, "+"@, 0);
    let a52 = a51.push(Op::Add(1));
    lemma_covers_step(code, 4 * r + 52, 5 * r + 55, a51, Op::Add(1));
    lemma_covers_repeat(code, 5 * r + 56, '>', rel);
    let a53 = a52 + repeat_op(Op::Move(1), rel);
    lemma_covers_join(code, 4 * r + 52, 5 * r + 56, 6 * r + 56, a52, repeat_op(Op::Move(1), rel));
    lemma_occurs_char(code, 6 * r + 56, ">>]<<[-]>[-]<"@, 0);
    let a54 = a53.push(Op::Move(1));
    lemma_covers_step(code, 4 * r + 52, 6 * r + 56, a53, Op::Move(1));
    lemma_occurs_char(code, 6 * r + 56, ">>]<<[-]>[-]<"@, 1);
    let a55 = a54.push(Op::Move(1));
    lemma_covers_step(code, 4 * r + 52, 6 * r + 57, a54, Op::Move(1));
    lemma_occurs_char(code, 6 * r + 56, ">>]<<[-]>[-]<"@, 2);
    let a56 = a47.push(Op::Loop(a55));
    lemma_covers_loop(code, 0, 4 * r + 51, a47, 6 * r + 58, a55);
    lemma_occurs_char(code, 6 * r + 56, ">>]<<[-]>[-]<"@, 3);
    let a57 = a56.push(Op::Move(-1));
    lemma_covers_step(code, 0, 6 * r + 59, a56, Op::Move(-1));
    lemma_occurs_char(code, 6 * r + 56, ">>]<<[-]>[-]<"@, 4);
    let a58 = a57.push(Op::Move(-1));
    lemma_covers_step(code, 0, 6 * r + 60, a57, Op::Move(-1));
    lemma_occurs_char(code, 6 * r + 56, ">>]<<[-]>[-]<"@, 5);
    lemma_covers_nothing(code, 6 * r + 62);
    lemma_occurs_char(code, 6 * r + 56, ">>]<<[-]>[-]<"@, 6);
    let a59 = e.push(Op::Add(-1));
    lemma_covers_step(code, 6 * r + 62, 6 * r + 62, e, Op::Add(-1));
    lemma_occurs_char(code, 6 * r + 56, ">>]<<[-]>[-]<"@, 7);
    let a60 = a58.push(Op::Loop(a59));
    lemma_covers_loop(code, 0, 6 * r + 61, a58, 6 * r + 63, a59);
    lemma_occurs_char(code, 6 * r + 56, ">>]<<[-]>[-]<"@, 8);
    let a61 = a60.push(Op::Move(1));
    lemma_covers_step(code, 0, 6 * r + 64, a60, Op::Move(1));
    lemma_occurs_char(code, 6 * r + 56, ">>]<<[-]>[-]<"@, 9);
    lemma_covers_nothing(code, 6 * r + 66);
    lemma_occurs_char(code, 6 * r + 56, ">>]<<[-]>[-]<"@, 10);
    let a62 = e.push(Op::Add(-1));
    lemma_covers_step(code, 6 * r + 66, 6 * r + 66, e, Op::Add(-1));
    lemma_occurs_char(code, 6 * r + 56, ">>]<<[-]>[-]<"@, 11);
    let a63 = a61.push(Op::Loop(a62));
    lemma_covers_loop(code, 0, 6 * r + 65, a61, 6 * r + 67, a62);
    lemma_occurs_char(code, 6 * r + 56, ">>]<<[-]>[-]<"@, 12);
    let a64 = a63.push(Op::Move(-1));
    lemma_covers_step(code, 0, 6 * r + 68, a63, Op::Move(-1));
    assert(a64 == assign_slash_ops(rel));
}

/// For every distance, the code of `/=` is a program of its operations.
pub proof fn lemma_assign_slash_reads(rel: nat)
    ensures
        reads(assign_template(AssignOpKind::SlashEq, rel), assign_slash_ops(rel)),
{
    lemma_assign_slash_reads_length_12(rel);
    lemma_assign_slash_reads_piece_0(rel);
    lemma_assign_slash_reads_piece_1(rel);
    lemma_assign_slash_reads_piece_2(rel);
    lemma_assign_slash_reads_piece_3(rel);
    lemma_assign_slash_reads_piece_4(rel);
    lemma_assign_slash_reads_piece_5(rel);
    lemma_assign_slash_reads_piece_6(rel);
    lemma_assign_slash_reads_piece_7(rel);
    lemma_assign_slash_reads_piece_8(rel);
    lemma_assign_slash_reads_piece_9(rel);
    lemma_assign_slash_reads_piece_10(rel);
    lemma_assign_slash_reads_piece_11(rel);
    lemma_assign_slash_reads_piece_12(rel);
    lemma_assign_slash_reads_chain(assign_template(AssignOpKind::SlashEq, rel), rel);
}

/// The operations of the code of `%=`, for a variable `rel` cells left of the head.
pub open spec fn assign_percent_ops(rel: nat) -> Seq<Op> {
    ((Seq::<Op>::empty().push(Op::Move(1)).push(Op::Loop(Seq::<Op>::empty().push(Op::Add(-1)))).push(Op::Add(1)).push(Op::Move(1)).push(Op::Loop(Seq::<Op>::empty().push(Op::Add(-1)))).push(Op::Move(1)).push(Op::Loop(Seq::<Op>::empty().push(Op::Add(-1)))).push(Op::Move(1)).push(Op::Loop(Seq::<Op>::empty().push(Op::Add(-1)))).push(Op::Move(-1)).push(Op::Move(-1)).push(Op::Move(-1)).push(Op::Move(-1)) + repeat_op(Op::Move(-1), rel)).push(Op::Loop(((Seq::<Op>::empty().push(Op::Add(-1)) + repeat_op(Op::Move(1), rel)).push(Op::Add(-1)).push(Op::Loop(Seq::<Op>::empty().push(Op::Move(1)).push(Op::Add(1)).push(Op::Move(1)).push(Op::Move(1)))).push(Op::Move(1)).push(Op::Loop(Seq::<Op>::empty().push(Op::Loop(Seq::<Op>::empty().push(Op::Add(-1)).push(Op::Move(-1)).push(Op::Add(1)).push(Op::Move(1)))).push(Op::Add(1)).push(Op::Move(1)).push(Op::Move(1)).push(Op::Move(1)))).push(Op::Move(-1)).push(Op::Move(-1)).push(Op::Move(-1)).push(Op::Move(-1)) + repeat_op(Op::Move(-1), rel)))) + repeat_op(Op::Move(1), rel)).push(Op::Move(1)).push(Op::Add(-1)).push(Op::Loop(((Seq::<Op>::empty().push(Op::Add(-1)).push(Op::Move(-1)) + repeat_op(Op::Move(-1), rel)).push(Op::Add(1)) + repeat_op(Op::Move(1), rel)).push(Op::Move(1)))).push(Op::Move(-1)).push(Op::Loop(Seq::<Op>::empty().push(Op::Add(-1))))
}

proof fn lemma_assign_percent_reads_length_0(rel: nat)
    ensures
        (">[-]+>[-]>[-]>[-]<<<<"@).len() == 21,
{
    reveal_strlit(">[-]+>[-]>[-]>[-]<<<<");
}

proof fn lemma_assign_percent_reads_length_1(rel: nat)
    ensures
        (">[-]+>[-]>[-]>[-]<<<<"@ + repeat('<', rel)).len() == (rel as int) + 21,
{
    lemma_assign_percent_reads_length_0(rel);
}

proof fn lemma_assign_percent_reads_length_2(rel: nat)
    ensures
        (">[-]+>[-]>[-]>[-]<<<<"@ + repeat('<', rel) + "[-"@).len() == (rel as int) + 23,
{
    lemma_assign_percent_reads_length_1(rel);
    reveal_strlit("[-");
}

proof fn lemma_assign_percent_reads_length_3(rel: nat)
    ensures
        (">[-]+>[-]>[-]>[-]<<<<"@ + repeat('<', rel) + "[-"@ + repeat('>', rel)).len() == 2 * (rel as int) + 23,
{
    lemma_assign_percent_reads_length_2(rel);
}

proof fn lemma_assign_percent_reads_length_4(rel: nat)
    ensures
        (">[-]+>[-]>[-]>[-]<<<<"@ + repeat('<', rel) + "[-"@ + repeat('>', rel) + "-[>+>>]>[[-<+>]+> >>]<<<<"@).len() == 2 * (rel as int) + 48,
{
    lemma_assign_percent_reads_length_3(rel);
    reveal_strlit("-[>+>>]>[[-<+>]+> >>]<<<<");
}

proof fn lemma_assign_percent_reads_length_5(rel: nat)
    ensures
        (">[-]+>[-]>[-]>[-]<<<<"@ + repeat('<', rel) + "[-"@ + repeat('>', rel) + "-[>+>>]>[[-<+>]+> >>]<<<<"@ + repeat('<', rel)).len() == 3 * (rel as int) + 48,
{
    lemma_assign_percent_reads_length_4(rel);
}

proof fn lemma_assign_percent_reads_length_6(rel: nat)
    ensures
        (">[-]+>[-]>[-]>[-]<<<<"@ + repeat('<', rel) + "[-"@ + repeat('>', rel) + "-[>+>>]>[[-<+>]+> >>]<<<<"@ + repeat('<', rel) + "]"@).len() == 3 * (rel as int) + 49,
{
    lemma_assign_percent_reads_length_5(rel);
    reveal_strlit("]");
}

proof fn lemma_assign_percent_reads_length_7(rel: nat)
    ensures
        (">[-]+>[-]>[-]>[-]<<<<"@ + repeat('<', rel) + "[-"@ + repeat('>', rel) + "-[>+>>]>[[-<+>]+> >>]<<<<"@ + repeat('<', rel) + "]"@ + repeat('>', rel)).len() == 4 * (rel as int) + 49,
{
    lemma_assign_percent_reads_length_6(rel);
}

proof fn lemma_assign_percent_reads_length_8(rel: nat)
    ensures
        (">[-]+>[-]>[-]>[-]<<<<"@ + repeat('<', rel) + "[-"@ + repeat('>', rel) + "-[>+>>]>[[-<+>]+> >>]<<<<"@ + repeat('<', rel) + "]"@ + repeat('>', rel) + ">-[-<"@).len() == 4 * (rel as int) + 54,
{
    lemma_assign_percent_reads_length_7(rel);
    reveal_strlit(">-[-<");
}

proof fn lemma_assign_percent_reads_length_9(rel: nat)
    ensures
        (">[-]+>[-]>[-]>[-]<<<<"@ + repeat('<', rel) + "[-"@ + repeat('>', rel) + "-[>+>>]>[[-<+>]+> >>]<<<<"@ + repeat('<', rel) + "]"@ + repeat('>', rel) + ">-[-<"@ + repeat('<', rel)).len() == 5 * (rel as int) + 54,
{
    lemma_assign_percent_reads_length_8(rel);
}

proof fn lemma_assign_percent_reads_length_10(rel: nat)
    ensures
        (">[-]+>[-]>[-]>[-]<<<<"@ + repeat('<', rel) + "[-"@ + repeat('>', rel) + "-[>+>>]>[[-<+>]+> >>]<<<<"@ + repeat('<', rel) + "]"@ + repeat('>', rel) + ">-[-<"@ + repeat('<', rel) + "+"@).len() == 5 * (rel as int) + 55,
{
    lemma_assign_percent_reads_length_9(rel);
    reveal_strlit("+");
}

proof fn lemma_assign_percent_reads_length_11(rel: nat)
    ensures
        (">[-]+>[-]>[-]>[-]<<<<"@ + repeat('<', rel) + "[-"@ + repeat('>', rel) + "-[>+>>]>[[-<+>]+> >>]<<<<"@ + repeat('<', rel) + "]"@ + repeat('>', rel) + ">-[-<"@ + repeat('<', rel) + "+"@ + repeat('>', rel)).len() == 6 * (rel as int) + 55,
{
    lemma_assign_percent_reads_length_10(rel);
}

proof fn lemma_assign_percent_reads_length_12(rel: nat)
    ensures
        (">[-]+>[-]>[-]>[-]<<<<"@ + repeat('<', rel) + "[-"@ + repeat('>', rel) + "-[>+>>]>[[-<+>]+> >>]<<<<"@ + repeat('<', rel) + "]"@ + repeat('>', rel) + ">-[-<"@ + repeat('<', rel) + "+"@ + repeat('>', rel) + ">]<[-]"@).len() == 6 * (rel as int) + 61,
{
    lemma_assign_percent_reads_length_11(rel);
    reveal_strlit(">]<[-]");
}

proof fn lemma_assign_percent_reads_prefix_12(rel: nat)
    ensures
        occurs(assign_template(AssignOpKind::PercentEq, rel), 0, ">[-]+>[-]>[-]>[-]<<<<"@ + repeat('<', rel) + "[-"@ + repeat('>', rel) + "-[>+>>]>[[-<+>]+> >>]<<<<"@ + repeat('<', rel) + "]"@ + repeat('>', rel) + ">-[-<"@ + repeat('<', rel) + "+"@ + repeat('>', rel) + ">]<[-]"@),
{
    let code = assign_template(AssignOpKind::PercentEq, rel);
    assert(code.subrange(0, code.len() as int) =~= code);
}

proof fn lemma_assign_percent_reads_prefix_11(rel: nat)
    ensures
        occurs(assign_template(AssignOpKind::PercentEq, rel), 0, ">[-]+>[-]>[-]>[-]<<<<"@ + repeat('<', rel) + "[-"@ + repeat('>', rel) + "-[>+>>]>[[-<+>]+> >>]<<<<"@ + repeat('<', rel) + "]"@ + repeat('>', rel) + ">-[-<"@ + repeat('<', rel) + "+"@ + repeat('>', rel)),
{
    lemma_assign_percent_reads_prefix_12(rel);
    lemma_occurs_parts(assign_template(AssignOpKind::PercentEq, rel), 0, ">[-]+>[-]>[-]>[-]<<<<"@ + repeat('<', rel) + "[-"@ + repeat('>', rel) + "-[>+>>]>[[-<+>]+> >>]<<<<"@ + repeat('<', rel) + "]"@ + repeat('>', rel) + ">-[-<"@ + repeat('<', rel) + "+"@ + repeat('>', rel), ">]<[-]"@);
}

proof fn lemma_assign_percent_reads_prefix_10(rel: nat)
    ensures
        occurs(assign_template(AssignOpKind::PercentEq, rel), 0, ">[-]+>[-]>[-]>[-]<<<<"@ + repeat('<', rel) + "[-"@ + repeat('>', rel) + "-[>+>>]>[[-<+>]+> >>]<<<<"@ + repeat('<', rel) + "]"@ + repeat('>', rel) + ">-[-<"@ + repeat('<', rel) + "+"@),
{
    lemma_assign_percent_reads_prefix_11(rel);
    lemma_occurs_parts(assign_template(AssignOpKind::PercentEq, rel), 0, ">[-]+>[-]>[-]>[-]<<<<"@ + repeat('<', rel) + "[-"@ + repeat('>', rel) + "-[>+>>]>[[-<+>]+> >>]<<<<"@ + repeat('<', rel) + "]"@ + repeat('>', rel) + ">-[-<"@ + repeat('<', rel) + "+"@, repeat('>', rel));
}

proof fn lemma_assign_percent_reads_prefix_9(rel: nat)
    ensures
        occurs(assign_template(AssignOpKind::PercentEq, rel), 0, ">[-]+>[-]>[-]>[-]<<<<"@ + repeat('<', rel) + "[-"@ + repeat('>', rel) + "-[>+>>]>[[-<+>]+> >>]<<<<"@ + repeat('<', rel) + "]"@ + repeat('>', rel) + ">-[-<"@ + repeat('<', rel)),
{
    lemma_assign_percent_reads_prefix_10(rel);
    lemma_occurs_parts(assign_template(AssignOpKind::PercentEq, rel), 0, ">[-]+>[-]>[-]>[-]<<<<"@ + repeat('<', rel) + "[-"@ + repeat('>', rel) + "-[>+>>]>[[-<+>]+> >>]<<<<"@ + repeat('<', rel) + "]"@ + repeat('>', rel) + ">-[-<"@ + repeat('<', rel), "+"@);
}

proof fn lemma_assign_percent_reads_prefix_8(rel: nat)
    ensures
        occurs(assign_template(AssignOpKind::PercentEq, rel), 0, ">[-]+>[-]>[-]>[-]<<<<"@ + repeat('<', rel) + "[-"@ + repeat('>', rel) + "-[>+>>]>[[-<+>]+> >>]<<<<"@ + repeat('<', rel) + "]"@ + repeat('>', rel) + ">-[-<"@),
{
    lemma_assign_percent_reads_prefix_9(rel);
    lemma_occurs_parts(assign_template(AssignOpKind::PercentEq, rel), 0, ">[-]+>[-]>[-]>[-]<<<<"@ + repeat('<', rel) + "[-"@ + repeat('>', rel) + "-[>+>>]>[[-<+>]+> >>]<<<<"@ + repeat('<', rel) + "]"@ + repeat('>', rel) + ">-[-<"@, repeat('<', rel));
}

proof fn lemma_assign_percent_reads_prefix_7(rel: nat)
    ensures
        occurs(assign_template(AssignOpKind::PercentEq, rel), 0, ">[-]+>[-]>[-]>[-]<<<<"@ + repeat('<', rel) + "[-"@ + repeat('>', rel) + "-[>+>>]>[[-<+>]+> >>]<<<<"@ + repeat('<', rel) + "]"@ + repeat('>', rel)),
{
    lemma_assign_percent_reads_prefix_8(rel);
    lemma_occurs_parts(assign_template(AssignOpKind::PercentEq, rel), 0, ">[-]+>[-]>[-]>[-]<<<<"@ + repeat('<', rel) + "[-"@ + repeat('>', rel) + "-[>+>>]>[[-<+>]+> >>]<<<<"@ + repeat('<', rel) + "]"@ + repeat('>', rel), ">-[-<"@);
}

proof fn lemma_assign_percent_reads_prefix_6(rel: nat)
    ensures
        occurs(assign_template(AssignOpKind::PercentEq, rel), 0, ">[-]+>[-]>[-]>[-]<<<<"@ + repeat('<', rel) + "[-"@ + repeat('>', rel) + "-[>+>>]>[[-<+>]+> >>]<<<<"@ + repeat('<', rel) + "]"@),
{
    lemma_assign_percent_reads_prefix_7(rel);
    lemma_occurs_parts(assign_template(AssignOpKind::PercentEq, rel), 0, ">[-]+>[-]>[-]>[-]<<<<"@ + repeat('<', rel) + "[-"@ + repeat('>', rel) + "-[>+>>]>[[-<+>]+> >>]<<<<"@ + repeat('<', rel) + "]"@, repeat('>', rel));
}

proof fn lemma_assign_percent_reads_prefix_5(rel: nat)
    ensures
        occurs(assign_template(AssignOpKind::PercentEq, rel), 0, ">[-]+>[-]>[-]>[-]<<<<"@ + repeat('<', rel) + "[-"@ + repeat('>', rel) + "-[>+>>]>[[-<+>]+> >>]<<<<"@ + repeat('<', rel)),
{
    lemma_assign_percent_reads_prefix_6(rel);
    lemma_occurs_parts(assign_template(AssignOpKind::PercentEq, rel), 0, ">[-]+>[-]>[-]>[-]<<<<"@ + repeat('<', rel) + "[-"@ + repeat('>', rel) + "-[>+>>]>[[-<+>]+> >>]<<<<"@ + repeat('<', rel), "]"@);
}

proof fn lemma_assign_percent_reads_prefix_4(rel: nat)
    ensures
        occurs(assign_template(AssignOpKind::PercentEq, rel), 0, ">[-]+>[-]>[-]>[-]<<<<"@ + repeat('<', rel) + "[-"@ + repeat('>', rel) + "-[>+>>]>[[-<+>]+> >>]<<<<"@),
{
    lemma_assign_percent_reads_prefix_5(rel);
    lemma_occurs_parts(assign_template(AssignOpKind::PercentEq, rel), 0, ">[-]+>[-]>[-]>[-]<<<<"@ + repeat('<', rel) + "[-"@ + repeat('>', rel) + "-[>+>>]>[[-<+>]+> >>]<<<<"@, repeat('<', rel));
}

proof fn lemma_assign_percent_reads_prefix_3(rel: nat)
    ensures
        occurs(assign_template(AssignOpKind::PercentEq, rel), 0, ">[-]+>[-]>[-]>[-]<<<<"@ + repeat('<', rel) + "[-"@ + repeat('>', rel)),
{
    lemma_assign_percent_reads_prefix_4(rel);
    lemma_occurs_parts(assign_template(AssignOpKind::PercentEq, rel), 0, ">[-]+>[-]>[-]>[-]<<<<"@ + repeat('<', rel) + "[-"@ + repeat('>', rel), "-[>+>>]>[[-<+>]+> >>]<<<<"@);
}

proof fn lemma_assign_percent_reads_prefix_2(rel: nat)
    ensures
        occurs(assign_template(AssignOpKind::PercentEq, rel), 0, ">[-]+>[-]>[-]>[-]<<<<"@ + repeat('<', rel) + "[-"@),
{
    lemma_assign_percent_reads_prefix_3(rel);
    lemma_occurs_parts(assign_template(AssignOpKind::PercentEq, rel), 0, ">[-]+>[-]>[-]>[-]<<<<"@ + repeat('<', rel) + "[-"@, repeat('>', rel));
}

proof fn lemma_assign_percent_reads_prefix_1(rel: nat)
    ensures
        occurs(assign_template(AssignOpKind::PercentEq, rel), 0, ">[-]+>[-]>[-]>[-]<<<<"@ + repeat('<', rel)),
{
    lemma_assign_percent_reads_prefix_2(rel);
    lemma_occurs_parts(assign_template(AssignOpKind::PercentEq, rel), 0, ">[-]+>[-]>[-]>[-]<<<<"@ + repeat('<', rel), "[-"@);
}

proof fn lemma_assign_percent_reads_prefix_0(rel: nat)
    ensures
        occurs(assign_template(AssignOpKind::PercentEq, rel), 0, ">[-]+>[-]>[-]>[-]<<<<"@),
{
    lemma_assign_percent_reads_prefix_1(rel);
    lemma_occurs_parts(assign_template(AssignOpKind::PercentEq, rel), 0, ">[-]+>[-]>[-]>[-]<<<<"@, repeat('<', rel));
}

proof fn lemma_assign_percent_reads_piece_0(rel: nat)
    ensures
        occurs(assign_template(AssignOpKind::PercentEq, rel), 0, ">[-]+>[-]>[-]>[-]<<<<"@),
{
    lemma_assign_percent_reads_prefix_0(rel);
}

proof fn lemma_assign_percent_reads_piece_1(rel: nat)
    ensures
        occurs(assign_template(AssignOpKind::PercentEq, rel), 21, repeat('<', rel)),
{
    lemma_assign_percent_reads_prefix_1(rel);
    lemma_assign_percent_reads_length_0(rel);
    lemma_occurs_parts(assign_template(AssignOpKind::PercentEq, rel), 0, ">[-]+>[-]>[-]>[-]<<<<"@, repeat('<', rel));
}

proof fn lemma_assign_percent_reads_piece_2(rel: nat)
    ensures
        occurs(assign_template(AssignOpKind::PercentEq, rel), (rel as int) + 21, "[-"@),
{
    lemma_assign_percent_reads_prefix_2(rel);
    lemma_assign_percent_reads_length_1(rel);
    lemma_occurs_parts(assign_template(AssignOpKind::PercentEq, rel), 0, ">[-]+>[-]>[-]>[-]<<<<"@ + repeat('<', rel), "[-"@);
}

proof fn lemma_assign_percent_reads_piece_3(rel: nat)
    ensures
        occurs(assign_template(AssignOpKind::PercentEq, rel), (rel as int) + 23, repeat('>', rel)),
{
    lemma_assign_percent_reads_prefix_3(rel);
    lemma_assign_percent_reads_length_2(rel);
    lemma_occurs_parts(assign_template(AssignOpKind::PercentEq, rel), 0, ">[-]+>[-]>[-]>[-]<<<<"@ + repeat('<', rel) + "[-"@, repeat('>', rel));
}

proof fn lemma_assign_percent_reads_piece_4(rel: nat)
    ensures
        occurs(assign_template(AssignOpKind::PercentEq, rel), 2 * (rel as int) + 23, "-[>+>>]>[[-<+>]+> >>]<<<<"@),
{
    lemma_assign_percent_reads_prefix_4(rel);
    lemma_assign_percent_reads_length_3(rel);
    lemma_occurs_parts(assign_template(AssignOpKind::PercentEq, rel), 0, ">[-]+>[-]>[-]>[-]<<<<"@ + repeat('<', rel) + "[-"@ + repeat('>', rel), "-[>+>>]>[[-<+>]+> >>]<<<<"@);
}

proof fn lemma_assign_percent_reads_piece_5(rel: nat)
    ensures
        occurs(assign_template(AssignOpKind::PercentEq, rel), 2 * (rel as int) + 48, repeat('<', rel)),
{
    lemma_assign_percent_reads_prefix_5(rel);
    lemma_assign_percent_reads_length_4(rel);
    lemma_occurs_parts(assign_template(AssignOpKind::PercentEq, rel), 0, ">[-]+>[-]>[-]>[-]<<<<"@ + repeat('<', rel) + "[-"@ + repeat('>', rel) + "-[>+>>]>[[-<+>]+> >>]<<<<"@, repeat('<', rel));
}

proof fn lemma_assign_percent_reads_piece_6(rel: nat)
    ensures
        occurs(assign_template(AssignOpKind::PercentEq, rel), 3 * (rel as int) + 48, "]"@),
{
    lemma_assign_percent_reads_prefix_6(rel);
    lemma_assign_percent_reads_length_5(rel);
    lemma_occurs_parts(assign_template(AssignOpKind::PercentEq, rel), 0, ">[-]+>[-]>[-]>[-]<<<<"@ + repeat('<', rel) + "[-"@ + repeat('>', rel) + "-[>+>>]>[[-<+>]+> >>]<<<<"@ + repeat('<', rel), "]"@);
}

proof fn lemma_assign_percent_reads_piece_7(rel: nat)
    ensures
        occurs(assign_template(AssignOpKind::PercentEq, rel), 3 * (rel as int) + 49, repeat('>', rel)),
{
    lemma_assign_percent_reads_prefix_7(rel);
    lemma_assign_percent_reads_length_6(rel);
    lemma_occurs_parts(assign_template(AssignOpKind::PercentEq, rel), 0, ">[-]+>[-]>[-]>[-]<<<<"@ + repeat('<', rel) + "[-"@ + repeat('>', rel) + "-[>+>>]>[[-<+>]+> >>]<<<<"@ + repeat('<', rel) + "]"@, repeat('>', rel));
}

proof fn lemma_assign_percent_reads_piece_8(rel: nat)
    ensures
        occurs(assign_template(AssignOpKind::PercentEq, rel), 4 * (rel as int) + 49, ">-[-<"@),
{
    lemma_assign_percent_reads_prefix_8(rel);
    lemma_assign_percent_reads_length_7(rel);
    lemma_occurs_parts(assign_template(AssignOpKind::PercentEq, rel), 0, ">[-]+>[-]>[-]>[-]<<<<"@ + repeat('<', rel) + "[-"@ + repeat('>', rel) + "-[>+>>]>[[-<+>]+> >>]<<<<"@ + repeat('<', rel) + "]"@ + repeat('>', rel), ">-[-<"@);
}

proof fn lemma_assign_percent_reads_piece_9(rel: nat)
    ensures
        occurs(assign_template(AssignOpKind::PercentEq, rel), 4 * (rel as int) + 54, repeat('<', rel)),
{
    lemma_assign_percent_reads_prefix_9(rel);
    lemma_assign_percent_reads_length_8(rel);
    lemma_occurs_parts(assign_template(AssignOpKind::PercentEq, rel), 0, ">[-]+>[-]>[-]>[-]<<<<"@ + repeat('<', rel) + "[-"@ + repeat('>', rel) + "-[>+>>]>[[-<+>]+> >>]<<<<"@ + repeat('<', rel) + "]"@ + repeat('>', rel) + ">-[-<"@, repeat('<', rel));
}

proof fn lemma_assign_percent_reads_piece_10(rel: nat)
    ensures
        occurs(assign_template(AssignOpKind::PercentEq, rel), 5 * (rel as int) + 54, "+"@),
{
    lemma_assign_percent_reads_prefix_10(rel);
    lemma_assign_percent_reads_length_9(rel);
    lemma_occurs_parts(assign_template(AssignOpKind::PercentEq, rel), 0, ">[-]+>[-]>[-]>[-]<<<<"@ + repeat('<', rel) + "[-"@ + repeat('>', rel) + "-[>+>>]>[[-<+>]+> >>]<<<<"@ + repeat('<', rel) + "]"@ + repeat('>', rel) + ">-[-<"@ + repeat('<', rel), "+"@);
}

proof fn lemma_assign_percent_reads_piece_11(rel: nat)
    ensures
        occurs(assign_template(AssignOpKind::PercentEq, rel), 5 * (rel as int) + 55, repeat('>', rel)),
{
    lemma_assign_percent_reads_prefix_11(rel);
    lemma_assign_percent_reads_length_10(rel);
    lemma_occurs_parts(assign_template(AssignOpKind::PercentEq, rel), 0, ">[-]+>[-]>[-]>[-]<<<<"@ + repeat('<', rel) + "[-"@ + repeat('>', rel) + "-[>+>>]>[[-<+>]+> >>]<<<<"@ + repeat('<', rel) + "]"@ + repeat('>', rel) + ">-[-<"@ + repeat('<', rel) + "+"@, repeat('>', rel));
}

proof fn lemma_assign_percent_reads_piece_12(rel: nat)
    ensures
        occurs(assign_template(AssignOpKind::PercentEq, rel), 6 * (rel as int) + 55, ">]<[-]"@),
{
    lemma_assign_percent_reads_prefix_12(rel);
    lemma_assign_percent_reads_length_11(rel);
    lemma_occurs_parts(assign_template(AssignOpKind::PercentEq, rel), 0, ">[-]+>[-]>[-]>[-]<<<<"@ + repeat('<', rel) + "[-"@ + repeat('>', rel) + "-[>+>>]>[[-<+>]+> >>]<<<<"@ + repeat('<', rel) + "]"@ + repeat('>', rel) + ">-[-<"@ + repeat('<', rel) + "+"@ + repeat('>', rel), ">]<[-]"@);
}

proof fn lemma_assign_percent_reads_chain(code: Seq<char>, rel: nat)
    requires
        code.len() == 6 * (rel as int) + 61,
        occurs(code, 0, ">[-]+>[-]>[-]>[-]<<<<"@),
        occurs(code, 21, repeat('<', rel)),
        occurs(code, (rel as int) + 21, "[-"@),
        occurs(code, (rel as int) + 23, repeat('>', rel)),
        occurs(code, 2 * (rel as int) + 23, "-[>+>>]>[[-<+>]+> >>]<<<<"@),
        occurs(code, 2 * (rel as int) + 48, repeat('<', rel)),
        occurs(code, 3 * (rel as int) + 48, "]"@),
        occurs(code, 3 * (rel as int) + 49, repeat('>', rel)),
        occurs(code, 4 * (rel as int) + 49, ">-[-<"@),
        occurs(code, 4 * (rel as int) + 54, repeat('<', rel)),
        occurs(code, 5 * (rel as int) + 54, "+"@),
        occurs(code, 5 * (rel as int) + 55, repeat('>', rel)),
        occurs(code, 6 * (rel as int) + 55, ">]<[-]"@),
    ensures
        reads(code, assign_percent_ops(rel)),
{
    let r = rel as int;
    reveal_strlit(">[-]+>[-]>[-]>[-]<<<<");
    reveal_strlit("[-");
    reveal_strlit("-[>+>>]>[[-<+>]+> >>]<<<<");
    reveal_strlit("]");
    reveal_strlit(">-[-<");
    reveal_strlit("+");
    reveal_strlit(">]<[-]");
    let e = Seq::<Op>::empty();
    lemma_covers_nothing(code, 0);
    lemma_occurs_char(code, 0, ">[-]+>[-]>[-]>[-]<<<<"@, 0);
    let a1 = e.push(Op::Move(1));
    lemma_covers_step(code, 0, 0, e, Op::Move(1));
    lemma_occurs_char(code, 0, ">[-]+>[-]>[-]>[-]<<<<"@, 1);
    lemma_covers_nothing(code, 2);
    lemma_occurs_char(code, 0, ">[-]+>[-]>[-]>[-]<<<<"@, 2);
    let a2 = e.push(Op::Add(-1));
    lemma_covers_step(code, 2, 2, e, Op::Add(-1));
    lemma_occurs_char(code, 0, ">[-]+>[-]>[-]>[-]<<<<"@, 3);
    let a3 = a1.push(Op::Loop(a2));
    lemma_covers_loop(code, 0, 1, a1, 3, a2);
    lemma_occurs_char(code, 0, ">[-]+>[-]>[-]>[-]<<<<"@, 4);
    let a4 = a3.push(Op::Add(1));
    lemma_covers_step(code, 0, 4, a3, Op::Add(1));
    lemma_occurs_char(code, 0, ">[-]+>[-]>[-]>[-]<<<<"@, 5);
    let a5 = a4.push(Op::Move(1));
    lemma_covers_step(code, 0, 5, a4, Op::Move(1));
    lemma_occurs_char(code, 0, ">[-]+>[-]>[-]>[-]<<<<"@, 6);
    lemma_covers_nothing(code, 7);
    lemma_occurs_char(code, 0, ">[-]+>[-]>[-]>[-]<<<<"@, 7);
    let a6 = e.push(Op::Add(-1));
    lemma_covers_step(code, 7, 7, e, Op::Add(-1));
    lemma_occurs_char(code, 0, ">[-]+>[-]>[-]>[-]<<<<"@, 8);
    let a7 = a5.push(Op::Loop(a6));
    lemma_covers_loop(code, 0, 6, a5, 8, a6);
    lemma_occurs_char(code, 0, ">[-]+>[-]>[-]>[-]<<<<"@, 9);
    let a8 = a7.push(Op::Move(1));
    lemma_covers_step(code, 0, 9, a7, Op::Move(1));
    lemma_occurs_char(code, 0, ">[-]+>[-]>[-]>[-]<<<<"@, 10);
    lemma_covers_nothing(code, 11);
    lemma_occurs_char(code, 0, ">[-]+>[-]>[-]>[-]<<<<"@, 11);
    let a9 = e.push(Op::Add(-1));
    lemma_covers_step(code, 11, 11, e, Op::Add(-1));
    lemma_occurs_char(code, 0, ">[-]+>[-]>[-]>[-]<<<<"@, 12);
    let a10 = a8.push(Op::Loop(a9));
    lemma_covers_loop(code, 0, 10, a8, 12, a9);
    lemma_occurs_char(code, 0, ">[-]+>[-]>[-]>[-]<<<<"@, 13);
    let a11 = a10.push(Op::Move(1));
    lemma_covers_step(code, 0, 13, a10, Op::Move(1));
    lemma_occurs_char(code, 0, ">[-]+>[-]>[-]>[-]<<<<"@, 14);
    lemma_covers_nothing(code, 15);
    lemma_occurs_char(code, 0, ">[-]+>[-]>[-]>[-]<<<<"@, 15);
    let a12 = e.push(Op::Add(-1));
    lemma_covers_step(code, 15, 15, e, Op::Add(-1));
    lemma_occurs_char(code, 0, ">[-]+>[-]>[-]>[-]<<<<"@, 16);
    let a13 = a11.push(Op::Loop(a12));
    lemma_covers_loop(code, 0, 14, a11, 16, a12);
    lemma_occurs_char(code, 0, ">[-]+>[-]>[-]>[-]<<<<"@, 17);
    let a14 = a13.push(Op::Move(-1));
    lemma_covers_step(code, 0, 17, a13, Op::Move(-1));
    lemma_occurs_char(code, 0, ">[-]+>[-]>[-]>[-]<<<<"@, 18);
    let a15 = a14.push(Op::Move(-1));
    lemma_covers_step(code, 0, 18, a14, Op::Move(-1));
    lemma_occurs_char(code, 0, ">[-]+>[-]>[-]>[-]<<<<"@, 19);
    let a16 = a15.push(Op::Move(-1));
    lemma_covers_step(code, 0, 19, a15, Op::Move(-1));
    lemma_occurs_char(code, 0, ">[-]+>[-]>[-]>[-]<<<<"@, 20);
    let a17 = a16.push(Op::Move(-1));
    lemma_covers_step(code, 0, 20, a16, Op::Move(-1));
    lemma_covers_repeat(code, 21, '<', rel);
    let a18 = a17 + repeat_op(Op::Move(-1), rel);
    lemma_covers_join(code, 0, 21, r + 21, a17, repeat_op(Op::Move(-1), rel));
    lemma_occurs_char(code, r + 21, "[-"@, 0);
    lemma_covers_nothing(code, r + 22);
    lemma_occurs_char(code, r + 21, "[-"@, 1);
    let a19 = e.push(Op::Add(-1));
    lemma_covers_step(code, r + 22, r + 22, e, Op::Add(-1));
    lemma_covers_repeat(code, r + 23, '>', rel);
    let a20 = a19 + repeat_op(Op::Move(1), rel);
    lemma_covers_join(code, r + 22, r + 23, 2 * r + 23, a19, repeat_op(Op::Move(1), rel));
    lemma_occurs_char(code, 2 * r + 23, "-[>+>>]>[[-<+>]+> >>]<<<<"@, 0);
    let a21 = a20.push(Op::Add(-1));
    lemma_covers_step(code, r + 22, 2 * r + 23, a20, Op::Add(-1));
    lemma_occurs_char(code, 2 * r + 23, "-[>+>>]>[[-<+>]+> >>]<<<<"@, 1);
    lemma_covers_nothing(code, 2 * r + 25);
    lemma_occurs_char(code, 2 * r + 23, "-[>+>>]>[[-<+>]+> >>]<<<<"@, 2);
    let a22 = e.push(Op::Move(1));
    lemma_covers_step(code, 2 * r + 25, 2 * r + 25, e, Op::Move(1));
    lemma_occurs_char(code, 2 * r + 23, "-[>+>>]>[[-<+>]+> >>]<<<<"@, 3);
    let a23 = a22.push(Op::Add(1));
    lemma_covers_step(code, 2 * r + 25, 2 * r + 26, a22, Op::Add(1));
    lemma_occurs_char(code, 2 * r + 23, "-[>+>>]>[[-<+>]+> >>]<<<<"@, 4);
    let a24 = a23.push(Op::Move(1));
    lemma_covers_step(code, 2 * r + 25, 2 * r + 27, a23, Op::Move(1));
    lemma_occurs_char(code, 2 * r + 23, "-[>+>>]>[[-<+>]+> >>]<<<<"@, 5);
    let a25 = a24.push(Op::Move(1));
    lemma_covers_step(code, 2 * r + 25, 2 * r + 28, a24, Op::Move(1));
    lemma_occurs_char(code, 2 * r + 23, "-[>+>>]>[[-<+>]+> >>]<<<<"@, 6);
    let a26 = a21.push(Op::Loop(a25));
    lemma_covers_loop(code, r + 22, 2 * r + 24, a21, 2 * r + 29, a25);
    lemma_occurs_char(code, 2 * r + 23, "-[>+>>]>[[-<+>]+> >>]<<<<"@, 7);
    let a27 = a26.push(Op::Move(1));
    lemma_covers_step(code, r + 22, 2 * r + 30, a26, Op::Move(1));
    lemma_occurs_char(code, 2 * r + 23, "-[>+>>]>[[-<+>]+> >>]<<<<"@, 8);
    lemma_covers_nothing(code, 2 * r + 32);
    lemma_occurs_char(code, 2 * r + 23, "-[>+>>]>[[-<+>]+> >>]<<<<"@, 9);
    lemma_covers_nothing(code, 2 * r + 33);
    lemma_occurs_char(code, 2 * r + 23, "-[>+>>]>[[-<+>]+> >>]<<<<"@, 10);
    let a28 = e.push(Op::Add(-1));
    lemma_covers_step(code, 2 * r + 33, 2 * r + 33, e, Op::Add(-1));
    lemma_occurs_char(code, 2 * r + 23, "-[>+>>]>[[-<+>]+> >>]<<<<"@, 11);
    let a29 = a28.push(Op::Move(-1));
    lemma_covers_step(code, 2 * r + 33, 2 * r + 34, a28, Op::Move(-1));
    lemma_occurs_char(code, 2 * r + 23, "-[>+>>]>[[-<+>]+> >>]<<<<"@, 12);
    let a30 = a29.push(Op::Add(1));
    lemma_covers_step(code, 2 * r + 33, 2 * r + 35, a29, Op::Add(1));
    lemma_occurs_char(code, 2 * r + 23, "-[>+>>]>[[-<+>]+> >>]<<<<"@, 13);
    let a31 = a30.push(Op::Move(1));
    lemma_covers_step(code, 2 * r + 33, 2 * r + 36, a30, Op::Move(1));
    lemma_occurs_char(code, 2 * r + 23, "-[>+>>]>[[-<+>]+> >>]<<<<"@, 14);
    let a32 = e.push(Op::Loop(a31));
    lemma_covers_loop(code, 2 * r + 32, 2 * r + 32, e, 2 * r + 37, a31);
    lemma_occurs_char(code, 2 * r + 23, "-[>+>>]>[[-<+>]+> >>]<<<<"@, 15);
    let a33 = a32.push(Op::Add(1));
    lemma_covers_step(code, 2 * r + 32, 2 * r + 38, a32, Op::Add(1));
    lemma_occurs_char(code, 2 * r + 23, "-[>+>>]>[[-<+>]+> >>]<<<<"@, 16);
    let a34 = a33.push(Op::Move(1));
    lemma_covers_step(code, 2 * r + 32, 2 * r + 39, a33, Op::Move(1));
    lemma_occurs_char(code, 2 * r + 23, "-[>+>>]>[[-<+>]+> >>]<<<<"@, 17);
    lemma_covers_skip(code, 2 * r + 32, 2 * r + 40, a34);
    lemma_occurs_char(code, 2 * r + 23, "-[>+>>]>[[-<+>]+> >>]<<<<"@, 18);
    let a35 = a34.push(Op::Move(1));
    lemma_covers_step(code, 2 * r + 32, 2 * r + 41, a34, Op::Move(1));
    lemma_occurs_char(code, 2 * r + 23, "-[>+>>]>[[-<+>]+> >>]<<<<"@, 19);
    let a36 = a35.push(Op::Move(1));
    lemma_covers_step(code, 2 * r + 32, 2 * r + 42, a35, Op::Move(1));
    lemma_occurs_char(code, 2 * r + 23, "-[>+>>]>[[-<+>]+> >>]<<<<"@, 20);
    let a37 = a27.push(Op::Loop(a36));
    lemma_covers_loop(code, r + 22, 2 * r + 31, a27, 2 * r + 43, a36);
    lemma_occurs_char(code, 2 * r + 23, "-[>+>>]>[[-<+>]+> >>]<<<<"@, 21);
    let a38 = a37.push(Op::Move(-1));
    lemma_covers_step(code, r + 22, 2 * r + 44, a37, Op::Move(-1));
    lemma_occurs_char(code, 2 * r + 23, "-[>+>>]>[[-<+>]+> >>]<<<<"@, 22);
    let a39 = a38.push(Op::Move(-1));
    lemma_covers_step(code, r + 22, 2 * r + 45, a38, Op::Move(-1));
    lemma_occurs_char(code, 2 * r + 23, "-[>+>>]>[[-<+>]+> >>]<<<<"@, 23);
    let a40 = a39.push(Op::Move(-1));
    lemma_covers_step(code, r + 22, 2 * r + 46, a39, Op::Move(-1));
    lemma_occurs_char(code, 2 * r + 23, "-[>+>>]>[[-<+>]+> >>]<<<<"@, 24);
    let a41 = a40.push(Op::Move(-1));
    lemma_covers_step(code, r + 22, 2 * r + 47, a40, Op::Move(-1));
    lemma_covers_repeat(code, 2 * r + 48, '<', rel);
    let a42 = a41 + repeat_op(Op::Move(-1), rel);
    lemma_covers_join(code, r + 22, 2 * r + 48, 3 * r + 48, a41, repeat_op(Op::Move(-1), rel));
    lemma_occurs_char(code, 3 * r + 48, "]"@, 0);
    let a43 = a18.push(Op::Loop(a42));
    lemma_covers_loop(code, 0, r + 21, a18, 3 * r + 48, a42);
    lemma_covers_repeat(code, 3 * r + 49, '>', rel);
    let a44 = a43 + repeat_op(Op::Move(1), rel);
    lemma_covers_join(code, 0, 3 * r + 49, 4 * r + 49, a43, repeat_op(Op::Move(1), rel));
    lemma_occurs_char(code, 4 * r + 49, ">-[-<"@, 0);
    let a45 = a44.push(Op::Move(1));
    lemma_covers_step(code, 0, 4 * r + 49, a44, Op::Move(1));
    lemma_occurs_char(code, 4 * r + 49, ">-[-<"@, 1);
    let a46 = a45.push(Op::Add(-1));
    lemma_covers_step(code, 0, 4 * r + 50, a45, Op::Add(-1));
    lemma_occurs_char(code, 4 * r + 49, ">-[-<"@, 2);
    lemma_covers_nothing(code, 4 * r + 52);
    lemma_occurs_char(code, 4 * r + 49, ">-[-<"@, 3);
    let a47 = e.push(Op::Add(-1));
    lemma_covers_step(code, 4 * r + 52, 4 * r + 52, e, Op::Add(-1));
    lemma_occurs_char(code, 4 * r + 49, ">-[-<"@, 4);
    let a48 = a47.push(Op::Move(-1));
    lemma_covers_step(code, 4 * r + 52, 4 * r + 53, a47, Op::Move(-1));
    lemma_covers_repeat(code, 4 * r + 54, '<', rel);
    let a49 = a48 + repeat_op(Op::Move(-1), rel);
    lemma_covers_join(code, 4 * r + 52, 4 * r + 54, 5 * r + 54, a48, repeat_op(Op::Move(-1), rel));
    lemma_occurs_char(code, 5 * r + 54, "+"@, 0);
    let a50 = a49.push(Op::Add(1));
    lemma_covers_step(code, 4 * r + 52, 5 * r + 54, a49, Op::Add(1));
    lemma_covers_repeat(code, 5 * r + 55, '>', rel);
    let a51 = a50 + repeat_op(Op::Move(1), rel);
    lemma_covers_join(code, 4 * r + 52, 5 * r + 55, 6 * r + 55, a50, repeat_op(Op::Move(1), rel));
    lemma_occurs_char(code, 6 * r + 55, ">]<[-]"@, 0);
    let a52 = a51.push(Op::Move(1));
    lemma_covers_step(code, 4 * r + 52, 6 * r + 55, a51, Op::Move(1));
    lemma_occurs_char(code, 6 * r + 55, ">]<[-]"@, 1);
    let a53 = a46.push(Op::Loop(a52));
    lemma_covers_loop(code, 0, 4 * r + 51, a46, 6 * r + 56, a52);
    lemma_occurs_char(code, 6 * r + 55, ">]<[-]"@, 2);
    let a54 = a53.push(Op::Move(-1));
    lemma_covers_step(code, 0, 6 * r + 57, a53, Op::Move(-1));
    lemma_occurs_char(code, 6 * r + 55, ">]<[-]"@, 3);
    lemma_covers_nothing(code, 6 * r + 59);
    lemma_occurs_char(code, 6 * r + 55, ">]<[-]"@, 4);
    let a55 = e.push(Op::Add(-1));
    lemma_covers_step(code, 6 * r + 59, 6 * r + 59, e, Op::Add(-1));
    lemma_occurs_char(code, 6 * r + 55, ">]<[-]"@, 5);
    let a56 = a54.push(Op::Loop(a55));
    lemma_covers_loop(code, 0, 6 * r + 58, a54, 6 * r + 60, a55);
    assert(a56 == assign_percent_ops(rel));
}

/// For every distance, the code of `%=` is a program of its operations.
pub proof fn lemma_assign_percent_reads(rel: nat)
    ensures
        reads(assign_template(AssignOpKind::PercentEq, rel), assign_percent_ops(rel)),
{
    lemma_assign_percent_reads_length_12(rel);
    lemma_assign_percent_reads_piece_0(rel);
    lemma_assign_percent_reads_piece_1(rel);
    lemma_assign_percent_reads_piece_2(rel);
    lemma_assign_percent_reads_piece_3(rel);
    lemma_assign_percent_reads_piece_4(rel);
    lemma_assign_percent_reads_piece_5(rel);
    lemma_assign_percent_reads_piece_6(rel);
    lemma_assign_percent_reads_piece_7(rel);
    lemma_assign_percent_reads_piece_8(rel);
    lemma_assign_percent_reads_piece_9(rel);
    lemma_assign_percent_reads_piece_10(rel);
    lemma_assign_percent_reads_piece_11(rel);
    lemma_assign_percent_reads_piece_12(rel);
    lemma_assign_percent_reads_chain(assign_template(AssignOpKind::PercentEq, rel), rel);
}

/// The operations of the code of the binary operator `kind`.
pub open spec fn binary_ops(kind: BinaryOpKind) -> Seq<Op> {
    match kind {
        BinaryOpKind::Plus => plus_ops(),
        BinaryOpKind::Minus => minus_ops(),
        BinaryOpKind::Star => star_ops(),
        BinaryOpKind::Slash => slash_ops(),
        BinaryOpKind::Percent => percent_ops(),
        BinaryOpKind::EqEq => eq_eq_ops(),
        BinaryOpKind::NotEq => not_eq_ops(),
        BinaryOpKind::Greater => greater_ops(),
        BinaryOpKind::GreaterEq => greater_eq_ops(),
        BinaryOpKind::Less => less_ops(),
        BinaryOpKind::LessEq => less_eq_ops(),
        BinaryOpKind::And => and_ops(),
        BinaryOpKind::Or => or_ops(),
    }
}

/// The code of each binary operator is a program of its operations.
pub proof fn lemma_binary_reads(kind: BinaryOpKind)
    ensures
        reads(binary_template(kind), binary_ops(kind)),
{
    match kind {
        BinaryOpKind::Plus => lemma_plus_reads(),
        BinaryOpKind::Minus => lemma_minus_reads(),
        BinaryOpKind::Star => lemma_star_reads(),
        BinaryOpKind::Slash => lemma_slash_reads(),
        BinaryOpKind::Percent => lemma_percent_reads(),
        BinaryOpKind::EqEq => lemma_eq_eq_reads(),
        BinaryOpKind::NotEq => lemma_not_eq_reads(),
        BinaryOpKind::Greater => lemma_greater_reads(),
        BinaryOpKind::GreaterEq => lemma_greater_eq_reads(),
        BinaryOpKind::Less => lemma_less_reads(),
        BinaryOpKind::LessEq => lemma_less_eq_reads(),
        BinaryOpKind::And => lemma_and_reads(),
        BinaryOpKind::Or => lemma_or_reads(),
    }
}

} // verus!
