//! How text is read into operations, piece by piece.

use vstd::prelude::*;
use crate::brainfuck::tree::{command, parse, read, repeat, Op, Read};

verus! {

/// `n` times the operation `op`.
pub open spec fn repeat_op(op: Op, n: nat) -> Seq<Op> {
    Seq::new(n, |i: int| op)
}

/// Whether `text` stands in `code` at `i`.
pub open spec fn occurs(code: Seq<char>, i: int, text: Seq<char>) -> bool {
    0 <= i && i + text.len() <= code.len() && code.subrange(i, i + text.len()) == text
}

/// The parts of a text that stands in `code` stand in it.
pub proof fn lemma_occurs_parts(code: Seq<char>, i: int, first: Seq<char>, second: Seq<char>)
    requires
        occurs(code, i, first + second),
    ensures
        occurs(code, i, first),
        occurs(code, i + first.len(), second),
{
    let whole = first + second;
    assert(code.subrange(i, i + first.len()) =~= first) by {
        assert forall|k: int| 0 <= k < first.len() implies code.subrange(i, i + first.len())[k]
            == first[k] by {
            assert(code.subrange(i, i + whole.len())[k] == whole[k]);
        }
    }
    assert(code.subrange(i + first.len(), i + first.len() + second.len()) =~= second) by {
        assert forall|k: int| 0 <= k < second.len() implies code.subrange(
            i + first.len(),
            i + first.len() + second.len(),
        )[k] == second[k] by {
            assert(code.subrange(i, i + whole.len())[first.len() + k] == whole[first.len() + k]);
        }
    }
}

/// Whether the reading of `text` from `j` on ends at a `]`, every loop on the
/// way being closed.
pub open spec fn ends_inside(text: Seq<char>, j: int) -> bool
    decreases text.len() - j,
{
    if !(0 <= j < text.len()) {
        false
    } else if text[j] == '[' {
        let body = read(text, j + 1, Seq::empty());
        ends_inside(text, j + 1) && j < body.next <= text.len() && ends_inside(text, body.next)
    } else if text[j] == ']' {
        true
    } else {
        ends_inside(text, j + 1)
    }
}

/// Whether the reading of `text` from `j` on reaches the end of the text,
/// every loop on the way being closed.
pub open spec fn runs_out(text: Seq<char>, j: int) -> bool
    decreases text.len() - j,
{
    if !(0 <= j < text.len()) {
        true
    } else if text[j] == '[' {
        let body = read(text, j + 1, Seq::empty());
        ends_inside(text, j + 1) && j < body.next <= text.len() && runs_out(text, body.next)
    } else if text[j] == ']' {
        false
    } else {
        runs_out(text, j + 1)
    }
}

/// Whether the text of `code` from `i` up to `j` is read as the operations
/// `ops`, whatever has been read before and whatever follows: the piece
/// closes each loop that it opens, and no other.
pub open spec fn covers(code: Seq<char>, i: int, j: int, ops: Seq<Op>) -> bool {
    &&& 0 <= i <= j <= code.len()
    &&& read(code, i, Seq::empty()) == read(code, j, ops)
    &&& runs_out(code, i) == runs_out(code, j)
    &&& ends_inside(code, i) == ends_inside(code, j)
}

/// Whether `code` is a program of the operations `ops`, each loop of which
/// is closed.
pub open spec fn reads(code: Seq<char>, ops: Seq<Op>) -> bool {
    covers(code, 0, code.len() as int, ops)
}

/// Pieces that follow each other are read one after the other.
pub proof fn lemma_covers_join(code: Seq<char>, i: int, j: int, k: int, first: Seq<Op>, second: Seq<Op>)
    requires
        covers(code, i, j, first),
        covers(code, j, k, second),
    ensures
        covers(code, i, k, first + second),
{
    lemma_read_after(code, j, first);
    lemma_read_after(code, k, second);
    lemma_read_after(code, k, first + second);
    let rest = read(code, k, Seq::empty()).ops;
    assert(first + (second + rest) =~= (first + second) + rest);
}

/// No text is read as no operations.
pub proof fn lemma_covers_nothing(code: Seq<char>, i: int)
    requires
        0 <= i <= code.len(),
    ensures
        covers(code, i, i, Seq::empty()),
{
}

/// A command behind a piece is read as one more operation.
pub proof fn lemma_covers_step(code: Seq<char>, i: int, j: int, ops: Seq<Op>, op: Op)
    requires
        covers(code, i, j, ops),
        j < code.len(),
        code[j] != '[',
        code[j] != ']',
        command(code[j]) == Some(op),
    ensures
        covers(code, i, j + 1, ops.push(op)),
{
}

/// A character behind a piece that is no command is read as nothing.
pub proof fn lemma_covers_skip(code: Seq<char>, i: int, j: int, ops: Seq<Op>)
    requires
        covers(code, i, j, ops),
        j < code.len(),
        code[j] != '[',
        code[j] != ']',
        command(code[j]) is None,
    ensures
        covers(code, i, j + 1, ops),
{
}

/// A piece in brackets behind a piece is read as one more operation, a
/// loop.
pub proof fn lemma_covers_loop(code: Seq<char>, i: int, j: int, ops: Seq<Op>, k: int, body: Seq<Op>)
    requires
        covers(code, i, j, ops),
        j < k < code.len(),
        code[j] == '[',
        code[k] == ']',
        covers(code, j + 1, k, body),
    ensures
        covers(code, i, k + 1, ops.push(Op::Loop(body))),
{
    assert(read(code, k, body) == (Read { ops: body, next: k + 1 }));
    assert(ends_inside(code, k));
}

/// A run of one command is read as so many steps.
pub proof fn lemma_covers_repeat(code: Seq<char>, i: int, c: char, n: nat)
    requires
        occurs(code, i, repeat(c, n)),
        command(c) is Some,
    ensures
        covers(code, i, i + n, repeat_op(command(c)->Some_0, n)),
    decreases n,
{
    if n == 0 {
        lemma_covers_nothing(code, i);
        assert(repeat_op(command(c)->Some_0, 0) =~= Seq::empty());
    } else {
        let less = (n - 1) as nat;
        assert(repeat(c, less) + seq![c] =~= repeat(c, n));
        lemma_occurs_parts(code, i, repeat(c, less), seq![c]);
        lemma_covers_repeat(code, i, c, less);
        assert(code[i + less] == code.subrange(i + less, i + less + 1)[0]);
        lemma_covers_step(
            code,
            i,
            i + less,
            repeat_op(command(c)->Some_0, less),
            command(c)->Some_0,
        );
        assert(repeat_op(command(c)->Some_0, less).push(command(c)->Some_0) =~= repeat_op(
            command(c)->Some_0,
            n,
        ));
    }
}

/// A program that is read as `ops` has the operations `ops`.
pub proof fn lemma_reads_parse(code: Seq<char>, ops: Seq<Op>)
    requires
        reads(code, ops),
    ensures
        parse(code) == ops,
        runs_out(code, 0),
{
}

/// The character of a text that stands in `code`.
pub proof fn lemma_occurs_char(code: Seq<char>, i: int, text: Seq<char>, k: int)
    requires
        occurs(code, i, text),
        0 <= k < text.len(),
    ensures
        code[i + k] == text[k],
{
    assert(code[i + k] == code.subrange(i, i + text.len())[k]);
}

/// The reading of a text that ends at a `]` of the text goes the same way
/// where the text stands in other text.
pub proof fn lemma_read_inside(code: Seq<char>, i: int, text: Seq<char>, j: int, before: Seq<Op>)
    requires
        occurs(code, i, text),
        0 <= j <= text.len(),
        ends_inside(text, j),
    ensures
        read(code, i + j, before) == (Read {
            ops: read(text, j, before).ops,
            next: i + read(text, j, before).next,
        }),
        ends_inside(code, i + j),
    decreases text.len() - j,
{
    lemma_occurs_char(code, i, text, j);
    if text[j] == '[' {
        let body = read(text, j + 1, Seq::empty());
        lemma_read_inside(code, i, text, j + 1, Seq::empty());
        lemma_read_inside(code, i, text, body.next, before.push(Op::Loop(body.ops)));
    } else if text[j] == ']' {
    } else {
        match command(text[j]) {
            Some(op) => lemma_read_inside(code, i, text, j + 1, before.push(op)),
            None => lemma_read_inside(code, i, text, j + 1, before),
        }
    }
}

/// The reading of a text that reaches the end of the text goes on behind
/// the text where the text stands in other text.
pub proof fn lemma_read_out(code: Seq<char>, i: int, text: Seq<char>, j: int, before: Seq<Op>)
    requires
        occurs(code, i, text),
        0 <= j <= text.len(),
        runs_out(text, j),
    ensures
        read(code, i + j, before) == read(code, i + text.len(), read(text, j, before).ops),
        runs_out(code, i + j) == runs_out(code, i + text.len()),
        ends_inside(code, i + j) == ends_inside(code, i + text.len()),
    decreases text.len() - j,
{
    if j < text.len() {
        lemma_occurs_char(code, i, text, j);
        if text[j] == '[' {
            let body = read(text, j + 1, Seq::empty());
            lemma_read_inside(code, i, text, j + 1, Seq::empty());
            lemma_read_out(code, i, text, body.next, before.push(Op::Loop(body.ops)));
        } else {
            match command(text[j]) {
                Some(op) => lemma_read_out(code, i, text, j + 1, before.push(op)),
                None => lemma_read_out(code, i, text, j + 1, before),
            }
        }
    }
}

/// What has been read before stays in front of what is read.
pub proof fn lemma_read_after(text: Seq<char>, j: int, before: Seq<Op>)
    requires
        0 <= j <= text.len(),
    ensures
        read(text, j, before).ops == before + read(text, j, Seq::empty()).ops,
        read(text, j, before).next == read(text, j, Seq::empty()).next,
    decreases text.len() - j,
{
    let none = Seq::<Op>::empty();
    if j >= text.len() {
        assert(before + none =~= before);
    } else if text[j] == '[' {
        let body = read(text, j + 1, none);
        if j < body.next <= text.len() {
            let op = Op::Loop(body.ops);
            lemma_read_after(text, body.next, before.push(op));
            lemma_read_after(text, body.next, none.push(op));
            let rest = read(text, body.next, none).ops;
            assert(before.push(op) + rest =~= before + (none.push(op) + rest));
        } else {
            assert(before + none =~= before);
        }
    } else if text[j] == ']' {
        assert(before + none =~= before);
    } else {
        match command(text[j]) {
            Some(op) => {
                lemma_read_after(text, j + 1, before.push(op));
                lemma_read_after(text, j + 1, none.push(op));
                let rest = read(text, j + 1, none).ops;
                assert(before.push(op) + rest =~= before + (none.push(op) + rest));
            },
            None => {
                lemma_read_after(text, j + 1, before);
            },
        }
    }
}

/// A program that stands in other text is read there as it is read alone.
pub proof fn lemma_reads_inside(code: Seq<char>, i: int, text: Seq<char>, ops: Seq<Op>)
    requires
        occurs(code, i, text),
        reads(text, ops),
    ensures
        covers(code, i, i + text.len(), ops),
{
    lemma_reads_parse(text, ops);
    lemma_read_out(code, i, text, 0, Seq::empty());
}

/// Programs in a row are read as their operations in a row.
pub proof fn lemma_reads_concat(first: Seq<char>, second: Seq<char>, a: Seq<Op>, b: Seq<Op>)
    requires
        reads(first, a),
        reads(second, b),
    ensures
        reads(first + second, a + b),
{
    let code = first + second;
    assert(code.subrange(0, first.len() as int) =~= first);
    assert(code.subrange(first.len() as int, code.len() as int) =~= second);
    lemma_reads_inside(code, 0, first, a);
    lemma_reads_inside(code, first.len() as int, second, b);
    lemma_covers_join(code, 0, first.len() as int, code.len() as int, a, b);
}

/// A run of one command is a program of so many steps.
pub proof fn lemma_reads_repeat(c: char, n: nat)
    requires
        command(c) is Some,
    ensures
        reads(repeat(c, n), repeat_op(command(c)->Some_0, n)),
{
    let code = repeat(c, n);
    assert(code.subrange(0, n as int) =~= code);
    lemma_covers_repeat(code, 0, c, n);
}

} // verus!
