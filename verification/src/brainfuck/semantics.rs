//! What a Brainfuck program does: a function from states to states.
//!
//! The tape has no ends here and the cells wrap at 256. A program that does
//! not end has no state after it. `limit` bounds how often each loop may run
//! in turn: with too small a limit a run has no result, and with a larger
//! one it has the same.

use vstd::prelude::*;
use crate::brainfuck::tree::Op;

verus! {

/// The state of a run: the cells of the tape, the cell of the head, the
/// bytes that are still to read and the bytes written so far.
#[verifier::ext_equal]
pub struct State {
    pub cells: spec_fn(int) -> u8,
    pub head: int,
    pub input: Seq<u8>,
    pub output: Seq<u8>,
}

/// `n` as the value of a cell.
pub open spec fn wrap(n: int) -> u8 {
    (n % 256) as u8
}

impl State {
    /// The value of the cell `at`.
    pub open spec fn at(self, at: int) -> u8 {
        (self.cells)(at)
    }

    /// The value under the head.
    pub open spec fn cell(self) -> u8 {
        self.at(self.head)
    }

    /// The state with `value` in the cell `at`.
    pub open spec fn set(self, at: int, value: u8) -> State {
        State {
            cells: |i: int|
                if i == at {
                    value
                } else {
                    self.at(i)
                },
            ..self
        }
    }

    /// The state with `value` under the head.
    pub open spec fn write(self, value: u8) -> State {
        self.set(self.head, value)
    }

    /// The state with the head `n` cells further to the right.
    pub open spec fn moved(self, n: int) -> State {
        State { head: self.head + n, ..self }
    }

    /// The state with `n` added to the cell under the head.
    pub open spec fn added(self, n: int) -> State {
        self.write(wrap(self.cell() + n))
    }

    /// The state after the cell under the head has been written out.
    pub open spec fn put(self) -> State {
        State { output: self.output.push(self.cell()), ..self }
    }

    /// The state after a byte has been read into the cell under the head:
    /// the next byte of the input, or 255 at its end.
    pub open spec fn get(self) -> State {
        if self.input.len() > 0 {
            State { input: self.input.drop_first(), ..self.write(self.input[0]) }
        } else {
            self.write(255)
        }
    }
}

/// The state after the operations `ops`, or `None` where a loop runs more
/// than `limit` times.
pub open spec fn run(ops: Seq<Op>, state: State, limit: nat) -> Option<State>
    decreases limit, 2int, ops.len(),
{
    if ops.len() == 0 {
        Some(state)
    } else {
        match run(ops.drop_last(), state, limit) {
            None => None,
            Some(before) => run_op(ops.last(), before, limit),
        }
    }
}

/// The state after the operation `op`.
pub open spec fn run_op(op: Op, state: State, limit: nat) -> Option<State>
    decreases limit, 1int, 0nat,
{
    match op {
        Op::Move(n) => Some(state.moved(n)),
        Op::Add(n) => Some(state.added(n)),
        Op::PutChar => Some(state.put()),
        Op::GetChar => Some(state.get()),
        Op::Loop(body) => run_loop(body, state, limit),
    }
}

/// The state after the loop with the body `body`: the body runs while the
/// cell under the head is not zero.
pub open spec fn run_loop(body: Seq<Op>, state: State, limit: nat) -> Option<State>
    decreases limit, 0int, 0nat,
{
    if state.cell() == 0 {
        Some(state)
    } else if limit == 0 {
        None
    } else {
        match run(body, state, (limit - 1) as nat) {
            None => None,
            Some(after) => run_loop(body, after, (limit - 1) as nat),
        }
    }
}

/// Whether `first` and `second` do the same: from every state and with every
/// limit they lead to the same state, or both to none.
pub open spec fn same(first: Seq<Op>, second: Seq<Op>) -> bool {
    forall|state: State, limit: nat| #[trigger] run(first, state, limit) == run(second, state, limit)
}

/// One more operation at the end runs after the others.
pub proof fn lemma_run_push(ops: Seq<Op>, op: Op, state: State, limit: nat)
    ensures
        run(ops.push(op), state, limit) == match run(ops, state, limit) {
            None => None,
            Some(before) => run_op(op, before, limit),
        },
{
    assert(ops.push(op).drop_last() =~= ops);
}

/// Operations in a row run one after the other.
pub proof fn lemma_run_concat(first: Seq<Op>, second: Seq<Op>, state: State, limit: nat)
    ensures
        run(first + second, state, limit) == match run(first, state, limit) {
            None => None,
            Some(between) => run(second, between, limit),
        },
    decreases second.len(),
{
    if second.len() == 0 {
        assert(first + second =~= first);
    } else {
        lemma_run_concat(first, second.drop_last(), state, limit);
        assert((first + second).drop_last() =~= first + second.drop_last());
    }
}

/// A loop ends only with zero under the head.
pub proof fn lemma_loop_ends_at_zero(body: Seq<Op>, state: State, limit: nat)
    requires
        run_loop(body, state, limit) is Some,
    ensures
        run_loop(body, state, limit)->Some_0.cell() == 0,
    decreases limit,
{
    if state.cell() != 0 {
        lemma_loop_ends_at_zero(body, run(body, state, (limit - 1) as nat)->Some_0, (limit - 1) as nat);
    }
}

/// Loops whose bodies do the same do the same.
pub proof fn lemma_loops_same(first: Seq<Op>, second: Seq<Op>, state: State, limit: nat)
    requires
        same(first, second),
    ensures
        run_loop(first, state, limit) == run_loop(second, state, limit),
    decreases limit,
{
    if state.cell() != 0 && limit > 0 {
        let less = (limit - 1) as nat;
        assert(run(first, state, less) == run(second, state, less));
        if run(first, state, less) is Some {
            lemma_loops_same(first, second, run(first, state, less)->Some_0, less);
        }
    }
}

/// With a larger limit a run has the same result.
pub proof fn lemma_run_more(ops: Seq<Op>, state: State, limit: nat, more: nat)
    requires
        run(ops, state, limit) is Some,
        limit <= more,
    ensures
        run(ops, state, more) == run(ops, state, limit),
    decreases limit, 2int, ops.len(),
{
    if ops.len() > 0 {
        assert(run(ops.drop_last(), state, limit) is Some);
        lemma_run_more(ops.drop_last(), state, limit, more);
        let before = run(ops.drop_last(), state, limit)->Some_0;
        assert(run(ops, state, limit) == run_op(ops.last(), before, limit));
        assert(run(ops, state, more) == run_op(ops.last(), before, more));
        match ops.last() {
            Op::Loop(body) => {
                assert(run_op(ops.last(), before, limit) == run_loop(body, before, limit));
                assert(run_op(ops.last(), before, more) == run_loop(body, before, more));
                lemma_loop_more(body, before, limit, more);
            },
            _ => {},
        }
    }
}

/// With a larger limit a loop has the same result.
pub proof fn lemma_loop_more(body: Seq<Op>, state: State, limit: nat, more: nat)
    requires
        run_loop(body, state, limit) is Some,
        limit <= more,
    ensures
        run_loop(body, state, more) == run_loop(body, state, limit),
    decreases limit, 0int, 0nat,
{
    if state.cell() != 0 {
        assert(limit > 0);
        let less = (limit - 1) as nat;
        let fewer = (more - 1) as nat;
        assert(run(body, state, less) is Some);
        let after = run(body, state, less)->Some_0;
        assert(run_loop(body, state, limit) == run_loop(body, after, less));
        lemma_run_more(body, state, less, fewer);
        lemma_loop_more(body, after, less, fewer);
        assert(run_loop(body, state, more) == run_loop(body, after, fewer));
    }
}

} // verus!
