//! Laws of the language, stated over the mathematical tape, the symbols of
//! a byte string and the steps of the machine.

use crate::parser::parse_bytes;
use crate::program::Node;
use crate::semantics::{
    lemma_halted_stays, lemma_steps_add, lemma_steps_in_front, lemma_steps_wf, lemma_trace_add,
    Config,
};
use crate::tape::{lemma_move_right_wf, Tape};
use crate::token::{lemma_tokens_push, symbols_only, tokens, Op};
use vstd::prelude::*;

verus! {

/// Comments are transparent: a byte string and the same string without
/// the bytes that spell no symbol have the same symbols, and so parse to
/// the same program or fail with the same error.
pub proof fn lemma_comments_are_transparent(input: Seq<u8>)
    ensures
        tokens(symbols_only(input)) == tokens(input),
        parse_bytes(symbols_only(input)) == parse_bytes(input),
    decreases input.len(),
{
    reveal(Seq::filter);
    if input.len() > 0 {
        let front = input.drop_last();
        lemma_comments_are_transparent(front);
        lemma_tokens_push(front, input.last());
        if Op::of_byte(input.last()) is Some {
            lemma_tokens_push(symbols_only(front), input.last());
        }
    }
}

/// The tape after `n` increments: the cell under the pointer has gone up
/// by `n`, counted modulo 256.
pub proof fn lemma_increments(tape: Tape, n: nat)
    requires
        tape.wf(),
    ensures
        tape.increments(n) == tape.store(((tape.current() + n) % 256) as u8),
    decreases n,
{
    if n == 0 {
        assert(tape.cells.update(tape.ptr as int, tape.current()) =~= tape.cells);
    } else {
        lemma_increments(tape, (n - 1) as nat);
        let before = tape.store(((tape.current() + (n - 1)) % 256) as u8);
        assert(before.increment().cells =~= tape.store(
            ((tape.current() + n) % 256) as u8,
        ).cells);
    }
}

/// Increments wrap around: after 256 of them in a row the cell under the
/// pointer holds what it held before, whatever that was, and so does the
/// rest of the tape.
pub proof fn lemma_increment_wraps_around(tape: Tape)
    requires
        tape.wf(),
    ensures
        tape.increments(256) == tape,
{
    lemma_increments(tape, 256);
    assert(tape.cells.update(tape.ptr as int, tape.current()) =~= tape.cells);
}

/// On the first cell a move to the left does nothing, and so do any
/// number of them: the pointer stays on the first cell.
pub proof fn lemma_move_left_at_start(tape: Tape, n: nat)
    requires
        tape.ptr == 0,
    ensures
        tape.moves_left(n) == tape,
    decreases n,
{
    if n > 0 {
        lemma_move_left_at_start(tape, (n - 1) as nat);
    }
}

/// Moves to the right from an empty tape never leave the tape: after `n`
/// of them, one at least, the pointer is on cell `n`, and the tape is
/// longer than that.
pub proof fn lemma_moves_right_from_empty(n: nat)
    requires
        n >= 1,
    ensures
        Tape::zeroed(0).moves_right(n).ptr == n,
        Tape::zeroed(0).moves_right(n).cells.len() > n,
    decreases n,
{
    let empty = Tape::zeroed(0);
    if n > 1 {
        lemma_moves_right_from_empty((n - 1) as nat);
    }
    lemma_move_right_wf(empty.moves_right((n - 1) as nat));
}

/// A loop met on a zero cell is passed over: the next instruction takes the
/// machine behind the loop and leaves the tape as it is.
pub proof fn lemma_loop_on_zero(body: Seq<Node>, waiting: Seq<Node>, tape: Tape)
    requires
        tape.current() == 0,
    ensures
        (Config { tape, todo: seq![Node::Loop(body)] + waiting }).step() == (Config {
            tape,
            todo: waiting,
        }),
        (Config { tape, todo: seq![Node::Loop(body)] + waiting }).emitted() is None,
{
    let behind = seq![Node::Loop(body)] + waiting;
    assert(behind.drop_first() =~= waiting);
}

/// A loop met on a nonzero cell runs its body to the end, nested loops
/// included, and is then met again: if the body by itself halts with its
/// `n`th instruction, then after `n + 1` instructions the machine is back
/// at the loop, on the tape that the body left, and has sent out what the
/// body sent out.
pub proof fn lemma_loop_on_nonzero(body: Seq<Node>, waiting: Seq<Node>, tape: Tape, n: nat)
    requires
        tape.current() != 0,
        (Config { tape, todo: body }).halts_at(n),
    ensures
        (Config { tape, todo: seq![Node::Loop(body)] + waiting }).steps(n + 1) == (Config {
            tape: (Config { tape, todo: body }).steps(n).tape,
            todo: seq![Node::Loop(body)] + waiting,
        }),
        (Config { tape, todo: seq![Node::Loop(body)] + waiting }).trace(n + 1) == (Config {
            tape,
            todo: body,
        }).trace(n),
{
    let behind = seq![Node::Loop(body)] + waiting;
    let at_loop = Config { tape, todo: behind };
    let inside = Config { tape, todo: body };
    // The first instruction enters the loop and sends nothing out; the
    // next `n` are those of the body, with the loop waiting behind them.
    assert(at_loop.steps(1) == inside.followed_by(behind)) by {
        assert(at_loop.steps(1) == at_loop.steps(0).step());
    }
    assert(at_loop.trace(1) =~= Seq::<u8>::empty()) by {
        assert(at_loop.trace(0) =~= Seq::<u8>::empty());
    }
    lemma_steps_add(at_loop, 1, n);
    lemma_trace_add(at_loop, 1, n);
    lemma_steps_in_front(inside, behind, n);
}

/// Whenever `body` is run to its end from a tape whose current cell is not
/// zero, the cell that is current at the end is not zero either.
pub open spec fn ends_on_nonzero(body: Seq<Node>) -> bool {
    forall|tape: Tape, n: nat|
        tape.wf() && tape.current() != 0 && (#[trigger] (Config { tape, todo: body }).steps(
            n,
        )).halted() ==> (Config { tape, todo: body }).steps(n).tape.current() != 0
}

/// A machine that has halted after `n` instructions halted with one of
/// them, or was halted from the start.
proof fn lemma_first_halt(c: Config, n: nat) -> (first: nat)
    requires
        c.steps(n).halted(),
    ensures
        first <= n,
        c.halts_at(first),
    decreases n,
{
    if n > 0 && c.steps((n - 1) as nat).halted() {
        lemma_first_halt(c, (n - 1) as nat)
    } else {
        assert forall|k: nat| k < n implies !(#[trigger] c.steps(k)).halted() by {
            if c.steps(k).halted() {
                lemma_halted_stays(c, k, (n - 1) as nat);
            }
        }
        n
    }
}

/// A loop entered on a nonzero cell never ends if its body, run to its end
/// from a nonzero cell, always ends on a nonzero cell: however many
/// instructions are run, the machine has not halted, and what waits behind
/// the loop has not had its turn.
pub proof fn lemma_loop_never_ends(body: Seq<Node>, waiting: Seq<Node>, tape: Tape, n: nat)
    requires
        tape.wf(),
        tape.current() != 0,
        ends_on_nonzero(body),
    ensures
        !(Config { tape, todo: seq![Node::Loop(body)] + waiting }).steps(n).halted(),
        (Config { tape, todo: seq![Node::Loop(body)] + waiting }).steps(n).todo.len()
            > waiting.len(),
    decreases n,
{
    let behind = seq![Node::Loop(body)] + waiting;
    let at_loop = Config { tape, todo: behind };
    if n > 0 {
        let m = (n - 1) as nat;
        let inside = Config { tape, todo: body };
        if m > 0 && inside.steps((m - 1) as nat).halted() {
            // The body has been run to its end: the loop is met again, on
            // a nonzero cell, with fewer instructions left to run.
            let k = lemma_first_halt(inside, (m - 1) as nat);
            lemma_loop_on_nonzero(body, waiting, tape, k);
            lemma_steps_wf(inside, k);
            lemma_steps_add(at_loop, k + 1, (m - k) as nat);
            lemma_loop_never_ends(body, waiting, inside.steps(k).tape, (m - k) as nat);
        } else {
            // The body is still being run.
            assert(at_loop.steps(1) == inside.followed_by(behind)) by {
                assert(at_loop.steps(1) == at_loop.steps(0).step());
            }
            lemma_steps_add(at_loop, 1, m);
            assert forall|k: nat| k < m implies !(#[trigger] inside.steps(k)).halted() by {
                if inside.steps(k).halted() {
                    lemma_halted_stays(inside, k, (m - 1) as nat);
                }
            }
            lemma_steps_in_front(inside, behind, m);
        }
    }
}

} // verus!
