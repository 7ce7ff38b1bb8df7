//! What running a program means: the state of a run as a mathematical
//! value, and the step that takes one state to the next.
//!
//! The instructions still to be run are kept in a list. A loop met on a
//! nonzero cell puts its body in front of itself, so that it is met again
//! once the body is done.

use crate::program::Node;
use crate::tape::{Tape, INITIAL_CELLS};
use vstd::prelude::*;

verus! {

/// The mathematical state of a run: the tape, and the instructions still
/// to be run, the next one first.
pub struct Config {
    pub tape: Tape,
    pub todo: Seq<Node>,
}

impl Config {
    /// The state in which a run of `program` begins: a fresh tape, and the
    /// whole program still to be run.
    pub open spec fn start(program: Seq<Node>) -> Config {
        Config { tape: Tape::zeroed(INITIAL_CELLS as nat), todo: program }
    }

    /// Nothing is left to run.
    pub open spec fn halted(self) -> bool {
        self.todo.len() == 0
    }

    /// The state after the next instruction. A simple instruction acts on
    /// the tape and leaves the list. A loop leaves the list if the cell
    /// under the pointer is zero; otherwise its body is put in front of
    /// it. A halted machine stays as it is.
    pub open spec fn step(self) -> Config {
        if self.halted() {
            self
        } else {
            let rest = self.todo.drop_first();
            match self.todo[0] {
                Node::Increment => Config { tape: self.tape.increment(), todo: rest },
                Node::Decrement => Config { tape: self.tape.decrement(), todo: rest },
                Node::MoveRight => Config { tape: self.tape.move_right(), todo: rest },
                Node::MoveLeft => Config { tape: self.tape.move_left(), todo: rest },
                Node::Output => Config { tape: self.tape, todo: rest },
                Node::Loop(body) => if self.tape.current() == 0 {
                    Config { tape: self.tape, todo: rest }
                } else {
                    Config { tape: self.tape, todo: body + self.todo }
                },
            }
        }
    }

    /// The byte that the next instruction sends out, if it sends one.
    pub open spec fn emitted(self) -> Option<u8> {
        if !self.halted() && self.todo[0] is Output {
            Some(self.tape.current())
        } else {
            None
        }
    }

    /// The tape after the next instruction can be held in memory.
    pub open spec fn has_room(self) -> bool {
        !self.halted() && self.todo[0] is MoveRight ==> self.tape.has_room()
    }

    /// The same state with `waiting` behind the instructions still to be
    /// run.
    pub open spec fn followed_by(self, waiting: Seq<Node>) -> Config {
        Config { tape: self.tape, todo: self.todo + waiting }
    }

    /// The state after `n` instructions.
    pub open spec fn steps(self, n: nat) -> Config
        decreases n,
    {
        if n == 0 {
            self
        } else {
            self.steps((n - 1) as nat).step()
        }
    }

    /// The machine halts with its `n`th instruction and not before.
    pub open spec fn halts_at(self, n: nat) -> bool {
        self.steps(n).halted() && forall|k: nat| k < n ==> !(#[trigger] self.steps(k)).halted()
    }

    /// The bytes sent out by the first `n` instructions, in order.
    pub open spec fn trace(self, n: nat) -> Seq<u8>
        decreases n,
    {
        if n == 0 {
            Seq::empty()
        } else {
            let before = self.steps((n - 1) as nat);
            match before.emitted() {
                Some(byte) => self.trace((n - 1) as nat).push(byte),
                None => self.trace((n - 1) as nat),
            }
        }
    }
}

/// An instruction leaves the pointer on an allocated cell.
pub proof fn lemma_step_wf(c: Config)
    requires
        c.tape.wf(),
    ensures
        c.step().tape.wf(),
{
}

/// Any number of instructions leave the pointer on an allocated cell.
pub proof fn lemma_steps_wf(c: Config, n: nat)
    requires
        c.tape.wf(),
    ensures
        c.steps(n).tape.wf(),
    decreases n,
{
    if n > 0 {
        lemma_steps_wf(c, (n - 1) as nat);
        lemma_step_wf(c.steps((n - 1) as nat));
    }
}

/// Running `m` instructions and then `n` more is running `m + n`.
pub proof fn lemma_steps_add(c: Config, m: nat, n: nat)
    ensures
        c.steps(m + n) == c.steps(m).steps(n),
    decreases n,
{
    if n > 0 {
        lemma_steps_add(c, m, (n - 1) as nat);
    }
}

/// The bytes sent out by `m + n` instructions are those of the first `m`
/// followed by those of the next `n`.
pub proof fn lemma_trace_add(c: Config, m: nat, n: nat)
    ensures
        c.trace(m + n) == c.trace(m) + c.steps(m).trace(n),
    decreases n,
{
    if n > 0 {
        let before = (n - 1) as nat;
        lemma_trace_add(c, m, before);
        lemma_steps_add(c, m, before);
    }
}

/// A machine that has halted stays as it is.
pub proof fn lemma_halted_stays(c: Config, m: nat, n: nat)
    requires
        c.steps(m).halted(),
        m <= n,
    ensures
        c.steps(n) == c.steps(m),
    decreases n,
{
    if m < n {
        lemma_halted_stays(c, m, (n - 1) as nat);
    }
}

/// Instructions waiting behind the ones being run change nothing until
/// their turn comes: as long as the machine has not halted without them,
/// it runs with them as without them, and they wait untouched.
pub proof fn lemma_steps_in_front(c: Config, waiting: Seq<Node>, n: nat)
    requires
        forall|k: nat| k < n ==> !(#[trigger] c.steps(k)).halted(),
    ensures
        c.followed_by(waiting).steps(n) == c.steps(n).followed_by(waiting),
        c.followed_by(waiting).trace(n) == c.trace(n),
    decreases n,
{
    if n > 0 {
        let m = (n - 1) as nat;
        lemma_steps_in_front(c, waiting, m);
        let alone = c.steps(m);
        let with_waiting = alone.followed_by(waiting);
        assert(with_waiting.todo.drop_first() =~= alone.todo.drop_first() + waiting);
        match alone.todo[0] {
            Node::Loop(body) => {
                assert(body + with_waiting.todo =~= (body + alone.todo) + waiting);
            },
            _ => {},
        }
    }
}

} // verus!
