//! The interpreter: a machine that runs a program tree on a tape, one
//! instruction at a time.
//!
//! The machine holds no copy of the program. It keeps a stack of places in
//! it, one for each loop entered and not yet left, and so runs loops inside
//! loops without a nested call.

use crate::program::{nodes, Inst, Node};
use crate::semantics::Config;
use crate::tape::State;
use vstd::prelude::*;

verus! {

/// A place in a sequence of instructions: the instruction at `pc` is the
/// next one of `code` to be run.
struct Frame<'a> {
    code: &'a [Inst],
    pc: usize,
}

/// What is left to run of a frame.
spec fn rest_of(frame: Frame) -> Seq<Node> {
    nodes(frame.code@).skip(frame.pc as int)
}

/// What is left to run of a stack of frames, the topmost (last) first.
spec fn pending(frames: Seq<Frame>) -> Seq<Node>
    decreases frames.len(),
{
    if frames.len() == 0 {
        Seq::empty()
    } else {
        rest_of(frames.last()) + pending(frames.drop_last())
    }
}

/// A running program: its tape, and a stack of places in the program. The
/// topmost place is in the innermost loop entered; each place below it is
/// at the loop whose body is being run above it.
pub struct Machine<'a> {
    state: State,
    frames: Vec<Frame<'a>>,
}

impl<'a> View for Machine<'a> {
    type V = Config;

    closed spec fn view(&self) -> Config {
        Config { tape: self.state@, todo: pending(self.frames@) }
    }
}

impl<'a> Machine<'a> {
    /// The pointer is on an allocated cell, and every place on the stack
    /// has an instruction left.
    pub closed spec fn wf(&self) -> bool {
        &&& self.state@.wf()
        &&& forall|i: int|
            0 <= i < self.frames@.len() ==> (#[trigger] self.frames@[i]).pc
                < self.frames@[i].code@.len()
    }

    /// The pointer of a well-formed machine is on an allocated cell.
    pub proof fn lemma_tape_wf(&self)
        requires
            self.wf(),
        ensures
            self@.tape.wf(),
    {
    }

    /// A machine about to run `program` on a fresh tape.
    pub fn new(program: &'a [Inst]) -> (machine: Machine<'a>)
        ensures
            machine.wf(),
            machine@ == Config::start(nodes(program@)),
    {
        let mut frames: Vec<Frame<'a>> = Vec::new();
        if program.len() > 0 {
            frames.push(Frame { code: program, pc: 0 });
        }
        proof {
            if program.len() > 0 {
                assert(pending(frames@.drop_last()) =~= Seq::<Node>::empty());
            }
            assert(pending(frames@) =~= nodes(program@));
        }
        Machine { state: State::new(), frames }
    }

    /// The tape.
    pub fn state(&self) -> (state: &State)
        ensures
            state@ == self@.tape,
    {
        &self.state
    }

    /// Gives up the machine for its tape.
    pub fn into_state(self) -> (state: State)
        ensures
            state@ == self@.tape,
    {
        self.state
    }

    /// Whether the program has run to its end.
    pub fn is_halted(&self) -> (halted: bool)
        requires
            self.wf(),
        ensures
            halted == self@.halted(),
    {
        self.frames.len() == 0
    }

    /// Whether the tape after the next instruction can be held in memory.
    pub fn has_room(&self) -> (yes: bool)
        requires
            self.wf(),
        ensures
            yes == self@.has_room(),
    {
        let depth: usize = self.frames.len();
        if depth == 0 {
            return true;
        }
        let top = &self.frames[depth - 1];
        match &top.code[top.pc] {
            Inst::MoveRight => self.state.has_room(),
            _ => true,
        }
    }

    /// Moves past the instruction that the topmost place is at. A place
    /// with nothing left leaves the stack.
    fn advance(&mut self)
        requires
            old(self).wf(),
            old(self).frames@.len() > 0,
        ensures
            final(self).wf(),
            final(self).state == old(self).state,
            pending(final(self).frames@) == pending(old(self).frames@).drop_first(),
    {
        let ghost below = self.frames@.drop_last();
        let top = self.frames.pop().unwrap();
        let len: usize = top.code.len();
        if top.pc + 1 < len {
            let next = Frame { code: top.code, pc: top.pc + 1 };
            self.frames.push(next);
            assert(self.frames@.drop_last() =~= below);
        }
    }

    /// Runs the next instruction, and returns the byte it sends out if it
    /// is an output instruction. On a machine that has halted nothing
    /// happens.
    pub fn step(&mut self) -> (out: Option<u8>)
        requires
            old(self).wf(),
            old(self)@.has_room(),
        ensures
            final(self).wf(),
            final(self)@ == old(self)@.step(),
            out == old(self)@.emitted(),
    {
        let depth: usize = self.frames.len();
        if depth == 0 {
            return None;
        }
        let code: &'a [Inst] = self.frames[depth - 1].code;
        let pc: usize = self.frames[depth - 1].pc;
        let inst: &'a Inst = &code[pc];
        match inst {
            Inst::Increment => {
                self.state.increment();
                self.advance();
                None
            },
            Inst::Decrement => {
                self.state.decrement();
                self.advance();
                None
            },
            Inst::MoveRight => {
                self.state.move_right();
                self.advance();
                None
            },
            Inst::MoveLeft => {
                self.state.move_left();
                self.advance();
                None
            },
            Inst::Output => {
                let byte: u8 = self.state.current();
                self.advance();
                Some(byte)
            },
            Inst::Loop(body) => {
                if self.state.current() == 0 {
                    self.advance();
                } else if body.len() > 0 {
                    let ghost below = self.frames@;
                    let entered = Frame { code: body.as_slice(), pc: 0 };
                    self.frames.push(entered);
                    proof {
                        assert(self.frames@.drop_last() =~= below);
                        assert(rest_of(entered) =~= nodes(body@));
                    }
                } else {
                    assert(nodes(body@) + self@.todo =~= self@.todo);
                }
                None
            },
        }
    }
}

/// Why a run came to an end.
#[derive(Clone, Copy, Debug, PartialEq, Eq, Structural)]
pub enum Status {
    /// The program ran to its end.
    Halted,
    /// The run used up the steps it was given.
    StepLimit,
    /// The next instruction needs a tape longer than memory can hold.
    TapeLimit,
}

/// What a run leaves behind.
#[derive(Debug)]
pub struct Outcome {
    /// Why the run came to an end.
    pub status: Status,
    /// The bytes sent out, in order.
    pub output: Vec<u8>,
    /// The tape as the run left it.
    pub state: State,
    /// The number of instructions run.
    pub steps: u64,
}

/// Runs `program` on a fresh tape for at most `fuel` instructions, and
/// returns the bytes it sent out and the tape it left. The run ends before
/// `fuel` is used up only when the program has run to its end, or when the
/// next instruction would need a tape longer than memory can hold.
pub fn run(program: &[Inst], fuel: u64) -> (r: Outcome)
    ensures
        r.steps <= fuel,
        forall|k: nat|
            k < r.steps ==> !(#[trigger] Config::start(nodes(program@)).steps(k)).halted()
                && Config::start(nodes(program@)).steps(k).has_room(),
        r.state@ == Config::start(nodes(program@)).steps(r.steps as nat).tape,
        r.output@ == Config::start(nodes(program@)).trace(r.steps as nat),
        r.status == ({
            let end = Config::start(nodes(program@)).steps(r.steps as nat);
            if end.halted() {
                Status::Halted
            } else if !end.has_room() {
                Status::TapeLimit
            } else {
                Status::StepLimit
            }
        }),
        r.status == Status::StepLimit ==> r.steps == fuel,
{
    let mut machine = Machine::new(program);
    let mut output: Vec<u8> = Vec::new();
    let mut steps: u64 = 0;
    let ghost start = machine@;
    while steps < fuel && !machine.is_halted() && machine.has_room()
        invariant
            machine.wf(),
            start == Config::start(nodes(program@)),
            machine@ == start.steps(steps as nat),
            output@ == start.trace(steps as nat),
            steps <= fuel,
            forall|k: nat|
                k < steps ==> !(#[trigger] start.steps(k)).halted() && start.steps(k).has_room(),
        decreases fuel - steps,
    {
        match machine.step() {
            Some(byte) => {
                output.push(byte);
            },
            None => {},
        }
        steps = steps + 1;
    }
    let status = if machine.is_halted() {
        Status::Halted
    } else if !machine.has_room() {
        Status::TapeLimit
    } else {
        Status::StepLimit
    };
    Outcome { status, output, state: machine.into_state(), steps }
}

} // verus!
