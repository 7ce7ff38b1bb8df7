//! The byte tape and its data pointer.

use vstd::prelude::*;

verus! {

/// The number of cells of a fresh tape.
pub const INITIAL_CELLS: usize = 1024;

/// The mathematical tape: the cells allocated so far and the position of
/// the data pointer among them. The tape has a first cell and no last one:
/// it grows when the pointer is about to leave it on the right.
pub struct Tape {
    pub cells: Seq<u8>,
    pub ptr: nat,
}

impl Tape {
    /// A tape of `len` zero cells with the pointer on the first one.
    pub open spec fn zeroed(len: nat) -> Tape {
        Tape { cells: Seq::new(len, |i: int| 0u8), ptr: 0 }
    }

    /// The pointer names an allocated cell.
    pub open spec fn wf(self) -> bool {
        self.ptr < self.cells.len()
    }

    /// The tape has no cell yet, and the pointer is at its start.
    pub open spec fn is_empty(self) -> bool {
        self.cells.len() == 0 && self.ptr == 0
    }

    /// The cell under the pointer.
    pub open spec fn current(self) -> u8 {
        self.cells[self.ptr as int]
    }

    /// The tape with `value` in the cell under the pointer.
    pub open spec fn store(self, value: u8) -> Tape {
        Tape { cells: self.cells.update(self.ptr as int, value), ptr: self.ptr }
    }

    /// The cell under the pointer goes up by one, and from 255 to 0.
    pub open spec fn increment(self) -> Tape {
        self.store(((self.current() + 1) % 256) as u8)
    }

    /// The cell under the pointer goes down by one, and from 0 to 255.
    pub open spec fn decrement(self) -> Tape {
        self.store(((self.current() + 255) % 256) as u8)
    }

    /// The length of the tape after a move to the right: twice the length
    /// if the pointer would leave the allocated cells, 2 if there are no
    /// cells at all, and the same length otherwise.
    pub open spec fn grown_len(self) -> nat {
        if self.ptr + 1 < self.cells.len() {
            self.cells.len()
        } else if self.cells.len() == 0 {
            2
        } else {
            2 * self.cells.len()
        }
    }

    /// The pointer moves one cell to the right; cells that the tape gains
    /// hold zero.
    pub open spec fn move_right(self) -> Tape {
        Tape {
            cells: self.cells + Seq::new((self.grown_len() - self.cells.len()) as nat, |i: int| 0u8),
            ptr: self.ptr + 1,
        }
    }

    /// The pointer moves one cell to the left, unless it is on the first
    /// cell, where it stays.
    pub open spec fn move_left(self) -> Tape {
        if self.ptr > 0 {
            Tape { cells: self.cells, ptr: (self.ptr - 1) as nat }
        } else {
            self
        }
    }

    /// The tape after a move to the right can be held in memory.
    pub open spec fn has_room(self) -> bool {
        self.ptr + 1 <= usize::MAX && self.grown_len() <= usize::MAX
    }

    /// The tape after `n` increments in a row.
    pub open spec fn increments(self, n: nat) -> Tape
        decreases n,
    {
        if n == 0 {
            self
        } else {
            self.increments((n - 1) as nat).increment()
        }
    }

    /// The tape after `n` moves to the right in a row.
    pub open spec fn moves_right(self, n: nat) -> Tape
        decreases n,
    {
        if n == 0 {
            self
        } else {
            self.moves_right((n - 1) as nat).move_right()
        }
    }

    /// The tape after `n` moves to the left in a row.
    pub open spec fn moves_left(self, n: nat) -> Tape
        decreases n,
    {
        if n == 0 {
            self
        } else {
            self.moves_left((n - 1) as nat).move_left()
        }
    }
}

/// A move to the right leaves the pointer on an allocated cell, whether it
/// was on one before or the tape was empty.
pub proof fn lemma_move_right_wf(tape: Tape)
    requires
        tape.wf() || tape.is_empty(),
    ensures
        tape.move_right().wf(),
{
}

/// The tape of a running program.
#[derive(Debug, PartialEq, Eq)]
pub struct State {
    cells: Vec<u8>,
    ptr: usize,
}

impl View for State {
    type V = Tape;

    closed spec fn view(&self) -> Tape {
        Tape { cells: self.cells@, ptr: self.ptr as nat }
    }
}

impl Clone for State {
    /// A copy of the tape, with the pointer where it is.
    fn clone(&self) -> (copy: State)
        ensures
            copy@ == self@,
    {
        State { cells: self.cells.clone(), ptr: self.ptr }
    }
}

impl State {
    /// A fresh tape: 1024 zero cells, the pointer on the first.
    pub fn new() -> (state: State)
        ensures
            state@ == Tape::zeroed(INITIAL_CELLS as nat),
            state@.wf(),
    {
        State::with_len(INITIAL_CELLS)
    }

    /// A tape of `len` zero cells, the pointer at the start. With `len`
    /// zero the tape is empty, and the first move to the right allocates
    /// its first cells.
    pub fn with_len(len: usize) -> (state: State)
        ensures
            state@ == Tape::zeroed(len as nat),
            state@.wf() || state@.is_empty(),
    {
        let mut cells: Vec<u8> = Vec::new();
        cells.resize(len, 0u8);
        assert(cells@ =~= Tape::zeroed(len as nat).cells);
        State { cells, ptr: 0 }
    }

    /// The number of cells allocated.
    pub fn len(&self) -> (len: usize)
        ensures
            len == self@.cells.len(),
    {
        self.cells.len()
    }

    /// The position of the pointer.
    pub fn pointer(&self) -> (ptr: usize)
        ensures
            ptr == self@.ptr,
    {
        self.ptr
    }

    /// The cells allocated, from the first on.
    pub fn cells(&self) -> (cells: &[u8])
        ensures
            cells@ == self@.cells,
    {
        self.cells.as_slice()
    }

    /// The cell at `index`.
    pub fn cell(&self, index: usize) -> (value: u8)
        requires
            index < self@.cells.len(),
        ensures
            value == self@.cells[index as int],
    {
        self.cells[index]
    }

    /// The cell under the pointer.
    pub fn current(&self) -> (value: u8)
        requires
            self@.wf(),
        ensures
            value == self@.current(),
    {
        self.cells[self.ptr]
    }

    /// Adds one to the cell under the pointer, wrapping from 255 to 0.
    pub fn increment(&mut self)
        requires
            old(self)@.wf(),
        ensures
            final(self)@ == old(self)@.increment(),
            final(self)@.wf(),
    {
        let value: u8 = self.cells[self.ptr];
        let next: u8 = if value == 255 {
            0
        } else {
            value + 1
        };
        self.cells.set(self.ptr, next);
    }

    /// Takes one from the cell under the pointer, wrapping from 0 to 255.
    pub fn decrement(&mut self)
        requires
            old(self)@.wf(),
        ensures
            final(self)@ == old(self)@.decrement(),
            final(self)@.wf(),
    {
        let value: u8 = self.cells[self.ptr];
        let next: u8 = if value == 0 {
            255
        } else {
            value - 1
        };
        self.cells.set(self.ptr, next);
    }

    /// Whether the tape after a move to the right can be held in memory.
    pub fn has_room(&self) -> (yes: bool)
        ensures
            yes == self@.has_room(),
    {
        let len: usize = self.cells.len();
        self.ptr < usize::MAX && (self.ptr + 1 < len || len <= usize::MAX / 2)
    }

    /// Moves the pointer one cell to the right. Where it would leave the
    /// allocated cells, the tape first doubles in length (an empty tape
    /// gets two cells); the new cells hold zero.
    pub fn move_right(&mut self)
        requires
            old(self)@.has_room(),
        ensures
            final(self)@ == old(self)@.move_right(),
            old(self)@.wf() || old(self)@.is_empty() ==> final(self)@.wf(),
    {
        self.ptr = self.ptr + 1;
        let len: usize = self.cells.len();
        if self.ptr >= len {
            let grown: usize = if len == 0 {
                2
            } else {
                2 * len
            };
            self.cells.resize(grown, 0u8);
        }
        assert(self@.cells =~= old(self)@.move_right().cells);
    }

    /// Moves the pointer one cell to the left; on the first cell it stays
    /// where it is.
    pub fn move_left(&mut self)
        ensures
            final(self)@ == old(self)@.move_left(),
            old(self)@.wf() ==> final(self)@.wf(),
    {
        if self.ptr > 0 {
            self.ptr = self.ptr - 1;
        }
    }
}

} // verus!
