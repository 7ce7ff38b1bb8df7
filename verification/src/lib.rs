//! An interpreter for a small tape language. A program is a string of the
//! symbols `+ - > < . [ ]`; it works on a tape of byte cells that grows to
//! the right, through a single data pointer.
//!
//! [`parse`] turns bytes into a program tree, [`Machine`] runs a tree one
//! instruction at a time, and [`run`] runs it for a bounded number of
//! instructions.

pub mod brackets;
pub mod laws;
pub mod machine;
pub mod parser;
pub mod program;
pub mod semantics;
pub mod tape;
pub mod token;

pub use machine::{run, Machine, Outcome, Status};
pub use parser::{parse, ParseError};
pub use program::{Inst, Program};
pub use tape::State;
pub use token::{Commands, Op};

use vstd::prelude::*;

verus! {

/// How to call the interpreter, and the symbols that it knows.
pub const USAGE: &'static str =
    "usage: <program> <path>\n\nRuns the program in the file at <path>. Its instructions are the symbols\n\n  +  add one to the cell under the pointer (255 becomes 0)\n  -  take one from the cell under the pointer (0 becomes 255)\n  >  move the pointer one cell to the right\n  <  move the pointer one cell to the left (not past the first cell)\n  .  write the cell under the pointer to standard output\n  [  start of a loop, passed over if the cell under the pointer is 0\n  ]  end of a loop, which is run again unless the cell under the pointer is 0\n\nEvery other byte is a comment.\n";

/// The text to show when the interpreter is called without a path.
pub fn usage() -> (text: &'static str)
    ensures
        text@ == USAGE@,
{
    USAGE
}

} // verus!
