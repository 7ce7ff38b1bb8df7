//! Tokens: the seven instruction symbols, and the lexer that finds them
//! among arbitrary bytes.

use vstd::prelude::*;

verus! {

/// The byte `+`.
pub const PLUS: u8 = 0x2b;

/// The byte `-`.
pub const MINUS: u8 = 0x2d;

/// The byte `>`.
pub const GREATER: u8 = 0x3e;

/// The byte `<`.
pub const LESS: u8 = 0x3c;

/// The byte `.`.
pub const DOT: u8 = 0x2e;

/// The byte `[`.
pub const OPEN: u8 = 0x5b;

/// The byte `]`.
pub const CLOSE: u8 = 0x5d;

/// An instruction symbol.
#[derive(Clone, Copy, Debug, PartialEq, Eq, Structural)]
pub enum Op {
    /// `+`
    Inc,
    /// `-`
    Dec,
    /// `>`
    Next,
    /// `<`
    Prev,
    /// `.`
    Out,
    /// `[`
    JmpFwd,
    /// `]`
    JmpBck,
}

impl Op {
    /// The symbol that a byte spells, if it spells one.
    pub open spec fn of_byte(byte: u8) -> Option<Op> {
        if byte == PLUS {
            Some(Op::Inc)
        } else if byte == MINUS {
            Some(Op::Dec)
        } else if byte == GREATER {
            Some(Op::Next)
        } else if byte == LESS {
            Some(Op::Prev)
        } else if byte == DOT {
            Some(Op::Out)
        } else if byte == OPEN {
            Some(Op::JmpFwd)
        } else if byte == CLOSE {
            Some(Op::JmpBck)
        } else {
            None
        }
    }

    /// Reads one byte as a symbol; any other byte is a comment.
    pub fn from_byte(byte: u8) -> (r: Option<Op>)
        ensures
            r == Op::of_byte(byte),
    {
        if byte == PLUS {
            Some(Op::Inc)
        } else if byte == MINUS {
            Some(Op::Dec)
        } else if byte == GREATER {
            Some(Op::Next)
        } else if byte == LESS {
            Some(Op::Prev)
        } else if byte == DOT {
            Some(Op::Out)
        } else if byte == OPEN {
            Some(Op::JmpFwd)
        } else if byte == CLOSE {
            Some(Op::JmpBck)
        } else {
            None
        }
    }
}

/// The symbols among `bytes`, in order; every other byte is passed over.
pub open spec fn tokens(bytes: Seq<u8>) -> Seq<Op> {
    bytes.filter_map(|byte: u8| Op::of_byte(byte))
}

/// The bytes of `bytes` that spell a symbol, in order: the input without
/// its comments.
pub open spec fn symbols_only(bytes: Seq<u8>) -> Seq<u8> {
    bytes.filter(|byte: u8| Op::of_byte(byte) is Some)
}

/// The symbols of a byte string with one more byte at its end.
pub proof fn lemma_tokens_push(bytes: Seq<u8>, byte: u8)
    ensures
        tokens(bytes.push(byte)) == match Op::of_byte(byte) {
            Some(op) => tokens(bytes).push(op),
            None => tokens(bytes),
        },
{
    assert(bytes.push(byte).drop_last() =~= bytes);
}

/// The symbols of two byte strings joined are the symbols of the first
/// followed by those of the second.
pub proof fn lemma_tokens_concat(a: Seq<u8>, b: Seq<u8>)
    ensures
        tokens(a + b) == tokens(a) + tokens(b),
    decreases b.len(),
{
    if b.len() > 0 {
        let front = b.drop_last();
        lemma_tokens_concat(a, front);
        lemma_tokens_push(a + front, b.last());
        lemma_tokens_push(front, b.last());
        assert(a + b =~= (a + front).push(b.last()));
        assert(b =~= front.push(b.last()));
    }
}

/// The symbols of a byte string, read from its first byte on.
pub proof fn lemma_tokens_first(bytes: Seq<u8>)
    requires
        bytes.len() > 0,
    ensures
        tokens(bytes) == match Op::of_byte(bytes[0]) {
            Some(op) => seq![op] + tokens(bytes.drop_first()),
            None => tokens(bytes.drop_first()),
        },
{
    lemma_tokens_concat(seq![bytes[0]], bytes.drop_first());
    lemma_tokens_push(Seq::empty(), bytes[0]);
    assert(seq![bytes[0]] + bytes.drop_first() =~= bytes);
}

/// A lexer over a byte string: it hands out the symbols one at a time and
/// passes over every byte that is not a symbol.
pub struct Commands<'a> {
    bytes: &'a [u8],
    pos: usize,
}

impl<'a> Commands<'a> {
    #[verifier::type_invariant]
    spec fn inv(self) -> bool {
        self.pos <= self.bytes@.len()
    }

    /// The symbols that have not been handed out yet.
    pub closed spec fn remaining(self) -> Seq<Op> {
        tokens(self.bytes@.skip(self.pos as int))
    }

    /// A lexer at the start of `bytes`.
    pub fn new(bytes: &'a [u8]) -> (c: Self)
        ensures
            c.remaining() == tokens(bytes@),
    {
        assert(bytes@.skip(0) =~= bytes@);
        Commands { bytes, pos: 0 }
    }

    /// Hands out the next symbol, or `None` once only comment bytes, or
    /// nothing at all, are left.
    pub fn next(&mut self) -> (r: Option<Op>)
        ensures
            match r {
                Some(op) => old(self).remaining() == seq![op] + final(self).remaining(),
                None => old(self).remaining().len() == 0 && final(self).remaining().len() == 0,
            },
    {
        proof {
            use_type_invariant(&*self);
        }
        while self.pos < self.bytes.len()
            invariant
                self.pos <= self.bytes@.len(),
                self.bytes == old(self).bytes,
                self.remaining() == old(self).remaining(),
            decreases self.bytes@.len() - self.pos,
        {
            let byte: u8 = self.bytes[self.pos];
            proof {
                let here = self.bytes@.skip(self.pos as int);
                lemma_tokens_first(here);
                assert(here.drop_first() =~= self.bytes@.skip(self.pos + 1));
            }
            self.pos += 1;
            match Op::from_byte(byte) {
                Some(op) => {
                    return Some(op);
                },
                None => {},
            }
        }
        None
    }
}

} // verus!
