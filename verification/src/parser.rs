//! The parser: from bytes to a program tree, with every bracket matched.

use crate::brackets::{
    balanced, closes_unopened, depth, lemma_depth_push, lemma_render_balanced,
    lemma_render_injective,
};
use crate::program::{
    lemma_nodes_push, lemma_render_push, nodes, render, render_node, Inst, Node, Program,
};
use crate::token::{tokens, Commands, Op};
use vstd::prelude::*;

verus! {

/// Why a byte string is not a program.
#[derive(Clone, Copy, Debug, PartialEq, Eq, Structural)]
pub enum ParseError {
    /// A `]` stands where no loop is open.
    UnmatchedClosingBracket,
    /// The input ends while a loop is still open.
    UnmatchedOpeningBracket,
}

/// What parsing makes of a sequence of symbols. The first `]` without a
/// partner is an error wherever it stands; failing that, a loop left open
/// at the end is one; failing that, the result is the program that the
/// symbols spell.
pub open spec fn parse_tokens(ops: Seq<Op>) -> Result<Seq<Node>, ParseError> {
    if closes_unopened(ops) {
        Err(ParseError::UnmatchedClosingBracket)
    } else if depth(ops) > 0 {
        Err(ParseError::UnmatchedOpeningBracket)
    } else {
        Ok(choose|program: Seq<Node>| render(program) == ops)
    }
}

/// What parsing makes of a byte string: its symbols are parsed, all other
/// bytes are passed over.
pub open spec fn parse_bytes(input: Seq<u8>) -> Result<Seq<Node>, ParseError> {
    parse_tokens(tokens(input))
}

/// The mathematical value of a parse result.
pub open spec fn parsed(r: Result<Program, ParseError>) -> Result<Seq<Node>, ParseError> {
    match r {
        Ok(program) => Ok(nodes(program@)),
        Err(e) => Err(e),
    }
}

/// The node that a symbol stands for by itself. A bracket stands for none:
/// it takes its partner to make a loop.
pub open spec fn simple_node(op: Op) -> Option<Node> {
    match op {
        Op::Inc => Some(Node::Increment),
        Op::Dec => Some(Node::Decrement),
        Op::Next => Some(Node::MoveRight),
        Op::Prev => Some(Node::MoveLeft),
        Op::Out => Some(Node::Output),
        Op::JmpFwd => None,
        Op::JmpBck => None,
    }
}

/// The instruction that a symbol stands for by itself, if it stands for
/// one.
fn simple(op: Op) -> (r: Option<Inst>)
    ensures
        match r {
            Some(inst) => simple_node(op) == Some(inst@),
            None => simple_node(op) is None,
        },
{
    match op {
        Op::Inc => Some(Inst::Increment),
        Op::Dec => Some(Inst::Decrement),
        Op::Next => Some(Inst::MoveRight),
        Op::Prev => Some(Inst::MoveLeft),
        Op::Out => Some(Inst::Output),
        Op::JmpFwd => None,
        Op::JmpBck => None,
    }
}

/// The symbols consumed so far, as spelled by the loops still open around
/// the sequence being built: each open sequence, then the `[` that
/// suspended it, and last the innermost sequence.
spec fn render_open(open: Seq<Seq<Node>>, innermost: Seq<Node>) -> Seq<Op>
    decreases open.len(),
{
    if open.len() == 0 {
        render(innermost)
    } else {
        render_open(open.drop_last(), open.last()) + seq![Op::JmpFwd] + render(innermost)
    }
}

/// The views of the suspended sequences.
spec fn open_nodes(open: Seq<Vec<Inst>>) -> Seq<Seq<Node>> {
    Seq::new(open.len(), |i: int| nodes(open[i]@))
}

/// A node that joins the innermost sequence adds its symbols at the end.
proof fn lemma_render_open_push(open: Seq<Seq<Node>>, innermost: Seq<Node>, node: Node)
    ensures
        render_open(open, innermost.push(node)) == render_open(open, innermost) + render_node(
            node,
        ),
{
    lemma_render_push(innermost, node);
}

/// Parses a byte string into a program. Bytes other than the seven symbols
/// are comments. The program keeps the symbols' order, at the top level and
/// inside every loop. A `]` that closes no loop is an error as soon as it
/// is met; a loop still open at the end of the input is an error too.
pub fn parse(input: &[u8]) -> (r: Result<Program, ParseError>)
    ensures
        parsed(r) == parse_bytes(input@),
        r matches Ok(program) ==> render(nodes(program@)) == tokens(input@),
{
    let mut commands = Commands::new(input);
    // The sequences being built: `innermost` is the one that instructions
    // join, `open` holds the ones suspended by a `[`, outermost first.
    let mut open: Vec<Vec<Inst>> = Vec::new();
    let mut innermost: Vec<Inst> = Vec::new();
    let ghost all = tokens(input@);
    let ghost mut done: Seq<Op> = Seq::empty();
    loop
        invariant
            all == tokens(input@),
            all == done + commands.remaining(),
            done == render_open(open_nodes(open@), nodes(innermost@)),
            depth(done) == open@.len(),
            forall|k: int| 0 <= k <= done.len() ==> depth(#[trigger] done.take(k)) >= 0,
        ensures
            commands.remaining().len() == 0,
        decreases commands.remaining().len(),
    {
        let ghost open_before = open_nodes(open@);
        let ghost inner_before = nodes(innermost@);
        let op = match commands.next() {
            None => {
                break ;
            },
            Some(op) => op,
        };
        proof {
            // No prefix of what is consumed closes a loop that is not open:
            // the old prefixes are as they were, and the new one is all
            // that is consumed.
            lemma_depth_push(done, op);
            assert forall|k: int| 0 <= k <= done.len() implies #[trigger] done.push(op).take(k)
                == done.take(k) by {}
            assert(done.push(op).take(done.len() as int + 1) =~= done.push(op));
        }
        match simple(op) {
            Some(inst) => {
                proof {
                    lemma_nodes_push(innermost@, inst);
                    lemma_render_open_push(open_before, inner_before, inst@);
                }
                innermost.push(inst);
            },
            None => {
                if op == Op::JmpFwd {
                    open.push(innermost);
                    innermost = Vec::new();
                    proof {
                        assert(open_nodes(open@).drop_last() =~= open_before);
                    }
                } else {
                    let mut outer = match open.pop() {
                        None => {
                            proof {
                                // This `]` makes a prefix of negative depth.
                                assert(all.take(done.len() as int + 1) =~= done.push(op));
                            }
                            return Err(ParseError::UnmatchedClosingBracket);
                        },
                        Some(outer) => outer,
                    };
                    let closed = Inst::Loop(innermost);
                    proof {
                        let outer_nodes = nodes(outer@);
                        assert(open_before.drop_last() =~= open_nodes(open@));
                        lemma_nodes_push(outer@, closed);
                        lemma_render_open_push(open_nodes(open@), outer_nodes, closed@);
                    }
                    outer.push(closed);
                    innermost = outer;
                }
            },
        }
        proof {
            done = done.push(op);
        }
    }
    if open.len() > 0 {
        return Err(ParseError::UnmatchedOpeningBracket);
    }
    proof {
        lemma_parse_render(nodes(innermost@));
    }
    Ok(innermost)
}

/// Parsing the spelling of a program gives the program back.
pub proof fn lemma_parse_render(program: Seq<Node>)
    ensures
        parse_tokens(render(program)) == Ok::<Seq<Node>, ParseError>(program),
{
    lemma_render_balanced(program);
    let found = choose|other: Seq<Node>| render(other) == render(program);
    lemma_render_injective(found, program);
}

/// Symbols among which no `]` lacks a partner are spelled by some stack of
/// open sequences, one for each loop that they leave open.
proof fn lemma_open_exists(ops: Seq<Op>) -> (r: (Seq<Seq<Node>>, Seq<Node>))
    requires
        !closes_unopened(ops),
    ensures
        r.0.len() == depth(ops),
        render_open(r.0, r.1) == ops,
    decreases ops.len(),
{
    if ops.len() == 0 {
        (Seq::empty(), Seq::empty())
    } else {
        let front = ops.drop_last();
        let op = ops.last();
        assert forall|k: int| 0 <= k <= front.len() implies depth(#[trigger] front.take(k))
            >= 0 by {
            assert(front.take(k) =~= ops.take(k));
        }
        assert(ops.take(ops.len() as int) =~= ops);
        assert(depth(ops.take(ops.len() as int)) >= 0);
        let (open, innermost) = lemma_open_exists(front);
        match op {
            Op::JmpFwd => {
                let opened = open.push(innermost);
                assert(opened.drop_last() =~= open);
                (opened, Seq::empty())
            },
            Op::JmpBck => {
                let outer = open.last();
                lemma_render_open_push(open.drop_last(), outer, Node::Loop(innermost));
                (open.drop_last(), outer.push(Node::Loop(innermost)))
            },
            _ => {
                let node = simple_node(op).unwrap();
                lemma_render_open_push(open, innermost, node);
                (open, innermost.push(node))
            },
        }
    }
}

/// Balanced symbols spell a program.
pub proof fn lemma_balanced_is_spelled(ops: Seq<Op>)
    requires
        balanced(ops),
    ensures
        exists|program: Seq<Node>| render(program) == ops,
{
    let (open, program) = lemma_open_exists(ops);
    assert(render(program) == ops);
}

/// Parsing gives a program exactly when the symbols spell it.
pub proof fn lemma_parse_tokens_ok(ops: Seq<Op>, program: Seq<Node>)
    ensures
        parse_tokens(ops) == Ok::<Seq<Node>, ParseError>(program) <==> render(program) == ops,
{
    if render(program) == ops {
        lemma_parse_render(program);
    }
    if parse_tokens(ops) == Ok::<Seq<Node>, ParseError>(program) {
        assert(ops.take(ops.len() as int) =~= ops);
        lemma_balanced_is_spelled(ops);
    }
}

} // verus!
