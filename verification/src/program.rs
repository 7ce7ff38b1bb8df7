//! Program trees: the executable instruction type and its mathematical view.

use crate::token::Op;
use vstd::prelude::*;

verus! {

/// One instruction of a program as a mathematical value. A loop holds its
/// body as a sequence of nodes, so a program is a finite tree.
pub enum Node {
    Increment,
    Decrement,
    MoveRight,
    MoveLeft,
    Output,
    Loop(Seq<Node>),
}

/// One instruction of a program. A `Loop` owns its body.
#[derive(Debug, PartialEq, Eq)]
pub enum Inst {
    Increment,
    Decrement,
    MoveRight,
    MoveLeft,
    Output,
    Loop(Vec<Inst>),
}

/// A program: instructions in the order in which they are run.
pub type Program = Vec<Inst>;

impl View for Inst {
    type V = Node;

    open spec fn view(&self) -> Node
        decreases self, 0nat,
    {
        match self {
            Inst::Increment => Node::Increment,
            Inst::Decrement => Node::Decrement,
            Inst::MoveRight => Node::MoveRight,
            Inst::MoveLeft => Node::MoveLeft,
            Inst::Output => Node::Output,
            Inst::Loop(body) => Node::Loop(nodes(body@)),
        }
    }
}

impl Clone for Inst {
    /// A copy of the instruction, loop bodies included.
    fn clone(&self) -> (copy: Inst)
        ensures
            copy@ == self@,
        decreases self,
    {
        match self {
            Inst::Increment => Inst::Increment,
            Inst::Decrement => Inst::Decrement,
            Inst::MoveRight => Inst::MoveRight,
            Inst::MoveLeft => Inst::MoveLeft,
            Inst::Output => Inst::Output,
            Inst::Loop(body) => {
                let mut copied: Vec<Inst> = Vec::new();
                let mut i: usize = 0;
                while i < body.len()
                    invariant
                        *self == Inst::Loop(*body),
                        i <= body@.len(),
                        nodes(copied@) == nodes(body@.take(i as int)),
                    decreases body@.len() - i,
                {
                    proof {
                        assert(decreases_to!(*self => self->0));
                    }
                    let inst = body[i].clone();
                    proof {
                        lemma_nodes_push(copied@, inst);
                        lemma_nodes_push(body@.take(i as int), body@[i as int]);
                    }
                    copied.push(inst);
                    i = i + 1;
                }
                assert(body@.take(i as int) =~= body@);
                Inst::Loop(copied)
            },
        }
    }
}

/// The nodes that a sequence of instructions stands for, in order.
pub open spec fn nodes(code: Seq<Inst>) -> Seq<Node>
    decreases code, 1nat,
{
    Seq::new(
        code.len(),
        |k: int|
            if 0 <= k < code.len() {
                code[k].view()
            } else {
                arbitrary()
            },
    )
}

/// The symbols that spell one node: a simple instruction is its own
/// symbol, a loop is its body between a pair of brackets.
pub open spec fn render_node(node: Node) -> Seq<Op>
    decreases node, 0nat,
{
    match node {
        Node::Increment => seq![Op::Inc],
        Node::Decrement => seq![Op::Dec],
        Node::MoveRight => seq![Op::Next],
        Node::MoveLeft => seq![Op::Prev],
        Node::Output => seq![Op::Out],
        Node::Loop(body) => seq![Op::JmpFwd] + render(body) + seq![Op::JmpBck],
    }
}

/// The symbols that spell a program: those of its nodes, one after another.
pub open spec fn render(program: Seq<Node>) -> Seq<Op>
    decreases program, 1nat,
{
    if program.len() == 0 {
        Seq::empty()
    } else {
        render(program.drop_last()) + render_node(program.last())
    }
}

/// Appending a node to a program appends its symbols to the spelling.
pub proof fn lemma_render_push(program: Seq<Node>, node: Node)
    ensures
        render(program.push(node)) == render(program) + render_node(node),
{
    assert(program.push(node).drop_last() =~= program);
}

/// The view of a sequence of instructions grows with the sequence.
pub proof fn lemma_nodes_push(code: Seq<Inst>, inst: Inst)
    ensures
        nodes(code.push(inst)) == nodes(code).push(inst@),
{
}

} // verus!
