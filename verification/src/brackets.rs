//! Brackets: how deep a sequence of symbols nests, when its brackets match,
//! and why the spelling of a program tells the program.

use crate::program::{render, render_node, Node};
use crate::token::Op;
use vstd::prelude::*;

verus! {

/// What a symbol does to the number of open loops.
pub open spec fn weight(op: Op) -> int {
    match op {
        Op::JmpFwd => 1,
        Op::JmpBck => -1,
        _ => 0,
    }
}

/// The number of loops left open by `ops`: the brackets opened less the
/// brackets closed.
pub open spec fn depth(ops: Seq<Op>) -> int
    decreases ops.len(),
{
    if ops.len() == 0 {
        0
    } else {
        depth(ops.drop_last()) + weight(ops.last())
    }
}

/// Some `]` in `ops` closes a loop that was never opened.
pub open spec fn closes_unopened(ops: Seq<Op>) -> bool {
    exists|k: int| 0 <= k <= ops.len() && #[trigger] depth(ops.take(k)) < 0
}

/// Every bracket in `ops` has its partner.
pub open spec fn balanced(ops: Seq<Op>) -> bool {
    !closes_unopened(ops) && depth(ops) == 0
}

/// The depth of a sequence grows by the weight of a symbol appended to it.
pub proof fn lemma_depth_push(ops: Seq<Op>, op: Op)
    ensures
        depth(ops.push(op)) == depth(ops) + weight(op),
{
    assert(ops.push(op).drop_last() =~= ops);
}

/// Depths add up over concatenation.
pub proof fn lemma_depth_concat(a: Seq<Op>, b: Seq<Op>)
    ensures
        depth(a + b) == depth(a) + depth(b),
    decreases b.len(),
{
    if b.len() > 0 {
        lemma_depth_concat(a, b.drop_last());
        assert((a + b).drop_last() =~= a + b.drop_last());
    }
}

/// The depth of a single symbol is its weight.
pub proof fn lemma_depth_single(op: Op)
    ensures
        depth(seq![op]) == weight(op),
{
    lemma_depth_push(Seq::empty(), op);
}

/// The depth of a sequence is that of a prefix plus that of the rest.
pub proof fn lemma_depth_split(ops: Seq<Op>, k: int)
    requires
        0 <= k <= ops.len(),
    ensures
        depth(ops) == depth(ops.take(k)) + depth(ops.skip(k)),
{
    lemma_depth_concat(ops.take(k), ops.skip(k));
    assert(ops.take(k) + ops.skip(k) =~= ops);
}

/// Two balanced sequences joined are balanced.
pub proof fn lemma_balanced_concat(a: Seq<Op>, b: Seq<Op>)
    requires
        balanced(a),
        balanced(b),
    ensures
        balanced(a + b),
{
    lemma_depth_concat(a, b);
    assert forall|k: int| 0 <= k <= (a + b).len() implies depth(#[trigger] (a + b).take(k))
        >= 0 by {
        if k <= a.len() {
            assert((a + b).take(k) =~= a.take(k));
        } else {
            assert((a + b).take(k) =~= a + b.take(k - a.len()));
            lemma_depth_concat(a, b.take(k - a.len()));
        }
    }
}

/// The spelling of a node is balanced and not empty.
pub proof fn lemma_render_node_balanced(node: Node)
    ensures
        balanced(render_node(node)),
        render_node(node).len() >= 1,
    decreases node, 0nat,
{
    let spelled = render_node(node);
    match node {
        Node::Loop(body) => {
            let inner = render(body);
            lemma_render_balanced(body);
            lemma_depth_single(Op::JmpFwd);
            lemma_depth_concat(seq![Op::JmpFwd], inner);
            lemma_depth_push(seq![Op::JmpFwd] + inner, Op::JmpBck);
            assert(spelled =~= (seq![Op::JmpFwd] + inner).push(Op::JmpBck));
            assert forall|k: int| 0 <= k <= spelled.len() implies depth(
                #[trigger] spelled.take(k),
            ) >= 0 by {
                if 0 < k <= inner.len() + 1 {
                    assert(spelled.take(k) =~= seq![Op::JmpFwd] + inner.take(k - 1));
                    lemma_depth_concat(seq![Op::JmpFwd], inner.take(k - 1));
                } else if k > 0 {
                    assert(spelled.take(k) =~= spelled);
                }
            }
        },
        _ => {
            lemma_depth_single(spelled[0]);
            assert forall|k: int| 0 <= k <= spelled.len() implies depth(
                #[trigger] spelled.take(k),
            ) >= 0 by {
                if k > 0 {
                    assert(spelled.take(k) =~= spelled);
                }
            }
        },
    }
}

/// The spelling of a program is balanced.
pub proof fn lemma_render_balanced(program: Seq<Node>)
    ensures
        balanced(render(program)),
    decreases program, 1nat,
{
    if program.len() > 0 {
        lemma_render_balanced(program.drop_last());
        lemma_render_node_balanced(program.last());
        lemma_balanced_concat(render(program.drop_last()), render_node(program.last()));
    }
}

/// In `before`, then a loop around `body`: read from the loop's `[` on,
/// the brackets cancel; read from any later place, a `]` is left over.
proof fn lemma_loop_suffix(before: Seq<Op>, body: Seq<Node>, j: int)
    requires
        before.len() <= j < before.len() + render(body).len() + 2,
    ensures
        ({
            let spelled = before + seq![Op::JmpFwd] + render(body) + seq![Op::JmpBck];
            if j == before.len() {
                depth(spelled.skip(j)) == 0
            } else {
                depth(spelled.skip(j)) < 0
            }
        }),
{
    let inner = render(body);
    let spelled = before + seq![Op::JmpFwd] + inner + seq![Op::JmpBck];
    lemma_render_balanced(body);
    if j == before.len() {
        assert(spelled.skip(j) =~= (seq![Op::JmpFwd] + inner).push(Op::JmpBck));
        lemma_depth_push(seq![Op::JmpFwd] + inner, Op::JmpBck);
        lemma_depth_concat(seq![Op::JmpFwd], inner);
        lemma_depth_single(Op::JmpFwd);
    } else {
        let k = j - before.len() - 1;
        assert(spelled.skip(j) =~= inner.skip(k).push(Op::JmpBck));
        lemma_depth_push(inner.skip(k), Op::JmpBck);
        lemma_depth_split(inner, k);
    }
}

/// Two programs with one spelling are one program. Read from the end, a
/// spelling tells its last node: a simple symbol is that node, and a `]`
/// ends a loop whose `[` is the nearest place from which the brackets
/// cancel.
pub proof fn lemma_render_injective(p: Seq<Node>, q: Seq<Node>)
    requires
        render(p) == render(q),
    ensures
        p == q,
    decreases render(p).len(),
{
    if p.len() == 0 || q.len() == 0 {
        // An empty spelling is that of the empty program alone.
        if p.len() > 0 {
            lemma_render_node_balanced(p.last());
        }
        if q.len() > 0 {
            lemma_render_node_balanced(q.last());
        }
    } else {
        let a = p.last();
        let b = q.last();
        let p_front = p.drop_last();
        let q_front = q.drop_last();
        let spelled = render(p);
        lemma_render_node_balanced(a);
        lemma_render_node_balanced(b);
        assert(spelled.last() == render_node(a).last());
        assert(spelled.last() == render_node(b).last());
        match (a, b) {
            (Node::Loop(x), Node::Loop(y)) => {
                // Both loops start at the same `[`: were one to start
                // later, the other would have a `]` left over from there.
                let i = render(p_front).len() as int;
                let j = render(q_front).len() as int;
                assert(spelled =~= render(p_front) + seq![Op::JmpFwd] + render(x)
                    + seq![Op::JmpBck]);
                assert(spelled =~= render(q_front) + seq![Op::JmpFwd] + render(y)
                    + seq![Op::JmpBck]);
                lemma_loop_suffix(render(p_front), x, i);
                lemma_loop_suffix(render(q_front), y, j);
                if i < j {
                    lemma_loop_suffix(render(p_front), x, j);
                }
                if j < i {
                    lemma_loop_suffix(render(q_front), y, i);
                }
                assert(render(p_front) =~= spelled.take(i));
                assert(render(q_front) =~= spelled.take(i));
                assert(render(x) =~= spelled.subrange(i + 1, spelled.len() - 1));
                assert(render(y) =~= spelled.subrange(i + 1, spelled.len() - 1));
                lemma_render_injective(p_front, q_front);
                lemma_render_injective(x, y);
            },
            (Node::Loop(_), _) => {
                // The spelling ends in `]` and in a simple symbol at once.
                assert(false);
            },
            (_, Node::Loop(_)) => {
                assert(false);
            },
            _ => {
                assert(render(p_front) =~= spelled.drop_last());
                assert(render(q_front) =~= spelled.drop_last());
                lemma_render_injective(p_front, q_front);
            },
        }
        assert(p =~= p_front.push(a));
        assert(q =~= q_front.push(b));
    }
}

} // verus!
