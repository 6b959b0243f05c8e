use vstd::prelude::*;

use crate::graph::Graph;
use crate::op::{
    arg_of, arg_part, is_binary, is_unary, left_of, left_part, node_steps, op_wf, ops_wf,
    right_of, right_part, uses, Op, Part, Step,
};

verus! {

/// Node `n` is reachable from `root` along operand edges: it is the root
/// itself, or an operand of some reachable node.  Only reachable nodes take
/// part in a backward pass; the gradient of every other node is untouched.
pub open spec fn reachable(g: Seq<Op>, root: int, n: int) -> bool
    decreases root - n,
{
    n == root || (exists|j: int|
        n < j <= root && 0 <= j < g.len() && reachable(g, root, j) && uses(#[trigger] g[j], n))
}

/// The gradient contributions emitted for the nodes below `i`, in the order
/// the backward pass performs them: consumers in strictly decreasing index
/// order, each reachable consumer contributing one step per operand edge.
///
/// Decreasing index order is a reverse topological order — every operand
/// index is below its consumer — so all contributions *into* a node are
/// performed before that node propagates *onward*, and each edge is visited
/// exactly once.
pub open spec fn tape_from(g: Seq<Op>, root: int, i: int) -> Seq<Step>
    decreases i,
{
    if i <= 0 {
        Seq::<Step>::empty()
    } else {
        (if reachable(g, root, i - 1) {
            node_steps(g[i - 1], (i - 1) as usize)
        } else {
            Seq::<Step>::empty()
        }) + tape_from(g, root, i - 1)
    }
}

/// The full contribution sequence of a backward pass rooted at `root`.
pub open spec fn tape(g: Seq<Op>, root: int) -> Seq<Step> {
    tape_from(g, root, root + 1)
}

/// A contribution is sound for a backward pass rooted at `root`: its
/// consumer is a reachable node at or below the root, its target is one of
/// that node's operands, and the target lies strictly below the consumer.
pub open spec fn step_wf(g: Seq<Op>, root: int, s: Step) -> bool {
    &&& s.consumer <= root
    &&& reachable(g, root, s.consumer as int)
    &&& uses(g[s.consumer as int], s.target as int)
    &&& s.target < s.consumer
}

proof fn lemma_node_steps_wf(g: Seq<Op>, root: int, c: int)
    requires
        ops_wf(g),
        0 <= c < g.len(),
        c <= root,
        g.len() <= usize::MAX,
        reachable(g, root, c),
    ensures
        ({
            let part = node_steps(g[c], c as usize);
            forall|k: int|
                0 <= k < part.len() ==> step_wf(g, root, part[k]) && part[k].consumer == c
        }),
{
    let op = g[c];
    assert(op_wf(op, c));
    let part = node_steps(op, c as usize);
    if is_binary(op) {
        assert(part[0] == (Step { consumer: c as usize, target: left_of(op), part: left_part(op) }));
        assert(part[1] == (Step {
            consumer: c as usize,
            target: right_of(op),
            part: right_part(op),
        }));
        assert(uses(op, left_of(op) as int));
        assert(uses(op, right_of(op) as int));
    } else if is_unary(op) {
        assert(part[0] == (Step { consumer: c as usize, target: arg_of(op), part: arg_part(op) }));
        assert(uses(op, arg_of(op) as int));
    }
}

proof fn lemma_tape_from_ordered(g: Seq<Op>, root: int, i: int)
    requires
        ops_wf(g),
        0 <= root < g.len(),
        g.len() <= usize::MAX,
        0 <= i <= root + 1,
    ensures
        ({
            let t = tape_from(g, root, i);
            (forall|k: int| 0 <= k < t.len() ==> step_wf(g, root, t[k]) && t[k].consumer < i)
                && (forall|k1: int, k2: int|
                0 <= k1 <= k2 < t.len() ==> t[k1].consumer >= t[k2].consumer)
        }),
    decreases i,
{
    if i > 0 {
        let c = i - 1;
        let part = if reachable(g, root, c) {
            node_steps(g[c], c as usize)
        } else {
            Seq::<Step>::empty()
        };
        let rest = tape_from(g, root, c);
        assert(tape_from(g, root, i) == part + rest);
        if reachable(g, root, c) {
            lemma_node_steps_wf(g, root, c);
        }
        lemma_tape_from_ordered(g, root, c);
        let t = tape_from(g, root, i);
        assert forall|k: int| 0 <= k < t.len() implies step_wf(g, root, t[k]) && t[k].consumer
            < i by {
            if k < part.len() {
                assert(t[k] == part[k]);
            } else {
                assert(t[k] == rest[k - part.len()]);
            }
        }
        assert forall|k1: int, k2: int| 0 <= k1 <= k2 < t.len() implies t[k1].consumer
            >= t[k2].consumer by {
            if k1 < part.len() {
                assert(t[k1] == part[k1] && t[k1].consumer == c);
            } else {
                assert(t[k1] == rest[k1 - part.len()]);
            }
            if k2 < part.len() {
                assert(t[k2] == part[k2] && t[k2].consumer == c);
            } else {
                assert(t[k2] == rest[k2 - part.len()]);
            }
        }
    }
}

/// The traversal-order requirement of the chain rule, stated of the tape
/// itself: every contribution is one operand edge of a reachable consumer,
/// a contribution's target lies strictly below its consumer, and consumers
/// appear in non-increasing order.  Together these mean that every
/// contribution *into* a node stands before that node's own propagation, so
/// a backward pass never reads a gradient before all of its contributions
/// have been applied.
pub proof fn lemma_tape_respects_dependencies(g: Seq<Op>, root: int)
    requires
        ops_wf(g),
        0 <= root < g.len(),
        g.len() <= usize::MAX,
    ensures
        forall|k: int|
            0 <= k < tape(g, root).len() ==> step_wf(g, root, #[trigger] tape(g, root)[k]),
        forall|k1: int, k2: int|
            0 <= k1 <= k2 < tape(g, root).len() ==> tape(g, root)[k1].consumer >= tape(
                g,
                root,
            )[k2].consumer,
{
    lemma_tape_from_ordered(g, root, root + 1);
}

impl Graph {
    /// The backward pass: computes the exact sequence of gradient
    /// contributions for the subgraph reachable from `root`.
    ///
    /// The caller seeds the root's gradient with 1 — the derivative of a
    /// value with respect to itself — and then, for each step in order, adds
    /// to the target's gradient the consumer's gradient times the local
    /// factor named by the step's `part` (see `Part`).  Gradient writes are
    /// accumulations, never overwrites, so a node reached through several
    /// paths sums one contribution per incoming edge.
    pub fn backward(&self, root: usize) -> (steps: Vec<Step>)
        requires
            self.wf(),
            root < self.node_count(),
        ensures
            steps@ == tape(self.ops_seq(), root as int),
    {
        let ghost g = self.ops_seq();
        let n = self.len();

        // Mark the nodes reachable from the root.  Scanning downward from
        // the root reaches a node only after every node above it, and a
        // node's consumers all lie above it, so each mark is final by the
        // time the scan passes it.
        let mut marked: Vec<bool> = Vec::new();
        while marked.len() < n
            invariant
                marked@.len() <= n,
                forall|k: int| 0 <= k < marked@.len() ==> !(#[trigger] marked@[k]),
            decreases n - marked@.len(),
        {
            marked.push(false);
        }
        marked.set(root, true);
        let mut i: usize = root + 1;
        while i > 0
            invariant
                self.wf(),
                g == self.ops_seq(),
                root < g.len(),
                n == g.len(),
                marked@.len() == n,
                i <= root + 1,
                marked@[root as int],
                forall|k: int|
                    0 <= k < n && #[trigger] marked@[k] ==> reachable(g, root as int, k),
                forall|k: int| i <= k < n ==> marked@[k] == reachable(g, root as int, k),
                forall|j: int, t: int|
                    i <= j < n && marked@[j] && #[trigger] uses(g[j], t) ==> 0 <= t < n
                        && marked@[t],
            decreases i,
        {
            i = i - 1;
            proof {
                if !marked@[i as int] && reachable(g, root as int, i as int) {
                    let j = choose|j: int|
                        i < j <= root && 0 <= j < g.len() && reachable(g, root as int, j)
                            && uses(#[trigger] g[j], i as int);
                    assert(marked@[j]);
                    assert(false);
                }
            }
            if marked[i] {
                let op = self.op_at(i);
                match op {
                    Op::Leaf => {},
                    Op::Add(l, r) => {
                        marked.set(l, true);
                        marked.set(r, true);
                    },
                    Op::Sub(l, r) => {
                        marked.set(l, true);
                        marked.set(r, true);
                    },
                    Op::Mul(l, r) => {
                        marked.set(l, true);
                        marked.set(r, true);
                    },
                    Op::Div(l, r) => {
                        marked.set(l, true);
                        marked.set(r, true);
                    },
                    Op::Pow(l, r) => {
                        marked.set(l, true);
                        marked.set(r, true);
                    },
                    Op::Exp(x) => {
                        marked.set(x, true);
                    },
                    Op::Tanh(x) => {
                        marked.set(x, true);
                    },
                }
            }
        }

        // Emit the contributions, consumers in decreasing index order.
        let mut steps: Vec<Step> = Vec::new();
        let mut i: usize = root + 1;
        while i > 0
            invariant
                self.wf(),
                g == self.ops_seq(),
                root < g.len(),
                n == g.len(),
                marked@.len() == n,
                i <= root + 1,
                forall|k: int| 0 <= k < n ==> marked@[k] == reachable(g, root as int, k),
                tape(g, root as int) == steps@ + tape_from(g, root as int, i as int),
            decreases i,
        {
            i = i - 1;
            let ghost steps0 = steps@;
            if marked[i] {
                let op = self.op_at(i);
                match op {
                    Op::Leaf => {},
                    Op::Add(l, r) => {
                        steps.push(Step { consumer: i, target: l, part: Part::AddLeft });
                        steps.push(Step { consumer: i, target: r, part: Part::AddRight });
                    },
                    Op::Sub(l, r) => {
                        steps.push(Step { consumer: i, target: l, part: Part::SubLeft });
                        steps.push(Step { consumer: i, target: r, part: Part::SubRight });
                    },
                    Op::Mul(l, r) => {
                        steps.push(Step { consumer: i, target: l, part: Part::MulLeft });
                        steps.push(Step { consumer: i, target: r, part: Part::MulRight });
                    },
                    Op::Div(l, r) => {
                        steps.push(Step { consumer: i, target: l, part: Part::DivNum });
                        steps.push(Step { consumer: i, target: r, part: Part::DivDen });
                    },
                    Op::Pow(l, r) => {
                        steps.push(Step { consumer: i, target: l, part: Part::PowBase });
                        steps.push(Step { consumer: i, target: r, part: Part::PowExp });
                    },
                    Op::Exp(x) => {
                        steps.push(Step { consumer: i, target: x, part: Part::ExpArg });
                    },
                    Op::Tanh(x) => {
                        steps.push(Step { consumer: i, target: x, part: Part::TanhArg });
                    },
                }
                proof {
                    assert(steps@ =~= steps0 + node_steps(g[i as int], i));
                }
            } else {
                proof {
                    assert(steps@ =~= steps0 + Seq::<Step>::empty());
                }
            }
            proof {
                assert(steps0 + tape_from(g, root as int, i + 1) =~= steps@ + tape_from(
                    g,
                    root as int,
                    i as int,
                ));
            }
        }
        proof {
            assert(steps@ + tape_from(g, root as int, 0) =~= steps@);
        }
        steps
    }
}

} // verus!
