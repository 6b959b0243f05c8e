use vstd::prelude::*;

use crate::op::{op_wf, ops_wf, Op};

verus! {

/// A computation graph: an arena of scalar nodes addressed by index.
///
/// A node records only its provenance (`Op`) and an optional label (the empty
/// string stands for "unset").  A node's forward value and its gradient are
/// held by the evaluating layer, which owns the floating-point arithmetic;
/// every structural fact — which operation produced a node, from which
/// operands, and which gradient contributions a backward pass performs — is
/// stated and proved here.
///
/// Nodes are shared freely: any number of later nodes may name the same
/// operand index, and operand indices always point at strictly earlier
/// nodes, so the graph is a DAG.  Construction is eager in the sense that a
/// constructor fixes the new node's provenance once and for all; no
/// constructor ever alters an existing node.
pub struct Graph {
    ops: Vec<Op>,
    labels: Vec<String>,
}

impl Graph {
    /// The sequence of node operations, in creation order.
    pub closed spec fn ops_seq(self) -> Seq<Op> {
        self.ops@
    }

    /// The sequence of node labels, in creation order.
    pub closed spec fn labels_seq(self) -> Seq<String> {
        self.labels@
    }

    /// How many nodes the graph holds.
    pub open spec fn node_count(self) -> nat {
        self.ops_seq().len()
    }

    /// Every node has a label slot, and every operand index points at an
    /// earlier node.
    pub open spec fn wf(self) -> bool {
        self.labels_seq().len() == self.ops_seq().len() && ops_wf(self.ops_seq())
    }

    /// Creates an empty graph.
    pub fn new() -> (g: Graph)
        ensures
            g.wf(),
            g.ops_seq() == Seq::<Op>::empty(),
            g.labels_seq() == Seq::<String>::empty(),
    {
        Graph { ops: Vec::new(), labels: Vec::new() }
    }

    /// The number of nodes.
    pub fn len(&self) -> (n: usize)
        ensures
            n == self.node_count(),
    {
        self.ops.len()
    }

    /// The operation that produced node `i`.
    pub fn op_at(&self, i: usize) -> (op: Op)
        requires
            i < self.node_count(),
        ensures
            op == self.ops_seq()[i as int],
    {
        self.ops[i]
    }

    /// Appends one node with operation `op` and an unset label.
    fn push_node(&mut self, op: Op) -> (i: usize)
        requires
            old(self).wf(),
            op_wf(op, old(self).node_count() as int),
        ensures
            final(self).wf(),
            i == old(self).node_count(),
            appended(*old(self), *final(self), op),
    {
        let i = self.ops.len();
        self.ops.push(op);
        self.labels.push(String::new());
        proof {
            assert forall|k: int| 0 <= k < self.ops@.len() implies op_wf(#[trigger] self.ops@[k], k) by {
                if k < old(self).ops@.len() {
                    assert(self.ops@[k] == old(self).ops@[k]);
                }
            }
        }
        i
    }

    /// Creates a leaf node: an input with no recorded operation.  Its
    /// gradient starts at zero; its forward value is supplied by the
    /// evaluating layer.
    pub fn leaf(&mut self) -> (i: usize)
        requires
            old(self).wf(),
        ensures
            final(self).wf(),
            i == old(self).node_count(),
            appended(*old(self), *final(self), Op::Leaf),
    {
        self.push_node(Op::Leaf)
    }

    /// Creates the node `a + b`.
    pub fn add(&mut self, a: usize, b: usize) -> (i: usize)
        requires
            old(self).wf(),
            a < old(self).node_count(),
            b < old(self).node_count(),
        ensures
            final(self).wf(),
            i == old(self).node_count(),
            appended(*old(self), *final(self), Op::Add(a, b)),
    {
        self.push_node(Op::Add(a, b))
    }

    /// Creates the node `a - b`.
    pub fn sub(&mut self, a: usize, b: usize) -> (i: usize)
        requires
            old(self).wf(),
            a < old(self).node_count(),
            b < old(self).node_count(),
        ensures
            final(self).wf(),
            i == old(self).node_count(),
            appended(*old(self), *final(self), Op::Sub(a, b)),
    {
        self.push_node(Op::Sub(a, b))
    }

    /// Creates the node `a * b`.
    pub fn mul(&mut self, a: usize, b: usize) -> (i: usize)
        requires
            old(self).wf(),
            a < old(self).node_count(),
            b < old(self).node_count(),
        ensures
            final(self).wf(),
            i == old(self).node_count(),
            appended(*old(self), *final(self), Op::Mul(a, b)),
    {
        self.push_node(Op::Mul(a, b))
    }

    /// Creates the node `num / den`.  A zero denominator is not an error of
    /// the graph: division is carried out by the evaluating layer under
    /// standard floating-point semantics.
    pub fn div(&mut self, num: usize, den: usize) -> (i: usize)
        requires
            old(self).wf(),
            num < old(self).node_count(),
            den < old(self).node_count(),
        ensures
            final(self).wf(),
            i == old(self).node_count(),
            appended(*old(self), *final(self), Op::Div(num, den)),
    {
        self.push_node(Op::Div(num, den))
    }

    /// Creates the node `base ^ exponent` (real-valued power).
    pub fn pow(&mut self, base: usize, exponent: usize) -> (i: usize)
        requires
            old(self).wf(),
            base < old(self).node_count(),
            exponent < old(self).node_count(),
        ensures
            final(self).wf(),
            i == old(self).node_count(),
            appended(*old(self), *final(self), Op::Pow(base, exponent)),
    {
        self.push_node(Op::Pow(base, exponent))
    }

    /// Creates the node `e ^ x`.
    pub fn exp(&mut self, x: usize) -> (i: usize)
        requires
            old(self).wf(),
            x < old(self).node_count(),
        ensures
            final(self).wf(),
            i == old(self).node_count(),
            appended(*old(self), *final(self), Op::Exp(x)),
    {
        self.push_node(Op::Exp(x))
    }

    /// Creates the node `tanh(x)`.
    pub fn tanh(&mut self, x: usize) -> (i: usize)
        requires
            old(self).wf(),
            x < old(self).node_count(),
        ensures
            final(self).wf(),
            i == old(self).node_count(),
            appended(*old(self), *final(self), Op::Tanh(x)),
    {
        self.push_node(Op::Tanh(x))
    }

    /// Sets the display label of node `i`.  Labels have no effect on any
    /// computation.
    pub fn set_label(&mut self, i: usize, label: String)
        requires
            old(self).wf(),
            i < old(self).node_count(),
        ensures
            final(self).wf(),
            final(self).ops_seq() == old(self).ops_seq(),
            final(self).labels_seq() == old(self).labels_seq().update(i as int, label),
    {
        self.labels.set(i, label);
    }

    /// The label of node `i`.
    pub fn label(&self, i: usize) -> (s: &String)
        requires
            self.wf(),
            i < self.node_count(),
        ensures
            s == self.labels_seq()[i as int],
    {
        &self.labels[i]
    }

    /// The name a rendering shows for node `i`: its label, or a placeholder
    /// when the label is unset.
    pub fn display_name(&self, i: usize) -> (s: String)
        requires
            self.wf(),
            i < self.node_count(),
        ensures
            self.labels_seq()[i as int]@.len() == 0 ==> s@ == "<no label>"@,
            self.labels_seq()[i as int]@.len() != 0 ==> s@ == self.labels_seq()[i as int]@,
    {
        let lab: &String = &self.labels[i];
        if lab.as_str().is_empty() {
            "<no label>".to_owned()
        } else {
            lab.clone()
        }
    }
}

/// `post` is `pre` with one node appended: operation `op`, label unset.
pub open spec fn appended(pre: Graph, post: Graph, op: Op) -> bool {
    &&& post.ops_seq() == pre.ops_seq().push(op)
    &&& post.labels_seq().len() == pre.labels_seq().len() + 1
    &&& forall|j: int| 0 <= j < pre.labels_seq().len() ==> post.labels_seq()[j] == pre.labels_seq()[j]
    &&& post.labels_seq()[pre.labels_seq().len() as int]@ == Seq::<char>::empty()
}

} // verus!
