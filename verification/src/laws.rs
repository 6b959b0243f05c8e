use vstd::prelude::*;

use crate::chain::{
    adjoint, consumer_sum, factor_sum, lemma_backward_chain_rule, run_tape, start_state,
};
use crate::engine::{reachable, tape};
use crate::op::{arg_of, arg_part, is_binary, is_unary, left_of, left_part, op_wf, ops_wf, uses,
    right_of, right_part, Op, Part};

verus! {

/// The root of a backward pass ends with gradient exactly 1: its adjoint is
/// the derivative of the root with respect to itself, and no reachable node
/// consumes the root.
pub proof fn lemma_root_self_gradient(
    g: Seq<Op>,
    root: int,
    fac: spec_fn(int, int, Part) -> int,
)
    requires
        ops_wf(g),
        0 <= root < g.len(),
    ensures
        adjoint(g, root, fac, root) == 1,
{
    assert(consumer_sum(g, root, fac, root, root) == 0);
}

proof fn lemma_consumer_sum_unreachable(
    g: Seq<Op>,
    root: int,
    fac: spec_fn(int, int, Part) -> int,
    n: int,
    j: int,
)
    requires
        0 <= n < g.len(),
        !reachable(g, root, n),
    ensures
        consumer_sum(g, root, fac, n, j) == 0,
    decreases j - n,
{
    if j <= n || root < n {
    } else {
        if 0 <= j <= root && j < g.len() && reachable(g, root, j) {
            assert(!uses(g[j], n)) by {
                if uses(g[j], n) {
                    assert(reachable(g, root, n));
                }
            }
            assert(factor_sum(g[j], j, n, fac) == 0);
        }
        lemma_consumer_sum_unreachable(g, root, fac, n, j - 1);
    }
}

/// A node the root does not reach takes no part in a backward pass: its
/// adjoint — and so, by the accumulation theorem, its gradient after the
/// pass — is 0.
pub proof fn lemma_unreachable_gradient_zero(
    g: Seq<Op>,
    root: int,
    fac: spec_fn(int, int, Part) -> int,
    n: int,
)
    requires
        0 <= root < g.len(),
        0 <= n < g.len(),
        !reachable(g, root, n),
    ensures
        adjoint(g, root, fac, n) == 0,
{
    lemma_consumer_sum_unreachable(g, root, fac, n, root);
}

/// Local derivative correctness, binary case: a backward pass over a graph
/// of one binary operation applied to two leaves leaves the root's gradient
/// at 1 and gives each leaf exactly the local factor of its edge — the
/// closed-form partial derivative that the edge's `Part` names.
pub proof fn lemma_local_gradients_binary(op: Op, fac: spec_fn(int, int, Part) -> int)
    requires
        is_binary(op),
        left_of(op) == 0,
        right_of(op) == 1,
    ensures
        ({
            let g = seq![Op::Leaf, Op::Leaf, op];
            let out = run_tape(tape(g, 2), fac, start_state(3, 2));
            out.len() == 3 && out[2] == 1 && out[0] == fac(2, 0, left_part(op)) && out[1] == fac(
                2,
                1,
                right_part(op),
            )
        }),
{
    reveal_with_fuel(consumer_sum, 5);
    reveal_with_fuel(adjoint, 5);
    let g = seq![Op::Leaf, Op::Leaf, op];
    assert forall|i: int| 0 <= i < g.len() implies op_wf(#[trigger] g[i], i) by {
        if i == 0 {
            assert(g[0] == Op::Leaf);
        } else if i == 1 {
            assert(g[1] == Op::Leaf);
        } else {
            assert(g[2] == op);
        }
    }
    assert(g[0] == Op::Leaf);
    assert(g[1] == Op::Leaf);
    assert(g[2] == op);
    lemma_backward_chain_rule(g, 2, fac);
    lemma_root_self_gradient(g, 2, fac);
    assert(reachable(g, 2, 2));
    assert(factor_sum(g[1], 1, 0, fac) == 0);
    assert(adjoint(g, 2, fac, 0) == 1 * factor_sum(op, 2, 0, fac));
    assert(adjoint(g, 2, fac, 1) == 1 * factor_sum(op, 2, 1, fac));
    assert(factor_sum(op, 2, 0, fac) == fac(2, 0, left_part(op)));
    assert(factor_sum(op, 2, 1, fac) == fac(2, 1, right_part(op)));
}

/// Local derivative correctness, unary case: a backward pass over a graph
/// of one unary operation applied to a leaf leaves the root's gradient at 1
/// and gives the leaf exactly the local factor of its edge.
pub proof fn lemma_local_gradient_unary(op: Op, fac: spec_fn(int, int, Part) -> int)
    requires
        is_unary(op),
        arg_of(op) == 0,
    ensures
        ({
            let g = seq![Op::Leaf, op];
            let out = run_tape(tape(g, 1), fac, start_state(2, 1));
            out.len() == 2 && out[1] == 1 && out[0] == fac(1, 0, arg_part(op))
        }),
{
    reveal_with_fuel(consumer_sum, 5);
    reveal_with_fuel(adjoint, 5);
    let g = seq![Op::Leaf, op];
    assert forall|i: int| 0 <= i < g.len() implies op_wf(#[trigger] g[i], i) by {
        if i == 0 {
            assert(g[0] == Op::Leaf);
        } else {
            assert(g[1] == op);
        }
    }
    assert(g[0] == Op::Leaf);
    assert(g[1] == op);
    lemma_backward_chain_rule(g, 1, fac);
    lemma_root_self_gradient(g, 1, fac);
    assert(reachable(g, 1, 1));
    assert(adjoint(g, 1, fac, 0) == 1 * factor_sum(op, 1, 0, fac));
}

/// Shared sub-expression accumulation for `add(a, a)`: both edges of the
/// addition point at the same leaf and the Add rule's local factor is 1 on
/// each side, so the leaf's gradient accumulates to exactly 2.
pub proof fn lemma_shared_operand_add(fac: spec_fn(int, int, Part) -> int)
    requires
        fac(1, 0, Part::AddLeft) == 1,
        fac(1, 0, Part::AddRight) == 1,
    ensures
        ({
            let g = seq![Op::Leaf, Op::Add(0, 0)];
            let out = run_tape(tape(g, 1), fac, start_state(2, 1));
            out.len() == 2 && out[1] == 1 && out[0] == 2
        }),
{
    reveal_with_fuel(consumer_sum, 5);
    reveal_with_fuel(adjoint, 5);
    let g = seq![Op::Leaf, Op::Add(0, 0)];
    assert forall|i: int| 0 <= i < g.len() implies op_wf(#[trigger] g[i], i) by {
        if i == 0 {
            assert(g[0] == Op::Leaf);
        } else {
            assert(g[1] == Op::Add(0, 0));
        }
    }
    assert(g[0] == Op::Leaf);
    assert(g[1] == Op::Add(0, 0));
    lemma_backward_chain_rule(g, 1, fac);
    lemma_root_self_gradient(g, 1, fac);
    assert(reachable(g, 1, 1));
    assert(factor_sum(Op::Add(0, 0), 1, 0, fac) == 2);
    assert(adjoint(g, 1, fac, 0) == 1 * factor_sum(Op::Add(0, 0), 1, 0, fac));
}

/// Shared sub-expression accumulation for `mul(a, a)`: both edges of the
/// multiplication point at the same leaf, and the Mul rule's local factor on
/// each side is the other operand's forward value — here the shared leaf's
/// own value `d` — so the leaf's gradient accumulates to exactly `2 * d`.
pub proof fn lemma_shared_operand_mul(fac: spec_fn(int, int, Part) -> int, d: int)
    requires
        fac(1, 0, Part::MulLeft) == d,
        fac(1, 0, Part::MulRight) == d,
    ensures
        ({
            let g = seq![Op::Leaf, Op::Mul(0, 0)];
            let out = run_tape(tape(g, 1), fac, start_state(2, 1));
            out.len() == 2 && out[1] == 1 && out[0] == 2 * d
        }),
{
    reveal_with_fuel(consumer_sum, 5);
    reveal_with_fuel(adjoint, 5);
    let g = seq![Op::Leaf, Op::Mul(0, 0)];
    assert forall|i: int| 0 <= i < g.len() implies op_wf(#[trigger] g[i], i) by {
        if i == 0 {
            assert(g[0] == Op::Leaf);
        } else {
            assert(g[1] == Op::Mul(0, 0));
        }
    }
    assert(g[0] == Op::Leaf);
    assert(g[1] == Op::Mul(0, 0));
    lemma_backward_chain_rule(g, 1, fac);
    lemma_root_self_gradient(g, 1, fac);
    assert(reachable(g, 1, 1));
    assert(factor_sum(Op::Mul(0, 0), 1, 0, fac) == 2 * d);
    assert(adjoint(g, 1, fac, 0) == 1 * factor_sum(Op::Mul(0, 0), 1, 0, fac));
}

} // verus!

