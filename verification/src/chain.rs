use vstd::prelude::*;

use crate::engine::{reachable, tape, tape_from};
use crate::op::{
    arg_of, arg_part, is_binary, is_unary, left_of, left_part, node_steps, op_wf, ops_wf,
    right_of, right_part, Op, Part, Step,
};

verus! {

/// The initial gradient of node `n` in a backward pass rooted at `root`:
/// the root is seeded with 1, every other node starts at 0.
pub open spec fn seed(root: int, n: int) -> int {
    if n == root {
        1
    } else {
        0
    }
}

/// The sum of the local factors of `op`'s edges that point at `t`, under the
/// factor assignment `fac` (with `c` the consumer's index).  An operand used
/// in both positions receives both factors.
pub open spec fn factor_sum(op: Op, c: int, t: int, fac: spec_fn(int, int, Part) -> int) -> int {
    if is_binary(op) {
        (if left_of(op) == t {
            fac(c, t, left_part(op))
        } else {
            0
        }) + (if right_of(op) == t {
            fac(c, t, right_part(op))
        } else {
            0
        })
    } else if is_unary(op) {
        if arg_of(op) == t {
            fac(c, t, arg_part(op))
        } else {
            0
        }
    } else {
        0
    }
}

/// The contributions flowing into node `n` from consumers with index in
/// `(n, j]`: for each reachable consumer, its adjoint times the sum of its
/// edge factors pointing at `n`.
pub open spec fn consumer_sum(
    g: Seq<Op>,
    root: int,
    fac: spec_fn(int, int, Part) -> int,
    n: int,
    j: int,
) -> int
    decreases root - n, j - n,
{
    if j <= n || root < n {
        0
    } else {
        (if 0 <= j <= root && j < g.len() && reachable(g, root, j) {
            adjoint(g, root, fac, j) * factor_sum(g[j], j, n, fac)
        } else {
            0
        }) + consumer_sum(g, root, fac, n, j - 1)
    }
}

/// The adjoint of node `n`: the chain-rule gradient of the root with respect
/// to `n`, under the factor assignment `fac`.  It satisfies the chain-rule
/// recurrence: the root's adjoint is 1, and every other node's adjoint is
/// the sum, over the reachable consumers of the node and each edge by which
/// they consume it, of the consumer's adjoint times that edge's local
/// factor.  Unfolding the recurrence shows this equals the sum over all
/// paths from `n` to the root of the product of the factors along each path.
pub open spec fn adjoint(
    g: Seq<Op>,
    root: int,
    fac: spec_fn(int, int, Part) -> int,
    n: int,
) -> int
    decreases root - n, root + 1 - n,
{
    if n < 0 || root < n {
        seed(root, n)
    } else {
        seed(root, n) + consumer_sum(g, root, fac, n, root)
    }
}

/// One gradient contribution replayed over a gradient state: the consumer's
/// gradient times the step's local factor is added to the target's gradient.
pub open spec fn apply_step(
    state: Seq<int>,
    s: Step,
    fac: spec_fn(int, int, Part) -> int,
) -> Seq<int> {
    state.update(
        s.target as int,
        state[s.target as int] + state[s.consumer as int] * fac(
            s.consumer as int,
            s.target as int,
            s.part,
        ),
    )
}

/// The gradient state after replaying the contributions `t` in order,
/// starting from `state`.
pub open spec fn run_tape(
    t: Seq<Step>,
    fac: spec_fn(int, int, Part) -> int,
    state: Seq<int>,
) -> Seq<int>
    decreases t.len(),
{
    if t.len() == 0 {
        state
    } else {
        run_tape(t.drop_first(), fac, apply_step(state, t[0], fac))
    }
}

/// The gradient state at the start of a backward pass over `len` nodes:
/// 1 at the root, 0 everywhere else.
pub open spec fn start_state(len: nat, root: int) -> Seq<int> {
    Seq::new(len, |k: int| seed(root, k))
}

proof fn lemma_run_tape_concat(
    a: Seq<Step>,
    b: Seq<Step>,
    fac: spec_fn(int, int, Part) -> int,
    state: Seq<int>,
)
    ensures
        run_tape(a + b, fac, state) == run_tape(b, fac, run_tape(a, fac, state)),
    decreases a.len(),
{
    if a.len() == 0 {
        assert(a + b =~= b);
    } else {
        assert((a + b).drop_first() =~= a.drop_first() + b);
        assert((a + b)[0] == a[0]);
        lemma_run_tape_concat(a.drop_first(), b, fac, apply_step(state, a[0], fac));
    }
}

proof fn lemma_apply_one(
    state: Seq<int>,
    fac: spec_fn(int, int, Part) -> int,
    c: usize,
    x: usize,
    px: Part,
    adj: int,
)
    requires
        x < c,
        (c as int) < state.len(),
        state[c as int] == adj,
    ensures
        ({
            let out = run_tape(seq![(Step { consumer: c, target: x, part: px })], fac, state);
            out.len() == state.len() && forall|n: int|
                0 <= n < state.len() ==> out[n] == state[n] + (if x as int == n {
                    adj * fac(c as int, n, px)
                } else {
                    0
                })
        }),
{
    reveal_with_fuel(run_tape, 2);
    let s1 = Step { consumer: c, target: x, part: px };
    let t = seq![s1];
    assert(t.drop_first() =~= Seq::<Step>::empty());
    assert(run_tape(t, fac, state) == apply_step(state, s1, fac));
}

proof fn lemma_apply_two(
    state: Seq<int>,
    fac: spec_fn(int, int, Part) -> int,
    c: usize,
    l: usize,
    r: usize,
    pl: Part,
    pr: Part,
    adj: int,
)
    requires
        l < c,
        r < c,
        (c as int) < state.len(),
        state[c as int] == adj,
    ensures
        ({
            let out = run_tape(
                seq![
                    (Step { consumer: c, target: l, part: pl }),
                    (Step { consumer: c, target: r, part: pr }),
                ],
                fac,
                state,
            );
            out.len() == state.len() && forall|n: int|
                0 <= n < state.len() ==> out[n] == state[n] + (if l as int == n {
                    adj * fac(c as int, n, pl)
                } else {
                    0
                }) + (if r as int == n {
                    adj * fac(c as int, n, pr)
                } else {
                    0
                })
        }),
{
    reveal_with_fuel(run_tape, 3);
    let s1 = Step { consumer: c, target: l, part: pl };
    let s2 = Step { consumer: c, target: r, part: pr };
    let t = seq![s1, s2];
    assert(t.drop_first() =~= seq![s2]);
    assert(seq![s2].drop_first() =~= Seq::<Step>::empty());
    let m1 = apply_step(state, s1, fac);
    let m2 = apply_step(m1, s2, fac);
    assert(run_tape(t, fac, state) == m2);
    assert(m1[c as int] == state[c as int]);
}

/// Processing one reachable consumer node `c` adds `adjoint(c)` times the
/// matching edge factor to each of its operands, and touches nothing else.
proof fn lemma_node_apply(
    g: Seq<Op>,
    root: int,
    fac: spec_fn(int, int, Part) -> int,
    c: int,
    state: Seq<int>,
)
    requires
        ops_wf(g),
        0 <= c < g.len(),
        g.len() <= usize::MAX,
        state.len() == g.len(),
        state[c] == adjoint(g, root, fac, c),
    ensures
        ({
            let out = run_tape(node_steps(g[c], c as usize), fac, state);
            out.len() == state.len() && forall|n: int|
                0 <= n < g.len() ==> out[n] == state[n] + adjoint(g, root, fac, c) * factor_sum(
                    g[c],
                    c,
                    n,
                    fac,
                )
        }),
{
    let adj = adjoint(g, root, fac, c);
    let op = g[c];
    assert(op_wf(op, c));
    let out = run_tape(node_steps(op, c as usize), fac, state);
    if is_binary(op) {
        let l = left_of(op);
        let r = right_of(op);
        lemma_apply_two(state, fac, c as usize, l, r, left_part(op), right_part(op), adj);
        assert forall|n: int| 0 <= n < g.len() implies out[n] == state[n] + adj * factor_sum(
            op,
            c,
            n,
            fac,
        ) by {
            let a = if l as int == n {
                fac(c, n, left_part(op))
            } else {
                0
            };
            let b = if r as int == n {
                fac(c, n, right_part(op))
            } else {
                0
            };
            assert(factor_sum(op, c, n, fac) == a + b);
            assert(adj * (a + b) == adj * a + adj * b) by (nonlinear_arith);
        }
    } else if is_unary(op) {
        lemma_apply_one(state, fac, c as usize, arg_of(op), arg_part(op), adj);
    } else {
        assert(node_steps(op, c as usize) =~= Seq::<Step>::empty());
        assert forall|n: int| 0 <= n < g.len() implies out[n] == state[n] + adj * factor_sum(
            op,
            c,
            n,
            fac,
        ) by {
            assert(factor_sum(op, c, n, fac) == 0);
        }
    }
}

proof fn lemma_run_tape_from(
    g: Seq<Op>,
    root: int,
    fac: spec_fn(int, int, Part) -> int,
    i: int,
    state: Seq<int>,
)
    requires
        ops_wf(g),
        0 <= root < g.len(),
        g.len() <= usize::MAX,
        0 <= i <= root + 1,
        state.len() == g.len(),
        forall|n: int|
            0 <= n < g.len() ==> state[n] == adjoint(g, root, fac, n) - consumer_sum(
                g,
                root,
                fac,
                n,
                i - 1,
            ),
    ensures
        ({
            let out = run_tape(tape_from(g, root, i), fac, state);
            out.len() == g.len() && forall|n: int|
                0 <= n < g.len() ==> out[n] == adjoint(g, root, fac, n)
        }),
    decreases i,
{
    if i == 0 {
        assert(tape_from(g, root, 0) =~= Seq::<Step>::empty());
        assert forall|n: int| 0 <= n < g.len() implies state[n] == adjoint(g, root, fac, n) by {
            assert(consumer_sum(g, root, fac, n, -1) == 0);
        }
    } else {
        let c = i - 1;
        let part = if reachable(g, root, c) {
            node_steps(g[c], c as usize)
        } else {
            Seq::<Step>::empty()
        };
        assert(tape_from(g, root, i) == part + tape_from(g, root, c));
        lemma_run_tape_concat(part, tape_from(g, root, c), fac, state);
        let state1 = run_tape(part, fac, state);
        assert(consumer_sum(g, root, fac, c, c) == 0);
        assert(state[c] == adjoint(g, root, fac, c));
        if reachable(g, root, c) {
            lemma_node_apply(g, root, fac, c, state);
        }
        assert forall|n: int| 0 <= n < g.len() implies state1[n] == adjoint(g, root, fac, n)
            - consumer_sum(g, root, fac, n, c - 1) by {
            assert(op_wf(g[c], c));
            if c > n {
                assert(consumer_sum(g, root, fac, n, c) == (if 0 <= c <= root && c < g.len()
                    && reachable(g, root, c) {
                    adjoint(g, root, fac, c) * factor_sum(g[c], c, n, fac)
                } else {
                    0
                }) + consumer_sum(g, root, fac, n, c - 1));
            } else {
                assert(consumer_sum(g, root, fac, n, c) == 0);
                assert(consumer_sum(g, root, fac, n, c - 1) == 0);
                assert(factor_sum(g[c], c, n, fac) == 0);
            }
        }
        lemma_run_tape_from(g, root, fac, c, state1);
    }
}

/// The accumulation theorem for the backward pass.
///
/// For any assignment `fac` of local derivative factors to the graph's
/// edges, replaying the whole contribution sequence `tape(g, root)` with
/// `+=` semantics — starting from the state that seeds the root's gradient
/// with 1 and every other gradient with 0 — leaves every node's gradient
/// equal to its adjoint: the chain-rule sum, over all paths from the node to
/// the root, of the product of the local factors along each path.  A node
/// reachable through several paths therefore accumulates exactly one
/// contribution per incoming edge — none is lost, none is counted twice —
/// and an unreachable node's gradient stays 0.
pub proof fn lemma_backward_chain_rule(
    g: Seq<Op>,
    root: int,
    fac: spec_fn(int, int, Part) -> int,
)
    requires
        ops_wf(g),
        0 <= root < g.len(),
        g.len() <= usize::MAX,
    ensures
        ({
            let out = run_tape(tape(g, root), fac, start_state(g.len(), root));
            out.len() == g.len() && forall|n: int|
                0 <= n < g.len() ==> out[n] == adjoint(g, root, fac, n)
        }),
{
    let state = start_state(g.len(), root);
    assert forall|n: int| 0 <= n < g.len() implies state[n] == adjoint(g, root, fac, n)
        - consumer_sum(g, root, fac, n, root) by {
        if root < n {
            assert(consumer_sum(g, root, fac, n, root) == 0);
        }
    }
    lemma_run_tape_from(g, root, fac, root + 1, state);
}

} // verus!
