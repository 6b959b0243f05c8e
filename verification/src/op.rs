use vstd::prelude::*;

verus! {

/// The provenance of one node in the computation graph: either a leaf (an
/// input with no recorded operation) or one arithmetic operation, carrying
/// the indices of the operand node(s).  Operand indices always point at
/// nodes created strictly earlier, so the graph is acyclic by construction.
#[derive(Clone, Copy, PartialEq, Eq, Structural, Debug)]
pub enum Op {
    Leaf,
    Add(usize, usize),
    Sub(usize, usize),
    Mul(usize, usize),
    Div(usize, usize),
    Pow(usize, usize),
    Exp(usize),
    Tanh(usize),
}

/// Which local partial-derivative rule a backward contribution applies.
/// Writing `g` for the consumer node's accumulated gradient, `data(k)` for a
/// node's forward value and `cur` for the consumer's own forward value, the
/// factor that multiplies `g` is:
///
/// - `AddLeft`, `AddRight`, `SubLeft`: `1`
/// - `SubRight`: `-1`
/// - `MulLeft`: `data(right)`; `MulRight`: `data(left)`
/// - `DivNum`: `1 / data(den)`; `DivDen`: `-data(num) / data(den)^2`
/// - `PowBase`: `data(exp) * data(base)^(data(exp) - 1)`
/// - `PowExp`: `cur * ln(data(base))`
/// - `ExpArg`: `cur` (the consumer already holds `e^x`)
/// - `TanhArg`: `1 - cur^2` (the consumer already holds `tanh(x)`)
#[derive(Clone, Copy, PartialEq, Eq, Structural, Debug)]
pub enum Part {
    AddLeft,
    AddRight,
    SubLeft,
    SubRight,
    MulLeft,
    MulRight,
    DivNum,
    DivDen,
    PowBase,
    PowExp,
    ExpArg,
    TanhArg,
}

/// One gradient contribution of a backward pass: the gradient of `consumer`,
/// multiplied by the local factor that `part` names, is added to the gradient
/// of `target`.
#[derive(Clone, Copy, PartialEq, Eq, Structural, Debug)]
pub struct Step {
    pub consumer: usize,
    pub target: usize,
    pub part: Part,
}

/// Whether `op` takes two operands.
pub open spec fn is_binary(op: Op) -> bool {
    match op {
        Op::Add(l, r) => true,
        Op::Sub(l, r) => true,
        Op::Mul(l, r) => true,
        Op::Div(l, r) => true,
        Op::Pow(l, r) => true,
        _ => false,
    }
}

/// Whether `op` takes one operand.
pub open spec fn is_unary(op: Op) -> bool {
    match op {
        Op::Exp(x) => true,
        Op::Tanh(x) => true,
        _ => false,
    }
}

/// The left operand of a binary operation (meaningless otherwise).
pub open spec fn left_of(op: Op) -> usize {
    match op {
        Op::Add(l, r) => l,
        Op::Sub(l, r) => l,
        Op::Mul(l, r) => l,
        Op::Div(l, r) => l,
        Op::Pow(l, r) => l,
        _ => 0,
    }
}

/// The right operand of a binary operation (meaningless otherwise).
pub open spec fn right_of(op: Op) -> usize {
    match op {
        Op::Add(l, r) => r,
        Op::Sub(l, r) => r,
        Op::Mul(l, r) => r,
        Op::Div(l, r) => r,
        Op::Pow(l, r) => r,
        _ => 0,
    }
}

/// The operand of a unary operation (meaningless otherwise).
pub open spec fn arg_of(op: Op) -> usize {
    match op {
        Op::Exp(x) => x,
        Op::Tanh(x) => x,
        _ => 0,
    }
}

/// The derivative rule applied to the left operand of a binary operation.
pub open spec fn left_part(op: Op) -> Part {
    match op {
        Op::Sub(l, r) => Part::SubLeft,
        Op::Mul(l, r) => Part::MulLeft,
        Op::Div(l, r) => Part::DivNum,
        Op::Pow(l, r) => Part::PowBase,
        _ => Part::AddLeft,
    }
}

/// The derivative rule applied to the right operand of a binary operation.
pub open spec fn right_part(op: Op) -> Part {
    match op {
        Op::Sub(l, r) => Part::SubRight,
        Op::Mul(l, r) => Part::MulRight,
        Op::Div(l, r) => Part::DivDen,
        Op::Pow(l, r) => Part::PowExp,
        _ => Part::AddRight,
    }
}

/// The derivative rule applied to the operand of a unary operation.
pub open spec fn arg_part(op: Op) -> Part {
    match op {
        Op::Tanh(x) => Part::TanhArg,
        _ => Part::ExpArg,
    }
}

/// A node's operation is well formed at position `i` when every operand
/// index points strictly below `i`.
pub open spec fn op_wf(op: Op, i: int) -> bool {
    if is_binary(op) {
        left_of(op) < i && right_of(op) < i
    } else if is_unary(op) {
        arg_of(op) < i
    } else {
        true
    }
}

/// Every node's operand indices point strictly below the node, so operand
/// edges can never form a cycle.
pub open spec fn ops_wf(g: Seq<Op>) -> bool {
    forall|i: int| 0 <= i < g.len() ==> op_wf(#[trigger] g[i], i)
}

/// Whether node index `t` is an operand of `op`.
pub open spec fn uses(op: Op, t: int) -> bool {
    if is_binary(op) {
        left_of(op) == t || right_of(op) == t
    } else if is_unary(op) {
        arg_of(op) == t
    } else {
        false
    }
}

/// The gradient contributions that node `c` pushes onto its operands when it
/// is processed: one step per operand edge, left operand first.
pub open spec fn node_steps(op: Op, c: usize) -> Seq<Step> {
    if is_binary(op) {
        seq![
            (Step { consumer: c, target: left_of(op), part: left_part(op) }),
            (Step { consumer: c, target: right_of(op), part: right_part(op) }),
        ]
    } else if is_unary(op) {
        seq![(Step { consumer: c, target: arg_of(op), part: arg_part(op) })]
    } else {
        Seq::<Step>::empty()
    }
}

} // verus!
