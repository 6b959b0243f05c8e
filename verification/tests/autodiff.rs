use micrograd::graph::Graph;
use micrograd::op::{Op, Part, Step};

fn float_cmp(left: f64, right: f64, tolerance: f64) -> Result<(), String> {
    if (left - right).abs() < tolerance {
        Ok(())
    } else {
        Err(format!("float assertion `left == right` failed (tolerance={tolerance}).\n   left: {left}\n  right: {right}\n"))
    }
}

/// Forward evaluation: node values in creation order, leaves taking their
/// values from `leaf_vals` in creation order.
fn forward(g: &Graph, leaf_vals: &[f64]) -> Vec<f64> {
    let mut data = vec![0.0; g.len()];
    let mut next_leaf = 0;
    for i in 0..g.len() {
        data[i] = match g.op_at(i) {
            Op::Leaf => {
                let v = leaf_vals[next_leaf];
                next_leaf += 1;
                v
            }
            Op::Add(l, r) => data[l] + data[r],
            Op::Sub(l, r) => data[l] - data[r],
            Op::Mul(l, r) => data[l] * data[r],
            Op::Div(l, r) => data[l] / data[r],
            Op::Pow(l, r) => data[l].powf(data[r]),
            Op::Exp(x) => data[x].exp(),
            Op::Tanh(x) => data[x].tanh(),
        };
    }
    assert_eq!(next_leaf, leaf_vals.len());
    data
}

/// The local derivative factor a backward step applies.
fn factor(g: &Graph, data: &[f64], s: &Step) -> f64 {
    let op = g.op_at(s.consumer);
    match (op, s.part) {
        (_, Part::AddLeft) | (_, Part::AddRight) | (_, Part::SubLeft) => 1.0,
        (_, Part::SubRight) => -1.0,
        (Op::Mul(_, r), Part::MulLeft) => data[r],
        (Op::Mul(l, _), Part::MulRight) => data[l],
        (Op::Div(_, d), Part::DivNum) => 1.0 / data[d],
        (Op::Div(n, d), Part::DivDen) => -data[n] / (data[d] * data[d]),
        (Op::Pow(b, e), Part::PowBase) => data[e] * data[b].powf(data[e] - 1.0),
        (Op::Pow(b, _), Part::PowExp) => data[s.consumer] * data[b].ln(),
        (_, Part::ExpArg) => data[s.consumer],
        (_, Part::TanhArg) => 1.0 - data[s.consumer] * data[s.consumer],
        _ => unreachable!(),
    }
}

/// Replays the backward pass over `grad`, accumulating contributions.
fn apply_backward(g: &Graph, data: &[f64], root: usize, grad: &mut [f64]) {
    grad[root] = 1.0;
    for s in g.backward(root) {
        grad[s.target] += grad[s.consumer] * factor(g, data, &s);
    }
}

fn backward_grads(g: &Graph, data: &[f64], root: usize) -> Vec<f64> {
    let mut grad = vec![0.0; g.len()];
    apply_backward(g, data, root, &mut grad);
    grad
}

#[test]
fn backprop() {
    let mut g = Graph::new();
    let a = g.leaf();
    g.set_label(a, "a".to_owned());
    let b = g.leaf();
    g.set_label(b, "b".to_owned());
    let c = g.leaf();
    g.set_label(c, "c".to_owned());
    let e = g.mul(a, b);
    g.set_label(e, "e".to_owned());
    let d = g.add(e, c);
    g.set_label(d, "d".to_owned());
    let f = g.leaf();
    g.set_label(f, "f".to_owned());
    let l = g.mul(d, f);
    g.set_label(l, "L".to_owned());

    let data = forward(&g, &[2., -3., 10., -2.]);
    assert_eq!(data[e], -6.);
    assert_eq!(data[d], 4.);
    assert_eq!(data[l], -8.);

    let grad = backward_grads(&g, &data, l);

    assert_eq!(grad[l], 1.);
    assert_eq!(grad[d], -2.);
    assert_eq!(grad[f], 4.);
    assert_eq!(grad[c], -2.);
    assert_eq!(grad[e], -2.);
    assert_eq!(grad[a], 6.);
    assert_eq!(grad[b], -4.);
}

#[test]
fn simple_backward() {
    let mut g = Graph::new();
    let a = g.leaf();
    let b = g.leaf();
    let c = g.leaf();
    let e = g.mul(a, b);
    let d = g.add(e, c);
    let f = g.leaf();
    let l = g.mul(d, f);

    let data = forward(&g, &[2., -3., 10., -2.]);
    assert_eq!(data[e], -6.);
    assert_eq!(data[d], 4.);
    assert_eq!(data[l], -8.);

    let grad = backward_grads(&g, &data, l);

    assert_eq!(grad[l], 1.);
    assert_eq!(grad[d], -2.);
    assert_eq!(grad[f], 4.);
    assert_eq!(grad[c], -2.);
    assert_eq!(grad[e], -2.);
    assert_eq!(grad[a], 6.);
    assert_eq!(grad[b], -4.);
}

#[test]
fn simple_tanh() {
    let mut g = Graph::new();
    let x1 = g.leaf();
    let x2 = g.leaf();
    let w1 = g.leaf();
    let w2 = g.leaf();
    let b = g.leaf();
    let x1w1 = g.mul(x1, w1);
    let x2w2 = g.mul(x2, w2);
    let x1w1x2w2 = g.add(x1w1, x2w2);
    let n = g.add(x1w1x2w2, b);
    let o = g.tanh(n);

    let data = forward(&g, &[2., 0., -3., 1., 6.8813735870195432]);
    let grad = backward_grads(&g, &data, o);

    let tolerance = 0.00001;
    float_cmp(grad[n], 0.5, tolerance).unwrap_or_else(|err| panic!("{err}"));
    float_cmp(grad[x1w1], 0.5, tolerance).unwrap_or_else(|err| panic!("{err}"));
    float_cmp(grad[x2w2], 0.5, tolerance).unwrap_or_else(|err| panic!("{err}"));
    float_cmp(grad[x2], 0.5, tolerance).unwrap_or_else(|err| panic!("{err}"));
    float_cmp(grad[x1], -1.5, tolerance).unwrap_or_else(|err| panic!("{err}"));
    float_cmp(grad[w1], 1., tolerance).unwrap_or_else(|err| panic!("{err}"));
    float_cmp(grad[w2], 0., tolerance).unwrap_or_else(|err| panic!("{err}"));
}

#[test]
fn complicated_tanh() {
    let mut g = Graph::new();
    let x1 = g.leaf();
    let x2 = g.leaf();
    let w1 = g.leaf();
    let w2 = g.leaf();
    let b = g.leaf();
    let x1w1 = g.mul(x1, w1);
    let x2w2 = g.mul(x2, w2);
    let x1w1x2w2 = g.add(x1w1, x2w2);
    let n = g.add(x1w1x2w2, b);
    // tanh = (e^(2x) - 1) / (e^(2x) + 1)
    let two = g.leaf();
    let twox = g.mul(two, n);
    let e2x = g.exp(twox);
    let one_num = g.leaf();
    let num = g.sub(e2x, one_num);
    let one_den = g.leaf();
    let den = g.add(e2x, one_den);
    let o = g.div(num, den);

    let data = forward(&g, &[2., 0., -3., 1., 6.8813735870195432, 2., 1., 1.]);

    let tolerance = 0.00001;
    float_cmp(data[o], 0.7071, tolerance).unwrap_or_else(|err| panic!("{err}"));

    let grad = backward_grads(&g, &data, o);

    // Only need to compare leaf nodes gradients.
    float_cmp(grad[x2], 0.5, tolerance).unwrap_or_else(|err| panic!("{err}"));
    float_cmp(grad[x1], -1.5, tolerance).unwrap_or_else(|err| panic!("{err}"));
    float_cmp(grad[w1], 1., tolerance).unwrap_or_else(|err| panic!("{err}"));
    float_cmp(grad[w2], 0., tolerance).unwrap_or_else(|err| panic!("{err}"));
}

#[test]
fn exp_test() {
    let mut g = Graph::new();
    let x = g.leaf();
    let f = g.exp(x);
    let data = forward(&g, &[2.]);
    let grad = backward_grads(&g, &data, f);
    let tolerance = 0.001;
    float_cmp(grad[x], 7.389, tolerance).unwrap_or_else(|err| panic!("{err}"));
    float_cmp(grad[f], 1., tolerance).unwrap_or_else(|err| panic!("{err}"));
}

#[test]
fn doubly_referenced_addition() {
    let mut g = Graph::new();
    let a = g.leaf();
    let b = g.add(a, a);
    let data = forward(&g, &[3.]);
    let grad = backward_grads(&g, &data, b);
    assert_eq!(grad[a], 2.);
}

#[test]
fn doubly_referenced_multiplication() {
    let mut g = Graph::new();
    let a = g.leaf();
    let b = g.mul(a, a);
    let data = forward(&g, &[3.]);
    let grad = backward_grads(&g, &data, b);
    assert_eq!(grad[a], 6.);
}

#[test]
fn fully_connected_layer() {
    let mut g = Graph::new();
    let a = g.leaf();
    let b = g.leaf();
    let c = g.add(a, b);
    let d = g.mul(a, b);
    let e = g.mul(c, d);
    let data = forward(&g, &[-2., 3.]);
    let grad = backward_grads(&g, &data, e);

    let tolerance = 0.00001;
    float_cmp(grad[a], -3., tolerance).unwrap_or_else(|err| panic!("{err}"));
    float_cmp(grad[b], -8., tolerance).unwrap_or_else(|err| panic!("{err}"));
    float_cmp(grad[c], -6., tolerance).unwrap_or_else(|err| panic!("{err}"));
    float_cmp(grad[d], 1., tolerance).unwrap_or_else(|err| panic!("{err}"));
    float_cmp(grad[e], 1., tolerance).unwrap_or_else(|err| panic!("{err}"));
}

#[test]
fn pow_test() {
    let mut g = Graph::new();
    let a = g.leaf();
    let b = g.leaf();
    let c = g.pow(a, b);

    let data = forward(&g, &[2., 3.]);

    let tolerance = 0.00001;
    float_cmp(data[c], 8., tolerance).unwrap_or_else(|err| panic!("{err}"));

    let grad = backward_grads(&g, &data, c);

    float_cmp(grad[a], 12., tolerance).unwrap_or_else(|err| panic!("{err}"));
    float_cmp(grad[b], 2.0f64.powf(3.) * 2.0f64.ln(), tolerance)
        .unwrap_or_else(|err| panic!("{err}"));
}

#[test]
fn div_test() {
    let mut g = Graph::new();
    let a = g.leaf();
    let b = g.leaf();
    let c = g.div(a, b);

    let data = forward(&g, &[4., 2.]);

    let tolerance = 0.00001;
    float_cmp(data[c], 2., tolerance).unwrap_or_else(|err| panic!("{err}"));

    let grad = backward_grads(&g, &data, c);

    float_cmp(grad[a], 0.5, tolerance).unwrap_or_else(|err| panic!("{err}"));
    float_cmp(grad[b], -1., tolerance).unwrap_or_else(|err| panic!("{err}"));
}
