use scalargrad::node::{
    add, array_to_val, div, exp, leaky_relu, log2, mul, neg, pow, relu, softmax, sub, tanh, val,
    Graph,
};
use scalargrad::optimizer::Optimizer;

fn b(x: f32) -> u32 {
    x.to_bits()
}

fn f(x: u32) -> f32 {
    f32::from_bits(x)
}

fn close(a: f32, want: f32, tol: f32) -> bool {
    (a - want).abs() <= tol
}

#[test]
fn forward_add_sub_mul_div_neg_exact() {
    let mut g = Graph::new();
    let a = val(&mut g, b(1.5), false);
    let c = val(&mut g, b(-2.25), false);
    let s = add(&mut g, a, c);
    let d = sub(&mut g, a, c);
    let m = mul(&mut g, a, c);
    let q = div(&mut g, a, c);
    let n = neg(&mut g, a);
    assert_eq!(g.output(s), b(1.5f32 + -2.25f32));
    assert_eq!(g.output(d), b(1.5f32 - -2.25f32));
    assert_eq!(g.output(m), b(1.5f32 * -2.25f32));
    assert_eq!(g.output(q), b(1.5f32 / -2.25f32));
    assert_eq!(g.output(n), b(-1.5f32));
}

#[test]
fn forward_transcendentals_match_std() {
    for &x in &[0.5f32, 1.0, 2.0, 3.0, -1.25, 0.1] {
        let mut g = Graph::new();
        let a = val(&mut g, b(x), false);
        let e = exp(&mut g, a);
        let t = tanh(&mut g, a);
        assert!(
            close(f(g.output(e)), x.exp(), x.exp().abs() * 1e-6 + 1e-9),
            "exp({x}) = {} want {}",
            f(g.output(e)),
            x.exp()
        );
        assert!(
            close(f(g.output(t)), x.tanh(), 1e-6),
            "tanh({x}) = {} want {}",
            f(g.output(t)),
            x.tanh()
        );
        if x > 0.0 {
            let l = log2(&mut g, a);
            assert!(
                close(f(g.output(l)), x.log2(), 1e-6),
                "log2({x}) = {} want {}",
                f(g.output(l)),
                x.log2()
            );
        }
    }
}

#[test]
fn forward_exp_specials() {
    let mut g = Graph::new();
    let z = val(&mut g, b(0.0), false);
    let big = val(&mut g, b(1000.0), false);
    let low = val(&mut g, b(-1000.0), false);
    let ez = exp(&mut g, z);
    let eb = exp(&mut g, big);
    let el = exp(&mut g, low);
    assert_eq!(f(g.output(ez)), 1.0);
    assert_eq!(f(g.output(eb)), f32::INFINITY);
    assert_eq!(f(g.output(el)), 0.0);
}

#[test]
fn forward_relu_and_leaky() {
    let mut g = Graph::new();
    let p = val(&mut g, b(2.5), false);
    let n = val(&mut g, b(-2.5), false);
    let z = val(&mut g, b(0.0), false);
    let rp = relu(&mut g, p);
    let rn = relu(&mut g, n);
    let rz = relu(&mut g, z);
    let lp = leaky_relu(&mut g, p);
    let ln = leaky_relu(&mut g, n);
    assert_eq!(f(g.output(rp)), 2.5);
    assert_eq!(f(g.output(rn)), 0.0);
    assert_eq!(f(g.output(rz)), 0.0);
    assert_eq!(f(g.output(lp)), 2.5);
    assert_eq!(f(g.output(ln)), 0.0);
}

#[test]
fn forward_pow_integer_and_fractional() {
    let mut g = Graph::new();
    let a = val(&mut g, b(3.0), false);
    let m = val(&mut g, b(-2.0), false);
    let q = val(&mut g, b(4.0), false);
    let p2 = pow(&mut g, a, b(2.0));
    let p3 = pow(&mut g, m, b(3.0));
    let ph = pow(&mut g, q, b(0.5));
    let p0 = pow(&mut g, m, b(0.0));
    let pn = pow(&mut g, a, b(-1.0));
    assert_eq!(f(g.output(p2)), 9.0);
    assert_eq!(f(g.output(p3)), -8.0);
    assert!(close(f(g.output(ph)), 2.0, 1e-6));
    assert_eq!(f(g.output(p0)), 1.0);
    assert!(close(f(g.output(pn)), 1.0 / 3.0, 1e-7));
}

#[test]
fn determinism_same_sequence_same_outputs() {
    let build = || {
        let mut g = Graph::new();
        let a = val(&mut g, b(1.25), true);
        let c = val(&mut g, b(-0.75), true);
        let m = mul(&mut g, a, c);
        let t = tanh(&mut g, m);
        let e = exp(&mut g, t);
        let r = div(&mut g, e, a);
        g.output(r)
    };
    assert_eq!(build(), build());
}

// Central finite differences against the analytic gradients, per operation.
fn grad_of_unary(op: fn(&mut Graph, usize) -> usize, x: f32) -> f32 {
    let mut g = Graph::new();
    let a = val(&mut g, b(x), true);
    let y = op(&mut g, a);
    g.backward(y);
    f(g.grad(a))
}

fn fd_unary(fwd: impl Fn(f32) -> f32, x: f32) -> f32 {
    let h = 1e-3f32;
    (fwd(x + h) - fwd(x - h)) / (2.0 * h)
}

#[test]
fn gradcheck_unary_ops() {
    for &x in &[0.5f32, 1.5, -0.5, 2.0] {
        assert!(close(grad_of_unary(neg, x), fd_unary(|v| -v, x), 1e-3));
        assert!(close(grad_of_unary(exp, x), fd_unary(|v| v.exp(), x), 2e-2));
        assert!(close(grad_of_unary(tanh, x), fd_unary(|v| v.tanh(), x), 1e-2));
        if x > 0.0 {
            assert!(close(grad_of_unary(log2, x), fd_unary(|v| v.log2(), x), 1e-2));
        }
        if x != 0.0 {
            assert!(close(grad_of_unary(relu, x), fd_unary(|v| v.max(0.0), x), 1e-3));
        }
    }
}

#[test]
fn gradcheck_binary_ops() {
    let x = 1.5f32;
    let y = -2.5f32;
    let h = 1e-2f32;
    let cases: [(fn(&mut Graph, usize, usize) -> usize, fn(f32, f32) -> f32); 4] = [
        (add, |a, c| a + c),
        (sub, |a, c| a - c),
        (mul, |a, c| a * c),
        (div, |a, c| a / c),
    ];
    for (op, fwd) in cases {
        let mut g = Graph::new();
        let a = val(&mut g, b(x), true);
        let c = val(&mut g, b(y), true);
        let r = op(&mut g, a, c);
        g.backward(r);
        let da = (fwd(x + h, y) - fwd(x - h, y)) / (2.0 * h);
        let dc = (fwd(x, y + h) - fwd(x, y - h)) / (2.0 * h);
        assert!(close(f(g.grad(a)), da, 1e-2));
        assert!(close(f(g.grad(c)), dc, 1e-2));
    }
}

#[test]
fn gradcheck_pow() {
    let mut g = Graph::new();
    let a = val(&mut g, b(3.0), true);
    let y = pow(&mut g, a, b(2.0));
    g.backward(y);
    assert_eq!(f(g.grad(a)), 6.0);

    let mut g2 = Graph::new();
    let a2 = val(&mut g2, b(-2.0), true);
    let y2 = pow(&mut g2, a2, b(3.0));
    g2.backward(y2);
    assert_eq!(f(g2.grad(a2)), 12.0);
}

#[test]
fn grad_at_rectifier_kink() {
    // At exactly zero the stated rule applies a slope of 0 (plain) and
    // 0.01 (leaky).
    let mut g = Graph::new();
    let a = val(&mut g, b(0.0), true);
    let r = relu(&mut g, a);
    g.backward(r);
    assert_eq!(f(g.grad(a)), 0.0);

    let mut g2 = Graph::new();
    let a2 = val(&mut g2, b(0.0), true);
    let l = leaky_relu(&mut g2, a2);
    g2.backward(l);
    assert_eq!(f(g2.grad(a2)), 0.01);
}

#[test]
fn fanout_mul_self_counts_both_edges() {
    let mut g = Graph::new();
    let a = val(&mut g, b(3.0), true);
    let y = mul(&mut g, a, a);
    g.backward(y);
    assert_eq!(f(g.grad(a)), 6.0);
}

#[test]
fn additivity_of_disjoint_summands() {
    let mut g = Graph::new();
    let a = val(&mut g, b(1.5), true);
    let c = val(&mut g, b(2.5), true);
    let fpart = mul(&mut g, a, c);
    let d = val(&mut g, b(-0.5), true);
    let e = val(&mut g, b(4.0), true);
    let gpart = mul(&mut g, d, e);
    let root = add(&mut g, fpart, gpart);
    g.backward(root);

    let mut g1 = Graph::new();
    let a1 = val(&mut g1, b(1.5), true);
    let c1 = val(&mut g1, b(2.5), true);
    let f1 = mul(&mut g1, a1, c1);
    g1.backward(f1);

    let mut g2 = Graph::new();
    let d2 = val(&mut g2, b(-0.5), true);
    let e2 = val(&mut g2, b(4.0), true);
    let f2 = mul(&mut g2, d2, e2);
    g2.backward(f2);

    assert_eq!(g.grad(a), g1.grad(a1));
    assert_eq!(g.grad(c), g1.grad(c1));
    assert_eq!(g.grad(d), g2.grad(d2));
    assert_eq!(g.grad(e), g2.grad(e2));
}

#[test]
fn reset_then_backward_reproduces() {
    let mut g = Graph::new();
    let a = val(&mut g, b(1.25), true);
    let c = val(&mut g, b(-0.5), true);
    let m = mul(&mut g, a, c);
    let t = tanh(&mut g, m);
    let y = mul(&mut g, t, t);
    g.backward(y);
    let ga = g.grad(a);
    let gc = g.grad(c);
    assert!(f(ga) != 0.0);
    for i in 0..g.len() {
        g.zero_grad(i);
    }
    for i in 0..g.len() {
        assert_eq!(f(g.grad(i)), 0.0);
    }
    g.backward(y);
    assert_eq!(g.grad(a), ga);
    assert_eq!(g.grad(c), gc);
}

#[test]
fn optimizer_step_and_zero_grad() {
    let mut g = Graph::new();
    let a = val(&mut g, b(5.0), true);
    let two = val(&mut g, b(2.0), false);
    let y = mul(&mut g, a, two);
    g.backward(y);
    assert_eq!(f(g.grad(a)), 2.0);
    let opt = Optimizer::new_with_batch(vec![a, two], b(0.1), 1);
    opt.step(&mut g);
    assert_eq!(g.output(a), b(5.0f32 - 0.1f32 * 2.0f32));
    assert!(close(f(g.output(a)), 4.8, 1e-6));
    // The non-trainable leaf is untouched although its gradient is nonzero.
    assert_eq!(f(g.grad(two)), 5.0);
    assert_eq!(f(g.output(two)), 2.0);
    opt.zero_grad(&mut g);
    assert_eq!(f(g.grad(a)), 0.0);
    assert_eq!(f(g.grad(two)), 0.0);
}

#[test]
fn optimizer_batch_size_divides_rate() {
    let mut g = Graph::new();
    let a = val(&mut g, b(5.0), true);
    let two = val(&mut g, b(2.0), false);
    let y = mul(&mut g, a, two);
    g.backward(y);
    let opt = Optimizer::new_with_batch(vec![a], b(0.1), 2);
    opt.step(&mut g);
    assert_eq!(g.output(a), b(5.0f32 - (0.1f32 / 2.0f32) * 2.0f32));
}

#[test]
fn softmax_normalizes() {
    let mut g = Graph::new();
    let xs = array_to_val(&mut g, vec![b(1.0), b(2.0), b(3.0)], false);
    let ys = softmax(&mut g, &xs);
    assert_eq!(ys.len(), 3);
    let total: f32 = ys.iter().map(|&i| f(g.output(i))).sum();
    assert!(close(total, 1.0, 1e-5), "softmax sums to {total}");
    // Larger inputs get larger shares, in order.
    assert!(f(g.output(ys[0])) < f(g.output(ys[1])));
    assert!(f(g.output(ys[1])) < f(g.output(ys[2])));
}

#[test]
fn softmax_overflows_without_stabilization() {
    // A known limitation: no subtraction of the maximum is applied, so a
    // large spread overflows the exponential and the outputs are NaN.
    let mut g = Graph::new();
    let xs = array_to_val(&mut g, vec![b(1000.0), b(1001.0), b(1002.0)], false);
    let ys = softmax(&mut g, &xs);
    for &i in &ys {
        assert!(f(g.output(i)).is_nan());
    }
}

#[test]
fn end_to_end_sum_of_squares() {
    let mut g = Graph::new();
    let a = val(&mut g, b(1.0), true);
    let c = val(&mut g, b(2.0), true);
    let pa = pow(&mut g, a, b(2.0));
    let pc = pow(&mut g, c, b(2.0));
    let e = add(&mut g, pa, pc);
    g.backward(e);
    assert_eq!(f(g.grad(a)), 2.0);
    assert_eq!(f(g.grad(c)), 4.0);
}

#[test]
fn division_by_zero_poisons_silently() {
    let mut g = Graph::new();
    let a = val(&mut g, b(1.0), false);
    let z = val(&mut g, b(0.0), false);
    let q = div(&mut g, a, z);
    assert_eq!(f(g.output(q)), f32::INFINITY);
    let m = mul(&mut g, q, z);
    assert!(f(g.output(m)).is_nan());
}

#[test]
fn backward_accumulates_without_reset() {
    // A second backward pass with no reset in between doubles every
    // reachable gradient, the root's included: the seed is summed into the
    // root's gradient, never assigned over it.
    let mut g = Graph::new();
    let a = val(&mut g, b(3.0), true);
    let c = val(&mut g, b(4.0), true);
    let y = mul(&mut g, a, c);
    g.backward(y);
    assert_eq!(f(g.grad(y)), 1.0);
    assert_eq!(f(g.grad(a)), 4.0);
    assert_eq!(f(g.grad(c)), 3.0);
    g.backward(y);
    assert_eq!(f(g.grad(y)), 2.0);
    assert_eq!(f(g.grad(a)), 8.0);
    assert_eq!(f(g.grad(c)), 6.0);
}

#[test]
fn softmax_gradient_matches_analytic() {
    // Backward from one softmax output: the leaf gradients must match the
    // analytic jacobian row r_k * (delta_jk - r_j) of the composed
    // exp/add/div graph.
    let inputs = [1.0f32, 2.0, 3.0];
    for k in 0..3 {
        let mut g = Graph::new();
        let xs = array_to_val(&mut g, inputs.iter().map(|&x| b(x)).collect(), true);
        let ys = softmax(&mut g, &xs);
        g.backward(ys[k]);
        let r: Vec<f32> = ys.iter().map(|&i| f(g.output(i))).collect();
        for j in 0..3 {
            let want = r[k] * (if j == k { 1.0 } else { 0.0 } - r[j]);
            let got = f(g.grad(xs[j]));
            assert!(
                (got - want).abs() <= 1e-3,
                "d r_{k} / d a_{j}: {got} want {want}"
            );
        }
    }
}
