use rand::SeedableRng;
use scalargrad::nn::{Layer, LinearLayer, Network, Neuron};
use scalargrad::node::{add, leaky_relu, pow, sub, val, Graph};
use scalargrad::optimizer::Optimizer;

fn b(x: f32) -> u32 {
    x.to_bits()
}

fn f(x: u32) -> f32 {
    f32::from_bits(x)
}

#[test]
fn neuron_forward_matches_manual_sum() {
    let mut rng = rand::rngs::StdRng::seed_from_u64(7);
    let mut g = Graph::new();
    let n = Neuron::new(&mut g, 2, &mut rng);
    // The two weights and the bias are the first three nodes.
    let w0 = f(g.output(0));
    let w1 = f(g.output(1));
    let bias = f(g.output(2));
    let x0 = val(&mut g, b(1.5), false);
    let x1 = val(&mut g, b(-2.0), false);
    let o = n.forward(&mut g, &vec![x0, x1]);
    let want = ((0.0f32 + w0 * 1.5f32) + w1 * -2.0f32) + bias;
    assert_eq!(f(g.output(o)), want);
}

#[test]
fn parameters_are_in_init_range_and_trainable() {
    let mut rng = rand::rngs::StdRng::seed_from_u64(3);
    let mut g = Graph::new();
    let layer = LinearLayer::new(&mut g, 4, 3, &mut rng);
    let params = layer.parameters();
    assert_eq!(params.len(), 4 * 3 + 3);
    for &p in &params {
        let v = f(g.output(p));
        assert!(v >= 0.0 && v < 0.01, "init value {v} out of range");
        assert!(g.trainable(p));
        assert_eq!(f(g.grad(p)), 0.0);
    }
}

#[test]
fn network_shape_and_determinism() {
    let run = |seed: u64| {
        let mut rng = rand::rngs::StdRng::seed_from_u64(seed);
        let mut g = Graph::new();
        let nn = Network::new(&mut g, &mut rng);
        assert_eq!(nn.parameters().len(), (4 * 10 + 10) + (10 * 3 + 3));
        let xs = vec![
            val(&mut g, b(1.0), false),
            val(&mut g, b(2.0), false),
            val(&mut g, b(3.0), false),
            val(&mut g, b(4.0), false),
        ];
        let ys = nn.forward(&mut g, &xs);
        assert_eq!(ys.len(), 3);
        ys.iter().map(|&i| g.output(i)).collect::<Vec<u32>>()
    };
    assert_eq!(run(42), run(42));
}

#[test]
fn training_shrinks_sum_of_squares() {
    // Gradient descent on leaky_relu(a^2 + b^2) squared, as a small
    // integration of graph building, backward and per-node steps.
    let mut g = Graph::new();
    let a = val(&mut g, b(3.0), true);
    let c = val(&mut g, b(2.0), true);
    let target = val(&mut g, b(0.0), false);
    let lr = b(0.01);
    let first_loss = {
        let sq = add_of_squares(&mut g, a, c);
        let l = leaky_relu(&mut g, sq);
        let d = sub(&mut g, l, target);
        let p = pow(&mut g, d, b(2.0));
        f(g.output(p))
    };
    for _ in 0..200 {
        let sq = add_of_squares(&mut g, a, c);
        let l = leaky_relu(&mut g, sq);
        let d = sub(&mut g, l, target);
        let loss = pow(&mut g, d, b(2.0));
        g.backward(loss);
        g.step(a, lr);
        g.step(c, lr);
        g.zero_grad(a);
        g.zero_grad(c);
    }
    let last_loss = {
        let sq = add_of_squares(&mut g, a, c);
        let l = leaky_relu(&mut g, sq);
        let d = sub(&mut g, l, target);
        let p = pow(&mut g, d, b(2.0));
        f(g.output(p))
    };
    assert!(last_loss < first_loss / 10.0, "{first_loss} -> {last_loss}");
}

fn add_of_squares(g: &mut Graph, a: usize, c: usize) -> usize {
    let pa = pow(g, a, b(2.0));
    let pc = pow(g, c, b(2.0));
    add(g, pa, pc)
}

#[test]
fn network_training_reduces_loss() {
    let mut rng = rand::rngs::StdRng::seed_from_u64(12);
    let mut g = Graph::new();
    let nn = Network::new(&mut g, &mut rng);
    let opt = Optimizer::new(nn.parameters(), b(0.05));
    let xs = vec![
        val(&mut g, b(1.0), false),
        val(&mut g, b(2.0), false),
        val(&mut g, b(3.0), false),
        val(&mut g, b(4.0), false),
    ];
    let targets = vec![b(4.0), b(1.3), b(2.0)];
    let mut losses: Vec<f32> = Vec::new();
    for _ in 0..30 {
        let ys = nn.forward(&mut g, &xs);
        let mut loss = val(&mut g, b(0.0), true);
        for j in 0..ys.len() {
            let t = val(&mut g, targets[j], false);
            let d = sub(&mut g, ys[j], t);
            let sq = pow(&mut g, d, b(2.0));
            loss = add(&mut g, loss, sq);
        }
        losses.push(f(g.output(loss)));
        g.backward(loss);
        opt.step(&mut g);
        opt.zero_grad(&mut g);
    }
    assert!(losses[losses.len() - 1] < losses[0], "{losses:?}");
}
