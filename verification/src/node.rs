//! The computational graph: an arena of nodes addressed by index.
//!
//! A node records the operation that produced it, the indices of its
//! operands, its eagerly computed forward value, and its accumulated
//! gradient. Construction only ever references already-existing nodes, so an
//! index order is a topological order of the graph, and the backward driver
//! can process nodes in descending index order: by the time a node is
//! reached, every consumer has already contributed its share of the adjoint,
//! so each node's local rule is applied exactly once, with the fully summed
//! incoming gradient.

use vstd::prelude::*;
use crate::scalar::{
    add_bits, add_s, div_bits, div_s, gt_zero_bits, gt_zero_s, mul_bits, mul_s, neg_bits, neg_s,
    sub_bits, sub_s, LEAKY_SLOPE_BITS, LN2_BITS, ONE_BITS, ZERO_BITS,
};
use crate::transcend::{exp_bits, exp_s, log2_bits, log2_s, pow_bits, pow_s, tanh_bits, tanh_s};

verus! {

/// The elementary operation that produced a node. `Pow` carries the literal
/// exponent as a scalar bit pattern; it has a single node operand, the base.
#[derive(Clone, Copy, Debug)]
pub enum Op {
    Leaf,
    Add,
    Sub,
    Mul,
    Div,
    Neg,
    Pow(u32),
    Exp,
    Log2,
    Tanh,
    Relu,
    LeakyRelu,
}

/// One vertex of the computational graph. For a leaf, `a` and `b` are
/// unused; for a unary operation only `a` is an operand.
#[derive(Clone, Copy, Debug)]
pub struct Node {
    pub op: Op,
    pub a: usize,
    pub b: usize,
    pub value: u32,
    pub grad: u32,
    pub trainable: bool,
}

/// Whether a node at position `i` only references earlier nodes.
pub open spec fn node_wf(n: Node, i: int) -> bool {
    match n.op {
        Op::Leaf => true,
        Op::Add | Op::Sub | Op::Mul | Op::Div => n.a < i && n.b < i,
        _ => n.a < i,
    }
}

/// Well-formedness of the arena: every node references earlier nodes only,
/// so the graph is acyclic and index order is a topological order.
pub open spec fn wf(s: Seq<Node>) -> bool {
    forall|i: int| 0 <= i < s.len() ==> node_wf(#[trigger] s[i], i)
}

/// Equality of everything except the gradient accumulator.
pub open spec fn same_shape(x: Node, y: Node) -> bool {
    x.op == y.op && x.a == y.a && x.b == y.b && x.value == y.value && x.trainable == y.trainable
}

/// A freshly constructed operation node: gradient zero, eligible for
/// gradient flow.
pub open spec fn new_op_node(op: Op, a: usize, b: usize, value: u32) -> Node {
    Node { op, a, b, value, grad: ZERO_BITS, trainable: true }
}

/// A freshly constructed leaf.
pub open spec fn new_leaf_node(value: u32, trainable: bool) -> Node {
    Node { op: Op::Leaf, a: 0, b: 0, value, grad: ZERO_BITS, trainable }
}

/// `adj[j] += d` on the per-pass adjoints.
pub open spec fn bump_adj(adj: Seq<u32>, j: usize, d: u32) -> Seq<u32> {
    adj.update(j as int, add_bits(adj[j as int], d))
}

/// `adj[j] -= d` on the per-pass adjoints.
pub open spec fn drop_adj(adj: Seq<u32>, j: usize, d: u32) -> Seq<u32> {
    adj.update(j as int, sub_bits(adj[j as int], d))
}

/// Processing the node at `i`: its total per-pass adjoint `adj[i]` is
/// summed into its gradient accumulator — the only way a gradient ever
/// changes during a backward pass — and the local-gradient rule pushes the
/// contribution of each operand onto that operand's adjoint, in operand
/// order. Operand values are read from the unchanged forward values, and
/// for `Exp` and `Tanh` the node's own stored forward value (`e^x` and
/// `tanh x`) is reused.
pub open spec fn apply_rule(s: Seq<Node>, adj: Seq<u32>, i: int) -> (Seq<Node>, Seq<u32>) {
    let n = s[i];
    let g = adj[i];
    let s1 = s.update(i, (Node { grad: add_bits(n.grad, g), ..n }));
    let adj1 = match n.op {
        Op::Leaf => adj,
        Op::Add => bump_adj(bump_adj(adj, n.a, g), n.b, g),
        Op::Sub => drop_adj(bump_adj(adj, n.a, g), n.b, g),
        Op::Mul => {
            let va = s[n.a as int].value;
            let vb = s[n.b as int].value;
            bump_adj(bump_adj(adj, n.a, mul_bits(g, vb)), n.b, mul_bits(g, va))
        },
        Op::Div => {
            let va = s[n.a as int].value;
            let vb = s[n.b as int].value;
            drop_adj(
                bump_adj(adj, n.a, div_bits(g, vb)),
                n.b,
                div_bits(mul_bits(g, va), mul_bits(vb, vb)),
            )
        },
        Op::Neg => drop_adj(adj, n.a, g),
        Op::Pow(c) => bump_adj(
            adj,
            n.a,
            mul_bits(mul_bits(g, c), pow_bits(s[n.a as int].value, sub_bits(c, ONE_BITS))),
        ),
        Op::Exp => bump_adj(adj, n.a, mul_bits(g, n.value)),
        Op::Log2 => bump_adj(adj, n.a, div_bits(g, mul_bits(s[n.a as int].value, LN2_BITS))),
        Op::Tanh => bump_adj(
            adj,
            n.a,
            mul_bits(g, sub_bits(ONE_BITS, mul_bits(n.value, n.value))),
        ),
        Op::Relu => bump_adj(
            adj,
            n.a,
            mul_bits(
                g,
                if gt_zero_bits(s[n.a as int].value) {
                    ONE_BITS
                } else {
                    ZERO_BITS
                },
            ),
        ),
        Op::LeakyRelu => bump_adj(
            adj,
            n.a,
            mul_bits(
                g,
                if gt_zero_bits(s[n.a as int].value) {
                    ONE_BITS
                } else {
                    LEAKY_SLOPE_BITS
                },
            ),
        ),
    };
    (s1, adj1)
}

/// Mark the operands of a node as reachable.
pub open spec fn mark_operands(m: Seq<bool>, n: Node) -> Seq<bool> {
    match n.op {
        Op::Leaf => m,
        Op::Add | Op::Sub | Op::Mul | Op::Div => m.update(n.a as int, true).update(n.b as int, true),
        _ => m.update(n.a as int, true),
    }
}

/// One position of the backward sweep: a node is processed only if some
/// already-processed consumer (or the seed) marked it reachable.
pub open spec fn sweep_step(s: Seq<Node>, adj: Seq<u32>, m: Seq<bool>, i: int) -> (
    Seq<Node>,
    Seq<u32>,
    Seq<bool>,
) {
    if m[i] {
        let (s1, adj1) = apply_rule(s, adj, i);
        (s1, adj1, mark_operands(m, s[i]))
    } else {
        (s, adj, m)
    }
}

/// The backward sweep from position `i` down to position 0.
pub open spec fn sweep(s: Seq<Node>, adj: Seq<u32>, m: Seq<bool>, i: int) -> (
    Seq<Node>,
    Seq<u32>,
    Seq<bool>,
)
    decreases i + 1,
{
    if i < 0 {
        (s, adj, m)
    } else {
        let (s1, adj1, m1) = sweep_step(s, adj, m, i);
        sweep(s1, adj1, m1, i - 1)
    }
}

/// The per-pass adjoints at the start of a backward pass: the seed adjoint
/// 1 at the root, 0 everywhere else. Adjoints are fresh on every pass; the
/// gradient accumulators, in contrast, are only ever summed into, and only
/// an explicit zero operation resets them.
pub open spec fn init_adj(len: nat, root: int) -> Seq<u32> {
    Seq::new(
        len,
        |j: int|
            if j == root {
                ONE_BITS
            } else {
                ZERO_BITS
            },
    )
}

/// The initial reachability marks: only the root is marked.
pub open spec fn init_marks(len: nat, root: int) -> Seq<bool> {
    Seq::new(len, |j: int| j == root)
}

/// The state of the arena after a complete backward pass from `root`: with
/// fresh per-pass adjoints seeded 1 at the root, every node from `root`
/// down is processed exactly once, in reverse topological (descending
/// index) order — its fully summed adjoint is added onto its gradient
/// accumulator and its local rule pushes each operand's share; nodes not
/// reachable from the root are skipped, and their gradients do not change.
pub open spec fn backward_spec(s: Seq<Node>, root: int) -> Seq<Node> {
    sweep(s, init_adj(s.len(), root), init_marks(s.len(), root), root).0
}

/// `value[i] -= scale * grad[i]` for a trainable node; non-trainable nodes
/// are left untouched.
pub open spec fn step_spec(s: Seq<Node>, i: int, scale: u32) -> Seq<Node> {
    if s[i].trainable {
        s.update(i, (Node { value: sub_bits(s[i].value, mul_bits(scale, s[i].grad)), ..s[i] }))
    } else {
        s
    }
}

/// The arena holding the computational graph.
pub struct Graph {
    nodes: Vec<Node>,
}

impl View for Graph {
    type V = Seq<Node>;

    closed spec fn view(&self) -> Seq<Node> {
        self.nodes@
    }
}

impl Graph {
    /// An empty graph.
    pub fn new() -> (g: Graph)
        ensures
            g@ == Seq::<Node>::empty(),
    {
        Graph { nodes: Vec::new() }
    }

    /// Append a node to the arena, returning its index.
    fn push_raw(&mut self, node: Node) -> (i: usize)
        ensures
            i == old(self)@.len(),
            final(self)@ == old(self)@.push(node),
    {
        let i = self.nodes.len();
        self.nodes.push(node);
        i
    }

    /// The number of nodes.
    pub fn len(&self) -> (r: usize)
        ensures
            r == self@.len(),
    {
        self.nodes.len()
    }

    /// The forward value of a node, as a scalar bit pattern.
    pub fn output(&self, i: usize) -> (r: u32)
        requires
            i < self@.len(),
        ensures
            r == self@[i as int].value,
    {
        self.nodes[i].value
    }

    /// The accumulated gradient of a node, as a scalar bit pattern.
    pub fn grad(&self, i: usize) -> (r: u32)
        requires
            i < self@.len(),
        ensures
            r == self@[i as int].grad,
    {
        self.nodes[i].grad
    }

    /// Whether a node is a trainable leaf.
    pub fn trainable(&self, i: usize) -> (r: bool)
        requires
            i < self@.len(),
        ensures
            r == self@[i as int].trainable,
    {
        self.nodes[i].trainable
    }

    /// Reset the gradient accumulator of one node to zero.
    pub fn zero_grad(&mut self, i: usize)
        requires
            i < old(self)@.len(),
        ensures
            final(self)@ == old(self)@.update(i as int, (Node { grad: ZERO_BITS, ..old(self)@[i as int] })),
    {
        let mut node = self.nodes[i];
        node.grad = ZERO_BITS;
        self.nodes.set(i, node);
    }

    /// Apply one gradient-descent update to one node: a trainable node's
    /// value moves against its gradient, scaled by `scale`; a non-trainable
    /// node is unchanged.
    pub fn step(&mut self, i: usize, scale: u32)
        requires
            i < old(self)@.len(),
        ensures
            final(self)@ == step_spec(old(self)@, i as int, scale),
    {
        let node = self.nodes[i];
        if node.trainable {
            let mut updated = node;
            updated.value = sub_s(node.value, mul_s(scale, node.grad));
            self.nodes.set(i, updated);
        }
    }

    /// The full backward pass from `root`: fresh per-pass adjoints are
    /// seeded with 1 at the root; the reachable subgraph is traversed in
    /// reverse topological order, each reachable node's fully summed
    /// adjoint is added onto its gradient accumulator exactly once, and its
    /// local rule pushes each operand's share of the adjoint. Forward
    /// values, operator kinds, operand indices and trainability are
    /// untouched; gradients only ever grow by the pass's adjoints, so a
    /// repeated pass with no reset in between adds the same adjoints again.
    pub fn backward(&mut self, root: usize)
        requires
            root < old(self)@.len(),
            wf(old(self)@),
        ensures
            final(self)@ == backward_spec(old(self)@, root as int),
            final(self)@.len() == old(self)@.len(),
            forall|j: int|
                0 <= j < final(self)@.len() ==> same_shape(
                    #[trigger] final(self)@[j],
                    old(self)@[j],
                ),
    {
        let n = self.nodes.len();
        let ghost orig = self@;
        let mut marks: Vec<bool> = Vec::new();
        let mut adjs: Vec<u32> = Vec::new();
        let mut k: usize = 0;
        while k < n
            invariant
                k <= n,
                marks@.len() == k,
                adjs@.len() == k,
                forall|j: int| 0 <= j < k ==> !(#[trigger] marks@[j]),
                forall|j: int| 0 <= j < k ==> (#[trigger] adjs@[j]) == ZERO_BITS,
            decreases n - k,
        {
            marks.push(false);
            adjs.push(ZERO_BITS);
            k = k + 1;
        }
        marks.set(root, true);
        adjs.set(root, ONE_BITS);

        let ghost a0 = init_adj(orig.len(), root as int);
        let ghost m0 = init_marks(orig.len(), root as int);
        proof {
            assert(marks@ =~= m0);
            assert(adjs@ =~= a0);
        }

        let mut i = root + 1;
        while i > 0
            invariant
                i <= n,
                n == self@.len(),
                n == orig.len(),
                marks@.len() == n,
                adjs@.len() == n,
                wf(orig),
                forall|j: int|
                    0 <= j < n ==> same_shape(#[trigger] self@[j], orig[j]),
                sweep(orig, a0, m0, root as int) == sweep(self@, adjs@, marks@, i - 1),
            decreases i,
        {
            let i_cur = i - 1;
            if marks[i_cur] {
                let ghost s_pre = self@;
                let ghost a_pre = adjs@;
                let ghost m_pre = marks@;
                let node = self.nodes[i_cur];
                let gd = adjs[i_cur];
                match node.op {
                    Op::Leaf => {},
                    Op::Add => {
                        adj_add(&mut adjs, node.a, gd);
                        adj_add(&mut adjs, node.b, gd);
                        marks.set(node.a, true);
                        marks.set(node.b, true);
                    },
                    Op::Sub => {
                        adj_add(&mut adjs, node.a, gd);
                        adj_sub(&mut adjs, node.b, gd);
                        marks.set(node.a, true);
                        marks.set(node.b, true);
                    },
                    Op::Mul => {
                        let va = self.nodes[node.a].value;
                        let vb = self.nodes[node.b].value;
                        adj_add(&mut adjs, node.a, mul_s(gd, vb));
                        adj_add(&mut adjs, node.b, mul_s(gd, va));
                        marks.set(node.a, true);
                        marks.set(node.b, true);
                    },
                    Op::Div => {
                        let va = self.nodes[node.a].value;
                        let vb = self.nodes[node.b].value;
                        adj_add(&mut adjs, node.a, div_s(gd, vb));
                        adj_sub(&mut adjs, node.b, div_s(mul_s(gd, va), mul_s(vb, vb)));
                        marks.set(node.a, true);
                        marks.set(node.b, true);
                    },
                    Op::Neg => {
                        adj_sub(&mut adjs, node.a, gd);
                        marks.set(node.a, true);
                    },
                    Op::Pow(c) => {
                        let va = self.nodes[node.a].value;
                        let d = mul_s(mul_s(gd, c), pow_s(va, sub_s(c, ONE_BITS)));
                        adj_add(&mut adjs, node.a, d);
                        marks.set(node.a, true);
                    },
                    Op::Exp => {
                        adj_add(&mut adjs, node.a, mul_s(gd, node.value));
                        marks.set(node.a, true);
                    },
                    Op::Log2 => {
                        let va = self.nodes[node.a].value;
                        adj_add(&mut adjs, node.a, div_s(gd, mul_s(va, LN2_BITS)));
                        marks.set(node.a, true);
                    },
                    Op::Tanh => {
                        let d = mul_s(gd, sub_s(ONE_BITS, mul_s(node.value, node.value)));
                        adj_add(&mut adjs, node.a, d);
                        marks.set(node.a, true);
                    },
                    Op::Relu => {
                        let va = self.nodes[node.a].value;
                        let f = if gt_zero_s(va) {
                            ONE_BITS
                        } else {
                            ZERO_BITS
                        };
                        adj_add(&mut adjs, node.a, mul_s(gd, f));
                        marks.set(node.a, true);
                    },
                    Op::LeakyRelu => {
                        let va = self.nodes[node.a].value;
                        let f = if gt_zero_s(va) {
                            ONE_BITS
                        } else {
                            LEAKY_SLOPE_BITS
                        };
                        adj_add(&mut adjs, node.a, mul_s(gd, f));
                        marks.set(node.a, true);
                    },
                }
                let mut upd = node;
                upd.grad = add_s(node.grad, gd);
                self.nodes.set(i_cur, upd);
                proof {
                    assert((self@, adjs@) == apply_rule(s_pre, a_pre, i_cur as int));
                    assert(marks@ == mark_operands(m_pre, s_pre[i_cur as int]));
                }
            }
            proof {
                assert(sweep(self@, adjs@, marks@, i_cur - 1) == sweep(
                    orig,
                    a0,
                    m0,
                    root as int,
                ));
            }
            i = i_cur;
        }
        proof {
            assert(sweep(self@, adjs@, marks@, -1) == (self@, adjs@, marks@));
        }
    }
}

/// `adj[j] += d` on the per-pass adjoints.
fn adj_add(adj: &mut Vec<u32>, j: usize, d: u32)
    requires
        j < old(adj)@.len(),
    ensures
        final(adj)@ == bump_adj(old(adj)@, j, d),
{
    let cur = adj[j];
    adj.set(j, add_s(cur, d));
}

/// `adj[j] -= d` on the per-pass adjoints.
fn adj_sub(adj: &mut Vec<u32>, j: usize, d: u32)
    requires
        j < old(adj)@.len(),
    ensures
        final(adj)@ == drop_adj(old(adj)@, j, d),
{
    let cur = adj[j];
    adj.set(j, sub_s(cur, d));
}


/// Appending a node that only references existing nodes keeps the arena
/// well-formed.
proof fn lemma_wf_push(s: Seq<Node>, n: Node)
    requires
        wf(s),
        node_wf(n, s.len() as int),
    ensures
        wf(s.push(n)),
{
    assert forall|i: int| 0 <= i < s.push(n).len() implies node_wf(#[trigger] s.push(n)[i], i) by {
        if i < s.len() {
            assert(s.push(n)[i] == s[i]);
        } else {
            assert(s.push(n)[i] == n);
        }
    }
}

/// Create a leaf holding `value`; only trainable leaves are later moved by
/// the optimizer.
pub fn val(g: &mut Graph, value: u32, trainable: bool) -> (i: usize)
    ensures
        i == old(g)@.len(),
        final(g)@ == old(g)@.push(new_leaf_node(value, trainable)),
        wf(old(g)@) ==> wf(final(g)@),
{
    let ghost orig = g@;
    let i = g.push_raw(Node { op: Op::Leaf, a: 0, b: 0, value, grad: ZERO_BITS, trainable });
    proof {
        if wf(orig) {
            lemma_wf_push(orig, new_leaf_node(value, trainable));
        }
    }
    i
}

/// Create one leaf per element of `values`, in order.
pub fn array_to_val(g: &mut Graph, values: Vec<u32>, trainable: bool) -> (r: Vec<usize>)
    ensures
        r@.len() == values@.len(),
        final(g)@.len() == old(g)@.len() + values@.len(),
        forall|k: int| 0 <= k < values@.len() ==> r@[k] == old(g)@.len() + k,
        forall|j: int| 0 <= j < old(g)@.len() ==> final(g)@[j] == old(g)@[j],
        forall|k: int|
            0 <= k < values@.len() ==> final(g)@[old(g)@.len() + k] == new_leaf_node(
                values@[k],
                trainable,
            ),
        wf(old(g)@) ==> wf(final(g)@),
{
    let ghost orig = g@;
    let mut r: Vec<usize> = Vec::new();
    let mut k: usize = 0;
    while k < values.len()
        invariant
            k <= values.len(),
            r@.len() == k,
            g@.len() == orig.len() + k,
            forall|j: int| 0 <= j < k ==> r@[j] == orig.len() + j,
            forall|j: int| 0 <= j < orig.len() ==> g@[j] == orig[j],
            forall|j: int|
                0 <= j < k ==> g@[orig.len() + j] == new_leaf_node(values@[j], trainable),
            wf(orig) ==> wf(g@),
        decreases values.len() - k,
    {
        let i = val(g, values[k], trainable);
        r.push(i);
        k = k + 1;
    }
    r
}

/// The sum of two nodes' values: `a.value + b.value`; gradient rule
/// `a += g ; b += g`.
pub fn add(g: &mut Graph, a: usize, b: usize) -> (i: usize)
    requires
        a < old(g)@.len(),
        b < old(g)@.len(),
    ensures
        i == old(g)@.len(),
        final(g)@ == old(g)@.push(
            new_op_node(
                Op::Add,
                a,
                b,
                add_bits(old(g)@[a as int].value, old(g)@[b as int].value),
            ),
        ),
        wf(old(g)@) ==> wf(final(g)@),
{
    let ghost orig = g@;
    let v = add_s(g.output(a), g.output(b));
    let i = g.push_raw(Node { op: Op::Add, a, b, value: v, grad: ZERO_BITS, trainable: true });
    proof {
        if wf(orig) {
            lemma_wf_push(orig, new_op_node(Op::Add, a, b, v));
        }
    }
    i
}

/// The difference of two nodes' values: `a.value - b.value`; gradient rule
/// `a += g ; b -= g`.
pub fn sub(g: &mut Graph, a: usize, b: usize) -> (i: usize)
    requires
        a < old(g)@.len(),
        b < old(g)@.len(),
    ensures
        i == old(g)@.len(),
        final(g)@ == old(g)@.push(
            new_op_node(
                Op::Sub,
                a,
                b,
                sub_bits(old(g)@[a as int].value, old(g)@[b as int].value),
            ),
        ),
        wf(old(g)@) ==> wf(final(g)@),
{
    let ghost orig = g@;
    let v = sub_s(g.output(a), g.output(b));
    let i = g.push_raw(Node { op: Op::Sub, a, b, value: v, grad: ZERO_BITS, trainable: true });
    proof {
        if wf(orig) {
            lemma_wf_push(orig, new_op_node(Op::Sub, a, b, v));
        }
    }
    i
}

/// The product of two nodes' values: `a.value * b.value`; gradient rule
/// `a += g * b.value ; b += g * a.value`.
pub fn mul(g: &mut Graph, a: usize, b: usize) -> (i: usize)
    requires
        a < old(g)@.len(),
        b < old(g)@.len(),
    ensures
        i == old(g)@.len(),
        final(g)@ == old(g)@.push(
            new_op_node(
                Op::Mul,
                a,
                b,
                mul_bits(old(g)@[a as int].value, old(g)@[b as int].value),
            ),
        ),
        wf(old(g)@) ==> wf(final(g)@),
{
    let ghost orig = g@;
    let v = mul_s(g.output(a), g.output(b));
    let i = g.push_raw(Node { op: Op::Mul, a, b, value: v, grad: ZERO_BITS, trainable: true });
    proof {
        if wf(orig) {
            lemma_wf_push(orig, new_op_node(Op::Mul, a, b, v));
        }
    }
    i
}

/// The quotient of two nodes' values: `a.value / b.value`; gradient rule
/// `a += g / b.value ; b -= g * a.value / b.value^2`.
pub fn div(g: &mut Graph, a: usize, b: usize) -> (i: usize)
    requires
        a < old(g)@.len(),
        b < old(g)@.len(),
    ensures
        i == old(g)@.len(),
        final(g)@ == old(g)@.push(
            new_op_node(
                Op::Div,
                a,
                b,
                div_bits(old(g)@[a as int].value, old(g)@[b as int].value),
            ),
        ),
        wf(old(g)@) ==> wf(final(g)@),
{
    let ghost orig = g@;
    let v = div_s(g.output(a), g.output(b));
    let i = g.push_raw(Node { op: Op::Div, a, b, value: v, grad: ZERO_BITS, trainable: true });
    proof {
        if wf(orig) {
            lemma_wf_push(orig, new_op_node(Op::Div, a, b, v));
        }
    }
    i
}

/// The negation of a node's value; gradient rule `a -= g`.
pub fn neg(g: &mut Graph, a: usize) -> (i: usize)
    requires
        a < old(g)@.len(),
    ensures
        i == old(g)@.len(),
        final(g)@ == old(g)@.push(
            new_op_node(Op::Neg, a, 0, neg_bits(old(g)@[a as int].value)),
        ),
        wf(old(g)@) ==> wf(final(g)@),
{
    let ghost orig = g@;
    let v = neg_s(g.output(a));
    let i = g.push_raw(Node { op: Op::Neg, a, b: 0, value: v, grad: ZERO_BITS, trainable: true });
    proof {
        if wf(orig) {
            lemma_wf_push(orig, new_op_node(Op::Neg, a, 0, v));
        }
    }
    i
}

/// A node's value raised to the literal exponent `c`; gradient rule
/// `a += g * c * a.value^(c - 1)`.
pub fn pow(g: &mut Graph, a: usize, c: u32) -> (i: usize)
    requires
        a < old(g)@.len(),
    ensures
        i == old(g)@.len(),
        final(g)@ == old(g)@.push(
            new_op_node(Op::Pow(c), a, 0, pow_bits(old(g)@[a as int].value, c)),
        ),
        wf(old(g)@) ==> wf(final(g)@),
{
    let ghost orig = g@;
    let v = pow_s(g.output(a), c);
    let i = g.push_raw(
        Node { op: Op::Pow(c), a, b: 0, value: v, grad: ZERO_BITS, trainable: true },
    );
    proof {
        if wf(orig) {
            lemma_wf_push(orig, new_op_node(Op::Pow(c), a, 0, v));
        }
    }
    i
}

/// e raised to a node's value; gradient rule `a += g * e^(a.value)`.
pub fn exp(g: &mut Graph, a: usize) -> (i: usize)
    requires
        a < old(g)@.len(),
    ensures
        i == old(g)@.len(),
        final(g)@ == old(g)@.push(
            new_op_node(Op::Exp, a, 0, exp_bits(old(g)@[a as int].value)),
        ),
        wf(old(g)@) ==> wf(final(g)@),
{
    let ghost orig = g@;
    let v = exp_s(g.output(a));
    let i = g.push_raw(Node { op: Op::Exp, a, b: 0, value: v, grad: ZERO_BITS, trainable: true });
    proof {
        if wf(orig) {
            lemma_wf_push(orig, new_op_node(Op::Exp, a, 0, v));
        }
    }
    i
}

/// The base-2 logarithm of a node's value; gradient rule
/// `a += g / (a.value * ln 2)`.
pub fn log2(g: &mut Graph, a: usize) -> (i: usize)
    requires
        a < old(g)@.len(),
    ensures
        i == old(g)@.len(),
        final(g)@ == old(g)@.push(
            new_op_node(Op::Log2, a, 0, log2_bits(old(g)@[a as int].value)),
        ),
        wf(old(g)@) ==> wf(final(g)@),
{
    let ghost orig = g@;
    let v = log2_s(g.output(a));
    let i = g.push_raw(Node { op: Op::Log2, a, b: 0, value: v, grad: ZERO_BITS, trainable: true });
    proof {
        if wf(orig) {
            lemma_wf_push(orig, new_op_node(Op::Log2, a, 0, v));
        }
    }
    i
}

/// The hyperbolic tangent of a node's value; gradient rule
/// `a += g * (1 - tanh(a.value)^2)`.
pub fn tanh(g: &mut Graph, a: usize) -> (i: usize)
    requires
        a < old(g)@.len(),
    ensures
        i == old(g)@.len(),
        final(g)@ == old(g)@.push(
            new_op_node(Op::Tanh, a, 0, tanh_bits(old(g)@[a as int].value)),
        ),
        wf(old(g)@) ==> wf(final(g)@),
{
    let ghost orig = g@;
    let v = tanh_s(g.output(a));
    let i = g.push_raw(Node { op: Op::Tanh, a, b: 0, value: v, grad: ZERO_BITS, trainable: true });
    proof {
        if wf(orig) {
            lemma_wf_push(orig, new_op_node(Op::Tanh, a, 0, v));
        }
    }
    i
}

/// The forward value of the rectifier: `a.value` when it is strictly
/// positive, else zero; gradient rule `a += g * (1 if a.value > 0 else 0)`.
pub open spec fn relu_fwd(v: u32) -> u32 {
    if gt_zero_bits(v) {
        v
    } else {
        ZERO_BITS
    }
}

/// The rectified linear unit of a node's value.
pub fn relu(g: &mut Graph, a: usize) -> (i: usize)
    requires
        a < old(g)@.len(),
    ensures
        i == old(g)@.len(),
        final(g)@ == old(g)@.push(
            new_op_node(Op::Relu, a, 0, relu_fwd(old(g)@[a as int].value)),
        ),
        wf(old(g)@) ==> wf(final(g)@),
{
    let ghost orig = g@;
    let va = g.output(a);
    let v = if gt_zero_s(va) {
        va
    } else {
        ZERO_BITS
    };
    let i = g.push_raw(Node { op: Op::Relu, a, b: 0, value: v, grad: ZERO_BITS, trainable: true });
    proof {
        if wf(orig) {
            lemma_wf_push(orig, new_op_node(Op::Relu, a, 0, v));
        }
    }
    i
}

/// The leaky rectified linear unit of a node's value. Its forward value is
/// the same as the plain rectifier's; only the gradient rule differs:
/// `a += g * (1 if a.value > 0 else 0.01)`.
pub fn leaky_relu(g: &mut Graph, a: usize) -> (i: usize)
    requires
        a < old(g)@.len(),
    ensures
        i == old(g)@.len(),
        final(g)@ == old(g)@.push(
            new_op_node(Op::LeakyRelu, a, 0, relu_fwd(old(g)@[a as int].value)),
        ),
        wf(old(g)@) ==> wf(final(g)@),
{
    let ghost orig = g@;
    let va = g.output(a);
    let v = if gt_zero_s(va) {
        va
    } else {
        ZERO_BITS
    };
    let i = g.push_raw(
        Node { op: Op::LeakyRelu, a, b: 0, value: v, grad: ZERO_BITS, trainable: true },
    );
    proof {
        if wf(orig) {
            lemma_wf_push(orig, new_op_node(Op::LeakyRelu, a, 0, v));
        }
    }
    i
}

/// The denominator of the softmax: the running sum
/// `(...(0 + e^(v_1)) + ...) + e^(v_k)`, one addition per element, exactly
/// as the construction loop builds it.
pub open spec fn softmax_denom(s: Seq<Node>, xs: Seq<usize>, k: int) -> u32
    decreases k,
{
    if k <= 0 {
        ZERO_BITS
    } else {
        add_bits(softmax_denom(s, xs, k - 1), exp_bits(s[xs[k - 1] as int].value))
    }
}

/// The softmax of a vector of nodes: per element, `e^(v_k)` divided by the
/// sum of all the exponentials. Composed from the `exp`, `add` and `div`
/// constructors; no stabilizing subtraction of the maximum is applied, so
/// inputs of large magnitude can overflow the exponential.
pub fn softmax(g: &mut Graph, xs: &Vec<usize>) -> (r: Vec<usize>)
    requires
        wf(old(g)@),
        forall|k: int| 0 <= k < xs@.len() ==> xs@[k] < old(g)@.len(),
    ensures
        r@.len() == xs@.len(),
        wf(final(g)@),
        final(g)@.len() >= old(g)@.len(),
        forall|j: int| 0 <= j < old(g)@.len() ==> final(g)@[j] == old(g)@[j],
        forall|k: int| 0 <= k < xs@.len() ==> r@[k] < final(g)@.len(),
        forall|k: int|
            0 <= k < xs@.len() ==> (#[trigger] final(g)@[r@[k] as int]).value == div_bits(
                exp_bits(old(g)@[xs@[k] as int].value),
                softmax_denom(old(g)@, xs@, xs@.len() as int),
            ),
        forall|k: int|
            0 <= k < xs@.len() ==> (#[trigger] final(g)@[r@[k] as int]).op == Op::Div,
        forall|k: int|
            0 <= k < xs@.len() ==> (#[trigger] final(g)@[r@[k] as int]).a < final(g)@.len(),
        forall|k: int|
            0 <= k < xs@.len() ==> final(g)@[(#[trigger] final(g)@[r@[k] as int]).a as int].op
                == Op::Exp,
        forall|k: int|
            0 <= k < xs@.len() ==> final(g)@[(#[trigger] final(g)@[r@[k] as int]).a as int].a
                == xs@[k],
        forall|k1: int, k2: int|
            0 <= k1 < xs@.len() && 0 <= k2 < xs@.len() ==> (#[trigger] final(g)@[r@[k1] as int]).b
                == (#[trigger] final(g)@[r@[k2] as int]).b,
        forall|k: int|
            0 <= k < xs@.len() ==> final(g)@[(#[trigger] final(g)@[r@[k] as int]).b as int].value
                == softmax_denom(old(g)@, xs@, xs@.len() as int),
{
    let ghost orig = g@;
    let mut sum = val(g, ZERO_BITS, false);
    let mut k: usize = 0;
    while k < xs.len()
        invariant
            k <= xs@.len(),
            wf(g@),
            forall|j: int| 0 <= j < xs@.len() ==> xs@[j] < orig.len(),
            g@.len() > orig.len(),
            forall|j: int| 0 <= j < orig.len() ==> g@[j] == orig[j],
            sum < g@.len(),
            g@[sum as int].value == softmax_denom(orig, xs@, k as int),
        decreases xs@.len() - k,
    {
        let e = exp(g, xs[k]);
        sum = crate::node::add(g, sum, e);
        k = k + 1;
    }
    let ghost denom = softmax_denom(orig, xs@, xs@.len() as int);
    let mut r: Vec<usize> = Vec::new();
    let mut k2: usize = 0;
    while k2 < xs.len()
        invariant
            k2 <= xs@.len(),
            r@.len() == k2,
            wf(g@),
            forall|j: int| 0 <= j < xs@.len() ==> xs@[j] < orig.len(),
            g@.len() > orig.len(),
            forall|j: int| 0 <= j < orig.len() ==> g@[j] == orig[j],
            sum < g@.len(),
            g@[sum as int].value == denom,
            forall|j: int| 0 <= j < k2 ==> r@[j] < g@.len(),
            forall|j: int|
                0 <= j < k2 ==> (#[trigger] g@[r@[j] as int]).value == div_bits(
                    exp_bits(orig[xs@[j] as int].value),
                    denom,
                ),
            forall|j: int| 0 <= j < k2 ==> (#[trigger] g@[r@[j] as int]).op == Op::Div,
            forall|j: int| 0 <= j < k2 ==> (#[trigger] g@[r@[j] as int]).b == sum,
            forall|j: int| 0 <= j < k2 ==> (#[trigger] g@[r@[j] as int]).a < g@.len(),
            forall|j: int|
                0 <= j < k2 ==> g@[(#[trigger] g@[r@[j] as int]).a as int].op == Op::Exp,
            forall|j: int|
                0 <= j < k2 ==> g@[(#[trigger] g@[r@[j] as int]).a as int].a == xs@[j],
        decreases xs@.len() - k2,
    {
        let e = exp(g, xs[k2]);
        let o = div(g, e, sum);
        r.push(o);
        k2 = k2 + 1;
    }
    r
}

} // verus!
