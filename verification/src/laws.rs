//! Laws of the backward pass, stated over the functional specification of
//! the engine and proved once and for all.

use vstd::prelude::*;
use crate::node::{
    apply_rule, backward_spec, bump_adj, init_adj, init_marks, mark_operands, new_leaf_node,
    new_op_node, node_wf, same_shape, sweep, sweep_step, wf, Node, Op,
};
use crate::nn::{neuron_acc, Neuron};
use crate::scalar::{add_bits, mul_bits, ONE_BITS, ZERO_BITS};

verus! {

/// Fan-out is accumulated, not overwritten: in the two-node graph
/// `y = mul(a, a)`, a backward pass from `y` leaves on `a` its prior
/// gradient (zero) plus the sum of the two adjoint contributions
/// `1 * a.value`, one for each of the two edges from `y` to `a` — neither
/// dropped nor double-counted beyond the fan-out.
pub proof fn law_fanout_two_contributions(s: Seq<Node>, v: u32, t: bool)
    requires
        s.len() == 2,
        s[0] == new_leaf_node(v, t),
        s[1] == new_op_node(Op::Mul, 0, 0, mul_bits(v, v)),
    ensures
        backward_spec(s, 1)[0].grad == add_bits(
            ZERO_BITS,
            add_bits(add_bits(ZERO_BITS, mul_bits(ONE_BITS, v)), mul_bits(ONE_BITS, v)),
        ),
{
    let a0 = init_adj(s.len(), 1);
    let m0 = init_marks(s.len(), 1);
    assert(m0[1]);
    assert(a0[1] == ONE_BITS && a0[0] == ZERO_BITS);
    let (s1, adj1) = apply_rule(s, a0, 1);
    let m1 = mark_operands(m0, s[1]);
    assert(adj1 == bump_adj(bump_adj(a0, 0, mul_bits(ONE_BITS, v)), 0, mul_bits(ONE_BITS, v)));
    assert(adj1[0] == add_bits(
        add_bits(ZERO_BITS, mul_bits(ONE_BITS, v)),
        mul_bits(ONE_BITS, v),
    ));
    assert(m1[0]);
    assert(sweep(s, a0, m0, 1) == sweep(s1, adj1, m1, 0));
    let (s2, adj2) = apply_rule(s1, adj1, 0);
    assert(s2[0].grad == add_bits(ZERO_BITS, adj1[0]));
    assert(sweep(s1, adj1, m1, 0) == sweep(s2, adj2, mark_operands(m1, s1[0]), -1));
}

/// Agreement of two nodes on everything the backward pass reads: operator,
/// operands, forward value and accumulated gradient — trainability is free
/// to differ.
pub open spec fn same_but_trainable(x: Node, y: Node) -> bool {
    x.op == y.op && x.a == y.a && x.b == y.b && x.value == y.value && x.grad == y.grad
}

/// Pointwise agreement of two arenas on everything the backward pass reads.
pub open spec fn agree(s1: Seq<Node>, s2: Seq<Node>) -> bool {
    s1.len() == s2.len() && forall|j: int|
        0 <= j < s1.len() ==> same_but_trainable(#[trigger] s1[j], s2[j])
}

proof fn lemma_apply_rule_agree(s1: Seq<Node>, s2: Seq<Node>, adj: Seq<u32>, i: int)
    requires
        agree(s1, s2),
        0 <= i < s1.len(),
        node_wf(s1[i], i),
    ensures
        agree(apply_rule(s1, adj, i).0, apply_rule(s2, adj, i).0),
        apply_rule(s1, adj, i).1 == apply_rule(s2, adj, i).1,
{
    let n1 = s1[i];
    let n2 = s2[i];
    assert(same_but_trainable(n1, n2));
    match n1.op {
        Op::Leaf => {},
        Op::Add | Op::Sub | Op::Mul | Op::Div => {
            assert(same_but_trainable(s1[n1.a as int], s2[n1.a as int]));
            assert(same_but_trainable(s1[n1.b as int], s2[n1.b as int]));
        },
        _ => {
            assert(same_but_trainable(s1[n1.a as int], s2[n1.a as int]));
        },
    }
    assert forall|t: int| 0 <= t < s1.len() implies same_but_trainable(
        #[trigger] apply_rule(s1, adj, i).0[t],
        apply_rule(s2, adj, i).0[t],
    ) by {
        assert(same_but_trainable(s1[t], s2[t]));
    }
}

/// The local rule changes gradients only, at every position.
proof fn lemma_apply_rule_shape(s: Seq<Node>, adj: Seq<u32>, i: int, j: int)
    requires
        0 <= i < s.len(),
        0 <= j < s.len(),
    ensures
        same_shape(apply_rule(s, adj, i).0[j], s[j]),
        apply_rule(s, adj, i).0.len() == s.len(),
{
}

proof fn lemma_sweep_agree(s1: Seq<Node>, s2: Seq<Node>, adj: Seq<u32>, m: Seq<bool>, i: int)
    requires
        agree(s1, s2),
        wf(s1),
        i < s1.len(),
    ensures
        agree(sweep(s1, adj, m, i).0, sweep(s2, adj, m, i).0),
        sweep(s1, adj, m, i).1 == sweep(s2, adj, m, i).1,
        sweep(s1, adj, m, i).2 == sweep(s2, adj, m, i).2,
        sweep(s1, adj, m, i).0.len() == s1.len(),
        forall|j: int|
            0 <= j < s1.len() ==> same_shape(#[trigger] sweep(s1, adj, m, i).0[j], s1[j]),
    decreases i + 1,
{
    if i >= 0 {
        if m[i] {
            lemma_apply_rule_agree(s1, s2, adj, i);
            assert(mark_operands(m, s1[i]) == mark_operands(m, s2[i]));
            let s1n = apply_rule(s1, adj, i).0;
            let adj1n = apply_rule(s1, adj, i).1;
            assert forall|j: int| 0 <= j < s1.len() implies same_shape(#[trigger] s1n[j], s1[j]) by {
                lemma_apply_rule_shape(s1, adj, i, j);
            }
            assert(wf(s1n)) by {
                assert forall|j: int| 0 <= j < s1.len() implies node_wf(#[trigger] s1n[j], j) by {
                    lemma_apply_rule_shape(s1, adj, i, j);
                    assert(node_wf(s1[j], j));
                }
            }
            lemma_sweep_agree(
                s1n,
                apply_rule(s2, adj, i).0,
                adj1n,
                mark_operands(m, s1[i]),
                i - 1,
            );
        } else {
            lemma_sweep_agree(s1, s2, adj, m, i - 1);
        }
    }
}

/// The backward pass has no hidden state: the gradients it produces are a
/// function of the operator kinds, operand indices, forward values and
/// starting gradients alone — trainability flags play no part. In
/// particular, after a reset of every gradient, a second backward pass
/// yields exactly the gradients a freshly rebuilt graph with the same
/// values would get.
pub proof fn law_backward_reproducible(s1: Seq<Node>, s2: Seq<Node>, root: int)
    requires
        wf(s1),
        agree(s1, s2),
        0 <= root < s1.len(),
    ensures
        agree(backward_spec(s1, root), backward_spec(s2, root)),
{
    assert(init_adj(s1.len(), root) == init_adj(s2.len(), root));
    assert(init_marks(s1.len(), root) == init_marks(s2.len(), root));
    lemma_sweep_agree(s1, s2, init_adj(s1.len(), root), init_marks(s1.len(), root), root);
}

/// Agreement on operator, operands and forward value, with gradient and
/// trainability both free to differ.
pub open spec fn same_shape_any_train(x: Node, y: Node) -> bool {
    x.op == y.op && x.a == y.a && x.b == y.b && x.value == y.value
}

/// Reset restores a fresh start: a graph whose gradients were all zeroed
/// and a freshly built graph with the same operators, operands and values
/// get identical gradients from a backward pass.
pub proof fn law_reset_restores_fresh(s1: Seq<Node>, s2: Seq<Node>, root: int)
    requires
        wf(s1),
        0 <= root < s1.len(),
        s1.len() == s2.len(),
        forall|j: int| 0 <= j < s1.len() ==> same_shape_any_train(#[trigger] s1[j], s2[j]),
        forall|j: int| 0 <= j < s1.len() ==> (#[trigger] s1[j]).grad == ZERO_BITS,
        forall|j: int| 0 <= j < s2.len() ==> (#[trigger] s2[j]).grad == ZERO_BITS,
    ensures
        agree(backward_spec(s1, root), backward_spec(s2, root)),
{
    assert forall|j: int| 0 <= j < s1.len() implies same_but_trainable(
        #[trigger] s1[j],
        s2[j],
    ) by {
        assert(same_shape_any_train(s1[j], s2[j]));
        assert(s1[j].grad == ZERO_BITS && s2[j].grad == ZERO_BITS);
    }
    law_backward_reproducible(s1, s2, root);
}

/// Whether a node only references nodes at or above position `k`.
pub open spec fn node_ge(n: Node, k: int) -> bool {
    match n.op {
        Op::Leaf => true,
        Op::Add | Op::Sub | Op::Mul | Op::Div => n.a >= k && n.b >= k,
        _ => n.a >= k,
    }
}

/// Whether every node in positions `[k, i]` only references nodes at or
/// above `k`: the upper block is self-contained.
pub open spec fn block_confined(s: Seq<Node>, k: int, i: int) -> bool {
    forall|j: int| k <= j <= i && j < s.len() ==> node_ge(#[trigger] s[j], k)
}

/// Equality of two arenas below position `k`.
pub open spec fn prefix_eq(s1: Seq<Node>, s2: Seq<Node>, k: int) -> bool {
    forall|j: int| 0 <= j < k ==> s1[j] == s2[j]
}

/// Equality of two adjoint arrays below position `k`.
pub open spec fn adj_prefix_eq(a1: Seq<u32>, a2: Seq<u32>, k: int) -> bool {
    forall|j: int| 0 <= j < k ==> a1[j] == a2[j]
}

/// Two arenas that agree below `k`, with equal adjoints below `k`, and
/// holding the same node at `i < k`, push the same contributions below `k`.
proof fn lemma_apply_rule_prefix(
    s1: Seq<Node>,
    s2: Seq<Node>,
    a1: Seq<u32>,
    a2: Seq<u32>,
    k: int,
    i: int,
)
    requires
        s1.len() == s2.len(),
        a1.len() == s1.len(),
        a2.len() == s2.len(),
        0 <= i < k,
        k <= s1.len(),
        node_wf(s1[i], i),
        prefix_eq(s1, s2, k),
        adj_prefix_eq(a1, a2, k),
    ensures
        prefix_eq(apply_rule(s1, a1, i).0, apply_rule(s2, a2, i).0, k),
        adj_prefix_eq(apply_rule(s1, a1, i).1, apply_rule(s2, a2, i).1, k),
{
    let n = s1[i];
    assert(s1[i] == s2[i]);
    assert(a1[i] == a2[i]);
    match n.op {
        Op::Leaf => {},
        Op::Add | Op::Sub | Op::Mul | Op::Div => {
            assert(s1[n.a as int] == s2[n.a as int]);
            assert(s1[n.b as int] == s2[n.b as int]);
            assert(a1[n.a as int] == a2[n.a as int]);
        },
        _ => {
            assert(s1[n.a as int] == s2[n.a as int]);
            assert(a1[n.a as int] == a2[n.a as int]);
        },
    }
    assert forall|t: int| 0 <= t < k implies apply_rule(s1, a1, i).0[t] == apply_rule(
        s2,
        a2,
        i,
    ).0[t] by {
        assert(s1[t] == s2[t]);
    }
    assert forall|t: int| 0 <= t < k implies apply_rule(s1, a1, i).1[t] == apply_rule(
        s2,
        a2,
        i,
    ).1[t] by {
        assert(a1[t] == a2[t]);
    }
}

/// A node whose operands all lie at or above `k` leaves everything below
/// `k` untouched: state, adjoints and marks.
proof fn lemma_apply_rule_upper(s: Seq<Node>, adj: Seq<u32>, m: Seq<bool>, k: int, i: int)
    requires
        0 <= i < s.len(),
        m.len() == s.len(),
        adj.len() == s.len(),
        node_wf(s[i], i),
        node_ge(s[i], k),
        0 <= k <= i,
    ensures
        forall|t: int| 0 <= t < k ==> apply_rule(s, adj, i).0[t] == s[t],
        forall|t: int| 0 <= t < k ==> apply_rule(s, adj, i).1[t] == adj[t],
        forall|t: int| 0 <= t < k ==> mark_operands(m, s[i])[t] == m[t],
{
    let n = s[i];
    match n.op {
        Op::Leaf => {},
        Op::Add | Op::Sub | Op::Mul | Op::Div => {
            assert(k <= n.a && k <= n.b);
            assert forall|t: int| 0 <= t < k implies mark_operands(m, s[i])[t] == m[t] by {}
        },
        _ => {
            assert(k <= n.a);
            assert forall|t: int| 0 <= t < k implies mark_operands(m, s[i])[t] == m[t] by {}
        },
    }
}

/// The local rule changes gradients only, at every position.
proof fn lemma_apply_rule_shape_all(s: Seq<Node>, adj: Seq<u32>, i: int)
    requires
        0 <= i < s.len(),
    ensures
        apply_rule(s, adj, i).0.len() == s.len(),
        forall|j: int|
            0 <= j < s.len() ==> same_shape(#[trigger] apply_rule(s, adj, i).0[j], s[j]),
{
    assert forall|j: int| 0 <= j < s.len() implies same_shape(
        #[trigger] apply_rule(s, adj, i).0[j],
        s[j],
    ) by {
        lemma_apply_rule_shape(s, adj, i, j);
    }
}

/// The sweep keeps two arenas in agreement below `k` when their upper
/// blocks, however different, are self-contained.
proof fn lemma_sweep_split(
    s1: Seq<Node>,
    s2: Seq<Node>,
    a1: Seq<u32>,
    a2: Seq<u32>,
    m1: Seq<bool>,
    m2: Seq<bool>,
    k: int,
    i: int,
)
    requires
        s1.len() == s2.len(),
        a1.len() == s1.len(),
        a2.len() == s2.len(),
        m1.len() == s1.len(),
        m2.len() == s2.len(),
        wf(s1),
        wf(s2),
        0 <= k <= s1.len(),
        i < s1.len(),
        block_confined(s1, k, i),
        block_confined(s2, k, i),
        prefix_eq(s1, s2, k),
        adj_prefix_eq(a1, a2, k),
        forall|j: int| 0 <= j < k ==> m1[j] == m2[j],
    ensures
        prefix_eq(sweep(s1, a1, m1, i).0, sweep(s2, a2, m2, i).0, k),
    decreases i + 1,
{
    if i >= 0 {
        let (s1n, a1n, m1n) = sweep_step(s1, a1, m1, i);
        let (s2n, a2n, m2n) = sweep_step(s2, a2, m2, i);
        if i >= k {
            if m1[i] {
                assert(node_ge(s1[i], k));
                lemma_apply_rule_upper(s1, a1, m1, k, i);
            }
            if m2[i] {
                assert(node_ge(s2[i], k));
                lemma_apply_rule_upper(s2, a2, m2, k, i);
            }
        } else {
            assert(m1[i] == m2[i]);
            if m1[i] {
                lemma_apply_rule_prefix(s1, s2, a1, a2, k, i);
                assert(s1[i] == s2[i]);
                assert forall|t: int| 0 <= t < k implies m1n[t] == m2n[t] by {
                    assert(m1[t] == m2[t]);
                }
            }
        }
        assert(s1n.len() == s1.len() && s2n.len() == s2.len()) by {
            if m1[i] {
                lemma_apply_rule_shape_all(s1, a1, i);
            }
            if m2[i] {
                lemma_apply_rule_shape_all(s2, a2, i);
            }
        }
        assert(wf(s1n) && block_confined(s1n, k, i - 1)) by {
            if m1[i] {
                lemma_apply_rule_shape_all(s1, a1, i);
                assert forall|j: int| 0 <= j < s1n.len() implies node_wf(#[trigger] s1n[j], j) by {
                    assert(same_shape(s1n[j], s1[j]));
                    assert(node_wf(s1[j], j));
                }
                assert forall|j: int| k <= j <= i - 1 && j < s1n.len() implies node_ge(
                    #[trigger] s1n[j],
                    k,
                ) by {
                    assert(same_shape(s1n[j], s1[j]));
                    assert(node_ge(s1[j], k));
                }
            }
        }
        assert(wf(s2n) && block_confined(s2n, k, i - 1)) by {
            if m2[i] {
                lemma_apply_rule_shape_all(s2, a2, i);
                assert forall|j: int| 0 <= j < s2n.len() implies node_wf(#[trigger] s2n[j], j) by {
                    assert(same_shape(s2n[j], s2[j]));
                    assert(node_wf(s2[j], j));
                }
                assert forall|j: int| k <= j <= i - 1 && j < s2n.len() implies node_ge(
                    #[trigger] s2n[j],
                    k,
                ) by {
                    assert(same_shape(s2n[j], s2[j]));
                    assert(node_ge(s2[j], k));
                }
            }
        }
        assert(a1n.len() == a1.len() && a2n.len() == a2.len());
        assert(m1n.len() == m1.len() && m2n.len() == m2.len());
        lemma_sweep_split(s1n, s2n, a1n, a2n, m1n, m2n, k, i - 1);
    }
}

/// Additivity of the backward pass over a sum of independent subgraphs:
/// in a graph whose root adds a node of the lower block `[0, k)` to a node
/// of a self-contained upper block, the gradients of the lower block do not
/// depend on the upper block at all. Two such graphs sharing the lower
/// block and the left summand end the backward pass with identical
/// gradients everywhere below `k`, whatever stands in their upper blocks.
pub proof fn law_additivity_independent_summands(s1: Seq<Node>, s2: Seq<Node>, k: int)
    requires
        s1.len() == s2.len(),
        s1.len() >= 2,
        wf(s1),
        wf(s2),
        0 <= k < s1.len() - 1,
        prefix_eq(s1, s2, k),
        block_confined(s1, k, s1.len() - 2),
        block_confined(s2, k, s2.len() - 2),
        s1[s1.len() - 1].op == Op::Add,
        s2[s2.len() - 1].op == Op::Add,
        s1[s1.len() - 1].a == s2[s2.len() - 1].a,
        s1[s1.len() - 1].a < k,
        s1[s1.len() - 1].b >= k,
        s2[s2.len() - 1].b >= k,
    ensures
        prefix_eq(backward_spec(s1, s1.len() - 1), backward_spec(s2, s2.len() - 1), k),
{
    let root = s1.len() - 1;
    let a0 = init_adj(s1.len(), root);
    let m0 = init_marks(s1.len(), root);
    assert(init_adj(s2.len(), root) == a0);
    assert(init_marks(s2.len(), root) == m0);
    assert(m0[root]);
    assert(a0[root] == ONE_BITS);
    // The root step: the seed 1 flows unchanged to both operands'
    // adjoints; only the left one lies in the lower block, and it is the
    // same index on both sides. The root's own gradient update stays in
    // the upper block.
    let (s1r, a1r) = apply_rule(s1, a0, root);
    let (s2r, a2r) = apply_rule(s2, a0, root);
    let m1r = mark_operands(m0, s1[root]);
    let m2r = mark_operands(m0, s2[root]);
    let fa = s1[root].a;
    assert(a1r == bump_adj(bump_adj(a0, fa, ONE_BITS), s1[root].b, ONE_BITS));
    assert(a2r == bump_adj(bump_adj(a0, fa, ONE_BITS), s2[root].b, ONE_BITS));
    assert(prefix_eq(s1r, s2r, k)) by {
        assert forall|t: int| 0 <= t < k implies s1r[t] == s2r[t] by {
            assert(s1[t] == s2[t]);
        }
    }
    assert(adj_prefix_eq(a1r, a2r, k)) by {
        assert forall|t: int| 0 <= t < k implies a1r[t] == a2r[t] by {}
    }
    assert forall|t: int| 0 <= t < k implies m1r[t] == m2r[t] by {}
    assert(wf(s1r) && block_confined(s1r, k, root - 1)) by {
        lemma_apply_rule_shape_all(s1, a0, root);
        assert forall|j: int| 0 <= j < s1r.len() implies node_wf(#[trigger] s1r[j], j) by {
            assert(same_shape(s1r[j], s1[j]));
            assert(node_wf(s1[j], j));
        }
        assert forall|j: int| k <= j <= root - 1 && j < s1r.len() implies node_ge(
            #[trigger] s1r[j],
            k,
        ) by {
            assert(same_shape(s1r[j], s1[j]));
            assert(node_ge(s1[j], k));
        }
    }
    assert(wf(s2r) && block_confined(s2r, k, root - 1)) by {
        lemma_apply_rule_shape_all(s2, a0, root);
        assert forall|j: int| 0 <= j < s2r.len() implies node_wf(#[trigger] s2r[j], j) by {
            assert(same_shape(s2r[j], s2[j]));
            assert(node_wf(s2[j], j));
        }
        assert forall|j: int| k <= j <= root - 1 && j < s2r.len() implies node_ge(
            #[trigger] s2r[j],
            k,
        ) by {
            assert(same_shape(s2r[j], s2[j]));
            assert(node_ge(s2[j], k));
        }
    }
    lemma_sweep_split(s1r, s2r, a1r, a2r, m1r, m2r, k, root - 1);
    assert(sweep(s1, a0, m0, root) == sweep(s1r, a1r, m1r, root - 1));
    assert(sweep(s2, a0, m0, root) == sweep(s2r, a2r, m2r, root - 1));
}

proof fn lemma_acc_ignores_grads(
    s1: Seq<Node>,
    s2: Seq<Node>,
    ws: Seq<usize>,
    in_vals: Seq<u32>,
    k: int,
)
    requires
        s1.len() == s2.len(),
        forall|j: int| 0 <= j < s1.len() ==> same_shape(#[trigger] s1[j], s2[j]),
        forall|t: int| 0 <= t < ws.len() ==> ws[t] < s1.len(),
        k <= ws.len(),
    ensures
        neuron_acc(s1, ws, in_vals, k) == neuron_acc(s2, ws, in_vals, k),
    decreases k,
{
    if k > 0 {
        lemma_acc_ignores_grads(s1, s2, ws, in_vals, k - 1);
        assert(same_shape(s1[ws[k - 1] as int], s2[ws[k - 1] as int]));
    }
}

/// Determinism of the forward pass: a forward value is a function of the
/// stored forward values and the structure alone — accumulated gradients
/// and trainability play no part. Two arenas that agree on operator kinds,
/// operands and values give every neuron the same forward value, however
/// their gradients differ; so identical leaf values and an identical
/// sequence of constructor calls produce identical outputs on every call.
pub proof fn law_forward_ignores_grads(n: Neuron, s1: Seq<Node>, s2: Seq<Node>, in_vals: Seq<u32>)
    requires
        s1.len() == s2.len(),
        forall|j: int| 0 <= j < s1.len() ==> same_shape(#[trigger] s1[j], s2[j]),
        n.valid(s1),
    ensures
        n.fwd_val(s1, in_vals) == n.fwd_val(s2, in_vals),
{
    lemma_acc_ignores_grads(s1, s2, n.weights_view(), in_vals, n.weights_view().len() as int);
    assert(same_shape(s1[n.bias_idx() as int], s2[n.bias_idx() as int]));
}

} // verus!
