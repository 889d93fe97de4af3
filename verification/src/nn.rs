//! Neurons, linear layers, and a small two-layer network, composed from the
//! graph constructors. A forward pass builds a fresh subgraph on every call;
//! nothing is cached across calls. Parameters are trainable leaves,
//! initialized from a caller-seeded pseudo-random generator.

use vstd::prelude::*;
use crate::node::{relu, relu_fwd, val, wf, Graph, Node, Op};
use crate::scalar::{add_bits, div_bits, mul_bits, of_u32_bits, ZERO_BITS};

verus! {

#[verifier::external_type_specification]
#[verifier::external_body]
pub struct ExStdRng(rand::rngs::StdRng);

/// Relies on rand's `RngExt::random_range` over `0..1000`: every outcome
/// lies below 1000, whatever the generator state.
#[verifier::external_body]
fn random_below_1000(rng: &mut rand::rngs::StdRng) -> (r: u32)
    ensures
        r < 1000,
{
    rand::RngExt::random_range(rng, 0..1000u32)
}

/// A freshly initialized parameter leaf: trainable, gradient zero, value
/// drawn as `w / 100000` for some `w` below 1000.
pub open spec fn is_init_leaf(n: Node) -> bool {
    &&& n.op == Op::Leaf
    &&& n.trainable
    &&& n.grad == ZERO_BITS
    &&& exists|w: u32| w < 1000 && n.value == div_bits(of_u32_bits(w), of_u32_bits(100000))
}

/// Every leaf a neuron holds is a freshly initialized parameter leaf.
pub open spec fn neuron_inited(n: Neuron, s: Seq<Node>) -> bool {
    &&& forall|t: int|
        0 <= t < n.weights_view().len() ==> is_init_leaf(
            #[trigger] s[n.weights_view()[t] as int],
        )
    &&& is_init_leaf(s[n.bias_idx() as int])
}

/// The values stored at a list of node indices.
pub open spec fn vals_of(s: Seq<Node>, idxs: Seq<usize>) -> Seq<u32> {
    Seq::new(idxs.len(), |k: int| s[idxs[k] as int].value)
}

/// The running weighted sum `(...(0 + w_1 * x_1) + ...) + w_k * x_k`, one
/// multiplication and one addition per input, exactly as the forward loop
/// builds it. Weight values are read from the graph; input values are given
/// directly.
pub open spec fn neuron_acc(s: Seq<Node>, ws: Seq<usize>, in_vals: Seq<u32>, k: int) -> u32
    decreases k,
{
    if k <= 0 {
        ZERO_BITS
    } else {
        add_bits(
            neuron_acc(s, ws, in_vals, k - 1),
            mul_bits(s[ws[k - 1] as int].value, in_vals[k - 1]),
        )
    }
}

/// The shape of the subgraph a neuron's forward pass builds below its final
/// addition: an addition chain that starts at a zero leaf and, at step `t`,
/// adds the product node `weight_t * input_t`. Every weight and input node
/// is reached through a multiplication node of the chain, so gradients flow
/// from the chain's root to each of them.
pub open spec fn sum_chain(s: Seq<Node>, idx: int, ws: Seq<usize>, ins: Seq<usize>, k: int) -> bool
    decreases k,
{
    &&& 0 <= idx < s.len()
    &&& if k <= 0 {
        s[idx].op == Op::Leaf
    } else {
        &&& s[idx].op == Op::Add
        &&& s[idx].b < s.len()
        &&& s[s[idx].b as int].op == Op::Mul
        &&& s[s[idx].b as int].a == ws[k - 1]
        &&& s[s[idx].b as int].b == ins[k - 1]
        &&& sum_chain(s, s[idx].a as int, ws, ins, k - 1)
    }
}

/// The chain only references nodes it contains, so it keeps its shape when
/// the graph is extended past it.
pub proof fn lemma_sum_chain_prefix(
    s1: Seq<Node>,
    s2: Seq<Node>,
    idx: int,
    ws: Seq<usize>,
    ins: Seq<usize>,
    k: int,
)
    requires
        sum_chain(s1, idx, ws, ins, k),
        s1.len() <= s2.len(),
        forall|j: int| 0 <= j < s1.len() ==> s2[j] == s1[j],
    ensures
        sum_chain(s2, idx, ws, ins, k),
    decreases k,
{
    if k > 0 {
        lemma_sum_chain_prefix(s1, s2, s1[idx].a as int, ws, ins, k - 1);
    }
}

/// The shape of one neuron's appended forward subgraph: the addition of the
/// weighted-sum chain and the neuron's own bias leaf.
pub open spec fn neuron_shaped(s: Seq<Node>, o: int, n: Neuron, ins: Seq<usize>) -> bool {
    &&& 0 <= o < s.len()
    &&& s[o].op == Op::Add
    &&& s[o].b == n.bias_idx()
    &&& sum_chain(s, s[o].a as int, n.weights_view(), ins, n.in_size() as int)
}

/// A neuron-shaped subgraph keeps its shape when the graph is extended.
pub proof fn lemma_neuron_shaped_prefix(s1: Seq<Node>, s2: Seq<Node>, o: int, n: Neuron, ins: Seq<usize>)
    requires
        neuron_shaped(s1, o, n, ins),
        s1.len() <= s2.len(),
        forall|j: int| 0 <= j < s1.len() ==> s2[j] == s1[j],
    ensures
        neuron_shaped(s2, o, n, ins),
{
    lemma_sum_chain_prefix(s1, s2, s1[o].a as int, n.weights_view(), ins, n.in_size() as int);
}

/// A neuron: one weight leaf per input, plus a bias leaf.
pub struct Neuron {
    weights: Vec<usize>,
    bias: usize,
}

impl Neuron {
    /// The indices of the weight leaves, in input order.
    pub closed spec fn weights_view(&self) -> Seq<usize> {
        self.weights@
    }

    /// The index of the bias leaf.
    pub closed spec fn bias_idx(&self) -> usize {
        self.bias
    }

    /// The number of inputs the neuron takes.
    pub open spec fn in_size(&self) -> nat {
        self.weights_view().len()
    }

    /// Whether every leaf the neuron holds is a valid index.
    pub open spec fn valid(&self, s: Seq<Node>) -> bool {
        &&& forall|k: int| 0 <= k < self.weights_view().len() ==> self.weights_view()[k] < s.len()
        &&& self.bias_idx() < s.len()
    }

    /// The neuron's forward value on the given input values: the weighted
    /// sum of the inputs plus the bias, in the engine's scalar arithmetic.
    pub open spec fn fwd_val(&self, s: Seq<Node>, in_vals: Seq<u32>) -> u32 {
        add_bits(
            neuron_acc(s, self.weights_view(), in_vals, self.weights_view().len() as int),
            s[self.bias_idx() as int].value,
        )
    }

    /// A neuron with `input_size` freshly initialized weight leaves and a
    /// bias leaf, appended to the graph in that order.
    pub fn new(g: &mut Graph, input_size: usize, rng: &mut rand::rngs::StdRng) -> (r: Neuron)
        requires
            wf(old(g)@),
        ensures
            wf(final(g)@),
            final(g)@.len() == old(g)@.len() + input_size + 1,
            forall|j: int| 0 <= j < old(g)@.len() ==> final(g)@[j] == old(g)@[j],
            r.in_size() == input_size,
            forall|k: int|
                0 <= k < input_size ==> r.weights_view()[k] == old(g)@.len() + k,
            r.bias_idx() == old(g)@.len() + input_size,
            forall|k: int|
                0 <= k < input_size ==> is_init_leaf(#[trigger] final(g)@[r.weights_view()[k] as int]),
            is_init_leaf(final(g)@[r.bias_idx() as int]),
            r.valid(final(g)@),
    {
        let ghost orig = g@;
        let mut weights: Vec<usize> = Vec::new();
        let mut k: usize = 0;
        while k < input_size
            invariant
                k <= input_size,
                wf(g@),
                weights@.len() == k,
                g@.len() == orig.len() + k,
                forall|j: int| 0 <= j < orig.len() ==> g@[j] == orig[j],
                forall|j: int| 0 <= j < k ==> weights@[j] == orig.len() + j,
                forall|j: int|
                    0 <= j < k ==> is_init_leaf(#[trigger] g@[weights@[j] as int]),
            decreases input_size - k,
        {
            let w = random_below_1000(rng);
            let value = crate::scalar::div_s(
                crate::scalar::of_u32_s(w),
                crate::scalar::of_u32_s(100000),
            );
            let i = val(g, value, true);
            weights.push(i);
            k = k + 1;
        }
        let wb = random_below_1000(rng);
        let bv = crate::scalar::div_s(
            crate::scalar::of_u32_s(wb),
            crate::scalar::of_u32_s(100000),
        );
        let bias = val(g, bv, true);
        Neuron { weights, bias }
    }

    /// The forward pass: build `sum(w_i * x_i) + bias` as a fresh subgraph
    /// and return the index of its root.
    pub fn forward(&self, g: &mut Graph, inputs: &Vec<usize>) -> (o: usize)
        requires
            wf(old(g)@),
            self.valid(old(g)@),
            inputs@.len() == self.in_size(),
            forall|k: int| 0 <= k < inputs@.len() ==> inputs@[k] < old(g)@.len(),
        ensures
            wf(final(g)@),
            final(g)@.len() > old(g)@.len(),
            forall|j: int| 0 <= j < old(g)@.len() ==> final(g)@[j] == old(g)@[j],
            o < final(g)@.len(),
            final(g)@[o as int].value == self.fwd_val(old(g)@, vals_of(old(g)@, inputs@)),
            neuron_shaped(final(g)@, o as int, *self, inputs@),
    {
        let ghost orig = g@;
        let ghost in_vals = vals_of(orig, inputs@);
        let mut sum = val(g, ZERO_BITS, true);
        let mut k: usize = 0;
        while k < self.weights.len()
            invariant
                k <= self.weights@.len(),
                wf(g@),
                self.valid(orig),
                inputs@.len() == self.weights@.len(),
                forall|j: int| 0 <= j < inputs@.len() ==> inputs@[j] < orig.len(),
                g@.len() > orig.len(),
                forall|j: int| 0 <= j < orig.len() ==> g@[j] == orig[j],
                sum < g@.len(),
                in_vals == vals_of(orig, inputs@),
                g@[sum as int].value == neuron_acc(orig, self.weights@, in_vals, k as int),
                sum_chain(g@, sum as int, self.weights_view(), inputs@, k as int),
            decreases self.weights@.len() - k,
        {
            proof {
                assert(self.weights_view()[k as int] < orig.len());
                assert(inputs@[k as int] < orig.len());
            }
            let ghost pre = g@;
            let m = crate::node::mul(g, self.weights[k], inputs[k]);
            proof {
                assert(pre[self.weights@[k as int] as int] == orig[self.weights@[k as int] as int]);
                assert(in_vals[k as int] == orig[inputs@[k as int] as int].value);
                assert(g@[m as int].value == mul_bits(
                    orig[self.weights@[k as int] as int].value,
                    in_vals[k as int],
                ));
            }
            let ghost sum_pre = sum;
            sum = crate::node::add(g, sum, m);
            proof {
                lemma_sum_chain_prefix(pre, g@, sum_pre as int, self.weights_view(), inputs@, k as int);
            }
            k = k + 1;
        }
        let ghost before_last = g@;
        let ghost sum_last = sum;
        let o = crate::node::add(g, sum, self.bias);
        proof {
            lemma_sum_chain_prefix(
                before_last,
                g@,
                sum_last as int,
                self.weights_view(),
                inputs@,
                self.weights_view().len() as int,
            );
        }
        o
    }
}

/// The weighted-sum fold only reads weight leaves, so it is unchanged when
/// the graph is extended past them.
proof fn lemma_acc_prefix(s1: Seq<Node>, s2: Seq<Node>, ws: Seq<usize>, in_vals: Seq<u32>, k: int)
    requires
        forall|t: int| 0 <= t < ws.len() ==> ws[t] < s1.len(),
        s1.len() <= s2.len(),
        forall|j: int| 0 <= j < s1.len() ==> s2[j] == s1[j],
        k <= ws.len(),
    ensures
        neuron_acc(s2, ws, in_vals, k) == neuron_acc(s1, ws, in_vals, k),
    decreases k,
{
    if k > 0 {
        lemma_acc_prefix(s1, s2, ws, in_vals, k - 1);
    }
}

/// A neuron's forward value only reads its own leaves, so it is unchanged
/// when the graph is extended past them.
proof fn lemma_fwd_val_prefix(n: Neuron, s1: Seq<Node>, s2: Seq<Node>, in_vals: Seq<u32>)
    requires
        n.valid(s1),
        s1.len() <= s2.len(),
        forall|j: int| 0 <= j < s1.len() ==> s2[j] == s1[j],
    ensures
        n.fwd_val(s2, in_vals) == n.fwd_val(s1, in_vals),
{
    lemma_acc_prefix(
        s1,
        s2,
        n.weights_view(),
        in_vals,
        n.weights_view().len() as int,
    );
}

/// The parameter indices of one neuron: its weights, then its bias.
pub open spec fn neuron_params(n: Neuron) -> Seq<usize> {
    n.weights_view().push(n.bias_idx())
}

/// The concatenated parameter indices of the first `k` neurons.
pub open spec fn layer_params(ns: Seq<Neuron>, k: int) -> Seq<usize>
    decreases k,
{
    if k <= 0 {
        Seq::empty()
    } else {
        layer_params(ns, k - 1) + neuron_params(ns[k - 1])
    }
}

/// Every concatenated parameter index is a valid index wherever every
/// neuron is valid.
proof fn lemma_layer_params_valid(ns: Seq<Neuron>, k: int, s: Seq<Node>)
    requires
        0 <= k <= ns.len(),
        forall|j: int| 0 <= j < ns.len() ==> (#[trigger] ns[j]).valid(s),
    ensures
        forall|t: int|
            0 <= t < layer_params(ns, k).len() ==> (#[trigger] layer_params(ns, k)[t]) < s.len(),
    decreases k,
{
    if k > 0 {
        lemma_layer_params_valid(ns, k - 1, s);
        let prev = layer_params(ns, k - 1);
        let cur = layer_params(ns, k);
        let n = ns[k - 1];
        assert forall|t: int| 0 <= t < cur.len() implies (#[trigger] cur[t]) < s.len() by {
            if t < prev.len() {
                assert(cur[t] == prev[t]);
            } else {
                assert(cur[t] == neuron_params(n)[t - prev.len()]);
                if t - prev.len() < n.weights_view().len() {
                    assert(neuron_params(n)[t - prev.len()] == n.weights_view()[t - prev.len()]);
                } else {
                    assert(neuron_params(n)[t - prev.len()] == n.bias_idx());
                }
            }
        }
    }
}

/// A layer of the network: an ordered list of parameter leaves and a
/// forward pass from a vector of nodes to a vector of nodes.
pub trait Layer {
    /// Whether every node index the layer holds is valid in the graph.
    spec fn wf_in(&self, s: Seq<Node>) -> bool;

    /// Whether the layer accepts an input vector of length `n`.
    spec fn accepts(&self, n: nat) -> bool;

    /// The ordered list of the layer's parameter leaf indices.
    fn parameters(&self) -> (r: Vec<usize>)
        ensures
            forall|s: Seq<Node>|
                self.wf_in(s) ==> forall|t: int| 0 <= t < r@.len() ==> (#[trigger] r@[t]) < s.len(),
    ;

    /// The forward pass: build a fresh subgraph per output and return the
    /// output node indices.
    fn forward(&self, g: &mut Graph, inputs: &Vec<usize>) -> (r: Vec<usize>)
        requires
            wf(old(g)@),
            self.wf_in(old(g)@),
            self.accepts(inputs@.len()),
            forall|k: int| 0 <= k < inputs@.len() ==> (#[trigger] inputs@[k]) < old(g)@.len(),
        ensures
            wf(final(g)@),
            final(g)@.len() >= old(g)@.len(),
            forall|j: int| 0 <= j < old(g)@.len() ==> final(g)@[j] == old(g)@[j],
            forall|k: int| 0 <= k < r@.len() ==> (#[trigger] r@[k]) < final(g)@.len(),
    ;
}

/// A fully connected layer: a fixed number of neurons over a shared input.
pub struct LinearLayer {
    neurons: Vec<Neuron>,
}

impl LinearLayer {
    /// The neurons of the layer, in output order.
    pub closed spec fn neurons_view(&self) -> Seq<Neuron> {
        self.neurons@
    }

    /// The number of outputs.
    pub open spec fn out_size(&self) -> nat {
        self.neurons_view().len()
    }

    /// Whether every neuron takes `n` inputs.
    pub open spec fn sized(&self, n: nat) -> bool {
        forall|k: int|
            0 <= k < self.neurons_view().len() ==> (#[trigger] self.neurons_view()[k]).in_size()
                == n
    }

    /// Whether every node index the layer holds is valid in the graph.
    pub open spec fn valid(&self, s: Seq<Node>) -> bool {
        forall|k: int|
            0 <= k < self.neurons_view().len() ==> (#[trigger] self.neurons_view()[k]).valid(s)
    }

    /// The layer's forward values on the given input values, one per
    /// neuron.
    pub open spec fn layer_out(&self, s: Seq<Node>, in_vals: Seq<u32>) -> Seq<u32> {
        Seq::new(self.out_size(), |k: int| self.neurons_view()[k].fwd_val(s, in_vals))
    }

    /// A layer of `output_size` freshly initialized neurons over
    /// `input_size` inputs.
    pub fn new(g: &mut Graph, input_size: usize, output_size: usize, rng: &mut rand::rngs::StdRng)
        -> (r: LinearLayer)
        requires
            wf(old(g)@),
        ensures
            wf(final(g)@),
            final(g)@.len() >= old(g)@.len(),
            forall|j: int| 0 <= j < old(g)@.len() ==> final(g)@[j] == old(g)@[j],
            r.out_size() == output_size,
            r.sized(input_size as nat),
            r.valid(final(g)@),
            forall|k: int|
                0 <= k < output_size ==> neuron_inited(#[trigger] r.neurons_view()[k], final(g)@),
    {
        let ghost orig = g@;
        let mut neurons: Vec<Neuron> = Vec::new();
        let mut k: usize = 0;
        while k < output_size
            invariant
                k <= output_size,
                wf(g@),
                neurons@.len() == k,
                g@.len() >= orig.len(),
                forall|j: int| 0 <= j < orig.len() ==> g@[j] == orig[j],
                forall|j: int|
                    0 <= j < k ==> (#[trigger] neurons@[j]).in_size() == input_size,
                forall|j: int| 0 <= j < k ==> (#[trigger] neurons@[j]).valid(g@),
                forall|j: int| 0 <= j < k ==> neuron_inited(#[trigger] neurons@[j], g@),
            decreases output_size - k,
        {
            let ghost pre = g@;
            let n = Neuron::new(g, input_size, rng);
            proof {
                assert forall|j: int| 0 <= j < k + 1 implies (#[trigger] neurons@.push(n)[j]).valid(
                    g@,
                ) by {
                    if j < k {
                        assert(neurons@.push(n)[j] == neurons@[j]);
                        assert(neurons@[j].valid(pre));
                    } else {
                        assert(neurons@.push(n)[j] == n);
                    }
                }
                assert forall|j: int| 0 <= j < k + 1 implies neuron_inited(
                    #[trigger] neurons@.push(n)[j],
                    g@,
                ) by {
                    if j < k {
                        assert(neurons@.push(n)[j] == neurons@[j]);
                        assert(neurons@[j].valid(pre));
                        assert(neuron_inited(neurons@[j], pre));
                        assert forall|t: int|
                            0 <= t < neurons@[j].weights_view().len() implies is_init_leaf(
                            #[trigger] g@[neurons@[j].weights_view()[t] as int]) by {
                            assert(neurons@[j].weights_view()[t] < pre.len());
                            assert(g@[neurons@[j].weights_view()[t] as int] == pre[neurons@[
                                j].weights_view()[t] as int]);
                        }
                        assert(g@[neurons@[j].bias_idx() as int] == pre[neurons@[j].bias_idx()
                            as int]);
                    } else {
                        assert(neurons@.push(n)[j] == n);
                    }
                }
            }
            neurons.push(n);
            k = k + 1;
        }
        LinearLayer { neurons }
    }

    /// The concatenation of all neurons' parameters: for each neuron, its
    /// weights then its bias.
    pub fn params(&self) -> (r: Vec<usize>)
        ensures
            r@ == layer_params(self.neurons_view(), self.out_size() as int),
    {
        let mut r: Vec<usize> = Vec::new();
        let mut k: usize = 0;
        while k < self.neurons.len()
            invariant
                k <= self.neurons@.len(),
                r@ == layer_params(self.neurons@, k as int),
            decreases self.neurons@.len() - k,
        {
            let n = &self.neurons[k];
            let mut t: usize = 0;
            while t < n.weights.len()
                invariant
                    t <= n.weights@.len(),
                    n == &self.neurons@[k as int],
                    k < self.neurons@.len(),
                    r@ == layer_params(self.neurons@, k as int) + n.weights@.take(t as int),
                decreases n.weights@.len() - t,
            {
                r.push(n.weights[t]);
                proof {
                    assert(n.weights@.take(t as int).push(n.weights@[t as int]) =~= n.weights@.take(
                        t as int + 1,
                    ));
                }
                t = t + 1;
            }
            r.push(n.bias);
            proof {
                assert(n.weights@.take(n.weights@.len() as int) =~= n.weights@);
                assert((layer_params(self.neurons@, k as int) + n.weights@).push(n.bias)
                    =~= layer_params(self.neurons@, k as int) + neuron_params(self.neurons@[
                    k as int]));
            }
            k = k + 1;
        }
        r
    }

    /// The forward pass: one output node per neuron, each a fresh weighted
    /// sum over the same inputs.
    pub fn fwd(&self, g: &mut Graph, inputs: &Vec<usize>) -> (r: Vec<usize>)
        requires
            wf(old(g)@),
            self.valid(old(g)@),
            self.sized(inputs@.len()),
            forall|k: int| 0 <= k < inputs@.len() ==> (#[trigger] inputs@[k]) < old(g)@.len(),
        ensures
            wf(final(g)@),
            final(g)@.len() >= old(g)@.len(),
            forall|j: int| 0 <= j < old(g)@.len() ==> final(g)@[j] == old(g)@[j],
            r@.len() == self.out_size(),
            forall|k: int| 0 <= k < r@.len() ==> (#[trigger] r@[k]) < final(g)@.len(),
            forall|k: int|
                0 <= k < r@.len() ==> (#[trigger] final(g)@[r@[k] as int]).value == self.layer_out(
                    old(g)@,
                    vals_of(old(g)@, inputs@),
                )[k],
            forall|k: int|
                0 <= k < r@.len() ==> neuron_shaped(
                    final(g)@,
                    #[trigger] r@[k] as int,
                    self.neurons_view()[k],
                    inputs@,
                ),
    {
        let ghost orig = g@;
        let ghost in_vals = vals_of(orig, inputs@);
        let mut r: Vec<usize> = Vec::new();
        let mut k: usize = 0;
        while k < self.neurons.len()
            invariant
                k <= self.neurons@.len(),
                wf(g@),
                self.valid(orig),
                self.sized(inputs@.len()),
                forall|j: int| 0 <= j < inputs@.len() ==> (#[trigger] inputs@[j]) < orig.len(),
                g@.len() >= orig.len(),
                forall|j: int| 0 <= j < orig.len() ==> g@[j] == orig[j],
                r@.len() == k,
                in_vals == vals_of(orig, inputs@),
                forall|j: int| 0 <= j < k ==> (#[trigger] r@[j]) < g@.len(),
                forall|j: int|
                    0 <= j < k ==> (#[trigger] g@[r@[j] as int]).value == self.neurons@[j].fwd_val(
                        orig,
                        in_vals,
                    ),
                forall|j: int|
                    0 <= j < k ==> neuron_shaped(
                        g@,
                        #[trigger] r@[j] as int,
                        self.neurons_view()[j],
                        inputs@,
                    ),
            decreases self.neurons@.len() - k,
        {
            let ghost pre = g@;
            proof {
                assert(self.neurons_view()[k as int].valid(orig));
                assert(self.neurons_view()[k as int].in_size() == inputs@.len());
                assert(self.neurons_view()[k as int].valid(pre)) by {
                    assert forall|t: int|
                        0 <= t < self.neurons_view()[k as int].weights_view().len() implies (
                        #[trigger] self.neurons_view()[k as int].weights_view()[t]) < pre.len() by {
                        assert(self.neurons_view()[k as int].weights_view()[t] < orig.len());
                    }
                }
            }
            let o = self.neurons[k].forward(g, inputs);
            proof {
                let n = self.neurons@[k as int];
                assert(g@[o as int].value == n.fwd_val(pre, vals_of(pre, inputs@)));
                assert(vals_of(pre, inputs@) =~= in_vals);
                lemma_fwd_val_prefix(n, orig, pre, in_vals);
                assert forall|j: int| 0 <= j < k implies neuron_shaped(
                    g@,
                    #[trigger] r@[j] as int,
                    self.neurons_view()[j],
                    inputs@,
                ) by {
                    lemma_neuron_shaped_prefix(pre, g@, r@[j] as int, self.neurons_view()[j], inputs@);
                }
            }
            r.push(o);
            k = k + 1;
        }
        r
    }
}

impl Layer for LinearLayer {
    open spec fn wf_in(&self, s: Seq<Node>) -> bool {
        self.valid(s)
    }

    open spec fn accepts(&self, n: nat) -> bool {
        self.sized(n)
    }

    fn parameters(&self) -> (r: Vec<usize>) {
        let r = self.params();
        proof {
            assert forall|s: Seq<Node>| self.wf_in(s) implies forall|t: int|
                0 <= t < r@.len() ==> (#[trigger] r@[t]) < s.len() by {
                lemma_layer_params_valid(self.neurons_view(), self.out_size() as int, s);
            }
        }
        r
    }

    fn forward(&self, g: &mut Graph, inputs: &Vec<usize>) -> (r: Vec<usize>) {
        self.fwd(g, inputs)
    }
}

/// A neuron's leaves stay freshly initialized when the graph is extended
/// past them.
proof fn lemma_inited_mono(n: Neuron, s1: Seq<Node>, s2: Seq<Node>)
    requires
        neuron_inited(n, s1),
        n.valid(s1),
        s1.len() <= s2.len(),
        forall|j: int| 0 <= j < s1.len() ==> s2[j] == s1[j],
    ensures
        neuron_inited(n, s2),
{
    assert forall|t: int| 0 <= t < n.weights_view().len() implies is_init_leaf(
        #[trigger] s2[n.weights_view()[t] as int],
    ) by {
        assert(n.weights_view()[t] < s1.len());
        assert(s2[n.weights_view()[t] as int] == s1[n.weights_view()[t] as int]);
    }
    assert(s2[n.bias_idx() as int] == s1[n.bias_idx() as int]);
}

/// A layer stays valid when the graph is extended.
proof fn lemma_layer_valid_mono(l: &LinearLayer, s1: Seq<Node>, s2: Seq<Node>)
    requires
        l.valid(s1),
        s1.len() <= s2.len(),
    ensures
        l.valid(s2),
{
    assert forall|k: int| 0 <= k < l.neurons_view().len() implies (
    #[trigger] l.neurons_view()[k]).valid(s2) by {
        assert(l.neurons_view()[k].valid(s1));
        assert forall|t: int|
            0 <= t < l.neurons_view()[k].weights_view().len() implies (
            #[trigger] l.neurons_view()[k].weights_view()[t]) < s2.len() by {
            assert(l.neurons_view()[k].weights_view()[t] < s1.len());
        }
    }
}

/// A layer's forward values only read its own leaves, so they are unchanged
/// when the graph is extended past them.
proof fn lemma_layer_out_prefix(l: &LinearLayer, s1: Seq<Node>, s2: Seq<Node>, in_vals: Seq<u32>)
    requires
        l.valid(s1),
        s1.len() <= s2.len(),
        forall|j: int| 0 <= j < s1.len() ==> s2[j] == s1[j],
    ensures
        l.layer_out(s2, in_vals) == l.layer_out(s1, in_vals),
{
    assert forall|k: int| 0 <= k < l.out_size() implies l.layer_out(s2, in_vals)[k]
        == l.layer_out(s1, in_vals)[k] by {
        assert(l.neurons_view()[k].valid(s1));
        lemma_fwd_val_prefix(l.neurons_view()[k], s1, s2, in_vals);
    }
    assert(l.layer_out(s2, in_vals) =~= l.layer_out(s1, in_vals));
}

/// A two-layer feed-forward network with a rectifier between the layers:
/// four inputs, ten hidden units, three outputs.
pub struct Network {
    l1: LinearLayer,
    l2: LinearLayer,
}

impl Network {
    /// The hidden layer.
    pub closed spec fn first_layer(&self) -> LinearLayer {
        self.l1
    }

    /// The output layer.
    pub closed spec fn second_layer(&self) -> LinearLayer {
        self.l2
    }

    /// Whether every node index the network holds is valid in the graph.
    pub open spec fn valid(&self, s: Seq<Node>) -> bool {
        self.first_layer().valid(s) && self.second_layer().valid(s)
    }

    /// The network's forward values on the given input values: the hidden
    /// layer, a rectifier on each hidden value, then the output layer.
    pub open spec fn net_out(&self, s: Seq<Node>, in_vals: Seq<u32>) -> Seq<u32> {
        let h = self.first_layer().layer_out(s, in_vals);
        let hr = Seq::new(h.len(), |k: int| relu_fwd(h[k]));
        self.second_layer().layer_out(s, hr)
    }

    /// The shape of the network's appended forward subgraph: one rectifier
    /// node per hidden neuron, each applied to that neuron's weighted-sum
    /// chain over the inputs, and one weighted-sum chain per output neuron
    /// fed by the rectifier nodes — so gradients flow from every output
    /// through the rectifiers to every weight, bias and input leaf.
    pub open spec fn shaped(
        &self,
        s: Seq<Node>,
        mid: Seq<usize>,
        outs: Seq<usize>,
        inputs: Seq<usize>,
    ) -> bool {
        &&& mid.len() == self.first_layer().out_size()
        &&& forall|t: int| 0 <= t < mid.len() ==> (#[trigger] mid[t]) < s.len()
        &&& forall|t: int| 0 <= t < mid.len() ==> (#[trigger] s[mid[t] as int]).op == Op::Relu
        &&& forall|t: int|
            0 <= t < mid.len() ==> neuron_shaped(
                s,
                (#[trigger] s[mid[t] as int]).a as int,
                self.first_layer().neurons_view()[t],
                inputs,
            )
        &&& forall|k: int|
            0 <= k < outs.len() ==> neuron_shaped(
                s,
                #[trigger] outs[k] as int,
                self.second_layer().neurons_view()[k],
                mid,
            )
    }

    /// A freshly initialized network: a hidden layer of ten neurons over
    /// four inputs, then an output layer of three neurons.
    pub fn new(g: &mut Graph, rng: &mut rand::rngs::StdRng) -> (r: Network)
        requires
            wf(old(g)@),
        ensures
            wf(final(g)@),
            final(g)@.len() >= old(g)@.len(),
            forall|j: int| 0 <= j < old(g)@.len() ==> final(g)@[j] == old(g)@[j],
            r.first_layer().out_size() == 10,
            r.second_layer().out_size() == 3,
            r.first_layer().sized(4),
            r.second_layer().sized(10),
            r.valid(final(g)@),
            forall|k: int|
                0 <= k < 10 ==> neuron_inited(
                    #[trigger] r.first_layer().neurons_view()[k],
                    final(g)@,
                ),
            forall|k: int|
                0 <= k < 3 ==> neuron_inited(
                    #[trigger] r.second_layer().neurons_view()[k],
                    final(g)@,
                ),
    {
        let ghost orig = g@;
        let l1 = LinearLayer::new(g, 4, 10, rng);
        let ghost mid = g@;
        let l2 = LinearLayer::new(g, 10, 3, rng);
        proof {
            lemma_layer_valid_mono(&l1, mid, g@);
            assert forall|k: int| 0 <= k < 10 implies neuron_inited(
                #[trigger] l1.neurons_view()[k],
                g@,
            ) by {
                lemma_inited_mono(l1.neurons_view()[k], mid, g@);
            }
        }
        Network { l1, l2 }
    }

    /// The forward pass: hidden layer, elementwise rectifier, output layer,
    /// all built as a fresh subgraph.
    pub fn forward(&self, g: &mut Graph, inputs: &Vec<usize>) -> (r: Vec<usize>)
        requires
            wf(old(g)@),
            self.valid(old(g)@),
            self.first_layer().sized(inputs@.len()),
            self.second_layer().sized(self.first_layer().out_size()),
            forall|k: int| 0 <= k < inputs@.len() ==> (#[trigger] inputs@[k]) < old(g)@.len(),
        ensures
            wf(final(g)@),
            final(g)@.len() >= old(g)@.len(),
            forall|j: int| 0 <= j < old(g)@.len() ==> final(g)@[j] == old(g)@[j],
            r@.len() == self.second_layer().out_size(),
            forall|k: int| 0 <= k < r@.len() ==> (#[trigger] r@[k]) < final(g)@.len(),
            forall|k: int|
                0 <= k < r@.len() ==> (#[trigger] final(g)@[r@[k] as int]).value == self.net_out(
                    old(g)@,
                    vals_of(old(g)@, inputs@),
                )[k],
            exists|mid: Seq<usize>| self.shaped(final(g)@, mid, r@, inputs@),
    {
        let ghost orig = g@;
        let ghost in_vals = vals_of(orig, inputs@);
        let x1 = self.l1.fwd(g, inputs);
        let ghost mid1 = g@;
        let ghost h = self.first_layer().layer_out(orig, in_vals);
        let ghost hr = Seq::new(h.len(), |k: int| relu_fwd(h[k]));
        let mut xr: Vec<usize> = Vec::new();
        let mut k: usize = 0;
        while k < x1.len()
            invariant
                k <= x1@.len(),
                x1@.len() == self.first_layer().out_size(),
                wf(g@),
                g@.len() >= mid1.len(),
                mid1.len() >= orig.len(),
                forall|j: int| 0 <= j < mid1.len() ==> g@[j] == mid1[j],
                forall|j: int| 0 <= j < x1@.len() ==> (#[trigger] x1@[j]) < mid1.len(),
                forall|j: int|
                    0 <= j < x1@.len() ==> (#[trigger] mid1[x1@[j] as int]).value == h[j],
                h == self.first_layer().layer_out(orig, in_vals),
                hr == Seq::new(h.len(), |t: int| relu_fwd(h[t])),
                xr@.len() == k,
                forall|j: int| 0 <= j < k ==> (#[trigger] xr@[j]) < g@.len(),
                forall|j: int|
                    0 <= j < k ==> (#[trigger] g@[xr@[j] as int]).value == hr[j],
                forall|j: int| 0 <= j < k ==> (#[trigger] g@[xr@[j] as int]).op == Op::Relu,
                forall|j: int| 0 <= j < k ==> (#[trigger] g@[xr@[j] as int]).a == x1@[j],
                forall|j: int|
                    0 <= j < x1@.len() ==> neuron_shaped(
                        mid1,
                        #[trigger] x1@[j] as int,
                        self.first_layer().neurons_view()[j],
                        inputs@,
                    ),
            decreases x1@.len() - k,
        {
            let ghost pre = g@;
            let o = relu(g, x1[k]);
            proof {
                assert(pre[x1@[k as int] as int] == mid1[x1@[k as int] as int]);
                assert(g@[o as int].value == relu_fwd(mid1[x1@[k as int] as int].value));
                assert(hr[k as int] == relu_fwd(h[k as int]));
            }
            xr.push(o);
            k = k + 1;
        }
        let ghost mid2 = g@;
        proof {
            lemma_layer_valid_mono(&self.second_layer(), orig, mid2);
            assert(self.l2.valid(mid2));
            assert(vals_of(mid2, xr@) =~= hr);
        }
        let r = self.l2.fwd(g, &xr);
        proof {
            lemma_layer_out_prefix(&self.second_layer(), orig, mid2, hr);
            assert forall|k2: int| 0 <= k2 < r@.len() implies (#[trigger] g@[r@[k2] as int]).value
                == self.net_out(orig, in_vals)[k2] by {
                assert(g@[r@[k2] as int].value == self.second_layer().layer_out(mid2, hr)[k2]);
            }
            let midseq = xr@;
            assert(self.shaped(g@, midseq, r@, inputs@)) by {
                assert forall|t: int| 0 <= t < midseq.len() implies (#[trigger] g@[midseq[t]
                    as int]).op == Op::Relu && g@[midseq[t] as int].a == x1@[t] by {
                    assert(g@[midseq[t] as int] == mid2[midseq[t] as int]);
                }
                assert forall|t: int| 0 <= t < midseq.len() implies neuron_shaped(
                    g@,
                    (#[trigger] g@[midseq[t] as int]).a as int,
                    self.first_layer().neurons_view()[t],
                    inputs@,
                ) by {
                    assert(g@[midseq[t] as int] == mid2[midseq[t] as int]);
                    assert(neuron_shaped(
                        mid1,
                        x1@[t] as int,
                        self.first_layer().neurons_view()[t],
                        inputs@,
                    ));
                    assert forall|j: int| 0 <= j < mid1.len() implies g@[j] == mid1[j] by {
                        assert(mid2[j] == mid1[j]);
                    }
                    lemma_neuron_shaped_prefix(
                        mid1,
                        g@,
                        x1@[t] as int,
                        self.first_layer().neurons_view()[t],
                        inputs@,
                    );
                }
            }
        }
        r
    }

    /// The union of both layers' parameters: the hidden layer's, then the
    /// output layer's.
    pub fn parameters(&self) -> (r: Vec<usize>)
        ensures
            r@ == layer_params(self.first_layer().neurons_view(), self.first_layer().out_size()
                as int) + layer_params(self.second_layer().neurons_view(),
                self.second_layer().out_size() as int),
            forall|s: Seq<Node>|
                self.valid(s) ==> forall|t: int| 0 <= t < r@.len() ==> (#[trigger] r@[t]) < s.len(),
    {
        let mut r = self.l1.params();
        let mut r2 = self.l2.params();
        r.append(&mut r2);
        proof {
            assert forall|s: Seq<Node>| self.valid(s) implies forall|t: int|
                0 <= t < r@.len() ==> (#[trigger] r@[t]) < s.len() by {
                lemma_layer_params_valid(
                    self.first_layer().neurons_view(),
                    self.first_layer().out_size() as int,
                    s,
                );
                lemma_layer_params_valid(
                    self.second_layer().neurons_view(),
                    self.second_layer().out_size() as int,
                    s,
                );
            }
        }
        r
    }
}

} // verus!
