//! Gradient descent over a fixed, ordered list of parameter nodes.
//!
//! One `step` moves every trainable parameter against its accumulated
//! gradient, scaled by `learning_rate / batch_size`; `zero_grad` resets the
//! gradients of all held parameters.

use vstd::prelude::*;
use crate::node::{same_shape, step_spec, Graph, Node};
use crate::scalar::{div_bits, div_s, of_u32_bits, of_u32_s, ZERO_BITS};

verus! {

/// The parameter list updated front to back, one gradient-descent step per
/// entry, exactly as the update loop applies it. A parameter listed twice is
/// stepped twice.
pub open spec fn step_fold(s: Seq<Node>, ps: Seq<usize>, k: int, scale: u32) -> Seq<Node>
    decreases k,
{
    if k <= 0 {
        s
    } else {
        step_spec(step_fold(s, ps, k - 1, scale), ps[k - 1] as int, scale)
    }
}

/// The parameter list with gradients reset front to back.
pub open spec fn zero_fold(s: Seq<Node>, ps: Seq<usize>, k: int) -> Seq<Node>
    decreases k,
{
    if k <= 0 {
        s
    } else {
        let s1 = zero_fold(s, ps, k - 1);
        s1.update(ps[k - 1] as int, (Node { grad: ZERO_BITS, ..s1[ps[k - 1] as int] }))
    }
}

/// After the reset fold, a node's gradient reads zero exactly when its index
/// is listed; nothing else about any node changes.
proof fn lemma_zero_fold(s: Seq<Node>, ps: Seq<usize>, k: int)
    requires
        0 <= k <= ps.len(),
        forall|t: int| 0 <= t < ps.len() ==> ps[t] < s.len(),
    ensures
        zero_fold(s, ps, k).len() == s.len(),
        forall|j: int|
            0 <= j < s.len() ==> same_shape(#[trigger] zero_fold(s, ps, k)[j], s[j]),
        forall|j: int|
            0 <= j < s.len() ==> (#[trigger] zero_fold(s, ps, k)[j]).grad == if (exists|t: int|
                0 <= t < k && ps[t] == j) {
                ZERO_BITS
            } else {
                s[j].grad
            },
    decreases k,
{
    if k > 0 {
        lemma_zero_fold(s, ps, k - 1);
        let s1 = zero_fold(s, ps, k - 1);
        let s2 = zero_fold(s, ps, k);
        assert forall|j: int| 0 <= j < s.len() implies (#[trigger] s2[j]).grad == if (
        exists|t: int| 0 <= t < k && ps[t] == j) {
            ZERO_BITS
        } else {
            s[j].grad
        } by {
            if j == ps[k - 1] {
                assert(0 <= k - 1 < k && ps[k - 1] == j);
            } else {
                assert(s2[j] == s1[j]);
                if exists|t: int| 0 <= t < k && ps[t] == j {
                    let t = choose|t: int| 0 <= t < k && ps[t] == j;
                    assert(0 <= t < k - 1 && ps[t] == j);
                }
            }
        }
    }
}

/// The optimizer: an ordered parameter list and a fixed update scale.
pub struct Optimizer {
    parameters: Vec<usize>,
    scale: u32,
}

impl Optimizer {
    /// The held parameter indices, in order.
    pub closed spec fn params(&self) -> Seq<usize> {
        self.parameters@
    }

    /// The scalar every gradient is multiplied by in an update:
    /// `learning_rate / batch_size`.
    pub closed spec fn scale_bits(&self) -> u32 {
        self.scale
    }

    /// An optimizer over `parameters` with the given learning rate and an
    /// implicit batch size of one.
    pub fn new(parameters: Vec<usize>, learning_rate: u32) -> (r: Optimizer)
        ensures
            r.params() == parameters@,
            r.scale_bits() == learning_rate,
    {
        Optimizer { parameters, scale: learning_rate }
    }

    /// An optimizer whose update scale is `learning_rate / batch_size`.
    pub fn new_with_batch(parameters: Vec<usize>, learning_rate: u32, batch_size: u32) -> (r:
        Optimizer)
        ensures
            r.params() == parameters@,
            r.scale_bits() == div_bits(learning_rate, of_u32_bits(batch_size)),
    {
        let scale = div_s(learning_rate, of_u32_s(batch_size));
        Optimizer { parameters, scale }
    }

    /// One gradient-descent update: for every trainable parameter, front to
    /// back, `value -= scale * grad`; non-trainable parameters are
    /// untouched.
    pub fn step(&self, g: &mut Graph)
        requires
            forall|t: int| 0 <= t < self.params().len() ==> self.params()[t] < old(g)@.len(),
        ensures
            final(g)@ == step_fold(
                old(g)@,
                self.params(),
                self.params().len() as int,
                self.scale_bits(),
            ),
            final(g)@.len() == old(g)@.len(),
    {
        let ghost orig = g@;
        let mut k: usize = 0;
        while k < self.parameters.len()
            invariant
                k <= self.params().len(),
                forall|t: int| 0 <= t < self.params().len() ==> self.params()[t] < orig.len(),
                g@ == step_fold(orig, self.params(), k as int, self.scale_bits()),
                g@.len() == orig.len(),
            decreases self.params().len() - k,
        {
            g.step(self.parameters[k], self.scale);
            k = k + 1;
        }
    }

    /// Reset the gradient of every held parameter to zero; values,
    /// operator kinds and trainability are untouched, and no node outside
    /// the parameter list changes at all.
    pub fn zero_grad(&self, g: &mut Graph)
        requires
            forall|t: int| 0 <= t < self.params().len() ==> self.params()[t] < old(g)@.len(),
        ensures
            final(g)@.len() == old(g)@.len(),
            forall|j: int|
                0 <= j < old(g)@.len() ==> same_shape(#[trigger] final(g)@[j], old(g)@[j]),
            forall|j: int|
                0 <= j < old(g)@.len() ==> (#[trigger] final(g)@[j]).grad == if (exists|t: int|
                    0 <= t < self.params().len() && self.params()[t] == j) {
                    ZERO_BITS
                } else {
                    old(g)@[j].grad
                },
    {
        let ghost orig = g@;
        let mut k: usize = 0;
        while k < self.parameters.len()
            invariant
                k <= self.params().len(),
                forall|t: int| 0 <= t < self.params().len() ==> self.params()[t] < orig.len(),
                g@ == zero_fold(orig, self.params(), k as int),
                g@.len() == orig.len(),
            decreases self.params().len() - k,
        {
            g.zero_grad(self.parameters[k]);
            k = k + 1;
        }
        proof {
            lemma_zero_fold(orig, self.params(), self.params().len() as int);
        }
    }
}

} // verus!
