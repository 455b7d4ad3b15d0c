//! The feed-forward network: an ordered sequence of dense layers with
//! forward prediction, backpropagation, full-batch gradient descent and
//! mini-batch stochastic gradient descent.
//!
//! Conventions fixed by this implementation: the per-example cost is
//! the sum of squared errors sum((target - output)^2); a batch step
//! returns the accumulated cost divided by 2 * batch_size; and
//! `stochastic_gradient_descent` returns the cost of the last chunk it
//! processed.  `test` counts correct predictions.

use vstd::prelude::*;

use crate::activation::Activation;
use crate::fixed::{fadd, tdiv, CAP};
use crate::layer::{spec_map_act_prime, DenseLayer, LayerModel};
use crate::linalg::{
    ints, spec_mat_add, spec_mat_sub, spec_outer, spec_scale_mat, spec_scale_vec, spec_sumsq,
    spec_tmatvec, spec_zip_add, spec_zip_mul, spec_zip_sub, sumsq, vec_mul, vec_sub, vec_zeros,
    zero_mat, zero_vec, Matrix,
};
use rand::rngs::StdRng;

verus! {

/// The errors a network call can fail with: an input, target or label
/// sequence whose length disagrees with the declared sizes, or a
/// training batch with no examples.
#[derive(Clone, Copy, Debug, PartialEq, Eq, Structural)]
pub enum Error {
    ShapeMismatch,
    EmptyBatch,
}

/// The mathematical content of a network.
pub ghost struct NetModel {
    pub input_size: nat,
    pub output_size: nat,
    pub layers: Seq<LayerModel>,
}

impl NetModel {
    /// The chain invariant: each layer is well formed, consecutive
    /// layers agree on their shared width, and the declared input and
    /// output sizes match the first and last layers (or each other,
    /// for a network with no layers).
    pub open spec fn wf(self) -> bool {
        &&& forall|l: int| 0 <= l < self.layers.len() ==> (#[trigger] self.layers[l]).wf()
        &&& forall|l: int|
            0 <= l < self.layers.len() - 1 ==> (#[trigger] self.layers[l]).out_size()
                == self.layers[l + 1].in_size
        &&& self.layers.len() > 0 ==> self.layers[0].in_size == self.input_size
        &&& self.layers.len() > 0 ==> self.layers[self.layers.len() - 1].out_size()
            == self.output_size
        &&& self.layers.len() == 0 ==> self.output_size == self.input_size
    }

    /// The activation vector after the first l layers; a_0 is the
    /// input itself.
    pub open spec fn activ(self, x: Seq<int>, l: int) -> Seq<int>
        decreases l,
    {
        if l <= 0 {
            x
        } else {
            self.layers[l - 1].a_of(self.activ(x, l - 1))
        }
    }

    /// The pre-activation vector of layer l - 1 (1-based position l).
    pub open spec fn z_at(self, x: Seq<int>, l: int) -> Seq<int> {
        self.layers[l - 1].z_of(self.activ(x, l - 1))
    }

    /// The full forward pass.
    pub open spec fn predict_of(self, x: Seq<int>) -> Seq<int> {
        self.activ(x, self.layers.len() as int)
    }

    /// The backpropagated error of layer l (0-based), for one example.
    pub open spec fn delta(self, x: Seq<int>, t: Seq<int>, l: int) -> Seq<int>
        decreases self.layers.len() - l,
    {
        let ll = self.layers.len() as int;
        if l == ll - 1 {
            spec_zip_mul(
                spec_zip_sub(self.activ(x, ll), t),
                spec_map_act_prime(self.layers[l].act, self.z_at(x, l + 1)),
            )
        } else if 0 <= l < ll - 1 {
            spec_zip_mul(
                spec_tmatvec(self.layers[l + 1].w, self.delta(x, t, l + 1), self.layers[l + 1].in_size),
                spec_map_act_prime(self.layers[l].act, self.z_at(x, l + 1)),
            )
        } else {
            Seq::empty()
        }
    }

    /// One example's gradient contribution to layer l's weights.
    pub open spec fn nabla_w_of(self, x: Seq<int>, t: Seq<int>, l: int) -> Seq<Seq<int>> {
        spec_outer(self.delta(x, t, l), self.activ(x, l))
    }

    /// One example's gradient contribution to layer l's biases.
    pub open spec fn nabla_b_of(self, x: Seq<int>, t: Seq<int>, l: int) -> Seq<int> {
        self.delta(x, t, l)
    }

    /// One example's cost: the sum of squared errors.
    pub open spec fn cost_of(self, x: Seq<int>, t: Seq<int>) -> int {
        spec_sumsq(spec_zip_sub(t, self.predict_of(x)))
    }

    /// Layer l's weight gradient accumulated over the first k examples.
    pub open spec fn acc_w(self, xs: Seq<Seq<int>>, ts: Seq<Seq<int>>, l: int, k: int) -> Seq<
        Seq<int>,
    >
        decreases k,
    {
        if k <= 0 {
            zero_mat(self.layers[l].out_size(), self.layers[l].in_size)
        } else {
            spec_mat_add(self.acc_w(xs, ts, l, k - 1), self.nabla_w_of(xs[k - 1], ts[k - 1], l))
        }
    }

    /// Layer l's bias gradient accumulated over the first k examples.
    pub open spec fn acc_b(self, xs: Seq<Seq<int>>, ts: Seq<Seq<int>>, l: int, k: int) -> Seq<int>
        decreases k,
    {
        if k <= 0 {
            zero_vec(self.layers[l].out_size())
        } else {
            spec_zip_add(self.acc_b(xs, ts, l, k - 1), self.nabla_b_of(xs[k - 1], ts[k - 1], l))
        }
    }

    /// The cost accumulated over the first k examples.
    pub open spec fn acc_cost(self, xs: Seq<Seq<int>>, ts: Seq<Seq<int>>, k: int) -> int
        decreases k,
    {
        if k <= 0 {
            0
        } else {
            fadd(self.acc_cost(xs, ts, k - 1), self.cost_of(xs[k - 1], ts[k - 1]))
        }
    }

    /// The layers after one full-batch gradient step.
    pub open spec fn gd_layers(self, xs: Seq<Seq<int>>, ts: Seq<Seq<int>>, eta: int) -> Seq<
        LayerModel,
    > {
        let n = xs.len() as int;
        Seq::new(
            self.layers.len(),
            |l: int|
                LayerModel {
                    w: spec_mat_sub(
                        self.layers[l].w,
                        spec_scale_mat(eta, n, self.acc_w(xs, ts, l, n)),
                    ),
                    b: spec_zip_sub(
                        self.layers[l].b,
                        spec_scale_vec(eta, n, self.acc_b(xs, ts, l, n)),
                    ),
                    in_size: self.layers[l].in_size,
                    act: self.layers[l].act,
                },
        )
    }

    /// The network after one full-batch gradient step.
    pub open spec fn gd_step(self, xs: Seq<Seq<int>>, ts: Seq<Seq<int>>, eta: int) -> NetModel {
        NetModel {
            input_size: self.input_size,
            output_size: self.output_size,
            layers: self.gd_layers(xs, ts, eta),
        }
    }

    /// The cost a full-batch gradient step reports: the accumulated
    /// cost over the batch divided by 2 * batch_size.
    pub open spec fn gd_cost(self, xs: Seq<Seq<int>>, ts: Seq<Seq<int>>) -> int {
        tdiv(self.acc_cost(xs, ts, xs.len() as int), 2 * xs.len() as int)
    }

    /// A batch the network owes a gradient step on: equally many
    /// inputs and targets, at least one example, and every vector of
    /// the declared width.
    pub open spec fn batch_ok(self, xs: Seq<Seq<int>>, ts: Seq<Seq<int>>) -> bool {
        &&& xs.len() == ts.len()
        &&& xs.len() > 0
        &&& forall|i: int| 0 <= i < xs.len() ==> (#[trigger] xs[i]).len() == self.input_size
        &&& forall|i: int| 0 <= i < ts.len() ==> (#[trigger] ts[i]).len() == self.output_size
    }
}

/// Shape invariant: in every well-formed network each layer's output
/// width equals the next layer's input width, the network's input size
/// is the first layer's input width, and its output size is the last
/// layer's output width.
pub proof fn lemma_shape_invariant(net: NetModel)
    requires
        net.wf(),
    ensures
        forall|l: int|
            0 <= l < net.layers.len() - 1 ==> (#[trigger] net.layers[l]).out_size()
                == net.layers[l + 1].in_size,
        net.layers.len() > 0 ==> net.input_size == net.layers[0].in_size,
        net.layers.len() > 0 ==> net.output_size == net.layers[net.layers.len() - 1].out_size(),
{
}

/// A network with no layers is the identity: its output size equals
/// its input size and prediction returns the input unchanged.
pub proof fn lemma_empty_network_identity(net: NetModel, x: Seq<int>)
    requires
        net.wf(),
        net.layers.len() == 0,
    ensures
        net.output_size == net.input_size,
        net.predict_of(x) == x,
{
}

/// The index of the largest entry; among equals, the last one wins.
pub open spec fn spec_argmax_prefix(v: Seq<int>, n: int) -> int
    decreases n,
{
    if n <= 1 {
        0
    } else {
        let p = spec_argmax_prefix(v, n - 1);
        if v[n - 1] >= v[p] {
            n - 1
        } else {
            p
        }
    }
}

pub open spec fn spec_argmax(v: Seq<int>) -> int {
    spec_argmax_prefix(v, v.len() as int)
}

/// How many of the first k examples the network classifies correctly:
/// the arg-max of the prediction must equal the label.
pub open spec fn spec_count_correct(
    net: NetModel,
    xs: Seq<Seq<int>>,
    labels: Seq<u8>,
    k: int,
) -> int
    decreases k,
{
    if k <= 0 {
        0
    } else {
        spec_count_correct(net, xs, labels, k - 1) + (
        if spec_argmax(net.predict_of(xs[k - 1])) == labels[k - 1] as int {
            1int
        } else {
            0int
        })
    }
}

/// The views of a sequence of vectors.
pub open spec fn ints2(v: Seq<Vec<i64>>) -> Seq<Seq<int>> {
    Seq::new(v.len(), |i: int| ints(v[i]@))
}

/// Gradient accumulators matching the network's layer shapes.
pub open spec fn nabla_wf(net: NetModel, nb: Seq<(Matrix, Vec<i64>)>) -> bool {
    &&& nb.len() == net.layers.len()
    &&& forall|l: int|
        0 <= l < nb.len() ==> {
            &&& (#[trigger] nb[l]).0.wf()
            &&& nb[l].0@.len() == net.layers[l].out_size()
            &&& nb[l].0.spec_cols() == net.layers[l].in_size
            &&& nb[l].1@.len() == net.layers[l].out_size()
        }
}

/// Accumulated batch cost is never negative: each example contributes
/// a saturating sum of squares.
pub proof fn lemma_acc_cost_bounds(net: NetModel, xs: Seq<Seq<int>>, ts: Seq<Seq<int>>, k: int)
    ensures
        0 <= net.acc_cost(xs, ts, k) <= CAP as int,
    decreases k,
{
    if k > 0 {
        lemma_acc_cost_bounds(net, xs, ts, k - 1);
        let v = spec_zip_sub(ts[k - 1], net.predict_of(xs[k - 1]));
        crate::linalg::lemma_sumsq_prefix_nonneg(v, v.len() as int);
    }
}

/// A gradient step keeps the chain invariant: it changes weight and
/// bias values but no shape.
#[verifier::rlimit(100)]
proof fn lemma_gd_step_wf(net: NetModel, xs: Seq<Seq<int>>, ts: Seq<Seq<int>>, eta: int)
    requires
        net.wf(),
    ensures
        net.gd_step(xs, ts, eta).wf(),
        net.gd_step(xs, ts, eta).layers.len() == net.layers.len(),
{
    let g = net.gd_step(xs, ts, eta);
    let n = xs.len() as int;
    assert forall|l: int| 0 <= l < g.layers.len() implies (#[trigger] g.layers[l]).wf()
        && g.layers[l].out_size() == net.layers[l].out_size() && g.layers[l].in_size
        == net.layers[l].in_size by {
        let nl = g.layers[l];
        assert(net.layers[l].wf());
        assert(nl.w.len() == net.layers[l].w.len());
        assert forall|i: int| 0 <= i < nl.w.len() implies (#[trigger] nl.w[i]).len()
            == nl.in_size by {
            assert(nl.w[i] == spec_zip_sub(
                net.layers[l].w[i],
                spec_scale_mat(eta, n, net.acc_w(xs, ts, l, n))[i],
            ));
        }
    }
}

fn vec_copy(v: &Vec<i64>) -> (r: Vec<i64>)
    ensures
        r@ == v@,
{
    let n = v.len();
    let mut r: Vec<i64> = Vec::new();
    let mut t: usize = 0;
    while t < n
        invariant
            t <= n,
            v@.len() == n,
            r@ == v@.subrange(0, t as int),
        decreases n - t,
    {
        r.push(v[t]);
        proof {
            assert(r@ =~= v@.subrange(0, t + 1));
        }
        t = t + 1;
    }
    proof {
        assert(r@ =~= v@);
    }
    r
}

/// The index of a vector's largest entry (the last one, among equals).
fn argmax(v: &Vec<i64>) -> (r: usize)
    requires
        v@.len() >= 1,
    ensures
        r as int == spec_argmax(ints(v@)),
        r < v@.len(),
{
    let n = v.len();
    let mut best: usize = 0;
    let mut t: usize = 1;
    while t < n
        invariant
            1 <= t <= n,
            v@.len() == n,
            best < t,
            best as int == spec_argmax_prefix(ints(v@), t as int),
        decreases n - t,
    {
        if v[t] >= v[best] {
            best = t;
        }
        t = t + 1;
    }
    best
}


pub struct Network {
    layers: Vec<DenseLayer>,
    input_size: usize,
    output_size: usize,
}

impl View for Network {
    type V = NetModel;

    closed spec fn view(&self) -> NetModel {
        NetModel {
            input_size: self.input_size as nat,
            output_size: self.output_size as nat,
            layers: Seq::new(self.layers@.len(), |i: int| self.layers@[i]@),
        }
    }
}

impl Network {
    /// The chain invariant, together with each layer's internal
    /// well-formedness.
    pub closed spec fn wf(&self) -> bool {
        &&& self@.wf()
        &&& forall|l: int| 0 <= l < self.layers@.len() ==> (#[trigger] self.layers@[l]).inv()
    }

    /// A well-formed network's view satisfies the model's chain
    /// invariant.
    pub proof fn lemma_wf_model(&self)
        requires
            self.wf(),
        ensures
            self@.wf(),
    {
    }

    /// Starts assembling a network.
    pub fn build() -> (r: NetworkBuilder)
        ensures
            r.wf(),
            r.model_layers() == Seq::<LayerModel>::empty(),
            r.spec_input_size() is None,
            r.spec_next_size() is None,
    {
        NetworkBuilder::default()
    }

    /// The pure forward pass: feeds the input through every layer in
    /// order and returns the final post-activation vector.  The result
    /// is a function of the weights and the input alone, so two calls
    /// with unchanged weights and equal inputs return equal vectors.
    pub fn predict(&self, input: &Vec<i64>) -> (r: Result<Vec<i64>, Error>)
        requires
            self.wf(),
        ensures
            match r {
                Ok(out) => {
                    &&& input@.len() == self@.input_size
                    &&& ints(out@) == self@.predict_of(ints(input@))
                    &&& out@.len() == self@.output_size
                },
                Err(e) => {
                    &&& e == Error::ShapeMismatch
                    &&& input@.len() != self@.input_size
                },
            },
    {
        if input.len() != self.input_size {
            return Err(Error::ShapeMismatch);
        }
        let ghost x = ints(input@);
        let count = self.layers.len();
        let mut acc = vec_copy(input);
        let mut l: usize = 0;
        while l < count
            invariant
                l <= count,
                self.wf(),
                count == self@.layers.len(),
                input@.len() == self@.input_size,
                x == ints(input@),
                ints(acc@) == self@.activ(x, l as int),
                acc@.len() == if l == 0 {
                    self@.input_size
                } else {
                    self@.layers[l - 1].out_size()
                },
            decreases count - l,
        {
            let layer = &self.layers[l];
            let (_z, a) = layer.feed_forward(&acc);
            acc = a;
            l = l + 1;
        }
        Ok(acc)
    }

    /// Runs predict on every input and counts how many arg-max
    /// predictions equal the label.
    pub fn test(&self, data: &Vec<Vec<i64>>, label: &Vec<u8>) -> (r: usize)
        requires
            self.wf(),
            data@.len() == label@.len(),
            self@.output_size >= 1,
            forall|i: int| 0 <= i < data@.len() ==> (#[trigger] data@[i])@.len() == self@.input_size,
    ensures
            r as int == spec_count_correct(self@, ints2(data@), label@, data@.len() as int),
            r <= data@.len(),
    {
        let n = data.len();
        let mut correct: usize = 0;
        let mut t: usize = 0;
        while t < n
            invariant
                t <= n,
                self.wf(),
                data@.len() == n,
                label@.len() == n,
                self@.output_size >= 1,
                forall|i: int|
                    0 <= i < data@.len() ==> (#[trigger] data@[i])@.len() == self@.input_size,
                correct <= t,
                correct as int == spec_count_correct(self@, ints2(data@), label@, t as int),
            decreases n - t,
        {
            let out = match self.predict(&data[t]) {
                Ok(o) => o,
                Err(_) => {
                    proof {
                        assert(false);
                    }
                    Vec::new()
                },
            };
            let predicted = argmax(&out);
            if predicted == label[t] as usize {
                correct = correct + 1;
            }
            proof {
                assert(ints2(data@)[t as int] == ints(data@[t as int]@));
            }
            t = t + 1;
        }
        correct
    }
    /// Fresh zero gradient accumulators, one (dW, db) pair per layer.
    #[verifier::rlimit(60)]
    fn new_nabla(&self) -> (r: Vec<(Matrix, Vec<i64>)>)
        requires
            self.wf(),
        ensures
            nabla_wf(self@, r@),
            forall|l: int|
                0 <= l < r@.len() ==> (#[trigger] r@[l]).0@ == zero_mat(
                    self@.layers[l].out_size(),
                    self@.layers[l].in_size,
                ) && ints(r@[l].1@) == zero_vec(self@.layers[l].out_size()),
    {
        let count = self.layers.len();
        let mut r: Vec<(Matrix, Vec<i64>)> = Vec::new();
        let mut l: usize = 0;
        while l < count
            invariant
                l <= count,
                self.wf(),
                count == self@.layers.len(),
                r@.len() == l,
                forall|q: int|
                    0 <= q < l ==> {
                        &&& (#[trigger] r@[q]).0.wf()
                        &&& r@[q].0@ == zero_mat(
                            self@.layers[q].out_size(),
                            self@.layers[q].in_size,
                        )
                        &&& r@[q].0.spec_cols() == self@.layers[q].in_size
                        &&& ints(r@[q].1@) == zero_vec(self@.layers[q].out_size())
                        &&& r@[q].1@.len() == self@.layers[q].out_size()
                    },
            decreases count - l,
        {
            let w = self.layers[l].weights();
            let rows = w.rows();
            let cols = w.cols();
            proof {
                w.lemma_size();
            }
            let dw = Matrix::zeros(rows, cols);
            let db = vec_zeros(rows);
            r.push((dw, db));
            l = l + 1;
        }
        r
    }

    /// Adds one layer's gradient contribution into its accumulator.
    #[verifier::rlimit(60)]
    fn nabla_accumulate_at(
        nabla: &mut Vec<(Matrix, Vec<i64>)>,
        li: usize,
        delta: &Vec<i64>,
        prev_a: &Vec<i64>,
    )
        requires
            li < old(nabla)@.len(),
            old(nabla)@[li as int].0.wf(),
            delta@.len() == old(nabla)@[li as int].0@.len(),
            prev_a@.len() == old(nabla)@[li as int].0.spec_cols(),
            delta@.len() == old(nabla)@[li as int].1@.len(),
        ensures
            final(nabla)@.len() == old(nabla)@.len(),
            forall|q: int|
                0 <= q < old(nabla)@.len() && q != li as int ==> #[trigger] final(nabla)@[q]
                    == old(nabla)@[q],
            final(nabla)@[li as int].0.wf(),
            final(nabla)@[li as int].0.spec_cols() == old(nabla)@[li as int].0.spec_cols(),
            final(nabla)@[li as int].0@ == spec_mat_add(
                old(nabla)@[li as int].0@,
                spec_outer(ints(delta@), ints(prev_a@)),
            ),
            ints(final(nabla)@[li as int].1@) == spec_zip_add(
                ints(old(nabla)@[li as int].1@),
                ints(delta@),
            ),
            final(nabla)@[li as int].1@.len() == old(nabla)@[li as int].1@.len(),
            final(nabla)@[li as int].0@.len() == old(nabla)@[li as int].0@.len(),
    {
        let ghost nb0 = nabla@;
        let (mut mw, mut mb) = nabla.remove(li);
        mw.add_outer(delta, prev_a);
        crate::linalg::vec_acc_add(&mut mb, delta);
        nabla.insert(li, (mw, mb));
        proof {
            assert forall|q: int| 0 <= q < nb0.len() && q != li as int implies #[trigger] nabla@[q]
                == nb0[q] by {}
            assert(nabla@[li as int] == (mw, mb));
        }
    }

    /// Scales one accumulator pair by eta / n.
    #[verifier::rlimit(60)]
    fn nabla_scale_at(nabla: &mut Vec<(Matrix, Vec<i64>)>, l: usize, eta: i64, n: usize)
        requires
            l < old(nabla)@.len(),
            old(nabla)@[l as int].0.wf(),
            n > 0,
        ensures
            final(nabla)@.len() == old(nabla)@.len(),
            forall|q: int|
                0 <= q < old(nabla)@.len() && q != l as int ==> #[trigger] final(nabla)@[q]
                    == old(nabla)@[q],
            final(nabla)@[l as int].0.wf(),
            final(nabla)@[l as int].0.spec_cols() == old(nabla)@[l as int].0.spec_cols(),
            final(nabla)@[l as int].0@ == spec_scale_mat(
                eta as int,
                n as int,
                old(nabla)@[l as int].0@,
            ),
            ints(final(nabla)@[l as int].1@) == spec_scale_vec(
                eta as int,
                n as int,
                ints(old(nabla)@[l as int].1@),
            ),
            final(nabla)@[l as int].1@.len() == old(nabla)@[l as int].1@.len(),
            final(nabla)@[l as int].0@.len() == old(nabla)@[l as int].0@.len(),
    {
        let ghost nb0 = nabla@;
        let (mut mw, mut mb) = nabla.remove(l);
        mw.scale_in_place(eta, n);
        crate::linalg::vec_scale_in_place(&mut mb, eta, n);
        nabla.insert(l, (mw, mb));
        proof {
            assert forall|q: int| 0 <= q < nb0.len() && q != l as int implies #[trigger] nabla@[q]
                == nb0[q] by {}
            assert(nabla@[l as int] == (mw, mb));
        }
    }

    /// Subtracts an already-scaled gradient pair from one layer.
    #[verifier::rlimit(60)]
    fn update_layer_at(&mut self, l: usize, dw: &Matrix, db: &Vec<i64>)
        requires
            l < old(self).layers@.len(),
            old(self)@.layers[l as int].wf(),
            old(self).layers@[l as int].inv(),
            dw.wf(),
            dw@.len() == old(self)@.layers[l as int].out_size(),
            dw.spec_cols() == old(self)@.layers[l as int].in_size,
            db@.len() == old(self)@.layers[l as int].out_size(),
        ensures
            final(self).layers@.len() == old(self).layers@.len(),
            final(self)@.layers.len() == old(self)@.layers.len(),
            final(self)@.input_size == old(self)@.input_size,
            final(self)@.output_size == old(self)@.output_size,
            forall|q: int|
                0 <= q < old(self).layers@.len() && q != l as int
                    ==> (#[trigger] final(self).layers@[q]) == old(self).layers@[q]
                    && final(self)@.layers[q] == old(self)@.layers[q],
            final(self).layers@[l as int].inv(),
            final(self)@.layers[l as int] == (LayerModel {
                w: spec_mat_sub(old(self)@.layers[l as int].w, dw@),
                b: spec_zip_sub(old(self)@.layers[l as int].b, ints(db@)),
                in_size: old(self)@.layers[l as int].in_size,
                act: old(self)@.layers[l as int].act,
            }),
    {
        let ghost lv0 = self.layers@;
        let mut layer = self.layers.remove(l);
        proof {
            assert(layer@ == old(self)@.layers[l as int]);
        }
        layer.update_weights_and_biases(dw, db);
        self.layers.insert(l, layer);
        proof {
            assert forall|q: int| 0 <= q < lv0.len() && q != l as int implies #[trigger] self
                .layers@[q] == lv0[q] by {}
            assert(self.layers@[l as int] == layer);
        }
    }

    /// Runs one example forward, then backward, adding its gradient
    /// contribution into the accumulators and returning its cost.
    #[verifier::rlimit(100)]
    fn back_propagation(&self, input: &Vec<i64>, target: &Vec<i64>, nabla: &mut Vec<(Matrix, Vec<i64>)>) -> (r: i64)
        requires
            self.wf(),
            input@.len() == self@.input_size,
            target@.len() == self@.output_size,
            nabla_wf(self@, old(nabla)@),
        ensures
            nabla_wf(self@, final(nabla)@),
            r as int == self@.cost_of(ints(input@), ints(target@)),
            final(nabla)@.len() == old(nabla)@.len(),
            forall|l: int|
                0 <= l < final(nabla)@.len() ==> (#[trigger] final(nabla)@[l]).0@ == spec_mat_add(
                    old(nabla)@[l].0@,
                    self@.nabla_w_of(ints(input@), ints(target@), l),
                ) && ints(final(nabla)@[l].1@) == spec_zip_add(
                    ints(old(nabla)@[l].1@),
                    self@.nabla_b_of(ints(input@), ints(target@), l),
                ),
    {
        let ghost x = ints(input@);
        let ghost t = ints(target@);
        let ghost pre = nabla@;
        let count = self.layers.len();

        // forward pass, caching every layer's (z, a)
        let mut zs: Vec<Vec<i64>> = Vec::new();
        let mut activs: Vec<Vec<i64>> = Vec::new();
        activs.push(vec_copy(input));
        let mut l: usize = 0;
        while l < count
            invariant
                l <= count,
                self.wf(),
                count == self@.layers.len(),
                input@.len() == self@.input_size,
                x == ints(input@),
                activs@.len() == l + 1,
                zs@.len() == l,
                forall|k: int| 0 <= k <= l ==> ints((#[trigger] activs@[k])@) == self@.activ(x, k),
                forall|k: int|
                    0 <= k <= l ==> (#[trigger] activs@[k])@.len() == if k == 0 {
                        self@.input_size
                    } else {
                        self@.layers[k - 1].out_size()
                    },
                forall|k: int| 0 <= k < l ==> ints((#[trigger] zs@[k])@) == self@.z_at(x, k + 1),
                forall|k: int|
                    0 <= k < l ==> (#[trigger] zs@[k])@.len() == self@.layers[k].out_size(),
            decreases count - l,
        {
            let (z, a) = self.layers[l].feed_forward(&activs[l]);
            zs.push(z);
            activs.push(a);
            l = l + 1;
        }

        // the example's cost
        let diff = vec_sub(target, &activs[count]);
        let cost = sumsq(&diff);

        if count == 0 {
            return cost;
        }

        // backward pass
        let last_ap = self.layers[count - 1].activation_prime(&zs[count - 1]);
        let out_diff = vec_sub(&activs[count], target);
        let mut delta = vec_mul(&out_diff, &last_ap);
        proof {
            assert(ints(delta@) == self@.delta(x, t, count - 1));
        }
        let mut li: usize = count;
        while li > 0
            invariant
                li <= count,
                count == self@.layers.len(),
                count >= 1,
                self.wf(),
                x == ints(input@),
                t == ints(target@),
                activs@.len() == count + 1,
                zs@.len() == count,
                forall|k: int| 0 <= k <= count ==> ints((#[trigger] activs@[k])@) == self@.activ(x, k),
                forall|k: int|
                    0 <= k <= count ==> (#[trigger] activs@[k])@.len() == if k == 0 {
                        self@.input_size
                    } else {
                        self@.layers[k - 1].out_size()
                    },
                forall|k: int| 0 <= k < count ==> ints((#[trigger] zs@[k])@) == self@.z_at(x, k + 1),
                forall|k: int|
                    0 <= k < count ==> (#[trigger] zs@[k])@.len() == self@.layers[k].out_size(),
                li >= 1 ==> ints(delta@) == self@.delta(x, t, li - 1),
                li >= 1 ==> delta@.len() == self@.layers[li - 1].out_size(),
                nabla@.len() == count,
                nabla_wf(self@, nabla@),
                pre.len() == count,
                forall|q: int| 0 <= q < li ==> #[trigger] nabla@[q] == pre[q],
                forall|q: int|
                    li <= q < count ==> (#[trigger] nabla@[q]).0@ == spec_mat_add(
                        pre[q].0@,
                        self@.nabla_w_of(x, t, q),
                    ) && ints(nabla@[q].1@) == spec_zip_add(
                        ints(pre[q].1@),
                        self@.nabla_b_of(x, t, q),
                    ),
            decreases li,
        {
            li = li - 1;
            Self::nabla_accumulate_at(nabla, li, &delta, &activs[li]);
            if li > 0 {
                let td = self.layers[li].weights().tmat_vec(&delta);
                let ap = self.layers[li - 1].activation_prime(&zs[li - 1]);
                delta = vec_mul(&td, &ap);
                proof {
                    assert(ints(delta@) == self@.delta(x, t, li - 1));
                }
            }
        }
        cost
    }

    /// Checks a training batch against the network's declared sizes.
    fn check_batch(&self, data: &Vec<Vec<i64>>, label: &Vec<Vec<i64>>) -> (r: Option<Error>)
        requires
            self.wf(),
        ensures
            match r {
                None => self@.batch_ok(ints2(data@), ints2(label@)),
                Some(e) => {
                    &&& !self@.batch_ok(ints2(data@), ints2(label@))
                    &&& (e == Error::EmptyBatch <==> data@.len() == label@.len() && data@.len()
                        == 0)
                },
            },
    {
        let n = data.len();
        if n != label.len() {
            proof {
                assert(ints2(data@).len() != ints2(label@).len());
            }
            return Some(Error::ShapeMismatch);
        }
        if n == 0 {
            return Some(Error::EmptyBatch);
        }
        let mut i: usize = 0;
        while i < n
            invariant
                i <= n,
                self.wf(),
                data@.len() == n,
                label@.len() == n,
                n > 0,
                forall|k: int| 0 <= k < i ==> (#[trigger] data@[k])@.len() == self@.input_size,
                forall|k: int| 0 <= k < i ==> (#[trigger] label@[k])@.len() == self@.output_size,
            decreases n - i,
        {
            if data[i].len() != self.input_size || label[i].len() != self.output_size {
                proof {
                    assert(ints2(data@)[i as int] == ints(data@[i as int]@));
                    assert(ints2(label@)[i as int] == ints(label@[i as int]@));
                    assert(!self@.batch_ok(ints2(data@), ints2(label@)));
                }
                return Some(Error::ShapeMismatch);
            }
            proof {
                assert(data@[i as int]@.len() == self@.input_size);
                assert(label@[i as int]@.len() == self@.output_size);
            }
            i = i + 1;
        }
        proof {
            let xs = ints2(data@);
            let ts = ints2(label@);
            assert forall|k: int| 0 <= k < xs.len() implies (#[trigger] xs[k]).len()
                == self@.input_size by {
                assert(xs[k] == ints(data@[k]@));
            }
            assert forall|k: int| 0 <= k < ts.len() implies (#[trigger] ts[k]).len()
                == self@.output_size by {
                assert(ts[k] == ints(label@[k]@));
            }
        }
        None
    }

    /// Accumulates every example's gradient and the total cost.
    #[verifier::rlimit(100)]
    fn accumulate_batch(&self, data: &Vec<Vec<i64>>, label: &Vec<Vec<i64>>) -> (r: (
        Vec<(Matrix, Vec<i64>)>,
        i64,
    ))
        requires
            self.wf(),
            self@.batch_ok(ints2(data@), ints2(label@)),
        ensures
            nabla_wf(self@, r.0@),
            forall|l: int|
                0 <= l < r.0@.len() ==> (#[trigger] r.0@[l]).0@ == self@.acc_w(
                    ints2(data@),
                    ints2(label@),
                    l,
                    data@.len() as int,
                ) && ints(r.0@[l].1@) == self@.acc_b(
                    ints2(data@),
                    ints2(label@),
                    l,
                    data@.len() as int,
                ),
            r.1 as int == self@.acc_cost(ints2(data@), ints2(label@), data@.len() as int),
            r.1 >= 0,
    {
        let ghost xs = ints2(data@);
        let ghost ts = ints2(label@);
        let n = data.len();
        let count = self.layers.len();
        let mut nabla = self.new_nabla();
        let mut total: i64 = 0;
        let mut k: usize = 0;
        while k < n
            invariant
                k <= n,
                self.wf(),
                data@.len() == n,
                label@.len() == n,
                count == self@.layers.len(),
                xs == ints2(data@),
                ts == ints2(label@),
                self@.batch_ok(xs, ts),
                nabla_wf(self@, nabla@),
                forall|l: int|
                    0 <= l < count ==> (#[trigger] nabla@[l]).0@ == self@.acc_w(xs, ts, l, k as int)
                        && ints(nabla@[l].1@) == self@.acc_b(xs, ts, l, k as int),
                total as int == self@.acc_cost(xs, ts, k as int),
                0 <= total,
            decreases n - k,
        {
            proof {
                lemma_acc_cost_bounds(self@, xs, ts, k as int);
                lemma_acc_cost_bounds(self@, xs, ts, k + 1);
                assert(xs[k as int] == ints(data@[k as int]@));
                assert(ts[k as int] == ints(label@[k as int]@));
                assert(xs[k as int].len() == self@.input_size);
                assert(ts[k as int].len() == self@.output_size);
            }
            let c = self.back_propagation(&data[k], &label[k], &mut nabla);
            total = crate::fixed::add_fix(total, c);
            k = k + 1;
        }
        (nabla, total)
    }

    /// Scales the accumulated gradients by eta / n and subtracts them
    /// from every layer: the network becomes gd_step of its old self.
    #[verifier::rlimit(100)]
    fn gd_apply(
        &mut self,
        nabla: Vec<(Matrix, Vec<i64>)>,
        eta: i64,
        n: usize,
        Ghost(xs): Ghost<Seq<Seq<int>>>,
        Ghost(ts): Ghost<Seq<Seq<int>>>,
    )
        requires
            old(self).wf(),
            n > 0,
            xs.len() == n as int,
            ts.len() == n as int,
            nabla_wf(old(self)@, nabla@),
            forall|l: int|
                0 <= l < nabla@.len() ==> (#[trigger] nabla@[l]).0@ == old(self)@.acc_w(
                    xs,
                    ts,
                    l,
                    n as int,
                ) && ints(nabla@[l].1@) == old(self)@.acc_b(xs, ts, l, n as int),
        ensures
            final(self).wf(),
            final(self)@ == old(self)@.gd_step(xs, ts, eta as int),
    {
        let ghost m0 = self@;
        let count = self.layers.len();
        let mut nabla = nabla;

        // average the accumulated gradients, scaled by the learning rate
        let mut l: usize = 0;
        while l < count
            invariant
                l <= count,
                self.wf(),
                m0 == self@,
                n > 0,
                count == self@.layers.len(),
                nabla@.len() == count,
                forall|q: int|
                    0 <= q < count ==> (#[trigger] nabla@[q]).0.wf() && nabla@[q].0.spec_cols()
                        == self@.layers[q].in_size && nabla@[q].0@.len() == self@.layers[q].out_size()
                        && nabla@[q].1@.len() == self@.layers[q].out_size(),
                forall|q: int|
                    0 <= q < l ==> (#[trigger] nabla@[q]).0@ == spec_scale_mat(
                        eta as int,
                        n as int,
                        self@.acc_w(xs, ts, q, n as int),
                    ) && ints(nabla@[q].1@) == spec_scale_vec(
                        eta as int,
                        n as int,
                        self@.acc_b(xs, ts, q, n as int),
                    ),
                forall|q: int|
                    l <= q < count ==> (#[trigger] nabla@[q]).0@ == self@.acc_w(xs, ts, q, n as int)
                        && ints(nabla@[q].1@) == self@.acc_b(xs, ts, q, n as int),
            decreases count - l,
        {
            Self::nabla_scale_at(&mut nabla, l, eta, n);
            l = l + 1;
        }

        // update weights and biases, one layer at a time
        let mut l2: usize = 0;
        while l2 < count
            invariant
                l2 <= count,
                count == self.layers@.len(),
                count == m0.layers.len(),
                self@.input_size == m0.input_size,
                self@.output_size == m0.output_size,
                m0 == old(self)@,
                m0.wf(),
                n > 0,
                xs.len() == n as int,
                ts.len() == n as int,
                nabla@.len() == count,
                forall|q: int|
                    0 <= q < count ==> (#[trigger] nabla@[q]).0.wf() && nabla@[q].0.spec_cols()
                        == m0.layers[q].in_size && nabla@[q].0@.len() == m0.layers[q].out_size()
                        && nabla@[q].1@.len() == m0.layers[q].out_size(),
                forall|q: int|
                    0 <= q < count ==> (#[trigger] nabla@[q]).0@ == spec_scale_mat(
                        eta as int,
                        n as int,
                        m0.acc_w(xs, ts, q, n as int),
                    ) && ints(nabla@[q].1@) == spec_scale_vec(
                        eta as int,
                        n as int,
                        m0.acc_b(xs, ts, q, n as int),
                    ),
                forall|q: int|
                    l2 <= q < count ==> #[trigger] self@.layers[q] == m0.layers[q]
                        && self.layers@[q].inv(),
                forall|q: int|
                    0 <= q < l2 ==> #[trigger] self@.layers[q] == m0.gd_layers(xs, ts, eta as int)[q]
                        && self.layers@[q].inv(),
            decreases count - l2,
        {
            proof {
                assert(self@.layers[l2 as int] == m0.layers[l2 as int]);
                assert(m0.layers[l2 as int].wf());
            }
            let pair: &(Matrix, Vec<i64>) = &nabla[l2];
            let dw = &pair.0;
            let db = &pair.1;
            proof {
                assert(dw@ == spec_scale_mat(eta as int, n as int, m0.acc_w(xs, ts, l2 as int, n as int)));
                assert(ints(db@) == spec_scale_vec(eta as int, n as int, m0.acc_b(xs, ts, l2 as int, n as int)));
            }
            self.update_layer_at(l2, dw, db);
            proof {
                let g = m0.gd_layers(xs, ts, eta as int)[l2 as int];
                assert(self@.layers[l2 as int].w == spec_mat_sub(m0.layers[l2 as int].w, dw@));
                assert(g.w == spec_mat_sub(
                    m0.layers[l2 as int].w,
                    spec_scale_mat(eta as int, n as int, m0.acc_w(xs, ts, l2 as int, n as int)),
                ));
                assert(self@.layers[l2 as int].w == g.w);
                assert(self@.layers[l2 as int].b == g.b);
                assert(self@.layers[l2 as int] == g);
            }
            l2 = l2 + 1;
        }
        proof {
            assert(self@.layers =~= m0.gd_layers(xs, ts, eta as int));
            assert(self@ == m0.gd_step(xs, ts, eta as int));
            lemma_gd_step_wf(m0, xs, ts, eta as int);
            assert forall|q: int| 0 <= q < self.layers@.len() implies (#[trigger] self.layers@[q]).inv() by {
                assert(self@.layers[q] == m0.gd_layers(xs, ts, eta as int)[q]);
            }
        }
    }


    /// Mini-batch stochastic gradient descent: shuffles a fresh random
    /// permutation of the example indices, partitions it into
    /// consecutive chunks of mini_batch_size (the final chunk may be
    /// shorter), runs one gradient_descent step per chunk in order,
    /// and returns the cost of the last chunk processed.  A rejected
    /// call leaves the network unchanged.
    #[verifier::rlimit(100)]
    pub fn stochastic_gradient_descent(
        &mut self,
        data: &Vec<Vec<i64>>,
        label: &Vec<Vec<i64>>,
        eta: i64,
        mini_batch_size: usize,
        rng: &mut StdRng,
    ) -> (r: Result<i64, Error>)
        requires
            old(self).wf(),
            mini_batch_size >= 1,
        ensures
            final(self).wf(),
            final(self)@.input_size == old(self)@.input_size,
            final(self)@.output_size == old(self)@.output_size,
            final(self)@.layers.len() == old(self)@.layers.len(),
            match r {
                Ok(cost) => {
                    &&& old(self)@.batch_ok(ints2(data@), ints2(label@))
                    &&& cost >= 0
                    &&& exists|p: Seq<usize>|
                        {
                            &&& #[trigger] is_perm(p, data@.len())
                            &&& final(self)@ == sgd_net(
                                old(self)@,
                                ints2(data@),
                                ints2(label@),
                                p,
                                eta as int,
                                mini_batch_size as nat,
                                chunk_count(data@.len(), mini_batch_size as nat),
                            )
                            &&& cost as int == sgd_chunk_cost(
                                old(self)@,
                                ints2(data@),
                                ints2(label@),
                                p,
                                eta as int,
                                mini_batch_size as nat,
                                chunk_count(data@.len(), mini_batch_size as nat),
                            )
                        }
                },
                Err(e) => {
                    &&& *final(self) == *old(self)
                    &&& !old(self)@.batch_ok(ints2(data@), ints2(label@))
                    &&& (e == Error::EmptyBatch <==> data@.len() == label@.len() && data@.len()
                        == 0)
                },
            },
    {
        match self.check_batch(data, label) {
            Some(e) => {
                return Err(e);
            },
            None => {},
        }
        let ghost xs = ints2(data@);
        let ghost ts = ints2(label@);
        let ghost m0 = self@;
        let n = data.len();
        let b = mini_batch_size;

        // a fresh random order of the example indices
        let mut idx: Vec<usize> = Vec::new();
        let mut t: usize = 0;
        while t < n
            invariant
                t <= n,
                idx@.len() == t,
                forall|q: int| 0 <= q < t ==> (#[trigger] idx@[q]) == q as usize,
            decreases n - t,
        {
            idx.push(t);
            t = t + 1;
        }
        proof {
            assert(idx@ =~= idseq(n as nat));
        }
        crate::rng::shuffle_indices(rng, &mut idx);
        let ghost p = idx@;
        proof {
            assert(is_perm(p, n as nat));
            lemma_perm_bounds(p, n as nat);
        }

        let mut start: usize = 0;
        let mut k: usize = 0;
        let mut last: i64 = 0;
        while start < n
            invariant
                n > 0,
                b >= 1,
                k <= start <= n,
                n == data@.len(),
                n == label@.len(),
                idx@ == p,
                p.len() == n,
                is_perm(p, n as nat),
                forall|i: int| 0 <= i < p.len() ==> ((#[trigger] p[i]) as int) < n,
                xs == ints2(data@),
                ts == ints2(label@),
                xs.len() == n,
                ts.len() == n,
                m0.batch_ok(xs, ts),
                self.wf(),
                self@.input_size == m0.input_size,
                self@.output_size == m0.output_size,
                self@.layers.len() == m0.layers.len(),
                start as int == if (k as int) * (b as int) <= n as int {
                    (k as int) * (b as int)
                } else {
                    n as int
                },
                k >= 1 ==> ((k as int) - 1) * (b as int) < n as int,
                self@ == sgd_net(m0, xs, ts, p, eta as int, b as nat, k as int),
                k >= 1 ==> last as int == sgd_chunk_cost(
                    m0,
                    xs,
                    ts,
                    p,
                    eta as int,
                    b as nat,
                    k as int,
                ) && last >= 0,
            decreases n - start,
        {
            let end = if n - start > b {
                start + b
            } else {
                n
            };
            proof {
                assert(((k as int) + 1) * (b as int) == (k as int) * (b as int) + b as int)
                    by (nonlinear_arith);
                assert(end as int == chunk_end(n as nat, b as nat, k as int));
            }

            // gather the chunk's examples in shuffled order
            let mut bx: Vec<Vec<i64>> = Vec::new();
            let mut bt: Vec<Vec<i64>> = Vec::new();
            let mut j: usize = start;
            while j < end
                invariant
                    start <= j <= end,
                    end <= n,
                    idx@ == p,
                    p.len() == n,
                    forall|i: int| 0 <= i < p.len() ==> ((#[trigger] p[i]) as int) < n,
                    n == data@.len(),
                    n == label@.len(),
                    xs == ints2(data@),
                    ts == ints2(label@),
                    bx@.len() == j - start,
                    bt@.len() == j - start,
                    forall|q: int|
                        0 <= q < j - start ==> ints((#[trigger] bx@[q])@) == xs[p[start + q] as int],
                    forall|q: int|
                        0 <= q < j - start ==> ints((#[trigger] bt@[q])@) == ts[p[start + q] as int],
                decreases end - j,
            {
                let ii = idx[j];
                bx.push(vec_copy(&data[ii]));
                bt.push(vec_copy(&label[ii]));
                proof {
                    assert(xs[p[j as int] as int] == ints(data@[p[j as int] as int]@));
                    assert(ts[p[j as int] as int] == ints(label@[p[j as int] as int]@));
                    assert(ints(bx@[j - start as int]@) == xs[p[j as int] as int]);
                    assert(ints(bt@[j - start as int]@) == ts[p[j as int] as int]);
                }
                j = j + 1;
            }
            proof {
                assert(ints2(bx@) =~= gather(xs, p, start as int, end as int));
                assert(ints2(bt@) =~= gather(ts, p, start as int, end as int));
                assert forall|q: int| 0 <= q < ints2(bx@).len() implies (#[trigger] ints2(
                    bx@,
                )[q]).len() == self@.input_size by {
                    assert(ints2(bx@)[q] == xs[p[start + q] as int]);
                }
                assert forall|q: int| 0 <= q < ints2(bt@).len() implies (#[trigger] ints2(
                    bt@,
                )[q]).len() == self@.output_size by {
                    assert(ints2(bt@)[q] == ts[p[start + q] as int]);
                }
                assert(self@.batch_ok(ints2(bx@), ints2(bt@)));
            }
            let ghost before = self@;
            let c = match self.gradient_descent(&bx, &bt, eta) {
                Ok(c) => c,
                Err(_) => {
                    proof {
                        assert(false);
                    }
                    0
                },
            };
            proof {
                assert(self@ == before.gd_step(
                    gather(xs, p, start as int, end as int),
                    gather(ts, p, start as int, end as int),
                    eta as int,
                ));
                assert(self@ == sgd_net(m0, xs, ts, p, eta as int, b as nat, k as int + 1));
                assert(c as int == sgd_chunk_cost(m0, xs, ts, p, eta as int, b as nat, k as int + 1));
            }
            last = c;
            start = end;
            k = k + 1;
        }
        proof {
            let bi = b as int;
            let ni = n as int;
            let ki = k as int;
            if k == 0 {
                assert(start as int == 0);
                assert(false);
            }
            assert(ki * bi >= ni);
            assert((ki - 1) * bi < ni);
            let rr = ni + bi - 1 - ki * bi;
            assert((ki - 1) * bi == ki * bi - bi) by (nonlinear_arith);
            assert(0 <= rr < bi);
            vstd::arithmetic::div_mod::lemma_fundamental_div_mod_converse(ni + bi - 1, bi, ki, rr);
            assert(chunk_count(n as nat, b as nat) == ki);
            assert(is_perm(p, data@.len()) && self@ == sgd_net(
                m0,
                xs,
                ts,
                p,
                eta as int,
                b as nat,
                chunk_count(data@.len(), b as nat),
            ) && last as int == sgd_chunk_cost(
                m0,
                xs,
                ts,
                p,
                eta as int,
                b as nat,
                chunk_count(data@.len(), b as nat),
            ));
        }
        Ok(last)
    }

    /// One full-batch gradient step: accumulates every example's
    /// gradient, averages it scaled by the learning rate, updates the
    /// weights once, and returns the batch's mean cost, which is never
    /// negative.  A rejected batch leaves the network unchanged.
    #[verifier::rlimit(100)]
    pub fn gradient_descent(&mut self, data: &Vec<Vec<i64>>, label: &Vec<Vec<i64>>, eta: i64) -> (r: Result<i64, Error>)
        requires
            old(self).wf(),
        ensures
            final(self).wf(),
            final(self)@.input_size == old(self)@.input_size,
            final(self)@.output_size == old(self)@.output_size,
            final(self)@.layers.len() == old(self)@.layers.len(),
            match r {
                Ok(cost) => {
                    &&& old(self)@.batch_ok(ints2(data@), ints2(label@))
                    &&& final(self)@ == old(self)@.gd_step(ints2(data@), ints2(label@), eta as int)
                    &&& cost as int == old(self)@.gd_cost(ints2(data@), ints2(label@))
                    &&& cost >= 0
                },
                Err(e) => {
                    &&& *final(self) == *old(self)
                    &&& !old(self)@.batch_ok(ints2(data@), ints2(label@))
                    &&& (e == Error::EmptyBatch <==> data@.len() == label@.len() && data@.len()
                        == 0)
                },
            },
    {
        match self.check_batch(data, label) {
            Some(e) => {
                return Err(e);
            },
            None => {},
        }
        let ghost xs = ints2(data@);
        let ghost ts = ints2(label@);
        let ghost m0 = self@;
        let n = data.len();
        let (nabla, total) = self.accumulate_batch(data, label);
        proof {
            lemma_acc_cost_bounds(m0, xs, ts, n as int);
            assert(xs.len() == n as int);
            assert(ts.len() == n as int);
        }
        self.gd_apply(nabla, eta, n, Ghost(xs), Ghost(ts));
        proof {
            assert(self@ == m0.gd_step(xs, ts, eta as int));
        }
        let cost = crate::fixed::div_cost(total, n);
        proof {
            assert(cost as int == m0.gd_cost(xs, ts));
        }
        Ok(cost)
    }

}


// ---------------------------------------------------------------------------
// Mini-batch order: a shuffled permutation of the example indices,
// partitioned into consecutive chunks.

/// The identity index sequence 0, 1, ..., n-1.
pub open spec fn idseq(n: nat) -> Seq<usize> {
    Seq::new(n, |i: int| i as usize)
}

/// p holds exactly the indices 0 .. n-1, each once, in some order.
pub open spec fn is_perm(p: Seq<usize>, n: nat) -> bool {
    p.to_multiset() == idseq(n).to_multiset()
}

/// A permutation of 0 .. n-1 has length n and every entry below n.
pub proof fn lemma_perm_bounds(p: Seq<usize>, n: nat)
    requires
        is_perm(p, n),
    ensures
        p.len() == n,
        forall|i: int| 0 <= i < p.len() ==> ((#[trigger] p[i]) as int) < n,
{
    broadcast use vstd::seq_lib::group_to_multiset_ensures;

    assert(p.to_multiset().len() == idseq(n).to_multiset().len());
    assert(idseq(n).len() == n);
    assert forall|i: int| 0 <= i < p.len() implies ((#[trigger] p[i]) as int) < n by {
        assert(p.contains(p[i]));
        assert(p.to_multiset().count(p[i]) > 0);
        assert(idseq(n).to_multiset().count(p[i]) > 0);
        assert(idseq(n).contains(p[i]));
        let j = choose|j: int| 0 <= j < idseq(n).len() && idseq(n)[j] == p[i];
        assert(idseq(n)[j] == j as usize);
    }
}

/// Where the k-th chunk (0-based) of an n-element epoch ends: after b
/// more examples, or at the end of the data.
pub open spec fn chunk_end(n: nat, b: nat, k: int) -> int {
    if (k + 1) * (b as int) <= n as int {
        (k + 1) * (b as int)
    } else {
        n as int
    }
}

/// How many chunks an epoch of n examples has with chunk size b.
pub open spec fn chunk_count(n: nat, b: nat) -> int {
    (n as int + b as int - 1) / (b as int)
}

/// The items at the shuffled positions start .. end.
pub open spec fn gather(items: Seq<Seq<int>>, p: Seq<usize>, start: int, end: int) -> Seq<
    Seq<int>,
> {
    Seq::new((end - start) as nat, |j: int| items[p[start + j] as int])
}

/// The k-th chunk of the shuffled index order itself.
pub open spec fn chunk_of(p: Seq<usize>, n: nat, b: nat, k: int) -> Seq<usize> {
    p.subrange(k * (b as int), chunk_end(n, b, k))
}

/// The first k chunks, concatenated.
pub open spec fn chunks_concat(p: Seq<usize>, n: nat, b: nat, k: int) -> Seq<usize>
    decreases k,
{
    if k <= 0 {
        Seq::empty()
    } else {
        chunks_concat(p, n, b, k - 1) + chunk_of(p, n, b, k - 1)
    }
}

proof fn lemma_chunks_concat_prefix(p: Seq<usize>, n: nat, b: nat, k: int)
    requires
        b >= 1,
        p.len() == n,
        0 <= k,
        k * (b as int) <= n as int || (k - 1) * (b as int) < n as int,
    ensures
        k * (b as int) <= n as int ==> chunks_concat(p, n, b, k) == p.subrange(0, k * (b as int)),
        k * (b as int) > n as int ==> chunks_concat(p, n, b, k) == p.subrange(0, n as int),
    decreases k,
{
    let bi = b as int;
    if k <= 0 {
        assert(k == 0);
        assert(k * bi == 0) by (nonlinear_arith)
            requires
                k == 0,
        ;
        assert(chunks_concat(p, n, b, k) =~= p.subrange(0, k * bi));
    } else {
        assert((k - 1) * bi == k * bi - bi) by (nonlinear_arith);
        if k * bi <= n as int {
            lemma_chunks_concat_prefix(p, n, b, k - 1);
            assert(chunk_end(n, b, k - 1) == k * bi);
            assert(chunks_concat(p, n, b, k) =~= p.subrange(0, k * bi));
        } else {
            assert((k - 1) * bi < n as int);
            assert(chunk_end(n, b, k - 1) == n as int);
            lemma_chunks_concat_prefix(p, n, b, k - 1);
            assert(chunks_concat(p, n, b, k) =~= p.subrange(0, n as int));
        }
    }
}

/// Mini-batch partition completeness: with chunk size b, the chunks of
/// a shuffled epoch cover every example index exactly once, every chunk
/// except the last holds b indices, and the last holds n mod b of them
/// (or b, when b divides n).
pub proof fn lemma_minibatch_partition(p: Seq<usize>, n: nat, b: nat)
    requires
        is_perm(p, n),
        b >= 1,
        n > 0,
    ensures
        chunks_concat(p, n, b, chunk_count(n, b)) == p,
        chunks_concat(p, n, b, chunk_count(n, b)).to_multiset() == idseq(n).to_multiset(),
        forall|k: int| 0 <= k < chunk_count(n, b) - 1 ==> chunk_of(p, n, b, k).len() == b,
        chunk_of(p, n, b, chunk_count(n, b) - 1).len() == if n as int % b as int == 0 {
            b as int
        } else {
            n as int % b as int
        },
{
    lemma_perm_bounds(p, n);
    let bi = b as int;
    let ni = n as int;
    let m = chunk_count(n, b);
    vstd::arithmetic::div_mod::lemma_fundamental_div_mod(ni + bi - 1, bi);
    vstd::arithmetic::div_mod::lemma_mod_division_less_than_divisor(ni + bi - 1, bi);
    assert(m * bi == bi * m) by (nonlinear_arith);
    assert(m * bi == ni + bi - 1 - ((ni + bi - 1) % bi));
    assert(m * bi >= ni);
    assert((m - 1) * bi < ni) by (nonlinear_arith)
        requires
            m * bi == ni + bi - 1 - ((ni + bi - 1) % bi),
            0 <= (ni + bi - 1) % bi < bi,
            bi >= 1,
    ;
    if m * bi <= ni {
        lemma_chunks_concat_prefix(p, n, b, m);
        assert(chunks_concat(p, n, b, m) =~= p);
    } else {
        assert(chunk_end(n, b, m - 1) == ni);
        lemma_chunks_concat_prefix(p, n, b, m);
        assert(chunks_concat(p, n, b, m) =~= p);
    }
    assert forall|k: int| 0 <= k < m - 1 implies chunk_of(p, n, b, k).len() == b by {
        assert((k + 1) * bi <= (m - 1) * bi && (k + 1) * bi - k * bi == bi) by (nonlinear_arith)
            requires
                0 <= k < m - 1 && bi >= 1,
        ;
    }
    // the last chunk
    let last = chunk_of(p, n, b, m - 1);
    assert((m - 1) * bi < ni && m * bi >= ni);
    assert(last.len() == ni - (m - 1) * bi);
    let r = ni - (m - 1) * bi;
    assert((m - 1) * bi == m * bi - bi) by (nonlinear_arith);
    assert(0 < r <= bi);
    if r == bi {
        assert(ni == m * bi) by (nonlinear_arith)
            requires
                r == ni - (m - 1) * bi && r == bi,
        ;
        vstd::arithmetic::div_mod::lemma_mod_multiples_basic(m, bi);
        assert(ni % bi == 0);
    } else {
        assert(ni == (m - 1) * bi + r);
        vstd::arithmetic::div_mod::lemma_fundamental_div_mod_converse_mod(ni, bi, m - 1, r);
        assert(ni % bi == r);
    }
}

/// The network after the first k mini-batches of one epoch taken in
/// the shuffled order p.
pub open spec fn sgd_net(
    net: NetModel,
    xs: Seq<Seq<int>>,
    ts: Seq<Seq<int>>,
    p: Seq<usize>,
    eta: int,
    b: nat,
    k: int,
) -> NetModel
    decreases k,
{
    if k <= 0 {
        net
    } else {
        let prev = sgd_net(net, xs, ts, p, eta, b, k - 1);
        let start = (k - 1) * (b as int);
        let end = chunk_end(xs.len(), b, k - 1);
        prev.gd_step(gather(xs, p, start, end), gather(ts, p, start, end), eta)
    }
}

/// The cost the k-th mini-batch reports.
pub open spec fn sgd_chunk_cost(
    net: NetModel,
    xs: Seq<Seq<int>>,
    ts: Seq<Seq<int>>,
    p: Seq<usize>,
    eta: int,
    b: nat,
    k: int,
) -> int {
    let prev = sgd_net(net, xs, ts, p, eta, b, k - 1);
    let start = (k - 1) * (b as int);
    let end = chunk_end(xs.len(), b, k - 1);
    prev.gd_cost(gather(xs, p, start, end), gather(ts, p, start, end))
}

/// Assembles a network layer by layer: `input` fixes the input width,
/// each `dense` appends a randomly initialised fully connected layer
/// whose fan-in is the previous stage's width, and `done` freezes the
/// result.
pub struct NetworkBuilder {
    input_size: Option<usize>,
    next_size: Option<usize>,
    layers: Vec<DenseLayer>,
}

impl Default for NetworkBuilder {
    /// An empty builder: no input width fixed, no layers.
    fn default() -> (r: Self)
        ensures
            r.wf(),
            r.model_layers() == Seq::<LayerModel>::empty(),
            r.spec_input_size() is None,
            r.spec_next_size() is None,
    {
        let r = NetworkBuilder { input_size: None, next_size: None, layers: Vec::new() };
        proof {
            assert(r.model_layers() =~= Seq::<LayerModel>::empty());
        }
        r
    }
}

impl NetworkBuilder {
    /// The models of the layers added so far.
    pub closed spec fn model_layers(&self) -> Seq<LayerModel> {
        Seq::new(self.layers@.len(), |i: int| self.layers@[i]@)
    }

    pub closed spec fn spec_input_size(&self) -> Option<usize> {
        self.input_size
    }

    pub closed spec fn spec_next_size(&self) -> Option<usize> {
        self.next_size
    }

    /// The layers added so far chain correctly from the declared
    /// input width to the tracked fan-in.
    pub closed spec fn wf(&self) -> bool {
        &&& forall|l: int|
            0 <= l < self.layers@.len() ==> (#[trigger] self.layers@[l])@.wf()
                && self.layers@[l].inv()
        &&& forall|l: int|
            0 <= l < self.layers@.len() - 1 ==> (#[trigger] self.layers@[l])@.out_size()
                == self.layers@[l + 1]@.in_size
        &&& self.input_size is None ==> self.next_size is None && self.layers@.len() == 0
        &&& self.input_size is Some ==> self.next_size is Some
        &&& self.layers@.len() > 0 ==> self.input_size is Some
            && self.layers@[0]@.in_size == self.input_size->0
        &&& self.layers@.len() > 0 ==> self.layers@[self.layers@.len() - 1]@.out_size()
            == self.next_size->0
        &&& (self.layers@.len() == 0 && self.input_size is Some) ==> self.next_size
            == self.input_size
    }

    /// Fixes the input width and resets the fan-in tracker.
    pub fn input(self, size: usize) -> (r: Self)
        requires
            self.model_layers().len() == 0,
        ensures
            r.wf(),
            r.model_layers() == self.model_layers(),
            r.spec_input_size() == Some(size),
            r.spec_next_size() == Some(size),
    {
        let mut s = self;
        s.input_size = Some(size);
        s.next_size = Some(size);
        s
    }

    /// Appends a dense layer of the given output width, with weights
    /// and biases drawn uniformly from [-1, 1]; does nothing if no
    /// input width was fixed.
    #[verifier::rlimit(100)]
    pub fn dense(self, output: usize, activation: Activation, rng: &mut StdRng) -> (r: Self)
        requires
            self.wf(),
        ensures
            r.wf(),
            r.spec_input_size() == self.spec_input_size(),
            match self.spec_next_size() {
                Some(fan_in) => {
                    &&& fan_in * output <= usize::MAX ==> {
                        &&& r.model_layers().len() == self.model_layers().len() + 1
                        &&& forall|l: int|
                            0 <= l < self.model_layers().len() ==> #[trigger] r.model_layers()[l]
                                == self.model_layers()[l]
                        &&& r.model_layers().last().in_size == fan_in
                        &&& r.model_layers().last().out_size() == output
                        &&& r.model_layers().last().act == activation
                        &&& r.spec_next_size() == Some(output)
                    }
                    &&& !(fan_in * output <= usize::MAX) ==> r == self
                },
                None => r == self,
            },
    {
        let mut s = self;
        match s.next_size {
            Some(fan_in) => {
                if let Some(total) = fan_in.checked_mul(output) {
                    let _ = total;
                    let layer = DenseLayer::random(fan_in, output, activation, rng);
                    let ghost before = s.model_layers();
                    s.layers.push(layer);
                    s.next_size = Some(output);
                    proof {
                        assert forall|l: int| 0 <= l < before.len() implies #[trigger] s
                            .model_layers()[l] == before[l] by {}
                    }
                }
            },
            None => {},
        }
        s
    }

    /// Freezes the layer list into a network.  A builder with no
    /// layers yields a degenerate identity network.
    pub fn done(self) -> (r: Network)
        requires
            self.wf(),
        ensures
            r.wf(),
            r@.layers == self.model_layers(),
            r@.input_size == match self.spec_input_size() {
                Some(s) => s as nat,
                None => 0,
            },
            r@.output_size == match self.spec_next_size() {
                Some(s) => s as nat,
                None => 0,
            },
    {
        let input_size = match self.input_size {
            Some(s) => s,
            None => 0,
        };
        let output_size = match self.next_size {
            Some(s) => s,
            None => 0,
        };
        let r = Network { input_size, output_size, layers: self.layers };
        proof {
            assert(r@.layers =~= self.model_layers());
        }
        r
    }
}

} // verus!
