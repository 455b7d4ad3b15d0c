//! One fully connected layer: a weight matrix, a bias vector and an
//! activation, with forward evaluation and in-place weight updates.

use vstd::prelude::*;

use crate::activation::{spec_apply, spec_apply_prime, Activation};
use crate::fixed::SCALE;
use crate::linalg::{
    ints, spec_mat_sub, spec_matvec, spec_zip_add, spec_zip_sub, vec_add, vec_zeros, zero_mat,
    zero_vec, Matrix,
};
use crate::rng::rng_unit;
use rand::rngs::StdRng;

verus! {

/// An activation applied elementwise.
pub open spec fn spec_map_act(act: Activation, z: Seq<int>) -> Seq<int> {
    Seq::new(z.len(), |i: int| spec_apply(act, z[i]))
}

/// An activation's derivative applied elementwise.
pub open spec fn spec_map_act_prime(act: Activation, z: Seq<int>) -> Seq<int> {
    Seq::new(z.len(), |i: int| spec_apply_prime(act, z[i]))
}

/// The mathematical content of a dense layer.
pub ghost struct LayerModel {
    pub w: Seq<Seq<int>>,
    pub b: Seq<int>,
    pub in_size: nat,
    pub act: Activation,
}

impl LayerModel {
    pub open spec fn out_size(self) -> nat {
        self.w.len()
    }

    /// The weight matrix is out_size x in_size and the bias has one
    /// entry per output.
    pub open spec fn wf(self) -> bool {
        &&& self.b.len() == self.w.len()
        &&& forall|i: int| 0 <= i < self.w.len() ==> (#[trigger] self.w[i]).len() == self.in_size
    }

    /// The pre-activation vector z = W x + b.
    pub open spec fn z_of(self, x: Seq<int>) -> Seq<int> {
        spec_zip_add(spec_matvec(self.w, x), self.b)
    }

    /// The post-activation vector a = act(z).
    pub open spec fn a_of(self, x: Seq<int>) -> Seq<int> {
        spec_map_act(self.act, self.z_of(x))
    }
}

/// Generic Dense Layer (Fully Connected Layer)
pub struct DenseLayer {
    /// [output, input]
    weights: Matrix,
    /// [output]
    biases: Vec<i64>,
    /// activation function
    activation_function: Activation,
}

impl View for DenseLayer {
    type V = LayerModel;

    closed spec fn view(&self) -> LayerModel {
        LayerModel {
            w: self.weights@,
            b: ints(self.biases@),
            in_size: self.weights.spec_cols(),
            act: self.activation_function,
        }
    }
}

impl DenseLayer {
    pub open spec fn wf(&self) -> bool {
        self@.wf()
    }

    /// Shape and storage agree; used only inside the crate.
    pub closed spec fn inv(&self) -> bool {
        self.weights.wf()
    }

    /// A layer with all weights and biases zero.
    pub fn new(input: usize, output: usize, activation_function: Activation) -> (r: Self)
        requires
            input * output <= usize::MAX,
        ensures
            r.wf(),
            r.inv(),
            r@.in_size == input,
            r@.out_size() == output,
            r@.act == activation_function,
            r@.w == zero_mat(output as nat, input as nat),
            r@.b == zero_vec(output as nat),
    {
        proof {
            assert(output * input == input * output) by (nonlinear_arith);
        }
        let weights = Matrix::zeros(output, input);
        let biases = vec_zeros(output);
        let r = DenseLayer { weights, biases, activation_function };
        proof {
            r.weights.lemma_shape();
        }
        r
    }

    /// A layer with weights and biases drawn uniformly from [-1, 1]
    /// (in fixed point, [-SCALE, SCALE]).
    pub fn random(input: usize, output: usize, activation_function: Activation, rng: &mut StdRng) -> (r: Self)
        requires
            input * output <= usize::MAX,
        ensures
            r.wf(),
            r.inv(),
            r@.in_size == input,
            r@.out_size() == output,
            r@.act == activation_function,
            forall|i: int, j: int|
                0 <= i < output && 0 <= j < input ==> -(SCALE as int) <= #[trigger] r@.w[i][j]
                    <= SCALE as int,
            forall|i: int|
                0 <= i < output ==> -(SCALE as int) <= #[trigger] r@.b[i] <= SCALE as int,
    {
        proof {
            assert(output * input == input * output) by (nonlinear_arith);
        }
        let total: usize = output * input;
        let mut data: Vec<i64> = Vec::new();
        let mut t: usize = 0;
        while t < total
            invariant
                t <= total,
                data@.len() == t,
                forall|q: int|
                    0 <= q < t ==> -(SCALE as int) <= #[trigger] data@[q] as int <= SCALE as int,
            decreases total - t,
        {
            let v = rng_unit(rng);
            data.push(v);
            t = t + 1;
        }
        let ghost dv = data@;
        let weights = Matrix::from_vec(output, input, data);
        proof {
            assert forall|i: int, j: int| 0 <= i < output && 0 <= j < input implies -(SCALE as int)
                <= #[trigger] weights@[i][j] <= SCALE as int by {
                assert(0 <= i * input + j && i * input + j < output * input) by (nonlinear_arith)
                    requires
                        0 <= i < output as int,
                        0 <= j < input as int,
                ;
            }
        }
        let mut biases: Vec<i64> = Vec::new();
        let mut t2: usize = 0;
        while t2 < output
            invariant
                t2 <= output,
                biases@.len() == t2,
                forall|q: int|
                    0 <= q < t2 ==> -(SCALE as int) <= #[trigger] biases@[q] as int <= SCALE as int,
            decreases output - t2,
        {
            let v = rng_unit(rng);
            biases.push(v);
            t2 = t2 + 1;
        }
        let r = DenseLayer { weights, biases, activation_function };
        proof {
            r.weights.lemma_shape();
        }
        r
    }

    /// Feeds input to the layer and returns the output.
    ///
    /// Outputs `(z, a)`: the output before and after activation.
    pub fn feed_forward(&self, input: &Vec<i64>) -> (r: (Vec<i64>, Vec<i64>))
        requires
            self.wf(),
            self.inv(),
            input@.len() == self@.in_size,
        ensures
            ints(r.0@) == self@.z_of(ints(input@)),
            ints(r.1@) == self@.a_of(ints(input@)),
            r.0@.len() == self@.out_size(),
            r.1@.len() == self@.out_size(),
    {
        let wx = self.weights.mat_vec(input);
        let z = vec_add(&wx, &self.biases);
        let a = map_apply(self.activation_function, &z);
        proof {
            assert(ints(a@) =~= self@.a_of(ints(input@)));
        }
        (z, a)
    }

    /// The activation's derivative, applied elementwise to a cached
    /// pre-activation vector.
    pub fn activation_prime(&self, input: &Vec<i64>) -> (r: Vec<i64>)
        ensures
            ints(r@) == spec_map_act_prime(self@.act, ints(input@)),
            r@.len() == input@.len(),
    {
        map_apply_prime(self.activation_function, input)
    }

    /// Read-only view of the weight matrix.
    pub fn weights(&self) -> (r: &Matrix)
        ensures
            r@ == self@.w,
            r.wf() <==> self.inv(),
            r.spec_cols() == self@.in_size,
            r.spec_rows() == self@.out_size(),
    {
        &self.weights
    }

    /// Read-only view of the bias vector.
    pub fn biases(&self) -> (r: &Vec<i64>)
        ensures
            ints(r@) == self@.b,
    {
        &self.biases
    }

    /// Subtracts an already-scaled gradient from the weights and
    /// biases, in place.
    pub fn update_weights_and_biases(&mut self, dw: &Matrix, db: &Vec<i64>)
        requires
            old(self).wf(),
            old(self).inv(),
            dw.wf(),
            dw@.len() == old(self)@.out_size(),
            dw.spec_cols() == old(self)@.in_size,
            db@.len() == old(self)@.out_size(),
        ensures
            final(self).wf(),
            final(self).inv(),
            final(self)@.in_size == old(self)@.in_size,
            final(self)@.act == old(self)@.act,
            final(self)@.w == spec_mat_sub(old(self)@.w, dw@),
            final(self)@.b == spec_zip_sub(old(self)@.b, ints(db@)),
    {
        let ghost w0 = self@.w;
        let ghost b0 = self@.b;
        self.weights.sub_assign(dw);
        let nb = crate::linalg::vec_sub(&self.biases, db);
        self.biases = nb;
        proof {
            self.weights.lemma_shape();
            assert(self@.b =~= spec_zip_sub(b0, ints(db@)));
        }
    }
}

/// Applies an activation to every entry of a vector.
fn map_apply(act: Activation, z: &Vec<i64>) -> (r: Vec<i64>)
    ensures
        ints(r@) == spec_map_act(act, ints(z@)),
        r@.len() == z@.len(),
{
    let n = z.len();
    let mut r: Vec<i64> = Vec::new();
    let mut t: usize = 0;
    while t < n
        invariant
            t <= n,
            z@.len() == n,
            r@.len() == t,
            forall|q: int| 0 <= q < t ==> r@[q] as int == spec_apply(act, z@[q] as int),
        decreases n - t,
    {
        r.push(act.apply(z[t]));
        t = t + 1;
    }
    proof {
        assert(ints(r@) =~= spec_map_act(act, ints(z@)));
    }
    r
}

/// Applies an activation's derivative to every entry of a vector.
fn map_apply_prime(act: Activation, z: &Vec<i64>) -> (r: Vec<i64>)
    ensures
        ints(r@) == spec_map_act_prime(act, ints(z@)),
        r@.len() == z@.len(),
{
    let n = z.len();
    let mut r: Vec<i64> = Vec::new();
    let mut t: usize = 0;
    while t < n
        invariant
            t <= n,
            z@.len() == n,
            r@.len() == t,
            forall|q: int| 0 <= q < t ==> r@[q] as int == spec_apply_prime(act, z@[q] as int),
        decreases n - t,
    {
        r.push(act.apply_prime(z[t]));
        t = t + 1;
    }
    proof {
        assert(ints(r@) =~= spec_map_act_prime(act, ints(z@)));
    }
    r
}

} // verus!
