//! A two-layer feed-forward network built on the tensor operations: one
//! hidden layer with an activation, then an output layer, each a matrix
//! multiplication followed by a bias addition.

use vstd::prelude::*;
use crate::TensorError;
use crate::tensor::{
    Tensor, TensorView, shape_product, map_rel, zip_rel, matmul_rel, deterministic1,
    deterministic2, lemma_map_deterministic, lemma_zip_deterministic, lemma_matmul_deterministic,
};

verus! {

/// Whether a tensor value is a matrix with `r` rows and `c` columns.
pub open spec fn dims_are<T>(t: TensorView<T>, r: usize, c: usize) -> bool {
    &&& t.dims.len() == 2
    &&& t.dims[0] == r
    &&& t.dims[1] == c
}

/// A two-layer feed-forward network: a weight matrix from the input to the
/// hidden layer, a weight matrix from the hidden to the output layer, and a
/// bias row for each of the two layers.
#[derive(Debug)]
pub struct NeuralNetwork<T> {
    input_size: usize,
    hidden_size: usize,
    output_size: usize,
    weights_ih: Tensor<T>,
    weights_ho: Tensor<T>,
    bias_h: Tensor<T>,
    bias_o: Tensor<T>,
}

/// The mathematical value of a network: its three layer sizes and the values
/// of its four parameter tensors.
pub struct NetworkView<T> {
    pub input_size: usize,
    pub hidden_size: usize,
    pub output_size: usize,
    pub weights_ih: TensorView<T>,
    pub weights_ho: TensorView<T>,
    pub bias_h: TensorView<T>,
    pub bias_o: TensorView<T>,
}

impl<T> View for NeuralNetwork<T> {
    type V = NetworkView<T>;

    closed spec fn view(&self) -> NetworkView<T> {
        (NetworkView {
            input_size: self.input_size,
            hidden_size: self.hidden_size,
            output_size: self.output_size,
            weights_ih: self.weights_ih@,
            weights_ho: self.weights_ho@,
            bias_h: self.bias_h@,
            bias_o: self.bias_o@,
        })
    }
}

/// Whether `out` is a possible result of a forward pass: the input times the
/// input-to-hidden weights, plus the hidden bias, through the activation,
/// times the hidden-to-output weights, plus the output bias — each step
/// stated over the contracts of the supplied arithmetic.
pub open spec fn forward_rel<T, FA: Fn(T, T) -> T, FM: Fn(T, T) -> T, FS: Fn(T) -> T>(
    net: NetworkView<T>,
    input: TensorView<T>,
    zero: T,
    addf: FA,
    mulf: FM,
    act: FS,
    out: Seq<T>,
) -> bool {
    exists|h: Seq<T>, hb: Seq<T>, ha: Seq<T>, ob: Seq<T>|
        {
            &&& #[trigger] matmul_rel(
                addf,
                mulf,
                zero,
                input.elems,
                net.weights_ih.elems,
                1,
                net.input_size as nat,
                net.hidden_size as nat,
                h,
            )
            &&& #[trigger] zip_rel(addf, h, net.bias_h.elems, hb)
            &&& #[trigger] map_rel(act, hb, ha)
            &&& matmul_rel(
                addf,
                mulf,
                zero,
                ha,
                net.weights_ho.elems,
                1,
                net.hidden_size as nat,
                net.output_size as nat,
                ob,
            )
            &&& #[trigger] zip_rel(addf, ob, net.bias_o.elems, out)
        }
}

impl<T> NeuralNetwork<T> {
    /// A network is well formed when its layer sizes are positive and its
    /// four parameter tensors are well formed with the matching shapes.
    pub open spec fn wf(&self) -> bool {
        &&& self@.input_size >= 1
        &&& self@.hidden_size >= 1
        &&& self@.output_size >= 1
        &&& dims_are(self@.weights_ih, self@.input_size, self@.hidden_size)
        &&& dims_are(self@.weights_ho, self@.hidden_size, self@.output_size)
        &&& dims_are(self@.bias_h, 1, self@.hidden_size)
        &&& dims_are(self@.bias_o, 1, self@.output_size)
        &&& self@.weights_ih.elems.len() == shape_product(self@.weights_ih.dims)
        &&& self@.weights_ho.elems.len() == shape_product(self@.weights_ho.dims)
        &&& self@.bias_h.elems.len() == shape_product(self@.bias_h.dims)
        &&& self@.bias_o.elems.len() == shape_product(self@.bias_o.dims)
    }

    /// Builds a network from its layer sizes and its four parameter tensors.
    /// The sizes must be positive and the tensors must carry exactly the
    /// shapes the sizes prescribe.
    pub fn new(
        input_size: usize,
        hidden_size: usize,
        output_size: usize,
        weights_ih: Tensor<T>,
        weights_ho: Tensor<T>,
        bias_h: Tensor<T>,
        bias_o: Tensor<T>,
    ) -> (r: Result<NeuralNetwork<T>, TensorError>)
        requires
            weights_ih.wf(),
            weights_ho.wf(),
            bias_h.wf(),
            bias_o.wf(),
        ensures
            match r {
                Ok(nn) => {
                    &&& input_size >= 1 && hidden_size >= 1 && output_size >= 1
                    &&& dims_are(weights_ih@, input_size, hidden_size)
                    &&& dims_are(weights_ho@, hidden_size, output_size)
                    &&& dims_are(bias_h@, 1, hidden_size)
                    &&& dims_are(bias_o@, 1, output_size)
                    &&& nn.wf()
                    &&& nn@.input_size == input_size
                    &&& nn@.hidden_size == hidden_size
                    &&& nn@.output_size == output_size
                    &&& nn@.weights_ih == weights_ih@
                    &&& nn@.weights_ho == weights_ho@
                    &&& nn@.bias_h == bias_h@
                    &&& nn@.bias_o == bias_o@
                },
                Err(e) => {
                    &&& if input_size == 0 || hidden_size == 0 || output_size == 0 {
                        e == TensorError::InvalidDimension
                    } else {
                        &&& e == TensorError::ShapeMismatch
                        &&& !(dims_are(weights_ih@, input_size, hidden_size) && dims_are(
                            weights_ho@,
                            hidden_size,
                            output_size,
                        ) && dims_are(bias_h@, 1, hidden_size) && dims_are(
                            bias_o@,
                            1,
                            output_size,
                        ))
                    }
                },
            },
    {
        if input_size == 0 || hidden_size == 0 || output_size == 0 {
            return Err(TensorError::InvalidDimension);
        }
        let s_ih = weights_ih.shape();
        if !(s_ih.len() == 2 && s_ih[0] == input_size && s_ih[1] == hidden_size) {
            return Err(TensorError::ShapeMismatch);
        }
        let s_ho = weights_ho.shape();
        if !(s_ho.len() == 2 && s_ho[0] == hidden_size && s_ho[1] == output_size) {
            return Err(TensorError::ShapeMismatch);
        }
        let s_bh = bias_h.shape();
        if !(s_bh.len() == 2 && s_bh[0] == 1 && s_bh[1] == hidden_size) {
            return Err(TensorError::ShapeMismatch);
        }
        let s_bo = bias_o.shape();
        if !(s_bo.len() == 2 && s_bo[0] == 1 && s_bo[1] == output_size) {
            return Err(TensorError::ShapeMismatch);
        }
        Ok(
            NeuralNetwork {
                input_size,
                hidden_size,
                output_size,
                weights_ih,
                weights_ho,
                bias_h,
                bias_o,
            },
        )
    }

    /// The input dimensionality.
    pub fn input_size(&self) -> (n: usize)
        ensures
            n == self@.input_size,
    {
        self.input_size
    }

    /// The hidden-layer dimensionality.
    pub fn hidden_size(&self) -> (n: usize)
        ensures
            n == self@.hidden_size,
    {
        self.hidden_size
    }

    /// The output dimensionality.
    pub fn output_size(&self) -> (n: usize)
        ensures
            n == self@.output_size,
    {
        self.output_size
    }
}

impl<T: Copy> NeuralNetwork<T> {
    /// A single forward pass on a one-row input: multiply by the
    /// input-to-hidden weights, add the hidden bias, apply the activation,
    /// multiply by the hidden-to-output weights, add the output bias.
    pub fn forward<FA: Fn(T, T) -> T + Copy, FM: Fn(T, T) -> T + Copy, FS: Fn(T) -> T + Copy>(
        &self,
        input: &Tensor<T>,
        zero: T,
        addf: FA,
        mulf: FM,
        act: FS,
    ) -> (r: Result<Tensor<T>, TensorError>)
        requires
            self.wf(),
            input.wf(),
            forall|x: T, y: T| call_requires(addf, (x, y)),
            forall|x: T, y: T| call_requires(mulf, (x, y)),
            forall|x: T| call_requires(act, (x,)),
        ensures
            match r {
                Ok(t) => {
                    &&& dims_are(input@, 1, self@.input_size)
                    &&& t.wf()
                    &&& dims_are(t@, 1, self@.output_size)
                    &&& forward_rel(self@, input@, zero, addf, mulf, act, t@.elems)
                },
                Err(e) => {
                    &&& e == TensorError::DimensionError
                    &&& !dims_are(input@, 1, self@.input_size)
                },
            },
    {
        let s_in = input.shape();
        if !(s_in.len() == 2 && s_in[0] == 1 && s_in[1] == self.input_size) {
            return Err(TensorError::DimensionError);
        }
        let hidden = match input.matmul(&self.weights_ih, zero, addf, mulf) {
            Ok(t) => t,
            Err(e) => {
                proof {
                    assert(false);
                }
                return Err(e);
            },
        };
        proof {
            assert(hidden@.dims =~= self@.bias_h.dims);
        }
        let hidden_biased = match hidden.zip_with(&self.bias_h, addf) {
            Ok(t) => t,
            Err(e) => {
                proof {
                    assert(false);
                }
                return Err(e);
            },
        };
        let hidden_activated = hidden_biased.apply(act);
        let output = match hidden_activated.matmul(&self.weights_ho, zero, addf, mulf) {
            Ok(t) => t,
            Err(e) => {
                proof {
                    assert(false);
                }
                return Err(e);
            },
        };
        proof {
            assert(output@.dims =~= self@.bias_o.dims);
        }
        let result = match output.zip_with(&self.bias_o, addf) {
            Ok(t) => t,
            Err(e) => {
                proof {
                    assert(false);
                }
                return Err(e);
            },
        };
        proof {
            assert(forward_rel(self@, input@, zero, addf, mulf, act, result@.elems)) by {
                assert(matmul_rel(
                    addf,
                    mulf,
                    zero,
                    input@.elems,
                    self@.weights_ih.elems,
                    1,
                    self@.input_size as nat,
                    self@.hidden_size as nat,
                    hidden@.elems,
                ));
                assert(zip_rel(addf, hidden@.elems, self@.bias_h.elems, hidden_biased@.elems));
                assert(map_rel(act, hidden_biased@.elems, hidden_activated@.elems));
                assert(matmul_rel(
                    addf,
                    mulf,
                    zero,
                    hidden_activated@.elems,
                    self@.weights_ho.elems,
                    1,
                    self@.hidden_size as nat,
                    self@.output_size as nat,
                    output@.elems,
                ));
                assert(zip_rel(addf, output@.elems, self@.bias_o.elems, result@.elems));
            }
        }
        Ok(result)
    }
}

/// Law: the forward pass is unique when the supplied arithmetic and
/// activation are deterministic — the relation admits exactly one output
/// buffer for a given network, input, and arithmetic.
pub proof fn lemma_forward_deterministic<T, FA: Fn(T, T) -> T, FM: Fn(T, T) -> T, FS: Fn(T) -> T>(
    net: NetworkView<T>,
    input: TensorView<T>,
    zero: T,
    addf: FA,
    mulf: FM,
    act: FS,
    out1: Seq<T>,
    out2: Seq<T>,
)
    requires
        forward_rel(net, input, zero, addf, mulf, act, out1),
        forward_rel(net, input, zero, addf, mulf, act, out2),
        deterministic2(addf),
        deterministic2(mulf),
        deterministic1(act),
    ensures
        out1 == out2,
{
    let (h1, hb1, ha1, ob1) = choose|h: Seq<T>, hb: Seq<T>, ha: Seq<T>, ob: Seq<T>|
        {
            &&& #[trigger] matmul_rel(
                addf,
                mulf,
                zero,
                input.elems,
                net.weights_ih.elems,
                1,
                net.input_size as nat,
                net.hidden_size as nat,
                h,
            )
            &&& #[trigger] zip_rel(addf, h, net.bias_h.elems, hb)
            &&& #[trigger] map_rel(act, hb, ha)
            &&& matmul_rel(
                addf,
                mulf,
                zero,
                ha,
                net.weights_ho.elems,
                1,
                net.hidden_size as nat,
                net.output_size as nat,
                ob,
            )
            &&& #[trigger] zip_rel(addf, ob, net.bias_o.elems, out1)
        };
    let (h2, hb2, ha2, ob2) = choose|h: Seq<T>, hb: Seq<T>, ha: Seq<T>, ob: Seq<T>|
        {
            &&& #[trigger] matmul_rel(
                addf,
                mulf,
                zero,
                input.elems,
                net.weights_ih.elems,
                1,
                net.input_size as nat,
                net.hidden_size as nat,
                h,
            )
            &&& #[trigger] zip_rel(addf, h, net.bias_h.elems, hb)
            &&& #[trigger] map_rel(act, hb, ha)
            &&& matmul_rel(
                addf,
                mulf,
                zero,
                ha,
                net.weights_ho.elems,
                1,
                net.hidden_size as nat,
                net.output_size as nat,
                ob,
            )
            &&& #[trigger] zip_rel(addf, ob, net.bias_o.elems, out2)
        };
    lemma_matmul_deterministic(
        addf,
        mulf,
        zero,
        input.elems,
        net.weights_ih.elems,
        1,
        net.input_size as nat,
        net.hidden_size as nat,
        h1,
        h2,
    );
    lemma_zip_deterministic(addf, h1, net.bias_h.elems, hb1, hb2);
    lemma_map_deterministic(act, hb1, ha1, ha2);
    lemma_matmul_deterministic(
        addf,
        mulf,
        zero,
        ha1,
        net.weights_ho.elems,
        1,
        net.hidden_size as nat,
        net.output_size as nat,
        ob1,
        ob2,
    );
    lemma_zip_deterministic(addf, ob1, net.bias_o.elems, out1, out2);
}

} // verus!
