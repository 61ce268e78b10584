//! A fully connected layer: `output = input · weights + biases`, with the
//! gradients of a backward pass kept for the optimiser. The element
//! arithmetic comes from the caller: `multiply_add(accumulator, a, b)` for
//! the products and `plus` for the sums.
use vstd::prelude::*;

use crate::func::{is_function2, is_function3};
use crate::tensor::{
    Tensor, column_fold, dot_fold, lemma_matrix_product, transpose_values,
};

verus! {

/// A dense layer with its parameters, their gradients and, after a forward
/// pass, the input it saw.
#[derive(Clone, Debug)]
pub struct Dense<T> {
    weights: Tensor<T>,
    biases: Tensor<T>,
    weight_gradients: Tensor<T>,
    bias_gradients: Tensor<T>,
    input_cache: Option<Tensor<T>>,
}

/// Whether two dimension lists are equal.
fn same_dims(first: &[usize], second: &[usize]) -> (same: bool)
    ensures
        same == (first@ == second@),
{
    if first.len() != second.len() {
        return false;
    }
    let mut index: usize = 0;
    while index < first.len()
        invariant
            first@.len() == second@.len(),
            index <= first@.len(),
            forall|d: int| 0 <= d < index ==> #[trigger] first@[d] == second@[d],
        decreases first.len() - index,
    {
        if first[index] != second[index] {
            return false;
        }
        index = index + 1;
    }
    assert(first@ =~= second@);
    true
}

impl<T> Dense<T> {
    /// The `inputs` by `outputs` weight matrix.
    pub closed spec fn weight_tensor(&self) -> Tensor<T> {
        self.weights
    }

    /// The bias vector, one per output.
    pub closed spec fn bias_tensor(&self) -> Tensor<T> {
        self.biases
    }

    /// The gradient of the weights from the last backward pass.
    pub closed spec fn weight_gradient_tensor(&self) -> Tensor<T> {
        self.weight_gradients
    }

    /// The gradient of the biases from the last backward pass.
    pub closed spec fn bias_gradient_tensor(&self) -> Tensor<T> {
        self.bias_gradients
    }

    /// The input of the last forward pass, if any.
    pub closed spec fn cached_input(&self) -> Option<Tensor<T>> {
        self.input_cache
    }

    /// The number of inputs.
    pub open spec fn input_count(&self) -> usize {
        self.weight_tensor().dims()[0]
    }

    /// The number of outputs.
    pub open spec fn output_count(&self) -> usize {
        self.weight_tensor().dims()[1]
    }

    /// A weight matrix, a bias per output, gradients shaped like the
    /// parameters, and a cached input (if any) with one column per input.
    pub open spec fn wf(&self) -> bool {
        &&& self.weight_tensor().wf()
        &&& self.bias_tensor().wf()
        &&& self.weight_gradient_tensor().wf()
        &&& self.bias_gradient_tensor().wf()
        &&& self.weight_tensor().dims().len() == 2
        &&& self.bias_tensor().dims() == seq![self.output_count()]
        &&& self.weight_gradient_tensor().dims() == self.weight_tensor().dims()
        &&& self.bias_gradient_tensor().dims() == self.bias_tensor().dims()
        &&& match self.cached_input() {
            Some(input) => {
                &&& input.wf()
                &&& input.dims().len() == 2
                &&& input.dims()[1] == self.input_count()
            },
            None => true,
        }
    }
}

impl<T: Copy> Dense<T> {
    /// A layer with these parameters, zero gradients and no cached input.
    pub fn from_parameters(weights: Tensor<T>, biases: Tensor<T>, zero: T) -> (layer: Dense<T>)
        requires
            weights.wf(),
            biases.wf(),
            weights.dims().len() == 2,
            biases.dims().len() == 1,
            weights.dims()[1] == biases.dims()[0],
        ensures
            layer.wf(),
            layer.weight_tensor() == weights,
            layer.bias_tensor() == biases,
            layer.weight_gradient_tensor()@ == Seq::new(weights@.len(), |i: int| zero),
            layer.bias_gradient_tensor()@ == Seq::new(biases@.len(), |i: int| zero),
            layer.cached_input() is None,
    {
        let weight_gradients = Tensor::filled(weights.shape(), zero);
        let bias_gradients = Tensor::filled(biases.shape(), zero);
        proof {
            assert(biases.dims() =~= seq![weights.dims()[1]]);
        }
        Dense { weights, biases, weight_gradients, bias_gradients, input_cache: None }
    }

    /// Computes the layer's output for a batch, one example per row: each
    /// output cell is `plus` of the product fold and the output's bias.
    pub fn forward_inference<F: Fn(T, T, T) -> T + Copy, G: Fn(T, T) -> T + Copy>(
        &self,
        input: &Tensor<T>,
        zero: T,
        multiply_add: F,
        plus: G,
    ) -> (output: Tensor<T>)
        requires
            self.wf(),
            input.wf(),
            input.dims().len() == 2,
            input.dims()[1] == self.input_count(),
            input.dims()[0] * self.output_count() <= usize::MAX,
            is_function3(multiply_add),
            forall|a: T, b: T| #[trigger] plus.requires((a, b)),
        ensures
            output.wf(),
            output.dims() == seq![input.dims()[0], self.output_count()],
            forall|row: int, column: int|
                0 <= row < input.dims()[0] && 0 <= column < self.output_count() ==> plus.ensures(
                    (
                        dot_fold(
                            multiply_add,
                            zero,
                            input@,
                            self.weight_tensor()@,
                            self.input_count() as int,
                            self.output_count() as int,
                            row,
                            column,
                            self.input_count() as nat,
                        ),
                        self.bias_tensor()@[column],
                    ),
                    #[trigger] output.at2(row, column),
                ),
    {
        let mut output = input.matmul(&self.weights, zero, multiply_add);
        output.add_row_vector_in_place(&self.biases, plus);
        output
    }

    /// Computes the layer's output and keeps the input for the backward
    /// pass (reusing the cached tensor when it has the input's shape).
    pub fn forward<F: Fn(T, T, T) -> T + Copy, G: Fn(T, T) -> T + Copy>(
        &mut self,
        input: &Tensor<T>,
        zero: T,
        multiply_add: F,
        plus: G,
    ) -> (output: Tensor<T>)
        requires
            old(self).wf(),
            input.wf(),
            input.dims().len() == 2,
            input.dims()[1] == old(self).input_count(),
            input.dims()[0] * old(self).output_count() <= usize::MAX,
            is_function3(multiply_add),
            forall|a: T, b: T| #[trigger] plus.requires((a, b)),
        ensures
            final(self).wf(),
            final(self).weight_tensor() == old(self).weight_tensor(),
            final(self).bias_tensor() == old(self).bias_tensor(),
            final(self).weight_gradient_tensor() == old(self).weight_gradient_tensor(),
            final(self).bias_gradient_tensor() == old(self).bias_gradient_tensor(),
            final(self).cached_input() is Some,
            final(self).cached_input()->Some_0@ == input@,
            final(self).cached_input()->Some_0.dims() == input.dims(),
            output.wf(),
            output.dims() == seq![input.dims()[0], old(self).output_count()],
            forall|row: int, column: int|
                0 <= row < input.dims()[0] && 0 <= column < old(self).output_count()
                    ==> plus.ensures(
                    (
                        dot_fold(
                            multiply_add,
                            zero,
                            input@,
                            old(self).weight_tensor()@,
                            old(self).input_count() as int,
                            old(self).output_count() as int,
                            row,
                            column,
                            old(self).input_count() as nat,
                        ),
                        old(self).bias_tensor()@[column],
                    ),
                    #[trigger] output.at2(row, column),
                ),
    {
        let reuse = match &self.input_cache {
            Some(cache) => same_dims(cache.shape(), input.shape()),
            None => false,
        };
        if reuse {
            let mut cache = self.input_cache.take().unwrap();
            cache.copy_from(input);
            self.input_cache = Some(cache);
        } else {
            self.input_cache = Some(input.clone_tensor());
        }
        self.forward_inference(input, zero, multiply_add, plus)
    }

    /// Back-propagates the gradients of the last forward pass's outputs:
    /// stores the weight gradient (the transposed input times the output
    /// gradients) and the bias gradient (the column folds of the output
    /// gradients), and returns the input gradient (the output gradients
    /// times the transposed weights).
    pub fn backward<F: Fn(T, T, T) -> T + Copy, G: Fn(T, T) -> T + Copy>(
        &mut self,
        output_gradients: &Tensor<T>,
        zero: T,
        multiply_add: F,
        plus: G,
    ) -> (input_gradients: Tensor<T>)
        requires
            old(self).wf(),
            old(self).cached_input() is Some,
            output_gradients.wf(),
            output_gradients.dims() == seq![
                old(self).cached_input()->Some_0.dims()[0],
                old(self).output_count(),
            ],
            is_function3(multiply_add),
            is_function2(plus),
        ensures
            final(self).wf(),
            final(self).weight_tensor() == old(self).weight_tensor(),
            final(self).bias_tensor() == old(self).bias_tensor(),
            final(self).cached_input() == old(self).cached_input(),
            final(self).weight_gradient_tensor().dims() == old(self).weight_tensor().dims(),
            final(self).bias_gradient_tensor().dims() == old(self).bias_tensor().dims(),
            ({
                let input = old(self).cached_input()->Some_0;
                let batch = input.dims()[0] as int;
                let inputs = old(self).input_count() as int;
                let outputs = old(self).output_count() as int;
                &&& forall|i: int, j: int|
                    0 <= i < inputs && 0 <= j < outputs ==> #[trigger] final(self).weight_gradient_tensor().at2(i, j) == dot_fold(
                        multiply_add,
                        zero,
                        transpose_values(input@, batch, inputs),
                        output_gradients@,
                        batch,
                        outputs,
                        i,
                        j,
                        batch as nat,
                    )
                &&& forall|j: int|
                    0 <= j < outputs ==> #[trigger] final(self).bias_gradient_tensor()@[j]
                        == column_fold(plus, zero, output_gradients@, outputs, j, batch as nat)
                &&& input_gradients.wf()
                &&& input_gradients.dims() == seq![batch as usize, inputs as usize]
                &&& forall|r: int, i: int|
                    0 <= r < batch && 0 <= i < inputs ==> #[trigger] input_gradients.at2(r, i)
                        == dot_fold(
                        multiply_add,
                        zero,
                        output_gradients@,
                        transpose_values(old(self).weight_tensor()@, inputs, outputs),
                        outputs,
                        inputs,
                        r,
                        i,
                        outputs as nat,
                    )
            }),
    {
        let input = self.input_cache.as_ref().unwrap();
        let input_transposed = input.transpose_2d();
        assert(self.weight_gradients.dims() =~= seq![
            input_transposed.dims()[0],
            output_gradients.dims()[1],
        ]);
        input_transposed.matmul_into(
            output_gradients,
            &mut self.weight_gradients,
            zero,
            multiply_add,
        );
        output_gradients.sum_rows_into(&mut self.bias_gradients, zero, plus);
        let weights_transposed = self.weights.transpose_2d();
        proof {
            lemma_matrix_product(input.dims());
        }
        output_gradients.matmul(&weights_transposed, zero, multiply_add)
    }

    /// Sets both gradients to `zero`.
    pub fn zero_grad(&mut self, zero: T)
        requires
            old(self).wf(),
        ensures
            final(self).wf(),
            final(self).weight_tensor() == old(self).weight_tensor(),
            final(self).bias_tensor() == old(self).bias_tensor(),
            final(self).cached_input() == old(self).cached_input(),
            final(self).weight_gradient_tensor().dims() == old(self).weight_gradient_tensor().dims(),
            final(self).bias_gradient_tensor().dims() == old(self).bias_gradient_tensor().dims(),
            final(self).weight_gradient_tensor()@ == Seq::new(
                old(self).weight_gradient_tensor()@.len(),
                |i: int| zero,
            ),
            final(self).bias_gradient_tensor()@ == Seq::new(
                old(self).bias_gradient_tensor()@.len(),
                |i: int| zero,
            ),
    {
        self.weight_gradients.fill(zero);
        self.bias_gradients.fill(zero);
    }

    /// A plain gradient-descent step: every parameter becomes `update` of
    /// it and its gradient (`parameter - rate * gradient` for a learning
    /// rate `rate`).
    pub fn apply_sgd<F: Fn(T, T) -> T + Copy>(&mut self, update: F)
        requires
            old(self).wf(),
            forall|a: T, b: T| #[trigger] update.requires((a, b)),
        ensures
            final(self).wf(),
            final(self).weight_tensor().dims() == old(self).weight_tensor().dims(),
            final(self).bias_tensor().dims() == old(self).bias_tensor().dims(),
            final(self).weight_gradient_tensor() == old(self).weight_gradient_tensor(),
            final(self).bias_gradient_tensor() == old(self).bias_gradient_tensor(),
            final(self).cached_input() == old(self).cached_input(),
            final(self).weight_tensor()@.len() == old(self).weight_tensor()@.len(),
            final(self).bias_tensor()@.len() == old(self).bias_tensor()@.len(),
            forall|i: int|
                0 <= i < old(self).weight_tensor()@.len() ==> update.ensures(
                    (old(self).weight_tensor()@[i], old(self).weight_gradient_tensor()@[i]),
                    #[trigger] final(self).weight_tensor()@[i],
                ),
            forall|i: int|
                0 <= i < old(self).bias_tensor()@.len() ==> update.ensures(
                    (old(self).bias_tensor()@[i], old(self).bias_gradient_tensor()@[i]),
                    #[trigger] final(self).bias_tensor()@[i],
                ),
    {
        self.weights.zip_with_in_place(&self.weight_gradients, update);
        self.biases.zip_with_in_place(&self.bias_gradients, update);
    }

    /// The number of inputs.
    pub fn input_size(&self) -> (size: usize)
        requires
            self.wf(),
        ensures
            size == self.input_count(),
    {
        self.weights.shape()[0]
    }

    /// The number of outputs.
    pub fn output_size(&self) -> (size: usize)
        requires
            self.wf(),
        ensures
            size == self.output_count(),
    {
        self.weights.shape()[1]
    }

    /// The input of the last forward pass, if any.
    pub fn input_cache(&self) -> (cache: Option<&Tensor<T>>)
        ensures
            cache is Some == self.cached_input() is Some,
            cache is Some ==> *cache->Some_0 == self.cached_input()->Some_0,
    {
        self.input_cache.as_ref()
    }

    /// The weight matrix.
    pub fn weights(&self) -> (weights: &Tensor<T>)
        ensures
            *weights == self.weight_tensor(),
    {
        &self.weights
    }

    /// The bias vector.
    pub fn biases(&self) -> (biases: &Tensor<T>)
        ensures
            *biases == self.bias_tensor(),
    {
        &self.biases
    }

    /// The gradient of the weights.
    pub fn weight_gradients(&self) -> (gradients: &Tensor<T>)
        ensures
            *gradients == self.weight_gradient_tensor(),
    {
        &self.weight_gradients
    }

    /// The gradient of the biases.
    pub fn bias_gradients(&self) -> (gradients: &Tensor<T>)
        ensures
            *gradients == self.bias_gradient_tensor(),
    {
        &self.bias_gradients
    }

    /// The weight matrix, for writing.
    pub fn weights_mut(&mut self) -> (weights: &mut Tensor<T>)
        ensures
            *weights == old(self).weight_tensor(),
            final(self).weight_tensor() == *final(weights),
            final(self).bias_tensor() == old(self).bias_tensor(),
            final(self).weight_gradient_tensor() == old(self).weight_gradient_tensor(),
            final(self).bias_gradient_tensor() == old(self).bias_gradient_tensor(),
            final(self).cached_input() == old(self).cached_input(),
    {
        &mut self.weights
    }

    /// The bias vector, for writing.
    pub fn biases_mut(&mut self) -> (biases: &mut Tensor<T>)
        ensures
            *biases == old(self).bias_tensor(),
            final(self).bias_tensor() == *final(biases),
            final(self).weight_tensor() == old(self).weight_tensor(),
            final(self).weight_gradient_tensor() == old(self).weight_gradient_tensor(),
            final(self).bias_gradient_tensor() == old(self).bias_gradient_tensor(),
            final(self).cached_input() == old(self).cached_input(),
    {
        &mut self.biases
    }

    /// Replaces the weight at a flat position.
    pub(crate) fn set_weight(&mut self, position: usize, value: T)
        requires
            old(self).wf(),
            position < old(self).weight_tensor()@.len(),
        ensures
            final(self).wf(),
            final(self).weight_tensor().dims() == old(self).weight_tensor().dims(),
            final(self).weight_tensor()@ == old(self).weight_tensor()@.update(position as int, value),
            final(self).bias_tensor() == old(self).bias_tensor(),
            final(self).weight_gradient_tensor() == old(self).weight_gradient_tensor(),
            final(self).bias_gradient_tensor() == old(self).bias_gradient_tensor(),
            final(self).cached_input() == old(self).cached_input(),
    {
        self.weights.set_flat(position, value);
    }

    /// Replaces the bias at a position.
    pub(crate) fn set_bias(&mut self, position: usize, value: T)
        requires
            old(self).wf(),
            position < old(self).bias_tensor()@.len(),
        ensures
            final(self).wf(),
            final(self).bias_tensor().dims() == old(self).bias_tensor().dims(),
            final(self).bias_tensor()@ == old(self).bias_tensor()@.update(position as int, value),
            final(self).weight_tensor() == old(self).weight_tensor(),
            final(self).weight_gradient_tensor() == old(self).weight_gradient_tensor(),
            final(self).bias_gradient_tensor() == old(self).bias_gradient_tensor(),
            final(self).cached_input() == old(self).cached_input(),
    {
        self.biases.set_flat(position, value);
    }
}

} // verus!
