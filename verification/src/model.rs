//! A two-layer classifier: dense, ReLU, dense, with softmax cross-entropy
//! on top. The network wires the layers together for inference, for a
//! training pass (forward, loss, backward) and for the optimiser steps; as
//! in the layers, the element arithmetic is the caller's.
use vstd::prelude::*;

use crate::dense::Dense;
use crate::func::{apply1, apply2, is_function1, is_function2, is_function3, lemma_apply1, lemma_apply2};
use crate::loss::{SoftmaxCrossEntropy, loss_gradient, loss_total, softmax_probability};
use crate::model_format::{
    ModelParameters, dense1_biases_offset, dense1_weights_offset, dense2_biases_offset,
    dense2_weights_offset, decode_error, decode_model, encode_model, lemma_decode_encode,
    lemma_decode_ignores_trailing_bytes, model_bytes,
    parameters_fit, stored_hidden_size, stored_input_size, stored_output_size, tensor_words, ModelError,
};
use crate::optimizer::AdamState;
use crate::relu::ReLU;
use crate::tensor::{
    Tensor, column_fold, dot_fold, lemma_matrix_of, lemma_matrix_of_cell, lemma_matrix_position,
    lemma_matrix_product, lemma_scan_argmax_in_range, lemma_vector_product, matrix_of, scan_argmax,
    transpose_values,
};
use crate::training::{count_correct, matches_in};

verus! {

/// Cell (`row`, `column`) of a dense layer's output: `plus` of the product
/// fold over the shared index and the column's bias.
pub open spec fn dense_cell<T, F: Fn(T, T, T) -> T, G: Fn(T, T) -> T>(
    multiply_add: F,
    plus: G,
    zero: T,
    input: Seq<T>,
    weights: Seq<T>,
    biases: Seq<T>,
    inputs: int,
    outputs: int,
) -> spec_fn(int, int) -> T {
    |row: int, column: int|
        apply2(
            plus,
            dot_fold(multiply_add, zero, input, weights, inputs, outputs, row, column, inputs as nat),
            biases[column],
        )
}

/// A dense layer's output for a `batch` by `inputs` input.
pub open spec fn dense_values<T, F: Fn(T, T, T) -> T, G: Fn(T, T) -> T>(
    multiply_add: F,
    plus: G,
    zero: T,
    input: Seq<T>,
    weights: Seq<T>,
    biases: Seq<T>,
    batch: int,
    inputs: int,
    outputs: int,
) -> Seq<T> {
    matrix_of(batch, outputs, dense_cell(multiply_add, plus, zero, input, weights, biases, inputs, outputs))
}

/// `op` applied to every value.
pub open spec fn converted<A, B, W: Fn(A) -> B>(op: W, values: Seq<A>) -> Seq<B> {
    Seq::new(values.len(), |i: int| apply1(op, values[i]))
}

/// The training activation: each value where `is_positive` holds of it,
/// `zero` elsewhere.
pub open spec fn relu_values<T, F: Fn(T) -> bool>(is_positive: F, zero: T, values: Seq<T>) -> Seq<T> {
    Seq::new(values.len(), |i: int| if apply1(is_positive, values[i]) { values[i] } else { zero })
}

/// The element arithmetic of the layers: the additive identity, the
/// product step `multiply_add(accumulator, a, b)`, the sum, the training
/// activation's positivity test and the inference activation.
pub struct LayerArithmetic<T, F, G, P, R> {
    pub zero: T,
    pub multiply_add: F,
    pub plus: G,
    pub is_positive: P,
    pub rectify: R,
}

impl<T, F: Fn(T, T, T) -> T, G: Fn(T, T) -> T, P: Fn(T) -> bool, R: Fn(T) -> T> LayerArithmetic<
    T,
    F,
    G,
    P,
    R,
> {
    /// Every operation accepts all arguments and gives one result for each.
    pub open spec fn total(&self) -> bool {
        &&& is_function3(self.multiply_add)
        &&& is_function2(self.plus)
        &&& is_function1(self.is_positive)
        &&& is_function1(self.rectify)
    }
}

/// The element arithmetic of the loss: the running maximum, the shifted
/// exponential `shifted_exp(logit, maximum)`, the division, the per-row
/// loss `row_loss(maximum, sum, logit of the label)`, the average
/// `average(total, batch size)`, and for the gradient `minus_one` and
/// `scale(gradient, batch size)`.
pub struct LossArithmetic<M, E, D, L, A, O, S> {
    pub maximum: M,
    pub shifted_exp: E,
    pub divide: D,
    pub row_loss: L,
    pub average: A,
    pub minus_one: O,
    pub scale: S,
}

/// Every operation of the loss accepts all arguments and gives one result
/// for each.
pub open spec fn loss_arithmetic_total<
    T,
    M: Fn(T, T) -> T,
    E: Fn(T, T) -> T,
    D: Fn(T, T) -> T,
    L: Fn(T, T, T) -> T,
    A: Fn(T, usize) -> T,
    O: Fn(T) -> T,
    S: Fn(T, usize) -> T,
>(ops: LossArithmetic<M, E, D, L, A, O, S>) -> bool {
    &&& is_function2(ops.maximum)
    &&& is_function2(ops.shifted_exp)
    &&& is_function2(ops.divide)
    &&& is_function3(ops.row_loss)
    &&& is_function2(ops.average)
    &&& is_function1(ops.minus_one)
    &&& is_function2(ops.scale)
}

/// Cell (`row`, `column`) of a matrix product: the fold of `multiply_add`
/// over the shared index.
pub open spec fn product_cell<T, F: Fn(T, T, T) -> T>(
    multiply_add: F,
    zero: T,
    left: Seq<T>,
    right: Seq<T>,
    inner: int,
    columns: int,
) -> spec_fn(int, int) -> T {
    |row: int, column: int|
        dot_fold(multiply_add, zero, left, right, inner, columns, row, column, inner as nat)
}

/// The `rows` by `columns` product of a `rows` by `inner` and an `inner` by
/// `columns` matrix.
pub open spec fn product_values<T, F: Fn(T, T, T) -> T>(
    multiply_add: F,
    zero: T,
    left: Seq<T>,
    right: Seq<T>,
    rows: int,
    inner: int,
    columns: int,
) -> Seq<T> {
    matrix_of(rows, columns, product_cell(multiply_add, zero, left, right, inner, columns))
}

/// Cell (`row`, `column`) of the softmax probabilities of `logits`.
pub open spec fn softmax_cell<
    T,
    M: Fn(T, T) -> T,
    E: Fn(T, T) -> T,
    P: Fn(T, T) -> T,
    D: Fn(T, T) -> T,
>(
    maximum: M,
    shifted_exp: E,
    plus: P,
    divide: D,
    zero: T,
    logits: Seq<T>,
    classes: int,
) -> spec_fn(int, int) -> T {
    |row: int, column: int|
        softmax_probability(maximum, shifted_exp, plus, divide, zero, logits, classes, row, column)
}

/// Cell (`row`, `column`) of the loss gradient for these probabilities.
pub open spec fn gradient_cell<T, O: Fn(T) -> T, S: Fn(T, usize) -> T>(
    minus_one: O,
    scale: S,
    probabilities: Seq<T>,
    labels: Seq<usize>,
    classes: int,
    batch: usize,
) -> spec_fn(int, int) -> T {
    |row: int, column: int|
        loss_gradient(minus_one, scale, probabilities, labels, classes, batch, row, column)
}

/// The column folds of a `rows` by `columns` matrix.
pub open spec fn column_sums<T, G: Fn(T, T) -> T>(
    plus: G,
    zero: T,
    values: Seq<T>,
    rows: int,
    columns: int,
) -> Seq<T> {
    Seq::new(columns as nat, |column: int| column_fold(plus, zero, values, columns, column, rows as nat))
}

/// A matrix product, given that it met `matmul`'s postcondition.
proof fn lemma_product_output<T, F: Fn(T, T, T) -> T>(
    output: Tensor<T>,
    multiply_add: F,
    zero: T,
    left: Seq<T>,
    right: Seq<T>,
    rows: int,
    inner: int,
    columns: int,
)
    requires
        output.wf(),
        output.dims().len() == 2,
        output.dims()[0] == rows,
        output.dims()[1] == columns,
        forall|row: int, column: int|
            0 <= row < rows && 0 <= column < columns ==> #[trigger] output.at2(row, column)
                == dot_fold(multiply_add, zero, left, right, inner, columns, row, column, inner as nat),
    ensures
        output@ == product_values(multiply_add, zero, left, right, rows, inner, columns),
{
    lemma_matrix_product(output.dims());
    let cell = product_cell(multiply_add, zero, left, right, inner, columns);
    assert forall|row: int, column: int|
        0 <= row < rows && 0 <= column < columns implies #[trigger] output@[row * columns + column]
        == cell(row, column) by {
        assert(output.at2(row, column) == output@[row * columns + column]);
    }
    lemma_matrix_of(output@, rows, columns, cell);
}

/// Column folds, given that they met `sum_rows_into`'s postcondition.
proof fn lemma_column_sums_output<T, G: Fn(T, T) -> T>(
    output: Tensor<T>,
    plus: G,
    zero: T,
    values: Seq<T>,
    rows: int,
    columns: int,
)
    requires
        output.wf(),
        output.dims().len() == 1,
        output.dims()[0] == columns,
        forall|column: int|
            0 <= column < columns ==> #[trigger] output@[column] == column_fold(
                plus,
                zero,
                values,
                columns,
                column,
                rows as nat,
            ),
    ensures
        output@ == column_sums(plus, zero, values, rows, columns),
{
    lemma_vector_product(output.dims());
    assert(output@ =~= column_sums(plus, zero, values, rows, columns));
}

/// A dense layer's output, given that it met `Dense::forward_inference`'s
/// postcondition with a deterministic `plus`.
proof fn lemma_dense_output<T, F: Fn(T, T, T) -> T, G: Fn(T, T) -> T>(
    output: Tensor<T>,
    multiply_add: F,
    plus: G,
    zero: T,
    input: Seq<T>,
    weights: Seq<T>,
    biases: Seq<T>,
    batch: int,
    inputs: int,
    outputs: int,
)
    requires
        output.wf(),
        output.dims().len() == 2,
        output.dims()[0] == batch,
        output.dims()[1] == outputs,
        is_function2(plus),
        forall|row: int, column: int|
            0 <= row < batch && 0 <= column < outputs ==> plus.ensures(
                (
                    dot_fold(multiply_add, zero, input, weights, inputs, outputs, row, column, inputs as nat),
                    biases[column],
                ),
                #[trigger] output.at2(row, column),
            ),
    ensures
        output@ == dense_values(multiply_add, plus, zero, input, weights, biases, batch, inputs, outputs),
{
    lemma_matrix_product(output.dims());
    let cell = dense_cell(multiply_add, plus, zero, input, weights, biases, inputs, outputs);
    assert forall|row: int, column: int|
        0 <= row < batch && 0 <= column < outputs implies #[trigger] output@[row * outputs + column]
        == cell(row, column) by {
        assert(output.at2(row, column) == output@[row * outputs + column]);
        lemma_apply2(
            plus,
            dot_fold(multiply_add, zero, input, weights, inputs, outputs, row, column, inputs as nat),
            biases[column],
            output.at2(row, column),
        );
    }
    lemma_matrix_of(output@, batch, outputs, cell);
}

/// Each parameter replaced by `update` of it and its gradient.
pub open spec fn updated_values<T, U: Fn(T, T) -> T>(update: U, parameters: Seq<T>, gradients: Seq<T>) -> Seq<T> {
    Seq::new(parameters.len(), |i: int| apply2(update, parameters[i], gradients[i]))
}

/// The predicted class of each row: the column that the scan for the
/// largest value by `greater` settles on.
pub open spec fn row_predictions<T, C: Fn(T, T) -> bool>(
    greater: C,
    values: Seq<T>,
    rows: int,
    columns: int,
) -> Seq<usize> {
    Seq::new(rows as nat, |row: int| scan_argmax(greater, values, row * columns, columns as nat) as usize)
}

/// `op` applied to every value.
fn convert_all<A: Copy, B, W: Fn(A) -> B + Copy>(values: &[A], op: W) -> (result: Vec<B>)
    requires
        is_function1(op),
    ensures
        result@ == converted(op, values@),
{
    let mut result: Vec<B> = Vec::new();
    let mut index: usize = 0;
    while index < values.len()
        invariant
            is_function1(op),
            index <= values@.len(),
            result@.len() == index,
            forall|i: int| 0 <= i < index ==> #[trigger] result@[i] == apply1(op, values@[i]),
        decreases values.len() - index,
    {
        let value = op(values[index]);
        proof {
            lemma_apply1(op, values@[index as int], value);
        }
        result.push(value);
        index = index + 1;
    }
    assert(result@ =~= converted(op, values@));
    result
}

/// A dense layer, a ReLU, a second dense layer and the loss.
#[derive(Clone, Debug)]
pub struct TwoLayerNetwork<T> {
    dense1: Dense<T>,
    relu: ReLU,
    dense2: Dense<T>,
    loss_function: SoftmaxCrossEntropy<T>,
}

/// The Adam state of both dense layers.
#[derive(Clone, Debug)]
pub struct TwoLayerAdamState<T> {
    dense1: AdamState<T>,
    dense2: AdamState<T>,
}

impl<T> TwoLayerNetwork<T> {
    /// The first dense layer.
    pub closed spec fn first(&self) -> Dense<T> {
        self.dense1
    }

    /// The activation between the layers.
    pub closed spec fn activation(&self) -> ReLU {
        self.relu
    }

    /// The second dense layer.
    pub closed spec fn second(&self) -> Dense<T> {
        self.dense2
    }

    /// The loss on top.
    pub closed spec fn loss_state(&self) -> SoftmaxCrossEntropy<T> {
        self.loss_function
    }

    /// The number of inputs.
    pub open spec fn input_count(&self) -> usize {
        self.first().input_count()
    }

    /// The number of hidden units.
    pub open spec fn hidden_count(&self) -> usize {
        self.first().output_count()
    }

    /// The number of classes.
    pub open spec fn output_count(&self) -> usize {
        self.second().output_count()
    }

    /// Well-formed parts, the second layer taking the first one's outputs.
    pub open spec fn wf(&self) -> bool {
        &&& self.first().wf()
        &&& self.activation().wf()
        &&& self.second().wf()
        &&& self.loss_state().wf()
        &&& self.second().input_count() == self.hidden_count()
    }

    /// The first layer's output for a `batch` by `inputs` input.
    pub open spec fn hidden_linear<F: Fn(T, T, T) -> T, G: Fn(T, T) -> T, P: Fn(T) -> bool, R: Fn(T) -> T>(
        &self,
        ops: LayerArithmetic<T, F, G, P, R>,
        input: Seq<T>,
        batch: int,
    ) -> Seq<T> {
        dense_values(
            ops.multiply_add,
            ops.plus,
            ops.zero,
            input,
            self.first().weight_tensor()@,
            self.first().bias_tensor()@,
            batch,
            self.input_count() as int,
            self.hidden_count() as int,
        )
    }

    /// The logits of inference: the second layer on the first one's output
    /// with `rectify` applied to each value.
    pub open spec fn inference_logits<F: Fn(T, T, T) -> T, G: Fn(T, T) -> T, P: Fn(T) -> bool, R: Fn(T) -> T>(
        &self,
        ops: LayerArithmetic<T, F, G, P, R>,
        input: Seq<T>,
        batch: int,
    ) -> Seq<T> {
        dense_values(
            ops.multiply_add,
            ops.plus,
            ops.zero,
            converted(ops.rectify, self.hidden_linear(ops, input, batch)),
            self.second().weight_tensor()@,
            self.second().bias_tensor()@,
            batch,
            self.hidden_count() as int,
            self.output_count() as int,
        )
    }

    /// The activation of a training pass: the first layer's output where
    /// `is_positive` holds of it, `zero` elsewhere.
    pub open spec fn training_hidden<F: Fn(T, T, T) -> T, G: Fn(T, T) -> T, P: Fn(T) -> bool, R: Fn(T) -> T>(
        &self,
        ops: LayerArithmetic<T, F, G, P, R>,
        input: Seq<T>,
        batch: int,
    ) -> Seq<T> {
        relu_values(ops.is_positive, ops.zero, self.hidden_linear(ops, input, batch))
    }

    /// The logits of a training pass: the second layer on the training
    /// activation.
    pub open spec fn training_logits<F: Fn(T, T, T) -> T, G: Fn(T, T) -> T, P: Fn(T) -> bool, R: Fn(T) -> T>(
        &self,
        ops: LayerArithmetic<T, F, G, P, R>,
        input: Seq<T>,
        batch: int,
    ) -> Seq<T> {
        dense_values(
            ops.multiply_add,
            ops.plus,
            ops.zero,
            self.training_hidden(ops, input, batch),
            self.second().weight_tensor()@,
            self.second().bias_tensor()@,
            batch,
            self.hidden_count() as int,
            self.output_count() as int,
        )
    }

    /// The probabilities that the loss computes from the training logits.
    pub open spec fn training_probabilities<
        F: Fn(T, T, T) -> T,
        G: Fn(T, T) -> T,
        P: Fn(T) -> bool,
        R: Fn(T) -> T,
        M: Fn(T, T) -> T,
        E: Fn(T, T) -> T,
        D: Fn(T, T) -> T,
        L: Fn(T, T, T) -> T,
        A: Fn(T, usize) -> T,
        O: Fn(T) -> T,
        S: Fn(T, usize) -> T,
    >(
        &self,
        ops: LayerArithmetic<T, F, G, P, R>,
        loss_ops: LossArithmetic<M, E, D, L, A, O, S>,
        input: Seq<T>,
        batch: int,
    ) -> Seq<T> {
        let classes = self.output_count() as int;
        matrix_of(
            batch,
            classes,
            softmax_cell(
                loss_ops.maximum,
                loss_ops.shifted_exp,
                ops.plus,
                loss_ops.divide,
                ops.zero,
                self.training_logits(ops, input, batch),
                classes,
            ),
        )
    }

    /// The mean loss of a training pass.
    pub open spec fn training_loss<
        F: Fn(T, T, T) -> T,
        G: Fn(T, T) -> T,
        P: Fn(T) -> bool,
        R: Fn(T) -> T,
        M: Fn(T, T) -> T,
        E: Fn(T, T) -> T,
        D: Fn(T, T) -> T,
        L: Fn(T, T, T) -> T,
        A: Fn(T, usize) -> T,
        O: Fn(T) -> T,
        S: Fn(T, usize) -> T,
    >(
        &self,
        ops: LayerArithmetic<T, F, G, P, R>,
        loss_ops: LossArithmetic<M, E, D, L, A, O, S>,
        input: Seq<T>,
        labels: Seq<usize>,
        batch: int,
    ) -> T {
        apply2(
            loss_ops.average,
            loss_total(
                loss_ops.maximum,
                loss_ops.shifted_exp,
                ops.plus,
                loss_ops.row_loss,
                ops.zero,
                self.training_logits(ops, input, batch),
                self.output_count() as int,
                labels,
                batch as nat,
            ),
            batch as usize,
        )
    }

    /// The gradient of the mean loss with respect to the training logits.
    pub open spec fn logit_gradients<
        F: Fn(T, T, T) -> T,
        G: Fn(T, T) -> T,
        P: Fn(T) -> bool,
        R: Fn(T) -> T,
        M: Fn(T, T) -> T,
        E: Fn(T, T) -> T,
        D: Fn(T, T) -> T,
        L: Fn(T, T, T) -> T,
        A: Fn(T, usize) -> T,
        O: Fn(T) -> T,
        S: Fn(T, usize) -> T,
    >(
        &self,
        ops: LayerArithmetic<T, F, G, P, R>,
        loss_ops: LossArithmetic<M, E, D, L, A, O, S>,
        input: Seq<T>,
        labels: Seq<usize>,
        batch: int,
    ) -> Seq<T> {
        let classes = self.output_count() as int;
        matrix_of(
            batch,
            classes,
            gradient_cell(
                loss_ops.minus_one,
                loss_ops.scale,
                self.training_probabilities(ops, loss_ops, input, batch),
                labels,
                classes,
                batch as usize,
            ),
        )
    }

    /// The gradient with respect to the activation: the logit gradients
    /// times the transposed second weights.
    pub open spec fn hidden_gradients<
        F: Fn(T, T, T) -> T,
        G: Fn(T, T) -> T,
        P: Fn(T) -> bool,
        R: Fn(T) -> T,
        M: Fn(T, T) -> T,
        E: Fn(T, T) -> T,
        D: Fn(T, T) -> T,
        L: Fn(T, T, T) -> T,
        A: Fn(T, usize) -> T,
        O: Fn(T) -> T,
        S: Fn(T, usize) -> T,
    >(
        &self,
        ops: LayerArithmetic<T, F, G, P, R>,
        loss_ops: LossArithmetic<M, E, D, L, A, O, S>,
        input: Seq<T>,
        labels: Seq<usize>,
        batch: int,
    ) -> Seq<T> {
        let hidden = self.hidden_count() as int;
        let classes = self.output_count() as int;
        product_values(
            ops.multiply_add,
            ops.zero,
            self.logit_gradients(ops, loss_ops, input, labels, batch),
            transpose_values(self.second().weight_tensor()@, hidden, classes),
            batch,
            classes,
            hidden,
        )
    }

    /// The gradient with respect to the first layer's output: the
    /// activation's gradient where the activation let the value through,
    /// `zero` elsewhere.
    pub open spec fn hidden_linear_gradients<
        F: Fn(T, T, T) -> T,
        G: Fn(T, T) -> T,
        P: Fn(T) -> bool,
        R: Fn(T) -> T,
        M: Fn(T, T) -> T,
        E: Fn(T, T) -> T,
        D: Fn(T, T) -> T,
        L: Fn(T, T, T) -> T,
        A: Fn(T, usize) -> T,
        O: Fn(T) -> T,
        S: Fn(T, usize) -> T,
    >(
        &self,
        ops: LayerArithmetic<T, F, G, P, R>,
        loss_ops: LossArithmetic<M, E, D, L, A, O, S>,
        input: Seq<T>,
        labels: Seq<usize>,
        batch: int,
    ) -> Seq<T> {
        let linear = self.hidden_linear(ops, input, batch);
        let gradients = self.hidden_gradients(ops, loss_ops, input, labels, batch);
        Seq::new(
            gradients.len(),
            |i: int| if apply1(ops.is_positive, linear[i]) {
                gradients[i]
            } else {
                ops.zero
            },
        )
    }

    /// The first layer's weight gradient from a training pass.
    pub open spec fn first_weight_gradients<
        F: Fn(T, T, T) -> T,
        G: Fn(T, T) -> T,
        P: Fn(T) -> bool,
        R: Fn(T) -> T,
        M: Fn(T, T) -> T,
        E: Fn(T, T) -> T,
        D: Fn(T, T) -> T,
        L: Fn(T, T, T) -> T,
        A: Fn(T, usize) -> T,
        O: Fn(T) -> T,
        S: Fn(T, usize) -> T,
    >(
        &self,
        ops: LayerArithmetic<T, F, G, P, R>,
        loss_ops: LossArithmetic<M, E, D, L, A, O, S>,
        input: Seq<T>,
        labels: Seq<usize>,
        batch: int,
    ) -> Seq<T> {
        let inputs = self.input_count() as int;
        product_values(
            ops.multiply_add,
            ops.zero,
            transpose_values(input, batch, inputs),
            self.hidden_linear_gradients(ops, loss_ops, input, labels, batch),
            inputs,
            batch,
            self.hidden_count() as int,
        )
    }

    /// The first layer's bias gradient from a training pass.
    pub open spec fn first_bias_gradients<
        F: Fn(T, T, T) -> T,
        G: Fn(T, T) -> T,
        P: Fn(T) -> bool,
        R: Fn(T) -> T,
        M: Fn(T, T) -> T,
        E: Fn(T, T) -> T,
        D: Fn(T, T) -> T,
        L: Fn(T, T, T) -> T,
        A: Fn(T, usize) -> T,
        O: Fn(T) -> T,
        S: Fn(T, usize) -> T,
    >(
        &self,
        ops: LayerArithmetic<T, F, G, P, R>,
        loss_ops: LossArithmetic<M, E, D, L, A, O, S>,
        input: Seq<T>,
        labels: Seq<usize>,
        batch: int,
    ) -> Seq<T> {
        column_sums(
            ops.plus,
            ops.zero,
            self.hidden_linear_gradients(ops, loss_ops, input, labels, batch),
            batch,
            self.hidden_count() as int,
        )
    }

    /// The second layer's weight gradient from a training pass.
    pub open spec fn second_weight_gradients<
        F: Fn(T, T, T) -> T,
        G: Fn(T, T) -> T,
        P: Fn(T) -> bool,
        R: Fn(T) -> T,
        M: Fn(T, T) -> T,
        E: Fn(T, T) -> T,
        D: Fn(T, T) -> T,
        L: Fn(T, T, T) -> T,
        A: Fn(T, usize) -> T,
        O: Fn(T) -> T,
        S: Fn(T, usize) -> T,
    >(
        &self,
        ops: LayerArithmetic<T, F, G, P, R>,
        loss_ops: LossArithmetic<M, E, D, L, A, O, S>,
        input: Seq<T>,
        labels: Seq<usize>,
        batch: int,
    ) -> Seq<T> {
        let hidden = self.hidden_count() as int;
        product_values(
            ops.multiply_add,
            ops.zero,
            transpose_values(self.training_hidden(ops, input, batch), batch, hidden),
            self.logit_gradients(ops, loss_ops, input, labels, batch),
            hidden,
            batch,
            self.output_count() as int,
        )
    }

    /// The second layer's bias gradient from a training pass.
    pub open spec fn second_bias_gradients<
        F: Fn(T, T, T) -> T,
        G: Fn(T, T) -> T,
        P: Fn(T) -> bool,
        R: Fn(T) -> T,
        M: Fn(T, T) -> T,
        E: Fn(T, T) -> T,
        D: Fn(T, T) -> T,
        L: Fn(T, T, T) -> T,
        A: Fn(T, usize) -> T,
        O: Fn(T) -> T,
        S: Fn(T, usize) -> T,
    >(
        &self,
        ops: LayerArithmetic<T, F, G, P, R>,
        loss_ops: LossArithmetic<M, E, D, L, A, O, S>,
        input: Seq<T>,
        labels: Seq<usize>,
        batch: int,
    ) -> Seq<T> {
        column_sums(
            ops.plus,
            ops.zero,
            self.logit_gradients(ops, loss_ops, input, labels, batch),
            batch,
            self.output_count() as int,
        )
    }

    /// `after` is this network after a training pass (forward, loss,
    /// backward) on `input` and `labels`: parameters as they were, the
    /// gradients of both layers from the pass, and the caches of the pass.
    pub open spec fn backpropagated<
        F: Fn(T, T, T) -> T,
        G: Fn(T, T) -> T,
        P: Fn(T) -> bool,
        R: Fn(T) -> T,
        M: Fn(T, T) -> T,
        E: Fn(T, T) -> T,
        D: Fn(T, T) -> T,
        L: Fn(T, T, T) -> T,
        A: Fn(T, usize) -> T,
        O: Fn(T) -> T,
        S: Fn(T, usize) -> T,
    >(
        &self,
        after: Self,
        input: Tensor<T>,
        labels: Seq<usize>,
        ops: LayerArithmetic<T, F, G, P, R>,
        loss_ops: LossArithmetic<M, E, D, L, A, O, S>,
    ) -> bool {
        let batch = input.dims()[0] as int;
        &&& after.first().weight_tensor() == self.first().weight_tensor()
        &&& after.first().bias_tensor() == self.first().bias_tensor()
        &&& after.second().weight_tensor() == self.second().weight_tensor()
        &&& after.second().bias_tensor() == self.second().bias_tensor()
        &&& after.first().cached_input() is Some
        &&& after.first().cached_input()->Some_0@ == input@
        &&& after.second().cached_input() is Some
        &&& after.second().cached_input()->Some_0@ == self.training_hidden(ops, input@, batch)
        &&& after.loss_state().cached_labels() == Some(labels)
        &&& after.loss_state().cached_probabilities() is Some
        &&& after.loss_state().cached_probabilities()->Some_0@ == self.training_probabilities(
            ops,
            loss_ops,
            input@,
            batch,
        )
        &&& after.first().weight_gradient_tensor()@ == self.first_weight_gradients(
            ops,
            loss_ops,
            input@,
            labels,
            batch,
        )
        &&& after.first().bias_gradient_tensor()@ == self.first_bias_gradients(
            ops,
            loss_ops,
            input@,
            labels,
            batch,
        )
        &&& after.second().weight_gradient_tensor()@ == self.second_weight_gradients(
            ops,
            loss_ops,
            input@,
            labels,
            batch,
        )
        &&& after.second().bias_gradient_tensor()@ == self.second_bias_gradients(
            ops,
            loss_ops,
            input@,
            labels,
            batch,
        )
    }

    /// The mean loss of the inference logits.
    pub open spec fn inference_loss<
        F: Fn(T, T, T) -> T,
        G: Fn(T, T) -> T,
        P: Fn(T) -> bool,
        R: Fn(T) -> T,
        M: Fn(T, T) -> T,
        E: Fn(T, T) -> T,
        D: Fn(T, T) -> T,
        L: Fn(T, T, T) -> T,
        A: Fn(T, usize) -> T,
        O: Fn(T) -> T,
        S: Fn(T, usize) -> T,
    >(
        &self,
        ops: LayerArithmetic<T, F, G, P, R>,
        loss_ops: LossArithmetic<M, E, D, L, A, O, S>,
        input: Seq<T>,
        labels: Seq<usize>,
        batch: int,
    ) -> T {
        apply2(
            loss_ops.average,
            loss_total(
                loss_ops.maximum,
                loss_ops.shifted_exp,
                ops.plus,
                loss_ops.row_loss,
                ops.zero,
                self.inference_logits(ops, input, batch),
                self.output_count() as int,
                labels,
                batch as nat,
            ),
            batch as usize,
        )
    }

    /// `after` and `after_state` are this network and `state` after an Adam
    /// training step on `input` (`batch` rows) and `labels`: both layers'
    /// step counts one higher, parameter shapes kept, and every parameter
    /// updated together with its moments by its layer's rule from the
    /// gradients of the training pass.
    pub open spec fn adam_stepped<
        F: Fn(T, T, T) -> T,
        G: Fn(T, T) -> T,
        P: Fn(T) -> bool,
        R: Fn(T) -> T,
        M: Fn(T, T) -> T,
        E: Fn(T, T) -> T,
        D: Fn(T, T) -> T,
        L: Fn(T, T, T) -> T,
        A: Fn(T, usize) -> T,
        O: Fn(T) -> T,
        S: Fn(T, usize) -> T,
        U1: Fn(T, T, T, T) -> (T, T, T),
        U2: Fn(T, T, T, T) -> (T, T, T),
    >(
        &self,
        after: Self,
        state: TwoLayerAdamState<T>,
        after_state: TwoLayerAdamState<T>,
        ops: LayerArithmetic<T, F, G, P, R>,
        loss_ops: LossArithmetic<M, E, D, L, A, O, S>,
        input: Seq<T>,
        labels: Seq<usize>,
        batch: int,
        first_update: U1,
        second_update: U2,
    ) -> bool {
        let first_weight_gradients = self.first_weight_gradients(ops, loss_ops, input, labels, batch);
        let first_bias_gradients = self.first_bias_gradients(ops, loss_ops, input, labels, batch);
        let second_weight_gradients = self.second_weight_gradients(ops, loss_ops, input, labels, batch);
        let second_bias_gradients = self.second_bias_gradients(ops, loss_ops, input, labels, batch);
        let first = self.first();
        let second = self.second();
        let first_state = state.first_state();
        let second_state = state.second_state();
        &&& forall|i: int|
            0 <= i < first.weight_tensor()@.len() ==> first_update.ensures(
                (
                    first.weight_tensor()@[i],
                    first_weight_gradients[i],
                    first_state.weight_first()@[i],
                    first_state.weight_second()@[i],
                ),
                (
                    #[trigger] after.first().weight_tensor()@[i],
                    after_state.first_state().weight_first()@[i],
                    after_state.first_state().weight_second()@[i],
                ),
            )
        &&& forall|i: int|
            0 <= i < first.bias_tensor()@.len() ==> first_update.ensures(
                (
                    first.bias_tensor()@[i],
                    first_bias_gradients[i],
                    first_state.bias_first()@[i],
                    first_state.bias_second()@[i],
                ),
                (
                    #[trigger] after.first().bias_tensor()@[i],
                    after_state.first_state().bias_first()@[i],
                    after_state.first_state().bias_second()@[i],
                ),
            )
        &&& forall|i: int|
            0 <= i < second.weight_tensor()@.len() ==> second_update.ensures(
                (
                    second.weight_tensor()@[i],
                    second_weight_gradients[i],
                    second_state.weight_first()@[i],
                    second_state.weight_second()@[i],
                ),
                (
                    #[trigger] after.second().weight_tensor()@[i],
                    after_state.second_state().weight_first()@[i],
                    after_state.second_state().weight_second()@[i],
                ),
            )
        &&& forall|i: int|
            0 <= i < second.bias_tensor()@.len() ==> second_update.ensures(
                (
                    second.bias_tensor()@[i],
                    second_bias_gradients[i],
                    second_state.bias_first()@[i],
                    second_state.bias_second()@[i],
                ),
                (
                    #[trigger] after.second().bias_tensor()@[i],
                    after_state.second_state().bias_first()@[i],
                    after_state.second_state().bias_second()@[i],
                ),
            )
        &&& after.wf()
        &&& after_state.wf()
        &&& after_state.matches(after)
        &&& after_state.first_state().steps() == state.first_state().steps() + 1
        &&& after_state.second_state().steps() == state.second_state().steps() + 1
        &&& after.first().weight_tensor().dims() == self.first().weight_tensor().dims()
        &&& after.first().bias_tensor().dims() == self.first().bias_tensor().dims()
        &&& after.second().weight_tensor().dims() == self.second().weight_tensor().dims()
        &&& after.second().bias_tensor().dims() == self.second().bias_tensor().dims()
    }

    /// `after` is this network after a training forward pass on `input`:
    /// parameters, gradients and loss as they were, both layers holding
    /// their inputs, and the activation holding where it let values through.
    pub open spec fn forwarded<F: Fn(T, T, T) -> T, G: Fn(T, T) -> T, P: Fn(T) -> bool, R: Fn(T) -> T>(
        &self,
        after: Self,
        input: Tensor<T>,
        ops: LayerArithmetic<T, F, G, P, R>,
    ) -> bool {
        let batch = input.dims()[0] as int;
        let hidden_linear = self.hidden_linear(ops, input@, batch);
        &&& after.first().weight_tensor() == self.first().weight_tensor()
        &&& after.first().bias_tensor() == self.first().bias_tensor()
        &&& after.second().weight_tensor() == self.second().weight_tensor()
        &&& after.second().bias_tensor() == self.second().bias_tensor()
        &&& after.first().weight_gradient_tensor() == self.first().weight_gradient_tensor()
        &&& after.first().bias_gradient_tensor() == self.first().bias_gradient_tensor()
        &&& after.second().weight_gradient_tensor() == self.second().weight_gradient_tensor()
        &&& after.second().bias_gradient_tensor() == self.second().bias_gradient_tensor()
        &&& after.loss_state() == self.loss_state()
        &&& after.first().cached_input() is Some
        &&& after.first().cached_input()->Some_0.dims() == input.dims()
        &&& after.first().cached_input()->Some_0@ == input@
        &&& after.second().cached_input() is Some
        &&& after.second().cached_input()->Some_0.dims() == seq![input.dims()[0], self.hidden_count()]
        &&& after.second().cached_input()->Some_0@ == self.training_hidden(ops, input@, batch)
        &&& after.activation().cached_dims() == seq![input.dims()[0], self.hidden_count()]
        &&& after.activation().mask().len() == hidden_linear.len()
        &&& forall|i: int|
            0 <= i < hidden_linear.len() ==> (#[trigger] after.activation().mask()[i] == 1) == apply1(
                ops.is_positive,
                hidden_linear[i],
            )
    }

    /// The model file of this network, each element stored as the word
    /// `to_word` gives for it.
    pub open spec fn model_file<W: Fn(T) -> u32>(&self, to_word: W) -> Seq<u8> {
        model_bytes(
            self.input_count(),
            self.hidden_count(),
            self.output_count(),
            converted(to_word, self.first().weight_tensor()@),
            converted(to_word, self.first().bias_tensor()@),
            converted(to_word, self.second().weight_tensor()@),
            converted(to_word, self.second().bias_tensor()@),
        )
    }

    /// This network has the layer sizes stored in the model file `bytes`
    /// and parameters that `from_word` gives for its stored words.
    pub open spec fn loaded_from<Q: Fn(u32) -> T>(&self, bytes: Seq<u8>, from_word: Q) -> bool {
        &&& self.first().weight_tensor().dims() == seq![stored_input_size(bytes), stored_hidden_size(bytes)]
        &&& self.second().weight_tensor().dims() == seq![stored_hidden_size(bytes), stored_output_size(bytes)]
        &&& self.first().weight_tensor()@ == converted(
            from_word,
            tensor_words(bytes, dense1_weights_offset(bytes)),
        )
        &&& self.first().bias_tensor()@ == converted(from_word, tensor_words(bytes, dense1_biases_offset(bytes)))
        &&& self.second().weight_tensor()@ == converted(
            from_word,
            tensor_words(bytes, dense2_weights_offset(bytes)),
        )
        &&& self.second().bias_tensor()@ == converted(
            from_word,
            tensor_words(bytes, dense2_biases_offset(bytes)),
        )
    }

    /// Every gradient of both layers is `zero`.
    pub open spec fn gradients_are(&self, zero: T) -> bool {
        &&& self.first().weight_gradient_tensor()@ == Seq::new(
            self.first().weight_tensor()@.len(),
            |i: int| zero,
        )
        &&& self.first().bias_gradient_tensor()@ == Seq::new(self.first().bias_tensor()@.len(), |i: int| zero)
        &&& self.second().weight_gradient_tensor()@ == Seq::new(
            self.second().weight_tensor()@.len(),
            |i: int| zero,
        )
        &&& self.second().bias_gradient_tensor()@ == Seq::new(
            self.second().bias_tensor()@.len(),
            |i: int| zero,
        )
    }

    /// One label per row of `input`, each naming one of the classes.
    pub open spec fn accepts_labels(&self, input: Tensor<T>, labels: Seq<usize>) -> bool {
        &&& labels.len() == input.dims()[0]
        &&& forall|row: int| 0 <= row < labels.len() ==> #[trigger] labels[row] < self.output_count()
    }

    /// A `batch` by `inputs` input that the network can take.
    pub open spec fn accepts(&self, input: Tensor<T>) -> bool {
        &&& input.wf()
        &&& input.dims().len() == 2
        &&& input.dims()[1] == self.input_count()
        &&& input.dims()[0] * self.hidden_count() <= usize::MAX
        &&& input.dims()[0] * self.output_count() <= usize::MAX
    }
}

impl<T: Copy> TwoLayerNetwork<T> {
    /// A network from its two dense layers, with a fresh activation and loss.
    pub fn from_layers(dense1: Dense<T>, dense2: Dense<T>) -> (network: TwoLayerNetwork<T>)
        requires
            dense1.wf(),
            dense2.wf(),
            dense2.input_count() == dense1.output_count(),
        ensures
            network.wf(),
            network.first() == dense1,
            network.second() == dense2,
            network.activation().cached_dims().len() == 0,
            network.loss_state().cached_probabilities() is None,
    {
        TwoLayerNetwork {
            dense1,
            relu: ReLU::new(),
            dense2,
            loss_function: SoftmaxCrossEntropy::new(),
        }
    }

    /// The parameters to save, each element stored as the word `to_word`
    /// gives for it.
    fn to_parameters<W: Fn(T) -> u32 + Copy>(&self, to_word: W) -> (parameters: ModelParameters)
        requires
            self.wf(),
            is_function1(to_word),
        ensures
            parameters.input_size == self.input_count(),
            parameters.hidden_size == self.hidden_count(),
            parameters.output_size == self.output_count(),
            parameters.dense1_weights@ == converted(to_word, self.first().weight_tensor()@),
            parameters.dense1_biases@ == converted(to_word, self.first().bias_tensor()@),
            parameters.dense2_weights@ == converted(to_word, self.second().weight_tensor()@),
            parameters.dense2_biases@ == converted(to_word, self.second().bias_tensor()@),
            model_bytes(
                parameters.input_size,
                parameters.hidden_size,
                parameters.output_size,
                parameters.dense1_weights@,
                parameters.dense1_biases@,
                parameters.dense2_weights@,
                parameters.dense2_biases@,
            ) == self.model_file(to_word),
    {
        ModelParameters {
            input_size: self.input_size(),
            hidden_size: self.hidden_size(),
            output_size: self.output_size(),
            dense1_weights: convert_all(self.dense1.weights().data(), to_word),
            dense1_biases: convert_all(self.dense1.biases().data(), to_word),
            dense2_weights: convert_all(self.dense2.weights().data(), to_word),
            dense2_biases: convert_all(self.dense2.biases().data(), to_word),
        }
    }

    /// A network from loaded parameters, each stored word turned into an
    /// element by `from_word`, with zero gradients and fresh caches.
    fn from_parameters<Q: Fn(u32) -> T + Copy>(
        parameters: &ModelParameters,
        zero: T,
        from_word: Q,
    ) -> (network: TwoLayerNetwork<T>)
        requires
            parameters_fit(
                parameters.input_size,
                parameters.hidden_size,
                parameters.output_size,
                parameters.dense1_weights@,
                parameters.dense1_biases@,
                parameters.dense2_weights@,
                parameters.dense2_biases@,
            ),
            is_function1(from_word),
        ensures
            network.wf(),
            network.first().weight_tensor().dims() == seq![parameters.input_size, parameters.hidden_size],
            network.first().bias_tensor().dims() == seq![parameters.hidden_size],
            network.second().weight_tensor().dims() == seq![parameters.hidden_size, parameters.output_size],
            network.second().bias_tensor().dims() == seq![parameters.output_size],
            network.first().weight_tensor()@ == converted(from_word, parameters.dense1_weights@),
            network.first().bias_tensor()@ == converted(from_word, parameters.dense1_biases@),
            network.second().weight_tensor()@ == converted(from_word, parameters.dense2_weights@),
            network.second().bias_tensor()@ == converted(from_word, parameters.dense2_biases@),
            network.first().cached_input() is None,
            network.second().cached_input() is None,
            network.activation().cached_dims().len() == 0,
            network.loss_state().cached_probabilities() is None,
            network.gradients_are(zero),
    {
        let first_shape: Vec<usize> = vec![parameters.input_size, parameters.hidden_size];
        let hidden_shape: Vec<usize> = vec![parameters.hidden_size];
        let second_shape: Vec<usize> = vec![parameters.hidden_size, parameters.output_size];
        let output_shape: Vec<usize> = vec![parameters.output_size];
        proof {
            lemma_matrix_product(first_shape@);
            lemma_matrix_product(second_shape@);
            lemma_vector_product(hidden_shape@);
            lemma_vector_product(output_shape@);
        }
        let dense1 = Dense::from_parameters(
            Tensor::from_vec(
                convert_all(parameters.dense1_weights.as_slice(), from_word),
                first_shape.as_slice(),
            ),
            Tensor::from_vec(
                convert_all(parameters.dense1_biases.as_slice(), from_word),
                hidden_shape.as_slice(),
            ),
            zero,
        );
        let dense2 = Dense::from_parameters(
            Tensor::from_vec(
                convert_all(parameters.dense2_weights.as_slice(), from_word),
                second_shape.as_slice(),
            ),
            Tensor::from_vec(
                convert_all(parameters.dense2_biases.as_slice(), from_word),
                output_shape.as_slice(),
            ),
            zero,
        );
        TwoLayerNetwork::from_layers(dense1, dense2)
    }

    /// The model file of this network, each element stored as the word
    /// `to_word` gives for it.
    pub fn encode<W: Fn(T) -> u32 + Copy>(&self, to_word: W) -> (bytes: Vec<u8>)
        requires
            self.wf(),
            is_function1(to_word),
        ensures
            bytes@ == self.model_file(to_word),
    {
        encode_model(&self.to_parameters(to_word))
    }

    /// The network stored in a model file, each stored word turned into an
    /// element by `from_word`, with zero gradients and fresh caches; or the
    /// first check that the file fails.
    pub fn decode<Q: Fn(u32) -> T + Copy>(bytes: &[u8], zero: T, from_word: Q) -> (network: Result<
        TwoLayerNetwork<T>,
        ModelError,
    >)
        requires
            is_function1(from_word),
        ensures
            match network {
                Err(error) => decode_error(bytes@) == Some(error),
                Ok(network) => {
                    &&& decode_error(bytes@) is None
                    &&& network.wf()
                    &&& network.loaded_from(bytes@, from_word)
                    &&& network.first().cached_input() is None
                    &&& network.second().cached_input() is None
                    &&& network.activation().cached_dims().len() == 0
                    &&& network.loss_state().cached_probabilities() is None
                    &&& network.gradients_are(zero)
                },
            },
    {
        match decode_model(bytes) {
            Err(error) => Err(error),
            Ok(parameters) => Ok(TwoLayerNetwork::from_parameters(&parameters, zero, from_word)),
        }
    }

    /// The logits for a batch, one example per row, without touching any
    /// cache: the first layer, `rectify` on each value, the second layer.
    pub fn logits<
        F: Fn(T, T, T) -> T + Copy,
        G: Fn(T, T) -> T + Copy,
        P: Fn(T) -> bool + Copy,
        R: Fn(T) -> T + Copy,
    >(&self, input: &Tensor<T>, ops: &LayerArithmetic<T, F, G, P, R>) -> (logits: Tensor<T>)
        requires
            self.wf(),
            self.accepts(*input),
            ops.total(),
        ensures
            logits.wf(),
            logits.dims() == seq![input.dims()[0], self.output_count()],
            logits@ == self.inference_logits(*ops, input@, input.dims()[0] as int),
    {
        let batch = input.shape()[0];
        let hidden_linear = self.dense1.forward_inference(input, ops.zero, ops.multiply_add, ops.plus);
        proof {
            lemma_dense_output(
                hidden_linear,
                ops.multiply_add,
                ops.plus,
                ops.zero,
                input@,
                self.first().weight_tensor()@,
                self.first().bias_tensor()@,
                batch as int,
                self.input_count() as int,
                self.hidden_count() as int,
            );
        }
        let hidden = self.relu.forward_inference(&hidden_linear, ops.rectify);
        proof {
            assert forall|i: int| 0 <= i < hidden@.len() implies #[trigger] hidden@[i] == apply1(
                ops.rectify,
                hidden_linear@[i],
            ) by {
                lemma_apply1(ops.rectify, hidden_linear@[i], hidden@[i]);
            }
            assert(hidden@ =~= converted(ops.rectify, hidden_linear@));
        }
        let logits = self.dense2.forward_inference(&hidden, ops.zero, ops.multiply_add, ops.plus);
        proof {
            lemma_dense_output(
                logits,
                ops.multiply_add,
                ops.plus,
                ops.zero,
                hidden@,
                self.second().weight_tensor()@,
                self.second().bias_tensor()@,
                batch as int,
                self.hidden_count() as int,
                self.output_count() as int,
            );
        }
        logits
    }

    /// The training forward pass: both layers keep their inputs and the
    /// activation keeps where it let values through.
    pub fn forward<
        F: Fn(T, T, T) -> T + Copy,
        G: Fn(T, T) -> T + Copy,
        P: Fn(T) -> bool + Copy,
        R: Fn(T) -> T + Copy,
    >(&mut self, input: &Tensor<T>, ops: &LayerArithmetic<T, F, G, P, R>) -> (output: Tensor<T>)
        requires
            old(self).wf(),
            old(self).accepts(*input),
            ops.total(),
        ensures
            final(self).wf(),
            old(self).forwarded(*final(self), *input, *ops),
            output.wf(),
            output.dims() == seq![input.dims()[0], old(self).output_count()],
            output@ == old(self).training_logits(*ops, input@, input.dims()[0] as int),
    {
        let batch = input.shape()[0];
        let hidden_linear = self.dense1.forward(input, ops.zero, ops.multiply_add, ops.plus);
        proof {
            lemma_dense_output(
                hidden_linear,
                ops.multiply_add,
                ops.plus,
                ops.zero,
                input@,
                old(self).first().weight_tensor()@,
                old(self).first().bias_tensor()@,
                batch as int,
                old(self).input_count() as int,
                old(self).hidden_count() as int,
            );
        }
        let hidden = self.relu.forward(&hidden_linear, ops.zero, ops.is_positive);
        proof {
            assert forall|i: int| 0 <= i < hidden_linear@.len() implies (#[trigger] self.relu.mask()[i]
                == 1) == apply1(ops.is_positive, hidden_linear@[i]) by {
                lemma_apply1(ops.is_positive, hidden_linear@[i], self.relu.mask()[i] == 1);
            }
            let expected = relu_values(ops.is_positive, ops.zero, hidden_linear@);
            assert forall|i: int| 0 <= i < hidden@.len() implies #[trigger] hidden@[i] == expected[i] by {
                assert(self.relu.mask()[i] == 1 <==> apply1(ops.is_positive, hidden_linear@[i]));
            }
            assert(hidden@ =~= expected);
        }
        let output = self.dense2.forward(&hidden, ops.zero, ops.multiply_add, ops.plus);
        proof {
            lemma_dense_output(
                output,
                ops.multiply_add,
                ops.plus,
                ops.zero,
                hidden@,
                old(self).second().weight_tensor()@,
                old(self).second().bias_tensor()@,
                batch as int,
                old(self).hidden_count() as int,
                old(self).output_count() as int,
            );
        }
        output
    }

    /// The mean loss of a batch under the inference logits; the loss keeps
    /// its probabilities and the labels, the layers are untouched.
    pub fn loss<
        F: Fn(T, T, T) -> T + Copy,
        G: Fn(T, T) -> T + Copy,
        P: Fn(T) -> bool + Copy,
        R: Fn(T) -> T + Copy,
        M: Fn(T, T) -> T + Copy,
        E: Fn(T, T) -> T + Copy,
        D: Fn(T, T) -> T + Copy,
        L: Fn(T, T, T) -> T + Copy,
        A: Fn(T, usize) -> T + Copy,
        O: Fn(T) -> T + Copy,
        S: Fn(T, usize) -> T + Copy,
    >(
        &mut self,
        input: &Tensor<T>,
        labels: &[usize],
        ops: &LayerArithmetic<T, F, G, P, R>,
        loss_ops: &LossArithmetic<M, E, D, L, A, O, S>,
    ) -> (loss: T)
        requires
            old(self).wf(),
            old(self).accepts(*input),
            old(self).accepts_labels(*input, labels@),
            ops.total(),
            loss_arithmetic_total(*loss_ops),
        ensures
            final(self).wf(),
            final(self).first() == old(self).first(),
            final(self).activation() == old(self).activation(),
            final(self).second() == old(self).second(),
            final(self).loss_state().cached_labels() == Some(labels@),
            loss == old(self).inference_loss(*ops, *loss_ops, input@, labels@, input.dims()[0] as int),
    {
        let logits = self.logits(input, ops);
        self.loss_function.forward(
            &logits,
            labels,
            ops.zero,
            loss_ops.maximum,
            loss_ops.shifted_exp,
            ops.plus,
            loss_ops.divide,
            loss_ops.row_loss,
            loss_ops.average,
        )
    }

    /// The mean loss of a batch under the inference logits and how many rows
    /// the network classifies as their label.
    pub fn evaluate_batch<
        F: Fn(T, T, T) -> T + Copy,
        G: Fn(T, T) -> T + Copy,
        P: Fn(T) -> bool + Copy,
        R: Fn(T) -> T + Copy,
        M: Fn(T, T) -> T + Copy,
        E: Fn(T, T) -> T + Copy,
        D: Fn(T, T) -> T + Copy,
        L: Fn(T, T, T) -> T + Copy,
        A: Fn(T, usize) -> T + Copy,
        O: Fn(T) -> T + Copy,
        S: Fn(T, usize) -> T + Copy,
        C: Fn(T, T) -> bool,
    >(
        &mut self,
        input: &Tensor<T>,
        labels: &[usize],
        ops: &LayerArithmetic<T, F, G, P, R>,
        loss_ops: &LossArithmetic<M, E, D, L, A, O, S>,
        greater: C,
    ) -> (result: (T, usize))
        requires
            old(self).wf(),
            old(self).accepts(*input),
            old(self).accepts_labels(*input, labels@),
            ops.total(),
            loss_arithmetic_total(*loss_ops),
            is_function2(greater),
        ensures
            final(self).wf(),
            final(self).first() == old(self).first(),
            final(self).activation() == old(self).activation(),
            final(self).second() == old(self).second(),
            final(self).loss_state().cached_labels() == Some(labels@),
            result.0 == old(self).inference_loss(
                *ops,
                *loss_ops,
                input@,
                labels@,
                input.dims()[0] as int,
            ),
            result.1 == matches_in(
                row_predictions(
                    greater,
                    old(self).inference_logits(*ops, input@, input.dims()[0] as int),
                    input.dims()[0] as int,
                    old(self).output_count() as int,
                ),
                labels@,
                input.dims()[0] as int,
            ),
    {
        let logits = self.logits(input, ops);
        let loss = self.loss_function.forward(
            &logits,
            labels,
            ops.zero,
            loss_ops.maximum,
            loss_ops.shifted_exp,
            ops.plus,
            loss_ops.divide,
            loss_ops.row_loss,
            loss_ops.average,
        );
        let predictions = logits.argmax_rows(greater);
        proof {
            assert(predictions@ =~= row_predictions(
                greater,
                logits@,
                input.dims()[0] as int,
                old(self).output_count() as int,
            ));
        }
        let correct = count_correct(predictions.as_slice(), labels);
        (loss, correct)
    }

    /// The predicted class of each row under the inference logits.
    pub fn predict<
        F: Fn(T, T, T) -> T + Copy,
        G: Fn(T, T) -> T + Copy,
        P: Fn(T) -> bool + Copy,
        R: Fn(T) -> T + Copy,
        C: Fn(T, T) -> bool,
    >(&self, input: &Tensor<T>, ops: &LayerArithmetic<T, F, G, P, R>, greater: C) -> (predictions: Vec<
        usize,
    >)
        requires
            self.wf(),
            self.accepts(*input),
            ops.total(),
            is_function2(greater),
        ensures
            predictions@ == row_predictions(
                greater,
                self.inference_logits(*ops, input@, input.dims()[0] as int),
                input.dims()[0] as int,
                self.output_count() as int,
            ),
    {
        let logits = self.logits(input, ops);
        let predictions = logits.argmax_rows(greater);
        proof {
            assert(predictions@ =~= row_predictions(
                greater,
                logits@,
                input.dims()[0] as int,
                self.output_count() as int,
            ));
        }
        predictions
    }

    /// Fresh Adam state for both layers, its moments `zero`.
    pub fn adam_state(&self, zero: T) -> (state: TwoLayerAdamState<T>)
        requires
            self.wf(),
        ensures
            state.wf(),
            state.matches(*self),
            state.first_state().steps() == 0,
            state.second_state().steps() == 0,
    {
        TwoLayerAdamState {
            dense1: AdamState::for_dense(&self.dense1, zero),
            dense2: AdamState::for_dense(&self.dense2, zero),
        }
    }

    /// Sets the gradients of both layers to `zero`.
    pub fn zero_grad(&mut self, zero: T)
        requires
            old(self).wf(),
        ensures
            final(self).wf(),
            final(self).first().weight_tensor() == old(self).first().weight_tensor(),
            final(self).first().bias_tensor() == old(self).first().bias_tensor(),
            final(self).second().weight_tensor() == old(self).second().weight_tensor(),
            final(self).second().bias_tensor() == old(self).second().bias_tensor(),
            final(self).first().weight_gradient_tensor()@ == Seq::new(
                old(self).first().weight_tensor()@.len(),
                |i: int| zero,
            ),
            final(self).first().bias_gradient_tensor()@ == Seq::new(
                old(self).first().bias_tensor()@.len(),
                |i: int| zero,
            ),
            final(self).second().weight_gradient_tensor()@ == Seq::new(
                old(self).second().weight_tensor()@.len(),
                |i: int| zero,
            ),
            final(self).second().bias_gradient_tensor()@ == Seq::new(
                old(self).second().bias_tensor()@.len(),
                |i: int| zero,
            ),
    {
        self.dense1.zero_grad(zero);
        self.dense2.zero_grad(zero);
    }

    /// The number of inputs.
    pub fn input_size(&self) -> (size: usize)
        requires
            self.wf(),
        ensures
            size == self.input_count(),
    {
        self.dense1.input_size()
    }

    /// The number of hidden units.
    pub fn hidden_size(&self) -> (size: usize)
        requires
            self.wf(),
        ensures
            size == self.hidden_count(),
    {
        self.dense1.output_size()
    }

    /// The number of classes.
    pub fn output_size(&self) -> (size: usize)
        requires
            self.wf(),
        ensures
            size == self.output_count(),
    {
        self.dense2.output_size()
    }

    /// The first dense layer.
    pub fn dense1(&self) -> (layer: &Dense<T>)
        ensures
            *layer == self.first(),
    {
        &self.dense1
    }

    /// The second dense layer.
    pub fn dense2(&self) -> (layer: &Dense<T>)
        ensures
            *layer == self.second(),
    {
        &self.dense2
    }

    /// The first dense layer, for writing.
    pub fn dense1_mut(&mut self) -> (layer: &mut Dense<T>)
        ensures
            *layer == old(self).first(),
            final(self).first() == *final(layer),
            final(self).activation() == old(self).activation(),
            final(self).second() == old(self).second(),
            final(self).loss_state() == old(self).loss_state(),
    {
        &mut self.dense1
    }

    /// The second dense layer, for writing.
    pub fn dense2_mut(&mut self) -> (layer: &mut Dense<T>)
        ensures
            *layer == old(self).second(),
            final(self).second() == *final(layer),
            final(self).activation() == old(self).activation(),
            final(self).first() == old(self).first(),
            final(self).loss_state() == old(self).loss_state(),
    {
        &mut self.dense2
    }

    /// A training pass without the optimiser step: forward, loss and
    /// backward, leaving the gradients in both layers. Returns the mean
    /// loss.
    fn forward_and_backward<
        F: Fn(T, T, T) -> T + Copy,
        G: Fn(T, T) -> T + Copy,
        P: Fn(T) -> bool + Copy,
        R: Fn(T) -> T + Copy,
        M: Fn(T, T) -> T + Copy,
        E: Fn(T, T) -> T + Copy,
        D: Fn(T, T) -> T + Copy,
        L: Fn(T, T, T) -> T + Copy,
        A: Fn(T, usize) -> T + Copy,
        O: Fn(T) -> T + Copy,
        S: Fn(T, usize) -> T + Copy,
    >(
        &mut self,
        input: &Tensor<T>,
        labels: &[usize],
        ops: &LayerArithmetic<T, F, G, P, R>,
        loss_ops: &LossArithmetic<M, E, D, L, A, O, S>,
    ) -> (loss: T)
        requires
            old(self).wf(),
            old(self).accepts(*input),
            old(self).accepts_labels(*input, labels@),
            ops.total(),
            loss_arithmetic_total(*loss_ops),
        ensures
            final(self).wf(),
            old(self).backpropagated(*final(self), *input, labels@, *ops, *loss_ops),
            loss == old(self).training_loss(*ops, *loss_ops, input@, labels@, input.dims()[0] as int),
    {
        let batch = input.shape()[0];
        let ghost inputs = old(self).input_count() as int;
        let ghost hidden = old(self).hidden_count() as int;
        let ghost classes = old(self).output_count() as int;
        let ghost hidden_values = old(self).training_hidden(*ops, input@, batch as int);
        let logits = self.forward(input, ops);
        let loss = self.loss_function.forward(
            &logits,
            labels,
            ops.zero,
            loss_ops.maximum,
            loss_ops.shifted_exp,
            ops.plus,
            loss_ops.divide,
            loss_ops.row_loss,
            loss_ops.average,
        );
        let ghost probabilities = self.loss_function.cached_probabilities()->Some_0@;
        proof {
            let matrix = self.loss_function.cached_probabilities()->Some_0;
            lemma_matrix_product(matrix.dims());
            let cell = softmax_cell(
                loss_ops.maximum,
                loss_ops.shifted_exp,
                ops.plus,
                loss_ops.divide,
                ops.zero,
                logits@,
                classes,
            );
            assert forall|row: int, column: int|
                0 <= row < batch && 0 <= column < classes implies #[trigger] probabilities[row
                * classes + column] == cell(row, column) by {
                assert(matrix.at2(row, column) == probabilities[row * classes + column]);
            }
            lemma_matrix_of(
                probabilities,
                batch as int,
                classes,
                softmax_cell(
                    loss_ops.maximum,
                    loss_ops.shifted_exp,
                    ops.plus,
                    loss_ops.divide,
                    ops.zero,
                    logits@,
                    classes,
                ),
            );
        }
        let logit_gradients = self.loss_function.backward(loss_ops.minus_one, loss_ops.scale);
        proof {
            lemma_matrix_product(logit_gradients.dims());
            let cell = gradient_cell(
                loss_ops.minus_one,
                loss_ops.scale,
                probabilities,
                labels@,
                classes,
                batch,
            );
            assert forall|row: int, column: int|
                0 <= row < batch && 0 <= column < classes implies #[trigger] logit_gradients@[row
                * classes + column] == cell(row, column) by {
                assert(logit_gradients.at2(row, column) == logit_gradients@[row * classes + column]);
            }
            lemma_matrix_of(
                logit_gradients@,
                batch as int,
                classes,
                gradient_cell(
                    loss_ops.minus_one,
                    loss_ops.scale,
                    probabilities,
                    labels@,
                    classes,
                    batch,
                ),
            );
        }
        let hidden_gradients = self.dense2.backward(&logit_gradients, ops.zero, ops.multiply_add, ops.plus);
        proof {
            lemma_product_output(
                hidden_gradients,
                ops.multiply_add,
                ops.zero,
                logit_gradients@,
                transpose_values(old(self).second().weight_tensor()@, hidden, classes),
                batch as int,
                classes,
                hidden,
            );
            lemma_product_output(
                self.dense2.weight_gradient_tensor(),
                ops.multiply_add,
                ops.zero,
                transpose_values(hidden_values, batch as int, hidden),
                logit_gradients@,
                hidden,
                batch as int,
                classes,
            );
            lemma_column_sums_output(
                self.dense2.bias_gradient_tensor(),
                ops.plus,
                ops.zero,
                logit_gradients@,
                batch as int,
                classes,
            );
        }
        let linear_gradients = self.relu.backward(&hidden_gradients, ops.zero);
        proof {
            let expected = old(self).hidden_linear_gradients(*ops, *loss_ops, input@, labels@, batch as int);
            let linear = old(self).hidden_linear(*ops, input@, batch as int);
            assert forall|i: int| 0 <= i < linear_gradients@.len() implies #[trigger] linear_gradients@[i]
                == expected[i] by {
                assert(self.relu.mask()[i] == 1 <==> apply1(ops.is_positive, linear[i]));
            }
            assert(linear_gradients@ =~= expected);
        }
        self.dense1.backward(&linear_gradients, ops.zero, ops.multiply_add, ops.plus);
        proof {
            lemma_product_output(
                self.dense1.weight_gradient_tensor(),
                ops.multiply_add,
                ops.zero,
                transpose_values(input@, batch as int, inputs),
                linear_gradients@,
                inputs,
                batch as int,
                hidden,
            );
            lemma_column_sums_output(
                self.dense1.bias_gradient_tensor(),
                ops.plus,
                ops.zero,
                linear_gradients@,
                batch as int,
                hidden,
            );
        }
        loss
    }

    /// A training step with plain gradient descent: the training pass,
    /// then every parameter of both layers becomes `update(parameter,
    /// gradient)`. Returns the mean loss.
    pub fn train_batch<
        F: Fn(T, T, T) -> T + Copy,
        G: Fn(T, T) -> T + Copy,
        P: Fn(T) -> bool + Copy,
        R: Fn(T) -> T + Copy,
        M: Fn(T, T) -> T + Copy,
        E: Fn(T, T) -> T + Copy,
        D: Fn(T, T) -> T + Copy,
        L: Fn(T, T, T) -> T + Copy,
        A: Fn(T, usize) -> T + Copy,
        O: Fn(T) -> T + Copy,
        S: Fn(T, usize) -> T + Copy,
        U: Fn(T, T) -> T + Copy,
    >(
        &mut self,
        input: &Tensor<T>,
        labels: &[usize],
        ops: &LayerArithmetic<T, F, G, P, R>,
        loss_ops: &LossArithmetic<M, E, D, L, A, O, S>,
        update: U,
    ) -> (loss: T)
        requires
            old(self).wf(),
            old(self).accepts(*input),
            old(self).accepts_labels(*input, labels@),
            ops.total(),
            loss_arithmetic_total(*loss_ops),
            is_function2(update),
        ensures
            final(self).wf(),
            ({
                let batch = input.dims()[0] as int;
                &&& loss == old(self).training_loss(*ops, *loss_ops, input@, labels@, batch)
                &&& final(self).first().weight_tensor().dims() == old(self).first().weight_tensor().dims()
                &&& final(self).first().bias_tensor().dims() == old(self).first().bias_tensor().dims()
                &&& final(self).second().weight_tensor().dims() == old(self).second().weight_tensor().dims()
                &&& final(self).second().bias_tensor().dims() == old(self).second().bias_tensor().dims()
                &&& final(self).first().weight_tensor()@ == updated_values(
                    update,
                    old(self).first().weight_tensor()@,
                    old(self).first_weight_gradients(*ops, *loss_ops, input@, labels@, batch),
                )
                &&& final(self).first().bias_tensor()@ == updated_values(
                    update,
                    old(self).first().bias_tensor()@,
                    old(self).first_bias_gradients(*ops, *loss_ops, input@, labels@, batch),
                )
                &&& final(self).second().weight_tensor()@ == updated_values(
                    update,
                    old(self).second().weight_tensor()@,
                    old(self).second_weight_gradients(*ops, *loss_ops, input@, labels@, batch),
                )
                &&& final(self).second().bias_tensor()@ == updated_values(
                    update,
                    old(self).second().bias_tensor()@,
                    old(self).second_bias_gradients(*ops, *loss_ops, input@, labels@, batch),
                )
            }),
    {
        let loss = self.forward_and_backward(input, labels, ops, loss_ops);
        let ghost trained = *self;
        self.dense1.apply_sgd(update);
        self.dense2.apply_sgd(update);
        proof {
            lemma_updated(update, trained.first().weight_tensor()@, trained.first().weight_gradient_tensor()@, self.dense1.weight_tensor()@);
            lemma_updated(update, trained.first().bias_tensor()@, trained.first().bias_gradient_tensor()@, self.dense1.bias_tensor()@);
            lemma_updated(update, trained.second().weight_tensor()@, trained.second().weight_gradient_tensor()@, self.dense2.weight_tensor()@);
            lemma_updated(update, trained.second().bias_tensor()@, trained.second().bias_gradient_tensor()@, self.dense2.bias_tensor()@);
        }
        loss
    }

    /// A training step with Adam: the training pass, then each layer's
    /// state counts one more step and every parameter of the layer is
    /// updated together with its two moments by that layer's rule
    /// (`first_update` or `second_update`, built by the caller for the new
    /// step count). Returns the mean loss.
    pub fn train_batch_adam<
        F: Fn(T, T, T) -> T + Copy,
        G: Fn(T, T) -> T + Copy,
        P: Fn(T) -> bool + Copy,
        R: Fn(T) -> T + Copy,
        M: Fn(T, T) -> T + Copy,
        E: Fn(T, T) -> T + Copy,
        D: Fn(T, T) -> T + Copy,
        L: Fn(T, T, T) -> T + Copy,
        A: Fn(T, usize) -> T + Copy,
        O: Fn(T) -> T + Copy,
        S: Fn(T, usize) -> T + Copy,
        U1: Fn(T, T, T, T) -> (T, T, T) + Copy,
        U2: Fn(T, T, T, T) -> (T, T, T) + Copy,
    >(
        &mut self,
        input: &Tensor<T>,
        labels: &[usize],
        ops: &LayerArithmetic<T, F, G, P, R>,
        loss_ops: &LossArithmetic<M, E, D, L, A, O, S>,
        state: &mut TwoLayerAdamState<T>,
        first_update: U1,
        second_update: U2,
    ) -> (loss: T)
        requires
            old(self).wf(),
            old(self).accepts(*input),
            old(self).accepts_labels(*input, labels@),
            ops.total(),
            loss_arithmetic_total(*loss_ops),
            old(state).wf(),
            old(state).matches(*old(self)),
            old(state).first_state().steps() < u64::MAX,
            old(state).second_state().steps() < u64::MAX,
            forall|p: T, g: T, m: T, v: T| #[trigger] first_update.requires((p, g, m, v)),
            forall|p: T, g: T, m: T, v: T| #[trigger] second_update.requires((p, g, m, v)),
        ensures
            old(self).adam_stepped(
                *final(self),
                *old(state),
                *final(state),
                *ops,
                *loss_ops,
                input@,
                labels@,
                input.dims()[0] as int,
                first_update,
                second_update,
            ),
            loss == old(self).training_loss(*ops, *loss_ops, input@, labels@, input.dims()[0] as int),
    {
        let loss = self.forward_and_backward(input, labels, ops, loss_ops);
        state.dense1.advance();
        state.dense1.update_dense(&mut self.dense1, first_update);
        state.dense2.advance();
        state.dense2.update_dense(&mut self.dense2, second_update);
        loss
    }
}

/// Inference depends on the parameters alone: two networks with the same
/// weights and biases give the same logits, and so the same predictions,
/// for every input, whatever their caches and gradients hold (a network
/// rebuilt from saved parameters predicts as the one that was saved).
pub proof fn lemma_logits_follow_parameters<
    T,
    F: Fn(T, T, T) -> T,
    G: Fn(T, T) -> T,
    P: Fn(T) -> bool,
    R: Fn(T) -> T,
    C: Fn(T, T) -> bool,
>(
    first: TwoLayerNetwork<T>,
    second: TwoLayerNetwork<T>,
    ops: LayerArithmetic<T, F, G, P, R>,
    greater: C,
    input: Seq<T>,
    batch: int,
)
    requires
        first.first().weight_tensor() == second.first().weight_tensor(),
        first.first().bias_tensor() == second.first().bias_tensor(),
        first.second().weight_tensor() == second.second().weight_tensor(),
        first.second().bias_tensor() == second.second().bias_tensor(),
    ensures
        first.inference_logits(ops, input, batch) == second.inference_logits(ops, input, batch),
        row_predictions(
            greater,
            first.inference_logits(ops, input, batch),
            batch,
            first.output_count() as int,
        ) == row_predictions(
            greater,
            second.inference_logits(ops, input, batch),
            batch,
            second.output_count() as int,
        ),
{
}

/// Saving and loading gives back the network: the model file of a network,
/// with each element stored as the word `to_word` gives and followed by any
/// bytes at all, reads without error, and any network loaded from it with a
/// `from_word` that undoes `to_word` has the saved layer sizes and
/// parameters, and so gives the same logits for every input.
pub proof fn lemma_saved_model_predicts_the_same<
    T,
    F: Fn(T, T, T) -> T,
    G: Fn(T, T) -> T,
    P: Fn(T) -> bool,
    R: Fn(T) -> T,
    W: Fn(T) -> u32,
    Q: Fn(u32) -> T,
>(
    network: TwoLayerNetwork<T>,
    loaded: TwoLayerNetwork<T>,
    ops: LayerArithmetic<T, F, G, P, R>,
    to_word: W,
    from_word: Q,
    extra: Seq<u8>,
    input: Seq<T>,
    batch: int,
)
    requires
        network.wf(),
        forall|value: T| #[trigger] apply1(from_word, apply1(to_word, value)) == value,
        loaded.loaded_from(network.model_file(to_word) + extra, from_word),
    ensures
        decode_error(network.model_file(to_word) + extra) is None,
        loaded.input_count() == network.input_count(),
        loaded.hidden_count() == network.hidden_count(),
        loaded.output_count() == network.output_count(),
        loaded.first().weight_tensor()@ == network.first().weight_tensor()@,
        loaded.first().bias_tensor()@ == network.first().bias_tensor()@,
        loaded.second().weight_tensor()@ == network.second().weight_tensor()@,
        loaded.second().bias_tensor()@ == network.second().bias_tensor()@,
        loaded.inference_logits(ops, input, batch) == network.inference_logits(ops, input, batch),
{
    let first_weights = network.first().weight_tensor();
    let first_biases = network.first().bias_tensor();
    let second_weights = network.second().weight_tensor();
    let second_biases = network.second().bias_tensor();
    lemma_matrix_product(first_weights.dims());
    lemma_matrix_product(second_weights.dims());
    lemma_vector_product(first_biases.dims());
    lemma_vector_product(second_biases.dims());
    lemma_decode_encode(
        network.input_count(),
        network.hidden_count(),
        network.output_count(),
        converted(to_word, first_weights@),
        converted(to_word, first_biases@),
        converted(to_word, second_weights@),
        converted(to_word, second_biases@),
    );
    lemma_decode_ignores_trailing_bytes(network.model_file(to_word), extra);
    assert(converted(from_word, converted(to_word, first_weights@)) =~= first_weights@);
    assert(converted(from_word, converted(to_word, first_biases@)) =~= first_biases@);
    assert(converted(from_word, converted(to_word, second_weights@)) =~= second_weights@);
    assert(converted(from_word, converted(to_word, second_biases@)) =~= second_biases@);
}

/// A product fold reads only its own row of the left matrix.
proof fn lemma_dot_fold_row<T, F: Fn(T, T, T) -> T>(
    multiply_add: F,
    zero: T,
    left: Seq<T>,
    row_values: Seq<T>,
    right: Seq<T>,
    inner: int,
    columns: int,
    row: int,
    column: int,
    count: nat,
)
    requires
        count <= inner,
        forall|k: int| 0 <= k < count ==> #[trigger] row_values[k] == left[row * inner + k],
    ensures
        dot_fold(multiply_add, zero, row_values, right, inner, columns, 0, column, count) == dot_fold(
            multiply_add,
            zero,
            left,
            right,
            inner,
            columns,
            row,
            column,
            count,
        ),
    decreases count,
{
    if count > 0 {
        lemma_dot_fold_row(
            multiply_add,
            zero,
            left,
            row_values,
            right,
            inner,
            columns,
            row,
            column,
            (count - 1) as nat,
        );
        assert(row_values[count - 1] == left[row * inner + (count - 1)]);
    }
}

/// Row `row` of a dense layer's output on a batch is its output on that
/// row alone.
proof fn lemma_dense_row<T, F: Fn(T, T, T) -> T, G: Fn(T, T) -> T>(
    multiply_add: F,
    plus: G,
    zero: T,
    input: Seq<T>,
    row_values: Seq<T>,
    weights: Seq<T>,
    biases: Seq<T>,
    batch: int,
    inputs: int,
    outputs: int,
    row: int,
)
    requires
        0 <= row < batch,
        inputs >= 0,
        outputs > 0,
        forall|k: int| 0 <= k < inputs ==> #[trigger] row_values[k] == input[row * inputs + k],
    ensures
        forall|column: int|
            0 <= column < outputs ==> #[trigger] dense_values(
                multiply_add,
                plus,
                zero,
                row_values,
                weights,
                biases,
                1,
                inputs,
                outputs,
            )[column] == dense_values(
                multiply_add,
                plus,
                zero,
                input,
                weights,
                biases,
                batch,
                inputs,
                outputs,
            )[row * outputs + column],
{
    assert forall|column: int| 0 <= column < outputs implies #[trigger] dense_values(
        multiply_add,
        plus,
        zero,
        row_values,
        weights,
        biases,
        1,
        inputs,
        outputs,
    )[column] == dense_values(
        multiply_add,
        plus,
        zero,
        input,
        weights,
        biases,
        batch,
        inputs,
        outputs,
    )[row * outputs + column] by {
        let alone = dense_cell(multiply_add, plus, zero, row_values, weights, biases, inputs, outputs);
        let within = dense_cell(multiply_add, plus, zero, input, weights, biases, inputs, outputs);
        lemma_matrix_of_cell(1, outputs, alone, 0, column);
        lemma_matrix_of_cell(batch, outputs, within, row, column);
        lemma_dot_fold_row(
            multiply_add,
            zero,
            input,
            row_values,
            weights,
            inputs,
            outputs,
            row,
            column,
            inputs as nat,
        );
    }
}

/// The loss that `loss` and `evaluate_batch` report is the loss layer's
/// mean loss (as `SoftmaxCrossEntropy::forward` computes it) of the very
/// logits that `logits` and `predict` compute for the same input.
pub proof fn lemma_loss_of_inference_logits<
    T,
    F: Fn(T, T, T) -> T,
    G: Fn(T, T) -> T,
    P: Fn(T) -> bool,
    R: Fn(T) -> T,
    M: Fn(T, T) -> T,
    E: Fn(T, T) -> T,
    D: Fn(T, T) -> T,
    L: Fn(T, T, T) -> T,
    A: Fn(T, usize) -> T,
    O: Fn(T) -> T,
    S: Fn(T, usize) -> T,
>(
    network: TwoLayerNetwork<T>,
    ops: LayerArithmetic<T, F, G, P, R>,
    loss_ops: LossArithmetic<M, E, D, L, A, O, S>,
    input: Seq<T>,
    labels: Seq<usize>,
    batch: int,
)
    ensures
        network.inference_loss(ops, loss_ops, input, labels, batch) == apply2(
            loss_ops.average,
            loss_total(
                loss_ops.maximum,
                loss_ops.shifted_exp,
                ops.plus,
                loss_ops.row_loss,
                ops.zero,
                network.inference_logits(ops, input, batch),
                network.output_count() as int,
                labels,
                batch as nat,
            ),
            batch as usize,
        ),
{
}

/// The loss sees the first layer's output only after `rectify`: two inputs
/// whose first-layer values agree once rectified get the same logits and the
/// same loss, however their values differ where `rectify` cuts them off.
pub proof fn lemma_loss_sees_rectified_hidden<
    T,
    F: Fn(T, T, T) -> T,
    G: Fn(T, T) -> T,
    P: Fn(T) -> bool,
    R: Fn(T) -> T,
    M: Fn(T, T) -> T,
    E: Fn(T, T) -> T,
    D: Fn(T, T) -> T,
    L: Fn(T, T, T) -> T,
    A: Fn(T, usize) -> T,
    O: Fn(T) -> T,
    S: Fn(T, usize) -> T,
>(
    network: TwoLayerNetwork<T>,
    ops: LayerArithmetic<T, F, G, P, R>,
    loss_ops: LossArithmetic<M, E, D, L, A, O, S>,
    input: Seq<T>,
    other: Seq<T>,
    labels: Seq<usize>,
    batch: int,
)
    requires
        converted(ops.rectify, network.hidden_linear(ops, input, batch)) == converted(
            ops.rectify,
            network.hidden_linear(ops, other, batch),
        ),
    ensures
        network.inference_logits(ops, input, batch) == network.inference_logits(ops, other, batch),
        network.inference_loss(ops, loss_ops, input, labels, batch) == network.inference_loss(
            ops,
            loss_ops,
            other,
            labels,
            batch,
        ),
{
    lemma_loss_of_inference_logits(network, ops, loss_ops, input, labels, batch);
    lemma_loss_of_inference_logits(network, ops, loss_ops, other, labels, batch);
}

/// A row of a batch gets the logits it gets on its own: logit `column` of
/// row `row` of the batch is logit `column` of that row given alone.
pub proof fn lemma_row_logits<T, F: Fn(T, T, T) -> T, G: Fn(T, T) -> T, P: Fn(T) -> bool, R: Fn(T) -> T>(
    network: TwoLayerNetwork<T>,
    ops: LayerArithmetic<T, F, G, P, R>,
    input: Seq<T>,
    batch: int,
    row: int,
)
    requires
        network.wf(),
        0 <= row < batch,
        input.len() == batch * network.input_count(),
    ensures
        ({
            let inputs = network.input_count() as int;
            let classes = network.output_count() as int;
            let alone = input.subrange(row * inputs, row * inputs + inputs);
            forall|column: int|
                0 <= column < classes ==> #[trigger] network.inference_logits(ops, alone, 1)[column]
                    == network.inference_logits(ops, input, batch)[row * classes + column]
        }),
{
    let inputs = network.input_count() as int;
    let hidden = network.hidden_count() as int;
    let classes = network.output_count() as int;
    lemma_matrix_product(network.first().weight_tensor().dims());
    lemma_matrix_product(network.second().weight_tensor().dims());
    lemma_matrix_position(batch, inputs, row, inputs - 1);
    let alone = input.subrange(row * inputs, row * inputs + inputs);
    let linear = network.hidden_linear(ops, input, batch);
    let linear_alone = network.hidden_linear(ops, alone, 1);
    lemma_dense_row(
        ops.multiply_add,
        ops.plus,
        ops.zero,
        input,
        alone,
        network.first().weight_tensor()@,
        network.first().bias_tensor()@,
        batch,
        inputs,
        hidden,
        row,
    );
    let activated = converted(ops.rectify, linear);
    let activated_alone = converted(ops.rectify, linear_alone);
    assert forall|unit: int| 0 <= unit < hidden implies #[trigger] activated_alone[unit]
        == activated[row * hidden + unit] by {
        lemma_matrix_position(batch, hidden, row, unit);
        lemma_matrix_of_cell(
            1,
            hidden,
            dense_cell(
                ops.multiply_add,
                ops.plus,
                ops.zero,
                alone,
                network.first().weight_tensor()@,
                network.first().bias_tensor()@,
                inputs,
                hidden,
            ),
            0,
            unit,
        );
        lemma_matrix_of_cell(
            batch,
            hidden,
            dense_cell(
                ops.multiply_add,
                ops.plus,
                ops.zero,
                input,
                network.first().weight_tensor()@,
                network.first().bias_tensor()@,
                inputs,
                hidden,
            ),
            row,
            unit,
        );
        assert(linear_alone[unit] == linear[row * hidden + unit]);
    }
    lemma_dense_row(
        ops.multiply_add,
        ops.plus,
        ops.zero,
        activated,
        activated_alone,
        network.second().weight_tensor()@,
        network.second().bias_tensor()@,
        batch,
        hidden,
        classes,
        row,
    );
}

/// The scan for the largest value reads only the values it scans.
proof fn lemma_scan_argmax_shift<T, C: Fn(T, T) -> bool>(
    greater: C,
    first: Seq<T>,
    first_start: int,
    second: Seq<T>,
    second_start: int,
    count: nat,
)
    requires
        forall|j: int| 0 <= j < count ==> #[trigger] first[first_start + j] == second[second_start + j],
    ensures
        scan_argmax(greater, first, first_start, count) == scan_argmax(greater, second, second_start, count),
    decreases count,
{
    if count > 1 {
        lemma_scan_argmax_shift(greater, first, first_start, second, second_start, (count - 1) as nat);
        lemma_scan_argmax_in_range(greater, first, first_start, (count - 1) as nat);
        let best = scan_argmax(greater, first, first_start, (count - 1) as nat);
        assert(first[first_start + best] == second[second_start + best]);
        assert(first[first_start + (count - 1)] == second[second_start + (count - 1)]);
    }
}

/// A row of a batch is predicted as it is predicted on its own.
pub proof fn lemma_row_prediction<
    T,
    F: Fn(T, T, T) -> T,
    G: Fn(T, T) -> T,
    P: Fn(T) -> bool,
    R: Fn(T) -> T,
    C: Fn(T, T) -> bool,
>(
    network: TwoLayerNetwork<T>,
    ops: LayerArithmetic<T, F, G, P, R>,
    greater: C,
    input: Seq<T>,
    batch: int,
    row: int,
)
    requires
        network.wf(),
        0 <= row < batch,
        input.len() == batch * network.input_count(),
    ensures
        ({
            let inputs = network.input_count() as int;
            let classes = network.output_count() as int;
            let alone = input.subrange(row * inputs, row * inputs + inputs);
            row_predictions(greater, network.inference_logits(ops, input, batch), batch, classes)[row]
                == row_predictions(greater, network.inference_logits(ops, alone, 1), 1, classes)[0]
        }),
{
    let inputs = network.input_count() as int;
    let classes = network.output_count() as int;
    let alone = input.subrange(row * inputs, row * inputs + inputs);
    lemma_row_logits(network, ops, input, batch, row);
    let together = network.inference_logits(ops, input, batch);
    let by_itself = network.inference_logits(ops, alone, 1);
    assert forall|j: int| 0 <= j < classes implies #[trigger] by_itself[0 * classes + j] == together[row
        * classes + j] by {
        assert(by_itself[j] == together[row * classes + j]);
    }
    lemma_scan_argmax_shift(greater, by_itself, 0 * classes, together, row * classes, classes as nat);
}

/// Parameters replaced one by one by `update` of them and their gradients
/// are `updated_values`.
proof fn lemma_updated<T, U: Fn(T, T) -> T>(update: U, parameters: Seq<T>, gradients: Seq<T>, result: Seq<T>)
    requires
        is_function2(update),
        result.len() == parameters.len(),
        forall|i: int|
            0 <= i < parameters.len() ==> update.ensures((parameters[i], gradients[i]), #[trigger] result[i]),
    ensures
        result == updated_values(update, parameters, gradients),
{
    assert forall|i: int| 0 <= i < result.len() implies #[trigger] result[i] == updated_values(
        update,
        parameters,
        gradients,
    )[i] by {
        lemma_apply2(update, parameters[i], gradients[i], result[i]);
    }
    assert(result =~= updated_values(update, parameters, gradients));
}

impl<T> TwoLayerAdamState<T> {
    /// The state of the first layer.
    pub closed spec fn first_state(&self) -> AdamState<T> {
        self.dense1
    }

    /// The state of the second layer.
    pub closed spec fn second_state(&self) -> AdamState<T> {
        self.dense2
    }

    /// Both states well-formed.
    pub open spec fn wf(&self) -> bool {
        &&& self.first_state().wf()
        &&& self.second_state().wf()
    }

    /// Each state belongs to the matching layer of `network`.
    pub open spec fn matches(&self, network: TwoLayerNetwork<T>) -> bool {
        &&& self.first_state().matches(&network.first())
        &&& self.second_state().matches(&network.second())
    }
}

impl<T: Copy> TwoLayerAdamState<T> {
    /// The state of the first layer.
    pub fn dense1(&self) -> (state: &AdamState<T>)
        ensures
            *state == self.first_state(),
    {
        &self.dense1
    }

    /// The state of the second layer.
    pub fn dense2(&self) -> (state: &AdamState<T>)
        ensures
            *state == self.second_state(),
    {
        &self.dense2
    }
}

} // verus!
