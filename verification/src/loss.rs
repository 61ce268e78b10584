//! Softmax cross-entropy over a batch of logits, one example per row.
//!
//! The loss keeps the probabilities and labels of its last forward pass for
//! the backward pass. Which values are combined, in which order and where
//! the results go is fixed here; the arithmetic on the values (the maximum,
//! the shifted exponential, the sums, the division, the per-row loss and the
//! average) is handed in by the caller.
use vstd::prelude::*;

use crate::func::{
    apply1, apply2, apply3, is_function1, is_function2, is_function3, lemma_apply1, lemma_apply2,
    lemma_apply3,
};
use crate::tensor::{Tensor, lemma_matrix_position, lemma_matrix_product};

verus! {

/// The left fold of `maximum` over the `count` values from `start`, starting
/// at the first of them.
pub open spec fn running_maximum<T, M: Fn(T, T) -> T>(
    maximum: M,
    values: Seq<T>,
    start: int,
    count: nat,
) -> T
    decreases count,
{
    if count <= 1 {
        values[start]
    } else {
        apply2(
            maximum,
            running_maximum(maximum, values, start, (count - 1) as nat),
            values[start + count - 1],
        )
    }
}

/// The left fold of `plus`, starting at `zero`, over `shifted_exp(value,
/// shift)` for the `count` values from `start`.
pub open spec fn exp_sum<T, E: Fn(T, T) -> T, P: Fn(T, T) -> T>(
    shifted_exp: E,
    plus: P,
    zero: T,
    values: Seq<T>,
    start: int,
    shift: T,
    count: nat,
) -> T
    decreases count,
{
    if count == 0 {
        zero
    } else {
        apply2(
            plus,
            exp_sum(shifted_exp, plus, zero, values, start, shift, (count - 1) as nat),
            apply2(shifted_exp, values[start + count - 1], shift),
        )
    }
}

/// The maximum of row `row` of a matrix with `classes` columns.
pub open spec fn row_maximum<T, M: Fn(T, T) -> T>(
    maximum: M,
    logits: Seq<T>,
    classes: int,
    row: int,
) -> T {
    running_maximum(maximum, logits, row * classes, classes as nat)
}

/// The sum of the shifted exponentials of row `row`.
pub open spec fn row_exp_sum<T, M: Fn(T, T) -> T, E: Fn(T, T) -> T, P: Fn(T, T) -> T>(
    maximum: M,
    shifted_exp: E,
    plus: P,
    zero: T,
    logits: Seq<T>,
    classes: int,
    row: int,
) -> T {
    exp_sum(
        shifted_exp,
        plus,
        zero,
        logits,
        row * classes,
        row_maximum(maximum, logits, classes, row),
        classes as nat,
    )
}

/// The probability of class `column` for row `row`: its shifted exponential
/// divided by the row's sum of them.
pub open spec fn softmax_probability<
    T,
    M: Fn(T, T) -> T,
    E: Fn(T, T) -> T,
    P: Fn(T, T) -> T,
    D: Fn(T, T) -> T,
>(
    maximum: M,
    shifted_exp: E,
    plus: P,
    divide: D,
    zero: T,
    logits: Seq<T>,
    classes: int,
    row: int,
    column: int,
) -> T {
    apply2(
        divide,
        apply2(shifted_exp, logits[row * classes + column], row_maximum(maximum, logits, classes, row)),
        row_exp_sum(maximum, shifted_exp, plus, zero, logits, classes, row),
    )
}

/// The left fold of `plus`, starting at `zero`, over the first `rows` rows'
/// losses, each `row_loss(maximum, sum, logit of the label)`.
pub open spec fn loss_total<
    T,
    M: Fn(T, T) -> T,
    E: Fn(T, T) -> T,
    P: Fn(T, T) -> T,
    L: Fn(T, T, T) -> T,
>(
    maximum: M,
    shifted_exp: E,
    plus: P,
    row_loss: L,
    zero: T,
    logits: Seq<T>,
    classes: int,
    labels: Seq<usize>,
    rows: nat,
) -> T
    decreases rows,
{
    if rows == 0 {
        zero
    } else {
        let row = rows - 1;
        apply2(
            plus,
            loss_total(maximum, shifted_exp, plus, row_loss, zero, logits, classes, labels, (rows - 1) as nat),
            apply3(
                row_loss,
                row_maximum(maximum, logits, classes, row),
                row_exp_sum(maximum, shifted_exp, plus, zero, logits, classes, row),
                logits[row * classes + labels[row]],
            ),
        )
    }
}

/// The gradient of the loss at row `row`, column `column`: the probability,
/// with `minus_one` applied at the label's column, then scaled by `scale`
/// for the batch size.
pub open spec fn loss_gradient<T, O: Fn(T) -> T, S: Fn(T, usize) -> T>(
    minus_one: O,
    scale: S,
    probabilities: Seq<T>,
    labels: Seq<usize>,
    classes: int,
    batch: usize,
    row: int,
    column: int,
) -> T {
    let probability = probabilities[row * classes + column];
    apply2(
        scale,
        if column == labels[row] {
            apply1(minus_one, probability)
        } else {
            probability
        },
        batch,
    )
}

/// Softmax cross-entropy with the probabilities and labels of its last
/// forward pass.
#[derive(Clone, Debug)]
pub struct SoftmaxCrossEntropy<T> {
    probabilities: Option<Tensor<T>>,
    labels: Option<Vec<usize>>,
}

impl<T> SoftmaxCrossEntropy<T> {
    /// The probabilities of the last forward pass, if any.
    pub closed spec fn cached_probabilities(&self) -> Option<Tensor<T>> {
        self.probabilities
    }

    /// The labels of the last forward pass, if any.
    pub closed spec fn cached_labels(&self) -> Option<Seq<usize>> {
        match self.labels {
            Some(labels) => Some(labels@),
            None => None,
        }
    }

    /// Either no forward pass yet, or a probability matrix with one label per
    /// row, each naming one of its columns.
    pub open spec fn wf(&self) -> bool {
        match (self.cached_probabilities(), self.cached_labels()) {
            (None, None) => true,
            (Some(probabilities), Some(labels)) => {
                &&& probabilities.wf()
                &&& probabilities.dims().len() == 2
                &&& labels.len() == probabilities.dims()[0]
                &&& forall|row: int|
                    0 <= row < labels.len() ==> #[trigger] labels[row] < probabilities.dims()[1]
            },
            _ => false,
        }
    }
}

/// Copies a list of labels.
fn copy_labels(labels: &[usize]) -> (copy: Vec<usize>)
    ensures
        copy@ == labels@,
{
    let mut copy: Vec<usize> = Vec::new();
    let mut index: usize = 0;
    while index < labels.len()
        invariant
            index <= labels@.len(),
            copy@ == labels@.subrange(0, index as int),
        decreases labels.len() - index,
    {
        copy.push(labels[index]);
        index = index + 1;
        assert(copy@ =~= labels@.subrange(0, index as int));
    }
    assert(copy@ =~= labels@);
    copy
}

impl<T: Copy> SoftmaxCrossEntropy<T> {
    /// A loss that has not run forward yet.
    pub fn new() -> (loss: SoftmaxCrossEntropy<T>)
        ensures
            loss.wf(),
            loss.cached_probabilities() is None,
            loss.cached_labels() is None,
    {
        SoftmaxCrossEntropy { probabilities: None, labels: None }
    }

    /// The mean loss of a batch: for each row, the softmax probabilities
    /// (computed from the row's maximum for stability) and the row's loss
    /// `row_loss(maximum, sum of shifted exponentials, logit of the label)`;
    /// the losses are summed with `plus` from `zero` and the total handed to
    /// `average` with the batch size. Keeps the probabilities and labels.
    pub fn forward<
        M: Fn(T, T) -> T,
        E: Fn(T, T) -> T,
        P: Fn(T, T) -> T,
        D: Fn(T, T) -> T,
        L: Fn(T, T, T) -> T,
        A: Fn(T, usize) -> T,
    >(
        &mut self,
        logits: &Tensor<T>,
        labels: &[usize],
        zero: T,
        maximum: M,
        shifted_exp: E,
        plus: P,
        divide: D,
        row_loss: L,
        average: A,
    ) -> (loss: T)
        requires
            logits.wf(),
            logits.dims().len() == 2,
            labels@.len() == logits.dims()[0],
            forall|row: int| 0 <= row < labels@.len() ==> #[trigger] labels@[row] < logits.dims()[1],
            is_function2(maximum),
            is_function2(shifted_exp),
            is_function2(plus),
            is_function2(divide),
            is_function3(row_loss),
            is_function2(average),
        ensures
            final(self).wf(),
            final(self).cached_labels() == Some(labels@),
            final(self).cached_probabilities() is Some,
            ({
                let probabilities = final(self).cached_probabilities()->Some_0;
                let classes = logits.dims()[1] as int;
                &&& probabilities.wf()
                &&& probabilities.dims() == logits.dims()
                &&& forall|row: int, column: int|
                    0 <= row < logits.dims()[0] && 0 <= column < classes
                        ==> #[trigger] probabilities.at2(row, column) == softmax_probability(
                        maximum,
                        shifted_exp,
                        plus,
                        divide,
                        zero,
                        logits@,
                        classes,
                        row,
                        column,
                    )
            }),
            loss == apply2(
                average,
                loss_total(
                    maximum,
                    shifted_exp,
                    plus,
                    row_loss,
                    zero,
                    logits@,
                    logits.dims()[1] as int,
                    labels@,
                    logits.dims()[0] as nat,
                ),
                logits.dims()[0],
            ),
    {
        let batch = logits.shape()[0];
        let classes = logits.shape()[1];
        let values = logits.data();
        proof {
            lemma_matrix_product(logits.dims());
        }
        let mut probabilities: Vec<T> = Vec::new();
        let mut total = zero;
        let mut row: usize = 0;
        while row < batch
            invariant
                logits.wf(),
                logits.dims() == seq![batch, classes],
                values@ == logits@,
                logits@.len() == batch * classes,
                labels@.len() == batch,
                forall|r: int| 0 <= r < labels@.len() ==> #[trigger] labels@[r] < classes,
                row <= batch,
                classes >= 1,
                is_function2(maximum),
                is_function2(shifted_exp),
                is_function2(plus),
                is_function2(divide),
                is_function3(row_loss),
                probabilities@.len() == row * classes,
                forall|r: int, c: int|
                    0 <= r < row && 0 <= c < classes ==> #[trigger] probabilities@[r * classes + c]
                        == softmax_probability(
                        maximum,
                        shifted_exp,
                        plus,
                        divide,
                        zero,
                        logits@,
                        classes as int,
                        r,
                        c,
                    ),
                total == loss_total(
                    maximum,
                    shifted_exp,
                    plus,
                    row_loss,
                    zero,
                    logits@,
                    classes as int,
                    labels@,
                    row as nat,
                ),
            decreases batch - row,
        {
            proof {
                lemma_matrix_position(batch as int, classes as int, row as int, 0);
                lemma_matrix_position(batch as int, classes as int, row as int, classes - 1);
            }
            let row_start = row * classes;
            let mut largest = values[row_start];
            let mut column: usize = 1;
            while column < classes
                invariant
                    values@ == logits@,
                    logits@.len() == batch * classes,
                    row < batch,
                    row_start == row * classes,
                    row_start + classes <= batch * classes,
                    1 <= column <= classes,
                    is_function2(maximum),
                    largest == running_maximum(maximum, logits@, row_start as int, column as nat),
                decreases classes - column,
            {
                let value = values[row_start + column];
                let next = maximum(largest, value);
                proof {
                    lemma_apply2(maximum, largest, value, next);
                }
                largest = next;
                column = column + 1;
            }
            let mut exponentials: Vec<T> = Vec::new();
            let mut sum = zero;
            let mut column: usize = 0;
            while column < classes
                invariant
                    values@ == logits@,
                    logits@.len() == batch * classes,
                    row < batch,
                    row_start == row * classes,
                    row_start + classes <= batch * classes,
                    batch * classes <= usize::MAX,
                    column <= classes,
                    is_function2(shifted_exp),
                    is_function2(plus),
                    exponentials@.len() == column,
                    forall|c: int|
                        0 <= c < column ==> #[trigger] exponentials@[c] == apply2(
                            shifted_exp,
                            logits@[row_start + c],
                            largest,
                        ),
                    sum == exp_sum(
                        shifted_exp,
                        plus,
                        zero,
                        logits@,
                        row_start as int,
                        largest,
                        column as nat,
                    ),
                decreases classes - column,
            {
                let value = values[row_start + column];
                let exponential = shifted_exp(value, largest);
                proof {
                    lemma_apply2(shifted_exp, value, largest, exponential);
                }
                exponentials.push(exponential);
                let next = plus(sum, exponential);
                proof {
                    lemma_apply2(plus, sum, exponential, next);
                }
                sum = next;
                column = column + 1;
            }
            let mut column: usize = 0;
            while column < classes
                invariant
                    logits@.len() == batch * classes,
                    row < batch,
                    row_start == row * classes,
                    column <= classes,
                    is_function2(divide),
                    exponentials@.len() == classes,
                    probabilities@.len() == row * classes + column,
                    forall|r: int, c: int|
                        0 <= r < row && 0 <= c < classes ==> #[trigger] probabilities@[r * classes
                            + c] == softmax_probability(
                            maximum,
                            shifted_exp,
                            plus,
                            divide,
                            zero,
                            logits@,
                            classes as int,
                            r,
                            c,
                        ),
                    forall|c: int|
                        0 <= c < column ==> #[trigger] probabilities@[row * classes + c] == apply2(
                            divide,
                            exponentials@[c],
                            sum,
                        ),
                decreases classes - column,
            {
                let probability = divide(exponentials[column], sum);
                proof {
                    lemma_apply2(divide, exponentials@[column as int], sum, probability);
                }
                let ghost before = probabilities@;
                probabilities.push(probability);
                proof {
                    assert forall|r: int, c: int|
                        0 <= r < row && 0 <= c < classes implies #[trigger] probabilities@[r
                            * classes + c] == softmax_probability(
                            maximum,
                            shifted_exp,
                            plus,
                            divide,
                            zero,
                            logits@,
                            classes as int,
                            r,
                            c,
                        ) by {
                        lemma_matrix_position(row as int, classes as int, r, c);
                        assert(probabilities@[r * classes + c] == before[r * classes + c]);
                    }
                }
                column = column + 1;
            }
            let label = labels[row];
            let correct = values[row_start + label];
            let row_value = row_loss(largest, sum, correct);
            proof {
                lemma_apply3(row_loss, largest, sum, correct, row_value);
            }
            let next_total = plus(total, row_value);
            proof {
                lemma_apply2(plus, total, row_value, next_total);
                assert forall|c: int|
                    0 <= c < classes implies #[trigger] probabilities@[row * classes + c]
                        == softmax_probability(
                        maximum,
                        shifted_exp,
                        plus,
                        divide,
                        zero,
                        logits@,
                        classes as int,
                        row as int,
                        c,
                    ) by {}
                assert((row + 1) * classes == row * classes + classes) by (nonlinear_arith);
            }
            total = next_total;
            row = row + 1;
        }
        let probability_matrix = Tensor::from_vec(probabilities, logits.shape());
        self.probabilities = Some(probability_matrix);
        self.labels = Some(copy_labels(labels));
        let loss = average(total, batch);
        proof {
            lemma_apply2(average, total, batch, loss);
        }
        loss
    }

    /// The gradient of the last forward pass's mean loss with respect to its
    /// logits: each probability, with `minus_one` applied at the label's
    /// column, scaled by `scale` for the batch size.
    pub fn backward<O: Fn(T) -> T, S: Fn(T, usize) -> T>(&self, minus_one: O, scale: S) -> (gradients:
        Tensor<T>)
        requires
            self.wf(),
            self.cached_probabilities() is Some,
            is_function1(minus_one),
            is_function2(scale),
        ensures
            ({
                let probabilities = self.cached_probabilities()->Some_0;
                let labels = self.cached_labels()->Some_0;
                let classes = probabilities.dims()[1] as int;
                &&& gradients.wf()
                &&& gradients.dims() == probabilities.dims()
                &&& forall|row: int, column: int|
                    0 <= row < probabilities.dims()[0] && 0 <= column < classes
                        ==> #[trigger] gradients.at2(row, column) == loss_gradient(
                        minus_one,
                        scale,
                        probabilities@,
                        labels,
                        classes,
                        probabilities.dims()[0],
                        row,
                        column,
                    )
            }),
    {
        let probabilities = self.probabilities.as_ref().unwrap();
        let labels = self.labels.as_ref().unwrap();
        let batch = probabilities.shape()[0];
        let classes = probabilities.shape()[1];
        let values = probabilities.data();
        proof {
            lemma_matrix_product(probabilities.dims());
        }
        let mut gradients: Vec<T> = Vec::new();
        let mut row: usize = 0;
        while row < batch
            invariant
                probabilities.wf(),
                probabilities.dims() == seq![batch, classes],
                values@ == probabilities@,
                probabilities@.len() == batch * classes,
                batch * classes <= usize::MAX,
                labels@.len() == batch,
                forall|r: int| 0 <= r < labels@.len() ==> #[trigger] labels@[r] < classes,
                row <= batch,
                is_function1(minus_one),
                is_function2(scale),
                gradients@.len() == row * classes,
                forall|r: int, c: int|
                    0 <= r < row && 0 <= c < classes ==> #[trigger] gradients@[r * classes + c]
                        == loss_gradient(
                        minus_one,
                        scale,
                        probabilities@,
                        labels@,
                        classes as int,
                        batch,
                        r,
                        c,
                    ),
            decreases batch - row,
        {
            proof {
                lemma_matrix_position(batch as int, classes as int, row as int, 0);
            }
            let row_start = row * classes;
            let label = labels[row];
            let mut column: usize = 0;
            while column < classes
                invariant
                    values@ == probabilities@,
                    probabilities@.len() == batch * classes,
                    batch * classes <= usize::MAX,
                    labels@.len() == batch,
                    row < batch,
                    row_start == row * classes,
                    label == labels@[row as int],
                    column <= classes,
                    is_function1(minus_one),
                    is_function2(scale),
                    gradients@.len() == row * classes + column,
                    forall|r: int, c: int|
                        0 <= r < row && 0 <= c < classes ==> #[trigger] gradients@[r * classes + c]
                            == loss_gradient(
                            minus_one,
                            scale,
                            probabilities@,
                            labels@,
                            classes as int,
                            batch,
                            r,
                            c,
                        ),
                    forall|c: int|
                        0 <= c < column ==> #[trigger] gradients@[row * classes + c]
                            == loss_gradient(
                            minus_one,
                            scale,
                            probabilities@,
                            labels@,
                            classes as int,
                            batch,
                            row as int,
                            c,
                        ),
                decreases classes - column,
            {
                proof {
                    lemma_matrix_position(batch as int, classes as int, row as int, column as int);
                }
                let probability = values[row_start + column];
                let adjusted = if column == label {
                    let lowered = minus_one(probability);
                    proof {
                        lemma_apply1(minus_one, probability, lowered);
                    }
                    lowered
                } else {
                    probability
                };
                let gradient = scale(adjusted, batch);
                proof {
                    lemma_apply2(scale, adjusted, batch, gradient);
                }
                let ghost before = gradients@;
                gradients.push(gradient);
                proof {
                    assert forall|r: int, c: int|
                        0 <= r < row && 0 <= c < classes implies #[trigger] gradients@[r * classes
                            + c] == loss_gradient(
                            minus_one,
                            scale,
                            probabilities@,
                            labels@,
                            classes as int,
                            batch,
                            r,
                            c,
                        ) by {
                        lemma_matrix_position(row as int, classes as int, r, c);
                        assert(gradients@[r * classes + c] == before[r * classes + c]);
                    }
                }
                column = column + 1;
            }
            proof {
                assert((row + 1) * classes == row * classes + classes) by (nonlinear_arith);
            }
            row = row + 1;
        }
        Tensor::from_vec(gradients, probabilities.shape())
    }

    /// Whether a forward pass has run.
    pub fn has_run(&self) -> (ran: bool)
        ensures
            ran == self.cached_probabilities() is Some,
    {
        self.probabilities.is_some()
    }

    /// The probabilities of the last forward pass.
    pub fn probabilities(&self) -> (probabilities: &Tensor<T>)
        requires
            self.cached_probabilities() is Some,
        ensures
            *probabilities == self.cached_probabilities()->Some_0,
    {
        self.probabilities.as_ref().unwrap()
    }
}

impl<T: Copy> Default for SoftmaxCrossEntropy<T> {
    fn default() -> (loss: SoftmaxCrossEntropy<T>)
        ensures
            loss.wf(),
            loss.cached_probabilities() is None,
            loss.cached_labels() is None,
    {
        SoftmaxCrossEntropy::new()
    }
}

} // verus!
