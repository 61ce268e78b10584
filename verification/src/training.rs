//! The bookkeeping of training and evaluation: which examples go into each
//! batch, how many predictions match their labels, and the evaluation of a
//! network over a whole dataset batch by batch.
use vstd::prelude::*;

use crate::func::{apply1, apply2, is_function1, is_function2, lemma_apply1, lemma_apply2};
use crate::mnist::MnistDataset;
use crate::model::{
    LayerArithmetic, LossArithmetic, TwoLayerAdamState, TwoLayerNetwork, lemma_row_prediction,
    loss_arithmetic_total, row_predictions,
};
use crate::rng::{Rng, lemma_shuffle_permutes, spec_shuffle};
use crate::tensor::{
    Tensor, lemma_matrix_of, lemma_matrix_of_cell, lemma_matrix_position, lemma_matrix_product, matrix_of,
};

verus! {

/// The end of batch `index` when `count` examples are cut into batches of
/// `batch_size`.
pub open spec fn batch_end(count: int, batch_size: int, index: int) -> int {
    if index * batch_size + batch_size < count {
        index * batch_size + batch_size
    } else {
        count
    }
}

/// Cuts `0..count` into consecutive batches of `batch_size`, the last one
/// possibly shorter: batch `k` is `k * batch_size` up to the next multiple
/// or `count`.
pub fn batch_ranges(count: usize, batch_size: usize) -> (ranges: Vec<(usize, usize)>)
    requires
        batch_size > 0,
    ensures
        ranges@.len() == (count + batch_size - 1) / batch_size as int,
        forall|k: int|
            0 <= k < ranges@.len() ==> #[trigger] ranges@[k] == (
                (k * batch_size) as usize,
                batch_end(count as int, batch_size as int, k) as usize,
            ),
        forall|k: int| 0 <= k < ranges@.len() ==> #[trigger] ranges@[k].0 == k * batch_size,
        count > 0 ==> ranges@[0].0 == 0,
        count > 0 ==> ranges@.last().1 == count,
        forall|k: int| 0 <= k < ranges@.len() - 1 ==> #[trigger] ranges@[k].1 == ranges@[k + 1].0,
        forall|k: int|
            0 <= k < ranges@.len() ==> 0 < #[trigger] ranges@[k].1 - ranges@[k].0 <= batch_size,
        forall|k: int|
            0 <= k < ranges@.len() - 1 ==> #[trigger] ranges@[k].1 - ranges@[k].0 == batch_size,
{
    let mut ranges: Vec<(usize, usize)> = Vec::new();
    let mut start: usize = 0;
    assert(ranges@.len() * batch_size == 0) by (nonlinear_arith)
        requires
            ranges@.len() == 0,
    ;
    while start < count
        invariant
            batch_size > 0,
            start <= count,
            start < count ==> start == ranges@.len() * batch_size,
            ranges@.len() > 0 ==> start == batch_end(count as int, batch_size as int, ranges@.len() - 1),
            ranges@.len() > 0 ==> (ranges@.len() - 1) * batch_size < count,
            ranges@.len() == 0 ==> start == 0,
            forall|k: int|
                0 <= k < ranges@.len() ==> #[trigger] ranges@[k] == (
                    (k * batch_size) as usize,
                    batch_end(count as int, batch_size as int, k) as usize,
                ),
        decreases count - start,
    {
        let end = if batch_size >= count - start {
            count
        } else {
            start + batch_size
        };
        let ghost k = ranges@.len() as int;
        assert(end == batch_end(count as int, batch_size as int, k));
        ranges.push((start, end));
        start = end;
        proof {
            if start < count {
                assert(start == (k + 1) * batch_size) by (nonlinear_arith)
                    requires
                        start == k * batch_size + batch_size,
                ;
            }
        }
    }
    proof {
        let length = ranges@.len() as int;
        if length > 0 {
            assert(count <= length * batch_size) by (nonlinear_arith)
                requires
                    count == batch_end(count as int, batch_size as int, length - 1),
                    batch_size > 0,
            ;
        }
        lemma_batch_count(count as int, batch_size as int, length);
        assert forall|k: int| 0 <= k < length - 1 implies #[trigger] batch_end(
            count as int,
            batch_size as int,
            k,
        ) == (k + 1) * batch_size by {
            assert((k + 1) * batch_size <= (length - 1) * batch_size) by (nonlinear_arith)
                requires
                    k + 1 <= length - 1,
                    batch_size > 0,
            ;
            assert(k * batch_size + batch_size == (k + 1) * batch_size) by (nonlinear_arith);
        }
        assert forall|k: int| 0 <= k < length implies k * batch_size < count && #[trigger] ranges@[k].0 == k * batch_size by {
            assert(k * batch_size <= (length - 1) * batch_size) by (nonlinear_arith)
                requires
                    k <= length - 1,
                    batch_size > 0,
            ;
        }
        assert forall|k: int| 0 <= k < length - 1 implies #[trigger] ranges@[k].1 == ranges@[k
            + 1].0 by {
            assert(batch_end(count as int, batch_size as int, k) == (k + 1) * batch_size);
        }
        assert forall|k: int| 0 <= k < length implies 0 < #[trigger] ranges@[k].1 - ranges@[k].0
            <= batch_size by {
            assert(ranges@[k].0 == k * batch_size);
        }
    }
    ranges
}

/// `k` batches of `batch_size` that end exactly at or just past `count`
/// number `(count + batch_size - 1) / batch_size`.
proof fn lemma_batch_count(count: int, batch_size: int, k: int)
    requires
        batch_size > 0,
        count >= 0,
        k >= 0,
        count <= k * batch_size,
        k > 0 ==> (k - 1) * batch_size < count,
    ensures
        k == (count + batch_size - 1) / batch_size,
{
    assert(k == (count + batch_size - 1) / batch_size) by (nonlinear_arith)
        requires
            batch_size > 0,
            count >= 0,
            k >= 0,
            count <= k * batch_size,
            k > 0 ==> (k - 1) * batch_size < count,
    ;
}

/// How many of the first `length` positions hold equal values.
pub open spec fn matches_in(predictions: Seq<usize>, labels: Seq<usize>, length: int) -> int
    decreases length,
{
    if length <= 0 {
        0
    } else {
        matches_in(predictions, labels, length - 1) + if predictions[length - 1] == labels[
            length - 1] {
            1int
        } else {
            0int
        }
    }
}

/// Counts the positions, up to the shorter of the two, where the prediction
/// equals the label.
pub fn count_correct(predictions: &[usize], labels: &[usize]) -> (correct: usize)
    ensures
        correct == matches_in(
            predictions@,
            labels@,
            if predictions@.len() < labels@.len() {
                predictions@.len() as int
            } else {
                labels@.len() as int
            },
        ),
{
    let length = if predictions.len() < labels.len() {
        predictions.len()
    } else {
        labels.len()
    };
    let mut correct: usize = 0;
    let mut index: usize = 0;
    while index < length
        invariant
            length <= predictions@.len(),
            length <= labels@.len(),
            index <= length,
            correct == matches_in(predictions@, labels@, index as int),
            correct <= index,
        decreases length - index,
    {
        if predictions[index] == labels[index] {
            correct = correct + 1;
        }
        index = index + 1;
    }
    correct
}

/// At most `length` of the first `length` positions match.
pub proof fn lemma_matches_in_bounds(predictions: Seq<usize>, labels: Seq<usize>, length: int)
    requires
        length >= 0,
    ensures
        0 <= matches_in(predictions, labels, length) <= length,
    decreases length,
{
    if length > 0 {
        lemma_matches_in_bounds(predictions, labels, length - 1);
    }
}

/// Pixel `pixel` of image `start + image`, normalized.
pub open spec fn image_cell<T, N: Fn(u8) -> T>(
    dataset: MnistDataset,
    normalize: N,
    start: int,
) -> spec_fn(int, int) -> T {
    |image: int, pixel: int|
        apply1(normalize, dataset.pixels()[(start + image) * dataset.pixel_count() + pixel])
}

/// The normalized pixels of images `start..end`, one image per row.
pub open spec fn normalized_images<T, N: Fn(u8) -> T>(
    dataset: MnistDataset,
    normalize: N,
    start: int,
    end: int,
) -> Seq<T> {
    matrix_of(end - start, dataset.pixel_count(), image_cell(dataset, normalize, start))
}

/// The number of examples in the largest batch when `count` examples are
/// cut into batches of `batch_size`.
pub open spec fn largest_batch(count: int, batch_size: int) -> int {
    if batch_size < count {
        batch_size
    } else {
        count
    }
}

/// How many examples of the first `batches` evaluation batches the network
/// classifies as their label.
pub open spec fn evaluation_correct<
    T,
    F: Fn(T, T, T) -> T,
    G: Fn(T, T) -> T,
    P: Fn(T) -> bool,
    R: Fn(T) -> T,
    N: Fn(u8) -> T,
    C: Fn(T, T) -> bool,
>(
    network: TwoLayerNetwork<T>,
    ops: LayerArithmetic<T, F, G, P, R>,
    normalize: N,
    greater: C,
    dataset: MnistDataset,
    batch_size: int,
    batches: nat,
) -> int
    decreases batches,
{
    if batches == 0 {
        0
    } else {
        let count = dataset.label_seq().len() as int;
        let start = (batches - 1) * batch_size;
        let end = batch_end(count, batch_size, batches - 1);
        evaluation_correct(
            network,
            ops,
            normalize,
            greater,
            dataset,
            batch_size,
            (batches - 1) as nat,
        ) + matches_in(
            row_predictions(
                greater,
                network.inference_logits(ops, normalized_images(dataset, normalize, start, end), end - start),
                end - start,
                network.output_count() as int,
            ),
            dataset.label_seq().subrange(start, end),
            end - start,
        )
    }
}

/// The class that the network predicts for image `index` given on its own.
pub open spec fn image_prediction<
    T,
    F: Fn(T, T, T) -> T,
    G: Fn(T, T) -> T,
    P: Fn(T) -> bool,
    R: Fn(T) -> T,
    N: Fn(u8) -> T,
    C: Fn(T, T) -> bool,
>(
    network: TwoLayerNetwork<T>,
    ops: LayerArithmetic<T, F, G, P, R>,
    normalize: N,
    greater: C,
    dataset: MnistDataset,
    index: int,
) -> usize {
    row_predictions(
        greater,
        network.inference_logits(ops, normalized_images(dataset, normalize, index, index + 1), 1),
        1,
        network.output_count() as int,
    )[0]
}

/// The class that the network predicts for each image of the dataset, each
/// given on its own.
pub open spec fn image_predictions<
    T,
    F: Fn(T, T, T) -> T,
    G: Fn(T, T) -> T,
    P: Fn(T) -> bool,
    R: Fn(T) -> T,
    N: Fn(u8) -> T,
    C: Fn(T, T) -> bool,
>(
    network: TwoLayerNetwork<T>,
    ops: LayerArithmetic<T, F, G, P, R>,
    normalize: N,
    greater: C,
    dataset: MnistDataset,
) -> Seq<usize> {
    Seq::new(
        dataset.label_seq().len(),
        |index: int| image_prediction(network, ops, normalize, greater, dataset, index),
    )
}

/// Counting matches over `count` positions of a shifted copy counts the
/// matches of the original between `start` and `start + count`.
proof fn lemma_matches_in_shifted(
    predictions: Seq<usize>,
    labels: Seq<usize>,
    all_predictions: Seq<usize>,
    all_labels: Seq<usize>,
    start: int,
    count: int,
)
    requires
        start >= 0,
        count >= 0,
        forall|j: int|
            0 <= j < count ==> #[trigger] predictions[j] == all_predictions[start + j] && labels[j]
                == all_labels[start + j],
    ensures
        matches_in(predictions, labels, count) == matches_in(all_predictions, all_labels, start + count)
            - matches_in(all_predictions, all_labels, start),
    decreases count,
{
    if count > 0 {
        lemma_matches_in_shifted(predictions, labels, all_predictions, all_labels, start, count - 1);
        assert(predictions[count - 1] == all_predictions[start + count - 1]);
        assert(labels[count - 1] == all_labels[start + count - 1]);
    }
}

/// Image `start + row` of a batch of images is that image on its own.
proof fn lemma_batch_row_image<T, N: Fn(u8) -> T>(
    dataset: MnistDataset,
    normalize: N,
    start: int,
    end: int,
    row: int,
)
    requires
        0 <= row < end - start,
        dataset.pixel_count() >= 0,
    ensures
        ({
            let pixels = dataset.pixel_count();
            normalized_images(dataset, normalize, start, end).subrange(row * pixels, row * pixels + pixels)
                == normalized_images(dataset, normalize, start + row, start + row + 1)
        }),
{
    let pixels = dataset.pixel_count();
    let batch = normalized_images(dataset, normalize, start, end);
    let alone = normalized_images(dataset, normalize, start + row, start + row + 1);
    assert(0 <= row * pixels && row * pixels + pixels <= (end - start) * pixels) by (nonlinear_arith)
        requires
            0 <= row < end - start,
            pixels >= 0,
    ;
    assert(batch.len() == (end - start) * pixels);
    assert forall|pixel: int| 0 <= pixel < pixels implies #[trigger] batch.subrange(
        row * pixels,
        row * pixels + pixels,
    )[pixel] == alone[pixel] by {
        lemma_matrix_of_cell(end - start, pixels, image_cell(dataset, normalize, start), row, pixel);
        lemma_matrix_of_cell(1, pixels, image_cell(dataset, normalize, start + row), 0, pixel);
    }
    assert(alone.len() == pixels) by {
        assert(1 * pixels == pixels);
    }
    assert(batch.subrange(row * pixels, row * pixels + pixels) =~= alone);
}

/// The correct examples of the first `batches` evaluation batches are the
/// images among the ones they cover that are predicted as their label, each
/// image given on its own.
proof fn lemma_evaluation_prefix<
    T,
    F: Fn(T, T, T) -> T,
    G: Fn(T, T) -> T,
    P: Fn(T) -> bool,
    R: Fn(T) -> T,
    N: Fn(u8) -> T,
    C: Fn(T, T) -> bool,
>(
    network: TwoLayerNetwork<T>,
    ops: LayerArithmetic<T, F, G, P, R>,
    normalize: N,
    greater: C,
    dataset: MnistDataset,
    batch_size: int,
    batches: nat,
)
    requires
        network.wf(),
        batch_size > 0,
        dataset.pixel_count() == network.input_count(),
        batches == 0 || (batches - 1) * batch_size < dataset.label_seq().len(),
    ensures
        evaluation_correct(network, ops, normalize, greater, dataset, batch_size, batches) == matches_in(
            image_predictions(network, ops, normalize, greater, dataset),
            dataset.label_seq(),
            if batches == 0 {
                0
            } else {
                batch_end(dataset.label_seq().len() as int, batch_size, batches - 1)
            },
        ),
    decreases batches,
{
    if batches > 0 {
        let count = dataset.label_seq().len() as int;
        let start = (batches - 1) * batch_size;
        let end = batch_end(count, batch_size, batches - 1);
        let rows = end - start;
        let classes = network.output_count() as int;
        let pixels = dataset.pixel_count();
        let images = normalized_images(dataset, normalize, start, end);
        let predictions = row_predictions(greater, network.inference_logits(ops, images, rows), rows, classes);
        let all_predictions = image_predictions(network, ops, normalize, greater, dataset);
        assert(0 <= start) by (nonlinear_arith)
            requires
                batches > 0,
                batch_size > 0,
                start == (batches - 1) * batch_size,
        ;
        if batches > 1 {
            assert((batches - 2) * batch_size < (batches - 1) * batch_size) by (nonlinear_arith)
                requires
                    batches > 1,
                    batch_size > 0,
            ;
            assert(batch_end(count, batch_size, batches - 2) == start) by {
                assert((batches - 2) * batch_size + batch_size == start) by (nonlinear_arith)
                    requires
                        start == (batches - 1) * batch_size,
                ;
            }
        }
        lemma_evaluation_prefix(
            network,
            ops,
            normalize,
            greater,
            dataset,
            batch_size,
            (batches - 1) as nat,
        );
        assert forall|j: int| 0 <= j < rows implies #[trigger] predictions[j] == all_predictions[start + j]
            && dataset.label_seq().subrange(start, end)[j] == dataset.label_seq()[start + j] by {
            assert(images.len() == rows * pixels);
            lemma_row_prediction(network, ops, greater, images, rows, j);
            lemma_batch_row_image(dataset, normalize, start, end, j);
        }
        lemma_matches_in_shifted(
            predictions,
            dataset.label_seq().subrange(start, end),
            all_predictions,
            dataset.label_seq(),
            start,
            rows,
        );
        assert(start + rows == end);
        assert(evaluation_correct(network, ops, normalize, greater, dataset, batch_size, batches)
            == evaluation_correct(network, ops, normalize, greater, dataset, batch_size, (batches - 1) as nat)
            + matches_in(predictions, dataset.label_seq().subrange(start, end), rows));
        assert(evaluation_correct(network, ops, normalize, greater, dataset, batch_size, (batches - 1) as nat)
            == matches_in(all_predictions, dataset.label_seq(), start));
    }
}

/// Evaluating in batches counts the images that the network, given each
/// image on its own, predicts as their label: the batch size changes
/// nothing of how many are counted correct.
pub proof fn lemma_evaluation_counts_images<
    T,
    F: Fn(T, T, T) -> T,
    G: Fn(T, T) -> T,
    P: Fn(T) -> bool,
    R: Fn(T) -> T,
    N: Fn(u8) -> T,
    C: Fn(T, T) -> bool,
>(
    network: TwoLayerNetwork<T>,
    ops: LayerArithmetic<T, F, G, P, R>,
    normalize: N,
    greater: C,
    dataset: MnistDataset,
    batch_size: int,
)
    requires
        network.wf(),
        batch_size > 0,
        dataset.pixel_count() == network.input_count(),
    ensures
        ({
            let count = dataset.label_seq().len() as int;
            let batches = ((count + batch_size - 1) / batch_size) as nat;
            evaluation_correct(network, ops, normalize, greater, dataset, batch_size, batches)
                == matches_in(
                image_predictions(network, ops, normalize, greater, dataset),
                dataset.label_seq(),
                count,
            )
        }),
{
    let count = dataset.label_seq().len() as int;
    let batches = (count + batch_size - 1) / batch_size;
    if count > 0 {
        assert(batches >= 1 && (batches - 1) * batch_size < count && count <= batches * batch_size)
            by (nonlinear_arith)
            requires
                batch_size > 0,
                count > 0,
                batches == (count + batch_size - 1) / batch_size,
        ;
        assert((batches - 1) * batch_size + batch_size == batches * batch_size) by (nonlinear_arith);
    } else {
        assert(batches == 0) by (nonlinear_arith)
            requires
                batch_size > 0,
                count == 0,
                batches == (count + batch_size - 1) / batch_size,
        ;
    }
    lemma_evaluation_prefix(network, ops, normalize, greater, dataset, batch_size, batches as nat);
}

/// The left fold of `plus`, starting at `zero`, over the first `batches`
/// evaluation batches of `weigh(mean loss of the batch, batch size)`.
pub open spec fn evaluation_loss<
    T,
    F: Fn(T, T, T) -> T,
    G: Fn(T, T) -> T,
    P: Fn(T) -> bool,
    R: Fn(T) -> T,
    M: Fn(T, T) -> T,
    E: Fn(T, T) -> T,
    D: Fn(T, T) -> T,
    L: Fn(T, T, T) -> T,
    A: Fn(T, usize) -> T,
    O: Fn(T) -> T,
    S: Fn(T, usize) -> T,
    N: Fn(u8) -> T,
    K: Fn(T, usize) -> T,
>(
    network: TwoLayerNetwork<T>,
    ops: LayerArithmetic<T, F, G, P, R>,
    loss_ops: LossArithmetic<M, E, D, L, A, O, S>,
    normalize: N,
    weigh: K,
    dataset: MnistDataset,
    batch_size: int,
    batches: nat,
) -> T
    decreases batches,
{
    if batches == 0 {
        ops.zero
    } else {
        let count = dataset.label_seq().len() as int;
        let start = (batches - 1) * batch_size;
        let end = batch_end(count, batch_size, batches - 1);
        apply2(
            ops.plus,
            evaluation_loss(
                network,
                ops,
                loss_ops,
                normalize,
                weigh,
                dataset,
                batch_size,
                (batches - 1) as nat,
            ),
            apply2(
                weigh,
                network.inference_loss(
                    ops,
                    loss_ops,
                    normalized_images(dataset, normalize, start, end),
                    dataset.label_seq().subrange(start, end),
                    end - start,
                ),
                (end - start) as usize,
            ),
        )
    }
}

/// Evaluates a network on a whole dataset in batches of `batch_size` (the
/// last one possibly shorter): returns the left fold of `plus` from `zero`
/// of `weigh(mean loss of the batch, batch size)` over the batches, and how
/// many examples the network classifies as their label. Only the loss's
/// caches change.
pub fn evaluate<
    T: Copy,
    F: Fn(T, T, T) -> T + Copy,
    G: Fn(T, T) -> T + Copy,
    P: Fn(T) -> bool + Copy,
    R: Fn(T) -> T + Copy,
    M: Fn(T, T) -> T + Copy,
    E: Fn(T, T) -> T + Copy,
    D: Fn(T, T) -> T + Copy,
    L: Fn(T, T, T) -> T + Copy,
    A: Fn(T, usize) -> T + Copy,
    O: Fn(T) -> T + Copy,
    S: Fn(T, usize) -> T + Copy,
    N: Fn(u8) -> T + Copy,
    C: Fn(T, T) -> bool + Copy,
    K: Fn(T, usize) -> T + Copy,
>(
    network: &mut TwoLayerNetwork<T>,
    dataset: &MnistDataset,
    batch_size: usize,
    ops: &LayerArithmetic<T, F, G, P, R>,
    loss_ops: &LossArithmetic<M, E, D, L, A, O, S>,
    normalize: N,
    greater: C,
    weigh: K,
) -> (result: (T, usize))
    requires
        old(network).wf(),
        dataset.wf(),
        batch_size > 0,
        dataset.pixel_count() == old(network).input_count(),
        largest_batch(dataset.label_seq().len() as int, batch_size as int) * old(network).hidden_count()
            <= usize::MAX,
        largest_batch(dataset.label_seq().len() as int, batch_size as int) * old(network).output_count()
            <= usize::MAX,
        forall|i: int|
            0 <= i < dataset.label_seq().len() ==> #[trigger] dataset.label_seq()[i]
                < old(network).output_count(),
        ops.total(),
        loss_arithmetic_total(*loss_ops),
        is_function1(normalize),
        is_function2(greater),
        is_function2(weigh),
    ensures
        final(network).wf(),
        final(network).first() == old(network).first(),
        final(network).activation() == old(network).activation(),
        final(network).second() == old(network).second(),
        ({
            let count = dataset.label_seq().len() as int;
            let batches = ((count + batch_size - 1) / batch_size as int) as nat;
            &&& result.0 == evaluation_loss(
                *old(network),
                *ops,
                *loss_ops,
                normalize,
                weigh,
                *dataset,
                batch_size as int,
                batches,
            )
            &&& result.1 == evaluation_correct(
                *old(network),
                *ops,
                normalize,
                greater,
                *dataset,
                batch_size as int,
                batches,
            )
        }),
{
    let count = dataset.len();
    let ranges = batch_ranges(count, batch_size);
    let mut total = ops.zero;
    let mut correct: usize = 0;
    let mut batch: usize = 0;
    while batch < ranges.len()
        invariant
            network.wf(),
            dataset.wf(),
            count == dataset.label_seq().len(),
            batch_size > 0,
            ranges@.len() == (count + batch_size - 1) / batch_size as int,
            forall|k: int|
                0 <= k < ranges@.len() ==> #[trigger] ranges@[k] == (
                    (k * batch_size) as usize,
                    batch_end(count as int, batch_size as int, k) as usize,
                ),
            forall|k: int|
                0 <= k < ranges@.len() ==> 0 < #[trigger] ranges@[k].1 - ranges@[k].0 <= batch_size,
            forall|k: int| 0 <= k < ranges@.len() - 1 ==> #[trigger] ranges@[k].1 == ranges@[k + 1].0,
            forall|k: int| 0 <= k < ranges@.len() ==> #[trigger] ranges@[k].0 == k * batch_size,
            count > 0 ==> ranges@[0].0 == 0,
            batch <= ranges@.len(),
            network.first() == old(network).first(),
            network.activation() == old(network).activation(),
            network.second() == old(network).second(),
            dataset.pixel_count() == old(network).input_count(),
            largest_batch(count as int, batch_size as int) * old(network).hidden_count() <= usize::MAX,
            largest_batch(count as int, batch_size as int) * old(network).output_count() <= usize::MAX,
            forall|i: int|
                0 <= i < dataset.label_seq().len() ==> #[trigger] dataset.label_seq()[i]
                    < old(network).output_count(),
            ops.total(),
            loss_arithmetic_total(*loss_ops),
            is_function1(normalize),
            is_function2(greater),
            is_function2(weigh),
            total == evaluation_loss(
                *old(network),
                *ops,
                *loss_ops,
                normalize,
                weigh,
                *dataset,
                batch_size as int,
                batch as nat,
            ),
            correct == evaluation_correct(
                *old(network),
                *ops,
                normalize,
                greater,
                *dataset,
                batch_size as int,
                batch as nat,
            ),
            batch == 0 ==> correct == 0,
            batch > 0 ==> correct <= ranges@[batch - 1].1,
        decreases ranges.len() - batch,
    {
        let (start, end) = ranges[batch];
        proof {
            if batch > 0 {
                assert(ranges@[batch - 1].1 == ranges@[batch as int].0);
            }
        }
        let (inputs, labels) = dataset.batch_range(start, end, normalize);
        let ghost size = dataset.pixel_count();
        proof {
            let cell = image_cell(*dataset, normalize, start as int);
            lemma_matrix_product(inputs.dims());
            assert forall|image: int, pixel: int|
                0 <= image < end - start && 0 <= pixel < size implies #[trigger] inputs@[image * size
                + pixel] == cell(image, pixel) by {
                assert(inputs.at2(image, pixel) == inputs@[image * size + pixel]);
                lemma_apply1(
                    normalize,
                    dataset.pixels()[(start + image) * size + pixel],
                    inputs.at2(image, pixel),
                );
            }
            lemma_matrix_of(inputs@, (end - start) as int, size, cell);
            let hidden = old(network).hidden_count() as int;
            let classes = old(network).output_count() as int;
            let largest = largest_batch(count as int, batch_size as int);
            assert(end - start <= largest);
            assert((end - start) * hidden <= largest * hidden) by (nonlinear_arith)
                requires
                    end - start <= largest,
                    hidden >= 0,
            ;
            assert((end - start) * classes <= largest * classes) by (nonlinear_arith)
                requires
                    end - start <= largest,
                    classes >= 0,
            ;
        }
        let ghost before = *network;
        let (loss, hits) = network.evaluate_batch(&inputs, labels.as_slice(), ops, loss_ops, greater);
        proof {
            let images = normalized_images(*dataset, normalize, start as int, end as int);
            let expected_labels = dataset.label_seq().subrange(start as int, end as int);
            assert(inputs@ == images);
            assert(labels@ == expected_labels);
            assert(before.first() == old(network).first());
            assert(before.second() == old(network).second());
            assert(before.inference_logits(*ops, images, (end - start) as int)
                == old(network).inference_logits(*ops, images, (end - start) as int));
            assert(loss == old(network).inference_loss(
                *ops,
                *loss_ops,
                images,
                expected_labels,
                (end - start) as int,
            ));
            assert(hits == matches_in(
                row_predictions(
                    greater,
                    old(network).inference_logits(*ops, images, (end - start) as int),
                    (end - start) as int,
                    old(network).output_count() as int,
                ),
                expected_labels,
                (end - start) as int,
            ));
        }
        let weighted = weigh(loss, labels.len());
        proof {
            lemma_apply2(weigh, loss, labels.len(), weighted);
        }
        let next = (ops.plus)(total, weighted);
        proof {
            lemma_apply2(ops.plus, total, weighted, next);
            assert(start == batch * batch_size);
            assert(end == batch_end(count as int, batch_size as int, batch as int));
            lemma_matches_in_bounds(
                row_predictions(
                    greater,
                    old(network).inference_logits(*ops, inputs@, (end - start) as int),
                    (end - start) as int,
                    old(network).output_count() as int,
                ),
                labels@,
                (end - start) as int,
            );
        }
        total = next;
        correct = correct + hits;
        batch = batch + 1;
    }
    (total, correct)
}

/// The order in which an epoch visits the examples: `0..count` shuffled by
/// a generator in state `state`.
pub open spec fn epoch_order(count: nat, state: u64) -> Seq<usize> {
    spec_shuffle(Seq::new(count, |i: int| i as usize), state).0
}

/// Every example appears in the epoch order, and nothing else.
pub proof fn lemma_epoch_order(count: nat, state: u64)
    ensures
        epoch_order(count, state).len() == count,
        forall|i: int| 0 <= i < count ==> #[trigger] epoch_order(count, state)[i] < count,
{
    let original = Seq::new(count, |i: int| i as usize);
    let order = epoch_order(count, state);
    lemma_shuffle_permutes(original, state);
    assert forall|i: int| 0 <= i < count implies #[trigger] order[i] < count by {
        let value = order[i];
        assert(order.contains(value));
        vstd::seq_lib::to_multiset_contains(order, value);
        vstd::seq_lib::to_multiset_contains(original, value);
        let j = choose|j: int| 0 <= j < original.len() && original[j] == value;
        assert(original[j] == j as usize);
    }
}

/// Pixel `pixel` of the `row`-th listed image, normalized.
pub open spec fn gathered_cell<T, N: Fn(u8) -> T>(
    dataset: MnistDataset,
    normalize: N,
    indices: Seq<usize>,
) -> spec_fn(int, int) -> T {
    |row: int, pixel: int|
        apply1(normalize, dataset.pixels()[indices[row] * dataset.pixel_count() + pixel])
}

/// The listed images, normalized, one per row.
pub open spec fn gathered_images<T, N: Fn(u8) -> T>(
    dataset: MnistDataset,
    normalize: N,
    indices: Seq<usize>,
) -> Seq<T> {
    matrix_of(indices.len() as int, dataset.pixel_count(), gathered_cell(dataset, normalize, indices))
}

/// The labels of the listed images.
pub open spec fn gathered_labels(dataset: MnistDataset, indices: Seq<usize>) -> Seq<usize> {
    Seq::new(indices.len(), |row: int| dataset.label_seq()[indices[row] as int])
}

/// The examples of batch `index` of an epoch that visits them in `order`.
pub open spec fn epoch_batch(order: Seq<usize>, batch_size: int, index: int) -> Seq<usize> {
    order.subrange(index * batch_size, batch_end(order.len() as int, batch_size, index))
}

/// A batch that the dataset filled, given cell by cell.
proof fn lemma_gathered<T, N: Fn(u8) -> T>(
    inputs: Tensor<T>,
    dataset: MnistDataset,
    normalize: N,
    indices: Seq<usize>,
)
    requires
        dataset.wf(),
        is_function1(normalize),
        inputs.wf(),
        inputs.dims().len() == 2,
        inputs.dims()[0] == indices.len(),
        inputs.dims()[1] == dataset.pixel_count(),
        forall|b: int, p: int|
            0 <= b < indices.len() && 0 <= p < dataset.pixel_count() ==> normalize.ensures(
                (dataset.pixels()[indices[b] * dataset.pixel_count() + p],),
                #[trigger] inputs.at2(b, p),
            ),
    ensures
        inputs@ == gathered_images(dataset, normalize, indices),
{
    let size = dataset.pixel_count();
    let cell = gathered_cell(dataset, normalize, indices);
    lemma_matrix_product(inputs.dims());
    assert forall|b: int, p: int|
        0 <= b < indices.len() && 0 <= p < size implies #[trigger] inputs@[b * size + p] == cell(b, p) by {
        assert(inputs.at2(b, p) == inputs@[b * size + p]);
        lemma_apply1(normalize, dataset.pixels()[indices[b] * size + p], inputs.at2(b, p));
    }
    lemma_matrix_of(inputs@, indices.len() as int, size, cell);
}

/// The first `steps` entries of `trace` after the first follow each other
/// by Adam steps on the epoch's batches, each layer with the rule that
/// `rule` gives for its new step count.
pub open spec fn epoch_steps<
    T,
    F: Fn(T, T, T) -> T,
    G: Fn(T, T) -> T,
    P: Fn(T) -> bool,
    R: Fn(T) -> T,
    M: Fn(T, T) -> T,
    E: Fn(T, T) -> T,
    D: Fn(T, T) -> T,
    L: Fn(T, T, T) -> T,
    A: Fn(T, usize) -> T,
    O: Fn(T) -> T,
    S: Fn(T, usize) -> T,
    N: Fn(u8) -> T,
    B: Fn(u64) -> U,
    U: Fn(T, T, T, T) -> (T, T, T),
>(
    trace: Seq<(TwoLayerNetwork<T>, TwoLayerAdamState<T>)>,
    ops: LayerArithmetic<T, F, G, P, R>,
    loss_ops: LossArithmetic<M, E, D, L, A, O, S>,
    normalize: N,
    rule: B,
    dataset: MnistDataset,
    order: Seq<usize>,
    batch_size: int,
    steps: nat,
) -> bool
    decreases steps,
{
    if steps == 0 {
        true
    } else {
        let index = steps - 1;
        let indices = epoch_batch(order, batch_size, index);
        &&& epoch_steps(trace, ops, loss_ops, normalize, rule, dataset, order, batch_size, (steps - 1) as nat)
        &&& trace[index].0.adam_stepped(
            trace[index + 1].0,
            trace[index].1,
            trace[index + 1].1,
            ops,
            loss_ops,
            gathered_images(dataset, normalize, indices),
            gathered_labels(dataset, indices),
            indices.len() as int,
            apply1(rule, (trace[index].1.first_state().steps() + 1) as u64),
            apply1(rule, (trace[index].1.second_state().steps() + 1) as u64),
        )
    }
}

/// The left fold of `plus`, starting at `zero`, over the first `steps`
/// batches of the epoch of `weigh(training loss of the batch, batch size)`,
/// each loss that of the network in `trace` before the batch's step.
pub open spec fn epoch_total<
    T,
    F: Fn(T, T, T) -> T,
    G: Fn(T, T) -> T,
    P: Fn(T) -> bool,
    R: Fn(T) -> T,
    M: Fn(T, T) -> T,
    E: Fn(T, T) -> T,
    D: Fn(T, T) -> T,
    L: Fn(T, T, T) -> T,
    A: Fn(T, usize) -> T,
    O: Fn(T) -> T,
    S: Fn(T, usize) -> T,
    N: Fn(u8) -> T,
    K: Fn(T, usize) -> T,
>(
    trace: Seq<(TwoLayerNetwork<T>, TwoLayerAdamState<T>)>,
    ops: LayerArithmetic<T, F, G, P, R>,
    loss_ops: LossArithmetic<M, E, D, L, A, O, S>,
    normalize: N,
    weigh: K,
    dataset: MnistDataset,
    order: Seq<usize>,
    batch_size: int,
    steps: nat,
) -> T
    decreases steps,
{
    if steps == 0 {
        ops.zero
    } else {
        let index = steps - 1;
        let indices = epoch_batch(order, batch_size, index);
        apply2(
            ops.plus,
            epoch_total(trace, ops, loss_ops, normalize, weigh, dataset, order, batch_size, (steps - 1) as nat),
            apply2(
                weigh,
                trace[index].0.training_loss(
                    ops,
                    loss_ops,
                    gathered_images(dataset, normalize, indices),
                    gathered_labels(dataset, indices),
                    indices.len() as int,
                ),
                indices.len() as usize,
            ),
        )
    }
}

/// Extending a trace keeps the steps that it already had.
proof fn lemma_epoch_extend<
    T,
    F: Fn(T, T, T) -> T,
    G: Fn(T, T) -> T,
    P: Fn(T) -> bool,
    R: Fn(T) -> T,
    M: Fn(T, T) -> T,
    E: Fn(T, T) -> T,
    D: Fn(T, T) -> T,
    L: Fn(T, T, T) -> T,
    A: Fn(T, usize) -> T,
    O: Fn(T) -> T,
    S: Fn(T, usize) -> T,
    N: Fn(u8) -> T,
    B: Fn(u64) -> U,
    U: Fn(T, T, T, T) -> (T, T, T),
    K: Fn(T, usize) -> T,
>(
    trace: Seq<(TwoLayerNetwork<T>, TwoLayerAdamState<T>)>,
    next: (TwoLayerNetwork<T>, TwoLayerAdamState<T>),
    ops: LayerArithmetic<T, F, G, P, R>,
    loss_ops: LossArithmetic<M, E, D, L, A, O, S>,
    normalize: N,
    rule: B,
    weigh: K,
    dataset: MnistDataset,
    order: Seq<usize>,
    batch_size: int,
    steps: nat,
)
    requires
        steps < trace.len(),
    ensures
        epoch_steps(trace.push(next), ops, loss_ops, normalize, rule, dataset, order, batch_size, steps)
            == epoch_steps(trace, ops, loss_ops, normalize, rule, dataset, order, batch_size, steps),
        epoch_total(trace.push(next), ops, loss_ops, normalize, weigh, dataset, order, batch_size, steps)
            == epoch_total(trace, ops, loss_ops, normalize, weigh, dataset, order, batch_size, steps),
    decreases steps,
{
    if steps > 0 {
        lemma_epoch_extend(
            trace,
            next,
            ops,
            loss_ops,
            normalize,
            rule,
            weigh,
            dataset,
            order,
            batch_size,
            (steps - 1) as nat,
        );
        assert(trace.push(next)[steps - 1] == trace[steps - 1]);
        assert(trace.push(next)[steps as int] == trace[steps as int]);
    }
}

/// Trains a network for one epoch with Adam: visits the examples in an
/// order shuffled by `rng`, in batches of `batch_size` (the last one
/// possibly shorter), and takes one Adam step per batch, each layer with
/// the rule that `rule` gives for its new step count. Returns `mean` of the
/// left fold of `plus` from `zero` of `weigh(training loss of the batch,
/// batch size)` over the batches and the number of examples.
pub fn train_epoch_adam<
    T: Copy,
    F: Fn(T, T, T) -> T + Copy,
    G: Fn(T, T) -> T + Copy,
    P: Fn(T) -> bool + Copy,
    R: Fn(T) -> T + Copy,
    M: Fn(T, T) -> T + Copy,
    E: Fn(T, T) -> T + Copy,
    D: Fn(T, T) -> T + Copy,
    L: Fn(T, T, T) -> T + Copy,
    A: Fn(T, usize) -> T + Copy,
    O: Fn(T) -> T + Copy,
    S: Fn(T, usize) -> T + Copy,
    N: Fn(u8) -> T + Copy,
    B: Fn(u64) -> U,
    U: Fn(T, T, T, T) -> (T, T, T) + Copy,
    K: Fn(T, usize) -> T,
    Q: Fn(T, usize) -> T,
>(
    network: &mut TwoLayerNetwork<T>,
    dataset: &MnistDataset,
    batch_size: usize,
    ops: &LayerArithmetic<T, F, G, P, R>,
    loss_ops: &LossArithmetic<M, E, D, L, A, O, S>,
    normalize: N,
    state: &mut TwoLayerAdamState<T>,
    rng: &mut Rng,
    rule: B,
    weigh: K,
    mean: Q,
) -> (loss: T)
    requires
        old(network).wf(),
        dataset.wf(),
        batch_size > 0,
        dataset.pixel_count() == old(network).input_count(),
        batch_size * dataset.pixel_count() <= usize::MAX,
        largest_batch(dataset.label_seq().len() as int, batch_size as int) * old(network).hidden_count()
            <= usize::MAX,
        largest_batch(dataset.label_seq().len() as int, batch_size as int) * old(network).output_count()
            <= usize::MAX,
        forall|i: int|
            0 <= i < dataset.label_seq().len() ==> #[trigger] dataset.label_seq()[i]
                < old(network).output_count(),
        old(state).wf(),
        old(state).matches(*old(network)),
        old(state).first_state().steps() + (dataset.label_seq().len() + batch_size - 1) / batch_size as int
            <= u64::MAX,
        old(state).second_state().steps() + (dataset.label_seq().len() + batch_size - 1) / batch_size as int
            <= u64::MAX,
        ops.total(),
        loss_arithmetic_total(*loss_ops),
        is_function1(normalize),
        is_function1(rule),
        forall|step: u64, p: T, g: T, m: T, v: T| #[trigger] apply1(rule, step).requires((p, g, m, v)),
        is_function2(weigh),
        is_function2(mean),
    ensures
        ({
            let count = dataset.label_seq().len();
            let batches = ((count + batch_size - 1) / batch_size as int) as nat;
            let order = epoch_order(count, old(rng)@);
            &&& final(rng)@ == spec_shuffle(Seq::new(count, |i: int| i as usize), old(rng)@).1
            &&& exists|trace: Seq<(TwoLayerNetwork<T>, TwoLayerAdamState<T>)>|
                {
                    &&& trace.len() == batches + 1
                    &&& trace[0] == (*old(network), *old(state))
                    &&& trace[batches as int] == (*final(network), *final(state))
                    &&& #[trigger] epoch_steps(
                        trace,
                        *ops,
                        *loss_ops,
                        normalize,
                        rule,
                        *dataset,
                        order,
                        batch_size as int,
                        batches,
                    )
                    &&& loss == apply2(
                        mean,
                        epoch_total(
                            trace,
                            *ops,
                            *loss_ops,
                            normalize,
                            weigh,
                            *dataset,
                            order,
                            batch_size as int,
                            batches,
                        ),
                        count as usize,
                    )
                }
        }),
{
    let count = dataset.len();
    let size = dataset.image_size();
    let mut order: Vec<usize> = Vec::new();
    let mut next_index: usize = 0;
    while next_index < count
        invariant
            next_index <= count,
            order@ == Seq::new(next_index as nat, |i: int| i as usize),
        decreases count - next_index,
    {
        order.push(next_index);
        next_index = next_index + 1;
        assert(order@ =~= Seq::new(next_index as nat, |i: int| i as usize));
    }
    rng.shuffle(order.as_mut_slice());
    proof {
        lemma_epoch_order(count as nat, old(rng)@);
    }
    let buffer_shape: Vec<usize> = vec![batch_size, size];
    proof {
        lemma_matrix_product(buffer_shape@);
    }
    let mut reusable_inputs = Tensor::zeros(buffer_shape.as_slice(), ops.zero);
    let mut reusable_labels: Vec<usize> = Vec::new();
    let ranges = batch_ranges(count, batch_size);
    let ghost batches = ranges@.len();
    let ghost first_order = order@;
    let mut total = ops.zero;
    let mut trained: usize = 0;
    let ghost mut trace: Seq<(TwoLayerNetwork<T>, TwoLayerAdamState<T>)> = seq![(*network, *state)];
    let mut batch: usize = 0;
    while batch < ranges.len()
        invariant
            network.wf(),
            dataset.wf(),
            state.wf(),
            state.matches(*network),
            count == dataset.label_seq().len(),
            size == dataset.pixel_count(),
            batch_size > 0,
            batch_size * size <= usize::MAX,
            order@ == first_order,
            first_order == epoch_order(count as nat, old(rng)@),
            rng@ == spec_shuffle(Seq::new(count as nat, |i: int| i as usize), old(rng)@).1,
            first_order.len() == count,
            forall|i: int| 0 <= i < count ==> #[trigger] first_order[i] < count,
            ranges@.len() == batches,
            batches == (count + batch_size - 1) / batch_size as int,
            forall|k: int|
                0 <= k < ranges@.len() ==> #[trigger] ranges@[k] == (
                    (k * batch_size) as usize,
                    batch_end(count as int, batch_size as int, k) as usize,
                ),
            forall|k: int|
                0 <= k < ranges@.len() ==> 0 < #[trigger] ranges@[k].1 - ranges@[k].0 <= batch_size,
            forall|k: int| 0 <= k < ranges@.len() - 1 ==> #[trigger] ranges@[k].1 == ranges@[k + 1].0,
            forall|k: int| 0 <= k < ranges@.len() ==> #[trigger] ranges@[k].0 == k * batch_size,
            count > 0 ==> ranges@.last().1 == count,
            batch <= ranges@.len(),
            batch == 0 ==> trained == 0,
            batch > 0 ==> trained == ranges@[batch - 1].1,
            reusable_inputs.wf(),
            reusable_inputs.dims() == seq![batch_size, size],
            network.input_count() == old(network).input_count(),
            network.hidden_count() == old(network).hidden_count(),
            network.output_count() == old(network).output_count(),
            dataset.pixel_count() == old(network).input_count(),
            largest_batch(count as int, batch_size as int) * old(network).hidden_count() <= usize::MAX,
            largest_batch(count as int, batch_size as int) * old(network).output_count() <= usize::MAX,
            forall|i: int|
                0 <= i < dataset.label_seq().len() ==> #[trigger] dataset.label_seq()[i]
                    < old(network).output_count(),
            state.first_state().steps() == old(state).first_state().steps() + batch,
            state.second_state().steps() == old(state).second_state().steps() + batch,
            old(state).first_state().steps() + batches <= u64::MAX,
            old(state).second_state().steps() + batches <= u64::MAX,
            ops.total(),
            loss_arithmetic_total(*loss_ops),
            is_function1(normalize),
            is_function1(rule),
            forall|step: u64, p: T, g: T, m: T, v: T| #[trigger] apply1(rule, step).requires((p, g, m, v)),
            is_function2(weigh),
            trace.len() == batch + 1,
            trace[0] == (*old(network), *old(state)),
            trace[batch as int] == (*network, *state),
            epoch_steps(
                trace,
                *ops,
                *loss_ops,
                normalize,
                rule,
                *dataset,
                first_order,
                batch_size as int,
                batch as nat,
            ),
            total == epoch_total(
                trace,
                *ops,
                *loss_ops,
                normalize,
                weigh,
                *dataset,
                first_order,
                batch_size as int,
                batch as nat,
            ),
        decreases ranges.len() - batch,
    {
        let (start, end) = ranges[batch];
        proof {
            if batch > 0 {
                assert(ranges@[batch - 1].1 == ranges@[batch as int].0);
            }
        }
        let indices = &order.as_slice()[start..end];
        let ghost expected_indices = epoch_batch(first_order, batch_size as int, batch as int);
        proof {
            assert(start == batch * batch_size);
            assert(end == batch_end(count as int, batch_size as int, batch as int));
            assert(indices@ =~= expected_indices);
            assert forall|b: int| 0 <= b < indices@.len() implies #[trigger] indices@[b] < count by {
                assert(indices@[b] == first_order[start + b]);
            }
        }
        let first_rule = rule(state.dense1().step() + 1);
        let second_rule = rule(state.dense2().step() + 1);
        proof {
            lemma_apply1(rule, (state.first_state().steps() + 1) as u64, first_rule);
            lemma_apply1(rule, (state.second_state().steps() + 1) as u64, second_rule);
        }
        let ghost before_network = *network;
        let ghost before_state = *state;
        let ghost images = gathered_images(*dataset, normalize, expected_indices);
        let ghost labels_wanted = gathered_labels(*dataset, expected_indices);
        let ghost rows = end - start;
        proof {
            let hidden = old(network).hidden_count() as int;
            let classes = old(network).output_count() as int;
            let largest = largest_batch(count as int, batch_size as int);
            assert(rows <= largest);
            assert(rows * hidden <= largest * hidden) by (nonlinear_arith)
                requires
                    rows <= largest,
                    hidden >= 0,
            ;
            assert(rows * classes <= largest * classes) by (nonlinear_arith)
                requires
                    rows <= largest,
                    classes >= 0,
            ;
            assert(rows * size <= batch_size * size) by (nonlinear_arith)
                requires
                    rows <= batch_size,
                    size >= 0,
            ;
        }
        let loss = if end - start == batch_size {
            dataset.fill_batch(indices, &mut reusable_inputs, &mut reusable_labels, normalize);
            proof {
                lemma_gathered(reusable_inputs, *dataset, normalize, indices@);
                assert(reusable_labels@ =~= labels_wanted);
            }
            network.train_batch_adam(
                &reusable_inputs,
                reusable_labels.as_slice(),
                ops,
                loss_ops,
                state,
                first_rule,
                second_rule,
            )
        } else {
            let (inputs, labels) = dataset.batch(indices, normalize);
            proof {
                lemma_gathered(inputs, *dataset, normalize, indices@);
                assert(labels@ =~= labels_wanted);
            }
            network.train_batch_adam(&inputs, labels.as_slice(), ops, loss_ops, state, first_rule, second_rule)
        };
        let weighted = weigh(loss, end - start);
        let next = (ops.plus)(total, weighted);
        proof {
            lemma_apply2(weigh, loss, (end - start) as usize, weighted);
            lemma_apply2(ops.plus, total, weighted, next);
            lemma_epoch_extend(
                trace,
                (*network, *state),
                *ops,
                *loss_ops,
                normalize,
                rule,
                weigh,
                *dataset,
                first_order,
                batch_size as int,
                batch as nat,
            );
            trace = trace.push((*network, *state));
        }
        total = next;
        trained = end;
        batch = batch + 1;
    }
    let result = mean(total, trained);
    proof {
        lemma_apply2(mean, total, trained, result);
        assert(batches >= 1) by (nonlinear_arith)
            requires
                batches == (count + batch_size - 1) / batch_size as int,
                count >= 1,
                batch_size >= 1,
        ;
        assert(ranges@.last() == ranges@[batches - 1]);
        assert(trained == count);
        let order = epoch_order(dataset.label_seq().len(), old(rng)@);
        let steps = ((dataset.label_seq().len() + batch_size - 1) / batch_size as int) as nat;
        assert(order == first_order);
        assert(steps == batches);
        assert(trace.len() == steps + 1);
        assert(trace[steps as int] == (*network, *state));
        assert(epoch_steps(
            trace,
            *ops,
            *loss_ops,
            normalize,
            rule,
            *dataset,
            order,
            batch_size as int,
            steps,
        ));
        assert(result == apply2(
            mean,
            epoch_total(
                trace,
                *ops,
                *loss_ops,
                normalize,
                weigh,
                *dataset,
                order,
                batch_size as int,
                steps,
            ),
            dataset.label_seq().len() as usize,
        ));
    }
    result
}

} // verus!
