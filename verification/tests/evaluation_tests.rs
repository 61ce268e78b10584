use ml_engine::dense::Dense;
use ml_engine::mnist::MnistDataset;
use ml_engine::model::{LayerArithmetic, LossArithmetic, TwoLayerNetwork};
use ml_engine::tensor::Tensor;
use ml_engine::rng::Rng;
use ml_engine::training::{evaluate, train_epoch_adam};

fn multiply_add(accumulator: f64, left: f64, right: f64) -> f64 {
    accumulator + left * right
}

fn plus(left: f64, right: f64) -> f64 {
    left + right
}

fn is_positive(value: f64) -> bool {
    value > 0.0
}

fn rectify(value: f64) -> f64 {
    value.max(0.0)
}

fn maximum(best: f64, value: f64) -> f64 {
    best.max(value)
}

fn shifted_exp(logit: f64, maximum: f64) -> f64 {
    (logit - maximum).exp()
}

fn divide(exponential: f64, sum: f64) -> f64 {
    exponential / sum
}

fn row_loss(maximum: f64, sum: f64, correct: f64) -> f64 {
    maximum + sum.ln() - correct
}

fn average(total: f64, batch: usize) -> f64 {
    total / batch as f64
}

fn minus_one(probability: f64) -> f64 {
    probability - 1.0
}

fn scale(gradient: f64, batch: usize) -> f64 {
    gradient * (1.0 / batch as f64)
}

fn greater(left: f64, right: f64) -> bool {
    left > right
}

fn normalize(pixel: u8) -> f64 {
    pixel as f64 / 255.0
}

fn weigh(loss: f64, count: usize) -> f64 {
    loss * count as f64
}

type LayerOps = LayerArithmetic<f64, fn(f64, f64, f64) -> f64, fn(f64, f64) -> f64, fn(f64) -> bool, fn(f64) -> f64>;

type LossOps = LossArithmetic<
    fn(f64, f64) -> f64,
    fn(f64, f64) -> f64,
    fn(f64, f64) -> f64,
    fn(f64, f64, f64) -> f64,
    fn(f64, usize) -> f64,
    fn(f64) -> f64,
    fn(f64, usize) -> f64,
>;

fn layer_ops() -> LayerOps {
    LayerArithmetic { zero: 0.0, multiply_add, plus, is_positive, rectify }
}

fn loss_ops() -> LossOps {
    LossArithmetic { maximum, shifted_exp, divide, row_loss, average, minus_one, scale }
}

/// Five 2 by 2 images: each lights mostly one pixel.
fn dataset() -> MnistDataset {
    let mut images = Vec::new();
    images.extend_from_slice(&2051_u32.to_be_bytes());
    images.extend_from_slice(&5_u32.to_be_bytes());
    images.extend_from_slice(&2_u32.to_be_bytes());
    images.extend_from_slice(&2_u32.to_be_bytes());
    images.extend_from_slice(&[255, 0, 0, 0, 0, 255, 0, 0, 0, 0, 255, 0, 0, 0, 0, 255, 255, 0, 0, 10]);
    let mut labels = Vec::new();
    labels.extend_from_slice(&2049_u32.to_be_bytes());
    labels.extend_from_slice(&5_u32.to_be_bytes());
    labels.extend_from_slice(&[0, 1, 9, 3, 0]);
    MnistDataset::from_bytes(&images, &labels).unwrap()
}

/// Pixel `p` feeds hidden unit `p`, and hidden unit `p` votes for class `p`.
fn network() -> TwoLayerNetwork<f64> {
    let mut first = vec![0.0; 16];
    for pixel in 0..4 {
        first[pixel * 4 + pixel] = 1.0;
    }
    let mut second = vec![0.0; 40];
    for unit in 0..4 {
        second[unit * 10 + unit] = 5.0;
    }
    TwoLayerNetwork::from_layers(
        Dense::from_parameters(Tensor::from_vec(first, &[4, 4]), Tensor::filled(&[4], 0.0), 0.0),
        Dense::from_parameters(Tensor::from_vec(second, &[4, 10]), Tensor::filled(&[10], 0.0), 0.0),
    )
}

#[test]
fn evaluation_counts_the_correct_predictions() {
    let data = dataset();
    let mut network = network();
    let (_, correct) = evaluate(&mut network, &data, 2, &layer_ops(), &loss_ops(), normalize, greater, weigh);
    // Images 0, 1, 3 and 4 are classified as their labels; image 2 (class 2,
    // label 9) is not.
    assert_eq!(correct, 4);
}

#[test]
fn evaluation_matches_the_batches_taken_one_by_one() {
    let data = dataset();
    for batch_size in 1..7 {
        let mut network = network();
        let (total, correct) = evaluate(
            &mut network,
            &data,
            batch_size,
            &layer_ops(),
            &loss_ops(),
            normalize,
            greater,
            weigh,
        );
        let mut expected_total = 0.0;
        let mut expected_correct = 0;
        let mut start = 0;
        while start < data.len() {
            let end = (start + batch_size).min(data.len());
            let (inputs, labels) = data.batch_range(start, end, normalize);
            let (loss, hits) = network.evaluate_batch(&inputs, &labels, &layer_ops(), &loss_ops(), greater);
            expected_total = expected_total + weigh(loss, labels.len());
            expected_correct += hits;
            start = end;
        }
        assert_eq!(total, expected_total);
        assert_eq!(correct, expected_correct);
        assert_eq!(correct, 4);
    }
}

fn adam_rule(step: u64) -> impl Fn(f64, f64, f64, f64) -> (f64, f64, f64) + Copy {
    let correction = 1.0 - 0.9f64.powi(step as i32);
    move |parameter: f64, gradient: f64, first: f64, second: f64| {
        let first = 0.9 * first + 0.1 * gradient;
        let second = 0.99 * second + 0.01 * gradient * gradient;
        (parameter - 0.01 * (first / correction) / (second.sqrt() + 1e-8), first, second)
    }
}

fn mean(total: f64, count: usize) -> f64 {
    total / count as f64
}

#[test]
fn an_epoch_is_the_shuffled_batches_trained_in_turn() {
    let data = dataset();
    for batch_size in 1..7 {
        let mut trained = network();
        let mut state = trained.adam_state(0.0);
        let mut rng = Rng::new(17);
        let loss = train_epoch_adam(
            &mut trained,
            &data,
            batch_size,
            &layer_ops(),
            &loss_ops(),
            normalize,
            &mut state,
            &mut rng,
            adam_rule,
            weigh,
            mean,
        );

        let mut expected_network = network();
        let mut expected_state = expected_network.adam_state(0.0);
        let mut expected_rng = Rng::new(17);
        let mut order: Vec<usize> = (0..data.len()).collect();
        expected_rng.shuffle(&mut order);
        let mut total = 0.0;
        for chunk in order.chunks(batch_size) {
            let (inputs, labels) = data.batch(chunk, normalize);
            let first_rule = adam_rule(expected_state.dense1().step() + 1);
            let second_rule = adam_rule(expected_state.dense2().step() + 1);
            let batch_loss = expected_network.train_batch_adam(
                &inputs,
                &labels,
                &layer_ops(),
                &loss_ops(),
                &mut expected_state,
                first_rule,
                second_rule,
            );
            total = total + weigh(batch_loss, chunk.len());
        }
        assert_eq!(loss, mean(total, data.len()));
        assert_eq!(trained.dense1().weights().data(), expected_network.dense1().weights().data());
        assert_eq!(trained.dense2().biases().data(), expected_network.dense2().biases().data());
        assert_eq!(state.dense1().step(), order.chunks(batch_size).len() as u64);
        assert_eq!(rng.next_u64(), expected_rng.next_u64());
    }
}

#[test]
fn each_row_of_a_batch_is_predicted_as_on_its_own() {
    let data = dataset();
    let network = network();
    let (inputs, _) = data.batch_range(0, data.len(), normalize);
    let together = network.predict(&inputs, &layer_ops(), greater);
    assert_eq!(together, vec![0, 1, 2, 3, 0]);
    for index in 0..data.len() {
        let (alone, _) = data.batch_range(index, index + 1, normalize);
        assert_eq!(network.predict(&alone, &layer_ops(), greater), vec![together[index]]);
    }
}

#[test]
fn evaluation_counts_the_images_predicted_one_at_a_time() {
    let data = dataset();
    let mut expected = 0;
    for index in 0..data.len() {
        let (alone, labels) = data.batch_range(index, index + 1, normalize);
        if network().predict(&alone, &layer_ops(), greater)[0] == labels[0] {
            expected += 1;
        }
    }
    assert_eq!(expected, 4);
    for batch_size in 1..8 {
        let mut network = network();
        let (_, correct) =
            evaluate(&mut network, &data, batch_size, &layer_ops(), &loss_ops(), normalize, greater, weigh);
        assert_eq!(correct, expected);
    }
}
