use ml_engine::dense::Dense;
use ml_engine::loss::SoftmaxCrossEntropy;
use ml_engine::model::{LayerArithmetic, LossArithmetic, TwoLayerNetwork};
use ml_engine::model_format::ModelError;
use ml_engine::optimizer::AdamState;
use ml_engine::relu::ReLU;
use ml_engine::tensor::Tensor;

fn multiply_add(accumulator: f64, left: f64, right: f64) -> f64 {
    accumulator + left * right
}

fn plus(left: f64, right: f64) -> f64 {
    left + right
}

fn is_positive(value: f64) -> bool {
    value > 0.0
}

fn rectify(value: f64) -> f64 {
    value.max(0.0)
}

fn maximum(best: f64, value: f64) -> f64 {
    best.max(value)
}

fn shifted_exp(logit: f64, maximum: f64) -> f64 {
    (logit - maximum).exp()
}

fn divide(exponential: f64, sum: f64) -> f64 {
    exponential / sum
}

fn row_loss(maximum: f64, sum: f64, correct: f64) -> f64 {
    maximum + sum.ln() - correct
}

fn average(total: f64, batch: usize) -> f64 {
    total / batch as f64
}

fn minus_one(probability: f64) -> f64 {
    probability - 1.0
}

fn scale(gradient: f64, batch: usize) -> f64 {
    gradient * (1.0 / batch as f64)
}

fn greater(left: f64, right: f64) -> bool {
    left > right
}

type LayerOps = LayerArithmetic<f64, fn(f64, f64, f64) -> f64, fn(f64, f64) -> f64, fn(f64) -> bool, fn(f64) -> f64>;

type LossOps = LossArithmetic<
    fn(f64, f64) -> f64,
    fn(f64, f64) -> f64,
    fn(f64, f64) -> f64,
    fn(f64, f64, f64) -> f64,
    fn(f64, usize) -> f64,
    fn(f64) -> f64,
    fn(f64, usize) -> f64,
>;

fn layer_ops() -> LayerOps {
    LayerArithmetic { zero: 0.0, multiply_add, plus, is_positive, rectify }
}

fn loss_ops() -> LossOps {
    LossArithmetic { maximum, shifted_exp, divide, row_loss, average, minus_one, scale }
}

fn first_layer() -> Dense<f64> {
    Dense::from_parameters(
        Tensor::from_vec(vec![1.0, -1.0, 2.0, 0.5], &[2, 2]),
        Tensor::from_vec(vec![0.0, 0.5], &[2]),
        0.0,
    )
}

fn second_layer() -> Dense<f64> {
    Dense::from_parameters(
        Tensor::from_vec(vec![1.0, 2.0, 0.0, 0.0, 1.0, -1.0], &[2, 3]),
        Tensor::from_vec(vec![0.1, 0.0, -0.1], &[3]),
        0.0,
    )
}

fn network() -> TwoLayerNetwork<f64> {
    TwoLayerNetwork::from_layers(first_layer(), second_layer())
}

fn batch() -> (Tensor<f64>, Vec<usize>) {
    (Tensor::from_vec(vec![1.0, 2.0, -1.0, 0.5], &[2, 2]), vec![1, 0])
}

fn sgd_update(parameter: f64, gradient: f64) -> f64 {
    parameter - 0.1 * gradient
}

fn adam_update(parameter: f64, gradient: f64, first: f64, second: f64) -> (f64, f64, f64) {
    let first = 0.9 * first + 0.1 * gradient;
    let second = 0.99 * second + 0.01 * gradient * gradient;
    (parameter - 0.05 * first / (second.sqrt() + 1e-8), first, second)
}

/// The training pass done layer by layer, as the network should wire it.
fn manual_pass(first: &mut Dense<f64>, second: &mut Dense<f64>, input: &Tensor<f64>, labels: &[usize]) -> f64 {
    let mut relu = ReLU::new();
    let mut loss = SoftmaxCrossEntropy::new();
    let hidden_linear = first.forward(input, 0.0, multiply_add, plus);
    let hidden = relu.forward(&hidden_linear, 0.0, is_positive);
    let logits = second.forward(&hidden, 0.0, multiply_add, plus);
    let value = loss.forward(&logits, labels, 0.0, maximum, shifted_exp, plus, divide, row_loss, average);
    let logit_gradients = loss.backward(minus_one, scale);
    let hidden_gradients = second.backward(&logit_gradients, 0.0, multiply_add, plus);
    let linear_gradients = relu.backward(&hidden_gradients, 0.0);
    first.backward(&linear_gradients, 0.0, multiply_add, plus);
    value
}

#[test]
fn logits_run_both_layers_with_the_rectifier() {
    let network = network();
    assert_eq!(network.input_size(), 2);
    assert_eq!(network.hidden_size(), 2);
    assert_eq!(network.output_size(), 3);
    let input = Tensor::from_vec(vec![1.0, 2.0], &[1, 2]);
    let logits = network.logits(&input, &layer_ops());
    assert_eq!(logits.shape(), &[1, 3]);
    assert_eq!(logits.data(), &[5.1, 10.5, -0.6]);
    assert_eq!(network.predict(&input, &layer_ops(), greater), vec![1]);
}

#[test]
fn negative_hidden_values_are_cut_off() {
    let mut network = network();
    let input = Tensor::from_vec(vec![-1.0, 0.5], &[1, 2]);
    // The first layer gives [0, 1.75]: the ReLU keeps only the second unit.
    let logits = network.logits(&input, &layer_ops());
    assert_eq!(logits.data(), &[0.1, 1.75, -1.85]);
    assert_eq!(network.forward(&input, &layer_ops()).data(), logits.data());
    assert_eq!(network.dense2().input_cache().unwrap().data(), &[0.0, 1.75]);
    assert_eq!(network.dense1().input_cache().unwrap().data(), input.data());
}

#[test]
fn train_batch_matches_the_layers_run_by_hand() {
    let (input, labels) = batch();
    let mut network = network();
    let loss = network.train_batch(&input, &labels, &layer_ops(), &loss_ops(), sgd_update);

    let mut first = first_layer();
    let mut second = second_layer();
    let expected_loss = manual_pass(&mut first, &mut second, &input, &labels);
    first.apply_sgd(sgd_update);
    second.apply_sgd(sgd_update);

    assert_eq!(loss, expected_loss);
    assert_eq!(network.dense1().weights().data(), first.weights().data());
    assert_eq!(network.dense1().biases().data(), first.biases().data());
    assert_eq!(network.dense2().weights().data(), second.weights().data());
    assert_eq!(network.dense2().biases().data(), second.biases().data());
    assert_eq!(network.dense1().weight_gradients().data(), first.weight_gradients().data());
    assert_eq!(network.dense2().bias_gradients().data(), second.bias_gradients().data());
    assert_ne!(network.dense1().weights().data(), first_layer().weights().data());
}

#[test]
fn train_batch_adam_matches_the_layers_run_by_hand() {
    let (input, labels) = batch();
    let mut network = network();
    let mut state = network.adam_state(0.0);
    assert_eq!(state.dense1().step(), 0);
    let loss = network.train_batch_adam(
        &input,
        &labels,
        &layer_ops(),
        &loss_ops(),
        &mut state,
        adam_update,
        adam_update,
    );
    assert_eq!(state.dense1().step(), 1);
    assert_eq!(state.dense2().step(), 1);

    let mut first = first_layer();
    let mut second = second_layer();
    let expected_loss = manual_pass(&mut first, &mut second, &input, &labels);
    let mut first_state = AdamState::for_dense(&first, 0.0);
    let mut second_state = AdamState::for_dense(&second, 0.0);
    first_state.advance();
    first_state.update_dense(&mut first, adam_update);
    second_state.advance();
    second_state.update_dense(&mut second, adam_update);

    assert_eq!(loss, expected_loss);
    assert_eq!(network.dense1().weights().data(), first.weights().data());
    assert_eq!(network.dense2().biases().data(), second.biases().data());
    assert_eq!(
        state.dense1().weight_first_moment().data(),
        first_state.weight_first_moment().data()
    );
}

#[test]
fn evaluate_batch_gives_the_loss_and_the_hits() {
    let (input, labels) = batch();
    let mut network = network();
    let (loss, correct) = network.evaluate_batch(&input, &labels, &layer_ops(), &loss_ops(), greater);
    assert_eq!(loss, network.loss(&input, &labels, &layer_ops(), &loss_ops()));
    let predictions = network.predict(&input, &layer_ops(), greater);
    let expected = predictions.iter().zip(labels.iter()).filter(|(p, l)| p == l).count();
    assert_eq!(correct, expected);
    assert_eq!(predictions.len(), 2);
}

#[test]
fn zero_grad_clears_both_layers() {
    let (input, labels) = batch();
    let mut network = network();
    network.train_batch(&input, &labels, &layer_ops(), &loss_ops(), sgd_update);
    network.zero_grad(0.0);
    assert!(network.dense1().weight_gradients().data().iter().all(|value| *value == 0.0));
    assert!(network.dense2().bias_gradients().data().iter().all(|value| *value == 0.0));
}

fn multiply_add_f32(accumulator: f32, left: f32, right: f32) -> f32 {
    accumulator + left * right
}

fn plus_f32(left: f32, right: f32) -> f32 {
    left + right
}

fn is_positive_f32(value: f32) -> bool {
    value > 0.0
}

fn rectify_f32(value: f32) -> f32 {
    value.max(0.0)
}

fn f32_layer_ops() -> LayerArithmetic<f32, fn(f32, f32, f32) -> f32, fn(f32, f32) -> f32, fn(f32) -> bool, fn(f32) -> f32> {
    LayerArithmetic {
        zero: 0.0,
        multiply_add: multiply_add_f32,
        plus: plus_f32,
        is_positive: is_positive_f32,
        rectify: rectify_f32,
    }
}

#[test]
fn a_network_rebuilt_from_its_encoded_parameters_predicts_the_same() {
    let original = TwoLayerNetwork::from_layers(
        Dense::from_parameters(
            Tensor::from_vec(vec![0.3f32, -1.2, 0.7, 2.5, -0.4, 0.9, 1.1, -0.6], &[2, 4]),
            Tensor::from_vec(vec![0.05f32, -0.1, 0.2, 0.0], &[4]),
            0.0,
        ),
        Dense::from_parameters(
            Tensor::from_vec(
                vec![0.5f32, -0.25, 1.0, 0.75, 0.1, -0.9, -1.5, 0.3, 0.2, 0.6, 0.4, -0.7],
                &[4, 3],
            ),
            Tensor::from_vec(vec![0.01f32, 0.02, -0.03], &[3]),
            0.0,
        ),
    );
    let input = Tensor::from_vec(vec![1.0f32, 2.0, -1.0, 0.5], &[2, 2]);
    let expected = original.logits(&input, &f32_layer_ops());

    let bytes = original.encode(f32::to_bits);
    let loaded = TwoLayerNetwork::decode(&bytes, 0.0f32, f32::from_bits).unwrap();
    assert_eq!(loaded.input_size(), 2);
    assert_eq!(loaded.hidden_size(), 4);
    assert_eq!(loaded.output_size(), 3);
    assert_eq!(loaded.logits(&input, &f32_layer_ops()).data(), expected.data());
}

#[test]
fn a_truncated_model_file_is_refused() {
    let bytes = network().encode(|value: f64| (value as f32).to_bits());
    assert_eq!(bytes.len(), 32 + (8 + 4 * 4) + (8 + 4 * 2) + (8 + 4 * 6) + (8 + 4 * 3));
    let truncated = &bytes[..bytes.len() - 1];
    let result = TwoLayerNetwork::decode(truncated, 0.0f64, |word: u32| f32::from_bits(word) as f64);
    assert_eq!(result.err(), Some(ModelError::UnexpectedEnd));
    let mut wrong_magic = bytes.clone();
    wrong_magic[0] = b'X';
    let result = TwoLayerNetwork::decode(&wrong_magic, 0.0f64, |word: u32| f32::from_bits(word) as f64);
    assert_eq!(result.err(), Some(ModelError::NotAModel));
}

#[test]
fn a_saved_model_followed_by_other_bytes_loads_the_same() {
    let original = TwoLayerNetwork::from_layers(
        Dense::from_parameters(
            Tensor::from_vec(vec![0.3f32, -1.2, 0.7, 2.5, -0.4, 0.9, 1.1, -0.6], &[2, 4]),
            Tensor::from_vec(vec![0.05f32, -0.1, 0.2, 0.0], &[4]),
            0.0,
        ),
        Dense::from_parameters(
            Tensor::from_vec(
                vec![0.5f32, -0.25, 1.0, 0.75, 0.1, -0.9, -1.5, 0.3, 0.2, 0.6, 0.4, -0.7],
                &[4, 3],
            ),
            Tensor::from_vec(vec![0.01f32, 0.02, -0.03], &[3]),
            0.0,
        ),
    );
    let input = Tensor::from_vec(vec![1.0f32, 2.0, -1.0, 0.5], &[2, 2]);
    let expected = original.logits(&input, &f32_layer_ops());
    let mut bytes = original.encode(f32::to_bits);
    bytes.extend_from_slice(b"MLENG001 and more");
    let loaded = TwoLayerNetwork::decode(&bytes, 0.0f32, f32::from_bits).unwrap();
    assert_eq!(loaded.input_size(), 2);
    assert_eq!(loaded.hidden_size(), 4);
    assert_eq!(loaded.output_size(), 3);
    assert_eq!(loaded.dense1().weights().data(), original.dense1().weights().data());
    assert_eq!(loaded.dense1().biases().data(), original.dense1().biases().data());
    assert_eq!(loaded.dense2().weights().data(), original.dense2().weights().data());
    assert_eq!(loaded.dense2().biases().data(), original.dense2().biases().data());
    assert!(loaded.dense1().weight_gradients().data().iter().all(|value| *value == 0.0));
    assert!(loaded.dense1().bias_gradients().data().iter().all(|value| *value == 0.0));
    assert!(loaded.dense2().weight_gradients().data().iter().all(|value| *value == 0.0));
    assert!(loaded.dense2().bias_gradients().data().iter().all(|value| *value == 0.0));
    assert_eq!(loaded.logits(&input, &f32_layer_ops()).data(), expected.data());
}
