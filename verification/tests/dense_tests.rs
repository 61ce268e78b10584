use ml_engine::dense::Dense;
use ml_engine::tensor::Tensor;

fn multiply_add(accumulator: i64, left: i64, right: i64) -> i64 {
    accumulator + left * right
}

fn plus(left: i64, right: i64) -> i64 {
    left + right
}

fn layer() -> Dense<i64> {
    let weights = Tensor::from_vec(vec![1, 2, 3, 4, 5, 6], &[3, 2]);
    let biases = Tensor::from_vec(vec![10, 20], &[2]);
    Dense::from_parameters(weights, biases, 0)
}

#[test]
fn forward_is_input_times_weights_plus_biases() {
    let mut dense = layer();
    assert_eq!(dense.input_size(), 3);
    assert_eq!(dense.output_size(), 2);
    assert!(dense.input_cache().is_none());
    let input = Tensor::from_vec(vec![1, 0, -1, 2, 1, 0], &[2, 3]);
    let output = dense.forward(&input, 0, multiply_add, plus);
    assert_eq!(output.shape(), &[2, 2]);
    assert_eq!(output.data(), &[1 - 5 + 10, 2 - 6 + 20, 2 + 3 + 10, 4 + 4 + 20]);
    assert_eq!(dense.input_cache().unwrap().data(), input.data());
    assert_eq!(dense.forward_inference(&input, 0, multiply_add, plus).data(), output.data());
}

#[test]
fn backward_fills_gradients_and_returns_input_gradients() {
    let mut dense = layer();
    let input = Tensor::from_vec(vec![1, 0, -1, 2, 1, 0], &[2, 3]);
    dense.forward(&input, 0, multiply_add, plus);
    let upstream = Tensor::from_vec(vec![1, 2, 3, 4], &[2, 2]);
    let input_gradients = dense.backward(&upstream, 0, multiply_add, plus);
    assert_eq!(dense.weight_gradients().shape(), &[3, 2]);
    assert_eq!(dense.weight_gradients().data(), &[7, 10, 3, 4, -1, -2]);
    assert_eq!(dense.bias_gradients().data(), &[4, 6]);
    assert_eq!(input_gradients.shape(), &[2, 3]);
    assert_eq!(input_gradients.data(), &[5, 11, 17, 11, 25, 39]);
    dense.zero_grad(0);
    assert_eq!(dense.weight_gradients().data(), &[0, 0, 0, 0, 0, 0]);
    assert_eq!(dense.bias_gradients().data(), &[0, 0]);
}

#[test]
fn forward_reuses_or_replaces_the_cache() {
    let mut dense = layer();
    dense.forward(&Tensor::from_vec(vec![1, 1, 1], &[1, 3]), 0, multiply_add, plus);
    dense.forward(&Tensor::from_vec(vec![2, 2, 2], &[1, 3]), 0, multiply_add, plus);
    assert_eq!(dense.input_cache().unwrap().data(), &[2, 2, 2]);
    dense.forward(&Tensor::from_vec(vec![3, 3, 3, 4, 4, 4], &[2, 3]), 0, multiply_add, plus);
    assert_eq!(dense.input_cache().unwrap().shape(), &[2, 3]);
}

#[test]
fn apply_sgd_uses_each_gradient() {
    let mut dense = layer();
    dense.forward(&Tensor::from_vec(vec![1, 0, 0], &[1, 3]), 0, multiply_add, plus);
    dense.backward(&Tensor::from_vec(vec![1, 1], &[1, 2]), 0, multiply_add, plus);
    dense.apply_sgd(|parameter: i64, gradient: i64| parameter - 2 * gradient);
    assert_eq!(dense.weights().data(), &[-1, 0, 3, 4, 5, 6]);
    assert_eq!(dense.biases().data(), &[8, 18]);
    *dense.weights_mut() = Tensor::from_vec(vec![0, 0, 0, 0, 0, 0], &[3, 2]);
    *dense.biases_mut() = Tensor::from_vec(vec![1, 1], &[2]);
    assert_eq!(dense.weights().data(), &[0, 0, 0, 0, 0, 0]);
    assert_eq!(dense.biases().data(), &[1, 1]);
}
