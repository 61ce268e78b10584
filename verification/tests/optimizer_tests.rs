use ml_engine::dense::Dense;
use ml_engine::optimizer::AdamState;
use ml_engine::tensor::Tensor;

fn multiply_add(accumulator: f32, left: f32, right: f32) -> f32 {
    accumulator + left * right
}

fn plus(left: f32, right: f32) -> f32 {
    left + right
}

#[test]
fn adam_first_step_uses_bias_corrected_moments() {
    let weights = Tensor::from_vec(vec![2.0f32], &[1, 1]);
    let biases = Tensor::from_vec(vec![1.0f32], &[1]);
    let mut layer = Dense::from_parameters(weights, biases, 0.0);

    let input = Tensor::from_vec(vec![3.0f32], &[1, 1]);
    layer.forward(&input, 0.0, multiply_add, plus);
    layer.backward(&Tensor::from_vec(vec![4.0f32], &[1, 1]), 0.0, multiply_add, plus);

    let (learning_rate, beta1, beta2, epsilon) = (0.1f32, 0.9f32, 0.999f32, 1e-8f32);
    let mut state = AdamState::for_dense(&layer, 0.0f32);
    let step = state.advance() as f32;
    let first_correction = 1.0 - beta1.powf(step);
    let second_correction = 1.0 - beta2.powf(step);
    state.update_dense(&mut layer, move |parameter: f32, gradient: f32, first: f32, second: f32| {
        let first = beta1 * first + (1.0 - beta1) * gradient;
        let second = beta2 * second + (1.0 - beta2) * gradient * gradient;
        let update = learning_rate * (first / first_correction)
            / ((second / second_correction).sqrt() + epsilon);
        (parameter - update, first, second)
    });

    assert!((layer.weights().data()[0] - 1.9).abs() < 0.00001);
    assert!((layer.biases().data()[0] - 0.9).abs() < 0.00001);
    assert_eq!(state.step(), 1);
}

#[test]
fn update_dense_moves_parameters_and_moments_together() {
    let weights = Tensor::from_vec(vec![1i64, 2, 3, 4], &[2, 2]);
    let biases = Tensor::from_vec(vec![10i64, 20], &[2]);
    let mut layer = Dense::from_parameters(weights, biases, 0);
    let mut state = AdamState::for_dense(&layer, 0i64);
    assert_eq!(state.step(), 0);
    assert_eq!(state.weight_first_moment().data(), &[0, 0, 0, 0]);
    state.update_dense(&mut layer, |parameter: i64, gradient: i64, first: i64, second: i64| {
        (parameter + 1, first + gradient + parameter, second + 7)
    });
    assert_eq!(layer.weights().data(), &[2, 3, 4, 5]);
    assert_eq!(layer.biases().data(), &[11, 21]);
    assert_eq!(state.weight_first_moment().data(), &[1, 2, 3, 4]);
    assert_eq!(state.bias_first_moment().data(), &[10, 20]);
    assert_eq!(state.advance(), 1);
    assert_eq!(state.advance(), 2);
    assert_eq!(state.step(), 2);
}
