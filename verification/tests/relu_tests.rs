use ml_engine::relu::ReLU;
use ml_engine::tensor::Tensor;

#[test]
fn forward_keeps_positive_inputs_and_backward_follows_the_mask() {
    let mut relu = ReLU::new();
    let input = Tensor::from_vec(vec![-1.0f32, 0.0, 2.5, 3.0], &[2, 2]);
    let output = relu.forward(&input, 0.0, |value| value > 0.0);
    assert_eq!(output.data(), &[0.0, 0.0, 2.5, 3.0]);
    assert_eq!(output.shape(), &[2, 2]);
    let gradients = Tensor::from_vec(vec![10.0f32, 20.0, 30.0, 40.0], &[2, 2]);
    let passed = relu.backward(&gradients, 0.0);
    assert_eq!(passed.data(), &[0.0, 0.0, 30.0, 40.0]);
}

#[test]
fn a_new_forward_replaces_the_mask() {
    let mut relu = ReLU::default();
    relu.forward(&Tensor::from_vec(vec![1, 1, 1], &[3]), 0, |value: i32| value > 0);
    relu.forward(&Tensor::from_vec(vec![1, -1], &[2]), 0, |value: i32| value > 0);
    let passed = relu.backward(&Tensor::from_vec(vec![5, 6], &[2]), 0);
    assert_eq!(passed.data(), &[5, 0]);
}

#[test]
fn forward_inference_rectifies_without_remembering() {
    let relu = ReLU::new();
    let input = Tensor::from_vec(vec![-2.0f32, 0.5, 0.0, 7.0], &[4]);
    let output = relu.forward_inference(&input, |value: f32| value.max(0.0));
    assert_eq!(output.data(), &[0.0, 0.5, 0.0, 7.0]);
    assert_eq!(output.shape(), &[4]);
    assert!(relu.cached_shape().is_empty());
}
