use ml_engine::loss::SoftmaxCrossEntropy;
use ml_engine::tensor::Tensor;

fn forward_f64(loss: &mut SoftmaxCrossEntropy<f64>, logits: &Tensor<f64>, labels: &[usize]) -> f64 {
    loss.forward(
        logits,
        labels,
        0.0,
        |best: f64, value: f64| best.max(value),
        |logit: f64, maximum: f64| (logit - maximum).exp(),
        |left: f64, right: f64| left + right,
        |exponential: f64, sum: f64| exponential / sum,
        |maximum: f64, sum: f64, correct: f64| maximum + sum.ln() - correct,
        |total: f64, batch: usize| total / batch as f64,
    )
}

fn backward_f64(loss: &SoftmaxCrossEntropy<f64>) -> Tensor<f64> {
    loss.backward(
        |probability: f64| probability - 1.0,
        |gradient: f64, batch: usize| gradient * (1.0 / batch as f64),
    )
}

fn close(left: f64, right: f64) -> bool {
    (left - right).abs() < 1e-9
}

#[test]
fn equal_logits_give_uniform_probabilities() {
    let mut loss = SoftmaxCrossEntropy::new();
    assert!(!loss.has_run());
    let logits = Tensor::from_vec(vec![0.0f64, 0.0], &[1, 2]);
    let value = forward_f64(&mut loss, &logits, &[0]);
    assert!(loss.has_run());
    assert!(close(value, 2.0f64.ln()));
    let probabilities = loss.probabilities();
    assert_eq!(probabilities.shape(), &[1, 2]);
    assert!(close(probabilities.data()[0], 0.5));
    assert!(close(probabilities.data()[1], 0.5));
    let gradients = backward_f64(&loss);
    assert!(close(gradients.data()[0], -0.5));
    assert!(close(gradients.data()[1], 0.5));
}

#[test]
fn loss_is_the_mean_over_rows() {
    let mut loss = SoftmaxCrossEntropy::new();
    let logits = Tensor::from_vec(vec![1.0f64, 2.0, 3.0, 1.0, 1.0, 1.0], &[2, 3]);
    let value = forward_f64(&mut loss, &logits, &[2, 0]);
    let first_sum = (-2.0f64).exp() + (-1.0f64).exp() + 1.0;
    let first_loss = 3.0 + first_sum.ln() - 3.0;
    let second_loss = 1.0 + 3.0f64.ln() - 1.0;
    assert!(close(value, (first_loss + second_loss) / 2.0));
    let probabilities = loss.probabilities().data().to_vec();
    assert!(close(probabilities[2], 1.0 / first_sum));
    assert!(close(probabilities[3], 1.0 / 3.0));
    let gradients = backward_f64(&loss);
    assert!(close(gradients.data()[2], (1.0 / first_sum - 1.0) / 2.0));
    assert!(close(gradients.data()[0], (-2.0f64).exp() / first_sum / 2.0));
    assert!(close(gradients.data()[3], (1.0 / 3.0 - 1.0) / 2.0));
    assert!(close(gradients.data()[4], (1.0 / 3.0) / 2.0));
}

#[test]
fn each_operation_gets_its_arguments_in_order() {
    let mut loss = SoftmaxCrossEntropy::new();
    let logits = Tensor::from_vec(vec![4i64, 9, 2, 7, 1, 3], &[2, 3]);
    let value = loss.forward(
        &logits,
        &[1, 2],
        0,
        |best: i64, value: i64| if value > best { value } else { best },
        |logit: i64, maximum: i64| maximum - logit,
        |left: i64, right: i64| left + right,
        |shifted: i64, sum: i64| shifted * 100 + sum,
        |maximum: i64, sum: i64, correct: i64| maximum * 10000 + sum * 100 + correct,
        |total: i64, batch: usize| total * 10 + batch as i64,
    );
    // Row 0: maximum 9, shifted 5, 0, 7, sum 12, label logit 9.
    // Row 1: maximum 7, shifted 0, 6, 4, sum 10, label logit 3.
    let first = 9 * 10000 + 12 * 100 + 9;
    let second = 7 * 10000 + 10 * 100 + 3;
    assert_eq!(value, (first + second) * 10 + 2);
    assert_eq!(loss.probabilities().data(), &[512, 12, 712, 10, 610, 410]);
    let gradients = loss.backward(|value: i64| value - 1, |value: i64, batch: usize| value * batch as i64);
    assert_eq!(gradients.data(), &[1024, 22, 1424, 20, 1220, 818]);
}
