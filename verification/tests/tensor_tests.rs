use ml_engine::tensor::Tensor;

fn multiply_add(accumulator: f32, left: f32, right: f32) -> f32 {
    accumulator + left * right
}

fn plus(left: f32, right: f32) -> f32 {
    left + right
}

#[test]
fn blocked_matrix_multiplication_matches_expected_values() {
    let left = Tensor::from_vec(vec![1.0f32, 2.0, 3.0, 4.0, 5.0, 6.0], &[2, 3]);
    let right = Tensor::from_vec(vec![7.0f32, 8.0, 9.0, 10.0, 11.0, 12.0], &[3, 2]);
    let mut output = Tensor::filled(&[2, 2], 0.0f32);
    left.matmul_into_blocked(&right, &mut output, 1, 0.0, multiply_add);
    assert_eq!(output.data(), &[58.0, 64.0, 139.0, 154.0]);
}

#[test]
fn sum_rows_into_reuses_output() {
    let matrix = Tensor::from_vec(vec![1.0f32, 2.0, 3.0, 4.0, 5.0, 6.0], &[2, 3]);
    let mut output = Tensor::filled(&[3], 99.0f32);
    matrix.sum_rows_into(&mut output, 0.0, plus);
    assert_eq!(output.data(), &[5.0, 7.0, 9.0]);
}

#[test]
fn every_block_size_gives_the_same_product() {
    let left_values: Vec<i64> = (0..35).map(|value| value % 7 - 3).collect();
    let right_values: Vec<i64> = (0..20).map(|value| value % 5 - 2).collect();
    let left = Tensor::from_vec(left_values, &[7, 5]);
    let right = Tensor::from_vec(right_values, &[5, 4]);
    let step = |accumulator: i64, a: i64, b: i64| accumulator + a * b;
    let expected = left.matmul(&right, 0, step);
    for block_size in 1..10 {
        let mut output = Tensor::filled(&[7, 4], 1234i64);
        left.matmul_into_blocked(&right, &mut output, block_size, 0, step);
        assert_eq!(output.data(), expected.data());
    }
    let mut textbook = vec![0i64; 28];
    for row in 0..7 {
        for column in 0..4 {
            for shared in 0..5 {
                textbook[row * 4 + column] += left.data()[row * 5 + shared] * right.data()[shared * 4 + column];
            }
        }
    }
    assert_eq!(expected.data(), textbook.as_slice());
}

#[test]
fn matmul_folds_in_increasing_shared_order() {
    let left = Tensor::from_vec(vec![1u32, 2, 3], &[1, 3]);
    let right = Tensor::from_vec(vec![4u32, 5, 6], &[3, 1]);
    let record = |accumulator: u32, a: u32, b: u32| accumulator * 100 + a * b;
    let product = left.matmul(&right, 0, record);
    assert_eq!(product.data(), &[4 * 10000 + 10 * 100 + 18]);
    assert_eq!(product.shape(), &[1, 1]);
}

#[test]
fn shapes_strides_and_indexing_are_row_major() {
    let mut tensor = Tensor::from_vec((0..24).collect::<Vec<u32>>(), &[2, 3, 4]);
    assert_eq!(tensor.len(), 24);
    assert!(!tensor.is_empty());
    assert_eq!(tensor.rank(), 3);
    assert_eq!(tensor.shape(), &[2, 3, 4]);
    assert_eq!(tensor.strides(), &[12, 4, 1]);
    assert_eq!(tensor.get(&[1, 2, 3]), 23);
    assert_eq!(tensor.get(&[1, 0, 2]), 14);
    tensor.set(&[0, 1, 1], 100);
    assert_eq!(tensor.data()[5], 100);
    tensor.reshape(&[6, 4]);
    assert_eq!(tensor.shape(), &[6, 4]);
    assert_eq!(tensor.strides(), &[4, 1]);
    assert_eq!(tensor.get(&[1, 1]), 100);
}

#[test]
fn filled_fill_and_copy_from() {
    let mut tensor = Tensor::filled(&[2, 2], 7u8);
    assert_eq!(tensor.data(), &[7, 7, 7, 7]);
    tensor.fill(3);
    assert_eq!(tensor.data(), &[3, 3, 3, 3]);
    let other = Tensor::from_vec(vec![1u8, 2, 3, 4], &[2, 2]);
    tensor.copy_from(&other);
    assert_eq!(tensor.data(), other.data());
}

#[test]
fn transpose_swaps_rows_and_columns() {
    let matrix = Tensor::from_vec(vec![1, 2, 3, 4, 5, 6], &[2, 3]);
    let transposed = matrix.transpose_2d();
    assert_eq!(transposed.shape(), &[3, 2]);
    assert_eq!(transposed.data(), &[1, 4, 2, 5, 3, 6]);
}

#[test]
fn elementwise_operations_apply_the_closure() {
    let left = Tensor::from_vec(vec![1.0f32, 2.0, 3.0, 4.0], &[2, 2]);
    let right = Tensor::from_vec(vec![0.5f32, 0.5, 2.0, -1.0], &[2, 2]);
    assert_eq!(left.add(&right, |a, b| a + b).data(), &[1.5, 2.5, 5.0, 3.0]);
    assert_eq!(left.subtract(&right, |a, b| a - b).data(), &[0.5, 1.5, 1.0, 5.0]);
    assert_eq!(left.multiply_elementwise(&right, |a, b| a * b).data(), &[0.5, 1.0, 6.0, -4.0]);
    assert_eq!(left.multiply_scalar(2.0, |a, b| a * b).data(), &[2.0, 4.0, 6.0, 8.0]);
    let mut in_place = left.clone();
    in_place.subtract_in_place(&right, |a, b| a - b);
    assert_eq!(in_place.data(), &[0.5, 1.5, 1.0, 5.0]);
    in_place.add_in_place(&right, |a, b| a + b);
    assert_eq!(in_place.data(), &[1.0, 2.0, 3.0, 4.0]);
    in_place.multiply_scalar_in_place(10.0, |a, b| a * b);
    assert_eq!(in_place.data(), &[10.0, 20.0, 30.0, 40.0]);
}

#[test]
fn subtraction_keeps_the_operand_order() {
    let left = Tensor::from_vec(vec![10, 20], &[2]);
    let right = Tensor::from_vec(vec![1, 2], &[2]);
    assert_eq!(left.subtract(&right, |a: i32, b: i32| a - b).data(), &[9, 18]);
    assert_eq!(left.multiply_scalar(3, |a: i32, b: i32| a - b).data(), &[7, 17]);
}

#[test]
fn zeros_fills_with_the_given_zero() {
    let zeros = Tensor::zeros(&[2, 3], 0u8);
    assert_eq!(zeros.shape(), &[2, 3]);
    assert_eq!(zeros.strides(), &[3, 1]);
    assert_eq!(zeros.data(), &[0, 0, 0, 0, 0, 0]);
}

#[test]
fn row_vector_is_added_to_every_row() {
    let matrix = Tensor::from_vec(vec![1, 2, 3, 4, 5, 6], &[2, 3]);
    let row = Tensor::from_vec(vec![10, 20, 30], &[3]);
    let sum = matrix.add_row_vector(&row, |a, b| a + b);
    assert_eq!(sum.data(), &[11, 22, 33, 14, 25, 36]);
    let mut in_place = matrix.clone();
    in_place.add_row_vector_in_place(&row, |a, b| a + b);
    assert_eq!(in_place.data(), sum.data());
}

#[test]
fn sum_and_sum_rows_fold_in_order() {
    let matrix = Tensor::from_vec(vec![1.0f32, 2.0, 3.0, 4.0, 5.0, 6.0], &[2, 3]);
    assert_eq!(matrix.sum(0.0, plus), 21.0);
    let sums = matrix.sum_rows(0.0, plus);
    assert_eq!(sums.shape(), &[3]);
    assert_eq!(sums.data(), &[5.0, 7.0, 9.0]);
}

#[test]
fn argmax_rows_picks_the_first_largest() {
    let matrix = Tensor::from_vec(vec![1.0f32, 3.0, 3.0, -1.0, -2.0, -0.5], &[2, 3]);
    assert_eq!(matrix.argmax_rows(|a, b| a > b), vec![1, 2]);
    let single_column = Tensor::from_vec(vec![5, 4], &[2, 1]);
    assert_eq!(single_column.argmax_rows(|a: i32, b: i32| a > b), vec![0, 0]);
}
