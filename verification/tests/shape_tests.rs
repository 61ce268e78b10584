use ml_engine::shape::{ShapeError, calculate_strides, checked_element_count, element_count, flat_index};

#[test]
fn element_count_of_a_valid_shape() {
    assert_eq!(checked_element_count(&[2, 3, 4]), Ok(24));
    assert_eq!(checked_element_count(&[7]), Ok(7));
    assert_eq!(element_count(&[2, 3, 4]), 24);
}

#[test]
fn an_empty_shape_has_no_dimensions() {
    assert_eq!(checked_element_count(&[]), Err(ShapeError::NoDimensions));
}

#[test]
fn a_zero_dimension_is_refused() {
    assert_eq!(checked_element_count(&[3, 0, 2]), Err(ShapeError::ZeroDimension));
}

#[test]
fn an_overflowing_shape_is_too_large() {
    assert_eq!(checked_element_count(&[usize::MAX, 2]), Err(ShapeError::TooLarge));
}

#[test]
fn the_first_failure_from_the_left_is_reported() {
    assert_eq!(checked_element_count(&[usize::MAX, 2, 0]), Err(ShapeError::TooLarge));
    assert_eq!(checked_element_count(&[0, usize::MAX, 2]), Err(ShapeError::ZeroDimension));
}

#[test]
fn strides_are_row_major() {
    assert_eq!(calculate_strides(&[2, 3, 4]), vec![12, 4, 1]);
    assert_eq!(calculate_strides(&[5]), vec![1]);
}

#[test]
fn flat_index_follows_the_strides() {
    let shape = [2, 3, 4];
    let strides = calculate_strides(&shape);
    assert_eq!(flat_index(&shape, &strides, &[1, 2, 3]), 23);
    assert_eq!(flat_index(&shape, &strides, &[0, 1, 0]), 4);
}
