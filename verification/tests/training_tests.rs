use ml_engine::initialization::{Distribution, Initialization, InitializationPlan};
use ml_engine::training::{batch_ranges, count_correct};

#[test]
fn batches_cover_every_example_once() {
    assert_eq!(batch_ranges(10, 4), vec![(0, 4), (4, 8), (8, 10)]);
    assert_eq!(batch_ranges(8, 4), vec![(0, 4), (4, 8)]);
    assert_eq!(batch_ranges(3, 5), vec![(0, 3)]);
    assert_eq!(batch_ranges(0, 5), vec![]);
    assert_eq!(batch_ranges(5, 1).len(), 5);
}

#[test]
fn counts_matching_predictions() {
    assert_eq!(count_correct(&[1, 2, 3, 4], &[1, 0, 3, 4]), 3);
    assert_eq!(count_correct(&[1, 2, 3], &[1, 2]), 2);
    assert_eq!(count_correct(&[], &[1]), 0);
}

#[test]
fn initialization_plans() {
    assert_eq!(
        Initialization::XavierUniform.plan(784, 128),
        InitializationPlan {
            distribution: Distribution::Uniform,
            numerator: 6,
            fan: 912,
            weight_count: 100_352
        }
    );
    assert_eq!(
        Initialization::XavierNormal.plan(3, 2),
        InitializationPlan {
            distribution: Distribution::Normal,
            numerator: 2,
            fan: 5,
            weight_count: 6
        }
    );
    assert_eq!(
        Initialization::HeUniform.plan(3, 2),
        InitializationPlan {
            distribution: Distribution::Uniform,
            numerator: 6,
            fan: 3,
            weight_count: 6
        }
    );
    assert_eq!(
        Initialization::HeNormal.plan(3, 2),
        InitializationPlan {
            distribution: Distribution::Normal,
            numerator: 2,
            fan: 3,
            weight_count: 6
        }
    );
}
