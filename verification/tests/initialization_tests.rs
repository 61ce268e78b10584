use ml_engine::initialization::{Distribution, Initialization, draw_weights};
use ml_engine::rng::Rng;

#[test]
fn plans_pick_distribution_constant_and_fan() {
    let xavier = Initialization::XavierNormal.plan(3, 5);
    assert_eq!(xavier.distribution, Distribution::Normal);
    assert_eq!((xavier.numerator, xavier.fan, xavier.weight_count), (2, 8, 15));
    let he = Initialization::HeUniform.plan(3, 5);
    assert_eq!(he.distribution, Distribution::Uniform);
    assert_eq!((he.numerator, he.fan, he.weight_count), (6, 3, 15));
}

#[test]
fn uniform_weights_take_one_draw_each_in_order() {
    let plan = Initialization::HeUniform.plan(2, 3);
    let mut rng = Rng::new(17);
    let mut probe = Rng::new(17);
    let weights = draw_weights(plan, &mut rng, |bits: u32| bits as u64 * 2, |_: u32, _: u32| 0u64);
    assert_eq!(weights.len(), 6);
    for weight in &weights {
        assert_eq!(*weight, probe.next_fraction_bits() as u64 * 2);
    }
    assert_eq!(rng.next_u64(), probe.next_u64());
}

#[test]
fn normal_weights_take_two_draws_each_first_one_first() {
    let plan = Initialization::XavierNormal.plan(2, 2);
    let mut rng = Rng::new(5);
    let mut probe = Rng::new(5);
    let weights = draw_weights(plan, &mut rng, |_: u32| (0u32, 0u32), |first: u32, second: u32| (first, second));
    assert_eq!(weights.len(), 4);
    for weight in &weights {
        let first = probe.next_fraction_bits();
        let second = probe.next_fraction_bits();
        assert_eq!(*weight, (first, second));
    }
    assert_eq!(rng.next_u64(), probe.next_u64());
}
