use ml_engine::rng::Rng;

#[test]
fn splitmix_sequence_from_seed_zero() {
    let mut rng = Rng::new(0);
    assert_eq!(rng.next_u64(), 0xE220_A839_7B1D_CDAF);
    assert_eq!(rng.next_u64(), 0x6E78_9E6A_A1B9_65F4);
}

#[test]
fn same_seed_gives_same_sequence() {
    let mut first = Rng::new(42);
    let mut second = Rng::new(42);
    for _ in 0..100 {
        assert_eq!(first.next_u64(), second.next_u64());
    }
    let mut third = Rng::new(43);
    let mut fourth = Rng::new(42);
    assert_ne!(third.next_u64(), fourth.next_u64());
}

#[test]
fn shuffle_keeps_every_value() {
    let mut rng = Rng::new(7);
    let mut values: Vec<usize> = (0..50).collect();
    rng.shuffle(&mut values);
    assert_ne!(values, (0..50).collect::<Vec<usize>>());
    let mut sorted = values.clone();
    sorted.sort();
    assert_eq!(sorted, (0..50).collect::<Vec<usize>>());
}

#[test]
fn shuffle_is_determined_by_the_seed() {
    let mut first = Rng::new(11);
    let mut second = Rng::new(11);
    let mut left: Vec<u32> = (0..20).collect();
    let mut right: Vec<u32> = (0..20).collect();
    first.shuffle(&mut left);
    second.shuffle(&mut right);
    assert_eq!(left, right);
    assert_eq!(first.next_u64(), second.next_u64());
}

#[test]
fn shuffle_of_short_slices_draws_nothing() {
    let mut rng = Rng::new(3);
    let mut untouched = Rng::new(3);
    let mut empty: Vec<u8> = Vec::new();
    let mut single = vec![9u8];
    rng.shuffle(&mut empty);
    rng.shuffle(&mut single);
    assert_eq!(single, vec![9]);
    assert_eq!(rng.next_u64(), untouched.next_u64());
}

#[test]
fn shuffle_of_two_follows_the_first_draw() {
    let mut rng = Rng::new(5);
    let mut probe = Rng::new(5);
    let draw = probe.next_u64();
    let mut values = vec!['a', 'b'];
    rng.shuffle(&mut values);
    if draw % 2 == 0 {
        assert_eq!(values, vec!['b', 'a']);
    } else {
        assert_eq!(values, vec!['a', 'b']);
    }
}

#[test]
fn fraction_bits_are_the_top_of_the_draw() {
    let mut rng = Rng::new(0);
    assert_eq!(rng.next_fraction_bits(), 0xE2_20A8);
    assert_eq!(rng.next_fraction_bits(), 0x6E_789E);
    let mut draws = Rng::new(99);
    let mut bits = Rng::new(99);
    for _ in 0..20 {
        let value = bits.next_fraction_bits();
        assert!(value < 1 << 24);
        assert_eq!(value as u64, draws.next_u64() >> 40);
    }
}

fn mix(state: u64) -> u64 {
    let mut z = state;
    z = (z ^ (z >> 30)).wrapping_mul(0xBF58_476D_1CE4_E5B9);
    z = (z ^ (z >> 27)).wrapping_mul(0x94D0_49BB_1331_11EB);
    z ^ (z >> 31)
}

#[test]
fn kth_draw_mixes_the_seed_advanced_k_times() {
    for seed in [0u64, 1, 42, 0xFFFF_FFFF_FFFF_FFFF, 0x9E37_79B9_7F4A_7C15] {
        let mut rng = Rng::new(seed);
        for k in 1u64..=200 {
            let expected = mix(seed.wrapping_add(k.wrapping_mul(0x9E37_79B9_7F4A_7C15)));
            assert_eq!(rng.next_u64(), expected);
        }
    }
}

#[test]
fn different_seeds_give_different_first_draws() {
    let mut firsts: Vec<u64> = (0u64..2000).map(|seed| Rng::new(seed).next_u64()).collect();
    firsts.extend([u64::MAX, u64::MAX - 1, 1 << 63].iter().map(|seed| Rng::new(*seed).next_u64()));
    let count = firsts.len();
    firsts.sort();
    firsts.dedup();
    assert_eq!(firsts.len(), count);
}

#[test]
fn a_clone_draws_what_the_original_draws() {
    let mut original = Rng::new(2024);
    original.next_u64();
    let mut copy = original.clone();
    for _ in 0..10 {
        assert_eq!(copy.next_u64(), original.next_u64());
    }
}
