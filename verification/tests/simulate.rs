use midijitter::simulate::Rng;

#[test]
fn splitmix_from_seed_zero_matches_the_reference_sequence() {
    let mut rng = Rng::new(0);
    assert_eq!(rng.next_u64(), 0xe220_a839_7b1d_cdaf);
    assert_eq!(rng.next_u64(), 0x6e78_9e6a_a1b9_65f4);
    assert_eq!(rng.next_u64(), 0x06c4_5d18_8009_454f);
}

#[test]
fn identical_seeds_draw_identical_values() {
    let mut first = Rng::new(42);
    let mut second = Rng::new(42);
    for _ in 0..100 {
        assert_eq!(first.next_u64(), second.next_u64());
    }
    let mut other = Rng::new(43);
    assert_ne!(Rng::new(42).next_u64(), other.next_u64());
}

#[test]
fn the_state_advances_by_the_golden_ratio_increment() {
    let mut rng = Rng::new(u64::MAX);
    rng.next_u64();
    assert_eq!(rng.0, u64::MAX.wrapping_add(0x9E37_79B9_7F4A_7C15));
}
