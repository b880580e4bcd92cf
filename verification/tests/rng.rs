use grownet_core::rng::DeterministicRng;

#[test]
fn splitmix64_known_stream_from_zero() {
    let mut rng = DeterministicRng::new(0);
    assert_eq!(rng.next_u64(), 0xE220A8397B1DCDAF);
    assert_eq!(rng.next_u64(), 0x6E789E6AA1B965F4);
    assert_eq!(rng.next_u64(), 0x06C45D188009454F);
}

#[test]
fn splitmix64_known_stream_from_seed() {
    let mut rng = DeterministicRng::new(1234);
    assert_eq!(rng.next_u64(), 0xBB0CF61B2F181CDB);
    assert_eq!(rng.next_u64(), 0x97C7A1364DF06524);
    assert_eq!(rng.next_u64(), 0x33BEFAE49BC025DA);
}

#[test]
fn splitmix64_same_seed_same_sequence() {
    let mut first = DeterministicRng::new(42);
    let mut second = DeterministicRng::new(42);
    for _ in 0..64 {
        assert_eq!(first.next_u64(), second.next_u64());
    }
}

#[test]
fn splitmix64_wraps_at_largest_state() {
    let mut rng = DeterministicRng::new(u64::MAX);
    let mut same = DeterministicRng::new(u64::MAX);
    assert_eq!(rng.next_u64(), same.next_u64());
    let mut other = DeterministicRng::new(0);
    assert_ne!(rng.next_u64(), other.next_u64());
}
