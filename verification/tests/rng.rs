use terrarius::rng::SeededRng;

#[test]
fn same_seed_gives_the_same_draws() {
    let mut a = SeededRng::from_seed([9; 32]);
    let mut b = SeededRng::from_seed([9; 32]);
    for _ in 0..100 {
        assert_eq!(a.gen_range(0, 1_000_000), b.gen_range(0, 1_000_000));
    }
}

#[test]
fn draws_stay_in_the_requested_range() {
    let mut rng = SeededRng::from_seed([3; 32]);
    for _ in 0..200 {
        let v = rng.gen_range(75, 125);
        assert!((75..=125).contains(&v));
    }
    for _ in 0..200 {
        let v = rng.gen_range(5, 10);
        assert!((5..=10).contains(&v));
    }
    assert_eq!(rng.gen_range(42, 42), 42);
}

#[test]
fn draws_vary_between_calls() {
    let mut rng = SeededRng::from_seed([5; 32]);
    let first = rng.gen_range(0, 1_000_000);
    let mut saw_other = false;
    for _ in 0..50 {
        if rng.gen_range(0, 1_000_000) != first {
            saw_other = true;
        }
    }
    assert!(saw_other);
}

#[test]
fn different_seeds_diverge() {
    let mut a = SeededRng::from_seed([1; 32]);
    let mut b = SeededRng::from_seed([2; 32]);
    let mut differs = false;
    for _ in 0..20 {
        if a.gen_range(0, 1_000_000) != b.gen_range(0, 1_000_000) {
            differs = true;
        }
    }
    assert!(differs);
}
