use mazegame::mini_rng::MiniRNG;

#[test]
fn test_mini_rng_period() {
    let q0 = 1_u32;
    let mut rng = MiniRNG::new(q0);
    let mut n = 0_u64;
    loop {
        let q = rng.next();
        n = n + 1;
        if q == q0 {
            break;
        }
    }
    println!("Period: {}", n);
}

#[test]
fn rng_first_states() {
    let mut rng = MiniRNG::new(1);
    assert_eq!(rng.next(), 184196064);
    assert_eq!(rng.next(), 2895536179);
    assert_eq!(rng.next(), 500394602);
    assert_eq!(rng.next(), 794679605);
    assert_eq!(rng.next(), 224222084);
}

#[test]
fn rng_samples_below_twenty() {
    let mut rng = MiniRNG::new(1);
    let got: Vec<u32> = (0..6).map(|_| rng.sample_u32(20)).collect();
    assert_eq!(got, vec![0, 2, 1, 16, 17, 19]);
    assert_eq!(rng.next(), 2688259980);
}

#[test]
fn rng_sample_other_seed() {
    let mut rng = MiniRNG::new(1234);
    assert_eq!(rng.sample_u32(100), 52);
    assert_eq!(rng.next(), 1553949199);
}

#[test]
fn rng_sample_of_nothing_is_zero() {
    let mut rng = MiniRNG::new(7);
    assert_eq!(rng.sample_u32(0), 0);
    assert_eq!(rng.sample_u32(1), 0);
}

#[test]
fn rng_samples_stay_below_bound() {
    let mut rng = MiniRNG::new(99);
    for _ in 0..1000 {
        assert!(rng.sample_u32(20) < 20);
    }
    for _ in 0..1000 {
        assert!(rng.sample_u32(u32::MAX) < u32::MAX);
    }
}
