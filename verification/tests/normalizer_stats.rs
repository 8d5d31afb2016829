use fusee_controle::normalizer::RunningNormalizer;

#[test]
fn normalize_is_identity_below_two_samples() {
    let mut n = RunningNormalizer::new(3);
    let x = vec![5_000_000, -2_000_000, 123_456];
    assert_eq!(n.normalize(&x), x);
    n.update(&x);
    assert_eq!(n.count, 1);
    assert_eq!(n.normalize(&x), x);
}

#[test]
fn update_tracks_mean_and_accumulator() {
    let mut n = RunningNormalizer::new(1);
    n.update(&vec![2_000_000]);
    assert_eq!(n.mean, vec![2_000_000]);
    // deviation from the post-update mean is zero; accumulator keeps its
    // unit initialization
    assert_eq!(n.variance, vec![1_000_000i128]);
    n.update(&vec![4_000_000]);
    // mean moves by (4 - 2) / 2 = 1 unit
    assert_eq!(n.mean, vec![3_000_000]);
    // squared deviation from the new mean: 1 unit
    assert_eq!(n.variance, vec![2_000_000i128]);
    assert_eq!(n.count, 2);
}

#[test]
fn normalize_divides_by_sample_deviation() {
    let mut n = RunningNormalizer::new(1);
    n.update(&vec![2_000_000]);
    n.update(&vec![4_000_000]);
    // sample variance = 2_000_000 / 1; std = isqrt(2e12) = 1_414_213
    // (4 - 3) scaled: 1_000_000_000_000 / 1_414_213 = 707_107
    assert_eq!(n.normalize(&vec![4_000_000]), vec![707_107]);
    assert_eq!(n.normalize(&vec![3_000_000]), vec![0]);
    assert_eq!(n.normalize(&vec![2_000_000]), vec![-707_107]);
}

#[test]
fn reset_restores_fresh_statistics() {
    let mut n = RunningNormalizer::new(2);
    n.update(&vec![1_000_000, 2_000_000]);
    n.update(&vec![3_000_000, 4_000_000]);
    n.reset();
    assert_eq!(n.count, 0);
    assert_eq!(n.mean, vec![0, 0]);
    assert_eq!(n.variance, vec![1_000_000i128, 1_000_000i128]);
    let x = vec![7_000_000, 8_000_000];
    assert_eq!(n.normalize(&x), x);
}
