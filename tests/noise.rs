use ipa_dp::noise::{
    add_noise, apply_dp_noise, dp_for_histogram, fits_output_width, gen_binomial_noise, noise_fits_width,
    sum_bernoulli_draws, NoiseError,
};
use rand::{RngCore, SeedableRng};
use rand_chacha::ChaCha20Rng;
use ipa_dp::prss::{IndexedSharedRandomness, InstrumentedIndexedSharedRandomness, Role};

fn prss(left: u64, right: u64) -> InstrumentedIndexedSharedRandomness {
    InstrumentedIndexedSharedRandomness::new(IndexedSharedRandomness { left, right }, "noise_gen".to_string(), Role::H1)
}

fn within_five_sd(num_bernoulli: u32, sample: f64) -> bool {
    let mean = f64::from(num_bernoulli) * 0.5;
    let sd = (f64::from(num_bernoulli) * 0.5 * 0.5).sqrt();
    sample > mean - 5.0 * sd && sample < mean + 5.0 * sd
}

fn check_breakdowns(num_breakdowns: usize, num_bernoulli: u32) {
    let result = gen_binomial_noise(&prss(11, 29), num_bernoulli, num_breakdowns, 16);
    assert_eq!(num_breakdowns, result.len());
    for sample in &result {
        assert!(*sample <= u64::from(num_bernoulli));
        assert!(within_five_sd(num_bernoulli, *sample as f64));
    }
}

#[test]
fn mod_test_16_breakdowns() {
    check_breakdowns(16, 10000);
}

#[test]
fn mod_test_32_breakdowns() {
    check_breakdowns(32, 2000);
}

#[test]
fn mod_test_256_breakdowns() {
    check_breakdowns(256, 1000);
}

#[test]
fn mod_test_apply_dp_noise() {
    let num_bernoulli: u32 = 1000;
    let input_values: Vec<u64> = vec![10, 8, 6, 41, 0, 0, 0, 0, 10, 8, 6, 41, 0, 0, 0, 0];
    let result = apply_dp_noise(&prss(3, 5), &input_values, num_bernoulli, 16).unwrap();
    assert_eq!(16, result.len());
    for i in 0..result.len() {
        assert!(within_five_sd(num_bernoulli, result[i] as f64 - input_values[i] as f64));
    }
}

#[test]
fn noise_width_check_matches_ilog2() {
    assert!(noise_fits_width(1000, 16));
    assert!(noise_fits_width(65535, 16));
    assert!(!noise_fits_width(65536, 16));
    assert!(noise_fits_width(1, 1));
    assert!(!noise_fits_width(2, 1));
    assert!(!noise_fits_width(0, 16));
}

#[test]
fn draws_are_counted_per_bucket() {
    let draws = vec![vec![true, false, true], vec![true, true, false], vec![false, false, true], vec![true, false, true]];
    assert_eq!(sum_bernoulli_draws(&draws, 3), vec![3, 1, 3]);
    assert_eq!(sum_bernoulli_draws(&Vec::new(), 2), vec![0, 0]);
}

#[test]
fn noise_is_added_in_the_output_width() {
    assert_eq!(add_noise(&vec![65535, 7, 0], &vec![2, 3, 0], 16), Ok(vec![1, 10, 0]));
    assert_eq!(add_noise(&vec![200], &vec![100], 8), Ok(vec![44]));
    assert_eq!(add_noise(&vec![300], &vec![0], 8), Err(NoiseError::ValueTooWide));
    assert_eq!(add_noise(&vec![0], &vec![256], 8), Err(NoiseError::ValueTooWide));
    assert_eq!(add_noise(&vec![1, 2], &vec![1], 16), Err(NoiseError::LengthMismatch));
}

#[test]
fn no_dp_path_returns_the_histogram() {
    let histogram = vec![0, 0, 12, 0, 18, 6, 0, 65535];
    assert_eq!(dp_for_histogram(&prss(1, 2), &histogram, true, 0, 16), Ok(histogram.clone()));
    assert!(fits_output_width(&histogram, 16));
}

#[test]
fn wide_histogram_values_are_refused() {
    let histogram = vec![0, 70000];
    assert!(!fits_output_width(&histogram, 16));
    assert_eq!(dp_for_histogram(&prss(1, 2), &histogram, true, 0, 16), Err(NoiseError::ValueTooWide));
    assert_eq!(dp_for_histogram(&prss(1, 2), &histogram, false, 1000, 16), Err(NoiseError::ValueTooWide));
    assert_eq!(apply_dp_noise(&prss(1, 2), &histogram, 1000, 16), Err(NoiseError::ValueTooWide));
}

#[test]
fn dp_path_adds_bounded_noise() {
    let histogram = vec![5, 0, 100];
    let result = dp_for_histogram(&prss(1, 2), &histogram, false, 1483, 16).unwrap();
    assert_eq!(result.len(), 3);
    for (before, after) in histogram.iter().zip(result.iter()) {
        assert!(*after < 65536);
        let added = (after + 65536 - before) % 65536;
        assert!(added <= 1483);
        assert!(within_five_sd(1483, added as f64));
    }
}

#[test]
fn noise_counts_the_chacha20_coin_flips() {
    let (left_key, num_bernoulli, buckets) = (21u64, 300u32, 5usize);
    let noise = gen_binomial_noise(&prss(left_key, 4), num_bernoulli, buckets, 16);
    let mut expected = vec![0u64; buckets];
    for i in 0..num_bernoulli {
        let mut seed = [0u8; 32];
        seed[..8].copy_from_slice(&left_key.to_le_bytes());
        seed[8..16].copy_from_slice(&u64::from(i).to_le_bytes());
        seed[16] = 1;
        let mut rng = ChaCha20Rng::from_seed(seed);
        for e in expected.iter_mut() {
            *e += rng.next_u64() % 2;
        }
    }
    assert_eq!(noise, expected);
}

#[test]
fn noise_is_the_same_for_the_same_keys() {
    let a = gen_binomial_noise(&prss(8, 9), 500, 4, 16);
    let b = gen_binomial_noise(&prss(8, 9), 500, 4, 16);
    assert_eq!(a, b);
}
