use ipa_dp::aggregate::{aggregate_credit, add_bucket_vector, reduce_bucket_vectors, simple_aggregate_credit};
use ipa_dp::bucket::{bit_width_of, key_bits, move_single_value_to_bucket};
use ipa_dp::field::{field_add, field_mul, field_sub, PRIME};

fn decompose(key: u32, width: u32) -> Vec<u64> {
    (0..width).map(|i| u64::from((key >> i) & 1)).collect()
}

#[test]
fn aggregate() {
    const MAX_BREAKDOWN_KEY: u32 = 8;
    const EXPECTED: &[u64] = &[0, 0, 12, 0, 18, 6, 0, 0];
    const INPUT: &[(u32, u32)] = &[
        (3, 0),
        (4, 0),
        (4, 18),
        (0, 0),
        (0, 0),
        (0, 0),
        (0, 0),
        (0, 0),
        (1, 0),
        (0, 0),
        (2, 2),
        (0, 0),
        (0, 0),
        (2, 0),
        (2, 10),
        (0, 0),
        (0, 0),
        (5, 6),
        (0, 0),
    ];
    let width = key_bits(MAX_BREAKDOWN_KEY);
    let keys: Vec<Vec<u64>> = INPUT.iter().map(|&(bk, _)| decompose(bk, width)).collect();
    let credits: Vec<u64> = INPUT.iter().map(|&(_, c)| u64::from(c)).collect();
    let result = aggregate_credit(&keys, &credits, MAX_BREAKDOWN_KEY);
    assert_eq!(result, EXPECTED);
}

#[test]
fn histogram_total_matches_credit_total() {
    let max = 5u32;
    let width = key_bits(max);
    let input: &[(u32, u64)] = &[(0, 3), (4, 9), (2, 1), (4, 1), (1, 100), (3, 0)];
    let keys: Vec<Vec<u64>> = input.iter().map(|&(bk, _)| decompose(bk, width)).collect();
    let credits: Vec<u64> = input.iter().map(|&(_, c)| c).collect();
    let result = simple_aggregate_credit(&keys, &credits, max);
    assert_eq!(result, vec![3, 100, 1, 0, 10]);
    assert_eq!(result.iter().sum::<u64>(), credits.iter().sum::<u64>());
}

#[test]
fn histogram_sums_in_the_field() {
    let keys = vec![decompose(1, 1), decompose(1, 1)];
    let credits = vec![PRIME - 1, 5];
    let result = aggregate_credit(&keys, &credits, 2);
    assert_eq!(result, vec![0, 4]);
}

#[test]
fn aggregate_of_no_records_is_all_zero() {
    let result = aggregate_credit(&Vec::new(), &Vec::new(), 4);
    assert_eq!(result, vec![0, 0, 0, 0]);
}

#[test]
fn bucket_round_trip_for_every_key() {
    let max = 8u32;
    let width = key_bits(max);
    for key in 0..max {
        let row = move_single_value_to_bucket(&decompose(key, width), 42, max);
        assert_eq!(row.len(), max as usize);
        for (k, v) in row.iter().enumerate() {
            if k == key as usize {
                assert_eq!(*v, 42);
            } else {
                assert_eq!(*v, 0);
            }
        }
    }
}

#[test]
fn bucket_key_above_range_selects_nothing() {
    let max = 5u32;
    let width = key_bits(max);
    assert_eq!(width, 3);
    let row = move_single_value_to_bucket(&decompose(6, width), 9, max);
    assert_eq!(row, vec![0, 0, 0, 0, 0]);
}

#[test]
fn bucket_with_single_bucket() {
    let row = move_single_value_to_bucket(&Vec::new(), 17, 1);
    assert_eq!(row, vec![17]);
}

#[test]
fn key_bits_is_ceil_log2() {
    assert_eq!(key_bits(0), 0);
    assert_eq!(key_bits(1), 0);
    assert_eq!(key_bits(2), 1);
    assert_eq!(key_bits(8), 3);
    assert_eq!(key_bits(9), 4);
    assert_eq!(key_bits(256), 8);
    assert_eq!(key_bits(u32::MAX), 32);
    assert_eq!(bit_width_of(0), 0);
    assert_eq!(bit_width_of(1000), 10);
}

#[test]
fn field_operations_wrap_at_the_prime() {
    assert_eq!(field_add(PRIME - 1, 2), 1);
    assert_eq!(field_sub(0, 1), PRIME - 1);
    assert_eq!(field_sub(10, 3), 7);
    assert_eq!(field_mul(PRIME - 1, PRIME - 1), 1);
    assert_eq!(field_mul(6, 7), 42);
}

#[test]
fn bucket_vectors_add_entrywise() {
    let mut acc = vec![1, PRIME - 1, 0];
    add_bucket_vector(&mut acc, &vec![2, 3, 0]);
    assert_eq!(acc, vec![3, 2, 0]);
}

#[test]
fn bucket_vectors_fold_into_a_histogram() {
    let rows = vec![vec![0, 5, 0], vec![7, 0, 0], vec![0, 5, 0], vec![0, 0, PRIME - 1]];
    assert_eq!(reduce_bucket_vectors(&rows, 3), vec![7, 10, PRIME - 1]);
    assert_eq!(reduce_bucket_vectors(&Vec::new(), 2), vec![0, 0]);
}

#[test]
fn shares_fold_locally() {
    let plain = vec![vec![0, 5], vec![3, 0], vec![0, 4]];
    let a = vec![vec![11, 22], vec![33, 44], vec![55, 66]];
    let b = vec![vec![PRIME - 1, 7], vec![9, PRIME - 2], vec![1, 2]];
    let c: Vec<Vec<u64>> = (0..3)
        .map(|i| (0..2).map(|k| field_sub(field_sub(plain[i][k], a[i][k]), b[i][k])).collect())
        .collect();
    let ha = reduce_bucket_vectors(&a, 2);
    let hb = reduce_bucket_vectors(&b, 2);
    let hc = reduce_bucket_vectors(&c, 2);
    let reconstructed: Vec<u64> = (0..2).map(|k| field_add(field_add(ha[k], hb[k]), hc[k])).collect();
    assert_eq!(reconstructed, reduce_bucket_vectors(&plain, 2));
    assert_eq!(reconstructed, vec![3, 9]);
}

#[test]
fn histogram_ignores_record_order() {
    let max = 8u32;
    let width = key_bits(max);
    let input: Vec<(u32, u64)> = vec![(3, 4), (4, 18), (2, 2), (2, 10), (5, 6), (3, 1)];
    let mut reversed = input.clone();
    reversed.reverse();
    let run = |records: &Vec<(u32, u64)>| {
        let keys: Vec<Vec<u64>> = records.iter().map(|&(bk, _)| decompose(bk, width)).collect();
        let credits: Vec<u64> = records.iter().map(|&(_, c)| c).collect();
        aggregate_credit(&keys, &credits, max)
    };
    assert_eq!(run(&input), run(&reversed));
    assert_eq!(run(&input), vec![0, 0, 12, 5, 18, 6, 0, 0]);
}
