use ipa_dp::padding::{
    apply_dp_padding_pass, dummy_rows, expand_dummy_match_keys, total_dummy_keys, total_dummy_rows, InputRow,
    ReplicatedShare, MATCHKEY_CARDINALITY_CAP,
};
use ipa_dp::prss::{InstrumentedSequentialSharedRandomness, Role, SequentialSharedRandomness};

fn stream(key: u64, role: Role) -> InstrumentedSequentialSharedRandomness {
    InstrumentedSequentialSharedRandomness::new(SequentialSharedRandomness::new(key), "padding".to_string(), role)
}

fn zero() -> ReplicatedShare {
    ReplicatedShare { left: 0, right: 0 }
}

fn samples() -> Vec<u32> {
    vec![2, 0, 1, 0, 0, 0, 0, 0, 0, 1]
}

#[test]
fn dummy_counts_follow_the_classes() {
    assert_eq!(total_dummy_keys(&samples()), 4);
    assert_eq!(total_dummy_rows(&samples()), 2 + 3 + 10);
    assert_eq!(total_dummy_rows(&vec![0; MATCHKEY_CARDINALITY_CAP]), 0);
    assert_eq!(total_dummy_rows(&vec![u32::MAX; MATCHKEY_CARDINALITY_CAP]), u64::from(u32::MAX) * 55);
}

#[test]
fn dummy_keys_are_repeated_by_class() {
    let keys = vec![7, 8, 9, 10];
    let expanded = expand_dummy_match_keys(&samples(), &keys);
    let mut expected = vec![7, 8, 9, 9, 9];
    expected.extend(std::iter::repeat(10).take(10));
    assert_eq!(expanded, expected);
    assert_eq!(expanded.len() as u64, total_dummy_rows(&samples()));
}

#[test]
fn dummy_rows_share_the_key_between_the_pair() {
    let mks = vec![5, 6];
    let at_h1 = dummy_rows(&mks, Role::H1, Role::H1, Role::H2);
    let at_h2 = dummy_rows(&mks, Role::H2, Role::H1, Role::H2);
    let at_h3 = dummy_rows(&mks, Role::H3, Role::H1, Role::H2);
    for k in 0..mks.len() {
        assert_eq!(at_h1[k].match_key, ReplicatedShare { left: 0, right: mks[k] });
        assert_eq!(at_h2[k].match_key, ReplicatedShare { left: mks[k], right: 0 });
        assert_eq!(at_h3[k].match_key, zero());
        for row in [at_h1[k], at_h2[k], at_h3[k]] {
            assert_eq!(row.is_trigger, zero());
            assert_eq!(row.breakdown_key, zero());
            assert_eq!(row.trigger_value, zero());
            assert_eq!(row.timestamp, zero());
        }
    }
}

#[test]
fn test_apply_dp_padding_pass() {
    let (h_i, h_i_plus_one, h_out) = (Role::H3, Role::H1, Role::H2);
    let real = InputRow {
        match_key: ReplicatedShare { left: 1, right: 2 },
        is_trigger: zero(),
        breakdown_key: ReplicatedShare { left: 3, right: 4 },
        trigger_value: zero(),
        timestamp: zero(),
    };
    // H3 and H1 share a stream: H3 reads it as its right stream, H1 as its left.
    let mut h3_right = stream(42, Role::H3);
    let mut h1_left = stream(42, Role::H1);
    let at_h3 = apply_dp_padding_pass(vec![real], Role::H3, h_i, h_i_plus_one, h_out, &samples(), &mut stream(1, Role::H3), &mut h3_right);
    let at_h1 = apply_dp_padding_pass(vec![real], Role::H1, h_i, h_i_plus_one, h_out, &samples(), &mut h1_left, &mut stream(2, Role::H1));
    let mut h2_left = stream(3, Role::H2);
    let mut h2_right = stream(4, Role::H2);
    let at_h2 = apply_dp_padding_pass(vec![real], Role::H2, h_i, h_i_plus_one, h_out, &samples(), &mut h2_left, &mut h2_right);
    assert_eq!(h3_right.generated, 4);
    assert_eq!(h1_left.generated, 4);
    assert_eq!(h2_left.generated, 0);
    assert_eq!(h2_right.generated, 0);
    let dummies = total_dummy_rows(&samples()) as usize;
    assert_eq!(at_h3.len(), 1 + dummies);
    assert_eq!(at_h1.len(), 1 + dummies);
    assert_eq!(at_h2, vec![real]);
    assert_eq!(at_h3[0], real);
    assert_eq!(at_h1[0], real);
    for k in 1..=dummies {
        assert_eq!(at_h3[k].match_key.left, 0);
        assert_eq!(at_h1[k].match_key.right, 0);
        assert_eq!(at_h3[k].match_key.right, at_h1[k].match_key.left);
        assert_ne!(at_h3[k].match_key.right, 0);
    }
}

#[test]
fn padding_draws_the_keys_from_the_shared_stream() {
    let at_h1 = apply_dp_padding_pass(Vec::new(), Role::H1, Role::H1, Role::H2, Role::H3, &samples(), &mut stream(0, Role::H1), &mut stream(9, Role::H1));
    let mut rng = stream(9, Role::H1);
    let first = rng.next_u64();
    let second = rng.next_u64();
    assert_eq!(at_h1[0].match_key.right, first);
    assert_eq!(at_h1[1].match_key.right, second);
    assert_ne!(first, second);
}
