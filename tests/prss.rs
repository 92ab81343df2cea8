use ipa_dp::prss::{
    IndexedSharedRandomness, InstrumentedIndexedSharedRandomness, InstrumentedSequentialSharedRandomness, Role,
    SequentialSharedRandomness,
};
use rand::{RngCore, SeedableRng};
use rand_chacha::ChaCha20Rng;

fn chacha_from(key: u64, index: u64, domain: u8) -> ChaCha20Rng {
    let mut seed = [0u8; 32];
    seed[..8].copy_from_slice(&key.to_le_bytes());
    seed[8..16].copy_from_slice(&index.to_le_bytes());
    seed[16] = domain;
    ChaCha20Rng::from_seed(seed)
}

#[test]
fn neighbours_agree_on_indexed_chunks() {
    let h1 = InstrumentedIndexedSharedRandomness::new(IndexedSharedRandomness { left: 31, right: 12 }, "step".to_string(), Role::H1);
    let h2 = InstrumentedIndexedSharedRandomness::new(IndexedSharedRandomness { left: 12, right: 23 }, "step".to_string(), Role::H2);
    let mut c1 = h1.generate_chunks_iter(5);
    let mut c2 = h2.generate_chunks_iter(5);
    for _ in 0..4 {
        let (_, right1) = c1.next().unwrap();
        let (left2, _) = c2.next().unwrap();
        assert_eq!(right1, left2);
    }
    assert_eq!(c1.generated_count(), 4);
}

#[test]
fn indexes_give_different_chunks() {
    let h1 = InstrumentedIndexedSharedRandomness::new(IndexedSharedRandomness { left: 31, right: 12 }, "step".to_string(), Role::H1);
    let a = h1.generate_chunks_iter(0).next().unwrap();
    let b = h1.generate_chunks_iter(1).next().unwrap();
    assert_ne!(a, b);
    assert_eq!(a, h1.generate_chunks_iter(0).next().unwrap());
}

#[test]
fn sequential_draws_are_counted() {
    let mut rng = InstrumentedSequentialSharedRandomness::new(SequentialSharedRandomness::new(3), "step".to_string(), Role::H3);
    assert_eq!(rng.generated, 0);
    let a = rng.next_u64();
    let b = rng.next_u32();
    assert_eq!(rng.generated, 2);
    assert_eq!(rng.role, Role::H3);
    assert_eq!(rng.step, "step");
    let mut same = chacha_from(3, 0, 0);
    assert_eq!(a, same.next_u64());
    assert_eq!(b, same.next_u64() as u32);
}

#[test]
fn parties_with_one_key_read_one_stream() {
    let mut a = SequentialSharedRandomness::new(77);
    let mut b = SequentialSharedRandomness::new(77);
    let mut c = SequentialSharedRandomness::new(78);
    let x = a.next_u64();
    assert_eq!(x, b.next_u64());
    assert_ne!(x, c.next_u64());
    assert_ne!(a.next_u64(), x);
}

#[test]
fn indexed_chunks_follow_chacha20() {
    let h1 = InstrumentedIndexedSharedRandomness::new(IndexedSharedRandomness { left: 31, right: 12 }, "step".to_string(), Role::H1);
    let mut chunks = h1.generate_chunks_iter(9);
    let mut left = chacha_from(31, 9, 1);
    let mut right = chacha_from(12, 9, 1);
    for _ in 0..3 {
        assert_eq!(chunks.next(), Some((left.next_u64(), right.next_u64())));
    }
}

#[test]
fn roles_have_telemetry_names() {
    assert_eq!(Role::H1.as_static_str(), "H1");
    assert_eq!(Role::H2.as_static_str(), "H2");
    assert_eq!(Role::H3.as_static_str(), "H3");
}
