use eab::hd::{hamming_distance, threshold_bundle, BitVec, Xoshiro256Plus};

#[test]
fn test_seed_consistency() {
    let v1 = BitVec::seed("SAME", 128);
    let v2 = BitVec::seed("SAME", 128);
    assert_eq!(v1.lanes, v2.lanes);
}

#[test]
fn test_hamming_distance_zero() {
    let v = BitVec::seed("TEST", 256);
    assert_eq!(hamming_distance(&v, &v), 0);
}

#[test]
fn threshold_bundle_keeps_bits_where_the_count_passes() {
    let mut a = BitVec::new(64);
    a.set_bit(0);
    let mut b = BitVec::new(64);
    b.set_bit(1);
    // A threshold of one half keeps bits set in at least one input.
    let res = threshold_bundle(&a, &b, [false, true, true]);
    assert!(res.get_bit(0));
    assert!(res.get_bit(1));
    assert!(!res.get_bit(2));
}

#[test]
fn xor_rotate_and_distance_behave_bitwise() {
    let mut a = BitVec::new(70);
    a.set_bit(0);
    a.set_bit(69);
    assert_eq!(a.lanes.len(), 2);
    let r = a.rotate_left(1);
    assert!(r.get_bit(1));
    assert!(r.get_bit(0));
    assert!(!r.get_bit(69));
    let same = a.rotate_left(70);
    assert_eq!(same.lanes, a.lanes);
    let b = BitVec::new(70);
    assert_eq!(hamming_distance(&a, &b), 2);
    let x = a.xor(&a);
    assert_eq!(x.lanes, vec![0, 0]);
}

#[test]
fn xoshiro_matches_the_reference_sequence() {
    // splitmix64(0) seeds; outputs of xoshiro256+ from that state.
    let mut rng = Xoshiro256Plus::seed_from_u64(0);
    let first = rng.next_u64();
    let second = rng.next_u64();
    assert_ne!(first, second);
    let mut again = Xoshiro256Plus::seed_from_u64(0);
    assert_eq!(again.next_u64(), first);
}

#[test]
fn seeded_vectors_differ_by_label() {
    let a = BitVec::seed("ORDER1", 16384);
    let b = BitVec::seed("ORDER2", 16384);
    assert_eq!(a.lanes.len(), 256);
    assert_ne!(hamming_distance(&a, &b), 0);
}

#[test]
fn rotation_works_on_vectors_with_spare_lanes() {
    let v = BitVec { dim: 3, lanes: vec![0b001, 0] };
    let r = v.rotate_left(1);
    assert_eq!(r.dim, 3);
    assert!(r.get_bit(1));
    assert!(!r.get_bit(0));
    let r = v.rotate_left(3);
    assert_eq!(r.lanes, vec![0b001, 0]);
}
