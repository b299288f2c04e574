//! How far messages spread, and how numbers are written.
use libp2p_dandelion::bytes::{big_endian_u64, copy_bytes, same_bytes};
use libp2p_dandelion::message_id::{id_of_hash, message_id};
use libp2p_dandelion::spread::spread_factor;
use std::collections::hash_map::DefaultHasher;
use std::hash::{Hash, Hasher};

#[test]
fn spread_of_few_peers_is_all_of_them() {
    assert_eq!(spread_factor(0), 0);
    assert_eq!(spread_factor(1), 1);
    assert_eq!(spread_factor(2), 2);
    assert_eq!(spread_factor(3), 3);
}

#[test]
fn spread_is_the_root_rounded_up() {
    assert_eq!(spread_factor(4), 3);
    assert_eq!(spread_factor(9), 3);
    assert_eq!(spread_factor(10), 4);
    assert_eq!(spread_factor(16), 4);
    assert_eq!(spread_factor(17), 5);
    assert_eq!(spread_factor(1_000_000), 1000);
    assert_eq!(spread_factor(1_000_001), 1001);
}

#[test]
fn spread_agrees_with_floating_point() {
    for n in (0..3000usize).chain(999_990..1_000_010).chain(4_294_967_290..4_294_967_300) {
        let root = (n as f64).sqrt().ceil() as usize;
        assert_eq!(spread_factor(n), root.max(3).min(n));
    }
}

#[test]
fn spread_never_shrinks_and_covers_all() {
    for n in 0..500usize {
        let spread = spread_factor(n);
        assert!(spread <= n && spread * spread >= n && spread <= spread_factor(n + 1));
    }
}

#[test]
fn numbers_are_written_most_significant_byte_first() {
    assert_eq!(big_endian_u64(0), vec![0; 8]);
    assert_eq!(big_endian_u64(0x0102_0304_0506_0708), vec![1, 2, 3, 4, 5, 6, 7, 8]);
    assert_eq!(big_endian_u64(u64::MAX as u128), vec![255; 8]);
    assert_eq!(big_endian_u64((9u128 << 64) + 258), vec![0, 0, 0, 0, 0, 0, 1, 2]);
}

#[test]
fn bytes_are_compared_and_copied() {
    assert!(same_bytes(&vec![1, 2], &copy_bytes(&vec![1, 2])));
    assert!(!same_bytes(&vec![1, 2], &vec![1, 3]));
    assert!(!same_bytes(&vec![1, 2], &vec![1]));
    assert!(same_bytes(&vec![], &vec![]));
}

#[test]
fn identifier_is_the_hash_in_decimal() {
    assert_eq!(id_of_hash(0), b"0".to_vec());
    assert_eq!(id_of_hash(9), b"9".to_vec());
    assert_eq!(id_of_hash(10), b"10".to_vec());
    assert_eq!(id_of_hash(907_650), b"907650".to_vec());
    assert_eq!(id_of_hash(u64::MAX), b"18446744073709551615".to_vec());
}

#[test]
fn identifier_comes_from_the_contents() {
    for content in [vec![], vec![0u8], b"hello".to_vec(), vec![7; 1000]] {
        let mut hasher = DefaultHasher::new();
        content.hash(&mut hasher);
        assert_eq!(message_id(&content), hasher.finish().to_string().into_bytes());
        assert_eq!(message_id(&content), message_id(&content.clone()));
    }
    assert_ne!(message_id(&b"hello".to_vec()), message_id(&b"hullo".to_vec()));
}
