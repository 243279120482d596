use kono::codec::u64_from_be_bytes;
use kono::codec::u64_to_be_bytes;

#[test]
fn to_be_bytes_orders_most_significant_first() {
    assert_eq!(u64_to_be_bytes(0x0102030405060708), vec![1, 2, 3, 4, 5, 6, 7, 8]);
    assert_eq!(u64_to_be_bytes(0), vec![0; 8]);
    assert_eq!(u64_to_be_bytes(u64::MAX), vec![0xff; 8]);
}

#[test]
fn from_be_bytes_reads_most_significant_first() {
    assert_eq!(u64_from_be_bytes(&[1, 2, 3, 4, 5, 6, 7, 8]), 0x0102030405060708);
    assert_eq!(u64_from_be_bytes(&[0, 0, 0, 0, 0, 0, 1, 0]), 256);
}

#[test]
fn be_bytes_agree_with_std() {
    for v in [0u64, 1, 255, 256, 4096, 0xdead_beef, u64::MAX - 1, u64::MAX] {
        assert_eq!(u64_to_be_bytes(v), v.to_be_bytes().to_vec());
        assert_eq!(u64_from_be_bytes(&v.to_be_bytes()), v);
    }
}

#[test]
fn be_round_trip() {
    for v in [7u64, 1 << 40, 123456789012345] {
        assert_eq!(u64_from_be_bytes(&u64_to_be_bytes(v)), v);
    }
    let bytes = [9u8, 8, 7, 6, 5, 4, 3, 2];
    assert_eq!(u64_to_be_bytes(u64_from_be_bytes(&bytes)), bytes.to_vec());
}
