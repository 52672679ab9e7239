use chain_store::codec::{decode_number, encode_number, precedes, starts_with};

#[test]
fn numbers_are_big_endian() {
    assert_eq!(encode_number(0x0102), vec![0, 0, 0, 0, 0, 0, 1, 2]);
    assert_eq!(
        encode_number(0x0123_4567_89ab_cdef),
        vec![0x01, 0x23, 0x45, 0x67, 0x89, 0xab, 0xcd, 0xef]
    );
    assert_eq!(encode_number(u64::MAX), vec![0xff; 8]);
}

#[test]
fn numbers_come_back() {
    for n in [0, 1, 255, 256, 1 << 32, 0x8000_0000_0000_0000, u64::MAX] {
        assert_eq!(decode_number(&encode_number(n)), n);
    }
}

#[test]
fn a_number_is_read_from_the_head() {
    assert_eq!(decode_number(&[0, 0, 0, 0, 0, 0, 2, 1, 9, 9]), 513);
}

#[test]
fn encoded_numbers_are_ordered_as_the_numbers() {
    let numbers = [0, 1, 2, 255, 256, 65_535, 65_536, u64::MAX - 1, u64::MAX];
    for a in numbers {
        for b in numbers {
            assert_eq!(precedes(&encode_number(a), &encode_number(b)), a < b);
        }
    }
}

#[test]
fn bytes_are_ordered_like_words() {
    assert!(precedes(b"", b"a"));
    assert!(precedes(b"a", b"ab"));
    assert!(precedes(b"ab", b"b"));
    assert!(!precedes(b"b", b"ab"));
    assert!(!precedes(b"ab", b"ab"));
    assert!(!precedes(b"ab", b"a"));
}

#[test]
fn prefixes_are_recognised() {
    assert!(starts_with(b"abc", b"ab"));
    assert!(starts_with(b"abc", b""));
    assert!(starts_with(b"abc", b"abc"));
    assert!(!starts_with(b"abc", b"abcd"));
    assert!(!starts_with(b"abc", b"b"));
}
