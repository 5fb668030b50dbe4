use chain_store::keys::{
    to_key, u64_to_key, BLOCK_HEADER_PREFIX, BLOCK_PREFIX, HEADER_HEAD_PREFIX,
    HEADER_HEIGHT_PREFIX, HEAD_PREFIX, SEP,
};

#[test]
fn separator_is_a_colon() {
    assert_eq!(SEP, b':');
}

#[test]
fn prefixes_are_distinct_letters() {
    assert_eq!(BLOCK_PREFIX, b'b');
    assert_eq!(BLOCK_HEADER_PREFIX, b'h');
    assert_eq!(HEAD_PREFIX, b'H');
    assert_eq!(HEADER_HEAD_PREFIX, b'I');
    assert_eq!(HEADER_HEIGHT_PREFIX, b'8');
    let all = [
        BLOCK_PREFIX,
        BLOCK_HEADER_PREFIX,
        HEAD_PREFIX,
        HEADER_HEAD_PREFIX,
        HEADER_HEIGHT_PREFIX,
    ];
    for i in 0..all.len() {
        for j in 0..i {
            assert_ne!(all[i], all[j]);
        }
    }
}

#[test]
fn to_key_puts_prefix_and_separator_in_front() {
    let mut id: Vec<u8> = vec![1, 2, 3];
    let key = to_key(b'b', &mut id);
    assert_eq!(*key, vec![b'b', b':', 1, 2, 3]);
    assert_eq!(id, vec![b'b', b':', 1, 2, 3]);
}

#[test]
fn to_key_of_empty_identifier() {
    let mut id: Vec<u8> = Vec::new();
    to_key(b'H', &mut id);
    assert_eq!(id, vec![b'H', b':']);
}

#[test]
fn to_key_keeps_separator_bytes_of_the_identifier() {
    let mut id: Vec<u8> = vec![b':', 7, b':'];
    to_key(b'h', &mut id);
    assert_eq!(id, vec![b'h', b':', b':', 7, b':']);
}

#[test]
fn u64_to_key_is_big_endian() {
    assert_eq!(
        u64_to_key(b'8', 0x0102_0304_0506_0708),
        vec![b'8', b':', 1, 2, 3, 4, 5, 6, 7, 8]
    );
}

#[test]
fn u64_to_key_of_zero_and_max() {
    assert_eq!(u64_to_key(b'8', 0), vec![b'8', b':', 0, 0, 0, 0, 0, 0, 0, 0]);
    assert_eq!(
        u64_to_key(b'8', u64::MAX),
        vec![b'8', b':', 255, 255, 255, 255, 255, 255, 255, 255]
    );
}

#[test]
fn u64_to_key_of_one_differs_from_its_argument_bytes() {
    let key = u64_to_key(7, 1);
    assert_eq!(key.len(), 10);
    assert_eq!(key, vec![7, b':', 0, 0, 0, 0, 0, 0, 0, 1]);
}

#[test]
fn height_keys_sort_as_heights_do() {
    let heights: [u64; 9] = [0, 1, 2, 255, 256, 257, 65_535, 65_536, u64::MAX];
    for i in 0..heights.len() {
        for j in 0..heights.len() {
            let a = u64_to_key(b'8', heights[i]);
            let b = u64_to_key(b'8', heights[j]);
            assert_eq!(heights[i] < heights[j], a < b);
            assert_eq!(heights[i] == heights[j], a == b);
        }
    }
}

#[test]
fn keys_of_different_kinds_differ_for_one_identifier() {
    let mut a: Vec<u8> = vec![9; 32];
    let mut b: Vec<u8> = vec![9; 32];
    to_key(BLOCK_PREFIX, &mut a);
    to_key(BLOCK_HEADER_PREFIX, &mut b);
    assert_ne!(a, b);
}
