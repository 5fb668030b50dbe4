use chain_store::block::BlockHeader;
use chain_store::error::SerError;
use chain_store::hash::{self, Difficulty, HASH_SIZE};
use chain_store::ser::{deserialize, ser_vec, Readable, Writeable};
use chain_store::tip::{Tip, TIP_SIZE};

fn hash_of(byte: u8) -> hash::Hash {
    hash::Hash([byte; 32])
}

fn counting_hash(start: u8) -> hash::Hash {
    let mut bytes = [0u8; 32];
    for i in 0..32 {
        bytes[i] = start.wrapping_add(i as u8);
    }
    hash::Hash(bytes)
}

#[test]
fn genesis_tip_has_height_zero_and_one_hash() {
    let g = hash_of(0xab);
    let tip = Tip::new(g);
    assert_eq!(tip.height, 0);
    assert_eq!(tip.last_block_h, g);
    assert_eq!(tip.prev_block_h, g);
    assert_eq!(tip.total_difficulty, Difficulty::one());
    assert_eq!(tip.total_difficulty.into_num(), 1);
}

#[test]
fn tip_from_block_takes_the_header_fields() {
    let bh = BlockHeader {
        hash: hash_of(3),
        height: 42,
        previous: hash_of(2),
        total_difficulty: Difficulty::from_num(1_000),
        payload: vec![1, 2, 3],
    };
    let tip = Tip::from_block(&bh);
    assert_eq!(tip.height, 42);
    assert_eq!(tip.last_block_h, hash_of(3));
    assert_eq!(tip.prev_block_h, hash_of(2));
    assert_eq!(tip.total_difficulty.into_num(), 1_000);
}

#[test]
fn genesis_tip_record_is_byte_exact() {
    let tip = Tip::new(hash_of(0x11));
    let bytes = ser_vec(&tip).unwrap();
    assert_eq!(bytes.len(), TIP_SIZE);
    assert_eq!(bytes.len(), 80);
    let mut expected: Vec<u8> = vec![0; 8];
    expected.extend_from_slice(&[0x11; 32]);
    expected.extend_from_slice(&[0x11; 32]);
    expected.extend_from_slice(&[0, 0, 0, 0, 0, 0, 0, 1]);
    assert_eq!(bytes, expected);
}

#[test]
fn tip_record_is_byte_exact() {
    let tip = Tip {
        height: 0x0102_0304_0506_0708,
        last_block_h: counting_hash(0),
        prev_block_h: counting_hash(100),
        total_difficulty: Difficulty::from_num(0x1122_3344_5566_7788),
    };
    let bytes = ser_vec(&tip).unwrap();
    assert_eq!(&bytes[0..8], &[1, 2, 3, 4, 5, 6, 7, 8]);
    assert_eq!(&bytes[8..40], &counting_hash(0).0);
    assert_eq!(&bytes[40..72], &counting_hash(100).0);
    assert_eq!(&bytes[72..80], &[0x11, 0x22, 0x33, 0x44, 0x55, 0x66, 0x77, 0x88]);
    assert_eq!(bytes.len(), 80);
}

#[test]
fn genesis_tip_round_trip() {
    let tip = Tip::new(hash_of(0x5a));
    let bytes = ser_vec(&tip).unwrap();
    let back: Tip = deserialize(&bytes).unwrap();
    assert_eq!(back, tip);
    assert_eq!(ser_vec(&back).unwrap(), bytes);
}

#[test]
fn arbitrary_tip_round_trip() {
    let tip = Tip {
        height: 123_456_789,
        last_block_h: counting_hash(7),
        prev_block_h: counting_hash(200),
        total_difficulty: Difficulty::from_num(u64::MAX - 5),
    };
    let bytes = ser_vec(&tip).unwrap();
    let back = Tip::read(&bytes).unwrap();
    assert_eq!(back, tip);
    assert_eq!(back.height, 123_456_789);
    assert_ne!(back.last_block_h, back.prev_block_h);
    assert_eq!(ser_vec(&back).unwrap(), bytes);
}

#[test]
fn tip_write_appends_to_what_is_there() {
    let tip = Tip::new(hash_of(1));
    let mut out: Vec<u8> = vec![0xee, 0xff];
    tip.write(&mut out).unwrap();
    assert_eq!(out.len(), 82);
    assert_eq!(&out[0..2], &[0xee, 0xff]);
    assert_eq!(&out[2..], &ser_vec(&tip).unwrap()[..]);
}

#[test]
fn tip_read_ignores_what_follows_the_record() {
    let tip = Tip {
        height: 9,
        last_block_h: hash_of(4),
        prev_block_h: hash_of(3),
        total_difficulty: Difficulty::from_num(77),
    };
    let mut bytes = ser_vec(&tip).unwrap();
    bytes.extend_from_slice(&[1, 2, 3, 4, 5]);
    assert_eq!(Tip::read(&bytes), Ok(tip));
}

#[test]
fn tip_read_of_too_few_bytes_fails() {
    let tip = Tip::new(hash_of(1));
    let bytes = ser_vec(&tip).unwrap();
    assert_eq!(Tip::read(&bytes[..79]), Err(SerError::UnexpectedEof));
    assert_eq!(Tip::read(&[]), Err(SerError::UnexpectedEof));
}

#[test]
fn hash_round_trip() {
    let h = counting_hash(50);
    let bytes = ser_vec(&h).unwrap();
    assert_eq!(bytes.len(), HASH_SIZE);
    assert_eq!(bytes, h.to_vec());
    assert_eq!(hash::Hash::read(&bytes), Ok(h));
    assert_eq!(hash::Hash::from_slice(&bytes), h);
    assert_eq!(hash::Hash::read(&bytes[..31]), Err(SerError::UnexpectedEof));
}

#[test]
fn hash_same_tells_equal_from_different() {
    let a = counting_hash(1);
    let mut other = a.0;
    other[31] ^= 1;
    assert!(a.same(&counting_hash(1)));
    assert!(!a.same(&hash::Hash(other)));
    assert_eq!(hash::Hash::zero(), hash::Hash([0; 32]));
}

#[test]
fn difficulty_round_trip() {
    let d = Difficulty::from_num(0x0a0b_0c0d_0e0f_1011);
    let bytes = ser_vec(&d).unwrap();
    assert_eq!(bytes, vec![0x0a, 0x0b, 0x0c, 0x0d, 0x0e, 0x0f, 0x10, 0x11]);
    assert_eq!(Difficulty::read(&bytes), Ok(d));
    assert_eq!(Difficulty::read(&bytes[..7]), Err(SerError::UnexpectedEof));
}
