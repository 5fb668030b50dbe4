use chain_store::block::{Block, BlockHeader};
use chain_store::chain::{
    check_link, hash_key, pointer_key, ChainAdapter, ChainKVStore, ChainStore, NoopAdapter,
};
use chain_store::error::{Error, SerError};
use chain_store::hash::{self, Difficulty};
use chain_store::keys::{to_key, u64_to_key, HEADER_HEIGHT_PREFIX, HEAD_PREFIX};
use chain_store::ser::ser_vec;
use chain_store::store::Store;
use chain_store::tip::Tip;

fn hash_of(byte: u8) -> hash::Hash {
    hash::Hash([byte; 32])
}

fn header(height: u64, own: u8, previous: u8) -> BlockHeader {
    BlockHeader {
        hash: hash_of(own),
        height,
        previous: hash_of(previous),
        total_difficulty: Difficulty::from_num(height + 1),
        payload: vec![own, previous, 0xaa, b':'],
    }
}

fn empty_chain() -> ChainKVStore {
    ChainKVStore::new(Store::new())
}

/// A chain store whose height index holds the header `own` at `height`.
fn chain_indexed_at(height: u64, own: u8) -> ChainKVStore {
    let mut db = Store::new();
    db.put(&u64_to_key(HEADER_HEIGHT_PREFIX, height), hash_of(own).to_vec())
        .unwrap();
    ChainKVStore::new(db)
}

#[test]
fn head_before_genesis_is_not_found() {
    let chain = empty_chain();
    assert_eq!(chain.head(), Err(Error::NotFoundErr));
    assert_eq!(chain.get_header_head(), Err(Error::NotFoundErr));
    assert_eq!(chain.head_header(), Err(Error::NotFoundErr));
}

#[test]
fn save_head_then_head_returns_the_genesis_tip() {
    let g = hash_of(0x67);
    let tip = Tip::new(g);
    let mut chain = empty_chain();
    assert_eq!(chain.save_head(&tip), Ok(()));
    let head = chain.head().unwrap();
    assert_eq!(head, tip);
    assert_eq!(head.height, 0);
    assert_eq!(head.last_block_h, g);
    assert_eq!(head.prev_block_h, g);
    assert_eq!(head.total_difficulty.into_num(), 1);
}

#[test]
fn head_and_header_head_are_independent() {
    let tip = Tip::new(hash_of(0x67));
    let mut chain = empty_chain();
    chain.save_head(&tip).unwrap();
    assert_eq!(chain.get_header_head(), Err(Error::NotFoundErr));
    let ahead = Tip::from_block(&header(10, 10, 9));
    assert_eq!(chain.save_header_head(&ahead), Ok(()));
    assert_eq!(chain.head().unwrap().height, 0);
    assert_eq!(chain.head(), Ok(tip));
    assert_eq!(chain.get_header_head().unwrap().height, 10);
    assert_eq!(chain.get_header_head(), Ok(ahead));
}

#[test]
fn save_head_overwrites() {
    let mut chain = empty_chain();
    chain.save_head(&Tip::new(hash_of(1))).unwrap();
    let next = Tip::from_block(&header(1, 2, 1));
    chain.save_head(&next).unwrap();
    assert_eq!(chain.head(), Ok(next));
}

#[test]
fn head_pointer_lies_under_prefix_and_separator() {
    let tip = Tip::new(hash_of(3));
    let mut chain = empty_chain();
    chain.save_head(&tip).unwrap();
    let mut db = Store::new();
    let mut key: Vec<u8> = Vec::new();
    to_key(HEAD_PREFIX, &mut key);
    assert_eq!(key, vec![b'H', b':']);
    db.put(&key, ser_vec(&tip).unwrap()).unwrap();
    assert_eq!(ChainKVStore::new(db).head(), chain.head());
}

#[test]
fn head_of_a_damaged_record_is_a_ser_error() {
    let mut db = Store::new();
    db.put(&[b'H', b':'], vec![1, 2, 3]).unwrap();
    let chain = ChainKVStore::new(db);
    assert_eq!(chain.head(), Err(Error::SerErr(SerError::UnexpectedEof)));
}

#[test]
fn save_block_then_get_block_returns_its_bytes() {
    let mut chain = empty_chain();
    let block = Block { header: header(1, 2, 1), payload: vec![9, 8, 7, b':', 0] };
    assert_eq!(chain.get_block(&hash_of(2)), Err(Error::NotFoundErr));
    assert_eq!(chain.save_block(&block), Ok(()));
    assert_eq!(chain.get_block(&hash_of(2)), Ok(vec![9, 8, 7, b':', 0]));
    assert_eq!(chain.get_block(&hash_of(1)), Err(Error::NotFoundErr));
    assert_eq!(chain.get_block_header(&hash_of(2)), Err(Error::NotFoundErr));
}

#[test]
fn save_block_header_then_get_block_header_returns_its_bytes() {
    let mut chain = empty_chain();
    let bh = header(1, 2, 1);
    assert_eq!(chain.save_block_header(&bh), Ok(()));
    assert_eq!(chain.get_block_header(&hash_of(2)), Ok(bh.payload.clone()));
    assert_eq!(chain.get_block(&hash_of(2)), Err(Error::NotFoundErr));
}

#[test]
fn save_block_twice_is_save_block_once() {
    let mut chain = empty_chain();
    let block = Block { header: header(1, 2, 1), payload: vec![4, 4] };
    chain.save_block(&block).unwrap();
    chain.save_block(&block).unwrap();
    assert_eq!(chain.get_block(&hash_of(2)), Ok(vec![4, 4]));
}

#[test]
fn head_header_is_the_header_of_the_head() {
    let mut chain = empty_chain();
    let bh = header(1, 2, 1);
    chain.save_head(&Tip::from_block(&bh)).unwrap();
    assert_eq!(chain.head_header(), Err(Error::NotFoundErr));
    chain.save_block_header(&bh).unwrap();
    assert_eq!(chain.head_header(), Ok(bh.payload.clone()));
}

#[test]
fn header_at_height_without_entry_is_not_found() {
    let chain = empty_chain();
    assert_eq!(chain.get_header_by_height(0), Err(Error::NotFoundErr));
    assert_eq!(chain.get_header_by_height(6), Err(Error::NotFoundErr));
}

#[test]
fn index_height_refuses_a_header_with_another_predecessor() {
    let mut chain = chain_indexed_at(5, 0x55);
    let stranger = header(6, 0x66, 0x54);
    assert_eq!(chain.setup_height(&stranger), Err(Error::HeightErr));
    assert_eq!(chain.get_header_by_height(6), Err(Error::NotFoundErr));
    assert_eq!(chain.get_header_by_height(5), Ok(hash_of(0x55)));
}

#[test]
fn index_height_accepts_the_header_that_follows() {
    let mut chain = chain_indexed_at(5, 0x55);
    let next = header(6, 0x66, 0x55);
    assert_eq!(chain.setup_height(&next), Ok(()));
    assert_eq!(chain.get_header_by_height(6), Ok(hash_of(0x66)));
    assert_eq!(chain.get_header_by_height(5), Ok(hash_of(0x55)));
}

#[test]
fn index_height_without_the_height_below_is_not_found() {
    let mut chain = chain_indexed_at(5, 0x55);
    let far = header(8, 0x88, 0x77);
    assert_eq!(chain.setup_height(&far), Err(Error::NotFoundErr));
    assert_eq!(chain.get_header_by_height(8), Err(Error::NotFoundErr));
}

#[test]
fn index_height_of_genesis_needs_nothing_below() {
    let mut chain = empty_chain();
    let genesis = header(0, 0x01, 0x01);
    assert_eq!(chain.setup_height(&genesis), Ok(()));
    assert_eq!(chain.get_header_by_height(0), Ok(hash_of(0x01)));
}

#[test]
fn index_height_in_ascending_order_builds_a_chain() {
    let mut chain = empty_chain();
    chain.setup_height(&header(0, 10, 10)).unwrap();
    for h in 1..20u8 {
        assert_eq!(chain.setup_height(&header(h as u64, 10 + h, 9 + h)), Ok(()));
    }
    for h in 0..20u8 {
        assert_eq!(chain.get_header_by_height(h as u64), Ok(hash_of(10 + h)));
    }
}

#[test]
fn index_height_rewrites_a_fork_from_the_fork_point_up() {
    let mut chain = empty_chain();
    chain.setup_height(&header(0, 10, 10)).unwrap();
    chain.setup_height(&header(1, 11, 10)).unwrap();
    chain.setup_height(&header(2, 12, 11)).unwrap();
    // the other branch leaves the chain after height 0
    assert_eq!(chain.setup_height(&header(2, 22, 21)), Err(Error::HeightErr));
    assert_eq!(chain.get_header_by_height(2), Ok(hash_of(12)));
    assert_eq!(chain.setup_height(&header(1, 21, 10)), Ok(()));
    assert_eq!(chain.setup_height(&header(2, 22, 21)), Ok(()));
    assert_eq!(chain.get_header_by_height(1), Ok(hash_of(21)));
    assert_eq!(chain.get_header_by_height(2), Ok(hash_of(22)));
}

#[test]
fn index_height_over_a_damaged_entry_is_a_ser_error() {
    let mut db = Store::new();
    db.put(&u64_to_key(HEADER_HEIGHT_PREFIX, 5), vec![1, 2, 3]).unwrap();
    let mut chain = ChainKVStore::new(db);
    assert_eq!(
        chain.setup_height(&header(6, 0x66, 0x55)),
        Err(Error::SerErr(SerError::UnexpectedEof))
    );
}

#[test]
fn check_link_compares_the_declared_predecessor() {
    let bh = header(6, 0x66, 0x55);
    assert_eq!(check_link(&bh, &hash_of(0x55)), Ok(()));
    assert_eq!(check_link(&bh, &hash_of(0x56)), Err(Error::HeightErr));
    assert_eq!(check_link(&bh, &hash_of(0x66)), Err(Error::HeightErr));
}

#[test]
fn records_of_one_hash_do_not_meet() {
    let mut chain = empty_chain();
    let bh = header(3, 0x48, 0x47);
    let block = Block { header: header(3, 0x48, 0x47), payload: vec![1] };
    chain.save_block_header(&bh).unwrap();
    chain.save_block(&block).unwrap();
    chain.save_head(&Tip::from_block(&bh)).unwrap();
    assert_eq!(chain.get_block(&hash_of(0x48)), Ok(vec![1]));
    assert_eq!(chain.get_block_header(&hash_of(0x48)), Ok(bh.payload.clone()));
    assert_eq!(chain.head(), Ok(Tip::from_block(&bh)));
    assert_eq!(chain.get_header_head(), Err(Error::NotFoundErr));
}

#[test]
fn into_store_gives_the_records_back() {
    let mut chain = empty_chain();
    let tip = Tip::new(hash_of(9));
    chain.save_head(&tip).unwrap();
    let db = chain.into_store();
    assert_eq!(db.get_ser::<Tip>(&pointer_key(HEAD_PREFIX)), Ok(Some(tip)));
    assert_eq!(db.get(&hash_key(b'b', &hash_of(9))), Ok(None));
    let mut expected = vec![b'b', b':'];
    expected.extend_from_slice(&[9; 32]);
    assert_eq!(hash_key(b'b', &hash_of(9)), expected);
    assert_eq!(pointer_key(b'I'), vec![b'I', b':']);
}

#[test]
fn noop_adapter_accepts_any_block() {
    let adapter = NoopAdapter {};
    let block = Block { header: header(1, 2, 1), payload: vec![1, 2, 3] };
    adapter.block_accepted(&block);
    assert_eq!(block.hash(), hash_of(2));
    assert_eq!(block.header.hash(), hash_of(2));
}
