use small_apps::blockchain::{new_chain, Chain};
use small_apps::clock::current_timestamp;
use small_apps::text::{hex_encode, starts_with_zeros};

const ZEROS: &str = "0000000000000000000000000000000000000000000000000000000000000000";
const GENESIS_HASH: &str = "04d862bb80278f7225fd90abc29f81d856befee919f4d1f2058ecfb3af55c972";

#[test]
fn new_chain_and_mine_work() {
    let mut chain = Chain::new("miner".into(), 1).unwrap();
    assert!(chain.new_transaction("alice".into(), "bob".into(), "10.0".into()));
    assert!(chain.mine().is_ok());
}

#[test]
fn hex_encode_is_lowercase_two_digits_per_byte() {
    assert_eq!(hex_encode(&[0x00, 0xff, 0x1a, 0x09, 0xa0]), "00ff1a09a0");
    assert_eq!(hex_encode(&[]), "");
}

#[test]
fn leading_zeros_are_counted() {
    assert!(starts_with_zeros("00ab", 2));
    assert!(!starts_with_zeros("00ab", 3));
    assert!(starts_with_zeros("", 0));
    assert!(!starts_with_zeros("0", 2));
}

#[test]
fn current_timestamp_is_after_2020() {
    let t = current_timestamp().unwrap();
    assert!(t > 1_577_836_800);
}

#[test]
fn genesis_block_at_fixed_time() {
    let chain = Chain::new_at("miner".into(), 1, 1_700_000_000).unwrap();
    let blocks = chain.blocks();
    assert_eq!(blocks.len(), 1);
    let g = &blocks[0];
    assert_eq!(g.timestamp(), 1_700_000_000);
    assert_eq!(g.nonce(), 6);
    assert_eq!(g.prev_hash(), ZEROS);
    assert_eq!(g.hash(), GENESIS_HASH);
    assert_eq!(g.difficulty(), 1);
    assert_eq!(g.transactions().len(), 1);
    assert_eq!(g.transactions()[0].sender, "Root");
    assert_eq!(g.transactions()[0].receiver, "miner");
    assert_eq!(g.transactions()[0].amount, "100.0");
    assert_eq!(Chain::hash_block(g), GENESIS_HASH);
    assert_eq!(chain.last_hash(), GENESIS_HASH);
    assert_eq!(chain.reward(), "100.0");
    assert_eq!(chain.difficulty(), 1);
    assert!(chain.pending_transactions().is_empty());
}

#[test]
fn mined_block_links_and_takes_pending() {
    let mut chain = Chain::new_at("miner".into(), 1, 1_700_000_000).unwrap();
    assert!(chain.new_transaction("alice".into(), "bob".into(), "10.0".into()));
    assert_eq!(chain.pending_transactions().len(), 1);
    assert_eq!(chain.mine_at(1_700_000_060), Ok(()));
    assert!(chain.pending_transactions().is_empty());
    let blocks = chain.blocks();
    assert_eq!(blocks.len(), 2);
    let b = &blocks[1];
    assert_eq!(b.prev_hash(), GENESIS_HASH);
    assert_eq!(b.nonce(), 57);
    assert_eq!(b.hash(), "03710b810335d7fcadcec8b05bed8a8b0d0859e76dde8455cf666e94989b3f11");
    assert_eq!(b.transactions().len(), 2);
    assert_eq!(b.transactions()[0].sender, "Root");
    assert_eq!(b.transactions()[1].sender, "alice");
    assert_eq!(b.transactions()[1].receiver, "bob");
    assert_eq!(chain.last_hash(), b.hash().clone());
}

#[test]
fn difficulty_two_needs_two_zeros() {
    let chain = Chain::new_at("miner".into(), 2, 1_700_000_000).unwrap();
    let g = &chain.blocks()[0];
    assert_eq!(g.nonce(), 198);
    assert_eq!(g.hash(), "0010569f666d667ecc7208934804f1a0dcfc6940e971dfe549034a9369aad79a");
}

#[test]
fn difficulty_zero_takes_first_nonce() {
    let chain = Chain::new_at("miner".into(), 0, 1_700_000_000).unwrap();
    let g = &chain.blocks()[0];
    assert_eq!(g.nonce(), 1);
    assert_eq!(g.hash(), "a96e36f5a48d36630eca492b516bd3325391a8d016754acb5e94c380fbc4f3e3");
}

#[test]
fn header_strings_are_escaped() {
    let mut chain = Chain::new_at("miner".into(), 1, 1_700_000_000).unwrap();
    chain.new_transaction("a\"b\\c\n\u{1}".into(), "ü".into(), "1e20".into());
    assert_eq!(chain.mine_at(5), Ok(()));
    let b = &chain.blocks()[1];
    assert_eq!(b.nonce(), 4);
    assert_eq!(b.hash(), "08205a25fe3ebfdcbcc8d56531c8a1c3c3cacdff6a5fd1511fa94fda1285fd2e");
}

#[test]
fn settings_apply_to_next_block() {
    let mut chain = new_chain("miner".into(), 1).unwrap();
    chain.set_difficulty(0);
    chain.set_reward("5.5".into());
    assert_eq!(chain.difficulty(), 0);
    assert_eq!(chain.reward(), "5.5");
    assert_eq!(chain.mine_at(7), Ok(()));
    let b = &chain.blocks()[1];
    assert_eq!(b.nonce(), 1);
    assert_eq!(b.difficulty(), 0);
    assert_eq!(b.transactions()[0].amount, "5.5");
    assert_eq!(b.timestamp(), 7);
}
