use ledger::block::Block;
use ledger::chain::{BlockChain, BlockSearch, BlockSearchResult, MINING_REWARD};
use ledger::transaction::Transaction;
use sha2::{Digest, Sha256};

fn tiny_ledger(miner: &str) -> BlockChain {
    // Difficulty one keeps each sealing search to a handful of hash trials.
    BlockChain::with_difficulty(String::from(miner), 1)
}

#[test]
fn construction_seeds_genesis_and_mines_once() {
    let bc = tiny_ledger("M");
    // Genesis, plus the reward block the constructor's mining round seals.
    assert_eq!(bc.block_at(0).nonce, 0);
    assert_eq!(bc.block_at(0).previous_hash, vec![0u8; 32]);
    assert!(bc.block_at(0).transactions.is_empty());
    let reward_block = bc.block_at(1);
    assert_eq!(reward_block.transactions.len(), 1);
    let reward = Transaction::decode(reward_block.transactions[0].as_slice()).unwrap();
    assert_eq!(reward.sender_address, b"THE BLOCKCHAIN".to_vec());
    assert_eq!(reward.recipient_address, b"M".to_vec());
    assert_eq!(reward.value, MINING_REWARD);
}

#[test]
fn transfer_scenario_balances() {
    // Submit a transfer from A to B of 10, then mine: the mined block carries
    // the transfer and the round's reward, and balances follow.
    let mut bc = tiny_ledger("M");
    assert_eq!(bc.chain_len(), 2);
    let tx = Transaction::new(b"A".to_vec(), b"B".to_vec(), 10);
    bc.add_transaction(&tx);
    assert!(bc.mining());
    assert_eq!(bc.chain_len(), 3);
    let mined = bc.last_block();
    assert_eq!(mined.transactions.len(), 2);
    let first = Transaction::decode(mined.transactions[0].as_slice()).unwrap();
    let second = Transaction::decode(mined.transactions[1].as_slice()).unwrap();
    assert_eq!(first.sender_address, b"A".to_vec());
    assert_eq!(first.recipient_address, b"B".to_vec());
    assert_eq!(first.value, 10);
    assert_eq!(second.sender_address, b"THE BLOCKCHAIN".to_vec());
    assert_eq!(second.recipient_address, b"M".to_vec());
    assert_eq!(second.value, 1);
    assert_eq!(bc.calculate_total_amt(String::from("A")), -10);
    assert_eq!(bc.calculate_total_amt(String::from("B")), 10);
    // The miner is credited once by the constructor's round and once here.
    assert_eq!(bc.calculate_total_amt(String::from("M")), 2);
}

#[test]
fn balance_of_absent_address_is_zero() {
    let mut bc = tiny_ledger("M");
    bc.add_transaction(&Transaction::new(b"A".to_vec(), b"B".to_vec(), 10));
    bc.mining();
    assert_eq!(bc.calculate_total_amt(String::from("Z")), 0);
}

#[test]
fn balances_conserve_in_aggregate() {
    let mut bc = tiny_ledger("M");
    bc.add_transaction(&Transaction::new(b"A".to_vec(), b"B".to_vec(), 10));
    bc.add_transaction(&Transaction::new(b"B".to_vec(), b"C".to_vec(), 4));
    bc.mining();
    let mut sum: i64 = 0;
    for name in ["A", "B", "C", "M", "THE BLOCKCHAIN"] {
        sum += bc.calculate_total_amt(String::from(name));
    }
    assert_eq!(sum, 0);
}

#[test]
fn self_transfer_nets_to_zero() {
    let mut bc = tiny_ledger("M");
    bc.add_transaction(&Transaction::new(b"A".to_vec(), b"A".to_vec(), 5));
    bc.mining();
    assert_eq!(bc.calculate_total_amt(String::from("A")), 0);
}

#[test]
fn duplicate_submissions_are_admitted() {
    // A byte-identical resubmission is deliberately not rejected.
    let mut bc = tiny_ledger("M");
    bc.add_transaction(&Transaction::new(b"A".to_vec(), b"B".to_vec(), 10));
    bc.add_transaction(&Transaction::new(b"A".to_vec(), b"B".to_vec(), 10));
    bc.mining();
    assert_eq!(bc.last_block().transactions.len(), 3);
    assert_eq!(bc.calculate_total_amt(String::from("A")), -20);
    assert_eq!(bc.calculate_total_amt(String::from("B")), 20);
}

#[test]
fn mining_clears_the_pool() {
    // The round after a submission seals only its own reward: the previous
    // round drained the pool completely.
    let mut bc = tiny_ledger("M");
    bc.add_transaction(&Transaction::new(b"A".to_vec(), b"B".to_vec(), 10));
    assert!(bc.mining());
    assert_eq!(bc.last_block().transactions.len(), 2);
    assert!(bc.mining());
    assert_eq!(bc.last_block().transactions.len(), 1);
}

#[test]
fn chain_is_hash_linked() {
    let mut bc = tiny_ledger("M");
    bc.add_transaction(&Transaction::new(b"A".to_vec(), b"B".to_vec(), 10));
    bc.mining();
    bc.mining();
    for i in 1..4usize {
        assert_eq!(bc.block_at(i).previous_hash, bc.block_at(i - 1).hash());
    }
}

#[test]
fn sealed_blocks_meet_difficulty_target() {
    let bc = BlockChain::with_difficulty(String::from("M"), 2);
    let digest = bc.block_at(1).hash();
    let hex_str = hex::encode(&digest);
    assert!(hex_str.starts_with("00"));
    // The genesis block is appended directly and owes the target nothing.
}

#[test]
fn block_hash_matches_field_serialization() {
    let block = Block {
        nonce: -5,
        previous_hash: vec![1u8; 32],
        time_stamp: 123_456_789_000_000_000u128,
        transactions: vec![vec![1, 2, 3], vec![4, 5]],
    };
    let mut bin: Vec<u8> = Vec::new();
    bin.extend(block.nonce.to_be_bytes());
    bin.extend(block.previous_hash.clone());
    bin.extend(block.time_stamp.to_be_bytes());
    for tx in block.transactions.iter() {
        bin.extend(tx.clone());
    }
    let mut hasher = Sha256::new();
    hasher.update(&bin);
    let expected: Vec<u8> = hasher.finalize().to_vec();
    assert_eq!(block.hash(), expected);
    assert_ne!(block.hash(), bin);
}

#[test]
fn block_equality_is_hash_equality() {
    let a = Block {
        nonce: 3,
        previous_hash: vec![0u8; 32],
        time_stamp: 42,
        transactions: vec![vec![1]],
    };
    let b = Block {
        nonce: 3,
        previous_hash: vec![0u8; 32],
        time_stamp: 42,
        transactions: vec![vec![1]],
    };
    let c = Block {
        nonce: 4,
        previous_hash: vec![0u8; 32],
        time_stamp: 42,
        transactions: vec![vec![1]],
    };
    assert!(a == b);
    assert!(a != c);
}

#[test]
fn increment_nonce_adds_and_wraps() {
    let mut b = Block::new(0, vec![0u8; 32]);
    b.increment_nonce(1);
    assert_eq!(b.nonce, 1);
    b.increment_nonce(-3);
    assert_eq!(b.nonce, -2);
    let mut edge = Block::new(i32::MAX, Vec::new());
    edge.increment_nonce(1);
    assert_eq!(edge.nonce, i32::MIN);
}

#[test]
fn block_new_captures_arguments() {
    let b = Block::new(7, vec![9u8; 32]);
    assert_eq!(b.nonce, 7);
    assert_eq!(b.previous_hash, vec![9u8; 32]);
    assert!(b.transactions.is_empty());
}

#[test]
fn search_by_index_finds_genesis() {
    let bc = tiny_ledger("M");
    match bc.search_block(BlockSearch::SearchByIndex(0)) {
        BlockSearchResult::Success(b) => {
            assert_eq!(b.previous_hash, vec![0u8; 32]);
            assert!(b == bc.block_at(0));
        }
        _ => panic!("expected the genesis block"),
    }
}

#[test]
fn search_by_index_out_of_range_fails_with_index() {
    let bc = tiny_ledger("M");
    match bc.search_block(BlockSearch::SearchByIndex(99)) {
        BlockSearchResult::FailOfIndex(i) => assert_eq!(i, 99),
        _ => panic!("expected the not-found value for position 99"),
    }
}

#[test]
fn search_by_previous_hash() {
    let bc = tiny_ledger("M");
    let genesis_hash = bc.block_at(0).hash();
    match bc.search_block(BlockSearch::SearchByPreviousHash(genesis_hash)) {
        BlockSearchResult::Success(b) => assert!(b == bc.block_at(1)),
        _ => panic!("expected the block after genesis"),
    }
    match bc.search_block(BlockSearch::SearchByPreviousHash(vec![7u8; 32])) {
        BlockSearchResult::FailOfPreviousHash(h) => assert_eq!(h, vec![7u8; 32]),
        _ => panic!("expected the not-found value for an unknown hash"),
    }
}

#[test]
fn search_by_block_hash() {
    let bc = tiny_ledger("M");
    let tail_hash = bc.last_block().hash();
    match bc.search_block(BlockSearch::SearchByBlockHash(tail_hash)) {
        BlockSearchResult::Success(b) => assert!(b == bc.last_block()),
        _ => panic!("expected the tail block"),
    }
    match bc.search_block(BlockSearch::SearchByBlockHash(vec![8u8; 32])) {
        BlockSearchResult::FailOfBlockHash(h) => assert_eq!(h, vec![8u8; 32]),
        _ => panic!("expected the not-found value for an unknown hash"),
    }
}

#[test]
fn search_by_nonce_and_timestamp() {
    let bc = tiny_ledger("M");
    match bc.search_block(BlockSearch::SearchByNonce(0)) {
        BlockSearchResult::Success(b) => assert_eq!(b.nonce, 0),
        _ => panic!("expected the genesis block, whose nonce is zero"),
    }
    let ts = bc.block_at(1).time_stamp;
    match bc.search_block(BlockSearch::SearchByTimestamp(ts)) {
        BlockSearchResult::Success(b) => assert_eq!(b.time_stamp, ts),
        _ => panic!("expected a block with the queried timestamp"),
    }
    match bc.search_block(BlockSearch::SearchByTimestamp(u128::MAX)) {
        BlockSearchResult::FailOfTimeStamp(t) => assert_eq!(t, u128::MAX),
        _ => panic!("expected the not-found value for an unmatched timestamp"),
    }
}

#[test]
fn search_by_transaction() {
    let mut bc = tiny_ledger("M");
    let tx = Transaction::new(b"A".to_vec(), b"B".to_vec(), 10);
    let encoded = tx.encode();
    bc.add_transaction(&tx);
    bc.mining();
    match bc.search_block(BlockSearch::SearchByTransaction(encoded)) {
        BlockSearchResult::Success(b) => assert!(b == bc.last_block()),
        _ => panic!("expected the block holding the submitted record"),
    }
    match bc.search_block(BlockSearch::SearchByTransaction(vec![1, 2, 3])) {
        BlockSearchResult::FailOfTransaction(t) => assert_eq!(t, vec![1, 2, 3]),
        _ => panic!("expected the not-found value for unknown record bytes"),
    }
}

#[test]
fn search_by_nonce_not_found() {
    let bc = tiny_ledger("M");
    // The sealing search walks nonces upward from the lowest value, so a
    // sealed block's nonce is far below the top of the range.
    match bc.search_block(BlockSearch::SearchByNonce(i32::MAX)) {
        BlockSearchResult::FailOfNonce(n) => assert_eq!(n, i32::MAX),
        _ => panic!("expected the not-found value for an unused nonce"),
    }
}

#[test]
fn wallet_record_starts_unsigned() {
    let t = ledger::wallet::Transaction::new(
        String::from("alice"),
        String::from("bob"),
        100,
        String::from("aabb"),
    );
    assert_eq!(t.sender, "alice");
    assert_eq!(t.recipient, "bob");
    assert_eq!(t.amount, 100);
    assert_eq!(t.signature, "");
    assert_eq!(t.public_key, "aabb");
}
