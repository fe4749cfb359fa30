use pneumatic_core::blocks::{Block, BlockFactory, Blockchain, ChainState, FinalityStatus};
use pneumatic_core::sorted_map::{SortedMap, TextMap};
use pneumatic_core::tokens::Token;
use pneumatic_core::transactions::{
    canonical_signed_trans_bytes, SignedTransaction, Transaction, TransactionSignature,
};
use std::collections::BTreeMap;

fn test_transaction() -> SignedTransaction {
    SignedTransaction {
        transaction_id: "test".to_string(),
        transaction: Transaction {
            id: "test".to_string(),
            action: "Transfer".to_string(),
            token_id: vec![1],
            bid: None,
            sequence_number: 1,
            sender: vec![2],
            receiver: vec![3],
            amount: Some(1),
            timestamp: 1,
            result_hash: vec![],
            sender_signature: vec![],
        },
        shielded: None,
        total_stake: 0,
        total_voters: 0,
        leader_address: vec![6],
        leader_stake: 0,
        leader_hash: vec![],
        finalizer_addr: vec![],
        finalizer_sig: TransactionSignature::blank(),
        executor_sigs: SortedMap::new(),
        proposer_key: vec![5],
    }
}

fn test_block(previous_hash: Vec<u8>) -> Block {
    let mut block = Block {
        signed_trans: test_transaction(),
        token_metadata: TextMap::new(),
        previous_hash,
        current_hash: vec![],
        timestamp: 7,
        finality_status: FinalityStatus::Optimistic,
        proposer_key: vec![],
        epoch_number: 0,
    };
    block.current_hash = BlockFactory::create_hash(&block);
    block
}

#[test]
fn finality_status_block_default_is_optimistic() {
    let tx = test_transaction();
    let blockchain = Blockchain::new();
    let token = Token::default();
    let block = Block::from_transaction(tx, blockchain, &token, 0);
    assert_eq!(block.finality_status, FinalityStatus::Optimistic);
}

#[test]
fn block_test_block_has_optimistic_finality() {
    let block = test_block(vec![1, 2, 3]);
    assert_eq!(block.finality_status, FinalityStatus::Optimistic);
}

#[test]
fn from_transaction_empty_blockchain_yields_empty_previous_hash() {
    let tx = test_transaction();
    let blockchain = Blockchain::new();
    let token = Token::default();
    let block = Block::from_transaction(tx, blockchain, &token, 0);
    assert!(block.previous_hash.is_empty());
}

#[test]
fn built_blocks_extend_their_chain() {
    let mut blockchain = Blockchain::new();
    let mut token = Token::default();
    token.metadata.insert("symbol".to_string(), "ACM".to_string());
    let mut genesis = Block::from_transaction_at(test_transaction(), blockchain.clone(), &token, 4, 100);
    assert_eq!(genesis.timestamp, 100);
    assert_eq!(genesis.epoch_number, 4);
    assert_eq!(genesis.proposer_key, vec![6]);
    assert_eq!(genesis.token_metadata.get("symbol").unwrap(), "ACM");
    assert!(genesis.current_hash.is_empty());
    genesis.current_hash = BlockFactory::create_hash(&genesis);
    assert!(blockchain.validate_next_block(&genesis));
    blockchain.add_block(genesis);
    let mut next = Block::from_transaction(test_transaction(), blockchain.clone(), &token, 5);
    assert!(next.timestamp > 100);
    next.current_hash = BlockFactory::create_hash(&next);
    assert!(blockchain.validate_next_block(&next));
    blockchain.add_block(next);
    assert!(blockchain.get_current_chain_state().is_valid);
    assert_eq!(blockchain.get_count(), 2);
}

#[test]
fn get_current_chain_state_with_empty_chain() {
    let blockchain = Blockchain::new();
    let state = blockchain.get_current_chain_state();
    assert!(state.is_valid);
    assert_eq!(state.last_hash_in.len(), 0);
}

#[test]
fn get_current_chain_state_with_valid_chain() {
    let mut blockchain = Blockchain::new();
    let valid_next_block = test_block(vec![23, 42, 43]);
    blockchain.add_block(valid_next_block);
    let state = blockchain.get_current_chain_state();
    assert!(state.is_valid);
    assert!(state.last_hash_in.len() > 0);
}

#[test]
fn get_current_chain_state_with_invalid_chain() {
    let mut blockchain = Blockchain::new();
    let valid_next_block = test_block(vec![23, 42, 43]);
    blockchain.add_block(valid_next_block);
    let invalid_next_block = test_block(vec![23, 42, 43]);
    blockchain.add_block(invalid_next_block);
    let state = blockchain.get_current_chain_state();
    assert!(!state.is_valid);
    assert_eq!(state.last_hash_in.len(), 0);
}

#[test]
fn validate_next_block_with_valid_block() {
    let mut blockchain = Blockchain::new();
    let valid_next_block = test_block(vec![23, 42, 43]);
    blockchain.add_block(valid_next_block);
    let last_block_hash = blockchain.get_current_chain_state().last_hash_in;
    let valid_next_block = test_block(last_block_hash);
    assert!(blockchain.validate_next_block(&valid_next_block));
}

#[test]
fn validate_next_block_with_invalid_previous_hash() {
    let mut blockchain = Blockchain::new();
    let valid_next_block = test_block(vec![23, 42, 43]);
    blockchain.add_block(valid_next_block);
    let invalid_next_block = test_block(vec![1, 2, 3]);
    assert!(!blockchain.validate_next_block(&invalid_next_block));
}

#[test]
fn validate_next_block_with_invalid_block_hash() {
    let mut blockchain = Blockchain::new();
    let valid_next_block = test_block(vec![23, 42, 43]);
    blockchain.add_block(valid_next_block);
    let mut invalid_next_block = test_block(blockchain.get_current_chain_state().last_hash_in);
    invalid_next_block.current_hash = vec![1, 2, 3];
    assert!(!blockchain.validate_next_block(&invalid_next_block));
}

#[test]
fn validate_next_block_empty_chain_accepts_genesis_block() {
    let blockchain = Blockchain::new();
    let genesis_block = test_block(Vec::<u8>::new());
    assert!(blockchain.validate_next_block(&genesis_block));
}

#[test]
fn validate_next_block_empty_chain_rejects_nonempty_previous_hash() {
    let blockchain = Blockchain::new();
    let block = test_block(vec![1, 2, 3]);
    assert!(!blockchain.validate_next_block(&block));
}

#[test]
fn validate_next_block_empty_chain_rejects_invalid_block_hash() {
    let blockchain = Blockchain::new();
    let mut genesis_block = test_block(Vec::<u8>::new());
    genesis_block.current_hash = vec![1, 2, 3];
    assert!(!blockchain.validate_next_block(&genesis_block));
}

fn sig_entry(key: Vec<u8>) -> TransactionSignature {
    TransactionSignature {
        transaction_id: vec![1],
        env_id: vec![2],
        transaction_hash: key.clone(),
        signature: key,
        current_stake: 1,
    }
}

fn signed_tx_with(executor_sigs: SortedMap<TransactionSignature>) -> SignedTransaction {
    SignedTransaction {
        transaction_id: "block_tx".into(),
        transaction: Transaction {
            id: "block_tx".into(),
            action: "Transfer".into(),
            token_id: vec![1, 2, 3],
            bid: None,
            sequence_number: 7,
            sender: vec![9, 9, 9],
            receiver: vec![8, 8, 8],
            amount: Some(500),
            timestamp: 4242,
            result_hash: vec![0xAA],
            sender_signature: vec![],
        },
        shielded: None,
        total_stake: 1000,
        total_voters: 5,
        leader_address: vec![11, 22, 33],
        leader_stake: 500,
        leader_hash: vec![4, 5, 6],
        finalizer_addr: vec![7, 7, 7],
        finalizer_sig: sig_entry(vec![7, 7, 7]),
        executor_sigs,
        proposer_key: vec![3, 1, 4],
    }
}

fn populated_block(metadata: TextMap, executor_sigs: SortedMap<TransactionSignature>) -> Block {
    let mut block = Block {
        signed_trans: signed_tx_with(executor_sigs),
        token_metadata: metadata,
        previous_hash: vec![0xDE, 0xAD],
        timestamp: 999,
        current_hash: vec![],
        finality_status: FinalityStatus::Optimistic,
        proposer_key: vec![3, 1, 4],
        epoch_number: 17,
    };
    block.current_hash = BlockFactory::create_hash(&block);
    block
}

fn metadata_forward() -> TextMap {
    let mut m = TextMap::new();
    m.insert("decimals".into(), "18".into());
    m.insert("name".into(), "AcmeCoin".into());
    m.insert("symbol".into(), "ACM".into());
    m
}

fn metadata_reversed() -> TextMap {
    let mut m = TextMap::new();
    m.insert("symbol".into(), "ACM".into());
    m.insert("name".into(), "AcmeCoin".into());
    m.insert("decimals".into(), "18".into());
    m
}

fn sigs_forward() -> SortedMap<TransactionSignature> {
    let mut m = SortedMap::new();
    m.insert(vec![10], sig_entry(vec![10]));
    m.insert(vec![20], sig_entry(vec![20]));
    m.insert(vec![30], sig_entry(vec![30]));
    m
}

fn sigs_reversed() -> SortedMap<TransactionSignature> {
    let mut m = SortedMap::new();
    m.insert(vec![30], sig_entry(vec![30]));
    m.insert(vec![20], sig_entry(vec![20]));
    m.insert(vec![10], sig_entry(vec![10]));
    m
}

#[test]
fn block_hash_is_deterministic_across_insertion_order() {
    let a = populated_block(metadata_forward(), sigs_forward());
    let b = populated_block(metadata_reversed(), sigs_reversed());
    assert_eq!(a.current_hash, b.current_hash);
}

#[test]
fn block_hash_binds_proposer_and_epoch() {
    let a = populated_block(metadata_forward(), sigs_forward());
    let mut b = populated_block(metadata_forward(), sigs_forward());
    b.proposer_key = vec![9, 9, 9];
    b.current_hash = BlockFactory::create_hash(&b);
    assert_ne!(a.current_hash, b.current_hash);
    let mut c = populated_block(metadata_forward(), sigs_forward());
    c.epoch_number = 18;
    c.current_hash = BlockFactory::create_hash(&c);
    assert_ne!(a.current_hash, c.current_hash);
}

#[test]
fn block_hash_binds_the_signatures_and_metadata() {
    let a = populated_block(metadata_forward(), sigs_forward());
    let mut fewer = sigs_forward();
    fewer.insert(vec![40], sig_entry(vec![40]));
    assert_ne!(populated_block(metadata_forward(), fewer).current_hash, a.current_hash);
    let mut renamed = metadata_forward();
    renamed.insert("name".into(), "Other".into());
    assert_ne!(populated_block(renamed, sigs_forward()).current_hash, a.current_hash);
    assert_eq!(a.current_hash.len(), 32);
}

#[test]
fn block_hash_is_the_digest_of_its_packed_parts() {
    let block = populated_block(metadata_forward(), sigs_forward());
    let metadata: BTreeMap<&str, &str> =
        [("decimals", "18"), ("name", "AcmeCoin"), ("symbol", "ACM")].into_iter().collect();
    let mut input = vec![0xDE, 0xAD];
    input.extend(rmp_serde::to_vec(&999i64).unwrap());
    input.extend(canonical_signed_trans_bytes(&block.signed_trans));
    input.extend(rmp_serde::to_vec(&metadata).unwrap());
    input.extend(rmp_serde::to_vec(&vec![3u8, 1, 4]).unwrap());
    input.extend(rmp_serde::to_vec(&17u64).unwrap());
    let digest = ring::digest::digest(&ring::digest::SHA256, &input);
    assert_eq!(block.current_hash, digest.as_ref());
}

#[test]
fn finality_is_set_by_hash() {
    let mut blockchain = Blockchain::new();
    let block = test_block(vec![]);
    let hash = block.current_hash.clone();
    blockchain.add_block(block);
    assert!(blockchain.set_finality_status(&[1], FinalityStatus::Confirmed).is_err());
    assert_eq!(blockchain.get_block_at(0).unwrap().finality_status, FinalityStatus::Optimistic);
    assert!(blockchain.set_finality_status(&hash, FinalityStatus::Confirmed).is_ok());
    assert_eq!(blockchain.get_block_at(0).unwrap().finality_status, FinalityStatus::Confirmed);
    assert!(blockchain.get_block_at(1).is_none());
}

#[test]
fn blocks_leave_the_front_of_the_chain() {
    let mut blockchain = Blockchain::new();
    assert!(blockchain.remove_block().is_none());
    blockchain.add_block(test_block(vec![1]));
    blockchain.add_block(test_block(vec![2]));
    assert_eq!(blockchain.remove_block().unwrap().previous_hash, vec![1]);
    assert_eq!(blockchain.get_count(), 1);
}

#[test]
fn chain_states_without_a_chain() {
    assert!(!ChainState::invalid().is_valid);
    assert!(ChainState::empty().is_valid);
    assert!(ChainState::invalid().last_hash_in.is_empty());
}
