use pneumatic_core::errors::{PneumaticError, TransactionRiskFactor, ValidationFailureReason};
use pneumatic_core::registry::{
    NullifierRegistry, PendingAdminCredit, PendingTransactionRegistry, TransactionSignatureRegistry,
};
use pneumatic_core::transactions::{
    PendingTransaction, ShieldedTransaction, Transaction, TransactionPool, TransactionSignature,
    TransactionState, TransactionValidationResult,
};

fn shielded_fixture(id: &str) -> ShieldedTransaction {
    ShieldedTransaction {
        id: id.into(),
        action: "ShieldedTransfer".into(),
        token_id: vec![1, 2, 3],
        spent_commitments: vec![[6u8; 32]],
        nullifiers: vec![[1u8; 32]],
        commitments: vec![[3u8; 32]],
        merkle_root: [5u8; 32],
        proof_bytes: vec![9, 8, 7, 6],
        note_ciphertexts: vec![vec![10u8; 64]],
        fee: 0,
    }
}

fn blank_transaction() -> Transaction {
    Transaction {
        id: "tx1".into(),
        action: "Transfer".into(),
        token_id: vec![],
        bid: None,
        sequence_number: 0,
        sender: vec![],
        receiver: vec![],
        amount: None,
        timestamp: 0,
        result_hash: vec![],
        sender_signature: vec![],
    }
}

fn transfer() -> Transaction {
    Transaction {
        sequence_number: 1,
        sender: vec![1],
        receiver: vec![2],
        amount: Some(100),
        ..blank_transaction()
    }
}

fn validation() -> TransactionValidationResult {
    TransactionValidationResult::valid(
        vec![],
        TransactionRiskFactor { affected_parties: 1, amount: 0, is_contract: false, is_multi_party: false },
    )
}

fn validated_registry() -> PendingTransactionRegistry {
    let mut registry = PendingTransactionRegistry::new();
    registry.register_pending("tx1".into()).unwrap();
    if let Ok(entry) = registry.get_transaction_mut("tx1") {
        entry.transition_to_validated(transfer(), validation());
    }
    registry
}

#[test]
fn contains_empty_registry_returns_false() {
    let registry = PendingTransactionRegistry::new();
    assert!(!registry.contains("tx1"));
}

#[test]
fn contains_after_register_pending_returns_true() {
    let mut registry = PendingTransactionRegistry::new();
    registry.register_pending("tx1".into()).unwrap();
    assert!(registry.contains("tx1"));
}

#[test]
fn register_pending_duplicate_returns_error() {
    let mut registry = PendingTransactionRegistry::new();
    registry.register_pending("tx1".into()).unwrap();
    assert!(registry.register_pending("tx1".into()).is_err());
}

#[test]
fn enqueue_to_pool_rejects_duplicate_nonce() {
    let mut registry = PendingTransactionRegistry::new();
    let token_id = vec![1, 2, 3];
    let sender = vec![9, 9, 9];
    assert!(registry.enqueue_to_pool("tx1", token_id.clone(), 5, 100, sender.clone()).is_ok());
    assert!(registry.enqueue_to_pool("tx2", token_id.clone(), 5, 101, sender.clone()).is_err());
    assert!(registry.enqueue_to_pool("tx3", token_id.clone(), 6, 102, sender.clone()).is_ok());
}

/// A nonce stays used after its transaction left the pool.
#[test]
fn used_nonces_outlive_the_pool() {
    let mut registry = PendingTransactionRegistry::new();
    registry.enqueue_to_pool("tx1", vec![1], 5, 100, vec![9]).unwrap();
    assert_eq!(registry.dequeue_for_leader(&[1], 10), vec!["tx1".to_string()]);
    match registry.enqueue_to_pool("tx1", vec![1], 5, 100, vec![9]) {
        Err(PneumaticError::Registry(msg)) => {
            assert_eq!(msg, "duplicate nonce: (token_id=[1], sender=[9], sequence_number=5) already admitted")
        }
        other => panic!("expected Registry, got {:?}", other),
    }
    // Another token or sender has nonces of its own.
    assert!(registry.enqueue_to_pool("tx2", vec![2], 5, 100, vec![9]).is_ok());
    assert!(registry.enqueue_to_pool("tx3", vec![1], 5, 100, vec![8]).is_ok());
}

#[test]
fn pool_serves_by_sequence_and_time() {
    let mut registry = PendingTransactionRegistry::new();
    registry.enqueue_to_pool("late", vec![1], 2, 50, vec![9]).unwrap();
    registry.enqueue_to_pool("early", vec![1], 1, 70, vec![9]).unwrap();
    registry.enqueue_to_pool("other", vec![2], 1, 10, vec![9]).unwrap();
    registry.enqueue_to_pool("gone", vec![1], 3, 10, vec![9]).unwrap();
    registry.remove_from_pool("gone");
    assert_eq!(registry.dequeue_for_leader(&[1], 1), vec!["early".to_string()]);
    assert_eq!(registry.dequeue_for_leader(&[1], 5), vec!["late".to_string()]);
    assert_eq!(registry.dequeue_for_leader(&[2], 5), vec!["other".to_string()]);
    assert!(registry.dequeue_for_leader(&[2], 5).is_empty());
}

#[test]
fn pools_work_on_their_own() {
    let mut pool = TransactionPool::new();
    pool.enqueue("a".to_string(), vec![1], 2, 5, vec![7]);
    pool.enqueue("b".to_string(), vec![1], 1, 5, vec![7]);
    pool.remove("a");
    assert_eq!(pool.dequeue_for_leader(&[1], 9), vec!["b".to_string()]);
}

#[test]
fn validated_transactions_are_served_in_order() {
    let mut registry = PendingTransactionRegistry::new();
    registry.register_pending("tx1".into()).unwrap();
    registry.transition_to_validated_and_enqueue("tx1", transfer(), validation()).unwrap();
    assert!(registry.transition_to_validated_and_enqueue("none", transfer(), validation()).is_err());
    assert_eq!(registry.get_transaction("tx1").unwrap().amount, Some(100));
    assert!(registry.get_transaction("none").is_err());
    let txs = registry.get_ordered_transactions(&[], 10).unwrap();
    assert_eq!(txs.len(), 1);
    assert_eq!(txs[0].id, "tx1");
    assert!(registry.get_ordered_transactions(&[], 10).unwrap().is_empty());
    // The same nonce a second time is refused.
    assert!(registry.transition_to_validated_and_enqueue("tx1", transfer(), validation()).is_err());
}

#[test]
fn refused_nonces_leave_the_transaction_pending() {
    let mut registry = PendingTransactionRegistry::new();
    registry.register_pending("tx1".into()).unwrap();
    registry.register_pending("tx2".into()).unwrap();
    registry.transition_to_validated_and_enqueue("tx1", transfer(), validation()).unwrap();
    match registry.transition_to_validated_and_enqueue("tx2", transfer(), validation()) {
        Err(PneumaticError::Registry(msg)) => assert!(msg.contains("already admitted")),
        other => panic!("expected Registry, got {:?}", other),
    }
    assert!(matches!(registry.get_transaction_mut("tx2").unwrap().state, TransactionState::Pending));
    assert!(matches!(registry.get_transaction_mut("tx1").unwrap().state, TransactionState::Validated { .. }));
    assert_eq!(registry.get_ordered_transactions(&[], 10).unwrap().len(), 1);
}

#[test]
fn add_transaction_creates_pending_state() {
    let mut registry = PendingTransactionRegistry::new();
    let tx = PendingTransaction::new("tx1".into(), TransactionState::Pending);
    registry.add_transaction("tx1".into(), tx).unwrap();
    let entry = registry.get_transaction_mut("tx1").unwrap();
    assert!(matches!(entry.state, TransactionState::Pending));
}

#[test]
fn add_transaction_duplicate_returns_error() {
    let mut registry = PendingTransactionRegistry::default();
    let tx = PendingTransaction::new("tx1".into(), TransactionState::Pending);
    registry.add_transaction("tx1".into(), tx).unwrap();
    let tx2 = PendingTransaction::new("tx1".into(), TransactionState::Pending);
    assert!(registry.add_transaction("tx1".into(), tx2).is_err());
}

#[test]
fn remove_transaction_successful() {
    let mut registry = PendingTransactionRegistry::new();
    registry.register_pending("tx1".into()).unwrap();
    assert!(registry.remove_transaction("tx1").is_ok());
    assert!(!registry.contains("tx1"));
}

#[test]
fn remove_nonexistent_returns_error() {
    let mut registry = PendingTransactionRegistry::new();
    assert!(registry.remove_transaction("tx1").is_err());
}

#[test]
fn acquire_transaction_found_succeeds() {
    let mut registry = PendingTransactionRegistry::new();
    registry.register_pending("tx1".into()).unwrap();
    assert!(registry.acquire_transaction("tx1").is_ok());
}

#[test]
fn acquire_nonexistent_returns_error() {
    let mut registry = PendingTransactionRegistry::new();
    assert!(registry.acquire_transaction("tx1").is_err());
}

#[test]
fn acquire_terminal_state_fails() {
    let mut registry = PendingTransactionRegistry::new();
    registry.register_pending("tx1".into()).unwrap();
    registry.acquire_transaction("tx1").unwrap();
    if let Ok(entry) = registry.get_transaction_mut("tx1") {
        entry.transition_to_failed(blank_transaction(), vec![]);
    }
    assert!(registry.acquire_transaction("tx1").is_err());
}

#[test]
fn get_validation_result_from_validated_returns_some() {
    let mut registry = PendingTransactionRegistry::new();
    registry.register_pending("tx1".into()).unwrap();
    registry.acquire_transaction("tx1").unwrap();
    if let Ok(entry) = registry.get_transaction_mut("tx1") {
        entry.transition_to_validated(
            transfer(),
            TransactionValidationResult::valid(
                vec![1],
                TransactionRiskFactor { affected_parties: 2, amount: 100, is_contract: false, is_multi_party: false },
            ),
        );
    }
    let result = registry.get_validation_result("tx1").unwrap();
    assert!(result.is_valid);
}

#[test]
fn get_validation_result_from_pending_returns_error() {
    let mut registry = PendingTransactionRegistry::new();
    registry.register_pending("tx1".into()).unwrap();
    assert!(registry.get_validation_result("tx1").is_err());
}

#[test]
fn release_transaction_successful_keeps_pending() {
    let mut registry = PendingTransactionRegistry::new();
    registry.register_pending("tx1".into()).unwrap();
    registry.acquire_transaction("tx1").unwrap();
    let result = registry.release_transaction("tx1").unwrap();
    assert!(!result);
    assert!(registry.contains("tx1"));
}

#[test]
fn release_failed_transaction_returns_true() {
    let mut registry = PendingTransactionRegistry::new();
    registry.register_pending("tx1".into()).unwrap();
    if let Ok(entry) = registry.get_transaction_mut("tx1") {
        entry.transition_to_failed(blank_transaction(), vec![ValidationFailureReason::InsufficientFunds]);
    }
    let result = registry.release_transaction("tx1").unwrap();
    assert!(result);
    assert!(registry.contains("tx1"));
}

#[test]
fn set_requested_finalizer_validated_succeeds() {
    let mut registry = validated_registry();
    assert!(registry.transaction_is_awaiting_finalizer("tx1"));
    assert!(registry.set_requested_finalizer("tx1", vec![99]).is_ok());
    assert!(!registry.transaction_is_awaiting_finalizer("tx1"));
}

#[test]
fn set_requested_finalizer_from_pending_fails() {
    let mut registry = PendingTransactionRegistry::new();
    registry.register_pending("tx1".into()).unwrap();
    assert!(registry.set_requested_finalizer("tx1", vec![99]).is_err());
    assert!(registry.set_requested_finalizer("tx2", vec![99]).is_err());
}

#[test]
fn is_requested_finalizer_matches() {
    let mut registry = validated_registry();
    registry.set_requested_finalizer("tx1", vec![99]).unwrap();
    assert!(registry.is_requested_finalizer("tx1", &[99]));
}

#[test]
fn is_requested_finalizer_mismatch() {
    let mut registry = validated_registry();
    registry.set_requested_finalizer("tx1", vec![99]).unwrap();
    assert!(!registry.is_requested_finalizer("tx1", &[1, 2, 3]));
}

#[test]
fn register_shielded_roundtrips_through_map() {
    let mut registry = PendingTransactionRegistry::new();
    let tx = shielded_fixture("shd_1");
    assert!(!registry.contains_shielded("shd_1"), "fresh registry: absent");
    assert!(registry.get_shielded("shd_1").is_none(), "fresh registry: no entry to fetch");
    registry.register_shielded(&tx).unwrap();
    assert!(registry.contains_shielded("shd_1"), "admitted: present");
    assert_eq!(
        registry.get_shielded("shd_1"),
        Some(tx.clone()),
        "fetched entry equals the admitted tx exactly"
    );
}

#[test]
fn register_shielded_duplicate_id_rejected_atomically() {
    let mut registry = PendingTransactionRegistry::new();
    let first = shielded_fixture("shd_dup");
    registry.register_shielded(&first).unwrap();
    let mut impostor = first.clone();
    impostor.proof_bytes = vec![0xDE, 0xAD];
    let err = registry.register_shielded(&impostor).unwrap_err();
    assert!(
        matches!(err, PneumaticError::Registry(_)),
        "duplicate id is a Registry error, got: {:?}",
        err
    );
    assert_eq!(
        registry.get_shielded("shd_dup"),
        Some(first),
        "the first-admitted entry survives a duplicate rejection"
    );
}

#[test]
fn gas_tracker_records_and_retrieves() {
    let mut registry = PendingTransactionRegistry::new();
    registry.record_gas_used("tx1", 42);
    assert_eq!(registry.get_gas_used("tx1"), Some(42));
}

#[test]
fn gas_tracker_returns_none_for_unknown_tx() {
    let registry = PendingTransactionRegistry::new();
    assert_eq!(registry.get_gas_used("nonexistent"), None);
}

#[test]
fn admin_credits_are_taken_once() {
    let mut registry = PendingTransactionRegistry::new();
    let credit = PendingAdminCredit { id: "c".into(), admin_public_key: vec![1], amount: 5, token_id: vec![2] };
    assert_eq!(registry.record_admin_credit(credit.clone()), "c");
    assert_eq!(registry.get_admin_credit("c").unwrap().amount, 5);
    assert_eq!(registry.take_admin_credit("c").unwrap().admin_public_key, vec![1]);
    assert!(registry.take_admin_credit("c").is_none());
    assert!(registry.get_admin_credit("c").is_none());
}

#[test]
fn missing_transactions_name_their_id() {
    let mut registry = PendingTransactionRegistry::new();
    match registry.remove_transaction("ghost") {
        Err(PneumaticError::Registry(msg)) => assert_eq!(msg, "Transaction ghost not found in registry"),
        other => panic!("expected Registry, got {:?}", other),
    }
    assert!(registry.release_transaction("ghost").is_err());
    assert!(registry.get_transaction_mut("ghost").is_err());
    assert!(!registry.is_requested_finalizer("ghost", &[1]));
    assert!(!registry.transaction_is_awaiting_finalizer("ghost"));
}

fn is_stale(err: &PneumaticError) -> bool {
    matches!(err, PneumaticError::Validation(reasons)
        if reasons == &vec![ValidationFailureReason::StaleNullifier])
}

#[test]
fn try_mark_spent_first_mark_succeeds() {
    let mut registry = NullifierRegistry::new();
    let nullifier = [7u8; 32];
    assert!(registry.try_mark_spent(nullifier).is_ok());
    assert!(registry.contains(nullifier));
    assert_eq!(registry.len(), 1);
    assert!(!registry.is_empty());
}

#[test]
fn try_mark_spent_double_mark_rejected_as_stale_nullifier() {
    let mut registry = NullifierRegistry::new();
    let nullifier = [7u8; 32];
    registry.try_mark_spent(nullifier).unwrap();
    let err = registry.try_mark_spent(nullifier).unwrap_err();
    assert!(is_stale(&err), "double-mark must be Validation([StaleNullifier]) exactly, got: {:?}", err);
    assert_eq!(registry.len(), 1);
    assert!(registry.contains(nullifier));
}

#[test]
fn contains_reflects_state() {
    let mut registry = NullifierRegistry::new();
    let nullifier = [9u8; 32];
    assert!(!registry.contains(nullifier));
    registry.try_mark_spent(nullifier).unwrap();
    assert!(registry.contains(nullifier));
}

#[test]
fn len_and_is_empty_track_inserts() {
    let mut registry = NullifierRegistry::new();
    assert_eq!(registry.len(), 0);
    assert!(registry.is_empty());
    registry.try_mark_spent([1u8; 32]).unwrap();
    registry.try_mark_spent([2u8; 32]).unwrap();
    registry.try_mark_spent([3u8; 32]).unwrap();
    assert_eq!(registry.len(), 3);
    assert!(!registry.is_empty());
}

#[test]
fn mark_many_atomic_all_fresh_marks_all() {
    let mut registry = NullifierRegistry::new();
    let a = [1u8; 32];
    let b = [2u8; 32];
    assert!(registry.mark_many_atomic(&[a, b]).is_ok());
    assert!(registry.contains(a));
    assert!(registry.contains(b));
    assert_eq!(registry.len(), 2);
}

#[test]
fn mark_many_atomic_second_already_spent_marks_none() {
    let mut registry = NullifierRegistry::new();
    let a = [1u8; 32];
    let b = [2u8; 32];
    registry.try_mark_spent(b).unwrap();
    let err = registry.mark_many_atomic(&[a, b]).unwrap_err();
    assert!(is_stale(&err), "stale batch must be Validation([StaleNullifier]) exactly, got: {:?}", err);
    assert!(!registry.contains(a), "the fresh nullifier must NOT have been marked");
    assert_eq!(registry.len(), 1);
}

#[test]
fn mark_many_atomic_first_already_spent_rejects_before_any_insert() {
    let mut registry = NullifierRegistry::new();
    let a = [1u8; 32];
    let b = [2u8; 32];
    registry.try_mark_spent(a).unwrap();
    assert!(registry.mark_many_atomic(&[a, b]).is_err());
    assert!(!registry.contains(b));
    assert_eq!(registry.len(), 1);
}

#[test]
fn mark_many_atomic_duplicate_within_batch_rejected() {
    let mut registry = NullifierRegistry::new();
    let a = [1u8; 32];
    assert!(registry.mark_many_atomic(&[a, a]).is_err());
    assert!(!registry.contains(a));
    assert_eq!(registry.len(), 0);
}

/// Eight callers take turns: one of them marks the nullifier.
#[test]
fn concurrent_try_mark_spent_same_nullifier_exactly_one_succeeds() {
    let mut registry = NullifierRegistry::new();
    let nullifier = [5u8; 32];
    let mut successes = 0;
    for _ in 0..8 {
        if registry.try_mark_spent(nullifier).is_ok() {
            successes += 1;
        }
    }
    assert_eq!(successes, 1, "exactly one caller may mark the nullifier");
    assert_eq!(registry.len(), 1);
}

#[test]
fn concurrent_mark_many_atomic_same_batch_one_succeeds_no_partial() {
    let mut registry = NullifierRegistry::new();
    let a = [1u8; 32];
    let b = [2u8; 32];
    let mut successes = 0;
    for _ in 0..8 {
        if registry.mark_many_atomic(&[a, b]).is_ok() {
            successes += 1;
        }
    }
    assert_eq!(successes, 1, "exactly one caller may win the batch");
    assert_eq!(registry.len(), 2, "the winning batch is fully applied");
    assert!(registry.contains(a));
    assert!(registry.contains(b));
}

#[test]
fn concurrent_mark_many_atomic_mixed_unique_and_duplicates() {
    let mut registry = NullifierRegistry::new();
    let mut successes = 0;
    let mut failures = 0;
    for i in 0..16 {
        let nullifier = [(i % 8) as u8; 32];
        match registry.mark_many_atomic(&[nullifier]) {
            Ok(()) => successes += 1,
            Err(_) => failures += 1,
        }
    }
    assert_eq!(successes, 8);
    assert_eq!(failures, 8);
    assert_eq!(registry.len(), 8);
}

#[test]
fn mark_many_atomic_empty_batch_is_noop() {
    let mut registry = NullifierRegistry::new();
    assert!(registry.mark_many_atomic(&[]).is_ok());
    assert_eq!(registry.len(), 0);
}

#[test]
fn unmarking_undoes_a_batch() {
    let mut registry = NullifierRegistry::new();
    registry.try_mark_spent([9; 32]).unwrap();
    registry.mark_many_atomic(&[[1; 32], [2; 32]]).unwrap();
    registry.unmark_many(&[[1; 32], [2; 32]]);
    assert_eq!(registry.len(), 1);
    assert!(registry.contains([9; 32]));
    assert!(registry.mark_many_atomic(&[[1; 32], [2; 32]]).is_ok());
}

#[test]
fn signature_registry_add_transaction_successful() {
    let mut registry = TransactionSignatureRegistry::new();
    assert!(registry.try_add_transaction("tx1").is_ok());
    assert!(registry.transaction_is_registered("tx1"));
}

#[test]
fn signature_registry_duplicate_add_returns_error() {
    let mut registry = TransactionSignatureRegistry::new();
    registry.try_add_transaction("tx1").unwrap();
    assert!(registry.try_add_transaction("tx1").is_err());
}

fn signature(bytes: Vec<u8>, stake: u64) -> TransactionSignature {
    TransactionSignature {
        transaction_id: vec![],
        env_id: vec![],
        transaction_hash: vec![],
        signature: bytes,
        current_stake: stake,
    }
}

#[test]
fn signature_registry_add_signature_successful() {
    let mut registry = TransactionSignatureRegistry::new();
    registry.try_add_transaction("tx1").unwrap();
    let sig = signature(vec![1, 2, 3], 100);
    assert!(registry.try_add_signature("tx1", vec![1], sig.clone()).is_ok());
    let registry_map = registry.get_transaction_registry("tx1").unwrap();
    assert_eq!(registry_map.len(), 1);
    assert_eq!(registry_map.get(&[1]).unwrap().signature, vec![1, 2, 3]);
}

#[test]
fn signature_registry_duplicate_signature_fails() {
    let mut registry = TransactionSignatureRegistry::new();
    registry.try_add_transaction("tx1").unwrap();
    let sig = signature(vec![1, 2, 3], 100);
    registry.try_add_signature("tx1", vec![1], sig.clone()).unwrap();
    assert!(registry.try_add_signature("tx1", vec![1], sig).is_err());
}

#[test]
fn signature_registry_multiple_sigs_different_executors() {
    let mut registry = TransactionSignatureRegistry::new();
    registry.try_add_transaction("tx1").unwrap();
    let sig = |stake: u64| signature(vec![stake as u8], stake);
    registry.try_add_signature("tx1", vec![1], sig(100)).unwrap();
    registry.try_add_signature("tx1", vec![2], sig(200)).unwrap();
    registry.try_add_signature("tx1", vec![3], sig(300)).unwrap();
    let registry_map = registry.get_transaction_registry("tx1").unwrap();
    assert_eq!(registry_map.len(), 3);
}

#[test]
fn signature_registry_remove_successful() {
    let mut registry = TransactionSignatureRegistry::new();
    registry.try_add_transaction("tx1").unwrap();
    assert!(registry.try_remove_transaction("tx1").is_ok());
    assert!(!registry.transaction_is_registered("tx1"));
}

#[test]
fn signature_registry_remove_nonexistent_fails() {
    let mut registry = TransactionSignatureRegistry::new();
    assert!(registry.try_remove_transaction("tx1").is_err());
}

#[test]
fn signature_registry_empty_and_len() {
    let mut registry = TransactionSignatureRegistry::new();
    assert!(registry.is_empty());
    assert_eq!(registry.len(), 0);
    registry.try_add_transaction("tx1").unwrap();
    assert!(!registry.is_empty());
    assert_eq!(registry.len(), 1);
}

#[test]
fn registering_again_keeps_the_signatures() {
    let mut registry = TransactionSignatureRegistry::new();
    registry.ensure_transaction_registered("tx1");
    registry.try_add_signature("tx1", vec![1], signature(vec![1], 1)).unwrap();
    registry.ensure_transaction_registered("tx1");
    assert_eq!(registry.get_transaction_registry("tx1").unwrap().len(), 1);
    assert!(registry.try_add_signature("tx2", vec![1], signature(vec![1], 1)).is_err());
    assert!(registry.get_transaction_registry("tx2").is_none());
}
