use pneumatic_core::action_router::{
    gas_outcome, nonce_outcome, stake_outcome, ActionRouter, ActionRouterResult, IActionRouter,
};
use pneumatic_core::config::{Config, TypeConfigs};
use pneumatic_core::crypto::AsymCryptoProviderType;
use pneumatic_core::data::{DataError, StubDataProvider};
use pneumatic_core::environment::{
    CostModel, EnvironmentMetadata, EnvironmentMetadataSpec, EnvironmentPartition,
    EnvironmentPartitionType,
};
use pneumatic_core::errors::{PneumaticError, ValidationFailureReason};
use pneumatic_core::keyed_store::KeyedStore;
use pneumatic_core::messages::Message;
use pneumatic_core::node::{NodeRegistryType, NodeTypeConfig};
use pneumatic_core::registry::PendingTransactionRegistry;
use pneumatic_core::sorted_map::SortedMap;
use pneumatic_core::transactions::Transaction;
use pneumatic_core::user::User;
use std::sync::Arc;

fn make_test_env() -> EnvironmentMetadata {
    EnvironmentMetadata::load_from_spec(EnvironmentMetadataSpec {
        environment_id: "test".to_string(),
        environment_name: "test".to_string(),
        partitions: vec![
            EnvironmentPartition {
                id: "token".to_string(),
                partition_type: EnvironmentPartitionType::Token,
            },
            EnvironmentPartition {
                id: "slush".to_string(),
                partition_type: EnvironmentPartitionType::Slush,
            },
        ],
        asym_crypto_provider: AsymCryptoProviderType::Ed25519,
        sym_crypto_provider: "sym".to_string(),
        serialization_provider: "rmp".to_string(),
        cost_model: CostModel { base_cost: 1, global_min_stake: 10, ..CostModel::default() },
        allowed_token_types: vec![],
        trans_validation_specs: vec![],
        block_validation_specs: vec![],
        log_file: "test.log".to_string(),
        shard_count: 1,
    })
}

fn make_test_config(env: &EnvironmentMetadata) -> Arc<Config> {
    let mut type_configs = TypeConfigs::new();
    type_configs.insert(NodeRegistryType::Executor, NodeTypeConfig { min: 1, max: 10, min_stake: 100 });
    type_configs.insert(NodeRegistryType::Finalizer, NodeTypeConfig { min: 1, max: 5, min_stake: 500 });
    type_configs.insert(NodeRegistryType::Sentinel, NodeTypeConfig { min: 1, max: 3, min_stake: 1000 });
    type_configs.insert(NodeRegistryType::Committer, NodeTypeConfig { min: 1, max: 5, min_stake: 200 });
    Arc::new(Config::new_for_testing(env.environment_id.clone(), KeyedStore::new(), type_configs))
}

fn router_with(users: Vec<User>) -> ActionRouter<StubDataProvider> {
    let env = make_test_env();
    let config = make_test_config(&env);
    let mut stub = StubDataProvider::new();
    for user in users {
        stub = stub.with_user(user.public_key.clone(), env.token_partition_id.clone(), user);
    }
    ActionRouter::new(env, config, stub)
}

fn user(public_key: Vec<u8>, fuel_balance: u64, nonce: usize) -> User {
    User { public_key, fuel_balance, stake: fuel_balance, nonce }
}

fn make_router() -> ActionRouter<StubDataProvider> {
    router_with(vec![
        user(vec![1, 2, 3], 1000, 0),
        user(vec![1], 1000, 0),
        user(vec![42], 1000, 0),
        user(vec![99], 1000, 0),
        user(vec![5], 1000, 0),
    ])
}

fn make_message(action: &str, public_key: Vec<u8>) -> Message {
    Message {
        chain_id: "test".into(),
        action: action.into(),
        body: vec![],
        signature: vec![],
        public_key,
        stake_set: None,
    }
}

fn failed_for(result: Result<ActionRouterResult, PneumaticError>, reason: ValidationFailureReason) {
    match result {
        Err(PneumaticError::Validation(ref reasons)) => {
            assert!(reasons.iter().any(|r| *r == reason));
        }
        _ => panic!("expected Validation error, got {:?}", result),
    }
}

#[test]
fn route_process_returns_nonce_updated() {
    let router = make_router();
    let msg = make_message("Process", vec![1, 2, 3]);
    match router.route(&msg, None).unwrap() {
        ActionRouterResult::NonceUpdated { sender, new_nonce } => {
            assert_eq!(sender, vec![1, 2, 3]);
            assert_eq!(new_nonce, 1);
        }
        other => panic!("expected NonceUpdated, got {:?}", other),
    }
}

#[test]
fn route_preload_returns_stake_checked_for_executor() {
    let router = make_router();
    let msg = make_message("Preload", vec![1]);
    match router.route(&msg, None).unwrap() {
        ActionRouterResult::StakeChecked { node_type, stake } => {
            assert_eq!(node_type, NodeRegistryType::Executor);
            assert_eq!(stake, 1000);
        }
        other => panic!("expected StakeChecked(Executor), got {:?}", other),
    }
}

#[test]
fn route_sign_returns_stake_checked_for_finalizer() {
    let router = make_router();
    let msg = make_message("Sign", vec![42]);
    match router.route(&msg, None).unwrap() {
        ActionRouterResult::StakeChecked { node_type, .. } => {
            assert_eq!(node_type, NodeRegistryType::Finalizer);
        }
        other => panic!("expected StakeChecked(Finalizer), got {:?}", other),
    }
}

#[test]
fn route_confirm_returns_gas_verified() {
    let router = make_router();
    let msg = make_message("Confirm", vec![1]);
    match router.route(&msg, None).unwrap() {
        ActionRouterResult::GasVerified { gas_used, gas_remaining } => {
            assert_eq!(gas_used, 0);
            assert_eq!(gas_remaining, 0);
        }
        other => panic!("expected GasVerified, got {:?}", other),
    }
}

#[test]
fn route_reject_returns_nonce_updated_zero() {
    let router = make_router();
    let msg = make_message("Reject", vec![99]);
    match router.route(&msg, None).unwrap() {
        ActionRouterResult::NonceUpdated { sender, new_nonce } => {
            assert_eq!(sender, vec![99]);
            assert_eq!(new_nonce, 0);
        }
        other => panic!("expected NonceUpdated(0), got {:?}", other),
    }
}

#[test]
fn route_register_returns_stake_checked_sentinel() {
    let router = make_router();
    let msg = make_message("Register", vec![1]);
    match router.route(&msg, None).unwrap() {
        ActionRouterResult::StakeChecked { node_type, .. } => {
            assert_eq!(node_type, NodeRegistryType::Sentinel);
        }
        other => panic!("expected StakeChecked(Sentinel), got {:?}", other),
    }
}

#[test]
fn route_clear_returns_nonce_updated_zero() {
    let router = make_router();
    let msg = make_message("Clear", vec![5]);
    match router.route(&msg, None).unwrap() {
        ActionRouterResult::NonceUpdated { new_nonce, .. } => {
            assert_eq!(new_nonce, 0);
        }
        other => panic!("expected NonceUpdated(0), got {:?}", other),
    }
}

#[test]
fn route_distribute_token_returns_token_dispatched() {
    let router = make_router();
    let token_id = vec![10, 20, 30];
    let msg = make_message("DistributeToken", token_id.clone());
    match router.route(&msg, None).unwrap() {
        ActionRouterResult::TokenDispatched { token_id: id } => {
            assert_eq!(id, token_id);
        }
        other => panic!("expected TokenDispatched, got {:?}", other),
    }
}

#[test]
fn route_unknown_action_returns_unknown() {
    let router = make_router();
    let msg = make_message("FooBar", vec![1]);
    match router.route(&msg, None).unwrap() {
        ActionRouterResult::UnknownAction(action) => {
            assert_eq!(action, "FooBar");
        }
        other => panic!("expected UnknownAction, got {:?}", other),
    }
}

fn assert_routes<T: IActionRouter>(router: &T, message: Message) -> bool {
    router.route(&message, None).is_ok()
}

#[test]
fn action_router_implements_i_action_router() {
    assert!(assert_routes(&make_router(), make_message("Confirm", vec![1])));
}

#[test]
fn handle_delegates_to_route() {
    let router = make_router();
    let msg = make_message("Process", vec![1]);
    let handle_result = router.handle(&msg, None).unwrap();
    let route_result = router.route(&msg, None).unwrap();
    assert_eq!(format!("{:?}", handle_result), format!("{:?}", route_result));
}

#[test]
fn new_with_registry_shares_pending_txs() {
    let env = make_test_env();
    let config = make_test_config(&env);
    let shared = Arc::new(PendingTransactionRegistry::new());
    let router = ActionRouter::new_with_registry(env, shared.clone(), config, StubDataProvider::new());
    assert!(Arc::ptr_eq(router.pending_txs(), &shared));
}

#[test]
fn route_process_fails_insufficient_gas() {
    let router = router_with(vec![user(vec![1, 2, 3], 0, 0)]);
    failed_for(
        router.route(&make_message("Process", vec![1, 2, 3]), None),
        ValidationFailureReason::InsufficientGas,
    );
}

#[test]
fn route_preload_fails_insufficient_stake() {
    let router = router_with(vec![user(vec![1], 50, 0)]);
    failed_for(
        router.route(&make_message("Preload", vec![1]), None),
        ValidationFailureReason::InsufficientStake,
    );
}

#[test]
fn route_register_returns_stake_value() {
    let router = make_router();
    let msg = make_message("Register", vec![1]);
    match router.route(&msg, None).unwrap() {
        ActionRouterResult::StakeChecked { node_type, stake } => {
            assert_eq!(node_type, NodeRegistryType::Sentinel);
            assert_eq!(stake, 1000);
        }
        other => panic!("expected StakeChecked(Sentinel) with actual stake, got {:?}", other),
    }
}

#[test]
fn route_sign_fails_insufficient_stake_for_finalizer() {
    let router = router_with(vec![user(vec![42], 200, 0)]);
    failed_for(
        router.route(&make_message("Sign", vec![42]), None),
        ValidationFailureReason::InsufficientStake,
    );
}

#[test]
fn route_process_fails_nonce_mismatch() {
    let router = router_with(vec![user(vec![1, 2, 3], 1000, 5)]);
    failed_for(
        router.route(&make_message("Process", vec![1, 2, 3]), None),
        ValidationFailureReason::InvalidNonce,
    );
}

#[test]
fn unknown_senders_are_data_errors() {
    let router = make_router();
    assert!(matches!(
        router.route(&make_message("Process", vec![8]), None),
        Err(PneumaticError::Data(DataError::DataNotFound))
    ));
}

#[test]
fn checks_judge_the_looked_up_user() {
    match nonce_outcome(Ok(user(vec![1], 5, 3)), &[1], 3) {
        Ok(ActionRouterResult::NonceUpdated { new_nonce, .. }) => assert_eq!(new_nonce, 4),
        other => panic!("expected NonceUpdated, got {:?}", other),
    }
    match gas_outcome(Ok(user(vec![1], 5, 0)), 5) {
        Ok(ActionRouterResult::GasVerified { gas_used, gas_remaining }) => {
            assert_eq!((gas_used, gas_remaining), (5, 0));
        }
        other => panic!("expected GasVerified, got {:?}", other),
    }
    failed_for(gas_outcome(Ok(user(vec![1], 4, 0)), 5), ValidationFailureReason::InsufficientGas);
    failed_for(
        stake_outcome(Ok(user(vec![1], 9, 0)), 10, 0, NodeRegistryType::Executor),
        ValidationFailureReason::InsufficientStake,
    );
    assert!(stake_outcome(Ok(user(vec![1], 10, 0)), 10, 10, NodeRegistryType::Executor).is_ok());
}

fn transaction(sequence_number: usize, amount: Option<u64>) -> Transaction {
    Transaction {
        id: "tx".to_string(),
        action: "Transfer".to_string(),
        token_id: vec![7],
        bid: None,
        sequence_number,
        sender: vec![1],
        receiver: vec![2],
        amount,
        timestamp: 0,
        result_hash: vec![],
        sender_signature: vec![],
    }
}

#[test]
fn the_sequence_number_of_the_transaction_is_the_nonce() {
    let router = router_with(vec![user(vec![1], 1000, 5)]);
    let msg = make_message("Process", vec![1]);
    match router.route(&msg, Some(&transaction(5, None))).unwrap() {
        ActionRouterResult::NonceUpdated { sender, new_nonce } => {
            assert_eq!(sender, vec![1]);
            assert_eq!(new_nonce, 6);
        }
        other => panic!("expected NonceUpdated, got {:?}", other),
    }
    failed_for(router.route(&msg, Some(&transaction(4, None))), ValidationFailureReason::InvalidNonce);
    failed_for(router.route(&msg, Some(&transaction(0, None))), ValidationFailureReason::InvalidNonce);
    failed_for(router.route(&msg, None), ValidationFailureReason::InvalidNonce);
    let last = router_with(vec![user(vec![1], 1000, usize::MAX)]);
    failed_for(last.route(&msg, Some(&transaction(usize::MAX, None))), ValidationFailureReason::InvalidNonce);
}

#[test]
fn the_amount_of_the_transaction_costs_gas() {
    let router = router_with(vec![user(vec![1], 1000, 0)]);
    let process = make_message("Process", vec![1]);
    // One unit of gas for the action, one for each unit of the amount.
    assert!(router.route(&process, Some(&transaction(0, Some(999)))).is_ok());
    failed_for(
        router.route(&process, Some(&transaction(0, Some(1000)))),
        ValidationFailureReason::InsufficientGas,
    );
    match router.verify_gas(&[1], "Process", 300).unwrap() {
        ActionRouterResult::GasVerified { gas_used, gas_remaining } => {
            assert_eq!((gas_used, gas_remaining), (301, 699));
        }
        other => panic!("expected GasVerified, got {:?}", other),
    }
    // Twice the amount where an execution is preloaded.
    let preload = make_message("Preload", vec![1]);
    assert!(router.route(&preload, Some(&transaction(0, Some(499)))).is_ok());
    failed_for(
        router.route(&preload, Some(&transaction(0, Some(500)))),
        ValidationFailureReason::InsufficientGas,
    );
}

#[test]
fn actions_without_a_multiplier_cost_the_base_cost() {
    let model = CostModel { base_cost: 4, ..CostModel::default() };
    assert_eq!(model.compute_action_gas("Sign", 10), 19);
    assert_eq!(model.compute_action_gas("Clear", 10), 4);
    assert_eq!(model.compute_action_gas("Process", u64::MAX), u64::MAX / 10_000 + 4);
}

#[test]
fn the_environment_sets_the_minimum_stake_of_a_role() {
    let mut env = make_test_env();
    let config = make_test_config(&env);
    let mut per_type_min_stake = SortedMap::new();
    per_type_min_stake.insert(vec![NodeRegistryType::Finalizer.index()], 900);
    per_type_min_stake.insert(vec![NodeRegistryType::Sentinel.index()], 20);
    env.cost_model.per_type_min_stake = per_type_min_stake;
    let partition = env.token_partition_id.clone();
    let stub = StubDataProvider::new().with_user(vec![1], partition, user(vec![1], 800, 0));
    let router = ActionRouter::new(env, config, stub);
    failed_for(
        router.route(&make_message("Sign", vec![1]), None),
        ValidationFailureReason::InsufficientStake,
    );
    assert!(router.route(&make_message("Register", vec![1]), None).is_ok());
    assert!(router.route(&make_message("Preload", vec![1]), None).is_ok());
}
