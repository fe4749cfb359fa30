use pneumatic_core::bytes::to_be_bytes;
use pneumatic_core::config::{
    meets_minimum_stake, BootstrapPeer, Config, ConfigSpec, TypeConfigs, DEFAULT_UDP_PORT,
};
use pneumatic_core::crypto::{AsymCryptoProvider, AsymCryptoProviderType};
use pneumatic_core::environment::{
    default_shard_count, wired_specs, CostModel, EnvironmentMetadata, EnvironmentMetadataSpec,
    EnvironmentPartition, EnvironmentPartitionType, ValidationSpecKind,
};
use pneumatic_core::keyed_store::KeyedStore;
use pneumatic_core::logging::FileLogger;
use pneumatic_core::node::{
    binding_payload, NodeBootstrapError, NodeRegistryRequest, NodeRegistryType, NodeType,
    NodeTypeConfig, Registration,
};
use pneumatic_core::rns::identity::NodeIdentity;
use pneumatic_core::sorted_map::SortedMap;
use std::sync::Arc;

fn partition(id: &str, partition_type: EnvironmentPartitionType) -> EnvironmentPartition {
    EnvironmentPartition { id: id.to_string(), partition_type }
}

fn spec(id: &str, name: &str) -> EnvironmentMetadataSpec {
    EnvironmentMetadataSpec {
        environment_id: id.to_string(),
        environment_name: name.to_string(),
        partitions: vec![
            partition("first", EnvironmentPartitionType::Token),
            partition("slush", EnvironmentPartitionType::Slush),
            partition("other", EnvironmentPartitionType::Other),
            partition("token", EnvironmentPartitionType::Token),
            partition("proxy", EnvironmentPartitionType::ProxyAuth),
        ],
        asym_crypto_provider: AsymCryptoProviderType::Ed25519,
        sym_crypto_provider: "sym".to_string(),
        serialization_provider: "rmp".to_string(),
        cost_model: CostModel { global_min_stake: 77, ..CostModel::default() },
        allowed_token_types: vec!["asset".to_string()],
        trans_validation_specs: vec!["Executed".to_string(), "Unheard".to_string(), "SelfSigned".to_string()],
        block_validation_specs: vec![],
        log_file: "env.log".to_string(),
        shard_count: default_shard_count(),
    }
}

#[test]
fn environments_load_from_their_description() {
    let env = EnvironmentMetadata::load_from_spec(spec("env", "Main"));
    assert_eq!(env.token_partition_id, "token");
    assert_eq!(env.slush_partition_id, "slush");
    assert_eq!(env.proxy_auth_partition_id, Some("proxy".to_string()));
    assert_eq!(env.contract_partition_id, None);
    assert_eq!(
        env.transaction_validation_specs,
        vec![ValidationSpecKind::Executed, ValidationSpecKind::SelfSigned]
    );
    assert_eq!(env.logger.file_path, "env.log");
    assert_eq!(env.shard_count, 1);
    assert_eq!(env.asym_crypto_provider.public_key().unwrap().len(), 32);
    let mut partial = spec("env", "Main");
    assert!(partial.is_complete());
    partial.partitions.remove(1);
    assert!(!partial.is_complete());
    assert!(wired_specs(&vec![]).is_empty());
}

#[test]
fn later_environments_replace_earlier_ones() {
    let table = Config::load_environments(vec![spec("a", "one"), spec("b", "two"), spec("a", "three")]);
    assert_eq!(table.len(), 2);
    assert_eq!(table.get(b"a").unwrap().environment_name, "three");
    assert_eq!(table.get(b"b").unwrap().environment_name, "two");
}

fn config_spec(is_full_node: bool) -> ConfigSpec {
    ConfigSpec {
        public_key: vec![],
        is_full_node,
        rest_api_version: 3,
        balance: 0,
        environments: vec![],
        main_env_id: "env".to_string(),
        reconciliation_partition_id: "recon".to_string(),
        identity_path: None,
        bootstrap_peers: vec![BootstrapPeer { public_key: "k".to_string(), ip: "10.0.0.1".to_string(), port: 1 }],
        rns_port: None,
        transport_enabled: true,
    }
}

#[test]
fn configurations_are_assembled() {
    let identity = Arc::new(NodeIdentity::generate_in_memory());
    let table = Config::load_environments(vec![spec("env", "Main")]);
    let config = Config::assemble(config_spec(true), table, identity.clone());
    assert_eq!(config.public_key, identity.ed25519.public_key().unwrap());
    assert_eq!(config.rhash, identity.rhash);
    assert_eq!(config.node_type, NodeType::Full);
    assert_eq!(config.node_registry_types, NodeRegistryType::all());
    assert_eq!(config.rns_port, DEFAULT_UDP_PORT);
    assert_eq!(config.bootstrap_peers.len(), 1);
    assert_eq!(config.get_global_min_stake(), 77);
    assert_eq!(config.get_max_node_number(&NodeRegistryType::Archiver), 1000);
    assert_eq!(config.get_min_type_stake(&NodeRegistryType::Archiver), 10);
    let light = Config::assemble(config_spec(false), KeyedStore::new(), identity);
    assert_eq!(light.node_type, NodeType::Light);
    assert_eq!(light.node_registry_types.len(), 4);
    assert!(!light.node_registry_types.contains(&NodeRegistryType::Archiver));
    assert_eq!(light.get_global_min_stake(), 10);
}

#[test]
fn configurations_are_built_from_what_was_read() {
    let identity = NodeIdentity::generate_in_memory();
    let rhash = identity.rhash;
    let config = Config::build(Ok(config_spec(true)), Ok(vec![spec("env", "Main")]), |path: &str| {
        assert_eq!(path, "node_identity.json");
        Ok(identity)
    })
    .unwrap();
    assert_eq!(config.rhash, rhash);
    assert_eq!(config.get_global_min_stake(), 77);
    let no_keystore = Config::build(Ok(config_spec(true)), Ok(vec![]), |_path: &str| Err("corrupt".to_string()));
    assert_eq!(
        no_keystore.err().unwrap().message,
        "failed to load node identity from node_identity.json: corrupt"
    );
    let no_file = Config::build(
        Err(std::io::Error::new(std::io::ErrorKind::NotFound, "no file")),
        Ok(vec![]),
        |_path: &str| panic!("the keystore is not loaded"),
    );
    assert_eq!(no_file.err().unwrap().message, "no file");
    let no_environments = Config::build(
        Ok(config_spec(true)),
        Err(std::io::Error::new(std::io::ErrorKind::NotFound, "no directory")),
        |_path: &str| panic!("the keystore is not loaded"),
    );
    assert_eq!(no_environments.err().unwrap().message, "no directory");
}

#[test]
fn empty_environment_files_are_skipped() {
    let failure = |text: &str| std::io::Error::new(std::io::ErrorKind::InvalidData, text);
    let read = Config::collect_environments(vec![Ok(Some(spec("b", "one"))), Ok(None), Ok(Some(spec("a", "two")))]);
    let names: Vec<String> = read.unwrap().into_iter().map(|s| s.environment_name).collect();
    assert_eq!(names, vec!["one", "two"]);
    let failed = Config::collect_environments(vec![
        Ok(Some(spec("a", "one"))),
        Err(failure("first")),
        Ok(None),
        Err(failure("second")),
    ]);
    assert_eq!(failed.err().unwrap().to_string(), "first");
    assert!(Config::collect_environments(vec![]).unwrap().is_empty());
}

#[test]
fn the_main_environment_sets_minimum_stakes() {
    let mut main = spec("env", "Main");
    main.cost_model.per_type_min_stake.insert(vec![NodeRegistryType::Executor.index()], 500);
    let mut types = TypeConfigs::new();
    types.insert(NodeRegistryType::Executor, NodeTypeConfig { min: 1, max: 2, min_stake: 3 });
    types.insert(NodeRegistryType::Sentinel, NodeTypeConfig { min: 1, max: 2, min_stake: 4 });
    let config = Config::new_for_testing("env".to_string(), Config::load_environments(vec![main]), types);
    assert_eq!(config.get_required_type_stake(&NodeRegistryType::Executor), 500);
    assert_eq!(config.get_required_type_stake(&NodeRegistryType::Sentinel), 4);
    assert_eq!(config.get_min_type_stake(&NodeRegistryType::Executor), 3);
}

#[test]
fn unconfigured_roles_have_defaults() {
    let mut types = TypeConfigs::new();
    types.insert(NodeRegistryType::Executor, NodeTypeConfig { min: 1, max: 2, min_stake: 3 });
    let config = Config::new_for_testing("env".to_string(), KeyedStore::new(), types);
    assert_eq!(config.get_max_node_number(&NodeRegistryType::Executor), 2);
    assert_eq!(config.get_min_type_stake(&NodeRegistryType::Executor), 3);
    assert_eq!(config.get_max_node_number(&NodeRegistryType::Sentinel), 0);
    assert_eq!(config.get_min_type_stake(&NodeRegistryType::Sentinel), 10);
    assert!(meets_minimum_stake(10, 10, 3));
    assert!(!meets_minimum_stake(9, 10, 3));
    assert!(!meets_minimum_stake(10, 10, 11));
}

#[test]
fn keystore_paths_have_a_default() {
    let mut spec = config_spec(true);
    let default = spec.keystore_path();
    spec.identity_path = Some("mine".to_string());
    assert_eq!(spec.keystore_path(), "mine");
    assert_ne!(default, "mine");
}

#[test]
fn gas_grows_with_the_amount() {
    let model = CostModel { base_cost: 5, ..CostModel::default() };
    assert_eq!(model.compute_gas(100, 15_000), 155);
    assert_eq!(model.compute_gas(0, 15_000), 5);
    assert!(model.compute_gas(101, 15_000) >= model.compute_gas(100, 15_000));
    assert_eq!(CostModel::gas_from_amount(u64::MAX, 20_000), u64::MAX / 10_000);
    assert_eq!(*CostModel::default_amount_multiplier().get(b"Sign").unwrap(), 15_000);
}

#[test]
fn log_entries_carry_their_time() {
    let logger = FileLogger::new("log.txt".to_string());
    assert_eq!(logger.entry("12:00", "started"), "\r\n12:00: started");
}

#[test]
fn bindings_are_packed_from_role_names() {
    let rhash = [3u8; 16];
    let types = [NodeRegistryType::Committer, NodeRegistryType::Archiver];
    let payload = binding_payload(&rhash, NodeRegistryType::Archiver, &types);
    let expected = rmp_serde::to_vec(&(rhash, "Archiver", vec!["Committer", "Archiver"])).unwrap();
    assert_eq!(payload, expected);
}

#[test]
fn bindings_hold_for_their_own_tuple_only() {
    let id = NodeIdentity::generate_in_memory();
    let key = id.ed25519.public_key().unwrap();
    let types = [NodeRegistryType::Executor];
    let sig = id.sign_binding(&id.rhash, &NodeRegistryType::Executor, &types).unwrap();
    assert!(NodeIdentity::verify_binding(&key, &id.rhash, &NodeRegistryType::Executor, &types, &sig));
    assert!(!NodeIdentity::verify_binding(&key, &[0; 16], &NodeRegistryType::Executor, &types, &sig));
    assert!(!NodeIdentity::verify_binding(&key, &id.rhash, &NodeRegistryType::Sentinel, &types, &sig));
    assert!(!NodeIdentity::verify_binding(&key, &id.rhash, &NodeRegistryType::Executor, &[], &sig));
}

#[test]
fn node_records_are_built_from_their_parts() {
    let add = Registration::for_add(vec![1], [2; 16], vec![NodeRegistryType::Executor]);
    assert_eq!(add.node_key, vec![1]);
    let removal = Registration::for_removal(vec![1], [2; 16], vec![]);
    assert_eq!(removal.rhash, [2; 16]);
    let request = NodeRegistryRequest::new(
        vec![1, 2, 3, 4],
        [5u8; 16],
        vec![9, 9],
        vec![NodeRegistryType::Sentinel],
        NodeRegistryType::Sentinel,
    );
    assert_eq!(request.requester_key, vec![1, 2, 3, 4]);
    assert_eq!(request.binding_signature, vec![9, 9]);
    let io = std::io::Error::new(std::io::ErrorKind::Other, "no route");
    assert_eq!(NodeBootstrapError::from_io_error(io).message, "no route");
}

#[test]
fn keyed_stores_replace_and_remove() {
    let mut store: KeyedStore<u8> = KeyedStore::new();
    assert_eq!(store.insert(vec![1], 10), None);
    assert_eq!(store.insert(vec![2], 20), None);
    assert_eq!(store.insert(vec![1], 11), Some(10));
    assert_eq!(store.len(), 2);
    *store.get_mut(&[2]).unwrap() += 1;
    assert_eq!(store.remove(&[1]), Some(11));
    assert_eq!(store.remove(&[1]), None);
    assert_eq!(store.get(&[2]), Some(&21));
    assert_eq!(store.key_at(0), &vec![2]);
    assert_eq!(store.value_at(0), &21);
    assert!(!store.contains_key(&[1]));
}

#[test]
fn sorted_maps_keep_their_keys_in_order() {
    let mut map: SortedMap<u8> = SortedMap::new();
    for key in [vec![3], vec![1, 9], vec![1], vec![], vec![3]] {
        map.insert(key, 0);
    }
    let keys: Vec<Vec<u8>> = (0..map.len()).map(|i| map.key_at(i).clone()).collect();
    assert_eq!(keys, vec![vec![], vec![1], vec![1, 9], vec![3]]);
    map.clear();
    assert_eq!(map.len(), 0);
    assert_eq!(to_be_bytes(258, 4), vec![0, 0, 1, 2]);
}
