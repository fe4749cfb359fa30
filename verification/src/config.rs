//! Node configuration.
use crate::bytes::copy_bytes;
use crate::crypto::AsymCryptoProvider;
use crate::environment::{CostModel, EnvironmentMetadata, EnvironmentMetadataSpec};
use crate::keyed_store::KeyedStore;
use crate::node::{NodeBootstrapError, NodeRegistryType, NodeType, NodeTypeConfig};
use crate::rns::identity::NodeIdentity;
use crate::text::wrap;
use std::sync::Arc;
use vstd::prelude::*;
use vstd::string::StringExecFns;

verus! {

/// Where the configuration is read from.
pub const CONFIG_FILE_LOCATION: &'static str = "config.json";

/// Where the environments are read from.
pub const ENV_FILE_LOCATION: &'static str = "/env";

/// Keystore file of a node that names none.
pub const DEFAULT_IDENTITY_PATH: &'static str = "node_identity.json";

/// Transport port of a node that names none.
pub const DEFAULT_UDP_PORT: u16 = 4242;

pub trait IsConfiguration {
    fn is_for_testing(&self) -> bool;
}

/// A node that is linked from the start.
#[derive(Debug)]
pub struct BootstrapPeer {
    /// Hex-encoded transport public key of the peer
    pub public_key: String,
    pub ip: String,
    pub port: u16,
}

impl Clone for BootstrapPeer {
    fn clone(&self) -> (r: Self)
        ensures
            r == *self,
    {
        BootstrapPeer { public_key: self.public_key.clone(), ip: self.ip.clone(), port: self.port }
    }
}

/// The configuration as its file gives it.
#[derive(Debug)]
pub struct ConfigSpec {
    pub public_key: Vec<u8>,
    pub is_full_node: bool,
    pub rest_api_version: usize,
    pub balance: u64,
    pub environments: Vec<String>,
    pub main_env_id: String,
    pub reconciliation_partition_id: String,
    /// Keystore file path
    pub identity_path: Option<String>,
    /// Peers to link at boot
    pub bootstrap_peers: Vec<BootstrapPeer>,
    /// Own transport port
    pub rns_port: Option<u16>,
    /// Relay mode
    pub transport_enabled: bool,
}

impl ConfigSpec {
    /// The keystore file path, or its default.
    pub open spec fn keystore(&self) -> Seq<char> {
        match self.identity_path {
            Some(path) => path@,
            None => DEFAULT_IDENTITY_PATH@,
        }
    }

    /// The keystore file path, or its default.
    pub fn keystore_path(&self) -> (r: String)
        ensures
            r@ == self.keystore(),
    {
        match &self.identity_path {
            Some(path) => path.clone(),
            None => DEFAULT_IDENTITY_PATH.to_owned(),
        }
    }
}

/// The key of a role in a table.
pub open spec fn role_key(role: NodeRegistryType) -> Seq<u8> {
    seq![role.position()]
}

/// Limits by role.
pub struct TypeConfigs {
    entries: KeyedStore<NodeTypeConfig>,
}

impl View for TypeConfigs {
    type V = Map<NodeRegistryType, NodeTypeConfig>;

    closed spec fn view(&self) -> Map<NodeRegistryType, NodeTypeConfig> {
        Map::new(
            |role: NodeRegistryType| self.entries@.contains_key(role_key(role)),
            |role: NodeRegistryType| self.entries@[role_key(role)],
        )
    }
}

proof fn lemma_role_key_injective(a: NodeRegistryType, b: NodeRegistryType)
    requires
        role_key(a) == role_key(b),
    ensures
        a == b,
{
    assert(role_key(a)[0] == a.position() && role_key(b)[0] == b.position());
    assert(a.position() == b.position());
    match a {
        NodeRegistryType::Committer => {},
        NodeRegistryType::Sentinel => {},
        NodeRegistryType::Executor => {},
        NodeRegistryType::Finalizer => {},
        NodeRegistryType::Archiver => {},
    }
}

impl TypeConfigs {
    pub closed spec fn wf(&self) -> bool {
        self.entries.wf()
    }

    pub fn new() -> (r: Self)
        ensures
            r.wf(),
            r@ == Map::<NodeRegistryType, NodeTypeConfig>::empty(),
    {
        let r = TypeConfigs { entries: KeyedStore::new() };
        assert(r@ =~= Map::<NodeRegistryType, NodeTypeConfig>::empty());
        r
    }

    pub fn insert(&mut self, role: NodeRegistryType, config: NodeTypeConfig)
        requires
            old(self).wf(),
        ensures
            final(self).wf(),
            final(self)@ == old(self)@.insert(role, config),
    {
        let key: Vec<u8> = vec![role.index()];
        assert(key@ =~= role_key(role));
        let ghost before = self@;
        let _ = self.entries.insert(key, config);
        proof {
            assert forall|t: NodeRegistryType| #[trigger]
                self@.contains_key(t) == before.insert(role, config).contains_key(t) by {
                if role_key(t) == role_key(role) {
                    lemma_role_key_injective(t, role);
                }
            }
            assert forall|t: NodeRegistryType| self@.contains_key(t) implies #[trigger] self@[t]
                == before.insert(role, config)[t] by {
                if role_key(t) == role_key(role) {
                    lemma_role_key_injective(t, role);
                }
            }
            assert(self@ =~= before.insert(role, config));
        }
    }

    pub fn get(&self, role: &NodeRegistryType) -> (r: Option<NodeTypeConfig>)
        requires
            self.wf(),
        ensures
            r == (if self@.contains_key(*role) {
                Some(self@[*role])
            } else {
                None
            }),
    {
        let key: Vec<u8> = vec![role.index()];
        assert(key@ =~= role_key(*role));
        match self.entries.get(&key) {
            Some(config) => Some(*config),
            None => None,
        }
    }
}

/// The limits that every role has by default.
pub open spec fn default_limits() -> NodeTypeConfig {
    NodeTypeConfig { min: 1, max: 1000, min_stake: 10 }
}

/// Whether a stake reaches both minimums.
pub fn meets_minimum_stake(stake: u64, global_min: u64, type_min: u64) -> (r: bool)
    ensures
        r == (stake >= global_min && stake >= type_min),
{
    stake >= global_min && stake >= type_min
}

/// The configuration of a node.
pub struct Config {
    pub public_key: Vec<u8>,
    pub ip_address: String,
    pub rest_api_version: usize,
    pub node_type: NodeType,
    pub node_registry_types: Vec<NodeRegistryType>,
    pub main_environment_id: String,
    pub reconciliation_partition_id: String,
    /// Environments by the UTF-8 bytes of their id
    pub environment_metadata: KeyedStore<EnvironmentMetadata>,
    pub type_configs: TypeConfigs,
    /// Persistent node identity
    pub identity: Arc<NodeIdentity>,
    /// Transport address of this node
    pub rhash: [u8; 16],
    /// Peers to link at boot
    pub bootstrap_peers: Vec<BootstrapPeer>,
    /// Own transport port
    pub rns_port: u16,
    /// Relay mode: forward traffic for transitive discovery
    pub transport_enabled: bool,
}

/// The roles of a full or a light node.
pub open spec fn default_roles(is_full_node: bool) -> Seq<NodeRegistryType> {
    if is_full_node {
        crate::node::all_roles()
    } else {
        crate::node::all_roles().take(4)
    }
}

/// `table` holds the environments that a list of descriptions gives: the last
/// one of each id.
pub open spec fn environments_from(
    table: Map<Seq<u8>, EnvironmentMetadata>,
    specs: Seq<EnvironmentMetadataSpec>,
) -> bool {
    &&& forall|i: int|
        0 <= i < specs.len() ==> table.contains_key(
            vstd::utf8::encode_utf8((#[trigger] specs[i]).environment_id@),
        )
    &&& forall|key: Seq<u8>| #[trigger]
        table.contains_key(key) ==> exists|i: int| #[trigger]
            last_with_id(specs, i, key) && crate::environment::loaded_from(table[key], specs[i])
}

/// `specs[i]` is the last description with the given id.
pub open spec fn last_with_id(
    specs: Seq<EnvironmentMetadataSpec>,
    i: int,
    key: Seq<u8>,
) -> bool {
    &&& 0 <= i < specs.len()
    &&& vstd::utf8::encode_utf8(specs[i].environment_id@) == key
    &&& forall|j: int|
        i < j < specs.len() ==> vstd::utf8::encode_utf8((#[trigger] specs[j]).environment_id@)
            != key
}

/// The environments that the files describe, in their order.
pub open spec fn described(
    read: Seq<Result<Option<EnvironmentMetadataSpec>, std::io::Error>>,
) -> Seq<EnvironmentMetadataSpec>
    decreases read.len(),
{
    if read.len() == 0 {
        Seq::empty()
    } else {
        let before = described(read.drop_last());
        match read.last() {
            Ok(Some(spec)) => before.push(spec),
            _ => before,
        }
    }
}

/// The file at `i` is the first that could not be read.
pub open spec fn first_failure(
    read: Seq<Result<Option<EnvironmentMetadataSpec>, std::io::Error>>,
    i: int,
) -> bool {
    &&& 0 <= i < read.len()
    &&& read[i] is Err
    &&& forall|j: int| 0 <= j < i ==> (#[trigger] read[j]) is Ok
}

/// `config` is put together from its file, its environments and the identity of
/// the node.
pub open spec fn assembled(
    config: Config,
    spec: ConfigSpec,
    environment_metadata: KeyedStore<EnvironmentMetadata>,
    identity: NodeIdentity,
) -> bool {
    &&& config.public_key@ == identity.ed25519.identity()
    &&& identity.ed25519.has_key_pairs()
    &&& config.ip_address@ == "::"@
    &&& config.rest_api_version == spec.rest_api_version
    &&& config.node_type == (if spec.is_full_node {
        NodeType::Full
    } else {
        NodeType::Light
    })
    &&& config.node_registry_types@ == default_roles(spec.is_full_node)
    &&& config.main_environment_id == spec.main_env_id
    &&& config.reconciliation_partition_id == spec.reconciliation_partition_id
    &&& config.environment_metadata == environment_metadata
    &&& forall|role: NodeRegistryType| #[trigger]
        config.type_configs@.contains_key(role) && config.type_configs@[role] == default_limits()
    &&& *config.identity == identity
    &&& config.rhash == identity.rhash
    &&& config.bootstrap_peers == spec.bootstrap_peers
    &&& config.rns_port == (match spec.rns_port {
        Some(port) => port,
        None => DEFAULT_UDP_PORT,
    })
    &&& config.transport_enabled == spec.transport_enabled
}

/// What the start of a node says of a failed read.
pub open spec fn reports_io_error(e: std::io::Error, error: NodeBootstrapError) -> bool {
    vstd::string::to_string_from_display_ensures::<std::io::Error>(&e, error.message)
}

/// What the start of a node says of a keystore that cannot be loaded.
pub open spec fn keystore_message(path: Seq<char>, reason: Seq<char>) -> Seq<char> {
    "failed to load node identity from "@ + path + ": "@ + reason
}

/// What comes of the configuration file, the environments and the keystore.
pub open spec fn build_outcome(
    spec: ConfigSpec,
    specs: Seq<EnvironmentMetadataSpec>,
    loaded: Result<NodeIdentity, String>,
    r: Result<Config, NodeBootstrapError>,
) -> bool {
    match loaded {
        Ok(identity) => r matches Ok(config) && config.wf() && environments_from(
            config.environment_metadata@,
            specs,
        ) && assembled(config, spec, config.environment_metadata, identity),
        Err(reason) => r matches Err(error) && error.message@ == keystore_message(
            spec.keystore(),
            reason@,
        ),
    }
}

impl Config {
    /// The tables are consistent.
    pub open spec fn wf(&self) -> bool {
        self.environment_metadata.wf() && self.type_configs.wf()
    }

    /// How many nodes of a type the registry takes.
    pub open spec fn max_nodes(&self, role: NodeRegistryType) -> nat {
        if self.type_configs@.contains_key(role) {
            self.type_configs@[role].max as nat
        } else {
            0
        }
    }

    /// The minimum stake of a type.
    pub open spec fn min_stake(&self, role: NodeRegistryType) -> u64 {
        if self.type_configs@.contains_key(role) {
            self.type_configs@[role].min_stake
        } else {
            10
        }
    }

    /// The minimum stake of the main environment.
    pub open spec fn global_min_stake(&self) -> u64 {
        let id = vstd::utf8::encode_utf8(self.main_environment_id@);
        if self.environment_metadata@.contains_key(id) {
            self.environment_metadata@[id].cost_model.global_min_stake
        } else {
            10
        }
    }

    /// The minimum stake of a type in the main environment, which can replace
    /// that of the configuration.
    pub open spec fn required_stake(&self, role: NodeRegistryType) -> u64 {
        let id = vstd::utf8::encode_utf8(self.main_environment_id@);
        if self.environment_metadata@.contains_key(id) {
            self.environment_metadata@[id].cost_model.type_min_stake(role, self.min_stake(role))
        } else {
            self.min_stake(role)
        }
    }

    /// The environments that were read from files, in their order: `None` stands
    /// for an empty file, which is skipped; the first failure fails the whole.
    pub fn collect_environments(
        read: Vec<Result<Option<EnvironmentMetadataSpec>, std::io::Error>>,
    ) -> (r: Result<Vec<EnvironmentMetadataSpec>, std::io::Error>)
        ensures
            match r {
                Ok(specs) => (forall|i: int| 0 <= i < read@.len() ==> (#[trigger] read@[i]) is Ok)
                    && specs@ == described(read@),
                Err(e) => exists|i: int| #[trigger] first_failure(read@, i) && read@[i] == Err::<
                    Option<EnvironmentMetadataSpec>,
                    std::io::Error,
                >(e),
            },
    {
        let ghost all = read@;
        let mut rest = read;
        let mut specs: Vec<EnvironmentMetadataSpec> = Vec::new();
        let ghost mut done: int = 0;
        assert(all.take(0) =~= Seq::empty());
        assert(all.skip(0) =~= all);
        while rest.len() > 0
            invariant
                0 <= done <= all.len(),
                all == read@,
                rest@ == all.skip(done),
                forall|i: int| 0 <= i < done ==> (#[trigger] all[i]) is Ok,
                specs@ == described(all.take(done)),
            decreases rest@.len(),
        {
            let item = rest.remove(0);
            proof {
                assert(item == all[done]);
                assert(all.take(done + 1).drop_last() =~= all.take(done));
                assert(all.take(done + 1).last() == all[done]);
                assert(rest@ =~= all.skip(done + 1));
            }
            match item {
                Ok(Some(spec)) => {
                    specs.push(spec);
                },
                Ok(None) => {},
                Err(e) => {
                    assert(first_failure(all, done));
                    return Err(e);
                },
            }
            proof {
                done = done + 1;
            }
        }
        assert(all.take(done) =~= all);
        Ok(specs)
    }

    /// Load the environments that the files describe; where two describe the
    /// same id, the later one counts.
    pub fn load_environments(specs: Vec<EnvironmentMetadataSpec>) -> (r: KeyedStore<
        EnvironmentMetadata,
    >)
        requires
            forall|i: int| 0 <= i < specs@.len() ==> (#[trigger] specs@[i]).complete(),
        ensures
            r.wf(),
            environments_from(r@, specs@),
    {
        let ghost all = specs@;
        let mut specs = specs;
        let mut table: KeyedStore<EnvironmentMetadata> = KeyedStore::new();
        while specs.len() > 0
            invariant
                specs@.len() <= all.len(),
                specs@ == all.take(specs@.len() as int),
                table.wf(),
                forall|i: int| 0 <= i < all.len() ==> (#[trigger] all[i]).complete(),
                forall|i: int|
                    specs@.len() <= i < all.len() ==> table@.contains_key(
                        vstd::utf8::encode_utf8((#[trigger] all[i]).environment_id@),
                    ),
                forall|key: Seq<u8>| #[trigger]
                    table@.contains_key(key) ==> exists|i: int| #[trigger]
                        last_with_id(all, i, key) && i >= specs@.len()
                            && crate::environment::loaded_from(table@[key], all[i]),
            decreases specs@.len(),
        {
            let ghost n = specs@.len() - 1;
            let ghost before = table@;
            let spec = specs.pop().unwrap();
            assert(spec == all[n]);
            let key = copy_bytes(spec.environment_id.as_str().as_bytes());
            let ghost k = key@;
            if !table.contains_key(&key) {
                let metadata = EnvironmentMetadata::load_from_spec(spec);
                let _ = table.insert(key, metadata);
                assert(last_with_id(all, n, k)) by {
                    assert forall|j: int| n < j < all.len() implies vstd::utf8::encode_utf8(
                        (#[trigger] all[j]).environment_id@,
                    ) != k by {
                        assert(before.contains_key(
                            vstd::utf8::encode_utf8(all[j].environment_id@),
                        ));
                    }
                }
            }
            assert forall|key: Seq<u8>| #[trigger] table@.contains_key(key) implies exists|i: int|
                #[trigger]
                last_with_id(all, i, key) && i >= specs@.len() && crate::environment::loaded_from(
                    table@[key],
                    all[i],
                ) by {
                if before.contains_key(key) {
                    let i = choose|i: int| #[trigger]
                        last_with_id(all, i, key) && i >= n + 1 && crate::environment::loaded_from(
                            before[key],
                            all[i],
                        );
                    assert(last_with_id(all, i, key));
                } else {
                    assert(key == k);
                    assert(last_with_id(all, n, k));
                }
            }
            assert(specs@ =~= all.take(specs@.len() as int));
        }
        table
    }

    /// Build the configuration from what was read of its file and of the
    /// environments. The keystore is loaded last; one that cannot be loaded is
    /// an error, and no new identity takes its place.
    pub fn build<F: FnOnce(&str) -> Result<NodeIdentity, String>>(
        spec: Result<ConfigSpec, std::io::Error>,
        environments: Result<Vec<EnvironmentMetadataSpec>, std::io::Error>,
        load_identity: F,
    ) -> (r: Result<Config, NodeBootstrapError>)
        requires
            environments matches Ok(specs) ==> forall|i: int|
                0 <= i < specs@.len() ==> (#[trigger] specs@[i]).complete(),
            forall|path: &str| #[trigger] call_requires(load_identity, (path,)),
        ensures
            match (spec, environments) {
                (Err(e), _) => r matches Err(error) && reports_io_error(e, error),
                (Ok(_), Err(e)) => r matches Err(error) && reports_io_error(e, error),
                (Ok(spec), Ok(specs)) => exists|path: &str, loaded: Result<NodeIdentity, String>|
                    path@ == spec.keystore() && #[trigger] call_ensures(
                        load_identity,
                        (path,),
                        loaded,
                    ) && build_outcome(spec, specs@, loaded, r),
            },
    {
        let spec = match spec {
            Ok(spec) => spec,
            Err(e) => {
                return Err(NodeBootstrapError::from_io_error(e));
            },
        };
        let environment_metadata = match environments {
            Ok(specs) => Config::load_environments(specs),
            Err(e) => {
                return Err(NodeBootstrapError::from_io_error(e));
            },
        };
        let path = spec.keystore_path();
        let loaded = load_identity(path.as_str());
        match loaded {
            Ok(identity) => Ok(Config::assemble(spec, environment_metadata, Arc::new(identity))),
            Err(reason) => {
                let mut message = wrap("failed to load node identity from ", path.as_str(), ": ");
                message.append(reason.as_str());
                Err(NodeBootstrapError { message })
            },
        }
    }

    /// Put a configuration together from its file, its environments and the
    /// identity of the node.
    pub fn assemble(
        spec: ConfigSpec,
        environment_metadata: KeyedStore<EnvironmentMetadata>,
        identity: Arc<NodeIdentity>,
    ) -> (r: Config)
        requires
            environment_metadata.wf(),
        ensures
            r.wf(),
            assembled(r, spec, environment_metadata, *identity),
    {
        let public_key = match identity.ed25519.public_key() {
            Ok(key) => key,
            Err(_) => Vec::new(),
        };
        let rhash = identity.rhash;
        Config {
            public_key,
            ip_address: "::".to_owned(),
            rest_api_version: spec.rest_api_version,
            node_type: if spec.is_full_node {
                NodeType::Full
            } else {
                NodeType::Light
            },
            node_registry_types: Config::default_node_registry_types(spec.is_full_node),
            main_environment_id: spec.main_env_id,
            reconciliation_partition_id: spec.reconciliation_partition_id,
            environment_metadata,
            type_configs: Config::default_type_configs(),
            identity,
            rhash,
            bootstrap_peers: spec.bootstrap_peers,
            rns_port: match spec.rns_port {
                Some(port) => port,
                None => DEFAULT_UDP_PORT,
            },
            transport_enabled: spec.transport_enabled,
        }
    }

    pub fn get_max_node_number(&self, node_type: &NodeRegistryType) -> (r: usize)
        requires
            self.wf(),
        ensures
            r == self.max_nodes(*node_type),
    {
        match self.type_configs.get(node_type) {
            Some(config) => config.max,
            None => 0,
        }
    }

    pub fn get_min_type_stake(&self, node_type: &NodeRegistryType) -> (r: u64)
        requires
            self.wf(),
        ensures
            r == self.min_stake(*node_type),
    {
        match self.type_configs.get(node_type) {
            Some(config) => config.min_stake,
            None => Config::default_min_stake(),
        }
    }

    /// The minimum stake of the main environment, or the default where that
    /// environment is not loaded.
    pub fn get_global_min_stake(&self) -> (r: u64)
        requires
            self.wf(),
        ensures
            r == self.global_min_stake(),
    {
        match self.environment_metadata.get(self.main_environment_id.as_str().as_bytes()) {
            Some(environment) => environment.cost_model.global_min_stake,
            None => CostModel::default_global_min_stake(),
        }
    }

    /// The minimum stake of a type in the main environment: the one that the
    /// environment sets for it, else that of the configuration.
    pub fn get_required_type_stake(&self, node_type: &NodeRegistryType) -> (r: u64)
        requires
            self.wf(),
        ensures
            r == self.required_stake(*node_type),
    {
        let default = self.get_min_type_stake(node_type);
        match self.environment_metadata.get(self.main_environment_id.as_str().as_bytes()) {
            Some(environment) => environment.cost_model.get_type_min_stake(node_type, default),
            None => default,
        }
    }

    /// The roles of a node: all five for a full node, all but the archiver for
    /// a light one.
    pub fn default_node_registry_types(is_full_node: bool) -> (r: Vec<NodeRegistryType>)
        ensures
            r@ == default_roles(is_full_node),
    {
        let mut roles = NodeRegistryType::all();
        if !is_full_node {
            let _ = roles.pop();
            assert(roles@ =~= default_roles(false));
        }
        roles
    }

    /// The limits that each role has by default.
    pub fn default_type_configs() -> (r: TypeConfigs)
        ensures
            r.wf(),
            forall|role: NodeRegistryType| #[trigger]
                r@.contains_key(role) && r@[role] == default_limits(),
    {
        let mut configs = TypeConfigs::new();
        let limits = NodeTypeConfig { min: 1, max: 1000, min_stake: Config::default_min_stake() };
        configs.insert(NodeRegistryType::Committer, limits);
        configs.insert(NodeRegistryType::Sentinel, limits);
        configs.insert(NodeRegistryType::Executor, limits);
        configs.insert(NodeRegistryType::Finalizer, limits);
        configs.insert(NodeRegistryType::Archiver, limits);
        assert forall|role: NodeRegistryType| #[trigger]
            configs@.contains_key(role) && configs@[role] == default_limits() by {
            match role {
                NodeRegistryType::Committer => {},
                NodeRegistryType::Sentinel => {},
                NodeRegistryType::Executor => {},
                NodeRegistryType::Finalizer => {},
                NodeRegistryType::Archiver => {},
            }
        }
        configs
    }

    /// The minimum stake of a role that is not configured.
    pub fn default_min_stake() -> (r: u64)
        ensures
            r == 10,
    {
        10
    }

    /// A configuration with an identity that is kept in memory only.
    pub fn new_for_testing(
        main_environment_id: String,
        environment_metadata: KeyedStore<EnvironmentMetadata>,
        type_configs: TypeConfigs,
    ) -> (r: Self)
        requires
            environment_metadata.wf(),
            type_configs.wf(),
        ensures
            r.wf(),
            r.main_environment_id == main_environment_id,
            r.environment_metadata == environment_metadata,
            r.type_configs == type_configs,
            r.public_key@ == r.identity.ed25519.identity(),
            r.identity.ed25519.has_key_pairs(),
            r.rhash == r.identity.rhash,
            r.node_type == NodeType::Full,
            r.node_registry_types@ == Seq::<NodeRegistryType>::empty(),
            r.ip_address@ == "::"@,
            r.rest_api_version == 1,
            r.reconciliation_partition_id@ == "default"@,
            r.bootstrap_peers@.len() == 0,
            r.rns_port == DEFAULT_UDP_PORT,
            !r.transport_enabled,
    {
        let identity = NodeIdentity::generate_in_memory();
        let public_key = match identity.ed25519.public_key() {
            Ok(key) => key,
            Err(_) => Vec::new(),
        };
        let rhash = identity.rhash;
        Config {
            public_key,
            ip_address: "::".to_owned(),
            rest_api_version: 1,
            node_type: NodeType::Full,
            node_registry_types: Vec::new(),
            main_environment_id,
            reconciliation_partition_id: "default".to_owned(),
            environment_metadata,
            type_configs,
            identity: Arc::new(identity),
            rhash,
            bootstrap_peers: Vec::new(),
            rns_port: DEFAULT_UDP_PORT,
            transport_enabled: false,
        }
    }
}

/// A role without an own limit takes no nodes and asks for a stake of 10; one
/// with a limit has that.
pub proof fn limits_follow_the_configuration(config: Config, role: NodeRegistryType)
    ensures
        config.type_configs@.contains_key(role) ==> config.max_nodes(role)
            == config.type_configs@[role].max && config.min_stake(role)
            == config.type_configs@[role].min_stake,
        !config.type_configs@.contains_key(role) ==> config.max_nodes(role) == 0
            && config.min_stake(role) == 10,
{
}

/// What registering for a role takes is decided by the main environment: its own
/// minimum for all roles, and for the role the minimum that it sets, or else that
/// of the configuration. Other environments do not count.
pub proof fn main_environment_decides_the_stake(config: Config, role: NodeRegistryType)
    ensures
        ({
            let id = vstd::utf8::encode_utf8(config.main_environment_id@);
            let main = config.environment_metadata@[id];
            let overrides = main.cost_model.per_type_min_stake@;
            &&& config.environment_metadata@.contains_key(id) ==> {
                &&& config.global_min_stake() == main.cost_model.global_min_stake
                &&& overrides.contains_key(seq![role.position()]) ==> config.required_stake(role)
                    == overrides[seq![role.position()]]
                &&& !overrides.contains_key(seq![role.position()]) ==> config.required_stake(role)
                    == config.min_stake(role)
            }
            &&& !config.environment_metadata@.contains_key(id) ==> config.global_min_stake() == 10
                && config.required_stake(role) == config.min_stake(role)
        }),
{
}

/// A full node takes every role, a light one every role but that of an archiver.
pub proof fn light_nodes_do_not_archive(is_full_node: bool, role: NodeRegistryType)
    ensures
        default_roles(is_full_node).contains(role) <==> is_full_node || role
            != NodeRegistryType::Archiver,
        default_roles(is_full_node).no_duplicates(),
{
    let all = crate::node::all_roles();
    let roles = default_roles(is_full_node);
    assert(all.len() == 5);
    assert(roles.len() == if is_full_node { 5int } else { 4 });
    assert(forall|i: int| 0 <= i < roles.len() ==> roles[i] == all[i]);
    match role {
        NodeRegistryType::Committer => {
            assert(roles[0] == role);
        },
        NodeRegistryType::Sentinel => {
            assert(roles[1] == role);
        },
        NodeRegistryType::Executor => {
            assert(roles[2] == role);
        },
        NodeRegistryType::Finalizer => {
            assert(roles[3] == role);
        },
        NodeRegistryType::Archiver => {
            if is_full_node {
                assert(roles[4] == role);
            }
        },
    }
}

/// A node that starts has the identity that was loaded, and nothing but that: its
/// chain key, its address and its signing keys are those of the keystore.
pub proof fn started_nodes_keep_their_identity(
    spec: ConfigSpec,
    specs: Seq<EnvironmentMetadataSpec>,
    loaded: Result<NodeIdentity, String>,
    r: Result<Config, NodeBootstrapError>,
)
    requires
        build_outcome(spec, specs, loaded, r),
    ensures
        r is Ok <==> loaded is Ok,
        r matches Ok(config) ==> {
            &&& *config.identity == loaded->Ok_0
            &&& config.public_key@ == loaded->Ok_0.ed25519.identity()
            &&& config.rhash == loaded->Ok_0.rhash
            &&& config.main_environment_id == spec.main_env_id
            &&& config.bootstrap_peers == spec.bootstrap_peers
            &&& config.transport_enabled == spec.transport_enabled
            &&& spec.rns_port matches Some(port) ==> config.rns_port == port
            &&& spec.rns_port is None ==> config.rns_port == 4242
            &&& config.node_type == NodeType::Full <==> spec.is_full_node
            &&& forall|role: NodeRegistryType|
                config.node_registry_types@.contains(role) <==> spec.is_full_node || role
                    != NodeRegistryType::Archiver
            &&& forall|i: int|
                0 <= i < specs.len() ==> config.environment_metadata@.contains_key(
                    vstd::utf8::encode_utf8((#[trigger] specs[i]).environment_id@),
                )
        },
{
    if let Ok(config) = r {
        assert forall|role: NodeRegistryType|
            config.node_registry_types@.contains(role) <==> spec.is_full_node || role
                != NodeRegistryType::Archiver by {
            light_nodes_do_not_archive(spec.is_full_node, role);
        }
    }
}

/// The limits that a role starts out with: between one node and a thousand, each
/// with a stake of 10 or more.
pub proof fn roles_start_with_a_thousand_places()
    ensures
        default_limits().min == 1,
        default_limits().max == 1000,
        default_limits().min_stake == 10,
{
}

/// Of several descriptions of one environment the last counts, and an environment
/// that nothing describes is not there.
pub proof fn the_last_description_counts(
    table: Map<Seq<u8>, EnvironmentMetadata>,
    specs: Seq<EnvironmentMetadataSpec>,
    i: int,
    id: Seq<char>,
)
    requires
        environments_from(table, specs),
        0 <= i < specs.len(),
        forall|j: int|
            i < j < specs.len() ==> (#[trigger] specs[j]).environment_id@
                != specs[i].environment_id@,
    ensures
        ({
            let key = vstd::utf8::encode_utf8(specs[i].environment_id@);
            table.contains_key(key) && crate::environment::loaded_from(table[key], specs[i])
        }),
        table.contains_key(vstd::utf8::encode_utf8(id)) ==> exists|k: int|
            0 <= k < specs.len() && (#[trigger] specs[k]).environment_id@ == id,
{
    let key = vstd::utf8::encode_utf8(specs[i].environment_id@);
    assert(table.contains_key(key));
    let k = choose|k: int| #[trigger]
        last_with_id(specs, k, key) && crate::environment::loaded_from(table[key], specs[k]);
    crate::text::lemma_utf8_injective(specs[k].environment_id@, specs[i].environment_id@);
    if k < i {
        assert(vstd::utf8::encode_utf8(specs[i].environment_id@) != key);
    } else if i < k {
        assert(specs[k].environment_id@ != specs[i].environment_id@);
    }
    if table.contains_key(vstd::utf8::encode_utf8(id)) {
        let other = vstd::utf8::encode_utf8(id);
        let m = choose|m: int| #[trigger]
            last_with_id(specs, m, other) && crate::environment::loaded_from(
                table[other],
                specs[m],
            );
        crate::text::lemma_utf8_injective(specs[m].environment_id@, id);
        assert(specs[m].environment_id@ == id);
    }
}

/// Of the files that were read, each that describes an environment is kept, in
/// order, and nothing else.
pub proof fn described_environments_are_kept(
    read: Seq<Result<Option<EnvironmentMetadataSpec>, std::io::Error>>,
)
    ensures
        described(read).len() <= read.len(),
        forall|i: int|
            0 <= i < read.len() && (#[trigger] read[i] matches Ok(Some(_))) ==> described(
                read,
            ).contains(read[i]->Ok_0->0),
        forall|spec: EnvironmentMetadataSpec| #[trigger]
            described(read).contains(spec) ==> exists|i: int|
                0 <= i < read.len() && #[trigger] read[i] == Ok::<
                    Option<EnvironmentMetadataSpec>,
                    std::io::Error,
                >(Some(spec)),
    decreases read.len(),
{
    if read.len() > 0 {
        let init = read.drop_last();
        let n = read.len() - 1;
        let before = described(init);
        described_environments_are_kept(init);
        assert(forall|i: int| 0 <= i < n ==> init[i] == #[trigger] read[i]);
        assert forall|i: int|
            0 <= i < read.len() && (#[trigger] read[i] matches Ok(Some(_))) implies described(
            read,
        ).contains(read[i]->Ok_0->0) by {
            if i < n {
                assert(init[i] == read[i]);
                let k = choose|k: int| 0 <= k < before.len() && before[k] == read[i]->Ok_0->0;
                assert(described(read)[k] == before[k]);
            } else {
                assert(described(read)[before.len() as int] == read[i]->Ok_0->0);
            }
        }
        assert forall|spec: EnvironmentMetadataSpec| #[trigger]
            described(read).contains(spec) implies exists|i: int|
            0 <= i < read.len() && #[trigger] read[i] == Ok::<
                Option<EnvironmentMetadataSpec>,
                std::io::Error,
            >(Some(spec)) by {
            let k = choose|k: int| 0 <= k < described(read).len() && described(read)[k] == spec;
            if k < before.len() {
                assert(before[k] == spec);
                assert(before.contains(spec));
                let i = choose|i: int|
                    0 <= i < init.len() && #[trigger] init[i] == Ok::<
                        Option<EnvironmentMetadataSpec>,
                        std::io::Error,
                    >(Some(spec));
                assert(read[i] == init[i]);
            } else {
                assert(read[n] == Ok::<Option<EnvironmentMetadataSpec>, std::io::Error>(
                    Some(spec),
                ));
            }
        }
    }
}

} // verus!
