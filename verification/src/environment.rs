//! Environments: partitions, pricing and validation settings.
use crate::bytes::copy_bytes;
use crate::crypto::{get_asym_provider, AsymCryptoProviderType, Ed25519Provider};
use crate::logging::FileLogger;
use crate::node::NodeRegistryType;
use crate::sorted_map::SortedMap;
use crate::text::str_eq;
use vstd::prelude::*;

verus! {

/// Fixed-point scale of the amount multipliers: four decimal places.
pub const GAS_SCALE: u64 = 10_000;

/// The gas of a transaction amount: the scaled product, capped before scaling
/// back.
pub open spec fn amount_gas(amount: u64, multiplier: u64) -> u64 {
    crate::epoch::stake_sets::saturated((amount * multiplier) as nat) / GAS_SCALE
}

/// The total gas of a transaction, capped.
pub open spec fn total_gas(base_cost: u64, amount: u64, multiplier: u64) -> u64 {
    crate::epoch::stake_sets::saturated((base_cost + amount_gas(amount, multiplier)) as nat)
}

/// A larger amount or a larger multiplier never costs less gas, and no
/// transaction costs less than the base cost.
pub proof fn gas_is_monotone(base_cost: u64, a: u64, b: u64, m: u64, n: u64)
    requires
        a <= b,
        m <= n,
    ensures
        base_cost <= total_gas(base_cost, a, m) <= total_gas(base_cost, b, n),
{
    assert(0 <= a * m <= b * n) by (nonlinear_arith)
        requires
            0 <= a <= b,
            0 <= m <= n,
    ;
    let x = crate::epoch::stake_sets::saturated((a * m) as nat);
    let y = crate::epoch::stake_sets::saturated((b * n) as nat);
    assert(x <= y);
    assert(x / GAS_SCALE <= y / GAS_SCALE);
}

/// Gas pricing and protocol policy.
#[derive(Debug)]
pub struct CostModel {
    /// Minimum gas cost per action
    pub base_cost: u64,
    /// Protocol-level minimum stake
    pub global_min_stake: u64,
    /// Admin wallet public key for tax collection
    pub admin_public_key: Vec<u8>,
    /// Amount multiplier by action name, in fixed point
    pub amount_multiplier: SortedMap<u64>,
    /// Minimum stakes of single node types, by the position of the type
    pub per_type_min_stake: SortedMap<u64>,
}

/// The multipliers that an environment has unless it sets its own.
pub open spec fn default_multipliers() -> Map<Seq<u8>, u64> {
    Map::<Seq<u8>, u64>::empty().insert(vstd::utf8::encode_utf8("Process"@), 10_000u64).insert(
        vstd::utf8::encode_utf8("Preload"@),
        20_000u64,
    ).insert(vstd::utf8::encode_utf8("Sign"@), 15_000u64)
}

impl CostModel {
    /// The multipliers that an environment has unless it sets its own: 1 for
    /// "Process", 2 for "Preload", 1.5 for "Sign".
    pub fn default_amount_multiplier() -> (r: SortedMap<u64>)
        ensures
            r@ == default_multipliers(),
    {
        let mut map: SortedMap<u64> = SortedMap::new();
        let _ = map.insert(copy_bytes("Process".as_bytes()), 10_000);
        let _ = map.insert(copy_bytes("Preload".as_bytes()), 20_000);
        let _ = map.insert(copy_bytes("Sign".as_bytes()), 15_000);
        map
    }

    /// The gas attributable to a transaction amount. Products beyond the range
    /// of a `u64` are capped.
    pub fn gas_from_amount(amount: u64, multiplier: u64) -> (r: u64)
        ensures
            r == amount_gas(amount, multiplier),
    {
        let product = match amount.checked_mul(multiplier) {
            Some(product) => product,
            None => u64::MAX,
        };
        product / GAS_SCALE
    }

    /// Total gas of a transaction, with the multiplier in fixed point.
    pub fn compute_gas(&self, amount: u64, multiplier: u64) -> (r: u64)
        ensures
            r == total_gas(self.base_cost, amount, multiplier),
    {
        self.base_cost.saturating_add(CostModel::gas_from_amount(amount, multiplier))
    }

    /// The amount multiplier of an action, in fixed point. An action without one
    /// costs the base cost alone.
    pub open spec fn multiplier_of(&self, action: Seq<char>) -> u64 {
        let key = vstd::utf8::encode_utf8(action);
        if self.amount_multiplier@.contains_key(key) {
            self.amount_multiplier@[key]
        } else {
            0
        }
    }

    /// The gas of an action on a transaction amount.
    pub open spec fn action_gas(&self, action: Seq<char>, amount: u64) -> u64 {
        total_gas(self.base_cost, amount, self.multiplier_of(action))
    }

    /// The gas of an action on a transaction amount.
    pub fn compute_action_gas(&self, action: &str, amount: u64) -> (r: u64)
        ensures
            r == self.action_gas(action@, amount),
    {
        let multiplier = match self.amount_multiplier.get(action.as_bytes()) {
            Some(multiplier) => *multiplier,
            None => 0,
        };
        self.compute_gas(amount, multiplier)
    }

    /// The minimum stake of a role: the one that this environment sets for it,
    /// else the given default.
    pub open spec fn type_min_stake(&self, role: NodeRegistryType, default: u64) -> u64 {
        let key = seq![role.position()];
        if self.per_type_min_stake@.contains_key(key) {
            self.per_type_min_stake@[key]
        } else {
            default
        }
    }

    /// The minimum stake of a role: the one that this environment sets for it,
    /// else the given default.
    pub fn get_type_min_stake(&self, role: &NodeRegistryType, default: u64) -> (r: u64)
        ensures
            r == self.type_min_stake(*role, default),
    {
        let key: Vec<u8> = vec![role.index()];
        assert(key@ =~= seq![role.position()]);
        match self.per_type_min_stake.get(&key) {
            Some(stake) => *stake,
            None => default,
        }
    }

    /// The minimum stake where no environment configures one.
    pub fn default_global_min_stake() -> (r: u64)
        ensures
            r == 10,
    {
        10
    }
}

impl Default for CostModel {
    fn default() -> (r: Self)
        ensures
            r.base_cost == 1,
            r.global_min_stake == 10,
            r.admin_public_key@ == Seq::<u8>::empty(),
            r.amount_multiplier@ == default_multipliers(),
            r.per_type_min_stake@ == Map::<Seq<u8>, u64>::empty(),
    {
        CostModel {
            base_cost: 1,
            global_min_stake: 10,
            admin_public_key: Vec::new(),
            amount_multiplier: CostModel::default_amount_multiplier(),
            per_type_min_stake: SortedMap::new(),
        }
    }
}

#[derive(Debug, Clone, Copy, PartialEq, Eq, Structural)]
pub enum EnvironmentPartitionType {
    Token,
    Contract,
    ProxyAuth,
    Slush,
    Other,
}

#[derive(Debug)]
pub struct EnvironmentPartition {
    pub id: String,
    pub partition_type: EnvironmentPartitionType,
}

impl Clone for EnvironmentPartition {
    fn clone(&self) -> (r: Self)
        ensures
            r == *self,
    {
        EnvironmentPartition { id: self.id.clone(), partition_type: self.partition_type }
    }
}

/// The partition of a type: the last one listed, where there are several.
pub open spec fn partition_of(
    partitions: Seq<EnvironmentPartition>,
    partition_type: EnvironmentPartitionType,
) -> Option<String>
    decreases partitions.len(),
{
    if partitions.len() == 0 {
        None
    } else if partitions.last().partition_type == partition_type {
        Some(partitions.last().id)
    } else {
        partition_of(partitions.drop_last(), partition_type)
    }
}

/// The validation specs that there are.
#[derive(Debug, Clone, Copy, PartialEq, Eq, Structural)]
pub enum ValidationSpecKind {
    SelfSigned,
    Executed,
}

/// The validation spec of a name, if there is one.
pub open spec fn spec_kind(name: Seq<char>) -> Option<ValidationSpecKind> {
    if name == "SelfSigned"@ {
        Some(ValidationSpecKind::SelfSigned)
    } else if name == "Executed"@ {
        Some(ValidationSpecKind::Executed)
    } else {
        None
    }
}

/// The validation specs of a list of names, in order; unknown names are skipped.
pub open spec fn spec_kinds(names: Seq<String>) -> Seq<ValidationSpecKind>
    decreases names.len(),
{
    if names.len() == 0 {
        Seq::empty()
    } else {
        let before = spec_kinds(names.drop_last());
        match spec_kind(names.last()@) {
            Some(kind) => before.push(kind),
            None => before,
        }
    }
}

/// The validation specs of a list of names; unknown names are skipped.
pub fn wired_specs(names: &Vec<String>) -> (r: Vec<ValidationSpecKind>)
    ensures
        r@ == spec_kinds(names@),
{
    let mut r: Vec<ValidationSpecKind> = Vec::new();
    let mut i: usize = 0;
    assert(names@.take(0) =~= Seq::empty());
    while i < names.len()
        invariant
            i <= names@.len(),
            r@ == spec_kinds(names@.take(i as int)),
        decreases names@.len() - i,
    {
        proof {
            assert(names@.take(i + 1).drop_last() =~= names@.take(i as int));
            assert(names@.take(i + 1).last() == names@[i as int]);
        }
        if str_eq(names[i].as_str(), "SelfSigned") {
            r.push(ValidationSpecKind::SelfSigned);
        } else if str_eq(names[i].as_str(), "Executed") {
            r.push(ValidationSpecKind::Executed);
        }
        i += 1;
    }
    assert(names@.take(i as int) =~= names@);
    r
}

/// An environment as its file describes it.
#[derive(Debug)]
pub struct EnvironmentMetadataSpec {
    pub environment_id: String,
    pub environment_name: String,
    pub partitions: Vec<EnvironmentPartition>,
    pub asym_crypto_provider: AsymCryptoProviderType,
    pub sym_crypto_provider: String,
    pub serialization_provider: String,
    pub cost_model: CostModel,
    pub allowed_token_types: Vec<String>,
    pub trans_validation_specs: Vec<String>,
    pub block_validation_specs: Vec<String>,
    pub log_file: String,
    /// Number of executor shards
    pub shard_count: u32,
}

/// The shard count of an environment that sets none: no sharding.
pub fn default_shard_count() -> (r: u32)
    ensures
        r == 1,
{
    1
}

/// A loaded environment.
pub struct EnvironmentMetadata {
    pub environment_id: String,
    pub environment_name: String,
    pub token_partition_id: String,
    pub contract_partition_id: Option<String>,
    pub proxy_auth_partition_id: Option<String>,
    pub slush_partition_id: String,
    pub partitions: Vec<EnvironmentPartition>,
    /// Gas cost model for action pricing and protocol policy
    pub cost_model: CostModel,
    pub asym_crypto_provider: Ed25519Provider,
    /// Transaction validation specs beside the built-in ones
    pub transaction_validation_specs: Vec<ValidationSpecKind>,
    /// Block validator specs beside the built-in ones
    pub block_validator_specs: Vec<ValidationSpecKind>,
    pub allowed_token_types: Vec<String>,
    pub sym_crypto_provider: String,
    pub serialization_provider: String,
    pub logger: FileLogger,
    /// Number of executor shards
    pub shard_count: u32,
}

/// The partitions of each type that a list names.
struct Partitions {
    token: Option<String>,
    contract: Option<String>,
    proxy: Option<String>,
    slush: Option<String>,
}

fn find_partitions(partitions: &Vec<EnvironmentPartition>) -> (r: Partitions)
    ensures
        r.token == partition_of(partitions@, EnvironmentPartitionType::Token),
        r.contract == partition_of(partitions@, EnvironmentPartitionType::Contract),
        r.proxy == partition_of(partitions@, EnvironmentPartitionType::ProxyAuth),
        r.slush == partition_of(partitions@, EnvironmentPartitionType::Slush),
{
    let mut token: Option<String> = None;
    let mut contract: Option<String> = None;
    let mut proxy: Option<String> = None;
    let mut slush: Option<String> = None;
    let mut i: usize = 0;
    assert(partitions@.take(0) =~= Seq::empty());
    while i < partitions.len()
        invariant
            i <= partitions@.len(),
            token == partition_of(partitions@.take(i as int), EnvironmentPartitionType::Token),
            contract == partition_of(
                partitions@.take(i as int),
                EnvironmentPartitionType::Contract,
            ),
            proxy == partition_of(partitions@.take(i as int), EnvironmentPartitionType::ProxyAuth),
            slush == partition_of(partitions@.take(i as int), EnvironmentPartitionType::Slush),
        decreases partitions@.len() - i,
    {
        proof {
            assert(partitions@.take(i + 1).drop_last() =~= partitions@.take(i as int));
            assert(partitions@.take(i + 1).last() == partitions@[i as int]);
        }
        let id = partitions[i].id.clone();
        match partitions[i].partition_type {
            EnvironmentPartitionType::Token => {
                token = Some(id);
            },
            EnvironmentPartitionType::Contract => {
                contract = Some(id);
            },
            EnvironmentPartitionType::ProxyAuth => {
                proxy = Some(id);
            },
            EnvironmentPartitionType::Slush => {
                slush = Some(id);
            },
            EnvironmentPartitionType::Other => {},
        }
        i += 1;
    }
    assert(partitions@.take(i as int) =~= partitions@);
    Partitions { token, contract, proxy, slush }
}

impl EnvironmentMetadataSpec {
    /// The environment has the partitions that every environment needs.
    pub open spec fn complete(&self) -> bool {
        &&& partition_of(self.partitions@, EnvironmentPartitionType::Token) is Some
        &&& partition_of(self.partitions@, EnvironmentPartitionType::Slush) is Some
    }

    /// Whether the environment has the partitions that every environment needs.
    pub fn is_complete(&self) -> (r: bool)
        ensures
            r == self.complete(),
    {
        let found = find_partitions(&self.partitions);
        found.token.is_some() && found.slush.is_some()
    }
}

/// `env` is the environment that `spec` describes.
pub open spec fn loaded_from(env: EnvironmentMetadata, spec: EnvironmentMetadataSpec) -> bool {
    &&& env.environment_id == spec.environment_id
    &&& env.environment_name == spec.environment_name
    &&& Some(env.token_partition_id) == partition_of(
        spec.partitions@,
        EnvironmentPartitionType::Token,
    )
    &&& env.contract_partition_id == partition_of(
        spec.partitions@,
        EnvironmentPartitionType::Contract,
    )
    &&& env.proxy_auth_partition_id == partition_of(
        spec.partitions@,
        EnvironmentPartitionType::ProxyAuth,
    )
    &&& Some(env.slush_partition_id) == partition_of(
        spec.partitions@,
        EnvironmentPartitionType::Slush,
    )
    &&& env.partitions == spec.partitions
    &&& env.cost_model == spec.cost_model
    &&& env.asym_crypto_provider.has_key_pairs()
    &&& env.transaction_validation_specs@ == spec_kinds(spec.trans_validation_specs@)
    &&& env.block_validator_specs@ == spec_kinds(spec.block_validation_specs@)
    &&& env.allowed_token_types == spec.allowed_token_types
    &&& env.sym_crypto_provider == spec.sym_crypto_provider
    &&& env.serialization_provider == spec.serialization_provider
    &&& env.logger.file_path == spec.log_file
    &&& env.shard_count == spec.shard_count
}

impl EnvironmentMetadata {
    /// Load an environment, with fresh keys for its crypto provider.
    pub fn load_from_spec(spec: EnvironmentMetadataSpec) -> (r: EnvironmentMetadata)
        requires
            spec.complete(),
        ensures
            loaded_from(r, spec),
    {
        let found = find_partitions(&spec.partitions);
        let asym_crypto_provider = get_asym_provider(&spec.asym_crypto_provider);
        let transaction_validation_specs = wired_specs(&spec.trans_validation_specs);
        let block_validator_specs = wired_specs(&spec.block_validation_specs);
        EnvironmentMetadata {
            environment_id: spec.environment_id,
            environment_name: spec.environment_name,
            token_partition_id: found.token.unwrap(),
            contract_partition_id: found.contract,
            proxy_auth_partition_id: found.proxy,
            slush_partition_id: found.slush.unwrap(),
            partitions: spec.partitions,
            cost_model: spec.cost_model,
            asym_crypto_provider,
            transaction_validation_specs,
            block_validator_specs,
            allowed_token_types: spec.allowed_token_types,
            sym_crypto_provider: spec.sym_crypto_provider,
            serialization_provider: spec.serialization_provider,
            logger: FileLogger::new(spec.log_file),
            shard_count: spec.shard_count,
        }
    }
}

/// The gas of an action on an amount is the base cost with the amount times the
/// multiplier of the action, in units of a ten-thousandth and rounded down,
/// wherever that stays within range. An action without a multiplier costs the
/// base cost, and so does an action on nothing.
pub proof fn gas_prices_the_amount(model: CostModel, action: Seq<char>, amount: u64)
    ensures
        ({
            let key = vstd::utf8::encode_utf8(action);
            let gas = model.action_gas(action, amount);
            &&& model.amount_multiplier@.contains_key(key) ==> {
                let product = amount * model.amount_multiplier@[key];
                product <= u64::MAX && model.base_cost + product / 10_000 <= u64::MAX ==> gas
                    == model.base_cost + product / 10_000
            }
            &&& !model.amount_multiplier@.contains_key(key) ==> gas == model.base_cost
            &&& amount == 0 ==> gas == model.base_cost
            &&& gas >= model.base_cost
        }),
{
    let m = model.multiplier_of(action);
    assert(0 <= amount * m) by (nonlinear_arith)
        requires
            amount >= 0,
            m >= 0,
    ;
    assert(amount == 0 ==> amount * m == 0) by (nonlinear_arith);
    assert(m == 0 ==> amount * m == 0) by (nonlinear_arith);
}

/// Processing an amount costs as much gas as the amount by default, preloading
/// twice as much, signing one and a half times.
pub proof fn default_prices(model: CostModel, amount: u64)
    requires
        model.amount_multiplier@ == default_multipliers(),
        amount <= u32::MAX,
        model.base_cost <= u32::MAX,
    ensures
        model.action_gas("Process"@, amount) == model.base_cost + amount,
        model.action_gas("Preload"@, amount) == model.base_cost + 2 * amount,
        model.action_gas("Sign"@, amount) == model.base_cost + amount * 3 / 2,
{
    reveal_strlit("Process");
    reveal_strlit("Preload");
    reveal_strlit("Sign");
    assert("Process"@.len() == 7 && "Preload"@.len() == 7 && "Sign"@.len() == 4);
    assert("Process"@[2] == 'o' && "Preload"@[2] == 'e');
    crate::text::lemma_utf8_injective("Process"@, "Preload"@);
    crate::text::lemma_utf8_injective("Process"@, "Sign"@);
    crate::text::lemma_utf8_injective("Preload"@, "Sign"@);
    gas_prices_the_amount(model, "Process"@, amount);
    gas_prices_the_amount(model, "Preload"@, amount);
    gas_prices_the_amount(model, "Sign"@, amount);
    assert(model.amount_multiplier@[vstd::utf8::encode_utf8("Process"@)] == 10_000);
    assert(model.amount_multiplier@[vstd::utf8::encode_utf8("Preload"@)] == 20_000);
    assert(model.amount_multiplier@[vstd::utf8::encode_utf8("Sign"@)] == 15_000);
}

/// The minimum stake that an environment sets for a role replaces the default;
/// a role that it leaves out keeps it.
pub proof fn minimum_stakes_are_replaced(model: CostModel, role: NodeRegistryType, default: u64)
    ensures
        model.per_type_min_stake@.contains_key(seq![role.position()]) ==> model.type_min_stake(
            role,
            default,
        ) == model.per_type_min_stake@[seq![role.position()]],
        !model.per_type_min_stake@.contains_key(seq![role.position()]) ==> model.type_min_stake(
            role,
            default,
        ) == default,
{
}

/// The partition of a type is one that the list gives that type, and none with
/// that type comes after it; there is none only where the list has none.
pub proof fn partitions_are_the_last_listed(
    partitions: Seq<EnvironmentPartition>,
    partition_type: EnvironmentPartitionType,
)
    ensures
        match partition_of(partitions, partition_type) {
            Some(id) => exists|i: int|
                0 <= i < partitions.len() && (#[trigger] partitions[i]).partition_type
                    == partition_type && partitions[i].id == id && forall|j: int|
                    i < j < partitions.len() ==> (#[trigger] partitions[j]).partition_type
                        != partition_type,
            None => forall|j: int|
                0 <= j < partitions.len() ==> (#[trigger] partitions[j]).partition_type
                    != partition_type,
        },
    decreases partitions.len(),
{
    if partitions.len() > 0 {
        let n = partitions.len() - 1;
        if partitions.last().partition_type == partition_type {
            assert(partitions[n].partition_type == partition_type);
        } else {
            let init = partitions.drop_last();
            partitions_are_the_last_listed(init, partition_type);
            assert(forall|j: int| 0 <= j < n ==> init[j] == #[trigger] partitions[j]);
            if partition_of(init, partition_type) is Some {
                let id = partition_of(init, partition_type)->0;
                let i = choose|i: int|
                    0 <= i < init.len() && (#[trigger] init[i]).partition_type == partition_type
                        && init[i].id == id && forall|j: int|
                        i < j < init.len() ==> (#[trigger] init[j]).partition_type
                            != partition_type;
                assert(partitions[i].partition_type == partition_type);
                assert forall|j: int| i < j < partitions.len() implies (
                #[trigger] partitions[j]).partition_type != partition_type by {
                    if j < n {
                        assert(init[j].partition_type != partition_type);
                    }
                }
            } else {
                assert forall|j: int| 0 <= j < partitions.len() implies (
                #[trigger] partitions[j]).partition_type != partition_type by {
                    if j < n {
                        assert(init[j].partition_type != partition_type);
                    }
                }
            }
        }
    }
}

/// A description is complete exactly where it lists a token and a slush partition.
pub proof fn complete_descriptions_list_both_partitions(spec: EnvironmentMetadataSpec)
    ensures
        spec.complete() <==> (exists|i: int|
            0 <= i < spec.partitions@.len() && (#[trigger] spec.partitions@[i]).partition_type
                == EnvironmentPartitionType::Token) && (exists|i: int|
            0 <= i < spec.partitions@.len() && (#[trigger] spec.partitions@[i]).partition_type
                == EnvironmentPartitionType::Slush),
{
    lemma_listed_partition(spec.partitions@, EnvironmentPartitionType::Token);
    lemma_listed_partition(spec.partitions@, EnvironmentPartitionType::Slush);
}

proof fn lemma_listed_partition(
    partitions: Seq<EnvironmentPartition>,
    partition_type: EnvironmentPartitionType,
)
    ensures
        partition_of(partitions, partition_type) is Some <==> exists|i: int|
            0 <= i < partitions.len() && (#[trigger] partitions[i]).partition_type
                == partition_type,
    decreases partitions.len(),
{
    if partitions.len() > 0 {
        let front = partitions.drop_last();
        lemma_listed_partition(front, partition_type);
        assert(forall|i: int| 0 <= i < front.len() ==> #[trigger] front[i] == partitions[i]);
        if partitions.last().partition_type == partition_type {
            assert(partitions[partitions.len() - 1].partition_type == partition_type);
        } else if partition_of(partitions, partition_type) is Some {
            let i = choose|i: int|
                0 <= i < front.len() && (#[trigger] front[i]).partition_type == partition_type;
            assert(partitions[i].partition_type == partition_type);
        } else if exists|i: int|
            0 <= i < partitions.len() && (#[trigger] partitions[i]).partition_type
                == partition_type {
            let i = choose|i: int|
                0 <= i < partitions.len() && (#[trigger] partitions[i]).partition_type
                    == partition_type;
            assert(front[i].partition_type == partition_type);
        }
    }
}

/// An environment that is loaded keeps what its description says: the token and
/// slush partitions by their types, the pricing, the specs that it knows and the
/// shard count.
pub proof fn loaded_environments_follow_their_description(
    env: EnvironmentMetadata,
    spec: EnvironmentMetadataSpec,
)
    requires
        loaded_from(env, spec),
    ensures
        env.environment_id == spec.environment_id,
        exists|i: int|
            0 <= i < spec.partitions@.len() && (#[trigger] spec.partitions@[i]).partition_type
                == EnvironmentPartitionType::Token && spec.partitions@[i].id
                == env.token_partition_id,
        exists|i: int|
            0 <= i < spec.partitions@.len() && (#[trigger] spec.partitions@[i]).partition_type
                == EnvironmentPartitionType::Slush && spec.partitions@[i].id
                == env.slush_partition_id,
        env.cost_model == spec.cost_model,
        env.shard_count == spec.shard_count,
        env.allowed_token_types == spec.allowed_token_types,
        env.logger.file_path == spec.log_file,
        env.asym_crypto_provider.has_key_pairs(),
{
    partitions_are_the_last_listed(spec.partitions@, EnvironmentPartitionType::Token);
    partitions_are_the_last_listed(spec.partitions@, EnvironmentPartitionType::Slush);
}

/// Each known name in a list gives its validation spec, in the order of the
/// list, and nothing else does.
pub proof fn known_specs_are_wired(names: Seq<String>)
    ensures
        spec_kinds(names).len() == names.filter(
            |name: String| name@ == "SelfSigned"@ || name@ == "Executed"@,
        ).len(),
        forall|i: int|
            0 <= i < spec_kinds(names).len() ==> (#[trigger] spec_kinds(names)[i]
                == ValidationSpecKind::SelfSigned <==> names.filter(
                |name: String| name@ == "SelfSigned"@ || name@ == "Executed"@,
            )[i]@ == "SelfSigned"@),
    decreases names.len(),
{
    reveal(Seq::filter);
    reveal_strlit("SelfSigned");
    reveal_strlit("Executed");
    assert("SelfSigned"@.len() == 10 && "Executed"@.len() == 8);
    if names.len() > 0 {
        known_specs_are_wired(names.drop_last());
    }
}

} // verus!
