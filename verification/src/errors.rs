//! The error types of the protocol and the validation vocabulary.
use crate::conns::ConnError;
use crate::data::DataError;
use crate::text::{bracketed_string, byte_list_string, decimal_string, wrap};
use crate::tokens::BlockValidationError;
use vstd::prelude::*;
use vstd::string::StringExecFns;

verus! {

/// Top-level error type for all protocol failures.
#[derive(Debug)]
pub enum PneumaticError {
    /// Crypto provider errors (encryption, signing, signature verification)
    CryptoError(String),
    /// Serialization and deserialization failures
    Encoding(String),
    /// Data provider operation failures
    Data(DataError),
    /// Network and connection failures
    Network(String),
    /// Transaction validation failures with specific reasons
    Validation(Vec<ValidationFailureReason>),
    /// Registry operation failures (add, remove, acquire)
    Registry(String),
    /// Epoch management errors (reconciliation, staking, leader selection)
    Epoch(String),
    /// Block validation failures
    Block(BlockValidationError),
    /// Block proposed by a stale (expired-epoch) leader
    StaleBlock {
        block_hash: Vec<u8>,
        stale_leader: Vec<u8>,
        current_leader: Vec<u8>,
        epoch_number: u64,
    },
    /// Conflicting block proposals at the same height
    BlockConflict { height: u64, block_a: Vec<u8>, block_b: Vec<u8> },
}

impl PneumaticError {
    /// Whether `text` is how the error reads.
    pub open spec fn shows(&self, text: Seq<char>) -> bool {
        match self {
            PneumaticError::CryptoError(msg) => text == "CryptoError("@ + msg@ + ")"@,
            PneumaticError::Encoding(msg) => text == "Encoding("@ + msg@ + ")"@,
            PneumaticError::Data(e) => exists|inner: Seq<char>| #[trigger]
                e.shows(inner) && text == "Data("@ + inner + ")"@,
            PneumaticError::Network(msg) => text == "Network("@ + msg@ + ")"@,
            PneumaticError::Validation(reasons) => text == "Validation("@ + reason_list(reasons@)
                + ")"@,
            PneumaticError::Registry(msg) => text == "Registry("@ + msg@ + ")"@,
            PneumaticError::Epoch(msg) => text == "Epoch("@ + msg@ + ")"@,
            PneumaticError::Block(e) => text == "Block("@ + e.text() + ")"@,
            PneumaticError::StaleBlock {
                block_hash,
                stale_leader,
                current_leader,
                epoch_number,
            } => text == "StaleBlock { block_hash: "@ + crate::text::byte_list(block_hash@)
                + ", stale_leader: "@ + crate::text::byte_list(stale_leader@)
                + ", current_leader: "@ + crate::text::byte_list(current_leader@)
                + ", epoch_number: "@ + crate::text::decimal(*epoch_number as nat) + " }"@,
            PneumaticError::BlockConflict { height, block_a, block_b } => text
                == "BlockConflict { height: "@ + crate::text::decimal(*height as nat)
                + ", block_a: "@ + crate::text::byte_list(block_a@) + ", block_b: "@
                + crate::text::byte_list(block_b@) + " }"@,
        }
    }

    /// The error as text.
    pub fn to_string(&self) -> (r: String)
        ensures
            self.shows(r@),
    {
        match self {
            PneumaticError::CryptoError(msg) => wrap("CryptoError(", msg, ")"),
            PneumaticError::Encoding(msg) => wrap("Encoding(", msg, ")"),
            PneumaticError::Data(e) => {
                let inner = e.to_string();
                wrap("Data(", &inner, ")")
            },
            PneumaticError::Network(msg) => wrap("Network(", msg, ")"),
            PneumaticError::Validation(reasons) => wrap(
                "Validation(",
                &reason_list_string(reasons),
                ")",
            ),
            PneumaticError::Registry(msg) => wrap("Registry(", msg, ")"),
            PneumaticError::Epoch(msg) => wrap("Epoch(", msg, ")"),
            PneumaticError::Block(e) => wrap("Block(", &e.to_string(), ")"),
            PneumaticError::StaleBlock {
                block_hash,
                stale_leader,
                current_leader,
                epoch_number,
            } => {
                let mut r = "StaleBlock { block_hash: ".to_owned();
                r.append(&byte_list_string(block_hash));
                r.append(", stale_leader: ");
                r.append(&byte_list_string(stale_leader));
                r.append(", current_leader: ");
                r.append(&byte_list_string(current_leader));
                r.append(", epoch_number: ");
                r.append(&decimal_string(*epoch_number));
                r.append(" }");
                r
            },
            PneumaticError::BlockConflict { height, block_a, block_b } => {
                let mut r = "BlockConflict { height: ".to_owned();
                r.append(&decimal_string(*height));
                r.append(", block_a: ");
                r.append(&byte_list_string(block_a));
                r.append(", block_b: ");
                r.append(&byte_list_string(block_b));
                r.append(" }");
                r
            },
        }
    }
}

impl vstd::std_specs::convert::FromSpecImpl<std::io::Error> for PneumaticError {
    open spec fn obeys_from_spec() -> bool {
        false
    }

    open spec fn from_spec(e: std::io::Error) -> Self {
        arbitrary()
    }
}

impl From<std::io::Error> for PneumaticError {
    fn from(e: std::io::Error) -> (r: Self)
        ensures
            r matches PneumaticError::Encoding(msg)
                && vstd::string::to_string_from_display_ensures::<std::io::Error>(&e, msg),
    {
        PneumaticError::Encoding(e.to_string())
    }
}

impl vstd::std_specs::convert::FromSpecImpl<DataError> for PneumaticError {
    open spec fn obeys_from_spec() -> bool {
        true
    }

    open spec fn from_spec(e: DataError) -> Self {
        PneumaticError::Data(e)
    }
}

impl From<DataError> for PneumaticError {
    fn from(e: DataError) -> (r: Self) {
        PneumaticError::Data(e)
    }
}

impl vstd::std_specs::convert::FromSpecImpl<BlockValidationError> for PneumaticError {
    open spec fn obeys_from_spec() -> bool {
        true
    }

    open spec fn from_spec(e: BlockValidationError) -> Self {
        PneumaticError::Block(e)
    }
}

impl From<BlockValidationError> for PneumaticError {
    fn from(e: BlockValidationError) -> (r: Self) {
        PneumaticError::Block(e)
    }
}

impl vstd::std_specs::convert::FromSpecImpl<ConnError> for PneumaticError {
    open spec fn obeys_from_spec() -> bool {
        false
    }

    open spec fn from_spec(e: ConnError) -> Self {
        arbitrary()
    }
}

impl From<ConnError> for PneumaticError {
    fn from(e: ConnError) -> (r: Self)
        ensures
            r matches PneumaticError::Network(msg) && msg@ == e.text(),
    {
        PneumaticError::Network(e.to_string())
    }
}

/// Why a transaction or block was refused.
#[derive(Debug, Clone, Copy, PartialEq, Eq, Structural)]
pub enum ValidationFailureReason {
    /// Transaction sender public key is missing
    SenderMissing,
    /// Transaction sender has insufficient funds for the amount
    InsufficientFunds,
    /// Transaction nonce is invalid (too low, too high, or duplicate)
    InvalidNonce,
    /// Transaction gas balance is insufficient for the computation
    InsufficientGasBalance,
    /// Sender has zero fuel balance (gas verification failed)
    InsufficientGas,
    /// Sender stake is below the minimum for the required node type
    InsufficientStake,
    /// Transaction signature is invalid or unverifiable
    InvalidSignature,
    /// Transaction target contract does not exist
    ContractNotFound,
    /// Transaction amount is invalid (negative, zero for non-transfer)
    InvalidAmount,
    /// Transaction timestamp is outside acceptable bounds
    InvalidTimestamp,
    /// Transaction bid percentage exceeds maximum allowed
    InvalidBidPercentage,
    /// Transaction exceeds maximum allowed gas limit
    GasLimitExceeded,
    /// Transaction risk score exceeds environment threshold
    RiskExceedsThreshold,
    /// Transaction sender is not the token owner
    NotTokenOwner,
    /// Transaction action type is not supported for this token
    UnsupportedAction,
    /// Token is not marked as self-verified (required for self-signed blocks)
    NotSelfVerified,
    /// Token data could not be loaded from the data store
    TokenNotFound,
    /// Executed transaction is missing a result hash (executor did not run)
    MissingResultHash,
    /// Executed transaction has no executor signatures
    MissingExecutorSignatures,
    /// Executed transaction has no finalizer signature
    MissingFinalizerSignature,
    /// Block proposed during a stale epoch (leader epoch expired)
    StaleEpochBlock,
    /// Block conflicts with another proposal at the same height
    BlockConflict,
    /// Shielded note nullifier was already spent
    StaleNullifier,
}

impl ValidationFailureReason {
    /// The name of the reason.
    pub open spec fn text(&self) -> Seq<char> {
        match self {
            ValidationFailureReason::SenderMissing => "SenderMissing"@,
            ValidationFailureReason::InsufficientFunds => "InsufficientFunds"@,
            ValidationFailureReason::InvalidNonce => "InvalidNonce"@,
            ValidationFailureReason::InsufficientGasBalance => "InsufficientGasBalance"@,
            ValidationFailureReason::InsufficientGas => "InsufficientGas"@,
            ValidationFailureReason::InsufficientStake => "InsufficientStake"@,
            ValidationFailureReason::InvalidSignature => "InvalidSignature"@,
            ValidationFailureReason::ContractNotFound => "ContractNotFound"@,
            ValidationFailureReason::InvalidAmount => "InvalidAmount"@,
            ValidationFailureReason::InvalidTimestamp => "InvalidTimestamp"@,
            ValidationFailureReason::InvalidBidPercentage => "InvalidBidPercentage"@,
            ValidationFailureReason::GasLimitExceeded => "GasLimitExceeded"@,
            ValidationFailureReason::RiskExceedsThreshold => "RiskExceedsThreshold"@,
            ValidationFailureReason::NotTokenOwner => "NotTokenOwner"@,
            ValidationFailureReason::UnsupportedAction => "UnsupportedAction"@,
            ValidationFailureReason::NotSelfVerified => "NotSelfVerified"@,
            ValidationFailureReason::TokenNotFound => "TokenNotFound"@,
            ValidationFailureReason::MissingResultHash => "MissingResultHash"@,
            ValidationFailureReason::MissingExecutorSignatures => "MissingExecutorSignatures"@,
            ValidationFailureReason::MissingFinalizerSignature => "MissingFinalizerSignature"@,
            ValidationFailureReason::StaleEpochBlock => "StaleEpochBlock"@,
            ValidationFailureReason::BlockConflict => "BlockConflict"@,
            ValidationFailureReason::StaleNullifier => "StaleNullifier"@,
        }
    }

    /// The name of the reason.
    pub fn to_string(&self) -> (r: String)
        ensures
            r@ == self.text(),
    {
        let name = match self {
            ValidationFailureReason::SenderMissing => "SenderMissing",
            ValidationFailureReason::InsufficientFunds => "InsufficientFunds",
            ValidationFailureReason::InvalidNonce => "InvalidNonce",
            ValidationFailureReason::InsufficientGasBalance => "InsufficientGasBalance",
            ValidationFailureReason::InsufficientGas => "InsufficientGas",
            ValidationFailureReason::InsufficientStake => "InsufficientStake",
            ValidationFailureReason::InvalidSignature => "InvalidSignature",
            ValidationFailureReason::ContractNotFound => "ContractNotFound",
            ValidationFailureReason::InvalidAmount => "InvalidAmount",
            ValidationFailureReason::InvalidTimestamp => "InvalidTimestamp",
            ValidationFailureReason::InvalidBidPercentage => "InvalidBidPercentage",
            ValidationFailureReason::GasLimitExceeded => "GasLimitExceeded",
            ValidationFailureReason::RiskExceedsThreshold => "RiskExceedsThreshold",
            ValidationFailureReason::NotTokenOwner => "NotTokenOwner",
            ValidationFailureReason::UnsupportedAction => "UnsupportedAction",
            ValidationFailureReason::NotSelfVerified => "NotSelfVerified",
            ValidationFailureReason::TokenNotFound => "TokenNotFound",
            ValidationFailureReason::MissingResultHash => "MissingResultHash",
            ValidationFailureReason::MissingExecutorSignatures => "MissingExecutorSignatures",
            ValidationFailureReason::MissingFinalizerSignature => "MissingFinalizerSignature",
            ValidationFailureReason::StaleEpochBlock => "StaleEpochBlock",
            ValidationFailureReason::BlockConflict => "BlockConflict",
            ValidationFailureReason::StaleNullifier => "StaleNullifier",
        };
        name.to_owned()
    }
}

/// The names of the reasons in square brackets.
pub open spec fn reason_list(reasons: Seq<ValidationFailureReason>) -> Seq<char> {
    crate::text::bracketed(Seq::new(reasons.len(), |i: int| reasons[i].text()))
}

fn reason_list_string(reasons: &Vec<ValidationFailureReason>) -> (r: String)
    ensures
        r@ == reason_list(reasons@),
{
    let mut items: Vec<String> = Vec::new();
    let mut i: usize = 0;
    while i < reasons.len()
        invariant
            i <= reasons@.len(),
            items@.len() == i,
            forall|j: int| 0 <= j < i ==> (#[trigger] items@[j])@ == reasons@[j].text(),
        decreases reasons@.len() - i,
    {
        items.push(reasons[i].to_string());
        i += 1;
    }
    assert(Seq::new(items@.len(), |i: int| items@[i]@) =~= Seq::new(
        reasons@.len(),
        |i: int| reasons@[i].text(),
    ));
    bracketed_string(&items)
}

/// Concrete risk metrics of a transaction.
#[derive(Debug, Clone, Copy)]
pub struct TransactionRiskFactor {
    /// Number of affected parties (sender, receiver and any intermediate nodes)
    pub affected_parties: usize,
    /// Transaction amount in smallest units
    pub amount: u64,
    /// Whether the transaction targets a smart contract
    pub is_contract: bool,
    /// Whether the transaction involves multi-party settlement
    pub is_multi_party: bool,
}

impl TransactionRiskFactor {
    /// The composite risk in hundredths: the amount weighs forty, the parties and
    /// the complexity thirty each.
    pub open spec fn risk_percent(&self) -> int {
        let amount: int = if self.amount > 1_000_000_000 {
            40
        } else if self.amount > 1_000_000 {
            20
        } else {
            0
        };
        let parties: int = if self.affected_parties <= 1 {
            0
        } else if self.affected_parties == 2 {
            15
        } else {
            30
        };
        let complexity: int = if self.is_contract || self.is_multi_party {
            30
        } else {
            15
        };
        amount + parties + complexity
    }
}

/// A transaction that is larger, touches more parties or does more is never less
/// risky.
pub proof fn risk_grows_with_each_factor(small: TransactionRiskFactor, large: TransactionRiskFactor)
    requires
        small.amount <= large.amount,
        small.affected_parties <= large.affected_parties,
        small.is_contract ==> large.is_contract,
        small.is_multi_party ==> large.is_multi_party,
    ensures
        small.risk_percent() <= large.risk_percent(),
        15 <= small.risk_percent(),
        large.risk_percent() <= 100,
{
}

/// What each factor adds: an amount above a million twenty hundredths and one
/// above a thousand million forty, a second party fifteen and further ones thirty,
/// a contract or a settlement of several parties fifteen.
pub proof fn each_factor_has_its_weight(a: TransactionRiskFactor, b: TransactionRiskFactor)
    ensures
        a.affected_parties == b.affected_parties && a.is_contract == b.is_contract
            && a.is_multi_party == b.is_multi_party && a.amount <= 1_000_000 ==> b.risk_percent()
            - a.risk_percent() == (if b.amount <= 1_000_000 {
            0int
        } else if b.amount <= 1_000_000_000 {
            20
        } else {
            40
        }),
        a.amount == b.amount && a.is_contract == b.is_contract && a.is_multi_party
            == b.is_multi_party && a.affected_parties <= 1 ==> b.risk_percent() - a.risk_percent()
            == (if b.affected_parties <= 1 {
            0int
        } else if b.affected_parties == 2 {
            15
        } else {
            30
        }),
        a.amount == b.amount && a.affected_parties == b.affected_parties && !a.is_contract
            && !a.is_multi_party ==> b.risk_percent() - a.risk_percent() == (if b.is_contract
            || b.is_multi_party {
            15int
        } else {
            0
        }),
        a.amount <= 1_000_000 && a.affected_parties <= 1 && !a.is_contract && !a.is_multi_party
            ==> a.risk_percent() == 15,
{
}

impl TransactionRiskFactor {
    /// Amount risk in halves: none for small, one for medium, two for large.
    pub fn amount_risk_halves(&self) -> (r: u8)
        ensures
            r == (if self.amount > 1_000_000_000 {
                2u8
            } else if self.amount > 1_000_000 {
                1u8
            } else {
                0u8
            }),
    {
        if self.amount > 1_000_000_000 {
            2
        } else if self.amount > 1_000_000 {
            1
        } else {
            0
        }
    }

    /// Party risk in halves: none for one party, one for two, two for more.
    pub fn party_risk_halves(&self) -> (r: u8)
        ensures
            r == (if self.affected_parties <= 1 {
                0u8
            } else if self.affected_parties == 2 {
                1u8
            } else {
                2u8
            }),
    {
        if self.affected_parties <= 1 {
            0
        } else if self.affected_parties == 2 {
            1
        } else {
            2
        }
    }

    /// Complexity risk in halves: two for contracts and multi-party
    /// settlements, one otherwise.
    pub fn complexity_risk_halves(&self) -> (r: u8)
        ensures
            r == (if self.is_contract || self.is_multi_party {
                2u8
            } else {
                1u8
            }),
    {
        if self.is_contract || self.is_multi_party {
            2
        } else {
            1
        }
    }

    /// The composite risk in hundredths: the amount weighs forty, the parties
    /// and the complexity thirty each.
    pub fn score_percent(&self) -> (r: u8)
        ensures
            r == 20 * (if self.amount > 1_000_000_000 {
                2int
            } else if self.amount > 1_000_000 {
                1int
            } else {
                0int
            }) + 15 * (if self.affected_parties <= 1 {
                0int
            } else if self.affected_parties == 2 {
                1int
            } else {
                2int
            }) + 15 * (if self.is_contract || self.is_multi_party {
                2int
            } else {
                1int
            }),
            15 <= r <= 100,
            r == self.risk_percent(),
    {
        20 * self.amount_risk_halves() + 15 * self.party_risk_halves() + 15
            * self.complexity_risk_halves()
    }
}

/// Reconciled signatures: what signature collection returns.
#[derive(Debug)]
pub struct ReconciledSignatures {
    /// Merged executor signatures keyed by executor public key
    pub executor_signatures: Vec<ExecutorSignature>,
    /// The finalizer that won quorum
    pub winning_finalizer: Vec<u8>,
    /// Whether a conflict was resolved (supermajority vote or stake-weighted)
    pub conflict_resolved: bool,
}

#[derive(Debug)]
pub struct ExecutorSignature {
    pub executor_public_key: Vec<u8>,
    pub signature: Vec<u8>,
    pub stake: u64,
}

/// Errors that occur when selecting executors for a transaction shard.
#[derive(Debug, Clone, Copy)]
pub enum ExecutorRoutingError {
    /// No executors configured for this epoch
    EmptyExecutorSet,
    /// Shard count must be at least 1
    ShardCountZero,
    /// Shard index {0} out of range [0, {1})
    ShardOutOfBounds(u32, u32),
    /// Selected shard has no executors assigned
    NoExecutorsInShard(u32),
}

impl ExecutorRoutingError {
    /// How the error reads.
    pub open spec fn text(&self) -> Seq<char> {
        match self {
            ExecutorRoutingError::EmptyExecutorSet => "EmptyExecutorSet"@,
            ExecutorRoutingError::ShardCountZero => "ShardCountZero"@,
            ExecutorRoutingError::ShardOutOfBounds(shard, max) => "ShardOutOfBounds("@
                + crate::text::decimal(*shard as nat) + ", "@ + crate::text::decimal(*max as nat)
                + ")"@,
            ExecutorRoutingError::NoExecutorsInShard(shard) => "NoExecutorsInShard("@
                + crate::text::decimal(*shard as nat) + ")"@,
        }
    }

    /// The error as text.
    pub fn to_string(&self) -> (r: String)
        ensures
            r@ == self.text(),
    {
        match self {
            ExecutorRoutingError::EmptyExecutorSet => "EmptyExecutorSet".to_owned(),
            ExecutorRoutingError::ShardCountZero => "ShardCountZero".to_owned(),
            ExecutorRoutingError::ShardOutOfBounds(shard, max) => {
                let mut r = "ShardOutOfBounds(".to_owned();
                r.append(&decimal_string(*shard as u64));
                r.append(", ");
                r.append(&decimal_string(*max as u64));
                r.append(")");
                r
            },
            ExecutorRoutingError::NoExecutorsInShard(shard) => wrap(
                "NoExecutorsInShard(",
                &decimal_string(*shard as u64),
                ")",
            ),
        }
    }
}

impl vstd::std_specs::convert::FromSpecImpl<ExecutorRoutingError> for PneumaticError {
    open spec fn obeys_from_spec() -> bool {
        false
    }

    open spec fn from_spec(e: ExecutorRoutingError) -> Self {
        arbitrary()
    }
}

impl From<ExecutorRoutingError> for PneumaticError {
    fn from(e: ExecutorRoutingError) -> (r: Self)
        ensures
            r matches PneumaticError::Epoch(msg) && msg@ == e.text(),
    {
        PneumaticError::Epoch(e.to_string())
    }
}

} // verus!
