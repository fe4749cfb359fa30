//! `ActionRouter`: routes messages by their action, with nonce, gas and stake
//! checks against the stored user.
use crate::bytes::copy_bytes;
use crate::config::Config;
use crate::data::{DataError, DataProvider};
use crate::environment::EnvironmentMetadata;
use crate::errors::{PneumaticError, ValidationFailureReason};
use crate::messages::Message;
use crate::node::NodeRegistryType;
use crate::registry::PendingTransactionRegistry;
use crate::text::str_eq;
use crate::transactions::Transaction;
use crate::user::User;
use std::sync::Arc;
use vstd::prelude::*;

verus! {

/// Routes incoming messages by their action.
pub trait IActionRouter: Send + Sync {
    /// Route a message, given with the transaction that its body holds, if it
    /// holds one.
    fn route(&self, message: &Message, decoded: Option<&Transaction>) -> Result<
        ActionRouterResult,
        PneumaticError,
    >
        requires
            self.ready(),
    ;

    /// The router can be asked.
    spec fn ready(&self) -> bool;
}

/// What routing a message came to.
#[derive(Debug)]
pub enum ActionRouterResult {
    /// Transaction nonce was updated
    NonceUpdated { sender: Vec<u8>, new_nonce: usize },
    /// Gas balance was verified
    GasVerified { gas_used: u64, gas_remaining: u64 },
    /// Stake was checked for a node type
    StakeChecked { node_type: NodeRegistryType, stake: u64 },
    /// Token was dispatched
    TokenDispatched { token_id: Vec<u8> },
    /// Message was forwarded to a handler
    Forwarded { node_type: NodeRegistryType, entry_count: usize },
    /// Unknown action type
    UnknownAction(String),
}

/// The result is a failed validation for one reason.
pub open spec fn invalid_for(
    r: Result<ActionRouterResult, PneumaticError>,
    reason: ValidationFailureReason,
) -> bool {
    r matches Err(PneumaticError::Validation(reasons)) && reasons@ == seq![reason]
}

fn invalid(reason: ValidationFailureReason) -> (r: Result<ActionRouterResult, PneumaticError>)
    ensures
        invalid_for(r, reason),
{
    let reasons: Vec<ValidationFailureReason> = vec![reason];
    assert(reasons@ =~= seq![reason]);
    Err(PneumaticError::Validation(reasons))
}

/// What a nonce check of a looked-up user comes to. A nonce that no other
/// follows is never valid.
pub open spec fn nonce_result(
    user: Result<User, DataError>,
    sender: Seq<u8>,
    expected: nat,
    r: Result<ActionRouterResult, PneumaticError>,
) -> bool {
    match user {
        Err(e) => r == Err::<ActionRouterResult, PneumaticError>(PneumaticError::Data(e)),
        Ok(user) => if user.nonce != expected || expected == usize::MAX {
            invalid_for(r, ValidationFailureReason::InvalidNonce)
        } else {
            r matches Ok(ActionRouterResult::NonceUpdated { sender: s, new_nonce }) && s@ == sender
                && new_nonce == expected + 1
        },
    }
}

/// Check the nonce of a looked-up user.
pub fn nonce_outcome(user: Result<User, DataError>, sender: &[u8], expected: usize) -> (r: Result<
    ActionRouterResult,
    PneumaticError,
>)
    ensures
        nonce_result(user, sender@, expected as nat, r),
{
    match user {
        Err(e) => Err(PneumaticError::Data(e)),
        Ok(user) => if user.nonce != expected || expected == usize::MAX {
            invalid(ValidationFailureReason::InvalidNonce)
        } else {
            Ok(
                ActionRouterResult::NonceUpdated {
                    sender: copy_bytes(sender),
                    new_nonce: expected + 1,
                },
            )
        },
    }
}

/// What a gas check of a looked-up user comes to.
pub open spec fn gas_result(
    user: Result<User, DataError>,
    gas_used: u64,
    r: Result<ActionRouterResult, PneumaticError>,
) -> bool {
    match user {
        Err(e) => r == Err::<ActionRouterResult, PneumaticError>(PneumaticError::Data(e)),
        Ok(user) => if user.fuel_balance < gas_used {
            invalid_for(r, ValidationFailureReason::InsufficientGas)
        } else {
            r == Ok::<ActionRouterResult, PneumaticError>(
                ActionRouterResult::GasVerified {
                    gas_used,
                    gas_remaining: (user.fuel_balance - gas_used) as u64,
                },
            )
        },
    }
}

/// Check the gas balance of a looked-up user.
pub fn gas_outcome(user: Result<User, DataError>, gas_used: u64) -> (r: Result<
    ActionRouterResult,
    PneumaticError,
>)
    ensures
        gas_result(user, gas_used, r),
{
    match user {
        Err(e) => Err(PneumaticError::Data(e)),
        Ok(user) => if user.fuel_balance < gas_used {
            invalid(ValidationFailureReason::InsufficientGas)
        } else {
            Ok(
                ActionRouterResult::GasVerified {
                    gas_used,
                    gas_remaining: user.fuel_balance - gas_used,
                },
            )
        },
    }
}

/// What a stake check of a looked-up user comes to.
pub open spec fn stake_result(
    user: Result<User, DataError>,
    global_min: u64,
    type_min: u64,
    node_type: NodeRegistryType,
    r: Result<ActionRouterResult, PneumaticError>,
) -> bool {
    match user {
        Err(e) => r == Err::<ActionRouterResult, PneumaticError>(PneumaticError::Data(e)),
        Ok(user) => if user.stake < global_min || user.stake < type_min {
            invalid_for(r, ValidationFailureReason::InsufficientStake)
        } else {
            r == Ok::<ActionRouterResult, PneumaticError>(
                ActionRouterResult::StakeChecked { node_type, stake: user.stake },
            )
        },
    }
}

/// Check the stake of a looked-up user against both minimums.
pub fn stake_outcome(
    user: Result<User, DataError>,
    global_min: u64,
    type_min: u64,
    node_type: NodeRegistryType,
) -> (r: Result<ActionRouterResult, PneumaticError>)
    ensures
        stake_result(user, global_min, type_min, node_type, r),
{
    match user {
        Err(e) => Err(PneumaticError::Data(e)),
        Ok(user) => if user.stake < global_min || user.stake < type_min {
            invalid(ValidationFailureReason::InsufficientStake)
        } else {
            Ok(ActionRouterResult::StakeChecked { node_type, stake: user.stake })
        },
    }
}

/// The nonce of the transaction in a message: its sequence number, and 0 where
/// there is no transaction.
pub open spec fn nonce_of(decoded: Option<&Transaction>) -> nat {
    match decoded {
        Some(tx) => tx.sequence_number as nat,
        None => 0,
    }
}

/// The amount of the transaction in a message, 0 where there is none.
pub open spec fn amount_of(decoded: Option<&Transaction>) -> u64 {
    match decoded {
        Some(tx) => match tx.amount {
            Some(amount) => amount,
            None => 0,
        },
        None => 0,
    }
}

/// The provider answered `user` for a key in a partition.
pub open spec fn looked_up<D: DataProvider>(
    provider: D,
    partition: Seq<char>,
    key: Seq<u8>,
    user: Result<User, DataError>,
) -> bool {
    exists|k: &Vec<u8>, name: &str|
        k@ == key && name@ == partition && #[trigger] call_ensures(
            D::get_user,
            (&provider, k, name),
            user,
        )
}

/// Routes messages by their action. Nonce, gas and stake are checked against the
/// user that the data service holds for the sender.
pub struct ActionRouter<D: DataProvider> {
    environment: EnvironmentMetadata,
    /// Registry of in-flight transactions, shared with the other services
    pending_txs: Arc<PendingTransactionRegistry>,
    config: Arc<Config>,
    data_provider: D,
}

impl<D: DataProvider> ActionRouter<D> {
    /// The configuration is consistent.
    pub closed spec fn wf(&self) -> bool {
        self.config.wf()
    }

    /// The environment that prices actions.
    pub closed spec fn metadata(&self) -> EnvironmentMetadata {
        self.environment
    }

    /// The configuration of the node.
    pub closed spec fn configuration(&self) -> Config {
        *self.config
    }

    /// The registry of in-flight transactions.
    pub closed spec fn in_flight(&self) -> PendingTransactionRegistry {
        *self.pending_txs
    }

    /// Where users are looked up.
    pub closed spec fn provider(&self) -> D {
        self.data_provider
    }

    /// The user that the data service answers for a key.
    pub open spec fn finds(&self, key: Seq<u8>, user: Result<User, DataError>) -> bool {
        looked_up(self.provider(), self.metadata().token_partition_id@, key, user)
    }

    /// `r` is the check of the stored nonce of a sender.
    pub open spec fn nonce_checked(
        &self,
        sender: Seq<u8>,
        expected: nat,
        r: Result<ActionRouterResult, PneumaticError>,
    ) -> bool {
        exists|user: Result<User, DataError>| #[trigger]
            self.finds(sender, user) && nonce_result(user, sender, expected, r)
    }

    /// `r` is the check of the stored gas balance of a sender against the gas of an
    /// action on an amount.
    pub open spec fn gas_checked(
        &self,
        sender: Seq<u8>,
        action: Seq<char>,
        amount: u64,
        r: Result<ActionRouterResult, PneumaticError>,
    ) -> bool {
        exists|user: Result<User, DataError>| #[trigger]
            self.finds(sender, user) && gas_result(
                user,
                self.metadata().cost_model.action_gas(action, amount),
                r,
            )
    }

    /// `r` is the check of the stored stake of a sender for a role.
    pub open spec fn stake_checked(
        &self,
        sender: Seq<u8>,
        role: NodeRegistryType,
        r: Result<ActionRouterResult, PneumaticError>,
    ) -> bool {
        exists|user: Result<User, DataError>| #[trigger]
            self.finds(sender, user) && stake_result(
                user,
                self.metadata().cost_model.global_min_stake,
                self.metadata().cost_model.type_min_stake(
                    role,
                    self.configuration().min_stake(role),
                ),
                role,
                r,
            )
    }

    /// `r` is what a message is routed to, with the transaction that its body
    /// holds.
    pub open spec fn routed(
        &self,
        message: Message,
        decoded: Option<&Transaction>,
        r: Result<ActionRouterResult, PneumaticError>,
    ) -> bool {
        let sender = message.public_key@;
        let action = message.action@;
        let n = nonce_of(decoded);
        let amount = amount_of(decoded);
        if action == "Process"@ {
            exists|nonce: Result<ActionRouterResult, PneumaticError>| #[trigger]
                self.nonce_checked(sender, n, nonce) && (nonce is Err ==> r == nonce) && (nonce is Ok
                    ==> exists|gas: Result<ActionRouterResult, PneumaticError>| #[trigger]
                    self.gas_checked(sender, action, amount, gas) && (gas is Err ==> r == gas) && (
                    gas is Ok ==> r == nonce))
        } else if action == "Preload"@ {
            exists|gas: Result<ActionRouterResult, PneumaticError>| #[trigger]
                self.gas_checked(sender, action, amount, gas) && (gas is Err ==> r == gas) && (gas is Ok
                    ==> self.stake_checked(sender, NodeRegistryType::Executor, r))
        } else if action == "Sign"@ {
            self.stake_checked(sender, NodeRegistryType::Finalizer, r)
        } else if action == "Confirm"@ {
            r == Ok::<ActionRouterResult, PneumaticError>(
                ActionRouterResult::GasVerified { gas_used: 0, gas_remaining: 0 },
            )
        } else if action == "Reject"@ || action == "Clear"@ {
            r matches Ok(ActionRouterResult::NonceUpdated { sender: s, new_nonce }) && s@ == sender
                && new_nonce == 0
        } else if action == "Register"@ {
            self.stake_checked(sender, NodeRegistryType::Sentinel, r)
        } else if action == "DistributeToken"@ {
            r matches Ok(ActionRouterResult::TokenDispatched { token_id }) && token_id@ == sender
        } else {
            r == Ok::<ActionRouterResult, PneumaticError>(
                ActionRouterResult::UnknownAction(message.action),
            )
        }
    }

    /// Create a router with an empty registry of its own.
    pub fn new(environment: EnvironmentMetadata, config: Arc<Config>, data_provider: D) -> (r: Self)
        requires
            config.wf(),
        ensures
            r.wf(),
            r.metadata() == environment,
            r.in_flight().wf(),
            r.in_flight()@.transactions == Map::<
                Seq<u8>,
                crate::transactions::PendingTransaction,
            >::empty(),
            r.in_flight()@.pool == Seq::<crate::transactions::PoolEntry>::empty(),
            r.configuration() == *config,
            r.provider() == data_provider,
    {
        ActionRouter::new_with_registry(
            environment,
            Arc::new(PendingTransactionRegistry::new()),
            config,
            data_provider,
        )
    }

    /// Create a router with a given registry of in-flight transactions.
    pub fn new_with_registry(
        environment: EnvironmentMetadata,
        pending_txs: Arc<PendingTransactionRegistry>,
        config: Arc<Config>,
        data_provider: D,
    ) -> (r: Self)
        requires
            config.wf(),
        ensures
            r.wf(),
            r.metadata() == environment,
            r.in_flight() == *pending_txs,
            r.configuration() == *config,
            r.provider() == data_provider,
    {
        ActionRouter { environment, pending_txs, config, data_provider }
    }

    /// The registry of in-flight transactions.
    pub fn pending_txs(&self) -> (r: &Arc<PendingTransactionRegistry>)
        ensures
            **r == self.in_flight(),
    {
        &self.pending_txs
    }

    /// Route a message.
    pub fn handle(&self, message: &Message, decoded: Option<&Transaction>) -> (r: Result<
        ActionRouterResult,
        PneumaticError,
    >)
        requires
            self.wf(),
        ensures
            self.routed(*message, decoded, r),
    {
        self.route(message, decoded)
    }

    fn find_user(&self, sender: &[u8]) -> (r: Result<User, DataError>)
        ensures
            self.finds(sender@, r),
    {
        let key = copy_bytes(sender);
        let name = self.environment.token_partition_id.as_str();
        let r = self.data_provider.get_user(&key, name);
        assert(call_ensures(D::get_user, (&self.provider(), &key, name), r));
        r
    }

    /// Check that a sender's stored nonce is the expected one.
    pub fn check_nonce(&self, sender: &[u8], expected_nonce: usize) -> (r: Result<
        ActionRouterResult,
        PneumaticError,
    >)
        ensures
            self.nonce_checked(sender@, expected_nonce as nat, r),
    {
        let user = self.find_user(sender);
        let ghost found = user;
        let r = nonce_outcome(user, sender, expected_nonce);
        assert(self.finds(sender@, found));
        r
    }

    /// Check that a sender can pay for an action on an amount.
    pub fn verify_gas(&self, sender: &[u8], action: &str, amount: u64) -> (r: Result<
        ActionRouterResult,
        PneumaticError,
    >)
        ensures
            self.gas_checked(sender@, action@, amount, r),
    {
        let user = self.find_user(sender);
        let ghost found = user;
        let gas_used = self.environment.cost_model.compute_action_gas(action, amount);
        let r = gas_outcome(user, gas_used);
        assert(self.finds(sender@, found));
        r
    }

    /// Check a sender's stake against the minimum of the environment and that of
    /// a role, which the environment can set.
    pub fn check_stake(&self, sender: &[u8], node_type: NodeRegistryType) -> (r: Result<
        ActionRouterResult,
        PneumaticError,
    >)
        requires
            self.wf(),
        ensures
            self.stake_checked(sender@, node_type, r),
    {
        let user = self.find_user(sender);
        let ghost found = user;
        let global_min = self.environment.cost_model.global_min_stake;
        let type_min = self.environment.cost_model.get_type_min_stake(
            &node_type,
            self.config.get_min_type_stake(&node_type),
        );
        let r = stake_outcome(user, global_min, type_min, node_type);
        assert(self.finds(sender@, found));
        r
    }
}

/// A Process message advances the nonce of its sender: where the data service
/// answers with a user whose nonce is that of the transaction and whose balance
/// covers the gas of its amount, the new nonce is the next one.
pub proof fn process_advances_the_nonce<D: DataProvider>(
    router: ActionRouter<D>,
    message: Message,
    decoded: Option<&Transaction>,
    r: Result<ActionRouterResult, PneumaticError>,
)
    requires
        router.routed(message, decoded, r),
        message.action@ == "Process"@,
        nonce_of(decoded) < usize::MAX,
        forall|user: Result<User, DataError>| #[trigger]
            router.finds(message.public_key@, user) ==> (user matches Ok(found) && found.nonce
                == nonce_of(decoded) && found.fuel_balance
                >= router.metadata().cost_model.action_gas(message.action@, amount_of(decoded))),
    ensures
        r matches Ok(ActionRouterResult::NonceUpdated { sender, new_nonce }) && sender@
            == message.public_key@ && new_nonce == nonce_of(decoded) + 1,
{
}

/// An action that needs stake, that of a sentinel for Register, of a finalizer for
/// Sign and of an executor for Preload, is refused below either minimum, that of
/// the environment or that of the role, and goes through where the stake reaches
/// both. The environment's own minimum for the role comes before that of the
/// configuration. A Preload is asked for its gas before.
pub proof fn stake_decides_staked_actions<D: DataProvider>(
    router: ActionRouter<D>,
    message: Message,
    decoded: Option<&Transaction>,
    r: Result<ActionRouterResult, PneumaticError>,
    user: User,
)
    requires
        router.routed(message, decoded, r),
        message.action@ == "Register"@ || message.action@ == "Sign"@ || message.action@
            == "Preload"@,
        forall|answer: Result<User, DataError>| #[trigger]
            router.finds(message.public_key@, answer) ==> answer == Ok::<User, DataError>(user),
        message.action@ == "Preload"@ ==> user.fuel_balance
            >= router.metadata().cost_model.action_gas(message.action@, amount_of(decoded)),
    ensures
        ({
            let role = if message.action@ == "Register"@ {
                NodeRegistryType::Sentinel
            } else if message.action@ == "Sign"@ {
                NodeRegistryType::Finalizer
            } else {
                NodeRegistryType::Executor
            };
            let overrides = router.metadata().cost_model.per_type_min_stake@;
            let role_min = if overrides.contains_key(seq![role.position()]) {
                overrides[seq![role.position()]]
            } else {
                router.configuration().min_stake(role)
            };
            let global_min = router.metadata().cost_model.global_min_stake;
            if user.stake < global_min || user.stake < role_min {
                r matches Err(PneumaticError::Validation(reasons)) && reasons@
                    == seq![ValidationFailureReason::InsufficientStake]
            } else {
                r == Ok::<ActionRouterResult, PneumaticError>(
                    ActionRouterResult::StakeChecked { node_type: role, stake: user.stake },
                )
            }
        }),
{
    reveal_strlit("Register");
    reveal_strlit("Sign");
    reveal_strlit("Preload");
    reveal_strlit("Process");
    reveal_strlit("Confirm");
    reveal_strlit("Reject");
    reveal_strlit("Clear");
    assert("Register"@.len() == 8 && "Sign"@.len() == 4 && "Preload"@.len() == 7);
    assert("Process"@.len() == 7 && "Confirm"@.len() == 7 && "Reject"@.len() == 6);
    assert("Clear"@.len() == 5);
    assert("Preload"@[1] == 'r' && "Process"@[1] == 'r' && "Preload"@[2] == 'e' && "Process"@[2]
        == 'o');
}

/// A Process message is refused where the nonce of the transaction is not that
/// of the sender, and where the balance does not cover the base cost with the
/// priced amount.
pub proof fn process_asks_for_nonce_and_gas<D: DataProvider>(
    router: ActionRouter<D>,
    message: Message,
    decoded: Option<&Transaction>,
    r: Result<ActionRouterResult, PneumaticError>,
    user: User,
)
    requires
        router.routed(message, decoded, r),
        message.action@ == "Process"@,
        forall|answer: Result<User, DataError>| #[trigger]
            router.finds(message.public_key@, answer) ==> answer == Ok::<User, DataError>(user),
    ensures
        ({
            let nonce = match decoded {
                Some(tx) => tx.sequence_number,
                None => 0,
            };
            let amount = match decoded {
                Some(tx) => match tx.amount {
                    Some(amount) => amount,
                    None => 0,
                },
                None => 0,
            };
            let gas = router.metadata().cost_model.action_gas("Process"@, amount);
            if user.nonce != nonce || nonce == usize::MAX {
                r matches Err(PneumaticError::Validation(reasons)) && reasons@
                    == seq![ValidationFailureReason::InvalidNonce]
            } else if user.fuel_balance < gas {
                r matches Err(PneumaticError::Validation(reasons)) && reasons@
                    == seq![ValidationFailureReason::InsufficientGas]
            } else {
                r matches Ok(ActionRouterResult::NonceUpdated { sender, new_nonce }) && sender@
                    == message.public_key@ && new_nonce == nonce + 1
            }
        }),
{
}

/// A Preload is refused where the balance does not cover the base cost with the
/// priced amount, whatever the stake.
pub proof fn preload_asks_for_gas<D: DataProvider>(
    router: ActionRouter<D>,
    message: Message,
    decoded: Option<&Transaction>,
    r: Result<ActionRouterResult, PneumaticError>,
    user: User,
)
    requires
        router.routed(message, decoded, r),
        message.action@ == "Preload"@,
        forall|answer: Result<User, DataError>| #[trigger]
            router.finds(message.public_key@, answer) ==> answer == Ok::<User, DataError>(user),
        user.fuel_balance < router.metadata().cost_model.action_gas(
            "Preload"@,
            (match decoded {
                Some(tx) => match tx.amount {
                    Some(amount) => amount,
                    None => 0,
                },
                None => 0,
            }),
        ),
    ensures
        r matches Err(PneumaticError::Validation(reasons)) && reasons@
            == seq![ValidationFailureReason::InsufficientGas],
{
    reveal_strlit("Preload");
    reveal_strlit("Process");
    assert("Preload"@[2] == 'e' && "Process"@[2] == 'o');
}

/// A gas check takes nothing and hides nothing: what it reports as used is the
/// base cost with the priced amount, and that and the rest are the whole balance.
/// It passes exactly where the balance covers it.
pub proof fn gas_checks_account_for_the_balance<D: DataProvider>(
    router: ActionRouter<D>,
    sender: Seq<u8>,
    action: Seq<char>,
    amount: u64,
    r: Result<ActionRouterResult, PneumaticError>,
    user: User,
)
    requires
        router.gas_checked(sender, action, amount, r),
        forall|answer: Result<User, DataError>| #[trigger]
            router.finds(sender, answer) ==> answer == Ok::<User, DataError>(user),
    ensures
        r is Ok <==> user.fuel_balance >= router.metadata().cost_model.action_gas(action, amount),
        r is Ok ==> (r matches Ok(ActionRouterResult::GasVerified { gas_used, gas_remaining })
            && gas_used == router.metadata().cost_model.action_gas(action, amount) && gas_used
            + gas_remaining == user.fuel_balance),
        r matches Err(e) ==> (e matches PneumaticError::Validation(reasons) && reasons@
            == seq![ValidationFailureReason::InsufficientGas]),
{
}

/// A nonce check passes exactly on the nonce that the sender's account stands at,
/// and then moves it on by one.
pub proof fn nonce_checks_follow_the_account<D: DataProvider>(
    router: ActionRouter<D>,
    sender: Seq<u8>,
    expected: nat,
    r: Result<ActionRouterResult, PneumaticError>,
    user: User,
)
    requires
        router.nonce_checked(sender, expected, r),
        expected < usize::MAX,
        forall|answer: Result<User, DataError>| #[trigger]
            router.finds(sender, answer) ==> answer == Ok::<User, DataError>(user),
    ensures
        r is Ok <==> user.nonce == expected,
        r is Ok ==> (r matches Ok(ActionRouterResult::NonceUpdated { sender: s, new_nonce }) && s@
            == sender && new_nonce == user.nonce + 1),
        r matches Err(e) ==> (e matches PneumaticError::Validation(reasons) && reasons@
            == seq![ValidationFailureReason::InvalidNonce]),
{
}

/// A stake check passes exactly where the stake reaches the minimum of the
/// environment and that of the role, and reports the stake that was found.
pub proof fn stake_checks_ask_for_both_minimums<D: DataProvider>(
    router: ActionRouter<D>,
    sender: Seq<u8>,
    role: NodeRegistryType,
    r: Result<ActionRouterResult, PneumaticError>,
    user: User,
)
    requires
        router.stake_checked(sender, role, r),
        forall|answer: Result<User, DataError>| #[trigger]
            router.finds(sender, answer) ==> answer == Ok::<User, DataError>(user),
    ensures
        ({
            let overrides = router.metadata().cost_model.per_type_min_stake@;
            let role_min = if overrides.contains_key(seq![role.position()]) {
                overrides[seq![role.position()]]
            } else {
                router.configuration().min_stake(role)
            };
            r is Ok <==> user.stake >= router.metadata().cost_model.global_min_stake
                && user.stake >= role_min
        }),
        r is Ok ==> r == Ok::<ActionRouterResult, PneumaticError>(
            ActionRouterResult::StakeChecked { node_type: role, stake: user.stake },
        ),
        r matches Err(e) ==> (e matches PneumaticError::Validation(reasons) && reasons@
            == seq![ValidationFailureReason::InsufficientStake]),
{
}

/// A sender that the data service does not know gets no check passed.
pub proof fn unknown_senders_pass_no_check<D: DataProvider>(
    router: ActionRouter<D>,
    message: Message,
    decoded: Option<&Transaction>,
    r: Result<ActionRouterResult, PneumaticError>,
)
    requires
        router.routed(message, decoded, r),
        message.action@ == "Register"@ || message.action@ == "Sign"@ || message.action@
            == "Preload"@ || message.action@ == "Process"@,
        forall|answer: Result<User, DataError>| #[trigger]
            router.finds(message.public_key@, answer) ==> answer is Err,
    ensures
        r matches Err(PneumaticError::Data(_)),
{
    reveal_strlit("Register");
    reveal_strlit("Sign");
    reveal_strlit("Preload");
    reveal_strlit("Process");
    reveal_strlit("Confirm");
    reveal_strlit("Reject");
    reveal_strlit("Clear");
    assert("Register"@.len() == 8 && "Sign"@.len() == 4 && "Preload"@.len() == 7);
    assert("Process"@.len() == 7 && "Confirm"@.len() == 7 && "Reject"@.len() == 6);
    assert("Clear"@.len() == 5);
    assert("Preload"@[2] == 'e' && "Process"@[2] == 'o' && "Confirm"@[0] == 'C');
}

/// Senders are looked up under their own key, in the token partition of the
/// environment.
pub proof fn senders_are_looked_up_in_the_token_partition<D: DataProvider>(
    router: ActionRouter<D>,
    key: Seq<u8>,
    user: Result<User, DataError>,
)
    ensures
        router.finds(key, user) <==> exists|k: &Vec<u8>, name: &str|
            k@ == key && name@ == router.metadata().token_partition_id@ && #[trigger] call_ensures(
                D::get_user,
                (&router.provider(), k, name),
                user,
            ),
{
}

/// The other actions are answered without a look at the sender's account.
pub proof fn other_actions_are_answered_at_once<D: DataProvider>(
    router: ActionRouter<D>,
    message: Message,
    decoded: Option<&Transaction>,
    r: Result<ActionRouterResult, PneumaticError>,
)
    requires
        router.routed(message, decoded, r),
        message.action@ != "Register"@ && message.action@ != "Sign"@ && message.action@
            != "Preload"@,
        message.action@ != "Process"@,
    ensures
        message.action@ == "Confirm"@ ==> (r matches Ok(
            ActionRouterResult::GasVerified { gas_used, gas_remaining },
        ) && gas_used == 0 && gas_remaining == 0),
        message.action@ == "Reject"@ || message.action@ == "Clear"@ ==> (r matches Ok(
            ActionRouterResult::NonceUpdated { sender, new_nonce },
        ) && sender@ == message.public_key@ && new_nonce == 0),
        message.action@ == "DistributeToken"@ ==> (r matches Ok(
            ActionRouterResult::TokenDispatched { token_id },
        ) && token_id@ == message.public_key@),
        message.action@ != "Confirm"@ && message.action@ != "Reject"@ && message.action@
            != "Clear"@ && message.action@ != "DistributeToken"@ ==> (r matches Ok(
            ActionRouterResult::UnknownAction(action),
        ) && action@ == message.action@),
{
    reveal_strlit("Confirm");
    reveal_strlit("Reject");
    reveal_strlit("Clear");
    reveal_strlit("DistributeToken");
    assert("Confirm"@.len() == 7 && "Reject"@.len() == 6 && "Clear"@.len() == 5);
    assert("DistributeToken"@.len() == 15);
}

impl<D: DataProvider> IActionRouter for ActionRouter<D> {
    open spec fn ready(&self) -> bool {
        self.wf()
    }

    fn route(&self, message: &Message, decoded: Option<&Transaction>) -> (r: Result<
        ActionRouterResult,
        PneumaticError,
    >)
        ensures
            self.routed(*message, decoded, r),
    {
        let action = message.action.as_str();
        let (nonce, amount): (usize, u64) = match decoded {
            Some(tx) => (
                tx.sequence_number,
                match tx.amount {
                    Some(amount) => amount,
                    None => 0,
                },
            ),
            None => (0, 0),
        };
        assert(nonce == nonce_of(decoded) && amount == amount_of(decoded));
        if str_eq(action, "Process") {
            let checked = self.check_nonce(&message.public_key, nonce);
            assert(self.nonce_checked(message.public_key@, nonce_of(decoded), checked));
            if checked.is_err() {
                return checked;
            }
            let gas = self.verify_gas(&message.public_key, action, amount);
            assert(self.gas_checked(message.public_key@, message.action@, amount, gas));
            if gas.is_err() {
                return gas;
            }
            checked
        } else if str_eq(action, "Preload") {
            let gas = self.verify_gas(&message.public_key, action, amount);
            assert(self.gas_checked(message.public_key@, message.action@, amount, gas));
            if gas.is_err() {
                return gas;
            }
            self.check_stake(&message.public_key, NodeRegistryType::Executor)
        } else if str_eq(action, "Sign") {
            self.check_stake(&message.public_key, NodeRegistryType::Finalizer)
        } else if str_eq(action, "Confirm") {
            Ok(ActionRouterResult::GasVerified { gas_used: 0, gas_remaining: 0 })
        } else if str_eq(action, "Reject") || str_eq(action, "Clear") {
            Ok(
                ActionRouterResult::NonceUpdated {
                    sender: copy_bytes(&message.public_key),
                    new_nonce: 0,
                },
            )
        } else if str_eq(action, "Register") {
            self.check_stake(&message.public_key, NodeRegistryType::Sentinel)
        } else if str_eq(action, "DistributeToken") {
            Ok(ActionRouterResult::TokenDispatched { token_id: copy_bytes(&message.public_key) })
        } else {
            Ok(ActionRouterResult::UnknownAction(message.action.clone()))
        }
    }
}

} // verus!
