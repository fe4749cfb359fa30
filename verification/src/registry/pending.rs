//! `PendingTransactionRegistry`: in-flight transaction state, shielded
//! transfers, the ordered pool with its replay guard, and the gas and
//! admin-credit side tables.
use crate::bytes::{copy_bytes, make_pair_key, to_be_bytes};
use crate::errors::PneumaticError;
use crate::keyed_store::KeyedStore;
use crate::sorted_map::SortedMap;
use crate::text::{byte_list_string, decimal_string, wrap};
use crate::transactions::{
    PendingTransaction, PoolEntry, ShieldedTransaction, Transaction, TransactionPool, TransactionState,
    TransactionValidationResult,
};
use vstd::prelude::*;
use vstd::string::StringExecFns;

verus! {

/// Admin tax collected during token minting, kept until the admin redeems it.
#[derive(Debug)]
pub struct PendingAdminCredit {
    /// Unique credit identifier
    pub id: String,
    /// Admin public key who receives the tax
    pub admin_public_key: Vec<u8>,
    /// Tax amount owed to the admin
    pub amount: u64,
    /// Token ID that generated this credit
    pub token_id: Vec<u8>,
}

/// Two credits agree in every field.
pub open spec fn same_credit(a: PendingAdminCredit, b: PendingAdminCredit) -> bool {
    &&& a.id == b.id
    &&& a.admin_public_key@ == b.admin_public_key@
    &&& a.amount == b.amount
    &&& a.token_id@ == b.token_id@
}

/// A copy of a credit owes the same amount to the same admin.
pub proof fn copied_credits_owe_the_same(a: PendingAdminCredit, b: PendingAdminCredit)
    requires
        same_credit(a, b),
    ensures
        a.id@ == b.id@,
        a.admin_public_key@ == b.admin_public_key@,
        a.amount == b.amount,
        a.token_id@ == b.token_id@,
{
}

impl Clone for PendingAdminCredit {
    fn clone(&self) -> (r: Self)
        ensures
            same_credit(r, *self),
    {
        PendingAdminCredit {
            id: self.id.clone(),
            admin_public_key: copy_bytes(&self.admin_public_key),
            amount: self.amount,
            token_id: copy_bytes(&self.token_id),
        }
    }
}

/// What a registry holds: maps by the UTF-8 bytes of the id, the pool in order,
/// and the nonces ever admitted.
#[verifier::ext_equal]
pub struct RegistryContents {
    pub transactions: Map<Seq<u8>, PendingTransaction>,
    pub pool: Seq<PoolEntry>,
    pub admin_credits: Map<Seq<u8>, PendingAdminCredit>,
    pub gas: Map<Seq<u8>, u64>,
    pub used_nonces: Set<Seq<u8>>,
    pub shielded: Map<Seq<u8>, ShieldedTransaction>,
}

/// The key of an id.
pub open spec fn id_key(id: Seq<char>) -> Seq<u8> {
    vstd::utf8::encode_utf8(id)
}

/// The key under which a nonce is recorded: each token has its own account, so
/// all three parts count.
pub open spec fn nonce_key(token_id: Seq<u8>, sender: Seq<u8>, sequence_number: nat) -> Seq<u8> {
    crate::bytes::pair_key(
        token_id,
        crate::bytes::pair_key(sender, crate::bytes::be_bytes(sequence_number, 8)),
    )
}

/// The nonce of a pool entry.
pub open spec fn entry_nonce(entry: PoolEntry) -> Seq<u8> {
    nonce_key(entry.token_id@, entry.sender@, entry.sequence_number as nat)
}

/// Different nonces have different keys, so using one up never blocks another.
pub proof fn nonces_are_separate(
    token1: Seq<u8>,
    sender1: Seq<u8>,
    n1: nat,
    token2: Seq<u8>,
    sender2: Seq<u8>,
    n2: nat,
)
    requires
        token1.len() <= u64::MAX,
        token2.len() <= u64::MAX,
        sender1.len() <= u64::MAX,
        sender2.len() <= u64::MAX,
        n1 <= u64::MAX,
        n2 <= u64::MAX,
        nonce_key(token1, sender1, n1) == nonce_key(token2, sender2, n2),
    ensures
        token1 == token2,
        sender1 == sender2,
        n1 == n2,
{
    let inner1 = crate::bytes::pair_key(sender1, crate::bytes::be_bytes(n1, 8));
    let inner2 = crate::bytes::pair_key(sender2, crate::bytes::be_bytes(n2, 8));
    crate::bytes::lemma_pair_key_injective(token1, inner1, token2, inner2);
    crate::bytes::lemma_pair_key_injective(
        sender1,
        crate::bytes::be_bytes(n1, 8),
        sender2,
        crate::bytes::be_bytes(n2, 8),
    );
    assert(vstd::arithmetic::power::pow(256, 8) == 0x1_0000_0000_0000_0000) by {
        reveal_with_fuel(vstd::arithmetic::power::pow, 9);
    }
    crate::bytes::lemma_be_round_trip(n1, 8);
    crate::bytes::lemma_be_round_trip(n2, 8);
}

/// The pool is in order, every nonce in it was recorded as used, and no two of
/// its entries carry the same nonce.
pub open spec fn pool_consistent(pool: Seq<PoolEntry>, used: Set<Seq<u8>>) -> bool {
    &&& crate::transactions::pool_ordered(pool)
    &&& forall|i: int| 0 <= i < pool.len() ==> used.contains(entry_nonce(#[trigger] pool[i]))
    &&& forall|i: int, j: int|
        0 <= i < j < pool.len() ==> entry_nonce(#[trigger] pool[i]) != entry_nonce(
            #[trigger] pool[j],
        )
}

/// The result is a registry error with the given text.
pub open spec fn registry_error<T>(r: Result<T, PneumaticError>, text: Seq<char>) -> bool {
    r matches Err(PneumaticError::Registry(msg)) && msg@ == text
}

/// How an unknown transaction is reported.
pub open spec fn not_found_text(id: Seq<char>) -> Seq<char> {
    "Transaction "@ + id + " not found in registry"@
}

fn not_found(id: &str) -> (r: PneumaticError)
    ensures
        r matches PneumaticError::Registry(msg) && msg@ == not_found_text(id@),
{
    PneumaticError::Registry(wrap("Transaction ", id, " not found in registry"))
}

/// How a transaction outside the validated state is reported.
pub open spec fn not_validated_text(id: Seq<char>) -> Seq<char> {
    "Transaction "@ + id + " is not in Validated state"@
}

fn not_validated(id: &str) -> (r: PneumaticError)
    ensures
        r matches PneumaticError::Registry(msg) && msg@ == not_validated_text(id@),
{
    PneumaticError::Registry(wrap("Transaction ", id, " is not in Validated state"))
}

/// How a replayed nonce is reported.
pub open spec fn duplicate_nonce_text(token_id: Seq<u8>, sender: Seq<u8>, n: nat) -> Seq<char> {
    "duplicate nonce: (token_id="@ + crate::text::byte_list(token_id) + ", sender="@
        + crate::text::byte_list(sender) + ", sequence_number="@ + crate::text::decimal(n)
        + ") already admitted"@
}

/// Transactions in flight.
pub struct PendingTransactionRegistry {
    transactions: KeyedStore<PendingTransaction>,
    /// Ordered transaction pool for leader block proposal
    pool: TransactionPool,
    /// Admin tax credits collected during token minting
    admin_credits: KeyedStore<PendingAdminCredit>,
    /// Gas used per transaction
    gas_tracker: SortedMap<u64>,
    /// Every nonce ever admitted; never evicted
    used_nonces: KeyedStore<()>,
    /// Shielded transfers admitted; never evicted
    shielded_transactions: KeyedStore<ShieldedTransaction>,
}

impl View for PendingTransactionRegistry {
    type V = RegistryContents;

    closed spec fn view(&self) -> RegistryContents {
        RegistryContents {
            transactions: self.transactions@,
            pool: self.pool@,
            admin_credits: self.admin_credits@,
            gas: self.gas_tracker@,
            used_nonces: self.used_nonces@.dom(),
            shielded: self.shielded_transactions@,
        }
    }
}

impl PendingTransactionRegistry {
    /// The indexes are consistent, and the pool agrees with the nonces.
    pub closed spec fn wf(&self) -> bool {
        &&& self.transactions.wf()
        &&& self.admin_credits.wf()
        &&& self.used_nonces.wf()
        &&& self.shielded_transactions.wf()
        &&& pool_consistent(self.pool@, self.used_nonces@.dom())
    }

    /// The pool of every registry is in order, its nonces are all recorded as used,
    /// and no two of its entries carry the same one.
    pub proof fn pool_is_consistent(&self)
        requires
            self.wf(),
        ensures
            pool_consistent(self@.pool, self@.used_nonces),
    {
    }

    pub fn new() -> (r: Self)
        ensures
            r.wf(),
            r@ == (RegistryContents {
                transactions: Map::empty(),
                pool: Seq::empty(),
                admin_credits: Map::empty(),
                gas: Map::empty(),
                used_nonces: Set::empty(),
                shielded: Map::empty(),
            }),
    {
        let r = PendingTransactionRegistry {
            transactions: KeyedStore::new(),
            pool: TransactionPool::new(),
            admin_credits: KeyedStore::new(),
            gas_tracker: SortedMap::new(),
            used_nonces: KeyedStore::new(),
            shielded_transactions: KeyedStore::new(),
        };
        assert(r@.used_nonces =~= Set::empty());
        r
    }

    /// Check if a transaction exists in the registry.
    pub fn contains(&self, id: &str) -> (r: bool)
        ensures
            r == self@.transactions.contains_key(id_key(id@)),
    {
        self.transactions.contains_key(id.as_bytes())
    }

    /// Add a new pending transaction. Fails where the id was taken; the new
    /// transaction then replaces the old one.
    pub fn add_transaction(&mut self, id: String, transaction: PendingTransaction) -> (r: Result<
        (),
        PneumaticError,
    >)
        requires
            old(self).wf(),
        ensures
            final(self).wf(),
            final(self)@ == (RegistryContents {
                transactions: old(self)@.transactions.insert(id_key(id@), transaction),
                ..old(self)@
            }),
            r is Ok <==> !old(self)@.transactions.contains_key(id_key(id@)),
            r is Err ==> registry_error(
                r,
                "Transaction "@ + id@ + " already exists in registry"@,
            ),
    {
        let key = copy_bytes(id.as_str().as_bytes());
        match self.transactions.insert(key, transaction) {
            Some(_) => Err(
                PneumaticError::Registry(wrap("Transaction ", &id, " already exists in registry")),
            ),
            None => Ok(()),
        }
    }

    /// Register a new transaction in the pending state.
    pub fn register_pending(&mut self, id: String) -> (r: Result<(), PneumaticError>)
        requires
            old(self).wf(),
        ensures
            final(self).wf(),
            final(self)@ == (RegistryContents {
                transactions: old(self)@.transactions.insert(
                    id_key(id@),
                    (PendingTransaction { id, state: TransactionState::Pending, lock_count: 0 }),
                ),
                ..old(self)@
            }),
            r is Ok <==> !old(self)@.transactions.contains_key(id_key(id@)),
            r is Err ==> registry_error(
                r,
                "Transaction "@ + id@ + " already exists in registry"@,
            ),
    {
        let pending = PendingTransaction::new(id.clone(), TransactionState::Pending);
        self.add_transaction(id, pending)
    }

    /// Remove a transaction from the registry.
    pub fn remove_transaction(&mut self, id: &str) -> (r: Result<(), PneumaticError>)
        requires
            old(self).wf(),
        ensures
            final(self).wf(),
            final(self)@ == (RegistryContents {
                transactions: old(self)@.transactions.remove(id_key(id@)),
                ..old(self)@
            }),
            r is Ok <==> old(self)@.transactions.contains_key(id_key(id@)),
            r is Err ==> registry_error(r, not_found_text(id@)),
    {
        match self.transactions.remove(id.as_bytes()) {
            Some(_) => Ok(()),
            None => Err(not_found(id)),
        }
    }

    /// Admit a validated shielded transfer. A taken id is refused, and the
    /// transfer that holds it stays.
    pub fn register_shielded(&mut self, tx: &ShieldedTransaction) -> (r: Result<
        (),
        PneumaticError,
    >)
        requires
            old(self).wf(),
        ensures
            final(self).wf(),
            r is Ok <==> !old(self)@.shielded.contains_key(id_key(tx.id@)),
            r is Ok ==> final(self)@.shielded.contains_key(id_key(tx.id@))
                && crate::transactions::same_shielded(
                final(self)@.shielded[id_key(tx.id@)],
                *tx,
            ) && final(self)@ == (RegistryContents {
                shielded: old(self)@.shielded.insert(
                    id_key(tx.id@),
                    final(self)@.shielded[id_key(tx.id@)],
                ),
                ..old(self)@
            }),
            r is Err ==> final(self)@ == old(self)@ && registry_error(
                r,
                "ShieldedTransaction "@ + tx.id@ + " already exists in registry"@,
            ),
    {
        let key = copy_bytes(tx.id.as_str().as_bytes());
        let ghost before = self@;
        match self.shielded_transactions.insert(key, tx.clone()) {
            Some(previous) => {
                let _ = self.shielded_transactions.insert(
                    copy_bytes(tx.id.as_str().as_bytes()),
                    previous,
                );
                assert(self@.shielded =~= before.shielded);
                Err(
                    PneumaticError::Registry(
                        wrap("ShieldedTransaction ", &tx.id, " already exists in registry"),
                    ),
                )
            },
            None => {
                Ok(())
            },
        }
    }

    /// Is a shielded transfer admitted in the registry?
    pub fn contains_shielded(&self, id: &str) -> (r: bool)
        ensures
            r == self@.shielded.contains_key(id_key(id@)),
    {
        self.shielded_transactions.contains_key(id.as_bytes())
    }

    /// Fetch a copy of a registered shielded transfer.
    pub fn get_shielded(&self, id: &str) -> (r: Option<ShieldedTransaction>)
        requires
            self.wf(),
        ensures
            r is Some <==> self@.shielded.contains_key(id_key(id@)),
            r matches Some(tx) ==> crate::transactions::same_shielded(
                tx,
                self@.shielded[id_key(id@)],
            ),
    {
        match self.shielded_transactions.get(id.as_bytes()) {
            Some(tx) => Some(tx.clone()),
            None => None,
        }
    }

    /// Acquire a lock on a transaction for a new pipeline stage. Fails where the
    /// transaction is unknown or in a terminal state.
    pub fn acquire_transaction(&mut self, id: &str) -> (r: Result<(), PneumaticError>)
        requires
            old(self).wf(),
        ensures
            final(self).wf(),
            r is Ok <==> old(self)@.transactions.contains_key(id_key(id@))
                && !old(self)@.transactions[id_key(id@)].state.terminal(),
            r is Ok ==> final(self)@ == (RegistryContents {
                transactions: old(self)@.transactions.insert(
                    id_key(id@),
                    acquired(old(self)@.transactions[id_key(id@)]),
                ),
                ..old(self)@
            }),
            r is Err ==> final(self)@ == old(self)@,
            !old(self)@.transactions.contains_key(id_key(id@)) ==> registry_error(
                r,
                not_found_text(id@),
            ),
            r is Err && old(self)@.transactions.contains_key(id_key(id@)) ==> registry_error(
                r,
                "Transaction "@ + id@ + " in terminal state"@,
            ),
            held_once_more(old(self)@, id@, final(self)@, r),
    {
        let ghost before = self@;
        match self.transactions.get_mut(id.as_bytes()) {
            Some(entry) => match entry.acquire() {
                Ok(_) => Ok(()),
                Err(_) => {
                    assert(self@.transactions =~= before.transactions);
                    Err(PneumaticError::Registry(wrap("Transaction ", id, " in terminal state")))
                },
            },
            None => Err(not_found(id)),
        }
    }

    /// Get the validation result of a validated transaction.
    pub fn get_validation_result(&self, id: &str) -> (r: Result<
        TransactionValidationResult,
        PneumaticError,
    >)
        requires
            self.wf(),
        ensures
            match r {
                Ok(v) => self@.transactions.contains_key(id_key(id@))
                    && self@.transactions[id_key(id@)].state is Validated
                    && crate::transactions::same_validation(
                    v,
                    self@.transactions[id_key(id@)].state->validation,
                ),
                Err(_) => !(self@.transactions.contains_key(id_key(id@))
                    && self@.transactions[id_key(id@)].state is Validated),
            },
            !self@.transactions.contains_key(id_key(id@)) ==> registry_error(
                r,
                not_found_text(id@),
            ),
            r is Err && self@.transactions.contains_key(id_key(id@)) ==> registry_error(
                r,
                not_validated_text(id@),
            ),
    {
        match self.transactions.get(id.as_bytes()) {
            Some(entry) => match &entry.state {
                TransactionState::Validated { validation, .. } => Ok(validation.clone()),
                _ => Err(not_validated(id)),
            },
            None => Err(not_found(id)),
        }
    }

    /// Set the requested finalizer of a validated transaction.
    pub fn set_requested_finalizer(&mut self, id: &str, finalizer_key: Vec<u8>) -> (r: Result<
        (),
        PneumaticError,
    >)
        requires
            old(self).wf(),
        ensures
            final(self).wf(),
            r is Ok <==> old(self)@.transactions.contains_key(id_key(id@))
                && old(self)@.transactions[id_key(id@)].state is Validated,
            r is Ok ==> final(self)@ == (RegistryContents {
                transactions: old(self)@.transactions.insert(
                    id_key(id@),
                    (PendingTransaction {
                        state: TransactionState::Finalizing {
                            transaction: old(self)@.transactions[id_key(
                                id@,
                            )].state->Validated_transaction,
                            finalizer_key,
                        },
                        ..old(self)@.transactions[id_key(id@)]
                    }),
                ),
                ..old(self)@
            }),
            r is Err ==> final(self)@ == old(self)@,
            !old(self)@.transactions.contains_key(id_key(id@)) ==> registry_error(
                r,
                not_found_text(id@),
            ),
            r is Err && old(self)@.transactions.contains_key(id_key(id@)) ==> registry_error(
                r,
                "Transaction "@ + id@ + " is not validated, cannot set finalizer"@,
            ),
            finalizer_asked(old(self)@, id@, finalizer_key@, final(self)@, r),
    {
        let ghost before = self@;
        match self.transactions.get_mut(id.as_bytes()) {
            Some(entry) => {
                let mut state = TransactionState::Pending;
                std::mem::swap(&mut state, &mut entry.state);
                match state {
                    TransactionState::Validated { transaction, validation: _ } => {
                        entry.transition_to_finalizing(transaction, finalizer_key);
                        Ok(())
                    },
                    other => {
                        entry.state = other;
                        assert(self@.transactions =~= before.transactions);
                        Err(
                            PneumaticError::Registry(
                                wrap(
                                    "Transaction ",
                                    id,
                                    " is not validated, cannot set finalizer",
                                ),
                            ),
                        )
                    },
                }
            },
            None => Err(not_found(id)),
        }
    }

    /// Check if a transaction's finalizer matches the expected key.
    pub fn is_requested_finalizer(&self, id: &str, expected_key: &[u8]) -> (r: bool)
        requires
            self.wf(),
        ensures
            r == (self@.transactions.contains_key(id_key(id@)) && (self@.transactions[id_key(
                id@,
            )].state matches TransactionState::Finalizing { finalizer_key, .. } && finalizer_key@
                == expected_key@)),
            r == awaits_finalizer(self@, id@, expected_key@),
    {
        match self.transactions.get(id.as_bytes()) {
            Some(entry) => match &entry.state {
                TransactionState::Finalizing { finalizer_key, .. } => crate::bytes::bytes_eq(
                    finalizer_key,
                    expected_key,
                ),
                _ => false,
            },
            None => false,
        }
    }

    /// Release a lock on a transaction. Tells whether it should be removed.
    pub fn release_transaction(&mut self, id: &str) -> (r: Result<bool, PneumaticError>)
        requires
            old(self).wf(),
        ensures
            final(self).wf(),
            r is Ok <==> old(self)@.transactions.contains_key(id_key(id@)),
            r matches Ok(removable) ==> {
                let entry = released(old(self)@.transactions[id_key(id@)]);
                &&& removable == (entry.lock_count == 0 && entry.state.terminal())
                &&& removable == removable_after(old(self)@.transactions[id_key(id@)])
                &&& final(self)@ == (RegistryContents {
                    transactions: old(self)@.transactions.insert(id_key(id@), entry),
                    ..old(self)@
                })
            },
            r is Err ==> final(self)@ == old(self)@ && registry_error(r, not_found_text(id@)),
    {
        match self.transactions.get_mut(id.as_bytes()) {
            Some(entry) => Ok(entry.release()),
            None => Err(not_found(id)),
        }
    }

    /// Access an entry for state transitions.
    pub fn get_transaction_mut(&mut self, id: &str) -> (r: Result<
        &mut PendingTransaction,
        PneumaticError,
    >)
        requires
            old(self).wf(),
        ensures
            final(self).wf(),
            r is Ok <==> old(self)@.transactions.contains_key(id_key(id@)),
            r matches Ok(entry) ==> *entry == old(self)@.transactions[id_key(id@)] && final(self)@
                == (RegistryContents {
                transactions: old(self)@.transactions.insert(id_key(id@), *final(entry)),
                ..old(self)@
            }),
            r is Err ==> final(self)@ == old(self)@,
            !old(self)@.transactions.contains_key(id_key(id@)) ==> (
            r matches Err(PneumaticError::Registry(msg)) && msg@ == not_found_text(id@)),
    {
        match self.transactions.get_mut(id.as_bytes()) {
            Some(entry) => Ok(entry),
            None => Err(not_found(id)),
        }
    }

    /// Check if a transaction is awaiting its finalizer.
    pub fn transaction_is_awaiting_finalizer(&self, id: &str) -> (r: bool)
        requires
            self.wf(),
        ensures
            r == (self@.transactions.contains_key(id_key(id@)) && self@.transactions[id_key(
                id@,
            )].state is Validated),
    {
        match self.transactions.get(id.as_bytes()) {
            Some(entry) => entry.is_awaiting_finalizer(),
            None => false,
        }
    }
}

/// An entry held by one more stage.
pub open spec fn acquired(entry: PendingTransaction) -> PendingTransaction {
    PendingTransaction {
        lock_count: if entry.lock_count < usize::MAX {
            (entry.lock_count + 1) as usize
        } else {
            usize::MAX
        },
        ..entry
    }
}

/// An entry held by one stage less.
pub open spec fn released(entry: PendingTransaction) -> PendingTransaction {
    PendingTransaction {
        lock_count: if entry.lock_count > 0 {
            (entry.lock_count - 1) as usize
        } else {
            0
        },
        ..entry
    }
}

/// `after` and `r` are what acquiring a transaction leads to.
pub open spec fn held_once_more(
    before: RegistryContents,
    id: Seq<char>,
    after: RegistryContents,
    r: Result<(), PneumaticError>,
) -> bool {
    let key = id_key(id);
    if before.transactions.contains_key(key) && !before.transactions[key].state.terminal() {
        r is Ok && after == (RegistryContents {
            transactions: before.transactions.insert(key, acquired(before.transactions[key])),
            ..before
        })
    } else {
        r is Err && after == before
    }
}

/// A transaction in progress is acquired, and nothing changes but that it has one
/// holder more; one that was committed or failed, or is unknown, is not.
pub proof fn only_transactions_in_progress_are_acquired(
    before: RegistryContents,
    id: Seq<char>,
    after: RegistryContents,
    r: Result<(), PneumaticError>,
)
    requires
        held_once_more(before, id, after, r),
    ensures
        ({
            let key = vstd::utf8::encode_utf8(id);
            let entry = before.transactions[key];
            &&& r is Ok <==> before.transactions.contains_key(key) && !(entry.state is Committed)
                && !(entry.state is Failed)
            &&& r is Err ==> after == before
            &&& r is Ok && entry.lock_count < usize::MAX ==> after.transactions[key].lock_count
                == entry.lock_count + 1
            &&& r is Ok ==> after.transactions[key].state == entry.state
            &&& after.pool == before.pool
            &&& after.used_nonces == before.used_nonces
        }),
{
}

/// Once it is released by one stage more, a transaction can be removed.
pub open spec fn removable_after(entry: PendingTransaction) -> bool {
    released(entry).lock_count == 0 && released(entry).state.terminal()
}

/// A transaction can be removed exactly where its last holder released it and it
/// was committed or failed: one in progress stays, and one that is held stays.
pub proof fn only_finished_transactions_are_removable(entry: PendingTransaction)
    ensures
        removable_after(entry) <==> entry.lock_count <= 1 && (entry.state is Committed
            || entry.state is Failed),
{
}

/// An entry with the given contents was put at its place in the pool.
pub open spec fn admitted(
    before: Seq<PoolEntry>,
    after: Seq<PoolEntry>,
    tx_id: Seq<char>,
    token_id: Seq<u8>,
    sequence_number: usize,
    timestamp: i64,
    sender: Seq<u8>,
) -> bool {
    exists|entry: PoolEntry| #[trigger]
        crate::transactions::inserted_in_order(before, after, entry) && entry.tx_id@ == tx_id
            && entry.token_id@ == token_id && entry.sequence_number == sequence_number
            && entry.timestamp == timestamp && entry.sender@ == sender
}

proof fn lemma_admission_keeps_consistency(
    before: Seq<PoolEntry>,
    after: Seq<PoolEntry>,
    entry: PoolEntry,
    used: Set<Seq<u8>>,
)
    requires
        pool_consistent(before, used),
        crate::transactions::inserted_in_order(before, after, entry),
        !used.contains(entry_nonce(entry)),
    ensures
        pool_consistent(after, used.insert(entry_nonce(entry))),
{
    let p = choose|p: int| #[trigger]
        crate::transactions::insertion_point(before, entry, p) && after == before.insert(p, entry);
    crate::transactions::lemma_insertion_keeps_order(before, entry, p);
    let grown = used.insert(entry_nonce(entry));
    assert(forall|i: int| 0 <= i < p ==> #[trigger] after[i] == before[i]);
    assert(after[p] == entry);
    assert(forall|i: int| p < i < after.len() ==> #[trigger] after[i] == before[i - 1]);
    assert forall|i: int| 0 <= i < after.len() implies grown.contains(
        entry_nonce(#[trigger] after[i]),
    ) by {
        if i < p {
            assert(used.contains(entry_nonce(before[i])));
        } else if i > p {
            assert(used.contains(entry_nonce(before[i - 1])));
        }
    }
    assert forall|i: int, j: int| 0 <= i < j < after.len() implies entry_nonce(
        #[trigger] after[i],
    ) != entry_nonce(#[trigger] after[j]) by {
        if i == p {
            assert(used.contains(entry_nonce(before[j - 1])));
        } else if j == p {
            assert(used.contains(entry_nonce(before[i])));
        } else {
            let a = if i < p {
                i
            } else {
                i - 1
            };
            let b = if j < p {
                j
            } else {
                j - 1
            };
            assert(entry_nonce(before[a]) != entry_nonce(before[b]));
        }
    }
}

/// Every entry of `part` is one of `all`.
pub open spec fn part_of(part: Seq<PoolEntry>, all: Seq<PoolEntry>) -> bool {
    forall|i: int| 0 <= i < part.len() ==> all.contains(#[trigger] part[i])
}

proof fn lemma_part_extends(
    part: Seq<PoolEntry>,
    all: Seq<PoolEntry>,
    keep_last: bool,
    used: Set<Seq<u8>>,
)
    requires
        all.len() > 0,
        pool_consistent(all, used),
        part_of(part, all.drop_last()),
        pool_consistent(part, used),
    ensures
        ({
            let next = if keep_last {
                part.push(all.last())
            } else {
                part
            };
            part_of(next, all) && pool_consistent(next, used)
        }),
{
    let init = all.drop_last();
    let next = if keep_last {
        part.push(all.last())
    } else {
        part
    };
    assert forall|i: int| 0 <= i < next.len() implies all.contains(#[trigger] next[i]) by {
        if i < part.len() {
            assert(next[i] == part[i]);
            assert(init.contains(part[i]));
            let j = choose|j: int| 0 <= j < init.len() && #[trigger] init[j] == part[i];
            assert(all[j] == next[i]);
        } else {
            assert(all[all.len() - 1] == next[i]);
        }
    }
    if keep_last {
        let last = all.len() - 1;
        assert forall|i: int, j: int| 0 <= i < j < next.len() implies
            !crate::transactions::precedes(#[trigger] next[j], #[trigger] next[i]) && entry_nonce(
            next[i],
        ) != entry_nonce(next[j]) by {
            assert(next[i] == part[i]);
            if j < part.len() {
                assert(next[j] == part[j]);
                assert(!crate::transactions::precedes(part[j], part[i]));
            } else {
                assert(init.contains(part[i]));
                let k = choose|k: int| 0 <= k < init.len() && #[trigger] init[k] == part[i];
                assert(all[k] == part[i]);
                assert(!crate::transactions::precedes(all[last], all[k]));
                assert(entry_nonce(all[k]) != entry_nonce(all[last]));
            }
        }
        assert forall|i: int| 0 <= i < next.len() implies used.contains(
            entry_nonce(#[trigger] next[i]),
        ) by {
            if i < part.len() {
                assert(next[i] == part[i]);
            } else {
                assert(used.contains(entry_nonce(all[last])));
            }
        }
    }
}

proof fn lemma_init_consistent(all: Seq<PoolEntry>, used: Set<Seq<u8>>)
    requires
        all.len() > 0,
        pool_consistent(all, used),
    ensures
        pool_consistent(all.drop_last(), used),
{
    let init = all.drop_last();
    assert forall|i: int, j: int| 0 <= i < j < init.len() implies
        !crate::transactions::precedes(#[trigger] init[j], #[trigger] init[i]) && entry_nonce(
        init[i],
    ) != entry_nonce(init[j]) by {
        assert(init[i] == all[i] && init[j] == all[j]);
    }
    assert forall|i: int| 0 <= i < init.len() implies used.contains(
        entry_nonce(#[trigger] init[i]),
    ) by {
        assert(init[i] == all[i]);
    }
}

proof fn lemma_left_consistent(
    all: Seq<PoolEntry>,
    token_id: Seq<u8>,
    n: nat,
    used: Set<Seq<u8>>,
)
    requires
        pool_consistent(all, used),
    ensures
        part_of(crate::transactions::left_entries(all, token_id, n), all),
        pool_consistent(crate::transactions::left_entries(all, token_id, n), used),
    decreases all.len(),
{
    if all.len() > 0 {
        let init = all.drop_last();
        lemma_init_consistent(all, used);
        lemma_left_consistent(init, token_id, n, used);
        let leaves = all.last().token_id@ == token_id && crate::transactions::taken_ids(
            init,
            token_id,
            n,
        ).len() < n;
        lemma_part_extends(
            crate::transactions::left_entries(init, token_id, n),
            all,
            !leaves,
            used,
        );
    }
}

proof fn lemma_without_consistent(all: Seq<PoolEntry>, tx_id: Seq<char>, used: Set<Seq<u8>>)
    requires
        pool_consistent(all, used),
    ensures
        part_of(crate::transactions::without_id(all, tx_id), all),
        pool_consistent(crate::transactions::without_id(all, tx_id), used),
    decreases all.len(),
{
    if all.len() > 0 {
        let init = all.drop_last();
        lemma_init_consistent(all, used);
        lemma_without_consistent(init, tx_id, used);
        lemma_part_extends(
            crate::transactions::without_id(init, tx_id),
            all,
            all.last().tx_id@ != tx_id,
            used,
        );
    }
}

/// The transaction of a validated entry.
pub open spec fn validated_transaction(c: RegistryContents, id: Seq<char>) -> Option<Transaction> {
    if c.transactions.contains_key(id_key(id)) && c.transactions[id_key(id)].state is Validated {
        Some(c.transactions[id_key(id)].state->Validated_transaction)
    } else {
        None
    }
}

/// `tx` is a copy of the validated transaction of an id.
pub open spec fn fetched(c: RegistryContents, id: Seq<char>, tx: Transaction) -> bool {
    validated_transaction(c, id) matches Some(held) && crate::transactions::same_transaction(
        tx,
        held,
    )
}

/// How it is reported that an id has no validated transaction.
pub open spec fn lookup_failure_text(c: RegistryContents, id: Seq<char>) -> Seq<char> {
    if c.transactions.contains_key(id_key(id)) {
        not_validated_text(id)
    } else {
        not_found_text(id)
    }
}

/// The first of the ids that has no validated transaction is at `i`.
pub open spec fn first_unvalidated(c: RegistryContents, ids: Seq<Seq<char>>, i: int) -> bool {
    &&& 0 <= i < ids.len()
    &&& validated_transaction(c, ids[i]) is None
    &&& forall|j: int| 0 <= j < i ==> validated_transaction(c, #[trigger] ids[j]) is Some
}

impl PendingTransactionRegistry {
    /// Put a transaction into the pool. A nonce that was admitted before, for
    /// the same token and sender, is refused for good.
    pub fn enqueue_to_pool(
        &mut self,
        tx_id: &str,
        token_id: Vec<u8>,
        sequence_number: usize,
        timestamp: i64,
        sender: Vec<u8>,
    ) -> (r: Result<(), PneumaticError>)
        requires
            old(self).wf(),
        ensures
            final(self).wf(),
            r is Ok <==> !old(self)@.used_nonces.contains(
                nonce_key(token_id@, sender@, sequence_number as nat),
            ),
            final(self)@.used_nonces == old(self)@.used_nonces.insert(
                nonce_key(token_id@, sender@, sequence_number as nat),
            ),
            r is Ok ==> admitted(
                old(self)@.pool,
                final(self)@.pool,
                tx_id@,
                token_id@,
                sequence_number,
                timestamp,
                sender@,
            ),
            r is Err ==> final(self)@.pool == old(self)@.pool && registry_error(
                r,
                duplicate_nonce_text(token_id@, sender@, sequence_number as nat),
            ),
            final(self)@ == (RegistryContents {
                pool: final(self)@.pool,
                used_nonces: final(self)@.used_nonces,
                ..old(self)@
            }),
            enqueued(
                old(self)@,
                tx_id@,
                token_id@,
                sequence_number,
                timestamp,
                sender@,
                final(self)@,
                r,
            ),
    {
        let key = make_pair_key(
            &token_id,
            &make_pair_key(&sender, &to_be_bytes(sequence_number as u64, 8)),
        );
        let ghost nonce = nonce_key(token_id@, sender@, sequence_number as nat);
        let ghost before = self@;
        assert(key@ == nonce);
        let previous = self.used_nonces.insert(key, ());
        assert(self.used_nonces@.dom() =~= before.used_nonces.insert(nonce));
        match previous {
            Some(_) => {
                let mut msg = wrap(
                    "duplicate nonce: (token_id=",
                    &byte_list_string(&token_id),
                    ", sender=",
                );
                msg.append(&byte_list_string(&sender));
                msg.append(", sequence_number=");
                msg.append(&decimal_string(sequence_number as u64));
                msg.append(") already admitted");
                assert(before.used_nonces.insert(nonce) =~= before.used_nonces);
                Err(PneumaticError::Registry(msg))
            },
            None => {
                let tx_id = tx_id.to_owned();
                let ghost entry = PoolEntry {
                    tx_id,
                    token_id,
                    sequence_number,
                    timestamp,
                    sender,
                };
                self.pool.enqueue(tx_id, token_id, sequence_number, timestamp, sender);
                proof {
                    assert(entry_nonce(entry) == nonce);
                    lemma_admission_keeps_consistency(
                        before.pool,
                        self.pool@,
                        entry,
                        before.used_nonces,
                    );
                }
                Ok(())
            },
        }
    }

    /// Dequeue the first `n` transaction ids of a token.
    pub fn dequeue_for_leader(&mut self, token_id: &[u8], n: usize) -> (r: Vec<String>)
        requires
            old(self).wf(),
        ensures
            final(self).wf(),
            crate::transactions::string_views(r@) == crate::transactions::taken_ids(
                old(self)@.pool,
                token_id@,
                n as nat,
            ),
            final(self)@ == (RegistryContents {
                pool: crate::transactions::left_entries(old(self)@.pool, token_id@, n as nat),
                ..old(self)@
            }),
    {
        proof {
            lemma_left_consistent(self.pool@, token_id@, n as nat, self.used_nonces@.dom());
        }
        self.pool.dequeue_for_leader(token_id, n)
    }

    /// Remove a transaction from the pool (on commit or failure).
    pub fn remove_from_pool(&mut self, tx_id: &str)
        requires
            old(self).wf(),
        ensures
            final(self).wf(),
            final(self)@ == (RegistryContents {
                pool: crate::transactions::without_id(old(self)@.pool, tx_id@),
                ..old(self)@
            }),
    {
        proof {
            lemma_without_consistent(self.pool@, tx_id@, self.used_nonces@.dom());
        }
        self.pool.remove(tx_id);
    }

    /// Get a copy of a validated transaction.
    pub fn get_transaction(&self, id: &str) -> (r: Result<Transaction, PneumaticError>)
        requires
            self.wf(),
        ensures
            match validated_transaction(self@, id@) {
                Some(_) => r matches Ok(copy) && fetched(self@, id@, copy),
                None => registry_error(r, lookup_failure_text(self@, id@)),
            },
    {
        match self.transactions.get(id.as_bytes()) {
            Some(entry) => match &entry.state {
                TransactionState::Validated { transaction, .. } => Ok(transaction.clone()),
                _ => Err(not_validated(id)),
            },
            None => Err(not_found(id)),
        }
    }

    /// Dequeue up to `limit` transactions of a token and fetch each. Fails at
    /// the first that is no longer validated; what was dequeued stays dequeued.
    pub fn get_ordered_transactions(&mut self, token_id: &[u8], limit: usize) -> (r: Result<
        Vec<Transaction>,
        PneumaticError,
    >)
        requires
            old(self).wf(),
        ensures
            final(self).wf(),
            final(self)@ == (RegistryContents {
                pool: crate::transactions::left_entries(old(self)@.pool, token_id@, limit as nat),
                ..old(self)@
            }),
            ({
                let ids = crate::transactions::taken_ids(old(self)@.pool, token_id@, limit as nat);
                match r {
                    Ok(txs) => txs@.len() == ids.len() && forall|i: int|
                        0 <= i < ids.len() ==> fetched(old(self)@, ids[i], #[trigger] txs@[i]),
                    Err(_) => exists|i: int| #[trigger]
                        first_unvalidated(old(self)@, ids, i) && registry_error(
                            r,
                            lookup_failure_text(old(self)@, ids[i]),
                        ),
                }
            }),
    {
        let ids = self.dequeue_for_leader(token_id, limit);
        let ghost views = crate::transactions::string_views(ids@);
        let mut txs: Vec<Transaction> = Vec::with_capacity(ids.len());
        let mut i: usize = 0;
        while i < ids.len()
            invariant
                i <= ids@.len(),
                self.wf(),
                views == crate::transactions::string_views(ids@),
                txs@.len() == i,
                self@.transactions == old(self)@.transactions,
                forall|j: int|
                    0 <= j < i ==> fetched(old(self)@, views[j], #[trigger] txs@[j]),
                self@ == (RegistryContents {
                    pool: crate::transactions::left_entries(
                        old(self)@.pool,
                        token_id@,
                        limit as nat,
                    ),
                    ..old(self)@
                }),
                views == crate::transactions::taken_ids(
                    old(self)@.pool,
                    token_id@,
                    limit as nat,
                ),
            decreases ids@.len() - i,
        {
            assert(views[i as int] == ids@[i as int]@);
            match self.get_transaction(ids[i].as_str()) {
                Ok(tx) => {
                    txs.push(tx);
                },
                Err(e) => {
                    proof {
                        assert forall|j: int| 0 <= j < i implies validated_transaction(
                            old(self)@,
                            #[trigger] views[j],
                        ) is Some by {
                            assert(fetched(old(self)@, views[j], txs@[j]));
                        }
                        assert(first_unvalidated(old(self)@, views, i as int));
                    }
                    return Err(e);
                },
            }
            i += 1;
        }
        Ok(txs)
    }

    /// Record the gas used for a transaction.
    pub fn record_gas_used(&mut self, tx_id: &str, gas_used: u64)
        requires
            old(self).wf(),
        ensures
            final(self).wf(),
            final(self)@ == (RegistryContents {
                gas: old(self)@.gas.insert(id_key(tx_id@), gas_used),
                ..old(self)@
            }),
    {
        self.gas_tracker.insert(copy_bytes(tx_id.as_bytes()), gas_used);
    }

    /// Retrieve the gas used for a transaction.
    pub fn get_gas_used(&self, tx_id: &str) -> (r: Option<u64>)
        ensures
            r == (if self@.gas.contains_key(id_key(tx_id@)) {
                Some(self@.gas[id_key(tx_id@)])
            } else {
                None
            }),
    {
        match self.gas_tracker.get(tx_id.as_bytes()) {
            Some(gas) => Some(*gas),
            None => None,
        }
    }

    /// Record an admin tax credit collected during token minting. Returns its id
    /// for later redemption.
    pub fn record_admin_credit(&mut self, credit: PendingAdminCredit) -> (r: String)
        requires
            old(self).wf(),
        ensures
            final(self).wf(),
            r@ == credit.id@,
            final(self)@ == (RegistryContents {
                admin_credits: old(self)@.admin_credits.insert(id_key(credit.id@), credit),
                ..old(self)@
            }),
    {
        let key = copy_bytes(credit.id.as_str().as_bytes());
        let id = credit.id.clone();
        let _ = self.admin_credits.insert(key, credit);
        id
    }

    /// Retrieve a copy of a pending admin credit.
    pub fn get_admin_credit(&self, credit_id: &str) -> (r: Option<PendingAdminCredit>)
        requires
            self.wf(),
        ensures
            r is Some <==> self@.admin_credits.contains_key(id_key(credit_id@)),
            r matches Some(credit) ==> same_credit(
                credit,
                self@.admin_credits[id_key(credit_id@)],
            ),
    {
        match self.admin_credits.get(credit_id.as_bytes()) {
            Some(credit) => Some(credit.clone()),
            None => None,
        }
    }

    /// Take a pending admin credit out, for redemption.
    pub fn take_admin_credit(&mut self, credit_id: &str) -> (r: Option<PendingAdminCredit>)
        requires
            old(self).wf(),
        ensures
            final(self).wf(),
            r == (if old(self)@.admin_credits.contains_key(id_key(credit_id@)) {
                Some(old(self)@.admin_credits[id_key(credit_id@)])
            } else {
                None
            }),
            final(self)@ == (RegistryContents {
                admin_credits: old(self)@.admin_credits.remove(id_key(credit_id@)),
                ..old(self)@
            }),
            credit_taken(old(self)@, credit_id@, final(self)@, r),
    {
        self.admin_credits.remove(credit_id.as_bytes())
    }

    /// Move a transaction to the validated state and put it into the pool under
    /// its own token, sequence number, time and sender, as one operation: where
    /// the nonce was admitted before, it is refused and nothing changes.
    pub fn transition_to_validated_and_enqueue(
        &mut self,
        tx_id: &str,
        transaction: Transaction,
        validation: TransactionValidationResult,
    ) -> (r: Result<(), PneumaticError>)
        requires
            old(self).wf(),
        ensures
            final(self).wf(),
            !old(self)@.transactions.contains_key(id_key(tx_id@)) ==> final(self)@ == old(self)@
                && registry_error(r, "Transaction "@ + tx_id@ + " not found"@),
            old(self)@.transactions.contains_key(id_key(tx_id@)) ==> {
                let nonce = nonce_key(
                    transaction.token_id@,
                    transaction.sender@,
                    transaction.sequence_number as nat,
                );
                &&& r is Ok <==> !old(self)@.used_nonces.contains(nonce)
                &&& r is Ok ==> admitted(
                    old(self)@.pool,
                    final(self)@.pool,
                    tx_id@,
                    transaction.token_id@,
                    transaction.sequence_number,
                    transaction.timestamp,
                    transaction.sender@,
                )
                &&& r is Err ==> final(self)@ == old(self)@ && registry_error(
                    r,
                    duplicate_nonce_text(
                        transaction.token_id@,
                        transaction.sender@,
                        transaction.sequence_number as nat,
                    ),
                )
                &&& r is Ok ==> final(self)@ == (RegistryContents {
                    transactions: old(self)@.transactions.insert(
                        id_key(tx_id@),
                        (PendingTransaction {
                            state: TransactionState::Validated { transaction, validation },
                            ..old(self)@.transactions[id_key(tx_id@)]
                        }),
                    ),
                    pool: final(self)@.pool,
                    used_nonces: old(self)@.used_nonces.insert(nonce),
                    ..old(self)@
                })
            },
            validated_and_enqueued(old(self)@, tx_id@, transaction, validation, final(self)@, r),
    {
        if !self.contains(tx_id) {
            return Err(PneumaticError::Registry(wrap("Transaction ", tx_id, " not found")));
        }
        let token_id = copy_bytes(&transaction.token_id);
        let sender = copy_bytes(&transaction.sender);
        let enqueued = self.enqueue_to_pool(
            tx_id,
            token_id,
            transaction.sequence_number,
            transaction.timestamp,
            sender,
        );
        if enqueued.is_err() {
            assert(self@.used_nonces =~= old(self)@.used_nonces);
            return enqueued;
        }
        match self.transactions.get_mut(tx_id.as_bytes()) {
            Some(entry) => {
                entry.transition_to_validated(transaction, validation);
            },
            None => {},
        }
        Ok(())
    }
}

impl Default for PendingTransactionRegistry {
    fn default() -> (r: Self)
        ensures
            r.wf(),
            r@ == (RegistryContents {
                transactions: Map::empty(),
                pool: Seq::empty(),
                admin_credits: Map::empty(),
                gas: Map::empty(),
                used_nonces: Set::empty(),
                shielded: Map::empty(),
            }),
    {
        PendingTransactionRegistry::new()
    }
}

/// `after` and `r` are what validating and enqueueing a transaction leads to.
pub open spec fn validated_and_enqueued(
    before: RegistryContents,
    tx_id: Seq<char>,
    transaction: Transaction,
    validation: TransactionValidationResult,
    after: RegistryContents,
    r: Result<(), PneumaticError>,
) -> bool {
    let key = id_key(tx_id);
    let nonce = nonce_key(
        transaction.token_id@,
        transaction.sender@,
        transaction.sequence_number as nat,
    );
    &&& r is Ok <==> before.transactions.contains_key(key) && !before.used_nonces.contains(nonce)
    &&& r is Err ==> after == before
    &&& r is Ok ==> {
        &&& admitted(
            before.pool,
            after.pool,
            tx_id,
            transaction.token_id@,
            transaction.sequence_number,
            transaction.timestamp,
            transaction.sender@,
        )
        &&& after == (RegistryContents {
            transactions: before.transactions.insert(
                key,
                (PendingTransaction {
                    state: TransactionState::Validated { transaction, validation },
                    ..before.transactions[key]
                }),
            ),
            pool: after.pool,
            used_nonces: before.used_nonces.insert(nonce),
            ..before
        })
    }
}

/// A transaction that was validated and enqueued can be fetched as it was
/// validated, stands in the pool under its own token, sequence number, time and
/// sender, and keeps its holders; everything else stays. A refusal changes nothing.
pub proof fn validated_transactions_are_pooled_and_fetched(
    before: RegistryContents,
    tx_id: Seq<char>,
    transaction: Transaction,
    validation: TransactionValidationResult,
    after: RegistryContents,
    r: Result<(), PneumaticError>,
    other: Seq<char>,
)
    requires
        validated_and_enqueued(before, tx_id, transaction, validation, after, r),
        other != tx_id,
    ensures
        r is Err ==> after == before,
        !before.transactions.contains_key(vstd::utf8::encode_utf8(tx_id)) ==> r is Err,
        r is Ok ==> {
            let key = vstd::utf8::encode_utf8(tx_id);
            let entry = after.transactions[key];
            &&& after.transactions.contains_key(key)
            &&& fetched(after, tx_id, transaction)
            &&& entry.state matches TransactionState::Validated { validation: v, .. }
            &&& v == validation
            &&& entry.lock_count == before.transactions[key].lock_count
            &&& entry.id == before.transactions[key].id
            &&& exists|i: int|
                0 <= i < after.pool.len() && (#[trigger] after.pool[i]).tx_id@ == tx_id
                    && after.pool[i].token_id@ == transaction.token_id@
                    && after.pool[i].sequence_number == transaction.sequence_number
                    && after.pool[i].timestamp == transaction.timestamp && after.pool[i].sender@
                    == transaction.sender@
            &&& after.pool.len() == before.pool.len() + 1
            &&& after.admin_credits == before.admin_credits
            &&& after.gas == before.gas
            &&& after.shielded == before.shielded
        },
        after.transactions.contains_key(vstd::utf8::encode_utf8(other))
            == before.transactions.contains_key(vstd::utf8::encode_utf8(other)),
        before.transactions.contains_key(vstd::utf8::encode_utf8(other))
            ==> after.transactions[vstd::utf8::encode_utf8(other)]
            == before.transactions[vstd::utf8::encode_utf8(other)],
{
    ids_are_separate(tx_id, other);
    if r is Ok {
        admitted_transactions_are_in_the_pool(
            before.pool,
            after.pool,
            tx_id,
            transaction.token_id@,
            transaction.sequence_number,
            transaction.timestamp,
            transaction.sender@,
        );
    }
}

/// `after` and `r` are what asking a finalizer to finalize a transaction leads to.
pub open spec fn finalizer_asked(
    before: RegistryContents,
    id: Seq<char>,
    finalizer_key: Seq<u8>,
    after: RegistryContents,
    r: Result<(), PneumaticError>,
) -> bool {
    let key = id_key(id);
    &&& r is Ok <==> validated_transaction(before, id) is Some
    &&& r is Err ==> after == before
    &&& r is Ok ==> {
        &&& after == (RegistryContents { transactions: after.transactions, ..before })
        &&& after.transactions == before.transactions.insert(key, after.transactions[key])
        &&& after.transactions[key] == (PendingTransaction {
            state: after.transactions[key].state,
            ..before.transactions[key]
        })
        &&& after.transactions[key].state matches TransactionState::Finalizing {
            transaction,
            finalizer_key: asked,
        }
        &&& Some(transaction) == validated_transaction(before, id)
        &&& asked@ == finalizer_key
    }
}

/// Whether a key is the finalizer that a transaction waits for.
pub open spec fn awaits_finalizer(c: RegistryContents, id: Seq<char>, key: Seq<u8>) -> bool {
    c.transactions.contains_key(id_key(id)) && (
    c.transactions[id_key(id)].state matches TransactionState::Finalizing { finalizer_key, .. }
        && finalizer_key@ == key)
}

/// A finalizer is asked only for a validated transaction. It alone is the one that
/// the transaction waits for afterwards; the transaction is the one that was
/// validated, and it can no longer be fetched as merely validated.
pub proof fn only_the_asked_finalizer_is_awaited(
    before: RegistryContents,
    id: Seq<char>,
    finalizer_key: Seq<u8>,
    after: RegistryContents,
    r: Result<(), PneumaticError>,
    other: Seq<u8>,
)
    requires
        finalizer_asked(before, id, finalizer_key, after, r),
    ensures
        r is Ok <==> before.transactions.contains_key(vstd::utf8::encode_utf8(id))
            && before.transactions[vstd::utf8::encode_utf8(id)].state is Validated,
        r is Ok ==> (awaits_finalizer(after, id, other) <==> other == finalizer_key),
        r is Ok ==> validated_transaction(after, id) is None,
        r is Ok ==> after.pool == before.pool && after.used_nonces == before.used_nonces,
        r is Err ==> after == before,
{
}

/// `after` and `r` are what taking a credit leads to.
pub open spec fn credit_taken(
    before: RegistryContents,
    id: Seq<char>,
    after: RegistryContents,
    r: Option<PendingAdminCredit>,
) -> bool {
    &&& r == (if before.admin_credits.contains_key(id_key(id)) {
        Some(before.admin_credits[id_key(id)])
    } else {
        None
    })
    &&& after == (RegistryContents {
        admin_credits: before.admin_credits.remove(id_key(id)),
        ..before
    })
}

/// A credit is paid once: taking it again finds nothing, and no other credit is
/// touched.
pub proof fn credits_are_paid_once(
    before: RegistryContents,
    id: Seq<char>,
    between: RegistryContents,
    first: Option<PendingAdminCredit>,
    after: RegistryContents,
    second: Option<PendingAdminCredit>,
    other: Seq<char>,
)
    requires
        credit_taken(before, id, between, first),
        credit_taken(between, id, after, second),
        other != id,
    ensures
        first is Some <==> before.admin_credits.contains_key(vstd::utf8::encode_utf8(id)),
        first matches Some(credit) ==> credit == before.admin_credits[vstd::utf8::encode_utf8(id)],
        second is None,
        after.admin_credits.contains_key(vstd::utf8::encode_utf8(other))
            == before.admin_credits.contains_key(vstd::utf8::encode_utf8(other)),
        before.admin_credits.contains_key(vstd::utf8::encode_utf8(other))
            ==> after.admin_credits[vstd::utf8::encode_utf8(other)]
            == before.admin_credits[vstd::utf8::encode_utf8(other)],
{
    ids_are_separate(id, other);
}

/// A nonce is validated once: whatever transaction of the same sender and token
/// comes with it again is refused, under whatever id.
pub proof fn nonces_are_validated_once(
    before: RegistryContents,
    first_id: Seq<char>,
    first: Transaction,
    first_validation: TransactionValidationResult,
    between: RegistryContents,
    first_r: Result<(), PneumaticError>,
    second_id: Seq<char>,
    second: Transaction,
    second_validation: TransactionValidationResult,
    after: RegistryContents,
    second_r: Result<(), PneumaticError>,
)
    requires
        validated_and_enqueued(before, first_id, first, first_validation, between, first_r),
        validated_and_enqueued(between, second_id, second, second_validation, after, second_r),
        first_r is Ok,
        first.token_id@ == second.token_id@,
        first.sender@ == second.sender@,
        first.sequence_number == second.sequence_number,
    ensures
        second_r is Err,
        after == between,
{
}

/// Different ids are filed under different keys.
pub proof fn ids_are_separate(a: Seq<char>, b: Seq<char>)
    ensures
        id_key(a) == id_key(b) <==> a == b,
{
    crate::text::lemma_utf8_injective(a, b);
}

/// Releasing a transaction undoes one acquisition, and neither touches anything
/// but the count of its holders.
pub proof fn release_undoes_acquire(entry: PendingTransaction)
    requires
        entry.lock_count < usize::MAX,
    ensures
        released(acquired(entry)) == entry,
        acquired(entry).lock_count == entry.lock_count + 1,
        acquired(entry).state == entry.state && acquired(entry).id == entry.id,
        released(entry).lock_count <= entry.lock_count,
        released(entry).lock_count == 0 <==> entry.lock_count <= 1,
        released(entry).state == entry.state && released(entry).id == entry.id,
{
}

/// `after` and `r` are what putting a transaction into the pool leads to.
pub open spec fn enqueued(
    before: RegistryContents,
    tx_id: Seq<char>,
    token_id: Seq<u8>,
    sequence_number: usize,
    timestamp: i64,
    sender: Seq<u8>,
    after: RegistryContents,
    r: Result<(), PneumaticError>,
) -> bool {
    let nonce = nonce_key(token_id, sender, sequence_number as nat);
    &&& r is Ok <==> !before.used_nonces.contains(nonce)
    &&& after.used_nonces == before.used_nonces.insert(nonce)
    &&& r is Ok ==> admitted(
        before.pool,
        after.pool,
        tx_id,
        token_id,
        sequence_number,
        timestamp,
        sender,
    )
    &&& r is Err ==> after.pool == before.pool
    &&& after.transactions == before.transactions
    &&& after.admin_credits == before.admin_credits
    &&& after.gas == before.gas
    &&& after.shielded == before.shielded
}

/// A nonce is admitted once: whatever comes later for the same token and sender
/// with the same sequence number is refused, under whatever id and time, and
/// leaves the pool alone.
pub proof fn nonces_are_admitted_once(
    before: RegistryContents,
    tx_id1: Seq<char>,
    token_id: Seq<u8>,
    sequence_number: usize,
    timestamp1: i64,
    sender: Seq<u8>,
    between: RegistryContents,
    r1: Result<(), PneumaticError>,
    tx_id2: Seq<char>,
    timestamp2: i64,
    after: RegistryContents,
    r2: Result<(), PneumaticError>,
)
    requires
        enqueued(
            before,
            tx_id1,
            token_id,
            sequence_number,
            timestamp1,
            sender,
            between,
            r1,
        ),
        enqueued(between, tx_id2, token_id, sequence_number, timestamp2, sender, after, r2),
    ensures
        r2 is Err,
        after.pool == between.pool,
        after.used_nonces == between.used_nonces,
        before.used_nonces.subset_of(after.used_nonces),
{
    assert(after.used_nonces =~= between.used_nonces);
}

/// Using up one nonce blocks no other: a transaction of another token, another
/// sender or with another sequence number is admitted after it as before.
pub proof fn other_nonces_stay_free(
    before: RegistryContents,
    tx_id1: Seq<char>,
    token1: Seq<u8>,
    n1: usize,
    timestamp1: i64,
    sender1: Seq<u8>,
    between: RegistryContents,
    r1: Result<(), PneumaticError>,
    tx_id2: Seq<char>,
    token2: Seq<u8>,
    n2: usize,
    timestamp2: i64,
    sender2: Seq<u8>,
    after: RegistryContents,
    r2: Result<(), PneumaticError>,
)
    requires
        before.used_nonces == Set::<Seq<u8>>::empty(),
        enqueued(before, tx_id1, token1, n1, timestamp1, sender1, between, r1),
        enqueued(between, tx_id2, token2, n2, timestamp2, sender2, after, r2),
        token1 != token2 || sender1 != sender2 || n1 != n2,
        token1.len() <= u64::MAX,
        token2.len() <= u64::MAX,
        sender1.len() <= u64::MAX,
        sender2.len() <= u64::MAX,
    ensures
        r1 is Ok,
        r2 is Ok,
        after.pool.len() == before.pool.len() + 2,
{
    if nonce_key(token1, sender1, n1 as nat) == nonce_key(token2, sender2, n2 as nat) {
        nonces_are_separate(token1, sender1, n1 as nat, token2, sender2, n2 as nat);
    }
    lemma_admitted_one(before.pool, between.pool, tx_id1, token1, n1, timestamp1, sender1);
    lemma_admitted_one(between.pool, after.pool, tx_id2, token2, n2, timestamp2, sender2);
}

proof fn lemma_admitted_one(
    before: Seq<PoolEntry>,
    after: Seq<PoolEntry>,
    tx_id: Seq<char>,
    token_id: Seq<u8>,
    sequence_number: usize,
    timestamp: i64,
    sender: Seq<u8>,
)
    requires
        admitted(before, after, tx_id, token_id, sequence_number, timestamp, sender),
    ensures
        after.len() == before.len() + 1,
{
    let entry = choose|entry: PoolEntry| #[trigger]
        crate::transactions::inserted_in_order(before, after, entry) && entry.tx_id@ == tx_id
            && entry.token_id@ == token_id && entry.sequence_number == sequence_number
            && entry.timestamp == timestamp && entry.sender@ == sender;
    crate::transactions::insertion_adds_one_entry(before, after, entry);
}

/// An admitted transaction stands in the pool under its own id, token, number,
/// time and sender.
pub proof fn admitted_transactions_are_in_the_pool(
    before: Seq<PoolEntry>,
    after: Seq<PoolEntry>,
    tx_id: Seq<char>,
    token_id: Seq<u8>,
    sequence_number: usize,
    timestamp: i64,
    sender: Seq<u8>,
)
    requires
        admitted(before, after, tx_id, token_id, sequence_number, timestamp, sender),
    ensures
        exists|i: int|
            0 <= i < after.len() && (#[trigger] after[i]).tx_id@ == tx_id && after[i].token_id@
                == token_id && after[i].sequence_number == sequence_number && after[i].timestamp
                == timestamp && after[i].sender@ == sender,
{
    let entry = choose|entry: PoolEntry| #[trigger]
        crate::transactions::inserted_in_order(before, after, entry) && entry.tx_id@ == tx_id
            && entry.token_id@ == token_id && entry.sequence_number == sequence_number
            && entry.timestamp == timestamp && entry.sender@ == sender;
    crate::transactions::insertion_adds_one_entry(before, after, entry);
    let i = choose|i: int| 0 <= i < after.len() && after[i] == entry;
    assert(after[i].tx_id@ == tx_id);
}

/// Only validated transactions are handed out, and what is handed out is the
/// transaction that was validated, in every field.
pub proof fn only_validated_transactions_are_fetched(
    c: RegistryContents,
    id: Seq<char>,
    tx: Transaction,
)
    requires
        fetched(c, id, tx),
    ensures
        c.transactions.contains_key(vstd::utf8::encode_utf8(id)),
        c.transactions[vstd::utf8::encode_utf8(id)].state is Validated,
        ({
            let held = c.transactions[vstd::utf8::encode_utf8(id)].state->Validated_transaction;
            &&& tx.receiver@ == held.receiver@
            &&& tx.amount == held.amount
            &&& tx.sender@ == held.sender@
            &&& tx.token_id@ == held.token_id@
            &&& tx.sequence_number == held.sequence_number
            &&& tx.id == held.id
        }),
{
}

} // verus!
