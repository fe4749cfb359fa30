//! `BlockProposer`: the epoch leader takes a batch out of the pending pool.
use crate::bytes::copy_bytes;
use crate::errors::PneumaticError;
use crate::registry::PendingTransactionRegistry;
use crate::sorted_map::SortedMap;
use crate::transactions::{SignedTransaction, Transaction, TransactionSignature};
use vstd::prelude::*;

verus! {

/// The leader node that proposes blocks.
#[derive(Debug)]
pub struct BlockProposer {
    /// Leader's public key
    pub leader_address: Vec<u8>,
    /// Leader's stake amount
    pub leader_stake: u64,
    /// Leader's genesis block hash
    pub leader_hash: Vec<u8>,
}

impl Clone for BlockProposer {
    fn clone(&self) -> (r: Self)
        ensures
            r.leader_address@ == self.leader_address@,
            r.leader_stake == self.leader_stake,
            r.leader_hash@ == self.leader_hash@,
    {
        BlockProposer {
            leader_address: copy_bytes(&self.leader_address),
            leader_stake: self.leader_stake,
            leader_hash: copy_bytes(&self.leader_hash),
        }
    }
}

/// `signed` is `tx` wrapped by its proposer: the leader's own identity is filled
/// in, stake totals, finalizer and executor signatures are still open.
pub open spec fn proposed_by(
    proposer: BlockProposer,
    tx: Transaction,
    signed: SignedTransaction,
) -> bool {
    &&& signed.transaction_id == tx.id
    &&& crate::transactions::same_transaction(signed.transaction, tx)
    &&& signed.shielded is None
    &&& signed.total_stake == 0
    &&& signed.total_voters == 0
    &&& signed.leader_address@ == proposer.leader_address@
    &&& signed.leader_stake == proposer.leader_stake
    &&& signed.leader_hash@ == proposer.leader_hash@
    &&& signed.finalizer_addr@.len() == 0
    &&& signed.finalizer_sig.transaction_id@.len() == 0
    &&& signed.finalizer_sig.env_id@.len() == 0
    &&& signed.finalizer_sig.transaction_hash@.len() == 0
    &&& signed.finalizer_sig.signature@.len() == 0
    &&& signed.finalizer_sig.current_stake == 0
    &&& signed.executor_sigs@ == Map::<Seq<u8>, TransactionSignature>::empty()
    &&& signed.proposer_key@ == proposer.leader_address@
}

impl BlockProposer {
    pub fn new(leader_address: Vec<u8>, leader_stake: u64, leader_hash: Vec<u8>) -> (r: Self)
        ensures
            r.leader_address == leader_address,
            r.leader_stake == leader_stake,
            r.leader_hash == leader_hash,
    {
        BlockProposer { leader_address, leader_stake, leader_hash }
    }

    /// Wrap a transaction with this leader's identity.
    pub fn wrap(&self, tx: &Transaction) -> (r: SignedTransaction)
        ensures
            proposed_by(*self, *tx, r),
    {
        SignedTransaction {
            transaction_id: tx.id.clone(),
            transaction: tx.clone(),
            shielded: None,
            total_stake: 0,
            total_voters: 0,
            leader_address: copy_bytes(&self.leader_address),
            leader_stake: self.leader_stake,
            leader_hash: copy_bytes(&self.leader_hash),
            finalizer_addr: Vec::new(),
            finalizer_sig: TransactionSignature::blank(),
            executor_sigs: SortedMap::new(),
            proposer_key: copy_bytes(&self.leader_address),
        }
    }
}

/// Proposes batches of transactions.
pub trait IBlockProposer: Send + Sync {
    /// Propose a batch of up to `limit` validated transactions of a token: each
    /// transaction with its wrapped form.
    fn propose_batch(
        &self,
        registry: &mut PendingTransactionRegistry,
        token_id: &[u8],
        limit: usize,
    ) -> Result<Vec<(Transaction, SignedTransaction)>, PneumaticError>
        requires
            old(registry).wf(),
    ;
}

impl IBlockProposer for BlockProposer {
    fn propose_batch(
        &self,
        registry: &mut PendingTransactionRegistry,
        token_id: &[u8],
        limit: usize,
    ) -> (r: Result<Vec<(Transaction, SignedTransaction)>, PneumaticError>)
        ensures
            final(registry).wf(),
            final(registry)@ == (crate::registry::pending::RegistryContents {
                pool: crate::transactions::left_entries(
                    old(registry)@.pool,
                    token_id@,
                    limit as nat,
                ),
                ..old(registry)@
            }),
            ({
                let ids = crate::transactions::taken_ids(
                    old(registry)@.pool,
                    token_id@,
                    limit as nat,
                );
                match r {
                    Ok(batch) => batch@.len() == ids.len() && forall|i: int|
                        0 <= i < ids.len() ==> crate::registry::pending::fetched(
                            old(registry)@,
                            ids[i],
                            (#[trigger] batch@[i]).0,
                        ) && proposed_by(*self, batch@[i].0, batch@[i].1),
                    Err(_) => exists|i: int| #[trigger]
                        crate::registry::pending::first_unvalidated(old(registry)@, ids, i)
                            && crate::registry::pending::registry_error(
                            r,
                            crate::registry::pending::lookup_failure_text(
                                old(registry)@,
                                ids[i],
                            ),
                        ),
                }
            }),
    {
        let ghost ids = crate::transactions::taken_ids(registry@.pool, token_id@, limit as nat);
        match registry.get_ordered_transactions(token_id, limit) {
            Ok(txs) => {
                let mut batch: Vec<(Transaction, SignedTransaction)> = Vec::with_capacity(
                    txs.len(),
                );
                let mut i: usize = 0;
                while i < txs.len()
                    invariant
                        i <= txs@.len(),
                        batch@.len() == i,
                        forall|j: int|
                            0 <= j < i ==> crate::transactions::same_transaction(
                                (#[trigger] batch@[j]).0,
                                txs@[j],
                            ) && proposed_by(*self, batch@[j].0, batch@[j].1),
                    decreases txs@.len() - i,
                {
                    let signed = self.wrap(&txs[i]);
                    batch.push((txs[i].clone(), signed));
                    i += 1;
                }
                assert forall|j: int| 0 <= j < ids.len() implies crate::registry::pending::fetched(
                    old(registry)@,
                    ids[j],
                    (#[trigger] batch@[j]).0,
                ) by {
                    assert(crate::registry::pending::fetched(old(registry)@, ids[j], txs@[j]));
                }
                Ok(batch)
            },
            Err(e) => Err(e),
        }
    }
}

/// A proposal carries the whole transaction and the identity of its leader, who
/// is its proposer, and no votes yet.
pub proof fn proposals_carry_the_transaction(
    proposer: BlockProposer,
    tx: Transaction,
    signed: SignedTransaction,
)
    requires
        proposed_by(proposer, tx, signed),
    ensures
        signed.transaction_id == tx.id,
        signed.transaction.id == tx.id,
        signed.transaction.action == tx.action,
        signed.transaction.token_id@ == tx.token_id@,
        signed.transaction.bid == tx.bid,
        signed.transaction.sequence_number == tx.sequence_number,
        signed.transaction.sender@ == tx.sender@,
        signed.transaction.receiver@ == tx.receiver@,
        signed.transaction.amount == tx.amount,
        signed.transaction.timestamp == tx.timestamp,
        signed.transaction.result_hash@ == tx.result_hash@,
        signed.transaction.sender_signature@ == tx.sender_signature@,
        signed.leader_address@ == proposer.leader_address@,
        signed.proposer_key@ == proposer.leader_address@,
        signed.leader_stake == proposer.leader_stake,
        signed.leader_hash@ == proposer.leader_hash@,
        signed.total_stake == 0 && signed.total_voters == 0,
        signed.shielded is None,
        signed.finalizer_addr@.len() == 0,
        signed.finalizer_sig.signature@.len() == 0,
        forall|key: Seq<u8>| !(#[trigger] signed.executor_sigs@.contains_key(key)),
{
}

} // verus!
