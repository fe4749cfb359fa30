//! Transactions, their signatures, their life cycle and the ordered pool.
use crate::bytes::{append_bytes, bytes_eq, bytes_less, copy_bytes};
use crate::encoding::{pack_bytes, pack_i64, pack_str, pack_u64};
use crate::errors::{TransactionRiskFactor, ValidationFailureReason};
use crate::sorted_map::SortedMap;
use vstd::prelude::*;

verus! {

/// A transfer of value or a contract call.
#[derive(Debug)]
pub struct Transaction {
    pub id: String,
    pub action: String,
    pub token_id: Vec<u8>,
    pub bid: Option<u64>,
    pub sequence_number: usize,
    pub sender: Vec<u8>,
    pub receiver: Vec<u8>,
    pub amount: Option<u64>,
    pub timestamp: i64,
    pub result_hash: Vec<u8>,
    pub sender_signature: Vec<u8>,
}

/// Two transactions agree in every field.
pub open spec fn same_transaction(a: Transaction, b: Transaction) -> bool {
    &&& a.id == b.id
    &&& a.action == b.action
    &&& a.token_id@ == b.token_id@
    &&& a.bid == b.bid
    &&& a.sequence_number == b.sequence_number
    &&& a.sender@ == b.sender@
    &&& a.receiver@ == b.receiver@
    &&& a.amount == b.amount
    &&& a.timestamp == b.timestamp
    &&& a.result_hash@ == b.result_hash@
    &&& a.sender_signature@ == b.sender_signature@
}

impl Clone for Transaction {
    fn clone(&self) -> (r: Self)
        ensures
            same_transaction(r, *self),
    {
        Transaction {
            id: self.id.clone(),
            action: self.action.clone(),
            token_id: copy_bytes(&self.token_id),
            bid: self.bid,
            sequence_number: self.sequence_number,
            sender: copy_bytes(&self.sender),
            receiver: copy_bytes(&self.receiver),
            amount: self.amount,
            timestamp: self.timestamp,
            result_hash: copy_bytes(&self.result_hash),
            sender_signature: copy_bytes(&self.sender_signature),
        }
    }
}

/// One node's signature over a transaction.
#[derive(Debug)]
pub struct TransactionSignature {
    pub transaction_id: Vec<u8>,
    pub env_id: Vec<u8>,
    pub transaction_hash: Vec<u8>,
    pub signature: Vec<u8>,
    pub current_stake: u64,
}

/// Two signatures agree in every field.
pub open spec fn same_signature(a: TransactionSignature, b: TransactionSignature) -> bool {
    &&& a.transaction_id@ == b.transaction_id@
    &&& a.env_id@ == b.env_id@
    &&& a.transaction_hash@ == b.transaction_hash@
    &&& a.signature@ == b.signature@
    &&& a.current_stake == b.current_stake
}

impl TransactionSignature {
    /// A signature with nothing filled in.
    pub fn blank() -> (r: Self)
        ensures
            r.transaction_id@.len() == 0,
            r.env_id@.len() == 0,
            r.transaction_hash@.len() == 0,
            r.signature@.len() == 0,
            r.current_stake == 0,
    {
        TransactionSignature {
            transaction_id: Vec::new(),
            env_id: Vec::new(),
            transaction_hash: Vec::new(),
            signature: Vec::new(),
            current_stake: 0,
        }
    }
}

impl Clone for TransactionSignature {
    fn clone(&self) -> (r: Self)
        ensures
            same_signature(r, *self),
    {
        TransactionSignature {
            transaction_id: copy_bytes(&self.transaction_id),
            env_id: copy_bytes(&self.env_id),
            transaction_hash: copy_bytes(&self.transaction_hash),
            signature: copy_bytes(&self.signature),
            current_stake: self.current_stake,
        }
    }
}

/// A transaction as the leader wraps it for a block.
#[derive(Debug)]
pub struct SignedTransaction {
    pub transaction_id: String,
    pub transaction: Transaction,
    pub shielded: Option<ShieldedTransaction>,
    pub total_stake: u64,
    pub total_voters: u64,
    pub leader_address: Vec<u8>,
    pub leader_stake: u64,
    pub leader_hash: Vec<u8>,
    pub finalizer_addr: Vec<u8>,
    pub finalizer_sig: TransactionSignature,
    /// Executor public key to signature
    pub executor_sigs: SortedMap<TransactionSignature>,
    pub proposer_key: Vec<u8>,
}

/// The signatures of a listing, entry by entry.
pub open spec fn same_signatures(
    a: Seq<(Seq<u8>, TransactionSignature)>,
    b: Seq<(Seq<u8>, TransactionSignature)>,
) -> bool {
    &&& a.len() == b.len()
    &&& forall|i: int|
        0 <= i < a.len() ==> (#[trigger] a[i]).0 == b[i].0 && same_signature(a[i].1, b[i].1)
}

/// Two optional shielded transfers agree.
pub open spec fn same_optional_shielded(
    a: Option<ShieldedTransaction>,
    b: Option<ShieldedTransaction>,
) -> bool {
    match (a, b) {
        (Some(x), Some(y)) => same_shielded(x, y),
        (None, None) => true,
        _ => false,
    }
}

/// Two signed transactions agree in every field.
pub open spec fn same_signed(a: SignedTransaction, b: SignedTransaction) -> bool {
    &&& a.transaction_id == b.transaction_id
    &&& same_transaction(a.transaction, b.transaction)
    &&& same_optional_shielded(a.shielded, b.shielded)
    &&& a.total_stake == b.total_stake
    &&& a.total_voters == b.total_voters
    &&& a.leader_address@ == b.leader_address@
    &&& a.leader_stake == b.leader_stake
    &&& a.leader_hash@ == b.leader_hash@
    &&& a.finalizer_addr@ == b.finalizer_addr@
    &&& same_signature(a.finalizer_sig, b.finalizer_sig)
    &&& same_signatures(a.executor_sigs.listing(), b.executor_sigs.listing())
    &&& a.proposer_key@ == b.proposer_key@
}

impl Clone for SignedTransaction {
    fn clone(&self) -> (r: Self)
        ensures
            same_signed(r, *self),
    {
        let shielded = match &self.shielded {
            Some(s) => Some(s.clone()),
            None => None,
        };
        let executor_sigs = self.executor_sigs.duplicate_cloned();
        assert(same_signatures(executor_sigs.listing(), self.executor_sigs.listing())) by {
            assert forall|i: int| 0 <= i < executor_sigs.listing().len() implies (
            #[trigger] executor_sigs.listing()[i]).0 == self.executor_sigs.listing()[i].0
                && same_signature(
                executor_sigs.listing()[i].1,
                self.executor_sigs.listing()[i].1,
            ) by {
                assert(cloned(
                    self.executor_sigs.listing()[i].1,
                    executor_sigs.listing()[i].1,
                ));
            }
        }
        SignedTransaction {
            transaction_id: self.transaction_id.clone(),
            transaction: self.transaction.clone(),
            shielded,
            total_stake: self.total_stake,
            total_voters: self.total_voters,
            leader_address: copy_bytes(&self.leader_address),
            leader_stake: self.leader_stake,
            leader_hash: copy_bytes(&self.leader_hash),
            finalizer_addr: copy_bytes(&self.finalizer_addr),
            finalizer_sig: self.finalizer_sig.clone(),
            executor_sigs,
            proposer_key: copy_bytes(&self.proposer_key),
        }
    }
}

/// A shielded transfer: spent notes by their nullifiers, new notes by their
/// commitments, and the proof that they balance.
#[derive(Debug, PartialEq, Eq)]
pub struct ShieldedTransaction {
    pub id: String,
    pub action: String,
    pub token_id: Vec<u8>,
    pub spent_commitments: Vec<[u8; 32]>,
    pub nullifiers: Vec<[u8; 32]>,
    pub commitments: Vec<[u8; 32]>,
    pub merkle_root: [u8; 32],
    pub proof_bytes: Vec<u8>,
    pub note_ciphertexts: Vec<Vec<u8>>,
    pub fee: u64,
}

/// Two lists of byte strings are the same.
pub open spec fn same_byte_lists(a: Seq<Vec<u8>>, b: Seq<Vec<u8>>) -> bool {
    &&& a.len() == b.len()
    &&& forall|i: int| 0 <= i < a.len() ==> (#[trigger] a[i])@ == b[i]@
}

/// Two shielded transfers agree in every field.
pub open spec fn same_shielded(a: ShieldedTransaction, b: ShieldedTransaction) -> bool {
    &&& a.id == b.id
    &&& a.action == b.action
    &&& a.token_id@ == b.token_id@
    &&& a.spent_commitments@ == b.spent_commitments@
    &&& a.nullifiers@ == b.nullifiers@
    &&& a.commitments@ == b.commitments@
    &&& a.merkle_root == b.merkle_root
    &&& a.proof_bytes@ == b.proof_bytes@
    &&& same_byte_lists(a.note_ciphertexts@, b.note_ciphertexts@)
    &&& a.fee == b.fee
}

fn copy_digests(digests: &Vec<[u8; 32]>) -> (r: Vec<[u8; 32]>)
    ensures
        r@ == digests@,
{
    let mut r: Vec<[u8; 32]> = Vec::with_capacity(digests.len());
    let mut i: usize = 0;
    while i < digests.len()
        invariant
            i <= digests@.len(),
            r@ == digests@.take(i as int),
        decreases digests@.len() - i,
    {
        r.push(digests[i]);
        assert(digests@.take(i + 1) =~= digests@.take(i as int).push(digests@[i as int]));
        i += 1;
    }
    assert(digests@.take(i as int) =~= digests@);
    r
}

fn copy_byte_list(items: &Vec<Vec<u8>>) -> (r: Vec<Vec<u8>>)
    ensures
        same_byte_lists(r@, items@),
{
    let mut r: Vec<Vec<u8>> = Vec::with_capacity(items.len());
    let mut i: usize = 0;
    while i < items.len()
        invariant
            i <= items@.len(),
            r@.len() == i,
            forall|j: int| 0 <= j < i ==> (#[trigger] r@[j])@ == items@[j]@,
        decreases items@.len() - i,
    {
        r.push(copy_bytes(&items[i]));
        i += 1;
    }
    r
}

impl Clone for ShieldedTransaction {
    fn clone(&self) -> (r: Self)
        ensures
            same_shielded(r, *self),
    {
        ShieldedTransaction {
            id: self.id.clone(),
            action: self.action.clone(),
            token_id: copy_bytes(&self.token_id),
            spent_commitments: copy_digests(&self.spent_commitments),
            nullifiers: copy_digests(&self.nullifiers),
            commitments: copy_digests(&self.commitments),
            merkle_root: self.merkle_root,
            proof_bytes: copy_bytes(&self.proof_bytes),
            note_ciphertexts: copy_byte_list(&self.note_ciphertexts),
            fee: self.fee,
        }
    }
}

/// The canonical bytes of an optional number: a count of zero or one, then the
/// number.
pub open spec fn canonical_optional(n: Option<u64>) -> Seq<u8> {
    match n {
        Some(v) => crate::encoding::packed_u64(1) + crate::encoding::packed_u64(v),
        None => crate::encoding::packed_u64(0),
    }
}

/// The canonical bytes of a transaction: its fields in order.
pub open spec fn canonical_transaction(t: Transaction) -> Seq<u8> {
    crate::encoding::packed_str(t.id@) + crate::encoding::packed_str(t.action@)
        + crate::encoding::packed_bytes(t.token_id@) + canonical_optional(t.bid)
        + crate::encoding::packed_u64(t.sequence_number as u64) + crate::encoding::packed_bytes(
        t.sender@,
    ) + crate::encoding::packed_bytes(t.receiver@) + canonical_optional(t.amount)
        + crate::encoding::packed_i64(t.timestamp) + crate::encoding::packed_bytes(t.result_hash@)
        + crate::encoding::packed_bytes(t.sender_signature@)
}

/// The canonical bytes of a signature: its fields in order.
pub open spec fn canonical_signature(s: TransactionSignature) -> Seq<u8> {
    crate::encoding::packed_bytes(s.transaction_id@) + crate::encoding::packed_bytes(s.env_id@)
        + crate::encoding::packed_bytes(s.transaction_hash@) + crate::encoding::packed_bytes(
        s.signature@,
    ) + crate::encoding::packed_u64(s.current_stake)
}

/// The canonical bytes of the executor signatures in key order.
pub open spec fn canonical_signatures(sigs: Seq<(Seq<u8>, TransactionSignature)>) -> Seq<u8>
    decreases sigs.len(),
{
    if sigs.len() == 0 {
        Seq::empty()
    } else {
        canonical_signatures(sigs.drop_last()) + crate::encoding::packed_bytes(sigs.last().0)
            + canonical_signature(sigs.last().1)
    }
}

/// The canonical bytes of a list of digests: its length, then the digests.
pub open spec fn canonical_digests(digests: Seq<[u8; 32]>) -> Seq<u8>
    decreases digests.len(),
{
    if digests.len() == 0 {
        Seq::empty()
    } else {
        canonical_digests(digests.drop_last()) + crate::encoding::packed_bytes(digests.last()@)
    }
}

/// The canonical bytes of a list of byte strings.
pub open spec fn canonical_byte_list(items: Seq<Vec<u8>>) -> Seq<u8>
    decreases items.len(),
{
    if items.len() == 0 {
        Seq::empty()
    } else {
        canonical_byte_list(items.drop_last()) + crate::encoding::packed_bytes(items.last()@)
    }
}

/// The canonical bytes of a shielded transfer: its fields in order, each list
/// led by its length.
pub open spec fn canonical_shielded(t: ShieldedTransaction) -> Seq<u8> {
    crate::encoding::packed_str(t.id@) + crate::encoding::packed_str(t.action@)
        + crate::encoding::packed_bytes(t.token_id@) + crate::encoding::packed_u64(
        t.spent_commitments@.len() as u64,
    ) + canonical_digests(t.spent_commitments@) + crate::encoding::packed_u64(
        t.nullifiers@.len() as u64,
    ) + canonical_digests(t.nullifiers@) + crate::encoding::packed_u64(t.commitments@.len() as u64)
        + canonical_digests(t.commitments@) + crate::encoding::packed_bytes(t.merkle_root@)
        + crate::encoding::packed_bytes(t.proof_bytes@) + crate::encoding::packed_u64(
        t.note_ciphertexts@.len() as u64,
    ) + canonical_byte_list(t.note_ciphertexts@) + crate::encoding::packed_u64(t.fee)
}

/// The canonical bytes of an optional shielded transfer.
pub open spec fn canonical_optional_shielded(t: Option<ShieldedTransaction>) -> Seq<u8> {
    match t {
        Some(s) => crate::encoding::packed_u64(1) + canonical_shielded(s),
        None => crate::encoding::packed_u64(0),
    }
}

/// The canonical bytes of a signed transaction: its fields in order, with the
/// executor signatures in key order.
pub open spec fn canonical_signed(s: SignedTransaction) -> Seq<u8> {
    crate::encoding::packed_str(s.transaction_id@) + canonical_transaction(s.transaction)
        + canonical_optional_shielded(s.shielded) + crate::encoding::packed_u64(s.total_stake)
        + crate::encoding::packed_u64(s.total_voters) + crate::encoding::packed_bytes(
        s.leader_address@,
    ) + crate::encoding::packed_u64(s.leader_stake) + crate::encoding::packed_bytes(s.leader_hash@)
        + crate::encoding::packed_bytes(s.finalizer_addr@) + canonical_signature(s.finalizer_sig)
        + crate::encoding::packed_u64(s.executor_sigs.listing().len() as u64)
        + canonical_signatures(s.executor_sigs.listing()) + crate::encoding::packed_bytes(
        s.proposer_key@,
    )
}

fn optional_bytes(n: Option<u64>) -> (r: Vec<u8>)
    ensures
        r@ == canonical_optional(n),
{
    match n {
        Some(v) => {
            let mut r = pack_u64(1);
            append_bytes(&mut r, &pack_u64(v));
            r
        },
        None => pack_u64(0),
    }
}

fn transaction_bytes(t: &Transaction) -> (r: Vec<u8>)
    ensures
        r@ == canonical_transaction(*t),
{
    let mut r = pack_str(&t.id);
    append_bytes(&mut r, &pack_str(&t.action));
    append_bytes(&mut r, &pack_bytes(&t.token_id));
    append_bytes(&mut r, &optional_bytes(t.bid));
    append_bytes(&mut r, &pack_u64(t.sequence_number as u64));
    append_bytes(&mut r, &pack_bytes(&t.sender));
    append_bytes(&mut r, &pack_bytes(&t.receiver));
    append_bytes(&mut r, &optional_bytes(t.amount));
    append_bytes(&mut r, &pack_i64(t.timestamp));
    append_bytes(&mut r, &pack_bytes(&t.result_hash));
    append_bytes(&mut r, &pack_bytes(&t.sender_signature));
    r
}

fn signature_bytes(s: &TransactionSignature) -> (r: Vec<u8>)
    ensures
        r@ == canonical_signature(*s),
{
    let mut r = pack_bytes(&s.transaction_id);
    append_bytes(&mut r, &pack_bytes(&s.env_id));
    append_bytes(&mut r, &pack_bytes(&s.transaction_hash));
    append_bytes(&mut r, &pack_bytes(&s.signature));
    append_bytes(&mut r, &pack_u64(s.current_stake));
    r
}

fn signatures_bytes(sigs: &SortedMap<TransactionSignature>) -> (r: Vec<u8>)
    ensures
        r@ == canonical_signatures(sigs.listing()),
{
    let mut r: Vec<u8> = Vec::new();
    let mut i: usize = 0;
    assert(sigs.listing().take(0) =~= Seq::empty());
    assert(r@ =~= canonical_signatures(sigs.listing().take(0)));
    while i < sigs.len()
        invariant
            i <= sigs.listing().len(),
            r@ == canonical_signatures(sigs.listing().take(i as int)),
        decreases sigs.listing().len() - i,
    {
        append_bytes(&mut r, &pack_bytes(sigs.key_at(i)));
        append_bytes(&mut r, &signature_bytes(sigs.value_at(i)));
        proof {
            let next = sigs.listing().take(i + 1);
            assert(next.drop_last() =~= sigs.listing().take(i as int));
            assert(next.last() == sigs.listing()[i as int]);
        }
        i += 1;
    }
    assert(sigs.listing().take(i as int) =~= sigs.listing());
    r
}

fn digests_bytes(digests: &Vec<[u8; 32]>) -> (r: Vec<u8>)
    ensures
        r@ == canonical_digests(digests@),
{
    let mut r: Vec<u8> = Vec::new();
    let mut i: usize = 0;
    assert(digests@.take(0) =~= Seq::empty());
    assert(r@ =~= canonical_digests(digests@.take(0)));
    while i < digests.len()
        invariant
            i <= digests@.len(),
            r@ == canonical_digests(digests@.take(i as int)),
        decreases digests@.len() - i,
    {
        append_bytes(&mut r, &pack_bytes(digests[i].as_slice()));
        proof {
            let next = digests@.take(i + 1);
            assert(next.drop_last() =~= digests@.take(i as int));
            assert(next.last() == digests@[i as int]);
        }
        i += 1;
    }
    assert(digests@.take(i as int) =~= digests@);
    r
}

fn byte_list_bytes(items: &Vec<Vec<u8>>) -> (r: Vec<u8>)
    ensures
        r@ == canonical_byte_list(items@),
{
    let mut r: Vec<u8> = Vec::new();
    let mut i: usize = 0;
    assert(items@.take(0) =~= Seq::empty());
    assert(r@ =~= canonical_byte_list(items@.take(0)));
    while i < items.len()
        invariant
            i <= items@.len(),
            r@ == canonical_byte_list(items@.take(i as int)),
        decreases items@.len() - i,
    {
        append_bytes(&mut r, &pack_bytes(&items[i]));
        proof {
            let next = items@.take(i + 1);
            assert(next.drop_last() =~= items@.take(i as int));
            assert(next.last() == items@[i as int]);
        }
        i += 1;
    }
    assert(items@.take(i as int) =~= items@);
    r
}

fn shielded_bytes(t: &ShieldedTransaction) -> (r: Vec<u8>)
    ensures
        r@ == canonical_shielded(*t),
{
    let mut r = pack_str(&t.id);
    append_bytes(&mut r, &pack_str(&t.action));
    append_bytes(&mut r, &pack_bytes(&t.token_id));
    append_bytes(&mut r, &pack_u64(t.spent_commitments.len() as u64));
    append_bytes(&mut r, &digests_bytes(&t.spent_commitments));
    append_bytes(&mut r, &pack_u64(t.nullifiers.len() as u64));
    append_bytes(&mut r, &digests_bytes(&t.nullifiers));
    append_bytes(&mut r, &pack_u64(t.commitments.len() as u64));
    append_bytes(&mut r, &digests_bytes(&t.commitments));
    append_bytes(&mut r, &pack_bytes(t.merkle_root.as_slice()));
    append_bytes(&mut r, &pack_bytes(&t.proof_bytes));
    append_bytes(&mut r, &pack_u64(t.note_ciphertexts.len() as u64));
    append_bytes(&mut r, &byte_list_bytes(&t.note_ciphertexts));
    append_bytes(&mut r, &pack_u64(t.fee));
    r
}

fn optional_shielded_bytes(t: &Option<ShieldedTransaction>) -> (r: Vec<u8>)
    ensures
        r@ == canonical_optional_shielded(*t),
{
    match t {
        Some(s) => {
            let mut r = pack_u64(1);
            append_bytes(&mut r, &shielded_bytes(s));
            r
        },
        None => pack_u64(0),
    }
}

/// The canonical bytes of a signed transaction.
pub fn canonical_signed_trans_bytes(s: &SignedTransaction) -> (r: Vec<u8>)
    ensures
        r@ == canonical_signed(*s),
{
    let mut r = pack_str(&s.transaction_id);
    append_bytes(&mut r, &transaction_bytes(&s.transaction));
    append_bytes(&mut r, &optional_shielded_bytes(&s.shielded));
    append_bytes(&mut r, &pack_u64(s.total_stake));
    append_bytes(&mut r, &pack_u64(s.total_voters));
    append_bytes(&mut r, &pack_bytes(&s.leader_address));
    append_bytes(&mut r, &pack_u64(s.leader_stake));
    append_bytes(&mut r, &pack_bytes(&s.leader_hash));
    append_bytes(&mut r, &pack_bytes(&s.finalizer_addr));
    append_bytes(&mut r, &signature_bytes(&s.finalizer_sig));
    append_bytes(&mut r, &pack_u64(s.executor_sigs.len() as u64));
    append_bytes(&mut r, &signatures_bytes(&s.executor_sigs));
    append_bytes(&mut r, &pack_bytes(&s.proposer_key));
    r
}

/// Signed transactions that agree in every field have the same canonical bytes.
pub proof fn canonical_bytes_follow_the_fields(a: SignedTransaction, b: SignedTransaction)
    requires
        same_signed(a, b),
    ensures
        canonical_signed(a) == canonical_signed(b),
{
    lemma_same_signatures(a.executor_sigs.listing(), b.executor_sigs.listing());
    if let (Some(x), Some(y)) = (a.shielded, b.shielded) {
        lemma_same_byte_lists(x.note_ciphertexts@, y.note_ciphertexts@);
    }
}

proof fn lemma_same_signatures(
    a: Seq<(Seq<u8>, TransactionSignature)>,
    b: Seq<(Seq<u8>, TransactionSignature)>,
)
    requires
        same_signatures(a, b),
    ensures
        canonical_signatures(a) == canonical_signatures(b),
    decreases a.len(),
{
    if a.len() > 0 {
        assert(same_signatures(a.drop_last(), b.drop_last()));
        lemma_same_signatures(a.drop_last(), b.drop_last());
        assert(a[a.len() - 1].0 == b[b.len() - 1].0);
    }
}

proof fn lemma_same_byte_lists(a: Seq<Vec<u8>>, b: Seq<Vec<u8>>)
    requires
        same_byte_lists(a, b),
    ensures
        canonical_byte_list(a) == canonical_byte_list(b),
    decreases a.len(),
{
    if a.len() > 0 {
        assert(same_byte_lists(a.drop_last(), b.drop_last()));
        lemma_same_byte_lists(a.drop_last(), b.drop_last());
        assert(a[a.len() - 1]@ == b[b.len() - 1]@);
    }
}

/// Every length in a transaction fits in 32 bits.
pub open spec fn short_transaction(t: Transaction) -> bool {
    &&& crate::encoding::short_str(t.id@)
    &&& crate::encoding::short_str(t.action@)
    &&& t.token_id@.len() <= u32::MAX
    &&& t.sender@.len() <= u32::MAX
    &&& t.receiver@.len() <= u32::MAX
    &&& t.result_hash@.len() <= u32::MAX
    &&& t.sender_signature@.len() <= u32::MAX
}

/// Every length in a signature fits in 32 bits.
pub open spec fn short_signature(s: TransactionSignature) -> bool {
    &&& s.transaction_id@.len() <= u32::MAX
    &&& s.env_id@.len() <= u32::MAX
    &&& s.transaction_hash@.len() <= u32::MAX
    &&& s.signature@.len() <= u32::MAX
}

/// Every length in a listing of signatures fits in 32 bits.
pub open spec fn short_signatures(sigs: Seq<(Seq<u8>, TransactionSignature)>) -> bool {
    &&& sigs.len() <= u32::MAX
    &&& forall|i: int|
        0 <= i < sigs.len() ==> (#[trigger] sigs[i]).0.len() <= u32::MAX && short_signature(sigs[i].1)
}

/// Every length in a shielded transfer fits in 32 bits.
pub open spec fn short_shielded(t: ShieldedTransaction) -> bool {
    &&& crate::encoding::short_str(t.id@)
    &&& crate::encoding::short_str(t.action@)
    &&& t.token_id@.len() <= u32::MAX
    &&& t.spent_commitments@.len() <= u32::MAX
    &&& t.nullifiers@.len() <= u32::MAX
    &&& t.commitments@.len() <= u32::MAX
    &&& t.proof_bytes@.len() <= u32::MAX
    &&& t.note_ciphertexts@.len() <= u32::MAX
    &&& forall|i: int|
        0 <= i < t.note_ciphertexts@.len() ==> (#[trigger] t.note_ciphertexts@[i])@.len() <= u32::MAX
}

/// Every length in a signed transaction fits in 32 bits.
pub open spec fn short_signed(s: SignedTransaction) -> bool {
    &&& crate::encoding::short_str(s.transaction_id@)
    &&& short_transaction(s.transaction)
    &&& s.shielded matches Some(t) ==> short_shielded(t)
    &&& s.leader_address@.len() <= u32::MAX
    &&& s.leader_hash@.len() <= u32::MAX
    &&& s.finalizer_addr@.len() <= u32::MAX
    &&& short_signature(s.finalizer_sig)
    &&& short_signatures(s.executor_sigs.listing())
    &&& s.proposer_key@.len() <= u32::MAX
}

proof fn lemma_optional_unique(a: Option<u64>, b: Option<u64>, x: Seq<u8>, y: Seq<u8>)
    requires
        canonical_optional(a) + x == canonical_optional(b) + y,
    ensures
        a == b,
        x == y,
{
    let more_a = match a {
        Some(v) => crate::encoding::packed_u64(v) + x,
        None => x,
    };
    let more_b = match b {
        Some(v) => crate::encoding::packed_u64(v) + y,
        None => y,
    };
    let count_a: u64 = if a is Some { 1 } else { 0 };
    let count_b: u64 = if b is Some { 1 } else { 0 };
    assert(canonical_optional(a) + x =~= crate::encoding::packed_u64(count_a) + more_a);
    assert(canonical_optional(b) + y =~= crate::encoding::packed_u64(count_b) + more_b);
    crate::encoding::numbers_are_readable(count_a, count_b, more_a, more_b);
    if let (Some(v), Some(w)) = (a, b) {
        crate::encoding::numbers_are_readable(v, w, x, y);
    }
}

/// The canonical bytes with more behind them, grouped from the back.
proof fn lemma_transaction_grouped(t: Transaction, x: Seq<u8>)
    ensures
        canonical_transaction(t) + x == crate::encoding::packed_str(t.id@) + (crate::encoding::packed_str(t.action@) + (crate::encoding::packed_bytes(t.token_id@) + (canonical_optional(t.bid) + (crate::encoding::packed_u64(t.sequence_number as u64) + (crate::encoding::packed_bytes(t.sender@) + (crate::encoding::packed_bytes(t.receiver@) + (canonical_optional(t.amount) + (crate::encoding::packed_i64(t.timestamp) + (crate::encoding::packed_bytes(t.result_hash@) + (crate::encoding::packed_bytes(t.sender_signature@) + x)))))))))),
{
    let f0 = crate::encoding::packed_str(t.id@);
    let f1 = crate::encoding::packed_str(t.action@);
    let f2 = crate::encoding::packed_bytes(t.token_id@);
    let f3 = canonical_optional(t.bid);
    let f4 = crate::encoding::packed_u64(t.sequence_number as u64);
    let f5 = crate::encoding::packed_bytes(t.sender@);
    let f6 = crate::encoding::packed_bytes(t.receiver@);
    let f7 = canonical_optional(t.amount);
    let f8 = crate::encoding::packed_i64(t.timestamp);
    let f9 = crate::encoding::packed_bytes(t.result_hash@);
    let f10 = crate::encoding::packed_bytes(t.sender_signature@);
    let p0 = f0;
    let p1 = p0 + f1;
    let p2 = p1 + f2;
    let p3 = p2 + f3;
    let p4 = p3 + f4;
    let p5 = p4 + f5;
    let p6 = p5 + f6;
    let p7 = p6 + f7;
    let p8 = p7 + f8;
    let p9 = p8 + f9;
    let p10 = p9 + f10;
    let r11 = x;
    let r10 = f10 + r11;
    crate::bytes::lemma_regroup(p9, f10, r11);
    let r9 = f9 + r10;
    crate::bytes::lemma_regroup(p8, f9, r10);
    let r8 = f8 + r9;
    crate::bytes::lemma_regroup(p7, f8, r9);
    let r7 = f7 + r8;
    crate::bytes::lemma_regroup(p6, f7, r8);
    let r6 = f6 + r7;
    crate::bytes::lemma_regroup(p5, f6, r7);
    let r5 = f5 + r6;
    crate::bytes::lemma_regroup(p4, f5, r6);
    let r4 = f4 + r5;
    crate::bytes::lemma_regroup(p3, f4, r5);
    let r3 = f3 + r4;
    crate::bytes::lemma_regroup(p2, f3, r4);
    let r2 = f2 + r3;
    crate::bytes::lemma_regroup(p1, f2, r3);
    let r1 = f1 + r2;
    crate::bytes::lemma_regroup(p0, f1, r2);
    assert(canonical_transaction(t) == p10);
}

/// The canonical bytes with more behind them, grouped from the back.
proof fn lemma_shielded_grouped(t: ShieldedTransaction, x: Seq<u8>)
    ensures
        canonical_shielded(t) + x == crate::encoding::packed_str(t.id@) + (crate::encoding::packed_str(t.action@) + (crate::encoding::packed_bytes(t.token_id@) + (crate::encoding::packed_u64(t.spent_commitments@.len() as u64) + (canonical_digests(t.spent_commitments@) + (crate::encoding::packed_u64(t.nullifiers@.len() as u64) + (canonical_digests(t.nullifiers@) + (crate::encoding::packed_u64(t.commitments@.len() as u64) + (canonical_digests(t.commitments@) + (crate::encoding::packed_bytes(t.merkle_root@) + (crate::encoding::packed_bytes(t.proof_bytes@) + (crate::encoding::packed_u64(t.note_ciphertexts@.len() as u64) + (canonical_byte_list(t.note_ciphertexts@) + (crate::encoding::packed_u64(t.fee) + x))))))))))))),
{
    let f0 = crate::encoding::packed_str(t.id@);
    let f1 = crate::encoding::packed_str(t.action@);
    let f2 = crate::encoding::packed_bytes(t.token_id@);
    let f3 = crate::encoding::packed_u64(t.spent_commitments@.len() as u64);
    let f4 = canonical_digests(t.spent_commitments@);
    let f5 = crate::encoding::packed_u64(t.nullifiers@.len() as u64);
    let f6 = canonical_digests(t.nullifiers@);
    let f7 = crate::encoding::packed_u64(t.commitments@.len() as u64);
    let f8 = canonical_digests(t.commitments@);
    let f9 = crate::encoding::packed_bytes(t.merkle_root@);
    let f10 = crate::encoding::packed_bytes(t.proof_bytes@);
    let f11 = crate::encoding::packed_u64(t.note_ciphertexts@.len() as u64);
    let f12 = canonical_byte_list(t.note_ciphertexts@);
    let f13 = crate::encoding::packed_u64(t.fee);
    let p0 = f0;
    let p1 = p0 + f1;
    let p2 = p1 + f2;
    let p3 = p2 + f3;
    let p4 = p3 + f4;
    let p5 = p4 + f5;
    let p6 = p5 + f6;
    let p7 = p6 + f7;
    let p8 = p7 + f8;
    let p9 = p8 + f9;
    let p10 = p9 + f10;
    let p11 = p10 + f11;
    let p12 = p11 + f12;
    let p13 = p12 + f13;
    let r14 = x;
    let r13 = f13 + r14;
    crate::bytes::lemma_regroup(p12, f13, r14);
    let r12 = f12 + r13;
    crate::bytes::lemma_regroup(p11, f12, r13);
    let r11 = f11 + r12;
    crate::bytes::lemma_regroup(p10, f11, r12);
    let r10 = f10 + r11;
    crate::bytes::lemma_regroup(p9, f10, r11);
    let r9 = f9 + r10;
    crate::bytes::lemma_regroup(p8, f9, r10);
    let r8 = f8 + r9;
    crate::bytes::lemma_regroup(p7, f8, r9);
    let r7 = f7 + r8;
    crate::bytes::lemma_regroup(p6, f7, r8);
    let r6 = f6 + r7;
    crate::bytes::lemma_regroup(p5, f6, r7);
    let r5 = f5 + r6;
    crate::bytes::lemma_regroup(p4, f5, r6);
    let r4 = f4 + r5;
    crate::bytes::lemma_regroup(p3, f4, r5);
    let r3 = f3 + r4;
    crate::bytes::lemma_regroup(p2, f3, r4);
    let r2 = f2 + r3;
    crate::bytes::lemma_regroup(p1, f2, r3);
    let r1 = f1 + r2;
    crate::bytes::lemma_regroup(p0, f1, r2);
    assert(canonical_shielded(t) == p13);
}

/// The canonical bytes with more behind them, grouped from the back.
proof fn lemma_signed_grouped(t: SignedTransaction, x: Seq<u8>)
    ensures
        canonical_signed(t) + x == crate::encoding::packed_str(t.transaction_id@) + (canonical_transaction(t.transaction) + (canonical_optional_shielded(t.shielded) + (crate::encoding::packed_u64(t.total_stake) + (crate::encoding::packed_u64(t.total_voters) + (crate::encoding::packed_bytes(t.leader_address@) + (crate::encoding::packed_u64(t.leader_stake) + (crate::encoding::packed_bytes(t.leader_hash@) + (crate::encoding::packed_bytes(t.finalizer_addr@) + (canonical_signature(t.finalizer_sig) + (crate::encoding::packed_u64(t.executor_sigs.listing().len() as u64) + (canonical_signatures(t.executor_sigs.listing()) + (crate::encoding::packed_bytes(t.proposer_key@) + x)))))))))))),
{
    let f0 = crate::encoding::packed_str(t.transaction_id@);
    let f1 = canonical_transaction(t.transaction);
    let f2 = canonical_optional_shielded(t.shielded);
    let f3 = crate::encoding::packed_u64(t.total_stake);
    let f4 = crate::encoding::packed_u64(t.total_voters);
    let f5 = crate::encoding::packed_bytes(t.leader_address@);
    let f6 = crate::encoding::packed_u64(t.leader_stake);
    let f7 = crate::encoding::packed_bytes(t.leader_hash@);
    let f8 = crate::encoding::packed_bytes(t.finalizer_addr@);
    let f9 = canonical_signature(t.finalizer_sig);
    let f10 = crate::encoding::packed_u64(t.executor_sigs.listing().len() as u64);
    let f11 = canonical_signatures(t.executor_sigs.listing());
    let f12 = crate::encoding::packed_bytes(t.proposer_key@);
    let p0 = f0;
    let p1 = p0 + f1;
    let p2 = p1 + f2;
    let p3 = p2 + f3;
    let p4 = p3 + f4;
    let p5 = p4 + f5;
    let p6 = p5 + f6;
    let p7 = p6 + f7;
    let p8 = p7 + f8;
    let p9 = p8 + f9;
    let p10 = p9 + f10;
    let p11 = p10 + f11;
    let p12 = p11 + f12;
    let r13 = x;
    let r12 = f12 + r13;
    crate::bytes::lemma_regroup(p11, f12, r13);
    let r11 = f11 + r12;
    crate::bytes::lemma_regroup(p10, f11, r12);
    let r10 = f10 + r11;
    crate::bytes::lemma_regroup(p9, f10, r11);
    let r9 = f9 + r10;
    crate::bytes::lemma_regroup(p8, f9, r10);
    let r8 = f8 + r9;
    crate::bytes::lemma_regroup(p7, f8, r9);
    let r7 = f7 + r8;
    crate::bytes::lemma_regroup(p6, f7, r8);
    let r6 = f6 + r7;
    crate::bytes::lemma_regroup(p5, f6, r7);
    let r5 = f5 + r6;
    crate::bytes::lemma_regroup(p4, f5, r6);
    let r4 = f4 + r5;
    crate::bytes::lemma_regroup(p3, f4, r5);
    let r3 = f3 + r4;
    crate::bytes::lemma_regroup(p2, f3, r4);
    let r2 = f2 + r3;
    crate::bytes::lemma_regroup(p1, f2, r3);
    let r1 = f1 + r2;
    crate::bytes::lemma_regroup(p0, f1, r2);
    assert(canonical_signed(t) == p12);
}

/// The canonical bytes of a transaction tell every field: two transactions with
/// the same bytes agree in each of them, whatever follows the bytes.
pub proof fn transactions_are_readable(a: Transaction, b: Transaction, x: Seq<u8>, y: Seq<u8>)
    requires
        short_transaction(a),
        short_transaction(b),
        canonical_transaction(a) + x == canonical_transaction(b) + y,
    ensures
        a.id@ == b.id@,
        a.action@ == b.action@,
        a.token_id@ == b.token_id@,
        a.bid == b.bid,
        a.sequence_number == b.sequence_number,
        a.sender@ == b.sender@,
        a.receiver@ == b.receiver@,
        a.amount == b.amount,
        a.timestamp == b.timestamp,
        a.result_hash@ == b.result_hash@,
        a.sender_signature@ == b.sender_signature@,
        x == y,
{
    let xa = crate::encoding::packed_bytes(a.sender_signature@) + x;
    let ya = crate::encoding::packed_bytes(b.sender_signature@) + y;
    let x9 = crate::encoding::packed_bytes(a.result_hash@) + xa;
    let y9 = crate::encoding::packed_bytes(b.result_hash@) + ya;
    let x8 = crate::encoding::packed_i64(a.timestamp) + x9;
    let y8 = crate::encoding::packed_i64(b.timestamp) + y9;
    let x7 = canonical_optional(a.amount) + x8;
    let y7 = canonical_optional(b.amount) + y8;
    let x6 = crate::encoding::packed_bytes(a.receiver@) + x7;
    let y6 = crate::encoding::packed_bytes(b.receiver@) + y7;
    let x5 = crate::encoding::packed_bytes(a.sender@) + x6;
    let y5 = crate::encoding::packed_bytes(b.sender@) + y6;
    let x4 = crate::encoding::packed_u64(a.sequence_number as u64) + x5;
    let y4 = crate::encoding::packed_u64(b.sequence_number as u64) + y5;
    let x3 = canonical_optional(a.bid) + x4;
    let y3 = canonical_optional(b.bid) + y4;
    let x2 = crate::encoding::packed_bytes(a.token_id@) + x3;
    let y2 = crate::encoding::packed_bytes(b.token_id@) + y3;
    let x1 = crate::encoding::packed_str(a.action@) + x2;
    let y1 = crate::encoding::packed_str(b.action@) + y2;
    lemma_transaction_grouped(a, x);
    lemma_transaction_grouped(b, y);
    crate::encoding::strings_are_readable(a.id@, b.id@, x1, y1);
    crate::encoding::strings_are_readable(a.action@, b.action@, x2, y2);
    crate::encoding::byte_strings_are_readable(a.token_id@, b.token_id@, x3, y3);
    lemma_optional_unique(a.bid, b.bid, x4, y4);
    crate::encoding::numbers_are_readable(
        a.sequence_number as u64,
        b.sequence_number as u64,
        x5,
        y5,
    );
    crate::encoding::byte_strings_are_readable(a.sender@, b.sender@, x6, y6);
    crate::encoding::byte_strings_are_readable(a.receiver@, b.receiver@, x7, y7);
    lemma_optional_unique(a.amount, b.amount, x8, y8);
    crate::encoding::signed_numbers_are_readable(a.timestamp, b.timestamp, x9, y9);
    crate::encoding::byte_strings_are_readable(a.result_hash@, b.result_hash@, xa, ya);
    crate::encoding::byte_strings_are_readable(a.sender_signature@, b.sender_signature@, x, y);
}

/// The canonical bytes of a signature tell every field.
pub proof fn signatures_are_readable(
    a: TransactionSignature,
    b: TransactionSignature,
    x: Seq<u8>,
    y: Seq<u8>,
)
    requires
        short_signature(a),
        short_signature(b),
        canonical_signature(a) + x == canonical_signature(b) + y,
    ensures
        a.transaction_id@ == b.transaction_id@,
        a.env_id@ == b.env_id@,
        a.transaction_hash@ == b.transaction_hash@,
        a.signature@ == b.signature@,
        a.current_stake == b.current_stake,
        x == y,
{
    let x4 = crate::encoding::packed_u64(a.current_stake) + x;
    let y4 = crate::encoding::packed_u64(b.current_stake) + y;
    let x3 = crate::encoding::packed_bytes(a.signature@) + x4;
    let y3 = crate::encoding::packed_bytes(b.signature@) + y4;
    let x2 = crate::encoding::packed_bytes(a.transaction_hash@) + x3;
    let y2 = crate::encoding::packed_bytes(b.transaction_hash@) + y3;
    let x1 = crate::encoding::packed_bytes(a.env_id@) + x2;
    let y1 = crate::encoding::packed_bytes(b.env_id@) + y2;
    assert(canonical_signature(a) + x =~= crate::encoding::packed_bytes(a.transaction_id@) + x1);
    assert(canonical_signature(b) + y =~= crate::encoding::packed_bytes(b.transaction_id@) + y1);
    crate::encoding::byte_strings_are_readable(a.transaction_id@, b.transaction_id@, x1, y1);
    crate::encoding::byte_strings_are_readable(a.env_id@, b.env_id@, x2, y2);
    crate::encoding::byte_strings_are_readable(a.transaction_hash@, b.transaction_hash@, x3, y3);
    crate::encoding::byte_strings_are_readable(a.signature@, b.signature@, x4, y4);
    crate::encoding::numbers_are_readable(a.current_stake, b.current_stake, x, y);
}

/// Two signatures under one key hold the same values.
pub open spec fn same_values(
    a: (Seq<u8>, TransactionSignature),
    b: (Seq<u8>, TransactionSignature),
) -> bool {
    &&& a.0 == b.0
    &&& a.1.transaction_id@ == b.1.transaction_id@
    &&& a.1.env_id@ == b.1.env_id@
    &&& a.1.transaction_hash@ == b.1.transaction_hash@
    &&& a.1.signature@ == b.1.signature@
    &&& a.1.current_stake == b.1.current_stake
}

proof fn lemma_signatures_unique(
    a: Seq<(Seq<u8>, TransactionSignature)>,
    b: Seq<(Seq<u8>, TransactionSignature)>,
    x: Seq<u8>,
    y: Seq<u8>,
)
    requires
        a.len() == b.len(),
        short_signatures(a),
        short_signatures(b),
        canonical_signatures(a) + x == canonical_signatures(b) + y,
    ensures
        forall|i: int| 0 <= i < a.len() ==> same_values(#[trigger] a[i], b[i]),
        x == y,
    decreases a.len(),
{
    if a.len() == 0 {
        assert(canonical_signatures(a) + x =~= x);
        assert(canonical_signatures(b) + y =~= y);
    } else {
        let n = a.len() - 1;
        let x1 = canonical_signature(a.last().1) + x;
        let y1 = canonical_signature(b.last().1) + y;
        let x0 = crate::encoding::packed_bytes(a.last().0) + x1;
        let y0 = crate::encoding::packed_bytes(b.last().0) + y1;
        assert(canonical_signatures(a) + x =~= canonical_signatures(a.drop_last()) + x0);
        assert(canonical_signatures(b) + y =~= canonical_signatures(b.drop_last()) + y0);
        assert(short_signatures(a.drop_last())) by {
            assert forall|i: int| 0 <= i < n implies (#[trigger] a.drop_last()[i]).0.len()
                <= u32::MAX && short_signature(a.drop_last()[i].1) by {
                assert(a.drop_last()[i] == a[i]);
            }
        }
        assert(short_signatures(b.drop_last())) by {
            assert forall|i: int| 0 <= i < n implies (#[trigger] b.drop_last()[i]).0.len()
                <= u32::MAX && short_signature(b.drop_last()[i].1) by {
                assert(b.drop_last()[i] == b[i]);
            }
        }
        lemma_signatures_unique(a.drop_last(), b.drop_last(), x0, y0);
        assert(a[n].0.len() <= u32::MAX && b[n].0.len() <= u32::MAX);
        crate::encoding::byte_strings_are_readable(a.last().0, b.last().0, x1, y1);
        signatures_are_readable(a.last().1, b.last().1, x, y);
        assert forall|i: int| 0 <= i < a.len() implies same_values(#[trigger] a[i], b[i]) by {
            if i < n {
                assert(same_values(a.drop_last()[i], b.drop_last()[i]));
            }
        }
    }
}

proof fn lemma_digests_unique(a: Seq<[u8; 32]>, b: Seq<[u8; 32]>, x: Seq<u8>, y: Seq<u8>)
    requires
        a.len() == b.len(),
        canonical_digests(a) + x == canonical_digests(b) + y,
    ensures
        forall|i: int| 0 <= i < a.len() ==> (#[trigger] a[i])@ == b[i]@,
        x == y,
    decreases a.len(),
{
    if a.len() == 0 {
        assert(canonical_digests(a) + x =~= x);
        assert(canonical_digests(b) + y =~= y);
    } else {
        let x0 = crate::encoding::packed_bytes(a.last()@) + x;
        let y0 = crate::encoding::packed_bytes(b.last()@) + y;
        assert(canonical_digests(a) + x =~= canonical_digests(a.drop_last()) + x0);
        assert(canonical_digests(b) + y =~= canonical_digests(b.drop_last()) + y0);
        lemma_digests_unique(a.drop_last(), b.drop_last(), x0, y0);
        crate::encoding::byte_strings_are_readable(a.last()@, b.last()@, x, y);
        assert forall|i: int| 0 <= i < a.len() implies (#[trigger] a[i])@ == b[i]@ by {
            if i < a.len() - 1 {
                assert(a.drop_last()[i]@ == b.drop_last()[i]@);
            }
        }
    }
}

proof fn lemma_byte_list_unique(a: Seq<Vec<u8>>, b: Seq<Vec<u8>>, x: Seq<u8>, y: Seq<u8>)
    requires
        a.len() == b.len(),
        forall|i: int| 0 <= i < a.len() ==> (#[trigger] a[i])@.len() <= u32::MAX,
        forall|i: int| 0 <= i < b.len() ==> (#[trigger] b[i])@.len() <= u32::MAX,
        canonical_byte_list(a) + x == canonical_byte_list(b) + y,
    ensures
        forall|i: int| 0 <= i < a.len() ==> (#[trigger] a[i])@ == b[i]@,
        x == y,
    decreases a.len(),
{
    if a.len() == 0 {
        assert(canonical_byte_list(a) + x =~= x);
        assert(canonical_byte_list(b) + y =~= y);
    } else {
        let n = a.len() - 1;
        let x0 = crate::encoding::packed_bytes(a.last()@) + x;
        let y0 = crate::encoding::packed_bytes(b.last()@) + y;
        assert(canonical_byte_list(a) + x =~= canonical_byte_list(a.drop_last()) + x0);
        assert(canonical_byte_list(b) + y =~= canonical_byte_list(b.drop_last()) + y0);
        assert forall|i: int| 0 <= i < n implies (#[trigger] a.drop_last()[i])@.len() <= u32::MAX by {
            assert(a.drop_last()[i] == a[i]);
        }
        assert forall|i: int| 0 <= i < n implies (#[trigger] b.drop_last()[i])@.len() <= u32::MAX by {
            assert(b.drop_last()[i] == b[i]);
        }
        lemma_byte_list_unique(a.drop_last(), b.drop_last(), x0, y0);
        assert(a[n]@.len() <= u32::MAX && b[n]@.len() <= u32::MAX);
        crate::encoding::byte_strings_are_readable(a.last()@, b.last()@, x, y);
        assert forall|i: int| 0 <= i < a.len() implies (#[trigger] a[i])@ == b[i]@ by {
            if i < n {
                assert(a.drop_last()[i]@ == b.drop_last()[i]@);
            }
        }
    }
}

/// The canonical bytes of a shielded transfer tell every field.
pub proof fn shielded_transfers_are_readable(
    a: ShieldedTransaction,
    b: ShieldedTransaction,
    x: Seq<u8>,
    y: Seq<u8>,
)
    requires
        short_shielded(a),
        short_shielded(b),
        canonical_shielded(a) + x == canonical_shielded(b) + y,
    ensures
        a.id@ == b.id@,
        a.action@ == b.action@,
        a.token_id@ == b.token_id@,
        a.spent_commitments@.len() == b.spent_commitments@.len(),
        forall|i: int|
            0 <= i < a.spent_commitments@.len() ==> (#[trigger] a.spent_commitments@[i])@
                == b.spent_commitments@[i]@,
        a.nullifiers@.len() == b.nullifiers@.len(),
        forall|i: int|
            0 <= i < a.nullifiers@.len() ==> (#[trigger] a.nullifiers@[i])@ == b.nullifiers@[i]@,
        a.commitments@.len() == b.commitments@.len(),
        forall|i: int|
            0 <= i < a.commitments@.len() ==> (#[trigger] a.commitments@[i])@
                == b.commitments@[i]@,
        a.merkle_root@ == b.merkle_root@,
        a.proof_bytes@ == b.proof_bytes@,
        a.note_ciphertexts@.len() == b.note_ciphertexts@.len(),
        forall|i: int|
            0 <= i < a.note_ciphertexts@.len() ==> (#[trigger] a.note_ciphertexts@[i])@
                == b.note_ciphertexts@[i]@,
        a.fee == b.fee,
        x == y,
{
    let xd = crate::encoding::packed_u64(a.fee) + x;
    let yd = crate::encoding::packed_u64(b.fee) + y;
    let xc = canonical_byte_list(a.note_ciphertexts@) + xd;
    let yc = canonical_byte_list(b.note_ciphertexts@) + yd;
    let xb = crate::encoding::packed_u64(a.note_ciphertexts@.len() as u64) + xc;
    let yb = crate::encoding::packed_u64(b.note_ciphertexts@.len() as u64) + yc;
    let xa = crate::encoding::packed_bytes(a.proof_bytes@) + xb;
    let ya = crate::encoding::packed_bytes(b.proof_bytes@) + yb;
    let x9 = crate::encoding::packed_bytes(a.merkle_root@) + xa;
    let y9 = crate::encoding::packed_bytes(b.merkle_root@) + ya;
    let x8 = canonical_digests(a.commitments@) + x9;
    let y8 = canonical_digests(b.commitments@) + y9;
    let x7 = crate::encoding::packed_u64(a.commitments@.len() as u64) + x8;
    let y7 = crate::encoding::packed_u64(b.commitments@.len() as u64) + y8;
    let x6 = canonical_digests(a.nullifiers@) + x7;
    let y6 = canonical_digests(b.nullifiers@) + y7;
    let x5 = crate::encoding::packed_u64(a.nullifiers@.len() as u64) + x6;
    let y5 = crate::encoding::packed_u64(b.nullifiers@.len() as u64) + y6;
    let x4 = canonical_digests(a.spent_commitments@) + x5;
    let y4 = canonical_digests(b.spent_commitments@) + y5;
    let x3 = crate::encoding::packed_u64(a.spent_commitments@.len() as u64) + x4;
    let y3 = crate::encoding::packed_u64(b.spent_commitments@.len() as u64) + y4;
    let x2 = crate::encoding::packed_bytes(a.token_id@) + x3;
    let y2 = crate::encoding::packed_bytes(b.token_id@) + y3;
    let x1 = crate::encoding::packed_str(a.action@) + x2;
    let y1 = crate::encoding::packed_str(b.action@) + y2;
    lemma_shielded_grouped(a, x);
    lemma_shielded_grouped(b, y);
    crate::encoding::strings_are_readable(a.id@, b.id@, x1, y1);
    crate::encoding::strings_are_readable(a.action@, b.action@, x2, y2);
    crate::encoding::byte_strings_are_readable(a.token_id@, b.token_id@, x3, y3);
    crate::encoding::numbers_are_readable(
        a.spent_commitments@.len() as u64,
        b.spent_commitments@.len() as u64,
        x4,
        y4,
    );
    lemma_digests_unique(a.spent_commitments@, b.spent_commitments@, x5, y5);
    crate::encoding::numbers_are_readable(
        a.nullifiers@.len() as u64,
        b.nullifiers@.len() as u64,
        x6,
        y6,
    );
    lemma_digests_unique(a.nullifiers@, b.nullifiers@, x7, y7);
    crate::encoding::numbers_are_readable(
        a.commitments@.len() as u64,
        b.commitments@.len() as u64,
        x8,
        y8,
    );
    lemma_digests_unique(a.commitments@, b.commitments@, x9, y9);
    crate::encoding::byte_strings_are_readable(a.merkle_root@, b.merkle_root@, xa, ya);
    crate::encoding::byte_strings_are_readable(a.proof_bytes@, b.proof_bytes@, xb, yb);
    crate::encoding::numbers_are_readable(
        a.note_ciphertexts@.len() as u64,
        b.note_ciphertexts@.len() as u64,
        xc,
        yc,
    );
    lemma_byte_list_unique(a.note_ciphertexts@, b.note_ciphertexts@, xd, yd);
    crate::encoding::numbers_are_readable(a.fee, b.fee, x, y);
}

proof fn lemma_optional_shielded_unique(
    a: Option<ShieldedTransaction>,
    b: Option<ShieldedTransaction>,
    x: Seq<u8>,
    y: Seq<u8>,
)
    requires
        a matches Some(t) ==> short_shielded(t),
        b matches Some(t) ==> short_shielded(t),
        canonical_optional_shielded(a) + x == canonical_optional_shielded(b) + y,
    ensures
        a is Some <==> b is Some,
        a is Some ==> canonical_shielded(a->0) == canonical_shielded(b->0),
        x == y,
{
    let more_a = match a {
        Some(t) => canonical_shielded(t) + x,
        None => x,
    };
    let more_b = match b {
        Some(t) => canonical_shielded(t) + y,
        None => y,
    };
    let count_a: u64 = if a is Some { 1 } else { 0 };
    let count_b: u64 = if b is Some { 1 } else { 0 };
    assert(canonical_optional_shielded(a) + x =~= crate::encoding::packed_u64(count_a) + more_a);
    assert(canonical_optional_shielded(b) + y =~= crate::encoding::packed_u64(count_b) + more_b);
    crate::encoding::numbers_are_readable(count_a, count_b, more_a, more_b);
    if let (Some(t), Some(u)) = (a, b) {
        shielded_transfers_are_readable(t, u, x, y);
        let n = more_a.len() - x.len();
        assert(more_a.take(n) =~= canonical_shielded(t));
        assert(more_b.take(n) =~= canonical_shielded(u));
    }
}

/// The canonical bytes of a signed transaction tell every field: two signed
/// transactions with the same bytes agree in each of them, in the transfer as in
/// the signatures, whatever follows the bytes.
pub proof fn signed_transactions_are_readable(
    a: SignedTransaction,
    b: SignedTransaction,
    x: Seq<u8>,
    y: Seq<u8>,
)
    requires
        short_signed(a),
        short_signed(b),
        canonical_signed(a) + x == canonical_signed(b) + y,
    ensures
        a.transaction_id@ == b.transaction_id@,
        a.transaction.id@ == b.transaction.id@,
        a.transaction.action@ == b.transaction.action@,
        a.transaction.token_id@ == b.transaction.token_id@,
        a.transaction.bid == b.transaction.bid,
        a.transaction.sequence_number == b.transaction.sequence_number,
        a.transaction.sender@ == b.transaction.sender@,
        a.transaction.receiver@ == b.transaction.receiver@,
        a.transaction.amount == b.transaction.amount,
        a.transaction.timestamp == b.transaction.timestamp,
        a.transaction.result_hash@ == b.transaction.result_hash@,
        a.transaction.sender_signature@ == b.transaction.sender_signature@,
        a.shielded is Some <==> b.shielded is Some,
        a.shielded is Some ==> canonical_shielded(a.shielded->0) == canonical_shielded(
            b.shielded->0,
        ),
        a.total_stake == b.total_stake,
        a.total_voters == b.total_voters,
        a.leader_address@ == b.leader_address@,
        a.leader_stake == b.leader_stake,
        a.leader_hash@ == b.leader_hash@,
        a.finalizer_addr@ == b.finalizer_addr@,
        a.finalizer_sig.transaction_id@ == b.finalizer_sig.transaction_id@,
        a.finalizer_sig.env_id@ == b.finalizer_sig.env_id@,
        a.finalizer_sig.transaction_hash@ == b.finalizer_sig.transaction_hash@,
        a.finalizer_sig.signature@ == b.finalizer_sig.signature@,
        a.finalizer_sig.current_stake == b.finalizer_sig.current_stake,
        a.executor_sigs.listing().len() == b.executor_sigs.listing().len(),
        forall|i: int|
            0 <= i < a.executor_sigs.listing().len() ==> same_values(
                #[trigger] a.executor_sigs.listing()[i],
                b.executor_sigs.listing()[i],
            ),
        a.proposer_key@ == b.proposer_key@,
        canonical_signed(a) == canonical_signed(b),
        x == y,
{
    let la = a.executor_sigs.listing();
    let lb = b.executor_sigs.listing();
    let xc = crate::encoding::packed_bytes(a.proposer_key@) + x;
    let yc = crate::encoding::packed_bytes(b.proposer_key@) + y;
    let xb = canonical_signatures(la) + xc;
    let yb = canonical_signatures(lb) + yc;
    let xa = crate::encoding::packed_u64(la.len() as u64) + xb;
    let ya = crate::encoding::packed_u64(lb.len() as u64) + yb;
    let x9 = canonical_signature(a.finalizer_sig) + xa;
    let y9 = canonical_signature(b.finalizer_sig) + ya;
    let x8 = crate::encoding::packed_bytes(a.finalizer_addr@) + x9;
    let y8 = crate::encoding::packed_bytes(b.finalizer_addr@) + y9;
    let x7 = crate::encoding::packed_bytes(a.leader_hash@) + x8;
    let y7 = crate::encoding::packed_bytes(b.leader_hash@) + y8;
    let x6 = crate::encoding::packed_u64(a.leader_stake) + x7;
    let y6 = crate::encoding::packed_u64(b.leader_stake) + y7;
    let x5 = crate::encoding::packed_bytes(a.leader_address@) + x6;
    let y5 = crate::encoding::packed_bytes(b.leader_address@) + y6;
    let x4 = crate::encoding::packed_u64(a.total_voters) + x5;
    let y4 = crate::encoding::packed_u64(b.total_voters) + y5;
    let x3 = crate::encoding::packed_u64(a.total_stake) + x4;
    let y3 = crate::encoding::packed_u64(b.total_stake) + y4;
    let x2 = canonical_optional_shielded(a.shielded) + x3;
    let y2 = canonical_optional_shielded(b.shielded) + y3;
    let x1 = canonical_transaction(a.transaction) + x2;
    let y1 = canonical_transaction(b.transaction) + y2;
    lemma_signed_grouped(a, x);
    lemma_signed_grouped(b, y);
    crate::encoding::strings_are_readable(a.transaction_id@, b.transaction_id@, x1, y1);
    transactions_are_readable(a.transaction, b.transaction, x2, y2);
    lemma_optional_shielded_unique(a.shielded, b.shielded, x3, y3);
    crate::encoding::numbers_are_readable(a.total_stake, b.total_stake, x4, y4);
    crate::encoding::numbers_are_readable(a.total_voters, b.total_voters, x5, y5);
    crate::encoding::byte_strings_are_readable(a.leader_address@, b.leader_address@, x6, y6);
    crate::encoding::numbers_are_readable(a.leader_stake, b.leader_stake, x7, y7);
    crate::encoding::byte_strings_are_readable(a.leader_hash@, b.leader_hash@, x8, y8);
    crate::encoding::byte_strings_are_readable(a.finalizer_addr@, b.finalizer_addr@, x9, y9);
    signatures_are_readable(a.finalizer_sig, b.finalizer_sig, xa, ya);
    crate::encoding::numbers_are_readable(la.len() as u64, lb.len() as u64, xb, yb);
    lemma_signatures_unique(la, lb, xc, yc);
    crate::encoding::byte_strings_are_readable(a.proposer_key@, b.proposer_key@, x, y);
    let n = canonical_signed(a).len() as int;
    assert((canonical_signed(a) + x).take(n) =~= canonical_signed(a));
    assert((canonical_signed(b) + y).take(n) =~= canonical_signed(b));
}

/// The outcome of validating a transaction.
#[derive(Debug)]
pub struct TransactionValidationResult {
    pub is_valid: bool,
    pub finalizer_public_key: Vec<u8>,
    pub risk_factor: TransactionRiskFactor,
    pub failures: Vec<ValidationFailureReason>,
}

/// Two validation outcomes agree in every field.
pub open spec fn same_validation(
    a: TransactionValidationResult,
    b: TransactionValidationResult,
) -> bool {
    &&& a.is_valid == b.is_valid
    &&& a.finalizer_public_key@ == b.finalizer_public_key@
    &&& a.risk_factor == b.risk_factor
    &&& a.failures@ == b.failures@
}

/// A copy of a validation outcome is as valid, names the same finalizer and the
/// same risk, and lists the same failures.
pub proof fn copied_outcomes_say_the_same(
    a: TransactionValidationResult,
    b: TransactionValidationResult,
)
    requires
        same_validation(a, b),
    ensures
        a.is_valid == b.is_valid,
        a.finalizer_public_key@ == b.finalizer_public_key@,
        a.risk_factor.amount == b.risk_factor.amount,
        a.risk_factor.affected_parties == b.risk_factor.affected_parties,
        a.risk_factor.is_contract == b.risk_factor.is_contract,
        a.risk_factor.is_multi_party == b.risk_factor.is_multi_party,
        a.failures@ == b.failures@,
{
}

impl TransactionValidationResult {
    /// A successful validation.
    pub fn valid(finalizer_public_key: Vec<u8>, risk_factor: TransactionRiskFactor) -> (r: Self)
        ensures
            r.is_valid,
            r.finalizer_public_key == finalizer_public_key,
            r.risk_factor == risk_factor,
            r.failures@.len() == 0,
    {
        TransactionValidationResult {
            is_valid: true,
            finalizer_public_key,
            risk_factor,
            failures: Vec::new(),
        }
    }
}

impl Clone for TransactionValidationResult {
    fn clone(&self) -> (r: Self)
        ensures
            same_validation(r, *self),
    {
        let mut failures: Vec<ValidationFailureReason> = Vec::new();
        let mut i: usize = 0;
        while i < self.failures.len()
            invariant
                i <= self.failures@.len(),
                failures@ == self.failures@.take(i as int),
            decreases self.failures@.len() - i,
        {
            failures.push(self.failures[i]);
            assert(self.failures@.take(i + 1) =~= self.failures@.take(i as int).push(
                self.failures@[i as int],
            ));
            i += 1;
        }
        assert(self.failures@.take(i as int) =~= self.failures@);
        TransactionValidationResult {
            is_valid: self.is_valid,
            finalizer_public_key: copy_bytes(&self.finalizer_public_key),
            risk_factor: self.risk_factor,
            failures,
        }
    }
}

/// Where a transaction stands in the pipeline.
#[derive(Debug)]
pub enum TransactionState {
    Pending,
    Preloaded { transaction: Transaction },
    Validated { transaction: Transaction, validation: TransactionValidationResult },
    Executing { transaction: Transaction },
    Finalizing { transaction: Transaction, finalizer_key: Vec<u8> },
    Committed { transaction: Transaction },
    Failed { transaction: Transaction, reasons: Vec<ValidationFailureReason> },
}

impl TransactionState {
    /// No stage follows on a committed or failed transaction.
    pub open spec fn terminal(&self) -> bool {
        self is Committed || self is Failed
    }

    pub fn is_terminal(&self) -> (r: bool)
        ensures
            r == self.terminal(),
    {
        match self {
            TransactionState::Committed { .. } => true,
            TransactionState::Failed { .. } => true,
            _ => false,
        }
    }
}

/// A transaction in flight: its state and how many pipeline stages hold it.
#[derive(Debug)]
pub struct PendingTransaction {
    pub id: String,
    pub state: TransactionState,
    pub lock_count: usize,
}

impl PendingTransaction {
    pub fn new(id: String, state: TransactionState) -> (r: Self)
        ensures
            r.id == id,
            r.state == state,
            r.lock_count == 0,
    {
        PendingTransaction { id, state, lock_count: 0 }
    }

    /// Hold the transaction for a pipeline stage. Refused in a terminal state.
    pub fn acquire(&mut self) -> (r: Result<(), ()>)
        ensures
            r is Err <==> old(self).state.terminal(),
            r is Err ==> *final(self) == *old(self),
            r is Ok ==> *final(self) == (PendingTransaction {
                lock_count: if old(self).lock_count < usize::MAX {
                    (old(self).lock_count + 1) as usize
                } else {
                    usize::MAX
                },
                ..*old(self)
            }),
    {
        if self.state.is_terminal() {
            return Err(());
        }
        self.lock_count = self.lock_count.saturating_add(1);
        Ok(())
    }

    /// Let go of the transaction. Tells whether it can be removed: it is in a
    /// terminal state and nobody holds it any more.
    pub fn release(&mut self) -> (r: bool)
        ensures
            *final(self) == (PendingTransaction {
                lock_count: if old(self).lock_count > 0 {
                    (old(self).lock_count - 1) as usize
                } else {
                    0
                },
                ..*old(self)
            }),
            r == (final(self).lock_count == 0 && old(self).state.terminal()),
    {
        self.lock_count = self.lock_count.saturating_sub(1);
        self.lock_count == 0 && self.state.is_terminal()
    }

    pub fn transition_to_validated(
        &mut self,
        transaction: Transaction,
        validation: TransactionValidationResult,
    )
        ensures
            *final(self) == (PendingTransaction {
                state: TransactionState::Validated { transaction, validation },
                ..*old(self)
            }),
    {
        self.state = TransactionState::Validated { transaction, validation };
    }

    pub fn transition_to_finalizing(&mut self, transaction: Transaction, finalizer_key: Vec<u8>)
        ensures
            *final(self) == (PendingTransaction {
                state: TransactionState::Finalizing { transaction, finalizer_key },
                ..*old(self)
            }),
    {
        self.state = TransactionState::Finalizing { transaction, finalizer_key };
    }

    pub fn transition_to_failed(
        &mut self,
        transaction: Transaction,
        reasons: Vec<ValidationFailureReason>,
    )
        ensures
            *final(self) == (PendingTransaction {
                state: TransactionState::Failed { transaction, reasons },
                ..*old(self)
            }),
    {
        self.state = TransactionState::Failed { transaction, reasons };
    }

    /// A validated transaction waits for its finalizer.
    pub fn is_awaiting_finalizer(&self) -> (r: bool)
        ensures
            r == (self.state is Validated),
    {
        match self.state {
            TransactionState::Validated { .. } => true,
            _ => false,
        }
    }
}

/// A transaction in the pool.
#[derive(Debug)]
pub struct PoolEntry {
    pub tx_id: String,
    pub token_id: Vec<u8>,
    pub sequence_number: usize,
    pub timestamp: i64,
    pub sender: Vec<u8>,
}

/// The order in which transactions leave the pool: by sequence number, then by
/// time, then by sender, then by id.
pub open spec fn precedes(a: PoolEntry, b: PoolEntry) -> bool {
    ||| a.sequence_number < b.sequence_number
    ||| a.sequence_number == b.sequence_number && a.timestamp < b.timestamp
    ||| a.sequence_number == b.sequence_number && a.timestamp == b.timestamp
        && crate::bytes::lex_less(a.sender@, b.sender@)
    ||| a.sequence_number == b.sequence_number && a.timestamp == b.timestamp && a.sender@
        == b.sender@ && crate::bytes::lex_less(
        vstd::utf8::encode_utf8(a.tx_id@),
        vstd::utf8::encode_utf8(b.tx_id@),
    )
}

/// No entry stands before one that it has to follow.
pub open spec fn pool_ordered(entries: Seq<PoolEntry>) -> bool {
    forall|i: int, j: int|
        0 <= i < j < entries.len() ==> !precedes(#[trigger] entries[j], #[trigger] entries[i])
}

proof fn lemma_precedes_transitive(a: PoolEntry, b: PoolEntry, c: PoolEntry)
    requires
        precedes(a, b),
        precedes(b, c),
    ensures
        precedes(a, c),
{
    if crate::bytes::lex_less(a.sender@, b.sender@) && crate::bytes::lex_less(
        b.sender@,
        c.sender@,
    ) {
        crate::bytes::lemma_lex_less_transitive(a.sender@, b.sender@, c.sender@);
    }
    let (x, y, z) = (
        vstd::utf8::encode_utf8(a.tx_id@),
        vstd::utf8::encode_utf8(b.tx_id@),
        vstd::utf8::encode_utf8(c.tx_id@),
    );
    if crate::bytes::lex_less(x, y) && crate::bytes::lex_less(y, z) {
        crate::bytes::lemma_lex_less_transitive(x, y, z);
    }
}

proof fn lemma_precedes_asymmetric(a: PoolEntry, b: PoolEntry)
    requires
        precedes(a, b),
    ensures
        !precedes(b, a),
{
    if precedes(b, a) {
        lemma_precedes_transitive(a, b, a);
        crate::bytes::lemma_lex_less_irreflexive(a.sender@);
        crate::bytes::lemma_lex_less_irreflexive(vstd::utf8::encode_utf8(a.tx_id@));
    }
}

/// Entries that are neither before nor after one another stand the same way to
/// every other entry.
proof fn lemma_not_precedes_transitive(a: PoolEntry, b: PoolEntry, c: PoolEntry)
    requires
        !precedes(b, a),
        precedes(b, c),
    ensures
        precedes(a, c),
{
    crate::bytes::lemma_lex_total(a.sender@, b.sender@);
    crate::bytes::lemma_lex_total(
        vstd::utf8::encode_utf8(a.tx_id@),
        vstd::utf8::encode_utf8(b.tx_id@),
    );
    if precedes(a, b) {
        lemma_precedes_transitive(a, b, c);
    }
}

/// The ids of the first `n` entries of a token.
pub open spec fn taken_ids(entries: Seq<PoolEntry>, token_id: Seq<u8>, n: nat) -> Seq<Seq<char>>
    decreases entries.len(),
{
    if entries.len() == 0 {
        Seq::empty()
    } else {
        let before = taken_ids(entries.drop_last(), token_id, n);
        if entries.last().token_id@ == token_id && before.len() < n {
            before.push(entries.last().tx_id@)
        } else {
            before
        }
    }
}

/// The entries that stay when the first `n` of a token leave.
pub open spec fn left_entries(entries: Seq<PoolEntry>, token_id: Seq<u8>, n: nat) -> Seq<PoolEntry>
    decreases entries.len(),
{
    if entries.len() == 0 {
        Seq::empty()
    } else {
        let before = left_entries(entries.drop_last(), token_id, n);
        if entries.last().token_id@ == token_id && taken_ids(
            entries.drop_last(),
            token_id,
            n,
        ).len() < n {
            before
        } else {
            before.push(entries.last())
        }
    }
}

/// The entries without those of an id.
pub open spec fn without_id(entries: Seq<PoolEntry>, tx_id: Seq<char>) -> Seq<PoolEntry>
    decreases entries.len(),
{
    if entries.len() == 0 {
        Seq::empty()
    } else if entries.last().tx_id@ == tx_id {
        without_id(entries.drop_last(), tx_id)
    } else {
        without_id(entries.drop_last(), tx_id).push(entries.last())
    }
}

/// The pool entries of one token.
pub open spec fn entries_of(entries: Seq<PoolEntry>, token_id: Seq<u8>) -> Seq<PoolEntry> {
    entries.filter(|e: PoolEntry| e.token_id@ == token_id)
}

/// The ids that a sequence of entries carries.
pub open spec fn entry_ids(entries: Seq<PoolEntry>) -> Seq<Seq<char>> {
    Seq::new(entries.len(), |i: int| entries[i].tx_id@)
}

/// A dequeue hands out a token's entries in pool order: the ids are those of the
/// token's first `n` entries, the token keeps exactly the entries behind them,
/// and every other token keeps all of its own.
pub proof fn dequeue_takes_the_front(
    entries: Seq<PoolEntry>,
    token_id: Seq<u8>,
    n: nat,
    other: Seq<u8>,
)
    ensures
        ({
            let own = entries_of(entries, token_id);
            let taken = if own.len() < n {
                own.len()
            } else {
                n
            };
            &&& taken_ids(entries, token_id, n) == entry_ids(own.take(taken as int))
            &&& entries_of(left_entries(entries, token_id, n), token_id) == own.skip(taken as int)
        }),
        other != token_id ==> entries_of(left_entries(entries, token_id, n), other) == entries_of(
            entries,
            other,
        ),
    decreases entries.len(),
{
    let own = entries_of(entries, token_id);
    let pick = |e: PoolEntry| e.token_id@ == token_id;
    let pick_other = |e: PoolEntry| e.token_id@ == other;
    if entries.len() == 0 {
        reveal(Seq::filter);
        assert(own.len() == 0);
        assert(taken_ids(entries, token_id, n) =~= entry_ids(own.take(0)));
        assert(entries_of(left_entries(entries, token_id, n), token_id) =~= own.skip(0));
    } else {
        let init = entries.drop_last();
        let last = entries.last();
        dequeue_takes_the_front(init, token_id, n, other);
        let own_init = entries_of(init, token_id);
        let taken_init = if own_init.len() < n {
            own_init.len()
        } else {
            n
        };
        let taken = if own.len() < n {
            own.len()
        } else {
            n
        };
        let left_init = left_entries(init, token_id, n);
        let left = left_entries(entries, token_id, n);
        assert(own == if pick(last) {
            own_init.push(last)
        } else {
            own_init
        }) by {
            reveal(Seq::filter);
        }
        assert(entries_of(entries, other) == if pick_other(last) {
            entries_of(init, other).push(last)
        } else {
            entries_of(init, other)
        }) by {
            reveal(Seq::filter);
        }
        assert(left_init.push(last).drop_last() =~= left_init);
        assert(entries_of(left_init.push(last), token_id) == if pick(last) {
            entries_of(left_init, token_id).push(last)
        } else {
            entries_of(left_init, token_id)
        }) by {
            reveal(Seq::filter);
        }
        assert(entries_of(left_init.push(last), other) == if pick_other(last) {
            entries_of(left_init, other).push(last)
        } else {
            entries_of(left_init, other)
        }) by {
            reveal(Seq::filter);
        }
        assert(taken_ids(init, token_id, n).len() == taken_init);
        if pick(last) {
            if taken_init < n {
                assert(own.take(taken as int) =~= own_init.take(taken_init as int).push(last));
                assert(entry_ids(own.take(taken as int)) =~= entry_ids(
                    own_init.take(taken_init as int),
                ).push(last.tx_id@));
                assert(own.skip(taken as int) =~= own_init.skip(taken_init as int));
            } else {
                assert(own.take(taken as int) =~= own_init.take(taken_init as int));
                assert(own.skip(taken as int) =~= own_init.skip(taken_init as int).push(last));
            }
        }
    }
}

/// Removing an id leaves exactly the entries of other ids, in their order.
pub proof fn removal_keeps_the_others(entries: Seq<PoolEntry>, tx_id: Seq<char>)
    ensures
        without_id(entries, tx_id) == entries.filter(|e: PoolEntry| e.tx_id@ != tx_id),
    decreases entries.len(),
{
    reveal(Seq::filter);
    if entries.len() > 0 {
        removal_keeps_the_others(entries.drop_last(), tx_id);
    }
}

/// The strings that a sequence holds.
pub open spec fn string_views(items: Seq<String>) -> Seq<Seq<char>> {
    Seq::new(items.len(), |i: int| items[i]@)
}

/// `after` is `before` with `entry` put in at its place.
pub open spec fn inserted_in_order(
    before: Seq<PoolEntry>,
    after: Seq<PoolEntry>,
    entry: PoolEntry,
) -> bool {
    exists|p: int| #[trigger] insertion_point(before, entry, p) && after == before.insert(p, entry)
}

/// `p` is the place of `entry`: behind everything that it does not precede.
pub open spec fn insertion_point(before: Seq<PoolEntry>, entry: PoolEntry, p: int) -> bool {
    &&& 0 <= p <= before.len()
    &&& forall|i: int| 0 <= i < p ==> !precedes(entry, #[trigger] before[i])
    &&& p < before.len() ==> precedes(entry, before[p])
}

/// Validated transactions in the order in which a leader takes them.
#[derive(Debug)]
pub struct TransactionPool {
    entries: Vec<PoolEntry>,
}

fn entry_precedes(a: &PoolEntry, b: &PoolEntry) -> (r: bool)
    ensures
        r == precedes(*a, *b),
{
    if a.sequence_number != b.sequence_number {
        return a.sequence_number < b.sequence_number;
    }
    if a.timestamp != b.timestamp {
        return a.timestamp < b.timestamp;
    }
    proof {
        crate::bytes::lemma_lex_less_irreflexive(a.sender@);
    }
    if bytes_eq(&a.sender, &b.sender) {
        bytes_less(a.tx_id.as_str().as_bytes(), b.tx_id.as_str().as_bytes())
    } else {
        bytes_less(&a.sender, &b.sender)
    }
}

impl View for TransactionPool {
    type V = Seq<PoolEntry>;

    closed spec fn view(&self) -> Seq<PoolEntry> {
        self.entries@
    }
}

impl TransactionPool {
    pub fn new() -> (r: Self)
        ensures
            r@ == Seq::<PoolEntry>::empty(),
            pool_ordered(r@),
    {
        TransactionPool { entries: Vec::new() }
    }

    /// Put a transaction at its place in the pool.
    pub fn enqueue(
        &mut self,
        tx_id: String,
        token_id: Vec<u8>,
        sequence_number: usize,
        timestamp: i64,
        sender: Vec<u8>,
    )
        ensures
            inserted_in_order(
                old(self)@,
                final(self)@,
                (PoolEntry { tx_id, token_id, sequence_number, timestamp, sender }),
            ),
            pool_ordered(old(self)@) ==> pool_ordered(final(self)@),
    {
        let entry = PoolEntry { tx_id, token_id, sequence_number, timestamp, sender };
        let ghost before = self.entries@;
        let mut p: usize = 0;
        while p < self.entries.len() && !entry_precedes(&entry, &self.entries[p])
            invariant
                p <= self.entries@.len(),
                self.entries@ == before,
                forall|i: int| 0 <= i < p ==> !precedes(entry, #[trigger] before[i]),
            decreases self.entries@.len() - p,
        {
            p += 1;
        }
        assert(insertion_point(before, entry, p as int));
        self.entries.insert(p, entry);
        proof {
            if pool_ordered(before) {
                lemma_insertion_keeps_order(before, entry, p as int);
            }
        }
    }

    /// Take the first `n` transactions of a token out of the pool.
    pub fn dequeue_for_leader(&mut self, token_id: &[u8], n: usize) -> (r: Vec<String>)
        ensures
            string_views(r@) == taken_ids(old(self)@, token_id@, n as nat),
            final(self)@ == left_entries(old(self)@, token_id@, n as nat),
    {
        let ghost all = self.entries@;
        let mut entries: Vec<PoolEntry> = Vec::new();
        std::mem::swap(&mut entries, &mut self.entries);
        let mut taken: Vec<String> = Vec::new();
        let mut left: Vec<PoolEntry> = Vec::new();
        let count = entries.len();
        let mut k: usize = 0;
        assert(all.take(0) =~= Seq::empty());
        assert(string_views(taken@) =~= taken_ids(all.take(0), token_id@, n as nat));
        assert(left@ =~= left_entries(all.take(0), token_id@, n as nat));
        while k < count
            invariant
                k <= count,
                count == all.len(),
                entries@ == all.skip(k as int),
                string_views(taken@) == taken_ids(all.take(k as int), token_id@, n as nat),
                left@ == left_entries(all.take(k as int), token_id@, n as nat),
            decreases count - k,
        {
            assert(entries@[0] == all[k as int]);
            let entry = entries.remove(0);
            assert(entries@ =~= all.skip(k + 1));
            let ghost id = entry.tx_id@;
            let ghost before_taken = taken@;
            proof {
                assert(all.take(k + 1).drop_last() =~= all.take(k as int));
                assert(all.take(k + 1).last() == all[k as int]);
                assert(string_views(taken@).len() == taken@.len());
            }
            if taken.len() < n && bytes_eq(&entry.token_id, token_id) {
                taken.push(entry.tx_id);
                assert(string_views(taken@) =~= string_views(before_taken).push(id));
            } else {
                left.push(entry);
            }
            k += 1;
        }
        assert(all.take(k as int) =~= all);
        self.entries = left;
        taken
    }

    /// Take a transaction out of the pool.
    pub fn remove(&mut self, tx_id: &str)
        ensures
            final(self)@ == without_id(old(self)@, tx_id@),
    {
        let ghost all = self.entries@;
        let mut entries: Vec<PoolEntry> = Vec::new();
        std::mem::swap(&mut entries, &mut self.entries);
        let mut left: Vec<PoolEntry> = Vec::new();
        let count = entries.len();
        let mut k: usize = 0;
        assert(all.take(0) =~= Seq::empty());
        assert(left@ =~= without_id(all.take(0), tx_id@));
        while k < count
            invariant
                k <= count,
                count == all.len(),
                entries@ == all.skip(k as int),
                left@ == without_id(all.take(k as int), tx_id@),
            decreases count - k,
        {
            assert(entries@[0] == all[k as int]);
            let entry = entries.remove(0);
            assert(entries@ =~= all.skip(k + 1));
            proof {
                assert(all.take(k + 1).drop_last() =~= all.take(k as int));
                assert(all.take(k + 1).last() == all[k as int]);
            }
            if !crate::text::str_eq(entry.tx_id.as_str(), tx_id) {
                left.push(entry);
            }
            k += 1;
        }
        assert(all.take(k as int) =~= all);
        self.entries = left;
    }
}

/// Putting an entry at its place keeps the pool in order.
pub proof fn lemma_insertion_keeps_order(before: Seq<PoolEntry>, entry: PoolEntry, p: int)
    requires
        pool_ordered(before),
        insertion_point(before, entry, p),
    ensures
        pool_ordered(before.insert(p, entry)),
{
    let after = before.insert(p, entry);
    assert(forall|i: int| 0 <= i < p ==> #[trigger] after[i] == before[i]);
    assert(after[p] == entry);
    assert(forall|i: int| p < i < after.len() ==> #[trigger] after[i] == before[i - 1]);
    assert forall|i: int, j: int| 0 <= i < j < after.len() implies !precedes(
        #[trigger] after[j],
        #[trigger] after[i],
    ) by {
        if j == p {
            assert(!precedes(entry, before[i]));
        } else if i == p {
            lemma_precedes_asymmetric(entry, before[p]);
            if j - 1 > p {
                assert(!precedes(before[j - 1], before[p]));
                if precedes(before[j - 1], entry) {
                    lemma_not_precedes_transitive(before[p], before[j - 1], entry);
                }
            }
        } else if j < p {
            assert(!precedes(before[j], before[i]));
        } else if i < p {
            assert(!precedes(before[j - 1], before[i]));
        } else {
            assert(!precedes(before[j - 1], before[i - 1]));
        }
    }
}

/// Transactions leave the pool by sequence number, then by time; senders and ids
/// decide only between those that are equal in both. Any two entries that differ
/// in one of the four are ordered, one way only.
pub proof fn the_pool_order_is_strict_and_total(a: PoolEntry, b: PoolEntry)
    ensures
        a.sequence_number < b.sequence_number ==> precedes(a, b),
        a.sequence_number == b.sequence_number && a.timestamp < b.timestamp ==> precedes(a, b),
        a.sequence_number == b.sequence_number && a.timestamp == b.timestamp
            && crate::bytes::lex_less(a.sender@, b.sender@) ==> precedes(a, b),
        !(precedes(a, b) && precedes(b, a)),
        !precedes(a, b) && !precedes(b, a) ==> a.sequence_number == b.sequence_number
            && a.timestamp == b.timestamp && a.sender@ == b.sender@ && a.tx_id@ == b.tx_id@,
{
    if precedes(a, b) {
        lemma_precedes_asymmetric(a, b);
    }
    crate::bytes::lemma_lex_total(a.sender@, b.sender@);
    crate::bytes::lemma_lex_total(
        vstd::utf8::encode_utf8(a.tx_id@),
        vstd::utf8::encode_utf8(b.tx_id@),
    );
    crate::text::lemma_utf8_injective(a.tx_id@, b.tx_id@);
}

/// In an ordered pool no transaction waits behind one with a higher sequence
/// number, nor behind a later one with the same.
pub proof fn lower_sequence_numbers_leave_first(entries: Seq<PoolEntry>, i: int, j: int)
    requires
        pool_ordered(entries),
        0 <= i < j < entries.len(),
    ensures
        entries[i].sequence_number <= entries[j].sequence_number,
        entries[i].sequence_number == entries[j].sequence_number ==> entries[i].timestamp
            <= entries[j].timestamp,
{
    assert(!precedes(entries[j], entries[i]));
}

/// Putting a transaction into the pool adds it and nothing else, loses nothing,
/// and keeps the order.
pub proof fn insertion_adds_one_entry(
    before: Seq<PoolEntry>,
    after: Seq<PoolEntry>,
    entry: PoolEntry,
)
    requires
        inserted_in_order(before, after, entry),
    ensures
        after.len() == before.len() + 1,
        after.contains(entry),
        forall|e: PoolEntry| #[trigger] before.contains(e) ==> after.contains(e),
        forall|e: PoolEntry| #[trigger] after.contains(e) ==> e == entry || before.contains(e),
        pool_ordered(before) ==> pool_ordered(after),
{
    let p = choose|p: int| #[trigger]
        insertion_point(before, entry, p) && after == before.insert(p, entry);
    assert(after[p] == entry);
    assert(forall|k: int| 0 <= k < p ==> after[k] == before[k]);
    assert(forall|k: int| p < k < after.len() ==> after[k] == before[k - 1]);
    assert forall|e: PoolEntry| #[trigger] before.contains(e) implies after.contains(e) by {
        let k = choose|k: int| 0 <= k < before.len() && before[k] == e;
        if k < p {
            assert(after[k] == e);
        } else {
            assert(after[k + 1] == e);
        }
    }
    assert forall|e: PoolEntry| #[trigger] after.contains(e) implies e == entry || before.contains(
        e,
    ) by {
        let k = choose|k: int| 0 <= k < after.len() && after[k] == e;
        if k < p {
            assert(before[k] == e);
        } else if k > p {
            assert(before[k - 1] == e);
        }
    }
    if pool_ordered(before) {
        lemma_insertion_keeps_order(before, entry, p);
    }
}

/// Only committed and failed transactions are at their end.
pub proof fn committed_and_failed_are_terminal(state: TransactionState)
    ensures
        match state {
            TransactionState::Committed { .. } => state.terminal(),
            TransactionState::Failed { .. } => state.terminal(),
            TransactionState::Pending => !state.terminal(),
            TransactionState::Preloaded { .. } => !state.terminal(),
            TransactionState::Validated { .. } => !state.terminal(),
            TransactionState::Executing { .. } => !state.terminal(),
            TransactionState::Finalizing { .. } => !state.terminal(),
        },
{
}

} // verus!
