//! Blocks and block chains.
use crate::bytes::{append_bytes, bytes_eq, copy_bytes};
use crate::encoding::{pack_bytes, pack_i64, pack_text_map, pack_u64};
use crate::primitives::digest_sha256;
use crate::sorted_map::TextMap;
use crate::tokens::Token;
use crate::transactions::{canonical_signed_trans_bytes, SignedTransaction};
use std::collections::VecDeque;
use vstd::prelude::*;

verus! {

/// Whether a block could still be superseded.
#[derive(Debug, Clone, Copy, PartialEq, Eq, Structural)]
pub enum FinalityStatus {
    /// Committed without conflict, but a higher-stake proposal could still win
    Optimistic,
    /// Observed without conflict for long enough to be irreversible
    Confirmed,
}

#[derive(Debug)]
pub struct Block {
    pub signed_trans: SignedTransaction,
    pub token_metadata: TextMap,
    pub previous_hash: Vec<u8>,
    pub current_hash: Vec<u8>,
    pub timestamp: i64,
    /// Whether this block is optimistically committed or confirmed
    pub finality_status: FinalityStatus,
    /// Public key of the proposer who created this block
    pub proposer_key: Vec<u8>,
    /// Epoch number at which this block was proposed
    pub epoch_number: u64,
}

/// Two blocks agree in every field.
pub open spec fn same_block(a: Block, b: Block) -> bool {
    &&& crate::transactions::same_signed(a.signed_trans, b.signed_trans)
    &&& a.token_metadata@ == b.token_metadata@
    &&& a.token_metadata.pairs() == b.token_metadata.pairs()
    &&& a.previous_hash@ == b.previous_hash@
    &&& a.current_hash@ == b.current_hash@
    &&& a.timestamp == b.timestamp
    &&& a.finality_status == b.finality_status
    &&& a.proposer_key@ == b.proposer_key@
    &&& a.epoch_number == b.epoch_number
}

/// The bytes that a block's hash is the digest of.
pub open spec fn hash_input(block: Block) -> Seq<u8> {
    block.previous_hash@ + crate::encoding::packed_i64(block.timestamp)
        + crate::transactions::canonical_signed(block.signed_trans)
        + crate::encoding::text_map_bytes(block.token_metadata.pairs())
        + crate::encoding::packed_bytes(block.proposer_key@) + crate::encoding::packed_u64(
        block.epoch_number,
    )
}

/// The hash that belongs to a block's contents.
pub open spec fn block_hash(block: Block) -> Seq<u8> {
    crate::primitives::sha256_digest(hash_input(block))@
}

/// `chrono::Utc::now`: the seconds since the Unix epoch. Nothing is stated of
/// the clock.
#[verifier::external_body]
fn utc_timestamp() -> (r: i64)
{
    chrono::Utc::now().timestamp()
}

impl Block {
    /// A new block on top of `blockchain`, stamped with the current time. Its
    /// hash is still to be filled in.
    pub fn from_transaction(
        signed: SignedTransaction,
        blockchain: Blockchain,
        token: &Token,
        epoch_number: u64,
    ) -> (r: Self)
        ensures
            next_block(signed, blockchain, *token, epoch_number, r.timestamp, r),
    {
        Block::from_transaction_at(signed, blockchain, token, epoch_number, utc_timestamp())
    }

    /// A new block on top of `blockchain` with the given time. Its hash is still
    /// to be filled in.
    pub fn from_transaction_at(
        signed: SignedTransaction,
        blockchain: Blockchain,
        token: &Token,
        epoch_number: u64,
        timestamp: i64,
    ) -> (r: Self)
        ensures
            next_block(signed, blockchain, *token, epoch_number, timestamp, r),
    {
        let previous_hash = if blockchain.get_count() == 0 {
            Vec::new()
        } else {
            blockchain.get_current_chain_state().last_hash_in
        };
        let proposer_key = copy_bytes(&signed.leader_address);
        Block {
            signed_trans: signed,
            token_metadata: token.metadata.duplicate(),
            previous_hash,
            timestamp,
            current_hash: Vec::new(),
            finality_status: FinalityStatus::Optimistic,
            proposer_key,
            epoch_number,
        }
    }
}

/// `block` is the unhashed block that follows on `blockchain`.
pub open spec fn next_block(
    signed: SignedTransaction,
    blockchain: Blockchain,
    token: Token,
    epoch_number: u64,
    timestamp: i64,
    block: Block,
) -> bool {
    &&& block.signed_trans == signed
    &&& block.token_metadata@ == token.metadata@
    &&& block.token_metadata.pairs() == token.metadata.pairs()
    &&& block.previous_hash@ == chain_tip(blockchain.chain@)
    &&& block.current_hash@ == Seq::<u8>::empty()
    &&& block.timestamp == timestamp
    &&& block.finality_status == FinalityStatus::Optimistic
    &&& block.proposer_key@ == signed.leader_address@
    &&& block.epoch_number == epoch_number
}

/// A new block follows on its chain: once it carries its own hash, a valid chain
/// takes it. It holds the transaction that it was made for, names the leader of
/// that transaction as its proposer, and can still be superseded.
pub proof fn new_blocks_follow_on_their_chain(
    signed: SignedTransaction,
    blockchain: Blockchain,
    token: Token,
    epoch_number: u64,
    timestamp: i64,
    block: Block,
    hash: Vec<u8>,
)
    requires
        next_block(signed, blockchain, token, epoch_number, timestamp, block),
        hash@ == block_hash(block),
        chain_valid(blockchain.chain@),
    ensures
        may_follow(blockchain.chain@, (Block { current_hash: hash, ..block })),
        block.signed_trans == signed,
        block.proposer_key@ == signed.leader_address@,
        block.epoch_number == epoch_number,
        block.timestamp == timestamp,
        block.token_metadata@ == token.metadata@,
        block.finality_status == FinalityStatus::Optimistic,
        blockchain.chain@.len() == 0 ==> block.previous_hash@.len() == 0,
        blockchain.chain@.len() > 0 ==> block.previous_hash@
            == blockchain.chain@.last().current_hash@,
{
    let hashed = Block { current_hash: hash, ..block };
    assert(hash_input(hashed) == hash_input(block));
}

impl Clone for Block {
    fn clone(&self) -> (r: Self)
        ensures
            same_block(r, *self),
    {
        Block {
            signed_trans: self.signed_trans.clone(),
            token_metadata: self.token_metadata.duplicate(),
            previous_hash: copy_bytes(&self.previous_hash),
            current_hash: copy_bytes(&self.current_hash),
            timestamp: self.timestamp,
            finality_status: self.finality_status,
            proposer_key: copy_bytes(&self.proposer_key),
            epoch_number: self.epoch_number,
        }
    }
}

pub struct BlockFactory {}

impl BlockFactory {
    /// Create a block hash: the SHA-256 digest of the previous hash, the
    /// timestamp, the canonical transaction, the metadata in key order, the
    /// proposer key and the epoch number.
    pub fn create_hash(block: &Block) -> (r: Vec<u8>)
        ensures
            r@ == block_hash(*block),
            r@.len() == 32,
    {
        let mut input = copy_bytes(&block.previous_hash);
        append_bytes(&mut input, &pack_i64(block.timestamp));
        append_bytes(&mut input, &canonical_signed_trans_bytes(&block.signed_trans));
        append_bytes(&mut input, &pack_text_map(&block.token_metadata));
        append_bytes(&mut input, &pack_bytes(&block.proposer_key));
        append_bytes(&mut input, &pack_u64(block.epoch_number));
        digest_sha256(&input)
    }
}

/// Blocks that agree in every field have the same hash, however their maps were
/// filled.
pub proof fn block_hash_follows_the_fields(a: Block, b: Block)
    requires
        a.token_metadata.wf(),
        b.token_metadata.wf(),
        crate::transactions::same_signed(a.signed_trans, b.signed_trans),
        a.token_metadata@ == b.token_metadata@,
        a.previous_hash@ == b.previous_hash@,
        a.timestamp == b.timestamp,
        a.proposer_key@ == b.proposer_key@,
        a.epoch_number == b.epoch_number,
    ensures
        block_hash(a) == block_hash(b),
{
    crate::transactions::canonical_bytes_follow_the_fields(a.signed_trans, b.signed_trans);
    crate::sorted_map::text_pairs_are_canonical(&a.token_metadata, &b.token_metadata);
}

/// Every length in a block fits in 32 bits.
pub open spec fn short_block(block: Block) -> bool {
    &&& crate::transactions::short_signed(block.signed_trans)
    &&& crate::encoding::short_pairs(block.token_metadata.pairs())
    &&& block.proposer_key@.len() <= u32::MAX
}

/// The hashed bytes with more behind them, grouped from the back.
proof fn lemma_hash_input_grouped(t: Block, x: Seq<u8>)
    ensures
        hash_input(t) + x == t.previous_hash@ + (crate::encoding::packed_i64(t.timestamp) + (crate::transactions::canonical_signed(t.signed_trans) + (crate::encoding::text_map_bytes(t.token_metadata.pairs()) + (crate::encoding::packed_bytes(t.proposer_key@) + (crate::encoding::packed_u64(t.epoch_number) + x))))),
{
    let f0 = t.previous_hash@;
    let f1 = crate::encoding::packed_i64(t.timestamp);
    let f2 = crate::transactions::canonical_signed(t.signed_trans);
    let f3 = crate::encoding::text_map_bytes(t.token_metadata.pairs());
    let f4 = crate::encoding::packed_bytes(t.proposer_key@);
    let f5 = crate::encoding::packed_u64(t.epoch_number);
    let p0 = f0;
    let p1 = p0 + f1;
    let p2 = p1 + f2;
    let p3 = p2 + f3;
    let p4 = p3 + f4;
    let p5 = p4 + f5;
    let r6 = x;
    let r5 = f5 + r6;
    crate::bytes::lemma_regroup(p4, f5, r6);
    let r4 = f4 + r5;
    crate::bytes::lemma_regroup(p3, f4, r5);
    let r3 = f3 + r4;
    crate::bytes::lemma_regroup(p2, f3, r4);
    let r2 = f2 + r3;
    crate::bytes::lemma_regroup(p1, f2, r3);
    let r1 = f1 + r2;
    crate::bytes::lemma_regroup(p0, f1, r2);
    assert(hash_input(t) == p5);
}

/// The hash of a block covers all of its contents: two blocks on the same
/// previous hash whose hashed bytes are the same agree in the time, in every
/// field of the transaction and of its signatures, in the metadata, the proposer
/// and the epoch.
pub proof fn hashed_bytes_tell_the_contents(a: Block, b: Block)
    requires
        short_block(a),
        short_block(b),
        a.previous_hash@ == b.previous_hash@,
        hash_input(a) == hash_input(b),
    ensures
        a.timestamp == b.timestamp,
        a.signed_trans.transaction_id@ == b.signed_trans.transaction_id@,
        a.signed_trans.transaction.id@ == b.signed_trans.transaction.id@,
        a.signed_trans.transaction.action@ == b.signed_trans.transaction.action@,
        a.signed_trans.transaction.token_id@ == b.signed_trans.transaction.token_id@,
        a.signed_trans.transaction.bid == b.signed_trans.transaction.bid,
        a.signed_trans.transaction.sequence_number == b.signed_trans.transaction.sequence_number,
        a.signed_trans.transaction.sender@ == b.signed_trans.transaction.sender@,
        a.signed_trans.transaction.receiver@ == b.signed_trans.transaction.receiver@,
        a.signed_trans.transaction.amount == b.signed_trans.transaction.amount,
        a.signed_trans.transaction.timestamp == b.signed_trans.transaction.timestamp,
        a.signed_trans.transaction.result_hash@ == b.signed_trans.transaction.result_hash@,
        a.signed_trans.transaction.sender_signature@
            == b.signed_trans.transaction.sender_signature@,
        a.signed_trans.total_stake == b.signed_trans.total_stake,
        a.signed_trans.total_voters == b.signed_trans.total_voters,
        a.signed_trans.leader_address@ == b.signed_trans.leader_address@,
        a.signed_trans.leader_stake == b.signed_trans.leader_stake,
        a.signed_trans.leader_hash@ == b.signed_trans.leader_hash@,
        a.signed_trans.finalizer_addr@ == b.signed_trans.finalizer_addr@,
        a.signed_trans.finalizer_sig.signature@ == b.signed_trans.finalizer_sig.signature@,
        a.signed_trans.executor_sigs.listing().len()
            == b.signed_trans.executor_sigs.listing().len(),
        a.signed_trans.proposer_key@ == b.signed_trans.proposer_key@,
        crate::transactions::canonical_signed(a.signed_trans)
            == crate::transactions::canonical_signed(b.signed_trans),
        a.token_metadata.pairs() == b.token_metadata.pairs(),
        a.proposer_key@ == b.proposer_key@,
        a.epoch_number == b.epoch_number,
{
    let x5 = crate::encoding::packed_u64(a.epoch_number) + Seq::<u8>::empty();
    let y5 = crate::encoding::packed_u64(b.epoch_number) + Seq::<u8>::empty();
    let x4 = crate::encoding::packed_bytes(a.proposer_key@) + x5;
    let y4 = crate::encoding::packed_bytes(b.proposer_key@) + y5;
    let x3 = crate::encoding::text_map_bytes(a.token_metadata.pairs()) + x4;
    let y3 = crate::encoding::text_map_bytes(b.token_metadata.pairs()) + y4;
    let x2 = crate::transactions::canonical_signed(a.signed_trans) + x3;
    let y2 = crate::transactions::canonical_signed(b.signed_trans) + y3;
    let x1 = crate::encoding::packed_i64(a.timestamp) + x2;
    let y1 = crate::encoding::packed_i64(b.timestamp) + y2;
    lemma_hash_input_grouped(a, Seq::empty());
    lemma_hash_input_grouped(b, Seq::empty());
    assert(x1 == y1) by {
        let n = a.previous_hash@.len() as int;
        assert((a.previous_hash@ + x1).skip(n) =~= x1);
        assert((b.previous_hash@ + y1).skip(n) =~= y1);
    }
    crate::encoding::signed_numbers_are_readable(a.timestamp, b.timestamp, x2, y2);
    crate::transactions::signed_transactions_are_readable(
        a.signed_trans,
        b.signed_trans,
        x3,
        y3,
    );
    crate::encoding::text_maps_are_readable(
        a.token_metadata.pairs(),
        b.token_metadata.pairs(),
        x4,
        y4,
    );
    crate::encoding::byte_strings_are_readable(a.proposer_key@, b.proposer_key@, x5, y5);
    crate::encoding::numbers_are_readable(
        a.epoch_number,
        b.epoch_number,
        Seq::empty(),
        Seq::empty(),
    );
}

/// A block carries the hash that belongs to its contents.
pub open spec fn hash_matches(block: Block) -> bool {
    block.current_hash@ == block_hash(block)
}

/// The block at `i` names the hash of the block before it.
pub open spec fn linked_at(chain: Seq<Block>, i: int) -> bool {
    chain[i].previous_hash@ == chain[i - 1].current_hash@
}

/// Every block of the chain carries its own hash, and every block but the first
/// names the hash of the block before it.
pub open spec fn chain_valid(chain: Seq<Block>) -> bool {
    &&& forall|i: int| 0 <= i < chain.len() ==> hash_matches(#[trigger] chain[i])
    &&& forall|i: int| 1 <= i < chain.len() ==> #[trigger] linked_at(chain, i)
}

/// The hash that the next block has to name: that of the last block of a valid
/// chain, nothing for an empty or broken one.
pub open spec fn chain_tip(chain: Seq<Block>) -> Seq<u8> {
    if chain.len() > 0 && chain_valid(chain) {
        chain.last().current_hash@
    } else {
        Seq::empty()
    }
}

/// Whether a block may follow on a chain: the chain is valid, the block names its
/// tip and carries its own hash.
pub open spec fn may_follow(chain: Seq<Block>, block: Block) -> bool {
    &&& chain_valid(chain)
    &&& block.previous_hash@ == chain_tip(chain)
    &&& hash_matches(block)
}

#[derive(Debug)]
pub struct Blockchain {
    pub chain: VecDeque<Block>,
    /// Metadata about the blockchain (such as genesis hash and chain name)
    pub metadata: TextMap,
}

/// Two chains hold the same blocks and metadata.
pub open spec fn same_chain(a: Blockchain, b: Blockchain) -> bool {
    &&& a.chain@.len() == b.chain@.len()
    &&& forall|i: int|
        0 <= i < a.chain@.len() ==> same_block(#[trigger] a.chain@[i], b.chain@[i])
    &&& a.metadata@ == b.metadata@
    &&& a.metadata.pairs() == b.metadata.pairs()
}

/// A copy of a block carries its own hash exactly where the block does.
pub proof fn copied_blocks_hash_the_same(a: Block, b: Block)
    requires
        same_block(a, b),
    ensures
        hash_input(a) == hash_input(b),
        block_hash(a) == block_hash(b),
        hash_matches(a) == hash_matches(b),
        a.previous_hash@ == b.previous_hash@,
        a.current_hash@ == b.current_hash@,
        a.finality_status == b.finality_status,
        a.epoch_number == b.epoch_number,
        a.proposer_key@ == b.proposer_key@,
        a.token_metadata@ == b.token_metadata@,
{
    crate::transactions::canonical_bytes_follow_the_fields(a.signed_trans, b.signed_trans);
}

/// A copy of a chain is as valid as the chain, and has the same tip.
pub proof fn copied_chains_are_as_valid(a: Blockchain, b: Blockchain)
    requires
        same_chain(a, b),
    ensures
        a.chain@.len() == b.chain@.len(),
        chain_valid(a.chain@) == chain_valid(b.chain@),
        chain_tip(a.chain@) == chain_tip(b.chain@),
        a.metadata@ == b.metadata@,
{
    let x = a.chain@;
    let y = b.chain@;
    assert forall|i: int| 0 <= i < x.len() implies hash_matches(#[trigger] x[i]) == hash_matches(
        y[i],
    ) && x[i].previous_hash@ == y[i].previous_hash@ && x[i].current_hash@ == y[i].current_hash@ by {
        copied_blocks_hash_the_same(x[i], y[i]);
    }
    if chain_valid(x) {
        assert forall|i: int| 0 <= i < y.len() implies hash_matches(#[trigger] y[i]) by {
            assert(hash_matches(x[i]));
        }
        assert forall|i: int| 1 <= i < y.len() implies #[trigger] linked_at(y, i) by {
            assert(linked_at(x, i));
            assert(x[i].previous_hash@ == y[i].previous_hash@);
            assert(x[i - 1].current_hash@ == y[i - 1].current_hash@);
        }
    }
    if chain_valid(y) {
        assert forall|i: int| 0 <= i < x.len() implies hash_matches(#[trigger] x[i]) by {
            assert(hash_matches(y[i]));
        }
        assert forall|i: int| 1 <= i < x.len() implies #[trigger] linked_at(x, i) by {
            assert(linked_at(y, i));
            assert(x[i].previous_hash@ == y[i].previous_hash@);
            assert(x[i - 1].current_hash@ == y[i - 1].current_hash@);
        }
    }
    if x.len() > 0 {
        assert(x[x.len() - 1].current_hash@ == y[x.len() - 1].current_hash@);
    }
}

impl Clone for Blockchain {
    fn clone(&self) -> (r: Self)
        ensures
            same_chain(r, *self),
    {
        let mut chain: VecDeque<Block> = VecDeque::new();
        let mut i: usize = 0;
        while i < self.chain.len()
            invariant
                i <= self.chain@.len(),
                chain@.len() == i,
                forall|j: int|
                    0 <= j < i ==> same_block(#[trigger] chain@[j], self.chain@[j]),
            decreases self.chain@.len() - i,
        {
            chain.push_back(self.chain[i].clone());
            i += 1;
        }
        Blockchain { chain, metadata: self.metadata.duplicate() }
    }
}

impl Blockchain {
    pub fn new() -> (r: Self)
        ensures
            r.chain@ == Seq::<Block>::empty(),
            r.metadata@ == Map::<Seq<char>, Seq<char>>::empty(),
    {
        Blockchain { chain: VecDeque::new(), metadata: TextMap::new() }
    }

    pub fn get_count(&self) -> (r: usize)
        ensures
            r == self.chain@.len(),
    {
        self.chain.len()
    }

    pub fn add_block(&mut self, block: Block)
        ensures
            final(self).chain@ == old(self).chain@.push(block),
            final(self).metadata == old(self).metadata,
    {
        self.chain.push_back(block);
    }

    /// Take the first block out of the chain.
    pub fn remove_block(&mut self) -> (r: Option<Block>)
        ensures
            final(self).metadata == old(self).metadata,
            r == (if old(self).chain@.len() > 0 {
                Some(old(self).chain@[0])
            } else {
                None
            }),
            final(self).chain@ == (if old(self).chain@.len() > 0 {
                old(self).chain@.skip(1)
            } else {
                old(self).chain@
            }),
            first_removed(old(self).chain@, final(self).chain@, r),
    {
        let r = self.chain.pop_front();
        assert(self.chain@ =~= (if old(self).chain@.len() > 0 {
            old(self).chain@.skip(1)
        } else {
            old(self).chain@
        }));
        r
    }

    /// Whether the chain is valid, and the hash that the next block has to name.
    pub fn get_current_chain_state(&self) -> (r: ChainState)
        ensures
            r.is_valid == chain_valid(self.chain@),
            r.last_hash_in@ == chain_tip(self.chain@),
    {
        let n = self.chain.len();
        if n == 0 {
            return ChainState::empty();
        }
        let mut i: usize = 0;
        while i < n
            invariant
                i <= n,
                n == self.chain@.len(),
                forall|j: int| 0 <= j < i ==> hash_matches(#[trigger] self.chain@[j]),
                forall|j: int| 1 <= j < i ==> #[trigger] linked_at(self.chain@, j),
            decreases n - i,
        {
            let block = &self.chain[i];
            if i > 0 && !bytes_eq(&block.previous_hash, &self.chain[i - 1].current_hash) {
                assert(!linked_at(self.chain@, i as int));
                return ChainState::invalid();
            }
            if !bytes_eq(&BlockFactory::create_hash(block), &block.current_hash) {
                assert(!hash_matches(self.chain@[i as int]));
                return ChainState::invalid();
            }
            i += 1;
        }
        ChainState::new(true, &self.chain[n - 1])
    }

    /// Whether `next_block` may follow on this chain: the chain is valid, the
    /// block names its tip and carries its own hash.
    pub fn validate_next_block(&self, next_block: &Block) -> (r: bool)
        ensures
            r == (chain_valid(self.chain@) && next_block.previous_hash@ == chain_tip(self.chain@)
                && hash_matches(*next_block)),
            r == may_follow(self.chain@, *next_block),
    {
        let state = self.get_current_chain_state();
        if !state.is_valid {
            return false;
        }
        bytes_eq(&state.last_hash_in, &next_block.previous_hash) && bytes_eq(
            &next_block.current_hash,
            &BlockFactory::create_hash(next_block),
        )
    }

    /// Get a block by index.
    pub fn get_block_at(&self, index: usize) -> (r: Option<&Block>)
        ensures
            r is Some <==> index < self.chain@.len(),
            r matches Some(block) ==> *block == self.chain@[index as int],
    {
        if index < self.chain.len() {
            Some(&self.chain[index])
        } else {
            None
        }
    }

    /// Set the finality status of the first block with the given hash. Fails
    /// where no block has it.
    pub fn set_finality_status(&mut self, block_hash: &[u8], status: FinalityStatus) -> (r: Result<
        (),
        (),
    >)
        ensures
            final(self).metadata == old(self).metadata,
            r is Ok <==> exists|i: int| first_with_hash(old(self).chain@, block_hash@, i),
            r is Err ==> final(self).chain@ == old(self).chain@,
            forall|i: int|
                first_with_hash(old(self).chain@, block_hash@, i) ==> final(self).chain@
                    == old(self).chain@.update(i, with_finality(old(self).chain@[i], status)),
            finality_set(old(self).chain@, block_hash@, status, final(self).chain@, r),
    {
        let n = self.chain.len();
        let ghost before = self.chain@;
        let mut i: usize = 0;
        while i < n
            invariant
                i <= n,
                n == self.chain@.len(),
                self.chain@ == before,
                self.metadata == old(self).metadata,
                before == old(self).chain@,
                forall|j: int| 0 <= j < i ==> (#[trigger] before[j]).current_hash@ != block_hash@,
            decreases n - i,
        {
            if bytes_eq(&self.chain[i].current_hash, block_hash) {
                match self.chain.remove(i) {
                    Some(taken) => {
                        let mut block = taken;
                        block.finality_status = status;
                        self.chain.insert(i, block);
                        proof {
                            assert(first_with_hash(before, block_hash@, i as int));
                            assert(self.chain@ =~= before.update(
                                i as int,
                                with_finality(before[i as int], status),
                            ));
                        }
                        return Ok(());
                    },
                    None => {},
                }
            }
            i += 1;
        }
        Err(())
    }
}

/// `after` and `r` are what removing a block leads to: the first block leaves.
pub open spec fn first_removed(before: Seq<Block>, after: Seq<Block>, r: Option<Block>) -> bool {
    if before.len() > 0 {
        r == Some(before[0]) && after == before.skip(1)
    } else {
        r is None && after == before
    }
}

/// Blocks leave in the order in which they came: the one that leaves followed by
/// those that stay are the blocks that were there, and an empty chain gives none.
pub proof fn blocks_leave_in_order(before: Seq<Block>, after: Seq<Block>, r: Option<Block>)
    requires
        first_removed(before, after, r),
    ensures
        r is None <==> before.len() == 0,
        r matches Some(block) ==> before == seq![block] + after,
        r is None ==> after.len() == 0,
{
    if before.len() > 0 {
        assert(before =~= seq![before[0]] + before.skip(1));
    }
}

/// The block at `i` is the first with the hash.
pub open spec fn first_with_hash(chain: Seq<Block>, hash: Seq<u8>, i: int) -> bool {
    &&& 0 <= i < chain.len()
    &&& chain[i].current_hash@ == hash
    &&& forall|j: int| 0 <= j < i ==> (#[trigger] chain[j]).current_hash@ != hash
}

/// The block with another finality status.
pub open spec fn with_finality(block: Block, status: FinalityStatus) -> Block {
    Block { finality_status: status, ..block }
}

/// `after` and `r` are what setting the finality status of a block leads to.
pub open spec fn finality_set(
    before: Seq<Block>,
    hash: Seq<u8>,
    status: FinalityStatus,
    after: Seq<Block>,
    r: Result<(), ()>,
) -> bool {
    &&& r is Ok <==> exists|i: int| first_with_hash(before, hash, i)
    &&& r is Err ==> after == before
    &&& forall|i: int|
        first_with_hash(before, hash, i) ==> after == before.update(
            i,
            with_finality(before[i], status),
        )
}

/// Setting a finality status succeeds exactly where some block has the hash. It
/// changes the first such block and in it nothing but the status, so a chain stays
/// as valid as it was and keeps its tip.
pub proof fn finality_changes_nothing_else(
    before: Seq<Block>,
    hash: Seq<u8>,
    status: FinalityStatus,
    after: Seq<Block>,
    r: Result<(), ()>,
    i: int,
)
    requires
        finality_set(before, hash, status, after, r),
        0 <= i < before.len(),
    ensures
        r is Ok <==> exists|k: int|
            0 <= k < before.len() && (#[trigger] before[k]).current_hash@ == hash,
        after.len() == before.len(),
        after[i].signed_trans == before[i].signed_trans,
        after[i].current_hash == before[i].current_hash,
        after[i].previous_hash == before[i].previous_hash,
        before[i].current_hash@ == hash && (forall|j: int|
            0 <= j < i ==> (#[trigger] before[j]).current_hash@ != hash) ==> after[i].finality_status
            == status,
        before[i].current_hash@ != hash ==> after[i] == before[i],
        chain_valid(after) == chain_valid(before),
        chain_tip(after) == chain_tip(before),
{
    if exists|k: int| 0 <= k < before.len() && (#[trigger] before[k]).current_hash@ == hash {
        let k = choose|k: int|
            0 <= k < before.len() && (#[trigger] before[k]).current_hash@ == hash;
        let first = lemma_first_with_hash(before, hash, k);
        assert(after == before.update(first, with_finality(before[first], status)));
        if before[i].current_hash@ == hash && (forall|j: int|
            0 <= j < i ==> (#[trigger] before[j]).current_hash@ != hash) {
            assert(first_with_hash(before, hash, i));
            assert(first == i);
        }
    } else {
        assert(!exists|k: int| first_with_hash(before, hash, k));
    }
    assert forall|k: int| 0 <= k < before.len() implies hash_matches(#[trigger] after[k])
        == hash_matches(before[k]) && after[k].previous_hash == before[k].previous_hash
        && after[k].current_hash == before[k].current_hash by {
        assert(hash_input(after[k]) == hash_input(before[k]));
    }
    if chain_valid(before) {
        assert forall|k: int| 1 <= k < after.len() implies #[trigger] linked_at(after, k) by {
            assert(linked_at(before, k));
            assert(after[k].previous_hash == before[k].previous_hash);
            assert(after[k - 1].current_hash == before[k - 1].current_hash);
        }
    }
    if chain_valid(after) {
        assert forall|k: int| 0 <= k < before.len() implies hash_matches(#[trigger] before[k]) by {
            assert(hash_matches(after[k]));
        }
        assert forall|k: int| 1 <= k < before.len() implies #[trigger] linked_at(before, k) by {
            assert(linked_at(after, k));
            assert(after[k].previous_hash == before[k].previous_hash);
            assert(after[k - 1].current_hash == before[k - 1].current_hash);
        }
    }
    assert(after[after.len() - 1].current_hash == before[before.len() - 1].current_hash);
}

proof fn lemma_first_with_hash(chain: Seq<Block>, hash: Seq<u8>, k: int) -> (first: int)
    requires
        0 <= k < chain.len(),
        chain[k].current_hash@ == hash,
    ensures
        first_with_hash(chain, hash, first),
        first <= k,
    decreases k,
{
    if exists|j: int| 0 <= j < k && (#[trigger] chain[j]).current_hash@ == hash {
        let j = choose|j: int| 0 <= j < k && (#[trigger] chain[j]).current_hash@ == hash;
        lemma_first_with_hash(chain, hash, j)
    } else {
        k
    }
}

/// A block that names the tip of a valid chain and carries its own hash keeps
/// the chain valid, and its hash becomes the tip.
pub proof fn validated_block_extends_the_chain(chain: Seq<Block>, block: Block)
    requires
        chain_valid(chain),
        block.previous_hash@ == chain_tip(chain),
        hash_matches(block),
    ensures
        chain_valid(chain.push(block)),
        chain_tip(chain.push(block)) == block.current_hash@,
{
    let longer = chain.push(block);
    assert forall|i: int| 1 <= i < longer.len() implies #[trigger] linked_at(longer, i) by {
        if i < chain.len() {
            assert(linked_at(chain, i));
        } else {
            assert(longer[i] == block);
            assert(longer[i - 1] == chain.last());
        }
    }
    assert forall|i: int| 0 <= i < longer.len() implies hash_matches(#[trigger] longer[i]) by {
        if i < chain.len() {
            assert(longer[i] == chain[i]);
        }
    }
}

/// Every part of a valid chain without its last blocks is valid.
pub proof fn chain_prefix_is_valid(chain: Seq<Block>, n: int)
    requires
        chain_valid(chain),
        0 <= n <= chain.len(),
    ensures
        chain_valid(chain.take(n)),
{
    let shorter = chain.take(n);
    assert forall|i: int| 1 <= i < shorter.len() implies #[trigger] linked_at(shorter, i) by {
        assert(linked_at(chain, i));
    }
    assert forall|i: int| 0 <= i < shorter.len() implies hash_matches(#[trigger] shorter[i]) by {
        assert(shorter[i] == chain[i]);
    }
}

/// Taking the first block out keeps the rest of a valid chain valid.
pub proof fn removal_keeps_the_chain_valid(chain: Seq<Block>)
    requires
        chain_valid(chain),
        chain.len() > 0,
    ensures
        chain_valid(chain.skip(1)),
{
    let rest = chain.skip(1);
    assert forall|i: int| 1 <= i < rest.len() implies #[trigger] linked_at(rest, i) by {
        assert(linked_at(chain, i + 1));
    }
    assert forall|i: int| 0 <= i < rest.len() implies hash_matches(#[trigger] rest[i]) by {
        assert(rest[i] == chain[i + 1]);
    }
}

/// Finality is no part of the hash: changing it leaves the validity of the chain
/// and its tip as they are.
pub proof fn finality_leaves_the_chain_as_valid(chain: Seq<Block>, i: int, status: FinalityStatus)
    requires
        0 <= i < chain.len(),
    ensures
        block_hash(with_finality(chain[i], status)) == block_hash(chain[i]),
        chain_valid(chain.update(i, with_finality(chain[i], status))) == chain_valid(chain),
        chain_tip(chain.update(i, with_finality(chain[i], status))) == chain_tip(chain),
{
    let other = chain.update(i, with_finality(chain[i], status));
    assert(forall|j: int|
        0 <= j < chain.len() ==> (#[trigger] other[j]).current_hash == chain[j].current_hash
            && other[j].previous_hash == chain[j].previous_hash);
    assert forall|j: int| 0 <= j < chain.len() implies hash_matches(#[trigger] other[j])
        == hash_matches(chain[j]) by {}
    assert forall|j: int| 1 <= j < chain.len() implies #[trigger] linked_at(other, j)
        == linked_at(chain, j) by {}
    if chain_valid(chain) {
        assert forall|j: int| 1 <= j < other.len() implies #[trigger] linked_at(other, j) by {
            assert(linked_at(chain, j));
        }
    }
    if chain_valid(other) {
        assert forall|j: int| 0 <= j < chain.len() implies hash_matches(#[trigger] chain[j]) by {
            assert(hash_matches(other[j]));
        }
        assert forall|j: int| 1 <= j < chain.len() implies #[trigger] linked_at(chain, j) by {
            assert(linked_at(other, j));
        }
    }
}

/// A changed block breaks the chain: where the contents of a block no longer
/// give the hash that it carries, the chain is not valid.
pub proof fn altered_block_breaks_the_chain(chain: Seq<Block>, i: int)
    requires
        0 <= i < chain.len(),
        !hash_matches(chain[i]),
    ensures
        !chain_valid(chain),
        chain_tip(chain) == Seq::<u8>::empty(),
{
}

/// No stored block can be altered unnoticed: where a block is exchanged for one
/// that carries the same hashes and the chain still counts as valid, the two
/// agree in what was transferred, by whom and to whom, in the metadata, the
/// proposer, the epoch and the time, unless SHA-256 takes the different bytes of the
/// two to the same digest.
pub proof fn tampering_is_noticed(chain: Seq<Block>, i: int, other: Block)
    requires
        0 <= i < chain.len(),
        short_block(chain[i]),
        short_block(other),
        chain_valid(chain),
        chain_valid(chain.update(i, other)),
        other.previous_hash@ == chain[i].previous_hash@,
        other.current_hash@ == chain[i].current_hash@,
    ensures
        ({
            let kept = chain[i];
            &&& other.timestamp == kept.timestamp
            &&& other.signed_trans.transaction.token_id@ == kept.signed_trans.transaction.token_id@
            &&& other.signed_trans.transaction.sender@ == kept.signed_trans.transaction.sender@
            &&& other.signed_trans.transaction.receiver@ == kept.signed_trans.transaction.receiver@
            &&& other.signed_trans.transaction.amount == kept.signed_trans.transaction.amount
            &&& other.signed_trans.transaction.sequence_number
                == kept.signed_trans.transaction.sequence_number
            &&& other.signed_trans.leader_address@ == kept.signed_trans.leader_address@
            &&& other.token_metadata.pairs() == kept.token_metadata.pairs()
            &&& other.proposer_key@ == kept.proposer_key@
            &&& other.epoch_number == kept.epoch_number
        }) || (hash_input(chain[i]) != hash_input(other) && crate::primitives::sha256_digest(
            hash_input(chain[i]),
        ) == crate::primitives::sha256_digest(hash_input(other))),
{
    let changed = chain.update(i, other);
    assert(changed[i] == other);
    assert(hash_matches(chain[i]) && hash_matches(changed[i]));
    if hash_input(chain[i]) == hash_input(other) {
        hashed_bytes_tell_the_contents(chain[i], other);
    } else {
        assert(crate::primitives::sha256_digest(hash_input(chain[i]))
            =~= crate::primitives::sha256_digest(hash_input(other)));
    }
}

/// The links of a valid chain: each block but the first names the digest of the
/// contents of the block before it, and the tip is the digest of the last.
pub proof fn valid_chains_are_linked(chain: Seq<Block>, i: int)
    requires
        chain_valid(chain),
        0 < i < chain.len(),
    ensures
        chain[i].previous_hash@ == crate::primitives::sha256_digest(hash_input(chain[i - 1]))@,
        chain_tip(chain) == crate::primitives::sha256_digest(hash_input(chain.last()))@,
        chain_tip(chain).len() == 32,
{
    assert(linked_at(chain, i));
    assert(hash_matches(chain[i - 1]) && hash_matches(chain[chain.len() - 1]));
}

/// A block that names another tip, or whose contents do not give its hash, may
/// not follow.
pub proof fn stray_blocks_do_not_extend_the_chain(chain: Seq<Block>, block: Block)
    requires
        chain.len() > 0,
        block.previous_hash@ != chain.last().current_hash@ || block.current_hash@
            != crate::primitives::sha256_digest(hash_input(block))@,
    ensures
        !chain_valid(chain.push(block)),
{
    let longer = chain.push(block);
    let n = chain.len() as int;
    assert(longer[n] == block && longer[n - 1] == chain.last());
    if chain_valid(longer) {
        assert(linked_at(longer, n));
        assert(hash_matches(longer[n]));
    }
}

/// A block is let through exactly where the chain stays valid with it. The
/// first block of a chain has to name nothing before it.
pub proof fn validated_blocks_keep_the_chain_valid(chain: Seq<Block>, block: Block)
    ensures
        chain.len() > 0 ==> (may_follow(chain, block) <==> chain_valid(chain.push(block))),
        chain.len() == 0 ==> (may_follow(chain, block) <==> block.previous_hash@.len() == 0
            && chain_valid(chain.push(block))),
        may_follow(chain, block) ==> block.current_hash@
            == crate::primitives::sha256_digest(hash_input(block))@,
{
    let longer = chain.push(block);
    let n = chain.len() as int;
    assert(longer[n] == block);
    if may_follow(chain, block) {
        validated_block_extends_the_chain(chain, block);
    }
    if chain_valid(longer) {
        chain_prefix_is_valid(longer, n);
        assert(longer.take(n) =~= chain);
        assert(hash_matches(longer[n]));
        if n > 0 {
            assert(linked_at(longer, n));
        } else {
            assert(block.previous_hash@.len() == 0 ==> block.previous_hash@ =~= Seq::<u8>::empty());
        }
    }
}

/// The state of a chain as the next block sees it.
pub struct ChainState {
    pub is_valid: bool,
    pub last_hash_in: Vec<u8>,
}

impl Clone for ChainState {
    fn clone(&self) -> (r: Self)
        ensures
            r.is_valid == self.is_valid,
            r.last_hash_in@ == self.last_hash_in@,
    {
        ChainState { is_valid: self.is_valid, last_hash_in: copy_bytes(&self.last_hash_in) }
    }
}

impl ChainState {
    pub fn invalid() -> (r: Self)
        ensures
            !r.is_valid,
            r.last_hash_in@ == Seq::<u8>::empty(),
    {
        ChainState { is_valid: false, last_hash_in: Vec::new() }
    }

    pub fn new(valid: bool, last_block: &Block) -> (r: Self)
        ensures
            r.is_valid == valid,
            r.last_hash_in@ == last_block.current_hash@,
    {
        ChainState { is_valid: valid, last_hash_in: copy_bytes(&last_block.current_hash) }
    }

    pub fn empty() -> (r: Self)
        ensures
            r.is_valid,
            r.last_hash_in@ == Seq::<u8>::empty(),
    {
        ChainState { is_valid: true, last_hash_in: Vec::new() }
    }
}

} // verus!
