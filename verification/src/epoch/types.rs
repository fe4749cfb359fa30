//! Epoch protocol types: epochs, staking operations, conflicts and their
//! resolution, and the interfaces of reconciliation, staking and leader
//! selection.
use crate::bytes::{bytes_eq, copy_bytes};
use crate::epoch::stake_sets::StakeSet;
use crate::errors::PneumaticError;
use vstd::prelude::*;

verus! {

/// A time-bounded period during which one leader produces blocks.
#[derive(Debug)]
pub struct Epoch {
    /// Timestamp when this epoch started
    pub start_timestamp: i64,
    /// Timestamp when this epoch ended
    pub end_timestamp: i64,
    /// Sequential epoch number
    pub epoch_number: u64,
    /// Leader public key for this epoch
    pub leader_public_key: Vec<u8>,
}

/// Two epochs agree in every field.
pub open spec fn same_epoch(a: Epoch, b: Epoch) -> bool {
    &&& a.start_timestamp == b.start_timestamp
    &&& a.end_timestamp == b.end_timestamp
    &&& a.epoch_number == b.epoch_number
    &&& a.leader_public_key@ == b.leader_public_key@
}

/// A copy of an epoch has the same number, leader and bounds.
pub proof fn copied_epochs_are_the_same(a: Epoch, b: Epoch)
    requires
        same_epoch(a, b),
    ensures
        a.epoch_number == b.epoch_number,
        a.leader_public_key@ == b.leader_public_key@,
        a.start_timestamp == b.start_timestamp,
        a.end_timestamp == b.end_timestamp,
{
}

impl Clone for Epoch {
    fn clone(&self) -> (r: Self)
        ensures
            same_epoch(r, *self),
    {
        Epoch {
            start_timestamp: self.start_timestamp,
            end_timestamp: self.end_timestamp,
            epoch_number: self.epoch_number,
            leader_public_key: copy_bytes(&self.leader_public_key),
        }
    }
}

/// Staking changes to apply during epoch reconciliation.
#[derive(Debug)]
pub enum StakingOp {
    /// Add a staker with their public key and stake amount
    AddStaker(Vec<u8>, u64),
    /// Remove a staker by public key
    RemoveStaker(Vec<u8>),
    /// Slash a staker's stake
    Slash(Vec<u8>, u64),
    /// Reward a staker with additional stake
    Reward(Vec<u8>, u64),
}

/// Two operations do the same to the same staker.
pub open spec fn same_staking_op(a: StakingOp, b: StakingOp) -> bool {
    match (a, b) {
        (StakingOp::AddStaker(k, n), StakingOp::AddStaker(l, m)) => k@ == l@ && n == m,
        (StakingOp::RemoveStaker(k), StakingOp::RemoveStaker(l)) => k@ == l@,
        (StakingOp::Slash(k, n), StakingOp::Slash(l, m)) => k@ == l@ && n == m,
        (StakingOp::Reward(k, n), StakingOp::Reward(l, m)) => k@ == l@ && n == m,
        _ => false,
    }
}

impl Clone for StakingOp {
    fn clone(&self) -> (r: Self)
        ensures
            same_staking_op(r, *self),
    {
        match self {
            StakingOp::AddStaker(key, n) => StakingOp::AddStaker(copy_bytes(key), *n),
            StakingOp::RemoveStaker(key) => StakingOp::RemoveStaker(copy_bytes(key)),
            StakingOp::Slash(key, n) => StakingOp::Slash(copy_bytes(key), *n),
            StakingOp::Reward(key, n) => StakingOp::Reward(copy_bytes(key), *n),
        }
    }
}

/// Two block proposals at the same height.
#[derive(Debug)]
pub struct Conflict {
    /// First proposed block hash
    pub block_a: Vec<u8>,
    /// Second proposed block hash
    pub block_b: Vec<u8>,
    /// Stake backing block A
    pub stake_a: u64,
    /// Stake backing block B
    pub stake_b: u64,
}

impl Clone for Conflict {
    fn clone(&self) -> (r: Self)
        ensures
            r.block_a@ == self.block_a@,
            r.block_b@ == self.block_b@,
            r.stake_a == self.stake_a,
            r.stake_b == self.stake_b,
    {
        Conflict {
            block_a: copy_bytes(&self.block_a),
            block_b: copy_bytes(&self.block_b),
            stake_a: self.stake_a,
            stake_b: self.stake_b,
        }
    }
}

/// What a reconciler found: the operations to apply, as data.
#[derive(Debug)]
pub struct EpochReconciliation {
    /// Tokens with misshapen chains that need repair
    pub misshapen_tokens: Vec<Vec<u8>>,
    /// Finalization conflicts that need resolution
    pub finalization_conflicts: Vec<Conflict>,
    /// Staking operations derived from chain analysis
    pub slashing_ops: Vec<StakingOp>,
    /// Reward operations derived from chain analysis
    pub reward_ops: Vec<StakingOp>,
}

impl EpochReconciliation {
    /// There is nothing to apply.
    pub open spec fn nothing(&self) -> bool {
        &&& self.misshapen_tokens@.len() == 0
        &&& self.finalization_conflicts@.len() == 0
        &&& self.slashing_ops@.len() == 0
        &&& self.reward_ops@.len() == 0
    }
}

impl Default for EpochReconciliation {
    fn default() -> (r: Self)
        ensures
            r.nothing(),
    {
        EpochReconciliation {
            misshapen_tokens: Vec::new(),
            finalization_conflicts: Vec::new(),
            slashing_ops: Vec::new(),
            reward_ops: Vec::new(),
        }
    }
}

/// Examines chain state at epoch boundaries and returns operations to apply.
pub trait IEpochReconciler: Send + Sync {
    /// Run reconciliation and return the data to apply
    fn reconcile(&self) -> EpochReconciliation;
}

/// Applies staking operations from reconciliation.
pub trait IStakingManager: Send + Sync {
    /// Apply a batch of staking operations from reconciliation
    fn apply_ops(&self, ops: &EpochReconciliation) -> Result<(), PneumaticError>;
}

/// Selects the block leader of an epoch.
pub trait IEpochLeaderSelector: Send + Sync {
    /// Select the leader from the current stake set, bound to the epoch number
    /// and the previous block hash.
    fn select(&self, stakers: &StakeSet, epoch_number: u64, prev_block_hash: &[u8]) -> Vec<u8>;
}

/// A reconciler that finds nothing.
pub struct StubEpochReconciler;

impl IEpochReconciler for StubEpochReconciler {
    fn reconcile(&self) -> (r: EpochReconciliation)
        ensures
            r.nothing(),
    {
        EpochReconciliation::default()
    }
}

/// A staking manager that accepts everything and keeps nothing.
pub struct StubStakingManager;

impl IStakingManager for StubStakingManager {
    fn apply_ops(&self, _ops: &EpochReconciliation) -> (r: Result<(), PneumaticError>)
        ensures
            r is Ok,
    {
        Ok(())
    }
}

impl Epoch {
    /// Create a new epoch with the leader that `selector` picks.
    pub fn new_with_leader<S: IEpochLeaderSelector>(
        epoch_number: u64,
        start_timestamp: i64,
        end_timestamp: i64,
        selector: &S,
        stake_set: &StakeSet,
        prev_block_hash: &[u8],
    ) -> (r: Self)
        ensures
            r.start_timestamp == start_timestamp,
            r.end_timestamp == end_timestamp,
            r.epoch_number == epoch_number,
            call_ensures(
                S::select,
                (selector, stake_set, epoch_number, prev_block_hash),
                r.leader_public_key,
            ),
    {
        let leader_public_key = selector.select(stake_set, epoch_number, prev_block_hash);
        Epoch { start_timestamp, end_timestamp, epoch_number, leader_public_key }
    }
}

/// How the system responds to a block conflict.
#[derive(Debug)]
pub enum ConflictResolution {
    /// The proposers differ in stake: commit the winner, discard the loser.
    DiscardLoser(Vec<u8>),
    /// One proposer signed both blocks: commit the winner, slash the proposer.
    SameProposerSlash(Vec<u8>, Vec<u8>),
    /// Different proposers with equal stakes: flag both blocks, commit neither.
    TieFlagBoth(Vec<u8>),
}

/// Two resolutions say the same.
pub open spec fn same_resolution(a: ConflictResolution, b: ConflictResolution) -> bool {
    match (a, b) {
        (ConflictResolution::DiscardLoser(x), ConflictResolution::DiscardLoser(y)) => x@ == y@,
        (
            ConflictResolution::SameProposerSlash(x, k),
            ConflictResolution::SameProposerSlash(y, l),
        ) => x@ == y@ && k@ == l@,
        (ConflictResolution::TieFlagBoth(x), ConflictResolution::TieFlagBoth(y)) => x@ == y@,
        _ => false,
    }
}

impl Clone for ConflictResolution {
    fn clone(&self) -> (r: Self)
        ensures
            same_resolution(r, *self),
    {
        match self {
            ConflictResolution::DiscardLoser(x) => ConflictResolution::DiscardLoser(copy_bytes(x)),
            ConflictResolution::SameProposerSlash(
                x,
                k,
            ) => ConflictResolution::SameProposerSlash(copy_bytes(x), copy_bytes(k)),
            ConflictResolution::TieFlagBoth(x) => ConflictResolution::TieFlagBoth(copy_bytes(x)),
        }
    }
}

/// `r` is the response to the proposals `hash_a` and `hash_b`: more stake wins;
/// with equal stakes one proposer of both is slashed, and two different ones
/// are both flagged.
pub open spec fn resolves(
    hash_a: Seq<u8>,
    hash_b: Seq<u8>,
    proposer_a: Seq<u8>,
    proposer_b: Seq<u8>,
    stakes: Map<Seq<u8>, u64>,
    r: ConflictResolution,
) -> bool {
    let stake_a = crate::epoch::stake_sets::stake_of(stakes, proposer_a);
    let stake_b = crate::epoch::stake_sets::stake_of(stakes, proposer_b);
    if stake_a > stake_b {
        r matches ConflictResolution::DiscardLoser(winner) && winner@ == hash_a
    } else if stake_b > stake_a {
        r matches ConflictResolution::DiscardLoser(winner) && winner@ == hash_b
    } else if proposer_a == proposer_b {
        r matches ConflictResolution::SameProposerSlash(winner, slashed) && winner@ == hash_a
            && slashed@ == proposer_a
    } else {
        r matches ConflictResolution::TieFlagBoth(flagged) && flagged@ == hash_a
    }
}

/// Resolve a conflict between two block proposals at the same height.
///
/// Equal stakes with different proposers commit neither block: block hashes are
/// searchable, so no order of hashes decides.
pub fn resolve_block_conflict(
    block_a_hash: &[u8],
    block_b_hash: &[u8],
    proposer_a: &[u8],
    proposer_b: &[u8],
    stake_set: &StakeSet,
) -> (r: Result<ConflictResolution, PneumaticError>)
    ensures
        r matches Ok(resolution) && resolves(
            block_a_hash@,
            block_b_hash@,
            proposer_a@,
            proposer_b@,
            stake_set.stakers@,
            resolution,
        ),
{
    let stake_a = stake_set.get_stake(proposer_a);
    let stake_b = stake_set.get_stake(proposer_b);
    if stake_a > stake_b {
        return Ok(ConflictResolution::DiscardLoser(copy_bytes(block_a_hash)));
    }
    if stake_b > stake_a {
        return Ok(ConflictResolution::DiscardLoser(copy_bytes(block_b_hash)));
    }
    if bytes_eq(proposer_a, proposer_b) {
        return Ok(
            ConflictResolution::SameProposerSlash(copy_bytes(block_a_hash), copy_bytes(proposer_a)),
        );
    }
    Ok(ConflictResolution::TieFlagBoth(copy_bytes(block_a_hash)))
}

/// A race between proposers is decided the same way whichever proposal is named
/// first: both orders name the same winner, or none.
pub proof fn resolution_is_symmetric(
    hash_a: Seq<u8>,
    hash_b: Seq<u8>,
    proposer_a: Seq<u8>,
    proposer_b: Seq<u8>,
    stakes: Map<Seq<u8>, u64>,
    r: ConflictResolution,
    s: ConflictResolution,
)
    requires
        resolves(hash_a, hash_b, proposer_a, proposer_b, stakes, r),
        resolves(hash_b, hash_a, proposer_b, proposer_a, stakes, s),
    ensures
        r is DiscardLoser <==> s is DiscardLoser,
        r is DiscardLoser ==> same_resolution(r, s),
        r is SameProposerSlash <==> s is SameProposerSlash,
        r is SameProposerSlash ==> r->SameProposerSlash_1@ == s->SameProposerSlash_1@,
        r is TieFlagBoth <==> s is TieFlagBoth,
{
}

/// More stake wins: a winner is named with its rival discarded exactly where one
/// proposer has strictly more stake than the other, and it is that one's block.
/// Equal stakes of two proposers commit neither block; one proposer of both is
/// the one that is slashed. A proposer without an entry has no stake.
pub proof fn more_stake_wins(
    hash_a: Seq<u8>,
    hash_b: Seq<u8>,
    proposer_a: Seq<u8>,
    proposer_b: Seq<u8>,
    stakes: Map<Seq<u8>, u64>,
    r: ConflictResolution,
)
    requires
        resolves(hash_a, hash_b, proposer_a, proposer_b, stakes, r),
    ensures
        ({
            let a = if stakes.contains_key(proposer_a) {
                stakes[proposer_a]
            } else {
                0
            };
            let b = if stakes.contains_key(proposer_b) {
                stakes[proposer_b]
            } else {
                0
            };
            match r {
                ConflictResolution::DiscardLoser(winner) => a != b && (a > b ==> winner@ == hash_a)
                    && (b > a ==> winner@ == hash_b),
                ConflictResolution::SameProposerSlash(winner, slashed) => proposer_a == proposer_b
                    && slashed@ == proposer_a && winner@ == hash_a,
                ConflictResolution::TieFlagBoth(flagged) => proposer_a != proposer_b && a == b
                    && flagged@ == hash_a,
            }
        }),
{
}

} // verus!
