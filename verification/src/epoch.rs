//! Epochs: stake sets, deterministic selection, epoch boundaries, block
//! proposals and conflict resolution.
pub mod boundary;
pub mod candidates;
pub mod leader;
pub mod proposer;
pub mod snapshot_cache;
pub mod stake_sets;
pub mod types;

pub use self::boundary::EpochBoundaryDetector;
pub use self::candidates::CandidateRegistry;
pub use self::leader::{
    derive_selection_seed, deterministic_select, deterministic_select_shard, LeaderSelector,
    Shuffler, FINALIZER_DOMAIN, LEADER_DOMAIN, SHARD_INDEX_DOMAIN, SHARD_SHUFFLE_DOMAIN,
};
pub use self::proposer::{BlockProposer, IBlockProposer};
pub use self::snapshot_cache::EpochSnapshotCache;
pub use self::stake_sets::{ExecutorSet, StakeSet};
pub use self::types::{
    resolve_block_conflict, Conflict, ConflictResolution, Epoch, EpochReconciliation,
    IEpochLeaderSelector, IEpochReconciler, IStakingManager, StakingOp, StubEpochReconciler,
    StubStakingManager,
};
