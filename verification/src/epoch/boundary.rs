//! Epoch advancement, and detection of blocks of the previous leader.
use crate::bytes::{bytes_eq, copy_bytes};
use crate::epoch::stake_sets::StakeSet;
use crate::epoch::types::{Epoch, IEpochLeaderSelector};
use vstd::prelude::*;

verus! {

/// Detects epoch expiry and stale blocks, and advances to new epochs.
#[derive(Debug)]
pub struct EpochBoundaryDetector {
    /// The current epoch
    pub current_epoch: Epoch,
    /// The leader from the previous epoch
    pub previous_leader: Option<Vec<u8>>,
}

/// Two optional keys hold the same bytes.
pub open spec fn same_key(a: Option<Vec<u8>>, b: Option<Vec<u8>>) -> bool {
    match (a, b) {
        (Some(x), Some(y)) => x@ == y@,
        (None, None) => true,
        _ => false,
    }
}

/// An epoch is over from its end on.
pub open spec fn expired(epoch: Epoch, now: i64) -> bool {
    now >= epoch.end_timestamp
}

/// A block is stale where the leader of the previous epoch proposed it.
pub open spec fn stale(detector: EpochBoundaryDetector, proposer: Seq<u8>) -> bool {
    detector.previous_leader matches Some(key) && key@ == proposer
}

/// `after` stands in the epoch that follows on that of `before`: it has the next
/// number, starts where that one ends and lasts for the duration. The leader of
/// the epoch before becomes the previous one, if there was one.
pub open spec fn advanced(
    before: EpochBoundaryDetector,
    duration: i64,
    after: EpochBoundaryDetector,
) -> bool {
    &&& after.current_epoch.epoch_number == before.current_epoch.epoch_number + 1
    &&& after.current_epoch.start_timestamp == before.current_epoch.end_timestamp
    &&& after.current_epoch.end_timestamp == before.current_epoch.end_timestamp + duration
    &&& before.current_epoch.leader_public_key@.len() > 0 ==> (
    after.previous_leader matches Some(key) && key@ == before.current_epoch.leader_public_key@)
    &&& before.current_epoch.leader_public_key@.len() == 0 ==> after.previous_leader
        == before.previous_leader
}

/// Epochs follow on each other without a gap and without an overlap: every
/// moment from the start of the new epoch on finds the old one over, no moment
/// before does, and the new one is over after its duration and not earlier.
pub proof fn epochs_follow_on_each_other(
    before: EpochBoundaryDetector,
    duration: i64,
    after: EpochBoundaryDetector,
    now: i64,
)
    requires
        advanced(before, duration, after),
        duration > 0,
    ensures
        after.current_epoch.epoch_number > before.current_epoch.epoch_number,
        expired(before.current_epoch, now) <==> now >= after.current_epoch.start_timestamp,
        expired(after.current_epoch, now) <==> now - before.current_epoch.end_timestamp >= duration,
        expired(after.current_epoch, now) ==> expired(before.current_epoch, now),
        !expired(after.current_epoch, after.current_epoch.start_timestamp),
        after.current_epoch.end_timestamp - after.current_epoch.start_timestamp == duration,
{
}

/// Once an epoch is over, the blocks of its leader are stale and those of nobody
/// else; where it had no leader, the one before it stays the stale one.
pub proof fn only_the_last_leader_is_stale(
    before: EpochBoundaryDetector,
    duration: i64,
    after: EpochBoundaryDetector,
    proposer: Seq<u8>,
)
    requires
        advanced(before, duration, after),
    ensures
        before.current_epoch.leader_public_key@.len() > 0 ==> (stale(after, proposer) <==> proposer
            == before.current_epoch.leader_public_key@),
        before.current_epoch.leader_public_key@.len() == 0 ==> (stale(after, proposer) <==> stale(
            before,
            proposer,
        )),
        before.previous_leader is None && before.current_epoch.leader_public_key@.len() == 0
            ==> !stale(after, proposer),
{
}

impl Clone for EpochBoundaryDetector {
    fn clone(&self) -> (r: Self)
        ensures
            crate::epoch::types::same_epoch(r.current_epoch, self.current_epoch),
            same_key(r.previous_leader, self.previous_leader),
    {
        EpochBoundaryDetector {
            current_epoch: self.current_epoch.clone(),
            previous_leader: match &self.previous_leader {
                Some(key) => Some(copy_bytes(key)),
                None => None,
            },
        }
    }
}

impl EpochBoundaryDetector {
    pub fn new(epoch: Epoch) -> (r: Self)
        ensures
            r.current_epoch == epoch,
            r.previous_leader is None,
    {
        EpochBoundaryDetector { current_epoch: epoch, previous_leader: None }
    }

    /// Check if the current epoch has expired at the given timestamp.
    pub fn is_epoch_expired(&self, now: i64) -> (r: bool)
        ensures
            r == (now >= self.current_epoch.end_timestamp),
            r == expired(self.current_epoch, now),
    {
        now >= self.current_epoch.end_timestamp
    }

    /// Return the current epoch's leader.
    pub fn current_leader(&self) -> (r: Option<&[u8]>)
        ensures
            r is Some <==> self.current_epoch.leader_public_key@.len() > 0,
            r matches Some(key) ==> key@ == self.current_epoch.leader_public_key@,
    {
        if self.current_epoch.leader_public_key.len() == 0 {
            None
        } else {
            Some(self.current_epoch.leader_public_key.as_slice())
        }
    }

    /// Advance to the next epoch, which starts where this one ends, with a
    /// newly selected leader. An epoch without a leader leaves the remembered
    /// previous leader as it was.
    pub fn advance_to_new_epoch<S: IEpochLeaderSelector>(
        &mut self,
        selector: &S,
        stake_set: &StakeSet,
        epoch_duration: i64,
        prev_block_hash: &[u8],
    )
        requires
            old(self).current_epoch.epoch_number < u64::MAX,
            i64::MIN <= old(self).current_epoch.end_timestamp + epoch_duration <= i64::MAX,
        ensures
            final(self).current_epoch.epoch_number == old(self).current_epoch.epoch_number + 1,
            final(self).current_epoch.start_timestamp == old(self).current_epoch.end_timestamp,
            final(self).current_epoch.end_timestamp == old(self).current_epoch.end_timestamp
                + epoch_duration,
            old(self).current_epoch.leader_public_key@.len() > 0 ==> (
            final(self).previous_leader matches Some(key) && key@ == old(
                self,
            ).current_epoch.leader_public_key@),
            old(self).current_epoch.leader_public_key@.len() == 0 ==> final(self).previous_leader
                == old(self).previous_leader,
            advanced(*old(self), epoch_duration, *final(self)),
            call_ensures(
                S::select,
                (
                    selector,
                    stake_set,
                    final(self).current_epoch.epoch_number,
                    prev_block_hash,
                ),
                final(self).current_epoch.leader_public_key,
            ),
    {
        if self.current_epoch.leader_public_key.len() > 0 {
            self.previous_leader = Some(copy_bytes(&self.current_epoch.leader_public_key));
        }
        let now = self.current_epoch.end_timestamp;
        let new_epoch_number = self.current_epoch.epoch_number + 1;
        self.current_epoch =
        Epoch::new_with_leader(
            new_epoch_number,
            now,
            now + epoch_duration,
            selector,
            stake_set,
            prev_block_hash,
        );
    }

    /// Check if a block was proposed by the previous epoch's leader.
    pub fn is_stale_block(&self, proposer_key: &[u8]) -> (r: bool)
        ensures
            r == (self.previous_leader matches Some(key) && key@ == proposer_key@),
            r == stale(*self, proposer_key@),
    {
        match &self.previous_leader {
            Some(previous) => bytes_eq(previous, proposer_key),
            None => false,
        }
    }
}

} // verus!
