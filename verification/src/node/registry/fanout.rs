//! Fan-out: whom a broadcast goes to, and the count of failed deliveries.
use super::NodeRegistry;
use crate::bytes::copy_bytes;
use crate::conns::ConnError;
use crate::keyed_store::KeyedStore;
use crate::node::{NodeRecord, NodeRegistryType};
use crate::text::wrap;
use vstd::prelude::*;

verus! {

/// The key under which failed deliveries are counted: the address with the role.
pub open spec fn failure_key(rhash: Seq<u8>, role: NodeRegistryType) -> Seq<u8> {
    rhash.push(role.position())
}

/// Addresses and roles are counted separately.
pub proof fn failures_are_counted_separately(
    rhash1: Seq<u8>,
    role1: NodeRegistryType,
    rhash2: Seq<u8>,
    role2: NodeRegistryType,
)
    requires
        failure_key(rhash1, role1) == failure_key(rhash2, role2),
    ensures
        rhash1 == rhash2,
        role1 == role2,
{
    let a = failure_key(rhash1, role1);
    let b = failure_key(rhash2, role2);
    assert(a.last() == role1.position() && b.last() == role2.position());
    assert(a.drop_last() =~= rhash1);
    assert(b.drop_last() =~= rhash2);
    match role1 {
        NodeRegistryType::Committer => {},
        NodeRegistryType::Sentinel => {},
        NodeRegistryType::Executor => {},
        NodeRegistryType::Finalizer => {},
        NodeRegistryType::Archiver => {},
    }
}

fn make_failure_key(rhash: &[u8; 16], role: NodeRegistryType) -> (r: Vec<u8>)
    ensures
        r@ == failure_key(rhash@, role),
{
    let mut key = copy_bytes(rhash);
    key.push(role.index());
    key
}

/// How many deliveries failed, by key.
pub open spec fn count_of(failures: Map<Seq<u8>, u64>, key: Seq<u8>) -> u64 {
    if failures.contains_key(key) {
        failures[key]
    } else {
        0
    }
}

/// The sum of the counts of a list of keys.
pub open spec fn sum_of(failures: Map<Seq<u8>, u64>, keys: Seq<Seq<u8>>) -> nat
    decreases keys.len(),
{
    if keys.len() == 0 {
        0
    } else {
        sum_of(failures, keys.drop_last()) + failures[keys.last()] as nat
    }
}

/// All counts together.
pub open spec fn total_of(failures: Map<Seq<u8>, u64>) -> nat {
    sum_of(failures, failures.dom().to_seq())
}

/// The counts after one more failure for each of the keys.
pub open spec fn counted(failures: Map<Seq<u8>, u64>, keys: Seq<Seq<u8>>) -> Map<Seq<u8>, u64>
    decreases keys.len(),
{
    if keys.len() == 0 {
        failures
    } else {
        let before = counted(failures, keys.drop_last());
        before.insert(keys.last(), (count_of(before, keys.last()) + 1) as u64)
    }
}

/// Every failure counts once: a count grows by as many failures as were counted
/// under its key, and by no others.
pub proof fn every_failure_counts_once(
    failures: Map<Seq<u8>, u64>,
    keys: Seq<Seq<u8>>,
    key: Seq<u8>,
)
    requires
        count_of(failures, key) + keys.len() <= u64::MAX,
    ensures
        count_of(counted(failures, keys), key) == count_of(failures, key)
            + keys.to_multiset().count(key),
        keys.to_multiset().count(key) <= keys.len(),
    decreases keys.len(),
{
    broadcast use vstd::seq_lib::group_to_multiset_ensures;

    if keys.len() > 0 {
        let front = keys.drop_last();
        every_failure_counts_once(failures, front, key);
        assert(keys =~= front.push(keys.last()));
        assert(keys.to_multiset() == front.to_multiset().insert(keys.last()));
    }
}

/// The keys under which failures at a list of addresses are counted.
pub open spec fn failure_keys(failed: Seq<[u8; 16]>, role: NodeRegistryType) -> Seq<Seq<u8>> {
    Seq::new(failed.len(), |i: int| failure_key(failed[i]@, role))
}

/// A delivery of `data` to a node ended as `end` says.
pub open spec fn delivery_ended<F: Fn(&[u8], &[u8; 16], &[u8]) -> Option<ConnError>>(
    send: F,
    key: Seq<u8>,
    rhash: Seq<u8>,
    data: Seq<u8>,
    end: Option<ConnError>,
) -> bool {
    exists|k: &[u8], r: &[u8; 16], d: &[u8]|
        k@ == key && r@ == rhash && d@ == data && #[trigger] call_ensures(send, (k, r, d), end)
}

/// `peers` lists each node of a bucket once, with its address.
pub open spec fn lists_peers(
    bucket: Map<Seq<u8>, NodeRecord>,
    peers: Seq<(Vec<u8>, [u8; 16])>,
) -> bool {
    &&& forall|i: int|
        0 <= i < peers.len() ==> bucket.contains_key((#[trigger] peers[i]).0@)
            && bucket[peers[i].0@].rhash == peers[i].1@
    &&& forall|i: int, j: int|
        0 <= i < j < peers.len() ==> (#[trigger] peers[i]).0@ != (#[trigger] peers[j]).0@
    &&& forall|key: Seq<u8>| #[trigger]
        bucket.contains_key(key) ==> exists|i: int|
            0 <= i < peers.len() && (#[trigger] peers[i]).0@ == key
}

/// Each of the peers was sent `data`, and each delivery ended as `ends` says.
pub open spec fn sent_in_turn<F: Fn(&[u8], &[u8; 16], &[u8]) -> Option<ConnError>>(
    send: F,
    peers: Seq<(Vec<u8>, [u8; 16])>,
    data: Seq<u8>,
    ends: Seq<Option<ConnError>>,
) -> bool {
    &&& ends.len() == peers.len()
    &&& forall|i: int|
        0 <= i < peers.len() ==> delivery_ended(
            send,
            (#[trigger] peers[i]).0@,
            peers[i].1@,
            data,
            ends[i],
        )
}

/// The addresses of the peers whose deliveries failed.
pub open spec fn failed_addresses(
    peers: Seq<(Vec<u8>, [u8; 16])>,
    ends: Seq<Option<ConnError>>,
) -> Seq<[u8; 16]>
    decreases peers.len(),
{
    if peers.len() == 0 {
        Seq::empty()
    } else {
        let before = failed_addresses(peers.drop_last(), ends.drop_last());
        if ends.last() is Some {
            before.push(peers.last().1)
        } else {
            before
        }
    }
}

/// The failed addresses are those of the peers whose delivery failed, in the order
/// of the peers: nothing is listed for a delivery that went well.
pub proof fn failures_are_listed_in_turn(
    peers: Seq<(Vec<u8>, [u8; 16])>,
    ends: Seq<Option<ConnError>>,
    peer: (Vec<u8>, [u8; 16]),
    end: Option<ConnError>,
    address: [u8; 16],
)
    requires
        ends.len() == peers.len(),
    ensures
        failed_addresses(peers, ends).contains(address) <==> exists|i: int|
            0 <= i < peers.len() && (#[trigger] peers[i]).1 == address && ends[i] is Some,
        end is Some ==> failed_addresses(peers.push(peer), ends.push(end)) == failed_addresses(
            peers,
            ends,
        ).push(peer.1),
        end is None ==> failed_addresses(peers.push(peer), ends.push(end)) == failed_addresses(
            peers,
            ends,
        ),
{
    lemma_failed_are_listed(peers, ends, address);
    assert(peers.push(peer).drop_last() =~= peers);
    assert(ends.push(end).drop_last() =~= ends);
}

proof fn lemma_failed_are_listed(
    peers: Seq<(Vec<u8>, [u8; 16])>,
    ends: Seq<Option<ConnError>>,
    address: [u8; 16],
)
    requires
        ends.len() == peers.len(),
    ensures
        failed_addresses(peers, ends).contains(address) <==> exists|i: int|
            0 <= i < peers.len() && (#[trigger] peers[i]).1 == address && ends[i] is Some,
    decreases peers.len(),
{
    if peers.len() > 0 {
        let front = peers.drop_last();
        let last = peers.last();
        lemma_failed_are_listed(front, ends.drop_last(), address);
        let before = failed_addresses(front, ends.drop_last());
        assert(before.push(last.1).contains(address) <==> before.contains(address) || last.1
            == address) by {
            broadcast use vstd::seq_lib::group_seq_properties;

        }
        if before.contains(address) {
            let i = choose|i: int|
                0 <= i < front.len() && (#[trigger] front[i]).1 == address && ends.drop_last()[i]
                    is Some;
            assert(peers[i].1 == address && ends[i] is Some);
        }
        if ends.last() is Some && last.1 == address {
            assert(peers[peers.len() - 1].1 == address);
        }
        if exists|i: int|
            0 <= i < peers.len() && (#[trigger] peers[i]).1 == address && ends[i] is Some {
            let i = choose|i: int|
                0 <= i < peers.len() && (#[trigger] peers[i]).1 == address && ends[i] is Some;
            if i < front.len() {
                assert(front[i].1 == address && ends.drop_last()[i] is Some);
            }
        }
    }
}

/// Send data to peers, one after the other, and list the addresses where that
/// failed. `send` takes a peer's key and address with the data, and tells what
/// went wrong.
pub fn send_in_turn<F: Fn(&[u8], &[u8; 16], &[u8]) -> Option<ConnError>>(
    peers: &Vec<(Vec<u8>, [u8; 16])>,
    data: &[u8],
    send: F,
) -> (r: Vec<[u8; 16]>)
    requires
        forall|key: &[u8], rhash: &[u8; 16], d: &[u8]| #[trigger]
            call_requires(send, (key, rhash, d)),
    ensures
        exists|ends: Seq<Option<ConnError>>| #[trigger]
            sent_in_turn(send, peers@, data@, ends) && r@ == failed_addresses(peers@, ends),
        r@.len() <= peers@.len(),
{
    let ghost mut ends: Seq<Option<ConnError>> = Seq::empty();
    let mut failed: Vec<[u8; 16]> = Vec::new();
    let mut i: usize = 0;
    assert(peers@.take(0) =~= Seq::empty());
    while i < peers.len()
        invariant
            i <= peers@.len(),
            forall|key: &[u8], rhash: &[u8; 16], d: &[u8]| #[trigger]
                call_requires(send, (key, rhash, d)),
            ends.len() == i,
            failed@.len() <= i,
            forall|j: int|
                0 <= j < i ==> delivery_ended(
                    send,
                    (#[trigger] peers@[j]).0@,
                    peers@[j].1@,
                    data@,
                    ends[j],
                ),
            failed@ == failed_addresses(peers@.take(i as int), ends),
        decreases peers@.len() - i,
    {
        let key = peers[i].0.as_slice();
        let rhash = &peers[i].1;
        let end = send(key, rhash, data);
        proof {
            let before = ends;
            assert(call_ensures(send, (key, rhash, data), end));
            assert(delivery_ended(send, peers@[i as int].0@, peers@[i as int].1@, data@, end));
            ends = ends.push(end);
            assert(ends.drop_last() =~= before);
            assert(peers@.take(i + 1).drop_last() =~= peers@.take(i as int));
            assert(peers@.take(i + 1).last() == peers@[i as int]);
        }
        match end {
            Some(_) => {
                failed.push(peers[i].1);
            },
            None => {},
        }
        i += 1;
    }
    assert(peers@.take(i as int) =~= peers@);
    assert(sent_in_turn(send, peers@, data@, ends));
    failed
}

/// There are as many peers as nodes.
/// Data that is sent to all goes to every node of the role, at its own address: of
/// each node there is a delivery of that data, and none goes to anybody else.
pub proof fn every_node_is_sent_the_data<F: Fn(&[u8], &[u8; 16], &[u8]) -> Option<ConnError>>(
    bucket: Map<Seq<u8>, NodeRecord>,
    peers: Seq<(Vec<u8>, [u8; 16])>,
    send: F,
    data: Seq<u8>,
    ends: Seq<Option<ConnError>>,
    key: Seq<u8>,
)
    requires
        lists_peers(bucket, peers),
        sent_in_turn(send, peers, data, ends),
    ensures
        bucket.contains_key(key) ==> exists|i: int|
            0 <= i < peers.len() && (#[trigger] peers[i]).0@ == key && peers[i].1@
                == bucket[key].rhash && delivery_ended(
                send,
                key,
                bucket[key].rhash,
                data,
                ends[i],
            ),
        forall|i: int| 0 <= i < peers.len() ==> bucket.contains_key((#[trigger] peers[i]).0@),
        peers.len() == bucket.dom().len(),
        ends.len() == peers.len(),
{
    lemma_peer_count(bucket, peers);
    if bucket.contains_key(key) {
        let i = choose|i: int| 0 <= i < peers.len() && (#[trigger] peers[i]).0@ == key;
        assert(delivery_ended(send, peers[i].0@, peers[i].1@, data, ends[i]));
    }
}

/// A node that no delivery reaches is counted as failed, under its own address and
/// role; where every delivery goes well, no count changes.
pub proof fn unreachable_nodes_are_counted<F: Fn(&[u8], &[u8; 16], &[u8]) -> Option<ConnError>>(
    bucket: Map<Seq<u8>, NodeRecord>,
    peers: Seq<(Vec<u8>, [u8; 16])>,
    send: F,
    data: Seq<u8>,
    ends: Seq<Option<ConnError>>,
    failures: Map<Seq<u8>, u64>,
    role: NodeRegistryType,
    key: Seq<u8>,
)
    requires
        lists_peers(bucket, peers),
        sent_in_turn(send, peers, data, ends),
        bucket.contains_key(key),
        forall|k: Seq<u8>| #[trigger] count_of(failures, k) + peers.len() <= u64::MAX,
    ensures
        ({
            let after = counted(failures, failure_keys(failed_addresses(peers, ends), role));
            let node = failure_key(bucket[key].rhash, role);
            &&& (forall|end: Option<ConnError>| #[trigger]
                delivery_ended(send, key, bucket[key].rhash, data, end) ==> end is Some) ==> count_of(
                after,
                node,
            ) > count_of(failures, node)
            &&& (forall|k: Seq<u8>, end: Option<ConnError>| #[trigger]
                delivery_ended(send, k, bucket[k].rhash, data, end) ==> end is None) ==> after
                == failures
        }),
{
    let failed = failed_addresses(peers, ends);
    let keys = failure_keys(failed, role);
    let rhash = bucket[key].rhash;
    let node = failure_key(rhash, role);
    every_node_is_sent_the_data(bucket, peers, send, data, ends, key);
    let i = choose|i: int|
        0 <= i < peers.len() && (#[trigger] peers[i]).0@ == key && peers[i].1@ == rhash
            && delivery_ended(send, key, rhash, data, ends[i]);
    lemma_failed_at_most(peers, ends);
    if forall|end: Option<ConnError>| #[trigger]
        delivery_ended(send, key, rhash, data, end) ==> end is Some {
        assert(ends[i] is Some);
        lemma_failed_are_listed(peers, ends, peers[i].1);
        assert(failed.contains(peers[i].1));
        let j = choose|j: int| 0 <= j < failed.len() && failed[j] == peers[i].1;
        assert(keys[j] == node);
        assert(keys.contains(node));
        assert(count_of(failures, node) + peers.len() <= u64::MAX);
        every_failure_counts_once(failures, keys, node);
        keys.to_multiset_ensures();
        assert(keys.to_multiset().count(node) > 0);
    }
    if forall|k: Seq<u8>, end: Option<ConnError>| #[trigger]
        delivery_ended(send, k, bucket[k].rhash, data, end) ==> end is None {
        assert forall|m: int| 0 <= m < peers.len() implies #[trigger] ends[m] is None by {
            assert(bucket.contains_key(peers[m].0@));
            assert(delivery_ended(send, peers[m].0@, peers[m].1@, data, ends[m]));
        }
        lemma_none_failed(peers, ends);
        assert(keys.len() == 0);
    }
}

proof fn lemma_failed_at_most(peers: Seq<(Vec<u8>, [u8; 16])>, ends: Seq<Option<ConnError>>)
    requires
        ends.len() == peers.len(),
    ensures
        failed_addresses(peers, ends).len() <= peers.len(),
    decreases peers.len(),
{
    if peers.len() > 0 {
        lemma_failed_at_most(peers.drop_last(), ends.drop_last());
    }
}

proof fn lemma_none_failed(peers: Seq<(Vec<u8>, [u8; 16])>, ends: Seq<Option<ConnError>>)
    requires
        ends.len() == peers.len(),
        forall|m: int| 0 <= m < ends.len() ==> #[trigger] ends[m] is None,
    ensures
        failed_addresses(peers, ends).len() == 0,
    decreases peers.len(),
{
    if peers.len() > 0 {
        assert forall|m: int| 0 <= m < ends.drop_last().len() implies #[trigger] ends.drop_last()[m] is None by {
            assert(ends[m] is None);
        }
        lemma_none_failed(peers.drop_last(), ends.drop_last());
        assert(ends[ends.len() - 1] is None);
    }
}

proof fn lemma_peer_count(bucket: Map<Seq<u8>, NodeRecord>, peers: Seq<(Vec<u8>, [u8; 16])>)
    requires
        lists_peers(bucket, peers),
    ensures
        peers.len() == bucket.dom().len(),
{
    let keys = Seq::new(peers.len(), |i: int| peers[i].0@);
    assert forall|key: Seq<u8>| keys.to_set().contains(key) == bucket.dom().contains(key) by {
        if bucket.contains_key(key) {
            let j = choose|j: int| 0 <= j < peers.len() && (#[trigger] peers[j]).0@ == key;
            assert(keys[j] == key);
        }
        if keys.contains(key) {
            let j = choose|j: int| 0 <= j < keys.len() && keys[j] == key;
            assert(bucket.contains_key(peers[j].0@));
        }
    }
    assert(keys.to_set() =~= bucket.dom());
    keys.unique_seq_to_set();
}

/// How a bounded send ended.
#[derive(Debug)]
pub enum SendEnd<T> {
    /// It gave a result in time
    Finished(T),
    /// The bound passed first
    TimedOut,
    /// The worker ended without a result
    WorkerGone,
    /// The worker panicked
    WorkerPanicked,
}

/// `r` is what a bounded send amounts to: its result where it gave one in time, a
/// timeout where the bound passed first, else a failure of the worker.
pub open spec fn bounded_to<T>(end: SendEnd<T>, r: Result<T, ConnError>) -> bool {
    match end {
        SendEnd::Finished(value) => r == Ok::<T, ConnError>(value),
        SendEnd::TimedOut => r matches Err(ConnError::Timeout(_)),
        _ => r matches Err(ConnError::IO(_)),
    }
}

/// `r` is the failure of a send, if it failed.
pub open spec fn failed_with(
    end: Result<Result<(), ConnError>, ConnError>,
    r: Option<ConnError>,
) -> bool {
    match end {
        Ok(Ok(_)) => r is None,
        Ok(Err(e)) => r == Some(e),
        Err(e) => r == Some(e),
    }
}

/// A bounded send over the transport went well exactly where it finished in time
/// without an error; the error that it finished with is kept, and a bound that
/// passed is a timeout.
pub proof fn only_finished_sends_go_well(
    end: SendEnd<Result<(), ConnError>>,
    bounded: Result<Result<(), ConnError>, ConnError>,
    failure: Option<ConnError>,
)
    requires
        bounded_to(end, bounded),
        failed_with(bounded, failure),
    ensures
        failure is None <==> (end matches SendEnd::Finished(done) && done is Ok),
        end matches SendEnd::Finished(Err(e)) ==> failure == Some(e),
        end is TimedOut ==> failure matches Some(ConnError::Timeout(_)),
        end is WorkerGone || end is WorkerPanicked ==> failure matches Some(ConnError::IO(_)),
{
}

/// What a bounded send amounts to. `bound` says how long it could take.
pub fn bounded_outcome<T>(end: SendEnd<T>, bound: &str) -> (r: Result<T, ConnError>)
    ensures
        match end {
            SendEnd::Finished(value) => r == Ok::<T, ConnError>(value),
            SendEnd::TimedOut => r matches Err(ConnError::Timeout(msg)) && msg@
                == "blocking send exceeded "@ + bound@,
            SendEnd::WorkerGone => r matches Err(ConnError::IO(msg)) && msg@
                == "send worker exited before producing a result"@,
            SendEnd::WorkerPanicked => r matches Err(ConnError::IO(msg)) && msg@
                == "send worker panicked before producing a result"@,
        },
        bounded_to(end, r),
{
    match end {
        SendEnd::Finished(value) => Ok(value),
        SendEnd::TimedOut => {
            let msg = wrap("blocking send exceeded ", bound, "");
            proof {
                reveal_strlit("");
                assert(msg@ =~= "blocking send exceeded "@ + bound@);
            }
            Err(ConnError::Timeout(msg))
        },
        SendEnd::WorkerGone => Err(
            ConnError::IO("send worker exited before producing a result".to_owned()),
        ),
        SendEnd::WorkerPanicked => Err(
            ConnError::IO("send worker panicked before producing a result".to_owned()),
        ),
    }
}

/// The failure of a send over the transport, if it failed: the error of the
/// transport, or what `bounded_outcome` makes of a send without a result.
pub fn transport_failure(end: Result<Result<(), ConnError>, ConnError>) -> (r: Option<ConnError>)
    ensures
        match end {
            Ok(Ok(_)) => r is None,
            Ok(Err(e)) => r == Some(e),
            Err(e) => r == Some(e),
        },
        failed_with(end, r),
{
    match end {
        Ok(Ok(_)) => None,
        Ok(Err(e)) => Some(e),
        Err(e) => Some(e),
    }
}

/// The failure of a direct send, if it failed: the error of the connection, or
/// the bound that passed.
pub fn direct_failure(end: SendEnd<Result<(), ConnError>>, bound: &str) -> (r: Option<ConnError>)
    ensures
        match end {
            SendEnd::Finished(Ok(_)) => r is None,
            SendEnd::Finished(Err(e)) => r == Some(e),
            _ => r matches Some(ConnError::Timeout(msg)) && msg@ == "direct send exceeded "@
                + bound@,
        },
{
    match end {
        SendEnd::Finished(Ok(_)) => None,
        SendEnd::Finished(Err(e)) => Some(e),
        _ => {
            let msg = wrap("direct send exceeded ", bound, "");
            proof {
                reveal_strlit("");
                assert(msg@ =~= "direct send exceeded "@ + bound@);
            }
            Some(ConnError::Timeout(msg))
        },
    }
}

/// The sum without the key at one place, with the count of that key.
proof fn lemma_sum_remove(failures: Map<Seq<u8>, u64>, keys: Seq<Seq<u8>>, p: int)
    requires
        0 <= p < keys.len(),
    ensures
        sum_of(failures, keys) == sum_of(failures, keys.remove(p)) + failures[keys[p]],
    decreases keys.len(),
{
    let rest = keys.remove(p);
    if p == keys.len() - 1 {
        assert(rest =~= keys.drop_last());
    } else {
        let init = keys.drop_last();
        lemma_sum_remove(failures, init, p);
        assert(rest.drop_last() =~= init.remove(p));
        assert(rest.last() == keys.last());
        assert(init[p] == keys[p]);
    }
}

/// The order of the keys does not matter to the sum.
proof fn lemma_sum_any_order(failures: Map<Seq<u8>, u64>, a: Seq<Seq<u8>>, b: Seq<Seq<u8>>)
    requires
        a.no_duplicates(),
        b.no_duplicates(),
        forall|key: Seq<u8>| a.contains(key) <==> b.contains(key),
    ensures
        sum_of(failures, a) == sum_of(failures, b),
    decreases a.len(),
{
    if a.len() == 0 {
        if b.len() > 0 {
            assert(b.contains(b[0]));
            assert(a.contains(b[0]));
        }
    } else {
        let key = a.last();
        assert(a.contains(a[a.len() - 1]));
        assert(b.contains(key));
        let p = choose|p: int| 0 <= p < b.len() && b[p] == key;
        let init = a.drop_last();
        let rest = b.remove(p);
        lemma_sum_remove(failures, b, p);
        assert forall|k: Seq<u8>| init.contains(k) <==> rest.contains(k) by {
            if init.contains(k) {
                let i = choose|i: int| 0 <= i < init.len() && init[i] == k;
                assert(a[i] == k && k != key);
                assert(a.contains(k));
                assert(b.contains(k));
                let j = choose|j: int| 0 <= j < b.len() && b[j] == k;
                assert(if j < p {
                    rest[j] == k
                } else {
                    rest[j - 1] == k
                });
            }
            if rest.contains(k) {
                let j = choose|j: int| 0 <= j < rest.len() && rest[j] == k;
                let q = if j < p {
                    j
                } else {
                    j + 1
                };
                assert(b[q] == k && q != p);
                assert(b.contains(k));
                assert(a.contains(k));
                let i = choose|i: int| 0 <= i < a.len() && a[i] == k;
                assert(k != key);
                assert(init[i] == k);
            }
        }
        assert(rest.no_duplicates()) by {
            assert forall|i: int, j: int|
                0 <= i < rest.len() && 0 <= j < rest.len() && i != j implies rest[i] != rest[j] by {
                let x = if i < p {
                    i
                } else {
                    i + 1
                };
                let y = if j < p {
                    j
                } else {
                    j + 1
                };
                assert(rest[i] == b[x] && rest[j] == b[y] && x != y);
            }
        }
        lemma_sum_any_order(failures, init, rest);
    }
}

proof fn lemma_listed_once(keys: Set<Seq<u8>>)
    requires
        keys.finite(),
    ensures
        keys.to_seq().no_duplicates(),
        forall|key: Seq<u8>| keys.to_seq().contains(key) <==> keys.contains(key),
    decreases keys.len(),
{
    keys.lemma_to_seq_to_set_id();
    assert forall|key: Seq<u8>| keys.to_seq().contains(key) <==> keys.contains(key) by {
        assert(keys.to_seq().to_set().contains(key) <==> keys.to_seq().contains(key));
    }
    if keys.len() > 0 {
        let x = keys.choose();
        let rest = keys.remove(x);
        lemma_listed_once(rest);
        assert(!rest.to_seq().contains(x));
        let all = keys.to_seq();
        assert(all =~= Seq::<Seq<u8>>::empty().push(x) + rest.to_seq());
        assert forall|i: int, j: int| 0 <= i < j < all.len() implies all[i] != all[j] by {
            assert(all[j] == rest.to_seq()[j - 1]);
            assert(rest.to_seq().contains(all[j]));
            if i > 0 {
                assert(all[i] == rest.to_seq()[i - 1]);
            }
        }
    }
}

/// All failed deliveries together are the sum of the counts, however the keys
/// are listed.
pub proof fn total_is_the_sum(failures: Map<Seq<u8>, u64>, keys: Seq<Seq<u8>>)
    requires
        keys.no_duplicates(),
        forall|key: Seq<u8>| keys.contains(key) <==> failures.contains_key(key),
    ensures
        total_of(failures) == sum_of(failures, keys),
{
    assert(keys.to_set() =~= failures.dom()) by {
        assert forall|key: Seq<u8>| keys.to_set().contains(key) <==> failures.dom().contains(key) by {
            assert(keys.contains(key) <==> failures.contains_key(key));
        }
    }
    vstd::seq_lib::seq_to_set_is_finite(keys);
    lemma_listed_once(failures.dom());
    lemma_sum_any_order(failures, failures.dom().to_seq(), keys);
}

/// A registry without failures counts none.
pub proof fn nothing_failed_at_first()
    ensures
        total_of(Map::<Seq<u8>, u64>::empty()) == 0,
{
    total_is_the_sum(Map::<Seq<u8>, u64>::empty(), Seq::empty());
}

/// The store lists its keys.
proof fn lemma_total_by_list(counts: &KeyedStore<u64>)
    requires
        counts.wf(),
    ensures
        total_of(counts@) == sum_of(counts@, counts.key_list()),
{
    counts.lemma_key_list();
    let keys = counts.key_list();
    assert forall|key: Seq<u8>| keys.contains(key) <==> counts@.contains_key(key) by {
        if keys.contains(key) {
            let i = choose|i: int| 0 <= i < keys.len() && keys[i] == key;
            assert(counts@.contains_key(keys[i]));
        }
    }
    total_is_the_sum(counts@, keys);
}

proof fn lemma_sum_same(a: Map<Seq<u8>, u64>, b: Map<Seq<u8>, u64>, keys: Seq<Seq<u8>>)
    requires
        forall|i: int| 0 <= i < keys.len() ==> a[#[trigger] keys[i]] == b[keys[i]],
    ensures
        sum_of(a, keys) == sum_of(b, keys),
    decreases keys.len(),
{
    if keys.len() > 0 {
        assert forall|i: int| 0 <= i < keys.drop_last().len() implies a[
        #[trigger] keys.drop_last()[i]] == b[keys.drop_last()[i]] by {
            assert(keys[i] == keys.drop_last()[i]);
        }
        lemma_sum_same(a, b, keys.drop_last());
        assert(a[keys[keys.len() - 1]] == b[keys[keys.len() - 1]]);
    }
}

proof fn lemma_sum_raised(
    a: Map<Seq<u8>, u64>,
    b: Map<Seq<u8>, u64>,
    keys: Seq<Seq<u8>>,
    p: int,
)
    requires
        0 <= p < keys.len(),
        keys.no_duplicates(),
        b[keys[p]] == a[keys[p]] + 1,
        forall|i: int| 0 <= i < keys.len() && i != p ==> a[#[trigger] keys[i]] == b[keys[i]],
    ensures
        sum_of(b, keys) == sum_of(a, keys) + 1,
    decreases keys.len(),
{
    let init = keys.drop_last();
    if p == keys.len() - 1 {
        assert forall|i: int| 0 <= i < init.len() implies a[#[trigger] init[i]] == b[init[i]] by {
            assert(keys[i] == init[i]);
        }
        lemma_sum_same(a, b, init);
    } else {
        assert(init[p] == keys[p]);
        assert forall|i: int| 0 <= i < init.len() && i != p implies a[#[trigger] init[i]]
            == b[init[i]] by {
            assert(keys[i] == init[i]);
        }
        lemma_sum_raised(a, b, init, p);
        assert(a[keys[keys.len() - 1]] == b[keys[keys.len() - 1]]);
    }
}

impl<S: Fn(&[u8], &NodeRegistryType) -> bool> NodeRegistry<S> {
    /// All failed deliveries together.
    pub open spec fn total_failures(&self) -> nat {
        total_of(self.failures())
    }

    /// The nodes that a broadcast to a role goes to, each once, with its
    /// address.
    pub fn peers(&self, node_type: &NodeRegistryType) -> (r: Vec<(Vec<u8>, [u8; 16])>)
        requires
            self.wf(),
        ensures
            lists_peers(self@[*node_type], r@),
    {
        let nodes = self.get_nodes(node_type);
        let ghost bucket = self@[*node_type];
        let ghost keys = nodes.key_list();
        let mut r: Vec<(Vec<u8>, [u8; 16])> = Vec::new();
        let mut i: usize = 0;
        proof {
            nodes.lemma_key_list();
        }
        while i < nodes.len()
            invariant
                nodes.wf(),
                keys == nodes.key_list(),
                bucket == super::records(nodes@),
                i <= keys.len(),
                forall|j: int| 0 <= j < keys.len() ==> nodes@.contains_key(#[trigger] keys[j]),
                r@.len() == i,
                forall|j: int|
                    0 <= j < i ==> (#[trigger] r@[j]).0@ == keys[j] && r@[j].1@
                        == bucket[keys[j]].rhash,
            decreases keys.len() - i,
        {
            let ghost key = keys[i as int];
            assert(nodes@.contains_key(key));
            r.push((copy_bytes(nodes.key_at(i)), nodes.value_at(i).rhash));
            i += 1;
        }
        proof {
            assert forall|j: int| 0 <= j < r@.len() implies bucket.contains_key(
                (#[trigger] r@[j]).0@,
            ) by {
                assert(nodes@.contains_key(keys[j]));
            }
            assert forall|key: Seq<u8>| #[trigger] bucket.contains_key(key) implies exists|j: int|
                0 <= j < r@.len() && (#[trigger] r@[j]).0@ == key by {
                assert(nodes@.contains_key(key));
                assert(keys.contains(key));
                let j = choose|j: int| 0 <= j < keys.len() && keys[j] == key;
                assert(r@[j].0@ == key);
            }
        }
        r
    }

    /// Count a failed delivery.
    pub fn record_delivery_failure(&mut self, rhash: [u8; 16], node_type: &NodeRegistryType)
        requires
            old(self).wf(),
            count_of(old(self).failures(), failure_key(rhash@, *node_type)) < u64::MAX,
        ensures
            final(self).wf(),
            final(self)@ == old(self)@,
            final(self).configuration() == old(self).configuration(),
            final(self).gate() == old(self).gate(),
            final(self).failures() == old(self).failures().insert(
                failure_key(rhash@, *node_type),
                (count_of(old(self).failures(), failure_key(rhash@, *node_type)) + 1) as u64,
            ),
            final(self).total_failures() == old(self).total_failures() + 1,
    {
        let key = make_failure_key(&rhash, *node_type);
        bump(&mut self.delivery_failures, key);
        proof {
            assert(self@ =~= old(self)@);
        }
    }

    /// Count the failed deliveries of one broadcast to a role, given by the
    /// addresses that they went to.
    pub fn record_delivery_failures(
        &mut self,
        failed: &Vec<[u8; 16]>,
        node_type: &NodeRegistryType,
    )
        requires
            old(self).wf(),
            old(self).total_failures() + failed@.len() <= u64::MAX,
        ensures
            final(self).wf(),
            final(self)@ == old(self)@,
            final(self).configuration() == old(self).configuration(),
            final(self).gate() == old(self).gate(),
            final(self).failures() == counted(
                old(self).failures(),
                failure_keys(failed@, *node_type),
            ),
            final(self).total_failures() == old(self).total_failures() + failed@.len(),
    {
        let ghost all = failure_keys(failed@, *node_type);
        let mut i: usize = 0;
        assert(all.take(0) =~= Seq::empty());
        while i < failed.len()
            invariant
                self.wf(),
                i <= failed@.len(),
                all == failure_keys(failed@, *node_type),
                old(self).total_failures() + failed@.len() <= u64::MAX,
                self@ == old(self)@,
                self.configuration() == old(self).configuration(),
                self.gate() == old(self).gate(),
                self.failures() == counted(old(self).failures(), all.take(i as int)),
                self.total_failures() == old(self).total_failures() + i,
            decreases failed@.len() - i,
        {
            proof {
                assert(all.take(i + 1).drop_last() =~= all.take(i as int));
                assert(all.take(i + 1).last() == all[i as int]);
                lemma_count_bounded(&self.delivery_failures, all[i as int]);
            }
            self.record_delivery_failure(failed[i], node_type);
            i += 1;
        }
        assert(all.take(i as int) =~= all);
    }

    /// Send data to every node of a role, one after the other, and count the
    /// deliveries that failed. No node is left out, this node's own entry
    /// included.
    pub fn send_to_all_blocking<F: Fn(&[u8], &[u8; 16], &[u8]) -> Option<ConnError>>(
        &mut self,
        data: &[u8],
        node_type: &NodeRegistryType,
        send: F,
    )
        requires
            old(self).wf(),
            forall|key: &[u8], rhash: &[u8; 16], d: &[u8]| #[trigger]
                call_requires(send, (key, rhash, d)),
            old(self).total_failures() + old(self)@[*node_type].dom().len() <= u64::MAX,
        ensures
            final(self).wf(),
            final(self)@ == old(self)@,
            final(self).configuration() == old(self).configuration(),
            final(self).gate() == old(self).gate(),
            exists|peers: Seq<(Vec<u8>, [u8; 16])>, ends: Seq<Option<ConnError>>|
                lists_peers(old(self)@[*node_type], peers) && #[trigger] sent_in_turn(
                    send,
                    peers,
                    data@,
                    ends,
                ) && final(self).failures() == counted(
                    old(self).failures(),
                    failure_keys(failed_addresses(peers, ends), *node_type),
                ) && final(self).total_failures() == old(self).total_failures() + failed_addresses(
                    peers,
                    ends,
                ).len(),
    {
        let peers = self.peers(node_type);
        proof {
            lemma_peer_count(self@[*node_type], peers@);
        }
        let failed = send_in_turn(&peers, data, send);
        self.record_delivery_failures(&failed, node_type);
    }

    /// Failed deliveries to an address under a role.
    pub fn failure_count(&self, rhash: [u8; 16], node_type: &NodeRegistryType) -> (r: u64)
        requires
            self.wf(),
        ensures
            r == count_of(self.failures(), failure_key(rhash@, *node_type)),
    {
        match self.delivery_failures.get(&make_failure_key(&rhash, *node_type)) {
            Some(count) => *count,
            None => 0,
        }
    }

    /// All failed deliveries together.
    pub fn total_delivery_failures(&self) -> (r: u64)
        requires
            self.wf(),
            self.total_failures() <= u64::MAX,
        ensures
            r == self.total_failures(),
    {
        let ghost keys = self.delivery_failures.key_list();
        let ghost counts = self.delivery_failures@;
        proof {
            lemma_total_by_list(&self.delivery_failures);
        }
        let mut sum: u64 = 0;
        let mut i: usize = 0;
        assert(keys.take(0) =~= Seq::empty());
        while i < self.delivery_failures.len()
            invariant
                self.delivery_failures.wf(),
                keys == self.delivery_failures.key_list(),
                counts == self.delivery_failures@,
                i <= keys.len(),
                sum == sum_of(counts, keys.take(i as int)),
                sum_of(counts, keys) <= u64::MAX,
            decreases keys.len() - i,
        {
            proof {
                assert(keys.take(i + 1).drop_last() =~= keys.take(i as int));
                assert(keys.take(i + 1).last() == keys[i as int]);
                lemma_prefix_sum(counts, keys, i + 1);
            }
            sum = sum + *self.delivery_failures.value_at(i);
            i += 1;
        }
        assert(keys.take(i as int) =~= keys);
        sum
    }
}

proof fn lemma_prefix_sum(counts: Map<Seq<u8>, u64>, keys: Seq<Seq<u8>>, n: int)
    requires
        0 <= n <= keys.len(),
    ensures
        sum_of(counts, keys.take(n)) <= sum_of(counts, keys),
    decreases keys.len() - n,
{
    if n == keys.len() {
        assert(keys.take(n) =~= keys);
    } else {
        assert(keys.take(n + 1).drop_last() =~= keys.take(n));
        lemma_prefix_sum(counts, keys, n + 1);
    }
}

/// A single count is no larger than all of them together.
proof fn lemma_count_bounded(counts: &KeyedStore<u64>, key: Seq<u8>)
    requires
        counts.wf(),
    ensures
        count_of(counts@, key) <= total_of(counts@),
{
    lemma_total_by_list(counts);
    counts.lemma_key_list();
    let keys = counts.key_list();
    if counts@.contains_key(key) {
        let p = choose|p: int| 0 <= p < keys.len() && keys[p] == key;
        assert(keys.contains(key));
        assert(keys.take(p + 1).last() == keys[p]);
        lemma_prefix_sum(counts@, keys, p + 1);
    }
}

/// Raise the count of a key by one.
fn bump(counts: &mut KeyedStore<u64>, key: Vec<u8>)
    requires
        old(counts).wf(),
        count_of(old(counts)@, key@) < u64::MAX,
    ensures
        final(counts).wf(),
        final(counts)@ == old(counts)@.insert(key@, (count_of(old(counts)@, key@) + 1) as u64),
        total_of(final(counts)@) == total_of(old(counts)@) + 1,
{
    let ghost before = counts@;
    let ghost keys = counts.key_list();
    let ghost k = key@;
    proof {
        counts.lemma_key_list();
        lemma_total_by_list(counts);
    }
    match counts.get(&key) {
        Some(count) => {
            let raised = *count + 1;
            let _ = counts.insert(key, raised);
            proof {
                let p = choose|p: int| 0 <= p < keys.len() && keys[p] == k;
                assert(keys.contains(k));
                assert forall|i: int| 0 <= i < keys.len() && i != p implies before[
                #[trigger] keys[i]] == counts@[keys[i]] by {
                    assert(keys[i] != keys[p]);
                }
                lemma_sum_raised(before, counts@, keys, p);
            }
        },
        None => {
            let _ = counts.insert(key, 1);
            proof {
                let after = keys.push(k);
                assert(after.drop_last() =~= keys);
                assert forall|i: int| 0 <= i < keys.len() implies before[#[trigger] keys[i]]
                    == counts@[keys[i]] by {
                    assert(before.contains_key(keys[i]));
                }
                lemma_sum_same(before, counts@, keys);
            }
        },
    }
    proof {
        lemma_total_by_list(counts);
    }
}

} // verus!
