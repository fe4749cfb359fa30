//! `Gossiper`: authenticates incoming messages, drops repeated ones, hands the
//! others to its handlers and sends to all nodes of a role.
use crate::bytes::append_bytes;
use crate::config::Config;
use crate::conns::factories::ConnFactory;
use crate::conns::senders::Sender;
use crate::crypto::{sha256, AsymCryptoProvider};
use crate::data::DataError;
use crate::errors::PneumaticError;
use crate::messages::Message;
use crate::node::registry::NodeRegistry;
use crate::node::{NodeRegistryNode, NodeRegistryType};
use handlers::HandlerSet;
use std::sync::Arc;
use vstd::prelude::*;

mod handlers;

verus! {

/// How many messages the dedup cache remembers at most.
pub const DEDUP_CAPACITY: u64 = 10_000;

/// The longest time to live that the dedup cache takes: 1000 years.
pub const MAX_TTL_SECONDS: u64 = 31_536_000_000;

/// `moka::sync::Cache`.
#[verifier::external_type_specification]
#[verifier::external_body]
#[verifier::reject_recursive_types(K)]
#[verifier::reject_recursive_types(V)]
#[verifier::reject_recursive_types(S)]
pub struct ExCache<K, V, S>(moka::sync::Cache<K, V, S>);

/// The keys that were ever put into a cache. Those that it still holds are among
/// them; which ones left depends on time and on the cache's policy.
pub uninterp spec fn remembered(cache: moka::sync::Cache<Vec<u8>, ()>) -> Set<Seq<u8>>;

/// `Cache::builder` with a capacity and a time to live: an empty cache. Building
/// one panics where the time to live is above 1000 years.
#[verifier::external_body]
fn cache_new(capacity: u64, ttl_seconds: u64) -> (r: moka::sync::Cache<Vec<u8>, ()>)
    requires
        ttl_seconds <= MAX_TTL_SECONDS,
    ensures
        remembered(r) == Set::<Seq<u8>>::empty(),
{
    moka::sync::Cache::builder()
        .max_capacity(capacity)
        .time_to_live(std::time::Duration::from_secs(ttl_seconds))
        .build()
}

/// `Cache::get`: only what was put in is found. That something put in is found
/// is left unsaid: entries expire and are evicted.
#[verifier::external_body]
fn cache_holds(cache: &moka::sync::Cache<Vec<u8>, ()>, key: &Vec<u8>) -> (r: bool)
    ensures
        r ==> remembered(*cache).contains(key@),
{
    cache.get(key).is_some()
}

/// `Cache::insert`: the key joins those that were put in.
#[verifier::external_body]
fn cache_insert(cache: &mut moka::sync::Cache<Vec<u8>, ()>, key: Vec<u8>)
    ensures
        remembered(*final(cache)) == remembered(*old(cache)).insert(key@),
{
    cache.insert(key, ());
}

/// The key under which a message is remembered: the digest of the sender's key
/// followed by the digest of the body, so that no bytes move between the two.
pub open spec fn dedup_bytes(public_key: Seq<u8>, body: Seq<u8>) -> Seq<u8> {
    crate::primitives::sha256_digest(public_key)@ + crate::primitives::sha256_digest(body)@
}

/// Messages of different senders or with different bodies are remembered apart:
/// one key tells the digest of the sender's key and that of the body.
pub proof fn dedup_keys_separate_messages(
    key1: Seq<u8>,
    body1: Seq<u8>,
    key2: Seq<u8>,
    body2: Seq<u8>,
)
    ensures
        dedup_bytes(key1, body1) == dedup_bytes(key2, body2) <==> crate::primitives::sha256_digest(
            key1,
        )@ == crate::primitives::sha256_digest(key2)@ && crate::primitives::sha256_digest(body1)@
            == crate::primitives::sha256_digest(body2)@,
        dedup_bytes(key1, body1).len() == 64,
{
    let a = dedup_bytes(key1, body1);
    let b = dedup_bytes(key2, body2);
    assert(a.take(32) =~= crate::primitives::sha256_digest(key1)@);
    assert(b.take(32) =~= crate::primitives::sha256_digest(key2)@);
    assert(a.skip(32) =~= crate::primitives::sha256_digest(body1)@);
    assert(b.skip(32) =~= crate::primitives::sha256_digest(body2)@);
}

/// The key under which a message is remembered.
pub fn dedup_key(public_key: &[u8], body: &[u8]) -> (r: Vec<u8>)
    ensures
        r@ == dedup_bytes(public_key@, body@),
        r@.len() == 64,
{
    let mut key = sha256(public_key);
    append_bytes(&mut key, &sha256(body));
    key
}

/// `r` is the judgement on a message: `true` where the handlers should get it.
pub open spec fn judged(
    verified: Result<bool, PneumaticError>,
    seen: bool,
    r: Result<bool, DataError>,
) -> bool {
    match verified {
        Err(e) => r matches Err(DataError::CryptoError(text)) && e.shows(text@),
        Ok(false) => r == Err::<bool, DataError>(DataError::InvalidSignature),
        Ok(true) => r == Ok::<bool, DataError>(!seen),
    }
}

/// A message goes to the handlers exactly where its signature verified and it was
/// not seen before; one that was seen is passed over without an error, and one
/// whose signature did not verify is an error whether it was seen or not.
pub proof fn only_new_authentic_messages_pass(
    verified: Result<bool, PneumaticError>,
    seen: bool,
    r: Result<bool, DataError>,
)
    requires
        judged(verified, seen, r),
    ensures
        r == Ok::<bool, DataError>(true) <==> (verified matches Ok(ok) && ok) && !seen,
        r == Ok::<bool, DataError>(false) <==> (verified matches Ok(ok) && ok) && seen,
        r is Err <==> !(verified matches Ok(ok) && ok),
        verified == Ok::<bool, PneumaticError>(false) <==> r == Err::<bool, DataError>(
            DataError::InvalidSignature,
        ),
{
}

/// Judge a message by what the provider said of its signature and by whether it
/// was seen before: `true` where the handlers should get it.
pub fn judge_message(verified: Result<bool, PneumaticError>, seen: bool) -> (r: Result<
    bool,
    DataError,
>)
    ensures
        match verified {
            Err(e) => r matches Err(DataError::CryptoError(text)) && e.shows(text@),
            Ok(false) => r == Err::<bool, DataError>(DataError::InvalidSignature),
            Ok(true) => r == Ok::<bool, DataError>(!seen),
        },
        judged(verified, seen, r),
{
    match verified {
        Err(e) => Err(DataError::CryptoError(e.to_string())),
        Ok(true) => Ok(!seen),
        Ok(false) => Err(DataError::InvalidSignature),
    }
}

/// `r` and `after` are what an incoming message leads to: a message whose
/// signature does not hold is refused and leaves no trace; one that does goes to
/// the handlers and is remembered, unless it is remembered already.
pub open spec fn message_outcome<P: AsymCryptoProvider>(
    provider: P,
    message: Message,
    before: Set<Seq<u8>>,
    after: Set<Seq<u8>>,
    r: Result<bool, DataError>,
) -> bool {
    exists|signature: &[u8], key: &[u8], body: &[u8], verified: Result<bool, PneumaticError>|
        signature@ == message.signature@ && key@ == message.public_key@ && body@ == message.body@
            && #[trigger] call_ensures(
            P::check_signature,
            (&provider, signature, key, body),
            verified,
        ) && {
            let id = dedup_bytes(message.public_key@, message.body@);
            match verified {
                Err(e) => (r matches Err(DataError::CryptoError(text)) && e.shows(text@)) && after
                    == before,
                Ok(false) => r == Err::<bool, DataError>(DataError::InvalidSignature) && after
                    == before,
                Ok(true) => {
                    ||| r == Ok::<bool, DataError>(true) && after == before.insert(id)
                    ||| r == Ok::<bool, DataError>(false) && before.contains(id) && after == before
                },
            }
        }
}

/// A refused message leaves no trace, so it cannot stand in the way of a later
/// one; a message is skipped only where one with the same sender and body was
/// let through before; and what is let through is remembered.
pub proof fn refusals_leave_no_trace<P: AsymCryptoProvider>(
    provider: P,
    message: Message,
    before: Set<Seq<u8>>,
    after: Set<Seq<u8>>,
    r: Result<bool, DataError>,
)
    requires
        message_outcome(provider, message, before, after, r),
    ensures
        r is Err ==> after == before,
        r == Ok::<bool, DataError>(false) ==> before.contains(
            dedup_bytes(message.public_key@, message.body@),
        ),
        r == Ok::<bool, DataError>(true) ==> after == before.insert(
            dedup_bytes(message.public_key@, message.body@),
        ),
{
}

/// The verdict on a message is what the lookup of its key in the cache said:
/// what the cache holds is skipped, what it does not hold is let through.
pub open spec fn follows_lookup<P: AsymCryptoProvider, H: Fn(Vec<u8>)>(
    gossiper: Gossiper<P, H>,
    message: Message,
    r: Result<bool, DataError>,
) -> bool {
    r matches Ok(fresh) ==> gossiper.recalls(
        dedup_bytes(message.public_key@, message.body@),
        !fresh,
    )
}

/// A repeated message is skipped: once a message was let through, and as long as
/// the cache still holds its key, one with the same sender and body is not let
/// through again and nothing more is remembered, whatever its signature, action
/// and chain. A message that was never let through is not taken for a repeated
/// one.
pub proof fn repeated_messages_are_skipped<P: AsymCryptoProvider, H: Fn(Vec<u8>)>(
    first: Message,
    before: Set<Seq<u8>>,
    gossiper: Gossiper<P, H>,
    second: Message,
    after: Set<Seq<u8>>,
    r: Result<bool, DataError>,
)
    requires
        message_outcome(
            gossiper.provider(),
            first,
            before,
            gossiper.admitted(),
            Ok::<bool, DataError>(true),
        ),
        message_outcome(gossiper.provider(), second, gossiper.admitted(), after, r),
        follows_lookup(gossiper, second, r),
    ensures
        gossiper.admitted().contains(dedup_bytes(first.public_key@, first.body@)),
        second.public_key@ == first.public_key@ && second.body@ == first.body@
            && gossiper.still_holds(dedup_bytes(first.public_key@, first.body@)) ==> r != Ok::<
            bool,
            DataError,
        >(true) && after == gossiper.admitted(),
        !gossiper.admitted().contains(dedup_bytes(second.public_key@, second.body@)) ==> r != Ok::<
            bool,
            DataError,
        >(false),
{
}

/// Every handler ran on the given bytes.
pub open spec fn delivered<H: Fn(Vec<u8>)>(handlers: Seq<H>, data: Seq<u8>) -> bool {
    forall|i: int|
        0 <= i < handlers.len() ==> ran_on(#[trigger] handlers[i], data)
}

/// A handler ran on a copy of the given bytes.
pub open spec fn ran_on<H: Fn(Vec<u8>)>(handler: H, data: Seq<u8>) -> bool {
    exists|copy: Vec<u8>| copy@ == data && #[trigger] call_ensures(handler, (copy,), ())
}

/// A handler takes any bytes.
pub open spec fn takes_any<H: Fn(Vec<u8>)>(handler: H) -> bool {
    forall|data: Vec<u8>| #[trigger] call_requires(handler, (data,))
}

/// One run of each of `count` handlers on the same bytes, in the order of their
/// registration.
pub open spec fn one_run_each(count: nat, data: Seq<u8>) -> Seq<(int, Seq<u8>)> {
    Seq::new(count, |i: int| (i, data))
}

/// Run every handler once on a copy of the bytes of a message.
fn deliver<H: Fn(Vec<u8>)>(handlers: &mut HandlerSet<H>, raw_data: &[u8])
    ensures
        final(handlers).list() == old(handlers).list(),
        final(handlers).runs() == old(handlers).runs() + one_run_each(
            old(handlers).list().len(),
            raw_data@,
        ),
        delivered(old(handlers).list(), raw_data@),
{
    let ghost start = handlers.runs();
    let ghost list = handlers.list();
    let count = handlers.len();
    let mut i: usize = 0;
    assert(start + one_run_each(0, raw_data@) =~= start);
    while i < count
        invariant
            handlers.list() == list,
            i <= count == list.len(),
            handlers.runs() == start + one_run_each(i as nat, raw_data@),
            forall|j: int| 0 <= j < i ==> ran_on(#[trigger] list[j], raw_data@),
        decreases count - i,
    {
        handlers.run_at(i, raw_data);
        assert(start + one_run_each((i + 1) as nat, raw_data@) =~= (start + one_run_each(
            i as nat,
            raw_data@,
        )).push((i as int, raw_data@)));
        i += 1;
    }
}

/// `r` and `after` are what handling a message leads to, given with what it was
/// decoded to. A message that is valid and new is remembered and every handler
/// runs once on its bytes, in the order of registration. No handler runs on any
/// other: one that could not be decoded, one whose signature does not hold, or a
/// repeated one.
pub open spec fn handled<P: AsymCryptoProvider, H: Fn(Vec<u8>)>(
    before: Gossiper<P, H>,
    raw_data: Seq<u8>,
    decoded: Result<Message, std::io::Error>,
    after: Gossiper<P, H>,
    r: Result<(), DataError>,
) -> bool {
    &&& after.handler_list() == before.handler_list()
    &&& after.same_setup(&before)
    &&& match decoded {
        Err(e) => r == Err::<(), DataError>(DataError::DeserializationError(e)) && after.admitted()
            == before.admitted() && after.handler_runs() == before.handler_runs(),
        Ok(message) => exists|verdict: Result<bool, DataError>| #[trigger]
            message_outcome(
                before.provider(),
                message,
                before.admitted(),
                after.admitted(),
                verdict,
            ) && follows_lookup(before, message, verdict) && match verdict {
                Err(e) => r == Err::<(), DataError>(e) && after.handler_runs()
                    == before.handler_runs(),
                Ok(true) => r is Ok && delivered(before.handler_list(), raw_data)
                    && after.handler_runs() == before.handler_runs() + one_run_each(
                    before.handler_list().len(),
                    raw_data,
                ),
                Ok(false) => r is Ok && after.handler_runs() == before.handler_runs(),
            },
    }
}

/// The provider finds that the signature of a message holds.
pub open spec fn always_verifies<P: AsymCryptoProvider>(provider: P, message: Message) -> bool {
    forall|signature: &[u8], key: &[u8], body: &[u8], verified: Result<bool, PneumaticError>|
        signature@ == message.signature@ && key@ == message.public_key@ && body@ == message.body@
            && #[trigger] call_ensures(
            P::check_signature,
            (&provider, signature, key, body),
            verified,
        ) ==> verified == Ok::<bool, PneumaticError>(true)
}

/// The provider never finds that the signature of a message holds.
pub open spec fn never_verifies<P: AsymCryptoProvider>(provider: P, message: Message) -> bool {
    forall|signature: &[u8], key: &[u8], body: &[u8], verified: Result<bool, PneumaticError>|
        signature@ == message.signature@ && key@ == message.public_key@ && body@ == message.body@
            && #[trigger] call_ensures(
            P::check_signature,
            (&provider, signature, key, body),
            verified,
        ) ==> verified != Ok::<bool, PneumaticError>(true)
}

/// A message whose sender and body were never let through, and whose signature
/// holds, reaches every handler once, in the order of registration.
pub proof fn new_messages_reach_every_handler<P: AsymCryptoProvider, H: Fn(Vec<u8>)>(
    before: Gossiper<P, H>,
    raw_data: Seq<u8>,
    message: Message,
    after: Gossiper<P, H>,
    r: Result<(), DataError>,
)
    requires
        handled(before, raw_data, Ok(message), after, r),
        always_verifies(before.provider(), message),
        !before.admitted().contains(dedup_bytes(message.public_key@, message.body@)),
    ensures
        r is Ok,
        after.handler_runs() == before.handler_runs() + one_run_each(
            before.handler_list().len(),
            raw_data,
        ),
        after.handler_runs().len() == before.handler_runs().len() + before.handler_list().len(),
        forall|i: int|
            0 <= i < before.handler_list().len() ==> #[trigger] after.handler_runs()[i
                + before.handler_runs().len()] == (i, raw_data),
        after.admitted() == before.admitted().insert(
            dedup_bytes(message.public_key@, message.body@),
        ),
{
}

/// What a handler gets of a new message is a copy of the bytes that came in.
pub proof fn handlers_get_the_bytes_that_came_in<P: AsymCryptoProvider, H: Fn(Vec<u8>)>(
    before: Gossiper<P, H>,
    raw_data: Seq<u8>,
    message: Message,
    after: Gossiper<P, H>,
    r: Result<(), DataError>,
    i: int,
)
    requires
        handled(before, raw_data, Ok(message), after, r),
        always_verifies(before.provider(), message),
        !before.admitted().contains(dedup_bytes(message.public_key@, message.body@)),
        0 <= i < before.handler_list().len(),
    ensures
        exists|copy: Vec<u8>|
            copy@ == raw_data && #[trigger] call_ensures(before.handler_list()[i], (copy,), ()),
{
    assert(delivered(before.handler_list(), raw_data));
    assert(ran_on(before.handler_list()[i], raw_data));
}

/// Two valid messages from one sender, or from two, whose bodies or senders have
/// different digests are no repetitions of each other: both reach every handler.
pub proof fn different_messages_both_reach_the_handlers<P: AsymCryptoProvider, H: Fn(Vec<u8>)>(
    before: Gossiper<P, H>,
    first_raw: Seq<u8>,
    first: Message,
    between: Gossiper<P, H>,
    first_result: Result<(), DataError>,
    second_raw: Seq<u8>,
    second: Message,
    after: Gossiper<P, H>,
    r: Result<(), DataError>,
)
    requires
        before.admitted() == Set::<Seq<u8>>::empty(),
        handled(before, first_raw, Ok(first), between, first_result),
        handled(between, second_raw, Ok(second), after, r),
        always_verifies(before.provider(), first),
        always_verifies(between.provider(), second),
        crate::primitives::sha256_digest(first.public_key@)@ != crate::primitives::sha256_digest(
            second.public_key@,
        )@ || crate::primitives::sha256_digest(first.body@)@ != crate::primitives::sha256_digest(
            second.body@,
        )@,
    ensures
        first_result is Ok,
        r is Ok,
        after.handler_runs() == before.handler_runs() + one_run_each(
            before.handler_list().len(),
            first_raw,
        ) + one_run_each(before.handler_list().len(), second_raw),
{
    dedup_keys_separate_messages(
        first.public_key@,
        first.body@,
        second.public_key@,
        second.body@,
    );
    new_messages_reach_every_handler(before, first_raw, first, between, first_result);
    new_messages_reach_every_handler(between, second_raw, second, after, r);
}

/// A valid message that repeats the sender and the body of an earlier one
/// reaches no handler and is answered with success, as long as the cache still
/// holds the earlier one, whatever its signature, action and chain.
pub proof fn repeated_messages_reach_no_handler<P: AsymCryptoProvider, H: Fn(Vec<u8>)>(
    before: Gossiper<P, H>,
    first_raw: Seq<u8>,
    first: Message,
    between: Gossiper<P, H>,
    first_result: Result<(), DataError>,
    second_raw: Seq<u8>,
    second: Message,
    after: Gossiper<P, H>,
    r: Result<(), DataError>,
)
    requires
        handled(before, first_raw, Ok(first), between, first_result),
        first_result is Ok,
        handled(between, second_raw, Ok(second), after, r),
        always_verifies(between.provider(), second),
        second.public_key@ == first.public_key@,
        second.body@ == first.body@,
        between.still_holds(dedup_bytes(first.public_key@, first.body@)),
    ensures
        between.admitted().contains(dedup_bytes(first.public_key@, first.body@)),
        r is Ok,
        after.handler_runs() == between.handler_runs(),
        after.admitted() == between.admitted(),
{
}

/// A forged message reaches no handler and leaves no trace, so a valid one with
/// the same sender and body still reaches every handler.
pub proof fn forged_messages_do_not_stand_in_the_way<P: AsymCryptoProvider, H: Fn(Vec<u8>)>(
    before: Gossiper<P, H>,
    forged_raw: Seq<u8>,
    forged: Message,
    between: Gossiper<P, H>,
    forged_result: Result<(), DataError>,
    valid_raw: Seq<u8>,
    valid: Message,
    after: Gossiper<P, H>,
    r: Result<(), DataError>,
)
    requires
        handled(before, forged_raw, Ok(forged), between, forged_result),
        never_verifies(before.provider(), forged),
        handled(between, valid_raw, Ok(valid), after, r),
        always_verifies(between.provider(), valid),
        valid.public_key@ == forged.public_key@,
        valid.body@ == forged.body@,
        !before.admitted().contains(dedup_bytes(forged.public_key@, forged.body@)),
    ensures
        forged_result is Err,
        between.handler_runs() == before.handler_runs(),
        between.admitted() == before.admitted(),
        r is Ok,
        after.handler_runs() == between.handler_runs() + one_run_each(
            between.handler_list().len(),
            valid_raw,
        ),
{
    new_messages_reach_every_handler(between, valid_raw, valid, after, r);
}

/// `r` is what sending data to all nodes of a role leads to: every node answered,
/// or some node did not, and its failure is reported.
pub open spec fn sent_to_nodes<T: Sender, F: Fn(&NodeRegistryNode) -> T>(
    bucket: Map<Seq<u8>, crate::node::NodeRecord>,
    sender_for: F,
    data: &[u8],
    r: Result<(), DataError>,
) -> bool {
    match r {
        Ok(_) => forall|key: Seq<u8>| #[trigger]
            bucket.contains_key(key) ==> exists|
                node: &NodeRegistryNode,
                sender: T,
                reply: Vec<u8>,
            |
                node@ == bucket[key] && #[trigger] call_ensures(sender_for, (node,), sender)
                    && #[trigger] call_ensures(T::get_response, (&sender, data), Ok(reply)),
        Err(e) => exists|
            key: Seq<u8>,
            node: &NodeRegistryNode,
            sender: T,
            failure: crate::conns::ConnError,
        |
            #[trigger] bucket.contains_key(key) && node@ == bucket[key] && #[trigger] call_ensures(
                sender_for,
                (node,),
                sender,
            ) && #[trigger] call_ensures(T::get_response, (&sender, data), Err(failure)) && (
            e matches DataError::FromStore(text) && text@ == failure.text()),
    }
}

/// Sending to a role fails where some node of the role answers nothing, and goes
/// well where every node answers.
pub proof fn one_silent_node_fails_the_sending<T: Sender, F: Fn(&NodeRegistryNode) -> T>(
    bucket: Map<Seq<u8>, crate::node::NodeRecord>,
    sender_for: F,
    data: &[u8],
    r: Result<(), DataError>,
    key: Seq<u8>,
)
    requires
        sent_to_nodes(bucket, sender_for, data, r),
    ensures
        bucket.contains_key(key) && (forall|
            node: &NodeRegistryNode,
            sender: T,
            reply: Result<Vec<u8>, crate::conns::ConnError>,
        |
            node@ == bucket[key] && #[trigger] call_ensures(sender_for, (node,), sender)
                && #[trigger] call_ensures(T::get_response, (&sender, data), reply) ==> reply
                is Err) ==> r is Err,
        (forall|
            node: &NodeRegistryNode,
            sender: T,
            reply: Result<Vec<u8>, crate::conns::ConnError>,
        |
            #[trigger] call_ensures(sender_for, (node,), sender) && #[trigger] call_ensures(
                T::get_response,
                (&sender, data),
                reply,
            ) ==> reply is Ok) ==> r is Ok,
        bucket.dom().len() == 0 && bucket.dom().finite() ==> r is Ok,
{
    if bucket.dom().len() == 0 && bucket.dom().finite() {
        assert(bucket.dom() =~= Set::empty());
        assert forall|k: Seq<u8>| !#[trigger] bucket.contains_key(k) by {
            assert(!bucket.dom().contains(k));
        }
    }
}

/// Message deduplication and fan-out.
pub struct Gossiper<P: AsymCryptoProvider, H: Fn(Vec<u8>)> {
    /// The node type this gossiper belongs to
    node_type: NodeRegistryType,
    /// Config for the node
    config: Arc<Config>,
    /// Connection factory for sending messages
    conn_factory: ConnFactory,
    cache: moka::sync::Cache<Vec<u8>, ()>,
    /// Run one after the other on each message that is valid and new
    handlers: HandlerSet<H>,
    crypto_provider: P,
}

impl<P: AsymCryptoProvider, H: Fn(Vec<u8>)> Gossiper<P, H> {
    /// The handlers in the order of their registration.
    pub closed spec fn handler_list(&self) -> Seq<H> {
        self.handlers.list()
    }

    /// Every run of a handler so far, in order: the place of the handler in the
    /// list and the bytes that it got.
    pub closed spec fn handler_runs(&self) -> Seq<(int, Seq<u8>)> {
        self.handlers.runs()
    }

    /// The messages that were ever admitted, by their dedup keys.
    pub closed spec fn admitted(&self) -> Set<Seq<u8>> {
        remembered(self.cache)
    }

    /// The lookup of a key in the cache can answer `held`.
    pub closed spec fn recalls(&self, id: Seq<u8>, held: bool) -> bool {
        exists|key: &Vec<u8>|
            key@ == id && #[trigger] call_ensures(cache_holds, (&self.cache, key), held)
    }

    /// No lookup of a key misses: it has neither expired nor been evicted.
    pub open spec fn still_holds(&self, id: Seq<u8>) -> bool {
        !self.recalls(id, false)
    }

    /// The node type this gossiper belongs to.
    pub closed spec fn role(&self) -> NodeRegistryType {
        self.node_type
    }

    /// The configuration of the node.
    pub closed spec fn configuration(&self) -> Config {
        *self.config
    }

    /// The connection factory.
    pub closed spec fn factory(&self) -> ConnFactory {
        self.conn_factory
    }

    /// The provider that verifies signatures.
    pub closed spec fn provider(&self) -> P {
        self.crypto_provider
    }

    /// Create a gossiper that remembers messages for `ttl_seconds`.
    pub fn new(
        node_type: NodeRegistryType,
        config: Arc<Config>,
        ttl_seconds: u64,
        crypto_provider: P,
    ) -> (r: Self)
        requires
            ttl_seconds <= MAX_TTL_SECONDS,
        ensures
            r.role() == node_type,
            r.configuration() == *config,
            r.factory().shared_secret is None,
            r.factory().rw_timeout_millis
                == crate::conns::factories::DEFAULT_RW_TIMEOUT_MILLIS,
            r.admitted() == Set::<Seq<u8>>::empty(),
            r.handler_list() == Seq::<H>::empty(),
            r.handler_runs() == Seq::<(int, Seq<u8>)>::empty(),
            r.provider() == crypto_provider,
    {
        Gossiper {
            node_type,
            config,
            conn_factory: ConnFactory::new(),
            cache: cache_new(DEDUP_CAPACITY, ttl_seconds),
            handlers: HandlerSet::new(),
            crypto_provider,
        }
    }

    /// Everything but the handlers and the remembered messages is as in `other`.
    pub open spec fn same_setup(&self, other: &Self) -> bool {
        &&& self.role() == other.role()
        &&& self.configuration() == other.configuration()
        &&& self.factory() == other.factory()
        &&& self.provider() == other.provider()
    }

    /// Register the first message handler.
    pub fn initialize(&mut self, on_message_received: H)
        requires
            takes_any(on_message_received),
        ensures
            final(self).handler_list() == old(self).handler_list().push(on_message_received),
            final(self).handler_runs() == old(self).handler_runs(),
            final(self).admitted() == old(self).admitted(),
            final(self).same_setup(old(self)),
    {
        self.add_handler(on_message_received);
    }

    /// Register a further message handler.
    pub fn add_handler(&mut self, handler: H)
        requires
            takes_any(handler),
        ensures
            final(self).handler_list() == old(self).handler_list().push(handler),
            final(self).handler_runs() == old(self).handler_runs(),
            final(self).admitted() == old(self).admitted(),
            final(self).same_setup(old(self)),
    {
        self.handlers.push(handler);
    }

    /// Handle an incoming message, given with what it was decoded to: refuse it,
    /// skip it as a repeated one, or remember it and run every handler on its
    /// bytes.
    pub fn handle_message(
        &mut self,
        raw_data: &[u8],
        decoded: Result<Message, std::io::Error>,
    ) -> (r: Result<(), DataError>)
        ensures
            handled(*old(self), raw_data@, decoded, *final(self), r),
    {
        let verdict = self.admit_message(decoded);
        let ghost said = verdict;
        let r = match verdict {
            Err(e) => Err(e),
            Ok(fresh) => {
                if fresh {
                    deliver(&mut self.handlers, raw_data);
                }
                Ok(())
            },
        };
        assert(decoded is Ok ==> message_outcome(
            old(self).provider(),
            decoded->Ok_0,
            old(self).admitted(),
            self.admitted(),
            said,
        ) && follows_lookup(*old(self), decoded->Ok_0, said));
        r
    }

    /// Take in a message as far as it could be decoded: tells whether
    /// the handlers should get it. The signature is verified before the message
    /// is remembered, so refused content never stands in the way of a later
    /// message with the same sender and body.
    pub fn admit_message(&mut self, decoded: Result<Message, std::io::Error>) -> (r: Result<
        bool,
        DataError,
    >)
        ensures
            final(self).handler_list() == old(self).handler_list(),
            final(self).handler_runs() == old(self).handler_runs(),
            final(self).same_setup(old(self)),
            match decoded {
                Err(e) => r == Err::<bool, DataError>(DataError::DeserializationError(e))
                    && final(self).admitted() == old(self).admitted(),
                Ok(message) => message_outcome(
                    old(self).provider(),
                    message,
                    old(self).admitted(),
                    final(self).admitted(),
                    r,
                ) && follows_lookup(*old(self), message, r),
            },
    {
        let message = match decoded {
            Ok(message) => message,
            Err(e) => {
                return Err(DataError::DeserializationError(e));
            },
        };
        let signature = message.signature.as_slice();
        let public_key = message.public_key.as_slice();
        let body = message.body.as_slice();
        let verified = self.crypto_provider.check_signature(signature, public_key, body);
        assert(call_ensures(
            P::check_signature,
            (&old(self).provider(), signature, public_key, body),
            verified,
        ));
        let accepted = match &verified {
            Ok(ok) => *ok,
            Err(_) => false,
        };
        let mut seen = false;
        if accepted {
            let key = dedup_key(public_key, body);
            let held = cache_holds(&self.cache, &key);
            assert(call_ensures(cache_holds, (&self.cache, &key), held));
            assert(self.recalls(key@, held));
            if held {
                seen = true;
            } else {
                cache_insert(&mut self.cache, key);
            }
        }
        judge_message(verified, seen)
    }

    /// Send `data` to every node of a role with the sender that `sender_for`
    /// makes for it; the first failure ends it.
    pub fn send_to_type<
        T: Sender,
        F: Fn(&NodeRegistryNode) -> T,
        S: Fn(&[u8], &NodeRegistryType) -> bool,
    >(
        &self,
        node_registry: &NodeRegistry<S>,
        node_type: &NodeRegistryType,
        sender_for: F,
        data: &[u8],
    ) -> (r: Result<(), DataError>)
        requires
            node_registry.wf(),
            forall|node: &NodeRegistryNode| #[trigger] call_requires(sender_for, (node,)),
        ensures
            match r {
                Ok(_) => forall|key: Seq<u8>| #[trigger]
                    node_registry@[*node_type].contains_key(key) ==> exists|
                        node: &NodeRegistryNode,
                        sender: T,
                        reply: Vec<u8>,
                    |
                        node@ == node_registry@[*node_type][key] && #[trigger] call_ensures(
                            sender_for,
                            (node,),
                            sender,
                        ) && #[trigger] call_ensures(T::get_response, (&sender, data), Ok(reply)),
                Err(e) => exists|
                    key: Seq<u8>,
                    node: &NodeRegistryNode,
                    sender: T,
                    failure: crate::conns::ConnError,
                |
                    #[trigger] node_registry@[*node_type].contains_key(key) && node@
                        == node_registry@[*node_type][key] && #[trigger] call_ensures(
                        sender_for,
                        (node,),
                        sender,
                    ) && #[trigger] call_ensures(T::get_response, (&sender, data), Err(failure))
                        && (e matches DataError::FromStore(text) && text@ == failure.text()),
            },
            sent_to_nodes(node_registry@[*node_type], sender_for, data, r),
    {
        let nodes = node_registry.get_nodes(node_type);
        let ghost bucket = node_registry@[*node_type];
        let ghost keys = nodes.key_list();
        let mut i: usize = 0;
        proof {
            nodes.lemma_key_list();
        }
        while i < nodes.len()
            invariant
                nodes.wf(),
                keys == nodes.key_list(),
                bucket == crate::node::registry::records(nodes@),
                bucket == node_registry@[*node_type],
                i <= keys.len(),
                forall|node: &NodeRegistryNode| #[trigger] call_requires(sender_for, (node,)),
                forall|j: int| 0 <= j < keys.len() ==> nodes@.contains_key(#[trigger] keys[j]),
                forall|j: int|
                    0 <= j < i ==> exists|node: &NodeRegistryNode, sender: T, reply: Vec<u8>|
                        node@ == bucket[#[trigger] keys[j]] && #[trigger] call_ensures(
                            sender_for,
                            (node,),
                            sender,
                        ) && #[trigger] call_ensures(T::get_response, (&sender, data), Ok(reply)),
            decreases keys.len() - i,
        {
            let ghost key = keys[i as int];
            assert(nodes@.contains_key(key));
            let node = nodes.value_at(i);
            assert(bucket.contains_key(key) && node@ == bucket[key]);
            let sender = sender_for(node);
            match sender.get_response(data) {
                Ok(reply) => {
                    assert(node@ == bucket[keys[i as int]] && call_ensures(
                        sender_for,
                        (node,),
                        sender,
                    ) && call_ensures(T::get_response, (&sender, data), Ok(reply)));
                },
                Err(e) => {
                    return Err(DataError::FromStore(e.to_string()));
                },
            }
            i += 1;
        }
        proof {
            assert forall|key: Seq<u8>| #[trigger] bucket.contains_key(key) implies exists|
                node: &NodeRegistryNode,
                sender: T,
                reply: Vec<u8>,
            |
                node@ == bucket[key] && #[trigger] call_ensures(sender_for, (node,), sender)
                    && #[trigger] call_ensures(T::get_response, (&sender, data), Ok(reply)) by {
                assert(nodes@.contains_key(key));
                assert(keys.contains(key));
                let j = choose|j: int| 0 <= j < keys.len() && keys[j] == key;
                assert(bucket[keys[j]] == bucket[key]);
            }
        }
        Ok(())
    }
}

} // verus!
