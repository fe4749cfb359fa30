//! `TransactionSignatureRegistry`: executor signatures per transaction, one for
//! each executor.
use crate::bytes::copy_bytes;
use crate::errors::PneumaticError;
use crate::keyed_store::KeyedStore;
use crate::sorted_map::SortedMap;
use crate::text::{byte_list_string, wrap};
use crate::transactions::TransactionSignature;
use vstd::prelude::*;
use vstd::string::StringExecFns;

verus! {

/// Signatures keyed by transaction id, then by executor public key.
pub struct TransactionSignatureRegistry {
    signatures: KeyedStore<SortedMap<TransactionSignature>>,
}

impl View for TransactionSignatureRegistry {
    type V = Map<Seq<u8>, Map<Seq<u8>, TransactionSignature>>;

    closed spec fn view(&self) -> Map<Seq<u8>, Map<Seq<u8>, TransactionSignature>> {
        self.signatures@.map_values(|m: SortedMap<TransactionSignature>| m@)
    }
}

/// How a second signature of an executor is reported.
pub open spec fn duplicate_signature_text(executor: Seq<u8>, tx_id: Seq<char>) -> Seq<char> {
    "Duplicate signature from executor "@ + crate::text::byte_list(executor)
        + " for transaction "@ + tx_id
}

/// `after` and `r` are what the signature of an executor leads to: it is taken in
/// where the transaction is known and the executor has not signed it yet.
pub open spec fn signed_by(
    before: Map<Seq<u8>, Map<Seq<u8>, TransactionSignature>>,
    tx_id: Seq<char>,
    executor: Seq<u8>,
    signature: TransactionSignature,
    after: Map<Seq<u8>, Map<Seq<u8>, TransactionSignature>>,
    r: Result<(), PneumaticError>,
) -> bool {
    let id = crate::registry::pending::id_key(tx_id);
    if before.contains_key(id) && !before[id].contains_key(executor) {
        r is Ok && after == before.insert(id, before[id].insert(executor, signature))
    } else {
        r is Err && after == before
    }
}

/// `after` and `r` are what opening a transaction for signatures leads to.
pub open spec fn opened(
    before: Map<Seq<u8>, Map<Seq<u8>, TransactionSignature>>,
    tx_id: Seq<char>,
    after: Map<Seq<u8>, Map<Seq<u8>, TransactionSignature>>,
    r: Result<(), PneumaticError>,
) -> bool {
    let id = crate::registry::pending::id_key(tx_id);
    if before.contains_key(id) {
        r is Err && after == before
    } else {
        r is Ok && after == before.insert(id, Map::<Seq<u8>, TransactionSignature>::empty())
    }
}

/// `after` and `r` are what removing a transaction leads to.
pub open spec fn forgotten(
    before: Map<Seq<u8>, Map<Seq<u8>, TransactionSignature>>,
    tx_id: Seq<char>,
    after: Map<Seq<u8>, Map<Seq<u8>, TransactionSignature>>,
    r: Result<(), PneumaticError>,
) -> bool {
    let id = crate::registry::pending::id_key(tx_id);
    &&& r is Ok <==> before.contains_key(id)
    &&& after == before.remove(id)
}

/// A transaction is opened once and without signatures: opening it again is
/// refused and keeps those that it has. Removing it takes its signatures along and
/// leaves the other transactions alone, and it can be opened afresh.
pub proof fn transactions_are_opened_once(
    before: Map<Seq<u8>, Map<Seq<u8>, TransactionSignature>>,
    tx_id: Seq<char>,
    between: Map<Seq<u8>, Map<Seq<u8>, TransactionSignature>>,
    first: Result<(), PneumaticError>,
    after: Map<Seq<u8>, Map<Seq<u8>, TransactionSignature>>,
    second: Result<(), PneumaticError>,
    left: Map<Seq<u8>, Map<Seq<u8>, TransactionSignature>>,
    removal: Result<(), PneumaticError>,
    other: Seq<char>,
)
    requires
        opened(before, tx_id, between, first),
        opened(between, tx_id, after, second),
        forgotten(between, tx_id, left, removal),
        other != tx_id,
    ensures
        first is Ok <==> !before.contains_key(vstd::utf8::encode_utf8(tx_id)),
        first is Ok ==> between[vstd::utf8::encode_utf8(tx_id)].dom() == Set::<Seq<u8>>::empty(),
        first is Err ==> between == before,
        second is Err && after == between,
        removal is Ok && !left.contains_key(vstd::utf8::encode_utf8(tx_id)),
        left.contains_key(vstd::utf8::encode_utf8(other)) == before.contains_key(
            vstd::utf8::encode_utf8(other),
        ),
        before.contains_key(vstd::utf8::encode_utf8(other))
            ==> left[vstd::utf8::encode_utf8(other)] == before[vstd::utf8::encode_utf8(other)],
{
    crate::text::lemma_utf8_injective(tx_id, other);
}

/// An executor signs a transaction once: a second signature of it is refused and
/// the first one stays. Another executor's signature, or one for another
/// transaction, is counted beside it.
pub proof fn executors_sign_once(
    before: Map<Seq<u8>, Map<Seq<u8>, TransactionSignature>>,
    tx_id: Seq<char>,
    executor: Seq<u8>,
    first: TransactionSignature,
    between: Map<Seq<u8>, Map<Seq<u8>, TransactionSignature>>,
    r1: Result<(), PneumaticError>,
    tx_id2: Seq<char>,
    executor2: Seq<u8>,
    second: TransactionSignature,
    after: Map<Seq<u8>, Map<Seq<u8>, TransactionSignature>>,
    r2: Result<(), PneumaticError>,
)
    requires
        signed_by(before, tx_id, executor, first, between, r1),
        signed_by(between, tx_id2, executor2, second, after, r2),
    ensures
        ({
            let id = vstd::utf8::encode_utf8(tx_id);
            let id2 = vstd::utf8::encode_utf8(tx_id2);
            &&& r1 is Ok <==> before.contains_key(id) && !before[id].contains_key(executor)
            &&& r1 is Ok ==> between[id].contains_key(executor) && between[id][executor] == first
            &&& r1 is Ok ==> after[id].contains_key(executor) && after[id][executor] == first
            &&& r1 is Ok && tx_id2 == tx_id && executor2 == executor ==> r2 is Err && after
                == between
            &&& before.contains_key(id2) && !before[id2].contains_key(executor2) && (tx_id2 != tx_id
                || executor2 != executor) ==> r2 is Ok && after[id2][executor2] == second
        }),
{
    crate::text::lemma_utf8_injective(tx_id, tx_id2);
}

impl TransactionSignatureRegistry {
    /// The index behind the registry is consistent.
    pub closed spec fn wf(&self) -> bool {
        self.signatures.wf()
    }

    pub fn new() -> (r: Self)
        ensures
            r.wf(),
            r@ == Map::<Seq<u8>, Map<Seq<u8>, TransactionSignature>>::empty(),
    {
        let r = TransactionSignatureRegistry { signatures: KeyedStore::new() };
        assert(r@ =~= Map::<Seq<u8>, Map<Seq<u8>, TransactionSignature>>::empty());
        r
    }

    /// Add a transaction that was not seen before.
    pub fn try_add_transaction(&mut self, tx_id: &str) -> (r: Result<(), PneumaticError>)
        requires
            old(self).wf(),
        ensures
            final(self).wf(),
            r is Ok <==> !old(self)@.contains_key(crate::registry::pending::id_key(tx_id@)),
            r is Ok ==> final(self)@ == old(self)@.insert(
                crate::registry::pending::id_key(tx_id@),
                Map::<Seq<u8>, TransactionSignature>::empty(),
            ),
            r is Err ==> final(self)@ == old(self)@ && crate::registry::pending::registry_error(
                r,
                "Transaction "@ + tx_id@ + " already in signature registry"@,
            ),
            opened(old(self)@, tx_id@, final(self)@, r),
    {
        if self.signatures.contains_key(tx_id.as_bytes()) {
            return Err(
                PneumaticError::Registry(
                    wrap("Transaction ", tx_id, " already in signature registry"),
                ),
            );
        }
        let ghost before = self@;
        let _ = self.signatures.insert(copy_bytes(tx_id.as_bytes()), SortedMap::new());
        assert(self@ =~= before.insert(
            crate::registry::pending::id_key(tx_id@),
            Map::<Seq<u8>, TransactionSignature>::empty(),
        ));
        Ok(())
    }

    /// Add a transaction unless it is there already.
    pub fn ensure_transaction_registered(&mut self, tx_id: &str)
        requires
            old(self).wf(),
        ensures
            final(self).wf(),
            final(self)@ == (if old(self)@.contains_key(crate::registry::pending::id_key(tx_id@)) {
                old(self)@
            } else {
                old(self)@.insert(crate::registry::pending::id_key(tx_id@), Map::<Seq<u8>, TransactionSignature>::empty())
            }),
    {
        if !self.signatures.contains_key(tx_id.as_bytes()) {
            let ghost before = self@;
            let _ = self.signatures.insert(copy_bytes(tx_id.as_bytes()), SortedMap::new());
            assert(self@ =~= before.insert(
                crate::registry::pending::id_key(tx_id@),
                Map::<Seq<u8>, TransactionSignature>::empty(),
            ));
        }
    }

    /// Check if a transaction is already registered for signatures.
    pub fn transaction_is_registered(&self, tx_id: &str) -> (r: bool)
        ensures
            r == self@.contains_key(crate::registry::pending::id_key(tx_id@)),
    {
        self.signatures.contains_key(tx_id.as_bytes())
    }

    /// Get the signature map for a transaction.
    pub fn get_transaction_registry(&self, tx_id: &str) -> (r: Option<
        SortedMap<TransactionSignature>,
    >)
        requires
            self.wf(),
        ensures
            r is Some <==> self@.contains_key(crate::registry::pending::id_key(tx_id@)),
            r matches Some(map) ==> {
                &&& map@.dom() == self@[crate::registry::pending::id_key(tx_id@)].dom()
                &&& forall|k: Seq<u8>| #[trigger]
                    map@.contains_key(k) ==> crate::transactions::same_signature(
                        map@[k],
                        self@[crate::registry::pending::id_key(tx_id@)][k],
                    )
            },
    {
        match self.signatures.get(tx_id.as_bytes()) {
            Some(map) => {
                let copy = map.duplicate_cloned();
                proof {
                    use_type_invariant(map);
                    use_type_invariant(&copy);
                    lemma_copied_map(map, &copy);
                }
                Some(copy)
            },
            None => None,
        }
    }

    /// Add an executor's signature for a transaction.
    pub fn try_add_signature(
        &mut self,
        tx_id: &str,
        executor_key: Vec<u8>,
        signature: TransactionSignature,
    ) -> (r: Result<(), PneumaticError>)
        requires
            old(self).wf(),
        ensures
            final(self).wf(),
            r is Ok <==> old(self)@.contains_key(crate::registry::pending::id_key(tx_id@))
                && !old(self)@[crate::registry::pending::id_key(tx_id@)].contains_key(executor_key@),
            r is Ok ==> final(self)@ == old(self)@.insert(
                crate::registry::pending::id_key(tx_id@),
                old(self)@[crate::registry::pending::id_key(tx_id@)].insert(executor_key@, signature),
            ),
            r is Err ==> final(self)@ == old(self)@,
            !old(self)@.contains_key(crate::registry::pending::id_key(tx_id@)) ==> crate::registry::pending::registry_error(
                r,
                "Transaction "@ + tx_id@ + " not in signature registry"@,
            ),
            r is Err && old(self)@.contains_key(crate::registry::pending::id_key(tx_id@)) ==> crate::registry::pending::registry_error(
                r,
                duplicate_signature_text(executor_key@, tx_id@),
            ),
            signed_by(old(self)@, tx_id@, executor_key@, signature, final(self)@, r),
    {
        let ghost before = self@;
        match self.signatures.get_mut(tx_id.as_bytes()) {
            Some(map) => {
                let ghost start = map@;
                if map.contains_key(&executor_key) {
                    let mut msg = wrap(
                        "Duplicate signature from executor ",
                        &byte_list_string(&executor_key),
                        " for transaction ",
                    );
                    msg.append(tx_id);
                    assert(self@ =~= before);
                    return Err(PneumaticError::Registry(msg));
                }
                let ghost key = executor_key@;
                map.insert(executor_key, signature);
                assert(self@ =~= before.insert(crate::registry::pending::id_key(tx_id@), start.insert(key, signature)));
                Ok(())
            },
            None => {
                assert(self@ =~= before);
                Err(
                    PneumaticError::Registry(
                        wrap("Transaction ", tx_id, " not in signature registry"),
                    ),
                )
            },
        }
    }

    /// Remove a transaction (cleanup after commit).
    pub fn try_remove_transaction(&mut self, tx_id: &str) -> (r: Result<(), PneumaticError>)
        requires
            old(self).wf(),
        ensures
            final(self).wf(),
            r is Ok <==> old(self)@.contains_key(crate::registry::pending::id_key(tx_id@)),
            final(self)@ == old(self)@.remove(crate::registry::pending::id_key(tx_id@)),
            forgotten(old(self)@, tx_id@, final(self)@, r),
            r is Err ==> crate::registry::pending::registry_error(
                r,
                "Transaction "@ + tx_id@ + " not in signature registry"@,
            ),
    {
        let ghost before = self@;
        let removed = self.signatures.remove(tx_id.as_bytes());
        assert(self@ =~= before.remove(crate::registry::pending::id_key(tx_id@)));
        match removed {
            Some(_) => Ok(()),
            None => Err(
                PneumaticError::Registry(
                    wrap("Transaction ", tx_id, " not in signature registry"),
                ),
            ),
        }
    }

    /// Check if the registry is empty.
    pub fn is_empty(&self) -> (r: bool)
        requires
            self.wf(),
        ensures
            r == (self@.dom().len() == 0),
    {
        assert(self@.dom() =~= self.signatures@.dom());
        self.signatures.len() == 0
    }

    /// Count of registered transactions.
    pub fn len(&self) -> (r: usize)
        requires
            self.wf(),
        ensures
            r == self@.dom().len(),
    {
        assert(self@.dom() =~= self.signatures@.dom());
        self.signatures.len()
    }
}

impl Default for TransactionSignatureRegistry {
    fn default() -> (r: Self)
        ensures
            r.wf(),
            r@ == Map::<Seq<u8>, Map<Seq<u8>, TransactionSignature>>::empty(),
    {
        TransactionSignatureRegistry::new()
    }
}

proof fn lemma_copied_map(
    map: &SortedMap<TransactionSignature>,
    copy: &SortedMap<TransactionSignature>,
)
    requires
        map.wf(),
        copy.wf(),
        copy.listing().len() == map.listing().len(),
        forall|i: int|
            #![trigger copy.listing()[i]]
            0 <= i < copy.listing().len() ==> copy.listing()[i].0 == map.listing()[i].0 && cloned(
                map.listing()[i].1,
                copy.listing()[i].1,
            ),
    ensures
        copy@.dom() == map@.dom(),
        forall|k: Seq<u8>| #[trigger]
            copy@.contains_key(k) ==> crate::transactions::same_signature(copy@[k], map@[k]),
{
    map.lemma_listing();
    copy.lemma_listing();
    assert forall|k: Seq<u8>| #[trigger] copy@.contains_key(k) implies map@.contains_key(k)
        && crate::transactions::same_signature(copy@[k], map@[k]) by {
        let i = crate::sorted_map::position_of(copy.listing(), k);
        assert(copy.listing()[i].0 == k);
        assert(map.listing()[i].0 == k);
        assert(map@.contains_key(map.listing()[i].0));
    }
    assert forall|k: Seq<u8>| #[trigger] map@.contains_key(k) implies copy@.contains_key(k) by {
        let i = crate::sorted_map::position_of(map.listing(), k);
        assert(map.listing()[i].0 == k);
        assert(copy.listing()[i].0 == k);
        assert(copy@.contains_key(copy.listing()[i].0));
    }
    assert(copy@.dom() =~= map@.dom());
}

} // verus!
