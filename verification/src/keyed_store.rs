//! A store of values found by a byte-string key through a hash index.
use crate::bytes::copy_bytes;
use vstd::prelude::*;

verus! {

/// `dashmap::DashMap`, the sharded hash map behind the index.
#[verifier::external_type_specification]
#[verifier::external_body]
#[verifier::reject_recursive_types(K)]
#[verifier::reject_recursive_types(V)]
#[verifier::reject_recursive_types(S)]
pub struct ExDashMap<K, V, S>(dashmap::DashMap<K, V, S>);

/// What an index holds: the position recorded for each key.
pub uninterp spec fn index_entries(index: dashmap::DashMap<Vec<u8>, usize>) -> Map<Seq<u8>, usize>;

/// `DashMap::new`: an index with no entries.
#[verifier::external_body]
fn index_new() -> (r: dashmap::DashMap<Vec<u8>, usize>)
    ensures
        index_entries(r).dom() == Set::<Seq<u8>>::empty(),
{
    dashmap::DashMap::new()
}

/// `DashMap::insert`: records `position` under `key`, replacing what was
/// recorded there, and changes nothing else.
#[verifier::external_body]
fn index_insert(index: &mut dashmap::DashMap<Vec<u8>, usize>, key: Vec<u8>, position: usize)
    ensures
        index_entries(*final(index)) == index_entries(*old(index)).insert(key@, position),
{
    index.insert(key, position);
}

/// `DashMap::get`: the position recorded under `key`, `None` where there is none.
#[verifier::external_body]
fn index_get(index: &dashmap::DashMap<Vec<u8>, usize>, key: &[u8]) -> (r: Option<usize>)
    ensures
        r == (if index_entries(*index).contains_key(key@) {
            Some(index_entries(*index)[key@])
        } else {
            None
        }),
{
    index.get(key).map(|position| *position)
}

/// `DashMap::remove`: forgets `key` and changes nothing else.
#[verifier::external_body]
fn index_remove(index: &mut dashmap::DashMap<Vec<u8>, usize>, key: &[u8])
    ensures
        index_entries(*final(index)) == index_entries(*old(index)).remove(key@),
{
    index.remove(key);
}

/// Values kept in a vector, each found through a `DashMap` from its key to its
/// position.
pub struct KeyedStore<V> {
    index: dashmap::DashMap<Vec<u8>, usize>,
    keys: Vec<Vec<u8>>,
    values: Vec<V>,
}

impl<V> View for KeyedStore<V> {
    type V = Map<Seq<u8>, V>;

    closed spec fn view(&self) -> Map<Seq<u8>, V> {
        Map::new(
            |k: Seq<u8>| index_entries(self.index).contains_key(k),
            |k: Seq<u8>| self.values@[index_entries(self.index)[k] as int],
        )
    }
}

impl<V> KeyedStore<V> {
    /// Every stored key is indexed at its own position, and the index holds
    /// nothing else.
    pub closed spec fn wf(&self) -> bool {
        let ix = index_entries(self.index);
        &&& self.keys@.len() == self.values@.len()
        &&& forall|i: int|
            0 <= i < self.keys@.len() ==> ix.contains_key(#[trigger] self.keys@[i]@)
                && ix[self.keys@[i]@] == i
        &&& forall|k: Seq<u8>| #[trigger]
            ix.contains_key(k) ==> ix[k] < self.keys@.len() && self.keys@[ix[k] as int]@ == k
    }

    /// The stored keys, in storage order.
    pub closed spec fn key_list(&self) -> Seq<Seq<u8>> {
        Seq::new(self.keys@.len(), |i: int| self.keys@[i]@)
    }

    /// The key list names each key of the map once.
    pub proof fn lemma_key_list(&self)
        requires
            self.wf(),
        ensures
            self.key_list().no_duplicates(),
            forall|i: int|
                0 <= i < self.key_list().len() ==> self@.contains_key(
                    #[trigger] self.key_list()[i],
                ),
            forall|k: Seq<u8>| #[trigger] self@.contains_key(k) ==> self.key_list().contains(k),
    {
        let ix = index_entries(self.index);
        assert forall|k: Seq<u8>| #[trigger]
            self@.contains_key(k) implies self.key_list().contains(k) by {
            assert(ix.contains_key(k));
            assert(self.key_list()[ix[k] as int] == k);
        }
        assert forall|i: int, j: int|
            0 <= i < self.key_list().len() && 0 <= j < self.key_list().len() && i
                != j implies self.key_list()[i] != self.key_list()[j] by {
            assert(ix[self.keys@[i]@] == i);
            assert(ix[self.keys@[j]@] == j);
        }
    }

    pub fn new() -> (r: Self)
        ensures
            r.wf(),
            r@ == Map::<Seq<u8>, V>::empty(),
            r.key_list() == Seq::<Seq<u8>>::empty(),
    {
        let r = KeyedStore { index: index_new(), keys: Vec::new(), values: Vec::new() };
        assert(r@ =~= Map::<Seq<u8>, V>::empty());
        assert(r.key_list() =~= Seq::<Seq<u8>>::empty());
        r
    }

    pub fn len(&self) -> (r: usize)
        requires
            self.wf(),
        ensures
            r == self.key_list().len(),
            r == self@.dom().len(),
            self@.dom().finite(),
    {
        proof {
            self.lemma_key_list();
            self.key_list().unique_seq_to_set();
            assert(self.key_list().to_set() =~= self@.dom());
        }
        self.keys.len()
    }

    /// The key at position `i` of the key list.
    pub fn key_at(&self, i: usize) -> (r: &Vec<u8>)
        requires
            i < self.key_list().len(),
        ensures
            r@ == self.key_list()[i as int],
    {
        &self.keys[i]
    }

    /// The value stored under the key at position `i` of the key list.
    pub fn value_at(&self, i: usize) -> (r: &V)
        requires
            self.wf(),
            i < self.key_list().len(),
        ensures
            *r == self@[self.key_list()[i as int]],
    {
        assert(index_entries(self.index).contains_key(self.keys@[i as int]@));
        &self.values[i]
    }

    pub fn contains_key(&self, key: &[u8]) -> (r: bool)
        ensures
            r == self@.contains_key(key@),
    {
        index_get(&self.index, key).is_some()
    }

    /// The value stored under `key`.
    pub fn get(&self, key: &[u8]) -> (r: Option<&V>)
        requires
            self.wf(),
        ensures
            r is Some <==> self@.contains_key(key@),
            r matches Some(v) ==> *v == self@[key@],
    {
        match index_get(&self.index, key) {
            Some(p) => Some(&self.values[p]),
            None => None,
        }
    }

    /// Mutable access to the value stored under `key`. The map afterwards
    /// holds whatever the borrower left there.
    pub fn get_mut(&mut self, key: &[u8]) -> (r: Option<&mut V>)
        requires
            old(self).wf(),
        ensures
            final(self).wf(),
            final(self).key_list() == old(self).key_list(),
            r is Some <==> old(self)@.contains_key(key@),
            r matches Some(v) ==> *v == old(self)@[key@] && final(self)@ == old(self)@.insert(
                key@,
                *final(v),
            ),
            r is None ==> final(self)@ == old(self)@,
    {
        match index_get(&self.index, key) {
            Some(p) => Some(&mut self.values[p]),
            None => None,
        }
    }

    /// Store `value` under `key`; the value that was there before, if any, is
    /// handed back.
    pub fn insert(&mut self, key: Vec<u8>, value: V) -> (r: Option<V>)
        requires
            old(self).wf(),
        ensures
            final(self).wf(),
            final(self)@ == old(self)@.insert(key@, value),
            r == (if old(self)@.contains_key(key@) {
                Some(old(self)@[key@])
            } else {
                None
            }),
            final(self).key_list() == (if old(self)@.contains_key(key@) {
                old(self).key_list()
            } else {
                old(self).key_list().push(key@)
            }),
    {
        let ghost before = *self;
        match index_get(&self.index, &key) {
            Some(p) => {
                let mut slot: V = value;
                std::mem::swap(&mut self.values[p], &mut slot);
                assert(self@ =~= before@.insert(key@, value));
                assert(self.key_list() =~= before.key_list());
                Some(slot)
            },
            None => {
                let p = self.keys.len();
                index_insert(&mut self.index, copy_bytes(&key), p);
                let ghost k = key@;
                self.keys.push(key);
                self.values.push(value);
                assert forall|i: int| 0 <= i < self.keys@.len() implies index_entries(
                    self.index,
                ).contains_key(#[trigger] self.keys@[i]@) && index_entries(
                    self.index,
                )[self.keys@[i]@] == i by {
                    if i < p {
                        assert(before.keys@[i] == self.keys@[i]);
                        assert(index_entries(before.index).contains_key(before.keys@[i]@));
                    }
                }
                assert(self@ =~= before@.insert(k, value));
                assert(self.key_list() =~= before.key_list().push(k));
                None
            },
        }
    }

    /// Remove `key`; the value that was stored there, if any, is handed back.
    pub fn remove(&mut self, key: &[u8]) -> (r: Option<V>)
        requires
            old(self).wf(),
        ensures
            final(self).wf(),
            final(self)@ == old(self)@.remove(key@),
            r == (if old(self)@.contains_key(key@) {
                Some(old(self)@[key@])
            } else {
                None
            }),
    {
        let ghost before = *self;
        match index_get(&self.index, key) {
            Some(p) => {
                let last: usize = self.keys.len() - 1;
                index_remove(&mut self.index, key);
                let ghost ix0 = index_entries(before.index);
                assert(before.keys@[p as int]@ == key@);
                if p != last {
                    let moved = copy_bytes(&self.keys[last]);
                    assert(ix0.contains_key(before.keys@[last as int]@));
                    index_insert(&mut self.index, moved, p);
                }
                let _ = self.keys.swap_remove(p);
                let value = self.values.swap_remove(p);
                let ghost ix = index_entries(self.index);
                assert forall|i: int| 0 <= i < self.keys@.len() implies ix.contains_key(
                    #[trigger] self.keys@[i]@,
                ) && ix[self.keys@[i]@] == i by {
                    assert(ix0.contains_key(before.keys@[i]@));
                    assert(ix0.contains_key(before.keys@[last as int]@));
                }
                assert forall|k: Seq<u8>| #[trigger] ix.contains_key(k) implies ix[k]
                    < self.keys@.len() && self.keys@[ix[k] as int]@ == k by {
                    assert(ix0.contains_key(k));
                }
                assert(self@ =~= before@.remove(key@));
                Some(value)
            },
            None => {
                assert(self@ =~= before@.remove(key@));
                None
            },
        }
    }
}

} // verus!
