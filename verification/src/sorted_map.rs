//! A map from byte strings that keeps its entries in key order.
use crate::bytes::{bytes_eq, bytes_less, copy_bytes};
use vstd::prelude::*;

verus! {

/// The entries are in strictly increasing key order.
pub open spec fn sorted_by_key<V>(s: Seq<(Seq<u8>, V)>) -> bool {
    forall|i: int, j: int| 0 <= i < j < s.len() ==> crate::bytes::lex_less(#[trigger] s[i].0, #[trigger] s[j].0)
}

/// The key occurs in the listing.
pub open spec fn lists_key<V>(s: Seq<(Seq<u8>, V)>, key: Seq<u8>) -> bool {
    exists|i: int| 0 <= i < s.len() && (#[trigger] s[i]).0 == key
}

/// The position of a key in the listing.
pub open spec fn position_of<V>(s: Seq<(Seq<u8>, V)>, key: Seq<u8>) -> int {
    choose|i: int| 0 <= i < s.len() && (#[trigger] s[i]).0 == key
}

/// The map that a listing of entries describes.
pub open spec fn map_of<V>(s: Seq<(Seq<u8>, V)>) -> Map<Seq<u8>, V> {
    Map::new(|k: Seq<u8>| lists_key(s, k), |k: Seq<u8>| s[position_of(s, k)].1)
}

proof fn lemma_position_unique<V>(s: Seq<(Seq<u8>, V)>, i: int)
    requires
        sorted_by_key(s),
        0 <= i < s.len(),
    ensures
        lists_key(s, s[i].0),
        position_of(s, s[i].0) == i,
        map_of(s).contains_key(s[i].0),
        map_of(s)[s[i].0] == s[i].1,
{
    let p = position_of(s, s[i].0);
    assert(0 <= p < s.len() && s[p].0 == s[i].0);
    if p < i {
        crate::bytes::lemma_lex_less_asymmetric(s[p].0, s[i].0);
    }
    if i < p {
        crate::bytes::lemma_lex_less_asymmetric(s[i].0, s[p].0);
    }
}

/// A sorted listing is determined by the map that it describes: there is one
/// way to write a finite map down in key order.
pub proof fn listing_is_canonical<V>(s: Seq<(Seq<u8>, V)>, t: Seq<(Seq<u8>, V)>)
    requires
        sorted_by_key(s),
        sorted_by_key(t),
        map_of(s) == map_of(t),
    ensures
        s == t,
    decreases s.len(),
{
    if s.len() == 0 {
        if t.len() > 0 {
            lemma_position_unique(t, 0);
            assert(map_of(s).contains_key(t[0].0));
        }
        assert(s =~= t);
    } else {
        lemma_position_unique(s, s.len() - 1);
        assert(map_of(t).contains_key(s.last().0));
        let p = position_of(t, s.last().0);
        assert(0 <= p < t.len() && t[p].0 == s.last().0);
        lemma_position_unique(t, t.len() - 1);
        assert(map_of(s).contains_key(t.last().0));
        let q = position_of(s, t.last().0);
        assert(0 <= q < s.len() && s[q].0 == t.last().0);
        if p < t.len() - 1 {
            assert(crate::bytes::lex_less(t[p].0, t.last().0));
            if q < s.len() - 1 {
                assert(crate::bytes::lex_less(s[q].0, s.last().0));
            }
            crate::bytes::lemma_lex_less_asymmetric(t[p].0, t.last().0);
        }
        lemma_position_unique(t, p);
        let s0 = s.drop_last();
        let t0 = t.drop_last();
        assert(map_of(s0) =~= map_of(s).remove(s.last().0)) by {
            lemma_drop_last_map(s);
        }
        assert(map_of(t0) =~= map_of(t).remove(t.last().0)) by {
            lemma_drop_last_map(t);
        }
        listing_is_canonical(s0, t0);
        assert(s =~= s0.push(s.last()));
        assert(t =~= t0.push(t.last()));
    }
}

proof fn lemma_drop_last_map<V>(s: Seq<(Seq<u8>, V)>)
    requires
        sorted_by_key(s),
        s.len() > 0,
    ensures
        sorted_by_key(s.drop_last()),
        map_of(s.drop_last()) =~= map_of(s).remove(s.last().0),
{
    let s0 = s.drop_last();
    assert(sorted_by_key(s0)) by {
        assert forall|i: int, j: int| 0 <= i < j < s0.len() implies crate::bytes::lex_less(
            #[trigger] s0[i].0,
            #[trigger] s0[j].0,
        ) by {
            assert(s[i] == s0[i] && s[j] == s0[j]);
        }
    }
    assert forall|k: Seq<u8>| #[trigger]
        map_of(s0).contains_key(k) == map_of(s).remove(s.last().0).contains_key(k) by {
        if map_of(s0).contains_key(k) {
            let i = position_of(s0, k);
            assert(s[i] == s0[i]);
            assert(lists_key(s, k));
            assert(crate::bytes::lex_less(s[i].0, s[s.len() - 1].0));
            crate::bytes::lemma_lex_less_asymmetric(s[i].0, s[s.len() - 1].0);
        }
        if map_of(s).remove(s.last().0).contains_key(k) {
            let i = position_of(s, k);
            assert(i < s.len() - 1);
            assert(s0[i].0 == k);
        }
    }
    assert forall|k: Seq<u8>| map_of(s0).contains_key(k) implies #[trigger] map_of(s0)[k]
        == map_of(s).remove(s.last().0)[k] by {
        let i = position_of(s0, k);
        lemma_position_unique(s0, i);
        lemma_position_unique(s, i);
    }
}

/// A map from byte strings to values, stored as a vector in key order.
#[derive(Debug)]
pub struct SortedMap<V> {
    keys: Vec<Vec<u8>>,
    values: Vec<V>,
}

impl<V> View for SortedMap<V> {
    type V = Map<Seq<u8>, V>;

    closed spec fn view(&self) -> Map<Seq<u8>, V> {
        map_of(self.listing())
    }
}

impl<V> SortedMap<V> {
    /// The entries in key order.
    pub closed spec fn listing(&self) -> Seq<(Seq<u8>, V)> {
        Seq::new(self.keys@.len(), |i: int| (self.keys@[i]@, self.values@[i]))
    }

    /// Keys and values are paired up and the keys strictly increase.
    #[verifier::type_invariant]
    pub closed spec fn wf(&self) -> bool {
        &&& self.keys@.len() == self.values@.len()
        &&& sorted_by_key(self.listing())
    }

    /// What `wf` means for the listing.
    pub proof fn lemma_listing(&self)
        requires
            self.wf(),
        ensures
            sorted_by_key(self.listing()),
            self@ == map_of(self.listing()),
            forall|i: int|
                0 <= i < self.listing().len() ==> self@.contains_key(#[trigger] self.listing()[i].0)
                    && self@[self.listing()[i].0] == self.listing()[i].1,
    {
        assert forall|i: int| 0 <= i < self.listing().len() implies self@.contains_key(
            #[trigger] self.listing()[i].0,
        ) && self@[self.listing()[i].0] == self.listing()[i].1 by {
            lemma_position_unique(self.listing(), i);
        }
    }

    pub fn new() -> (r: Self)
        ensures
            r@ == Map::<Seq<u8>, V>::empty(),
            r.listing() == Seq::<(Seq<u8>, V)>::empty(),
            r.wf(),
    {
        let r = SortedMap { keys: Vec::new(), values: Vec::new() };
        assert(r.listing() =~= Seq::<(Seq<u8>, V)>::empty());
        assert(r@ =~= Map::<Seq<u8>, V>::empty());
        r
    }

    pub fn len(&self) -> (r: usize)
        ensures
            self.wf(),
            r == self.listing().len(),
    {
        proof {
            use_type_invariant(self);
        }
        self.keys.len()
    }

    /// The key at position `i` of the listing.
    pub fn key_at(&self, i: usize) -> (r: &Vec<u8>)
        requires
            i < self.listing().len(),
        ensures
            r@ == self.listing()[i as int].0,
    {
        proof {
            use_type_invariant(self);
        }
        &self.keys[i]
    }

    /// The value at position `i` of the listing.
    pub fn value_at(&self, i: usize) -> (r: &V)
        requires
            i < self.listing().len(),
        ensures
            *r == self.listing()[i as int].1,
    {
        proof {
            use_type_invariant(self);
        }
        &self.values[i]
    }

    /// The first position whose key is not below `key`.
    fn lower_bound(&self, key: &[u8]) -> (r: usize)
        ensures
            r <= self.listing().len(),
            forall|i: int| 0 <= i < r ==> crate::bytes::lex_less(#[trigger] self.listing()[i].0, key@),
            r < self.listing().len() ==> !crate::bytes::lex_less(self.listing()[r as int].0, key@) && (
            self.listing()[r as int].0 == key@ || crate::bytes::lex_less(key@, self.listing()[r as int].0)),
    {
        proof {
            use_type_invariant(self);
        }
        let mut i: usize = 0;
        while i < self.keys.len()
            invariant
                i <= self.keys@.len(),
                self.listing().len() == self.keys@.len(),
                forall|j: int| 0 <= j < i ==> crate::bytes::lex_less(#[trigger] self.listing()[j].0, key@),
            decreases self.keys@.len() - i,
        {
            if !bytes_less(&self.keys[i], key) {
                return i;
            }
            i += 1;
        }
        i
    }

    /// The value stored under `key`.
    pub fn get(&self, key: &[u8]) -> (r: Option<&V>)
        ensures
            r is Some <==> self@.contains_key(key@),
            r matches Some(v) ==> *v == self@[key@],
    {
        proof {
            use_type_invariant(self);
        }
        let p = self.lower_bound(key);
        if p < self.keys.len() && bytes_eq(&self.keys[p], key) {
            proof {
                lemma_position_unique(self.listing(), p as int);
            }
            Some(&self.values[p])
        } else {
            proof {
                self.lemma_absent(key@, p as int);
            }
            None
        }
    }

    proof fn lemma_absent(&self, key: Seq<u8>, p: int)
        requires
            self.wf(),
            0 <= p <= self.listing().len(),
            forall|i: int| 0 <= i < p ==> crate::bytes::lex_less(#[trigger] self.listing()[i].0, key),
            p < self.listing().len() ==> crate::bytes::lex_less(key, self.listing()[p].0),
        ensures
            !self@.contains_key(key),
    {
        if self@.contains_key(key) {
            let q = position_of(self.listing(), key);
            assert(self.listing()[q].0 == key);
            crate::bytes::lemma_lex_less_irreflexive(key);
            if q > p {
                assert(crate::bytes::lex_less(self.listing()[p].0, self.listing()[q].0));
                crate::bytes::lemma_lex_less_transitive(key, self.listing()[p].0, key);
            }
        }
    }

    pub fn contains_key(&self, key: &[u8]) -> (r: bool)
        ensures
            r == self@.contains_key(key@),
    {
        self.get(key).is_some()
    }

    /// Store `value` under `key`, replacing what was there.
    pub fn insert(&mut self, key: Vec<u8>, value: V)
        ensures
            final(self)@ == old(self)@.insert(key@, value),
            final(self).wf(),
    {
        proof {
            use_type_invariant(&*self);
        }
        let p = self.lower_bound(&key);
        let replace = p < self.keys.len() && bytes_eq(&self.keys[p], &key);
        let ghost before = self.listing();
        let mut taken = SortedMap::new();
        std::mem::swap(self, &mut taken);
        let SortedMap { mut keys, mut values } = taken;
        let ghost k = key@;
        if replace {
            values[p] = value;
        } else {
            keys.insert(p, key);
            values.insert(p, value);
        }
        let ghost after = Seq::new(keys@.len(), |i: int| (keys@[i]@, values@[i]));
        proof {
            if replace {
                assert(after =~= before.update(p as int, (k, value)));
                lemma_replaced(before, p as int, k, value);
            } else {
                assert(after =~= before.insert(p as int, (k, value)));
                lemma_inserted(before, p as int, k, value);
            }
        }
        *self = SortedMap { keys, values };
        assert(self.listing() =~= after);
    }

    /// Remove every entry.
    pub fn clear(&mut self)
        ensures
            final(self)@ == Map::<Seq<u8>, V>::empty(),
            final(self).wf(),
    {
        *self = SortedMap::new();
    }
}

proof fn lemma_replaced<V>(s: Seq<(Seq<u8>, V)>, p: int, k: Seq<u8>, v: V)
    requires
        sorted_by_key(s),
        0 <= p < s.len(),
        s[p].0 == k,
    ensures
        sorted_by_key(s.update(p, (k, v))),
        map_of(s.update(p, (k, v))) =~= map_of(s).insert(k, v),
{
    let t = s.update(p, (k, v));
    assert(forall|i: int| 0 <= i < s.len() ==> s[i].0 == #[trigger] t[i].0);
    assert(sorted_by_key(t)) by {
        assert forall|i: int, j: int| 0 <= i < j < t.len() implies crate::bytes::lex_less(
            #[trigger] t[i].0,
            #[trigger] t[j].0,
        ) by {
            assert(crate::bytes::lex_less(s[i].0, s[j].0));
        }
    }
    lemma_position_unique(t, p);
    assert forall|x: Seq<u8>| #[trigger] map_of(t).contains_key(x) == map_of(s).insert(
        k,
        v,
    ).contains_key(x) by {
        if lists_key(t, x) {
            let i = position_of(t, x);
            assert(s[i].0 == x);
        }
        if lists_key(s, x) {
            let i = position_of(s, x);
            assert(t[i].0 == x);
        }
    }
    assert forall|x: Seq<u8>| map_of(t).contains_key(x) implies #[trigger] map_of(t)[x]
        == map_of(s).insert(k, v)[x] by {
        let i = position_of(t, x);
        assert(t[i].0 == x);
        lemma_position_unique(t, i);
        lemma_position_unique(s, i);
    }
}

proof fn lemma_inserted<V>(s: Seq<(Seq<u8>, V)>, p: int, k: Seq<u8>, v: V)
    requires
        sorted_by_key(s),
        0 <= p <= s.len(),
        forall|i: int| 0 <= i < p ==> crate::bytes::lex_less(#[trigger] s[i].0, k),
        p < s.len() ==> crate::bytes::lex_less(k, s[p].0),
    ensures
        sorted_by_key(s.insert(p, (k, v))),
        map_of(s.insert(p, (k, v))) =~= map_of(s).insert(k, v),
{
    let t = s.insert(p, (k, v));
    assert(forall|i: int| 0 <= i < p ==> #[trigger] t[i] == s[i]);
    assert(t[p] == (k, v));
    assert(forall|i: int| p < i < t.len() ==> #[trigger] t[i] == s[i - 1]);
    assert(sorted_by_key(t)) by {
        assert forall|i: int, j: int| 0 <= i < j < t.len() implies crate::bytes::lex_less(
            #[trigger] t[i].0,
            #[trigger] t[j].0,
        ) by {
            if j < p {
                assert(crate::bytes::lex_less(s[i].0, s[j].0));
            } else if j == p {
                assert(crate::bytes::lex_less(s[i].0, k));
            } else if i == p {
                if j - 1 > p {
                    assert(crate::bytes::lex_less(s[p].0, s[j - 1].0));
                    crate::bytes::lemma_lex_less_transitive(k, s[p].0, s[j - 1].0);
                }
            } else if i < p {
                assert(crate::bytes::lex_less(s[i].0, s[j - 1].0));
            } else {
                assert(crate::bytes::lex_less(s[i - 1].0, s[j - 1].0));
            }
        }
    }
    lemma_position_unique(t, p);
    assert forall|x: Seq<u8>| #[trigger] map_of(t).contains_key(x) == map_of(s).insert(
        k,
        v,
    ).contains_key(x) by {
        if lists_key(t, x) {
            let i = position_of(t, x);
            assert(t[i].0 == x);
            if i < p {
                assert(s[i].0 == x);
            } else if i > p {
                assert(s[i - 1].0 == x);
            }
        }
        if lists_key(s, x) {
            let i = position_of(s, x);
            assert(s[i].0 == x);
            if i < p {
                assert(t[i].0 == x);
            } else {
                assert(t[i + 1].0 == x);
            }
        }
    }
    assert forall|x: Seq<u8>| map_of(t).contains_key(x) implies #[trigger] map_of(t)[x]
        == map_of(s).insert(k, v)[x] by {
        let i = position_of(t, x);
        assert(t[i].0 == x);
        lemma_position_unique(t, i);
        if i < p {
            crate::bytes::lemma_lex_less_irreflexive(k);
            lemma_position_unique(s, i);
        } else if i > p {
            assert(crate::bytes::lex_less(t[p].0, t[i].0));
            crate::bytes::lemma_lex_less_irreflexive(k);
            lemma_position_unique(s, i - 1);
        }
    }
}

impl<V: Copy> SortedMap<V> {
    /// A map with the same entries.
    pub fn duplicate(&self) -> (r: Self)
        ensures
            r.listing() == self.listing(),
            r@ == self@,
            r.wf(),
    {
        proof {
            use_type_invariant(self);
        }
        let mut keys: Vec<Vec<u8>> = Vec::with_capacity(self.keys.len());
        let mut values: Vec<V> = Vec::with_capacity(self.keys.len());
        let mut i: usize = 0;
        while i < self.keys.len()
            invariant
                i <= self.keys@.len(),
                self.keys@.len() == self.values@.len(),
                keys@.len() == i,
                values@.len() == i,
                forall|j: int| 0 <= j < i ==> (#[trigger] keys@[j])@ == self.keys@[j]@,
                forall|j: int| 0 <= j < i ==> #[trigger] values@[j] == self.values@[j],
            decreases self.keys@.len() - i,
        {
            keys.push(copy_bytes(&self.keys[i]));
            values.push(self.values[i]);
            i += 1;
        }
        let ghost listing = Seq::new(keys@.len(), |i: int| (keys@[i]@, values@[i]));
        assert(listing =~= self.listing());
        SortedMap { keys, values }
    }
}

impl<V: Clone> SortedMap<V> {
    /// A map with the same keys and clones of the values.
    pub fn duplicate_cloned(&self) -> (r: Self)
        ensures
            r.listing().len() == self.listing().len(),
            forall|i: int|
                #![trigger r.listing()[i]]
                0 <= i < r.listing().len() ==> r.listing()[i].0 == self.listing()[i].0
                    && cloned::<V>(self.listing()[i].1, r.listing()[i].1),
            r.wf(),
    {
        proof {
            use_type_invariant(self);
        }
        let mut keys: Vec<Vec<u8>> = Vec::with_capacity(self.keys.len());
        let mut values: Vec<V> = Vec::with_capacity(self.keys.len());
        let mut i: usize = 0;
        while i < self.keys.len()
            invariant
                i <= self.keys@.len(),
                self.keys@.len() == self.values@.len(),
                keys@.len() == i,
                values@.len() == i,
                forall|j: int| 0 <= j < i ==> (#[trigger] keys@[j])@ == self.keys@[j]@,
                forall|j: int|
                    0 <= j < i ==> cloned::<V>(self.values@[j], #[trigger] values@[j]),
            decreases self.keys@.len() - i,
        {
            keys.push(copy_bytes(&self.keys[i]));
            values.push(self.values[i].clone());
            i += 1;
        }
        let ghost listing = Seq::new(keys@.len(), |i: int| (keys@[i]@, values@[i]));
        assert(sorted_by_key(listing)) by {
            assert forall|i: int, j: int| 0 <= i < j < listing.len() implies crate::bytes::lex_less(
                #[trigger] listing[i].0,
                #[trigger] listing[j].0,
            ) by {
                assert(crate::bytes::lex_less(self.listing()[i].0, self.listing()[j].0));
            }
        }
        let r = SortedMap { keys, values };
        assert(r.listing() =~= listing);
        r
    }
}

/// A map from strings to strings that keeps its entries in key order.
#[derive(Debug)]
pub struct TextMap {
    entries: SortedMap<(String, String)>,
}

/// The entries of a listing as pairs of strings.
pub open spec fn text_pairs(s: Seq<(Seq<u8>, (String, String))>) -> Seq<(Seq<char>, Seq<char>)> {
    Seq::new(s.len(), |i: int| (s[i].1.0@, s[i].1.1@))
}

impl View for TextMap {
    type V = Map<Seq<char>, Seq<char>>;

    closed spec fn view(&self) -> Map<Seq<char>, Seq<char>> {
        Map::new(
            |k: Seq<char>| self.entries@.contains_key(vstd::utf8::encode_utf8(k)),
            |k: Seq<char>| self.entries@[vstd::utf8::encode_utf8(k)].1@,
        )
    }
}

impl TextMap {
    /// Each entry is filed under the UTF-8 encoding of its key.
    #[verifier::type_invariant]
    pub closed spec fn wf(&self) -> bool {
        &&& self.entries.wf()
        &&& forall|b: Seq<u8>| #[trigger]
            self.entries@.contains_key(b) ==> vstd::utf8::encode_utf8(self.entries@[b].0@) == b
    }

    /// The entries in key order.
    pub closed spec fn pairs(&self) -> Seq<(Seq<char>, Seq<char>)> {
        text_pairs(self.entries.listing())
    }

    pub fn new() -> (r: Self)
        ensures
            r@ == Map::<Seq<char>, Seq<char>>::empty(),
            r.pairs() == Seq::<(Seq<char>, Seq<char>)>::empty(),
            r.wf(),
    {
        let r = TextMap { entries: SortedMap::new() };
        assert(r@ =~= Map::<Seq<char>, Seq<char>>::empty());
        r
    }

    pub fn len(&self) -> (r: usize)
        ensures
            r == self.pairs().len(),
    {
        self.entries.len()
    }

    /// The key at position `i` of the listing.
    pub fn key_at(&self, i: usize) -> (r: &String)
        requires
            i < self.pairs().len(),
        ensures
            r@ == self.pairs()[i as int].0,
    {
        &self.entries.value_at(i).0
    }

    /// The value at position `i` of the listing.
    pub fn value_at(&self, i: usize) -> (r: &String)
        requires
            i < self.pairs().len(),
        ensures
            r@ == self.pairs()[i as int].1,
    {
        &self.entries.value_at(i).1
    }

    /// Store `value` under `key`, replacing what was there.
    pub fn insert(&mut self, key: String, value: String)
        ensures
            final(self)@ == old(self)@.insert(key@, value@),
            final(self).wf(),
    {
        proof {
            use_type_invariant(&*self);
        }
        let mut taken = TextMap::new();
        std::mem::swap(self, &mut taken);
        let ghost before = taken;
        let TextMap { mut entries } = taken;
        let ghost k = key@;
        let ghost v = value@;
        let bytes = copy_bytes(key.as_str().as_bytes());
        entries.insert(bytes, (key, value));
        *self = TextMap { entries };
        proof {
            assert forall|c: Seq<char>| #[trigger] self@.contains_key(c) == before@.insert(
                k,
                v,
            ).contains_key(c) by {
                crate::text::lemma_utf8_injective(c, k);
            }
            assert forall|c: Seq<char>| self@.contains_key(c) implies #[trigger] self@[c]
                == before@.insert(k, v)[c] by {
                crate::text::lemma_utf8_injective(c, k);
            }
            assert(self@ =~= before@.insert(k, v));
        }
    }

    /// The value stored under `key`.
    pub fn get(&self, key: &str) -> (r: Option<&String>)
        ensures
            r is Some <==> self@.contains_key(key@),
            r matches Some(v) ==> v@ == self@[key@],
    {
        match self.entries.get(key.as_bytes()) {
            Some(entry) => Some(&entry.1),
            None => None,
        }
    }

    /// A map with the same entries.
    pub fn duplicate(&self) -> (r: Self)
        ensures
            r@ == self@,
            r.pairs() == self.pairs(),
            r.wf(),
    {
        let mut r = TextMap::new();
        let mut i: usize = 0;
        proof {
            use_type_invariant(self);
            self.entries.lemma_listing();
            assert forall|c: Seq<char>| self@.contains_key(c) implies #[trigger] listed_before(
                self.pairs(),
                c,
                self.pairs().len() as int,
            ) by {
                let b = vstd::utf8::encode_utf8(c);
                let p = position_of(self.entries.listing(), b);
                assert(self.entries.listing()[p].0 == b);
                crate::text::lemma_utf8_injective(self.entries.listing()[p].1.0@, c);
                assert(self.pairs()[p].0 == c);
            }
        }
        while i < self.entries.len()
            invariant
                i <= self.pairs().len(),
                self.wf(),
                r.wf(),
                forall|c: Seq<char>| #[trigger]
                    r@.contains_key(c) <==> listed_before(self.pairs(), c, i as int),
                forall|c: Seq<char>| #[trigger] r@.contains_key(c) ==> self@.contains_key(c) && r@[c] == self@[c],
            decreases self.pairs().len() - i,
        {
            let entry = self.entries.value_at(i);
            let ghost before = r@;
            proof {
                self.entries.lemma_listing();
                assert(self.entries@.contains_key(self.entries.listing()[i as int].0));
                assert(self.pairs()[i as int] == (entry.0@, entry.1@));
            }
            r.insert(entry.0.clone(), entry.1.clone());
            proof {
                assert forall|c: Seq<char>| #[trigger]
                    r@.contains_key(c) <==> listed_before(self.pairs(), c, i + 1) by {
                    if listed_before(self.pairs(), c, i + 1) && !listed_before(
                        self.pairs(),
                        c,
                        i as int,
                    ) {
                        let j = choose|j: int| 0 <= j < i + 1 && (#[trigger] self.pairs()[j]).0 == c;
                        assert(j == i);
                    }
                    if c == entry.0@ {
                        assert(self.pairs()[i as int].0 == c);
                    }
                    if before.contains_key(c) {
                        assert(listed_before(self.pairs(), c, i as int));
                    }
                }
            }
            i += 1;
        }
        proof {
            assert forall|c: Seq<char>| #[trigger] r@.contains_key(c) == self@.contains_key(c) by {
                if self@.contains_key(c) {
                    assert(listed_before(self.pairs(), c, self.pairs().len() as int));
                }
            }
            assert(r@ =~= self@);
            text_pairs_are_canonical(&r, self);
        }
        r
    }
}

/// The key is among the first `n` pairs.
pub open spec fn listed_before(pairs: Seq<(Seq<char>, Seq<char>)>, key: Seq<char>, n: int) -> bool {
    exists|j: int| 0 <= j < n && (#[trigger] pairs[j]).0 == key
}

/// The pairs are listed by strictly increasing keys.
pub proof fn text_keys_increase(map: &TextMap)
    requires
        map.wf(),
    ensures
        crate::encoding::sorted_text(map.pairs()),
{
    map.entries.lemma_listing();
    let listing = map.entries.listing();
    assert forall|i: int, j: int| 0 <= i < j < map.pairs().len() implies crate::bytes::lex_less(
        vstd::utf8::encode_utf8((#[trigger] map.pairs()[i]).0),
        vstd::utf8::encode_utf8((#[trigger] map.pairs()[j]).0),
    ) by {
        assert(crate::bytes::lex_less(listing[i].0, listing[j].0));
        assert(map.entries@.contains_key(listing[i].0) && map.entries@.contains_key(listing[j].0));
    }
}

/// Two maps with the same entries list the same pairs in the same order,
/// however they were filled.
pub proof fn text_pairs_are_canonical(a: &TextMap, b: &TextMap)
    requires
        a.wf(),
        b.wf(),
        a@ == b@,
    ensures
        a.pairs() == b.pairs(),
{
    a.entries.lemma_listing();
    b.entries.lemma_listing();
    let la = a.entries.listing();
    let lb = b.entries.listing();
    let s = Seq::new(la.len(), |i: int| (la[i].0, la[i].1.1@));
    let t = Seq::new(lb.len(), |i: int| (lb[i].0, lb[i].1.1@));
    assert(sorted_by_key(s)) by {
        assert forall|i: int, j: int| 0 <= i < j < s.len() implies crate::bytes::lex_less(
            #[trigger] s[i].0,
            #[trigger] s[j].0,
        ) by {
            assert(crate::bytes::lex_less(la[i].0, la[j].0));
        }
    }
    assert(sorted_by_key(t)) by {
        assert forall|i: int, j: int| 0 <= i < j < t.len() implies crate::bytes::lex_less(
            #[trigger] t[i].0,
            #[trigger] t[j].0,
        ) by {
            assert(crate::bytes::lex_less(lb[i].0, lb[j].0));
        }
    }
    assert forall|k: Seq<u8>| #[trigger] map_of(s).contains_key(k) implies map_of(t).contains_key(k)
        && map_of(t)[k] == map_of(s)[k] by {
        lemma_text_entry(a, b, k, s, t);
    }
    assert forall|k: Seq<u8>| #[trigger] map_of(t).contains_key(k) implies map_of(s).contains_key(
        k,
    ) by {
        lemma_text_entry(b, a, k, t, s);
    }
    assert(map_of(s) =~= map_of(t));
    listing_is_canonical(s, t);
    assert forall|i: int| 0 <= i < la.len() implies a.pairs()[i] == b.pairs()[i] by {
        assert(s[i] == t[i]);
        assert(a.entries@.contains_key(la[i].0) && a.entries@[la[i].0] == la[i].1);
        assert(b.entries@.contains_key(lb[i].0) && b.entries@[lb[i].0] == lb[i].1);
        crate::text::lemma_utf8_injective(la[i].1.0@, lb[i].1.0@);
    }
    assert(a.pairs() =~= b.pairs());
}

proof fn lemma_text_entry(
    a: &TextMap,
    b: &TextMap,
    k: Seq<u8>,
    s: Seq<(Seq<u8>, Seq<char>)>,
    t: Seq<(Seq<u8>, Seq<char>)>,
)
    requires
        a.wf(),
        b.wf(),
        a@ == b@,
        sorted_by_key(s),
        sorted_by_key(t),
        s == Seq::new(
            a.entries.listing().len(),
            |i: int| (a.entries.listing()[i].0, a.entries.listing()[i].1.1@),
        ),
        t == Seq::new(
            b.entries.listing().len(),
            |i: int| (b.entries.listing()[i].0, b.entries.listing()[i].1.1@),
        ),
        map_of(s).contains_key(k),
    ensures
        map_of(t).contains_key(k),
        map_of(t)[k] == map_of(s)[k],
{
    a.entries.lemma_listing();
    b.entries.lemma_listing();
    let i = position_of(s, k);
    assert(s[i].0 == k);
    lemma_position_unique(s, i);
    let e = a.entries.listing()[i];
    assert(a.entries@.contains_key(e.0) && a.entries@[e.0] == e.1);
    assert(a@.contains_key(e.1.0@));
    assert(b@.contains_key(e.1.0@));
    assert(b@[e.1.0@] == a@[e.1.0@]);
    assert(b.entries@.contains_key(k));
    let j = position_of(b.entries.listing(), k);
    assert(b.entries.listing()[j].0 == k);
    assert(b.entries@[k] == b.entries.listing()[j].1);
    assert(t[j].0 == k);
    lemma_position_unique(t, j);
}

} // verus!
