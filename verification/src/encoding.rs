//! MessagePack encodings of the plain values that digests are computed over.
//!
//! `rmp_serde::to_vec` fails only where a value's `Serialize` implementation
//! does; those of the numbers, strings, byte vectors and maps below do not.
use crate::bytes::copy_bytes;
use crate::sorted_map::{SortedMap, TextMap};
use std::collections::BTreeMap;
use vstd::prelude::*;

verus! {

/// `std::io::Error`, the error of the fallible encoders.
#[verifier::external_type_specification]
#[verifier::external_body]
pub struct ExIoError(std::io::Error);

/// The MessagePack encoding of an unsigned number: one byte below 128, else a
/// marker for its width and its big-endian bytes in the least of 1, 2, 4 and 8
/// that hold it.
#[verifier::opaque]
pub open spec fn packed_u64(n: u64) -> Seq<u8> {
    if n < 0x80 {
        seq![n as u8]
    } else if n < 0x100 {
        seq![0xccu8] + crate::bytes::be_bytes(n as nat, 1)
    } else if n < 0x1_0000 {
        seq![0xcdu8] + crate::bytes::be_bytes(n as nat, 2)
    } else if n < 0x1_0000_0000 {
        seq![0xceu8] + crate::bytes::be_bytes(n as nat, 4)
    } else {
        seq![0xcfu8] + crate::bytes::be_bytes(n as nat, 8)
    }
}

/// `rmp_serde::to_vec` of a `u64`.
#[verifier::external_body]
pub(crate) fn pack_u64(n: u64) -> (r: Vec<u8>)
    ensures
        r@ == packed_u64(n),
{
    rmp_serde::to_vec(&n).expect("a number serializes")
}

/// The MessagePack encoding of a signed number: as an unsigned one where it is
/// not negative, else one byte down to -32, else a marker for its width and its
/// big-endian bytes in two's complement.
#[verifier::opaque]
pub open spec fn packed_i64(n: i64) -> Seq<u8> {
    if n >= 0 {
        packed_u64(n as u64)
    } else if n >= -0x20 {
        seq![(0x100 + n) as u8]
    } else if n >= -0x80 {
        seq![0xd0u8] + crate::bytes::be_bytes((0x100 + n) as nat, 1)
    } else if n >= -0x8000 {
        seq![0xd1u8] + crate::bytes::be_bytes((0x1_0000 + n) as nat, 2)
    } else if n >= -0x8000_0000 {
        seq![0xd2u8] + crate::bytes::be_bytes((0x1_0000_0000 + n) as nat, 4)
    } else {
        seq![0xd3u8] + crate::bytes::be_bytes((0x1_0000_0000_0000_0000 + n) as nat, 8)
    }
}

/// `rmp_serde::to_vec` of an `i64`.
#[verifier::external_body]
pub(crate) fn pack_i64(n: i64) -> (r: Vec<u8>)
    ensures
        r@ == packed_i64(n),
{
    rmp_serde::to_vec(&n).expect("a number serializes")
}

/// The marker and the length that lead a MessagePack string of `n` bytes. The
/// length is written in 32 bits at most; of a longer string its low 32 bits are.
#[verifier::opaque]
pub open spec fn str_header(n: nat) -> Seq<u8> {
    let len = n % 0x1_0000_0000;
    if len < 0x20 {
        seq![(0xa0 + len) as u8]
    } else if len < 0x100 {
        seq![0xd9u8] + crate::bytes::be_bytes(len, 1)
    } else if len < 0x1_0000 {
        seq![0xdau8] + crate::bytes::be_bytes(len, 2)
    } else {
        seq![0xdbu8] + crate::bytes::be_bytes(len, 4)
    }
}

/// The marker and the length that lead a MessagePack list of `n` items. The
/// length is written in 32 bits at most; of a longer list its low 32 bits are.
#[verifier::opaque]
pub open spec fn list_header(n: nat) -> Seq<u8> {
    let len = n % 0x1_0000_0000;
    if len < 0x10 {
        seq![(0x90 + len) as u8]
    } else if len < 0x1_0000 {
        seq![0xdcu8] + crate::bytes::be_bytes(len, 2)
    } else {
        seq![0xddu8] + crate::bytes::be_bytes(len, 4)
    }
}

/// The marker and the length that lead a MessagePack map of `n` entries. The
/// length is written in 32 bits at most; of a larger map its low 32 bits are.
#[verifier::opaque]
pub open spec fn map_header(n: nat) -> Seq<u8> {
    let len = n % 0x1_0000_0000;
    if len < 0x10 {
        seq![(0x80 + len) as u8]
    } else if len < 0x1_0000 {
        seq![0xdeu8] + crate::bytes::be_bytes(len, 2)
    } else {
        seq![0xdfu8] + crate::bytes::be_bytes(len, 4)
    }
}

/// The MessagePack encoding of a string: its length, then its UTF-8 bytes.
#[verifier::opaque]
pub open spec fn packed_str(s: Seq<char>) -> Seq<u8> {
    str_header(vstd::utf8::encode_utf8(s).len()) + vstd::utf8::encode_utf8(s)
}

/// `rmp_serde::to_vec` of a string.
#[verifier::external_body]
pub(crate) fn pack_str(s: &str) -> (r: Vec<u8>)
    ensures
        r@ == packed_str(s@),
{
    rmp_serde::to_vec(s).expect("a string serializes")
}

/// The MessagePack encodings of the bytes, one after the other.
pub open spec fn packed_items(bytes: Seq<u8>) -> Seq<u8>
    decreases bytes.len(),
{
    if bytes.len() == 0 {
        Seq::empty()
    } else {
        packed_u64(bytes[0] as u64) + packed_items(bytes.skip(1))
    }
}

/// The MessagePack encoding of a byte vector: the list of its bytes.
#[verifier::opaque]
pub open spec fn packed_bytes(bytes: Seq<u8>) -> Seq<u8> {
    list_header(bytes.len()) + packed_items(bytes)
}

/// `rmp_serde::to_vec` of a slice of bytes.
#[verifier::external_body]
pub(crate) fn pack_bytes(bytes: &[u8]) -> (r: Vec<u8>)
    ensures
        r@ == packed_bytes(bytes@),
{
    rmp_serde::to_vec(bytes).expect("bytes serialize")
}

/// The MessagePack encoding of a map from strings to strings, given by its
/// entries in key order.
pub uninterp spec fn packed_text_map(entries: Seq<(Seq<char>, Seq<char>)>) -> Seq<u8>;

/// The MessagePack encodings of pairs of strings, one after the other.
pub open spec fn packed_text_entries(entries: Seq<(Seq<char>, Seq<char>)>) -> Seq<u8>
    decreases entries.len(),
{
    if entries.len() == 0 {
        Seq::empty()
    } else {
        packed_str(entries[0].0) + packed_str(entries[0].1) + packed_text_entries(entries.skip(1))
    }
}

/// A MessagePack map from strings to strings with the given entries, in their
/// order.
#[verifier::opaque]
pub open spec fn text_map_bytes(entries: Seq<(Seq<char>, Seq<char>)>) -> Seq<u8> {
    map_header(entries.len()) + packed_text_entries(entries)
}

/// The keys strictly increase in the order of their UTF-8 bytes.
pub open spec fn sorted_text(entries: Seq<(Seq<char>, Seq<char>)>) -> bool {
    forall|i: int, j: int|
        0 <= i < j < entries.len() ==> crate::bytes::lex_less(
            vstd::utf8::encode_utf8((#[trigger] entries[i]).0),
            vstd::utf8::encode_utf8((#[trigger] entries[j]).0),
        )
}

/// The values that a list of pairs of strings holds.
pub open spec fn text_entries(pairs: Seq<(String, String)>) -> Seq<(Seq<char>, Seq<char>)> {
    Seq::new(pairs.len(), |i: int| (pairs[i].0@, pairs[i].1@))
}

/// `rmp_serde::to_vec` of the `BTreeMap` with the given entries. Where they are
/// in key order already, they are written in their order.
#[verifier::external_body]
fn pack_text_pairs(pairs: &Vec<(String, String)>) -> (r: Vec<u8>)
    ensures
        r@ == packed_text_map(text_entries(pairs@)),
        sorted_text(text_entries(pairs@)) ==> r@ == text_map_bytes(text_entries(pairs@)),
{
    let map: BTreeMap<String, String> = pairs.iter().cloned().collect();
    rmp_serde::to_vec(&map).expect("a map of strings serializes")
}

/// The encoding of a map from strings to strings.
pub(crate) fn pack_text_map(map: &TextMap) -> (r: Vec<u8>)
    ensures
        r@ == packed_text_map(map.pairs()),
        r@ == text_map_bytes(map.pairs()),
{
    proof {
        use_type_invariant(map);
        crate::sorted_map::text_keys_increase(map);
    }
    let mut pairs: Vec<(String, String)> = Vec::with_capacity(map.len());
    let mut i: usize = 0;
    while i < map.len()
        invariant
            i <= map.pairs().len(),
            pairs@.len() == i,
            forall|j: int|
                0 <= j < i ==> (#[trigger] pairs@[j]).0@ == map.pairs()[j].0 && pairs@[j].1@
                    == map.pairs()[j].1,
        decreases map.pairs().len() - i,
    {
        pairs.push((map.key_at(i).clone(), map.value_at(i).clone()));
        i += 1;
    }
    assert(text_entries(pairs@) =~= map.pairs());
    pack_text_pairs(&pairs)
}

/// The MessagePack encoding of a map from keys to stakes, given by its entries
/// in key order.
pub uninterp spec fn packed_stakes(entries: Seq<(Seq<u8>, u64)>) -> Seq<u8>;

/// The MessagePack encodings of keys with stakes, one after the other.
pub open spec fn packed_stake_entries(entries: Seq<(Seq<u8>, u64)>) -> Seq<u8>
    decreases entries.len(),
{
    if entries.len() == 0 {
        Seq::empty()
    } else {
        packed_bytes(entries[0].0) + packed_u64(entries[0].1) + packed_stake_entries(
            entries.skip(1),
        )
    }
}

/// A MessagePack map from keys to stakes with the given entries, in their order.
#[verifier::opaque]
pub open spec fn stake_map_bytes(entries: Seq<(Seq<u8>, u64)>) -> Seq<u8> {
    map_header(entries.len()) + packed_stake_entries(entries)
}

/// The values that a list of keys with stakes holds.
pub open spec fn stake_entries(pairs: Seq<(Vec<u8>, u64)>) -> Seq<(Seq<u8>, u64)> {
    Seq::new(pairs.len(), |i: int| (pairs[i].0@, pairs[i].1))
}

/// `rmp_serde::to_vec` of the `BTreeMap` with the given entries. Where they are
/// in key order already, they are written in their order.
#[verifier::external_body]
fn pack_stake_pairs(pairs: &Vec<(Vec<u8>, u64)>) -> (r: Vec<u8>)
    ensures
        r@ == packed_stakes(stake_entries(pairs@)),
        crate::sorted_map::sorted_by_key(stake_entries(pairs@)) ==> r@ == stake_map_bytes(
            stake_entries(pairs@),
        ),
{
    let map: BTreeMap<Vec<u8>, u64> = pairs.iter().cloned().collect();
    rmp_serde::to_vec(&map).expect("a map of stakes serializes")
}

/// The encoding of a map from keys to stakes.
pub(crate) fn pack_stakes(stakes: &SortedMap<u64>) -> (r: Vec<u8>)
    ensures
        r@ == packed_stakes(stakes.listing()),
        r@ == stake_map_bytes(stakes.listing()),
{
    proof {
        use_type_invariant(stakes);
        stakes.lemma_listing();
    }
    let mut pairs: Vec<(Vec<u8>, u64)> = Vec::with_capacity(stakes.len());
    let mut i: usize = 0;
    while i < stakes.len()
        invariant
            i <= stakes.listing().len(),
            pairs@.len() == i,
            forall|j: int|
                0 <= j < i ==> (#[trigger] pairs@[j]).0@ == stakes.listing()[j].0 && pairs@[j].1
                    == stakes.listing()[j].1,
        decreases stakes.listing().len() - i,
    {
        pairs.push((copy_bytes(stakes.key_at(i)), *stakes.value_at(i)));
        i += 1;
    }
    assert(stake_entries(pairs@) =~= stakes.listing());
    pack_stake_pairs(&pairs)
}

/// The MessagePack encodings of strings, one after the other.
pub open spec fn packed_names(names: Seq<Seq<char>>) -> Seq<u8>
    decreases names.len(),
{
    if names.len() == 0 {
        Seq::empty()
    } else {
        packed_str(names[0]) + packed_names(names.skip(1))
    }
}

/// The MessagePack encoding of a list of strings.
pub open spec fn packed_name_list(names: Seq<Seq<char>>) -> Seq<u8> {
    list_header(names.len()) + packed_names(names)
}

/// The MessagePack encoding of a node's address, its requested role and its
/// roles, the roles by name: a list of the three.
#[verifier::opaque]
pub open spec fn packed_binding(rhash: Seq<u8>, requested: Seq<char>, roles: Seq<Seq<char>>) -> Seq<u8> {
    list_header(3) + packed_bytes(rhash) + packed_str(requested) + packed_name_list(roles)
}

/// `rmp_serde::to_vec` of the triple of an address, a name and a list of names.
#[verifier::external_body]
pub(crate) fn pack_binding(rhash: &[u8; 16], requested: &str, roles: &Vec<String>) -> (r: Vec<u8>)
    ensures
        r@ == packed_binding(rhash@, requested@, crate::transactions::string_views(roles@)),
{
    rmp_serde::to_vec(&(rhash, requested, roles)).expect("bytes and strings serialize")
}

/// The MessagePack encoding of a directory entry: a list of its five parts.
pub open spec fn packed_entry(e: (Seq<u8>, Seq<u8>, Seq<u8>, Seq<char>, Seq<Seq<char>>)) -> Seq<u8> {
    list_header(5) + packed_bytes(e.0) + packed_bytes(e.1) + packed_bytes(e.2) + packed_str(e.3)
        + packed_name_list(e.4)
}

/// The MessagePack encodings of directory entries, one after the other.
pub open spec fn packed_entries(
    entries: Seq<(Seq<u8>, Seq<u8>, Seq<u8>, Seq<char>, Seq<Seq<char>>)>,
) -> Seq<u8>
    decreases entries.len(),
{
    if entries.len() == 0 {
        Seq::empty()
    } else {
        packed_entry(entries[0]) + packed_entries(entries.skip(1))
    }
}

/// The MessagePack encoding of a list of directory entries with a role and the
/// address of the node that lists them: a list of the three.
#[verifier::opaque]
pub open spec fn packed_directory(
    entries: Seq<(Seq<u8>, Seq<u8>, Seq<u8>, Seq<char>, Seq<Seq<char>>)>,
    registry: Seq<char>,
    rhash: Seq<u8>,
) -> Seq<u8> {
    list_header(3) + list_header(entries.len()) + packed_entries(entries) + packed_str(registry)
        + packed_bytes(rhash)
}

/// A directory entry as plain values: key, address, signature, role, roles.
pub type PlainEntry = (Vec<u8>, [u8; 16], Vec<u8>, String, Vec<String>);

/// The values that a plain directory entry holds.
pub open spec fn plain_entry(e: PlainEntry) -> (Seq<u8>, Seq<u8>, Seq<u8>, Seq<char>, Seq<Seq<char>>) {
    (e.0@, e.1@, e.2@, e.3@, crate::transactions::string_views(e.4@))
}

/// The values that a list of plain directory entries holds.
pub open spec fn plain_entries(entries: Seq<PlainEntry>) -> Seq<(Seq<u8>, Seq<u8>, Seq<u8>, Seq<char>, Seq<Seq<char>>)> {
    Seq::new(entries.len(), |i: int| plain_entry(entries[i]))
}

/// `rmp_serde::to_vec` of the triple of a list of entries, a name and an
/// address.
#[verifier::external_body]
pub(crate) fn pack_directory(entries: &Vec<PlainEntry>, registry: &str, rhash: &[u8; 16]) -> (r: Vec<u8>)
    ensures
        r@ == packed_directory(plain_entries(entries@), registry@, rhash@),
{
    rmp_serde::to_vec(&(entries, registry, rhash)).expect("bytes and strings serialize")
}

/// Big-endian numbers of one width, each followed by more bytes, are read back
/// in one way.
proof fn lemma_number_unique(n1: nat, n2: nat, width: nat, x: Seq<u8>, y: Seq<u8>)
    requires
        n1 < vstd::arithmetic::power::pow(256, width),
        n2 < vstd::arithmetic::power::pow(256, width),
        crate::bytes::be_bytes(n1, width) + x == crate::bytes::be_bytes(n2, width) + y,
    ensures
        n1 == n2,
        x == y,
{
    let a = crate::bytes::be_bytes(n1, width);
    let b = crate::bytes::be_bytes(n2, width);
    crate::bytes::lemma_be_bytes_len(n1, width);
    crate::bytes::lemma_be_bytes_len(n2, width);
    assert((a + x).take(width as int) =~= a);
    assert((b + y).take(width as int) =~= b);
    assert((a + x).skip(width as int) =~= x);
    assert((b + y).skip(width as int) =~= y);
    crate::bytes::lemma_be_round_trip(n1, width);
    crate::bytes::lemma_be_round_trip(n2, width);
}

proof fn lemma_widths()
    ensures
        vstd::arithmetic::power::pow(256, 1) == 0x100,
        vstd::arithmetic::power::pow(256, 2) == 0x1_0000,
        vstd::arithmetic::power::pow(256, 4) == 0x1_0000_0000,
        vstd::arithmetic::power::pow(256, 8) == 0x1_0000_0000_0000_0000,
{
    reveal_with_fuel(vstd::arithmetic::power::pow, 9);
}

/// A number with a marker before it and more bytes after it is read back in one
/// way.
proof fn lemma_marked_unique(marker: u8, n1: nat, n2: nat, width: nat, x: Seq<u8>, y: Seq<u8>)
    requires
        n1 < vstd::arithmetic::power::pow(256, width),
        n2 < vstd::arithmetic::power::pow(256, width),
        seq![marker] + crate::bytes::be_bytes(n1, width) + x == seq![marker]
            + crate::bytes::be_bytes(n2, width) + y,
    ensures
        n1 == n2,
        x == y,
{
    let a = crate::bytes::be_bytes(n1, width);
    let b = crate::bytes::be_bytes(n2, width);
    assert((seq![marker] + a + x).skip(1) =~= a + x);
    assert((seq![marker] + b + y).skip(1) =~= b + y);
    lemma_number_unique(n1, n2, width, x, y);
}

/// Numbers, each followed by more bytes, are read back in one way.
pub proof fn numbers_are_readable(a: u64, b: u64, x: Seq<u8>, y: Seq<u8>)
    requires
        packed_u64(a) + x == packed_u64(b) + y,
    ensures
        a == b,
        x == y,
{
    reveal(packed_u64);
    lemma_widths();
    let s = packed_u64(a) + x;
    let t = packed_u64(b) + y;
    assert(s[0] == packed_u64(a)[0]);
    assert(t[0] == packed_u64(b)[0]);
    if a < 0x80 {
        assert(s.skip(1) =~= x);
        assert(t.skip(1) =~= y);
    } else if a < 0x100 {
        lemma_marked_unique(0xcc, a as nat, b as nat, 1, x, y);
    } else if a < 0x1_0000 {
        lemma_marked_unique(0xcd, a as nat, b as nat, 2, x, y);
    } else if a < 0x1_0000_0000 {
        lemma_marked_unique(0xce, a as nat, b as nat, 4, x, y);
    } else {
        lemma_marked_unique(0xcf, a as nat, b as nat, 8, x, y);
    }
}

/// Signed numbers, each followed by more bytes, are read back in one way.
pub proof fn signed_numbers_are_readable(a: i64, b: i64, x: Seq<u8>, y: Seq<u8>)
    requires
        packed_i64(a) + x == packed_i64(b) + y,
    ensures
        a == b,
        x == y,
{
    reveal(packed_i64);
    lemma_widths();
    let s = packed_i64(a) + x;
    let t = packed_i64(b) + y;
    assert(a >= 0 ==> s[0] < 0x80 || 0xcc <= s[0] <= 0xcf) by {
        reveal(packed_u64);
    }
    assert(b >= 0 ==> t[0] < 0x80 || 0xcc <= t[0] <= 0xcf) by {
        reveal(packed_u64);
    }
    assert(a < 0 ==> s[0] == packed_i64(a)[0]);
    assert(b < 0 ==> t[0] == packed_i64(b)[0]);
    if a >= 0 {
        numbers_are_readable(a as u64, b as u64, x, y);
    } else if a >= -0x20 {
        assert(s.skip(1) =~= x);
        assert(t.skip(1) =~= y);
    } else if a >= -0x80 {
        lemma_marked_unique(0xd0, (0x100 + a) as nat, (0x100 + b) as nat, 1, x, y);
    } else if a >= -0x8000 {
        lemma_marked_unique(0xd1, (0x1_0000 + a) as nat, (0x1_0000 + b) as nat, 2, x, y);
    } else if a >= -0x8000_0000 {
        lemma_marked_unique(0xd2, (0x1_0000_0000 + a) as nat, (0x1_0000_0000 + b) as nat, 4, x, y);
    } else {
        lemma_marked_unique(
            0xd3,
            (0x1_0000_0000_0000_0000 + a) as nat,
            (0x1_0000_0000_0000_0000 + b) as nat,
            8,
            x,
            y,
        );
    }
}

proof fn lemma_str_header_unique(m: nat, n: nat, x: Seq<u8>, y: Seq<u8>)
    requires
        m <= u32::MAX,
        n <= u32::MAX,
        str_header(m) + x == str_header(n) + y,
    ensures
        m == n,
        x == y,
{
    reveal(str_header);
    lemma_widths();
    let s = str_header(m) + x;
    let t = str_header(n) + y;
    assert(s[0] == str_header(m)[0]);
    assert(t[0] == str_header(n)[0]);
    if m < 0x20 {
        assert(s.skip(1) =~= x);
        assert(t.skip(1) =~= y);
    } else if m < 0x100 {
        lemma_marked_unique(0xd9, m, n, 1, x, y);
    } else if m < 0x1_0000 {
        lemma_marked_unique(0xda, m, n, 2, x, y);
    } else {
        lemma_marked_unique(0xdb, m, n, 4, x, y);
    }
}

proof fn lemma_list_header_unique(m: nat, n: nat, x: Seq<u8>, y: Seq<u8>)
    requires
        m <= u32::MAX,
        n <= u32::MAX,
        list_header(m) + x == list_header(n) + y,
    ensures
        m == n,
        x == y,
{
    reveal(list_header);
    lemma_widths();
    let s = list_header(m) + x;
    let t = list_header(n) + y;
    assert(s[0] == list_header(m)[0]);
    assert(t[0] == list_header(n)[0]);
    if m < 0x10 {
        assert(s.skip(1) =~= x);
        assert(t.skip(1) =~= y);
    } else if m < 0x1_0000 {
        lemma_marked_unique(0xdc, m, n, 2, x, y);
    } else {
        lemma_marked_unique(0xdd, m, n, 4, x, y);
    }
}

/// The length of a string in UTF-8 fits in 32 bits.
pub open spec fn short_str(s: Seq<char>) -> bool {
    vstd::utf8::encode_utf8(s).len() <= u32::MAX
}

/// Strings, each followed by more bytes, are read back in one way.
pub proof fn strings_are_readable(a: Seq<char>, b: Seq<char>, x: Seq<u8>, y: Seq<u8>)
    requires
        short_str(a),
        short_str(b),
        packed_str(a) + x == packed_str(b) + y,
    ensures
        a == b,
        x == y,
{
    reveal(packed_str);
    let u = vstd::utf8::encode_utf8(a);
    let v = vstd::utf8::encode_utf8(b);
    assert(packed_str(a) + x =~= str_header(u.len()) + (u + x));
    assert(packed_str(b) + y =~= str_header(v.len()) + (v + y));
    lemma_str_header_unique(u.len(), v.len(), u + x, v + y);
    assert((u + x).take(u.len() as int) =~= u);
    assert((v + y).take(v.len() as int) =~= v);
    assert((u + x).skip(u.len() as int) =~= x);
    assert((v + y).skip(v.len() as int) =~= y);
    crate::text::lemma_utf8_injective(a, b);
}

proof fn lemma_items_unique(a: Seq<u8>, b: Seq<u8>, x: Seq<u8>, y: Seq<u8>)
    requires
        a.len() == b.len(),
        packed_items(a) + x == packed_items(b) + y,
    ensures
        a == b,
        x == y,
    decreases a.len(),
{
    if a.len() == 0 {
        assert(packed_items(a) + x =~= x);
        assert(packed_items(b) + y =~= y);
        assert(a =~= b);
    } else {
        let ra = packed_items(a.skip(1));
        let rb = packed_items(b.skip(1));
        assert(packed_items(a) + x =~= packed_u64(a[0] as u64) + (ra + x));
        assert(packed_items(b) + y =~= packed_u64(b[0] as u64) + (rb + y));
        numbers_are_readable(a[0] as u64, b[0] as u64, ra + x, rb + y);
        lemma_items_unique(a.skip(1), b.skip(1), x, y);
        assert(a =~= seq![a[0]] + a.skip(1));
        assert(b =~= seq![b[0]] + b.skip(1));
    }
}

/// Byte strings, each followed by more bytes, are read back in one way.
pub proof fn byte_strings_are_readable(a: Seq<u8>, b: Seq<u8>, x: Seq<u8>, y: Seq<u8>)
    requires
        a.len() <= u32::MAX,
        b.len() <= u32::MAX,
        packed_bytes(a) + x == packed_bytes(b) + y,
    ensures
        a == b,
        x == y,
{
    reveal(packed_bytes);
    assert(packed_bytes(a) + x =~= list_header(a.len()) + (packed_items(a) + x));
    assert(packed_bytes(b) + y =~= list_header(b.len()) + (packed_items(b) + y));
    lemma_list_header_unique(a.len(), b.len(), packed_items(a) + x, packed_items(b) + y);
    lemma_items_unique(a, b, x, y);
}

/// There are no more names than 32 bits count, and each is short.
pub open spec fn short_names(names: Seq<Seq<char>>) -> bool {
    &&& names.len() <= u32::MAX
    &&& forall|i: int| 0 <= i < names.len() ==> short_str(#[trigger] names[i])
}

proof fn lemma_names_unique(a: Seq<Seq<char>>, b: Seq<Seq<char>>, x: Seq<u8>, y: Seq<u8>)
    requires
        a.len() == b.len(),
        short_names(a),
        short_names(b),
        packed_names(a) + x == packed_names(b) + y,
    ensures
        a == b,
        x == y,
    decreases a.len(),
{
    if a.len() == 0 {
        assert(packed_names(a) + x =~= x);
        assert(packed_names(b) + y =~= y);
        assert(a =~= b);
    } else {
        let ra = packed_names(a.skip(1));
        let rb = packed_names(b.skip(1));
        assert(packed_names(a) + x =~= packed_str(a[0]) + (ra + x));
        assert(packed_names(b) + y =~= packed_str(b[0]) + (rb + y));
        strings_are_readable(a[0], b[0], ra + x, rb + y);
        lemma_names_unique(a.skip(1), b.skip(1), x, y);
        assert(a =~= seq![a[0]] + a.skip(1));
        assert(b =~= seq![b[0]] + b.skip(1));
    }
}

/// Lists of names, each followed by more bytes, are read back in one way.
pub proof fn name_lists_are_readable(
    a: Seq<Seq<char>>,
    b: Seq<Seq<char>>,
    x: Seq<u8>,
    y: Seq<u8>,
)
    requires
        short_names(a),
        short_names(b),
        packed_name_list(a) + x == packed_name_list(b) + y,
    ensures
        a == b,
        x == y,
{
    assert(packed_name_list(a) + x =~= list_header(a.len()) + (packed_names(a) + x));
    assert(packed_name_list(b) + y =~= list_header(b.len()) + (packed_names(b) + y));
    lemma_list_header_unique(a.len(), b.len(), packed_names(a) + x, packed_names(b) + y);
    lemma_names_unique(a, b, x, y);
}

/// The encoded binding of an address to roles tells all of them: two bindings
/// with the same bytes are the same.
pub proof fn bindings_are_readable(
    rhash1: Seq<u8>,
    requested1: Seq<char>,
    roles1: Seq<Seq<char>>,
    rhash2: Seq<u8>,
    requested2: Seq<char>,
    roles2: Seq<Seq<char>>,
)
    requires
        rhash1.len() <= u32::MAX,
        rhash2.len() <= u32::MAX,
        short_str(requested1),
        short_str(requested2),
        short_names(roles1),
        short_names(roles2),
        packed_binding(rhash1, requested1, roles1) == packed_binding(rhash2, requested2, roles2),
    ensures
        rhash1 == rhash2,
        requested1 == requested2,
        roles1 == roles2,
{
    reveal(packed_binding);
    let h = list_header(3);
    let x2 = packed_name_list(roles1);
    let y2 = packed_name_list(roles2);
    let x1 = packed_str(requested1) + x2;
    let y1 = packed_str(requested2) + y2;
    let a = packed_binding(rhash1, requested1, roles1);
    let b = packed_binding(rhash2, requested2, roles2);
    assert(a.skip(h.len() as int) =~= packed_bytes(rhash1) + x1);
    assert(b.skip(h.len() as int) =~= packed_bytes(rhash2) + y1);
    byte_strings_are_readable(rhash1, rhash2, x1, y1);
    strings_are_readable(requested1, requested2, x2, y2);
    assert(x2 + Seq::empty() =~= x2);
    assert(y2 + Seq::empty() =~= y2);
    name_lists_are_readable(roles1, roles2, Seq::empty(), Seq::empty());
}

/// The parts of a directory entry fit in 32-bit lengths.
pub open spec fn short_entry(e: (Seq<u8>, Seq<u8>, Seq<u8>, Seq<char>, Seq<Seq<char>>)) -> bool {
    &&& e.0.len() <= u32::MAX
    &&& e.1.len() <= u32::MAX
    &&& e.2.len() <= u32::MAX
    &&& short_str(e.3)
    &&& short_names(e.4)
}

proof fn lemma_entry_unique(
    a: (Seq<u8>, Seq<u8>, Seq<u8>, Seq<char>, Seq<Seq<char>>),
    b: (Seq<u8>, Seq<u8>, Seq<u8>, Seq<char>, Seq<Seq<char>>),
    x: Seq<u8>,
    y: Seq<u8>,
)
    requires
        short_entry(a),
        short_entry(b),
        packed_entry(a) + x == packed_entry(b) + y,
    ensures
        a == b,
        x == y,
{
    let h = list_header(5);
    let x4 = packed_name_list(a.4) + x;
    let y4 = packed_name_list(b.4) + y;
    let x3 = packed_str(a.3) + x4;
    let y3 = packed_str(b.3) + y4;
    let x2 = packed_bytes(a.2) + x3;
    let y2 = packed_bytes(b.2) + y3;
    let x1 = packed_bytes(a.1) + x2;
    let y1 = packed_bytes(b.1) + y2;
    assert((packed_entry(a) + x).skip(h.len() as int) =~= packed_bytes(a.0) + x1);
    assert((packed_entry(b) + y).skip(h.len() as int) =~= packed_bytes(b.0) + y1);
    byte_strings_are_readable(a.0, b.0, x1, y1);
    byte_strings_are_readable(a.1, b.1, x2, y2);
    byte_strings_are_readable(a.2, b.2, x3, y3);
    strings_are_readable(a.3, b.3, x4, y4);
    name_lists_are_readable(a.4, b.4, x, y);
}

proof fn lemma_entries_unique(
    a: Seq<(Seq<u8>, Seq<u8>, Seq<u8>, Seq<char>, Seq<Seq<char>>)>,
    b: Seq<(Seq<u8>, Seq<u8>, Seq<u8>, Seq<char>, Seq<Seq<char>>)>,
    x: Seq<u8>,
    y: Seq<u8>,
)
    requires
        a.len() == b.len(),
        forall|i: int| 0 <= i < a.len() ==> short_entry(#[trigger] a[i]),
        forall|i: int| 0 <= i < b.len() ==> short_entry(#[trigger] b[i]),
        packed_entries(a) + x == packed_entries(b) + y,
    ensures
        a == b,
        x == y,
    decreases a.len(),
{
    if a.len() == 0 {
        assert(packed_entries(a) + x =~= x);
        assert(packed_entries(b) + y =~= y);
        assert(a =~= b);
    } else {
        let ra = packed_entries(a.skip(1));
        let rb = packed_entries(b.skip(1));
        assert(packed_entries(a) + x =~= packed_entry(a[0]) + (ra + x));
        assert(packed_entries(b) + y =~= packed_entry(b[0]) + (rb + y));
        lemma_entry_unique(a[0], b[0], ra + x, rb + y);
        lemma_entries_unique(a.skip(1), b.skip(1), x, y);
        assert(a =~= seq![a[0]] + a.skip(1));
        assert(b =~= seq![b[0]] + b.skip(1));
    }
}

/// The encoded directory tells every entry, the role and the address: two
/// directories with the same bytes are the same.
pub proof fn directories_are_readable(
    entries1: Seq<(Seq<u8>, Seq<u8>, Seq<u8>, Seq<char>, Seq<Seq<char>>)>,
    registry1: Seq<char>,
    rhash1: Seq<u8>,
    entries2: Seq<(Seq<u8>, Seq<u8>, Seq<u8>, Seq<char>, Seq<Seq<char>>)>,
    registry2: Seq<char>,
    rhash2: Seq<u8>,
)
    requires
        entries1.len() <= u32::MAX,
        entries2.len() <= u32::MAX,
        forall|i: int| 0 <= i < entries1.len() ==> short_entry(#[trigger] entries1[i]),
        forall|i: int| 0 <= i < entries2.len() ==> short_entry(#[trigger] entries2[i]),
        short_str(registry1),
        short_str(registry2),
        rhash1.len() <= u32::MAX,
        rhash2.len() <= u32::MAX,
        packed_directory(entries1, registry1, rhash1) == packed_directory(
            entries2,
            registry2,
            rhash2,
        ),
    ensures
        entries1 == entries2,
        registry1 == registry2,
        rhash1 == rhash2,
{
    reveal(packed_directory);
    let h = list_header(3);
    let x2 = packed_bytes(rhash1);
    let y2 = packed_bytes(rhash2);
    let x1 = packed_str(registry1) + x2;
    let y1 = packed_str(registry2) + y2;
    let a = packed_directory(entries1, registry1, rhash1);
    let b = packed_directory(entries2, registry2, rhash2);
    assert(a.skip(h.len() as int) =~= list_header(entries1.len()) + (packed_entries(entries1)
        + x1));
    assert(b.skip(h.len() as int) =~= list_header(entries2.len()) + (packed_entries(entries2)
        + y1));
    lemma_list_header_unique(
        entries1.len(),
        entries2.len(),
        packed_entries(entries1) + x1,
        packed_entries(entries2) + y1,
    );
    lemma_entries_unique(entries1, entries2, x1, y1);
    strings_are_readable(registry1, registry2, x2, y2);
    assert(x2 + Seq::empty() =~= x2);
    assert(y2 + Seq::empty() =~= y2);
    byte_strings_are_readable(rhash1, rhash2, Seq::empty(), Seq::empty());
}

proof fn lemma_map_header_unique(m: nat, n: nat, x: Seq<u8>, y: Seq<u8>)
    requires
        m <= u32::MAX,
        n <= u32::MAX,
        map_header(m) + x == map_header(n) + y,
    ensures
        m == n,
        x == y,
{
    reveal(map_header);
    lemma_widths();
    let s = map_header(m) + x;
    let t = map_header(n) + y;
    assert(s[0] == map_header(m)[0]);
    assert(t[0] == map_header(n)[0]);
    if m < 0x10 {
        assert(s.skip(1) =~= x);
        assert(t.skip(1) =~= y);
    } else if m < 0x1_0000 {
        lemma_marked_unique(0xde, m, n, 2, x, y);
    } else {
        lemma_marked_unique(0xdf, m, n, 4, x, y);
    }
}

/// There are no more pairs than 32 bits count, and their strings are short.
pub open spec fn short_pairs(entries: Seq<(Seq<char>, Seq<char>)>) -> bool {
    &&& entries.len() <= u32::MAX
    &&& forall|i: int|
        0 <= i < entries.len() ==> short_str((#[trigger] entries[i]).0) && short_str(entries[i].1)
}

proof fn lemma_pairs_unique(
    a: Seq<(Seq<char>, Seq<char>)>,
    b: Seq<(Seq<char>, Seq<char>)>,
    x: Seq<u8>,
    y: Seq<u8>,
)
    requires
        a.len() == b.len(),
        short_pairs(a),
        short_pairs(b),
        packed_text_entries(a) + x == packed_text_entries(b) + y,
    ensures
        a == b,
        x == y,
    decreases a.len(),
{
    if a.len() == 0 {
        assert(packed_text_entries(a) + x =~= x);
        assert(packed_text_entries(b) + y =~= y);
        assert(a =~= b);
    } else {
        let ra = packed_text_entries(a.skip(1)) + x;
        let rb = packed_text_entries(b.skip(1)) + y;
        assert(packed_text_entries(a) + x =~= packed_str(a[0].0) + (packed_str(a[0].1) + ra));
        assert(packed_text_entries(b) + y =~= packed_str(b[0].0) + (packed_str(b[0].1) + rb));
        strings_are_readable(a[0].0, b[0].0, packed_str(a[0].1) + ra, packed_str(b[0].1) + rb);
        strings_are_readable(a[0].1, b[0].1, ra, rb);
        lemma_pairs_unique(a.skip(1), b.skip(1), x, y);
        assert(a =~= seq![a[0]] + a.skip(1));
        assert(b =~= seq![b[0]] + b.skip(1));
    }
}

/// Maps of strings, each followed by more bytes, are read back in one way.
pub proof fn text_maps_are_readable(
    a: Seq<(Seq<char>, Seq<char>)>,
    b: Seq<(Seq<char>, Seq<char>)>,
    x: Seq<u8>,
    y: Seq<u8>,
)
    requires
        short_pairs(a),
        short_pairs(b),
        text_map_bytes(a) + x == text_map_bytes(b) + y,
    ensures
        a == b,
        x == y,
{
    reveal(text_map_bytes);
    assert(text_map_bytes(a) + x =~= map_header(a.len()) + (packed_text_entries(a) + x));
    assert(text_map_bytes(b) + y =~= map_header(b.len()) + (packed_text_entries(b) + y));
    lemma_map_header_unique(
        a.len(),
        b.len(),
        packed_text_entries(a) + x,
        packed_text_entries(b) + y,
    );
    lemma_pairs_unique(a, b, x, y);
}

/// There are no more keys than 32 bits count, and each is short.
pub open spec fn short_stakes(entries: Seq<(Seq<u8>, u64)>) -> bool {
    &&& entries.len() <= u32::MAX
    &&& forall|i: int| 0 <= i < entries.len() ==> (#[trigger] entries[i]).0.len() <= u32::MAX
}

proof fn lemma_stakes_unique(
    a: Seq<(Seq<u8>, u64)>,
    b: Seq<(Seq<u8>, u64)>,
    x: Seq<u8>,
    y: Seq<u8>,
)
    requires
        a.len() == b.len(),
        short_stakes(a),
        short_stakes(b),
        packed_stake_entries(a) + x == packed_stake_entries(b) + y,
    ensures
        a == b,
        x == y,
    decreases a.len(),
{
    if a.len() == 0 {
        assert(packed_stake_entries(a) + x =~= x);
        assert(packed_stake_entries(b) + y =~= y);
        assert(a =~= b);
    } else {
        let ra = packed_stake_entries(a.skip(1)) + x;
        let rb = packed_stake_entries(b.skip(1)) + y;
        assert(packed_stake_entries(a) + x =~= packed_bytes(a[0].0) + (packed_u64(a[0].1) + ra));
        assert(packed_stake_entries(b) + y =~= packed_bytes(b[0].0) + (packed_u64(b[0].1) + rb));
        byte_strings_are_readable(
            a[0].0,
            b[0].0,
            packed_u64(a[0].1) + ra,
            packed_u64(b[0].1) + rb,
        );
        numbers_are_readable(a[0].1, b[0].1, ra, rb);
        lemma_stakes_unique(a.skip(1), b.skip(1), x, y);
        assert(a =~= seq![a[0]] + a.skip(1));
        assert(b =~= seq![b[0]] + b.skip(1));
    }
}

/// Maps of stakes, each followed by more bytes, are read back in one way.
pub proof fn stake_maps_are_readable(
    a: Seq<(Seq<u8>, u64)>,
    b: Seq<(Seq<u8>, u64)>,
    x: Seq<u8>,
    y: Seq<u8>,
)
    requires
        short_stakes(a),
        short_stakes(b),
        stake_map_bytes(a) + x == stake_map_bytes(b) + y,
    ensures
        a == b,
        x == y,
{
    reveal(stake_map_bytes);
    assert(stake_map_bytes(a) + x =~= map_header(a.len()) + (packed_stake_entries(a) + x));
    assert(stake_map_bytes(b) + y =~= map_header(b.len()) + (packed_stake_entries(b) + y));
    lemma_map_header_unique(
        a.len(),
        b.len(),
        packed_stake_entries(a) + x,
        packed_stake_entries(b) + y,
    );
    lemma_stakes_unique(a, b, x, y);
}

} // verus!
