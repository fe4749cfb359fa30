//! Byte strings: equality, concatenation and the lexicographic order on keys.
use vstd::prelude::*;

verus! {

/// `a` and `b` agree before position `k`, and at `k` either `a` has ended or
/// its byte is the smaller one.
pub open spec fn splits_at(a: Seq<u8>, b: Seq<u8>, k: int) -> bool {
    &&& 0 <= k <= a.len()
    &&& k < b.len()
    &&& forall|i: int| 0 <= i < k ==> a[i] == b[i]
    &&& k == a.len() || a[k] < b[k]
}

/// The strict lexicographic order on byte strings.
pub open spec fn lex_less(a: Seq<u8>, b: Seq<u8>) -> bool {
    exists|k: int| splits_at(a, b, k)
}

pub proof fn lemma_lex_less_irreflexive(a: Seq<u8>)
    ensures
        !lex_less(a, a),
{
}

pub proof fn lemma_lex_less_transitive(a: Seq<u8>, b: Seq<u8>, c: Seq<u8>)
    requires
        lex_less(a, b),
        lex_less(b, c),
    ensures
        lex_less(a, c),
{
    let k1 = choose|k: int| splits_at(a, b, k);
    let k2 = choose|k: int| splits_at(b, c, k);
    let k = if k1 < k2 {
        k1
    } else {
        k2
    };
    assert(splits_at(a, c, k));
}

pub proof fn lemma_lex_less_asymmetric(a: Seq<u8>, b: Seq<u8>)
    requires
        lex_less(a, b),
    ensures
        !lex_less(b, a),
        a != b,
{
    if lex_less(b, a) {
        lemma_lex_less_transitive(a, b, a);
        lemma_lex_less_irreflexive(a);
    }
    lemma_lex_less_irreflexive(a);
}

/// Of two different byte strings one comes before the other.
pub proof fn lemma_lex_total(a: Seq<u8>, b: Seq<u8>)
    ensures
        a == b || lex_less(a, b) || lex_less(b, a),
{
    lemma_lex_total_from(a, b, 0);
}

proof fn lemma_lex_total_from(a: Seq<u8>, b: Seq<u8>, k: int)
    requires
        0 <= k <= a.len(),
        k <= b.len(),
        forall|i: int| 0 <= i < k ==> a[i] == b[i],
    ensures
        a == b || lex_less(a, b) || lex_less(b, a),
    decreases a.len() - k,
{
    if k == a.len() || k == b.len() {
        if k < b.len() {
            assert(splits_at(a, b, k));
        } else if k < a.len() {
            assert(splits_at(b, a, k));
        } else {
            assert(a =~= b);
        }
    } else if a[k] < b[k] {
        assert(splits_at(a, b, k));
    } else if b[k] < a[k] {
        assert(splits_at(b, a, k));
    } else {
        lemma_lex_total_from(a, b, k + 1);
    }
}

/// Whether two byte strings are the same.
pub fn bytes_eq(a: &[u8], b: &[u8]) -> (r: bool)
    ensures
        r == (a@ == b@),
{
    if a.len() != b.len() {
        return false;
    }
    let mut i: usize = 0;
    while i < a.len()
        invariant
            i <= a.len(),
            a.len() == b.len(),
            forall|j: int| 0 <= j < i ==> a@[j] == b@[j],
        decreases a.len() - i,
    {
        if a[i] != b[i] {
            return false;
        }
        i += 1;
    }
    assert(a@ =~= b@);
    true
}

/// Whether `a` comes strictly before `b` in lexicographic order.
pub fn bytes_less(a: &[u8], b: &[u8]) -> (r: bool)
    ensures
        r == lex_less(a@, b@),
        !r ==> a@ == b@ || lex_less(b@, a@),
{
    let mut i: usize = 0;
    while i < a.len() && i < b.len()
        invariant
            i <= a.len(),
            i <= b.len(),
            forall|j: int| 0 <= j < i ==> a@[j] == b@[j],
        decreases a.len() - i,
    {
        if a[i] < b[i] {
            assert(splits_at(a@, b@, i as int));
            return true;
        }
        if b[i] < a[i] {
            assert(splits_at(b@, a@, i as int));
            proof {
                lemma_lex_less_asymmetric(b@, a@);
            }
            return false;
        }
        i += 1;
    }
    if i < b.len() {
        assert(splits_at(a@, b@, i as int));
        true
    } else {
        if i < a.len() {
            assert(splits_at(b@, a@, i as int));
            proof {
                lemma_lex_less_asymmetric(b@, a@);
            }
        } else {
            assert(a@ =~= b@);
            proof {
                lemma_lex_less_irreflexive(a@);
            }
        }
        false
    }
}

/// A vector holding a copy of `s`.
pub fn copy_bytes(s: &[u8]) -> (r: Vec<u8>)
    ensures
        r@ == s@,
{
    let mut r: Vec<u8> = Vec::with_capacity(s.len());
    append_bytes(&mut r, s);
    assert(r@ =~= s@);
    r
}

/// Append the bytes of `s` to `v`.
pub fn append_bytes(v: &mut Vec<u8>, s: &[u8])
    ensures
        final(v)@ == old(v)@ + s@,
{
    v.extend_from_slice(s);
    assert(v@ =~= old(v)@ + s@);
}

/// The `width` low bytes of `n`, most significant first.
pub open spec fn be_bytes(n: nat, width: nat) -> Seq<u8>
    decreases width,
{
    if width == 0 {
        Seq::empty()
    } else {
        be_bytes(n / 256, (width - 1) as nat).push((n % 256) as u8)
    }
}

/// The number whose big-endian bytes are `s`.
pub open spec fn be_value(s: Seq<u8>) -> nat
    decreases s.len(),
{
    if s.len() == 0 {
        0
    } else {
        be_value(s.drop_last()) * 256 + s.last() as nat
    }
}

pub proof fn lemma_be_bytes_len(n: nat, width: nat)
    ensures
        be_bytes(n, width).len() == width,
    decreases width,
{
    if width > 0 {
        lemma_be_bytes_len(n / 256, (width - 1) as nat);
    }
}

/// Reading back the big-endian bytes of a number that fits gives the number.
pub proof fn lemma_be_round_trip(n: nat, width: nat)
    requires
        n < vstd::arithmetic::power::pow(256, width),
    ensures
        be_value(be_bytes(n, width)) == n,
    decreases width,
{
    vstd::arithmetic::power::lemma_pow0(256);
    if width > 0 {
        let w = (width - 1) as nat;
        lemma_be_bytes_len(n / 256, w);
        assert(be_bytes(n, width).drop_last() =~= be_bytes(n / 256, w));
        vstd::arithmetic::power::lemma_pow_adds(256, 1, w);
        vstd::arithmetic::power::lemma_pow1(256);
        assert(n / 256 < vstd::arithmetic::power::pow(256, w)) by (nonlinear_arith)
            requires
                n < 256 * vstd::arithmetic::power::pow(256, w),
        ;
        lemma_be_round_trip(n / 256, w);
    }
}

/// The `width` low bytes of `n`, most significant first.
pub fn to_be_bytes(n: u64, width: usize) -> (r: Vec<u8>)
    ensures
        r@ == be_bytes(n as nat, width as nat),
    decreases width,
{
    if width == 0 {
        let r: Vec<u8> = Vec::new();
        assert(r@ =~= be_bytes(n as nat, 0));
        r
    } else {
        let mut r = to_be_bytes(n / 256, width - 1);
        r.push((n % 256) as u8);
        r
    }
}

/// The number that four big-endian bytes stand for.
pub fn u32_from_be_bytes(s: &[u8; 4]) -> (r: u32)
    ensures
        r == be_value(s@),
{
    proof {
        reveal_with_fuel(be_value, 5);
        assert(s@.drop_last().drop_last().drop_last().drop_last() =~= Seq::<u8>::empty());
    }
    s[0] as u32 * 0x100_0000 + s[1] as u32 * 0x1_0000 + s[2] as u32 * 0x100 + s[3] as u32
}

/// Three byte strings in a row read the same however they are grouped.
pub proof fn lemma_regroup(a: Seq<u8>, b: Seq<u8>, c: Seq<u8>)
    ensures
        (a + b) + c == a + (b + c),
{
    assert((a + b) + c =~= a + (b + c));
}

/// Four bytes are read with the most significant first.
pub proof fn four_bytes_are_big_endian(a: u8, b: u8, c: u8, d: u8)
    ensures
        be_value(seq![a, b, c, d]) == a * 0x100_0000 + b * 0x1_0000 + c * 0x100 + d,
{
    assert(seq![a, b, c, d].drop_last() =~= seq![a, b, c]);
    assert(seq![a, b, c].drop_last() =~= seq![a, b]);
    assert(seq![a, b].drop_last() =~= seq![a]);
    assert(seq![a].drop_last() =~= Seq::<u8>::empty());
    assert(be_value(Seq::<u8>::empty()) == 0);
    assert(be_value(seq![a]) == a);
    assert(be_value(seq![a, b]) == a * 256 + b);
    assert(be_value(seq![a, b, c]) == a * 65536 + b * 256 + c);
}

/// Two byte strings as one: the length of the first, the first, the second.
pub open spec fn pair_key(a: Seq<u8>, b: Seq<u8>) -> Seq<u8> {
    be_bytes(a.len(), 8) + a + b
}

/// Different pairs give different keys.
pub proof fn lemma_pair_key_injective(a1: Seq<u8>, b1: Seq<u8>, a2: Seq<u8>, b2: Seq<u8>)
    requires
        a1.len() <= u64::MAX,
        a2.len() <= u64::MAX,
        pair_key(a1, b1) == pair_key(a2, b2),
    ensures
        a1 == a2,
        b1 == b2,
{
    let k1 = pair_key(a1, b1);
    let k2 = pair_key(a2, b2);
    lemma_be_bytes_len(a1.len(), 8);
    lemma_be_bytes_len(a2.len(), 8);
    assert(k1.take(8) =~= be_bytes(a1.len(), 8));
    assert(k2.take(8) =~= be_bytes(a2.len(), 8));
    assert(vstd::arithmetic::power::pow(256, 8) == 0x1_0000_0000_0000_0000) by {
        reveal_with_fuel(vstd::arithmetic::power::pow, 9);
    }
    lemma_be_round_trip(a1.len(), 8);
    lemma_be_round_trip(a2.len(), 8);
    let n = a1.len() as int;
    assert(k1.subrange(8, 8 + n) =~= a1);
    assert(k2.subrange(8, 8 + n) =~= a2);
    assert(k1.skip(8 + n) =~= b1);
    assert(k2.skip(8 + n) =~= b2);
}

/// Two byte strings as one key.
pub fn make_pair_key(a: &[u8], b: &[u8]) -> (r: Vec<u8>)
    ensures
        r@ == pair_key(a@, b@),
{
    let mut r = to_be_bytes(a.len() as u64, 8);
    append_bytes(&mut r, a);
    append_bytes(&mut r, b);
    r
}

} // verus!
