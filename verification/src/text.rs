//! Text: decimal numbers, bracketed lists and quoted strings.
use vstd::prelude::*;
use vstd::string::StringExecFns;

verus! {

/// The decimal digit `d` as a character.
pub open spec fn digit(d: nat) -> char {
    (d + 48) as char
}

/// A natural number in decimal notation.
pub open spec fn decimal(n: nat) -> Seq<char>
    decreases n,
{
    if n < 10 {
        seq![digit(n)]
    } else {
        decimal(n / 10).push(digit(n % 10))
    }
}

/// The number that decimal digits stand for.
pub open spec fn read_decimal(digits: Seq<char>) -> int
    decreases digits.len(),
{
    if digits.len() == 0 {
        0
    } else {
        read_decimal(digits.drop_last()) * 10 + (digits.last() as int - 48)
    }
}

/// Decimal notation is read back, so different numbers read differently; it holds
/// digits only, and no zero leads it but that of zero itself.
pub proof fn decimals_are_read_back(n: nat, i: int)
    requires
        0 <= i < decimal(n).len(),
    ensures
        read_decimal(decimal(n)) == n,
        '0' <= decimal(n)[i] <= '9',
        n > 0 ==> decimal(n)[0] != '0',
    decreases n,
{
    if n < 10 {
        assert(seq![digit(n)].drop_last() =~= Seq::<char>::empty());
        assert(read_decimal(Seq::<char>::empty()) == 0);
        assert(decimal(n).last() == digit(n));
    } else {
        let front = decimal(n / 10);
        assert(decimal(n).drop_last() =~= front);
        assert(front.len() > 0);
        decimals_are_read_back(n / 10, 0);
        if i < front.len() {
            decimals_are_read_back(n / 10, i);
        }
    }
}

/// The items one after the other, with a comma and a space between them.
pub open spec fn comma_separated(items: Seq<Seq<char>>) -> Seq<char>
    decreases items.len(),
{
    if items.len() == 0 {
        Seq::empty()
    } else if items.len() == 1 {
        items[0]
    } else {
        comma_separated(items.drop_last()) + ", "@ + items.last()
    }
}

/// A list in square brackets.
pub open spec fn bracketed(items: Seq<Seq<char>>) -> Seq<char> {
    "["@ + comma_separated(items) + "]"@
}

/// A list reads as its items between brackets, with a comma and a space before
/// each item but the first.
pub proof fn lists_are_comma_separated(items: Seq<Seq<char>>, item: Seq<char>)
    ensures
        bracketed(Seq::<Seq<char>>::empty()) == seq!['[', ']'],
        comma_separated(seq![item]) == item,
        items.len() > 0 ==> comma_separated(items.push(item)) == comma_separated(items) + seq![
            ',',
            ' ',
        ] + item,
        bracketed(items) == seq!['['] + comma_separated(items) + seq![']'],
{
    reveal_strlit("[");
    reveal_strlit("]");
    reveal_strlit(", ");
    assert("["@ =~= seq!['[']);
    assert("]"@ =~= seq![']']);
    assert(", "@ =~= seq![',', ' ']);
    assert(items.push(item).drop_last() =~= items);
    assert(bracketed(Seq::<Seq<char>>::empty()) =~= seq!['[', ']']);
}

/// A byte string as the list of its bytes in decimal.
pub open spec fn byte_list(bytes: Seq<u8>) -> Seq<char> {
    bracketed(Seq::new(bytes.len(), |i: int| decimal(bytes[i] as nat)))
}

/// A string in quotation marks with its special characters escaped.
pub uninterp spec fn quoted(s: Seq<char>) -> Seq<char>;

/// `format!("{:?}", s)`: the string in quotation marks, escaped as
/// `str::escape_debug` documents.
#[verifier::external_body]
pub(crate) fn quote(s: &str) -> (r: String)
    ensures
        r@ == quoted(s@),
{
    format!("{:?}", s)
}

fn digit_str(d: u64) -> (r: &'static str)
    requires
        d < 10,
    ensures
        r@ == seq![digit(d as nat)],
{
    proof {
        reveal_strlit("0");
        reveal_strlit("1");
        reveal_strlit("2");
        reveal_strlit("3");
        reveal_strlit("4");
        reveal_strlit("5");
        reveal_strlit("6");
        reveal_strlit("7");
        reveal_strlit("8");
        reveal_strlit("9");
    }
    let r = if d == 0 {
        "0"
    } else if d == 1 {
        "1"
    } else if d == 2 {
        "2"
    } else if d == 3 {
        "3"
    } else if d == 4 {
        "4"
    } else if d == 5 {
        "5"
    } else if d == 6 {
        "6"
    } else if d == 7 {
        "7"
    } else if d == 8 {
        "8"
    } else {
        "9"
    };
    assert(r@ =~= seq![digit(d as nat)]);
    r
}

/// `n` in decimal notation.
pub fn decimal_string(n: u64) -> (r: String)
    ensures
        r@ == decimal(n as nat),
    decreases n,
{
    let mut r = if n < 10 {
        String::new()
    } else {
        decimal_string(n / 10)
    };
    let ghost before = r@;
    r.append(digit_str(n % 10));
    proof {
        if n < 10 {
            assert(r@ =~= seq![digit(n as nat)]);
        } else {
            assert(r@ =~= before.push(digit((n % 10) as nat)));
        }
    }
    r
}

/// The items in square brackets.
pub fn bracketed_string(items: &Vec<String>) -> (r: String)
    ensures
        r@ == bracketed(Seq::new(items@.len(), |i: int| items@[i]@)),
{
    let mut r = "[".to_owned();
    let ghost all = Seq::new(items@.len(), |i: int| items@[i]@);
    let mut i: usize = 0;
    while i < items.len()
        invariant
            i <= items@.len(),
            all == Seq::new(items@.len(), |i: int| items@[i]@),
            r@ == "["@ + comma_separated(all.take(i as int)),
        decreases items@.len() - i,
    {
        if i > 0 {
            r.append(", ");
        }
        r.append(items[i].as_str());
        proof {
            let next = all.take(i + 1);
            assert(next.drop_last() =~= all.take(i as int));
            assert(next.last() == items@[i as int]@);
            if i == 0 {
                assert(all.take(0).len() == 0);
                assert(comma_separated(all.take(0)) =~= Seq::<char>::empty());
            }
            assert(r@ =~= "["@ + comma_separated(next));
        }
        i += 1;
    }
    r.append("]");
    assert(all.take(items@.len() as int) =~= all);
    r
}

/// The bytes in decimal, in square brackets.
pub fn byte_list_string(bytes: &[u8]) -> (r: String)
    ensures
        r@ == byte_list(bytes@),
{
    let mut items: Vec<String> = Vec::new();
    let mut i: usize = 0;
    while i < bytes.len()
        invariant
            i <= bytes@.len(),
            items@.len() == i,
            forall|j: int| 0 <= j < i ==> (#[trigger] items@[j])@ == decimal(bytes@[j] as nat),
        decreases bytes@.len() - i,
    {
        items.push(decimal_string(bytes[i] as u64));
        i += 1;
    }
    let r = bracketed_string(&items);
    assert(Seq::new(items@.len(), |i: int| items@[i]@) =~= Seq::new(
        bytes@.len(),
        |i: int| decimal(bytes@[i] as nat),
    ));
    r
}

/// `prefix`, then `body`, then `suffix`.
pub fn wrap(prefix: &str, body: &str, suffix: &str) -> (r: String)
    ensures
        r@ == prefix@ + body@ + suffix@,
{
    let mut r = prefix.to_owned();
    r.append(body);
    r.append(suffix);
    r
}

/// Whether two strings are the same.
pub fn str_eq(a: &str, b: &str) -> (r: bool)
    ensures
        r == (a@ == b@),
{
    let r = crate::bytes::bytes_eq(a.as_bytes(), b.as_bytes());
    proof {
        lemma_utf8_injective(a@, b@);
    }
    r
}

/// Two strings with the same UTF-8 encoding are the same string.
pub proof fn lemma_utf8_injective(a: Seq<char>, b: Seq<char>)
    ensures
        vstd::utf8::encode_utf8(a) == vstd::utf8::encode_utf8(b) ==> a == b,
{
    vstd::utf8::encode_utf8_decode_utf8(a);
    vstd::utf8::encode_utf8_decode_utf8(b);
}

} // verus!
