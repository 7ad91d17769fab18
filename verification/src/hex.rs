//! Hexadecimal identifiers: event ids, public keys and channel ids as text.

use vstd::prelude::*;

verus! {

/// The 32 bytes of an event id or of a public key.
pub type Bytes32 = [u8; 32];

/// The lower-case hexadecimal digit of value `n`.
pub open spec fn hex_digit(n: int) -> char {
    if n < 10 {
        (('0' as int) + n) as char
    } else {
        (('a' as int) + n - 10) as char
    }
}

/// The value of a hexadecimal digit of either case.
pub open spec fn digit_value(c: char) -> Option<int> {
    if '0' <= c <= '9' {
        Some(c as int - '0' as int)
    } else if 'a' <= c <= 'f' {
        Some(c as int - 'a' as int + 10)
    } else if 'A' <= c <= 'F' {
        Some(c as int - 'A' as int + 10)
    } else {
        None
    }
}

/// Two lower-case hexadecimal digits for each byte.
pub open spec fn hex_of(bytes: Seq<u8>) -> Seq<char> {
    Seq::new(
        2 * bytes.len(),
        |i: int|
            if i % 2 == 0 {
                hex_digit(bytes[i / 2] as int / 16)
            } else {
                hex_digit(bytes[i / 2] as int % 16)
            },
    )
}

/// Whether `s` is made of hexadecimal digits, of either case.
pub open spec fn is_hex(s: Seq<char>) -> bool {
    forall|i: int| 0 <= i < s.len() ==> digit_value(#[trigger] s[i]) is Some
}

/// The bytes that pairs of hexadecimal digits stand for.
pub open spec fn bytes_of_hex(s: Seq<char>) -> Seq<u8> {
    Seq::new(
        s.len() / 2,
        |i: int| (16 * digit_value(s[2 * i])->0 + digit_value(s[2 * i + 1])->0) as u8,
    )
}

/// The last `width` hexadecimal digits of `n`, most significant first.
pub open spec fn hex_digits(n: nat, width: nat) -> Seq<char>
    decreases width,
{
    if width == 0 {
        Seq::empty()
    } else {
        hex_digits(n / 16, (width - 1) as nat).push(hex_digit(n as int % 16))
    }
}

/// A channel id as its 32 hexadecimal digits in groups of 8, 4, 4, 4 and 12.
pub open spec fn hyphenated(id: u128) -> Seq<char> {
    let digits = hex_digits(id as nat, 32);
    digits.subrange(0, 8) + seq!['-'] + digits.subrange(8, 12) + seq!['-'] + digits.subrange(12, 16)
        + seq!['-'] + digits.subrange(16, 20) + seq!['-'] + digits.subrange(20, 32)
}

/// Calls `uuid::Uuid::from_u128`, whose bytes are those of `id` in big-endian order,
/// and writes the `Uuid` out with its `Display`, which is the lower-case hyphenated
/// form.
#[verifier::external_body]
pub(crate) fn uuid_text(id: u128) -> (s: String)
    ensures
        s@ == hyphenated(id),
{
    uuid::Uuid::from_u128(id).to_string()
}

/// Calls `nostr::EventId::to_hex` on the event id made of these bytes: two lower-case
/// digits for each byte, in order.
#[verifier::external_body]
pub(crate) fn event_id_text(id: Bytes32) -> (s: String)
    ensures
        s@ == hex_of(id@),
{
    nostr::EventId::from_byte_array(id).to_hex()
}

/// Calls `nostr::PublicKey::to_hex` on the public key made of these bytes: two
/// lower-case digits for each byte, in order.
#[verifier::external_body]
pub(crate) fn pubkey_text(key: Bytes32) -> (s: String)
    ensures
        s@ == hex_of(key@),
{
    nostr::PublicKey::from_byte_array(key).to_hex()
}

/// Calls `nostr::EventId::from_hex`: it succeeds on exactly 64 hexadecimal digits, of
/// either case, and the id holds the bytes that they stand for.
#[verifier::external_body]
pub(crate) fn event_id_from_text(hex: &str) -> (parsed: Option<Bytes32>)
    ensures
        match parsed {
            Some(id) => hex@.len() == 64 && is_hex(hex@) && id@ == bytes_of_hex(hex@),
            None => !(hex@.len() == 64 && is_hex(hex@)),
        },
{
    match nostr::EventId::from_hex(hex) {
        Ok(id) => Some(id.to_bytes()),
        Err(_) => None,
    }
}

/// `16` to the power of `width`.
spec fn pow16(width: nat) -> nat
    decreases width,
{
    if width == 0 {
        1
    } else {
        16 * pow16((width - 1) as nat)
    }
}

proof fn lemma_hex_digits_len(n: nat, width: nat)
    ensures
        hex_digits(n, width).len() == width,
    decreases width,
{
    if width > 0 {
        lemma_hex_digits_len(n / 16, (width - 1) as nat);
    }
}

proof fn lemma_hex_digit_injective(a: int, b: int)
    requires
        0 <= a < 16,
        0 <= b < 16,
        hex_digit(a) == hex_digit(b),
    ensures
        a == b,
{
}

proof fn lemma_hex_digits_injective(a: nat, b: nat, width: nat)
    requires
        a < pow16(width),
        b < pow16(width),
        hex_digits(a, width) == hex_digits(b, width),
    ensures
        a == b,
    decreases width,
{
    if width > 0 {
        let less = (width - 1) as nat;
        let x = hex_digits(a / 16, less);
        let y = hex_digits(b / 16, less);
        let whole_x = x.push(hex_digit(a as int % 16));
        let whole_y = y.push(hex_digit(b as int % 16));
        assert(whole_x == whole_y);
        assert(whole_x.last() == whole_y.last());
        assert(whole_x.drop_last() =~= x);
        assert(whole_y.drop_last() =~= y);
        lemma_hex_digit_injective(a as int % 16, b as int % 16);
        lemma_hex_digits_injective(a / 16, b / 16, less);
    }
}

/// A hyphenated channel id is 36 characters long.
pub proof fn lemma_hyphenated_len(id: u128)
    ensures
        hyphenated(id).len() == 36,
{
    lemma_hex_digits_len(id as nat, 32);
}

/// Different channel ids have different texts.
pub proof fn law_hyphenated_injective(a: u128, b: u128)
    requires
        hyphenated(a) == hyphenated(b),
    ensures
        a == b,
{
    lemma_hex_digits_len(a as nat, 32);
    lemma_hex_digits_len(b as nat, 32);
    let x = hex_digits(a as nat, 32);
    let y = hex_digits(b as nat, 32);
    let p = hyphenated(a);
    let q = hyphenated(b);
    assert forall|i: int| 0 <= i < 32 implies x[i] == y[i] by {
        let j = if i < 8 {
            i
        } else if i < 12 {
            i + 1
        } else if i < 16 {
            i + 2
        } else if i < 20 {
            i + 3
        } else {
            i + 4
        };
        assert(p[j] == x[i]);
        assert(q[j] == y[i]);
    }
    assert(x =~= y);
    assert(pow16(32) == 0x1_0000_0000_0000_0000_0000_0000_0000_0000) by {
        reveal_with_fuel(pow16, 33);
    }
    lemma_hex_digits_injective(a as nat, b as nat, 32);
}

/// Reading back the text of some bytes gives those bytes.
pub proof fn law_hex_reads_back(bytes: Seq<u8>)
    ensures
        hex_of(bytes).len() == 2 * bytes.len(),
        is_hex(hex_of(bytes)),
        bytes_of_hex(hex_of(bytes)) == bytes,
{
    let s = hex_of(bytes);
    assert forall|i: int| 0 <= i < s.len() implies digit_value(#[trigger] s[i]) is Some by {
        let b = bytes[i / 2];
        assert(0 <= b as int / 16 < 16);
    }
    assert forall|i: int| 0 <= i < bytes.len() implies bytes_of_hex(s)[i] == bytes[i] by {
        let b = bytes[i] as int;
        assert((2 * i) % 2 == 0 && (2 * i) / 2 == i);
        assert((2 * i + 1) % 2 == 1 && (2 * i + 1) / 2 == i);
        assert(s[2 * i] == hex_digit(b / 16));
        assert(s[2 * i + 1] == hex_digit(b % 16));
        assert(digit_value(hex_digit(b / 16)) == Some(b / 16));
        assert(digit_value(hex_digit(b % 16)) == Some(b % 16));
    }
    assert(bytes_of_hex(s) =~= bytes);
}

/// A digit counts from 0 to 15: the ten decimal digits, then the letters `a` to `f` of either
/// case; no other character is one.
pub proof fn law_digits_have_their_values(c: char)
    ensures
        digit_value(c) is Some <==> '0' <= c <= '9' || 'a' <= c <= 'f' || 'A' <= c <= 'F',
        '0' <= c <= '9' ==> digit_value(c) == Some(c as int - 48),
        'a' <= c <= 'f' ==> digit_value(c) == Some(c as int - 87),
        'A' <= c <= 'F' ==> digit_value(c) == Some(c as int - 55),
        digit_value(c) is Some ==> 0 <= digit_value(c)->0 < 16 && digit_value(
            hex_digit(digit_value(c)->0),
        ) == digit_value(c),
        forall|n: int|
            0 <= n < 16 ==> digit_value(#[trigger] hex_digit(n)) == Some(n) && !('A' <= hex_digit(n)
                <= 'F'),
{
}

/// The bytes of a hexadecimal text, written out again, are the same digits.
pub proof fn law_bytes_keep_their_digits(s: Seq<char>)
    requires
        is_hex(s),
        s.len() % 2 == 0,
    ensures
        2 * bytes_of_hex(s).len() == s.len(),
        forall|i: int|
            0 <= i < s.len() ==> digit_value(#[trigger] hex_of(bytes_of_hex(s))[i]) == digit_value(
                s[i],
            ),
{
    let bytes = bytes_of_hex(s);
    assert forall|i: int| 0 <= i < s.len() implies digit_value(#[trigger] hex_of(bytes)[i])
        == digit_value(s[i]) by {
        let k = i / 2;
        let high = digit_value(s[2 * k]);
        let low = digit_value(s[2 * k + 1]);
        assert(high is Some && low is Some);
        law_digits_have_their_values(s[2 * k]);
        law_digits_have_their_values(s[2 * k + 1]);
        assert(bytes[k] as int == 16 * high->0 + low->0);
        assert(bytes[k] as int / 16 == high->0);
        assert(bytes[k] as int % 16 == low->0);
        assert(i == 2 * k || i == 2 * k + 1);
    }
}

} // verus!
