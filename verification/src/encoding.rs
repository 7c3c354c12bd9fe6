//! Text forms of digests and numbers: lowercase hexadecimal and big-endian bytes.
use crate::backend::hex_encode;
use vstd::prelude::*;

verus! {

/// The sixteen lowercase hexadecimal digits, by value.
pub open spec fn hex_digits() -> Seq<char> {
    seq!['0', '1', '2', '3', '4', '5', '6', '7', '8', '9', 'a', 'b', 'c', 'd', 'e', 'f']
}

/// Whether `c` is one of the sixteen lowercase hexadecimal digits.
pub open spec fn is_hex_digit(c: char) -> bool {
    ('0' <= c && c <= '9') || ('a' <= c && c <= 'f')
}

/// Lowercase hexadecimal text of `bytes`: two digits per byte, the high
/// half of each byte first.
pub open spec fn hex_chars(bytes: Seq<u8>) -> Seq<char> {
    Seq::new(
        2 * bytes.len(),
        |i: int|
            hex_digits()[if i % 2 == 0 {
                bytes[i / 2] as int / 16
            } else {
                bytes[i / 2] as int % 16
            }],
    )
}

/// Hexadecimal text holds nothing but hexadecimal digits.
pub proof fn lemma_hex_chars_are_digits(bytes: Seq<u8>, i: int)
    requires
        0 <= i < hex_chars(bytes).len(),
    ensures
        is_hex_digit(hex_chars(bytes)[i]),
{
    let byte = bytes[i / 2] as int;
    let nibble = if i % 2 == 0 {
        byte / 16
    } else {
        byte % 16
    };
    assert(0 <= nibble < 16);
    let digits = hex_digits();
    assert(forall|k: int| 0 <= k < 16 ==> is_hex_digit(#[trigger] digits[k]));
}

/// Writes `bytes` in lowercase hexadecimal. The text is twice as long as
/// the bytes, and its length must fit the machine's word.
pub fn hex_text(bytes: &[u8]) -> (text: String)
    requires
        2 * bytes@.len() <= usize::MAX,
    ensures
        text@ == hex_chars(bytes@),
{
    hex_encode(bytes)
}

/// Different bytes have different hexadecimal text.
pub proof fn lemma_hex_chars_injective(a: Seq<u8>, b: Seq<u8>)
    requires
        hex_chars(a) == hex_chars(b),
    ensures
        a == b,
{
    assert(a.len() == b.len()) by {
        assert(hex_chars(a).len() == 2 * a.len());
        assert(hex_chars(b).len() == 2 * b.len());
    }
    let digits = hex_digits();
    assert forall|k: int| 0 <= k < a.len() implies a[k] == b[k] by {
        let x = a[k] as int;
        let y = b[k] as int;
        assert(hex_chars(a)[2 * k] == digits[x / 16]);
        assert(hex_chars(b)[2 * k] == digits[y / 16]);
        assert(hex_chars(a)[2 * k + 1] == digits[x % 16]);
        assert(hex_chars(b)[2 * k + 1] == digits[y % 16]);
        assert(forall|i: int, j: int|
            0 <= i < 16 && 0 <= j < 16 && #[trigger] digits[i] == #[trigger] digits[j] ==> i == j);
        assert(x / 16 == y / 16 && x % 16 == y % 16);
    }
    assert(a =~= b);
}

/// The eight bytes of `n`, most significant first.
pub open spec fn be_bytes(n: u64) -> Seq<u8> {
    Seq::new(8, |i: int| ((n as int / pow256(7 - i)) % 256) as u8)
}

/// 256 to the power `k`, for the eight byte positions of a `u64`.
pub open spec fn pow256(k: int) -> int {
    if k <= 0 {
        1
    } else if k == 1 {
        0x100
    } else if k == 2 {
        0x1_0000
    } else if k == 3 {
        0x100_0000
    } else if k == 4 {
        0x1_0000_0000
    } else if k == 5 {
        0x100_0000_0000
    } else if k == 6 {
        0x1_0000_0000_0000
    } else {
        0x100_0000_0000_0000
    }
}

/// Writes `n` as eight bytes, most significant first.
pub fn u64_be_bytes(n: u64) -> (bytes: Vec<u8>)
    ensures
        bytes@ == be_bytes(n),
{
    let mut bytes: Vec<u8> = Vec::new();
    bytes.push((n / 0x100_0000_0000_0000 % 256) as u8);
    bytes.push((n / 0x1_0000_0000_0000 % 256) as u8);
    bytes.push((n / 0x100_0000_0000 % 256) as u8);
    bytes.push((n / 0x1_0000_0000 % 256) as u8);
    bytes.push((n / 0x100_0000 % 256) as u8);
    bytes.push((n / 0x1_0000 % 256) as u8);
    bytes.push((n / 0x100 % 256) as u8);
    bytes.push((n % 256) as u8);
    assert(bytes@ =~= be_bytes(n));
    bytes
}

/// A number is the sum of its big-endian bytes, each weighted by its place.
pub proof fn lemma_be_bytes_value(n: u64)
    ensures
        n == be_bytes(n)[0] * pow256(7) + be_bytes(n)[1] * pow256(6) + be_bytes(n)[2] * pow256(5)
            + be_bytes(n)[3] * pow256(4) + be_bytes(n)[4] * pow256(3) + be_bytes(n)[5] * pow256(2)
            + be_bytes(n)[6] * pow256(1) + be_bytes(n)[7],
{
    let v = n as int;
    let q1 = v / 0x100;
    let q2 = v / 0x1_0000;
    let q3 = v / 0x100_0000;
    let q4 = v / 0x1_0000_0000;
    let q5 = v / 0x100_0000_0000;
    let q6 = v / 0x1_0000_0000_0000;
    let q7 = v / 0x100_0000_0000_0000;
    assert(v == q1 * 256 + v % 256);
    assert(q1 == q2 * 256 + q1 % 256);
    assert(q2 == q3 * 256 + q2 % 256);
    assert(q3 == q4 * 256 + q3 % 256);
    assert(q4 == q5 * 256 + q4 % 256);
    assert(q5 == q6 * 256 + q5 % 256);
    assert(q6 == q7 * 256 + q6 % 256);
    assert(q7 == q7 % 256);
}

/// Two numbers with the same big-endian bytes are the same number.
pub proof fn lemma_be_bytes_injective(a: u64, b: u64)
    requires
        be_bytes(a) == be_bytes(b),
    ensures
        a == b,
{
    lemma_be_bytes_value(a);
    lemma_be_bytes_value(b);
}

} // verus!
