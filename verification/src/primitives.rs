//! Fixed-size EVM values (addresses and 32-byte words), their hex text, the
//! Keccak-256 hash, and the EIP-55 checksummed form of an address.

use std::str::FromStr;
use vstd::prelude::*;

verus! {

/// A 20-byte account address.
#[derive(Clone, Copy, Debug)]
pub struct Address {
    pub bytes: [u8; 20],
}

/// A 32-byte word, such as the id of a Uniswap V4 pool.
#[derive(Clone, Copy, Debug)]
pub struct B256 {
    pub bytes: [u8; 32],
}

impl Address {
    /// The address whose bytes are all zero.
    pub fn zero() -> (address: Address)
        ensures
            forall|i: int| 0 <= i < 20 ==> #[trigger] address.bytes@[i] == 0,
    {
        Address { bytes: [0u8; 20] }
    }
}

/// The value of a hex digit, or -1 for a character that is none.
pub open spec fn hex_value(c: char) -> int {
    let v = c as int;
    if 0x30 <= v <= 0x39 {
        v - 0x30
    } else if 0x61 <= v <= 0x66 {
        v - 0x61 + 10
    } else if 0x41 <= v <= 0x46 {
        v - 0x41 + 10
    } else {
        -1
    }
}

/// Every character is a hex digit, of either case.
pub open spec fn is_hex_text(s: Seq<char>) -> bool {
    forall|i: int| 0 <= i < s.len() ==> hex_value(#[trigger] s[i]) >= 0
}

/// The bytes that pairs of hex digits spell, high nibble first.
pub open spec fn hex_bytes(s: Seq<char>) -> Seq<u8> {
    Seq::new(s.len() / 2, |i: int| (hex_value(s[2 * i]) * 16 + hex_value(s[2 * i + 1])) as u8)
}

/// Hex text decoded to bytes: it must have an even length and hold hex
/// digits only.
pub open spec fn decoded_hex(s: Seq<char>) -> Option<Seq<u8>> {
    if s.len() % 2 == 0 && is_hex_text(s) {
        Some(hex_bytes(s))
    } else {
        None
    }
}

/// The text without a leading `0x` or `0X`.
pub open spec fn without_hex_prefix(s: Seq<char>) -> Seq<char> {
    if s.len() >= 2 && s[0] == '0' && (s[1] == 'x' || s[1] == 'X') {
        s.skip(2)
    } else {
        s
    }
}

/// Hex text, with an optional `0x` prefix, decoded to exactly `n` bytes.
pub open spec fn decoded_fixed_hex(s: Seq<char>, n: nat) -> Option<Seq<u8>> {
    let digits = without_hex_prefix(s);
    if digits.len() == 2 * n && is_hex_text(digits) {
        Some(hex_bytes(digits))
    } else {
        None
    }
}

/// Decodes hex text into bytes.
///
/// Trusted: `hex::decode`, which fails on text of odd length or with a
/// character that is no hex digit, and otherwise turns each pair of digits
/// into one byte, high nibble first, accepting both cases.
#[verifier::external_body]
pub(crate) fn decode_hex(text: &str) -> (bytes: Option<Vec<u8>>)
    ensures
        bytes is Some <==> decoded_hex(text@) is Some,
        bytes matches Some(b) ==> b@ == decoded_hex(text@).unwrap(),
{
    hex::decode(text).ok()
}

/// Parses the hex text of an address.
///
/// Trusted: `alloy::primitives::Address::from_str`, which strips an optional
/// `0x`/`0X` prefix and requires exactly 40 hex digits of either case; it
/// does not check an EIP-55 checksum.
#[verifier::external_body]
pub(crate) fn parse_address(text: &str) -> (address: Option<Address>)
    ensures
        address is Some <==> decoded_fixed_hex(text@, 20) is Some,
        address matches Some(a) ==> a.bytes@ == decoded_fixed_hex(text@, 20).unwrap(),
{
    alloy::primitives::Address::from_str(text).ok().map(|a| Address { bytes: a.into_array() })
}

/// Parses the hex text of a 32-byte word.
///
/// Trusted: `alloy::primitives::B256::from_str`, which strips an optional
/// `0x`/`0X` prefix and requires exactly 64 hex digits of either case.
#[verifier::external_body]
pub(crate) fn parse_b256(text: &str) -> (word: Option<B256>)
    ensures
        word is Some <==> decoded_fixed_hex(text@, 32) is Some,
        word matches Some(w) ==> w.bytes@ == decoded_fixed_hex(text@, 32).unwrap(),
{
    alloy::primitives::B256::from_str(text).ok().map(|w| B256 { bytes: w.0 })
}

/// The Keccak-256 digest of a byte string.
pub uninterp spec fn spec_keccak256(data: Seq<u8>) -> Seq<u8>;

/// Hashes bytes with Keccak-256.
///
/// Trusted: `alloy::primitives::keccak256`, a function of its input alone;
/// its digest is named, not described.
#[verifier::external_body]
pub(crate) fn keccak256(data: &[u8]) -> (digest: [u8; 32])
    ensures
        digest@ == spec_keccak256(data@),
{
    alloy::primitives::keccak256(data).0
}

/// The `i`-th nibble of a byte string, counting the high nibble of each byte first.
pub open spec fn nibble(bytes: Seq<u8>, i: int) -> int {
    if i % 2 == 0 {
        bytes[i / 2] as int / 16
    } else {
        bytes[i / 2] as int % 16
    }
}

/// The lower-case hex digit of a value below 16.
pub open spec fn lower_hex_char(d: int) -> char {
    if d < 10 {
        (0x30 + d) as char
    } else {
        (0x61 + d - 10) as char
    }
}

/// The lower-case hex encoding of a byte string, as ASCII bytes.
pub open spec fn lower_hex_ascii(bytes: Seq<u8>) -> Seq<u8> {
    Seq::new(2 * bytes.len(), |i: int| lower_hex_char(nibble(bytes, i)) as u8)
}

/// An EIP-55 digit: a letter is upper case when the matching nibble of the
/// hash is 8 or more.
pub open spec fn checksum_char(digit: int, hash_nibble: int) -> char {
    if digit >= 10 && hash_nibble >= 8 {
        (0x41 + digit - 10) as char
    } else {
        lower_hex_char(digit)
    }
}

/// The EIP-55 text of an address: `0x`, then its hex digits, each letter in
/// the case that the Keccak-256 hash of the lower-case hex encoding picks.
pub open spec fn checksum_text(bytes: Seq<u8>) -> Seq<char> {
    let hash = spec_keccak256(lower_hex_ascii(bytes));
    seq!['0', 'x'] + Seq::new(2 * bytes.len(), |i: int| checksum_char(nibble(bytes, i), nibble(hash, i)))
}

/// The checksummed text of an address.
///
/// Trusted: `Display` of `alloy::primitives::Address` (through `to_string`),
/// which writes `0x` and the lower-case hex digits, then upper-cases each
/// letter whose nibble in the Keccak-256 hash of those digits is 8 or more.
#[verifier::external_body]
pub(crate) fn address_to_checksum(address: &Address) -> (text: String)
    ensures
        text@ == checksum_text(address.bytes@),
{
    alloy::primitives::Address::from(address.bytes).to_string()
}

/// A checksummed digit is a hex digit of the same value, whatever the case
/// that the hash picks.
proof fn lemma_checksum_char_value(digit: int, hash_nibble: int)
    requires
        0 <= digit < 16,
    ensures
        hex_value(checksum_char(digit, hash_nibble)) == digit,
{
}

/// The checksummed text of an address reads back as that address: the text
/// that `address_to_checksum` writes, `parse_address` parses to the same bytes.
pub proof fn lemma_checksum_text_parses_back(bytes: Seq<u8>)
    requires
        bytes.len() == 20,
    ensures
        decoded_fixed_hex(checksum_text(bytes), 20) == Some(bytes),
{
    let text = checksum_text(bytes);
    let hash = spec_keccak256(lower_hex_ascii(bytes));
    let digits = without_hex_prefix(text);
    assert(digits =~= text.skip(2));
    assert forall|i: int| 0 <= i < 40 implies hex_value(#[trigger] digits[i]) == nibble(bytes, i) by {
        assert(digits[i] == checksum_char(nibble(bytes, i), nibble(hash, i)));
        assert(0 <= nibble(bytes, i) < 16);
        lemma_checksum_char_value(nibble(bytes, i), nibble(hash, i));
    }
    assert(is_hex_text(digits));
    assert forall|i: int| 0 <= i < 20 implies #[trigger] hex_bytes(digits)[i] == bytes[i] by {
        assert(hex_value(digits[2 * i]) == nibble(bytes, 2 * i));
        assert(hex_value(digits[2 * i + 1]) == nibble(bytes, 2 * i + 1));
        assert(nibble(bytes, 2 * i) == bytes[i] as int / 16);
        assert(nibble(bytes, 2 * i + 1) == bytes[i] as int % 16);
    }
    assert(hex_bytes(digits) =~= bytes);
}

/// Decoded hex text encodes back to the same digits: each decoded byte
/// holds two digits, the first as its high nibble and the second as its low one.
pub proof fn lemma_decoded_hex_nibbles(s: Seq<char>)
    requires
        decoded_hex(s) is Some,
    ensures
        2 * decoded_hex(s).unwrap().len() == s.len(),
        forall|i: int| 0 <= i < s.len() ==> nibble(decoded_hex(s).unwrap(), i) == hex_value(#[trigger] s[i]),
{
    let d = decoded_hex(s).unwrap();
    assert forall|i: int| 0 <= i < s.len() implies nibble(d, i) == hex_value(#[trigger] s[i]) by {
        let j = i / 2;
        assert(0 <= j < d.len());
        let a = hex_value(s[2 * j]);
        let b = hex_value(s[2 * j + 1]);
        assert(0 <= a < 16 && 0 <= b < 16);
        let v = a * 16 + b;
        assert(0 <= v < 256);
        assert(d[j] as int == v);
        vstd::arithmetic::div_mod::lemma_fundamental_div_mod_converse(v, 16, a, b);
        vstd::arithmetic::div_mod::lemma_fundamental_div_mod_converse_mod(v, 16, a, b);
        if i % 2 == 0 {
            assert(i == 2 * j);
        } else {
            assert(i == 2 * j + 1);
        }
    }
}

} // verus!
