//! Text encodings of byte strings and of 256-bit big-endian numbers:
//! lowercase hex, 0x-prefixed hex, and decimal.

use vstd::prelude::*;
use vstd::string::*;

verus! {

/// The lowercase hex digit of a nibble.
pub open spec fn hex_digit(n: int) -> char {
    if n < 10 {
        (48 + n) as char
    } else {
        (87 + n) as char
    }
}

/// Lowercase hex: two digits per byte, high nibble first.
pub open spec fn spec_hex_lower(b: Seq<u8>) -> Seq<char> {
    Seq::new(
        2 * b.len(),
        |i: int|
            if i % 2 == 0 {
                hex_digit(b[i / 2] as int / 16)
            } else {
                hex_digit(b[i / 2] as int % 16)
            },
    )
}

/// The value of a hex digit byte in either case.
pub open spec fn hex_value(c: u8) -> Option<u8> {
    if 0x30 <= c <= 0x39 {
        Some((c - 0x30) as u8)
    } else if 0x61 <= c <= 0x66 {
        Some((c - 0x61 + 10) as u8)
    } else if 0x41 <= c <= 0x46 {
        Some((c - 0x41 + 10) as u8)
    } else {
        None
    }
}

/// The bytes that a hex text (as UTF-8 bytes) denotes: `None` for an odd
/// length or a byte that is no hex digit.
pub open spec fn spec_hex_decode(t: Seq<u8>) -> Option<Seq<u8>> {
    if t.len() % 2 != 0 {
        None
    } else if exists|i: int| 0 <= i < t.len() && hex_value(t[i]) is None {
        None
    } else {
        Some(
            Seq::new(
                t.len() / 2,
                |i: int| (hex_value(t[2 * i]).unwrap() * 16 + hex_value(t[2 * i + 1]).unwrap()) as u8,
            ),
        )
    }
}

/// The number that a byte string denotes, big-endian.
pub open spec fn be_value(b: Seq<u8>) -> nat
    decreases b.len(),
{
    if b.len() == 0 {
        0
    } else {
        be_value(b.drop_last()) * 256 + b.last() as nat
    }
}

/// Appending a byte to a big-endian number shifts it by a byte.
pub proof fn lemma_be_value_step(s: Seq<u8>, i: int)
    requires
        0 <= i < s.len(),
    ensures
        be_value(s.subrange(0, i + 1)) == be_value(s.subrange(0, i)) * 256 + s[i] as nat,
{
    assert(s.subrange(0, i + 1).drop_last() =~= s.subrange(0, i));
}

/// A big-endian number is at least the number of any of its prefixes.
pub proof fn lemma_be_value_prefix(s: Seq<u8>, i: int)
    requires
        0 <= i <= s.len(),
    ensures
        be_value(s.subrange(0, i)) <= be_value(s),
    decreases s.len(),
{
    if i == s.len() {
        assert(s.subrange(0, i) =~= s);
    } else {
        lemma_be_value_prefix(s.drop_last(), i);
        assert(s.drop_last().subrange(0, i) =~= s.subrange(0, i));
    }
}

/// The decimal digits of a number, without leading zeros ("0" for zero).
pub open spec fn decimal_digits(n: nat) -> Seq<char>
    decreases n,
{
    if n < 10 {
        seq![(48 + n) as char]
    } else {
        decimal_digits(n / 10) + seq![(48 + n % 10) as char]
    }
}

/// The debug form of a 32-byte word: "0x" and lowercase hex.
pub open spec fn spec_word_debug(w: Seq<u8>) -> Seq<char> {
    seq!['0', 'x'] + spec_hex_lower(w)
}

/// The Keccak-256 digest of a byte string.
pub uninterp spec fn keccak256_digest(data: Seq<u8>) -> Seq<u8>;

/// `alloy_primitives::keccak256`: the contract names the 32-byte digest.
#[verifier::external_body]
pub(crate) fn keccak256(data: &[u8]) -> (h: [u8; 32])
    ensures
        h@ == keccak256_digest(data@),
{
    alloy::primitives::keccak256(data).0
}

/// The big-endian number that `bytes` denote, where it is at most `limit`.
pub(crate) fn be_bounded(bytes: &[u8], limit: usize) -> (r: Option<usize>)
    ensures
        r == (if be_value(bytes@) <= limit {
            Some(be_value(bytes@) as usize)
        } else {
            None::<usize>
        }),
{
    let mut l: usize = 0;
    let mut i: usize = 0;
    while i < bytes.len()
        invariant
            i <= bytes@.len(),
            l == be_value(bytes@.subrange(0, i as int)),
            l <= limit,
        decreases bytes@.len() - i,
    {
        proof {
            lemma_be_value_step(bytes@, i as int);
            lemma_be_value_prefix(bytes@, i + 1);
        }
        let byte = bytes[i] as usize;
        if l > limit / 256 {
            assert(l * 256 > limit) by (nonlinear_arith)
                requires
                    l > limit / 256,
            ;
            return None;
        }
        assert(l * 256 <= limit) by (nonlinear_arith)
            requires
                l <= limit / 256,
        ;
        let m = l * 256;
        if byte > limit - m {
            return None;
        }
        l = m + byte;
        i += 1;
    }
    assert(bytes@.subrange(0, bytes@.len() as int) =~= bytes@);
    Some(l)
}

/// The big-endian number that `bytes` denote, where it fits in 64 bits.
pub(crate) fn be_bounded_u64(bytes: &[u8]) -> (r: Option<u64>)
    ensures
        r == (if be_value(bytes@) <= u64::MAX {
            Some(be_value(bytes@) as u64)
        } else {
            None::<u64>
        }),
{
    let limit: u64 = u64::MAX;
    let mut l: u64 = 0;
    let mut i: usize = 0;
    while i < bytes.len()
        invariant
            limit == u64::MAX,
            i <= bytes@.len(),
            l == be_value(bytes@.subrange(0, i as int)),
        decreases bytes@.len() - i,
    {
        proof {
            lemma_be_value_step(bytes@, i as int);
            lemma_be_value_prefix(bytes@, i + 1);
        }
        let byte = bytes[i] as u64;
        if l > limit / 256 {
            assert(l * 256 > limit) by (nonlinear_arith)
                requires
                    l > limit / 256,
            ;
            return None;
        }
        assert(l * 256 <= limit) by (nonlinear_arith)
            requires
                l <= limit / 256,
        ;
        let m = l * 256;
        if byte > limit - m {
            return None;
        }
        l = m + byte;
        i += 1;
    }
    assert(bytes@.subrange(0, bytes@.len() as int) =~= bytes@);
    Some(l)
}

/// `hex::encode`: lowercase hex, two digits per byte.
#[verifier::external_body]
pub(crate) fn hex_encode(data: &[u8]) -> (s: String)
    ensures
        s@ == spec_hex_lower(data@),
{
    hex::encode(data)
}

/// `hex::decode`: the bytes of an even-length text of hex digits in either
/// case; an error (`None`) for an odd length or another character.
#[verifier::external_body]
pub(crate) fn hex_decode(s: &str) -> (r: Option<Vec<u8>>)
    ensures
        match spec_hex_decode(s.spec_bytes()) {
            None => r is None,
            Some(b) => r is Some && r.unwrap()@ == b,
        },
{
    hex::decode(s).ok()
}

/// `Debug` of an `alloy` `B256` word: "0x" and 64 lowercase hex digits.
#[verifier::external_body]
pub(crate) fn word_debug(w: &[u8; 32]) -> (s: String)
    ensures
        s@ == spec_word_debug(w@),
{
    format!("{:?}", alloy::primitives::B256::from(*w))
}

/// `U256::from_be_slice(..).to::<u64>()` of `alloy`: the big-endian number
/// of at most 32 bytes, which must fit in `u64` (the conversion panics
/// otherwise).
#[verifier::external_body]
pub(crate) fn be_to_u64(bytes: &[u8]) -> (v: u64)
    requires
        bytes@.len() <= 32,
        be_value(bytes@) <= u64::MAX,
    ensures
        v == be_value(bytes@),
{
    alloy::primitives::U256::from_be_slice(bytes).to::<u64>()
}

/// `U256::from_be_slice(..).to_string()` of `alloy`: the decimal digits of
/// the big-endian number of at most 32 bytes.
#[verifier::external_body]
pub(crate) fn be_to_decimal(bytes: &[u8]) -> (s: String)
    requires
        bytes@.len() <= 32,
    ensures
        s@ == decimal_digits(be_value(bytes@)),
{
    alloy::primitives::U256::from_be_slice(bytes).to_string()
}

} // verus!
