//! Digests of object identifiers: SHA-256 (from `sha2`) written in lower-case
//! hex (by `hex`).

use vstd::prelude::*;

verus! {

/// The SHA-256 digest of `data`.
pub uninterp spec fn sha256_digest(data: Seq<u8>) -> Seq<u8>;

/// The lower-case hex digit for a nibble `n < 16`.
pub open spec fn hex_digit(n: int) -> char {
    if n == 0 {
        '0'
    } else if n == 1 {
        '1'
    } else if n == 2 {
        '2'
    } else if n == 3 {
        '3'
    } else if n == 4 {
        '4'
    } else if n == 5 {
        '5'
    } else if n == 6 {
        '6'
    } else if n == 7 {
        '7'
    } else if n == 8 {
        '8'
    } else if n == 9 {
        '9'
    } else if n == 10 {
        'a'
    } else if n == 11 {
        'b'
    } else if n == 12 {
        'c'
    } else if n == 13 {
        'd'
    } else if n == 14 {
        'e'
    } else {
        'f'
    }
}

/// `bytes` written in lower-case hex, two digits per byte, high nibble first.
pub open spec fn hex_lower(bytes: Seq<u8>) -> Seq<char>
    decreases bytes.len(),
{
    if bytes.len() == 0 {
        Seq::empty()
    } else {
        seq![hex_digit(bytes[0] as int / 16), hex_digit(bytes[0] as int % 16)] + hex_lower(bytes.drop_first())
    }
}

/// The hex form of `n` bytes has `2 * n` characters.
pub proof fn lemma_hex_lower_len(bytes: Seq<u8>)
    ensures
        hex_lower(bytes).len() == 2 * bytes.len(),
    decreases bytes.len(),
{
    if bytes.len() > 0 {
        lemma_hex_lower_len(bytes.drop_first());
    }
}

/// A hex digit is one of `0-9a-f`.
pub open spec fn is_hex_digit(c: char) -> bool {
    ('0' <= c && c <= '9') || ('a' <= c && c <= 'f')
}

/// Every character of the hex form is a lower-case hex digit.
pub proof fn lemma_hex_lower_alphabet(bytes: Seq<u8>)
    ensures
        forall|k: int| 0 <= k < hex_lower(bytes).len() ==> is_hex_digit(#[trigger] hex_lower(bytes)[k]),
    decreases bytes.len(),
{
    if bytes.len() > 0 {
        lemma_hex_lower_alphabet(bytes.drop_first());
        let head = seq![hex_digit(bytes[0] as int / 16), hex_digit(bytes[0] as int % 16)];
        let rest = hex_lower(bytes.drop_first());
        assert forall|k: int| 0 <= k < hex_lower(bytes).len() implies is_hex_digit(
            #[trigger] hex_lower(bytes)[k],
        ) by {
            if k >= 2 {
                assert(hex_lower(bytes)[k] == rest[k - 2]);
            }
        }
    }
}

/// Calls `sha2::Sha256::digest` (through the `sha2::Digest` trait). Trusted:
/// the digest is named by `sha256_digest` of the input bytes, and is 32 bytes
/// long, the output size of SHA-256.
#[verifier::external_body]
pub(crate) fn sha256(data: &[u8]) -> (r: Vec<u8>)
    ensures
        r@ == sha256_digest(data@),
        r@.len() == 32,
{
    <sha2::Sha256 as sha2::Digest>::digest(data).to_vec()
}

/// Calls `hex::encode`. Trusted: it writes each byte as two lower-case hex
/// digits, high nibble first, as the crate documents.
#[verifier::external_body]
pub(crate) fn hex_encode(data: &[u8]) -> (r: String)
    ensures
        r@ == hex_lower(data@),
{
    hex::encode(data)
}

} // verus!
