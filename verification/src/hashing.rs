//! SHA-256 digests rendered as lowercase hexadecimal text.

use vstd::prelude::*;
use vstd::utf8::encode_utf8;

verus! {

/// The SHA-256 digest of `data` (32 bytes), as computed by the `sha2` crate.
pub uninterp spec fn sha256_spec(data: Seq<u8>) -> Seq<u8>;

/// SHA-256 of `data`.
///
/// Trusted: calls `sha2::Sha256::digest`. The result is named `sha256_spec`
/// of the input; its length, 32 bytes, is the output size that `sha2`
/// declares for `Sha256`.
#[verifier::external_body]
pub(crate) fn sha256(data: &[u8]) -> (r: Vec<u8>)
    ensures
        r@ == sha256_spec(data@),
        r@.len() == 32,
{
    <sha2::Sha256 as sha2::Digest>::digest(data).to_vec()
}

/// The lowercase hexadecimal digit for a value below 16.
pub open spec fn hex_digit(n: int) -> char {
    if n == 0 { '0' } else if n == 1 { '1' } else if n == 2 { '2' } else if n == 3 { '3' }
    else if n == 4 { '4' } else if n == 5 { '5' } else if n == 6 { '6' } else if n == 7 { '7' }
    else if n == 8 { '8' } else if n == 9 { '9' } else if n == 10 { 'a' } else if n == 11 { 'b' }
    else if n == 12 { 'c' } else if n == 13 { 'd' } else if n == 14 { 'e' } else { 'f' }
}

/// Lowercase hexadecimal text of a byte sequence: two digits per byte, high
/// nibble first.
pub open spec fn hex_lower(bytes: Seq<u8>) -> Seq<char>
    decreases bytes.len(),
{
    if bytes.len() == 0 {
        Seq::empty()
    } else {
        seq![hex_digit(bytes[0] as int / 16), hex_digit(bytes[0] as int % 16)] + hex_lower(bytes.drop_first())
    }
}

pub proof fn lemma_hex_lower_len(bytes: Seq<u8>)
    ensures
        hex_lower(bytes).len() == 2 * bytes.len(),
    decreases bytes.len(),
{
    if bytes.len() > 0 {
        lemma_hex_lower_len(bytes.drop_first());
    }
}

/// Hexadecimal encoding of `bytes`.
///
/// Trusted: calls `hex::encode`, which the `hex` crate documents as encoding
/// the data as a hex string using lowercase characters, two per byte.
#[verifier::external_body]
pub(crate) fn hex_encode(bytes: &[u8]) -> (r: String)
    ensures
        r@ == hex_lower(bytes@),
{
    hex::encode(bytes)
}

/// Lowercase hex SHA-256 digest of the UTF-8 encoding of `text`.
pub open spec fn sha256_hex_of(text: Seq<char>) -> Seq<char> {
    hex_lower(sha256_spec(encode_utf8(text)))
}

/// The lowercase hex SHA-256 digest of the UTF-8 bytes of `text`.
pub fn sha256_hex(text: &str) -> (r: String)
    ensures
        r@ == sha256_hex_of(text@),
        r@.len() == 64,
{
    let bytes = text.as_bytes();
    let d = sha256(bytes);
    proof {
        lemma_hex_lower_len(d@);
    }
    hex_encode(d.as_slice())
}

} // verus!

verus! {

/// Appends the bytes of `s` to `v`.
pub fn append_bytes(v: &mut Vec<u8>, s: &[u8])
    ensures
        final(v)@ == old(v)@ + s@,
{
    let mut i: usize = 0;
    while i < s.len()
        invariant
            i <= s@.len(),
            v@ == old(v)@ + s@.take(i as int),
        decreases s@.len() - i,
    {
        v.push(s[i]);
        proof {
            assert(s@.take(i as int + 1) =~= s@.take(i as int).push(s@[i as int]));
        }
        i += 1;
    }
    proof {
        assert(s@.take(s@.len() as int) =~= s@);
    }
}

/// Lowercase hex SHA-256 digest of a byte sequence.
pub open spec fn sha256_hex_bytes(bytes: Seq<u8>) -> Seq<char> {
    hex_lower(sha256_spec(bytes))
}

/// The lowercase hex SHA-256 digest of `bytes`.
pub fn sha256_hex_of_bytes(bytes: &[u8]) -> (r: String)
    ensures
        r@ == sha256_hex_bytes(bytes@),
        r@.len() == 64,
{
    let d = sha256(bytes);
    proof {
        lemma_hex_lower_len(d@);
    }
    hex_encode(d.as_slice())
}

} // verus!
