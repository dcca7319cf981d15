//! Certificate fingerprints: the lowercase hex SHA-1 digest of the DER bytes.

use vstd::prelude::*;
use sha1::Digest;

verus! {

/// The SHA-1 digest of `data`, as computed by the `sha1` crate.
pub uninterp spec fn sha1_digest_of(data: Seq<u8>) -> Seq<u8>;

/// Calls `<sha1::Sha1 as Digest>::digest`; the result is the named digest
/// of the input, which SHA-1 always makes 20 bytes long.
#[verifier::external_body]
fn sha1_digest(data: &[u8]) -> (r: Vec<u8>)
    ensures
        r@ == sha1_digest_of(data@),
        r@.len() == 20,
{
    sha1::Sha1::digest(data).to_vec()
}

/// The lowercase hexadecimal digit for `n` (0 to 15).
pub open spec fn hex_digit(n: int) -> char {
    if n < 10 {
        (48 + n) as char
    } else {
        (87 + n) as char
    }
}

/// Each byte as two lowercase hexadecimal digits, most significant first.
pub open spec fn hex_lower(bytes: Seq<u8>) -> Seq<char>
    decreases bytes.len(),
{
    if bytes.len() == 0 {
        Seq::empty()
    } else {
        hex_lower(bytes.drop_last()) + seq![hex_digit(bytes.last() as int / 16), hex_digit(bytes.last() as int % 16)]
    }
}

/// Calls `hex::encode`, which writes each byte as two lowercase hex digits.
#[verifier::external_body]
fn hex_encode(data: &[u8]) -> (r: String)
    ensures
        r@ == hex_lower(data@),
{
    hex::encode(data)
}

/// The fingerprint of a certificate: the SHA-1 digest of its DER encoding,
/// in lowercase hex.
pub fn certificate_fingerprint(der: &[u8]) -> (r: String)
    ensures
        r@ == hex_lower(sha1_digest_of(der@)),
        r@.len() == 40,
{
    let digest = sha1_digest(der);
    proof {
        lemma_hex_lower_len(digest@);
    }
    hex_encode(digest.as_slice())
}

/// Each byte takes two hex digits.
pub proof fn lemma_hex_lower_len(b: Seq<u8>)
    ensures
        hex_lower(b).len() == 2 * b.len(),
    decreases b.len(),
{
    if b.len() > 0 {
        lemma_hex_lower_len(b.drop_last());
    }
}

} // verus!
