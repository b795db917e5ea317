//! SHA-256 digests and their hexadecimal form.
use vstd::prelude::*;
use vstd::string::{StringExecFns, StringSliceAdditionalSpecFns};
use vstd::utf8::encode_utf8;
use sha2::{Digest, Sha256};

verus! {

/// The SHA-256 digest of a byte sequence.
pub uninterp spec fn sha256(data: Seq<u8>) -> Seq<u8>;

/// The SHA-256 digest of `data`, as `Sha256::digest` of the `sha2` crate computes it:
/// 32 bytes that depend on the bytes of `data` alone.
#[verifier::external_body]
pub(crate) fn sha256_digest(data: &[u8]) -> (digest: [u8; 32])
    ensures
        digest@ == sha256(data@),
{
    Sha256::digest(data).into()
}

/// The lowercase hexadecimal digit of a number below 16.
pub open spec fn hex_digit(d: int) -> char {
    if d < 10 {
        (48 + d) as char
    } else {
        (87 + d) as char
    }
}

/// The hexadecimal form of a byte sequence: two lowercase digits for each byte, the high
/// digit first.
pub open spec fn hex_chars(bytes: Seq<u8>) -> Seq<char> {
    Seq::new(
        2 * bytes.len(),
        |i: int|
            if i % 2 == 0 {
                hex_digit(bytes[i / 2] as int / 16)
            } else {
                hex_digit(bytes[i / 2] as int % 16)
            },
    )
}

/// Whether a character is a lowercase hexadecimal digit.
pub open spec fn is_lower_hex(c: char) -> bool {
    ('0' <= c && c <= '9') || ('a' <= c && c <= 'f')
}

/// The hexadecimal form of `bytes`, as `hex::encode` gives it: each byte as two lowercase
/// hexadecimal digits, the high digit first.
#[verifier::external_body]
pub(crate) fn hex_encode(bytes: &[u8]) -> (s: String)
    ensures
        s@ == hex_chars(bytes@),
{
    hex::encode(bytes)
}

/// The hexadecimal form has two characters for each byte, all of them lowercase
/// hexadecimal digits.
pub proof fn lemma_hex_chars(bytes: Seq<u8>)
    ensures
        hex_chars(bytes).len() == 2 * bytes.len(),
        forall|i: int| 0 <= i < hex_chars(bytes).len() ==> is_lower_hex(#[trigger] hex_chars(bytes)[i]),
{
    assert forall|i: int| 0 <= i < hex_chars(bytes).len() implies is_lower_hex(
        #[trigger] hex_chars(bytes)[i],
    ) by {
        let b = bytes[i / 2] as int;
        lemma_hex_digit(b / 16);
        lemma_hex_digit(b % 16);
    }
}

/// The digit of a number below 16 is a lowercase hexadecimal digit.
pub proof fn lemma_hex_digit(d: int)
    requires
        0 <= d < 16,
    ensures
        is_lower_hex(hex_digit(d)),
{
    assert('0' as int == 48);
    assert('9' as int == 57);
    assert('a' as int == 97);
    assert('f' as int == 102);
}

/// The fingerprint of a manifest: the text `sha256:`, then the hexadecimal SHA-256 digest of
/// the manifest's bytes.
pub open spec fn fingerprint_of(json: Seq<char>) -> Seq<char> {
    "sha256:"@ + hex_chars(sha256(encode_utf8(json)))
}

/// The fingerprint of a manifest.
pub fn fingerprint(json: &str) -> (r: String)
    ensures
        r@ == fingerprint_of(json@),
        r@.len() == 71,
{
    let digest = sha256_digest(json.as_bytes());
    let hex = hex_encode(digest.as_slice());
    proof {
        reveal_strlit("sha256:");
        lemma_hex_chars(digest@);
    }
    String::from_str("sha256:").concat(hex.as_str())
}

/// The event hash of a manifest: the SHA-256 digest of the manifest's bytes.
pub fn evt_hash(json: &str) -> (r: [u8; 32])
    ensures
        r@ == sha256(encode_utf8(json@)),
{
    sha256_digest(json.as_bytes())
}

} // verus!
