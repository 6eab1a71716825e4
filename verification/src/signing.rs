//! HMAC-SHA256 signing of the pre-sign string, base64-encoded.
//!
//! The digest and the base64 alphabet come from outside crates; their
//! results are named by uninterpreted functions, so every contract above
//! them speaks of the same values the crates compute.

use vstd::prelude::*;

verus! {

use vstd::string::*;
use vstd::utf8::encode_utf8;

/// The HMAC-SHA256 tag for a key and a message, as `ring` computes it: a
/// function of the two byte sequences alone.
pub uninterp spec fn hmac_sha256_of(key: Seq<u8>, msg: Seq<u8>) -> Seq<u8>;

/// The base64 text (RFC 4648, with padding) for a byte sequence, as
/// `data_encoding` computes it: a function of the bytes alone.
pub uninterp spec fn base64_of(bytes: Seq<u8>) -> Seq<char>;

/// Relies on `ring::hmac`: `Key::new` with `HMAC_SHA256` and `hmac::sign`
/// compute the HMAC-SHA256 tag of the message under the key, a 32-byte value
/// determined by the key and message bytes alone.  Inputs anywhere near the
/// SHA-256 length limit are left out, as `ring` panics on them.
#[verifier::external_body]
fn hmac_sha256(key: &[u8], msg: &[u8]) -> (r: Vec<u8>)
    requires
        key@.len() < 0x1000_0000_0000_0000,
        msg@.len() < 0x1000_0000_0000_0000,
    ensures
        r@ == hmac_sha256_of(key@, msg@),
        r@.len() == 32,
{
    let k = ring::hmac::Key::new(ring::hmac::HMAC_SHA256, key);
    let tag = ring::hmac::sign(&k, msg);
    tag.as_ref().to_vec()
}

/// A character of the padded base64 alphabet.
pub open spec fn is_base64_char(c: char) -> bool {
    ('A' <= c <= 'Z') || ('a' <= c <= 'z') || ('0' <= c <= '9') || c == '+' || c == '/' || c
        == '='
}

/// Relies on `data_encoding::BASE64`: `encode` yields the padded base64 text
/// of the input (RFC 4648): ASCII over `A-Z a-z 0-9 + / =`, four characters
/// for every started group of three bytes, `=`-padded to that width — one
/// trailing `=` when the input length is 2 mod 3, two when it is 1 mod 3 —
/// and determined by the input bytes alone.  `encode` asserts that the
/// input length stays under `usize::MAX / 512`.
#[verifier::external_body]
fn base64_encode(bytes: &[u8]) -> (r: String)
    requires
        bytes@.len() <= usize::MAX / 512,
    ensures
        r@ == base64_of(bytes@),
        r@.len() == 4 * ((bytes@.len() + 2) / 3),
        r.is_ascii(),
        forall|i: int| 0 <= i < r@.len() ==> is_base64_char(#[trigger] r@[i]),
        bytes@.len() % 3 == 2 ==> r@[r@.len() - 1] == '=',
        bytes@.len() % 3 == 1 ==> r@[r@.len() - 1] == '=' && r@[r@.len() - 2] == '=',
{
    data_encoding::BASE64.encode(bytes)
}

/// Sign a message with a secret: the base64 text of the HMAC-SHA256 tag of
/// the message's UTF-8 bytes under the secret's UTF-8 bytes.  The base64
/// text of a 32-byte tag is always 44 characters of the base64 alphabet
/// ending in one `=`.
pub fn sign_hmac_sha256_base64(secret: &str, message: &str) -> (r: String)
    requires
        encode_utf8(secret@).len() < 0x1000_0000_0000_0000,
        encode_utf8(message@).len() < 0x1000_0000_0000_0000,
    ensures
        r@ == base64_of(hmac_sha256_of(encode_utf8(secret@), encode_utf8(message@))),
        r@.len() == 44,
        forall|i: int| 0 <= i < r@.len() ==> is_base64_char(#[trigger] r@[i]),
        r@[43] == '=',
{
    let tag = hmac_sha256(secret.as_bytes(), message.as_bytes());
    base64_encode(tag.as_slice())
}

} // verus!
