//! Binary values in text.

use vstd::prelude::*;

verus! {

/// The URL-safe base64 text of a byte string, without padding.
pub uninterp spec fn base64_text(bytes: Seq<u8>) -> Seq<char>;

/// The bytes that a URL-safe base64 text without padding stands for.
pub uninterp spec fn base64_bytes(s: Seq<char>) -> Option<Seq<u8>>;

/// What an optional byte string holds.
pub open spec fn bytes_view(o: Option<Vec<u8>>) -> Option<Seq<u8>> {
    match o {
        Some(v) => Some(v@),
        None => None,
    }
}

/// The longest byte string that is encoded.
pub const MAX_ENCODED_BYTES: usize = 0x1000_0000;

/// `base64::Engine::encode` with the URL-safe alphabet and no padding; decoding its text with
/// the same engine gives the bytes back. It panics where the text would not fit into memory,
/// which the bound leaves out.
#[verifier::external_body]
pub(crate) fn encode_base64(bytes: &[u8]) -> (r: String)
    requires
        bytes@.len() <= MAX_ENCODED_BYTES,
    ensures
        r@ == base64_text(bytes@),
        base64_bytes(r@) == Some(bytes@),
{
    base64::Engine::encode(&base64::prelude::BASE64_URL_SAFE_NO_PAD, bytes)
}

/// `base64::Engine::decode` with the URL-safe alphabet and no padding gives the bytes, or
/// nothing for a text that is not such an encoding.
#[verifier::external_body]
pub(crate) fn decode_base64(s: &str) -> (r: Option<Vec<u8>>)
    ensures
        bytes_view(r) == base64_bytes(s@),
{
    base64::Engine::decode(&base64::prelude::BASE64_URL_SAFE_NO_PAD, s).ok()
}

/// The bytes of a base64 text, if there are exactly `size` of them.
pub open spec fn exact_bytes(s: Seq<char>, size: nat) -> Option<Seq<u8>> {
    match base64_bytes(s) {
        Some(bytes) => if bytes.len() == size {
            Some(bytes)
        } else {
            None
        },
        None => None,
    }
}

pub fn decode_exact(s: &str, size: usize) -> (r: Option<Vec<u8>>)
    ensures
        bytes_view(r) == exact_bytes(s@, size as nat),
{
    match decode_base64(s) {
        Some(bytes) => if bytes.len() == size {
            Some(bytes)
        } else {
            None
        },
        None => None,
    }
}

/// A text as a JSON string, quotes included.
pub uninterp spec fn json_string(s: Seq<char>) -> Seq<char>;

/// `serde_json::Value`'s `Display` writes a text as a JSON string; which characters it escapes,
/// and how, is only named.
#[verifier::external_body]
pub(crate) fn json_text(s: &str) -> (r: String)
    ensures
        r@ == json_string(s@),
{
    serde_json::Value::from(s).to_string()
}

} // verus!
