//! Signatures, message codes and identifiers that stand for keys.

use crate::hashing;
use crate::text;
use vstd::prelude::*;

verus! {

/// The longest key that a message code may be computed with.
pub const MAX_KEY_BYTES: u64 = 0x0fff_ffff_ffff_ffff;

/// The HMAC-SHA256 code of a message under a key.
pub uninterp spec fn hmac_of(key: Seq<u8>, message: Seq<u8>) -> Seq<u8>;

/// `ring::hmac::sign` under `ring::hmac::Key::new` with SHA-256: the code, 32 bytes, follows from
/// the key and the message. Both panic on inputs that SHA-256 cannot count, which the bounds
/// leave out.
#[verifier::external_body]
pub(crate) fn hmac_sign(key: &[u8], message: &[u8]) -> (r: Vec<u8>)
    requires
        key@.len() <= MAX_KEY_BYTES,
        message@.len() <= MAX_KEY_BYTES,
    ensures
        r@ == hmac_of(key@, message@),
        r@.len() == 32,
{
    let key = ring::hmac::Key::new(ring::hmac::HMAC_SHA256, key);
    ring::hmac::sign(&key, message).as_ref().to_vec()
}

/// Whether a code is accepted for a message under a key.
pub uninterp spec fn hmac_accepts(key: Seq<u8>, message: Seq<u8>, code: Seq<u8>) -> bool;

/// `ring::hmac::verify` with SHA-256 computes the code of the message and accepts exactly that
/// code; a message too long for SHA-256 is refused, whatever the code.
#[verifier::external_body]
pub(crate) fn hmac_verify(key: &[u8], message: &[u8], code: &[u8]) -> (r: bool)
    requires
        key@.len() <= MAX_KEY_BYTES,
    ensures
        r == hmac_accepts(key@, message@, code@),
        message@.len() <= MAX_KEY_BYTES ==> r == (code@ == hmac_of(key@, message@)),
{
    let key = ring::hmac::Key::new(ring::hmac::HMAC_SHA256, key);
    ring::hmac::verify(&key, message, code).is_ok()
}

/// Whether an Ed25519 signature of a message is valid under a public key.
pub uninterp spec fn ed25519_accepts(
    public_key: Seq<u8>,
    message: Seq<u8>,
    signature: Seq<u8>,
) -> bool;

/// `ring::signature::UnparsedPublicKey::verify` with Ed25519; whether it succeeds follows from
/// the key, the message and the signature.
#[verifier::external_body]
pub(crate) fn ed25519_verify(public_key: &[u8], message: &[u8], signature: &[u8]) -> (r: bool)
    ensures
        r == ed25519_accepts(public_key@, message@, signature@),
{
    let key = ring::signature::UnparsedPublicKey::new(&ring::signature::ED25519, public_key);
    key.verify(message, signature).is_ok()
}

/// Whether a text writes a UUID in one of its forms.
pub uninterp spec fn is_uuid(s: Seq<char>) -> bool;

/// `uuid::Uuid::parse_str` accepts the simple, hyphenated, braced and URN forms; whether it does
/// follows from the text.
#[verifier::external_body]
pub(crate) fn reads_as_uuid(s: &str) -> (r: bool)
    ensures
        r == is_uuid(s@),
{
    uuid::Uuid::parse_str(s).is_ok()
}

/// The hyphenated form of the 16 bytes of a UUID: lower-case hexadecimal digits in groups of
/// eight, four, four, four and twelve.
pub open spec fn uuid_text(b: Seq<u8>) -> Seq<char> {
    text::hex_text(b.subrange(0, 4)) + "-"@ + text::hex_text(b.subrange(4, 6)) + "-"@
        + text::hex_text(b.subrange(6, 8)) + "-"@ + text::hex_text(b.subrange(8, 10)) + "-"@
        + text::hex_text(b.subrange(10, 16))
}

/// `uuid::Uuid::from_bytes` and the `Display` of its hyphenated form write the 16 bytes in order.
#[verifier::external_body]
pub(crate) fn hyphenated(bytes: [u8; 16]) -> (r: String)
    ensures
        r@ == uuid_text(bytes@),
{
    uuid::Uuid::from_bytes(bytes).hyphenated().to_string()
}

/// The bytes of a digest's UUID: its first sixteen, with the version and the variant set.
pub open spec fn marked_bytes(digest: Seq<u8>) -> Seq<u8> {
    digest.take(16).update(6, (digest[6] & 0x0f) | 0x80).update(8, (digest[8] & 0x3f) | 0x80)
}

/// The identifier of the device that holds a key.
pub open spec fn device_id_of_key(public_key: Seq<u8>) -> Seq<char> {
    uuid_text(marked_bytes(hashing::sha256_of(public_key)))
}

/// The identifier of the device that holds a key.
pub fn derive_device_id(public_key: &[u8]) -> (r: String)
    ensures
        r@ == device_id_of_key(public_key@),
{
    let d = hashing::sha256(public_key);
    let bytes: [u8; 16] = [
        d[0],
        d[1],
        d[2],
        d[3],
        d[4],
        d[5],
        (d[6] & 0x0f) | 0x80,
        d[7],
        (d[8] & 0x3f) | 0x80,
        d[9],
        d[10],
        d[11],
        d[12],
        d[13],
        d[14],
        d[15],
    ];
    assert(bytes@ =~= marked_bytes(d@));
    hyphenated(bytes)
}

/// A byte string of known length as an array.
pub(crate) fn array_of<const N: usize>(v: &Vec<u8>) -> (r: [u8; N])
    requires
        v@.len() == N,
    ensures
        r@ == v@,
{
    let mut r: [u8; N] = [0u8;N];
    let mut i: usize = 0;
    while i < N
        invariant
            i <= N,
            v@.len() == N,
            r@.len() == N,
            forall|j: int| 0 <= j < i ==> r@[j] == v@[j],
        decreases N - i,
    {
        r[i] = v[i];
        i = i + 1;
    }
    assert(r@ =~= v@);
    r
}


/// Whether a text is the hyphenated form of some sixteen bytes.
pub open spec fn is_hyphenated(s: Seq<char>) -> bool {
    exists|b: Seq<u8>| b.len() == 16 && s == #[trigger] uuid_text(b)
}

/// `uuid::Uuid::new_v4` makes sixteen random bytes and its `Display` writes them in hyphenated
/// form. Nothing is said of which bytes.
#[verifier::external_body]
pub(crate) fn random_uuid() -> (r: String)
    ensures
        is_hyphenated(r@),
{
    uuid::Uuid::new_v4().to_string()
}

/// A new identifier that starts with `prefix`.
pub fn new_id(prefix: &str) -> (r: String)
    ensures
        exists|id: Seq<char>| #[trigger] is_hyphenated(id) && r@ == prefix@ + "-"@ + id,
{
    let id = random_uuid();
    text::line(prefix).add("-").add(id.as_str()).done()
}

proof fn lemma_hex_digits(b: Seq<u8>, i: int)
    requires
        0 <= i < b.len(),
    ensures
        text::hex_text(b).len() == 2 * b.len(),
        text::hex_text(b)[2 * i] == text::hex_char(b[i] as nat / 16),
        text::hex_text(b)[2 * i + 1] == text::hex_char(b[i] as nat % 16),
    decreases b.len(),
{
    let front = b.drop_last();
    if i < front.len() {
        lemma_hex_digits(front, i);
    } else if front.len() > 0 {
        lemma_hex_digits(front, 0);
    } else {
        assert(text::hex_text(front).len() == 0);
    }
}

/// The identifier of a device is the hyphenated form of the digest of its key: 36 characters in
/// groups of eight, four, four, four and twelve, marked as version eight of the usual variant.
pub proof fn law_device_ids_are_marked_digests(public_key: Seq<u8>)
    requires
        hashing::sha256_of(public_key).len() == 32,
    ensures
        ({
            let id = device_id_of_key(public_key);
            &&& id.len() == 36
            &&& id[8] == '-' && id[13] == '-' && id[18] == '-' && id[23] == '-'
            &&& id[14] == '8'
            &&& id[19] == '8' || id[19] == '9' || id[19] == 'a' || id[19] == 'b'
            &&& forall|i: int|
                0 <= i < 4 ==> #[trigger] id[2 * i] == text::hex_char(
                    hashing::sha256_of(public_key)[i] as nat / 16,
                )
            &&& forall|i: int|
                10 <= i < 16 ==> #[trigger] id[2 * i + 4] == text::hex_char(
                    hashing::sha256_of(public_key)[i] as nat / 16,
                )
        }),
{
    let d = hashing::sha256_of(public_key);
    let b = marked_bytes(d);
    let sixth = d[6];
    let eighth = d[8];
    assert(((sixth & 0x0f) | 0x80) / 16 == 8u8) by (bit_vector);
    assert({
        let x = ((eighth & 0x3f) | 0x80) / 16;
        x == 8u8 || x == 9u8 || x == 10u8 || x == 11u8
    }) by (bit_vector);
    reveal_strlit("-");
    lemma_hex_digits(b.subrange(0, 4), 0);
    lemma_hex_digits(b.subrange(4, 6), 0);
    lemma_hex_digits(b.subrange(6, 8), 0);
    lemma_hex_digits(b.subrange(8, 10), 0);
    lemma_hex_digits(b.subrange(10, 16), 0);
    let first = text::hex_text(b.subrange(0, 4));
    let third = text::hex_text(b.subrange(6, 8));
    let fourth = text::hex_text(b.subrange(8, 10));
    let last = text::hex_text(b.subrange(10, 16));
    let id = device_id_of_key(public_key);
    assert(id[14] == third[0]);
    assert(id[19] == fourth[0]);
    assert(b.subrange(6, 8)[0] == b[6] && b.subrange(8, 10)[0] == b[8]);
    assert forall|i: int| 0 <= i < 4 implies #[trigger] id[2 * i] == text::hex_char(
        d[i] as nat / 16,
    ) by {
        lemma_hex_digits(b.subrange(0, 4), i);
        assert(id[2 * i] == first[2 * i]);
        assert(b.subrange(0, 4)[i] == d[i]);
    }
    assert forall|i: int| 10 <= i < 16 implies #[trigger] id[2 * i + 4] == text::hex_char(
        d[i] as nat / 16,
    ) by {
        lemma_hex_digits(b.subrange(10, 16), i - 10);
        assert(id[2 * i + 4] == last[2 * (i - 10)]);
        assert(b.subrange(10, 16)[i - 10] == d[i]);
    }
}

} // verus!
