//! Digests and identifiers derived from them.

use crate::text;
use sha2::Digest;
use vstd::prelude::*;
use vstd::string::*;
use vstd::utf8::*;

verus! {

/// The SHA-256 digest of a byte string.
pub uninterp spec fn sha256_of(bytes: Seq<u8>) -> Seq<u8>;

/// `sha2::Sha256::digest` computes the SHA-256 digest of the bytes, which has 32 bytes.
#[verifier::external_body]
pub(crate) fn sha256(bytes: &[u8]) -> (r: Vec<u8>)
    ensures
        r@ == sha256_of(bytes@),
        r@.len() == 32,
{
    sha2::Sha256::digest(bytes).to_vec()
}

/// The digest of a byte string in hexadecimal digits.
pub open spec fn sha256_hex(bytes: Seq<u8>) -> Seq<char> {
    text::hex_text(sha256_of(bytes))
}

pub fn hex_sha256(bytes: &[u8]) -> (r: String)
    ensures
        r@ == sha256_hex(bytes@),
        r@.len() == 64,
{
    let digest = sha256(bytes);
    proof {
        lemma_hex_length(digest@);
    }
    text::hex_of(digest.as_slice())
}

/// The most bytes that are digested piece by piece: SHA-256 counts bits in 64 bits.
pub const MAX_DIGEST_BYTES: u64 = 0x1fff_ffff_ffff_ffff;

/// The state of `sha2::Sha256`, whose type Verus cannot be told of.
#[verifier::external_body]
#[derive(Debug)]
pub struct Hasher {
    inner: sha2::Sha256,
}

/// The bytes that a digest has been fed so far.
pub uninterp spec fn hashed(h: Hasher) -> Seq<u8>;

/// `sha2::Sha256::new` starts a digest that has been fed nothing.
#[verifier::external_body]
fn start_hash() -> (r: Hasher)
    ensures
        hashed(r) == Seq::<u8>::empty(),
{
    Hasher { inner: sha2::Sha256::new() }
}

/// `sha2::Sha256::update` feeds a digest the bytes of a piece behind those that it has.
#[verifier::external_body]
fn hash_piece(h: &mut Hasher, piece: &[u8])
    ensures
        hashed(*final(h)) == hashed(*old(h)) + piece@,
{
    h.inner.update(piece)
}

/// `sha2::Sha256::finalize` gives the SHA-256 digest of all that was fed, which has 32 bytes. It
/// counts the bits in 64 bits without a check, so more must not have been fed.
#[verifier::external_body]
fn finish_hash(h: Hasher) -> (r: Vec<u8>)
    requires
        hashed(h).len() <= MAX_DIGEST_BYTES,
    ensures
        r@ == sha256_of(hashed(h)),
        r@.len() == 32,
{
    h.inner.finalize().to_vec()
}

/// The size and the digest of a byte string that comes in pieces. It stands for the bytes that
/// have come so far.
#[derive(Debug)]
pub struct FileDigest {
    size: u64,
    hasher: Hasher,
}

impl View for FileDigest {
    type V = Seq<u8>;

    closed spec fn view(&self) -> Seq<u8> {
        hashed(self.hasher)
    }
}

impl FileDigest {
    #[verifier::type_invariant]
    spec fn inv(self) -> bool {
        self.size == hashed(self.hasher).len() && self.size <= MAX_DIGEST_BYTES
    }

    pub fn new() -> (r: Self)
        ensures
            r@ == Seq::<u8>::empty(),
    {
        FileDigest { size: 0, hasher: start_hash() }
    }

    /// Takes the next piece in, unless it is one too many.
    pub fn take_in(self, piece: &[u8]) -> (r: Result<Self, Self>)
        ensures
            if self@.len() + piece@.len() <= MAX_DIGEST_BYTES {
                r matches Ok(d) && d@ == self@ + piece@
            } else {
                r matches Err(d) && d@ == self@
            },
    {
        proof {
            use_type_invariant(&self);
        }
        let n: usize = piece.len();
        if n as u64 > MAX_DIGEST_BYTES - self.size {
            return Err(self);
        }
        let size: u64 = self.size + n as u64;
        let mut hasher = self.hasher;
        hash_piece(&mut hasher, piece);
        Ok(FileDigest { size, hasher })
    }

    pub fn size_bytes(&self) -> (r: u64)
        ensures
            r == self@.len(),
    {
        proof {
            use_type_invariant(self);
        }
        self.size
    }

    /// The digest of all that has come, in hexadecimal digits.
    pub fn finish(self) -> (r: String)
        ensures
            r@ == sha256_hex(self@),
            r@.len() == 64,
    {
        proof {
            use_type_invariant(&self);
        }
        let digest = finish_hash(self.hasher);
        proof {
            lemma_hex_length(digest@);
        }
        text::hex_of(digest.as_slice())
    }
}

/// The first `count` bytes in hexadecimal digits, or all of them where there are fewer.
pub fn hex_prefix(bytes: &[u8], count: usize) -> (r: String)
    ensures
        r@ == text::hex_text(
            bytes@.take(if count < bytes@.len() {
                count as int
            } else {
                bytes@.len() as int
            }),
        ),
{
    let n: usize = bytes.len();
    let to: usize = if count < n { count } else { n };
    let part = vstd::slice::slice_subrange(bytes, 0, to);
    proof {
        assert(part@ =~= bytes@.take(to as int));
    }
    text::hex_of(part)
}

proof fn lemma_hex_length(bytes: Seq<u8>)
    ensures
        text::hex_text(bytes).len() == 2 * bytes.len(),
    decreases bytes.len(),
{
    if bytes.len() > 0 {
        lemma_hex_length(bytes.drop_last());
    }
}

/// The identifier of an asset whose identity is fixed by a text.
pub open spec fn asset_id(prefix: Seq<char>, identity: Seq<char>) -> Seq<char> {
    prefix + "-"@ + sha256_hex(encode_utf8(identity)).take(20)
}

pub fn stable_asset_id(prefix: &str, identity: &str) -> (r: String)
    ensures
        r@ == asset_id(prefix@, identity@),
{
    let digest = hex_sha256(identity.as_bytes());
    let chars = text::chars_of(digest.as_str());
    let short = text::string_between(chars.as_slice(), 0, 20);
    proof {
        assert(chars@.subrange(0, 20) =~= chars@.take(20));
    }
    text::line(prefix).add("-").add(short.as_str()).done()
}

/// Appends `part` to `whole`.
pub fn extend(whole: &mut Vec<u8>, part: &[u8])
    ensures
        final(whole)@ == old(whole)@ + part@,
{
    let ghost before = whole@;
    let mut i: usize = 0;
    while i < part.len()
        invariant
            i <= part@.len(),
            whole@ == before + part@.take(i as int),
        decreases part@.len() - i,
    {
        whole.push(part[i]);
        proof {
            assert(part@.take(i + 1) =~= part@.take(i as int).push(part@[i as int]));
            assert(whole@ =~= before + part@.take(i + 1));
        }
        i = i + 1;
    }
    proof {
        assert(part@.take(part@.len() as int) =~= part@);
        assert(whole@ =~= before + part@);
    }
}

} // verus!
