//! SHA-256 over a stream of bytes, computed by the `sha2` crate.

use vstd::prelude::*;

verus! {

/// The longest input that has a digest, in bytes: the digest covers the length in bits, as 64 bits.
pub const MAX_INPUT_LEN: u64 = 0x1fff_ffff_ffff_ffff;

/// A streaming SHA-256 computation: the hasher of the `sha2` crate.
#[verifier::external_body]
pub struct Sha256Hasher {
    inner: sha2::Sha256,
}

/// The bytes that a hasher has processed.
pub uninterp spec fn processed_bytes(hasher: Sha256Hasher) -> Seq<u8>;

/// The SHA-256 digest of bytes.
pub uninterp spec fn sha256(bytes: Seq<u8>) -> Seq<u8>;

impl View for Sha256Hasher {
    type V = Seq<u8>;

    /// The bytes hashed so far.
    open spec fn view(&self) -> Seq<u8> {
        processed_bytes(*self)
    }
}

/// `Digest::new` of `Sha256` gives a hasher that has processed nothing.
#[verifier::external_body]
fn new_hasher() -> (hasher: Sha256Hasher)
    ensures
        processed_bytes(hasher) == Seq::<u8>::empty(),
{
    Sha256Hasher { inner: <sha2::Sha256 as sha2::Digest>::new() }
}

/// `Digest::update` processes the bytes after those that were processed before. The hasher counts
/// its blocks of 64 bytes in a `u64`.
#[verifier::external_body]
fn update_hasher(hasher: &mut Sha256Hasher, bytes: &[u8])
    requires
        processed_bytes(*old(hasher)).len() + bytes@.len() <= u64::MAX,
    ensures
        processed_bytes(*final(hasher)) == processed_bytes(*old(hasher)) + bytes@,
{
    sha2::Digest::update(&mut hasher.inner, bytes)
}

/// `Digest::finalize` on a clone of the hasher gives the 32 bytes of the digest of what it has
/// processed, and leaves the hasher as it is. The number of bits must fit in a `u64`.
#[verifier::external_body]
fn finish_hasher(hasher: &Sha256Hasher) -> (digest: [u8; 32])
    requires
        processed_bytes(*hasher).len() <= MAX_INPUT_LEN,
    ensures
        digest@ == sha256(processed_bytes(*hasher)),
{
    sha2::Digest::finalize(hasher.inner.clone()).into()
}

impl Sha256Hasher {
    /// A hasher of nothing.
    pub fn new() -> (hasher: Self)
        ensures
            hasher@ == Seq::<u8>::empty(),
    {
        new_hasher()
    }

    /// Hashes more bytes.
    pub fn update(&mut self, bytes: &[u8])
        requires
            old(self)@.len() + bytes@.len() <= u64::MAX,
        ensures
            final(self)@ == old(self)@ + bytes@,
    {
        update_hasher(self, bytes);
    }

    /// The digest of the bytes hashed so far.
    pub fn digest(&self) -> (digest: [u8; 32])
        requires
            self@.len() <= MAX_INPUT_LEN,
        ensures
            digest@ == sha256(self@),
    {
        finish_hasher(self)
    }
}

/// The digest of `bytes`.
pub fn sha256_bytes(bytes: &[u8]) -> (digest: [u8; 32])
    requires
        bytes@.len() <= MAX_INPUT_LEN,
    ensures
        digest@ == sha256(bytes@),
{
    let mut hasher = Sha256Hasher::new();
    hasher.update(bytes);
    assert(hasher@ =~= bytes@);
    hasher.digest()
}

} // verus!
