//! Throttle keys: fixed-size digests that identify one admission bucket, and
//! the pass-through hasher that reads an already-final digest as its hash.

use sha2::Digest;
use vstd::prelude::*;

verus! {

/// Length in bytes of a throttle key's digest.
pub const DIGEST_LEN: usize = 32;

/// Number of leading digest bytes that form the lookup hash.
pub const HASH_PREFIX_LEN: usize = 8;

/// The name of the SHA-256 digest of a byte string.
pub uninterp spec fn sha256_of(data: Seq<u8>) -> Seq<u8>;

/// Relies on sha2::Sha256::digest: a 32-byte digest that depends on the input alone.
#[verifier::external_body]
fn sha256(data: &[u8]) -> (r: [u8; 32])
    ensures
        r@ == sha256_of(data@),
{
    sha2::Sha256::digest(data).into()
}

/// The little-endian value of the first eight bytes of `b`.
pub open spec fn le_u64_prefix(b: Seq<u8>) -> int
    recommends
        b.len() >= 8,
{
    b[0] as int + 256 * b[1] as int + 65536 * b[2] as int + 16777216 * b[3] as int
        + 4294967296 * b[4] as int + 1099511627776 * b[5] as int + 281474976710656 * b[6] as int
        + 72057594037927936 * b[7] as int
}

/// An opaque admission key: equality is defined over the raw digest bytes alone.
#[derive(Debug, Clone)]
pub struct ThrottleKey {
    pub hash: [u8; 32],
}

impl ThrottleKey {
    /// The lookup hash of this key.
    pub open spec fn spec_fast_hash(&self) -> u64 {
        le_u64_prefix(self.hash@) as u64
    }

    /// Digests a key input (the concatenated policy dimensions) into a key.
    pub fn derive(input: &[u8]) -> (r: ThrottleKey)
        ensures
            r.hash@ == sha256_of(input@),
    {
        ThrottleKey { hash: sha256(input) }
    }

    /// A key made of an existing digest.
    pub fn from_digest(hash: [u8; 32]) -> (r: ThrottleKey)
        ensures
            r.hash == hash,
    {
        ThrottleKey { hash }
    }

    /// A key holding the same digest.
    pub fn copy(&self) -> (r: ThrottleKey)
        ensures
            r.hash == self.hash,
    {
        ThrottleKey { hash: self.hash }
    }

    /// The raw digest bytes.
    pub fn as_ref(&self) -> (r: &[u8])
        ensures
            r@ == self.hash@,
    {
        self.hash.as_slice()
    }

    /// The lookup hash: the first eight digest bytes, read little-endian.
    pub fn fast_hash(&self) -> (r: u64)
        ensures
            r == self.spec_fast_hash(),
            r as int == le_u64_prefix(self.hash@),
    {
        let mut hasher = ThrottleKeyHasherBuilder::new().build_hasher();
        hasher.write(self.hash.as_slice());
        hasher.finish()
    }

    /// Whether two keys hold the same digest.
    pub fn eq(&self, other: &ThrottleKey) -> (r: bool)
        ensures
            r == (self.hash@ == other.hash@),
    {
        let mut i: usize = 0;
        while i < DIGEST_LEN
            invariant
                0 <= i <= DIGEST_LEN,
                self.hash@.len() == DIGEST_LEN,
                other.hash@.len() == DIGEST_LEN,
                forall|j: int| 0 <= j < i ==> self.hash@[j] == other.hash@[j],
            decreases DIGEST_LEN - i,
        {
            if self.hash[i] != other.hash[i] {
                return false;
            }
            i = i + 1;
        }
        assert(self.hash@ =~= other.hash@);
        true
    }
}

/// A hasher that takes an already-final digest and keeps its leading bytes.
#[derive(Debug, Default)]
pub struct ThrottleKeyHasher {
    hash: u64,
}

impl ThrottleKeyHasher {
    /// The hash recorded by the last write.
    pub closed spec fn value(&self) -> u64 {
        self.hash
    }

    pub fn finish(&self) -> (r: u64)
        ensures
            r == self.value(),
    {
        self.hash
    }

    /// Records the lookup hash of a digest. The input must be a digest of at
    /// least eight bytes: variable-length data is never rehashed here.
    pub fn write(&mut self, bytes: &[u8])
        requires
            bytes@.len() >= HASH_PREFIX_LEN,
        ensures
            final(self).value() as int == le_u64_prefix(bytes@),
    {
        let h: u64 = bytes[0] as u64 + 256 * (bytes[1] as u64) + 65536 * (bytes[2] as u64)
            + 16777216 * (bytes[3] as u64) + 4294967296 * (bytes[4] as u64)
            + 1099511627776 * (bytes[5] as u64) + 281474976710656 * (bytes[6] as u64)
            + 72057594037927936 * (bytes[7] as u64);
        self.hash = h;
    }
}

/// Builds the pass-through hasher for maps keyed by throttle keys.
#[derive(Debug, Clone, Default)]
pub struct ThrottleKeyHasherBuilder {}

impl ThrottleKeyHasherBuilder {
    pub fn new() -> (r: ThrottleKeyHasherBuilder) {
        ThrottleKeyHasherBuilder {  }
    }

    pub fn build_hasher(&self) -> (r: ThrottleKeyHasher)
        ensures
            r.value() == 0,
    {
        ThrottleKeyHasher { hash: 0 }
    }
}

/// For any digest of at least eight bytes, its lookup hash is the value of
/// its first eight bytes alone: what follows them never matters.
pub proof fn lemma_fast_hash_is_prefix(d: Seq<u8>, e: Seq<u8>)
    requires
        d.len() >= HASH_PREFIX_LEN,
        e.len() >= HASH_PREFIX_LEN,
        d.subrange(0, 8) == e.subrange(0, 8),
    ensures
        le_u64_prefix(d) == le_u64_prefix(e),
        0 <= le_u64_prefix(d) <= u64::MAX,
{
    assert(forall|i: int| 0 <= i < 8 ==> d[i] == d.subrange(0, 8)[i]);
    assert(forall|i: int| 0 <= i < 8 ==> e[i] == e.subrange(0, 8)[i]);
}

/// Two keys are equal exactly when their full digests are equal; equal keys
/// have equal lookup hashes, and keys derived from equal inputs are equal.
pub proof fn lemma_key_identity(a: ThrottleKey, b: ThrottleKey)
    ensures
        a.hash@ == b.hash@ ==> a.spec_fast_hash() == b.spec_fast_hash(),
        a.hash@ == b.hash@ <==> a.hash == b.hash,
{
    if a.hash@ == b.hash@ {
        assert(a.hash =~= b.hash);
    }
}

} // verus!
