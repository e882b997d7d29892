//! Checksums of files that are read block by block.

use vstd::prelude::*;

use crate::encoding::{hex_encode, hex_encoded};

verus! {

/// The number of bytes from which a checksum can no longer be taken: their number of
/// bits does not fit in the 64 bits that the algorithms have for it.
pub const CHECKSUM_LIMIT: u64 = 0x2000_0000_0000_0000;

/// A `sha2::Sha256` hasher.
#[verifier::external_body]
pub struct Sha256Hasher {
    inner: sha2::Sha256,
}

/// An `md5::Md5` hasher.
#[verifier::external_body]
pub struct Md5Hasher {
    inner: md5::Md5,
}

/// The bytes that were handed to a SHA-256 hasher, in order.
pub uninterp spec fn sha256_fed(hasher: Sha256Hasher) -> Seq<u8>;

/// The bytes that were handed to an MD5 hasher, in order.
pub uninterp spec fn md5_fed(hasher: Md5Hasher) -> Seq<u8>;

/// The SHA-256 digest of bytes.
pub uninterp spec fn sha256_digest(bytes: Seq<u8>) -> Seq<u8>;

/// The MD5 digest of bytes.
pub uninterp spec fn md5_digest(bytes: Seq<u8>) -> Seq<u8>;

/// `sha2::Digest::new` for `sha2::Sha256`: a hasher that was handed nothing yet.
#[verifier::external_body]
pub(crate) fn sha256_new() -> (r: Sha256Hasher)
    ensures
        sha256_fed(r) == Seq::<u8>::empty(),
{
    Sha256Hasher { inner: sha2::Digest::new() }
}

/// `sha2::Digest::update` for `sha2::Sha256`: hands over the bytes behind those that
/// were handed over before.
#[verifier::external_body]
pub(crate) fn sha256_update(hasher: &mut Sha256Hasher, bytes: &[u8])
    requires
        sha256_fed(*old(hasher)).len() + bytes@.len() < CHECKSUM_LIMIT,
    ensures
        sha256_fed(*final(hasher)) == sha256_fed(*old(hasher)) + bytes@,
{
    sha2::Digest::update(&mut hasher.inner, bytes)
}

/// `sha2::Digest::finalize` for `sha2::Sha256`: the digest of the bytes that were handed
/// over, of 32 bytes. It depends on those bytes alone, not on how they were cut into
/// blocks; how it is computed is not said.
#[verifier::external_body]
pub(crate) fn sha256_finalize(hasher: Sha256Hasher) -> (r: Vec<u8>)
    requires
        sha256_fed(hasher).len() < CHECKSUM_LIMIT,
    ensures
        r@ == sha256_digest(sha256_fed(hasher)),
        r@.len() == 32,
{
    sha2::Digest::finalize(hasher.inner).to_vec()
}

/// `md5::Digest::new` for `md5::Md5`: a hasher that was handed nothing yet.
#[verifier::external_body]
pub(crate) fn md5_new() -> (r: Md5Hasher)
    ensures
        md5_fed(r) == Seq::<u8>::empty(),
{
    Md5Hasher { inner: md5::Digest::new() }
}

/// `md5::Digest::update` for `md5::Md5`: hands over the bytes behind those that were
/// handed over before.
#[verifier::external_body]
pub(crate) fn md5_update(hasher: &mut Md5Hasher, bytes: &[u8])
    requires
        md5_fed(*old(hasher)).len() + bytes@.len() < CHECKSUM_LIMIT,
    ensures
        md5_fed(*final(hasher)) == md5_fed(*old(hasher)) + bytes@,
{
    md5::Digest::update(&mut hasher.inner, bytes)
}

/// `md5::Digest::finalize` for `md5::Md5`: the digest of the bytes that were handed
/// over, of 16 bytes. It depends on those bytes alone, not on how they were cut into
/// blocks; how it is computed is not said.
#[verifier::external_body]
pub(crate) fn md5_finalize(hasher: Md5Hasher) -> (r: Vec<u8>)
    requires
        md5_fed(hasher).len() < CHECKSUM_LIMIT,
    ensures
        r@ == md5_digest(md5_fed(hasher)),
        r@.len() == 16,
{
    md5::Digest::finalize(hasher.inner).to_vec()
}

/// The kinds of checksums.
#[derive(Debug, Clone, Copy, PartialEq, Eq, Structural)]
pub enum Algorithm {
    Sha256,
    Md5,
}

/// The checksum of bytes as text.
pub open spec fn checksum_text(algorithm: Algorithm, bytes: Seq<u8>) -> Seq<char> {
    match algorithm {
        Algorithm::Sha256 => hex_encoded(sha256_digest(bytes)),
        Algorithm::Md5 => hex_encoded(md5_digest(bytes)),
    }
}

/// A hasher of either kind.
enum AnyHasher {
    Sha256(Sha256Hasher),
    Md5(Md5Hasher),
}

/// The checksum of a file that is being read.
pub struct FileChecksum {
    hasher: AnyHasher,
    count: u64,
}

impl FileChecksum {
    /// The kind of the checksum.
    pub closed spec fn algorithm(&self) -> Algorithm {
        match self.hasher {
            AnyHasher::Sha256(_) => Algorithm::Sha256,
            AnyHasher::Md5(_) => Algorithm::Md5,
        }
    }

    /// The bytes that were read so far.
    pub closed spec fn read(&self) -> Seq<u8> {
        match self.hasher {
            AnyHasher::Sha256(hasher) => sha256_fed(hasher),
            AnyHasher::Md5(hasher) => md5_fed(hasher),
        }
    }

    /// The bytes are counted, and they are not too many.
    #[verifier::type_invariant]
    closed spec fn counts(&self) -> bool {
        self.count == self.read().len() && self.count < CHECKSUM_LIMIT
    }

    /// The checksum of a file of which nothing was read yet.
    pub fn start(algorithm: Algorithm) -> (r: Self)
        ensures
            r.algorithm() == algorithm,
            r.read() == Seq::<u8>::empty(),
    {
        let hasher = match algorithm {
            Algorithm::Sha256 => AnyHasher::Sha256(sha256_new()),
            Algorithm::Md5 => AnyHasher::Md5(md5_new()),
        };
        FileChecksum { hasher, count: 0 }
    }

    /// Whether a block of `len` bytes can still be read.
    pub fn has_room(&self, len: usize) -> (r: bool)
        ensures
            r == (self.read().len() + len < CHECKSUM_LIMIT),
    {
        proof {
            use_type_invariant(self);
        }
        (len as u64) < CHECKSUM_LIMIT - self.count
    }

    /// Reads the next block of the file.
    pub fn update(self, block: &[u8]) -> (r: Self)
        requires
            self.read().len() + block@.len() < CHECKSUM_LIMIT,
        ensures
            r.algorithm() == self.algorithm(),
            r.read() == self.read() + block@,
    {
        proof {
            use_type_invariant(&self);
        }
        let count = self.count + block.len() as u64;
        let hasher = match self.hasher {
            AnyHasher::Sha256(mut hasher) => {
                sha256_update(&mut hasher, block);
                AnyHasher::Sha256(hasher)
            },
            AnyHasher::Md5(mut hasher) => {
                md5_update(&mut hasher, block);
                AnyHasher::Md5(hasher)
            },
        };
        FileChecksum { hasher, count }
    }

    /// The checksum of all that was read.
    pub fn finish(self) -> (out: String)
        ensures
            out@ == checksum_text(self.algorithm(), self.read()),
    {
        proof {
            use_type_invariant(&self);
        }
        let digest = match self.hasher {
            AnyHasher::Sha256(hasher) => sha256_finalize(hasher),
            AnyHasher::Md5(hasher) => md5_finalize(hasher),
        };
        hex_encode(digest.as_slice())
    }
}

} // verus!
