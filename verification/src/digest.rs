//! Digests of text and of files.
//!
//! A file is hashed as it is read, piece by piece: the digest is that of all the
//! pieces together.

use sha2::{Digest, Sha256};
use vstd::prelude::*;

use crate::text;

verus! {

/// Most bytes that are hashed: their bits are counted in 64 bits.
pub const MAX_HASHED: u64 = 0x1fff_ffff_ffff_ffff;

/// The SHA-256 digest of some bytes.
pub uninterp spec fn sha256(bytes: Seq<u8>) -> Seq<u8>;

/// `sha2::Sha256::digest`: the digest of the bytes, which is 32 bytes long. Its
/// count of their bits overflows beyond `MAX_HASHED`.
#[verifier::external_body]
pub(crate) fn sha256_of(bytes: &[u8]) -> (r: Vec<u8>)
    requires
        bytes@.len() <= MAX_HASHED,
    ensures
        r@ == sha256(bytes@),
        r@.len() == 32,
{
    Sha256::digest(bytes).to_vec()
}

/// `sha2::Sha256`: a digest in the making. Opaque; what it was given is `fed`.
#[verifier::external_body]
pub struct Hasher {
    inner: Sha256,
}

/// The bytes a hasher was given, in order.
pub uninterp spec fn fed(hasher: Hasher) -> Seq<u8>;

/// `sha2::Sha256::new`: a hasher that was given nothing.
#[verifier::external_body]
pub(crate) fn hasher_new() -> (r: Hasher)
    ensures
        fed(r) == Seq::<u8>::empty(),
{
    Hasher { inner: Sha256::new() }
}

/// `sha2::Sha256::update`: gives a hasher more bytes, behind those it has. Its
/// count of them has to stay within `MAX_HASHED`.
#[verifier::external_body]
pub(crate) fn hasher_update(hasher: &mut Hasher, bytes: &[u8])
    requires
        fed(*old(hasher)).len() + bytes@.len() <= MAX_HASHED,
    ensures
        fed(*final(hasher)) == fed(*old(hasher)) + bytes@,
{
    hasher.inner.update(bytes);
}

/// `sha2::Sha256::finalize`: the digest of all the bytes a hasher was given, which
/// is 32 bytes long. Its count of their bits overflows beyond `MAX_HASHED`.
#[verifier::external_body]
pub(crate) fn hasher_finalize(hasher: Hasher) -> (r: Vec<u8>)
    requires
        fed(hasher).len() <= MAX_HASHED,
    ensures
        r@ == sha256(fed(hasher)),
        r@.len() == 32,
{
    hasher.inner.finalize().to_vec()
}

/// The digest of a file that is being read.
pub struct FileHash {
    hasher: Hasher,
    length: u64,
}

impl View for FileHash {
    type V = Seq<u8>;

    /// What was read so far.
    closed spec fn view(&self) -> Seq<u8> {
        fed(self.hasher)
    }
}

impl FileHash {
    pub closed spec fn wf(self) -> bool {
        self.length == fed(self.hasher).len() && self.length <= MAX_HASHED
    }

    /// Nothing was read yet.
    pub fn new() -> (r: FileHash)
        ensures
            r.wf(),
            r@ == Seq::<u8>::empty(),
    {
        FileHash { hasher: hasher_new(), length: 0 }
    }

    /// How many bytes may still be fed.
    pub fn room(&self) -> (r: u64)
        requires
            self.wf(),
        ensures
            r == MAX_HASHED - self@.len(),
    {
        MAX_HASHED - self.length
    }

    /// The next piece of the file.
    pub fn feed(&mut self, bytes: &[u8])
        requires
            old(self).wf(),
            old(self)@.len() + bytes@.len() <= MAX_HASHED,
        ensures
            final(self).wf(),
            final(self)@ == old(self)@ + bytes@,
    {
        hasher_update(&mut self.hasher, bytes);
        self.length = self.length + bytes.len() as u64;
    }

    /// The digest of the whole file, in hexadecimal.
    pub fn finish(self) -> (r: String)
        requires
            self.wf(),
        ensures
            r@ == text::hex_text(sha256(self@)),
            r@.len() == 64,
    {
        let digest = hasher_finalize(self.hasher);
        proof {
            text::lemma_hex_text_len(digest@);
        }
        text::hex(digest.as_slice())
    }
}

} // verus!
