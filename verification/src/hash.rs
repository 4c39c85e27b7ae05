//! Full and truncated SHA-256 hashes.

use sha2::Digest;
use rand_core::RngCore;
use vstd::prelude::*;

use crate::bytes;

verus! {

/// Length of a full hash in bytes.
pub const HASH_SIZE: usize = 32;

/// Length of a truncated (address) hash in bytes.
pub const ADDRESS_HASH_SIZE: usize = 16;

/// The SHA-256 digest of a byte string.
pub uninterp spec fn sha256_digest(data: Seq<u8>) -> Seq<u8>;

/// Hashes `data` with `sha2::Sha256::digest`. The result is the SHA-256 digest of the whole
/// input and depends on nothing else.
#[verifier::external_body]
pub(crate) fn sha256(data: &[u8]) -> (digest: [u8; 32])
    ensures
        digest@ == sha256_digest(data@),
{
    sha2::Sha256::digest(data).into()
}

/// Fills 32 bytes from the operating system's generator with `rand_core::OsRng`. Nothing is
/// claimed of the bytes. (`OsRng` panics where the operating system has no randomness to give,
/// which no argument decides.)
#[verifier::external_body]
pub(crate) fn random_bytes() -> (bytes: [u8; 32]) {
    let mut bytes = [0u8; 32];
    rand_core::OsRng.fill_bytes(&mut bytes);
    bytes
}

/// A full 32-byte hash.
#[derive(Debug, Clone, Copy, PartialEq, Eq)]
pub struct Hash(pub [u8; 32]);

impl View for Hash {
    type V = Seq<u8>;

    open spec fn view(&self) -> Seq<u8> {
        self.0@
    }
}

impl Hash {
    /// Whether two hashes are equal.
    pub fn same(&self, other: &Self) -> (r: bool)
        ensures
            r == (*self == *other),
    {
        let r: bool = bytes::equal(&self.0, &other.0);
        proof {
            if r {
                assert(self.0 =~= other.0);
            }
        }
        r
    }

    /// The hash with the given bytes.
    pub fn new(hash: [u8; 32]) -> (r: Self)
        ensures
            r == Hash(hash),
    {
        Hash(hash)
    }

    /// The SHA-256 hash of `data`.
    pub fn new_from_slice(data: &[u8]) -> (r: Self)
        ensures
            r@ == sha256_digest(data@),
    {
        Hash(sha256(data))
    }

    /// The SHA-256 hash of `head` followed by `tail`.
    pub fn new_from_parts(head: &[u8], tail: &[u8]) -> (r: Self)
        ensures
            r@ == sha256_digest(head@ + tail@),
    {
        let mut joined: Vec<u8> = bytes::to_vec(head);
        bytes::append(&mut joined, tail);
        Hash(sha256(&joined))
    }

    /// A random hash from the operating system's generator.
    pub fn new_from_rand() -> (r: Self) {
        Hash(random_bytes())
    }

    /// The hash bytes.
    pub fn as_slice(&self) -> (r: &[u8])
        ensures
            r@ == self@,
    {
        &self.0
    }

    /// The first bytes of `data` as a hash, when there are enough of them.
    pub fn from_prefix(data: &[u8], from: usize) -> (r: Option<Self>)
        ensures
            r is Some <==> from + 32 <= data@.len(),
            r is Some ==> r->0@ == data@.subrange(from as int, from + 32),
    {
        if data.len() < 32 || from > data.len() - 32 {
            return None;
        }
        let mut hash: [u8; 32] = [0; 32];
        let mut i: usize = 0;
        while i < 32
            invariant
                i <= 32,
                from + 32 <= data.len(),
                hash@.len() == 32,
                forall|j: int| 0 <= j < i ==> hash@[j] == data@[from + j],
            decreases 32 - i,
        {
            hash[i] = data[from + i];
            i += 1;
        }
        assert(hash@ =~= data@.subrange(from as int, from + 32));
        Some(Hash(hash))
    }
}

/// A hash truncated to 16 bytes: destinations, links and requests are addressed by one.
#[derive(Debug, Clone, Copy, PartialEq, Eq)]
pub struct AddressHash(pub [u8; 16]);

impl View for AddressHash {
    type V = Seq<u8>;

    open spec fn view(&self) -> Seq<u8> {
        self.0@
    }
}

impl AddressHash {
    /// Whether two hashes are equal.
    pub fn same(&self, other: &Self) -> (r: bool)
        ensures
            r == (*self == *other),
    {
        let r: bool = bytes::equal(&self.0, &other.0);
        proof {
            if r {
                assert(self.0 =~= other.0);
            }
        }
        r
    }

    /// The address with the given bytes.
    pub fn new(hash: [u8; 16]) -> (r: Self)
        ensures
            r == AddressHash(hash),
    {
        AddressHash(hash)
    }

    /// The all-zero address.
    pub fn new_empty() -> (r: Self)
        ensures
            r@ == Seq::new(16, |i: int| 0u8),
    {
        let r: AddressHash = AddressHash([0; 16]);
        assert(r@ =~= Seq::new(16, |i: int| 0u8));
        r
    }

    /// The first 16 bytes of `hash`.
    pub fn new_from_hash(hash: &Hash) -> (r: Self)
        ensures
            r@ == hash@.subrange(0, 16),
    {
        let mut out: [u8; 16] = [0; 16];
        let mut i: usize = 0;
        while i < 16
            invariant
                i <= 16,
                out@.len() == 16,
                hash@.len() == 32,
                forall|j: int| 0 <= j < i ==> out@[j] == hash@[j],
            decreases 16 - i,
        {
            out[i] = hash.0[i];
            i += 1;
        }
        assert(out@ =~= hash@.subrange(0, 16));
        AddressHash(out)
    }

    /// The truncated SHA-256 hash of `data`.
    pub fn new_from_slice(data: &[u8]) -> (r: Self)
        ensures
            r@ == sha256_digest(data@).subrange(0, 16),
    {
        AddressHash::new_from_hash(&Hash::new_from_slice(data))
    }

    /// The address that `data` holds, when `data` has the length of one.
    pub fn from_bytes(data: &[u8]) -> (r: Option<Self>)
        ensures
            r is Some <==> data@.len() == 16,
            r is Some ==> r->0@ == data@,
    {
        if data.len() != 16 {
            return None;
        }
        let mut out: [u8; 16] = [0; 16];
        let mut i: usize = 0;
        while i < 16
            invariant
                i <= 16,
                out@.len() == 16,
                data@.len() == 16,
                forall|j: int| 0 <= j < i ==> out@[j] == data@[j],
            decreases 16 - i,
        {
            out[i] = data[i];
            i += 1;
        }
        assert(out@ =~= data@);
        Some(AddressHash(out))
    }

    /// The address bytes.
    pub fn as_slice(&self) -> (r: &[u8])
        ensures
            r@ == self@,
    {
        &self.0
    }
}

} // verus!
