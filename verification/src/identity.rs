//! Identities, public and private.

use vstd::prelude::*;

use crate::bytes;
use crate::error::RnsError;
use crate::hash;
use crate::hash::AddressHash;
use crate::signature;
use crate::signature::{ed25519_public, ed25519_signature, ed25519_verified, x25519_public};

verus! {

/// Length of the two public keys of an identity together.
pub const IDENTITY_LENGTH: usize = 64;

/// The public keys of an identity: one for encryption, one for signatures.
#[derive(Clone, Copy, Debug, PartialEq, Eq)]
pub struct Identity {
    pub public_key: [u8; 32],
    pub verifying_key: [u8; 32],
}

impl View for Identity {
    type V = Seq<u8>;

    open spec fn view(&self) -> Seq<u8> {
        self.public_key@ + self.verifying_key@
    }
}

/// The address of an identity: the truncated hash of its public keys.
pub open spec fn identity_address(keys: Seq<u8>) -> Seq<u8> {
    hash::sha256_digest(keys).subrange(0, 16)
}

impl Identity {
    /// The identity with these keys, the one for encryption first.
    pub fn new_from_bytes(keys: &[u8; 64]) -> (r: Self)
        ensures
            r@ == keys@,
    {
        let mut public_key: [u8; 32] = [0; 32];
        let mut verifying_key: [u8; 32] = [0; 32];
        let mut i: usize = 0;
        while i < 32
            invariant
                i <= 32,
                public_key@.len() == 32,
                verifying_key@.len() == 32,
                keys@.len() == 64,
                forall|k: int| 0 <= k < i ==> public_key@[k] == keys@[k],
                forall|k: int| 0 <= k < i ==> verifying_key@[k] == keys@[32 + k],
            decreases 32 - i,
        {
            public_key[i] = keys[i];
            verifying_key[i] = keys[32 + i];
            i += 1;
        }
        let r = Identity { public_key, verifying_key };
        assert(r@ =~= keys@);
        r
    }

    /// The keys, the one for encryption first.
    pub fn to_bytes(&self) -> (r: Vec<u8>)
        ensures
            r@ == self@,
    {
        let mut r: Vec<u8> = bytes::to_vec(&self.public_key);
        bytes::append(&mut r, &self.verifying_key);
        r
    }

    /// The address of the identity.
    pub fn address_hash(&self) -> (r: AddressHash)
        ensures
            r@ == identity_address(self@),
    {
        AddressHash::new_from_slice(&self.to_bytes())
    }

    /// Whether a signature of a message is one of this identity.
    pub fn verify(&self, message: &[u8], signature: &[u8; 64]) -> (r: bool)
        ensures
            r == ed25519_verified(self.verifying_key@, message@, signature@),
    {
        signature::verify(&self.verifying_key, message, signature)
    }
}

/// The secret keys of an identity.
#[derive(Clone, Copy, Debug, PartialEq, Eq)]
pub struct PrivateIdentity {
    /// The secret key for encryption.
    pub private_key: [u8; 32],
    /// The seed of the key for signatures.
    pub sign_key: [u8; 32],
}

impl View for PrivateIdentity {
    type V = Seq<u8>;

    open spec fn view(&self) -> Seq<u8> {
        self.private_key@ + self.sign_key@
    }
}

impl PrivateIdentity {
    /// The identity with these secret keys, the one for encryption first; there have to be 64
    /// bytes of them.
    pub fn new_from_bytes(keys: &[u8]) -> (r: Result<Self, RnsError>)
        ensures
            keys@.len() == 64 ==> r is Ok && r->Ok_0@ == keys@,
            keys@.len() != 64 ==> r == Err::<Self, RnsError>(RnsError::IncorrectHash),
    {
        if keys.len() != 64 {
            return Err(RnsError::IncorrectHash);
        }
        let mut private_key: [u8; 32] = [0; 32];
        let mut sign_key: [u8; 32] = [0; 32];
        let mut i: usize = 0;
        while i < 32
            invariant
                i <= 32,
                private_key@.len() == 32,
                sign_key@.len() == 32,
                keys@.len() == 64,
                forall|k: int| 0 <= k < i ==> private_key@[k] == keys@[k],
                forall|k: int| 0 <= k < i ==> sign_key@[k] == keys@[32 + k],
            decreases 32 - i,
        {
            private_key[i] = keys[i];
            sign_key[i] = keys[32 + i];
            i += 1;
        }
        let r = PrivateIdentity { private_key, sign_key };
        assert(r@ =~= keys@);
        Ok(r)
    }

    /// The secret keys, the one for encryption first.
    pub fn to_bytes(&self) -> (r: Vec<u8>)
        ensures
            r@ == self@,
    {
        let mut r: Vec<u8> = bytes::to_vec(&self.private_key);
        bytes::append(&mut r, &self.sign_key);
        r
    }

    /// The public keys.
    pub fn as_identity(&self) -> (r: Identity)
        ensures
            r.public_key@ == x25519_public(self.private_key@),
            r.verifying_key@ == ed25519_public(self.sign_key@),
    {
        Identity {
            public_key: signature::encryption_key(&self.private_key),
            verifying_key: signature::public_key(&self.sign_key),
        }
    }

    /// Signs a message.
    pub fn sign(&self, message: &[u8]) -> (r: [u8; 64])
        ensures
            r@ == ed25519_signature(self.sign_key@, message@),
            ed25519_verified(ed25519_public(self.sign_key@), message@, r@),
    {
        signature::sign(&self.sign_key, message)
    }
}

} // verus!
