//! Identities in files.

use vstd::prelude::*;

use crate::error::RnsError;
use crate::identity::{Identity, PrivateIdentity};
use crate::signature::{ed25519_public, x25519_public};
use crate::storage::backend::Storage;
use crate::storage::files::array64;

verus! {

/// An identity that can be kept in files.
pub trait IdentityFiles {
    /// What a file of the secret keys holds; none without secret keys.
    spec fn secret(&self) -> Option<Seq<u8>>;

    /// What a file of the public keys holds.
    spec fn public(&self) -> Seq<u8>;

    /// Writes the secret keys to a file.
    fn to_file<S: Storage>(&self, storage: &mut S, path: &str) -> (r: Result<(), RnsError>)
        requires
            old(storage).wf(),
        ensures
            final(storage).wf(),
            self.secret() is None ==> r == Err::<(), RnsError>(RnsError::Unsupported)
                && final(storage).files() == old(storage).files(),
            self.secret() is Some && r is Ok ==> final(storage).files() == old(
                storage,
            ).files().insert(path@, self.secret()->0),
    ;

    /// Writes the public keys to a file.
    fn pub_to_file<S: Storage>(&self, storage: &mut S, path: &str) -> (r: Result<(), RnsError>)
        requires
            old(storage).wf(),
        ensures
            final(storage).wf(),
            r is Ok ==> final(storage).files() == old(storage).files().insert(
                path@,
                self.public(),
            ),
    ;
}

impl IdentityFiles for PrivateIdentity {
    open spec fn secret(&self) -> Option<Seq<u8>> {
        Some(self@)
    }

    open spec fn public(&self) -> Seq<u8> {
        x25519_public(self.private_key@) + ed25519_public(self.sign_key@)
    }

    fn to_file<S: Storage>(&self, storage: &mut S, path: &str) -> (r: Result<(), RnsError>) {
        storage.write(path, &self.to_bytes())
    }

    fn pub_to_file<S: Storage>(&self, storage: &mut S, path: &str) -> (r: Result<(), RnsError>) {
        storage.write(path, &self.as_identity().to_bytes())
    }
}

impl IdentityFiles for Identity {
    open spec fn secret(&self) -> Option<Seq<u8>> {
        None
    }

    open spec fn public(&self) -> Seq<u8> {
        self@
    }

    fn to_file<S: Storage>(&self, storage: &mut S, path: &str) -> (r: Result<(), RnsError>) {
        Err(RnsError::Unsupported)
    }

    fn pub_to_file<S: Storage>(&self, storage: &mut S, path: &str) -> (r: Result<(), RnsError>) {
        storage.write(path, &self.to_bytes())
    }
}

/// The two keys in a file, whether it exists, and whether it has their length.
pub open spec fn keys_in(files: Map<Seq<char>, Seq<u8>>, path: Seq<char>) -> Result<
    Seq<u8>,
    RnsError,
> {
    if !files.contains_key(path) {
        Err(RnsError::Storage)
    } else if files[path].len() != 64 {
        Err(RnsError::IncorrectHash)
    } else {
        Ok(files[path])
    }
}

/// An identity with its secret keys from a file, which holds the one for encryption first.
pub fn private_identity_from_file<S: Storage>(storage: &S, path: &str) -> (r: Result<
    PrivateIdentity,
    RnsError,
>)
    requires
        storage.wf(),
    ensures
        match keys_in(storage.files(), path@) {
            Ok(keys) => r is Ok && r->Ok_0@ == keys,
            Err(err) => r is Err && r->Err_0 == err,
        },
{
    match storage.read(path) {
        Some(keys) => PrivateIdentity::new_from_bytes(&keys),
        None => Err(RnsError::Storage),
    }
}

/// A public identity from a file.
pub fn identity_from_public_file<S: Storage>(storage: &S, path: &str) -> (r: Result<
    Identity,
    RnsError,
>)
    requires
        storage.wf(),
    ensures
        match keys_in(storage.files(), path@) {
            Ok(keys) => r is Ok && r->Ok_0@ == keys,
            Err(err) => r is Err && r->Err_0 == err,
        },
{
    match storage.read(path) {
        Some(keys) => if keys.len() != 64 {
            Err(RnsError::IncorrectHash)
        } else {
            Ok(Identity::new_from_bytes(&array64(&keys)))
        },
        None => Err(RnsError::Storage),
    }
}

/// A public identity that was written to a file is read from it.
pub proof fn public_file_round_trip(
    identity: Identity,
    files: Map<Seq<char>, Seq<u8>>,
    path: Seq<char>,
)
    ensures
        keys_in(files.insert(path, identity.public()), path) == Ok::<Seq<u8>, RnsError>(
            identity@,
        ),
{
}

/// The secret keys that were written to a file are read from it.
pub proof fn private_file_round_trip(
    identity: PrivateIdentity,
    files: Map<Seq<char>, Seq<u8>>,
    path: Seq<char>,
)
    ensures
        keys_in(files.insert(path, identity.secret()->0), path) == Ok::<Seq<u8>, RnsError>(
            identity@,
        ),
{
}

} // verus!
