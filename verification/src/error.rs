//! The error type shared by every module.

use vstd::prelude::*;

verus! {

/// What went wrong in an operation of this library.
#[derive(Debug, Clone, Copy, PartialEq, Eq)]
pub enum RnsError {
    /// A bounded buffer was too small for what had to be written.
    OutOfMemory,
    /// An argument was outside the accepted range.
    InvalidArgument,
    /// A signature did not match the signed data.
    IncorrectSignature,
    /// A hash did not have the expected value or length.
    IncorrectHash,
    /// A packet or packet payload was malformed.
    PacketError,
    /// A connection could not be established or was lost.
    ConnectionError,
    /// A storage operation failed.
    Storage,
    /// The peer or device does not support what was asked of it.
    Unsupported,
    /// A resource transfer failed, with the reason.
    ResourceMsg(&'static str),
}

} // verus!
