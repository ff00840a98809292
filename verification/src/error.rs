//! The ways in which an operation of this library can fail.

use vstd::prelude::*;

verus! {

/// Every failure is final for the operation that reports it: nothing is
/// retried, and nothing is reported as a more general kind.
#[derive(Clone, Copy, Debug, PartialEq, Eq, Structural)]
pub enum AuthError {
    /// The group description is malformed: a modulus is zero, or the
    /// description is not consistent.
    InvalidParameters,
    /// The user already has a registration.
    AlreadyRegistered,
    /// No registration exists for the user.
    UnknownUser,
    /// No live session has this identifier: it was never issued, has expired,
    /// or was already used.
    UnknownSession,
    /// The response does not satisfy the verification equations.
    InvalidProof,
}

} // verus!
