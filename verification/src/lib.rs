//! Chaum-Pedersen proofs of knowledge of a discrete logarithm, and the
//! password-less login protocol built on them.
//!
//! A prover who knows `x` convinces a verifier who knows `alpha^x` and
//! `beta^x` that one exponent lies behind both, without showing it.
//!
//! - [`natural`]: numbers of any size, and what the arithmetic on them
//!   computes.
//! - [`zkp`]: the group description, the prover's response and the
//!   verifier's equations.
//! - [`params`]: the groups that are provisioned.
//! - [`theory`]: why honest proofs are accepted and others are not.
//! - [`protocol`]: registration, challenge and answer as a state machine.
//! - [`auth`]: the store that runs the state machine.
//! - [`assoc`]: association lists as finite maps.
//! - [`error`]: the ways in which an operation can fail.

pub mod assoc;
pub mod auth;
pub mod error;
pub mod natural;
pub mod params;
pub mod protocol;
pub mod theory;
pub mod zkp;
