//! Session rotation and session-key registration for a chain's validator set.
//!
//! The library keeps, per session, the ordered list of active validators, the
//! keys queued to become active, and a global index that maps every registered
//! raw key to the single validator that owns it.  A session policy decides when
//! a session ends; the rotation engine then promotes the queued keys, plans the
//! next queued set, and reports whether the identity of the roster changed.
use vstd::prelude::*;

pub mod author;
pub mod fraction;
pub mod keys;
pub mod laws;
pub mod model;
pub mod policy;
pub mod session;
pub mod store;

verus! {

/// Monotonically increasing counter of sessions, starting at 0.
pub type SessionIndex = u32;

/// Number of a block; sessions span contiguous ranges of blocks.
pub type BlockNumber = u64;

/// Stable identifier of a validator.
pub type ValidatorId = u64;

/// Identifier of an account; an account resolves to at most one validator.
pub type AccountId = u64;

/// Identifier of one cryptographic key role within a key bundle.
pub type KeyTypeId = u32;

/// Why a key-management operation was refused.  Every failing operation
/// returns one of these and leaves the state exactly as it was.
#[derive(Clone, Copy, PartialEq, Eq, Structural, Debug)]
pub enum Error {
    /// The ownership proof submitted with a key bundle failed verification.
    InvalidProof,
    /// The account has no associated validator id.
    NoAssociatedValidatorId,
    /// A raw key in the submitted bundle is already owned by another validator.
    DuplicatedKey,
    /// A purge was requested but no keys are registered for the validator.
    NoKeys,
    /// The account is not eligible to hold the reference needed to keep keys.
    NoAccount,
}

/// Why the genesis bootstrap was refused.  Either is a fatal configuration
/// error, not a runtime condition.
#[derive(Clone, Copy, PartialEq, Eq, Structural, Debug)]
pub enum GenesisError {
    /// Two configured validators submitted the same raw key for a key type.
    DuplicatedKey,
    /// The roster of session 0 or of session 1 would be empty.
    EmptyValidatorSet,
}

/// A record emitted by the rotation engine.
#[derive(Clone, Copy, PartialEq, Eq, Structural, Debug)]
pub enum Event {
    /// A new session began; the payload is its session index.
    NewSession(SessionIndex),
}

} // verus!
