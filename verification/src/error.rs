//! The library's error type.

use vstd::prelude::*;

use crate::model::AccountId;

verus! {

/// Errors the core engine reports.
///
/// Each variant carries the human-readable message the engine renders for it.
#[derive(Debug, Clone, PartialEq, Eq)]
pub enum BcError {
    /// A named record does not exist.
    NotFound(String),
    /// The caller asked for something the rules refuse.
    InvalidInput(String),
    /// Stored or imported data is malformed.
    BadData(String),
    /// The operation names an account whose kind does not allow it: the
    /// operation, the account, and the kind stored for it.
    InvalidAccountKind { operation: String, account_id: AccountId, kind: String },
    /// A value could not be serialised or deserialised.
    Serialisation(String),
    /// The database refused a statement. `unique_violation` records whether it
    /// refused it for breaking a `UNIQUE` constraint.
    Database { unique_violation: bool, message: String },
}

/// The result type of every fallible operation of the engine.
pub type BcResult<T> = Result<T, BcError>;

} // verus!
