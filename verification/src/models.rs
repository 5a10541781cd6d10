//! The entity types of the ledger and the error kinds its operations report.

use vstd::prelude::*;

verus! {

/// A person who may hold option contracts. Ids are assigned by the ledger,
/// ascending in creation order; names are unique across all users.
#[derive(Debug, PartialEq, Eq)]
pub struct User {
    pub id: i64,
    pub name: String,
}

/// An option contract. The symbol and expiration are free text (expiration
/// only has to be non-empty); the kind is exactly "call" or "put". The strike
/// is carried as the bit pattern of the caller's binary64 price: the ledger
/// stores and returns it untouched and never interprets it numerically.
#[derive(Debug, PartialEq, Eq)]
pub struct OptionContract {
    pub id: i64,
    pub symbol: String,
    pub option_type: String,
    pub strike: u64,
    pub expiration: String,
}

/// A link stating that one user holds `quantity` units of one option.
/// At most one link exists per (user, option) pair, and a persisted
/// quantity is always positive.
#[derive(Debug, Clone, Copy, PartialEq, Eq, Structural)]
pub struct OptionOwnership {
    pub user_id: i64,
    pub option_id: i64,
    pub quantity: i64,
}

/// One row of the matrix report: an option together with the quantities
/// held by each user, aligned positionally with the user column order.
#[derive(Debug, PartialEq, Eq)]
pub struct MatrixRow {
    pub option: OptionContract,
    pub quantities: Vec<i64>,
}

/// The derived report: users in ascending id order as columns, one row per
/// option in ascending id order. Rebuilt from the store on every request.
#[derive(Debug, PartialEq, Eq)]
pub struct MatrixView {
    pub users: Vec<User>,
    pub rows: Vec<MatrixRow>,
}

/// The error kinds the ledger reports. Storage-unavailability (a poisoned
/// lock, an unreachable file) belongs to the shell that owns the store
/// handle, not to the ledger logic itself.
#[derive(Debug, Clone, Copy, PartialEq, Eq, Structural)]
pub enum LedgerError {
    /// Malformed input rejected before it reaches the store: an empty user
    /// name, an option kind other than "call"/"put", an empty expiration.
    ValidationError,
    /// A uniqueness constraint would be broken: a duplicate user name.
    ConstraintViolation,
    /// An ownership write names a user or option id that does not exist.
    NotFound,
}

} // verus!
