//! A small options-holding ledger: users, option contracts, and the
//! ownership links between them, together with a dense matrix report
//! (options as rows, users as columns, cell = quantity held).
//!
//! The store lives in memory and is threaded explicitly through every
//! operation; a shell around the library owns the handle, serializes
//! access to it, and persists the state.

pub mod laws;
pub mod matrix;
pub mod models;
pub mod ownership;
pub mod store;
